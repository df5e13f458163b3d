use vstd::prelude::*;
use vstd::string::*;

use crate::errors::{ArithmeticError, ErrorView};
use crate::grammar::well_formed;
use crate::parsing::{Expression, TokenKind, TokenView};
use crate::precedence::{evaluated_fits, well_formed_evaluates};

verus! {

/// One of the four binary operations.
#[derive(Debug, Clone, Copy, PartialEq, Eq, Structural)]
pub enum Operator {
    Add,
    Sub,
    Mul,
    Div,
}

impl Operator {
    /// The operator that `text` spells, if it spells one.
    pub open spec fn of(text: Seq<char>) -> Option<Operator> {
        if text.len() != 1 {
            None
        } else if text[0] == '+' {
            Some(Operator::Add)
        } else if text[0] == '-' {
            Some(Operator::Sub)
        } else if text[0] == '*' {
            Some(Operator::Mul)
        } else if text[0] == '/' {
            Some(Operator::Div)
        } else {
            None
        }
    }

    /// Whether the operator binds tighter than addition.
    pub open spec fn multiplicative(self) -> bool {
        self == Operator::Mul || self == Operator::Div
    }

    /// The operator left by folding subtraction into addition.
    pub open spec fn normalized(self) -> Operator {
        if self == Operator::Sub {
            Operator::Add
        } else {
            self
        }
    }

    /// Reads an operator from its symbol. Any other text is an invalid token.
    pub fn from_str(s: &str) -> (result: Result<Operator, ArithmeticError>)
        ensures
            match result {
                Ok(operator) => Operator::of(s@) == Some(operator),
                Err(error) => Operator::of(s@) is None && error@ == ErrorView::InvalidToken(s@),
            },
    {
        if s.unicode_len() == 1 {
            let symbol = s.get_char(0);
            if symbol == '+' {
                return Ok(Operator::Add);
            } else if symbol == '-' {
                return Ok(Operator::Sub);
            } else if symbol == '*' {
                return Ok(Operator::Mul);
            } else if symbol == '/' {
                return Ok(Operator::Div);
            }
        }
        Err(ArithmeticError::InvalidToken(s.to_owned()))
    }
}

/// One summand of a reduced expression: the numbers at `first` to `last`,
/// chained from left to right by the operators between them, which all
/// multiply or divide. Where `negated` holds, the number at `first` is
/// taken with its sign turned.
#[derive(Debug, Clone, Copy, PartialEq, Eq, Structural)]
pub struct Term {
    pub negated: bool,
    pub first: usize,
    pub last: usize,
}

/// The mathematical content of a [`Term`].
pub struct TermView {
    pub negated: bool,
    pub first: int,
    pub last: int,
}

impl View for Term {
    type V = TermView;

    open spec fn view(&self) -> TermView {
        TermView { negated: self.negated, first: self.first as int, last: self.last as int }
    }
}

/// An expression reduced by precedence: its value is the sum of its terms,
/// taken from left to right.
#[derive(Debug, Clone, PartialEq, Eq)]
pub struct Reduction {
    /// The literal of each number, in the order of the expression.
    pub numbers: Vec<String>,
    /// The operator between each number and the next, subtraction folded
    /// into addition.
    pub operators: Vec<Operator>,
    /// The summands, in the order of the expression.
    pub terms: Vec<Term>,
}

/// The mathematical content of a [`Reduction`].
pub struct ReductionView {
    pub numbers: Seq<Seq<char>>,
    pub operators: Seq<Operator>,
    pub terms: Seq<TermView>,
}

impl ReductionView {
    /// Whether each term is a run of numbers among the first `count`, with a
    /// multiplication or a division between each and the next.
    pub open spec fn fits(self, count: int) -> bool {
        forall|k: int|
            0 <= k < self.terms.len() ==> 0 <= (#[trigger] self.terms[k]).first
                <= self.terms[k].last < count && self.terms[k].last <= self.operators.len()
                && all_multiplicative(self.operators, self.terms[k].first, self.terms[k].last)
    }
}

/// What each of the texts holds.
pub open spec fn texts_view(texts: Seq<String>) -> Seq<Seq<char>> {
    Seq::new(texts.len(), |i: int| texts[i]@)
}

/// What each of the terms holds.
pub open spec fn terms_view(terms: Seq<Term>) -> Seq<TermView> {
    Seq::new(terms.len(), |i: int| terms[i]@)
}

impl View for Reduction {
    type V = ReductionView;

    open spec fn view(&self) -> ReductionView {
        ReductionView {
            numbers: texts_view(self.numbers@),
            operators: self.operators@,
            terms: terms_view(self.terms@),
        }
    }
}

/// The texts of the tokens of one kind, in order.
pub open spec fn texts_of(tokens: Seq<TokenView>, kind: TokenKind) -> Seq<Seq<char>>
    decreases tokens.len(),
{
    if tokens.len() == 0 {
        Seq::empty()
    } else if tokens.last().kind == kind {
        texts_of(tokens.drop_last(), kind).push(tokens.last().text)
    } else {
        texts_of(tokens.drop_last(), kind)
    }
}

/// The index of the first text at or behind `from` that spells no operator:
/// the number of texts where each spells one.
pub open spec fn first_unknown(symbols: Seq<Seq<char>>, from: int) -> int
    decreases symbols.len() - from,
{
    if from < 0 || from >= symbols.len() {
        symbols.len() as int
    } else if Operator::of(symbols[from]) is None {
        from
    } else {
        first_unknown(symbols, from + 1)
    }
}

/// The operators that the texts spell.
pub open spec fn decoded(symbols: Seq<Seq<char>>) -> Seq<Operator> {
    Seq::new(symbols.len(), |i: int| Operator::of(symbols[i]).unwrap())
}

/// The operators with each subtraction turned into an addition.
pub open spec fn normalized(operators: Seq<Operator>) -> Seq<Operator> {
    Seq::new(operators.len(), |i: int| operators[i].normalized())
}

/// Whether the number at `index` is subtracted from what stands before it.
pub open spec fn follows_minus(operators: Seq<Operator>, index: int) -> bool {
    0 < index <= operators.len() && operators[index - 1] == Operator::Sub
}

/// The index of the number that begins the product to which the number at
/// `index` belongs.
pub open spec fn run_start(operators: Seq<Operator>, index: int) -> int
    decreases index,
{
    if 0 < index <= operators.len() && operators[index - 1].multiplicative() {
        run_start(operators, index - 1)
    } else {
        index
    }
}

/// Whether the operators from `first` up to `last` all multiply or divide.
pub open spec fn all_multiplicative(operators: Seq<Operator>, first: int, last: int) -> bool {
    forall|k: int| first <= k < last ==> (#[trigger] operators[k]).multiplicative()
}

/// The term with the given parts.
pub open spec fn term(negated: bool, first: int, last: int) -> TermView {
    TermView { negated, first, last }
}

/// The terms from the one that began at `first` and has reached the number at
/// `at`: it grows while operators multiply or divide, and an addition or a
/// subtraction closes it and opens the next.
pub open spec fn terms_from(operators: Seq<Operator>, negated: bool, first: int, at: int) -> Seq<
    TermView,
>
    decreases operators.len() - at,
{
    if at < 0 || at >= operators.len() {
        seq![term(negated, first, at)]
    } else if operators[at].multiplicative() {
        terms_from(operators, negated, first, at + 1)
    } else {
        seq![term(negated, first, at)] + terms_from(
            operators,
            operators[at] == Operator::Sub,
            at + 1,
            at + 1,
        )
    }
}

/// The terms of an expression under the usual precedence: products and
/// quotients are formed first, from left to right, and a term that follows a
/// minus is negated.
pub open spec fn precedence_terms(operators: Seq<Operator>) -> Seq<TermView> {
    terms_from(operators, false, 0, 0)
}

/// What evaluating a sequence of tokens gives.
pub open spec fn evaluated(tokens: Seq<TokenView>) -> Result<ReductionView, ErrorView> {
    let numbers = texts_of(tokens, TokenKind::Number);
    let symbols = texts_of(tokens, TokenKind::Operator);
    if first_unknown(symbols, 0) < symbols.len() {
        Err(ErrorView::InvalidToken(symbols[first_unknown(symbols, 0)]))
    } else if numbers.len() != symbols.len() + 1 {
        Err(ErrorView::MalformedExpression)
    } else {
        Ok(
            ReductionView {
                numbers,
                operators: normalized(decoded(symbols)),
                terms: precedence_terms(decoded(symbols)),
            },
        )
    }
}

/// The mathematical content of what [`evaluate`] returns.
pub open spec fn evaluation_outcome(result: Result<Reduction, ArithmeticError>) -> Result<
    ReductionView,
    ErrorView,
> {
    match result {
        Ok(reduction) => Ok(reduction@),
        Err(error) => Err(error@),
    }
}

/// The texts of the tokens of one kind, in order.
fn texts(expression: &Expression, kind: TokenKind) -> (found: Vec<String>)
    ensures
        texts_view(found@) == texts_of(expression@, kind),
{
    let mut found: Vec<String> = Vec::new();
    let mut index: usize = 0;
    proof {
        assert(expression@.take(0) =~= Seq::empty());
        assert(texts_view(found@) =~= Seq::empty());
    }
    while index < expression.tokens.len()
        invariant
            index <= expression.tokens.len(),
            texts_view(found@) == texts_of(expression@.take(index as int), kind),
        decreases expression.tokens.len() - index,
    {
        let ghost before = texts_view(found@);
        proof {
            assert(expression@.take(index + 1).drop_last() =~= expression@.take(index as int));
            assert(expression@.take(index + 1).last() == expression.tokens@[index as int]@);
        }
        if expression.tokens[index].kind == kind {
            found.push(expression.tokens[index].text.clone());
            proof {
                assert(texts_view(found@) =~= before.push(expression.tokens@[index as int].text@));
            }
        }
        index = index + 1;
    }
    proof {
        assert(expression@.take(index as int) =~= expression@);
    }
    found
}

/// Reads each symbol as an operator, and fails at the first that is none.
fn decode(symbols: &Vec<String>) -> (result: Result<Vec<Operator>, ArithmeticError>)
    ensures
        match result {
            Ok(operators) => first_unknown(texts_view(symbols@), 0) == symbols.len()
                && operators@ == decoded(texts_view(symbols@)),
            Err(error) => first_unknown(texts_view(symbols@), 0) < symbols.len() && error@
                == ErrorView::InvalidToken(
                texts_view(symbols@)[first_unknown(texts_view(symbols@), 0)],
            ),
        },
{
    let ghost all = texts_view(symbols@);
    let mut operators: Vec<Operator> = Vec::new();
    let mut index: usize = 0;
    while index < symbols.len()
        invariant
            all == texts_view(symbols@),
            index <= symbols.len(),
            first_unknown(all, 0) == first_unknown(all, index as int),
            operators@ == decoded(all).take(index as int),
        decreases symbols.len() - index,
    {
        match Operator::from_str(symbols[index].as_str()) {
            Ok(operator) => {
                operators.push(operator);
                proof {
                    assert(operators@ =~= decoded(all).take(index + 1));
                }
            },
            Err(error) => {
                return Err(error);
            },
        }
        index = index + 1;
    }
    proof {
        assert(decoded(all).take(index as int) =~= decoded(all));
    }
    Ok(operators)
}

/// A term for each number, holding that number alone.
fn single_terms(count: usize) -> (slots: Vec<Term>)
    ensures
        slots.len() == count,
        forall|j: int| 0 <= j < count ==> (#[trigger] slots[j])@ == term(false, j, j),
{
    let mut slots: Vec<Term> = Vec::new();
    let mut index: usize = 0;
    while index < count
        invariant
            index <= count,
            slots.len() == index,
            forall|j: int| 0 <= j < index ==> (#[trigger] slots[j])@ == term(false, j, j),
        decreases count - index,
    {
        slots.push(Term { negated: false, first: index, last: index });
        index = index + 1;
    }
    slots
}

/// The first pass: each subtraction becomes an addition, and the number
/// behind it is negated.
fn negate_subtrahends(operators: &mut Vec<Operator>, slots: &mut Vec<Term>)
    requires
        old(slots).len() == old(operators).len() + 1,
        forall|j: int|
            0 <= j < old(slots).len() ==> (#[trigger] old(slots)[j])@ == term(false, j, j),
    ensures
        final(operators)@ == normalized(old(operators)@),
        final(slots).len() == old(slots).len(),
        forall|j: int|
            0 <= j < final(slots).len() ==> (#[trigger] final(slots)[j])@ == term(
                follows_minus(old(operators)@, j),
                j,
                j,
            ),
{
    let ghost given = operators@;
    let mut index: usize = 0;
    while index < operators.len()
        invariant
            index <= operators.len(),
            operators.len() == given.len(),
            slots.len() == given.len() + 1,
            forall|i: int| 0 <= i < index ==> operators[i] == (#[trigger] given[i]).normalized(),
            forall|i: int| index <= i < given.len() ==> operators[i] == #[trigger] given[i],
            forall|j: int|
                0 <= j <= index ==> (#[trigger] slots[j])@ == term(follows_minus(given, j), j, j),
            forall|j: int| index < j < slots.len() ==> (#[trigger] slots[j])@ == term(false, j, j),
        decreases operators.len() - index,
    {
        match operators[index] {
            Operator::Sub => {
                let slot = slots[index + 1];
                operators.set(index, Operator::Add);
                slots.set(
                    index + 1,
                    Term { negated: !slot.negated, first: slot.first, last: slot.last },
                );
            },
            _ => {},
        }
        index = index + 1;
    }
    proof {
        assert(operators@ =~= normalized(given));
    }
}

/// A product begins at or before each of its numbers.
pub proof fn run_start_bounds(operators: Seq<Operator>, index: int)
    requires
        0 <= index,
    ensures
        0 <= run_start(operators, index) <= index,
    decreases index,
{
    if 0 < index <= operators.len() && operators[index - 1].multiplicative() {
        run_start_bounds(operators, index - 1);
    }
}

/// The second pass: each product or quotient is folded into the slot of its
/// right operand, and the slot of its left operand is marked as used up.
fn fold_products(operators: &Vec<Operator>, slots: &mut Vec<Term>) -> (consumed: Vec<bool>)
    requires
        old(slots).len() == operators.len() + 1,
        forall|j: int|
            0 <= j < old(slots).len() ==> (#[trigger] old(slots)[j]).first == j && old(
                slots,
            )[j].last == j,
        forall|j: int|
            0 < j < old(slots).len() && operators[j - 1].multiplicative() ==> !(#[trigger] old(
                slots,
            )[j]).negated,
    ensures
        consumed.len() == final(slots).len() == old(slots).len(),
        forall|j: int|
            0 <= j < consumed.len() ==> #[trigger] consumed[j] == (j < operators.len()
                && operators[j].multiplicative()),
        forall|j: int|
            0 <= j < final(slots).len() ==> (#[trigger] final(slots)[j])@ == term(
                old(slots)[run_start(operators@, j)].negated,
                run_start(operators@, j),
                j,
            ),
{
    let ghost given = slots@;
    let mut consumed: Vec<bool> = Vec::new();
    let mut index: usize = 0;
    proof {
        assert forall|j: int| 0 <= j < given.len() implies 0 <= #[trigger] run_start(
            operators@,
            j,
        ) <= j by {
            run_start_bounds(operators@, j);
        }
    }
    while index < operators.len()
        invariant
            index <= operators.len(),
            slots.len() == given.len() == operators.len() + 1,
            consumed.len() == index,
            forall|j: int| 0 <= j < given.len() ==> 0 <= #[trigger] run_start(operators@, j) <= j,
            forall|j: int|
                0 <= j < given.len() ==> (#[trigger] given[j]).first == j && given[j].last == j,
            forall|j: int|
                0 <= j < index ==> #[trigger] consumed[j] == operators[j].multiplicative(),
            forall|j: int|
                0 <= j <= index ==> (#[trigger] slots[j])@ == term(
                    given[run_start(operators@, j)].negated,
                    run_start(operators@, j),
                    j,
                ),
            forall|j: int| index < j < slots.len() ==> #[trigger] slots[j] == given[j],
        decreases operators.len() - index,
    {
        match operators[index] {
            Operator::Mul | Operator::Div => {
                let left = slots[index];
                slots.set(
                    index + 1,
                    Term { negated: left.negated, first: left.first, last: index + 1 },
                );
                consumed.push(true);
            },
            _ => {
                consumed.push(false);
            },
        }
        index = index + 1;
    }
    consumed.push(false);
    consumed
}

/// Folding subtraction into addition moves no product.
pub proof fn run_start_normalized(operators: Seq<Operator>, index: int)
    requires
        0 <= index,
    ensures
        run_start(normalized(operators), index) == run_start(operators, index),
    decreases index,
{
    if 0 < index <= operators.len() {
        assert(normalized(operators)[index - 1] == operators[index - 1].normalized());
        if operators[index - 1].multiplicative() {
            run_start_normalized(operators, index - 1);
        }
    }
}

/// The final step: the slots that no product used up, in order.
fn remaining(
    slots: &Vec<Term>,
    consumed: &Vec<bool>,
    Ghost(operators): Ghost<Seq<Operator>>,
) -> (terms: Vec<Term>)
    requires
        slots.len() == consumed.len() == operators.len() + 1,
        forall|j: int|
            0 <= j < consumed.len() ==> #[trigger] consumed[j] == (j < operators.len()
                && operators[j].multiplicative()),
        forall|j: int|
            0 <= j < slots.len() ==> (#[trigger] slots[j])@ == term(
                follows_minus(operators, run_start(operators, j)),
                run_start(operators, j),
                j,
            ),
    ensures
        terms_view(terms@) == precedence_terms(operators),
{
    let mut terms: Vec<Term> = Vec::new();
    let mut index: usize = 0;
    proof {
        assert(terms_view(terms@) =~= Seq::empty());
        assert(Seq::<TermView>::empty() + precedence_terms(operators) =~= precedence_terms(
            operators,
        ));
    }
    while index < slots.len()
        invariant
            index <= slots.len(),
            slots.len() == consumed.len() == operators.len() + 1,
            forall|j: int|
                0 <= j < consumed.len() ==> #[trigger] consumed[j] == (j < operators.len()
                    && operators[j].multiplicative()),
            forall|j: int|
                0 <= j < slots.len() ==> (#[trigger] slots[j])@ == term(
                    follows_minus(operators, run_start(operators, j)),
                    run_start(operators, j),
                    j,
                ),
            index < slots.len() ==> terms_view(terms@) + terms_from(
                operators,
                follows_minus(operators, run_start(operators, index as int)),
                run_start(operators, index as int),
                index as int,
            ) == precedence_terms(operators),
            index == slots.len() ==> terms_view(terms@) == precedence_terms(operators),
        decreases slots.len() - index,
    {
        let ghost before = terms_view(terms@);
        let ghost rest = terms_from(
            operators,
            follows_minus(operators, run_start(operators, index as int)),
            run_start(operators, index as int),
            index as int,
        );
        if !consumed[index] {
            terms.push(slots[index]);
            proof {
                assert(terms_view(terms@) =~= before.push(slots[index as int]@));
                if index < operators.len() {
                    let next = terms_from(
                        operators,
                        operators[index as int] == Operator::Sub,
                        index + 1,
                        index + 1,
                    );
                    assert(rest == seq![slots[index as int]@] + next);
                    assert(before + rest =~= terms_view(terms@) + next);
                } else {
                    assert(rest == seq![slots[index as int]@]);
                    assert(before + rest =~= terms_view(terms@));
                }
            }
        }
        index = index + 1;
    }
    terms
}

/// Reduces an expression by precedence. The numbers and the operators are
/// taken from the tokens in order. In a first pass each subtraction becomes
/// the addition of a negated number; in a second pass each product or
/// quotient is folded, from left to right, into the slot of its right
/// operand; what no product used up is then left to be summed.
///
/// An operator token that spells no operator is an invalid token, and
/// numbers that are not one more than the operators make the expression
/// malformed.
pub fn evaluate(expression: &Expression) -> (result: Result<Reduction, ArithmeticError>)
    ensures
        evaluation_outcome(result) == evaluated(expression@),
        well_formed(expression@) ==> result is Ok,
        result matches Ok(reduction) ==> reduction@.fits(reduction@.numbers.len() as int),
{
    proof {
        if well_formed(expression@) {
            well_formed_evaluates(expression@);
        }
        evaluated_fits(expression@);
    }
    let numbers = texts(expression, TokenKind::Number);
    let symbols = texts(expression, TokenKind::Operator);
    let mut operators = match decode(&symbols) {
        Ok(operators) => operators,
        Err(error) => {
            return Err(error);
        },
    };
    if numbers.len() == 0 || numbers.len() - 1 != operators.len() {
        return Err(ArithmeticError::MalformedExpression);
    }
    let ghost given = operators@;
    let mut slots = single_terms(numbers.len());
    negate_subtrahends(&mut operators, &mut slots);
    let consumed = fold_products(&operators, &mut slots);
    proof {
        assert forall|j: int| 0 <= j < slots.len() implies (#[trigger] slots[j])@ == term(
            follows_minus(given, run_start(given, j)),
            run_start(given, j),
            j,
        ) by {
            run_start_normalized(given, j);
            run_start_bounds(given, j);
        }
        assert forall|j: int| 0 <= j < consumed.len() implies #[trigger] consumed[j] == (j
            < given.len() && given[j].multiplicative()) by {
            if j < given.len() {
                assert(operators[j] == given[j].normalized());
            }
        }
    }
    let terms = remaining(&slots, &consumed, Ghost(given));
    Ok(Reduction { numbers, operators, terms })
}

} // verus!
