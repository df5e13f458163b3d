use vstd::prelude::*;

use crate::errors::{ArithmeticError, ErrorView};
use crate::evaluation::{
    all_multiplicative, decoded, evaluated, normalized, precedence_terms, term, terms_from,
    texts_of, Operator, Reduction, TermView,
};
use crate::parsing::{TokenKind, TokenView};
use crate::precedence::precedence_terms_partition;

verus! {

/// An arithmetic on values of type `N`: a zero to start a sum from, and the
/// operations that an expression can ask for.
#[verifier::reject_recursive_types(N)]
pub struct Arithmetic<N> {
    pub zero: N,
    pub negate: spec_fn(N) -> N,
    pub add: spec_fn(N, N) -> N,
    pub subtract: spec_fn(N, N) -> N,
    pub multiply: spec_fn(N, N) -> N,
    pub divide: spec_fn(N, N) -> N,
}

impl<N> Arithmetic<N> {
    /// Adding to zero changes nothing, subtracting is adding the negated
    /// value, and a product or quotient is negated by negating its left
    /// operand.
    pub open spec fn lawful(self) -> bool {
        &&& forall|x: N| #[trigger] (self.add)(self.zero, x) == x
        &&& forall|x: N, y: N| #[trigger] (self.subtract)(x, y) == (self.add)(x, (self.negate)(y))
        &&& forall|x: N, y: N|
            #[trigger] (self.multiply)((self.negate)(x), y) == (self.negate)((self.multiply)(x, y))
        &&& forall|x: N, y: N|
            #[trigger] (self.divide)((self.negate)(x), y) == (self.negate)((self.divide)(x, y))
    }

    /// One operation on two values.
    pub open spec fn apply(self, operator: Operator, left: N, right: N) -> N {
        match operator {
            Operator::Add => (self.add)(left, right),
            Operator::Sub => (self.subtract)(left, right),
            Operator::Mul => (self.multiply)(left, right),
            Operator::Div => (self.divide)(left, right),
        }
    }

    /// The value of a term: its first number, negated where the term says
    /// so, then each operator applied in turn to what has been reached and
    /// the next number.
    pub open spec fn product(self, numbers: Seq<N>, operators: Seq<Operator>, of: TermView) -> N
        decreases of.last - of.first,
    {
        if of.last <= of.first {
            if of.negated {
                (self.negate)(numbers[of.first])
            } else {
                numbers[of.first]
            }
        } else {
            self.apply(
                operators[of.last - 1],
                self.product(numbers, operators, term(of.negated, of.first, of.last - 1)),
                numbers[of.last],
            )
        }
    }

    /// The values of the terms added, one after the other, to `sum`.
    pub open spec fn total(
        self,
        numbers: Seq<N>,
        operators: Seq<Operator>,
        sum: N,
        terms: Seq<TermView>,
    ) -> N
        decreases terms.len(),
    {
        if terms.len() == 0 {
            sum
        } else {
            self.total(
                numbers,
                operators,
                (self.add)(sum, self.product(numbers, operators, terms.first())),
                terms.drop_first(),
            )
        }
    }

    /// The value of a reduced expression: its terms added, from left to
    /// right, to zero.
    pub open spec fn reduced_value(
        self,
        numbers: Seq<N>,
        operators: Seq<Operator>,
        terms: Seq<TermView>,
    ) -> N {
        self.total(numbers, operators, self.zero, terms)
    }

    /// What has been summed, with the product that was pending joined to it.
    pub open spec fn close(self, sum: Option<N>, pending: Operator, current: N) -> N {
        match sum {
            None => current,
            Some(sum) => self.apply(pending, sum, current),
        }
    }

    /// Reads an expression from the operator at `at` to its end, one
    /// operator at a time. `current` is the product reached so far, and `sum`
    /// what stands before it, to which `pending` will join it. An operator
    /// that multiplies or divides works on the product at once; one that adds
    /// or subtracts first lets the pending one be done.
    pub open spec fn scan(
        self,
        numbers: Seq<N>,
        operators: Seq<Operator>,
        sum: Option<N>,
        pending: Operator,
        current: N,
        at: int,
    ) -> N
        decreases operators.len() - at,
    {
        if at < 0 || at >= operators.len() {
            self.close(sum, pending, current)
        } else if operators[at].multiplicative() {
            self.scan(
                numbers,
                operators,
                sum,
                pending,
                self.apply(operators[at], current, numbers[at + 1]),
                at + 1,
            )
        } else {
            self.scan(
                numbers,
                operators,
                Some(self.close(sum, pending, current)),
                operators[at],
                numbers[at + 1],
                at + 1,
            )
        }
    }

    /// The value of an expression under the usual precedence, read from
    /// left to right with all four operations as they stand.
    pub open spec fn value(self, numbers: Seq<N>, operators: Seq<Operator>) -> N {
        self.scan(numbers, operators, None, Operator::Add, numbers[0], 0)
    }
}

/// Negating the first number of a product negates the product.
pub proof fn negated_product<N>(
    arithmetic: Arithmetic<N>,
    numbers: Seq<N>,
    operators: Seq<Operator>,
    first: int,
    last: int,
)
    requires
        arithmetic.lawful(),
        0 <= first <= last <= operators.len(),
        all_multiplicative(operators, first, last),
    ensures
        arithmetic.product(numbers, operators, term(true, first, last)) == (arithmetic.negate)(
            arithmetic.product(numbers, operators, term(false, first, last)),
        ),
    decreases last - first,
{
    if last > first {
        negated_product(arithmetic, numbers, operators, first, last - 1);
        assert(operators[last - 1].multiplicative());
    }
}

/// A term joins what was summed before it as the scan joins its product:
/// added to zero at the start, added behind a plus, subtracted behind a minus.
proof fn term_closes<N>(
    arithmetic: Arithmetic<N>,
    numbers: Seq<N>,
    operators: Seq<Operator>,
    sum: Option<N>,
    pending: Operator,
    first: int,
    at: int,
)
    requires
        arithmetic.lawful(),
        0 <= first <= at <= operators.len(),
        all_multiplicative(operators, first, at),
        sum is Some ==> !pending.multiplicative(),
    ensures
        (arithmetic.add)(
            match sum {
                None => arithmetic.zero,
                Some(sum) => sum,
            },
            arithmetic.product(
                numbers,
                operators,
                term(sum is Some && pending == Operator::Sub, first, at),
            ),
        ) == arithmetic.close(
            sum,
            pending,
            arithmetic.product(numbers, operators, term(false, first, at)),
        ),
{
    negated_product(arithmetic, numbers, operators, first, at);
}

/// The scan from any point on gives what the terms from that point on add
/// up to.
proof fn scan_is_total<N>(
    arithmetic: Arithmetic<N>,
    numbers: Seq<N>,
    operators: Seq<Operator>,
    sum: Option<N>,
    pending: Operator,
    first: int,
    at: int,
)
    requires
        arithmetic.lawful(),
        0 <= first <= at <= operators.len(),
        all_multiplicative(operators, first, at),
        sum is Some ==> !pending.multiplicative(),
    ensures
        arithmetic.total(
            numbers,
            operators,
            match sum {
                None => arithmetic.zero,
                Some(sum) => sum,
            },
            terms_from(operators, sum is Some && pending == Operator::Sub, first, at),
        ) == arithmetic.scan(
            numbers,
            operators,
            sum,
            pending,
            arithmetic.product(numbers, operators, term(false, first, at)),
            at,
        ),
    decreases operators.len() - at,
{
    let negated = sum is Some && pending == Operator::Sub;
    let start = match sum {
        None => arithmetic.zero,
        Some(sum) => sum,
    };
    let here = term(negated, first, at);
    let joined = (arithmetic.add)(start, arithmetic.product(numbers, operators, here));
    term_closes(arithmetic, numbers, operators, sum, pending, first, at);
    if at >= operators.len() {
        assert(terms_from(operators, negated, first, at) == seq![here]);
        assert(seq![here].drop_first() =~= Seq::<TermView>::empty());
        assert(arithmetic.total(numbers, operators, joined, Seq::<TermView>::empty()) == joined);
    } else if operators[at].multiplicative() {
        scan_is_total(arithmetic, numbers, operators, sum, pending, first, at + 1);
    } else {
        let rest = terms_from(operators, operators[at] == Operator::Sub, at + 1, at + 1);
        assert(terms_from(operators, negated, first, at) == seq![here] + rest);
        assert((seq![here] + rest).first() == here);
        assert((seq![here] + rest).drop_first() =~= rest);
        scan_is_total(arithmetic, numbers, operators, Some(joined), operators[at], at + 1, at + 1);
    }
}

/// In every lawful arithmetic, the terms that precedence gives add up to the
/// value that the expression has when it is read from left to right with
/// multiplication and division binding tighter than addition and
/// subtraction.
pub proof fn reduction_has_the_value<N>(
    arithmetic: Arithmetic<N>,
    numbers: Seq<N>,
    operators: Seq<Operator>,
)
    requires
        arithmetic.lawful(),
        numbers.len() == operators.len() + 1,
    ensures
        arithmetic.reduced_value(numbers, operators, precedence_terms(operators))
            == arithmetic.value(numbers, operators),
{
    scan_is_total(arithmetic, numbers, operators, None, Operator::Add, 0, 0);
}

impl<N> Arithmetic<N> {
    /// Whether the given zero and operations are those of this arithmetic:
    /// whatever one of them returns is what the arithmetic says.
    pub open spec fn computed_by<
        NegationFn: Fn(N) -> N,
        AdditionFn: Fn(N, N) -> N,
        MultiplicationFn: Fn(N, N) -> N,
        DivisionFn: Fn(N, N) -> N,
    >(
        self,
        zero: N,
        negation: NegationFn,
        addition: AdditionFn,
        multiplication: MultiplicationFn,
        division: DivisionFn,
    ) -> bool {
        &&& self.zero == zero
        &&& forall|x: N, r: N|
            #[trigger] call_ensures(negation, (x,), r) ==> r == (self.negate)(x)
        &&& forall|x: N, y: N, r: N|
            #[trigger] call_ensures(addition, (x, y), r) ==> r == (self.add)(x, y)
        &&& forall|x: N, y: N, r: N|
            #[trigger] call_ensures(multiplication, (x, y), r) ==> r == (self.multiply)(x, y)
        &&& forall|x: N, y: N, r: N|
            #[trigger] call_ensures(division, (x, y), r) ==> r == (self.divide)(x, y)
    }
}

impl Reduction {
    /// Multiplies the terms out and adds them up, from left to right and
    /// beginning with `zero`, over the values that the numbers stand for and
    /// with the operations given. A term that reaches beyond the numbers, or
    /// that holds an addition, makes the reduction malformed.
    pub fn total<N, NegationFn, AdditionFn, MultiplicationFn, DivisionFn>(
        &self,
        numbers: &Vec<N>,
        zero: N,
        negation: NegationFn,
        addition: AdditionFn,
        multiplication: MultiplicationFn,
        division: DivisionFn,
    ) -> (result: Result<N, ArithmeticError>) where
        N: Copy,
        NegationFn: Fn(N) -> N,
        AdditionFn: Fn(N, N) -> N,
        MultiplicationFn: Fn(N, N) -> N,
        DivisionFn: Fn(N, N) -> N,

        requires
            forall|x: N| call_requires(negation, (x,)),
            forall|x: N, y: N| call_requires(addition, (x, y)),
            forall|x: N, y: N| call_requires(multiplication, (x, y)),
            forall|x: N, y: N| call_requires(division, (x, y)),
        ensures
            result is Ok <==> self@.fits(numbers.len() as int),
            result matches Err(error) ==> error@ == ErrorView::MalformedExpression,
            forall|arithmetic: Arithmetic<N>| #[trigger]
                arithmetic.computed_by(zero, negation, addition, multiplication, division) ==> (
                result matches Ok(value) ==> value == arithmetic.reduced_value(
                    numbers@,
                    self@.operators,
                    self@.terms,
                )),
    {
        let ghost operators = self@.operators;
        let ghost terms = self@.terms;
        let mut sum = zero;
        let mut index: usize = 0;
        proof {
            assert(terms.skip(0) =~= terms);
        }
        while index < self.terms.len()
            invariant
                index <= self.terms.len(),
                operators == self@.operators,
                terms == self@.terms,
                forall|x: N| call_requires(negation, (x,)),
                forall|x: N, y: N| call_requires(addition, (x, y)),
                forall|x: N, y: N| call_requires(multiplication, (x, y)),
                forall|x: N, y: N| call_requires(division, (x, y)),
                forall|k: int|
                    0 <= k < index ==> 0 <= (#[trigger] terms[k]).first <= terms[k].last
                        < numbers.len() && terms[k].last <= operators.len() && all_multiplicative(
                        operators,
                        terms[k].first,
                        terms[k].last,
                    ),
                forall|arithmetic: Arithmetic<N>| #[trigger]
                    arithmetic.computed_by(zero, negation, addition, multiplication, division)
                        ==> arithmetic.total(numbers@, operators, sum, terms.skip(index as int))
                        == arithmetic.reduced_value(numbers@, operators, terms),
            decreases self.terms.len() - index,
        {
            let current = self.terms[index];
            assert(terms[index as int] == current@);
            if current.first > current.last || current.last >= numbers.len() || current.last
                > self.operators.len() {
                return Err(ArithmeticError::MalformedExpression);
            }
            let mut product = numbers[current.first];
            if current.negated {
                product = negation(product);
            }
            let mut at: usize = current.first;
            while at < current.last
                invariant
                    current.first <= at <= current.last < numbers.len(),
                    current.last <= self.operators.len(),
                    operators == self@.operators,
                    terms == self@.terms,
                    index < terms.len(),
                    terms[index as int] == current@,
                    forall|x: N, y: N| call_requires(multiplication, (x, y)),
                    forall|x: N, y: N| call_requires(division, (x, y)),
                    all_multiplicative(operators, current.first as int, at as int),
                    forall|arithmetic: Arithmetic<N>| #[trigger]
                        arithmetic.computed_by(zero, negation, addition, multiplication, division)
                            ==> product == arithmetic.product(
                            numbers@,
                            operators,
                            term(current.negated, current.first as int, at as int),
                        ),
                decreases current.last - at,
            {
                let right = numbers[at + 1];
                match self.operators[at] {
                    Operator::Mul => {
                        product = multiplication(product, right);
                    },
                    Operator::Div => {
                        product = division(product, right);
                    },
                    _ => {
                        assert(!operators[at as int].multiplicative());
                        return Err(ArithmeticError::MalformedExpression);
                    },
                }
                at = at + 1;
            }
            let ghost before = sum;
            sum = addition(sum, product);
            proof {
                let rest = terms.skip(index as int);
                assert(rest.first() == current@);
                assert(rest.drop_first() =~= terms.skip(index + 1));
                assert(current@ == term(
                    current.negated,
                    current.first as int,
                    current.last as int,
                ));
                assert forall|arithmetic: Arithmetic<N>| #[trigger]
                    arithmetic.computed_by(
                        zero,
                        negation,
                        addition,
                        multiplication,
                        division,
                    ) implies arithmetic.total(numbers@, operators, sum, terms.skip(index + 1))
                    == arithmetic.reduced_value(numbers@, operators, terms) by {
                    assert(arithmetic.total(numbers@, operators, before, rest)
                        == arithmetic.total(numbers@, operators, sum, rest.drop_first()));
                }
            }
            index = index + 1;
        }
        proof {
            assert(terms.skip(index as int) =~= Seq::<TermView>::empty());
        }
        Ok(sum)
    }
}

/// Folding subtraction into addition changes no product: inside a term
/// the operators only multiply and divide.
proof fn normalized_keeps_product<N>(
    arithmetic: Arithmetic<N>,
    numbers: Seq<N>,
    operators: Seq<Operator>,
    of: TermView,
)
    requires
        0 <= of.first <= of.last <= operators.len(),
        all_multiplicative(operators, of.first, of.last),
    ensures
        arithmetic.product(numbers, normalized(operators), of) == arithmetic.product(
            numbers,
            operators,
            of,
        ),
    decreases of.last - of.first,
{
    if of.last > of.first {
        normalized_keeps_product(
            arithmetic,
            numbers,
            operators,
            term(of.negated, of.first, of.last - 1),
        );
        assert(operators[of.last - 1].multiplicative());
        assert(normalized(operators)[of.last - 1] == operators[of.last - 1]);
    }
}

/// Folding subtraction into addition changes no sum of terms.
proof fn normalized_keeps_total<N>(
    arithmetic: Arithmetic<N>,
    numbers: Seq<N>,
    operators: Seq<Operator>,
    sum: N,
    terms: Seq<TermView>,
)
    requires
        forall|k: int|
            0 <= k < terms.len() ==> 0 <= (#[trigger] terms[k]).first <= terms[k].last
                <= operators.len() && all_multiplicative(operators, terms[k].first, terms[k].last),
    ensures
        arithmetic.total(numbers, normalized(operators), sum, terms) == arithmetic.total(
            numbers,
            operators,
            sum,
            terms,
        ),
    decreases terms.len(),
{
    if terms.len() > 0 {
        let rest = terms.drop_first();
        assert(terms.first() == terms[0]);
        normalized_keeps_product(arithmetic, numbers, operators, terms[0]);
        assert forall|k: int| 0 <= k < rest.len() implies 0 <= (#[trigger] rest[k]).first
            <= rest[k].last <= operators.len() && all_multiplicative(
            operators,
            rest[k].first,
            rest[k].last,
        ) by {
            assert(rest[k] == terms[k + 1]);
        }
        normalized_keeps_total(
            arithmetic,
            numbers,
            operators,
            (arithmetic.add)(sum, arithmetic.product(numbers, operators, terms[0])),
            rest,
        );
    }
}

/// Whatever evaluation hands out adds up, in every lawful arithmetic and
/// for every value that the numbers may stand for, to the value that the
/// operators of the expression give when they are read from left to right
/// under the usual precedence.
pub proof fn evaluation_has_the_value<N>(
    arithmetic: Arithmetic<N>,
    tokens: Seq<TokenView>,
    numbers: Seq<N>,
)
    requires
        arithmetic.lawful(),
        evaluated(tokens) is Ok,
        numbers.len() == evaluated(tokens)->Ok_0.numbers.len(),
    ensures
        arithmetic.reduced_value(
            numbers,
            evaluated(tokens)->Ok_0.operators,
            evaluated(tokens)->Ok_0.terms,
        ) == arithmetic.value(numbers, decoded(texts_of(tokens, TokenKind::Operator))),
{
    let operators = decoded(texts_of(tokens, TokenKind::Operator));
    precedence_terms_partition(operators);
    normalized_keeps_total(
        arithmetic,
        numbers,
        operators,
        arithmetic.zero,
        precedence_terms(operators),
    );
    reduction_has_the_value(arithmetic, numbers, operators);
}

} // verus!
