use vstd::prelude::*;

use crate::evaluation::{
    all_multiplicative, decoded, evaluated, first_unknown, normalized, precedence_terms,
    terms_from, texts_of, Operator, TermView,
};
use crate::grammar::{is_symbol, joined, tokens_are_well_formed, well_formed};
use crate::parsing::{parsed, tokens_of, TokenKind, TokenView};

verus! {

/// Whether `right` is the term that comes directly behind `left`: it begins
/// with the next number, an addition or a subtraction stands between the
/// two, and it is negated where that is a subtraction.
pub open spec fn follows(operators: Seq<Operator>, left: TermView, right: TermView) -> bool {
    &&& right.first == left.last + 1
    &&& !operators[left.last].multiplicative()
    &&& right.negated <==> operators[left.last] == Operator::Sub
}

/// Whether the terms divide the numbers from `first` on among them,
/// in order and without a gap: each term is a run of numbers with nothing
/// but multiplications and divisions inside, an addition or a subtraction
/// stands between each term and the next, and a term is negated where that
/// is a subtraction. The first term is negated where `negated` says so.
pub open spec fn partition(
    operators: Seq<Operator>,
    terms: Seq<TermView>,
    negated: bool,
    first: int,
) -> bool {
    &&& terms.len() > 0
    &&& terms.first().first == first
    &&& terms.first().negated == negated
    &&& terms.last().last == operators.len()
    &&& forall|k: int|
        0 <= k < terms.len() ==> 0 <= (#[trigger] terms[k]).first <= terms[k].last
            <= operators.len() && all_multiplicative(operators, terms[k].first, terms[k].last)
    &&& forall|i: int, j: int|
        0 <= i && j == i + 1 && j < terms.len() ==> follows(
            operators,
            #[trigger] terms[i],
            #[trigger] terms[j],
        )
}

/// The terms from any point on divide the numbers from that point on.
proof fn terms_from_partition(operators: Seq<Operator>, negated: bool, first: int, at: int)
    requires
        0 <= first <= at <= operators.len(),
        all_multiplicative(operators, first, at),
    ensures
        partition(operators, terms_from(operators, negated, first, at), negated, first),
        terms_from(operators, negated, first, at).first().last >= at,
    decreases operators.len() - at,
{
    let terms = terms_from(operators, negated, first, at);
    if at >= operators.len() {
    } else if operators[at].multiplicative() {
        terms_from_partition(operators, negated, first, at + 1);
    } else {
        let rest = terms_from(operators, operators[at] == Operator::Sub, at + 1, at + 1);
        terms_from_partition(operators, operators[at] == Operator::Sub, at + 1, at + 1);
        assert(terms.len() == rest.len() + 1);
        assert forall|k: int| 1 <= k < terms.len() implies terms[k] == rest[k - 1] by {}
        assert(terms.last() == rest.last());
        assert forall|i: int, j: int| 0 <= i && j == i + 1 && j < terms.len() implies follows(
            operators,
            #[trigger] terms[i],
            #[trigger] terms[j],
        ) by {
            assert(terms[j] == rest[j - 1]);
            if i > 0 {
                assert(terms[i] == rest[i - 1]);
                assert(follows(operators, rest[i - 1], rest[j - 1]));
            }
        }
    }
}

/// The terms that precedence gives divide all the numbers among them.
pub proof fn precedence_terms_partition(operators: Seq<Operator>)
    ensures
        partition(operators, precedence_terms(operators), false, 0),
{
    terms_from_partition(operators, false, 0, 0);
}

/// What evaluation hands out fits its own numbers: each term is a run of
/// them, with a multiplication or a division between each and the next.
pub proof fn evaluated_fits(tokens: Seq<TokenView>)
    ensures
        evaluated(tokens) matches Ok(reduction) ==> reduction.fits(reduction.numbers.len() as int),
{
    if evaluated(tokens) is Ok {
        let reduction = evaluated(tokens)->Ok_0;
        let operators = decoded(texts_of(tokens, TokenKind::Operator));
        let terms = precedence_terms(operators);
        precedence_terms_partition(operators);
        assert forall|k: int| 0 <= k < terms.len() implies all_multiplicative(
            normalized(operators),
            (#[trigger] terms[k]).first,
            terms[k].last,
        ) by {
            assert forall|j: int| terms[k].first <= j < terms[k].last implies (
            #[trigger] normalized(operators)[j]).multiplicative() by {
                assert(operators[j].multiplicative());
            }
        }
    }
}

/// The tokens at the even places of a sequence, up to `count` of them.
pub open spec fn number_texts(tokens: Seq<TokenView>, count: int) -> Seq<Seq<char>> {
    Seq::new(if count < 0 { 0 } else { count as nat }, |i: int| tokens[2 * i].text)
}

/// The tokens at the odd places of a sequence, up to `count` of them.
pub open spec fn symbol_texts(tokens: Seq<TokenView>, count: int) -> Seq<Seq<char>> {
    Seq::new(if count < 0 { 0 } else { count as nat }, |i: int| tokens[2 * i + 1].text)
}

/// Among the first `upto` tokens of an expression, the numbers are those at
/// the even places and the operators those at the odd places.
proof fn texts_of_alternating(tokens: Seq<TokenView>, upto: int)
    requires
        well_formed(tokens),
        0 <= upto <= tokens.len(),
    ensures
        texts_of(tokens.take(upto), TokenKind::Number) == number_texts(tokens, (upto + 1) / 2),
        texts_of(tokens.take(upto), TokenKind::Operator) == symbol_texts(tokens, upto / 2),
    decreases upto,
{
    let prefix = tokens.take(upto);
    if upto == 0 {
        assert(texts_of(prefix, TokenKind::Number) =~= number_texts(tokens, 0));
        assert(texts_of(prefix, TokenKind::Operator) =~= symbol_texts(tokens, 0));
    } else {
        texts_of_alternating(tokens, upto - 1);
        assert(prefix.drop_last() =~= tokens.take(upto - 1));
        assert(prefix.last() == tokens[upto - 1]);
        if (upto - 1) % 2 == 0 {
            assert(number_texts(tokens, upto / 2).push(tokens[upto - 1].text) =~= number_texts(
                tokens,
                (upto + 1) / 2,
            ));
        } else {
            assert(symbol_texts(tokens, (upto - 1) / 2).push(tokens[upto - 1].text)
                =~= symbol_texts(tokens, upto / 2));
        }
    }
}

/// Where every text from `from` on spells an operator, none is unknown.
proof fn none_unknown(symbols: Seq<Seq<char>>, from: int)
    requires
        0 <= from <= symbols.len(),
        forall|i: int| from <= i < symbols.len() ==> Operator::of(#[trigger] symbols[i]) is Some,
    ensures
        first_unknown(symbols, from) == symbols.len(),
    decreases symbols.len() - from,
{
    if from < symbols.len() {
        none_unknown(symbols, from + 1);
    }
}

/// Tokens that make an expression always evaluate: the numbers are the
/// tokens at the even places, the operators those at the odd places, and
/// the terms are those that precedence gives.
pub proof fn well_formed_evaluates(tokens: Seq<TokenView>)
    requires
        well_formed(tokens),
    ensures
        evaluated(tokens) is Ok,
        evaluated(tokens)->Ok_0.numbers == number_texts(tokens, (tokens.len() as int + 1) / 2),
        evaluated(tokens)->Ok_0.operators == normalized(
            decoded(symbol_texts(tokens, tokens.len() as int / 2)),
        ),
        evaluated(tokens)->Ok_0.terms == precedence_terms(
            decoded(symbol_texts(tokens, tokens.len() as int / 2)),
        ),
{
    texts_of_alternating(tokens, tokens.len() as int);
    assert(tokens.take(tokens.len() as int) =~= tokens);
    let symbols = symbol_texts(tokens, tokens.len() as int / 2);
    assert forall|i: int| 0 <= i < symbols.len() implies Operator::of(
        #[trigger] symbols[i],
    ) is Some by {
        assert(is_symbol(tokens[2 * i + 1].text));
    }
    none_unknown(symbols, 0);
}

/// A text that parses also evaluates.
pub proof fn parsed_evaluates(s: Seq<char>)
    requires
        parsed(s) is Ok,
    ensures
        well_formed(parsed(s)->Ok_0),
        joined(parsed(s)->Ok_0) == s,
        evaluated(parsed(s)->Ok_0) is Ok,
{
    tokens_are_well_formed(s);
    well_formed_evaluates(tokens_of(s));
    assert(s.subrange(0, s.len() as int) =~= s);
}

} // verus!
