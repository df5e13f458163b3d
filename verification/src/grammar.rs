use vstd::prelude::*;

use crate::errors::ErrorView;
use crate::parsing::{
    continues_at, digits_end, digits_end_bounds, expression_end, first_number_end,
    following_tokens, is_digit, is_operator, is_sign, matched_length, number_end,
    number_end_bounds, parsed, sign_end, tokens_of, TokenKind, TokenView,
};

verus! {

/// Whether all of `text` is one number without a sign.
pub open spec fn is_number(text: Seq<char>) -> bool {
    text.len() > 0 && number_end(text, 0) == text.len()
}

/// Whether all of `text` is one number, with or without a sign.
pub open spec fn is_signed_number(text: Seq<char>) -> bool {
    is_number(text) || (text.len() > 0 && is_sign(text[0]) && is_number(
        text.subrange(1, text.len() as int),
    ))
}

/// Whether `text` is one operator.
pub open spec fn is_symbol(text: Seq<char>) -> bool {
    text.len() == 1 && is_operator(text[0])
}

/// Whether the tokens make an expression: numbers and operators in turn,
/// a number first and a number last, each operator one of the four, each
/// number a decimal literal, and a sign on the first number at most.
pub open spec fn well_formed(tokens: Seq<TokenView>) -> bool {
    &&& tokens.len() % 2 == 1
    &&& is_signed_number(tokens[0].text)
    &&& forall|i: int|
        0 <= i < tokens.len() && i % 2 == 0 ==> (#[trigger] tokens[i]).kind == TokenKind::Number
            && (i > 0 ==> is_number(tokens[i].text))
    &&& forall|i: int|
        0 <= i < tokens.len() && i % 2 == 1 ==> (#[trigger] tokens[i]).kind
            == TokenKind::Operator && is_symbol(tokens[i].text)
}

/// Whether the tokens are operators and numbers in turn, an operator first
/// and a number last.
pub open spec fn pairs(tail: Seq<TokenView>) -> bool {
    &&& tail.len() % 2 == 0
    &&& forall|i: int|
        0 <= i < tail.len() && i % 2 == 0 ==> (#[trigger] tail[i]).kind == TokenKind::Operator
            && is_symbol(tail[i].text)
    &&& forall|i: int|
        0 <= i < tail.len() && i % 2 == 1 ==> (#[trigger] tail[i]).kind == TokenKind::Number
            && is_number(tail[i].text)
}

/// The texts of the tokens, joined.
pub open spec fn joined(tokens: Seq<TokenView>) -> Seq<char>
    decreases tokens.len(),
{
    if tokens.len() == 0 {
        Seq::empty()
    } else {
        tokens.first().text + joined(tokens.drop_first())
    }
}

/// The digits of a piece of text end where they end in the whole text, or
/// where the piece ends.
proof fn digits_end_within(s: Seq<char>, from: int, to: int, at: int)
    requires
        0 <= from <= at <= to <= s.len(),
    ensures
        digits_end(s.subrange(from, to), at - from) == (if digits_end(s, at) < to {
            digits_end(s, at)
        } else {
            to
        }) - from,
    decreases to - at,
{
    let piece = s.subrange(from, to);
    digits_end_bounds(s, at);
    if at < to {
        assert(piece[at - from] == s[at]);
        digits_end_within(s, from, to, at + 1);
    }
}

/// The text of a number that was found is a number.
proof fn number_text_is_number(s: Seq<char>, from: int)
    requires
        0 <= from <= s.len(),
        number_end(s, from) > from,
    ensures
        is_number(s.subrange(from, number_end(s, from))),
{
    let end = number_end(s, from);
    let whole = digits_end(s, from);
    let piece = s.subrange(from, end);
    number_end_bounds(s, from);
    digits_end_bounds(s, from);
    digits_end_within(s, from, end, from);
    if end != whole {
        digits_end_bounds(s, whole + 1);
        digits_end_within(s, from, end, whole + 1);
        assert(piece[whole - from] == s[whole]);
    }
}

/// An expression ends at or behind each of its numbers, and within the text.
pub proof fn expression_end_bounds(s: Seq<char>, at: int)
    requires
        0 <= at <= s.len(),
    ensures
        at <= expression_end(s, at) <= s.len(),
    decreases s.len() - at,
{
    if continues_at(s, at) && number_end(s, at + 1) <= s.len() {
        number_end_bounds(s, at + 1);
        expression_end_bounds(s, number_end(s, at + 1));
    }
}

/// The tokens behind a number are operators and numbers in turn, and
/// joined they are the text from that number to the end of the expression.
proof fn following_tokens_shape(s: Seq<char>, at: int)
    requires
        0 <= at <= s.len(),
    ensures
        pairs(following_tokens(s, at)),
        joined(following_tokens(s, at)) == s.subrange(at, expression_end(s, at)),
    decreases s.len() - at,
{
    expression_end_bounds(s, at);
    if continues_at(s, at) && number_end(s, at + 1) <= s.len() {
        let end = number_end(s, at + 1);
        let rest = following_tokens(s, end);
        let all = following_tokens(s, at);
        number_end_bounds(s, at + 1);
        expression_end_bounds(s, end);
        following_tokens_shape(s, end);
        number_text_is_number(s, at + 1);
        assert(all.len() == rest.len() + 2);
        assert(all[0].text == s.subrange(at, at + 1));
        assert(all[1].text == s.subrange(at + 1, end));
        assert forall|i: int| 2 <= i < all.len() implies all[i] == rest[i - 2] by {}
        let tail = all.drop_first();
        assert(tail.drop_first() =~= rest);
        assert(tail.first() == all[1]);
        assert(joined(tail) == all[1].text + joined(rest));
        assert(joined(all) == all[0].text + joined(tail));
        assert(joined(all) =~= s.subrange(at, expression_end(s, at)));
    } else {
        assert(joined(following_tokens(s, at)) =~= s.subrange(at, expression_end(s, at)));
    }
}

/// The tokens of a text that begins with an expression make an expression,
/// and joined they are the part of the text that was matched.
pub proof fn tokens_are_well_formed(s: Seq<char>)
    requires
        matched_length(s) > 0,
    ensures
        well_formed(tokens_of(s)),
        joined(tokens_of(s)) == s.subrange(0, matched_length(s)),
        0 < matched_length(s) <= s.len(),
{
    let first = first_number_end(s);
    let rest = following_tokens(s, first);
    let all = tokens_of(s);
    number_end_bounds(s, sign_end(s));
    following_tokens_shape(s, first);
    expression_end_bounds(s, first);
    number_text_is_number(s, sign_end(s));
    let head = s.subrange(0, first);
    if sign_end(s) == 1 {
        assert(head.subrange(1, head.len() as int) =~= s.subrange(1, first));
    }
    assert(is_signed_number(head));
    assert forall|i: int| 1 <= i < all.len() implies all[i] == rest[i - 1] by {}
    assert(all.drop_first() =~= rest);
    assert(joined(all) =~= s.subrange(0, matched_length(s)));
}

/// Digits never run past a character that is no digit.
proof fn digits_end_stops(s: Seq<char>, from: int, stop: int)
    requires
        0 <= from <= stop <= s.len(),
        stop == s.len() || !is_digit(s[stop]),
    ensures
        digits_end(s, from) <= stop,
    decreases stop - from,
{
    if from < stop && is_digit(s[from]) {
        digits_end_stops(s, from + 1, stop);
    }
}

/// A number that stands in a text before an operator, or at its end, is
/// found there in full.
proof fn number_in_context(s: Seq<char>, from: int, to: int)
    requires
        0 <= from < to <= s.len(),
        is_number(s.subrange(from, to)),
        to == s.len() || is_operator(s[to]),
    ensures
        number_end(s, from) == to,
{
    let piece = s.subrange(from, to);
    let whole = digits_end(piece, 0);
    digits_end_within(s, from, to, from);
    digits_end_stops(s, from, to);
    digits_end_bounds(piece, 0);
    if whole < piece.len() {
        digits_end_bounds(piece, whole + 1);
        digits_end_within(s, from, to, from + whole + 1);
        digits_end_stops(s, from + whole + 1, to);
        assert(piece[whole] == s[from + whole]);
    }
}

/// A number that begins a piece of text reaches at least as far in a text
/// that goes on behind the piece.
proof fn number_reaches(s: Seq<char>, from: int, to: int)
    requires
        0 <= from < to <= s.len(),
        is_number(s.subrange(from, to)),
    ensures
        number_end(s, from) >= to,
{
    let piece = s.subrange(from, to);
    let whole = digits_end(piece, 0);
    digits_end_within(s, from, to, from);
    digits_end_bounds(s, from);
    digits_end_bounds(piece, 0);
    if whole < piece.len() {
        digits_end_bounds(piece, whole + 1);
        digits_end_bounds(s, from + whole + 1);
        digits_end_within(s, from, to, from + whole + 1);
        assert(piece[whole] == s[from + whole]);
    } else if digits_end(s, from) < s.len() {
        digits_end_bounds(s, digits_end(s, from) + 1);
    }
}

/// Where pairs of operator and number stand in a text from `at` up to `to`,
/// the expression that has reached `at` goes on to `to` at least; and where
/// the text ends at `to`, the grammar finds those pairs and nothing else.
proof fn pairs_are_matched(s: Seq<char>, at: int, to: int, tail: Seq<TokenView>)
    requires
        0 <= at <= to <= s.len(),
        pairs(tail),
        s.subrange(at, to) == joined(tail),
    ensures
        expression_end(s, at) >= to,
        to == s.len() ==> following_tokens(s, at) == tail,
    decreases tail.len(),
{
    let left = s.subrange(at, to);
    expression_end_bounds(s, at);
    if tail.len() == 0 {
        assert(left.len() == 0);
        if to == s.len() {
            assert(following_tokens(s, at) =~= tail);
        }
    } else {
        let symbol = tail[0].text;
        let number = tail[1].text;
        let next = tail.drop_first();
        let rest = next.drop_first();
        let end = at + 1 + number.len();
        assert(next.first() == tail[1]);
        assert(joined(next) == number + joined(rest));
        assert(joined(tail) == symbol + joined(next));
        assert(left.len() == 1 + number.len() + joined(rest).len());
        assert(s[at] == left[0]);
        assert(s.subrange(at, at + 1) =~= symbol) by {
            assert(left[0] == symbol[0]);
        }
        assert(s.subrange(at + 1, end) =~= number) by {
            assert forall|i: int| 0 <= i < number.len() implies s[at + 1 + i] == number[i] by {
                assert(s[at + 1 + i] == left[1 + i]);
            }
        }
        assert(s.subrange(end, to) =~= joined(rest)) by {
            assert forall|i: int| 0 <= i < joined(rest).len() implies s[end + i] == joined(
                rest,
            )[i] by {
                assert(s[end + i] == left[1 + number.len() + i]);
            }
        }
        assert forall|i: int| 0 <= i < rest.len() implies rest[i] == tail[i + 2] by {}
        assert(pairs(rest));
        number_end_bounds(s, at + 1);
        if rest.len() > 0 {
            assert(rest.first() == tail[2]);
            assert(joined(rest) == rest.first().text + joined(rest.drop_first()));
            assert(s[end] == joined(rest)[0]);
            number_in_context(s, at + 1, end);
            pairs_are_matched(s, end, to, rest);
        } else if to == s.len() {
            number_in_context(s, at + 1, end);
            pairs_are_matched(s, end, to, rest);
        } else {
            number_reaches(s, at + 1, end);
            expression_end_bounds(s, number_end(s, at + 1));
        }
        assert(continues_at(s, at));
        assert(expression_end(s, at) == expression_end(s, number_end(s, at + 1)));
        if to == s.len() {
            assert(following_tokens(s, at) =~= tail);
        }
    }
}

/// Where the first `length` characters of a text are an expression, at
/// least as many are matched; and where they are the whole text, the tokens
/// of the text are those of the expression.
proof fn expression_is_matched(s: Seq<char>, length: int, tokens: Seq<TokenView>)
    requires
        0 <= length <= s.len(),
        well_formed(tokens),
        joined(tokens) == s.subrange(0, length),
    ensures
        0 < length <= matched_length(s),
        length == s.len() ==> tokens_of(s) == tokens,
{
    let p = s.subrange(0, length);
    let head = tokens[0].text;
    let tail = tokens.drop_first();
    let first = head.len() as int;
    assert(tokens.first() == tokens[0]);
    assert(p == head + joined(tail));
    assert forall|i: int| 0 <= i < tail.len() implies tail[i] == tokens[i + 1] by {}
    assert(pairs(tail));
    assert(s.subrange(first, length) =~= joined(tail)) by {
        assert forall|i: int| 0 <= i < joined(tail).len() implies s[first + i] == joined(
            tail,
        )[i] by {
            assert(s[first + i] == p[first + i]);
        }
    }
    assert(s.subrange(0, first) =~= head) by {
        assert forall|i: int| 0 <= i < first implies s[i] == head[i] by {
            assert(s[i] == p[i]);
        }
    }
    let start = sign_end(s);
    assert(s[0] == p[0]);
    if is_number(head) {
        digits_end_bounds(head, 0);
        assert(is_digit(head[0]));
    } else {
        assert(head.subrange(1, head.len() as int) =~= s.subrange(1, first));
    }
    assert(s.subrange(start, first) =~= head.subrange(start, first));
    assert(head.subrange(0, first) =~= head);
    number_end_bounds(s, start);
    if tail.len() > 0 {
        assert(tail.first() == tokens[1]);
        assert(joined(tail) == tail.first().text + joined(tail.drop_first()));
        assert(s[first] == p[first]);
        assert(p[first] == joined(tail)[0]);
        number_in_context(s, start, first);
    } else if length == s.len() {
        number_in_context(s, start, first);
    } else {
        number_reaches(s, start, first);
    }
    pairs_are_matched(s, first, length, tail);
    expression_end_bounds(s, number_end(s, start));
    if length == s.len() {
        assert(tokens_of(s) =~= tokens);
    }
}

/// Every expression parses into the tokens it is made of: where the tokens
/// make an expression, the text that they join to parses, and gives them
/// back.
pub proof fn expressions_parse(tokens: Seq<TokenView>)
    requires
        well_formed(tokens),
    ensures
        parsed(joined(tokens)) == Ok::<Seq<TokenView>, ErrorView>(tokens),
{
    let s = joined(tokens);
    assert(s.subrange(0, s.len() as int) =~= s);
    expression_is_matched(s, s.len() as int, tokens);
    tokens_are_well_formed(s);
}

/// No expression at the start of a text is longer than what the grammar
/// matches: where the first `length` characters are an expression, at least
/// as many are matched.
pub proof fn matched_length_is_longest(s: Seq<char>, length: int, tokens: Seq<TokenView>)
    requires
        0 <= length <= s.len(),
        well_formed(tokens),
        joined(tokens) == s.subrange(0, length),
    ensures
        length <= matched_length(s),
{
    expression_is_matched(s, length, tokens);
}

} // verus!
