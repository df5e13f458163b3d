use vstd::prelude::*;
use vstd::slice::*;
use vstd::string::*;

use crate::errors::{ArithmeticError, ErrorView};
use crate::grammar::{joined, tokens_are_well_formed, well_formed};
use crate::text::{characters, string_of};

verus! {

/// What a token is: a decimal literal, or one of the four operators.
#[derive(Debug, Clone, Copy, PartialEq, Eq, Structural)]
pub enum TokenKind {
    Number,
    Operator,
}

/// A classified slice of the input.
#[derive(Debug, Clone, PartialEq, Eq)]
pub struct Token {
    pub kind: TokenKind,
    pub text: String,
}

/// The mathematical content of a [`Token`].
pub struct TokenView {
    pub kind: TokenKind,
    pub text: Seq<char>,
}

impl View for Token {
    type V = TokenView;

    open spec fn view(&self) -> TokenView {
        TokenView { kind: self.kind, text: self.text@ }
    }
}

/// An ordered sequence of tokens, as the grammar produced it.
#[derive(Debug, Clone, PartialEq, Eq)]
pub struct Expression {
    pub tokens: Vec<Token>,
}

impl View for Expression {
    type V = Seq<TokenView>;

    open spec fn view(&self) -> Seq<TokenView> {
        Seq::new(self.tokens@.len(), |i: int| self.tokens@[i]@)
    }
}

/// Whether `c` is a decimal digit.
pub open spec fn is_digit(c: char) -> bool {
    '0' <= c && c <= '9'
}

/// Whether `c` may stand before the first number as its sign.
pub open spec fn is_sign(c: char) -> bool {
    c == '+' || c == '-'
}

/// Whether `c` is one of the four operators.
pub open spec fn is_operator(c: char) -> bool {
    c == '+' || c == '-' || c == '*' || c == '/'
}

/// Where the longest run of digits that starts at `from` ends.
pub open spec fn digits_end(s: Seq<char>, from: int) -> int
    decreases s.len() - from,
{
    if 0 <= from < s.len() && is_digit(s[from]) {
        digits_end(s, from + 1)
    } else {
        from
    }
}

/// Where the unsigned number that starts at `from` ends: digits, then
/// optionally a point and more digits. It is `from` where no number starts.
pub open spec fn number_end(s: Seq<char>, from: int) -> int {
    let whole = digits_end(s, from);
    if whole == from {
        from
    } else if whole < s.len() && s[whole] == '.' && digits_end(s, whole + 1) > whole + 1 {
        digits_end(s, whole + 1)
    } else {
        whole
    }
}

/// Where the digits of the first number start: behind its sign, if it has one.
pub open spec fn sign_end(s: Seq<char>) -> int {
    if s.len() > 0 && is_sign(s[0]) {
        1
    } else {
        0
    }
}

/// Where the first number ends, its sign included: 0 where the input does
/// not begin with a number.
pub open spec fn first_number_end(s: Seq<char>) -> int {
    if number_end(s, sign_end(s)) == sign_end(s) {
        0
    } else {
        number_end(s, sign_end(s))
    }
}

/// Whether an operator stands at `at` with a number directly behind it.
pub open spec fn continues_at(s: Seq<char>, at: int) -> bool {
    0 <= at < s.len() && is_operator(s[at]) && number_end(s, at + 1) > at + 1
}

/// Where the expression whose last number so far ends at `at` ends, once
/// every further pair of operator and number is taken in.
pub open spec fn expression_end(s: Seq<char>, at: int) -> int
    decreases s.len() - at,
{
    if continues_at(s, at) && number_end(s, at + 1) <= s.len() {
        expression_end(s, number_end(s, at + 1))
    } else {
        at
    }
}

/// The length of the longest prefix of `s` that is an expression: an optional
/// sign, a number, then pairs of operator and number. It is 0 where `s` does
/// not begin with one.
pub open spec fn matched_length(s: Seq<char>) -> int {
    if first_number_end(s) == 0 {
        0
    } else {
        expression_end(s, first_number_end(s))
    }
}

/// The token of a number with the given text.
pub open spec fn number_token(text: Seq<char>) -> TokenView {
    TokenView { kind: TokenKind::Number, text }
}

/// The token of an operator with the given text.
pub open spec fn operator_token(text: Seq<char>) -> TokenView {
    TokenView { kind: TokenKind::Operator, text }
}

/// The tokens of the pairs of operator and number that follow position `at`.
pub open spec fn following_tokens(s: Seq<char>, at: int) -> Seq<TokenView>
    decreases s.len() - at,
{
    if continues_at(s, at) && number_end(s, at + 1) <= s.len() {
        seq![
            operator_token(s.subrange(at, at + 1)),
            number_token(s.subrange(at + 1, number_end(s, at + 1))),
        ] + following_tokens(s, number_end(s, at + 1))
    } else {
        Seq::empty()
    }
}

/// The tokens of the longest prefix of `s` that is an expression. The sign
/// belongs to the first number.
pub open spec fn tokens_of(s: Seq<char>) -> Seq<TokenView> {
    seq![number_token(s.subrange(0, first_number_end(s)))] + following_tokens(
        s,
        first_number_end(s),
    )
}

/// The character at which an input that begins with no expression went
/// wrong: the one behind its sign, or its last where nothing follows the sign.
pub open spec fn offending(s: Seq<char>) -> Seq<char> {
    if sign_end(s) < s.len() {
        s.subrange(sign_end(s), sign_end(s) + 1)
    } else {
        s.subrange(s.len() - 1, s.len() as int)
    }
}

/// What parsing `s` gives: its tokens where all of `s` is an expression, and
/// else the error that tells why it is none.
pub open spec fn parsed(s: Seq<char>) -> Result<Seq<TokenView>, ErrorView> {
    if s.len() == 0 {
        Err(ErrorView::Empty)
    } else if matched_length(s) == 0 {
        Err(ErrorView::InvalidToken(offending(s)))
    } else if matched_length(s) < s.len() {
        Err(ErrorView::IncompleteParsing(s, matched_length(s)))
    } else {
        Ok(tokens_of(s))
    }
}

/// The mathematical content of what [`parse`] returns.
pub open spec fn outcome(result: Result<Expression, ArithmeticError>) -> Result<
    Seq<TokenView>,
    ErrorView,
> {
    match result {
        Ok(expression) => Ok(expression@),
        Err(error) => Err(error@),
    }
}

/// Parsing is a function of the text: two results for one text hold the same.
pub proof fn parsing_is_a_function(
    text: Seq<char>,
    first: Result<Expression, ArithmeticError>,
    second: Result<Expression, ArithmeticError>,
)
    requires
        outcome(first) == parsed(text),
        outcome(second) == parsed(text),
    ensures
        outcome(first) == outcome(second),
        first is Ok <==> second is Ok,
        first matches Ok(one) ==> second matches Ok(other) ==> one@ == other@,
{
}

/// A run of digits ends at or behind its start, and within the text.
pub proof fn digits_end_bounds(s: Seq<char>, from: int)
    requires
        0 <= from <= s.len(),
    ensures
        from <= digits_end(s, from) <= s.len(),
    decreases s.len() - from,
{
    if from < s.len() && is_digit(s[from]) {
        digits_end_bounds(s, from + 1);
    }
}

/// A number ends at or behind its start, and within the text.
pub proof fn number_end_bounds(s: Seq<char>, from: int)
    requires
        0 <= from <= s.len(),
    ensures
        from <= number_end(s, from) <= s.len(),
{
    digits_end_bounds(s, from);
    let whole = digits_end(s, from);
    if whole < s.len() {
        digits_end_bounds(s, whole + 1);
    }
}

/// Skips the digits that stand at `from`.
fn scan_digits(chars: &Vec<char>, from: usize) -> (end: usize)
    requires
        from <= chars.len(),
    ensures
        end == digits_end(chars@, from as int),
        from <= end <= chars.len(),
{
    let mut end: usize = from;
    while end < chars.len() && '0' <= chars[end] && chars[end] <= '9'
        invariant
            from <= end <= chars.len(),
            digits_end(chars@, end as int) == digits_end(chars@, from as int),
        decreases chars.len() - end,
    {
        end = end + 1;
    }
    end
}

/// Skips the number that stands at `from`, if one does.
fn scan_number(chars: &Vec<char>, from: usize) -> (end: usize)
    requires
        from <= chars.len(),
    ensures
        end == number_end(chars@, from as int),
        from <= end <= chars.len(),
{
    let whole = scan_digits(chars, from);
    if whole == from {
        return from;
    }
    if whole < chars.len() && chars[whole] == '.' {
        let fraction = scan_digits(chars, whole + 1);
        if fraction > whole + 1 {
            return fraction;
        }
    }
    whole
}

/// The token made of the characters from `from` up to `to`.
fn token(kind: TokenKind, chars: &Vec<char>, from: usize, to: usize) -> (token: Token)
    requires
        from <= to <= chars.len(),
    ensures
        token@ == (TokenView { kind, text: chars@.subrange(from as int, to as int) }),
{
    Token { kind, text: string_of(slice_subrange(chars.as_slice(), from, to)) }
}

/// Recognises `input` as an expression and returns its tokens. Input that is
/// an expression only in part is refused, with the offset at which the
/// expression ends.
pub fn parse(input: &str) -> (result: Result<Expression, ArithmeticError>)
    ensures
        outcome(result) == parsed(input@),
        result matches Ok(expression) ==> well_formed(expression@) && joined(expression@)
            == input@,
{
    let chars = characters(input);
    let length = chars.len();
    if length == 0 {
        return Err(ArithmeticError::Empty);
    }
    let start: usize = if chars[0] == '+' || chars[0] == '-' {
        1
    } else {
        0
    };
    let first = scan_number(&chars, start);
    if first == start {
        let stop: usize = if start < length {
            start
        } else {
            length - 1
        };
        let culprit = string_of(slice_subrange(chars.as_slice(), stop, stop + 1));
        return Err(ArithmeticError::InvalidToken(culprit));
    }
    let mut tokens: Vec<Token> = Vec::new();
    tokens.push(token(TokenKind::Number, &chars, 0, first));
    let mut at: usize = first;
    let ghost s = chars@;
    proof {
        assert(Seq::new(tokens@.len(), |i: int| tokens@[i]@) =~= seq![
            number_token(s.subrange(0, first as int)),
        ]);
    }
    loop
        invariant
            s == chars@,
            length == chars.len(),
            0 < first <= at <= length,
            first == first_number_end(s),
            expression_end(s, at as int) == matched_length(s),
            Seq::new(tokens@.len(), |i: int| tokens@[i]@) + following_tokens(s, at as int)
                == tokens_of(s),
        ensures
            !continues_at(s, at as int),
        decreases length - at,
    {
        if at >= length || !(chars[at] == '+' || chars[at] == '-' || chars[at] == '*' || chars[at]
            == '/') {
            break;
        }
        let end = scan_number(&chars, at + 1);
        if end == at + 1 {
            break;
        }
        let ghost before = Seq::new(tokens@.len(), |i: int| tokens@[i]@);
        tokens.push(token(TokenKind::Operator, &chars, at, at + 1));
        tokens.push(token(TokenKind::Number, &chars, at + 1, end));
        proof {
            assert(Seq::new(tokens@.len(), |i: int| tokens@[i]@) =~= before + seq![
                operator_token(s.subrange(at as int, at + 1)),
                number_token(s.subrange(at + 1, end as int)),
            ]);
            assert(before + following_tokens(s, at as int) =~= Seq::new(
                tokens@.len(),
                |i: int| tokens@[i]@,
            ) + following_tokens(s, end as int));
        }
        at = end;
    }
    proof {
        assert(following_tokens(s, at as int) =~= Seq::empty());
        assert(Seq::new(tokens@.len(), |i: int| tokens@[i]@) =~= tokens_of(s));
    }
    if at < length {
        return Err(ArithmeticError::IncompleteParsing(input.to_owned(), at));
    }
    proof {
        tokens_are_well_formed(s);
        assert(s.subrange(0, s.len() as int) =~= s);
    }
    Ok(Expression { tokens })
}

} // verus!
