use vstd::prelude::*;
use vstd::string::*;

verus! {

/// Everything that can go wrong while an expression is recognised or reduced.
#[derive(Debug, Clone, PartialEq, Eq)]
pub enum ArithmeticError {
    /// The input held no expression at all.
    Empty,
    /// Only a proper prefix of the input is an expression: the whole input,
    /// and the offset of the first character that is not part of it.
    IncompleteParsing(String, usize),
    /// A piece of text that is no token of the grammar.
    InvalidToken(String),
    /// Numbers and operators do not alternate as an expression demands.
    MalformedExpression,
}

/// The mathematical content of an [`ArithmeticError`].
pub enum ErrorView {
    Empty,
    IncompleteParsing(Seq<char>, int),
    InvalidToken(Seq<char>),
    MalformedExpression,
}

impl View for ArithmeticError {
    type V = ErrorView;

    open spec fn view(&self) -> ErrorView {
        match self {
            ArithmeticError::Empty => ErrorView::Empty,
            ArithmeticError::IncompleteParsing(input, position) => ErrorView::IncompleteParsing(
                input@,
                *position as int,
            ),
            ArithmeticError::InvalidToken(token) => ErrorView::InvalidToken(token@),
            ArithmeticError::MalformedExpression => ErrorView::MalformedExpression,
        }
    }
}

/// A line of `count` dashes.
pub open spec fn dashes(count: int) -> Seq<char> {
    Seq::new(if count < 0 { 0 } else { count as nat }, |i: int| '-')
}

/// The text shown for an error. An incomplete parse shows the input, and below
/// it a line of dashes that ends in a caret under the character at the offset.
pub open spec fn rendered(error: ErrorView) -> Seq<char> {
    match error {
        ErrorView::Empty => "Parsed input was empty."@,
        ErrorView::IncompleteParsing(input, position) => input + seq!['\n'] + dashes(position)
            + seq!['^'],
        ErrorView::InvalidToken(token) => "Invalid token: "@ + token,
        ErrorView::MalformedExpression => "Expression is malformed."@,
    }
}

/// Appends `count` dashes to `text`.
fn push_dashes(text: &mut String, count: usize)
    ensures
        final(text)@ == old(text)@ + dashes(count as int),
{
    let mut done: usize = 0;
    proof {
        assert(dashes(0) =~= Seq::<char>::empty());
        assert(text@ =~= old(text)@ + dashes(0));
    }
    while done < count
        invariant
            done <= count,
            text@ == old(text)@ + dashes(done as int),
        decreases count - done,
    {
        text.append("-");
        proof {
            reveal_strlit("-");
            assert(dashes(done as int) + "-"@ =~= dashes(done as int + 1));
            assert(text@ =~= old(text)@ + dashes(done as int + 1));
        }
        done = done + 1;
    }
}

impl ArithmeticError {
    /// The text shown for this error.
    pub fn to_string(&self) -> (text: String)
        ensures
            text@ == rendered(self@),
    {
        match self {
            ArithmeticError::Empty => String::from_str("Parsed input was empty."),
            ArithmeticError::IncompleteParsing(input, position) => {
                let mut text = input.clone();
                text.append("\n");
                push_dashes(&mut text, *position);
                text.append("^");
                proof {
                    reveal_strlit("\n");
                    reveal_strlit("^");
                    assert(text@ =~= rendered(self@));
                }
                text
            },
            ArithmeticError::InvalidToken(token) => {
                let mut text = String::from_str("Invalid token: ");
                text.append(token.as_str());
                text
            },
            ArithmeticError::MalformedExpression => String::from_str("Expression is malformed."),
        }
    }
}

} // verus!
