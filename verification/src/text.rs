use vstd::prelude::*;
use vstd::string::*;

verus! {

/// The characters of `input`, in order.
pub fn characters(input: &str) -> (chars: Vec<char>)
    ensures
        chars@ == input@,
{
    broadcast use vstd::string::group_string_axioms;

    let mut chars: Vec<char> = Vec::new();
    for c in rest: input.chars()
        invariant
            rest.seq() == input@,
            chars@ == input@.take(rest.index() as int),
    {
        chars.push(c);
        proof {
            assert(chars@ =~= input@.take(rest.index() + 1));
        }
    }
    proof {
        assert(chars@ =~= input@);
    }
    chars
}

/// Collects characters into a `String` with std's `FromIterator<&char>` for
/// `String`. Trusted: the string holds exactly the given characters, in the
/// given order.
#[verifier::external_body]
pub(crate) fn string_of(chars: &[char]) -> (text: String)
    ensures
        text@ == chars@,
{
    chars.iter().collect()
}

/// The text that std's `Debug` gives for a list of characters.
pub uninterp spec fn debug_text(chars: Seq<char>) -> Seq<char>;

/// Formats a list of characters with std's `Debug` for `Vec<char>`. Trusted:
/// the text depends on the characters alone.
#[verifier::external_body]
pub(crate) fn debug_of(chars: &Vec<char>) -> (text: String)
    ensures
        text@ == debug_text(chars@),
{
    format!("{:?}", chars)
}

} // verus!
