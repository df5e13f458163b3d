use vstd::prelude::*;

use crate::parsing::{is_digit, is_operator};
use crate::text::{debug_of, debug_text, string_of};

verus! {

/// Assembles the text of an expression from single key presses, and keeps
/// operators and decimal points from piling up.
pub struct ExpressionBuilder {
    literals: Vec<char>,
    comma: bool,
}

/// The mathematical content of an [`ExpressionBuilder`]: the characters
/// entered so far, and whether the number at their end holds a point.
pub struct BuilderView {
    pub literals: Seq<char>,
    pub comma: bool,
}

impl View for ExpressionBuilder {
    type V = BuilderView;

    closed spec fn view(&self) -> BuilderView {
        BuilderView { literals: self.literals@, comma: self.comma }
    }
}

/// Whether `value` is a key that the builder takes.
pub open spec fn is_key(value: char) -> bool {
    is_digit(value) || is_operator(value) || value == '.' || value == '='
}

/// Whether `value` may stand at `index` of `text`: a digit anywhere, an
/// operator or a point only directly behind a digit.
pub open spec fn fits(text: Seq<char>, index: int) -> bool {
    is_digit(text[index]) || ((is_operator(text[index]) || text[index] == '.') && index > 0
        && is_digit(text[index - 1]))
}

/// Whether every character of `text` may stand where it does.
pub open spec fn tidy(text: Seq<char>) -> bool {
    forall|i: int| 0 <= i < text.len() ==> #[trigger] fits(text, i)
}

/// A tidy text stays tidy when it loses its last character.
pub proof fn tidy_drop_last(text: Seq<char>)
    requires
        tidy(text),
        text.len() > 0,
    ensures
        tidy(text.drop_last()),
{
    assert forall|i: int| 0 <= i < text.drop_last().len() implies #[trigger] fits(
        text.drop_last(),
        i,
    ) by {
        assert(fits(text, i));
    }
}

/// A tidy text stays tidy when it gains a character that may stand at its end.
pub proof fn tidy_push(text: Seq<char>, value: char)
    requires
        tidy(text),
        fits(text.push(value), text.len() as int),
    ensures
        tidy(text.push(value)),
{
    assert forall|i: int| 0 <= i < text.push(value).len() implies #[trigger] fits(
        text.push(value),
        i,
    ) by {
        if i < text.len() {
            assert(fits(text, i));
        }
    }
}

/// Whether the number at the end of `text` holds a point: a point stands
/// in the text with no operator behind it.
pub open spec fn ends_with_point(text: Seq<char>) -> bool
    decreases text.len(),
{
    if text.len() == 0 || is_operator(text.last()) {
        false
    } else if text.last() == '.' {
        true
    } else {
        ends_with_point(text.drop_last())
    }
}

/// Whether an operator stands between the places `left` and `right`.
pub open spec fn operator_between(text: Seq<char>, left: int, right: int) -> bool {
    exists|k: int| left < k < right && is_operator(#[trigger] text[k])
}

/// Whether no number holds more than one point: between any two points
/// stands an operator.
pub open spec fn single_points(text: Seq<char>) -> bool {
    forall|i: int, j: int|
        0 <= i < j < text.len() && text[i] == '.' && text[j] == '.' ==> #[trigger] operator_between(
            text,
            i,
            j,
        )
}

/// Behind a point in a number that is not the last one stands an operator.
proof fn operator_behind_point(text: Seq<char>, at: int)
    requires
        !ends_with_point(text),
        0 <= at < text.len(),
        text[at] == '.',
    ensures
        operator_between(text, at, text.len() as int),
    decreases text.len(),
{
    if is_operator(text.last()) {
        assert(is_operator(text[text.len() - 1]));
    } else {
        operator_behind_point(text.drop_last(), at);
        let shorter = text.drop_last();
        let k = choose|k: int| at < k < shorter.len() && is_operator(#[trigger] shorter[k]);
        assert(is_operator(text[k]));
    }
}

/// The last number holds a point only where a point stands with no operator
/// behind it.
proof fn point_of_last_number(text: Seq<char>) -> (at: int)
    requires
        ends_with_point(text),
    ensures
        0 <= at < text.len(),
        text[at] == '.',
        !operator_between(text, at, text.len() as int),
    decreases text.len(),
{
    if text.last() == '.' {
        text.len() - 1
    } else {
        let at = point_of_last_number(text.drop_last());
        assert forall|k: int| at < k < text.len() implies !is_operator(#[trigger] text[k]) by {
            if k < text.len() - 1 {
                assert(text.drop_last()[k] == text[k]);
                assert(!operator_between(text.drop_last(), at, text.len() - 1));
            }
        }
        at
    }
}

/// No number gains a point when the text loses its last character.
proof fn single_points_drop_last(text: Seq<char>)
    requires
        single_points(text),
        text.len() > 0,
    ensures
        single_points(text.drop_last()),
        text.last() == '.' ==> !ends_with_point(text.drop_last()),
{
    let shorter = text.drop_last();
    assert forall|i: int, j: int|
        0 <= i < j < shorter.len() && shorter[i] == '.' && shorter[j]
            == '.' implies #[trigger] operator_between(shorter, i, j) by {
        assert(operator_between(text, i, j));
        let k = choose|k: int| i < k < j && is_operator(#[trigger] text[k]);
        assert(is_operator(shorter[k]));
    }
    if text.last() == '.' && ends_with_point(shorter) {
        let at = point_of_last_number(shorter);
        assert(operator_between(text, at, text.len() - 1));
        let k = choose|k: int| at < k < text.len() - 1 && is_operator(#[trigger] text[k]);
        assert(is_operator(shorter[k]));
    }
}

/// No number gains a second point when the text gains a character, unless
/// that is a point and the last number has one.
proof fn single_points_push(text: Seq<char>, value: char)
    requires
        single_points(text),
        value == '.' ==> !ends_with_point(text),
    ensures
        single_points(text.push(value)),
        ends_with_point(text.push(value)) == (!is_operator(value) && (value == '.'
            || ends_with_point(text))),
{
    let longer = text.push(value);
    assert(longer.drop_last() =~= text);
    assert forall|i: int, j: int|
        0 <= i < j < longer.len() && longer[i] == '.' && longer[j]
            == '.' implies #[trigger] operator_between(longer, i, j) by {
        if j < text.len() {
            assert(operator_between(text, i, j));
            let k = choose|k: int| i < k < j && is_operator(#[trigger] text[k]);
            assert(is_operator(longer[k]));
        } else {
            operator_behind_point(text, i);
            let k = choose|k: int| i < k < text.len() && is_operator(#[trigger] text[k]);
            assert(is_operator(longer[k]));
        }
    }
}

impl BuilderView {
    /// Nothing entered yet.
    pub open spec fn empty() -> BuilderView {
        BuilderView { literals: Seq::empty(), comma: false }
    }

    /// Every character is a digit, an operator or a point, each operator and
    /// each point stands directly behind a digit, no number holds more than
    /// one point, and `comma` tells whether the number at the end of the
    /// text holds one.
    pub open spec fn well_formed(self) -> bool {
        &&& tidy(self.literals)
        &&& single_points(self.literals)
        &&& self.comma == ends_with_point(self.literals)
    }

    /// After a digit: the digit is appended.
    pub open spec fn with_digit(self, value: char) -> BuilderView {
        BuilderView { literals: self.literals.push(value), comma: self.comma }
    }

    /// After an operator: it replaces an operator at the end, and a zero
    /// comes before it where no digit would stand there. A new number begins.
    pub open spec fn with_operator(self, value: char) -> BuilderView {
        let base = if self.literals.len() == 0 || self.literals.last() == '.' {
            self.literals.push('0')
        } else if is_operator(self.literals.last()) {
            self.literals.drop_last()
        } else {
            self.literals
        };
        BuilderView { literals: base.push(value), comma: false }
    }

    /// After a point: nothing where the number has its point already or a
    /// point stands at the end; else it is appended, behind a zero where no
    /// digit would stand before it.
    pub open spec fn with_point(self, value: char) -> BuilderView {
        if self.comma || (self.literals.len() > 0 && self.literals.last() == '.') {
            self
        } else {
            let base = if self.literals.len() == 0 || is_operator(self.literals.last()) {
                self.literals.push('0')
            } else {
                self.literals
            };
            BuilderView { literals: base.push(value), comma: true }
        }
    }

    /// Before submission: an operator at the end is dropped, which makes the
    /// number before it the last one again, with the point that it may hold;
    /// and a point at the end gets a zero behind it.
    pub open spec fn checked(self) -> BuilderView {
        if self.literals.len() > 0 && is_operator(self.literals.last()) {
            BuilderView {
                literals: self.literals.drop_last(),
                comma: ends_with_point(self.literals.drop_last()),
            }
        } else if self.literals.len() > 0 && self.literals.last() == '.' {
            BuilderView { literals: self.literals.push('0'), comma: self.comma }
        } else {
            self
        }
    }

    /// After a key press.
    pub open spec fn extended(self, value: char) -> BuilderView {
        if is_digit(value) {
            self.with_digit(value)
        } else if is_operator(value) {
            self.with_operator(value)
        } else if value == '.' {
            self.with_point(value)
        } else {
            self.checked()
        }
    }

    /// After a deletion: the last character is gone, unless it is an
    /// operator, which stays. A number that loses its point can take one
    /// again.
    pub open spec fn shortened(self) -> BuilderView {
        if self.literals.len() == 0 || is_operator(self.literals.last()) {
            self
        } else if self.literals.last() == '.' {
            BuilderView { literals: self.literals.drop_last(), comma: false }
        } else {
            BuilderView { literals: self.literals.drop_last(), comma: self.comma }
        }
    }
}

/// A builder that holds nothing is well formed.
pub proof fn empty_is_well_formed()
    ensures
        BuilderView::empty().well_formed(),
{
}

/// Every key press and every deletion keeps a well-formed builder well
/// formed: the text stays tidy, no number gains a second point, and the
/// builder goes on knowing whether the last number holds one.
pub proof fn transitions_keep_well_formed(builder: BuilderView, value: char)
    requires
        builder.well_formed(),
        is_key(value),
    ensures
        builder.extended(value).well_formed(),
        builder.shortened().well_formed(),
        is_digit(value) ==> builder.with_digit(value).well_formed(),
        is_operator(value) ==> builder.with_operator(value).well_formed(),
        value == '.' ==> builder.with_point(value).well_formed(),
        builder.checked().well_formed(),
{
    let text = builder.literals;
    if text.len() > 0 {
        tidy_drop_last(text);
        single_points_drop_last(text);
        assert(fits(text, text.len() - 1));
    }
    if is_digit(value) {
        tidy_push(text, value);
        single_points_push(text, value);
    }
    if is_operator(value) {
        if text.len() == 0 || text.last() == '.' {
            tidy_push(text, '0');
            single_points_push(text, '0');
            tidy_push(text.push('0'), value);
            single_points_push(text.push('0'), value);
        } else if is_operator(text.last()) {
            tidy_push(text.drop_last(), value);
            single_points_push(text.drop_last(), value);
        } else {
            tidy_push(text, value);
            single_points_push(text, value);
        }
    }
    if value == '.' && !(builder.comma || (text.len() > 0 && text.last() == '.')) {
        if text.len() == 0 || is_operator(text.last()) {
            tidy_push(text, '0');
            single_points_push(text, '0');
            tidy_push(text.push('0'), value);
            single_points_push(text.push('0'), value);
        } else {
            tidy_push(text, value);
            single_points_push(text, value);
        }
    }
    if text.len() > 0 && text.last() == '.' {
        tidy_push(text, '0');
        single_points_push(text, '0');
    }
}

/// Whether `value` is the key of an operator.
fn operator_key(value: char) -> (result: bool)
    ensures
        result == is_operator(value),
{
    value == '+' || value == '-' || value == '*' || value == '/'
}

impl ExpressionBuilder {
    /// A builder that holds nothing yet.
    pub fn new() -> (builder: Self)
        ensures
            builder@ == BuilderView::empty(),
            builder@.well_formed(),
    {
        ExpressionBuilder { literals: Vec::new(), comma: false }
    }

    /// Takes one key press: a digit, an operator, a point, or `=`, which
    /// tidies the end of the text for submission.
    pub fn extend(&mut self, value: char)
        requires
            is_key(value),
        ensures
            final(self)@ == old(self)@.extended(value),
            old(self)@.well_formed() ==> final(self)@.well_formed(),
    {
        if '0' <= value && value <= '9' {
            self.digit(value)
        } else if operator_key(value) {
            self.operator(value)
        } else if value == '.' {
            self.comma(value)
        } else {
            self.check()
        }
    }

    /// Takes a digit.
    fn digit(&mut self, value: char)
        requires
            is_digit(value),
        ensures
            final(self)@ == old(self)@.with_digit(value),
            old(self)@.well_formed() ==> final(self)@.well_formed(),
    {
        self.literals.push(value);
        proof {
            if old(self)@.well_formed() {
                transitions_keep_well_formed(old(self)@, value);
            }
        }
    }

    /// Takes an operator.
    fn operator(&mut self, value: char)
        requires
            is_operator(value),
        ensures
            final(self)@ == old(self)@.with_operator(value),
            old(self)@.well_formed() ==> final(self)@.well_formed(),
    {
        let length = self.literals.len();
        if length == 0 || self.literals[length - 1] == '.' {
            self.literals.push('0');
        } else if operator_key(self.literals[length - 1]) {
            self.literals.pop();
        }
        self.literals.push(value);
        self.comma = false;
        proof {
            if old(self)@.well_formed() {
                transitions_keep_well_formed(old(self)@, value);
            }
        }
    }

    /// Takes a decimal point.
    fn comma(&mut self, value: char)
        requires
            value == '.',
        ensures
            final(self)@ == old(self)@.with_point(value),
            old(self)@.well_formed() ==> final(self)@.well_formed(),
    {
        if self.comma {
            return;
        }
        let length = self.literals.len();
        if length == 0 || operator_key(self.literals[length - 1]) {
            self.literals.push('0');
        } else if self.literals[length - 1] == '.' {
            return;
        }
        self.literals.push(value);
        self.comma = true;
        proof {
            if old(self)@.well_formed() {
                transitions_keep_well_formed(old(self)@, value);
            }
        }
    }

    /// Whether the number at the end of the text holds a point.
    fn last_number_has_point(&self) -> (result: bool)
        ensures
            result == ends_with_point(self.literals@),
    {
        let mut left: usize = self.literals.len();
        proof {
            assert(self.literals@.take(left as int) =~= self.literals@);
        }
        while left > 0
            invariant
                left <= self.literals.len(),
                ends_with_point(self.literals@.take(left as int)) == ends_with_point(
                    self.literals@,
                ),
            decreases left,
        {
            let value = self.literals[left - 1];
            proof {
                assert(self.literals@.take(left as int).last() == value);
                assert(self.literals@.take(left as int).drop_last() =~= self.literals@.take(
                    left - 1,
                ));
            }
            if operator_key(value) {
                return false;
            } else if value == '.' {
                return true;
            }
            left = left - 1;
        }
        false
    }

    /// Tidies the end of the text for submission.
    fn check(&mut self)
        ensures
            final(self)@ == old(self)@.checked(),
            old(self)@.well_formed() ==> final(self)@.well_formed(),
    {
        let length = self.literals.len();
        if length > 0 && operator_key(self.literals[length - 1]) {
            self.literals.pop();
            self.comma = self.last_number_has_point();
        } else if length > 0 && self.literals[length - 1] == '.' {
            self.literals.push('0');
        }
        proof {
            if old(self)@.well_formed() {
                transitions_keep_well_formed(old(self)@, '=');
            }
        }
    }

    /// Takes the last character back, unless it is an operator.
    pub fn delete(&mut self)
        ensures
            final(self)@ == old(self)@.shortened(),
            old(self)@.well_formed() ==> final(self)@.well_formed(),
    {
        match self.literals.pop() {
            Some(c) => {
                if operator_key(c) {
                    self.literals.push(c);
                    proof {
                        assert(self.literals@ =~= old(self).literals@);
                    }
                } else if c == '.' {
                    self.comma = false;
                }
            },
            None => {},
        }
        proof {
            if old(self)@.well_formed() {
                transitions_keep_well_formed(old(self)@, '=');
            }
        }
    }

    /// Forgets everything entered.
    pub fn clear(&mut self)
        ensures
            final(self)@ == BuilderView::empty(),
    {
        self.literals.clear();
        self.comma = false;
    }

    /// Hands out the text entered and starts afresh.
    pub fn collect(&mut self) -> (text: String)
        ensures
            text@ == old(self)@.literals,
            final(self)@ == BuilderView::empty(),
    {
        let text = string_of(self.literals.as_slice());
        self.literals.clear();
        self.comma = false;
        text
    }

    /// The text entered so far.
    pub fn to_string(&self) -> (text: String)
        ensures
            text@ == self@.literals,
    {
        string_of(self.literals.as_slice())
    }

    /// The characters entered so far, as a list for a log.
    pub fn debug(&self) -> (text: String)
        ensures
            text@ == debug_text(self@.literals),
    {
        debug_of(&self.literals)
    }
}

} // verus!
