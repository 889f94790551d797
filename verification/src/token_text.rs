//! The text of a token: borrowed from a string, or held by a node of a
//! syntax tree.

use vstd::prelude::*;
use vstd::string::StringExecFns;

verus! {

#[verifier::external_type_specification]
#[verifier::external_body]
pub struct ExGreenToken(rowan::GreenToken);

/// The text that a token of a syntax tree holds.
pub uninterp spec fn green_text(token: rowan::GreenToken) -> Seq<char>;

/// The text of a token of a syntax tree.
///
/// Wraps `rowan::GreenTokenData::text`, reached through the token's deref:
/// it hands out the text that the token was made with.
#[verifier::external_body]
fn text_of_green(token: &rowan::GreenToken) -> (text: &str)
    ensures
        text@ == green_text(*token),
{
    token.text()
}

pub enum Repr<'a> {
    Borrowed(&'a str),
    Owned(rowan::GreenToken),
}

pub struct TokenText<'a>(pub Repr<'a>);

impl<'a> View for TokenText<'a> {
    type V = Seq<char>;

    open spec fn view(&self) -> Seq<char> {
        match self.0 {
            Repr::Borrowed(text) => text@,
            Repr::Owned(green) => green_text(green),
        }
    }
}

impl<'a> TokenText<'a> {
    pub fn borrowed(text: &'a str) -> (t: Self)
        ensures
            t@ == text@,
    {
        TokenText(Repr::Borrowed(text))
    }

    pub fn owned(green: rowan::GreenToken) -> (t: Self)
        ensures
            t@ == green_text(green),
    {
        TokenText(Repr::Owned(green))
    }

    pub fn as_str(&self) -> (text: &str)
        ensures
            text@ == self@,
    {
        match &self.0 {
            Repr::Borrowed(it) => it,
            Repr::Owned(green) => text_of_green(green),
        }
    }

    /// The text as a string of its own.
    pub fn to_string(&self) -> (text: String)
        ensures
            text@ == self@,
    {
        String::from_str(self.as_str())
    }

    /// Whether two token texts read the same, wherever they are held.
    pub fn same(&self, other: &TokenText) -> (same: bool)
        ensures
            same == (self@ == other@),
    {
        crate::input::same_text(self.as_str(), other.as_str())
    }

    /// Whether the token text reads as the given string.
    pub fn same_as(&self, other: &str) -> (same: bool)
        ensures
            same == (self@ == other@),
    {
        crate::input::same_text(self.as_str(), other)
    }
}

} // verus!
