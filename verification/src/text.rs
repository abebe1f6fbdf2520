use vstd::prelude::*;
use tendril::StrTendril;
use vstd::std_specs::cmp::PartialEqSpecImpl;
use vstd::string::StringSliceAdditionalSpecFns;
use vstd::utf8::encode_utf8;

verus! {

/// A piece of source text, held in a tendril of the crate `tendril`.
/// The verifier does not look inside: what is known of a text is what the
/// functions below say of the characters it holds.
#[verifier::external_body]
#[derive(Debug)]
pub struct Text {
    inner: StrTendril,
}

/// The characters that a text holds.
pub uninterp spec fn text_chars(t: Text) -> Seq<char>;

impl View for Text {
    type V = Seq<char>;

    open spec fn view(&self) -> Seq<char> {
        text_chars(*self)
    }
}

/// The most bytes that a tendril can hold.
pub const MAX_TEXT_BYTES: usize = 0xffff_ffff;

/// Makes a tendril of a string slice, with tendril's `from_slice`, which
/// refuses a slice of more bytes than a tendril can hold. Trusted: the
/// tendril holds the characters of the slice.
#[verifier::external_body]
fn tendril_from_slice(s: &str) -> (t: Text)
    requires
        s.spec_bytes().len() <= MAX_TEXT_BYTES,
    ensures
        text_chars(t) == s@,
{
    Text { inner: StrTendril::from_slice(s) }
}

/// Writes a tendril out as a `String`, with the `to_string` that its impl
/// of `Display` gives it. Trusted: the string holds the characters of the
/// tendril, which take no more bytes than a tendril can hold.
#[verifier::external_body]
fn tendril_to_string(t: &Text) -> (s: String)
    ensures
        s@ == text_chars(*t),
        encode_utf8(s@).len() <= MAX_TEXT_BYTES,
{
    t.inner.to_string()
}

impl Clone for Text {
    /// A text of the same characters.
    fn clone(&self) -> (r: Text)
        ensures
            r@ == self@,
    {
        let s = tendril_to_string(self);
        tendril_from_slice(s.as_str())
    }
}

impl PartialEq for Text {
    /// Two texts are equal when they hold the same characters.
    fn eq(&self, other: &Text) -> (r: bool) {
        let mine = tendril_to_string(self);
        let theirs = tendril_to_string(other);
        mine == theirs
    }
}

impl PartialEqSpecImpl for Text {
    open spec fn obeys_eq_spec() -> bool {
        true
    }

    open spec fn eq_spec(&self, other: &Text) -> bool {
        self@ == other@
    }
}

impl Eq for Text {

}

impl Text {
    /// The text of the given characters, unless they take more bytes than
    /// a text can hold.
    pub fn new(s: &str) -> (r: Option<Text>)
        ensures
            r is Some <==> s.spec_bytes().len() <= MAX_TEXT_BYTES,
            r matches Some(t) ==> t@ == s@,
    {
        if s.as_bytes().len() <= MAX_TEXT_BYTES {
            Some(tendril_from_slice(s))
        } else {
            None
        }
    }

    /// The text as a `String`.
    pub fn to_string(&self) -> (s: String)
        ensures
            s@ == self@,
    {
        tendril_to_string(self)
    }

    /// True exactly when the text equals the literal.
    pub fn is(&self, literal: &str) -> (r: bool)
        ensures
            r == (self@ == literal@),
    {
        let mine = tendril_to_string(self);
        let other = String::from_str(literal);
        mine == other
    }
}

} // verus!
