use vstd::prelude::*;

use crate::text::{
    chars_range, is_payload_trim_char, lemma_spec_trim, lemma_trim_fixpoint, spec_trim,
    string_from_chars, trim_bounds, trim_pred,
};

verus! {

/// The stored form of a payload: spaces, newlines and carriage returns are
/// stripped from both ends; inner content is kept verbatim.
pub open spec fn normalize_payload(s: Seq<char>) -> Seq<char> {
    spec_trim(s, trim_pred(true))
}

/// A sequence that is a stored payload: its ends, if any, carry none of the
/// trimmed whitespace.
pub open spec fn is_normalized_payload(s: Seq<char>) -> bool {
    s.len() > 0 ==> !is_payload_trim_char(s[0]) && !is_payload_trim_char(s[s.len() - 1])
}

/// Trimming a payload twice is the same as trimming it once.
pub proof fn lemma_normalize_payload_idempotent(s: Seq<char>)
    ensures
        normalize_payload(normalize_payload(s)) == normalize_payload(s),
        is_normalized_payload(normalize_payload(s)),
{
    lemma_spec_trim(s, trim_pred(true));
    lemma_trim_fixpoint(normalize_payload(s), trim_pred(true));
}

/// An opaque payload string.
///
/// Construction trims spaces, newlines and carriage returns from both ends
/// and keeps everything in between verbatim — commas, quotes, embedded
/// fragments of other formats included.  There is no content validation.
#[derive(Debug)]
pub struct HubData {
    data: String,
}

impl View for HubData {
    type V = Seq<char>;

    closed spec fn view(&self) -> Seq<char> {
        self.data@
    }
}

impl HubData {
    /// The payload never carries trimmed whitespace at its ends.
    #[verifier::type_invariant]
    pub open spec fn wf(&self) -> bool {
        is_normalized_payload(self@)
    }

    /// Store `data` as a payload, trimming both ends.  Never fails.
    pub fn from_str(data: &str) -> (r: HubData)
        ensures
            r@ == normalize_payload(data@),
    {
        let (start, end) = trim_bounds(data, true);
        let out = chars_range(data, start, end);
        proof {
            lemma_spec_trim(data@, trim_pred(true));
        }
        HubData { data: string_from_chars(&out) }
    }

    /// The stored payload.
    pub fn as_str(&self) -> (r: &str)
        ensures
            r@ == self@,
    {
        self.data.as_str()
    }
}

impl Clone for HubData {
    fn clone(&self) -> (r: Self)
        ensures
            r@ == self@,
    {
        proof {
            use_type_invariant(self);
        }
        HubData { data: self.data.clone() }
    }
}

impl PartialEq for HubData {
    fn eq(&self, other: &Self) -> (r: bool) {
        self.data == other.data
    }
}

impl Eq for HubData {

}

impl vstd::std_specs::cmp::PartialEqSpecImpl for HubData {
    open spec fn obeys_eq_spec() -> bool {
        true
    }

    open spec fn eq_spec(&self, other: &Self) -> bool {
        self@ == other@
    }
}

} // verus!
