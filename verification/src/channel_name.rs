use vstd::prelude::*;

use crate::errors::HubError;
use crate::text::{
    char_is_name, char_to_lower, count_leading, is_lower_name_char, is_name_char,
    is_name_trim_char, lemma_spec_trim, lemma_trim_fixpoint, lower_char, lower_fn, spec_trim,
    string_from_chars, trim_bounds, trim_pred,
};

verus! {

/// The input is accepted as a channel name: once whitespace is trimmed from
/// both ends, something is left, and all of it is ASCII letters, digits
/// or `_`.
pub open spec fn valid_name_input(s: Seq<char>) -> bool {
    let t = spec_trim(s, trim_pred(false));
    t.len() > 0 && forall|i: int| 0 <= i < t.len() ==> is_name_char(#[trigger] t[i])
}

/// The stored form of a channel name: trimmed input, case-folded.
pub open spec fn normalize_name(s: Seq<char>) -> Seq<char> {
    spec_trim(s, trim_pred(false)).map_values(lower_fn())
}

/// A sequence that is a stored channel name: non-empty, all lower-case
/// letters, digits or `_`.
pub open spec fn is_normalized_name(s: Seq<char>) -> bool {
    s.len() > 0 && forall|i: int| 0 <= i < s.len() ==> is_lower_name_char(#[trigger] s[i])
}

/// A validated, normalized channel name.
///
/// Construction trims leading and trailing whitespace, rejects anything but
/// ASCII letters, digits and `_` in what remains, and folds the result to
/// lower case.  Equality is on the stored form, so names differing only in
/// case denote the same channel.
#[derive(Debug)]
pub struct HubChannelName {
    name: String,
}

impl View for HubChannelName {
    type V = Seq<char>;

    closed spec fn view(&self) -> Seq<char> {
        self.name@
    }
}

impl HubChannelName {
    /// The name always holds a normalized form.
    #[verifier::type_invariant]
    pub open spec fn wf(&self) -> bool {
        is_normalized_name(self@)
    }

    /// Validate and normalize `value` as a channel name.  Succeeds exactly
    /// when the trimmed input is non-empty and made of ASCII letters,
    /// digits and `_`.
    pub fn try_from_str(value: &str) -> (r: Result<HubChannelName, HubError>)
        ensures
            r is Ok <==> valid_name_input(value@),
            r matches Ok(n) ==> n@ == normalize_name(value@) && n.wf(),
            r matches Err(e) ==> e == HubError::InvalidName,
    {
        let ghost p = trim_pred(false);
        let ghost t = spec_trim(value@, p);
        let (start, end) = trim_bounds(value, false);
        if start == end {
            assert(!valid_name_input(value@));
            return Err(HubError::InvalidName);
        }
        let mut out: Vec<char> = Vec::new();
        let mut k = start;
        while k < end
            invariant
                p == trim_pred(false),
                start <= k <= end,
                start < end,
                end <= value@.len(),
                t == spec_trim(value@, p),
                t == value@.subrange(start as int, end as int),
                out@.len() == k - start,
                forall|j: int|
                    0 <= j < out@.len() ==> is_name_char(#[trigger] t[j]) && out@[j] == lower_char(
                        t[j],
                    ),
            decreases end - k,
        {
            let c = value.get_char(k);
            proof {
                assert(t[k - start] == value@[k as int]);
            }
            if !char_is_name(c) {
                assert(!is_name_char(t[k - start]));
                assert(!valid_name_input(value@));
                return Err(HubError::InvalidName);
            }
            out.push(char_to_lower(c));
            k = k + 1;
        }
        proof {
            assert(valid_name_input(value@));
            assert(out@ =~= t.map_values(lower_fn()));
            lemma_normalize_valid(value@);
        }
        let name = string_from_chars(&out);
        Ok(HubChannelName { name })
    }

    /// The stored, normalized name.
    pub fn as_str(&self) -> (r: &str)
        ensures
            r@ == self@,
    {
        self.name.as_str()
    }

    /// Whether two names denote the same channel.
    pub fn same(&self, other: &HubChannelName) -> (r: bool)
        ensures
            r == (self@ == other@),
    {
        self.name == other.name
    }
}

impl Clone for HubChannelName {
    fn clone(&self) -> (r: Self)
        ensures
            r@ == self@,
    {
        proof {
            use_type_invariant(self);
        }
        HubChannelName { name: self.name.clone() }
    }
}

impl PartialEq for HubChannelName {
    fn eq(&self, other: &Self) -> (r: bool) {
        self.name == other.name
    }
}

impl Eq for HubChannelName {

}

impl vstd::std_specs::cmp::PartialEqSpecImpl for HubChannelName {
    open spec fn obeys_eq_spec() -> bool {
        true
    }

    open spec fn eq_spec(&self, other: &Self) -> bool {
        self@ == other@
    }
}

/// A valid input normalizes to a well-formed stored name.
pub proof fn lemma_normalize_valid(s: Seq<char>)
    requires
        valid_name_input(s),
    ensures
        is_normalized_name(normalize_name(s)),
{
    let t = spec_trim(s, trim_pred(false));
    let n = normalize_name(s);
    assert forall|i: int| 0 <= i < n.len() implies is_lower_name_char(#[trigger] n[i]) by {
        assert(is_name_char(t[i]));
        assert(n[i] == lower_char(t[i]));
        let c = t[i];
        if ('A' as u32) <= (c as u32) && (c as u32) <= ('Z' as u32) {
            assert(((c as u32) + 32) < 256);
        }
    }
}

/// A stored name passes validation unchanged: normalization keeps it as is.
pub proof fn lemma_normalized_is_fixpoint(s: Seq<char>)
    requires
        is_normalized_name(s),
    ensures
        valid_name_input(s),
        normalize_name(s) == s,
{
    assert forall|i: int| 0 <= i < s.len() implies !trim_pred(false)(#[trigger] s[i])
        && !(('A' as u32) <= (s[i] as u32) && (s[i] as u32) <= ('Z' as u32)) by {
        assert(is_lower_name_char(s[i]));
    }
    lemma_trim_fixpoint(s, trim_pred(false));
    assert(spec_trim(s, trim_pred(false)) == s);
    assert forall|i: int| 0 <= i < s.len() implies is_name_char(#[trigger] s[i]) by {
        assert(is_lower_name_char(s[i]));
    }
    assert(normalize_name(s) =~= s);
}

/// Case folding sorts every character into the same classes as the
/// character it folds to.
proof fn lemma_lower_char_class(c: char)
    ensures
        is_name_trim_char(c) == is_name_trim_char(lower_char(c)),
        is_name_char(c) == is_lower_name_char(lower_char(c)),
{
    if ('A' as u32) <= (c as u32) && (c as u32) <= ('Z' as u32) {
        assert(((c as u32) + 32) < 256);
    }
}

/// Case folding: two inputs whose characters fold alike are the same
/// channel name — they validate alike and normalize to the same value.
pub proof fn lemma_case_fold(s1: Seq<char>, s2: Seq<char>)
    requires
        s1.len() == s2.len(),
        forall|i: int| 0 <= i < s1.len() ==> lower_char(#[trigger] s1[i]) == lower_char(s2[i]),
    ensures
        valid_name_input(s1) == valid_name_input(s2),
        normalize_name(s1) == normalize_name(s2),
{
    let p = trim_pred(false);
    assert forall|i: int|
        0 <= i < s1.len() implies is_name_trim_char(#[trigger] s1[i]) == is_name_trim_char(
        s2[i],
    ) && is_name_char(s1[i]) == is_name_char(s2[i]) by {
        lemma_lower_char_class(s1[i]);
        lemma_lower_char_class(s2[i]);
    }
    crate::text::lemma_count_leading(s1, p);
    let cl = count_leading(s1, p);
    assert forall|k: int| 0 <= k < cl implies p(#[trigger] s2[k]) by {
        assert(p(s1[k]));
    }
    if cl < s1.len() {
        assert(!p(s2[cl]));
    }
    crate::text::lemma_count_leading_unique(s2, p, cl);
    let r1 = s1.skip(cl);
    let r2 = s2.skip(cl);
    crate::text::lemma_count_trailing(r1, p);
    let ct = crate::text::count_trailing(r1, p);
    assert forall|k: int| r2.len() - ct <= k < r2.len() implies p(#[trigger] r2[k]) by {
        assert(r1[k] == s1[k + cl]);
        assert(r2[k] == s2[k + cl]);
        assert(p(r1[k]));
    }
    if ct < r2.len() {
        assert(r1[r1.len() - ct - 1] == s1[r1.len() - ct - 1 + cl]);
        assert(r2[r2.len() - ct - 1] == s2[r2.len() - ct - 1 + cl]);
        assert(!p(r2[r2.len() - ct - 1]));
    }
    crate::text::lemma_count_trailing_unique(r2, p, ct);
    let t1 = spec_trim(s1, p);
    let t2 = spec_trim(s2, p);
    assert(t1.len() == t2.len());
    assert forall|i: int|
        0 <= i < t1.len() implies #[trigger] t1[i] == s1[cl + i] && t2[i] == s2[cl + i] by {
        assert(r1[i] == s1[cl + i]);
        assert(r2[i] == s2[cl + i]);
    }
    assert forall|i: int|
        0 <= i < t1.len() implies is_name_char(#[trigger] t1[i]) == is_name_char(t2[i]) by {
        assert(t1[i] == s1[cl + i]);
    }
    assert(valid_name_input(s1) == valid_name_input(s2)) by {
        if valid_name_input(s1) {
            assert forall|i: int| 0 <= i < t2.len() implies is_name_char(#[trigger] t2[i]) by {
                assert(is_name_char(t1[i]));
            }
        }
        if valid_name_input(s2) {
            assert forall|i: int| 0 <= i < t1.len() implies is_name_char(#[trigger] t1[i]) by {
                assert(is_name_char(t2[i]));
            }
        }
    }
    assert(normalize_name(s1) =~= normalize_name(s2)) by {
        assert forall|i: int|
            0 <= i < t1.len() implies lower_char(#[trigger] t1[i]) == lower_char(t2[i]) by {
            assert(t1[i] == s1[cl + i]);
        }
    }
}

/// Normalization is idempotent: feeding a stored name back through the
/// validator returns it unchanged.
pub proof fn lemma_normalize_idempotent(s: Seq<char>)
    requires
        valid_name_input(s),
    ensures
        valid_name_input(normalize_name(s)),
        normalize_name(normalize_name(s)) == normalize_name(s),
{
    lemma_normalize_valid(s);
    lemma_normalized_is_fixpoint(normalize_name(s));
}

} // verus!
