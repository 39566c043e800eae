use vstd::prelude::*;

verus! {

// Character classes used by the validators.

/// Whitespace stripped from both ends of a channel name before validation.
pub open spec fn is_name_trim_char(c: char) -> bool {
    c == ' ' || c == '\t' || c == '\n' || c == '\r'
}

/// Whitespace stripped from both ends of a payload; inner content is kept
/// verbatim.
pub open spec fn is_payload_trim_char(c: char) -> bool {
    c == ' ' || c == '\n' || c == '\r'
}

/// The characters a channel name may contain before case folding:
/// ASCII letters, digits and `_`.
pub open spec fn is_name_char(c: char) -> bool {
    (('a' as u32) <= (c as u32) && (c as u32) <= ('z' as u32)) || (('A' as u32) <= (c as u32)
        && (c as u32) <= ('Z' as u32)) || (('0' as u32) <= (c as u32) && (c as u32)
        <= ('9' as u32)) || c == '_'
}

/// The characters of a stored (case-folded) channel name.
pub open spec fn is_lower_name_char(c: char) -> bool {
    (('a' as u32) <= (c as u32) && (c as u32) <= ('z' as u32)) || (('0' as u32) <= (c as u32)
        && (c as u32) <= ('9' as u32)) || c == '_'
}

/// ASCII case folding of one character.
pub open spec fn lower_char(c: char) -> char {
    if ('A' as u32) <= (c as u32) && (c as u32) <= ('Z' as u32) {
        (((c as u32) + 32) as u8) as char
    } else {
        c
    }
}

/// The trim class as a function value, selected by `payload_only`.
pub open spec fn trim_pred(payload_only: bool) -> spec_fn(char) -> bool {
    if payload_only {
        |c: char| is_payload_trim_char(c)
    } else {
        |c: char| is_name_trim_char(c)
    }
}

/// The case-folding map as a function value.
pub open spec fn lower_fn() -> spec_fn(char) -> char {
    |c: char| lower_char(c)
}

// Trimming, as a specification.

/// How many leading characters of `s` satisfy `p`.
pub open spec fn count_leading(s: Seq<char>, p: spec_fn(char) -> bool) -> int
    decreases s.len(),
{
    if s.len() == 0 || !p(s[0]) {
        0
    } else {
        1 + count_leading(s.drop_first(), p)
    }
}

/// How many trailing characters of `s` satisfy `p`.
pub open spec fn count_trailing(s: Seq<char>, p: spec_fn(char) -> bool) -> int
    decreases s.len(),
{
    if s.len() == 0 || !p(s[s.len() - 1]) {
        0
    } else {
        1 + count_trailing(s.take(s.len() - 1), p)
    }
}

/// `s` with its `p`-prefix and `p`-suffix removed.
pub open spec fn spec_trim(s: Seq<char>, p: spec_fn(char) -> bool) -> Seq<char> {
    let rest = s.skip(count_leading(s, p));
    rest.take(rest.len() - count_trailing(rest, p))
}

pub proof fn lemma_count_leading(s: Seq<char>, p: spec_fn(char) -> bool)
    ensures
        0 <= count_leading(s, p) <= s.len(),
        forall|k: int| 0 <= k < count_leading(s, p) ==> p(#[trigger] s[k]),
        count_leading(s, p) < s.len() ==> !p(s[count_leading(s, p)]),
    decreases s.len(),
{
    if s.len() == 0 || !p(s[0]) {
    } else {
        lemma_count_leading(s.drop_first(), p);
        assert forall|k: int| 0 <= k < count_leading(s, p) implies p(#[trigger] s[k]) by {
            if k >= 1 {
                assert(s.drop_first()[k - 1] == s[k]);
            }
        }
        if count_leading(s, p) < s.len() {
            assert(s.drop_first()[count_leading(s.drop_first(), p)] == s[count_leading(s, p)]);
        }
    }
}

/// `count_leading` is the first index whose character fails `p`.
pub proof fn lemma_count_leading_unique(s: Seq<char>, p: spec_fn(char) -> bool, i: int)
    requires
        0 <= i <= s.len(),
        forall|k: int| 0 <= k < i ==> p(#[trigger] s[k]),
        i < s.len() ==> !p(s[i]),
    ensures
        count_leading(s, p) == i,
{
    lemma_count_leading(s, p);
    let c = count_leading(s, p);
    if c < i {
        assert(p(s[c]));
    }
    if i < c {
        assert(p(s[i]));
    }
}

pub proof fn lemma_count_trailing(s: Seq<char>, p: spec_fn(char) -> bool)
    ensures
        0 <= count_trailing(s, p) <= s.len(),
        forall|k: int| s.len() - count_trailing(s, p) <= k < s.len() ==> p(#[trigger] s[k]),
        count_trailing(s, p) < s.len() ==> !p(s[s.len() - count_trailing(s, p) - 1]),
    decreases s.len(),
{
    if s.len() == 0 || !p(s[s.len() - 1]) {
    } else {
        let t = s.take(s.len() - 1);
        lemma_count_trailing(t, p);
        assert forall|k: int| s.len() - count_trailing(s, p) <= k < s.len() implies p(
            #[trigger] s[k],
        ) by {
            if k < s.len() - 1 {
                assert(t[k] == s[k]);
            }
        }
        if count_trailing(s, p) < s.len() {
            assert(t[t.len() - count_trailing(t, p) - 1] == s[s.len() - count_trailing(s, p) - 1]);
        }
    }
}

/// `count_trailing` is determined by the last index whose character fails `p`.
pub proof fn lemma_count_trailing_unique(s: Seq<char>, p: spec_fn(char) -> bool, i: int)
    requires
        0 <= i <= s.len(),
        forall|k: int| s.len() - i <= k < s.len() ==> p(#[trigger] s[k]),
        i < s.len() ==> !p(s[s.len() - i - 1]),
    ensures
        count_trailing(s, p) == i,
{
    lemma_count_trailing(s, p);
    let c = count_trailing(s, p);
    if c < i {
        assert(p(s[s.len() - c - 1]));
    }
    if i < c {
        assert(p(s[s.len() - i - 1]));
    }
}

/// What `spec_trim` keeps: the subrange between the trimmed ends, whose own
/// ends, if any, fail the trim class.
pub proof fn lemma_spec_trim(s: Seq<char>, p: spec_fn(char) -> bool)
    ensures
        spec_trim(s, p).len() <= s.len(),
        0 <= count_leading(s, p),
        count_leading(s, p) + spec_trim(s, p).len() <= s.len(),
        spec_trim(s, p) == s.subrange(
            count_leading(s, p),
            count_leading(s, p) + spec_trim(s, p).len(),
        ),
        forall|k: int|
            0 <= k < spec_trim(s, p).len() ==> #[trigger] spec_trim(s, p)[k] == s[count_leading(
                s,
                p,
            ) + k],
        spec_trim(s, p).len() > 0 ==> !p(spec_trim(s, p)[0]) && !p(
            spec_trim(s, p)[spec_trim(s, p).len() - 1],
        ),
{
    lemma_count_leading(s, p);
    let cl = count_leading(s, p);
    let rest = s.skip(cl);
    lemma_count_trailing(rest, p);
    let ct = count_trailing(rest, p);
    let t = spec_trim(s, p);
    assert(t =~= s.subrange(cl, cl + t.len()));
    if t.len() > 0 {
        assert(!p(rest[0]));
        assert(!p(rest[rest.len() - ct - 1]));
    }
}

/// A sequence whose ends (if any) are not in the trim class is kept whole.
pub proof fn lemma_trim_fixpoint(s: Seq<char>, p: spec_fn(char) -> bool)
    requires
        s.len() > 0 ==> !p(s[0]) && !p(s[s.len() - 1]),
    ensures
        spec_trim(s, p) == s,
{
    lemma_count_leading_unique(s, p, 0);
    let rest = s.skip(0);
    assert(rest =~= s);
    lemma_count_trailing_unique(rest, p, 0);
    assert(spec_trim(s, p) =~= s);
}

// Executable character tests, each mirroring its specification.

pub fn char_is_trim(c: char, payload_only: bool) -> (r: bool)
    ensures
        r == trim_pred(payload_only)(c),
{
    if payload_only {
        c == ' ' || c == '\n' || c == '\r'
    } else {
        c == ' ' || c == '\t' || c == '\n' || c == '\r'
    }
}

pub fn char_is_name(c: char) -> (r: bool)
    ensures
        r == is_name_char(c),
{
    let u = c as u32;
    (('a' as u32) <= u && u <= ('z' as u32)) || (('A' as u32) <= u && u <= ('Z' as u32)) || (('0'
        as u32) <= u && u <= ('9' as u32)) || c == '_'
}

pub fn char_is_lower_name(c: char) -> (r: bool)
    ensures
        r == is_lower_name_char(c),
{
    let u = c as u32;
    (('a' as u32) <= u && u <= ('z' as u32)) || (('0' as u32) <= u && u <= ('9' as u32)) || c == '_'
}

pub fn char_to_lower(c: char) -> (r: char)
    ensures
        r == lower_char(c),
{
    let u = c as u32;
    if ('A' as u32) <= u && u <= ('Z' as u32) {
        ((u + 32) as u8) as char
    } else {
        c
    }
}

/// The bounds of `s` with the chosen trim class removed from both ends:
/// `s` restricted to `r.0 .. r.1` is `spec_trim` of `s`.
pub fn trim_bounds(s: &str, payload_only: bool) -> (r: (usize, usize))
    ensures
        r.0 <= r.1 <= s@.len(),
        r.0 == count_leading(s@, trim_pred(payload_only)),
        r.0 + spec_trim(s@, trim_pred(payload_only)).len() == r.1,
        s@.subrange(r.0 as int, r.1 as int) == spec_trim(s@, trim_pred(payload_only)),
{
    let ghost p = trim_pred(payload_only);
    let n = s.unicode_len();
    let mut i: usize = 0;
    while i < n && char_is_trim(s.get_char(i), payload_only)
        invariant
            p == trim_pred(payload_only),
            i <= n,
            n == s@.len(),
            forall|k: int| 0 <= k < i ==> p(#[trigger] s@[k]),
        decreases n - i,
    {
        i = i + 1;
    }
    proof {
        lemma_count_leading_unique(s@, p, i as int);
    }
    let mut j: usize = n;
    while j > i && char_is_trim(s.get_char(j - 1), payload_only)
        invariant
            p == trim_pred(payload_only),
            i <= j <= n,
            n == s@.len(),
            forall|k: int| j <= k < n ==> p(#[trigger] s@[k]),
        decreases j,
    {
        j = j - 1;
    }
    proof {
        let rest = s@.skip(i as int);
        assert forall|k: int| rest.len() - (n - j) <= k < rest.len() implies p(
            #[trigger] rest[k],
        ) by {
            assert(rest[k] == s@[k + i]);
        }
        if (n - j) < rest.len() {
            assert(rest[rest.len() - (n - j) - 1] == s@[j - 1]);
        }
        lemma_count_trailing_unique(rest, p, (n - j) as int);
        assert(s@.subrange(i as int, j as int) =~= spec_trim(s@, p));
    }
    (i, j)
}

// Bridges between `String` and its characters.

/// Relies on `String`'s `FromIterator<char>`: collecting characters yields
/// the string of exactly those characters, in order.
#[verifier::external_body]
pub fn string_from_chars(v: &Vec<char>) -> (r: String)
    ensures
        r@ == v@,
{
    v.iter().collect()
}

/// The characters of `s` between two bounds, as a vector.
pub fn chars_range(s: &str, start: usize, end: usize) -> (r: Vec<char>)
    requires
        start <= end <= s@.len(),
    ensures
        r@ == s@.subrange(start as int, end as int),
{
    let mut out: Vec<char> = Vec::new();
    let mut k = start;
    while k < end
        invariant
            start <= k <= end <= s@.len(),
            out@ =~= s@.subrange(start as int, k as int),
        decreases end - k,
    {
        out.push(s.get_char(k));
        k = k + 1;
        proof {
            assert(out@ =~= s@.subrange(start as int, k as int));
        }
    }
    out
}

/// The characters of `s`, as a vector.
pub fn chars_of(s: &str) -> (r: Vec<char>)
    ensures
        r@ == s@,
{
    let n = s.unicode_len();
    let mut out: Vec<char> = Vec::new();
    let mut i: usize = 0;
    while i < n
        invariant
            i <= n,
            n == s@.len(),
            out@ =~= s@.take(i as int),
        decreases n - i,
    {
        out.push(s.get_char(i));
        i = i + 1;
        proof {
            assert(out@ =~= s@.take(i as int));
        }
    }
    proof {
        assert(s@.take(n as int) =~= s@);
    }
    out
}

} // verus!
