use vstd::prelude::*;

use crate::channel_name::HubChannelName;
use crate::errors::HubError;
use crate::text::{
    char_is_name, char_is_trim, char_to_lower, is_lower_name_char, is_name_char,
    is_name_trim_char, lower_char, string_from_chars,
};

verus! {

/// The input is accepted as a serial channel name: every character is either
/// whitespace (dropped) or an ASCII letter, digit or `_`.
pub open spec fn valid_serial_input(s: Seq<char>) -> bool {
    forall|i: int|
        0 <= i < s.len() ==> is_name_trim_char(#[trigger] s[i]) || is_name_char(s[i])
}

/// The stored form of a serial channel name: whitespace dropped anywhere in
/// the input, the rest case-folded.
pub open spec fn serial_normalize(s: Seq<char>) -> Seq<char>
    decreases s.len(),
{
    if s.len() == 0 {
        Seq::empty()
    } else {
        let rest = serial_normalize(s.drop_last());
        if is_name_trim_char(s.last()) {
            rest
        } else {
            rest.push(lower_char(s.last()))
        }
    }
}

/// A sequence that is a stored serial channel name: every character is a
/// lower-case letter, digit or `_`.  The empty name is allowed here; it is
/// rejected only when converted to a hub channel name.
pub open spec fn is_serial_name(s: Seq<char>) -> bool {
    forall|i: int| 0 <= i < s.len() ==> is_lower_name_char(#[trigger] s[i])
}

/// A channel name as it appears on a serial link, where the wire tags it
/// `##name##`.  Construction drops whitespace anywhere in the input, folds
/// the rest to lower case, and rejects any other character outside ASCII
/// letters, digits and `_`.
#[derive(Debug)]
pub struct SerialChannelName {
    name: String,
}

impl View for SerialChannelName {
    type V = Seq<char>;

    closed spec fn view(&self) -> Seq<char> {
        self.name@
    }
}

impl SerialChannelName {
    /// The name always holds a stored serial form.
    #[verifier::type_invariant]
    pub open spec fn wf(&self) -> bool {
        is_serial_name(self@)
    }

    /// Validate and normalize `value` as a serial channel name.
    pub fn try_from_str(value: &str) -> (r: Result<SerialChannelName, HubError>)
        ensures
            r is Ok <==> valid_serial_input(value@),
            r matches Ok(n) ==> n@ == serial_normalize(value@),
            r matches Err(e) ==> e == HubError::InvalidName,
    {
        let n = value.unicode_len();
        let mut out: Vec<char> = Vec::new();
        let mut k: usize = 0;
        while k < n
            invariant
                k <= n,
                n == value@.len(),
                out@ == serial_normalize(value@.take(k as int)),
                forall|j: int|
                    0 <= j < k ==> is_name_trim_char(#[trigger] value@[j]) || is_name_char(
                        value@[j],
                    ),
                forall|j: int| 0 <= j < out@.len() ==> is_lower_name_char(#[trigger] out@[j]),
            decreases n - k,
        {
            let c = value.get_char(k);
            proof {
                assert(value@.take(k + 1).drop_last() =~= value@.take(k as int));
                assert(value@.take(k + 1).last() == value@[k as int]);
            }
            if char_is_trim(c, false) {
                // dropped
            } else if char_is_name(c) {
                let l = char_to_lower(c);
                proof {
                    lemma_lower_of_name_char(c);
                }
                out.push(l);
            } else {
                assert(!valid_serial_input(value@));
                return Err(HubError::InvalidName);
            }
            k = k + 1;
        }
        proof {
            assert(value@.take(n as int) =~= value@);
        }
        Ok(SerialChannelName { name: string_from_chars(&out) })
    }

    /// The stored name.
    pub fn as_str(&self) -> (r: &str)
        ensures
            r@ == self@,
    {
        self.name.as_str()
    }

    /// The name as tagged on the wire: `##name##`.
    pub fn tag(&self) -> (r: String)
        ensures
            r@ == seq!['#', '#'] + self@ + seq!['#', '#'],
    {
        let mut out: Vec<char> = Vec::new();
        out.push('#');
        out.push('#');
        let n = self.name.as_str().unicode_len();
        let mut k: usize = 0;
        while k < n
            invariant
                k <= n,
                n == self@.len(),
                out@ =~= seq!['#', '#'] + self@.take(k as int),
            decreases n - k,
        {
            out.push(self.name.as_str().get_char(k));
            k = k + 1;
            proof {
                assert(out@ =~= seq!['#', '#'] + self@.take(k as int));
            }
        }
        out.push('#');
        out.push('#');
        proof {
            assert(self@.take(n as int) =~= self@);
            assert(out@ =~= seq!['#', '#'] + self@ + seq!['#', '#']);
        }
        string_from_chars(&out)
    }

    /// A hub channel name carried over a serial link keeps its stored form.
    pub fn from_hub(value: &HubChannelName) -> (r: SerialChannelName)
        ensures
            r@ == value@,
    {
        proof {
            use_type_invariant(value);
        }
        let name = String::from_str(value.as_str());
        SerialChannelName { name }
    }

    /// Whether two serial names are the same.
    pub fn same(&self, other: &SerialChannelName) -> (r: bool)
        ensures
            r == (self@ == other@),
    {
        self.name == other.name
    }
}

impl Clone for SerialChannelName {
    fn clone(&self) -> (r: Self)
        ensures
            r@ == self@,
    {
        proof {
            use_type_invariant(self);
        }
        SerialChannelName { name: self.name.clone() }
    }
}

impl PartialEq for SerialChannelName {
    fn eq(&self, other: &Self) -> (r: bool) {
        self.name == other.name
    }
}

impl Eq for SerialChannelName {

}

impl vstd::std_specs::cmp::PartialEqSpecImpl for SerialChannelName {
    open spec fn obeys_eq_spec() -> bool {
        true
    }

    open spec fn eq_spec(&self, other: &Self) -> bool {
        self@ == other@
    }
}

/// A stored name character is an accepted one, and is none of the
/// characters that carry structure on the wire.
pub proof fn lemma_lower_name_char_plain(c: char)
    requires
        is_lower_name_char(c),
    ensures
        is_name_char(c),
        !is_name_trim_char(c),
        c != '#',
        c != '\n',
        lower_char(c) == c,
{
}

/// A stored serial name passes through normalization unchanged.
pub proof fn lemma_serial_normalize_fixpoint(s: Seq<char>)
    requires
        is_serial_name(s),
    ensures
        serial_normalize(s) == s,
    decreases s.len(),
{
    if s.len() > 0 {
        assert(is_serial_name(s.drop_last())) by {
            assert(forall|i: int|
                0 <= i < s.len() - 1 ==> #[trigger] s.drop_last()[i] == s[i]);
        }
        lemma_serial_normalize_fixpoint(s.drop_last());
        lemma_lower_name_char_plain(s.last());
        assert(serial_normalize(s) =~= s);
    }
}

/// Case folding sends an accepted character to a stored one.
pub proof fn lemma_lower_of_name_char(c: char)
    requires
        is_name_char(c),
    ensures
        is_lower_name_char(lower_char(c)),
{
    if ('A' as u32) <= (c as u32) && (c as u32) <= ('Z' as u32) {
        assert(((c as u32) + 32) < 256);
    }
}

/// The set of channels a serial endpoint has learned from observed traffic.
/// Kept as a duplicate-free list in the order first seen.
pub struct SerialPubChannels {
    channels: Vec<SerialChannelName>,
}

impl View for SerialPubChannels {
    type V = Seq<Seq<char>>;

    closed spec fn view(&self) -> Seq<Seq<char>> {
        self.channels@.map_values(|c: SerialChannelName| c@)
    }
}

impl SerialPubChannels {
    /// An empty channel set.
    pub fn new() -> (r: SerialPubChannels)
        ensures
            r@ == Seq::<Seq<char>>::empty(),
    {
        let r = SerialPubChannels { channels: Vec::new() };
        proof {
            assert(r@ =~= Seq::<Seq<char>>::empty());
        }
        r
    }

    fn position_of(&self, channel_name: &SerialChannelName) -> (r: Option<usize>)
        ensures
            match r {
                Some(i) => i < self@.len() && self@[i as int] == channel_name@ && forall|j: int|
                    0 <= j < i ==> #[trigger] self@[j] != channel_name@,
                None => !self@.contains(channel_name@),
            },
    {
        let n = self.channels.len();
        let mut k: usize = 0;
        while k < n
            invariant
                k <= n,
                n == self@.len(),
                self@.len() == self.channels@.len(),
                forall|j: int| 0 <= j < self@.len() ==> #[trigger] self@[j] == self.channels@[j]@,
                forall|j: int| 0 <= j < k ==> #[trigger] self@[j] != channel_name@,
            decreases n - k,
        {
            if self.channels[k].same(channel_name) {
                return Some(k);
            }
            k = k + 1;
        }
        proof {
            if self@.contains(channel_name@) {
                let i = choose|i: int| 0 <= i < self@.len() && self@[i] == channel_name@;
                assert(self@[i] != channel_name@);
            }
        }
        None
    }

    /// Record a learned channel; a name already present is kept once.
    pub fn add(&mut self, channel_name: SerialChannelName)
        ensures
            final(self)@ == if old(self)@.contains(channel_name@) {
                old(self)@
            } else {
                old(self)@.push(channel_name@)
            },
    {
        match self.position_of(&channel_name) {
            Some(i) => {
                proof {
                    assert(self@[i as int] == channel_name@);
                    assert(self@.contains(channel_name@));
                }
            },
            None => {
                self.channels.push(channel_name);
                proof {
                    assert(self@ =~= old(self)@.push(channel_name@));
                }
            },
        }
    }

    /// Forget a channel; removing an absent name changes nothing.
    pub fn remove(&mut self, channel_name: SerialChannelName)
        ensures
            final(self)@ == old(self)@.remove_value(channel_name@),
    {
        match self.position_of(&channel_name) {
            Some(i) => {
                self.channels.remove(i);
                proof {
                    assert(old(self)@.contains(channel_name@)) by {
                        assert(old(self)@[i as int] == channel_name@);
                    }
                    old(self)@.index_of_first_ensures(channel_name@);
                    if let Some(idx) = old(self)@.index_of_first(channel_name@) {
                        assert(idx == i as int) by {
                            if idx < i as int {
                                assert(old(self)@[idx] != channel_name@);
                            } else if idx > i as int {
                                assert(old(self)@[i as int] != channel_name@);
                            }
                        }
                    }
                    assert(self@ =~= old(self)@.remove_value(channel_name@));
                }
            },
            None => {
                proof {
                    old(self)@.index_of_first_ensures(channel_name@);
                    assert(self@ =~= old(self)@.remove_value(channel_name@));
                }
            },
        }
    }

    /// The learned channels, in the order first seen.
    pub fn iter(&self) -> (r: Vec<SerialChannelName>)
        ensures
            r@.map_values(|c: SerialChannelName| c@) == self@,
    {
        let n = self.channels.len();
        let mut out: Vec<SerialChannelName> = Vec::new();
        let mut k: usize = 0;
        while k < n
            invariant
                k <= n,
                n == self.channels@.len(),
                out@.len() == k,
                forall|j: int| 0 <= j < k ==> #[trigger] out@[j]@ == self.channels@[j]@,
            decreases n - k,
        {
            out.push(self.channels[k].clone());
            k = k + 1;
        }
        proof {
            assert(out@.map_values(|c: SerialChannelName| c@) =~= self@);
        }
        out
    }
}

} // verus!
