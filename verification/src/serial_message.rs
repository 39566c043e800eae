use vstd::prelude::*;

use crate::channel_name::{
    is_normalized_name, lemma_normalized_is_fixpoint, normalize_name, valid_name_input,
    HubChannelName,
};
use crate::errors::HubError;
use crate::hub_data::{lemma_normalize_payload_idempotent, normalize_payload, HubData};
use crate::hub_message::HubMessage;
use crate::serial_channels::{
    is_serial_name, serial_normalize, valid_serial_input, SerialChannelName,
};
use crate::text::{
    chars_range, lemma_trim_fixpoint, spec_trim, string_from_chars, trim_bounds, trim_pred,
};

verus! {

/// A payload as carried on a serial link: the raw text, kept verbatim.
#[derive(Debug)]
pub struct SerialData {
    data: String,
}

impl View for SerialData {
    type V = Seq<char>;

    closed spec fn view(&self) -> Seq<char> {
        self.data@
    }
}

impl SerialData {
    /// The stored text.
    pub fn as_str(&self) -> (r: &str)
        ensures
            r@ == self@,
    {
        self.data.as_str()
    }

    /// Wrap raw text as serial payload data, unchanged.
    pub fn from_str(data: &str) -> (r: SerialData)
        ensures
            r@ == data@,
    {
        SerialData { data: String::from_str(data) }
    }

    /// A hub payload put on a serial link keeps its stored form.
    pub fn from_hub(value: &HubData) -> (r: SerialData)
        ensures
            r@ == value@,
    {
        SerialData { data: String::from_str(value.as_str()) }
    }
}

impl HubData {
    /// A serial payload becomes a hub payload by the usual trimming.
    pub fn from_serial(value: &SerialData) -> (r: HubData)
        ensures
            r@ == normalize_payload(value@),
    {
        HubData::from_str(value.as_str())
    }
}

/// There is a `##` at position `i` of `s`.
pub open spec fn dhash_at(s: Seq<char>, i: int) -> bool {
    0 <= i && i + 2 <= s.len() && s[i] == '#' && s[i + 1] == '#'
}

/// The first position at or after `from` where `##` occurs.
pub open spec fn first_dhash(s: Seq<char>, from: int) -> Option<int>
    decreases s.len() - from,
    when 0 <= from <= s.len()
{
    if from + 2 > s.len() {
        None
    } else if s[from] == '#' && s[from + 1] == '#' {
        Some(from)
    } else {
        first_dhash(s, from + 1)
    }
}

/// `first_dhash` is the earliest `##` occurrence, pinned by a scan bound.
pub proof fn lemma_first_dhash_unique(s: Seq<char>, from: int, i: int)
    requires
        0 <= from <= i <= s.len(),
        forall|j: int| from <= j < i ==> !#[trigger] dhash_at(s, j),
        dhash_at(s, i) || i + 2 > s.len(),
    ensures
        first_dhash(s, from) == if dhash_at(s, i) {
            Some(i)
        } else {
            None::<int>
        },
    decreases i - from,
{
    if from < i {
        assert(!dhash_at(s, from));
        lemma_first_dhash_unique(s, from + 1, i);
    }
}

/// What `extract_info` yields on given raw text: the text between the first
/// two `##` markers, normalized as a serial channel name, and what follows
/// the second marker, trimmed as a payload.  `None` when a marker is missing
/// or the name has a character it may not.
pub open spec fn spec_extract(s: Seq<char>) -> Option<(Seq<char>, Seq<char>)> {
    match first_dhash(s, 0) {
        None => None,
        Some(a) => match first_dhash(s, a + 2) {
            None => None,
            Some(b) => {
                let topic_raw = s.subrange(a + 2, b);
                if valid_serial_input(topic_raw) {
                    Some((serial_normalize(topic_raw), normalize_payload(s.skip(b + 2))))
                } else {
                    None
                }
            },
        },
    }
}

/// A message as delivered by `extract_info`: as `spec_extract`, but an empty
/// channel name is no message.
pub open spec fn spec_raw_to_message(s: Seq<char>) -> Option<(Seq<char>, Seq<char>)> {
    match spec_extract(s) {
        Some((t, p)) => if t.len() > 0 {
            Some((t, p))
        } else {
            None
        },
        None => None,
    }
}

/// Find the first `##` at or after `from`.
fn find_dhash(s: &str, from: usize, n: usize) -> (r: Option<usize>)
    requires
        from <= n,
        n == s@.len(),
    ensures
        match r {
            Some(i) => from <= i && i + 2 <= s@.len() && first_dhash(s@, from as int) == Some(
                i as int,
            ),
            None => first_dhash(s@, from as int) is None,
        },
{
    let mut i = from;
    while n - i > 1 && !(s.get_char(i) == '#' && s.get_char(i + 1) == '#')
        invariant
            from <= i <= n,
            n == s@.len(),
            forall|j: int| from <= j < i ==> !#[trigger] dhash_at(s@, j),
        decreases n - i,
    {
        i = i + 1;
    }
    if n - i > 1 {
        proof {
            lemma_first_dhash_unique(s@, from as int, i as int);
        }
        Some(i)
    } else {
        proof {
            assert forall|j: int| from <= j < n as int implies !#[trigger] dhash_at(s@, j) by {
                if i <= j {
                    assert(j + 2 > s@.len());
                }
            }
            lemma_first_dhash_unique(s@, from as int, n as int);
        }
        None
    }
}

/// One raw line as read from a serial link.
#[derive(Debug)]
pub struct SerialRawMessage {
    raw: String,
}

impl View for SerialRawMessage {
    type V = Seq<char>;

    closed spec fn view(&self) -> Seq<char> {
        self.raw@
    }
}

impl SerialRawMessage {
    /// Wrap a raw line, unchanged.
    pub fn from_str(data: &str) -> (r: SerialRawMessage)
        ensures
            r@ == data@,
    {
        SerialRawMessage { raw: String::from_str(data) }
    }

    /// The raw text.
    pub fn as_str(&self) -> (r: &str)
        ensures
            r@ == self@,
    {
        self.raw.as_str()
    }

    /// Split the raw line into channel name and payload, per `spec_extract`.
    pub fn extract_info(&self) -> (r: Option<(SerialChannelName, SerialData)>)
        ensures
            match r {
                Some(p) => spec_extract(self@) == Some((p.0@, p.1@)),
                None => spec_extract(self@) is None,
            },
    {
        let s = self.raw.as_str();
        let n = s.unicode_len();
        let a = match find_dhash(s, 0, n) {
            None => {
                return None;
            },
            Some(a) => a,
        };
        let b = match find_dhash(s, a + 2, n) {
            None => {
                return None;
            },
            Some(b) => b,
        };
        let topic_str = s.substring_char(a + 2, b);
        let cn = match SerialChannelName::try_from_str(topic_str) {
            Err(_) => {
                return None;
            },
            Ok(cn) => cn,
        };
        let payload_str = s.substring_char(b + 2, n);
        let (ps, pe) = trim_bounds(payload_str, true);
        let payload_chars = chars_range(payload_str, ps, pe);
        proof {
            assert(payload_str@ =~= s@.skip(b + 2));
        }
        let data = SerialData { data: string_from_chars(&payload_chars) };
        Some((cn, data))
    }
}

impl Clone for SerialRawMessage {
    fn clone(&self) -> (r: Self)
        ensures
            r@ == self@,
    {
        SerialRawMessage { raw: self.raw.clone() }
    }
}

impl HubMessage {
    /// Read a raw serial line as a hub message, stamping `timestamp`.
    /// Succeeds exactly when the line parses and names a non-empty channel.
    pub fn try_from(value: SerialRawMessage, timestamp: u64) -> (r: Result<HubMessage, HubError>)
        ensures
            r is Ok <==> spec_raw_to_message(value@) is Some,
            r matches Ok(m) ==> {
                let tp = spec_raw_to_message(value@)->Some_0;
                m.channel@ == tp.0 && m.data@ == tp.1 && m.timestamp == timestamp
            },
    {
        let extracted = value.extract_info();
        match extracted {
            Some((cn, sd)) => {
                proof {
                    use_type_invariant(&cn);
                    lemma_serial_name_as_hub_input(cn@);
                }
                match HubChannelName::try_from_str(cn.as_str()) {
                    Ok(channel) => {
                        let data = HubData::from_serial(&sd);
                        proof {
                            let a = first_dhash(value@, 0)->Some_0;
                            let b = first_dhash(value@, a + 2)->Some_0;
                            lemma_normalize_payload_idempotent(value@.skip(b + 2));
                        }
                        Ok(HubMessage { channel, timestamp, data })
                    },
                    Err(_) => Err(HubError::InvalidName),
                }
            },
            None => Err(HubError::InvalidName),
        }
    }
}

/// A stored serial name, fed to the hub-name validator, is accepted exactly
/// when non-empty, and then kept as it is.
pub proof fn lemma_serial_name_as_hub_input(t: Seq<char>)
    requires
        is_serial_name(t),
    ensures
        valid_name_input(t) <==> t.len() > 0,
        t.len() > 0 ==> normalize_name(t) == t,
{
    if t.len() > 0 {
        assert(is_normalized_name(t));
        lemma_normalized_is_fixpoint(t);
    } else {
        lemma_trim_fixpoint(t, trim_pred(false));
        assert(spec_trim(t, trim_pred(false)).len() == 0);
    }
}

} // verus!
