use vstd::prelude::*;
use vstd::slice::{slice_index_get, slice_subrange, slice_to_vec};
use vstd::string::StringSliceAdditionalSpecFns;
use vstd::utf8::{
    char_u32_cast, decode_utf8, encode_scalar, encode_utf8, encode_utf8_decode_utf8,
    encode_utf8_valid_utf8, valid_utf8,
};

use crate::channel_name::is_normalized_name;
use crate::hub_data::is_normalized_payload;
use crate::hub_message::HubMessage;
use crate::serial_channels::{lemma_serial_normalize_fixpoint, valid_serial_input};
use crate::serial_message::{
    dhash_at, first_dhash, lemma_first_dhash_unique, spec_raw_to_message, SerialRawMessage,
};
use crate::text::{chars_of, lemma_trim_fixpoint, string_from_chars, trim_pred};

verus! {

// The wire grammar of a serial link is line-oriented: a frame is
// `##TOPIC##PAYLOAD` followed by a line feed.  The decoder below buffers raw
// bytes, cuts them at line feeds, and reads each complete line as a frame.

/// No line feed byte occurs in `s`.
pub open spec fn no_nl(s: Seq<u8>) -> bool {
    forall|i: int| 0 <= i < s.len() ==> #[trigger] s[i] != 10
}

/// The index of the first line feed at or after `from`, or the length of `s`
/// when there is none.
pub open spec fn line_end(s: Seq<u8>, from: int) -> int
    decreases s.len() - from,
    when 0 <= from <= s.len()
{
    if from >= s.len() {
        s.len() as int
    } else if s[from] == 10 {
        from
    } else {
        line_end(s, from + 1)
    }
}

pub proof fn lemma_line_end(s: Seq<u8>, from: int)
    requires
        0 <= from <= s.len(),
    ensures
        from <= line_end(s, from) <= s.len(),
        line_end(s, from) < s.len() ==> s[line_end(s, from)] == 10,
        forall|j: int| from <= j < line_end(s, from) ==> #[trigger] s[j] != 10,
    decreases s.len() - from,
{
    if from < s.len() && s[from] != 10 {
        lemma_line_end(s, from + 1);
    }
}

/// `line_end` is pinned by any scan that found no earlier line feed.
pub proof fn lemma_line_end_unique(s: Seq<u8>, from: int, i: int)
    requires
        0 <= from <= i <= s.len(),
        forall|j: int| from <= j < i ==> #[trigger] s[j] != 10,
        i < s.len() ==> s[i] == 10,
    ensures
        line_end(s, from) == i,
    decreases i - from,
{
    if from < i {
        lemma_line_end_unique(s, from + 1, i);
    }
}

/// What one complete line (without its line feed) yields.  A line must open
/// with the two `#` bytes and be valid UTF-8; its text is then read as a raw
/// serial message, which succeeds when the second `##` marker is found and
/// what lies between the markers normalizes to a non-empty channel name.
pub open spec fn spec_parse_line(line: Seq<u8>) -> Option<(Seq<char>, Seq<char>)> {
    if line.len() < 2 || line[0] != 35 || line[1] != 35 {
        None
    } else if !valid_utf8(line) {
        None
    } else {
        spec_raw_to_message(decode_utf8(line))
    }
}

/// What a byte stream yields: the messages of its complete lines, in order,
/// and the bytes after the last line feed, still waiting for one.
pub open spec fn spec_run(s: Seq<u8>) -> (Seq<(Seq<char>, Seq<char>)>, Seq<u8>)
    decreases s.len(),
    via spec_run_decreases
{
    let p = line_end(s, 0);
    if p >= s.len() {
        (Seq::empty(), s)
    } else {
        let sub = spec_run(s.skip(p + 1));
        match spec_parse_line(s.take(p)) {
            Some(m) => (seq![m] + sub.0, sub.1),
            None => sub,
        }
    }
}

#[via_fn]
proof fn spec_run_decreases(s: Seq<u8>) {
    lemma_line_end(s, 0);
}

/// A stream without a line feed yields nothing and is kept whole.
pub proof fn lemma_spec_run_no_nl(s: Seq<u8>)
    requires
        no_nl(s),
    ensures
        spec_run(s) == (Seq::<(Seq<char>, Seq<char>)>::empty(), s),
{
    lemma_line_end_unique(s, 0, s.len() as int);
}

/// Unfolding `spec_run` at a first line feed found at `p`.
pub proof fn lemma_spec_run_step(s: Seq<u8>, p: int)
    requires
        0 <= p < s.len(),
        s[p] == 10,
        forall|j: int| 0 <= j < p ==> #[trigger] s[j] != 10,
    ensures
        spec_run(s) == match spec_parse_line(s.take(p)) {
            Some(m) => (seq![m] + spec_run(s.skip(p + 1)).0, spec_run(s.skip(p + 1)).1),
            None => spec_run(s.skip(p + 1)),
        },
{
    lemma_line_end_unique(s, 0, p);
}

/// Find the first line feed in the buffer.
fn find_nl(buf: &Vec<u8>) -> (r: Option<usize>)
    ensures
        match r {
            Some(p) => p < buf@.len() && buf@[p as int] == 10 && forall|j: int|
                0 <= j < p ==> #[trigger] buf@[j] != 10,
            None => no_nl(buf@),
        },
{
    let n = buf.len();
    let mut i: usize = 0;
    while i < n
        invariant
            i <= n,
            n == buf@.len(),
            forall|j: int| 0 <= j < i ==> #[trigger] buf@[j] != 10,
        decreases n - i,
    {
        if buf[i] == 10 {
            return Some(i);
        }
        i = i + 1;
    }
    None
}

/// Relies on `core::str::from_utf8`: it succeeds exactly on UTF-8 input,
/// returning the text whose encoding is those bytes.
#[verifier::external_body]
fn str_from_utf8(v: &[u8]) -> (r: Option<&str>)
    ensures
        r is Some <==> valid_utf8(v@),
        r matches Some(s) ==> s.spec_bytes() == v@,
{
    core::str::from_utf8(v).ok()
}

/// Read one complete line (without its line feed) as a message, stamping
/// `timestamp`, exactly as `spec_parse_line` describes.
fn parse_line(line: &[u8], timestamp: u64) -> (r: Option<HubMessage>)
    ensures
        match spec_parse_line(line@) {
            Some(m) => r matches Some(msg) && msg.channel@ == m.0 && msg.data@ == m.1
                && msg.timestamp == timestamp,
            None => r is None,
        },
{
    if line.len() < 2 {
        return None;
    }
    if !(*slice_index_get(line, 0) == 35 && *slice_index_get(line, 1) == 35) {
        return None;
    }
    match str_from_utf8(line) {
        None => None,
        Some(s) => {
            proof {
                encode_utf8_decode_utf8(s@);
            }
            let raw = SerialRawMessage::from_str(s);
            match HubMessage::try_from(raw, timestamp) {
                Ok(m) => Some(m),
                Err(_) => None,
            }
        },
    }
}

/// The streaming frame decoder: an append-only byte buffer fed by transport
/// reads.  Between calls the buffer never holds a line feed — every complete
/// line has been consumed.
pub struct FrameDecoder {
    buf: Vec<u8>,
}

impl View for FrameDecoder {
    type V = Seq<u8>;

    closed spec fn view(&self) -> Seq<u8> {
        self.buf@
    }
}

impl FrameDecoder {
    /// All complete lines have been consumed.
    pub open spec fn wf(&self) -> bool {
        no_nl(self@)
    }

    /// A decoder with an empty buffer.
    pub fn new() -> (r: FrameDecoder)
        ensures
            r@ == Seq::<u8>::empty(),
            r.wf(),
    {
        FrameDecoder { buf: Vec::new() }
    }

    /// Feed a chunk of bytes; every line completed by it is decoded, in
    /// order, each message stamped with `timestamp`.  The buffer keeps
    /// exactly the bytes after the last line feed, so frames may straddle
    /// read boundaries freely.
    pub fn feed(&mut self, chunk: &[u8], timestamp: u64) -> (r: Vec<HubMessage>)
        requires
            old(self).wf(),
        ensures
            final(self).wf(),
            final(self)@ == spec_run(old(self)@ + chunk@).1,
            r@.len() == spec_run(old(self)@ + chunk@).0.len(),
            forall|i: int|
                0 <= i < r@.len() ==> #[trigger] r@[i].channel@ == spec_run(
                    old(self)@ + chunk@,
                ).0[i].0 && r@[i].data@ == spec_run(old(self)@ + chunk@).0[i].1 && r@[i].timestamp
                == timestamp,
    {
        let ghost t = old(self)@ + chunk@;
        let n = chunk.len();
        let mut k: usize = 0;
        while k < n
            invariant
                k <= n,
                n == chunk@.len(),
                self.buf@ =~= old(self)@ + chunk@.take(k as int),
            decreases n - k,
        {
            self.buf.push(*slice_index_get(chunk, k));
            k = k + 1;
            proof {
                assert(self.buf@ =~= old(self)@ + chunk@.take(k as int));
            }
        }
        proof {
            assert(chunk@.take(n as int) =~= chunk@);
            assert(self.buf@ =~= t);
        }
        let mut out: Vec<HubMessage> = Vec::new();
        let ghost mut done: Seq<(Seq<char>, Seq<char>)> = Seq::empty();
        proof {
            assert(done + spec_run(self.buf@).0 =~= spec_run(t).0);
        }
        loop
            invariant
                spec_run(t).0 == done + spec_run(self.buf@).0,
                spec_run(t).1 == spec_run(self.buf@).1,
                out@.len() == done.len(),
                forall|i: int|
                    0 <= i < out@.len() ==> #[trigger] out@[i].channel@ == done[i].0
                        && out@[i].data@ == done[i].1 && out@[i].timestamp == timestamp,
            ensures
                no_nl(self.buf@),
            decreases self.buf@.len(),
        {
            let p = match find_nl(&self.buf) {
                None => {
                    break ;
                },
                Some(p) => p,
            };
            let msg = parse_line(slice_subrange(self.buf.as_slice(), 0, p), timestamp);
            let len = self.buf.len();
            let tail = slice_to_vec(slice_subrange(self.buf.as_slice(), p + 1, len));
            proof {
                lemma_spec_run_step(self.buf@, p as int);
                assert(self.buf@.take(p as int) =~= self.buf@.subrange(0, p as int));
                assert(self.buf@.skip(p + 1) =~= tail@);
            }
            let ghost prev = self.buf@;
            self.buf = tail;
            match msg {
                Some(m) => {
                    out.push(m);
                    proof {
                        let sm = spec_parse_line(prev.take(p as int))->Some_0;
                        done = done.push(sm);
                        assert(spec_run(t).0 =~= done + spec_run(self.buf@).0);
                    }
                },
                None => {
                    proof {
                        assert(spec_parse_line(prev.take(p as int)) is None);
                    }
                },
            }
        }
        proof {
            lemma_spec_run_no_nl(self.buf@);
            assert(spec_run(t).0 =~= done);
        }
        out
    }
}

/// What a serial endpoint has learned after seeing messages on the given
/// topics: each new topic appended once, in order of first sight.
pub open spec fn spec_learn(names: Seq<Seq<char>>, topics: Seq<Seq<char>>) -> Seq<Seq<char>>
    decreases topics.len(),
{
    if topics.len() == 0 {
        names
    } else {
        let names1 = if names.contains(topics[0]) {
            names
        } else {
            names.push(topics[0])
        };
        spec_learn(names1, topics.drop_first())
    }
}

/// The read half of a serial endpoint, between transport reads: feed the
/// bytes read into the frame decoder, record each decoded message's topic
/// in the endpoint's learned channels, and hand the messages back for the
/// ingress.  This is the whole computing part of the endpoint's reader
/// task; the task itself only reads bytes and publishes the messages.
pub fn process_incoming(
    decoder: &mut FrameDecoder,
    channels: &mut crate::serial_channels::SerialPubChannels,
    chunk: &[u8],
    timestamp: u64,
) -> (r: Vec<HubMessage>)
    requires
        old(decoder).wf(),
    ensures
        final(decoder).wf(),
        final(decoder)@ == spec_run(old(decoder)@ + chunk@).1,
        r@.len() == spec_run(old(decoder)@ + chunk@).0.len(),
        forall|i: int|
            0 <= i < r@.len() ==> #[trigger] r@[i].channel@ == spec_run(
                old(decoder)@ + chunk@,
            ).0[i].0 && r@[i].data@ == spec_run(old(decoder)@ + chunk@).0[i].1 && r@[i].timestamp
            == timestamp,
        final(channels)@ == spec_learn(
            old(channels)@,
            spec_run(old(decoder)@ + chunk@).0.map_values(|m: (Seq<char>, Seq<char>)| m.0),
        ),
{
    let msgs = decoder.feed(chunk, timestamp);
    let ghost topics = spec_run(old(decoder)@ + chunk@).0.map_values(
        |m: (Seq<char>, Seq<char>)| m.0,
    );
    let n = msgs.len();
    let mut k: usize = 0;
    while k < n
        invariant
            k <= n,
            n == msgs@.len(),
            n == topics.len(),
            forall|i: int| 0 <= i < n ==> #[trigger] msgs@[i].channel@ == topics[i],
            channels@ == spec_learn(old(channels)@, topics.take(k as int)),
        decreases n - k,
    {
        proof {
            lemma_learn_step(old(channels)@, topics, k as int);
        }
        channels.add(crate::serial_channels::SerialChannelName::from_hub(&msgs[k].channel));
        k = k + 1;
    }
    proof {
        assert(topics.take(n as int) =~= topics);
    }
    msgs
}

/// Learning one more topic extends the fold by one step.
proof fn lemma_learn_step(names: Seq<Seq<char>>, topics: Seq<Seq<char>>, k: int)
    requires
        0 <= k < topics.len(),
    ensures
        spec_learn(names, topics.take(k + 1)) == if spec_learn(names, topics.take(k)).contains(
            topics[k],
        ) {
            spec_learn(names, topics.take(k))
        } else {
            spec_learn(names, topics.take(k)).push(topics[k])
        },
    decreases k,
{
    lemma_learn_snoc(names, topics.take(k + 1));
    assert(topics.take(k + 1).drop_last() =~= topics.take(k));
    assert(topics.take(k + 1).last() == topics[k]);
}

/// The fold over a topic list processes its last topic last.
proof fn lemma_learn_snoc(names: Seq<Seq<char>>, topics: Seq<Seq<char>>)
    requires
        topics.len() > 0,
    ensures
        spec_learn(names, topics) == {
            let prev = spec_learn(names, topics.drop_last());
            if prev.contains(topics.last()) {
                prev
            } else {
                prev.push(topics.last())
            }
        },
    decreases topics.len(),
{
    if topics.len() == 1 {
        assert(topics.drop_last() =~= Seq::<Seq<char>>::empty());
        assert(topics.drop_first() =~= Seq::<Seq<char>>::empty());
        assert(spec_learn(names, topics.drop_last()) == names);
        let names1 = if names.contains(topics[0]) {
            names
        } else {
            names.push(topics[0])
        };
        assert(spec_learn(names1, Seq::<Seq<char>>::empty()) == names1);
    } else {
        let names1 = if names.contains(topics[0]) {
            names
        } else {
            names.push(topics[0])
        };
        lemma_learn_snoc(names1, topics.drop_first());
        assert(topics.drop_first().drop_last() =~= topics.drop_last().drop_first());
        assert(topics.drop_first().last() == topics.last());
        assert(topics.drop_last()[0] == topics[0]);
        assert(topics.drop_last().len() > 0);
    }
}

// The encoder, and the laws of the codec.

/// The characters of one framed message.
pub open spec fn spec_frame_chars(topic: Seq<char>, payload: Seq<char>) -> Seq<char> {
    seq!['#', '#'] + topic + seq!['#', '#'] + payload + seq!['\n']
}

/// The bytes of one framed message.
pub open spec fn spec_encode_frame(topic: Seq<char>, payload: Seq<char>) -> Seq<u8> {
    encode_utf8(spec_frame_chars(topic, payload))
}

/// No line feed occurs among the payload's characters, so the payload can be
/// framed without breaking the line discipline.
pub open spec fn frame_safe(payload: Seq<char>) -> bool {
    forall|i: int| 0 <= i < payload.len() ==> #[trigger] payload[i] != '\n'
}

impl HubMessage {
    /// Whether this message's payload can be framed for a serial link.
    pub fn is_frame_safe(&self) -> (r: bool)
        ensures
            r == frame_safe(self.data@),
    {
        let s = self.data.as_str();
        let n = s.unicode_len();
        let mut i: usize = 0;
        while i < n
            invariant
                i <= n,
                s@ == self.data@,
                n == self.data@.len(),
                forall|j: int| 0 <= j < i ==> #[trigger] self.data@[j] != '\n',
            decreases n - i,
        {
            if s.get_char(i) == '\n' {
                return false;
            }
            i = i + 1;
        }
        true
    }

    /// The message as framed bytes for a serial link:
    /// `##TOPIC##PAYLOAD` and a line feed, UTF-8 encoded.
    pub fn to_bytes(&self) -> (r: Vec<u8>)
        ensures
            r@ == spec_encode_frame(self.channel@, self.data@),
    {
        let mut chars: Vec<char> = Vec::new();
        chars.push('#');
        chars.push('#');
        let mut cv = chars_of(self.channel.as_str());
        chars.append(&mut cv);
        chars.push('#');
        chars.push('#');
        let mut dv = chars_of(self.data.as_str());
        chars.append(&mut dv);
        chars.push('\n');
        proof {
            assert(chars@ =~= spec_frame_chars(self.channel@, self.data@));
        }
        let s = string_from_chars(&chars);
        let r = s.as_str().as_bytes_vec();
        r
    }
}

// UTF-8 facts the round-trip law rests on.

/// Encoding distributes over concatenation.
proof fn lemma_encode_utf8_concat(a: Seq<char>, b: Seq<char>)
    ensures
        encode_utf8(a + b) == encode_utf8(a) + encode_utf8(b),
    decreases a.len(),
{
    if a.len() == 0 {
        assert(a + b =~= b);
        assert(encode_utf8(a) + encode_utf8(b) =~= encode_utf8(b));
    } else {
        assert((a + b).drop_first() =~= a.drop_first() + b);
        lemma_encode_utf8_concat(a.drop_first(), b);
        assert((a + b).len() != 0);
        assert((a + b)[0] == a[0]);
        assert(encode_utf8(a + b) == encode_scalar(a[0] as u32) + encode_utf8(
            a.drop_first() + b,
        ));
        assert(encode_scalar(a[0] as u32) + (encode_utf8(a.drop_first()) + encode_utf8(b)) =~= (
        encode_scalar(a[0] as u32) + encode_utf8(a.drop_first())) + encode_utf8(b));
    }
}

/// The encoding of an ASCII character is its own single byte.
proof fn lemma_encode_ascii_char(c: char)
    requires
        (c as u32) < 0x80,
    ensures
        encode_scalar(c as u32) =~= seq![(c as u32) as u8],
{
    let s = c as u32;
    assert((s & 0x7F) as u8 == s as u8) by (bit_vector)
        requires
            s < 0x80,
    ;
}

/// No byte of the encoding of a character other than ASCII `b` equals `b`.
proof fn lemma_encode_scalar_avoids_ascii(c: char, b: u8)
    requires
        b < 0x80,
        c as u32 != b as u32,
    ensures
        forall|j: int|
            0 <= j < encode_scalar(c as u32).len() ==> #[trigger] encode_scalar(c as u32)[j] != b,
{
    let s = c as u32;
    vstd::utf8::char_is_scalar(c);
    if s < 0x80 {
        lemma_encode_ascii_char(c);
        assert((s as u8) != b) by (bit_vector)
            requires
                s < 0x80 && b < 0x80 && s != b as u32,
        ;
    } else {
        assert(forall|y: u8|
            ((0x80u8 | y) >= 0x80) && ((0xC0u8 | y) >= 0x80) && ((0xE0u8 | y) >= 0x80) && ((0xF0u8
                | y) >= 0x80)) by (bit_vector);
    }
}

/// A text without line feeds encodes to bytes without line feeds.
proof fn lemma_encode_no_nl(s: Seq<char>)
    requires
        forall|i: int| 0 <= i < s.len() ==> #[trigger] s[i] != '\n',
    ensures
        no_nl(encode_utf8(s)),
    decreases s.len(),
{
    if s.len() > 0 {
        assert(s[0] as u32 != 10) by {
            if s[0] as u32 == 10 {
                char_u32_cast(s[0], 10);
                char_u32_cast('\n', 10);
            }
        }
        lemma_encode_scalar_avoids_ascii(s[0], 10);
        lemma_encode_no_nl(s.drop_first());
        let e = encode_utf8(s);
        let w = encode_scalar(s[0] as u32).len() as int;
        assert forall|j: int| 0 <= j < e.len() implies #[trigger] e[j] != 10 by {
            if j >= w {
                assert(e[j] == encode_utf8(s.drop_first())[j - w]);
            }
        }
    }
}

/// Encoding then decoding one framed message gives back exactly the topic
/// and payload, as a single message with nothing left in the buffer: the
/// frame codec round-trips for every topic and every payload that holds no
/// line feed and no `##` marker.
pub proof fn lemma_frame_round_trip(topic: Seq<char>, payload: Seq<char>)
    requires
        is_normalized_name(topic),
        is_normalized_payload(payload),
        frame_safe(payload),
        forall|i: int| 0 <= i + 1 < payload.len() ==> !(#[trigger] payload[i] == '#' && payload[i
            + 1] == '#'),
    ensures
        spec_run(spec_encode_frame(topic, payload)) == (
            seq![(topic, payload)],
            Seq::<u8>::empty(),
        ),
{
    let head = seq!['#', '#'] + topic + seq!['#', '#'] + payload;
    let frame = spec_frame_chars(topic, payload);
    assert(frame =~= head + seq!['\n']);
    let body = encode_utf8(head);
    lemma_encode_utf8_concat(head, seq!['\n']);
    assert(('\n' as u32) == 10);
    lemma_encode_ascii_char('\n');
    assert(encode_utf8(seq!['\n']) =~= seq![10u8]) by {
        assert(seq!['\n'].drop_first() =~= Seq::<char>::empty());
        assert(encode_scalar('\n' as u32) + encode_utf8(Seq::<char>::empty()) =~= seq![10u8]);
    }
    let bytes = spec_encode_frame(topic, payload);
    assert(bytes =~= body + seq![10u8]);

    // every character of the head is not a line feed
    assert forall|i: int| 0 <= i < head.len() implies #[trigger] head[i] != '\n' by {
        lemma_head_char_not_nl(topic, payload, i);
    }
    lemma_encode_no_nl(head);
    // so the only line feed byte is the final one
    assert forall|j: int| 0 <= j < body.len() implies #[trigger] bytes[j] != 10 by {
        assert(bytes[j] == body[j]);
    }
    assert(bytes[body.len() as int] == 10);
    lemma_line_end_unique(bytes, 0, body.len() as int);
    assert(bytes.take(body.len() as int) =~= body);
    assert(bytes.skip(body.len() as int + 1) =~= Seq::<u8>::empty());
    lemma_spec_run_no_nl(Seq::<u8>::empty());

    // the line parses back to (topic, payload)
    lemma_body_parses(topic, payload);
    assert(spec_parse_line(body) == Some((topic, payload)));
    lemma_spec_run_step(bytes, body.len() as int);
    assert(seq![(topic, payload)] + Seq::<(Seq<char>, Seq<char>)>::empty() =~= seq![
        (topic, payload),
    ]);
}

/// Within the head of a frame every character is a `#`, a topic character,
/// or a payload character — never a line feed.
proof fn lemma_head_char_not_nl(topic: Seq<char>, payload: Seq<char>, i: int)
    requires
        is_normalized_name(topic),
        frame_safe(payload),
        0 <= i < (seq!['#', '#'] + topic + seq!['#', '#'] + payload).len(),
    ensures
        (seq!['#', '#'] + topic + seq!['#', '#'] + payload)[i] != '\n',
{
    let head = seq!['#', '#'] + topic + seq!['#', '#'] + payload;
    let tl = topic.len() as int;
    if i < 2 {
        assert(head[i] == '#');
    } else if i < 2 + tl {
        assert(head[i] == topic[i - 2]);
        crate::serial_channels::lemma_lower_name_char_plain(topic[i - 2]);
    } else if i < 4 + tl {
        assert(head[i] == '#');
    } else {
        assert(head[i] == payload[i - 4 - tl]);
    }
}

/// The encoded head of a frame satisfies the line parser, yielding exactly
/// the frame's topic and payload.
proof fn lemma_body_parses(topic: Seq<char>, payload: Seq<char>)
    requires
        is_normalized_name(topic),
        is_normalized_payload(payload),
        forall|i: int| 0 <= i + 1 < payload.len() ==> !(#[trigger] payload[i] == '#' && payload[i
            + 1] == '#'),
    ensures
        spec_parse_line(encode_utf8(seq!['#', '#'] + topic + seq!['#', '#'] + payload)) == Some(
            (topic, payload),
        ),
{
    let head = seq!['#', '#'] + topic + seq!['#', '#'] + payload;
    let body = encode_utf8(head);
    let tl = topic.len() as int;
    // leading bytes are the two `#` bytes
    assert(('#' as u32) == 35);
    assert(head[0] == '#' && head[1] == '#');
    lemma_encode_utf8_prefix2(head);
    assert(body.len() >= 2 && body[0] == 35 && body[1] == 35);
    encode_utf8_valid_utf8(head);
    encode_utf8_decode_utf8(head);
    // the second marker is exactly at the end of the topic
    assert(dhash_at(head, 0));
    assert(first_dhash(head, 0) == Some(0int)) by {
        lemma_first_dhash_unique(head, 0, 0);
    }
    assert forall|j: int| 2 <= j < 2 + tl implies !#[trigger] dhash_at(head, j) by {
        assert(head[j] == topic[j - 2]);
        crate::serial_channels::lemma_lower_name_char_plain(topic[j - 2]);
    }
    assert(dhash_at(head, 2 + tl));
    lemma_first_dhash_unique(head, 2, 2 + tl);
    assert(first_dhash(head, 2) == Some(2 + tl));
    let topic_raw = head.subrange(2, 2 + tl);
    assert(topic_raw =~= topic);
    assert forall|i: int| 0 <= i < topic.len() implies crate::text::is_name_char(
        #[trigger] topic[i],
    ) by {
        crate::serial_channels::lemma_lower_name_char_plain(topic[i]);
    }
    assert(valid_serial_input(topic));
    lemma_serial_normalize_fixpoint(topic);
    let after = head.skip(4 + tl);
    assert(after =~= payload);
    lemma_trim_fixpoint(payload, trim_pred(true));
    assert(spec_raw_to_message(head) == Some((topic, payload)));
}

/// The first two characters of a text, when ASCII, open its encoding.
proof fn lemma_encode_utf8_prefix2(s: Seq<char>)
    requires
        s.len() >= 2,
        (s[0] as u32) < 0x80,
        (s[1] as u32) < 0x80,
    ensures
        encode_utf8(s).len() >= 2,
        encode_utf8(s)[0] == s[0] as u32 as u8,
        encode_utf8(s)[1] == s[1] as u32 as u8,
{
    lemma_encode_ascii_char(s[0]);
    lemma_encode_ascii_char(s[1]);
    assert(encode_utf8(s) == encode_scalar(s[0] as u32) + encode_utf8(s.drop_first()));
    assert(s.drop_first().len() >= 1);
    assert(s.drop_first()[0] == s[1]);
    assert(encode_utf8(s.drop_first()) == encode_scalar(s[1] as u32) + encode_utf8(
        s.drop_first().drop_first(),
    ));
}

// The two streaming laws.

/// Splitting a byte stream anywhere does not change what is decoded: running
/// the decoder on `b`, then on its leftover followed by `c`, yields the same
/// messages and the same final leftover as running it on `b + c` at once.
pub proof fn lemma_run_split(b: Seq<u8>, c: Seq<u8>)
    ensures
        spec_run(b + c).0 == spec_run(b).0 + spec_run(spec_run(b).1 + c).0,
        spec_run(b + c).1 == spec_run(spec_run(b).1 + c).1,
    decreases b.len(),
{
    lemma_line_end(b, 0);
    let p = line_end(b, 0);
    if p >= b.len() {
        assert(spec_run(b).1 + c =~= b + c);
        assert(Seq::<(Seq<char>, Seq<char>)>::empty() + spec_run(b + c).0 =~= spec_run(b + c).0);
    } else {
        assert forall|j: int| 0 <= j < p implies #[trigger] (b + c)[j] != 10 by {
            assert((b + c)[j] == b[j]);
        }
        assert((b + c)[p] == 10);
        lemma_line_end_unique(b + c, 0, p);
        assert((b + c).take(p) =~= b.take(p));
        assert((b + c).skip(p + 1) =~= b.skip(p + 1) + c);
        lemma_run_split(b.skip(p + 1), c);
        lemma_spec_run_step(b + c, p);
        lemma_spec_run_step(b, p);
        match spec_parse_line(b.take(p)) {
            Some(m) => {
                assert(seq![m] + (spec_run(b.skip(p + 1)).0 + spec_run(
                    spec_run(b.skip(p + 1)).1 + c,
                ).0) =~= (seq![m] + spec_run(b.skip(p + 1)).0) + spec_run(
                    spec_run(b.skip(p + 1)).1 + c,
                ).0);
            },
            None => {},
        }
    }
}

/// A line that does not open with `##` yields no message and leaves the
/// frames after it untouched: the stream consisting of such a line, its line
/// feed, and anything further decodes exactly as that remainder alone.
pub proof fn lemma_garbage_line_dropped(line: Seq<u8>, rest: Seq<u8>)
    requires
        no_nl(line),
        line.len() < 2 || line[0] != 35 || line[1] != 35,
    ensures
        spec_run(line + seq![10u8] + rest) == spec_run(rest),
{
    let s = line + seq![10u8] + rest;
    let p = line.len() as int;
    assert forall|j: int| 0 <= j < p implies #[trigger] s[j] != 10 by {
        assert(s[j] == line[j]);
    }
    assert(s[p] == 10);
    lemma_spec_run_step(s, p);
    assert(s.take(p) =~= line);
    assert(s.skip(p + 1) =~= rest);
    assert(spec_parse_line(line) is None);
}

} // verus!
