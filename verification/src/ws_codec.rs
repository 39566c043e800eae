use vstd::prelude::*;

use crate::channel_name::{normalize_name, valid_name_input, HubChannelName};
use crate::errors::HubError;
use crate::hub_data::{normalize_payload, HubData};
use crate::hub_message::HubMessage;
use crate::text::{chars_of, string_from_chars};
use crate::ws_message::{WsMessage, WsMessageView};

verus! {

// The JSON wire form of the WebSocket envelope.  The five variants appear
// on the wire as
//   {"Subscribe":"odometry"}            {"Unsubscribe":"odometry"}
//   "ListChannelsReq"                   {"ListChannelsResponse":["a","b"]}
//   {"Data":["odometry","1.0,2.0"]}
// Channel names need no escaping; payloads are escaped as a JSON encoder
// writes them: quote, backslash and the named control characters by a
// backslash pair, any other control character as `\u00XX`.

/// One hexadecimal digit, lower case.
pub open spec fn hex_digit(v: u32) -> char {
    if v < 10 {
        ((48 + v) as u8) as char
    } else {
        ((87 + v) as u8) as char
    }
}

/// The value of a hexadecimal digit, either case.
pub open spec fn hex_digit_val(c: char) -> Option<u32> {
    let u = c as u32;
    if 48 <= u && u <= 57 {
        Some((u - 48) as u32)
    } else if 97 <= u && u <= 102 {
        Some((u - 87) as u32)
    } else if 65 <= u && u <= 70 {
        Some((u - 55) as u32)
    } else {
        None
    }
}

/// How one character appears inside a JSON string.
pub open spec fn esc_char(c: char) -> Seq<char> {
    if c == '"' {
        seq!['\\', '"']
    } else if c == '\\' {
        seq!['\\', '\\']
    } else if c == '\n' {
        seq!['\\', 'n']
    } else if c == '\r' {
        seq!['\\', 'r']
    } else if c == '\t' {
        seq!['\\', 't']
    } else if c as u32 == 8 {
        seq!['\\', 'b']
    } else if c as u32 == 12 {
        seq!['\\', 'f']
    } else if (c as u32) < 32 {
        seq!['\\', 'u', '0', '0', hex_digit((c as u32) / 16), hex_digit((c as u32) % 16)]
    } else {
        seq![c]
    }
}

/// How a text appears inside a JSON string.
pub open spec fn spec_escape(s: Seq<char>) -> Seq<char>
    decreases s.len(),
{
    if s.len() == 0 {
        Seq::empty()
    } else {
        esc_char(s[0]) + spec_escape(s.drop_first())
    }
}

/// Escaping one more character appends its wire form.
pub proof fn lemma_escape_push(s: Seq<char>, c: char)
    ensures
        spec_escape(s.push(c)) == spec_escape(s) + esc_char(c),
    decreases s.len(),
{
    if s.len() == 0 {
        assert(s.push(c)[0] == c);
        assert(s.push(c).drop_first() =~= Seq::<char>::empty());
        assert(spec_escape(Seq::<char>::empty()) == Seq::<char>::empty());
        assert(spec_escape(s.push(c)) == esc_char(c) + spec_escape(Seq::<char>::empty()));
        assert(spec_escape(s.push(c)) =~= spec_escape(s) + esc_char(c));
    } else {
        assert(s.push(c)[0] == s[0]);
        assert(s.push(c).drop_first() =~= s.drop_first().push(c));
        lemma_escape_push(s.drop_first(), c);
        assert(esc_char(s[0]) + (spec_escape(s.drop_first()) + esc_char(c)) =~= (esc_char(s[0])
            + spec_escape(s.drop_first())) + esc_char(c));
    }
}

/// The character named by a single-letter escape.
pub open spec fn unescape_char(e: char) -> Option<char> {
    if e == '"' {
        Some('"')
    } else if e == '\\' {
        Some('\\')
    } else if e == '/' {
        Some('/')
    } else if e == 'n' {
        Some('\n')
    } else if e == 'r' {
        Some('\r')
    } else if e == 't' {
        Some('\t')
    } else if e == 'b' {
        Some((8 as u8) as char)
    } else if e == 'f' {
        Some((12 as u8) as char)
    } else {
        None
    }
}

/// Prepend one decoded character to a scan's outcome.
pub open spec fn scan_cons(c: char, r: Option<(Seq<char>, Seq<char>)>) -> Option<
    (Seq<char>, Seq<char>),
> {
    match r {
        Some(p) => Some((seq![c] + p.0, p.1)),
        None => None,
    }
}

/// Read a JSON string body up to its closing quote: the decoded content and
/// what follows the quote.  Unterminated strings, bad escapes, raw control
/// characters, and `\u` values outside plain ASCII are refused.
pub open spec fn scan_string(s: Seq<char>) -> Option<(Seq<char>, Seq<char>)>
    decreases s.len(),
{
    if s.len() == 0 {
        None
    } else if s[0] == '"' {
        Some((Seq::empty(), s.drop_first()))
    } else if s[0] == '\\' {
        if s.len() < 2 {
            None
        } else if s[1] == 'u' {
            if s.len() < 6 {
                None
            } else {
                match spec_hex4(s[2], s[3], s[4], s[5]) {
                    Some(v) => if v < 0x80 {
                        scan_cons((v as u8) as char, scan_string(s.skip(6)))
                    } else {
                        None
                    },
                    None => None,
                }
            }
        } else {
            match unescape_char(s[1]) {
                Some(c) => scan_cons(c, scan_string(s.skip(2))),
                None => None,
            }
        }
    } else if (s[0] as u32) < 32 {
        None
    } else {
        scan_cons(s[0], scan_string(s.drop_first()))
    }
}

/// The value of four hexadecimal digits.
pub open spec fn spec_hex4(a: char, b: char, c: char, d: char) -> Option<u32> {
    match (hex_digit_val(a), hex_digit_val(b), hex_digit_val(c), hex_digit_val(d)) {
        (Some(x), Some(y), Some(z), Some(w)) => Some((x * 4096 + y * 256 + z * 16 + w) as u32),
        _ => None,
    }
}

/// A successful scan consumes at least the closing quote.
pub proof fn lemma_scan_len(s: Seq<char>)
    ensures
        scan_string(s) matches Some(p) ==> p.1.len() < s.len(),
    decreases s.len(),
{
    if s.len() == 0 {
    } else if s[0] == '"' {
    } else if s[0] == '\\' {
        if s.len() >= 6 {
            lemma_scan_len(s.skip(6));
        }
        if s.len() >= 2 {
            lemma_scan_len(s.skip(2));
        }
    } else {
        lemma_scan_len(s.drop_first());
    }
}

/// Prepend scanned names to a name-list scan's outcome.
pub open spec fn names_cons(n: Seq<char>, r: Option<(Seq<Seq<char>>, Seq<char>)>) -> Option<
    (Seq<Seq<char>>, Seq<char>),
> {
    match r {
        Some(p) => Some((seq![n] + p.0, p.1)),
        None => None,
    }
}

/// Read a JSON array of strings from after its `[` up to and past its `]`:
/// the names, and what follows the bracket.
pub open spec fn scan_names(s: Seq<char>) -> Option<(Seq<Seq<char>>, Seq<char>)>
    decreases s.len(),
    via scan_names_decreases
{
    if s.len() == 0 {
        None
    } else if s[0] == ']' {
        Some((Seq::empty(), s.drop_first()))
    } else if s[0] == '"' {
        match scan_string(s.drop_first()) {
            None => None,
            Some((name, rest)) => if rest.len() >= 2 && rest[0] == ',' && rest[1] == '"' {
                names_cons(name, scan_names(rest.drop_first()))
            } else if rest.len() >= 1 && rest[0] == ']' {
                Some((seq![name], rest.drop_first()))
            } else {
                None
            },
        }
    } else {
        None
    }
}

#[via_fn]
proof fn scan_names_decreases(s: Seq<char>) {
    if s.len() > 0 && s[0] != ']' && s[0] == '"' {
        lemma_scan_len(s.drop_first());
    }
}

/// `p` opens `s`.
pub open spec fn begins(s: Seq<char>, p: Seq<char>) -> bool {
    p.len() <= s.len() && s.take(p.len() as int) == p
}

/// The wire text of a channel-name list: the names quoted, separated by
/// commas.
pub open spec fn spec_name_list(ts: Seq<Seq<char>>) -> Seq<char>
    decreases ts.len(),
{
    if ts.len() == 0 {
        Seq::empty()
    } else {
        seq!['"'] + ts[0] + seq!['"'] + spec_name_tail(ts.drop_first())
    }
}

/// The remainder of a name list: each further name behind a comma.
pub open spec fn spec_name_tail(ts: Seq<Seq<char>>) -> Seq<char>
    decreases ts.len(),
{
    if ts.len() == 0 {
        Seq::empty()
    } else {
        seq![','] + seq!['"'] + ts[0] + seq!['"'] + spec_name_tail(ts.drop_first())
    }
}

/// Listing one more name appends it, with a comma once the list has begun.
pub proof fn lemma_name_list_push(ts: Seq<Seq<char>>, t: Seq<char>)
    ensures
        spec_name_list(ts.push(t)) == if ts.len() == 0 {
            seq!['"'] + t + seq!['"']
        } else {
            spec_name_list(ts) + seq![','] + seq!['"'] + t + seq!['"']
        },
    decreases ts.len(),
{
    if ts.len() == 0 {
        assert(ts.push(t)[0] == t);
        assert(ts.push(t).drop_first() =~= Seq::<Seq<char>>::empty());
        assert(spec_name_tail(Seq::<Seq<char>>::empty()) == Seq::<char>::empty());
        assert(spec_name_list(ts.push(t)) == seq!['"'] + t + seq!['"'] + spec_name_tail(
            Seq::<Seq<char>>::empty(),
        ));
        assert(spec_name_list(ts.push(t)) =~= seq!['"'] + t + seq!['"']);
    } else {
        assert(ts.push(t)[0] == ts[0]);
        assert(ts.push(t).drop_first() =~= ts.drop_first().push(t));
        lemma_name_tail_push(ts.drop_first(), t);
        assert(spec_name_list(ts.push(t)) == seq!['"'] + ts[0] + seq!['"'] + spec_name_tail(
            ts.drop_first().push(t),
        ));
        assert(spec_name_list(ts) == seq!['"'] + ts[0] + seq!['"'] + spec_name_tail(
            ts.drop_first(),
        ));
        assert(spec_name_list(ts.push(t)) =~= spec_name_list(ts) + seq![','] + seq!['"'] + t
            + seq!['"']);
    }
}

proof fn lemma_name_tail_push(ts: Seq<Seq<char>>, t: Seq<char>)
    ensures
        spec_name_tail(ts.push(t)) == spec_name_tail(ts) + seq![','] + seq!['"'] + t + seq!['"'],
    decreases ts.len(),
{
    if ts.len() == 0 {
        assert(ts.push(t)[0] == t);
        assert(ts.push(t).drop_first() =~= Seq::<Seq<char>>::empty());
        assert(spec_name_tail(Seq::<Seq<char>>::empty()) == Seq::<char>::empty());
        assert(spec_name_tail(ts.push(t)) == seq![','] + seq!['"'] + t + seq!['"']
            + spec_name_tail(Seq::<Seq<char>>::empty()));
        assert(spec_name_tail(ts.push(t)) =~= spec_name_tail(ts) + seq![','] + seq!['"'] + t
            + seq!['"']);
    } else {
        assert(ts.push(t)[0] == ts[0]);
        assert(ts.push(t).drop_first() =~= ts.drop_first().push(t));
        lemma_name_tail_push(ts.drop_first(), t);
        assert(spec_name_tail(ts.push(t)) == seq![','] + seq!['"'] + ts[0] + seq!['"']
            + spec_name_tail(ts.drop_first().push(t)));
        assert(spec_name_tail(ts) == seq![','] + seq!['"'] + ts[0] + seq!['"'] + spec_name_tail(
            ts.drop_first(),
        ));
        assert(spec_name_tail(ts.push(t)) =~= spec_name_tail(ts) + seq![','] + seq!['"'] + t
            + seq!['"']);
    }
}

/// The wire text of an envelope.
pub open spec fn spec_encode_ws(v: WsMessageView) -> Seq<char> {
    match v {
        WsMessageView::Subscribe(t) => "{\"Subscribe\":\""@ + t + "\"}"@,
        WsMessageView::Unsubscribe(t) => "{\"Unsubscribe\":\""@ + t + "\"}"@,
        WsMessageView::ListChannelsReq => "\"ListChannelsReq\""@,
        WsMessageView::ListChannelsResponse(ts) => "{\"ListChannelsResponse\":["@ + spec_name_list(
            ts,
        ) + "]}"@,
        WsMessageView::Data(t, d) => "{\"Data\":[\""@ + t + "\",\""@ + spec_escape(d) + "\"]}"@,
    }
}

/// What a wire text means, if anything: the reverse reading of
/// `spec_encode_ws`, with channel names validated and normalized and
/// payloads trimmed as always.
pub open spec fn spec_decode_ws(s: Seq<char>) -> Option<WsMessageView> {
    if s == "\"ListChannelsReq\""@ {
        Some(WsMessageView::ListChannelsReq)
    } else if begins(s, "{\"Subscribe\":\""@) {
        spec_decode_name_tail(s.skip("{\"Subscribe\":\""@.len() as int), true)
    } else if begins(s, "{\"Unsubscribe\":\""@) {
        spec_decode_name_tail(s.skip("{\"Unsubscribe\":\""@.len() as int), false)
    } else if begins(s, "{\"Data\":[\""@) {
        spec_decode_data_tail(s.skip("{\"Data\":[\""@.len() as int))
    } else if begins(s, "{\"ListChannelsResponse\":["@) {
        spec_decode_list_tail(s.skip("{\"ListChannelsResponse\":["@.len() as int))
    } else {
        None
    }
}

pub open spec fn spec_decode_name_tail(s: Seq<char>, is_subscribe: bool) -> Option<
    WsMessageView,
> {
    match scan_string(s) {
        Some((name, rest)) => if rest == "}"@ && valid_name_input(name) {
            if is_subscribe {
                Some(WsMessageView::Subscribe(normalize_name(name)))
            } else {
                Some(WsMessageView::Unsubscribe(normalize_name(name)))
            }
        } else {
            None
        },
        None => None,
    }
}

pub open spec fn spec_decode_data_tail(s: Seq<char>) -> Option<WsMessageView> {
    match scan_string(s) {
        Some((t, rest1)) => if rest1.len() >= 2 && rest1[0] == ',' && rest1[1] == '"' {
            match scan_string(rest1.skip(2)) {
                Some((d, rest2)) => if rest2 == "]}"@ && valid_name_input(t) {
                    Some(WsMessageView::Data(normalize_name(t), normalize_payload(d)))
                } else {
                    None
                },
                None => None,
            }
        } else {
            None
        },
        None => None,
    }
}

pub open spec fn spec_decode_list_tail(s: Seq<char>) -> Option<WsMessageView> {
    match scan_names(s) {
        Some((names, rest)) => if rest == "}"@ && (forall|i: int|
            0 <= i < names.len() ==> valid_name_input(#[trigger] names[i])) {
            Some(
                WsMessageView::ListChannelsResponse(
                    names.map_values(|n: Seq<char>| normalize_name(n)),
                ),
            )
        } else {
            None
        },
        None => None,
    }
}

// The round trip: decoding an encoded envelope gives it back.

/// A character that stands for itself inside a JSON string.
spec fn is_plain_char(c: char) -> bool {
    c != '"' && c != '\\' && (c as u32) >= 32
}

/// The names and payloads an envelope built by this library carries:
/// normalized channel names and trimmed payloads.
pub open spec fn wf_view(v: WsMessageView) -> bool {
    match v {
        WsMessageView::Subscribe(t) => crate::channel_name::is_normalized_name(t),
        WsMessageView::Unsubscribe(t) => crate::channel_name::is_normalized_name(t),
        WsMessageView::ListChannelsReq => true,
        WsMessageView::ListChannelsResponse(ts) => forall|i: int|
            0 <= i < ts.len() ==> crate::channel_name::is_normalized_name(#[trigger] ts[i]),
        WsMessageView::Data(t, d) => crate::channel_name::is_normalized_name(t)
            && crate::hub_data::is_normalized_payload(d),
    }
}

/// A normalized name character stands for itself in a JSON string.
proof fn lemma_name_char_plain(c: char)
    requires
        crate::text::is_lower_name_char(c),
    ensures
        is_plain_char(c),
{
}

/// Scanning a text of self-standing characters stops at the closing quote.
proof fn lemma_scan_plain(name: Seq<char>, tail: Seq<char>)
    requires
        forall|i: int| 0 <= i < name.len() ==> is_plain_char(#[trigger] name[i]),
    ensures
        scan_string(name + seq!['"'] + tail) == Some((name, tail)),
    decreases name.len(),
{
    let s = name + seq!['"'] + tail;
    if name.len() == 0 {
        assert(s[0] == '"');
        assert(s.drop_first() =~= tail);
    } else {
        assert(s[0] == name[0]);
        lemma_scan_plain(name.drop_first(), tail);
        assert(s.drop_first() =~= name.drop_first() + seq!['"'] + tail);
        assert(seq![name[0]] + name.drop_first() =~= name);
    }
}

proof fn lemma_hex_round(v: u32)
    requires
        v < 16,
    ensures
        hex_digit_val(hex_digit(v)) == Some(v),
{
}

/// Scanning an escaped payload recovers it, up to the closing quote.
proof fn lemma_scan_escaped(p: Seq<char>, tail: Seq<char>)
    ensures
        scan_string(spec_escape(p) + seq!['"'] + tail) == Some((p, tail)),
    decreases p.len(),
{
    let s = spec_escape(p) + seq!['"'] + tail;
    if p.len() == 0 {
        assert(s =~= seq!['"'] + tail);
        assert(s[0] == '"');
        assert(s.drop_first() =~= tail);
    } else {
        let c = p[0];
        let rest = p.drop_first();
        lemma_scan_escaped(rest, tail);
        let cont = spec_escape(rest) + seq!['"'] + tail;
        assert(s =~= esc_char(c) + cont);
        assert(seq![c] + rest =~= p);
        let u = c as u32;
        if c == '"' || c == '\\' || c == '\n' || c == '\r' || c == '\t' || u == 8 || u == 12 {
            assert(esc_char(c).len() == 2);
            assert(s[0] == '\\');
            assert(s[1] == esc_char(c)[1]);
            assert(s[1] != 'u');
            assert(unescape_char(s[1]) == Some(c)) by {
                char_u32_cast_both(c);
            }
            assert(s.skip(2) =~= cont);
        } else if u < 32 {
            assert(esc_char(c).len() == 6);
            assert(s[0] == '\\');
            assert(s[1] == 'u');
            assert(s[2] == '0' && s[3] == '0');
            assert(s[4] == hex_digit(u / 16));
            assert(s[5] == hex_digit(u % 16));
            assert(s.len() >= 6);
            lemma_hex_round(u / 16);
            lemma_hex_round(u % 16);
            assert(hex_digit_val('0') == Some(0u32));
            assert(spec_hex4(s[2], s[3], s[4], s[5]) == Some((((u / 16) * 16 + u % 16) as u32)));
            assert((u / 16) * 16 + u % 16 == u) by (nonlinear_arith)
                requires
                    u < 32,
            ;
            assert(((u as u8) as char) == c) by {
                vstd::utf8::char_u32_cast(c, u);
            }
            assert(s.skip(6) =~= cont);
        } else {
            assert(esc_char(c) =~= seq![c]);
            assert(s[0] == c);
            assert(s[0] != '"' && s[0] != '\\' && (s[0] as u32) >= 32);
            assert(s.drop_first() =~= cont);
        }
    }
}

/// A character is pinned by its code point.
proof fn char_u32_cast_both(c: char)
    ensures
        ((c as u32) as u8) as char == c || (c as u32) >= 256,
{
    if (c as u32) < 256 {
        vstd::utf8::char_u32_cast(c, c as u32);
    }
}

/// Scanning an encoded name list recovers the names, past the bracket.
proof fn lemma_scan_names_list(ts: Seq<Seq<char>>, tail: Seq<char>)
    requires
        forall|i: int|
            0 <= i < ts.len() ==> crate::channel_name::is_normalized_name(#[trigger] ts[i]),
    ensures
        scan_names(spec_name_list(ts) + seq![']'] + tail) == Some((ts, tail)),
    decreases ts.len(),
{
    let s = spec_name_list(ts) + seq![']'] + tail;
    if ts.len() == 0 {
        assert(s =~= seq![']'] + tail);
        assert(s[0] == ']');
        assert(s.drop_first() =~= tail);
    } else {
        let name = ts[0];
        let rest = ts.drop_first();
        assert forall|i: int| 0 <= i < name.len() implies is_plain_char(#[trigger] name[i]) by {
            lemma_name_char_plain(name[i]);
        }
        assert(s[0] == '"');
        assert(s[0] != ']');
        let after_names = spec_name_tail(rest) + seq![']'] + tail;
        assert(s.drop_first() =~= name + seq!['"'] + after_names);
        lemma_scan_plain(name, after_names);
        if rest.len() == 0 {
            assert(after_names =~= seq![']'] + tail);
            assert(after_names[0] == ']');
            assert(after_names.drop_first() =~= tail);
            assert(seq![name] =~= ts);
        } else {
            assert(after_names[0] == ',');
            assert(after_names[1] == '"');
            assert(after_names.len() >= 2);
            assert(after_names.drop_first() =~= spec_name_list(rest) + seq![']'] + tail);
            assert forall|i: int|
                0 <= i < rest.len() implies crate::channel_name::is_normalized_name(
                #[trigger] rest[i],
            ) by {
                assert(rest[i] == ts[i + 1]);
            }
            lemma_scan_names_list(rest, tail);
            assert(seq![name] + rest =~= ts);
        }
    }
}

/// The round trip of the envelope codec: decoding what this library encodes
/// gives back exactly the envelope, for every variant.
#[verifier::rlimit(100)]
pub proof fn lemma_ws_round_trip(v: WsMessageView)
    requires
        wf_view(v),
    ensures
        spec_decode_ws(spec_encode_ws(v)) == Some(v),
{
    reveal_strlit("\"ListChannelsReq\"");
    reveal_strlit("{\"Subscribe\":\"");
    reveal_strlit("{\"Unsubscribe\":\"");
    reveal_strlit("{\"Data\":[\"");
    reveal_strlit("{\"ListChannelsResponse\":[");
    reveal_strlit("\"}");
    reveal_strlit("]}");
    reveal_strlit("}");
    reveal_strlit("\",\"");
    reveal_strlit("\"]}");
    let s = spec_encode_ws(v);
    match v {
        WsMessageView::ListChannelsReq => {
        },
        WsMessageView::Subscribe(t) => {
            crate::channel_name::lemma_normalized_is_fixpoint(t);
            let p = "{\"Subscribe\":\""@;
            assert(s != "\"ListChannelsReq\""@) by {
                assert(s[0] == '{');
            }
            assert(begins(s, p)) by {
                assert(s.take(p.len() as int) =~= p);
            }
            assert(s.skip(p.len() as int) =~= t + seq!['"'] + seq!['}']);
            name_plain(t);
            lemma_scan_plain(t, seq!['}']);
            assert(seq!['}'] =~= "}"@);
        },
        WsMessageView::Unsubscribe(t) => {
            crate::channel_name::lemma_normalized_is_fixpoint(t);
            let p = "{\"Unsubscribe\":\""@;
            assert(s != "\"ListChannelsReq\""@) by {
                assert(s[0] == '{');
            }
            assert(!begins(s, "{\"Subscribe\":\""@)) by {
                assert(s[2] == 'U');
                if begins(s, "{\"Subscribe\":\""@) {
                    assert(s.take(14)[2] == 'S');
                }
            }
            assert(begins(s, p)) by {
                assert(s.take(p.len() as int) =~= p);
            }
            assert(s.skip(p.len() as int) =~= t + seq!['"'] + seq!['}']);
            name_plain(t);
            lemma_scan_plain(t, seq!['}']);
            assert(seq!['}'] =~= "}"@);
        },
        WsMessageView::Data(t, d) => {
            crate::channel_name::lemma_normalized_is_fixpoint(t);
            crate::text::lemma_trim_fixpoint(d, crate::text::trim_pred(true));
            let p = "{\"Data\":[\""@;
            assert(s != "\"ListChannelsReq\""@) by {
                assert(s[0] == '{');
            }
            assert(!begins(s, "{\"Subscribe\":\""@)) by {
                assert(s[2] == 'D');
                if begins(s, "{\"Subscribe\":\""@) {
                    assert(s.take(14)[2] == 'S');
                }
            }
            assert(!begins(s, "{\"Unsubscribe\":\""@)) by {
                assert(s[2] == 'D');
                if begins(s, "{\"Unsubscribe\":\""@) {
                    assert(s.take(16)[2] == 'U');
                }
            }
            assert(begins(s, p)) by {
                assert(s.take(p.len() as int) =~= p);
            }
            let tail1 = seq![','] + seq!['"'] + spec_escape(d) + seq!['"', ']', '}'];
            assert(s.skip(p.len() as int) =~= t + seq!['"'] + tail1);
            name_plain(t);
            lemma_scan_plain(t, tail1);
            assert(tail1[0] == ',');
            assert(tail1[1] == '"');
            assert(tail1.len() >= 2);
            assert(tail1.skip(2) =~= spec_escape(d) + seq!['"'] + seq![']', '}']);
            lemma_scan_escaped(d, seq![']', '}']);
            assert(seq![']', '}'] =~= "]}"@);
        },
        WsMessageView::ListChannelsResponse(ts) => {
            let p = "{\"ListChannelsResponse\":["@;
            assert(s != "\"ListChannelsReq\""@) by {
                assert(s[0] == '{');
            }
            assert(!begins(s, "{\"Subscribe\":\""@)) by {
                assert(s[2] == 'L');
                if begins(s, "{\"Subscribe\":\""@) {
                    assert(s.take(14)[2] == 'S');
                }
            }
            assert(!begins(s, "{\"Unsubscribe\":\""@)) by {
                assert(s[2] == 'L');
                if begins(s, "{\"Unsubscribe\":\""@) {
                    assert(s.take(16)[2] == 'U');
                }
            }
            assert(!begins(s, "{\"Data\":[\""@)) by {
                assert(s[2] == 'L');
                if begins(s, "{\"Data\":[\""@) {
                    assert(s.take(10)[2] == 'D');
                }
            }
            assert(begins(s, p)) by {
                assert(s.take(p.len() as int) =~= p);
            }
            assert(s.skip(p.len() as int) =~= spec_name_list(ts) + seq![']'] + seq!['}']);
            lemma_scan_names_list(ts, seq!['}']);
            assert(seq!['}'] =~= "}"@);
            assert forall|i: int|
                0 <= i < ts.len() implies crate::channel_name::valid_name_input(
                #[trigger] ts[i],
            ) && crate::channel_name::normalize_name(ts[i]) == ts[i] by {
                crate::channel_name::lemma_normalized_is_fixpoint(ts[i]);
            }
            assert(ts.map_values(|n: Seq<char>| crate::channel_name::normalize_name(n)) =~= ts);
        },
    }
}

/// The characters of a normalized name stand for themselves.
proof fn name_plain(t: Seq<char>)
    requires
        crate::channel_name::is_normalized_name(t),
    ensures
        forall|i: int| 0 <= i < t.len() ==> is_plain_char(#[trigger] t[i]),
{
    assert forall|i: int| 0 <= i < t.len() implies is_plain_char(#[trigger] t[i]) by {
        lemma_name_char_plain(t[i]);
    }
}

// The executable encoder.

fn push_str(out: &mut Vec<char>, s: &str)
    ensures
        final(out)@ == old(out)@ + s@,
{
    let n = s.unicode_len();
    let mut k: usize = 0;
    while k < n
        invariant
            k <= n,
            n == s@.len(),
            out@ =~= old(out)@ + s@.take(k as int),
        decreases n - k,
    {
        out.push(s.get_char(k));
        k = k + 1;
        proof {
            assert(out@ =~= old(out)@ + s@.take(k as int));
        }
    }
    proof {
        assert(s@.take(n as int) =~= s@);
    }
}

fn hex_digit_exec(v: u32) -> (r: char)
    requires
        v < 16,
    ensures
        r == hex_digit(v),
{
    if v < 10 {
        ((48 + v) as u8) as char
    } else {
        ((87 + v) as u8) as char
    }
}

fn push_escaped(out: &mut Vec<char>, s: &str)
    ensures
        final(out)@ == old(out)@ + spec_escape(s@),
{
    let n = s.unicode_len();
    let mut k: usize = 0;
    while k < n
        invariant
            k <= n,
            n == s@.len(),
            out@ == old(out)@ + spec_escape(s@.take(k as int)),
        decreases n - k,
    {
        let c = s.get_char(k);
        proof {
            assert(s@.take(k + 1) =~= s@.take(k as int).push(c));
            lemma_escape_push(s@.take(k as int), c);
        }
        let u = c as u32;
        if c == '"' {
            out.push('\\');
            out.push('"');
        } else if c == '\\' {
            out.push('\\');
            out.push('\\');
        } else if c == '\n' {
            out.push('\\');
            out.push('n');
        } else if c == '\r' {
            out.push('\\');
            out.push('r');
        } else if c == '\t' {
            out.push('\\');
            out.push('t');
        } else if u == 8 {
            out.push('\\');
            out.push('b');
        } else if u == 12 {
            out.push('\\');
            out.push('f');
        } else if u < 32 {
            out.push('\\');
            out.push('u');
            out.push('0');
            out.push('0');
            out.push(hex_digit_exec(u / 16));
            out.push(hex_digit_exec(u % 16));
        } else {
            out.push(c);
        }
        k = k + 1;
        proof {
            assert(out@ =~= old(out)@ + spec_escape(s@.take(k as int)));
        }
    }
    proof {
        assert(s@.take(n as int) =~= s@);
    }
}

/// Write an envelope in its wire form.
pub fn encode_ws_message(m: &WsMessage) -> (r: String)
    ensures
        r@ == spec_encode_ws(m@),
{
    let mut out: Vec<char> = Vec::new();
    match m {
        WsMessage::Subscribe(c) => {
            push_str(&mut out, "{\"Subscribe\":\"");
            push_str(&mut out, c.as_str());
            push_str(&mut out, "\"}");
            proof {
                assert(out@ =~= spec_encode_ws(m@));
            }
        },
        WsMessage::Unsubscribe(c) => {
            push_str(&mut out, "{\"Unsubscribe\":\"");
            push_str(&mut out, c.as_str());
            push_str(&mut out, "\"}");
            proof {
                assert(out@ =~= spec_encode_ws(m@));
            }
        },
        WsMessage::ListChannelsReq => {
            push_str(&mut out, "\"ListChannelsReq\"");
            proof {
                assert(out@ =~= spec_encode_ws(m@));
            }
        },
        WsMessage::ListChannelsResponse(v) => {
            push_str(&mut out, "{\"ListChannelsResponse\":[");
            let ghost ts = v@.map_values(|c: HubChannelName| c@);
            let n = v.len();
            let mut k: usize = 0;
            while k < n
                invariant
                    k <= n,
                    n == v@.len(),
                    ts == v@.map_values(|c: HubChannelName| c@),
                    out@ == "{\"ListChannelsResponse\":["@ + spec_name_list(ts.take(k as int)),
                decreases n - k,
            {
                proof {
                    assert(ts.take(k + 1) =~= ts.take(k as int).push(ts[k as int]));
                    lemma_name_list_push(ts.take(k as int), ts[k as int]);
                }
                if k > 0 {
                    out.push(',');
                }
                out.push('"');
                push_str(&mut out, v[k].as_str());
                out.push('"');
                k = k + 1;
                proof {
                    assert(out@ =~= "{\"ListChannelsResponse\":["@ + spec_name_list(
                        ts.take(k as int),
                    ));
                }
            }
            push_str(&mut out, "]}");
            proof {
                assert(ts.take(n as int) =~= ts);
                assert(out@ =~= spec_encode_ws(m@));
            }
        },
        WsMessage::Data(c, d) => {
            push_str(&mut out, "{\"Data\":[\"");
            push_str(&mut out, c.as_str());
            push_str(&mut out, "\",\"");
            push_escaped(&mut out, d.as_str());
            push_str(&mut out, "\"]}");
            proof {
                assert(out@ =~= spec_encode_ws(m@));
            }
        },
    }
    string_from_chars(&out)
}

// The executable decoder.

fn match_prefix(v: &Vec<char>, p: &str) -> (r: Option<usize>)
    ensures
        match r {
            Some(i) => i as int == p@.len() && begins(v@, p@) && i <= v@.len(),
            None => !begins(v@, p@),
        },
{
    let pl = p.unicode_len();
    if v.len() < pl {
        return None;
    }
    let mut k: usize = 0;
    while k < pl
        invariant
            k <= pl,
            pl == p@.len(),
            pl <= v@.len(),
            forall|j: int| 0 <= j < k ==> v@[j] == p@[j],
        decreases pl - k,
    {
        if !(v[k] == p.get_char(k)) {
            proof {
                if begins(v@, p@) {
                    assert(v@.take(p@.len() as int)[k as int] == p@[k as int]);
                }
            }
            return None;
        }
        k = k + 1;
    }
    proof {
        assert(v@.take(pl as int) =~= p@);
    }
    Some(pl)
}

fn chars_eq_str(v: &Vec<char>, p: &str) -> (r: bool)
    ensures
        r == (v@ == p@),
{
    let pl = p.unicode_len();
    if v.len() != pl {
        return false;
    }
    match match_prefix(v, p) {
        Some(_) => {
            proof {
                assert(v@.take(pl as int) =~= v@);
            }
            true
        },
        None => {
            proof {
                if v@ == p@ {
                    assert(v@.take(p@.len() as int) =~= p@);
                }
            }
            false
        },
    }
}

fn hex_val_exec(c: char) -> (r: Option<u32>)
    ensures
        r == hex_digit_val(c),
{
    let u = c as u32;
    if 48 <= u && u <= 57 {
        Some(u - 48)
    } else if 97 <= u && u <= 102 {
        Some(u - 87)
    } else if 65 <= u && u <= 70 {
        Some(u - 55)
    } else {
        None
    }
}

fn unescape_exec(e: char) -> (r: Option<char>)
    ensures
        r == unescape_char(e),
{
    if e == '"' {
        Some('"')
    } else if e == '\\' {
        Some('\\')
    } else if e == '/' {
        Some('/')
    } else if e == 'n' {
        Some('\n')
    } else if e == 'r' {
        Some('\r')
    } else if e == 't' {
        Some('\t')
    } else if e == 'b' {
        Some((8 as u8) as char)
    } else if e == 'f' {
        Some((12 as u8) as char)
    } else {
        None
    }
}

/// Scan a JSON string body inside `v` from `start`, per `scan_string`.
#[verifier::rlimit(100)]
fn scan_str_exec(v: &Vec<char>, start: usize) -> (r: Option<(Vec<char>, usize)>)
    requires
        start <= v@.len(),
    ensures
        match r {
            Some(p) => start <= p.1 <= v@.len() && scan_string(v@.skip(start as int)) == Some(
                (p.0@, v@.skip(p.1 as int)),
            ),
            None => scan_string(v@.skip(start as int)) is None,
        },
{
    let n = v.len();
    let mut acc: Vec<char> = Vec::new();
    let mut k = start;
    loop
        invariant
            start <= k <= n,
            n == v@.len(),
            scan_string(v@.skip(start as int)) == scan_cons_all(
                acc@,
                scan_string(v@.skip(k as int)),
            ),
        decreases n - k,
    {
        if k >= n {
            proof {
                assert(v@.skip(k as int).len() == 0);
            }
            return None;
        }
        let ghost cur = v@.skip(k as int);
        proof {
            assert(cur.len() > 0);
            assert(cur[0] == v@[k as int]);
        }
        let c = v[k];
        if c == '"' {
            proof {
                assert(cur.drop_first() =~= v@.skip(k + 1));
                assert(scan_string(cur) == Some((Seq::<char>::empty(), v@.skip(k + 1))));
                assert(acc@ + Seq::<char>::empty() =~= acc@);
            }
            return Some((acc, k + 1));
        } else if c == '\\' {
            proof {
                if cur.len() >= 2 {
                    assert(cur[1] == v@[k + 1]);
                }
            }
            if k + 1 >= n {
                return None;
            }
            let e = v[k + 1];
            if e == 'u' {
                if n - k < 6 {
                    return None;
                }
                proof {
                    assert(cur[2] == v@[k + 2]);
                    assert(cur[3] == v@[k + 3]);
                    assert(cur[4] == v@[k + 4]);
                    assert(cur[5] == v@[k + 5]);
                }
                let d0 = hex_val_exec(v[k + 2]);
                let d1 = hex_val_exec(v[k + 3]);
                let d2 = hex_val_exec(v[k + 4]);
                let d3 = hex_val_exec(v[k + 5]);
                match (d0, d1, d2, d3) {
                    (Some(x), Some(y), Some(z), Some(w)) => {
                        let val = x * 4096 + y * 256 + z * 16 + w;
                        proof {
                            lemma_hex_val_bound(cur[2]);
                            lemma_hex_val_bound(cur[3]);
                            lemma_hex_val_bound(cur[4]);
                            lemma_hex_val_bound(cur[5]);
                        }
                        if val >= 0x80 {
                            return None;
                        }
                        let ch = (val as u8) as char;
                        proof {
                            assert(cur.skip(6) =~= v@.skip(k + 6));
                            lemma_cons_all(acc@, ch, scan_string(v@.skip(k + 6)));
                        }
                        acc.push(ch);
                        k = k + 6;
                    },
                    _ => {
                        return None;
                    },
                }
            } else {
                match unescape_exec(e) {
                    Some(u) => {
                        proof {
                            assert(cur.skip(2) =~= v@.skip(k + 2));
                            lemma_cons_all(acc@, u, scan_string(v@.skip(k + 2)));
                        }
                        acc.push(u);
                        k = k + 2;
                    },
                    None => {
                        return None;
                    },
                }
            }
        } else if (c as u32) < 32 {
            return None;
        } else {
            proof {
                assert(cur.drop_first() =~= v@.skip(k + 1));
                lemma_cons_all(acc@, c, scan_string(v@.skip(k + 1)));
            }
            acc.push(c);
            k = k + 1;
        }
    }
}

/// Prepend an accumulated prefix to a scan's outcome.
spec fn scan_cons_all(prefix: Seq<char>, r: Option<(Seq<char>, Seq<char>)>) -> Option<
    (Seq<char>, Seq<char>),
> {
    match r {
        Some(p) => Some((prefix + p.0, p.1)),
        None => None,
    }
}

proof fn lemma_cons_all(prefix: Seq<char>, c: char, r: Option<(Seq<char>, Seq<char>)>)
    ensures
        scan_cons_all(prefix, scan_cons(c, r)) == scan_cons_all(prefix.push(c), r),
{
    match r {
        Some(p) => {
            assert(prefix + (seq![c] + p.0) =~= prefix.push(c) + p.0);
        },
        None => {},
    }
}

proof fn lemma_hex_val_bound(c: char)
    ensures
        hex_digit_val(c) matches Some(x) ==> x < 16,
{
}

/// Scan a JSON array of strings inside `v` from `start` (just after the
/// opening bracket), per `scan_names`.
fn scan_names_exec(v: &Vec<char>, start: usize) -> (r: Option<(Vec<Vec<char>>, usize)>)
    requires
        start <= v@.len(),
    ensures
        match r {
            Some(p) => start <= p.1 <= v@.len() && scan_names(v@.skip(start as int)) == Some(
                (p.0@.map_values(|x: Vec<char>| x@), v@.skip(p.1 as int)),
            ),
            None => scan_names(v@.skip(start as int)) is None,
        },
{
    let n = v.len();
    if start >= n {
        return None;
    }
    proof {
        assert(v@.skip(start as int)[0] == v@[start as int]);
    }
    if v[start] == ']' {
        proof {
            assert(v@.skip(start as int).drop_first() =~= v@.skip(start + 1));
        }
        let out: Vec<Vec<char>> = Vec::new();
        proof {
            assert(out@.map_values(|x: Vec<char>| x@) =~= Seq::<Seq<char>>::empty());
        }
        return Some((out, start + 1));
    }
    let mut acc: Vec<Vec<char>> = Vec::new();
    let mut k = start;
    loop
        invariant
            start <= k < n,
            n == v@.len(),
            scan_names(v@.skip(start as int)) == names_cons_all(
                acc@.map_values(|x: Vec<char>| x@),
                scan_names(v@.skip(k as int)),
            ),
        decreases n - k,
    {
        let ghost cur = v@.skip(k as int);
        proof {
            assert(cur[0] == v@[k as int]);
        }
        if !(v[k] == '"') {
            if v[k] == ']' {
                proof {
                    assert(cur.drop_first() =~= v@.skip(k + 1));
                    assert(acc@.map_values(|x: Vec<char>| x@) + Seq::<Seq<char>>::empty()
                        =~= acc@.map_values(|x: Vec<char>| x@));
                }
                return Some((acc, k + 1));
            }
            return None;
        }
        proof {
            assert(cur.drop_first() =~= v@.skip(k + 1));
        }
        match scan_str_exec(v, k + 1) {
            None => {
                return None;
            },
            Some((name, j)) => {
                let ghost rest = v@.skip(j as int);
                proof {
                    if j < n {
                        assert(rest[0] == v@[j as int]);
                    }
                    if j + 1 < n {
                        assert(rest[1] == v@[j + 1]);
                    }
                }
                if j < n && n - j > 1 && v[j] == ',' && v[j + 1] == '"' {
                    proof {
                        assert(rest.drop_first() =~= v@.skip(j + 1));
                        lemma_names_cons_all(
                            acc@.map_values(|x: Vec<char>| x@),
                            name@,
                            scan_names(v@.skip(j + 1)),
                        );
                        assert((acc@.push(name)).map_values(|x: Vec<char>| x@)
                            =~= acc@.map_values(|x: Vec<char>| x@).push(name@));
                    }
                    acc.push(name);
                    k = j + 1;
                } else if j < n && v[j] == ']' {
                    proof {
                        assert(rest.drop_first() =~= v@.skip(j + 1));
                        assert((acc@.push(name)).map_values(|x: Vec<char>| x@)
                            =~= acc@.map_values(|x: Vec<char>| x@).push(name@));
                        lemma_names_cons_all(
                            acc@.map_values(|x: Vec<char>| x@),
                            name@,
                            Some((Seq::<Seq<char>>::empty(), v@.skip(j + 1))),
                        );
                        assert(seq![name@] + Seq::<Seq<char>>::empty() =~= seq![name@]);
                    }
                    acc.push(name);
                    return Some((acc, j + 1));
                } else {
                    return None;
                }
            },
        }
    }
}

spec fn names_cons_all(prefix: Seq<Seq<char>>, r: Option<(Seq<Seq<char>>, Seq<char>)>) -> Option<
    (Seq<Seq<char>>, Seq<char>),
> {
    match r {
        Some(p) => Some((prefix + p.0, p.1)),
        None => None,
    }
}

proof fn lemma_names_cons_all(
    prefix: Seq<Seq<char>>,
    n: Seq<char>,
    r: Option<(Seq<Seq<char>>, Seq<char>)>,
)
    ensures
        names_cons_all(prefix, names_cons(n, r)) == names_cons_all(prefix.push(n), r),
{
    match r {
        Some(p) => {
            assert(prefix + (seq![n] + p.0) =~= prefix.push(n) + p.0);
        },
        None => {},
    }
}

/// Read an envelope from its wire form.  Fails exactly when the text is not
/// an envelope as `spec_decode_ws` reads it — a malformed shape, a channel
/// name the validator refuses, an unterminated or ill-escaped string.
pub fn decode_ws_message(s: &str) -> (r: Result<WsMessage, HubError>)
    ensures
        r matches Ok(m) ==> spec_decode_ws(s@) == Some(m@),
        r matches Err(e) ==> spec_decode_ws(s@) is None && e == HubError::InvalidEnvelope,
{
    let v = chars_of(s);
    if chars_eq_str(&v, "\"ListChannelsReq\"") {
        return Ok(WsMessage::ListChannelsReq);
    }
    if let Some(i) = match_prefix(&v, "{\"Subscribe\":\"") {
        match decode_name_tail(&v, i) {
            Some(name) => {
                return Ok(WsMessage::Subscribe(name));
            },
            None => {
                return Err(HubError::InvalidEnvelope);
            },
        }
    }
    if let Some(i) = match_prefix(&v, "{\"Unsubscribe\":\"") {
        match decode_name_tail(&v, i) {
            Some(name) => {
                return Ok(WsMessage::Unsubscribe(name));
            },
            None => {
                return Err(HubError::InvalidEnvelope);
            },
        }
    }
    if let Some(i) = match_prefix(&v, "{\"Data\":[\"") {
        match decode_data_tail(&v, i) {
            Some((name, data)) => {
                return Ok(WsMessage::Data(name, data));
            },
            None => {
                return Err(HubError::InvalidEnvelope);
            },
        }
    }
    if let Some(i) = match_prefix(&v, "{\"ListChannelsResponse\":[") {
        match decode_list_tail(&v, i) {
            Some(names) => {
                return Ok(WsMessage::ListChannelsResponse(names));
            },
            None => {
                return Err(HubError::InvalidEnvelope);
            },
        }
    }
    Err(HubError::InvalidEnvelope)
}

/// What a WebSocket client does with an inbound text frame: a data envelope
/// becomes a hub message stamped with `timestamp`; every other envelope,
/// and any text that is no envelope, yields nothing and is dropped.
pub fn incoming_text_to_message(text: &str, timestamp: u64) -> (r: Option<HubMessage>)
    ensures
        match spec_decode_ws(text@) {
            Some(WsMessageView::Data(t, d)) => r matches Some(m) && m.channel@ == t && m.data@
                == d && m.timestamp == timestamp,
            _ => r is None,
        },
{
    match decode_ws_message(text) {
        Ok(WsMessage::Data(channel, data)) => Some(HubMessage { channel, timestamp, data }),
        _ => None,
    }
}

/// What a WebSocket client makes of the reply to a `ListChannelsReq`: the
/// channel list of a `ListChannelsResponse`, and `InvalidEnvelope` for any
/// other reply.
pub fn read_channel_list(text: &str) -> (r: Result<Vec<HubChannelName>, HubError>)
    ensures
        match spec_decode_ws(text@) {
            Some(WsMessageView::ListChannelsResponse(ns)) => r matches Ok(v) && v@.map_values(
                |c: HubChannelName| c@,
            ) == ns,
            _ => r matches Err(e) && e == HubError::InvalidEnvelope,
        },
{
    match decode_ws_message(text) {
        Ok(WsMessage::ListChannelsResponse(names)) => Ok(names),
        _ => Err(HubError::InvalidEnvelope),
    }
}

/// The closing of a one-name envelope: the name's string body, then `}`.
fn decode_name_tail(v: &Vec<char>, i: usize) -> (r: Option<HubChannelName>)
    requires
        i <= v@.len(),
    ensures
        match r {
            Some(name) => spec_decode_name_tail(v@.skip(i as int), true) == Some(
                WsMessageView::Subscribe(name@),
            ) && spec_decode_name_tail(v@.skip(i as int), false) == Some(
                WsMessageView::Unsubscribe(name@),
            ),
            None => spec_decode_name_tail(v@.skip(i as int), true) is None
                && spec_decode_name_tail(v@.skip(i as int), false) is None,
        },
{
    let n = v.len();
    match scan_str_exec(v, i) {
        None => None,
        Some((content, j)) => {
            proof {
                reveal_strlit("}");
                if j < n {
                    assert(v@.skip(j as int)[0] == v@[j as int]);
                }
            }
            if j < n && n - j == 1 && v[j] == '}' {
                proof {
                    assert(v@.skip(j as int) =~= "}"@);
                }
                let name_string = string_from_chars(&content);
                match HubChannelName::try_from_str(name_string.as_str()) {
                    Ok(name) => Some(name),
                    Err(_) => None,
                }
            } else {
                proof {
                    assert(v@.skip(j as int) != "}"@) by {
                        if j as int + 1 != n as int {
                            assert(v@.skip(j as int).len() != "}"@.len());
                        } else {
                            assert(v@.skip(j as int)[0] != "}"@[0]);
                        }
                    }
                }
                None
            }
        },
    }
}

/// The closing of a data envelope: topic, `","`, payload, then `]}`.
fn decode_data_tail(v: &Vec<char>, i: usize) -> (r: Option<(HubChannelName, HubData)>)
    requires
        i <= v@.len(),
    ensures
        match r {
            Some(p) => spec_decode_data_tail(v@.skip(i as int)) == Some(
                WsMessageView::Data(p.0@, p.1@),
            ),
            None => spec_decode_data_tail(v@.skip(i as int)) is None,
        },
{
    let n = v.len();
    match scan_str_exec(v, i) {
        None => None,
        Some((traw, j)) => {
            let ghost rest1 = v@.skip(j as int);
            proof {
                if j < n {
                    assert(rest1[0] == v@[j as int]);
                }
                if j + 1 < n {
                    assert(rest1[1] == v@[j + 1]);
                }
            }
            if !(j < n && n - j > 1 && v[j] == ',' && v[j + 1] == '"') {
                return None;
            }
            proof {
                assert(rest1.skip(2) =~= v@.skip(j + 2));
            }
            match scan_str_exec(v, j + 2) {
                None => None,
                Some((draw, j2)) => {
                    let ghost rest2 = v@.skip(j2 as int);
                    proof {
                        reveal_strlit("]}");
                        if j2 < n {
                            assert(rest2[0] == v@[j2 as int]);
                        }
                        if j2 + 1 < n {
                            assert(rest2[1] == v@[j2 + 1]);
                        }
                    }
                    if j2 < n && n - j2 == 2 && v[j2] == ']' && v[j2 + 1] == '}' {
                        proof {
                            assert(rest2 =~= "]}"@);
                        }
                        let name_string = string_from_chars(&traw);
                        match HubChannelName::try_from_str(name_string.as_str()) {
                            Ok(name) => {
                                let data_string = string_from_chars(&draw);
                                let data = HubData::from_str(data_string.as_str());
                                Some((name, data))
                            },
                            Err(_) => None,
                        }
                    } else {
                        proof {
                            assert(rest2 != "]}"@) by {
                                if j2 as int + 2 != n as int {
                                    assert(rest2.len() != "]}"@.len());
                                } else if v@[j2 as int] != ']' {
                                    assert(rest2[0] != "]}"@[0]);
                                } else {
                                    assert(rest2[1] != "]}"@[1]);
                                }
                            }
                        }
                        None
                    }
                },
            }
        },
    }
}

/// The closing of a channel-list envelope: the names, then `}`.
fn decode_list_tail(v: &Vec<char>, i: usize) -> (r: Option<Vec<HubChannelName>>)
    requires
        i <= v@.len(),
    ensures
        match r {
            Some(names) => spec_decode_list_tail(v@.skip(i as int)) == Some(
                WsMessageView::ListChannelsResponse(names@.map_values(|c: HubChannelName| c@)),
            ),
            None => spec_decode_list_tail(v@.skip(i as int)) is None,
        },
{
    let n = v.len();
    match scan_names_exec(v, i) {
        None => None,
        Some((raw, j)) => {
            let ghost raw_names = raw@.map_values(|x: Vec<char>| x@);
            proof {
                reveal_strlit("}");
                if j < n {
                    assert(v@.skip(j as int)[0] == v@[j as int]);
                }
            }
            if !(j < n && n - j == 1 && v[j] == '}') {
                proof {
                    assert(v@.skip(j as int) != "}"@) by {
                        if j as int + 1 != n as int {
                            assert(v@.skip(j as int).len() != "}"@.len());
                        } else {
                            assert(v@.skip(j as int)[0] != "}"@[0]);
                        }
                    }
                }
                return None;
            }
            proof {
                assert(v@.skip(j as int) =~= "}"@);
            }
            let m = raw.len();
            let mut names: Vec<HubChannelName> = Vec::new();
            let mut k: usize = 0;
            while k < m
                invariant
                    k <= m,
                    m == raw@.len(),
                    raw_names == raw@.map_values(|x: Vec<char>| x@),
                    scan_names(v@.skip(i as int)) == Some((raw_names, "}"@)),
                    names@.len() == k,
                    forall|q: int|
                        0 <= q < k ==> valid_name_input(#[trigger] raw_names[q]) && names@[q]@
                            == normalize_name(raw_names[q]),
                decreases m - k,
            {
                let name_string = string_from_chars(&raw[k]);
                match HubChannelName::try_from_str(name_string.as_str()) {
                    Ok(name) => {
                        names.push(name);
                    },
                    Err(_) => {
                        proof {
                            assert(!valid_name_input(raw_names[k as int]));
                        }
                        return None;
                    },
                }
                k = k + 1;
            }
            proof {
                assert(names@.map_values(|c: HubChannelName| c@) =~= raw_names.map_values(
                    |nm: Seq<char>| normalize_name(nm),
                ));
            }
            Some(names)
        },
    }
}

} // verus!
