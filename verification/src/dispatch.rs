//! Dispatch of received payloads: the uniform outbound message shape, the
//! subject and topic formatting that tags each payload with its link's
//! endpoint, and the rule that drops blank messages. The bridge is
//! receive-only: the publish and request operations of the messaging
//! interface answer with a fixed unsupported-operation error.

use vstd::prelude::*;
use vstd::utf8::{decode_utf8, valid_utf8};

use crate::text::{char_is_space, dec_str, is_space, push_char, push_dec};

verus! {

broadcast use vstd::string::group_string_axioms;

/// The uniform outbound message: a subject naming the stream the payload
/// came from, the payload bytes, and no reply subject, because the bridge
/// is receive-only.
#[derive(Debug, Clone)]
pub struct BrokerMessage {
    pub subject: String,
    pub body: Vec<u8>,
    pub reply_to: Option<String>,
}

/// Builds the outbound message for one payload: the subject is "stream."
/// followed by the link's target address, the body carries the payload
/// bytes unchanged, and there is never a reply subject.
pub fn create_broker_message(data: Vec<u8>, addr: &str) -> (m: BrokerMessage)
    ensures
        m.subject@ == "stream."@ + addr@,
        m.body@ == data@,
        m.reply_to is None,
{
    let mut subject = String::from_str("stream.");
    subject.append(addr);
    BrokerMessage { subject, body: data, reply_to: None }
}

/// The message envelope forwarded to the message bus: the source address,
/// the payload text, and the receive time in seconds since the Unix epoch.
#[derive(Debug, Clone)]
pub struct StreamMessage {
    pub source: String,
    pub content: String,
    pub timestamp: i64,
}

/// Relies on chrono::Utc::now().timestamp(): the current time as the number
/// of non-leap seconds since the Unix epoch. The result depends on the
/// system clock, so nothing is promised of it; chrono aborts when the clock
/// reads before the epoch.
#[verifier::external_body]
fn unix_timestamp_now() -> i64 {
    chrono::Utc::now().timestamp()
}

/// Builds the envelope for one received payload, stamped with the current
/// time. The timestamp comes from the system clock and is not specified.
pub fn make_stream_message(source: &str, content: &str) -> (m: StreamMessage)
    ensures
        m.source@ == source@,
        m.content@ == content@,
{
    StreamMessage {
        source: source.to_owned(),
        content: content.to_owned(),
        timestamp: unix_timestamp_now(),
    }
}

/// A source address rewritten as a topic segment: every "://" becomes one
/// underscore, and every other ':', '/' or '.' becomes an underscore.
pub open spec fn sanitize_spec(s: Seq<char>) -> Seq<char>
    decreases s.len(),
{
    if s.len() == 0 {
        Seq::empty()
    } else if s.len() >= 3 && s[0] == ':' && s[1] == '/' && s[2] == '/' {
        seq!['_'] + sanitize_spec(s.skip(3))
    } else if s[0] == ':' || s[0] == '/' || s[0] == '.' {
        seq!['_'] + sanitize_spec(s.skip(1))
    } else {
        seq![s[0]] + sanitize_spec(s.skip(1))
    }
}

/// Rewrites a source address as a valid topic segment.
pub fn sanitize_topic(source: &str) -> (r: String)
    ensures
        r@ == sanitize_spec(source@),
{
    let n = source.unicode_len();
    let mut r = String::new();
    let mut i: usize = 0;
    proof {
        assert(source@.skip(0) =~= source@);
    }
    while i < n
        invariant
            0 <= i <= n,
            n == source@.len(),
            sanitize_spec(source@) == r@ + sanitize_spec(source@.skip(i as int)),
        decreases n - i,
    {
        let ghost rem = source@.skip(i as int);
        proof {
            assert(rem[0] == source@[i as int]);
        }
        let c = source.get_char(i);
        if n - i >= 3 && c == ':' && source.get_char(i + 1) == '/' && source.get_char(i + 2)
            == '/' {
            proof {
                assert(rem[1] == source@[i + 1]);
                assert(rem[2] == source@[i + 2]);
                assert(rem.skip(3) =~= source@.skip(i + 3));
            }
            let ghost pre = r@;
            push_char(&mut r, '_');
            proof {
                assert(pre + (seq!['_'] + sanitize_spec(source@.skip(i + 3))) =~= r@
                    + sanitize_spec(source@.skip(i + 3)));
            }
            i += 3;
        } else if c == ':' || c == '/' || c == '.' {
            proof {
                assert(rem.skip(1) =~= source@.skip(i + 1));
            }
            let ghost pre = r@;
            push_char(&mut r, '_');
            proof {
                assert(pre + (seq!['_'] + sanitize_spec(source@.skip(i + 1))) =~= r@
                    + sanitize_spec(source@.skip(i + 1)));
            }
            i += 1;
        } else {
            proof {
                assert(rem.skip(1) =~= source@.skip(i + 1));
            }
            let ghost pre = r@;
            push_char(&mut r, c);
            proof {
                assert(pre + (seq![source@[i as int]] + sanitize_spec(source@.skip(i + 1))) =~= r@
                    + sanitize_spec(source@.skip(i + 1)));
            }
            i += 1;
        }
    }
    proof {
        assert(source@.skip(n as int) =~= Seq::<char>::empty());
        assert(r@ + Seq::<char>::empty() =~= r@);
    }
    r
}

/// The default base topic under which stream messages are published.
pub fn default_base_topic() -> (r: String)
    ensures
        r@ == "wasmcloud.stream.messages"@,
{
    String::from_str("wasmcloud.stream.messages")
}

/// The full topic a payload from `source` is published under: the base
/// topic, a dot, and the sanitized source address.
pub fn publish_topic(base: &str, source: &str) -> (r: String)
    ensures
        r@ == base@ + seq!['.'] + sanitize_spec(source@),
{
    let mut r = base.to_owned();
    push_char(&mut r, '.');
    let s = sanitize_topic(source);
    r.append(s.as_str());
    r
}

/// The string without its leading whitespace.
pub open spec fn trim_start_spec(s: Seq<char>) -> Seq<char>
    decreases s.len(),
{
    if s.len() > 0 && is_space(s[0]) {
        trim_start_spec(s.skip(1))
    } else {
        s
    }
}

/// The string without its trailing whitespace.
pub open spec fn trim_end_spec(s: Seq<char>) -> Seq<char>
    decreases s.len(),
{
    if s.len() > 0 && is_space(s.last()) {
        trim_end_spec(s.drop_last())
    } else {
        s
    }
}

/// The string without leading and trailing whitespace.
pub open spec fn trim_spec(s: Seq<char>) -> Seq<char> {
    trim_end_spec(trim_start_spec(s))
}

/// Strips leading and trailing whitespace.
pub fn trim_str(s: &str) -> (r: String)
    ensures
        r@ == trim_spec(s@),
{
    let n = s.unicode_len();
    let mut a: usize = 0;
    proof {
        assert(s@.skip(0) =~= s@);
    }
    while a < n && char_is_space(s.get_char(a))
        invariant
            0 <= a <= n,
            n == s@.len(),
            trim_start_spec(s@) == trim_start_spec(s@.skip(a as int)),
        decreases n - a,
    {
        proof {
            assert(s@.skip(a as int)[0] == s@[a as int]);
            assert(s@.skip(a as int).skip(1) =~= s@.skip(a + 1));
        }
        a += 1;
    }
    proof {
        if a < n {
            assert(s@.skip(a as int)[0] == s@[a as int]);
        }
        assert(trim_start_spec(s@) =~= s@.subrange(a as int, n as int));
    }
    let mut b: usize = n;
    while b > a && char_is_space(s.get_char(b - 1))
        invariant
            a <= b <= n,
            n == s@.len(),
            trim_end_spec(s@.subrange(a as int, n as int)) == trim_end_spec(
                s@.subrange(a as int, b as int),
            ),
        decreases b,
    {
        proof {
            let t = s@.subrange(a as int, b as int);
            assert(t.last() == s@[b - 1]);
            assert(t.drop_last() =~= s@.subrange(a as int, b - 1));
        }
        b -= 1;
    }
    proof {
        let t = s@.subrange(a as int, b as int);
        if b > a {
            assert(t.last() == s@[b - 1]);
        }
        assert(trim_end_spec(s@.subrange(a as int, b as int)) == t);
    }
    let piece = s.substring_char(a, b);
    piece.to_owned()
}

/// Decides whether a received message is forwarded: the message is trimmed
/// of surrounding whitespace and dropped when nothing remains, so a blank
/// message is never published.
pub fn prepare_message(message: &str) -> (r: Option<String>)
    ensures
        r is Some <==> trim_spec(message@).len() > 0,
        r matches Some(t) ==> t@ == trim_spec(message@),
{
    let t = trim_str(message);
    if t.as_str().unicode_len() == 0 {
        None
    } else {
        Some(t)
    }
}

/// Relies on String::from_utf8: it succeeds exactly on valid UTF-8 input,
/// and the returned string holds the decoded characters of the bytes.
#[verifier::external_body]
fn string_from_utf8(v: Vec<u8>) -> (r: Option<String>)
    ensures
        r is Some <==> valid_utf8(v@),
        r matches Some(s) ==> s@ == decode_utf8(v@),
{
    String::from_utf8(v).ok()
}

/// The length at which a logged payload preview is cut.
pub const PREVIEW_LIMIT: usize = 100;

/// The log preview of a received payload: its text when the bytes are valid
/// UTF-8, cut after `PREVIEW_LIMIT` characters with a trailing ellipsis;
/// otherwise a placeholder naming the byte count.
pub fn payload_preview(body: Vec<u8>) -> (r: String)
    ensures
        valid_utf8(body@) && decode_utf8(body@).len() <= PREVIEW_LIMIT ==> r@ == decode_utf8(
            body@,
        ),
        valid_utf8(body@) && decode_utf8(body@).len() > PREVIEW_LIMIT ==> r@ == decode_utf8(
            body@,
        ).take(PREVIEW_LIMIT as int) + "..."@,
        !valid_utf8(body@) ==> r@ == "[binary data: "@ + dec_str(body@.len()) + " bytes]"@,
{
    let byte_count = body.len();
    match string_from_utf8(body) {
        Some(text) => {
            if text.as_str().unicode_len() > PREVIEW_LIMIT {
                let mut r = text.as_str().substring_char(0, PREVIEW_LIMIT).to_owned();
                r.append("...");
                proof {
                    assert(decode_utf8(body@).take(PREVIEW_LIMIT as int) =~= text@.subrange(
                        0,
                        PREVIEW_LIMIT as int,
                    ));
                }
                r
            } else {
                text
            }
        },
        None => {
            let mut r = String::from_str("[binary data: ");
            push_dec(&mut r, byte_count as u64);
            r.append(" bytes]");
            r
        },
    }
}

/// The answer to a publish request: the bridge is receive-only, so the
/// operation is unsupported and says so rather than silently doing nothing.
pub fn unsupported_publish() -> (r: Result<(), String>)
    ensures
        r matches Err(m) && m@
            == "publish is not supported: this provider is receive-only (reply-back deferred)"@,
{
    Err(String::from_str(
        "publish is not supported: this provider is receive-only (reply-back deferred)",
    ))
}

/// The answer to a request-reply request: the bridge is receive-only, so
/// the operation is unsupported and says so rather than silently doing
/// nothing.
pub fn unsupported_request() -> (r: Result<BrokerMessage, String>)
    ensures
        r matches Err(m) && m@
            == "request is not supported: this provider is receive-only (reply-back deferred)"@,
{
    Err(String::from_str(
        "request is not supported: this provider is receive-only (reply-back deferred)",
    ))
}

} // verus!
