//! Payload extraction for the stream readers: splitting buffered TCP bytes
//! into newline-delimited payloads, screening datagrams and lines for UTF-8
//! validity, and the per-event step relation that the reader loops follow.
//!
//! A reader owns one socket and yields payloads until the peer closes, a
//! read fails, or its link is cancelled; the host layer performs the blocking
//! reads and races them against cancellation, and hands every outcome to the
//! step functions here, which decide what is dispatched and whether the loop
//! ends.

use vstd::prelude::*;
use vstd::utf8::{
    valid_first_scalar, valid_leading_and_continuation_bytes_first_codepoint, valid_utf8,
};

verus! {

/// Decides UTF-8 validity of a byte sequence, as `vstd::utf8::valid_utf8`
/// defines it.
pub fn check_utf8(data: &Vec<u8>) -> (r: bool)
    ensures
        r == valid_utf8(data@),
{
    let n = data.len();
    let mut i: usize = 0;
    proof {
        assert(data@.skip(0) =~= data@);
    }
    while i < n
        invariant
            0 <= i <= n,
            n == data@.len(),
            valid_utf8(data@) == valid_utf8(data@.skip(i as int)),
        decreases n - i,
    {
        let ghost rem = data@.skip(i as int);
        proof {
            assert(rem.len() == n - i);
            assert(rem[0] == data@[i as int]);
        }
        let b0 = data[i];
        if b0 < 0x80 {
            // one-byte scalar
            proof {
                assert(valid_first_scalar(rem));
                assert(vstd::utf8::pop_first_scalar(rem) =~= data@.skip(i + 1));
            }
            i += 1;
        } else if 0xc0 <= b0 && b0 <= 0xdf {
            // two-byte scalar: one continuation byte, value at least 0x80
            if i + 1 >= n {
                proof {
                    assert(!valid_leading_and_continuation_bytes_first_codepoint(rem));
                }
                return false;
            }
            let b1 = data[i + 1];
            proof {
                assert(rem[1] == data@[i + 1]);
            }
            if !(0x80 <= b1 && b1 <= 0xbf) {
                proof {
                    assert(!valid_leading_and_continuation_bytes_first_codepoint(rem));
                }
                return false;
            }
            let cp: u32 = (((b0 & 0x1f) as u32) << 6) | ((b1 & 0x3f) as u32);
            proof {
                assert(cp == vstd::utf8::decode_first_codepoint(rem));
            }
            if cp < 0x80 {
                proof {
                    assert(!valid_first_scalar(rem));
                }
                return false;
            }
            proof {
                assert(cp <= 0x7ff) by (bit_vector)
                    requires
                        cp == (((b0 & 0x1f) as u32) << 6) | ((b1 & 0x3f) as u32),
                ;
                assert(valid_first_scalar(rem));
                assert(vstd::utf8::pop_first_scalar(rem) =~= data@.skip(i + 2));
            }
            i += 2;
        } else if 0xe0 <= b0 && b0 <= 0xef {
            // three-byte scalar: two continuation bytes, value at least 0x800
            // and outside the surrogate range
            if n - i < 3 {
                proof {
                    assert(!valid_leading_and_continuation_bytes_first_codepoint(rem));
                }
                return false;
            }
            let b1 = data[i + 1];
            let b2 = data[i + 2];
            proof {
                assert(rem[1] == data@[i + 1]);
                assert(rem[2] == data@[i + 2]);
            }
            if !(0x80 <= b1 && b1 <= 0xbf) || !(0x80 <= b2 && b2 <= 0xbf) {
                proof {
                    assert(!valid_leading_and_continuation_bytes_first_codepoint(rem));
                }
                return false;
            }
            let cp: u32 = (((b0 & 0x0f) as u32) << 12) | (((b1 & 0x3f) as u32) << 6) | ((b2
                & 0x3f) as u32);
            proof {
                assert(cp == vstd::utf8::decode_first_codepoint(rem));
            }
            if cp < 0x800 || (0xd800 <= cp && cp <= 0xdfff) {
                proof {
                    assert(!valid_first_scalar(rem));
                }
                return false;
            }
            proof {
                assert(valid_first_scalar(rem));
                assert(vstd::utf8::pop_first_scalar(rem) =~= data@.skip(i + 3));
            }
            i += 3;
        } else if 0xf0 <= b0 && b0 <= 0xf7 {
            // four-byte scalar: three continuation bytes, value in
            // 0x10000..=0x10ffff
            if n - i < 4 {
                proof {
                    assert(!valid_leading_and_continuation_bytes_first_codepoint(rem));
                }
                return false;
            }
            let b1 = data[i + 1];
            let b2 = data[i + 2];
            let b3 = data[i + 3];
            proof {
                assert(rem[1] == data@[i + 1]);
                assert(rem[2] == data@[i + 2]);
                assert(rem[3] == data@[i + 3]);
            }
            if !(0x80 <= b1 && b1 <= 0xbf) || !(0x80 <= b2 && b2 <= 0xbf) || !(0x80 <= b3 && b3
                <= 0xbf) {
                proof {
                    assert(!valid_leading_and_continuation_bytes_first_codepoint(rem));
                }
                return false;
            }
            let cp: u32 = (((b0 & 0x07) as u32) << 18) | (((b1 & 0x3f) as u32) << 12) | (((b2
                & 0x3f) as u32) << 6) | ((b3 & 0x3f) as u32);
            proof {
                assert(cp == vstd::utf8::decode_first_codepoint(rem));
            }
            if cp < 0x10000 || cp > 0x10ffff {
                proof {
                    assert(!valid_first_scalar(rem));
                }
                return false;
            }
            proof {
                assert(valid_first_scalar(rem));
                assert(vstd::utf8::pop_first_scalar(rem) =~= data@.skip(i + 4));
            }
            i += 4;
        } else {
            // a stray continuation byte or an out-of-range leading byte
            proof {
                assert(!valid_leading_and_continuation_bytes_first_codepoint(rem));
            }
            return false;
        }
    }
    proof {
        assert(data@.skip(n as int) =~= Seq::<u8>::empty());
    }
    true
}

/// The bytes after the last newline of `s`: the partial line still waiting
/// for its delimiter.
pub open spec fn line_rest(s: Seq<u8>) -> Seq<u8>
    decreases s.len(),
{
    if s.len() == 0 {
        Seq::empty()
    } else if s.last() == 10u8 {
        Seq::empty()
    } else {
        line_rest(s.drop_last()).push(s.last())
    }
}

/// The newline-terminated lines of `s`, in order, each without its
/// delimiter.
pub open spec fn complete_lines(s: Seq<u8>) -> Seq<Seq<u8>>
    decreases s.len(),
{
    if s.len() == 0 {
        Seq::empty()
    } else if s.last() == 10u8 {
        complete_lines(s.drop_last()).push(line_rest(s.drop_last()))
    } else {
        complete_lines(s.drop_last())
    }
}

/// Copies the byte range `a..b` out of a vector.
fn subvec(v: &Vec<u8>, a: usize, b: usize) -> (r: Vec<u8>)
    requires
        a <= b <= v@.len(),
    ensures
        r@ == v@.subrange(a as int, b as int),
{
    let mut r: Vec<u8> = Vec::new();
    let mut j: usize = a;
    while j < b
        invariant
            a <= j <= b <= v@.len(),
            r@ == v@.subrange(a as int, j as int),
        decreases b - j,
    {
        r.push(v[j]);
        proof {
            assert(r@ =~= v@.subrange(a as int, j + 1));
        }
        j += 1;
    }
    r
}

/// Splits the buffered bytes at every newline: returns the complete lines,
/// in arrival order, and leaves the trailing partial line in the buffer.
pub fn extract_lines(buf: &mut Vec<u8>) -> (lines: Vec<Vec<u8>>)
    ensures
        lines.deep_view() == complete_lines(old(buf)@),
        final(buf)@ == line_rest(old(buf)@),
{
    let ghost whole = buf@;
    let n = buf.len();
    let mut lines: Vec<Vec<u8>> = Vec::new();
    let mut start: usize = 0;
    let mut i: usize = 0;
    while i < n
        invariant
            0 <= start <= i <= n,
            n == buf@.len(),
            buf@ == whole,
            lines.deep_view() == complete_lines(whole.take(i as int)),
            whole.subrange(start as int, i as int) == line_rest(whole.take(i as int)),
        decreases n - i,
    {
        proof {
            assert(whole.take(i + 1).drop_last() =~= whole.take(i as int));
            assert(whole.take(i + 1).last() == whole[i as int]);
        }
        if buf[i] == 10 {
            let line = subvec(buf, start, i);
            let ghost pre = lines.deep_view();
            lines.push(line);
            proof {
                assert(lines.deep_view() =~~= pre.push(line@));
                assert(lines.deep_view() =~~= complete_lines(whole.take(i + 1)));
                assert(whole.subrange(i + 1, i + 1) =~= line_rest(whole.take(i + 1)));
            }
            start = i + 1;
        } else {
            proof {
                assert(whole.subrange(start as int, i + 1) =~= whole.subrange(
                    start as int,
                    i as int,
                ).push(whole[i as int]));
            }
        }
        i += 1;
    }
    proof {
        assert(whole.take(n as int) =~= whole);
    }
    let rest = subvec(buf, start, n);
    *buf = rest;
    lines
}

/// A line payload with a single trailing carriage return removed.
pub open spec fn strip_cr(l: Seq<u8>) -> Seq<u8> {
    if l.len() > 0 && l.last() == 13u8 {
        l.drop_last()
    } else {
        l
    }
}

/// A datagram payload with a single trailing line ending removed: one final
/// newline, then one final carriage return.
pub open spec fn chomp(l: Seq<u8>) -> Seq<u8> {
    strip_cr(
        if l.len() > 0 && l.last() == 10u8 {
            l.drop_last()
        } else {
            l
        },
    )
}

/// The payloads delivered for a sequence of raw lines: each line loses one
/// trailing carriage return, and a line that is not valid UTF-8 is dropped.
pub open spec fn line_payloads(lines: Seq<Seq<u8>>) -> Seq<Seq<u8>>
    decreases lines.len(),
{
    if lines.len() == 0 {
        Seq::empty()
    } else {
        let p = line_payloads(lines.drop_last());
        let t = strip_cr(lines.last());
        if valid_utf8(t) {
            p.push(t)
        } else {
            p
        }
    }
}

/// Turns raw lines into payloads, stripping one trailing carriage return
/// from each and dropping lines that are not valid UTF-8.
pub fn payloads_of_lines(lines: Vec<Vec<u8>>) -> (r: Vec<Vec<u8>>)
    ensures
        r.deep_view() == line_payloads(lines.deep_view()),
{
    let ghost all = lines.deep_view();
    let mut r: Vec<Vec<u8>> = Vec::new();
    let mut i: usize = 0;
    let n = lines.len();
    while i < n
        invariant
            0 <= i <= n,
            n == all.len(),
            all == lines.deep_view(),
            n == lines@.len(),
            r.deep_view() == line_payloads(all.take(i as int)),
        decreases n - i,
    {
        proof {
            assert(all.take(i + 1).drop_last() =~= all.take(i as int));
            assert(all.take(i + 1).last() == all[i as int]);
            assert(lines@[i as int]@ == all[i as int]);
        }
        let mut l = subvec(&lines[i], 0, lines[i].len());
        proof {
            assert(l@ =~= all[i as int]);
        }
        if l.len() > 0 && l[l.len() - 1] == 13 {
            let _ = l.pop();
            proof {
                assert(l@ =~= strip_cr(all[i as int]));
            }
        }
        proof {
            assert(l@ == strip_cr(all[i as int]));
        }
        if check_utf8(&l) {
            let ghost pre = r.deep_view();
            r.push(l);
            proof {
                assert(r.deep_view() =~~= pre.push(strip_cr(all[i as int])));
            }
        }
        i += 1;
    }
    proof {
        assert(all.take(n as int) =~= all);
    }
    r
}

/// What a reader observes in one turn of its loop: the cancellation signal
/// fired, the peer closed the connection, the read failed, or a read handed
/// back bytes.
pub enum ReaderEvent {
    Cancelled,
    Closed,
    Failed,
    Data(Vec<u8>),
}

/// What one turn of a reader loop decides: the payloads to dispatch, in
/// order, and whether the loop ends.
pub struct StepOutcome {
    pub payloads: Vec<Vec<u8>>,
    pub stop: bool,
}

/// The payload flushed when a TCP stream ends with an unterminated line:
/// the leftover bytes, under the same trimming and UTF-8 check as a complete
/// line, or nothing when the buffer is empty.
pub open spec fn flush_payloads(rest: Seq<u8>) -> Seq<Seq<u8>> {
    if rest.len() == 0 {
        Seq::empty()
    } else if valid_utf8(strip_cr(rest)) {
        seq![strip_cr(rest)]
    } else {
        Seq::empty()
    }
}

/// One turn of the TCP reader loop. `buf` carries the bytes read but not yet
/// delimited. Received bytes never stop the loop: every complete line found
/// becomes a payload, in order. The peer closing flushes the final partial
/// line; cancellation and read failure end the loop at once. On every exit
/// the buffer is released.
pub fn tcp_reader_step(buf: &mut Vec<u8>, event: ReaderEvent) -> (out: StepOutcome)
    ensures
        match event {
            ReaderEvent::Cancelled => out.stop && out.payloads@.len() == 0 && final(buf)@.len()
                == 0,
            ReaderEvent::Failed => out.stop && out.payloads@.len() == 0 && final(buf)@.len() == 0,
            ReaderEvent::Closed => out.stop && final(buf)@.len() == 0 && out.payloads.deep_view()
                == flush_payloads(old(buf)@),
            ReaderEvent::Data(d) => !out.stop && final(buf)@ == line_rest(old(buf)@ + d@)
                && out.payloads.deep_view() == line_payloads(complete_lines(old(buf)@ + d@)),
        },
{
    match event {
        ReaderEvent::Cancelled => {
            buf.clear();
            StepOutcome { payloads: Vec::new(), stop: true }
        },
        ReaderEvent::Failed => {
            buf.clear();
            StepOutcome { payloads: Vec::new(), stop: true }
        },
        ReaderEvent::Closed => {
            let rest = buf.split_off(0);
            let mut payloads: Vec<Vec<u8>> = Vec::new();
            if rest.len() > 0 {
                let mut l = rest;
                if l[l.len() - 1] == 13 {
                    let _ = l.pop();
                }
                proof {
                    assert(l@ == strip_cr(old(buf)@));
                }
                if check_utf8(&l) {
                    payloads.push(l);
                    proof {
                        assert(payloads.deep_view() =~~= flush_payloads(old(buf)@));
                    }
                } else {
                    proof {
                        assert(payloads.deep_view() =~~= flush_payloads(old(buf)@));
                    }
                }
            } else {
                proof {
                    assert(payloads.deep_view() =~~= flush_payloads(old(buf)@));
                }
            }
            StepOutcome { payloads, stop: true }
        },
        ReaderEvent::Data(d) => {
            let mut combined = buf.split_off(0);
            let mut tail = d;
            combined.append(&mut tail);
            proof {
                assert(combined@ == old(buf)@ + d@);
            }
            let lines = extract_lines(&mut combined);
            let payloads = payloads_of_lines(lines);
            *buf = combined;
            StepOutcome { payloads, stop: false }
        },
    }
}

/// One turn of the UDP reader loop. A datagram that is valid UTF-8 becomes
/// exactly one payload, with a single trailing line ending removed; one that
/// is not yields no payload, and in neither case does the loop end, so later
/// datagrams are still processed. Cancellation and a receive failure end the
/// loop; a UDP socket has no peer-closed state, and that event also ends it.
pub fn udp_reader_step(event: ReaderEvent) -> (out: StepOutcome)
    ensures
        match event {
            ReaderEvent::Cancelled => out.stop && out.payloads@.len() == 0,
            ReaderEvent::Failed => out.stop && out.payloads@.len() == 0,
            ReaderEvent::Closed => out.stop && out.payloads@.len() == 0,
            ReaderEvent::Data(d) => !out.stop && out.payloads.deep_view() == (if valid_utf8(d@) {
                seq![chomp(d@)]
            } else {
                Seq::<Seq<u8>>::empty()
            }),
        },
{
    match event {
        ReaderEvent::Cancelled => StepOutcome { payloads: Vec::new(), stop: true },
        ReaderEvent::Failed => StepOutcome { payloads: Vec::new(), stop: true },
        ReaderEvent::Closed => StepOutcome { payloads: Vec::new(), stop: true },
        ReaderEvent::Data(d) => {
            let mut payloads: Vec<Vec<u8>> = Vec::new();
            if check_utf8(&d) {
                let mut l = d;
                if l.len() > 0 && l[l.len() - 1] == 10 {
                    let _ = l.pop();
                }
                if l.len() > 0 && l[l.len() - 1] == 13 {
                    let _ = l.pop();
                }
                proof {
                    assert(l@ == chomp(d@));
                }
                payloads.push(l);
                proof {
                    assert(payloads.deep_view() =~~= seq![chomp(d@)]);
                }
            }
            StepOutcome { payloads, stop: false }
        },
    }
}

} // verus!
