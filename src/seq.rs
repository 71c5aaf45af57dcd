use vstd::prelude::*;

verus! {

/// Forward distance from `a` to `b` on the sequence-number ring.
pub open spec fn dist(a: u32, b: u32) -> int {
    if a <= b {
        b - a
    } else {
        b - a + 0x1_0000_0000
    }
}

/// `x` lies strictly after `start` and strictly before `end`, walking
/// forward from `start` around the sequence-number ring.
pub open spec fn between(start: u32, x: u32, end: u32) -> bool {
    0 < dist(start, x) && dist(start, x) < dist(start, end)
}

/// Wrap-aware test that `x` lies strictly between `start` and `end`.
pub fn is_between_wrapped(start: u32, x: u32, end: u32) -> (r: bool)
    ensures
        r == between(start, x, end),
{
    if start == x {
        false
    } else if start < x {
        !(end >= start && end <= x)
    } else {
        end > x && end < start
    }
}

/// `a + k` on the sequence-number ring, as `u32::wrapping_add` computes it.
pub open spec fn seq_add(a: u32, k: u32) -> u32 {
    if a + k > u32::MAX {
        (a + k - 0x1_0000_0000) as u32
    } else {
        (a + k) as u32
    }
}

/// `a - k` on the sequence-number ring, as `u32::wrapping_sub` computes it.
pub open spec fn seq_sub(a: u32, k: u32) -> u32 {
    if a - k < 0 {
        (a - k + 0x1_0000_0000) as u32
    } else {
        (a - k) as u32
    }
}

/// Sequence-space length of a segment: its payload plus one for each of
/// SYN and FIN.
pub open spec fn seg_len(payload_len: nat, syn: bool, fin: bool) -> int {
    payload_len + (if syn { 1int } else { 0int }) + (if fin { 1int } else { 0int })
}

/// RFC 793 segment acceptability for a receive window starting at `nxt`
/// of `wnd` numbers: a segment is acceptable when its first or its last
/// sequence number falls inside the window; an empty segment when its
/// sequence number does, or equals `nxt` when the window is closed.
pub open spec fn acceptable(nxt: u32, wnd: u16, seq: u32, slen: u32) -> bool {
    if slen == 0 {
        if wnd == 0 {
            seq == nxt
        } else {
            dist(nxt, seq) < wnd
        }
    } else {
        wnd != 0 && (dist(nxt, seq) < wnd || dist(nxt, seq_add(seq, (slen - 1) as u32)) < wnd)
    }
}

/// With an open window, "strictly between `nxt - 1` and `nxt + wnd`" is
/// "less than `wnd` past `nxt`".
pub proof fn lemma_window_between(nxt: u32, wnd: u16, x: u32)
    requires
        wnd > 0,
    ensures
        between(seq_sub(nxt, 1), x, seq_add(nxt, wnd as u32)) == (dist(nxt, x) < wnd),
{
}

/// Whether a segment starting at `seq` and `slen` numbers long is acceptable
/// in the receive window `[nxt, nxt + wnd)`.
pub fn segment_acceptable(nxt: u32, wnd: u16, seq: u32, slen: u32) -> (r: bool)
    ensures
        r == acceptable(nxt, wnd, seq, slen),
{
    let start = nxt.wrapping_sub(1);
    let wend = nxt.wrapping_add(wnd as u32);
    if wnd > 0 {
        proof {
            lemma_window_between(nxt, wnd, seq);
            lemma_window_between(nxt, wnd, seq_add(seq, (slen - 1) as u32));
        }
    }
    if slen == 0 {
        if wnd == 0 {
            seq == nxt
        } else {
            is_between_wrapped(start, seq, wend)
        }
    } else if wnd == 0 {
        false
    } else {
        is_between_wrapped(start, seq, wend) || is_between_wrapped(start, seq.wrapping_add(slen - 1), wend)
    }
}

/// Walking from a start that equals the point itself never lands strictly
/// between; and where no wrap-around is involved (`a <= c`, all three in the
/// lower half of the sequence space) the wrap-aware test is the plain
/// `a < b < c`.
pub proof fn lemma_between_plain(a: u32, b: u32, c: u32)
    ensures
        !between(a, a, c),
        a < 0x8000_0000 && b < 0x8000_0000 && c < 0x8000_0000 && a <= c ==> (between(a, b, c) == (
        a < b && b < c)),
{
}

/// Widening the receive window never turns an acceptable segment away.
pub proof fn lemma_acceptable_monotone(nxt: u32, w: u16, w2: u16, seq: u32, slen: u32)
    requires
        acceptable(nxt, w, seq, slen),
        w <= w2,
    ensures
        acceptable(nxt, w2, seq, slen),
{
}

} // verus!
