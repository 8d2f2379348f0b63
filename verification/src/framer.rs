//! The framer: recovers fixed-format packets from the bytes of fragmented
//! serial reads, and finds its way back to a packet boundary after corruption.

use vstd::prelude::*;
use crate::can_protocol::{byte_sum, checksum, checksum_ok, verify_checksum};

verus! {

/// The buffer may grow to this many bytes while its first twenty fail their
/// checksum and no later header is in sight; beyond it one byte is dropped.
pub const OVERFLOW_BOUND: usize = 200;

/// Whether the header `AA 55` stands at position `i` of `s`.
pub open spec fn header_at(s: Seq<u8>, i: int) -> bool {
    0 <= i && i + 1 < s.len() && s[i] == 0xAA && s[i + 1] == 0x55
}

/// The first position at or behind `from` where the header stands in `s`.
pub open spec fn find_header(s: Seq<u8>, from: int) -> Option<int>
    decreases s.len() - from,
{
    if from < 0 || from + 1 >= s.len() {
        None
    } else if header_at(s, from) {
        Some(from)
    } else {
        find_header(s, from + 1)
    }
}

/// What is kept of a buffer without a header: a last byte `AA`, which may
/// begin one, and nothing else.
pub open spec fn header_start(s: Seq<u8>) -> Seq<u8> {
    if s.len() > 0 && s.last() == 0xAA {
        seq![0xAAu8]
    } else {
        Seq::empty()
    }
}

/// The buffer from its first header on, or, without a header, what may begin
/// one.
pub open spec fn align(s: Seq<u8>) -> Seq<u8> {
    match find_header(s, 0) {
        Some(p) => s.skip(p),
        None => header_start(s),
    }
}

/// What the framer decides on one look at the buffer.
pub struct StepModel {
    /// The packet that was recovered, if one was.
    pub packet: Option<Seq<u8>>,
    /// What stays in the buffer.
    pub rest: Seq<u8>,
    /// Whether another look may decide more; if not, more bytes are needed.
    pub again: bool,
}

pub open spec fn wait(rest: Seq<u8>) -> StepModel {
    StepModel { packet: None, rest, again: false }
}

pub open spec fn discard(rest: Seq<u8>) -> StepModel {
    StepModel { packet: None, rest, again: true }
}

pub open spec fn accept(b: Seq<u8>) -> StepModel {
    StepModel { packet: Some(b.take(20)), rest: b.skip(20), again: true }
}

/// One look at a buffer `b` that begins with a header.
///
/// With a next header at offset 20, the first twenty bytes are a packet if
/// their checksum holds and are discarded if not. With a next header
/// elsewhere, everything before it is discarded. Without a next header,
/// twenty bytes whose checksum holds are a packet; otherwise the buffer waits
/// for more bytes, but gives up its first byte once it is longer than
/// `OVERFLOW_BOUND`.
pub open spec fn step_aligned(b: Seq<u8>) -> StepModel {
    match find_header(b, 2) {
        Some(q) => if q == 20 {
            if checksum_ok(b) {
                accept(b)
            } else {
                discard(b.skip(20))
            }
        } else {
            discard(b.skip(q))
        },
        None => if b.len() >= 20 && checksum_ok(b) {
            accept(b)
        } else if b.len() > OVERFLOW_BOUND {
            discard(b.skip(1))
        } else {
            wait(b)
        },
    }
}

/// One look at a buffer: everything before the first header is discarded;
/// without a header the buffer keeps what may begin one and waits.
pub open spec fn step(s: Seq<u8>) -> StepModel {
    if find_header(s, 0) is Some {
        step_aligned(align(s))
    } else {
        wait(align(s))
    }
}

/// What a pass over a buffer recovers and leaves.
pub struct PassModel {
    /// The packets that were recovered, in the order of their arrival.
    pub packets: Seq<Seq<u8>>,
    /// What stays in the buffer.
    pub rest: Seq<u8>,
}

/// A pass over a buffer: looks are taken until one asks for more bytes.
pub open spec fn pass(s: Seq<u8>) -> PassModel
    decreases s.len(),
    via pass_decreases
{
    let st = step(s);
    if !st.again {
        PassModel { packets: Seq::empty(), rest: st.rest }
    } else {
        let later = pass(st.rest);
        match st.packet {
            Some(p) => PassModel { packets: seq![p] + later.packets, rest: later.rest },
            None => later,
        }
    }
}

#[via_fn]
proof fn pass_decreases(s: Seq<u8>) {
    lemma_step_shrinks(s);
}

/// Where `find_header` finds a header, one stands, at or behind `from`, and
/// none stands between `from` and it.
pub proof fn lemma_find_header_some(s: Seq<u8>, from: int)
    requires
        find_header(s, from) is Some,
    ensures
        from <= find_header(s, from).unwrap(),
        header_at(s, find_header(s, from).unwrap()),
        forall|x: int| from <= x < find_header(s, from).unwrap() ==> !header_at(s, x),
    decreases s.len() - from,
{
    if !header_at(s, from) {
        lemma_find_header_some(s, from + 1);
    }
}

/// Where `find_header` finds none, none stands at or behind `from`.
pub proof fn lemma_find_header_none(s: Seq<u8>, from: int)
    requires
        0 <= from,
        find_header(s, from) is None,
    ensures
        forall|x: int| from <= x ==> !header_at(s, x),
    decreases s.len() - from,
{
    if from + 1 < s.len() {
        lemma_find_header_none(s, from + 1);
    }
}

/// The first header at or behind `from` is what `find_header` finds.
pub proof fn lemma_find_header_first(s: Seq<u8>, from: int, p: int)
    requires
        0 <= from <= p,
        header_at(s, p),
        forall|x: int| from <= x < p ==> !header_at(s, x),
    ensures
        find_header(s, from) == Some(p),
    decreases p - from,
{
    if from < p {
        lemma_find_header_first(s, from + 1, p);
    }
}

/// Without a header at or behind `from`, `find_header` finds none.
pub proof fn lemma_find_header_absent(s: Seq<u8>, from: int)
    requires
        forall|x: int| from <= x ==> !header_at(s, x),
    ensures
        find_header(s, from) is None,
    decreases s.len() - from,
{
    if 0 <= from && from + 1 < s.len() {
        lemma_find_header_absent(s, from + 1);
    }
}

/// A look that may be followed by another leaves a shorter buffer.
pub proof fn lemma_step_shrinks(s: Seq<u8>)
    ensures
        step(s).rest.len() <= s.len(),
        step(s).again ==> step(s).rest.len() < s.len(),
{
    if find_header(s, 0) is Some {
        lemma_find_header_some(s, 0);
        let b = align(s);
        if find_header(b, 2) is Some {
            lemma_find_header_some(b, 2);
        }
    }
}

fn find_header_from(buf: &Vec<u8>, from: usize) -> (r: Option<usize>)
    ensures
        match find_header(buf@, from as int) {
            Some(p) => r == Some(p as usize) && from <= p && p + 1 < buf.len(),
            None => r is None,
        },
{
    let mut i: usize = from;
    while i < buf.len() && i + 1 < buf.len()
        invariant
            from <= i,
            find_header(buf@, from as int) == find_header(buf@, i as int),
        decreases buf.len() - i,
    {
        if buf[i] == 0xAA && buf[i + 1] == 0x55 {
            return Some(i);
        }
        i += 1;
    }
    None
}

/// Drops the first `n` bytes of `buf`.
fn discard_front(buf: &mut Vec<u8>, n: usize)
    requires
        n <= old(buf)@.len(),
    ensures
        final(buf)@ == old(buf)@.skip(n as int),
{
    let rest = buf.split_off(n);
    *buf = rest;
}

/// Brings the first header of the buffer to its front and says whether there
/// is one. Without a header the buffer keeps a last byte `AA` and nothing
/// else.
pub fn find_and_align_message_header(message_buffer: &mut Vec<u8>) -> (found: bool)
    ensures
        found == find_header(old(message_buffer)@, 0) is Some,
        final(message_buffer)@ == align(old(message_buffer)@),
{
    match find_header_from(message_buffer, 0) {
        Some(pos) => {
            discard_front(message_buffer, pos);
            true
        },
        None => {
            let n = message_buffer.len();
            if n > 0 && message_buffer[n - 1] == 0xAA {
                discard_front(message_buffer, n - 1);
                assert(message_buffer@ =~= header_start(old(message_buffer)@));
            } else {
                message_buffer.clear();
            }
            false
        },
    }
}

/// What the framer decided on one look at the buffer.
#[derive(Debug)]
pub enum FramerStep {
    /// Nothing can be decided before more bytes arrive.
    NeedMoreData,
    /// Bytes were discarded; another look may decide more.
    Discarded,
    /// Twenty bytes passed as a packet; another look may decide more.
    Packet(Vec<u8>),
}

/// Takes one look at the buffer.
pub fn next_step(buffer: &mut Vec<u8>) -> (r: FramerStep)
    ensures
        final(buffer)@ == step(old(buffer)@).rest,
        match r {
            FramerStep::NeedMoreData => !step(old(buffer)@).again,
            FramerStep::Discarded => step(old(buffer)@).again && step(old(buffer)@).packet is None,
            FramerStep::Packet(p) => step(old(buffer)@).again && step(old(buffer)@).packet == Some(
                p@,
            ),
        },
{
    if !find_and_align_message_header(buffer) {
        return FramerStep::NeedMoreData;
    }
    let ghost b = buffer@;
    proof {
        lemma_find_header_some(old(buffer)@, 0);
    }
    match find_header_from(buffer, 2) {
        Some(pos) => {
            if pos == 20 {
                if verify_checksum(buffer.as_slice()) {
                    let mut packet = buffer.split_off(20);
                    std::mem::swap(buffer, &mut packet);
                    assert(packet@ =~= b.take(20));
                    assert(buffer@ =~= b.skip(20));
                    FramerStep::Packet(packet)
                } else {
                    discard_front(buffer, 20);
                    FramerStep::Discarded
                }
            } else {
                discard_front(buffer, pos);
                FramerStep::Discarded
            }
        },
        None => {
            if buffer.len() >= 20 && verify_checksum(buffer.as_slice()) {
                let mut packet = buffer.split_off(20);
                std::mem::swap(buffer, &mut packet);
                assert(packet@ =~= b.take(20));
                assert(buffer@ =~= b.skip(20));
                FramerStep::Packet(packet)
            } else if buffer.len() > OVERFLOW_BOUND {
                discard_front(buffer, 1);
                FramerStep::Discarded
            } else {
                FramerStep::NeedMoreData
            }
        },
    }
}

/// A well-formed packet: twenty bytes that begin with the header and end with
/// the checksum of the seventeen bytes in between.
pub open spec fn is_packet(p: Seq<u8>) -> bool {
    p.len() == 20 && header_at(p, 0) && checksum_ok(p)
}

/// The header stands at the start of `p` and nowhere else in it.
pub open spec fn header_only_at_start(p: Seq<u8>) -> bool {
    header_at(p, 0) && forall|x: int| 1 <= x ==> !header_at(p, x)
}

/// Behind `d` bytes that are dropped, the header stands where it stood `d`
/// bytes later before.
pub proof fn lemma_header_at_skip(u: Seq<u8>, d: int, x: int)
    requires
        0 <= d <= u.len(),
        0 <= x,
    ensures
        header_at(u.skip(d), x) == header_at(u, x + d),
{
}

/// Two passes that begin with the same look are the same.
pub proof fn lemma_pass_by_step(x: Seq<u8>, y: Seq<u8>)
    requires
        step(x) == step(y),
    ensures
        pass(x) == pass(y),
{
}

/// Dropping bytes before the first header changes nothing of what
/// `find_header` tells: it finds a header behind them or none at all.
pub proof fn lemma_find_header_skip(u: Seq<u8>, d: int)
    requires
        0 <= d <= u.len(),
        forall|x: int| 0 <= x < d ==> !header_at(u, x),
    ensures
        match find_header(u, 0) {
            Some(p) => d <= p && find_header(u.skip(d), 0) == Some(p - d),
            None => find_header(u.skip(d), 0) is None,
        },
{
    let v = u.skip(d);
    match find_header(u, 0) {
        Some(p) => {
            lemma_find_header_some(u, 0);
            assert(d <= p);
            assert forall|x: int| 0 <= x < p - d implies !header_at(v, x) by {
                lemma_header_at_skip(u, d, x);
            }
            lemma_header_at_skip(u, d, p - d);
            lemma_find_header_first(v, 0, p - d);
        },
        None => {
            lemma_find_header_none(u, 0);
            assert forall|x: int| 0 <= x implies !header_at(v, x) by {
                lemma_header_at_skip(u, d, x);
            }
            lemma_find_header_absent(v, 0);
        },
    }
}

/// A pass over a buffer with a header is the pass over the buffer from that
/// header on.
pub proof fn lemma_pass_from_header(u: Seq<u8>)
    requires
        find_header(u, 0) is Some,
    ensures
        step(u) == step(align(u)),
        pass(u) == pass(align(u)),
{
    let p = find_header(u, 0).unwrap();
    lemma_find_header_some(u, 0);
    lemma_find_header_skip(u, p);
    let v = u.skip(p);
    assert(find_header(v, 0) == Some(0int));
    assert(v.skip(0) =~= v);
    lemma_pass_by_step(u, v);
}

/// A pass over nothing recovers nothing.
pub proof fn lemma_pass_empty()
    ensures
        pass(Seq::empty()) == (PassModel { packets: Seq::empty(), rest: Seq::empty() }),
{
    let e = Seq::<u8>::empty();
    assert(find_header(e, 0) is None);
    assert(step(e) == wait(e));
}

/// A pass over one well-formed packet without a second header in it recovers
/// that packet and leaves nothing.
pub proof fn lemma_pass_single_packet(p: Seq<u8>)
    requires
        is_packet(p),
        header_only_at_start(p),
    ensures
        pass(p) == (PassModel { packets: seq![p], rest: Seq::empty() }),
{
    lemma_find_header_first(p, 0, 0);
    assert(p.skip(0) =~= p);
    lemma_find_header_absent(p, 2);
    assert(step(p) == accept(p));
    assert(p.take(20) =~= p);
    assert(p.skip(20) =~= Seq::<u8>::empty());
    lemma_pass_empty();
    assert(seq![p] + Seq::<Seq<u8>>::empty() =~= seq![p]);
}

/// Changing one byte changes the sum by the difference.
pub proof fn lemma_byte_sum_update(s: Seq<u8>, i: int, v: u8)
    requires
        0 <= i < s.len(),
    ensures
        byte_sum(s.update(i, v)) == byte_sum(s) - s[i] + v,
    decreases s.len(),
{
    let t = s.update(i, v);
    if i == s.len() - 1 {
        assert(t.drop_last() =~= s.drop_last());
    } else {
        lemma_byte_sum_update(s.drop_last(), i, v);
        assert(t.drop_last() =~= s.drop_last().update(i, v));
    }
}

/// A well-formed packet with one byte changed behind its header fails its
/// checksum.
pub proof fn lemma_corruption_breaks_checksum(good: Seq<u8>, at: int, byte: u8)
    requires
        is_packet(good),
        2 <= at < 20,
        byte != good[at],
    ensures
        !checksum_ok(good.update(at, byte)),
{
    let bad = good.update(at, byte);
    if at == 19 {
        assert(bad.subrange(2, 19) =~= good.subrange(2, 19));
    } else {
        lemma_byte_sum_update(good.subrange(2, 19), at - 2, byte);
        assert(bad.subrange(2, 19) =~= good.subrange(2, 19).update(at - 2, byte));
    }
}

/// In a buffer of forty bytes whose last twenty are a well-formed packet
/// without a second header in it, and whose first twenty do not pass as a
/// packet, a pass from any header at or before that packet recovers that
/// packet alone and leaves nothing.
proof fn lemma_pass_reaches_next(s: Seq<u8>, p: int)
    requires
        s.len() == 40,
        is_packet(s.skip(20)),
        header_only_at_start(s.skip(20)),
        header_at(s, 0) ==> !checksum_ok(s),
        0 <= p <= 20,
        header_at(s, p),
    ensures
        pass(s.skip(p)) == (PassModel { packets: seq![s.skip(20)], rest: Seq::empty() }),
    decreases 20 - p,
{
    let next = s.skip(20);
    if p == 20 {
        lemma_pass_single_packet(next);
    } else {
        let b = s.skip(p);
        lemma_header_at_skip(s, p, 0);
        lemma_find_header_first(b, 0, 0);
        assert(b.skip(0) =~= b);
        assert(step(b) == step_aligned(b));
        lemma_header_at_skip(s, 20, 0);
        assert(s[20] == 0xAA);
        assert(p <= 18);
        lemma_header_at_skip(s, p, 20 - p);
        if find_header(b, 2) is None {
            lemma_find_header_none(b, 2);
        }
        lemma_find_header_some(b, 2);
        let q = find_header(b, 2).unwrap();
        assert(2 <= q <= 20 - p);
        lemma_header_at_skip(s, p, q);
        assert(b.skip(q) =~= s.skip(p + q));
        if q == 20 {
            assert(b =~= s);
            assert(step(b) == discard(b.skip(20)));
        } else {
            assert(step(b) == discard(b.skip(q)));
        }
        lemma_pass_reaches_next(s, p + q);
    }
}

/// A packet with one corrupted byte, followed by a well-formed packet without
/// a second header in it: a pass recovers the second packet and nothing
/// else, and leaves nothing.
pub proof fn lemma_corrupted_packet_is_skipped(good: Seq<u8>, at: int, byte: u8, next: Seq<u8>)
    requires
        is_packet(good),
        0 <= at < 20,
        byte != good[at],
        is_packet(next),
        header_only_at_start(next),
    ensures
        pass(good.update(at, byte) + next) == (PassModel {
            packets: seq![next],
            rest: Seq::empty(),
        }),
{
    let bad = good.update(at, byte);
    let s = bad + next;
    assert(s.skip(20) =~= next);
    if header_at(s, 0) {
        assert(at >= 2);
        lemma_corruption_breaks_checksum(good, at, byte);
        assert(s.subrange(2, 19) =~= bad.subrange(2, 19));
    }
    lemma_header_at_skip(s, 20, 0);
    if find_header(s, 0) is None {
        lemma_find_header_none(s, 0);
    }
    lemma_find_header_some(s, 0);
    let p = find_header(s, 0).unwrap();
    assert(p <= 20);
    lemma_pass_from_header(s);
    lemma_pass_reaches_next(s, p);
}

/// The `k`-th block of twenty bytes of `s`.
pub open spec fn block(s: Seq<u8>, k: int) -> Seq<u8> {
    s.subrange(20 * k, 20 * k + 20)
}

/// A stream of the fixed format: whole blocks of twenty bytes, each of them a
/// well-formed packet.
pub open spec fn packet_stream(s: Seq<u8>) -> bool {
    s.len() % 20 == 0 && forall|k: int| 0 <= k < s.len() / 20 ==> is_packet(#[trigger] block(s, k))
}

/// In a stream of packets a header stands at the start of every block.
proof fn lemma_stream_header(s: Seq<u8>, t: int)
    requires
        packet_stream(s),
        0 <= t < s.len(),
        t % 20 == 0,
    ensures
        header_at(s, t),
        t + 20 <= s.len(),
{
    let k = t / 20;
    assert(is_packet(block(s, k)));
    assert(block(s, k)[0] == s[t]);
    assert(block(s, k)[1] == s[t + 1]);
}

/// In a stream of packets, a header with twenty bytes behind its start and no
/// later header among them stands at the start of a block.
proof fn lemma_header_on_boundary(s: Seq<u8>, x: int, j: int)
    requires
        packet_stream(s),
        header_at(s, x),
        x + 20 <= j <= s.len(),
        forall|y: int| x + 2 <= y && y + 1 < j ==> !header_at(s, y),
    ensures
        x % 20 == 0,
{
    let o = x % 20;
    if o == 1 {
        lemma_stream_header(s, x - 1);
    } else if o == 19 {
        lemma_stream_header(s, x + 1);
    } else if o != 0 {
        lemma_stream_header(s, x + 20 - o);
    }
}

/// In a stream of packets, a header with twenty-two bytes behind its start is
/// followed by another within twenty bytes.
proof fn lemma_next_header_near(s: Seq<u8>, x: int, j: int) -> (y: int)
    requires
        packet_stream(s),
        header_at(s, x),
        x + 22 <= j <= s.len(),
    ensures
        x + 2 <= y <= x + 20,
        y + 1 < j,
        header_at(s, y),
{
    let o = x % 20;
    let t = x + 20 - o;
    lemma_stream_header(s, t);
    t
}

/// The header stands in a part of `s` where it stands in `s`, as far as the
/// part reaches.
proof fn lemma_header_at_subrange(s: Seq<u8>, i: int, j: int, x: int)
    requires
        0 <= i <= j <= s.len(),
        0 <= x,
    ensures
        header_at(s.subrange(i, j), x) == (header_at(s, x + i) && x + i + 1 < j),
{
}

/// Bytes behind a buffer do not change the first header that it holds.
proof fn lemma_find_header_extend(a: Seq<u8>, c: Seq<u8>, from: int)
    requires
        find_header(a, from) is Some,
    ensures
        find_header(a + c, from) == find_header(a, from),
{
    lemma_find_header_some(a, from);
    let p = find_header(a, from).unwrap();
    assert forall|x: int| from <= x < p implies !header_at(a + c, x) by {
        assert(header_at(a + c, x) == header_at(a, x));
    }
    assert(header_at(a + c, p));
    lemma_find_header_first(a + c, from, p);
}

/// A buffer without a header may be cut down to what may begin one before
/// more bytes arrive: the next look decides the same.
proof fn lemma_headerless_front(a: Seq<u8>, c: Seq<u8>)
    requires
        find_header(a, 0) is None,
    ensures
        step(header_start(a) + c) == step(a + c),
{
    let u = a + c;
    let t = header_start(a);
    let v = t + c;
    let d = a.len() - t.len();
    lemma_find_header_none(a, 0);
    assert forall|x: int| 0 <= x < d implies !header_at(u, x) by {
        if x + 1 < a.len() {
            assert(header_at(u, x) == header_at(a, x));
        }
    }
    assert(u.skip(d) =~= v);
    lemma_find_header_skip(u, d);
    match find_header(u, 0) {
        Some(p) => {
            lemma_find_header_some(u, 0);
            assert(d <= p && p + 1 < u.len());
            assert(u.skip(d).skip(p - d) =~= u.skip(p));
        },
        None => {
            if c.len() == 0 {
                assert(u =~= a);
                assert(v =~= t);
            }
            assert(header_start(u) =~= header_start(v));
        },
    }
}

/// Whether a pass over `a`, and then, once the bytes `c` have arrived, a pass
/// over what the first one left and `c`, recover together what one pass over
/// `w` recovers, and leave what it leaves.
pub open spec fn resumes(a: Seq<u8>, c: Seq<u8>, w: Seq<u8>) -> bool {
    let first = pass(a);
    let second = pass(first.rest + c);
    let whole = pass(w);
    first.packets + second.packets == whole.packets && second.rest == whole.rest
}

/// If a look at `a` goes on with `ra`, a look at `w` with `rw`, both with the
/// same packet or none, and the passes over `ra` and `rw` agree, then so do
/// the passes over `a` and `w`.
proof fn lemma_resumes_after_step(a: Seq<u8>, c: Seq<u8>, w: Seq<u8>)
    requires
        step(a).again,
        step(w).again,
        step(a).packet == step(w).packet,
        resumes(step(a).rest, c, step(w).rest),
    ensures
        resumes(a, c, w),
{
    let la = pass(step(a).rest);
    let lw = pass(step(w).rest);
    let second = pass(la.rest + c);
    match step(a).packet {
        Some(p) => {
            assert((seq![p] + la.packets) + second.packets =~= seq![p] + (la.packets
                + second.packets));
        },
        None => {},
    }
}

/// In a stream of packets, a pass over the bytes from `i` to `j` and a later
/// pass over what it left and the bytes from `j` on recover what one pass
/// over the bytes from `i` on recovers.
proof fn lemma_resume(s: Seq<u8>, i: int, j: int)
    requires
        packet_stream(s),
        0 <= i <= j <= s.len(),
    ensures
        resumes(s.subrange(i, j), s.skip(j), s.skip(i)),
    decreases j - i,
{
    let a = s.subrange(i, j);
    let c = s.skip(j);
    let w = s.skip(i);
    assert(w =~= a + c);
    if find_header(a, 0) is None {
        lemma_headerless_front(a, c);
        lemma_pass_by_step(header_start(a) + c, w);
        assert(pass(a).packets + pass(w).packets =~= pass(w).packets);
    } else {
        let p = find_header(a, 0).unwrap();
        lemma_find_header_some(a, 0);
        lemma_find_header_extend(a, c, 0);
        let x = i + p;
        let ba = a.skip(p);
        let bw = w.skip(p);
        assert(ba =~= s.subrange(x, j));
        assert(bw =~= s.skip(x));
        assert(bw =~= ba + c);
        assert(step(a) == step_aligned(ba));
        assert(step(w) == step_aligned(bw));
        lemma_header_at_subrange(s, i, j, p);
        if find_header(ba, 2) is Some {
            let q = find_header(ba, 2).unwrap();
            lemma_find_header_some(ba, 2);
            lemma_find_header_extend(ba, c, 2);
            if q == 20 {
                assert(ba.subrange(2, 19) =~= bw.subrange(2, 19));
                assert(ba.take(20) =~= bw.take(20));
            }
            let r: int = if q == 20 {
                20
            } else {
                q
            };
            assert(ba.skip(r) =~= s.subrange(x + r, j));
            assert(bw.skip(r) =~= s.skip(x + r));
            lemma_resume(s, x + r, j);
            lemma_resumes_after_step(a, c, w);
        } else {
            lemma_find_header_none(ba, 2);
            assert forall|y: int| x + 2 <= y && y + 1 < j implies !header_at(s, y) by {
                lemma_header_at_subrange(s, x, j, y - x);
            }
            if ba.len() >= 20 && checksum_ok(ba) {
                lemma_header_on_boundary(s, x, j);
                assert(ba.subrange(2, 19) =~= bw.subrange(2, 19));
                assert(ba.take(20) =~= bw.take(20));
                if x + 20 < s.len() {
                    lemma_stream_header(s, x + 20);
                    lemma_header_at_skip(s, x, 20);
                    assert forall|y: int| 2 <= y < 20 implies !header_at(bw, y) by {
                        lemma_header_at_skip(s, x, y);
                    }
                    lemma_find_header_first(bw, 2, 20);
                } else {
                    assert forall|y: int| 2 <= y implies !header_at(bw, y) by {
                        lemma_header_at_skip(s, x, y);
                    }
                    lemma_find_header_absent(bw, 2);
                }
                assert(step(w) == accept(bw));
                assert(ba.skip(20) =~= s.subrange(x + 20, j));
                assert(bw.skip(20) =~= s.skip(x + 20));
                lemma_resume(s, x + 20, j);
                lemma_resumes_after_step(a, c, w);
            } else if ba.len() > OVERFLOW_BOUND {
                let y = lemma_next_header_near(s, x, j);
                assert(false);
            } else {
                assert(step(a) == wait(ba));
                lemma_pass_from_header(w);
                assert(pass(a).packets + pass(w).packets =~= pass(w).packets);
            }
        }
    }
}

/// A stream of packets that arrives in two parts, cut at any byte, yields the
/// packets that it yields when it arrives at once: a pass over the first
/// part, and then a pass over what that left and the second part, recover
/// together the same packets in the same order as one pass over the whole
/// stream, and leave the same bytes.
pub proof fn lemma_split_feed(stream: Seq<u8>, k: int)
    requires
        packet_stream(stream),
        0 <= k <= stream.len(),
    ensures
        ({
            let first = pass(stream.take(k));
            let second = pass(first.rest + stream.skip(k));
            &&& first.packets + second.packets == pass(stream).packets
            &&& second.rest == pass(stream).rest
        }),
{
    lemma_resume(stream, 0, k);
    assert(stream.subrange(0, k) =~= stream.take(k));
    assert(stream.skip(0) =~= stream);
}

/// What a look leaves is the end of what it saw.
proof fn lemma_step_rest_is_suffix(x: Seq<u8>) -> (d: int)
    ensures
        0 <= d <= x.len(),
        step(x).rest == x.skip(d),
{
    if find_header(x, 0) is Some {
        lemma_find_header_some(x, 0);
        let p = find_header(x, 0).unwrap();
        let b = x.skip(p);
        let st = step_aligned(b);
        if find_header(b, 2) is Some {
            lemma_find_header_some(b, 2);
        }
        let e: int = b.len() - st.rest.len();
        assert(0 <= e <= b.len() && st.rest =~= b.skip(e)) by {
            if st.rest == b {
                assert(b.skip(0) =~= b);
            }
        }
        assert(b.skip(e) =~= x.skip(p + e));
        p + e
    } else {
        let d: int = x.len() - header_start(x).len();
        assert(header_start(x) =~= x.skip(d));
        d
    }
}

/// What a pass leaves is the end of what it saw.
pub proof fn lemma_pass_rest_is_suffix(x: Seq<u8>) -> (d: int)
    ensures
        0 <= d <= x.len(),
        pass(x).rest == x.skip(d),
    decreases x.len(),
{
    let first = lemma_step_rest_is_suffix(x);
    if step(x).again {
        lemma_step_shrinks(x);
        let more = lemma_pass_rest_is_suffix(step(x).rest);
        assert(x.skip(first).skip(more) =~= x.skip(first + more));
        first + more
    } else {
        first
    }
}

/// What passes recover and leave when chunks of bytes arrive one after the
/// other: each chunk is put behind what the pass before it left, and a pass
/// is taken.
pub open spec fn feed(buffer: Seq<u8>, chunks: Seq<Seq<u8>>) -> PassModel
    decreases chunks.len(),
{
    if chunks.len() == 0 {
        PassModel { packets: Seq::empty(), rest: buffer }
    } else {
        let now = pass(buffer + chunks.first());
        let later = feed(now.rest, chunks.drop_first());
        PassModel { packets: now.packets + later.packets, rest: later.rest }
    }
}

/// In a stream of packets, with the bytes from `a` to `k` buffered, feeding
/// the rest of the stream in chunks recovers what one pass over the bytes
/// from `a` on recovers.
proof fn lemma_feed_resumes(s: Seq<u8>, a: int, k: int, chunks: Seq<Seq<u8>>)
    requires
        packet_stream(s),
        0 <= a <= k <= s.len(),
        chunks.len() > 0,
        chunks.flatten() == s.skip(k),
    ensures
        feed(s.subrange(a, k), chunks) == pass(s.skip(a)),
    decreases chunks.len(),
{
    let chunk = chunks.first();
    let others = chunks.drop_first();
    let tail = others.flatten();
    let joined = chunk + tail;
    assert(s.skip(k) == joined);
    assert(chunk.len() + tail.len() == s.len() - k) by {
        assert(joined.len() == s.skip(k).len());
    }
    let k2 = k + chunk.len();
    assert(chunk =~= s.subrange(k, k2)) by {
        assert forall|i: int| 0 <= i < chunk.len() implies chunk[i] == s[k + i] by {
            assert(joined[i] == s.skip(k)[i]);
        }
    }
    assert(tail =~= s.skip(k2)) by {
        assert forall|i: int| 0 <= i < tail.len() implies tail[i] == s[k2 + i] by {
            assert(joined[chunk.len() + i] == s.skip(k)[chunk.len() + i]);
        }
    }
    let buffer = s.subrange(a, k);
    assert(buffer + chunk =~= s.subrange(a, k2));
    let now = pass(buffer + chunk);
    let r = lemma_pass_rest_is_suffix(s.subrange(a, k2));
    assert(now.rest =~= s.subrange(a + r, k2));
    let later = feed(now.rest, others);
    assert(feed(buffer, chunks) == (PassModel {
        packets: now.packets + later.packets,
        rest: later.rest,
    }));
    if others.len() == 0 {
        assert(tail.len() == 0);
        assert(s.subrange(a, k2) =~= s.skip(a));
        assert(later == (PassModel { packets: Seq::empty(), rest: now.rest }));
        assert(now.packets + later.packets =~= now.packets);
    } else {
        lemma_feed_resumes(s, a + r, k2, others);
        lemma_resume(s, a, k2);
        assert(now.rest + s.skip(k2) =~= s.skip(a + r));
        assert(later == pass(s.skip(a + r)));
    }
}

/// A stream of packets that arrives in chunks, cut wherever and however
/// often, yields the packets that it yields when it arrives at once, in the
/// same order, and leaves the same bytes.
pub proof fn lemma_chunked_feed(stream: Seq<u8>, chunks: Seq<Seq<u8>>)
    requires
        packet_stream(stream),
        chunks.flatten() == stream,
    ensures
        feed(Seq::empty(), chunks) == pass(stream),
{
    if chunks.len() == 0 {
        lemma_pass_empty();
    } else {
        assert(stream.subrange(0, 0) =~= Seq::<u8>::empty());
        assert(stream.skip(0) =~= stream);
        lemma_feed_resumes(stream, 0, 0, chunks);
    }
}

/// The blocks of twenty bytes of `s`, in order.
pub open spec fn blocks(s: Seq<u8>) -> Seq<Seq<u8>> {
    Seq::new((s.len() / 20) as nat, |k: int| block(s, k))
}

/// A stream of packets none of which holds a second header is recovered
/// whole: a pass yields every packet, in order, and leaves nothing.
pub proof fn lemma_clean_stream_is_recovered(stream: Seq<u8>)
    requires
        packet_stream(stream),
        forall|k: int|
            0 <= k < stream.len() / 20 ==> header_only_at_start(#[trigger] block(stream, k)),
    ensures
        pass(stream) == (PassModel { packets: blocks(stream), rest: Seq::empty() }),
    decreases stream.len(),
{
    if stream.len() == 0 {
        lemma_pass_empty();
        assert(stream =~= Seq::<u8>::empty());
        assert(blocks(stream) =~= Seq::<Seq<u8>>::empty());
    } else {
        let first = block(stream, 0);
        let later = stream.skip(20);
        assert(is_packet(first) && header_only_at_start(first));
        assert(first =~= stream.take(20));
        assert forall|k: int| 0 <= k < later.len() / 20 implies is_packet(
            #[trigger] block(later, k),
        ) && header_only_at_start(block(later, k)) by {
            assert(block(later, k) =~= block(stream, k + 1));
            assert(is_packet(block(stream, k + 1)));
            assert(header_only_at_start(block(stream, k + 1)));
        }
        lemma_clean_stream_is_recovered(later);
        lemma_stream_header(stream, 0);
        lemma_find_header_first(stream, 0, 0);
        assert(stream.skip(0) =~= stream);
        assert(stream.subrange(2, 19) =~= first.subrange(2, 19));
        assert forall|y: int| 2 <= y < 20 implies !header_at(stream, y) by {
            if y < 19 {
                assert(header_at(first, y) == header_at(stream, y));
            } else if stream.len() > 20 {
                lemma_stream_header(stream, 20);
            }
        }
        if stream.len() > 20 {
            lemma_stream_header(stream, 20);
            lemma_find_header_first(stream, 2, 20);
        } else {
            lemma_find_header_absent(stream, 2);
        }
        assert(step(stream) == accept(stream));
        assert(blocks(stream) =~= seq![first] + blocks(later)) by {
            assert forall|k: int| 1 <= k < stream.len() / 20 implies block(stream, k) == block(
                later,
                k - 1,
            ) by {
                assert(block(later, k - 1) =~= block(stream, k));
            }
        }
    }
}

/// What a buffer may hold between two passes: nothing, a single `AA`, or
/// bytes that begin with a header; and never more than `OVERFLOW_BOUND`.
pub open spec fn settled(rest: Seq<u8>) -> bool {
    rest.len() <= OVERFLOW_BOUND && (rest.len() == 0 || rest == seq![0xAAu8] || header_at(rest, 0))
}

/// After a pass the buffer is settled, and no longer than before.
pub proof fn lemma_pass_settles(s: Seq<u8>)
    ensures
        settled(pass(s).rest),
        pass(s).rest.len() <= s.len(),
    decreases s.len(),
{
    lemma_step_shrinks(s);
    if step(s).again {
        lemma_pass_settles(step(s).rest);
    } else if find_header(s, 0) is Some {
        lemma_find_header_some(s, 0);
        lemma_header_at_skip(s, find_header(s, 0).unwrap(), 0);
    }
}

} // verus!
