//! Where things stand in an IVF file.

use vstd::prelude::*;

use crate::bytes;
use crate::error::Error;
use crate::ivf::{self, IvfFile};
use crate::model;
use crate::mp4::reader::{number, word};

verus! {

/// The number that `n` bytes from `at` on spell, the least significant one
/// first.
pub open spec fn little(data: Seq<u8>, at: int, n: int) -> nat {
    number(data.subrange(at, at + n).reverse())
}

/// A four-character code at `at`.
pub open spec fn code(data: Seq<u8>, at: int) -> nat {
    number(data.subrange(at, at + 4))
}

/// How many bytes the first `n` packets take, each with a header of twelve.
pub open spec fn reach(frames: Seq<(u64, Seq<u8>)>, n: int) -> nat
    decreases n,
{
    if n <= 0 {
        0
    } else {
        reach(frames, n - 1) + 12 + frames[n - 1].1.len()
    }
}

/// Whether a packet stands at `at`, behind its length and its timestamp.
#[verifier::opaque]
pub open spec fn packet_stands(data: Seq<u8>, at: int, p: (u64, Seq<u8>)) -> bool {
    &&& at + 12 + p.1.len() <= data.len()
    &&& little(data, at, 4) == p.1.len()
    &&& little(data, at + 4, 8) == p.0
    &&& data.subrange(at + 12, at + 12 + p.1.len()) == p.1
}

/// Whether the packets stand in `data` from `start` to its end.
pub open spec fn packets_stand(data: Seq<u8>, start: nat, frames: Seq<(u64, Seq<u8>)>) -> bool {
    &&& start + reach(frames, frames.len() as int) == data.len()
    &&& forall|i: int|
        0 <= i < frames.len() ==> packet_stands(
            data,
            (start + reach(frames, i)) as int,
            #[trigger] frames[i],
        )
}

/// Whether `data` starts as an IVF file of AV1 does: the tag, version 0, where
/// the packets start, the codec, and the size of the pictures.
pub open spec fn header_stands(data: Seq<u8>, f: IvfFile, start: nat) -> bool {
    &&& data.len() >= 32
    &&& code(data, 0) == word('D', 'K', 'I', 'F')
    &&& little(data, 4, 2) == 0
    &&& little(data, 6, 2) == start
    &&& code(data, 8) == word('A', 'V', '0', '1')
    &&& little(data, 12, 2) == f.width
    &&& little(data, 14, 2) == f.height
}

pub proof fn lemma_little(s: Seq<u8>)
    ensures
        number(s.reverse()) == bytes::le_value(s),
    decreases s.len(),
{
    if s.len() > 0 {
        let rest = s.skip(1);
        lemma_little(rest);
        assert(s.reverse().drop_last() =~= rest.reverse());
        assert(s.reverse().last() == s[0]);
    }
}

/// The tags as numbers.
proof fn lemma_tags()
    ensures
        number(ivf::dkif()) == word('D', 'K', 'I', 'F'),
        number(ivf::av01()) == word('A', 'V', '0', '1'),
{
    reveal_with_fuel(number, 5);
    let a = ivf::dkif();
    assert(a.drop_last().drop_last().drop_last().drop_last().len() == 0);
    let b = ivf::av01();
    assert(b.drop_last().drop_last().drop_last().drop_last().len() == 0);
}

proof fn lemma_le_bound(s: Seq<u8>)
    ensures
        bytes::le_value(s) < bytes::pow256(s.len()),
    decreases s.len(),
{
    if s.len() > 0 {
        lemma_le_bound(s.skip(1));
    }
}

proof fn lemma_reach_front(frames: Seq<(u64, Seq<u8>)>, n: int)
    requires
        1 <= n <= frames.len(),
    ensures
        reach(frames, n) == 12 + frames[0].1.len() + reach(frames.skip(1), n - 1),
    decreases n,
{
    if n > 1 {
        lemma_reach_front(frames, n - 1);
        assert(frames.skip(1)[n - 2] == frames[n - 1]);
    } else {
        assert(reach(frames, 0) == 0);
        assert(reach(frames.skip(1), 0) == 0);
    }
}

proof fn lemma_packet(data: Seq<u8>, start: nat)
    requires
        start + 12 <= data.len(),
        12 + bytes::le_value(data.skip(start as int).subrange(0, 4)) <= data.len() - start,
    ensures
        ({
            let d = data.skip(start as int);
            let size = bytes::le_value(d.subrange(0, 4));
            let ts = bytes::le_value(d.subrange(4, 12)) as u64;
            packet_stands(data, start as int, (ts, d.subrange(12, (12 + size) as int)))
        }),
{
    reveal(packet_stands);
    let d = data.skip(start as int);
    let at = start as int;
    let size = bytes::le_value(d.subrange(0, 4));
    bytes::lemma_pow256();
    lemma_le_bound(d.subrange(4, 12));
    assert(data.subrange(at, at + 4) =~= d.subrange(0, 4));
    assert(data.subrange(at + 4, at + 12) =~= d.subrange(4, 12));
    lemma_little(d.subrange(0, 4));
    lemma_little(d.subrange(4, 12));
    assert(data.subrange(at + 12, at + 12 + size) =~= d.subrange(12, (12 + size) as int));
}

proof fn lemma_packets(data: Seq<u8>, start: nat)
    requires
        start <= data.len(),
        ivf::packets_of(data.skip(start as int)) is Ok,
    ensures
        packets_stand(data, start, ivf::packets_of(data.skip(start as int))->Ok_0),
    decreases data.len() - start,
{
    let d = data.skip(start as int);
    let frames = ivf::packets_of(d)->Ok_0;
    if d.len() > 0 {
        let size = bytes::le_value(d.subrange(0, 4));
        let end = (12 + size) as int;
        let rest = ivf::packets_of(d.skip(end))->Ok_0;
        assert(d.skip(end) =~= data.skip(start + end));
        lemma_packets(data, (start + end) as nat);
        lemma_packet(data, start);
        assert(frames.skip(1) =~= rest);
        lemma_reach_front(frames, frames.len() as int);
        assert forall|i: int| 0 <= i < frames.len() implies packet_stands(
            data,
            (start + reach(frames, i)) as int,
            #[trigger] frames[i],
        ) by {
            if i > 0 {
                lemma_reach_front(frames, i);
                assert(rest[i - 1] == frames[i]);
            }
        }
    }
}

/// A file that is read holds what it says: its header starts with the tag and
/// has the size, and where both are set the two numbers of the timebase, at
/// their places; the packets follow one another to the end.
pub proof fn read_files_hold_what_they_say(data: Seq<u8>, f: IvfFile)
    requires
        ivf::ivf_of(data) == Ok::<IvfFile<Seq<(u64, Seq<u8>)>>, Error>(f@),
    ensures
        ({
            let start = little(data, 6, 2);
            &&& header_stands(data, f, start)
            &&& if little(data, 16, 4) == 0 || little(data, 20, 4) == 0 {
                f.timebase_den == 30 && f.timebase_num == 1
            } else {
                f.timebase_den == little(data, 16, 4) && f.timebase_num == little(data, 20, 4)
            }
            &&& 32 <= start <= data.len()
            &&& packets_stand(data, start, ivf::packets(f.frames@))
        }),
{
    bytes::lemma_pow256();
    lemma_tags();
    lemma_little(data.subrange(4, 6));
    lemma_little(data.subrange(6, 8));
    lemma_little(data.subrange(12, 14));
    lemma_little(data.subrange(14, 16));
    lemma_little(data.subrange(16, 20));
    lemma_little(data.subrange(20, 24));
    lemma_le_bound(data.subrange(4, 6));
    lemma_le_bound(data.subrange(6, 8));
    lemma_le_bound(data.subrange(12, 14));
    lemma_le_bound(data.subrange(14, 16));
    lemma_le_bound(data.subrange(16, 20));
    lemma_le_bound(data.subrange(20, 24));
    lemma_packets(data, little(data, 6, 2));
}

/// A file that is written says what it holds, in a header of 32 bytes that also
/// counts the packets.
pub proof fn written_files_say_what_they_hold(f: IvfFile)
    requires
        f.frames@.len() <= u32::MAX,
        forall|i: int| 0 <= i < f.frames@.len() ==> (#[trigger] f.frames@[i]).1@.len() <= u32::MAX,
    ensures
        ({
            let data = ivf::ivf_bytes(f@);
            &&& header_stands(data, f, 32)
            &&& little(data, 16, 4) == f.timebase_den
            &&& little(data, 20, 4) == f.timebase_num
            &&& little(data, 24, 4) == f.frames@.len()
            &&& little(data, 28, 4) == 0
            &&& packets_stand(data, 32, ivf::packets(f.frames@))
        }),
{
    broadcast use bytes::lemma_le_bytes_len;

    bytes::lemma_pow256();
    lemma_tags();
    let data = ivf::ivf_bytes(f@);
    let w = bytes::le_bytes(2, f.width as nat);
    let h = bytes::le_bytes(2, f.height as nat);
    let den = bytes::le_bytes(4, f.timebase_den as nat);
    let num = bytes::le_bytes(4, f.timebase_num as nat);
    let n = bytes::le_bytes(4, f@.frames.len());
    assert(data.subrange(0, 4) =~= ivf::dkif());
    assert(data.subrange(4, 6) =~= bytes::le_bytes(2, 0));
    assert(data.subrange(6, 8) =~= bytes::le_bytes(2, 32));
    assert(data.subrange(8, 12) =~= ivf::av01());
    assert(data.subrange(12, 14) =~= w);
    assert(data.subrange(14, 16) =~= h);
    assert(data.subrange(16, 20) =~= den);
    assert(data.subrange(20, 24) =~= num);
    assert(data.subrange(24, 28) =~= n);
    assert(data.subrange(28, 32) =~= bytes::le_bytes(4, 0));
    lemma_spelled(2, 0);
    lemma_spelled(2, 32);
    lemma_spelled(2, f.width as nat);
    lemma_spelled(2, f.height as nat);
    lemma_spelled(4, f.timebase_den as nat);
    lemma_spelled(4, f.timebase_num as nat);
    lemma_spelled(4, f@.frames.len());
    lemma_spelled(4, 0);
    let head = ivf::header_bytes(f@);
    let frames = ivf::packets(f.frames@);
    assert forall|i: int| 0 <= i < frames.len() implies (#[trigger] frames[i]).1.len()
        <= u32::MAX by {
        assert(f.frames@[i].1@ == frames[i].1);
    }
    lemma_written(head, frames);
}

proof fn lemma_spelled(n: nat, v: nat)
    requires
        v < bytes::pow256(n),
    ensures
        number(bytes::le_bytes(n, v).reverse()) == v,
{
    lemma_little(bytes::le_bytes(n, v));
    bytes::le_round_trip(n, v);
}

proof fn lemma_reach_push(frames: Seq<(u64, Seq<u8>)>, i: int)
    requires
        0 <= i < frames.len(),
    ensures
        reach(frames.drop_last(), i) == reach(frames, i),
    decreases i,
{
    if i > 0 {
        lemma_reach_push(frames, i - 1);
    }
}

/// A packet stays where it is when another is put behind.
proof fn lemma_stays(data: Seq<u8>, more: Seq<u8>, at: int, p: (u64, Seq<u8>))
    requires
        0 <= at,
        packet_stands(data, at, p),
    ensures
        packet_stands(data + more, at, p),
{
    reveal(packet_stands);
    let all = data + more;
    let n = p.1.len();
    assert(all.subrange(at, at + 4) =~= data.subrange(at, at + 4));
    assert(all.subrange(at + 4, at + 12) =~= data.subrange(at + 4, at + 12));
    assert(all.subrange(at + 12, at + 12 + n) =~= data.subrange(at + 12, at + 12 + n));
}

/// A packet that is put behind.
proof fn lemma_put(data: Seq<u8>, p: (u64, Seq<u8>))
    requires
        p.1.len() <= u32::MAX,
    ensures
        packet_stands(data + ivf::packet_bytes(p), data.len() as int, p),
        ivf::packet_bytes(p).len() == 12 + p.1.len(),
{
    broadcast use bytes::lemma_le_bytes_len;

    reveal(packet_stands);
    bytes::lemma_pow256();
    let all = data + ivf::packet_bytes(p);
    let at = data.len() as int;
    assert(all.subrange(at, at + 4) =~= bytes::le_bytes(4, p.1.len()));
    assert(all.subrange(at + 4, at + 12) =~= bytes::le_bytes(8, p.0 as nat));
    assert(all.subrange(at + 12, at + 12 + p.1.len()) =~= p.1);
    lemma_spelled(4, p.1.len());
    lemma_spelled(8, p.0 as nat);
}

proof fn lemma_grows(old: Seq<u8>, start: nat, past: Seq<(u64, Seq<u8>)>, p: (u64, Seq<u8>))
    requires
        packets_stand(old, start, past),
        p.1.len() <= u32::MAX,
    ensures
        packets_stand(old + ivf::packet_bytes(p), start, past.push(p)),
{
    let frames = past.push(p);
    let more = ivf::packet_bytes(p);
    assert(frames.drop_last() =~= past);
    lemma_put(old, p);
    lemma_reach_push(frames, past.len() as int);
    assert(reach(frames, frames.len() as int) == reach(past, past.len() as int) + 12 + p.1.len());
    assert forall|i: int| 0 <= i < frames.len() implies packet_stands(
        old + more,
        (start + reach(frames, i)) as int,
        #[trigger] frames[i],
    ) by {
        lemma_reach_push(frames, i);
        if i < past.len() {
            assert(past[i] == frames[i]);
            let at = (start + reach(past, i)) as int;
            assert(packet_stands(old, at, past[i]));
            lemma_stays(old, more, at, past[i]);
        }
    }
}

proof fn lemma_written(head: Seq<u8>, frames: Seq<(u64, Seq<u8>)>)
    requires
        forall|i: int| 0 <= i < frames.len() ==> (#[trigger] frames[i]).1.len() <= u32::MAX,
    ensures
        packets_stand(head + ivf::all_packet_bytes(frames), head.len(), frames),
    decreases frames.len(),
{
    let parts = Seq::new(frames.len(), |i: int| ivf::packet_bytes(frames[i]));
    if frames.len() == 0 {
        assert(model::concat(parts).len() == 0);
    } else {
        let past = frames.drop_last();
        let p = frames.last();
        lemma_written(head, past);
        let less = Seq::new(past.len(), |i: int| ivf::packet_bytes(past[i]));
        assert(parts.drop_last() =~= less);
        let old = ivf::all_packet_bytes(past);
        let more = ivf::packet_bytes(p);
        assert(ivf::all_packet_bytes(frames) == old + more);
        assert(head + (old + more) =~= (head + old) + more);
        lemma_grows(head + old, head.len(), past, p);
        assert(past.push(p) =~= frames);
    }
}

} // verus!
