//! What a reader finds in the written file.

use vstd::prelude::*;
use vstd::utf8::*;

use crate::bytes;
use crate::fields::Field;
use crate::model;
use crate::mp4::boxes;
use crate::mp4::reader::{self, children, f, holds, number, word};
use crate::mp4::tracks;
use crate::mp4::Sample;

verus! {

/// The content of box `i`.
pub open spec fn kid(s: Seq<u8>, i: int) -> Seq<u8> {
    children(s)->Some_0[i].1
}

/// Whether the bytes are boxes of these types, in this order.
pub open spec fn kinds(s: Seq<u8>, types: Seq<nat>) -> bool {
    &&& children(s) is Some
    &&& children(s)->Some_0.len() == types.len()
    &&& forall|i: int| 0 <= i < types.len() ==> (#[trigger] children(s)->Some_0[i]).0 == types[i]
}

/// Version and flags.
pub open spec fn full(version: nat, flags: nat) -> Seq<Field> {
    f(1, version) + f(3, flags)
}

/// The matrix that moves nothing.
pub open spec fn identity() -> Seq<Field> {
    f(4, 0x1_0000) + f(12, 0) + f(4, 0x1_0000) + f(12, 0) + f(4, 0x4000_0000)
}

// ---------- sample tables ----------

/// The sizes of the samples, four bytes each.
pub open spec fn sizes(samples: Seq<Sample>) -> Seq<Field> {
    Seq::new(samples.len(), |i: int| (4nat, samples[i].0@.len()))
}

/// Sample numbers, four bytes each.
pub open spec fn numbers(list: Seq<u32>) -> Seq<Field> {
    Seq::new(list.len(), |i: int| (4nat, list[i] as nat))
}

/// Whether `s` is a sample table: an entry of type `entry`, the duration `delta`
/// for each sample, one chunk with all of them at `offset`, the size of each,
/// and the sync samples where not all are.
pub open spec fn is_stbl(
    s: Seq<u8>,
    entry: nat,
    samples: Seq<Sample>,
    delta: u32,
    sync: Option<Seq<u32>>,
    offset: nat,
) -> bool {
    let n = samples.len();
    &&& kinds(
        s,
        seq![
            word('s', 't', 's', 'd'),
            word('s', 't', 't', 's'),
            word('s', 't', 's', 'c'),
            word('s', 't', 's', 'z'),
            word('s', 't', 'c', 'o'),
        ] + if sync is Some {
            seq![word('s', 't', 's', 's')]
        } else {
            Seq::empty()
        },
    )
    &&& holds(kid(s, 0).take(8), full(0, 0) + f(4, 1))
    &&& kinds(kid(s, 0).skip(8), seq![entry])
    &&& holds(kid(s, 1), full(0, 0) + (f(4, 1) + f(4, n) + f(4, delta as nat)))
    &&& holds(kid(s, 2), full(0, 0) + (f(4, 1) + f(4, 1) + f(4, n) + f(4, 1)))
    &&& holds(kid(s, 3), full(0, 0) + (f(4, 0) + f(4, n) + sizes(samples)))
    &&& holds(kid(s, 4), full(0, 0) + (f(4, 1) + f(4, offset)))
    &&& sync matches Some(list) ==> holds(
        kid(s, 5),
        full(0, 0) + (f(4, list.len()) + numbers(list)),
    )
}

proof fn lemma_sizes(samples: Seq<Sample>)
    requires
        forall|i: int| 0 <= i < samples.len() ==> (#[trigger] samples[i]).0@.len() <= u32::MAX,
    ensures
        ({
            let all = model::views(samples);
            holds(
                model::concat(Seq::new(all.len(), |i: int| boxes::u32be(all[i].len()))),
                sizes(samples),
            ) && model::concat(
                Seq::new(all.len(), |i: int| boxes::u32be(all[i].len())),
            ).len() == 4 * samples.len()
        }),
    decreases samples.len(),
{
    let all = model::views(samples);
    let parts = Seq::new(all.len(), |i: int| boxes::u32be(all[i].len()));
    if samples.len() > 0 {
        let front = samples.drop_last();
        lemma_sizes(front);
        let less = model::views(front);
        assert(parts.drop_last() =~= Seq::new(less.len(), |i: int| boxes::u32be(less[i].len())));
        let n = samples.last().0@.len();
        bytes::lemma_pow256();
        assert(parts.last() == boxes::u32be(n));
        bytes::lemma_be_bytes_len(4, n);
        reader::lemma_holds_be(4, n);
        reader::lemma_holds_append(
            model::concat(parts.drop_last()),
            sizes(front),
            parts.last(),
            f(4, n),
        );
        assert(sizes(samples) =~= sizes(front) + f(4, n));
    }
}

proof fn lemma_numbers(list: Seq<u32>)
    ensures
        holds(
            model::concat(Seq::new(list.len(), |i: int| boxes::u32be(list[i] as nat))),
            numbers(list),
        ),
        model::concat(Seq::new(list.len(), |i: int| boxes::u32be(list[i] as nat))).len() == 4
            * list.len(),
    decreases list.len(),
{
    let parts = Seq::new(list.len(), |i: int| boxes::u32be(list[i] as nat));
    if list.len() > 0 {
        let front = list.drop_last();
        lemma_numbers(front);
        assert(parts.drop_last() =~= Seq::new(
            front.len(),
            |i: int| boxes::u32be(front[i] as nat),
        ));
        let n = list.last() as nat;
        bytes::lemma_pow256();
        assert(parts.last() == boxes::u32be(n));
        bytes::lemma_be_bytes_len(4, n);
        reader::lemma_holds_be(4, n);
        reader::lemma_holds_append(
            model::concat(parts.drop_last()),
            numbers(front),
            parts.last(),
            f(4, n),
        );
        assert(numbers(list) =~= numbers(front) + f(4, n));
    }
}

pub proof fn lemma_full(fourcc: Seq<u8>, version: u8, flags: nat, p: Seq<u8>)
    requires
        fourcc.len() == 4,
        p.len() + 12 <= u32::MAX,
        flags < 0x100_0000,
    ensures
        ({
            let s = boxes::full_box_bytes(fourcc, version, flags, p);
            let q = seq![version] + bytes::be_bytes(3, flags) + p;
            &&& children(s) == Some(seq![(number(fourcc), q)])
            &&& s.len() == p.len() + 12
            &&& q.len() == p.len() + 4
            &&& holds(seq![version] + bytes::be_bytes(3, flags), full(version as nat, flags))
            &&& forall|t: Seq<Field>|
                holds(p, t) ==> #[trigger] holds(q, full(version as nat, flags) + t)
        }),
{
    broadcast use {reader::group_holds, bytes::lemma_be_bytes_len};

    reveal_with_fuel(bytes::pow256, 4);
    reader::lemma_children_box(fourcc, seq![version] + bytes::be_bytes(3, flags) + p);
}

/// The payload of a box with version and flags.
pub open spec fn inside(version: u8, flags: nat, p: Seq<u8>) -> Seq<u8> {
    seq![version] + bytes::be_bytes(3, flags) + p
}

pub proof fn lemma_stbl(
    entry: Seq<u8>,
    kind: Seq<u8>,
    body: Seq<u8>,
    samples: Seq<Sample>,
    delta: u32,
    sync: Option<Seq<u32>>,
    offset: nat,
)
    requires
        entry == boxes::box_bytes(kind, body),
        kind.len() == 4,
        offset <= u32::MAX,
        forall|i: int| 0 <= i < samples.len() ==> (#[trigger] samples[i]).0@.len() <= u32::MAX,
        tracks::stbl_bytes(
            entry,
            model::views(samples),
            delta,
            sync,
            boxes::u32be(offset),
        ).len() <= u32::MAX,
    ensures
        exists|p: Seq<u8>|
            {
                &&& #[trigger] is_stbl(p, number(kind), samples, delta, sync, offset)
                &&& kid(kid(p, 0).skip(8), 0) == body
                &&& p.len() + 8 <= u32::MAX
                &&& tracks::stbl_bytes(
                    entry,
                    model::views(samples),
                    delta,
                    sync,
                    boxes::u32be(offset),
                ) == boxes::box_bytes(boxes::four('s', 't', 'b', 'l'), p)
            },
{
    broadcast use bytes::lemma_be_bytes_len;

    let all = model::views(samples);
    let n = samples.len();
    let stco = boxes::u32be(offset);
    let stsd = boxes::u32be(1) + entry;
    let stts = tracks::stts_bytes(n, delta);
    let stsc = tracks::stsc_bytes(n);
    let stsz = tracks::stsz_bytes(all);
    let chunks = boxes::u32be(1) + stco;
    let b0 = boxes::full_box_bytes(boxes::four('s', 't', 's', 'd'), 0, 0, stsd);
    let b1 = boxes::full_box_bytes(boxes::four('s', 't', 't', 's'), 0, 0, stts);
    let b2 = boxes::full_box_bytes(boxes::four('s', 't', 's', 'c'), 0, 0, stsc);
    let b3 = boxes::full_box_bytes(boxes::four('s', 't', 's', 'z'), 0, 0, stsz);
    let b4 = boxes::full_box_bytes(boxes::four('s', 't', 'c', 'o'), 0, 0, chunks);
    let b5 = tracks::sync_bytes(sync);
    let p = b0 + b1 + b2 + b3 + b4 + b5;
    assert(tracks::stbl_bytes(entry, all, delta, sync, stco) == boxes::box_bytes(
        boxes::four('s', 't', 'b', 'l'),
        p,
    ));
    assert(p.len() + 8 <= u32::MAX);
    lemma_sizes(samples);
    if sync is Some {
        lemma_numbers(sync->Some_0);
    }
    lemma_full(boxes::four('s', 't', 's', 'd'), 0, 0, stsd);
    lemma_full(boxes::four('s', 't', 't', 's'), 0, 0, stts);
    lemma_full(boxes::four('s', 't', 's', 'c'), 0, 0, stsc);
    lemma_full(boxes::four('s', 't', 's', 'z'), 0, 0, stsz);
    lemma_full(boxes::four('s', 't', 'c', 'o'), 0, 0, chunks);
    if sync is Some {
        lemma_full(
            boxes::four('s', 't', 's', 's'),
            0,
            0,
            tracks::stss_bytes(sync->Some_0),
        );
    }
    lemma_stbl_kids(b0, b1, b2, b3, b4, b5, stsd, stts, stsc, stsz, chunks, sync);
    lemma_entry(kind, body);
    lemma_tables(samples, delta, sync, offset);
    assert(is_stbl(p, number(kind), samples, delta, sync, offset));
}

proof fn lemma_stbl_kids(
    b0: Seq<u8>,
    b1: Seq<u8>,
    b2: Seq<u8>,
    b3: Seq<u8>,
    b4: Seq<u8>,
    b5: Seq<u8>,
    stsd: Seq<u8>,
    stts: Seq<u8>,
    stsc: Seq<u8>,
    stsz: Seq<u8>,
    stco: Seq<u8>,
    sync: Option<Seq<u32>>,
)
    requires
        children(b0) == Some(seq![(number(boxes::four('s', 't', 's', 'd')), inside(0, 0, stsd))]),
        children(b1) == Some(seq![(number(boxes::four('s', 't', 't', 's')), inside(0, 0, stts))]),
        children(b2) == Some(seq![(number(boxes::four('s', 't', 's', 'c')), inside(0, 0, stsc))]),
        children(b3) == Some(seq![(number(boxes::four('s', 't', 's', 'z')), inside(0, 0, stsz))]),
        children(b4) == Some(seq![(number(boxes::four('s', 't', 'c', 'o')), inside(0, 0, stco))]),
        sync is Some ==> children(b5) == Some(
            seq![
                (
                    number(boxes::four('s', 't', 's', 's')),
                    inside(0, 0, tracks::stss_bytes(sync->Some_0)),
                ),
            ],
        ),
        sync is None ==> b5.len() == 0,
    ensures
        ({
            let p = b0 + b1 + b2 + b3 + b4 + b5;
            &&& kinds(
                p,
                seq![
                    word('s', 't', 's', 'd'),
                    word('s', 't', 't', 's'),
                    word('s', 't', 's', 'c'),
                    word('s', 't', 's', 'z'),
                    word('s', 't', 'c', 'o'),
                ] + if sync is Some {
                    seq![word('s', 't', 's', 's')]
                } else {
                    Seq::empty()
                },
            )
            &&& kid(p, 0) == inside(0, 0, stsd)
            &&& kid(p, 1) == inside(0, 0, stts)
            &&& kid(p, 2) == inside(0, 0, stsc)
            &&& kid(p, 3) == inside(0, 0, stsz)
            &&& kid(p, 4) == inside(0, 0, stco)
            &&& sync is Some ==> kid(p, 5) == inside(0, 0, tracks::stss_bytes(sync->Some_0))
        }),
{
    broadcast use reader::group_children;

    let none = Seq::<(nat, Seq<u8>)>::empty();
    if sync is None {
        assert(children(b5) == Some(none));
    }
    let p = b0 + b1 + b2 + b3 + b4 + b5;
    let list = children(b0)->Some_0 + children(b1)->Some_0 + children(b2)->Some_0 + children(
        b3,
    )->Some_0 + children(b4)->Some_0 + children(b5)->Some_0;
    assert(children(p) == Some(list));
}

proof fn lemma_entry(kind: Seq<u8>, body: Seq<u8>)
    requires
        kind.len() == 4,
        body.len() + 8 <= u32::MAX,
    ensures
        ({
            let s = inside(0, 0, boxes::u32be(1) + boxes::box_bytes(kind, body));
            &&& holds(s.take(8), full(0, 0) + f(4, 1))
            &&& kinds(s.skip(8), seq![number(kind)])
            &&& kid(s.skip(8), 0) == body
        }),
{
    broadcast use {bytes::lemma_be_bytes_len, reader::group_holds};

    reveal_with_fuel(bytes::pow256, 5);
    let b = boxes::box_bytes(kind, body);
    let s = inside(0, 0, boxes::u32be(1) + b);
    let head = seq![0u8] + bytes::be_bytes(3, 0) + bytes::be_bytes(4, 1);
    assert(s.take(8) =~= head);
    assert(s.skip(8) =~= b);
    assert(holds(head, full(0, 0) + f(4, 1)));
    reader::lemma_children_box(kind, body);
}

proof fn lemma_tables(samples: Seq<Sample>, delta: u32, sync: Option<Seq<u32>>, offset: nat)
    requires
        offset <= u32::MAX,
        samples.len() <= u32::MAX,
        sync is Some ==> sync->Some_0.len() <= u32::MAX,
        forall|i: int| 0 <= i < samples.len() ==> (#[trigger] samples[i]).0@.len() <= u32::MAX,
    ensures
        ({
            let n = samples.len();
            let all = model::views(samples);
            &&& holds(
                inside(0, 0, tracks::stts_bytes(n, delta)),
                full(0, 0) + (f(4, 1) + f(4, n) + f(4, delta as nat)),
            )
            &&& holds(
                inside(0, 0, tracks::stsc_bytes(n)),
                full(0, 0) + (f(4, 1) + f(4, 1) + f(4, n) + f(4, 1)),
            )
            &&& holds(
                inside(0, 0, tracks::stsz_bytes(all)),
                full(0, 0) + (f(4, 0) + f(4, n) + sizes(samples)),
            )
            &&& holds(
                inside(0, 0, boxes::u32be(1) + boxes::u32be(offset)),
                full(0, 0) + (f(4, 1) + f(4, offset)),
            )
            &&& sync matches Some(list) ==> holds(
                inside(0, 0, tracks::stss_bytes(list)),
                full(0, 0) + (f(4, list.len()) + numbers(list)),
            )
        }),
{
    broadcast use reader::group_holds;

    reveal_with_fuel(bytes::pow256, 5);
    lemma_sizes(samples);
    if sync is Some {
        lemma_numbers(sync->Some_0);
    }
}

} // verus!
