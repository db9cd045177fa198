//! Frame size and frame id sections of the sequence header.

use vstd::prelude::*;
use vstd::arithmetic::power2::*;

use crate::bitio::{self, BitReader, BitWriter, Cur};
use crate::error::Error;

verus! {

#[derive(Debug, Clone, Copy, PartialEq, Eq, Structural)]
pub struct FrameSize {
    pub frame_width_bits_minus_1: u8,
    pub frame_height_bits_minus_1: u8,
    pub max_frame_width: u32,
    pub max_frame_height: u32,
}

impl FrameSize {
    pub open spec fn canonical(self) -> bool {
        &&& self.frame_width_bits_minus_1 < 16
        &&& self.frame_height_bits_minus_1 < 16
        &&& 1 <= self.max_frame_width <= pow2((self.frame_width_bits_minus_1 + 1) as nat)
        &&& 1 <= self.max_frame_height <= pow2((self.frame_height_bits_minus_1 + 1) as nat)
    }
}

#[verifier::opaque]
pub open spec fn frame_size_at(c: Cur) -> (FrameSize, Cur) {
    let (wb, c) = c.f(4);
    let (hb, c) = c.f(4);
    let (width, c) = c.f(((wb as u8) + 1) as nat);
    let (height, c) = c.f(((hb as u8) + 1) as nat);
    (
        FrameSize {
            frame_width_bits_minus_1: wb as u8,
            frame_height_bits_minus_1: hb as u8,
            max_frame_width: (width + 1) as u32,
            max_frame_height: (height + 1) as u32,
        },
        c,
    )
}

#[verifier::opaque]
pub open spec fn frame_size_bits(w: Seq<bool>, z: FrameSize) -> Seq<bool> {
    let w = w + bitio::be_bits(4, z.frame_width_bits_minus_1 as nat);
    let w = w + bitio::be_bits(4, z.frame_height_bits_minus_1 as nat);
    let w = w + bitio::be_bits(
        (z.frame_width_bits_minus_1 + 1) as nat,
        (z.max_frame_width - 1) as nat,
    );
    w + bitio::be_bits((z.frame_height_bits_minus_1 + 1) as nat, (z.max_frame_height - 1) as nat)
}

pub broadcast proof fn frame_size_sticky(c: Cur)
    requires
        c.err is Some,
    ensures
        (#[trigger] frame_size_at(c)).1 == c,
{
    reveal(frame_size_at);
}

pub broadcast proof fn frame_size_starts(t: Seq<bool>, w: Seq<bool>, z: FrameSize)
    requires
        #[trigger] bitio::starts(t, frame_size_bits(w, z)),
    ensures
        bitio::starts(t, w),
{
    broadcast use bitio::group_starts;

    reveal(frame_size_bits);
}

pub(crate) fn frame_size(r: &mut BitReader) -> (res: Result<FrameSize, Error>)
    ensures
        bitio::reads(final(r)@, res, frame_size_at(old(r)@)),
{
    proof {
        reveal(frame_size_at);
    }
    broadcast use bitio::f_consumes;
    proof {
        lemma2_to64();
    }
    let ghost c = r@;
    let wb = r.f(4)?;
    let hb = r.f(4)?;
    let wn: usize = wb as u8 as usize + 1;
    let hn: usize = hb as u8 as usize + 1;
    proof {
        broadcast use bitio::lemma_reader_ok;
        assert(wb < 16 && hb < 16);
        bitio::lemma_pow2_monotone(wn as nat, 16);
        bitio::lemma_pow2_monotone(hn as nat, 16);
    }
    let width = r.f(wn)?;
    let height = r.f(hn)?;
    Ok(
        FrameSize {
            frame_width_bits_minus_1: wb as u8,
            frame_height_bits_minus_1: hb as u8,
            max_frame_width: (width + 1) as u32,
            max_frame_height: (height + 1) as u32,
        },
    )
}

pub(crate) fn emit_frame_size(w: &mut BitWriter, z: FrameSize)
    requires
        old(w).wf(),
        z.frame_width_bits_minus_1 < 64,
        z.frame_height_bits_minus_1 < 64,
        z.max_frame_width > 0,
        z.max_frame_height > 0,
    ensures
        final(w).wf(),
        final(w)@ == frame_size_bits(old(w)@, z),
{
    proof {
        reveal(frame_size_bits);
    }
    w.f(4, z.frame_width_bits_minus_1 as u64);
    w.f(4, z.frame_height_bits_minus_1 as u64);
    w.f(z.frame_width_bits_minus_1 as usize + 1, z.max_frame_width as u64 - 1);
    w.f(z.frame_height_bits_minus_1 as usize + 1, z.max_frame_height as u64 - 1);
}

pub proof fn frame_size_consumes(c: Cur)
    requires
        c.ready(),
        frame_size_at(c).1.err is None,
    ensures
        frame_size_at(c).0.canonical(),
        frame_size_at(c).1.reached(c, frame_size_bits(c.seen(), frame_size_at(c).0)),
{
    reveal(frame_size_at);
    reveal(frame_size_bits);
    broadcast use bitio::group_consumes;
    lemma2_to64();
    let (wb, c1) = c.f(4);
    let (hb, c2) = c1.f(4);
    assert(wb < 16 && hb < 16);
    bitio::lemma_pow2_monotone((wb + 1) as nat, 16);
    bitio::lemma_pow2_monotone((hb + 1) as nat, 16);
}

pub proof fn frame_size_reads_back(c: Cur, z: FrameSize)
    requires
        z.canonical(),
        c.expects(frame_size_bits(c.seen(), z)),
    ensures
        frame_size_at(c).0 == z,
        frame_size_at(c).1.reached(c, frame_size_bits(c.seen(), z)),
{
    reveal(frame_size_at);
    reveal(frame_size_bits);
    broadcast use bitio::group_starts;
    lemma2_to64();
    bitio::f_reads_back(c, 4, z.frame_width_bits_minus_1 as u64);
    let c = c.f(4).1;
    bitio::f_reads_back(c, 4, z.frame_height_bits_minus_1 as u64);
    let c = c.f(4).1;
    let wn = (z.frame_width_bits_minus_1 + 1) as nat;
    let hn = (z.frame_height_bits_minus_1 + 1) as nat;
    bitio::lemma_pow2_monotone(wn, 16);
    bitio::lemma_pow2_monotone(hn, 16);
    bitio::f_reads_back(c, wn, (z.max_frame_width - 1) as u64);
    let c = c.f(wn).1;
    bitio::f_reads_back(c, hn, (z.max_frame_height - 1) as u64);
}

#[derive(Debug, Clone, Copy, PartialEq, Eq, Structural)]
pub struct FrameIds {
    pub present: bool,
    pub delta_frame_id_length_minus_2: u8,
    pub additional_frame_id_length_minus_1: u8,
    pub id_len: usize,
}

impl FrameIds {
    pub open spec fn absent() -> FrameIds {
        FrameIds {
            present: false,
            delta_frame_id_length_minus_2: 0,
            additional_frame_id_length_minus_1: 0,
            id_len: 0,
        }
    }

    pub open spec fn canonical(self, reduced: bool) -> bool {
        if self.present {
            &&& !reduced
            &&& self.delta_frame_id_length_minus_2 < 16
            &&& self.additional_frame_id_length_minus_1 < 8
            &&& self.id_len == self.additional_frame_id_length_minus_1
                + self.delta_frame_id_length_minus_2 + 3
        } else {
            self == FrameIds::absent()
        }
    }
}

#[verifier::opaque]
pub open spec fn frame_ids_at(c: Cur, reduced: bool) -> (FrameIds, Cur) {
    if reduced {
        (FrameIds::absent(), c)
    } else {
        let (present, c) = c.flag();
        if present {
            let (delta, c) = c.f(4);
            let (additional, c) = c.f(3);
            (
                FrameIds {
                    present: true,
                    delta_frame_id_length_minus_2: delta as u8,
                    additional_frame_id_length_minus_1: additional as u8,
                    id_len: (additional as u8 + delta as u8 + 3) as usize,
                },
                c,
            )
        } else {
            (FrameIds::absent(), c)
        }
    }
}

#[verifier::opaque]
pub open spec fn frame_ids_bits(w: Seq<bool>, reduced: bool, z: FrameIds) -> Seq<bool> {
    if reduced {
        w
    } else {
        let w = w.push(z.present);
        if z.present {
            let w = w + bitio::be_bits(4, z.delta_frame_id_length_minus_2 as nat);
            w + bitio::be_bits(3, z.additional_frame_id_length_minus_1 as nat)
        } else {
            w
        }
    }
}

pub broadcast proof fn frame_ids_sticky(c: Cur, reduced: bool)
    requires
        c.err is Some,
    ensures
        (#[trigger] frame_ids_at(c, reduced)).1 == c,
{
    reveal(frame_ids_at);
}

pub broadcast proof fn frame_ids_starts(t: Seq<bool>, w: Seq<bool>, reduced: bool, z: FrameIds)
    requires
        #[trigger] bitio::starts(t, frame_ids_bits(w, reduced, z)),
    ensures
        bitio::starts(t, w),
{
    broadcast use bitio::group_starts;

    reveal(frame_ids_bits);
}

pub(crate) fn frame_ids(r: &mut BitReader, reduced: bool) -> (res: Result<FrameIds, Error>)
    ensures
        bitio::reads(final(r)@, res, frame_ids_at(old(r)@, reduced)),
{
    proof {
        reveal(frame_ids_at);
    }
    broadcast use bitio::lemma_reader_ok;
    let mut z = FrameIds {
        present: false,
        delta_frame_id_length_minus_2: 0,
        additional_frame_id_length_minus_1: 0,
        id_len: 0,
    };
    if !reduced {
        z.present = r.flag()?;
        if z.present {
            let delta = r.f(4)?;
            let additional = r.f(3)?;
            z.delta_frame_id_length_minus_2 = delta as u8;
            z.additional_frame_id_length_minus_1 = additional as u8;
            z.id_len = z.additional_frame_id_length_minus_1 as usize
                + z.delta_frame_id_length_minus_2 as usize + 3;
        }
    }
    Ok(z)
}

pub(crate) fn emit_frame_ids(w: &mut BitWriter, reduced: bool, z: FrameIds)
    requires
        old(w).wf(),
    ensures
        final(w).wf(),
        final(w)@ == frame_ids_bits(old(w)@, reduced, z),
{
    proof {
        reveal(frame_ids_bits);
    }
    if !reduced {
        w.flag(z.present);
        if z.present {
            w.f(4, z.delta_frame_id_length_minus_2 as u64);
            w.f(3, z.additional_frame_id_length_minus_1 as u64);
        }
    }
}

pub proof fn frame_ids_consume(c: Cur, reduced: bool)
    requires
        c.ready(),
        frame_ids_at(c, reduced).1.err is None,
    ensures
        frame_ids_at(c, reduced).0.canonical(reduced),
        frame_ids_at(c, reduced).1.reached(
            c,
            frame_ids_bits(c.seen(), reduced, frame_ids_at(c, reduced).0),
        ),
{
    reveal(frame_ids_at);
    reveal(frame_ids_bits);
    broadcast use bitio::group_consumes;
    lemma2_to64();
}

pub proof fn frame_ids_read_back(c: Cur, reduced: bool, z: FrameIds)
    requires
        z.canonical(reduced),
        c.expects(frame_ids_bits(c.seen(), reduced, z)),
    ensures
        frame_ids_at(c, reduced).0 == z,
        frame_ids_at(c, reduced).1.reached(c, frame_ids_bits(c.seen(), reduced, z)),
{
    reveal(frame_ids_at);
    reveal(frame_ids_bits);
    broadcast use bitio::group_starts;
    lemma2_to64();
    if !reduced {
        bitio::flag_reads_back(c, z.present);
        let c = c.flag().1;
        if z.present {
            bitio::f_reads_back(c, 4, z.delta_frame_id_length_minus_2 as u64);
            let c = c.f(4).1;
            bitio::f_reads_back(c, 3, z.additional_frame_id_length_minus_1 as u64);
        }
    }
}

} // verus!
