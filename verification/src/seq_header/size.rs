//! How long a sequence header can be.

use vstd::arithmetic::power2::*;
use vstd::prelude::*;

use crate::bitio;
use crate::seq_header::color::{self, Chroma, ColorDescription, Depth};
use crate::seq_header::frame::{self, FrameIds, FrameSize};
use crate::seq_header::points::{self, PointSyntax};
use crate::seq_header::timing::{self, Timing};
use crate::seq_header::tools::{self, Tools};
use crate::seq_header::OperatingPoint;

verus! {

broadcast proof fn be_bits_len(n: nat, v: nat)
    ensures
        (#[trigger] bitio::be_bits(n, v)).len() == n,
{
    bitio::lemma_be_bits_len(n, v);
}

proof fn lemma_uvlc_len(v: u64)
    requires
        v < u32::MAX,
    ensures
        bitio::uvlc_bits(v as nat).len() <= 63,
{
    broadcast use be_bits_len;

    let n = (v + 1) as nat;
    bitio::lemma_floor_log2(n);
    let z = bitio::floor_log2(n);
    if z >= 32 {
        lemma2_to64();
        if z > 32 {
            lemma_pow2_strictly_increases(32, z);
        }
    }
}

pub proof fn lemma_timing_len(w: Seq<bool>, t: Timing)
    requires
        t.canonical(),
    ensures
        timing::timing_bits(w, t).len() <= w.len() + 177,
{
    broadcast use be_bits_len;

    reveal(timing::timing_bits);
    reveal(timing::decoder_model_bits);
    if t.present {
        lemma_uvlc_len(t.num_ticks_per_picture_minus_1);
    }
}

proof fn lemma_point_len(w: Seq<bool>, y: PointSyntax, op: OperatingPoint)
    requires
        y.buffer_delay_length_minus_1 < 32,
    ensures
        points::point_bits(w, y, op).len() <= w.len() + 89,
{
    broadcast use be_bits_len;

    reveal(points::point_bits);
}

pub proof fn lemma_points_len(w: Seq<bool>, y: PointSyntax, ops: Seq<OperatingPoint>)
    requires
        y.buffer_delay_length_minus_1 < 32,
    ensures
        points::points_bits(w, y, ops).len() <= w.len() + 89 * ops.len(),
    decreases ops.len(),
{
    if ops.len() > 0 {
        lemma_points_len(w, y, ops.drop_last());
        lemma_point_len(points::points_bits(w, y, ops.drop_last()), y, ops.last());
    }
}

pub proof fn lemma_frame_size_len(w: Seq<bool>, z: FrameSize)
    requires
        z.canonical(),
    ensures
        frame::frame_size_bits(w, z).len() <= w.len() + 40,
{
    broadcast use be_bits_len;

    reveal(frame::frame_size_bits);
}

pub proof fn lemma_frame_ids_len(w: Seq<bool>, reduced: bool, z: FrameIds)
    ensures
        frame::frame_ids_bits(w, reduced, z).len() <= w.len() + 8,
{
    broadcast use be_bits_len;

    reveal(frame::frame_ids_bits);
}

pub proof fn lemma_tools_len(w: Seq<bool>, reduced: bool, z: Tools)
    ensures
        tools::tools_bits(w, reduced, z).len() <= w.len() + 20,
{
    broadcast use be_bits_len;

    reveal(tools::tools_bits);
    reveal(tools::inter_tools_bits);
    reveal(tools::screen_tools_bits);
}

pub proof fn lemma_depth_len(w: Seq<bool>, profile: u8, z: Depth)
    ensures
        color::depth_bits(w, profile, z).len() <= w.len() + 3,
{
    reveal(color::depth_bits);
}

pub proof fn lemma_description_len(w: Seq<bool>, z: ColorDescription)
    ensures
        color::description_bits(w, z).len() <= w.len() + 25,
{
    broadcast use be_bits_len;

    reveal(color::description_bits);
}

pub proof fn lemma_chroma_len(
    w: Seq<bool>,
    profile: u8,
    depth: Depth,
    desc: ColorDescription,
    z: Chroma,
)
    ensures
        color::chroma_bits(w, profile, depth, desc, z).len() <= w.len() + 6,
{
    broadcast use be_bits_len;

    reveal(color::chroma_bits);
}

} // verus!
