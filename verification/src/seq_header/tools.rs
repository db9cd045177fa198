//! Coding tools section of the sequence header.

use vstd::prelude::*;
use vstd::arithmetic::power2::*;

use crate::bitio::{self, BitReader, BitWriter, Cur};
use crate::error::Error;
use super::{SELECT_INTEGER_MV, SELECT_SCREEN_CONTENT_TOOLS};

verus! {

#[derive(Debug, Clone, Copy, PartialEq, Eq, Structural)]
pub struct Tools {
    pub use_128x128_superblock: bool,
    pub enable_filter_intra: bool,
    pub enable_intra_edge_filter: bool,
    pub inter: InterTools,
    pub enable_superres: bool,
    pub enable_cdef: bool,
    pub enable_restoration: bool,
}

/// The tools that a reduced still picture header leaves out.
#[derive(Debug, Clone, Copy, PartialEq, Eq, Structural)]
pub struct InterTools {
    pub enable_interintra_compound: bool,
    pub enable_masked_compound: bool,
    pub enable_warped_motion: bool,
    pub enable_dual_filter: bool,
    pub enable_order_hint: bool,
    pub enable_jnt_comp: bool,
    pub enable_ref_frame_mvs: bool,
    pub screen: ScreenTools,
    pub order_hint_bits: usize,
}

#[derive(Debug, Clone, Copy, PartialEq, Eq, Structural)]
pub struct ScreenTools {
    pub seq_choose_screen_content_tools: bool,
    pub seq_force_screen_content_tools: u8,
    pub seq_choose_integer_mv: bool,
    pub seq_force_integer_mv: u8,
}

impl ScreenTools {
    pub open spec fn absent() -> ScreenTools {
        ScreenTools {
            seq_choose_screen_content_tools: false,
            seq_force_screen_content_tools: SELECT_SCREEN_CONTENT_TOOLS,
            seq_choose_integer_mv: false,
            seq_force_integer_mv: SELECT_INTEGER_MV,
        }
    }

    pub open spec fn canonical(self) -> bool {
        &&& if self.seq_choose_screen_content_tools {
            self.seq_force_screen_content_tools == SELECT_SCREEN_CONTENT_TOOLS
        } else {
            self.seq_force_screen_content_tools <= 1
        }
        &&& if self.seq_force_screen_content_tools > 0 && !self.seq_choose_integer_mv {
            self.seq_force_integer_mv <= 1
        } else {
            self.seq_force_integer_mv == SELECT_INTEGER_MV
        }
        &&& self.seq_force_screen_content_tools == 0 ==> !self.seq_choose_integer_mv
    }
}

impl InterTools {
    /// The values that a reduced still picture header implies.
    pub open spec fn absent() -> InterTools {
        InterTools {
            enable_interintra_compound: false,
            enable_masked_compound: false,
            enable_warped_motion: false,
            enable_dual_filter: false,
            enable_order_hint: false,
            enable_jnt_comp: false,
            enable_ref_frame_mvs: false,
            screen: ScreenTools::absent(),
            order_hint_bits: 0,
        }
    }

    pub open spec fn canonical(self) -> bool {
        &&& self.screen.canonical()
        &&& if self.enable_order_hint {
            1 <= self.order_hint_bits <= 8
        } else {
            self.order_hint_bits == 0 && !self.enable_jnt_comp && !self.enable_ref_frame_mvs
        }
    }
}

#[verifier::opaque]
pub open spec fn screen_tools_at(c: Cur) -> (ScreenTools, Cur) {
    let (choose_sct, c) = c.flag();
    let (sct, c) = if choose_sct {
        (SELECT_SCREEN_CONTENT_TOOLS as u64, c)
    } else {
        c.f(1)
    };
    let (choose_imv, c) = if sct as u8 > 0 {
        c.flag()
    } else {
        (false, c)
    };
    let (imv, c) = if sct as u8 > 0 && !choose_imv {
        c.f(1)
    } else {
        (SELECT_INTEGER_MV as u64, c)
    };
    (
        ScreenTools {
            seq_choose_screen_content_tools: choose_sct,
            seq_force_screen_content_tools: sct as u8,
            seq_choose_integer_mv: choose_imv,
            seq_force_integer_mv: imv as u8,
        },
        c,
    )
}

#[verifier::opaque]
pub open spec fn inter_tools_at(c: Cur) -> (InterTools, Cur) {
    let (interintra, c) = c.flag();
    let (masked, c) = c.flag();
    let (warped, c) = c.flag();
    let (dual, c) = c.flag();
    let (order_hint, c) = c.flag();
    let (jnt, c) = if order_hint {
        c.flag()
    } else {
        (false, c)
    };
    let (ref_mvs, c) = if order_hint {
        c.flag()
    } else {
        (false, c)
    };
    let (screen, c) = screen_tools_at(c);
    let (bits, c) = if order_hint {
        let (n, c) = c.f(3);
        ((n + 1) as usize, c)
    } else {
        (0, c)
    };
    (
        InterTools {
            enable_interintra_compound: interintra,
            enable_masked_compound: masked,
            enable_warped_motion: warped,
            enable_dual_filter: dual,
            enable_order_hint: order_hint,
            enable_jnt_comp: jnt,
            enable_ref_frame_mvs: ref_mvs,
            screen,
            order_hint_bits: bits,
        },
        c,
    )
}

#[verifier::opaque]
pub open spec fn tools_at(c: Cur, reduced: bool) -> (Tools, Cur) {
    let (sb128, c) = c.flag();
    let (filter_intra, c) = c.flag();
    let (edge, c) = c.flag();
    let (inter, c) = if reduced {
        (InterTools::absent(), c)
    } else {
        inter_tools_at(c)
    };
    let (superres, c) = c.flag();
    let (cdef, c) = c.flag();
    let (restoration, c) = c.flag();
    (
        Tools {
            use_128x128_superblock: sb128,
            enable_filter_intra: filter_intra,
            enable_intra_edge_filter: edge,
            inter,
            enable_superres: superres,
            enable_cdef: cdef,
            enable_restoration: restoration,
        },
        c,
    )
}

#[verifier::opaque]
pub open spec fn screen_tools_bits(w: Seq<bool>, z: ScreenTools) -> Seq<bool> {
    let w = w.push(z.seq_choose_screen_content_tools);
    let w = if z.seq_choose_screen_content_tools {
        w
    } else {
        w + bitio::be_bits(1, z.seq_force_screen_content_tools as nat)
    };
    if z.seq_force_screen_content_tools > 0 {
        let w = w.push(z.seq_choose_integer_mv);
        if z.seq_choose_integer_mv {
            w
        } else {
            w + bitio::be_bits(1, z.seq_force_integer_mv as nat)
        }
    } else {
        w
    }
}

pub broadcast proof fn screen_tools_sticky(c: Cur)
    requires
        c.err is Some,
    ensures
        (#[trigger] screen_tools_at(c)).1 == c,
{
    reveal(screen_tools_at);
}

pub broadcast proof fn screen_tools_starts(t: Seq<bool>, w: Seq<bool>, z: ScreenTools)
    requires
        #[trigger] bitio::starts(t, screen_tools_bits(w, z)),
    ensures
        bitio::starts(t, w),
{
    broadcast use bitio::group_starts;

    reveal(screen_tools_bits);
}

#[verifier::opaque]
pub open spec fn inter_tools_bits(w: Seq<bool>, z: InterTools) -> Seq<bool> {
    let w = w.push(z.enable_interintra_compound);
    let w = w.push(z.enable_masked_compound);
    let w = w.push(z.enable_warped_motion);
    let w = w.push(z.enable_dual_filter);
    let w = w.push(z.enable_order_hint);
    let w = if z.enable_order_hint {
        w.push(z.enable_jnt_comp).push(z.enable_ref_frame_mvs)
    } else {
        w
    };
    let w = screen_tools_bits(w, z.screen);
    if z.enable_order_hint {
        w + bitio::be_bits(3, (z.order_hint_bits - 1) as nat)
    } else {
        w
    }
}

pub broadcast proof fn inter_tools_sticky(c: Cur)
    requires
        c.err is Some,
    ensures
        (#[trigger] inter_tools_at(c)).1 == c,
{
    broadcast use screen_tools_sticky;

    reveal(inter_tools_at);
}

pub broadcast proof fn inter_tools_starts(t: Seq<bool>, w: Seq<bool>, z: InterTools)
    requires
        #[trigger] bitio::starts(t, inter_tools_bits(w, z)),
    ensures
        bitio::starts(t, w),
{
    broadcast use bitio::group_starts, screen_tools_starts;

    reveal(inter_tools_bits);
}

#[verifier::opaque]
pub open spec fn tools_bits(w: Seq<bool>, reduced: bool, z: Tools) -> Seq<bool> {
    let w = w.push(z.use_128x128_superblock);
    let w = w.push(z.enable_filter_intra);
    let w = w.push(z.enable_intra_edge_filter);
    let w = if reduced {
        w
    } else {
        inter_tools_bits(w, z.inter)
    };
    let w = w.push(z.enable_superres);
    let w = w.push(z.enable_cdef);
    w.push(z.enable_restoration)
}

pub broadcast proof fn tools_sticky(c: Cur, reduced: bool)
    requires
        c.err is Some,
    ensures
        (#[trigger] tools_at(c, reduced)).1 == c,
{
    broadcast use inter_tools_sticky;

    reveal(tools_at);
}

pub broadcast proof fn tools_starts(t: Seq<bool>, w: Seq<bool>, reduced: bool, z: Tools)
    requires
        #[trigger] bitio::starts(t, tools_bits(w, reduced, z)),
    ensures
        bitio::starts(t, w),
{
    broadcast use bitio::group_starts, inter_tools_starts;

    reveal(tools_bits);
}

pub(crate) fn screen_tools(r: &mut BitReader) -> (res: Result<ScreenTools, Error>)
    ensures
        bitio::reads(final(r)@, res, screen_tools_at(old(r)@)),
{
    proof {
        reveal(screen_tools_at);
    }
    let choose_sct = r.flag()?;
    let sct: u64 = if choose_sct {
        SELECT_SCREEN_CONTENT_TOOLS as u64
    } else {
        r.f(1)?
    };
    let mut choose_imv = false;
    let mut imv: u64 = SELECT_INTEGER_MV as u64;
    if sct as u8 > 0 {
        choose_imv = r.flag()?;
        if !choose_imv {
            imv = r.f(1)?;
        }
    }
    Ok(
        ScreenTools {
            seq_choose_screen_content_tools: choose_sct,
            seq_force_screen_content_tools: sct as u8,
            seq_choose_integer_mv: choose_imv,
            seq_force_integer_mv: imv as u8,
        },
    )
}

pub(crate) fn inter_tools(r: &mut BitReader) -> (res: Result<InterTools, Error>)
    ensures
        bitio::reads(final(r)@, res, inter_tools_at(old(r)@)),
{
    broadcast use screen_tools_sticky;

    proof {
        reveal(inter_tools_at);
    }
    let enable_interintra_compound = r.flag()?;
    let enable_masked_compound = r.flag()?;
    let enable_warped_motion = r.flag()?;
    let enable_dual_filter = r.flag()?;
    let enable_order_hint = r.flag()?;
    let mut enable_jnt_comp = false;
    let mut enable_ref_frame_mvs = false;
    if enable_order_hint {
        enable_jnt_comp = r.flag()?;
        enable_ref_frame_mvs = r.flag()?;
    }
    let screen = screen_tools(r)?;
    let order_hint_bits: usize = if enable_order_hint {
        proof {
            broadcast use bitio::lemma_reader_ok, bitio::f_consumes;
            lemma2_to64();
        }
        let n = r.f(3)?;
        (n + 1) as usize
    } else {
        0
    };
    Ok(
        InterTools {
            enable_interintra_compound,
            enable_masked_compound,
            enable_warped_motion,
            enable_dual_filter,
            enable_order_hint,
            enable_jnt_comp,
            enable_ref_frame_mvs,
            screen,
            order_hint_bits,
        },
    )
}

pub(crate) fn no_inter_tools() -> (r: InterTools)
    ensures
        r == InterTools::absent(),
{
    InterTools {
        enable_interintra_compound: false,
        enable_masked_compound: false,
        enable_warped_motion: false,
        enable_dual_filter: false,
        enable_order_hint: false,
        enable_jnt_comp: false,
        enable_ref_frame_mvs: false,
        screen: ScreenTools {
            seq_choose_screen_content_tools: false,
            seq_force_screen_content_tools: SELECT_SCREEN_CONTENT_TOOLS,
            seq_choose_integer_mv: false,
            seq_force_integer_mv: SELECT_INTEGER_MV,
        },
        order_hint_bits: 0,
    }
}

pub(crate) fn tools(r: &mut BitReader, reduced: bool) -> (res: Result<Tools, Error>)
    ensures
        bitio::reads(final(r)@, res, tools_at(old(r)@, reduced)),
{
    broadcast use inter_tools_sticky;

    proof {
        reveal(tools_at);
    }
    let use_128x128_superblock = r.flag()?;
    let enable_filter_intra = r.flag()?;
    let enable_intra_edge_filter = r.flag()?;
    let inter = if reduced {
        no_inter_tools()
    } else {
        inter_tools(r)?
    };
    let enable_superres = r.flag()?;
    let enable_cdef = r.flag()?;
    let enable_restoration = r.flag()?;
    Ok(
        Tools {
            use_128x128_superblock,
            enable_filter_intra,
            enable_intra_edge_filter,
            inter,
            enable_superres,
            enable_cdef,
            enable_restoration,
        },
    )
}

pub(crate) fn emit_screen_tools(w: &mut BitWriter, z: ScreenTools)
    requires
        old(w).wf(),
    ensures
        final(w).wf(),
        final(w)@ == screen_tools_bits(old(w)@, z),
{
    proof {
        reveal(screen_tools_bits);
    }
    w.flag(z.seq_choose_screen_content_tools);
    if !z.seq_choose_screen_content_tools {
        w.f(1, z.seq_force_screen_content_tools as u64);
    }
    if z.seq_force_screen_content_tools > 0 {
        w.flag(z.seq_choose_integer_mv);
        if !z.seq_choose_integer_mv {
            w.f(1, z.seq_force_integer_mv as u64);
        }
    }
}

pub(crate) fn emit_inter_tools(w: &mut BitWriter, z: InterTools)
    requires
        old(w).wf(),
        z.enable_order_hint ==> z.order_hint_bits > 0,
    ensures
        final(w).wf(),
        final(w)@ == inter_tools_bits(old(w)@, z),
{
    proof {
        reveal(inter_tools_bits);
    }
    w.flag(z.enable_interintra_compound);
    w.flag(z.enable_masked_compound);
    w.flag(z.enable_warped_motion);
    w.flag(z.enable_dual_filter);
    w.flag(z.enable_order_hint);
    if z.enable_order_hint {
        w.flag(z.enable_jnt_comp);
        w.flag(z.enable_ref_frame_mvs);
    }
    emit_screen_tools(w, z.screen);
    if z.enable_order_hint {
        w.f(3, z.order_hint_bits as u64 - 1);
    }
}

pub(crate) fn emit_tools(w: &mut BitWriter, reduced: bool, z: Tools)
    requires
        old(w).wf(),
        !reduced && z.inter.enable_order_hint ==> z.inter.order_hint_bits > 0,
    ensures
        final(w).wf(),
        final(w)@ == tools_bits(old(w)@, reduced, z),
{
    proof {
        reveal(tools_bits);
    }
    w.flag(z.use_128x128_superblock);
    w.flag(z.enable_filter_intra);
    w.flag(z.enable_intra_edge_filter);
    if !reduced {
        emit_inter_tools(w, z.inter);
    }
    w.flag(z.enable_superres);
    w.flag(z.enable_cdef);
    w.flag(z.enable_restoration);
}

pub proof fn screen_tools_consume(c: Cur)
    requires
        c.ready(),
        screen_tools_at(c).1.err is None,
    ensures
        screen_tools_at(c).0.canonical(),
        screen_tools_at(c).1.reached(c, screen_tools_bits(c.seen(), screen_tools_at(c).0)),
{
    reveal(screen_tools_at);
    reveal(screen_tools_bits);
    broadcast use bitio::group_consumes;
    lemma2_to64();
}

pub proof fn inter_tools_consume(c: Cur)
    requires
        c.ready(),
        inter_tools_at(c).1.err is None,
    ensures
        inter_tools_at(c).0.canonical(),
        inter_tools_at(c).1.reached(c, inter_tools_bits(c.seen(), inter_tools_at(c).0)),
{
    broadcast use screen_tools_sticky;

    reveal(inter_tools_at);
    reveal(inter_tools_bits);
    broadcast use bitio::group_consumes;
    lemma2_to64();
    let (_, c) = c.flag();
    let (_, c) = c.flag();
    let (_, c) = c.flag();
    let (_, c) = c.flag();
    let (order_hint, c) = c.flag();
    let c = if order_hint {
        c.flag().1.flag().1
    } else {
        c
    };
    if c.err is None {
        if screen_tools_at(c).1.err is None {
            screen_tools_consume(c);
        }
    }
}

pub proof fn tools_consume(c: Cur, reduced: bool)
    requires
        c.ready(),
        tools_at(c, reduced).1.err is None,
    ensures
        reduced ==> tools_at(c, reduced).0.inter == InterTools::absent(),
        !reduced ==> tools_at(c, reduced).0.inter.canonical(),
        tools_at(c, reduced).1.reached(c, tools_bits(c.seen(), reduced, tools_at(c, reduced).0)),
{
    broadcast use inter_tools_sticky;

    reveal(tools_at);
    reveal(tools_bits);
    broadcast use bitio::group_consumes;
    let (_, c) = c.flag();
    let (_, c) = c.flag();
    let (_, c) = c.flag();
    if !reduced && c.err is None {
        if inter_tools_at(c).1.err is None {
            inter_tools_consume(c);
        }
    }
}

pub proof fn screen_tools_read_back(c: Cur, z: ScreenTools)
    requires
        z.canonical(),
        c.expects(screen_tools_bits(c.seen(), z)),
    ensures
        screen_tools_at(c).0 == z,
        screen_tools_at(c).1.reached(c, screen_tools_bits(c.seen(), z)),
{
    reveal(screen_tools_at);
    reveal(screen_tools_bits);
    broadcast use bitio::group_starts;
    lemma2_to64();
    bitio::flag_reads_back(c, z.seq_choose_screen_content_tools);
    let c = c.flag().1;
    if !z.seq_choose_screen_content_tools {
        bitio::f_reads_back(c, 1, z.seq_force_screen_content_tools as u64);
    }
    let c = if z.seq_choose_screen_content_tools {
        c
    } else {
        c.f(1).1
    };
    if z.seq_force_screen_content_tools > 0 {
        bitio::flag_reads_back(c, z.seq_choose_integer_mv);
        let c = c.flag().1;
        if !z.seq_choose_integer_mv {
            bitio::f_reads_back(c, 1, z.seq_force_integer_mv as u64);
        }
    }
}

pub proof fn inter_tools_read_back(c: Cur, z: InterTools)
    requires
        z.canonical(),
        c.expects(inter_tools_bits(c.seen(), z)),
    ensures
        inter_tools_at(c).0 == z,
        inter_tools_at(c).1.reached(c, inter_tools_bits(c.seen(), z)),
{
    reveal(inter_tools_at);
    reveal(inter_tools_bits);
    broadcast use {bitio::group_starts, screen_tools_starts};
    lemma2_to64();
    bitio::flag_reads_back(c, z.enable_interintra_compound);
    let c = c.flag().1;
    bitio::flag_reads_back(c, z.enable_masked_compound);
    let c = c.flag().1;
    bitio::flag_reads_back(c, z.enable_warped_motion);
    let c = c.flag().1;
    bitio::flag_reads_back(c, z.enable_dual_filter);
    let c = c.flag().1;
    bitio::flag_reads_back(c, z.enable_order_hint);
    let c = c.flag().1;
    let c = if z.enable_order_hint {
        bitio::flag_reads_back(c, z.enable_jnt_comp);
        let c = c.flag().1;
        bitio::flag_reads_back(c, z.enable_ref_frame_mvs);
        c.flag().1
    } else {
        c
    };
    screen_tools_read_back(c, z.screen);
    let c = screen_tools_at(c).1;
    if z.enable_order_hint {
        bitio::f_reads_back(c, 3, (z.order_hint_bits - 1) as u64);
    }
}

pub proof fn tools_read_back(c: Cur, reduced: bool, z: Tools)
    requires
        reduced ==> z.inter == InterTools::absent(),
        !reduced ==> z.inter.canonical(),
        c.expects(tools_bits(c.seen(), reduced, z)),
    ensures
        tools_at(c, reduced).0 == z,
        tools_at(c, reduced).1.reached(c, tools_bits(c.seen(), reduced, z)),
{
    reveal(tools_at);
    reveal(tools_bits);
    broadcast use {bitio::group_starts, inter_tools_starts};
    bitio::flag_reads_back(c, z.use_128x128_superblock);
    let c = c.flag().1;
    bitio::flag_reads_back(c, z.enable_filter_intra);
    let c = c.flag().1;
    bitio::flag_reads_back(c, z.enable_intra_edge_filter);
    let c = c.flag().1;
    let c = if reduced {
        c
    } else {
        inter_tools_read_back(c, z.inter);
        inter_tools_at(c).1
    };
    bitio::flag_reads_back(c, z.enable_superres);
    let c = c.flag().1;
    bitio::flag_reads_back(c, z.enable_cdef);
    let c = c.flag().1;
    bitio::flag_reads_back(c, z.enable_restoration);
}

pub proof fn lemma_inter_tools_same(a: InterTools, b: InterTools)
    requires
        a.enable_interintra_compound == b.enable_interintra_compound,
        a.enable_masked_compound == b.enable_masked_compound,
        a.enable_warped_motion == b.enable_warped_motion,
        a.enable_dual_filter == b.enable_dual_filter,
        a.enable_order_hint == b.enable_order_hint,
        a.enable_jnt_comp == b.enable_jnt_comp,
        a.enable_ref_frame_mvs == b.enable_ref_frame_mvs,
        a.screen == b.screen,
        a.order_hint_bits == b.order_hint_bits,
    ensures
        a == b,
{
}

pub proof fn lemma_tools_same(a: Tools, b: Tools)
    requires
        a.use_128x128_superblock == b.use_128x128_superblock,
        a.enable_filter_intra == b.enable_filter_intra,
        a.enable_intra_edge_filter == b.enable_intra_edge_filter,
        a.inter == b.inter,
        a.enable_superres == b.enable_superres,
        a.enable_cdef == b.enable_cdef,
        a.enable_restoration == b.enable_restoration,
    ensures
        a == b,
{
}

} // verus!
