//! Operating points of the sequence header.

use vstd::prelude::*;
use vstd::arithmetic::power2::*;

use crate::bitio::{self, BitReader, BitWriter, Cur};
use crate::error::Error;
use super::OperatingPoint;

verus! {

/// The fields that govern which parts an operating point entry has.
#[derive(Debug, Clone, Copy, PartialEq, Eq, Structural)]
pub struct PointSyntax {
    pub decoder_model_info_present: bool,
    pub buffer_delay_length_minus_1: u8,
    pub initial_display_delay_present: bool,
}

impl OperatingPoint {
    pub open spec fn canonical(self, y: PointSyntax) -> bool {
        &&& self.idc < 4096
        &&& self.seq_level_idx < 32
        &&& self.seq_level_idx <= 7 ==> !self.seq_tier
        &&& self.decoder_model_present ==> {
            &&& y.decoder_model_info_present
            &&& self.decoder_buffer_delay < pow2((y.buffer_delay_length_minus_1 + 1) as nat)
            &&& self.encoder_buffer_delay < pow2((y.buffer_delay_length_minus_1 + 1) as nat)
        }
        &&& !self.decoder_model_present ==> {
            &&& self.decoder_buffer_delay == 0
            &&& self.encoder_buffer_delay == 0
            &&& !self.low_delay_mode
        }
        &&& self.initial_display_delay_present ==> {
            &&& y.initial_display_delay_present
            &&& self.initial_display_delay_minus_1 < 16
        }
        &&& !self.initial_display_delay_present ==> self.initial_display_delay_minus_1 == 0
    }
}

/// The decoder model part of an operating point: its flag and
/// operating_parameters_info().
pub open spec fn point_model_at(c: Cur, y: PointSyntax, op: OperatingPoint) -> (OperatingPoint, Cur) {
    if y.decoder_model_info_present {
        let (present, c) = c.flag();
        if present {
            let (decoder, c) = c.f((y.buffer_delay_length_minus_1 + 1) as nat);
            let (encoder, c) = c.f((y.buffer_delay_length_minus_1 + 1) as nat);
            let (low, c) = c.flag();
            (
                OperatingPoint {
                    decoder_model_present: true,
                    decoder_buffer_delay: decoder,
                    encoder_buffer_delay: encoder,
                    low_delay_mode: low,
                    ..op
                },
                c,
            )
        } else {
            (op, c)
        }
    } else {
        (op, c)
    }
}

/// The initial display delay part of an operating point.
pub open spec fn point_delay_at(c: Cur, y: PointSyntax, op: OperatingPoint) -> (OperatingPoint, Cur) {
    if y.initial_display_delay_present {
        let (present, c) = c.flag();
        if present {
            let (delay, c) = c.f(4);
            (
                OperatingPoint {
                    initial_display_delay_present: true,
                    initial_display_delay_minus_1: delay as u8,
                    ..op
                },
                c,
            )
        } else {
            (op, c)
        }
    } else {
        (op, c)
    }
}

/// One operating point entry.
#[verifier::opaque]
pub open spec fn point_at(c: Cur, y: PointSyntax) -> (OperatingPoint, Cur) {
    let (idc, c) = c.f(12);
    let (level, c) = c.f(5);
    let (tier, c) = if level as u8 > 7 {
        c.flag()
    } else {
        (false, c)
    };
    let op = OperatingPoint {
        idc: idc as u16,
        seq_level_idx: level as u8,
        seq_tier: tier,
        ..OperatingPoint::zero()
    };
    let (op, c) = point_model_at(c, y, op);
    point_delay_at(c, y, op)
}

/// `n` operating point entries.
pub open spec fn points_at(c: Cur, y: PointSyntax, n: nat) -> (Seq<OperatingPoint>, Cur)
    decreases n,
{
    if n == 0 {
        (Seq::empty(), c)
    } else {
        let (ops, c) = points_at(c, y, (n - 1) as nat);
        let (op, c) = point_at(c, y);
        (ops.push(op), c)
    }
}

#[verifier::opaque]
pub open spec fn point_bits(w: Seq<bool>, y: PointSyntax, op: OperatingPoint) -> Seq<bool> {
    let w = w + bitio::be_bits(12, op.idc as nat);
    let w = w + bitio::be_bits(5, op.seq_level_idx as nat);
    let w = if op.seq_level_idx > 7 {
        w.push(op.seq_tier)
    } else {
        w
    };
    let w = if y.decoder_model_info_present {
        let w = w.push(op.decoder_model_present);
        if op.decoder_model_present {
            let n = (y.buffer_delay_length_minus_1 + 1) as nat;
            let w = w + bitio::be_bits(n, op.decoder_buffer_delay as nat);
            let w = w + bitio::be_bits(n, op.encoder_buffer_delay as nat);
            w.push(op.low_delay_mode)
        } else {
            w
        }
    } else {
        w
    };
    if y.initial_display_delay_present {
        let w = w.push(op.initial_display_delay_present);
        if op.initial_display_delay_present {
            w + bitio::be_bits(4, op.initial_display_delay_minus_1 as nat)
        } else {
            w
        }
    } else {
        w
    }
}

pub broadcast proof fn point_sticky(c: Cur, y: PointSyntax)
    requires
        c.err is Some,
    ensures
        (#[trigger] point_at(c, y)).1 == c,
{
    reveal(point_at);
}

pub broadcast proof fn point_starts(t: Seq<bool>, w: Seq<bool>, y: PointSyntax, z: OperatingPoint)
    requires
        #[trigger] bitio::starts(t, point_bits(w, y, z)),
    ensures
        bitio::starts(t, w),
{
    broadcast use bitio::group_starts;

    reveal(point_bits);
}

pub open spec fn points_bits(w: Seq<bool>, y: PointSyntax, ops: Seq<OperatingPoint>) -> Seq<bool>
    decreases ops.len(),
{
    if ops.len() == 0 {
        w
    } else {
        point_bits(points_bits(w, y, ops.drop_last()), y, ops.last())
    }
}

pub(crate) fn operating_point(r: &mut BitReader, y: PointSyntax) -> (res: Result<OperatingPoint, Error>)
    ensures
        bitio::reads(final(r)@, res, point_at(old(r)@, y)),
{
    proof {
        reveal(point_at);
    }
    let idc = r.f(12)?;
    let level = r.f(5)?;
    let mut op = OperatingPoint::default();
    op.idc = idc as u16;
    op.seq_level_idx = level as u8;
    if op.seq_level_idx > 7 {
        op.seq_tier = r.flag()?;
    }
    if y.decoder_model_info_present {
        op.decoder_model_present = r.flag()?;
        if op.decoder_model_present {
            let n: usize = y.buffer_delay_length_minus_1 as usize + 1;
            op.decoder_buffer_delay = r.f(n)?;
            op.encoder_buffer_delay = r.f(n)?;
            op.low_delay_mode = r.flag()?;
        }
    }
    if y.initial_display_delay_present {
        op.initial_display_delay_present = r.flag()?;
        if op.initial_display_delay_present {
            let delay = r.f(4)?;
            op.initial_display_delay_minus_1 = delay as u8;
        }
    }
    Ok(op)
}

/// A cursor that failed stays as it is.
pub proof fn lemma_points_sticky(c: Cur, y: PointSyntax, i: nat, n: nat)
    requires
        i <= n,
        points_at(c, y, i).1.err is Some,
    ensures
        points_at(c, y, n).1 == points_at(c, y, i).1,
    decreases n,
{
    broadcast use point_sticky;

    if i < n {
        lemma_points_sticky(c, y, i, (n - 1) as nat);
    }
}

pub(crate) fn operating_points(r: &mut BitReader, y: PointSyntax, n: usize) -> (res: Result<
    Vec<OperatingPoint>,
    Error,
>)
    ensures
        match res {
            Ok(v) => bitio::reads(
                final(r)@,
                Ok::<Seq<OperatingPoint>, Error>(v@),
                points_at(old(r)@, y, n as nat),
            ),
            Err(e) => points_at(old(r)@, y, n as nat).1.err == Some(e),
        },
{
    broadcast use bitio::lemma_reader_ok;
    let mut out: Vec<OperatingPoint> = Vec::new();
    let ghost start = r@;
    assert(out@ =~= Seq::empty());
    while out.len() < n
        invariant
            out@.len() <= n,
            points_at(start, y, out@.len()) == (out@, r@),
            r@.err is None,
            start == old(r)@,
        decreases n - out@.len(),
    {
        let ghost k = out@.len();
        let res = operating_point(r, y);
        proof {
            if res is Err {
                lemma_points_sticky(start, y, k + 1, n as nat);
            }
        }
        let op = res?;
        out.push(op);
        assert(out@.drop_last() =~= points_at(start, y, k).0);
    }
    Ok(out)
}

/// Whether the buffer delays, where they are written, fit 64 bits.
pub open spec fn delay_fits(y: PointSyntax, op: OperatingPoint) -> bool {
    y.decoder_model_info_present && op.decoder_model_present ==> y.buffer_delay_length_minus_1 < 64
}

pub open spec fn delays_fit(y: PointSyntax, ops: Seq<OperatingPoint>) -> bool {
    forall|i: int| 0 <= i < ops.len() ==> delay_fits(y, #[trigger] ops[i])
}

pub(crate) fn emit_operating_point(w: &mut BitWriter, y: PointSyntax, op: OperatingPoint)
    requires
        old(w).wf(),
        delay_fits(y, op),
    ensures
        final(w).wf(),
        final(w)@ == point_bits(old(w)@, y, op),
{
    proof {
        reveal(point_bits);
    }
    w.f(12, op.idc as u64);
    w.f(5, op.seq_level_idx as u64);
    if op.seq_level_idx > 7 {
        w.flag(op.seq_tier);
    }
    if y.decoder_model_info_present {
        w.flag(op.decoder_model_present);
        if op.decoder_model_present {
            let n: usize = y.buffer_delay_length_minus_1 as usize + 1;
            w.f(n, op.decoder_buffer_delay);
            w.f(n, op.encoder_buffer_delay);
            w.flag(op.low_delay_mode);
        }
    }
    if y.initial_display_delay_present {
        w.flag(op.initial_display_delay_present);
        if op.initial_display_delay_present {
            w.f(4, op.initial_display_delay_minus_1 as u64);
        }
    }
}

pub(crate) fn emit_operating_points(w: &mut BitWriter, y: PointSyntax, ops: &Vec<OperatingPoint>)
    requires
        old(w).wf(),
        delays_fit(y, ops@),
    ensures
        final(w).wf(),
        final(w)@ == points_bits(old(w)@, y, ops@),
{
    let mut i: usize = 0;
    assert(ops@.take(0) =~= Seq::empty());
    while i < ops.len()
        invariant
            i <= ops@.len(),
            w.wf(),
            delays_fit(y, ops@),
            w@ == points_bits(old(w)@, y, ops@.take(i as int)),
        decreases ops@.len() - i,
    {
        emit_operating_point(w, y, ops[i]);
        i = i + 1;
        assert(ops@.take(i as int).drop_last() =~= ops@.take(i - 1));
    }
    assert(ops@.take(i as int) =~= ops@);
}

pub proof fn point_consumes(c: Cur, y: PointSyntax)
    requires
        c.ready(),
        point_at(c, y).1.err is None,
    ensures
        point_at(c, y).0.canonical(y),
        point_at(c, y).1.reached(c, point_bits(c.seen(), y, point_at(c, y).0)),
{
    reveal(point_at);
    reveal(point_bits);
    broadcast use bitio::group_consumes;
    lemma2_to64();
}

pub proof fn points_consume(c: Cur, y: PointSyntax, n: nat)
    requires
        c.ready(),
        points_at(c, y, n).1.err is None,
    ensures
        points_at(c, y, n).0.len() == n,
        forall|i: int| 0 <= i < n ==> (#[trigger] points_at(c, y, n).0[i]).canonical(y),
        points_at(c, y, n).1.reached(c, points_bits(c.seen(), y, points_at(c, y, n).0)),
    decreases n,
{
    if n > 0 {
        let m = (n - 1) as nat;
        let c1 = points_at(c, y, m).1;
        if c1.err is Some {
            lemma_points_sticky(c, y, m, n);
        }
        points_consume(c, y, m);
        point_consumes(c1, y);
        assert(points_at(c, y, n).0.drop_last() =~= points_at(c, y, m).0);
    }
}

pub proof fn point_reads_back(c: Cur, y: PointSyntax, op: OperatingPoint)
    requires
        op.canonical(y),
        y.buffer_delay_length_minus_1 < 32,
        c.expects(point_bits(c.seen(), y, op)),
    ensures
        point_at(c, y).0 == op,
        point_at(c, y).1.reached(c, point_bits(c.seen(), y, op)),
{
    reveal(point_at);
    reveal(point_bits);
    broadcast use bitio::group_starts;
    lemma2_to64();
    bitio::f_reads_back(c, 12, op.idc as u64);
    let c = c.f(12).1;
    bitio::f_reads_back(c, 5, op.seq_level_idx as u64);
    let c = c.f(5).1;
    if op.seq_level_idx > 7 {
        bitio::flag_reads_back(c, op.seq_tier);
    }
    let c = if op.seq_level_idx > 7 {
        c.flag().1
    } else {
        c
    };
    let c = if y.decoder_model_info_present {
        bitio::flag_reads_back(c, op.decoder_model_present);
        let c = c.flag().1;
        if op.decoder_model_present {
            let n = (y.buffer_delay_length_minus_1 + 1) as nat;
            bitio::f_reads_back(c, n, op.decoder_buffer_delay);
            let c = c.f(n).1;
            bitio::f_reads_back(c, n, op.encoder_buffer_delay);
            let c = c.f(n).1;
            bitio::flag_reads_back(c, op.low_delay_mode);
            c.flag().1
        } else {
            c
        }
    } else {
        c
    };
    if y.initial_display_delay_present {
        bitio::flag_reads_back(c, op.initial_display_delay_present);
        let c = c.flag().1;
        if op.initial_display_delay_present {
            bitio::f_reads_back(c, 4, op.initial_display_delay_minus_1 as u64);
        }
    }
}

pub proof fn lemma_points_bits_starts(t: Seq<bool>, w: Seq<bool>, y: PointSyntax, ops: Seq<OperatingPoint>)
    requires
        bitio::starts(t, points_bits(w, y, ops)),
    ensures
        bitio::starts(t, w),
    decreases ops.len(),
{
    if ops.len() > 0 {
        point_starts(t, points_bits(w, y, ops.drop_last()), y, ops.last());
        lemma_points_bits_starts(t, w, y, ops.drop_last());
    }
}

pub proof fn points_read_back(c: Cur, y: PointSyntax, ops: Seq<OperatingPoint>)
    requires
        forall|i: int| 0 <= i < ops.len() ==> (#[trigger] ops[i]).canonical(y),
        y.buffer_delay_length_minus_1 < 32,
        c.expects(points_bits(c.seen(), y, ops)),
    ensures
        points_at(c, y, ops.len()).0 == ops,
        points_at(c, y, ops.len()).1.reached(c, points_bits(c.seen(), y, ops)),
    decreases ops.len(),
{
    if ops.len() == 0 {
        assert(ops =~= Seq::empty());
    } else {
        let head = ops.drop_last();
        point_starts(c.bits, points_bits(c.seen(), y, head), y, ops.last());
        points_read_back(c, y, head);
        point_reads_back(points_at(c, y, head.len()).1, y, ops.last());
        assert(head.push(ops.last()) =~= ops);
    }
}

} // verus!
