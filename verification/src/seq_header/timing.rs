//! Timing and decoder model section of the sequence header.

use vstd::prelude::*;
use vstd::arithmetic::power2::*;

use crate::bitio::{self, BitReader, BitWriter, Cur};
use crate::error::Error;

verus! {

/// The timing and decoder model fields.
#[derive(Debug, Clone, Copy, PartialEq, Eq, Structural)]
pub struct Timing {
    pub present: bool,
    pub num_units_in_display_tick: u32,
    pub time_scale: u32,
    pub equal_picture_interval: bool,
    pub num_ticks_per_picture_minus_1: u64,
    pub model: DecoderModel,
}

#[derive(Debug, Clone, Copy, PartialEq, Eq, Structural)]
pub struct DecoderModel {
    pub present: bool,
    pub buffer_delay_length_minus_1: u8,
    pub num_units_in_decoding_tick: u32,
    pub buffer_removal_time_length_minus_1: u8,
    pub frame_presentation_time_length_minus_1: u8,
}

impl DecoderModel {
    pub open spec fn absent() -> DecoderModel {
        DecoderModel {
            present: false,
            buffer_delay_length_minus_1: 0,
            num_units_in_decoding_tick: 0,
            buffer_removal_time_length_minus_1: 0,
            frame_presentation_time_length_minus_1: 0,
        }
    }

    pub open spec fn canonical(self) -> bool {
        if self.present {
            &&& self.buffer_delay_length_minus_1 < 32
            &&& self.buffer_removal_time_length_minus_1 < 32
            &&& self.frame_presentation_time_length_minus_1 < 32
        } else {
            self == DecoderModel::absent()
        }
    }
}

impl Timing {
    /// Whether the ticks of a picture, where they are written, can be.
    pub open spec fn ticks_fit(self) -> bool {
        self.present && self.equal_picture_interval ==> self.num_ticks_per_picture_minus_1
            < u64::MAX
    }

    pub open spec fn absent() -> Timing {
        Timing {
            present: false,
            num_units_in_display_tick: 0,
            time_scale: 0,
            equal_picture_interval: false,
            num_ticks_per_picture_minus_1: 0,
            model: DecoderModel::absent(),
        }
    }

    pub open spec fn canonical(self) -> bool {
        if self.present {
            &&& self.num_ticks_per_picture_minus_1 < u32::MAX
            &&& !self.equal_picture_interval ==> self.num_ticks_per_picture_minus_1 == 0
            &&& self.model.canonical()
        } else {
            self == Timing::absent()
        }
    }
}

/// decoder_model_info_present_flag and decoder_model_info().
#[verifier::opaque]
pub open spec fn decoder_model_at(c: Cur) -> (DecoderModel, Cur) {
    let (present, c) = c.flag();
    if present {
        let (delay, c) = c.f(5);
        let (tick, c) = c.f(32);
        let (removal, c) = c.f(5);
        let (presentation, c) = c.f(5);
        (
            DecoderModel {
                present: true,
                buffer_delay_length_minus_1: delay as u8,
                num_units_in_decoding_tick: tick as u32,
                buffer_removal_time_length_minus_1: removal as u8,
                frame_presentation_time_length_minus_1: presentation as u8,
            },
            c,
        )
    } else {
        (DecoderModel::absent(), c)
    }
}

/// timing_info_present_flag, timing_info() and the decoder model.
#[verifier::opaque]
pub open spec fn timing_at(c: Cur) -> (Timing, Cur) {
    let (present, c) = c.flag();
    if present {
        let (units, c) = c.f(32);
        let (scale, c) = c.f(32);
        let (equal, c) = c.flag();
        let (ticks, c) = if equal {
            c.uvlc()
        } else {
            (0, c)
        };
        let (model, c) = decoder_model_at(c);
        (
            Timing {
                present: true,
                num_units_in_display_tick: units as u32,
                time_scale: scale as u32,
                equal_picture_interval: equal,
                num_ticks_per_picture_minus_1: ticks,
                model,
            },
            c,
        )
    } else {
        (Timing::absent(), c)
    }
}

/// The bits after `w` once the decoder model fields were written.
#[verifier::opaque]
pub open spec fn decoder_model_bits(w: Seq<bool>, m: DecoderModel) -> Seq<bool> {
    let w = w.push(m.present);
    if m.present {
        let w = w + bitio::be_bits(5, m.buffer_delay_length_minus_1 as nat);
        let w = w + bitio::be_bits(32, m.num_units_in_decoding_tick as nat);
        let w = w + bitio::be_bits(5, m.buffer_removal_time_length_minus_1 as nat);
        w + bitio::be_bits(5, m.frame_presentation_time_length_minus_1 as nat)
    } else {
        w
    }
}

pub broadcast proof fn decoder_model_sticky(c: Cur)
    requires
        c.err is Some,
    ensures
        (#[trigger] decoder_model_at(c)).1 == c,
{
    reveal(decoder_model_at);
}

pub broadcast proof fn decoder_model_starts(t: Seq<bool>, w: Seq<bool>, z: DecoderModel)
    requires
        #[trigger] bitio::starts(t, decoder_model_bits(w, z)),
    ensures
        bitio::starts(t, w),
{
    broadcast use bitio::group_starts;

    reveal(decoder_model_bits);
}

/// The bits after `w` once the timing fields were written.
#[verifier::opaque]
pub open spec fn timing_bits(w: Seq<bool>, t: Timing) -> Seq<bool> {
    let w = w.push(t.present);
    if t.present {
        let w = w + bitio::be_bits(32, t.num_units_in_display_tick as nat);
        let w = w + bitio::be_bits(32, t.time_scale as nat);
        let w = w.push(t.equal_picture_interval);
        let w = if t.equal_picture_interval {
            w + bitio::uvlc_bits(t.num_ticks_per_picture_minus_1 as nat)
        } else {
            w
        };
        decoder_model_bits(w, t.model)
    } else {
        w
    }
}

pub broadcast proof fn timing_sticky(c: Cur)
    requires
        c.err is Some,
    ensures
        (#[trigger] timing_at(c)).1 == c,
{
    broadcast use decoder_model_sticky;

    reveal(timing_at);
}

pub broadcast proof fn timing_starts(t: Seq<bool>, w: Seq<bool>, z: Timing)
    requires
        #[trigger] bitio::starts(t, timing_bits(w, z)),
    ensures
        bitio::starts(t, w),
{
    broadcast use bitio::group_starts, decoder_model_starts;

    reveal(timing_bits);
}

pub(crate) fn decoder_model_info(r: &mut BitReader) -> (res: Result<DecoderModel, Error>)
    ensures
        bitio::reads(final(r)@, res, decoder_model_at(old(r)@)),
{
    proof {
        reveal(decoder_model_at);
    }
    if r.flag()? {
        let delay = r.f(5)?;
        let tick = r.f(32)?;
        let removal = r.f(5)?;
        let presentation = r.f(5)?;
        Ok(
            DecoderModel {
                present: true,
                buffer_delay_length_minus_1: delay as u8,
                num_units_in_decoding_tick: tick as u32,
                buffer_removal_time_length_minus_1: removal as u8,
                frame_presentation_time_length_minus_1: presentation as u8,
            },
        )
    } else {
        Ok(no_decoder_model())
    }
}

pub(crate) fn no_decoder_model() -> (r: DecoderModel)
    ensures
        r == DecoderModel::absent(),
{
    DecoderModel {
        present: false,
        buffer_delay_length_minus_1: 0,
        num_units_in_decoding_tick: 0,
        buffer_removal_time_length_minus_1: 0,
        frame_presentation_time_length_minus_1: 0,
    }
}

pub(crate) fn timing_info(r: &mut BitReader) -> (res: Result<Timing, Error>)
    ensures
        bitio::reads(final(r)@, res, timing_at(old(r)@)),
{
    broadcast use decoder_model_sticky;

    proof {
        reveal(timing_at);
    }
    if r.flag()? {
        let units = r.f(32)?;
        let scale = r.f(32)?;
        let equal_picture_interval = r.flag()?;
        let ticks: u64 = if equal_picture_interval {
            r.uvlc()?
        } else {
            0
        };
        let model = decoder_model_info(r)?;
        Ok(
            Timing {
                present: true,
                num_units_in_display_tick: units as u32,
                time_scale: scale as u32,
                equal_picture_interval,
                num_ticks_per_picture_minus_1: ticks,
                model,
            },
        )
    } else {
        Ok(no_timing())
    }
}

pub(crate) fn no_timing() -> (r: Timing)
    ensures
        r == Timing::absent(),
{
    Timing {
        present: false,
        num_units_in_display_tick: 0,
        time_scale: 0,
        equal_picture_interval: false,
        num_ticks_per_picture_minus_1: 0,
        model: no_decoder_model(),
    }
}

pub(crate) fn emit_timing(w: &mut BitWriter, t: Timing)
    requires
        old(w).wf(),
        t.ticks_fit(),
    ensures
        final(w).wf(),
        final(w)@ == timing_bits(old(w)@, t),
{
    proof {
        reveal(timing_bits);
        reveal(decoder_model_bits);
    }
    w.flag(t.present);
    if t.present {
        w.f(32, t.num_units_in_display_tick as u64);
        w.f(32, t.time_scale as u64);
        w.flag(t.equal_picture_interval);
        if t.equal_picture_interval {
            w.uvlc(t.num_ticks_per_picture_minus_1);
        }
        w.flag(t.model.present);
        if t.model.present {
            w.f(5, t.model.buffer_delay_length_minus_1 as u64);
            w.f(32, t.model.num_units_in_decoding_tick as u64);
            w.f(5, t.model.buffer_removal_time_length_minus_1 as u64);
            w.f(5, t.model.frame_presentation_time_length_minus_1 as u64);
        }
    }
}

pub proof fn decoder_model_consumes(c: Cur)
    requires
        c.ready(),
        decoder_model_at(c).1.err is None,
    ensures
        decoder_model_at(c).0.canonical(),
        decoder_model_at(c).1.reached(c, decoder_model_bits(c.seen(), decoder_model_at(c).0)),
{
    reveal(decoder_model_at);
    reveal(decoder_model_bits);
    broadcast use bitio::group_consumes;
    lemma2_to64();
}

pub proof fn timing_consumes(c: Cur)
    requires
        c.ready(),
        timing_at(c).1.err is None,
    ensures
        timing_at(c).0.canonical(),
        timing_at(c).1.reached(c, timing_bits(c.seen(), timing_at(c).0)),
{
    broadcast use decoder_model_sticky;

    reveal(timing_at);
    reveal(timing_bits);
    broadcast use bitio::group_consumes;
    lemma2_to64();
    let (present, c) = c.flag();
    if present {
        let (units, c) = c.f(32);
        let (scale, c) = c.f(32);
        let (equal, c) = c.flag();
        let (ticks, c) = if equal {
            c.uvlc()
        } else {
            (0, c)
        };
        if c.err is None {
            decoder_model_consumes(c);
        }
    }
}

pub proof fn decoder_model_reads_back(c: Cur, m: DecoderModel)
    requires
        m.canonical(),
        c.expects(decoder_model_bits(c.seen(), m)),
    ensures
        decoder_model_at(c).0 == m,
        decoder_model_at(c).1.reached(c, decoder_model_bits(c.seen(), m)),
{
    reveal(decoder_model_at);
    reveal(decoder_model_bits);
    broadcast use bitio::group_starts;
    lemma2_to64();
    bitio::flag_reads_back(c, m.present);
    let c = c.flag().1;
    if m.present {
        bitio::f_reads_back(c, 5, m.buffer_delay_length_minus_1 as u64);
        let c = c.f(5).1;
        bitio::f_reads_back(c, 32, m.num_units_in_decoding_tick as u64);
        let c = c.f(32).1;
        bitio::f_reads_back(c, 5, m.buffer_removal_time_length_minus_1 as u64);
        let c = c.f(5).1;
        bitio::f_reads_back(c, 5, m.frame_presentation_time_length_minus_1 as u64);
    }
}

pub proof fn timing_reads_back(c: Cur, t: Timing)
    requires
        t.canonical(),
        c.expects(timing_bits(c.seen(), t)),
    ensures
        timing_at(c).0 == t,
        timing_at(c).1.reached(c, timing_bits(c.seen(), t)),
{
    reveal(timing_at);
    reveal(timing_bits);
    broadcast use {bitio::group_starts, decoder_model_starts};
    lemma2_to64();
    bitio::flag_reads_back(c, t.present);
    let c = c.flag().1;
    if t.present {
        bitio::f_reads_back(c, 32, t.num_units_in_display_tick as u64);
        let c = c.f(32).1;
        bitio::f_reads_back(c, 32, t.time_scale as u64);
        let c = c.f(32).1;
        bitio::flag_reads_back(c, t.equal_picture_interval);
        let c = c.flag().1;
        let ticks = t.num_ticks_per_picture_minus_1;
        if t.equal_picture_interval {
            bitio::uvlc_reads_back(c, ticks);
            decoder_model_reads_back(c.uvlc().1, t.model);
        } else {
            decoder_model_reads_back(c, t.model);
        }
    }
}

} // verus!
