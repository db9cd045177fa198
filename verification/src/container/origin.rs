//! Where the rate, the size and the units of a read stream come from.

use vstd::arithmetic::power2::*;
use vstd::prelude::*;

use crate::container::geometry;
use crate::container::stream;
use crate::container::{self, ContainerError, Format, Input, InputView};
use crate::error::Error;
use crate::fields;
use crate::ivf;
use crate::obu::{self, Obu};
use crate::seq_header::{self, Header, SequenceHeader};
use crate::uheader;
use crate::uheader::writer::frame::{self, Frame};
use crate::uheader::writer::walk;

verus! {

/// Whether OBU `k` of unit `n` is the first sequence header of the units.
pub open spec fn first_header_at(tus: Seq<Seq<u8>>, n: int, k: int, sh: Header) -> bool {
    let obus = obu::obus_of(tus[n])->Ok_0;
    &&& 0 <= n < tus.len()
    &&& 0 <= k < obus.len()
    &&& obus[k].obu_type is SequenceHeader
    &&& seq_header::header_of(obus[k].payload) == Ok::<Header, Error>(sh)
    &&& forall|i: int| 0 <= i < k ==> !((#[trigger] obus[i]).obu_type is SequenceHeader)
    &&& forall|m: int, i: int|
        0 <= m < n && 0 <= i < obu::obus_of(tus[m])->Ok_0.len() ==> !((
        #[trigger] obu::obus_of(tus[m])->Ok_0[i]).obu_type is SequenceHeader)
}

proof fn lemma_first(obus: stream::Unit) -> (k: int)
    ensures
        container::first_header(obus) matches Some(payload) ==> {
            &&& 0 <= k < obus.len()
            &&& obus[k].obu_type is SequenceHeader
            &&& obus[k].payload == payload
            &&& forall|i: int| 0 <= i < k ==> !((#[trigger] obus[i]).obu_type is SequenceHeader)
        },
        container::first_header(obus) is None ==> forall|i: int|
            0 <= i < obus.len() ==> !((#[trigger] obus[i]).obu_type is SequenceHeader),
    decreases obus.len(),
{
    if obus.len() == 0 {
        0
    } else if obus[0].obu_type is SequenceHeader {
        0
    } else {
        let rest = obus.skip(1);
        let k = lemma_first(rest);
        assert forall|i: int| 0 < i < obus.len() implies obus[i] == #[trigger] rest[i - 1] by {}
        if container::first_header(obus) is Some {
            assert forall|i: int| 0 <= i < k + 1 implies !((
            #[trigger] obus[i]).obu_type is SequenceHeader) by {
                if i > 0 {
                    assert(obus[i] == rest[i - 1]);
                }
            }
        } else {
            assert forall|i: int| 0 <= i < obus.len() implies !((
            #[trigger] obus[i]).obu_type is SequenceHeader) by {
                if i > 0 {
                    assert(obus[i] == rest[i - 1]);
                }
            }
        }
        k + 1
    }
}

proof fn lemma_demuxed(tus: Seq<Seq<u8>>) -> (r: (int, int))
    requires
        container::demuxed(tus) is Ok,
    ensures
        container::demuxed(tus)->Ok_0.header matches Some(sh) ==> first_header_at(
            tus,
            r.0,
            r.1,
            sh,
        ),
        container::demuxed(tus)->Ok_0.header is None ==> forall|m: int, i: int|
            0 <= m < tus.len() && 0 <= i < obu::obus_of(tus[m])->Ok_0.len() ==> !((
            #[trigger] obu::obus_of(tus[m])->Ok_0[i]).obu_type is SequenceHeader),
    decreases tus.len(),
{
    if tus.len() == 0 {
        (0, 0)
    } else {
        let past = tus.drop_last();
        let (n, k) = lemma_demuxed(past);
        let d = container::demuxed(past)->Ok_0;
        let obus = obu::obus_of(tus.last())->Ok_0;
        let j = lemma_first(obus);
        assert forall|m: int| 0 <= m < past.len() implies past[m] == #[trigger] tus[m] by {}
        if d.header is Some {
            assert(past[n] == tus[n]);
            (n, k)
        } else {
            let last = tus.len() - 1;
            assert forall|m: int, i: int|
                0 <= m < last && 0 <= i < obu::obus_of(tus[m])->Ok_0.len() implies !((
            #[trigger] obu::obus_of(tus[m])->Ok_0[i]).obu_type is SequenceHeader) by {
                assert(past[m] == tus[m]);
                assert(!(obu::obus_of(past[m])->Ok_0[i].obu_type is SequenceHeader));
            }
            (last, j)
        }
    }
}

/// A stream that carries no rate of its own has the one that its first sequence
/// header declares: `time_scale` ticks make a second, and a picture lasts as
/// many units of ticks as the header says. Without that, it is 30 pictures a
/// second. The two numbers have no common divisor.
pub proof fn streams_have_the_declared_rate(
    tus: Seq<Seq<u8>>,
    format: Format,
    input: Input,
    r: SequenceHeader,
    n: int,
    k: int,
)
    requires
        container::finished(tus, format) == Ok::<InputView, ContainerError>(input@),
        first_header_at(tus, n, k, r@),
    ensures
        ({
            let f = input.ivf;
            if r.timing_info_present && r.equal_picture_interval && r.num_units_in_display_tick > 0
                && r.time_scale > 0 {
                &&& f.timebase_den * (r.num_units_in_display_tick * (
                r.num_ticks_per_picture_minus_1 + 1)) == r.time_scale * f.timebase_num
                &&& ivf::gcd_of(f.timebase_den as nat, f.timebase_num as nat) == 1
            } else {
                f.timebase_den == 30 && f.timebase_num == 1
            }
        }),
        input.format == format,
{
    let (m, j) = lemma_demuxed(tus);
    let d = container::demuxed(tus)->Ok_0;
    let sh = d.header->Some_0;
    assert(first_header_at(tus, m, j, sh));
    if m < n {
        assert(!(obu::obus_of(tus[m])->Ok_0[j].obu_type is SequenceHeader));
    } else if n < m {
        assert(!(obu::obus_of(tus[n])->Ok_0[k].obu_type is SequenceHeader));
    }
    assert(m == n);
    assert(j == k);
    assert(sh == r@);
    assert(r@.timing == r.timing());
    if r.timing_info_present && r.equal_picture_interval && r.num_units_in_display_tick > 0
        && r.time_scale > 0 {
        let period = (r.num_units_in_display_tick * (r.num_ticks_per_picture_minus_1 + 1)) as nat;
        assert(period > 0) by (nonlinear_arith)
            requires
                period == r.num_units_in_display_tick * (r.num_ticks_per_picture_minus_1 + 1),
                r.num_units_in_display_tick > 0,
        ;
        ivf::reduced_is_lowest_terms(r.time_scale as nat, period);
    }
}

/// The units of a read stream are numbered from zero, and each holds the OBUs
/// of its own unit in order, all but the delimiters behind its first OBU.
pub proof fn read_units_keep_their_obus(tus: Seq<Seq<u8>>, format: Format, input: Input, i: int)
    requires
        container::finished(tus, format) == Ok::<InputView, ContainerError>(input@),
        0 <= i < tus.len(),
        tus[i].len() < pow2(56),
        tus[i].len() > 0,
    ensures
        input.ivf.frames@.len() == tus.len(),
        input.ivf.frames@[i].0 == i as u64,
        ({
            let given = obu::obus_of(tus[i])->Ok_0;
            let kept = obu::obus_of(input.ivf.frames@[i].1@);
            &&& obu::obus_of(tus[i]) is Ok
            &&& kept is Ok
            &&& kept->Ok_0 == seq![given[0]] + given.skip(1).filter(
                |o: Obu<Seq<u8>>| !(o.obu_type is TemporalDelimiter),
            )
        }),
{
    let d = container::demuxed(tus)->Ok_0;
    lemma_units(tus, i);
    let f = input.ivf.frames@;
    assert(ivf::packets(f) == ivf::numbered(d.frames));
    assert(ivf::packets(f).len() == f.len());
    assert(ivf::packets(f)[i] == (f[i].0, f[i].1@));
    assert(ivf::numbered(d.frames)[i] == (i as u64, d.frames[i]));
    let given = obu::obus_of(tus[i])->Ok_0;
    assert(given.len() > 0);
    container::canonical_unit_has_only_a_leading_td(tus[i]);
    lemma_cleaned_written(tus[i]);
    lemma_filter(given.skip(1));
}

proof fn lemma_units(tus: Seq<Seq<u8>>, i: int)
    requires
        container::demuxed(tus) is Ok,
        0 <= i < tus.len(),
    ensures
        container::demuxed(tus)->Ok_0.frames.len() == tus.len(),
        obu::obus_of(tus[i]) is Ok,
        container::demuxed(tus)->Ok_0.frames[i] == obu::obus_bytes(
            container::cleaned(obu::obus_of(tus[i])->Ok_0),
        ),
    decreases tus.len(),
{
    let past = tus.drop_last();
    if i < past.len() {
        lemma_units(past, i);
        assert(past[i] == tus[i]);
    } else if past.len() > 0 {
        lemma_units(past, 0);
    }
}

/// What is left of a unit is split as it was.
proof fn lemma_cleaned_written(tu: Seq<u8>)
    requires
        obu::obus_of(tu) is Ok,
        tu.len() < pow2(56),
    ensures
        obu::obus_of(obu::obus_bytes(container::cleaned(obu::obus_of(tu)->Ok_0))) == Ok::<
            stream::Unit,
            Error,
        >(container::cleaned(obu::obus_of(tu)->Ok_0)),
{
    let obus = obu::obus_of(tu)->Ok_0;
    obu::lemma_payloads_within(tu);
    let kept = container::cleaned(obus);
    if obus.len() > 0 {
        let body = obus.skip(1);
        stream::lemma_without_tds_within(body);
        assert forall|i: int| 0 <= i < kept.len() implies (#[trigger] kept[i]).payload.len()
            < pow2(56) by {
            if i > 0 {
                let o = stream::without_tds(body)[i - 1];
                let k = choose|k: int| 0 <= k < body.len() && body[k] == o;
                assert(obus[k + 1] == o);
            }
        }
    }
    obu::obus_round_trip(kept);
}

proof fn lemma_filter(obus: stream::Unit)
    ensures
        stream::without_tds(obus) == obus.filter(
            |o: Obu<Seq<u8>>| !(o.obu_type is TemporalDelimiter),
        ),
    decreases obus.len(),
{
    reveal(Seq::filter);
    if obus.len() > 0 {
        lemma_filter(obus.drop_last());
    }
}

/// A stream that carries no size of its own has that of its first picture: where
/// its first unit holds a sequence header and behind it a frame that was
/// written as an intra frame, that frame's full width and its height.
pub proof fn streams_have_the_size_of_their_first_picture(
    tus: Seq<Seq<u8>>,
    format: Format,
    input: Input,
    r: SequenceHeader,
    k: int,
    f: int,
    h: Frame,
)
    requires
        container::finished(tus, format) == Ok::<InputView, ContainerError>(input@),
        input.ivf.frames@.len() > 0,
        ({
            let obus = obu::obus_of(input.ivf.frames@[0].1@)->Ok_0;
            &&& obu::obus_of(input.ivf.frames@[0].1@) is Ok
            &&& 0 <= k < f < obus.len()
            &&& obus[k].obu_type is SequenceHeader
            &&& seq_header::header_of(obus[k].payload) == Ok::<Header, Error>(r@)
            &&& forall|i: int|
                0 <= i < f && i != k ==> !((#[trigger] obus[i]).obu_type is SequenceHeader
                    || obus[i].obu_type is Frame || obus[i].obu_type is FrameHeader)
            &&& obus[f].obu_type is Frame || obus[f].obu_type is FrameHeader
            &&& 8 * obus[f].payload.len() <= usize::MAX
            &&& fields::lead(
                obus[f].payload,
                frame::frame_fields(r, uheader::blank_slots(), h),
            )
        }),
        !r.reduced_still_picture_header && !r.film_grain_params_present
            && !r.frame_id_numbers_present,
        !r.decoder_model_info_present || r.equal_picture_interval,
        h.valid(r, uheader::blank_slots()),
        h.intra(),
    ensures
        input.ivf.width == h.size.width,
        input.ivf.height == h.size.height,
{
    let d = container::demuxed(tus)->Ok_0;
    let frames = input.ivf.frames@;
    assert(ivf::packets(frames) == ivf::numbered(d.frames));
    assert(ivf::packets(frames).len() == frames.len());
    assert(ivf::packets(frames)[0].1 == frames[0].1@);
    assert(ivf::numbered(d.frames)[0].1 == d.frames[0]);
    let obus = obu::obus_of(d.frames[0])->Ok_0;
    seq_header::parsed_header_re_emits(obus[k].payload);
    let payload = obus[f].payload;
    walk::the_walk_undoes_the_writer(payload, r, uheader::blank_slots(), h);
    walk::the_short_reading_agrees(payload, r, uheader::blank_slots(), h);
    let one = d.frames.take(1);
    assert(one.drop_last() =~= Seq::empty());
    assert(one.last() == d.frames[0]);
    lemma_seen(geometry::unseen(), obus, k, f, r@);
    assert(geometry::seen_of(one.drop_last()) == geometry::unseen());
    let s = geometry::seen_of(one);
    assert(s.done);
    geometry::lemma_done_stays(d.frames, 1);
}

/// The OBUs up to the first frame.
proof fn lemma_seen(s: geometry::Seen, obus: stream::Unit, k: int, f: int, sh: Header)
    requires
        -1 <= k < f < obus.len(),
        k >= 0 ==> obus[k].obu_type is SequenceHeader && seq_header::header_of(obus[k].payload)
            == Ok::<Header, Error>(sh),
        k < 0 ==> s.header == Some(sh),
        forall|i: int|
            0 <= i < f && i != k ==> !((#[trigger] obus[i]).obu_type is SequenceHeader
                || obus[i].obu_type is Frame || obus[i].obu_type is FrameHeader),
        obus[f].obu_type is Frame || obus[f].obu_type is FrameHeader,
    ensures
        s.unit_seen(obus, 0) == (geometry::Sight { header: Some(sh), ..s }).frame_seen(
            obus[f].payload,
            0,
        ),
    decreases obus.len(),
{
    if f > 0 {
        let rest = obus.skip(1);
        assert forall|i: int| 0 <= i < rest.len() implies rest[i] == #[trigger] obus[i + 1] by {}
        assert forall|i: int| 0 <= i < f - 1 && i != k - 1 implies !((
        #[trigger] rest[i]).obu_type is SequenceHeader || rest[i].obu_type is Frame
            || rest[i].obu_type is FrameHeader) by {
            assert(rest[i] == obus[i + 1]);
        }
        if k == 0 {
            lemma_seen(geometry::Sight { header: Some(sh), ..s }, rest, -1, f - 1, sh);
        } else if k > 0 {
            assert(rest[k - 1] == obus[k]);
            lemma_seen(s, rest, k - 1, f - 1, sh);
        } else {
            lemma_seen(s, rest, -1, f - 1, sh);
        }
        assert(rest[f - 1] == obus[f]);
    }
}

} // verus!
