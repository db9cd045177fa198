//! What each frame of an assembled stream is, told from the segments that were
//! handed in.

use vstd::arithmetic::power2::*;
use vstd::prelude::*;

use crate::assemble::gop;
use crate::assemble::{
    self, AssembleError, AssembleOutput, AssembleParams, Assembled, Prepared, Segment,
    SegmentBytes,
};
use crate::bitio;
use crate::error::Error;
use crate::inspect::passing;
use crate::model;
use crate::obu::{self, Obu};
use crate::seq_header::{self, Header};
use crate::uheader::{self, RefSlot};

verus! {

/// How many frames the segments in front of segment `s` are shown for.
pub open spec fn frames_before<'a>(segments: Seq<Segment<'a>>, s: int) -> nat
    decreases s,
{
    if s <= 0 {
        0
    } else {
        frames_before(segments, s - 1) + segments[s - 1].frames as nat
    }
}

/// Whether an OBU holds a frame header.
pub open spec fn frames_something(o: Obu<Seq<u8>>) -> bool {
    o.obu_type is Frame || o.obu_type is FrameHeader
}

/// Whether `b` is `a` with one zero bit put in at `pos`, in front of bit `end`:
/// the bits in front stand where they stood, the bits from there to `end` one
/// further, and the bytes behind the last of these are the same.
pub open spec fn one_zero_bit_more(a: Seq<u8>, b: Seq<u8>, pos: int, end: int) -> bool {
    let x = bitio::bits_of(a);
    let y = bitio::bits_of(b);
    &&& 0 <= pos <= end <= x.len()
    &&& end + 1 <= y.len()
    &&& forall|i: int| 0 <= i < pos ==> #[trigger] y[i] == x[i]
    &&& !y[pos]
    &&& forall|i: int| pos <= i < end ==> #[trigger] x[i] == y[i + 1]
    &&& b.skip((end + 1 + 7) / 8) == a.skip((end + 7) / 8)
}

/// Whether `b` is `a` with one zero bit put in where its frame header, which
/// reads under the sequence header `sh`, has its removal flag.
pub open spec fn flagged_under(a: Seq<u8>, b: Seq<u8>, sh: Header) -> bool {
    exists|slots: Seq<RefSlot>|
        #![trigger uheader::scan_of(a, sh, slots)]
        uheader::scan_of(a, sh, slots) matches Ok(s) && one_zero_bit_more(
            a,
            b,
            s.removal_insert_pos as int,
            s.end_pos as int,
        )
}

/// Whether the temporal unit `tu` holds what `given` holds, OBU by OBU: the
/// types and extensions are the same and so are the payloads, but that sequence
/// headers say `out` where they were `rewritten`, and that frame headers have
/// the removal flag put in where `flag` is set.
pub open spec fn carries(
    given: Seq<u8>,
    tu: Seq<u8>,
    input: Header,
    out: Header,
    rewritten: bool,
    flag: bool,
) -> bool {
    &&& obu::obus_of(given) is Ok
    &&& obu::obus_of(tu) is Ok
    &&& obu::obus_of(given)->Ok_0.len() == obu::obus_of(tu)->Ok_0.len()
    &&& forall|i: int|
        0 <= i < obu::obus_of(given)->Ok_0.len() ==> carried(
            #[trigger] obu::obus_of(given)->Ok_0[i],
            obu::obus_of(tu)->Ok_0[i],
            input,
            out,
            rewritten,
            flag,
        )
}

/// What becomes of an OBU `a` of a unit that was handed in.
pub open spec fn carried(
    a: Obu<Seq<u8>>,
    b: Obu<Seq<u8>>,
    input: Header,
    out: Header,
    rewritten: bool,
    flag: bool,
) -> bool {
    &&& b.obu_type == a.obu_type
    &&& b.extension == a.extension
    &&& if a.obu_type is SequenceHeader {
        if rewritten {
            seq_header::header_of(b.payload) == Ok::<Header, Error>(out)
        } else {
            b.payload == a.payload
        }
    } else if flag && frames_something(a) {
        flagged_under(a.payload, b.payload, input)
    } else {
        b.payload == a.payload
    }
}

/// Whether `flags` names `slot` and no slot below it.
pub open spec fn names_first(flags: u8, slot: u8) -> bool {
    &&& slot < 8
    &&& (flags as nat / pow2(slot as nat)) % 2 == 1
    &&& (flags as nat) % pow2(slot as nat) == 0
}

/// Whether the temporal unit shows the frame in `slot` again and holds nothing
/// else: a delimiter, and a frame header whose first bit is one, whose next
/// three are the slot and which ends with a one and zeros.
pub open spec fn only_shows(tu: Seq<u8>, slot: u8) -> bool {
    &&& tu.len() == 5
    &&& obu::obus_of(tu) is Ok
    &&& obu::obus_of(tu)->Ok_0.len() == 2
    &&& obu::obus_of(tu)->Ok_0[0].obu_type is TemporalDelimiter
    &&& obu::obus_of(tu)->Ok_0[0].payload.len() == 0
    &&& obu::obus_of(tu)->Ok_0[1].obu_type is FrameHeader
    &&& obu::obus_of(tu)->Ok_0[1].extension is None
    &&& ({
        let bits = bitio::bits_of(obu::obus_of(tu)->Ok_0[1].payload);
        &&& bits.len() == 8
        &&& bits[0]
        &&& bitio::value(bits.subrange(1, 4)) == slot
        &&& bits[4] && !bits[5] && !bits[6] && !bits[7]
    })
}

proof fn lemma_start(segments: Seq<Segment>, s: int)
    requires
        0 <= s <= segments.len(),
    ensures
        frames_before(segments, s) == gop::segment_start(
            assemble::frame_counts(assemble::segment_views(segments)),
            s,
        ),
    decreases s,
{
    let frames = assemble::frame_counts(assemble::segment_views(segments));
    if s > 0 {
        lemma_start(segments, s - 1);
        assert(frames.take(s).drop_last() =~= frames.take(s - 1));
        assert(frames[s - 1] == segments[s - 1].frames);
    } else {
        assert(frames.take(0) =~= Seq::empty());
    }
}

/// What putting the flag in leaves of the OBUs.
proof fn lemma_flagged_carries(
    obus: Seq<Obu<Seq<u8>>>,
    sh: Header,
    slots: Seq<RefSlot>,
)
    requires
        assemble::flagged(obus, sh, slots) is Ok,
    ensures
        ({
            let done = assemble::flagged(obus, sh, slots)->Ok_0.0;
            &&& done.len() == obus.len()
            &&& forall|i: int|
                0 <= i < obus.len() ==> {
                    let a = #[trigger] obus[i];
                    let b = done[i];
                    &&& b.obu_type == a.obu_type
                    &&& b.extension == a.extension
                    &&& if frames_something(a) {
                        flagged_under(a.payload, b.payload, sh)
                    } else {
                        b.payload == a.payload
                    }
                }
        }),
    decreases obus.len(),
{
    if obus.len() > 0 {
        let front = obus.drop_last();
        lemma_flagged_carries(front, sh, slots);
        let (done, after) = assemble::flagged(front, sh, slots)->Ok_0;
        let all = assemble::flagged(obus, sh, slots)->Ok_0.0;
        let o = obus.last();
        assert forall|i: int| 0 <= i < obus.len() implies {
            let a = #[trigger] obus[i];
            let b = all[i];
            &&& b.obu_type == a.obu_type
            &&& b.extension == a.extension
            &&& if frames_something(a) {
                flagged_under(a.payload, b.payload, sh)
            } else {
                b.payload == a.payload
            }
        } by {
            if i < front.len() {
                assert(front[i] == obus[i]);
                assert(all[i] == done[i]);
            } else if frames_something(o) {
                let s = uheader::scan_of(o.payload, sh, after)->Ok_0;
                let pos = s.removal_insert_pos as int;
                let end = s.end_pos as int;
                uheader::splice_keeps_header_and_tiles(o.payload, pos, end, seq![false]);
                let x = bitio::bits_of(o.payload);
                let y = bitio::bits_of(all[i].payload);
                assert(seq![false][0] == y[pos + 0]);
                assert forall|k: int| pos <= k < end implies #[trigger] x[k] == y[k + 1] by {
                    assert(x[k] == y[k + seq![false].len()]);
                }
                assert(uheader::bytes_for(end + 1) == (end + 1 + 7) / 8);
                assert(one_zero_bit_more(o.payload, all[i].payload, pos, end));
            }
        }
    }
}

/// A temporal unit under the output's header, with the flag put in or not.
proof fn lemma_unit_carries(
    given: Seq<u8>,
    reheaded: Seq<u8>,
    tu: Seq<u8>,
    rewrite: Option<Header>,
    if_any: bool,
    input: Header,
    out: Header,
    flag: bool,
    slots: Seq<RefSlot>,
)
    requires
        rewrite matches Some(h) ==> h == out && h.canonical(),
        rewrite is None ==> reheaded == given && !flag,
        rewrite is Some ==> passing::reheaded_unit(
            given,
            seq_header::header_bytes(out),
            if_any,
        ) == Ok::<Seq<u8>, Error>(reheaded),
        !flag ==> tu == reheaded,
        flag ==> assemble::flagged_tu(reheaded, input, slots) is Ok && tu == assemble::flagged_tu(
            reheaded,
            input,
            slots,
        )->Ok_0.0,
        obu::obus_of(tu) is Ok,
    ensures
        carries(given, tu, input, out, rewrite is Some, flag),
{
    if rewrite is Some {
        let new = seq_header::header_bytes(out);
        seq_header::emit_then_parse_is_exact(out);
        let obus = obu::obus_of(given)->Ok_0;
        let mid = assemble::with_header(obus, new);
        if if_any && !assemble::has_header(obus) {
            assert(mid =~= obus);
        } else {
            obu::what_is_split_is_what_was_written(mid);
        }
        assert(obu::obus_of(reheaded) == Ok::<Seq<Obu<Seq<u8>>>, Error>(mid));
        if flag {
            lemma_flagged_carries(mid, input, slots);
            let done = assemble::flagged(mid, input, slots)->Ok_0.0;
            obu::what_is_split_is_what_was_written(done);
            assert forall|i: int| 0 <= i < obus.len() implies carried(
                #[trigger] obus[i],
                done[i],
                input,
                out,
                true,
                flag,
            ) by {
                assert(mid[i].obu_type == obus[i].obu_type);
            }
        } else {
            assert forall|i: int| 0 <= i < obus.len() implies carried(
                #[trigger] obus[i],
                mid[i],
                input,
                out,
                true,
                flag,
            ) by {}
        }
    }
}

/// What a segment made ready holds of the segment that was handed in.
proof fn lemma_prepared_carries(
    segment: SegmentBytes,
    i: int,
    input: Header,
    rewrite: Option<Header>,
    flag: bool,
    slots: Seq<RefSlot>,
)
    requires
        rewrite matches Some(h) ==> h.canonical(),
        rewrite is None ==> !flag,
        assembled_ok(input, rewrite),
        assemble::prepared(segment, i, input, rewrite, flag, slots) is Ok,
    ensures
        ({
            let p = assemble::prepared(segment, i, input, rewrite, flag, slots)->Ok_0.0;
            let out = passing::output_header(input, rewrite);
            &&& carries(segment.key_tu, p.key_tu, input, out, rewrite is Some, flag)
            &&& carries(segment.golden_tu, p.golden_tu, input, out, rewrite is Some, flag)
            &&& shows_the_golden(p.golden_tu, p.show_tu, p.golden_slot, out)
        }),
{
    let p = assemble::prepared(segment, i, input, rewrite, flag, slots)->Ok_0.0;
    let out = passing::output_header(input, rewrite);
    let (key, golden) = assemble::reheaded(segment, rewrite)->Ok_0;
    lemma_unit_carries(segment.key_tu, key, p.key_tu, rewrite, false, input, out, flag, slots);
    let after = if flag {
        assemble::flagged_tu(key, input, slots)->Ok_0.1
    } else {
        slots
    };
    lemma_unit_carries(
        segment.golden_tu,
        golden,
        p.golden_tu,
        rewrite,
        true,
        input,
        out,
        flag,
        after,
    );
    let g = assemble::frame_info(p.golden_tu, out)->Ok_0;
    lemma2_to64();
    assert((g.refresh_frame_flags as nat) % pow2(0) == 0);
    lemma_names_first(g.refresh_frame_flags, 0);
    lemma_only_shows(p.golden_slot, out);
}

/// Whether headers can be shown again under the output's header.
pub open spec fn assembled_ok(input: Header, rewrite: Option<Header>) -> bool {
    let out = passing::output_header(input, rewrite);
    !out.reduced && !out.ids.present && !out.needs_temporal_point_info()
}

/// Whether `show` shows again what the golden leaves in the lowest slot that
/// its frame refreshes.
pub open spec fn shows_the_golden(golden: Seq<u8>, show: Seq<u8>, slot: u8, sh: Header) -> bool {
    &&& assemble::frame_info(golden, sh) is Ok
    &&& names_first(assemble::frame_info(golden, sh)->Ok_0.refresh_frame_flags, slot)
    &&& only_shows(show, slot)
}

proof fn lemma_names_first(flags: u8, from: int)
    requires
        0 <= from <= 8,
        (flags as nat) % pow2(from as nat) == 0,
        assemble::lowest_slot(flags, from) is Some,
    ensures
        names_first(flags, assemble::lowest_slot(flags, from)->Some_0),
    decreases 8 - from,
{
    lemma2_to64();
    if from < 8 {
        let k = from as u8;
        lemma_flag_bit(flags, k);
        if !uheader::refreshed(flags, from) {
            lemma_names_first(flags, from + 1);
        }
    }
}

proof fn lemma_flag_bit(flags: u8, k: u8)
    requires
        k < 8,
        (flags as nat) % pow2(k as nat) == 0,
    ensures
        uheader::refreshed(flags, k as int) == ((flags as nat / pow2(k as nat)) % 2 == 1),
        !uheader::refreshed(flags, k as int) ==> (flags as nat) % pow2((k + 1) as nat) == 0,
{
    lemma2_to64();
    assert((flags >> 0u8) & 1 == (flags / 1) % 2) by (bit_vector);
    assert((flags >> 1u8) & 1 == (flags / 2) % 2) by (bit_vector);
    assert((flags >> 2u8) & 1 == (flags / 4) % 2) by (bit_vector);
    assert((flags >> 3u8) & 1 == (flags / 8) % 2) by (bit_vector);
    assert((flags >> 4u8) & 1 == (flags / 16) % 2) by (bit_vector);
    assert((flags >> 5u8) & 1 == (flags / 32) % 2) by (bit_vector);
    assert((flags >> 6u8) & 1 == (flags / 64) % 2) by (bit_vector);
    assert((flags >> 7u8) & 1 == (flags / 128) % 2) by (bit_vector);
    let f = flags as nat;
    if k == 0 {
        assert(f % 1 == 0 && f / 1 == f);
    } else if k == 1 {
        assert(f % 2 == 0 && (f / 2) % 2 == 0 ==> f % 4 == 0);
    } else if k == 2 {
        assert(f % 4 == 0 && (f / 4) % 2 == 0 ==> f % 8 == 0);
    } else if k == 3 {
        assert(f % 8 == 0 && (f / 8) % 2 == 0 ==> f % 16 == 0);
    } else if k == 4 {
        assert(f % 16 == 0 && (f / 16) % 2 == 0 ==> f % 32 == 0);
    } else if k == 5 {
        assert(f % 32 == 0 && (f / 32) % 2 == 0 ==> f % 64 == 0);
    } else if k == 6 {
        assert(f % 64 == 0 && (f / 64) % 2 == 0 ==> f % 128 == 0);
    } else {
        assert(f % 128 == 0 && (f / 128) % 2 == 0 ==> f % 256 == 0);
    }
}

proof fn lemma_only_shows(slot: u8, sh: Header)
    requires
        slot < 8,
        !sh.reduced && !sh.ids.present && !sh.needs_temporal_point_info(),
    ensures
        only_shows(obu::obus_bytes(assemble::show_existing_obus(slot)), slot),
{
    assemble::show_existing_reads_back(slot, sh);
    let head = Seq::<bool>::empty().push(true) + bitio::be_bits(3, slot as nat);
    bitio::lemma_be_bits_len(3, slot as nat);
    let t = bitio::with_trailing_bits(head);
    bitio::lemma_bits_of_pack(t);
    assert(bitio::aligned(t) =~= t);
    let bits = bitio::bits_of(assemble::show_existing_payload(slot));
    assert(bits == t);
    assert(bits.subrange(1, 4) =~= bitio::be_bits(3, slot as nat));
    lemma2_to64();
    bitio::lemma_value_be_bits(3, slot as nat);
}

proof fn lemma_all_carry(
    segments: Seq<SegmentBytes>,
    n: nat,
    input: Header,
    rewrite: Option<Header>,
    flag: bool,
)
    requires
        n <= segments.len(),
        rewrite matches Some(h) ==> h.canonical(),
        rewrite is None ==> !flag,
        assembled_ok(input, rewrite),
        assemble::all_prepared(segments, n, input, rewrite, flag) is Ok,
    ensures
        ({
            let done = assemble::all_prepared(segments, n, input, rewrite, flag)->Ok_0.0;
            let out = passing::output_header(input, rewrite);
            &&& done.len() == n
            &&& forall|s: int|
                0 <= s < n ==> {
                    let p = #[trigger] done[s];
                    &&& carries(segments[s].key_tu, p.key_tu, input, out, rewrite is Some, flag)
                    &&& carries(segments[s].golden_tu, p.golden_tu, input, out, rewrite is Some, flag)
                    &&& shows_the_golden(p.golden_tu, p.show_tu, p.golden_slot, out)
                }
        }),
    decreases n,
{
    if n > 0 {
        lemma_all_carry(segments, (n - 1) as nat, input, rewrite, flag);
        let (before, slots) = assemble::all_prepared(
            segments,
            (n - 1) as nat,
            input,
            rewrite,
            flag,
        )->Ok_0;
        lemma_prepared_carries(segments[n - 1], n - 1, input, rewrite, flag, slots);
        let done = assemble::all_prepared(segments, n, input, rewrite, flag)->Ok_0.0;
        let out = passing::output_header(input, rewrite);
        assert forall|s: int| 0 <= s < n implies {
            let p = #[trigger] done[s];
            &&& carries(segments[s].key_tu, p.key_tu, input, out, rewrite is Some, flag)
            &&& carries(segments[s].golden_tu, p.golden_tu, input, out, rewrite is Some, flag)
            &&& shows_the_golden(p.golden_tu, p.show_tu, p.golden_slot, out)
        } by {
            if s < n - 1 {
                assert(done[s] == before[s]);
            }
        }
    }
}

/// Whether `h` is the header that the first sequence header OBU of the temporal
/// unit holds.
pub open spec fn leads_with(tu: Seq<u8>, h: Header) -> bool {
    obu::obus_of(tu) matches Ok(obus) && exists|k: int|
        {
            &&& 0 <= k < obus.len()
            &&& (#[trigger] obus[k]).obu_type is SequenceHeader
            &&& forall|i: int| 0 <= i < k ==> !((#[trigger] obus[i]).obu_type is SequenceHeader)
            &&& seq_header::header_of(obus[k].payload) == Ok::<Header, Error>(h)
        }
}

pub proof fn lemma_leads(obus: Seq<Obu<Seq<u8>>>) -> (k: int)
    requires
        assemble::first_header(obus) is Some,
    ensures
        0 <= k < obus.len(),
        obus[k].obu_type is SequenceHeader,
        forall|i: int| 0 <= i < k ==> !((#[trigger] obus[i]).obu_type is SequenceHeader),
        assemble::first_header(obus) == Some(obus[k]),
    decreases obus.len(),
{
    let rest = obus.skip(1);
    if obus[0].obu_type is SequenceHeader {
        0
    } else {
        let k = lemma_leads(rest);
        assert forall|i: int| 0 <= i < k + 1 implies !((
        #[trigger] obus[i]).obu_type is SequenceHeader) by {
            if i > 0 {
                assert(rest[i - 1] == obus[i]);
            }
        }
        k + 1
    }
}

/// Which prepared unit stands in a place of the output.
proof fn lemma_placed(
    all: Seq<SegmentBytes>,
    gop_size: u64,
    tus: Seq<Seq<u8>>,
    done: Seq<Prepared<Seq<u8>>>,
    s: int,
    j: int,
)
    requires
        gop_size >= 2,
        tus == assemble::planned_tus(done, gop::plan(assemble::frame_counts(all), gop_size)),
        0 <= s < all.len(),
        0 <= j < all[s].frames,
    ensures
        ({
            let counts = assemble::frame_counts(all);
            let at = gop::segment_start(counts, s) + j;
            &&& at < tus.len()
            &&& tus.len() == gop::total(counts)
            &&& if j % (gop_size as int) == 0 {
                tus[at] == done[s].key_tu
            } else if j % (gop_size as int) == 1 {
                tus[at] == done[s].golden_tu
            } else {
                tus[at] == done[s].show_tu
            }
        }),
        1int % (gop_size as int) == 1,
{
    let counts = assemble::frame_counts(all);
    assert(counts[s] == all[s].frames);
    gop::plan_has_every_frame(counts, gop_size);
    gop::plan_keeps_segments(counts, gop_size, s, j);
    let at = gop::segment_start(counts, s) + j;
    let plan = gop::plan(counts, gop_size);
    assert(tus[at] == assemble::planned_tu(done, plan[at]));
    vstd::arithmetic::div_mod::lemma_small_mod(1, gop_size as nat);
}

/// What unit `tu` of the output is: `j` places behind the start of a segment
/// whose key and golden units were handed in, `golden` being the unit one place
/// behind that start.
pub open spec fn placed(
    given: SegmentBytes,
    p: AssembleParams,
    input: Header,
    sh: Header,
    tu: Seq<u8>,
    golden: Seq<u8>,
    j: int,
) -> bool {
    let rewritten = p.decoder_model || !input.timing.present;
    let flag = p.decoder_model && !input.timing.model.present;
    if j % (p.gop_size as int) == 0 {
        carries(given.key_tu, tu, input, sh, rewritten, flag)
    } else if j % (p.gop_size as int) == 1 {
        carries(given.golden_tu, tu, input, sh, rewritten, flag)
    } else {
        &&& assemble::frame_info(golden, sh) is Ok
        &&& exists|slot: u8|
            names_first(
                assemble::frame_info(golden, sh)->Ok_0.refresh_frame_flags,
                slot,
            ) && #[trigger] only_shows(tu, slot)
    }
}

/// Each unit comes from its own segment.
pub proof fn lemma_from_segments(
    all: Seq<SegmentBytes>,
    p: AssembleParams,
    out: Assembled,
    s: int,
    j: int,
) -> (input: Header)
    requires
        assemble::assembled(all, p) == Ok::<Assembled, AssembleError>(out),
        0 <= s < all.len(),
        0 <= j < all[s].frames,
    ensures
        leads_with(all[0].key_tu, input),
        p.gop_size >= 2,
        ({
            let counts = assemble::frame_counts(all);
            let at = gop::segment_start(counts, s);
            &&& at + j < out.tus.len()
            &&& out.tus.len() == gop::total(counts)
            &&& placed(
                all[s],
                p,
                input,
                out.seq_header,
                out.tus[at + j],
                out.tus[at + 1int],
                j,
            )
        }),
        all[0].frames >= 2 ==> out.tus.len() >= 2 && assemble::frame_info(
            out.tus[1],
            out.seq_header,
        ) is Ok && names_first(
            assemble::frame_info(out.tus[1], out.seq_header)->Ok_0.refresh_frame_flags,
            out.golden_slot,
        ),
{
    let (o, sh) = assemble::governing_header(all[0].key_tu)->Ok_0;
    let k = lemma_leads(obu::obus_of(all[0].key_tu)->Ok_0);
    assert(leads_with(all[0].key_tu, sh));
    seq_header::parsed_header_re_emits(o.payload);
    passing::lemma_rewritten(sh, p);
    let rewrite = assemble::rewritten_header(sh, p)->Ok_0;
    let flag = p.decoder_model && !sh.timing.model.present;
    lemma_all_carry(all, all.len(), sh, rewrite, flag);
    let done = assemble::all_prepared(all, all.len(), sh, rewrite, flag)->Ok_0.0;
    assert(p.gop_size >= 2);
    lemma_placed(all, p.gop_size, out.tus, done, s, j);
    assert(shows_the_golden(
        done[s].golden_tu,
        done[s].show_tu,
        done[s].golden_slot,
        out.seq_header,
    ));
    if j % (p.gop_size as int) > 1 {
        vstd::arithmetic::div_mod::lemma_mod_decreases(j as nat, p.gop_size as nat);
        lemma_placed(all, p.gop_size, out.tus, done, s, 1);
    }
    if all[0].frames >= 2 {
        lemma_placed(all, p.gop_size, out.tus, done, 0, 1);
        let counts = assemble::frame_counts(all);
        assert(counts.take(0) =~= Seq::empty());
        assert(gop::segment_start(counts, 0) == 0);
        assert(shows_the_golden(
            done[0].golden_tu,
            done[0].show_tu,
            done[0].golden_slot,
            out.seq_header,
        ));
    }
    sh
}

/// Each frame of an assembled stream comes from its own segment: frame `j` of
/// segment `s` stands behind all the frames of the segments in front of it, and
/// is the segment's key unit where a GOP starts, its golden unit right behind,
/// and shows the golden again everywhere else. The OBUs of the two units are
/// those that were handed in, one by one; only sequence headers may be
/// replaced, and only where a decoder model is newly declared do the frame
/// headers differ, by one zero bit.
pub proof fn every_frame_comes_from_its_segment<'a>(
    segments: Seq<Segment<'a>>,
    p: AssembleParams,
    out: AssembleOutput,
    s: int,
    j: int,
) -> (input: Header)
    requires
        assemble::assembled(assemble::segment_views(segments), p) == Ok::<
            Assembled,
            AssembleError,
        >(out@),
        0 <= s < segments.len(),
        0 <= j < segments[s].frames,
    ensures
        leads_with(segments[0].key_tu@, input),
        p.gop_size >= 2,
        frames_before(segments, s) + j < out.tus@.len(),
        out.tus@.len() == frames_before(segments, segments.len() as int),
        ({
            let tu = out.tus@[frames_before(segments, s) + j]@;
            let rewritten = p.decoder_model || !input.timing.present;
            let flag = p.decoder_model && !input.timing.model.present;
            let sh = out.seq_header@;
            if j % (p.gop_size as int) == 0 {
                carries(segments[s].key_tu@, tu, input, sh, rewritten, flag)
            } else if j % (p.gop_size as int) == 1 {
                carries(segments[s].golden_tu@, tu, input, sh, rewritten, flag)
            } else {
                let golden = out.tus@[frames_before(segments, s) + 1int]@;
                &&& assemble::frame_info(golden, sh) is Ok
                &&& exists|slot: u8|
                    names_first(
                        assemble::frame_info(golden, sh)->Ok_0.refresh_frame_flags,
                        slot,
                    ) && #[trigger] only_shows(tu, slot)
            }
        }),
        segments[0].frames >= 2 ==> assemble::frame_info(
            out.tus@[1]@,
            out.seq_header@,
        ) is Ok && names_first(
            assemble::frame_info(out.tus@[1]@, out.seq_header@)->Ok_0.refresh_frame_flags,
            out.golden_slot,
        ),
{
    let all = assemble::segment_views(segments);
    assert(all[0] == segments[0]@ && all[s] == segments[s]@);
    lemma_start(segments, s);
    lemma_start(segments, segments.len() as int);
    let counts = assemble::frame_counts(all);
    assert(counts.take(segments.len() as int) =~= counts);
    assert(out@.tus == model::views(out.tus@));
    assert(out@.tus.len() == out.tus@.len());
    let input = lemma_from_segments(all, p, out@, s, j);
    let at = frames_before(segments, s);
    assert(out@.tus[at + j] == out.tus@[at + j]@);
    if j % (p.gop_size as int) > 1 {
        vstd::arithmetic::div_mod::lemma_mod_decreases(j as nat, p.gop_size as nat);
        assert(out@.tus[at + 1int] == out.tus@[at + 1int]@);
    }
    if segments[0].frames >= 2 {
        assert(out@.tus[1] == out.tus@[1]@);
    }
    input
}

/// The sequence header that goes beside an assembled stream is the stream's: a
/// whole OBU of that type, whose payload reads as the output's header.
pub proof fn the_header_beside_is_the_header_within<'a>(
    segments: Seq<Segment<'a>>,
    p: AssembleParams,
    out: AssembleOutput,
)
    requires
        assemble::assembled(assemble::segment_views(segments), p) == Ok::<
            Assembled,
            AssembleError,
        >(out@),
        out.seq_header_obu@.len() < pow2(56),
    ensures
        ({
            let obus = obu::obus_of(out.seq_header_obu@);
            &&& obus is Ok
            &&& obus->Ok_0.len() == 1
            &&& obus->Ok_0[0].obu_type is SequenceHeader
            &&& seq_header::header_of(obus->Ok_0[0].payload) == Ok::<Header, Error>(
                out.seq_header@,
            )
        }),
{
    let all = assemble::segment_views(segments);
    let (o, sh) = assemble::governing_header(all[0].key_tu)->Ok_0;
    let k = lemma_leads(obu::obus_of(all[0].key_tu)->Ok_0);
    seq_header::parsed_header_re_emits(o.payload);
    passing::lemma_rewritten(sh, p);
    let rewrite = assemble::rewritten_header(sh, p)->Ok_0;
    let written = match rewrite {
        None => o,
        Some(sh2) => {
            Obu {
                obu_type: obu::ObuType::SequenceHeader,
                extension: None,
                payload: seq_header::header_bytes(sh2),
            }
        },
    };
    if let Some(sh2) = rewrite {
        seq_header::emit_then_parse_is_exact(sh2);
    }
    assert(out.seq_header_obu@ == written.bytes());
    assert(written.payload.len() <= written.bytes().len());
    obu::obus_round_trip(seq![written]);
    let parts = Seq::new(1, |i: int| seq![written][i].bytes());
    assert(parts.drop_last() =~= Seq::empty());
    assert(model::concat(parts.drop_last()) =~= Seq::empty());
    assert(obu::obus_bytes(seq![written]) =~= written.bytes());
}

/// The sync samples number, from one on and in order, the units at which a GOP
/// of some segment starts, and no others.
pub proof fn sync_samples_number_the_gop_starts<'a>(
    segments: Seq<Segment<'a>>,
    p: AssembleParams,
    out: AssembleOutput,
    s: int,
    j: int,
)
    requires
        assemble::assembled(assemble::segment_views(segments), p) == Ok::<
            Assembled,
            AssembleError,
        >(out@),
        out.tus@.len() <= u32::MAX,
        0 <= s < segments.len(),
        0 <= j < segments[s].frames,
    ensures
        out.key_samples@.contains((frames_before(segments, s) + j + 1) as u32) <==> j % (
        p.gop_size as int) == 0,
        forall|i: int|
            0 <= i < out.key_samples@.len() ==> 1 <= #[trigger] out.key_samples@[i]
                <= out.tus@.len(),
        forall|i: int, k: int|
            0 <= i < k < out.key_samples@.len() ==> #[trigger] out.key_samples@[i]
                < #[trigger] out.key_samples@[k],
{
    let all = assemble::segment_views(segments);
    let counts = assemble::frame_counts(all);
    assert(counts[s] == segments[s].frames);
    lemma_start(segments, s);
    let plan = gop::plan(counts, p.gop_size);
    assert(out@.tus == model::views(out.tus@));
    assert(out@.tus.len() == plan.len());
    gop::key_numbers_name_the_keyframes(plan);
    gop::plan_keeps_segments(counts, p.gop_size, s, j);
    let at = frames_before(segments, s) + j;
    let keys = gop::key_numbers(plan);
    assert(out.key_samples@ == keys);
    if keys.contains((at + 1) as u32) {
        let i = choose|i: int| 0 <= i < keys.len() && keys[i] == (at + 1) as u32;
        assert(plan[keys[i] - 1].1 == gop::Slot::Key);
    }
}

} // verus!
