//! Headers that are walked under another sequence header.

use vstd::prelude::*;

use crate::bitio::{self, Cur};
use crate::error::Error;
use crate::frame_header;
use crate::seq_header::Header;
use crate::uheader::shift::{self, Shift};
use crate::uheader::{self, HeaderScan, RefSlot};

verus! {

/// The front of the header reads the same under sequence headers that are
/// alike and put no presentation time into it.
proof fn lemma_kind_in_step(s: Shift, c: Cur, d: Cur, x: Header, y: Header)
    requires
        s.in_step(c, d),
        !x.needs_temporal_point_info(),
        !y.needs_temporal_point_info(),
        s.live(uheader::kind_at(c, x).1),
    ensures
        uheader::kind_at(c, x).0 == uheader::kind_at(d, y).0,
        s.in_step(uheader::kind_at(c, x).1, uheader::kind_at(d, y).1),
{
    broadcast use shift::group_fields;

    reveal(uheader::kind_at);
}

proof fn lemma_kind_steady(c: Cur, x: Header)
    requires
        !x.needs_temporal_point_info(),
    ensures
        shift::steady(c, uheader::kind_at(c, x).1),
{
    broadcast use shift::group_fields;

    reveal(uheader::kind_at);
}

proof fn lemma_prelude_in_step(
    s: Shift,
    c: Cur,
    d: Cur,
    x: Header,
    y: Header,
    frame_type: u8,
    resilient: bool,
)
    requires
        s.in_step(c, d),
        shift::alike(x, y),
        s.live(frame_header::prelude_at(c, x, frame_type, resilient).1),
    ensures
        frame_header::prelude_at(c, x, frame_type, resilient).0 == frame_header::prelude_at(
            d,
            y,
            frame_type,
            resilient,
        ).0,
        s.in_step(
            frame_header::prelude_at(c, x, frame_type, resilient).1,
            frame_header::prelude_at(d, y, frame_type, resilient).1,
        ),
{
    broadcast use shift::group_fields;

    reveal(frame_header::prelude_at);
}

proof fn lemma_prelude_steady(c: Cur, x: Header, frame_type: u8, resilient: bool)
    ensures
        shift::steady(c, frame_header::prelude_at(c, x, frame_type, resilient).1),
{
    broadcast use shift::group_fields;

    reveal(frame_header::prelude_at);
}

/// The header behind the removal times: the refreshed slots, the picture and
/// where the header ends.
pub open spec fn behind(
    c: Cur,
    sh: Header,
    k: uheader::Kind,
    p: frame_header::Prelude,
    slots: Seq<RefSlot>,
) -> (u8, uheader::Picture<Seq<u8>>, Cur) {
    let (refresh, c) = uheader::refreshes_at(c, sh, k);
    let (z, c) = uheader::picture_at(c, sh, k, p, slots);
    (refresh, z, uheader::rest_at(c, sh, k, p, z, slots))
}

proof fn lemma_behind_steady(
    c: Cur,
    sh: Header,
    k: uheader::Kind,
    p: frame_header::Prelude,
    slots: Seq<RefSlot>,
)
    ensures
        shift::steady(c, behind(c, sh, k, p, slots).2),
{
    broadcast use {
        shift::refreshes_steady,
        shift::intra_steady,
        shift::inter_steady,
        shift::coding_steady,
        shift::filters_steady,
        shift::tail_steady,
    };

}

proof fn lemma_behind_in_step(
    s: Shift,
    c: Cur,
    d: Cur,
    x: Header,
    y: Header,
    k: uheader::Kind,
    p: frame_header::Prelude,
    slots: Seq<RefSlot>,
)
    requires
        s.in_step(c, d),
        shift::alike(x, y),
        s.live(behind(c, x, k, p, slots).2),
    ensures
        behind(c, x, k, p, slots).0 == behind(d, y, k, p, slots).0,
        behind(c, x, k, p, slots).1 == behind(d, y, k, p, slots).1,
        s.in_step(behind(c, x, k, p, slots).2, behind(d, y, k, p, slots).2),
{
    broadcast use {
        shift::refreshes_steady,
        shift::refreshes_in_step,
        shift::intra_steady,
        shift::intra_in_step,
        shift::inter_steady,
        shift::inter_in_step,
        shift::coding_steady,
        shift::coding_in_step,
        shift::filters_steady,
        shift::filters_in_step,
        shift::tail_steady,
        shift::tail_in_step,
    };

}

/// The parts of a header that was walked to its end.
pub struct Parts {
    pub kind: uheader::Kind,
    pub prelude: frame_header::Prelude,
    /// Behind the front.
    pub kinded: Cur,
    /// Behind primary_ref_frame.
    pub fronted: Cur,
    /// Behind the removal times.
    pub removed: Cur,
}

pub open spec fn parts_of(payload: Seq<u8>, sh: Header) -> Parts {
    let (kind, kinded) = uheader::kind_at(Cur::start(payload), sh);
    let (prelude, fronted) = frame_header::prelude_at(
        kinded,
        sh,
        kind.frame_type,
        kind.resilient,
    );
    Parts { kind, prelude, kinded, fronted, removed: frame_header::removal_at(fronted, sh) }
}

/// What walking a header gives, part by part.
proof fn lemma_scan_parts(payload: Seq<u8>, sh: Header, slots: Seq<RefSlot>)
    ensures
        ({
            let z = parts_of(payload, sh);
            let (refresh, pic, end) = behind(
                z.removed,
                sh,
                z.kind,
                z.prelude,
                uheader::slots_before(slots, z.kind),
            );
            uheader::scan_of(payload, sh, slots) == match uheader::unscannable(sh) {
                Some(e) => Err::<HeaderScan, Error>(e),
                None => match end.err {
                    Some(e) => Err(e),
                    None => Ok(
                        HeaderScan {
                            removal_insert_pos: z.fronted.pos as usize,
                            end_pos: end.pos as usize,
                            frame_type: z.kind.frame_type,
                            show_frame: z.kind.show_frame,
                            showable_frame: z.kind.showable_frame,
                            refresh_frame_flags: refresh,
                            frame_width: pic.geometry.frame_width,
                            frame_height: pic.geometry.frame_height,
                            upscaled_width: pic.geometry.upscaled_width,
                            render_width: pic.geometry.render_width,
                            render_height: pic.geometry.render_height,
                            order_hint: z.prelude.order_hint,
                        },
                    ),
                },
            }
        }),
{
    reveal(uheader::scan_at);
}

/// Where the parts of a header that walks to its end under a sequence header
/// without a decoder model stand.
proof fn lemma_walked_parts(payload: Seq<u8>, sh: Header, slots: Seq<RefSlot>)
    requires
        uheader::scan_of(payload, sh, slots) is Ok,
        !sh.timing.model.present,
    ensures
        ({
            let z = parts_of(payload, sh);
            let s = uheader::scan_of(payload, sh, slots)->Ok_0;
            let end = behind(
                z.removed,
                sh,
                z.kind,
                z.prelude,
                uheader::slots_before(slots, z.kind),
            ).2;
            let bits = bitio::bits_of(payload);
            &&& z.removed == z.fronted
            &&& z.kinded.err is None && z.fronted.err is None && end.err is None
            &&& z.kinded.bits == bits && z.fronted.bits == bits && end.bits == bits
            &&& z.kinded.pos <= z.fronted.pos <= end.pos <= bits.len()
            &&& z.fronted.pos == s.removal_insert_pos
            &&& end.pos == s.end_pos
        }),
{
    let z = parts_of(payload, sh);
    lemma_scan_parts(payload, sh, slots);
    reveal(frame_header::removal_at);
    lemma_kind_steady(Cur::start(payload), sh);
    lemma_prelude_steady(z.kinded, sh, z.kind.frame_type, z.kind.resilient);
    let before = uheader::slots_before(slots, z.kind);
    lemma_behind_steady(z.removed, sh, z.kind, z.prelude, before);
}

/// The removal flag goes behind the frame type.
pub proof fn flag_goes_behind_the_frame_type(payload: Seq<u8>, sh: Header, slots: Seq<RefSlot>)
    requires
        uheader::scan_of(payload, sh, slots) is Ok,
        !sh.timing.model.present,
    ensures
        3 <= uheader::scan_of(payload, sh, slots)->Ok_0.removal_insert_pos,
{
    broadcast use shift::group_fields;

    lemma_walked_parts(payload, sh, slots);
    reveal(uheader::kind_at);
}

/// A header walks the same under a sequence header that differs in nothing but
/// timing, as long as neither declares a decoder model.
pub proof fn retimed_header_scans_the_same(
    payload: Seq<u8>,
    x: Header,
    y: Header,
    slots: Seq<RefSlot>,
)
    requires
        uheader::scan_of(payload, x, slots) is Ok,
        shift::alike(x, y),
        !x.timing.model.present,
        !y.timing.model.present,
    ensures
        uheader::scan_of(payload, y, slots) == uheader::scan_of(payload, x, slots),
{
    lemma_walked_parts(payload, x, slots);
    lemma_scan_parts(payload, x, slots);
    lemma_scan_parts(payload, y, slots);
    let z = parts_of(payload, x);
    let before = uheader::slots_before(slots, z.kind);
    let end = behind(z.removed, x, z.kind, z.prelude, before).2;
    let bits = bitio::bits_of(payload);
    let s = Shift { a: bits, b: bits, from: 0, end: end.pos, k: 0 };
    let c = Cur::start(payload);
    assert(s.in_step(c, c));
    lemma_kind_in_step(s, c, c, x, y);
    let z2 = parts_of(payload, y);
    lemma_prelude_in_step(s, z.kinded, z2.kinded, x, y, z.kind.frame_type, z.kind.resilient);
    reveal(frame_header::removal_at);
    lemma_behind_in_step(s, z.removed, z2.removed, x, y, z.kind, z.prelude, before);
}

/// Putting buffer_removal_time_present_flag = 0 into a header that was walked
/// to its end makes a header that walks the same, one bit longer, under a
/// sequence header that declares a decoder model with equal picture intervals
/// and is otherwise alike.
pub proof fn flagged_header_scans_the_same(
    payload: Seq<u8>,
    x: Header,
    y: Header,
    slots: Seq<RefSlot>,
)
    requires
        uheader::scan_of(payload, x, slots) is Ok,
        uheader::scan_of(payload, x, slots)->Ok_0.end_pos < usize::MAX,
        shift::alike(x, y),
        !x.timing.model.present,
        y.timing.model.present,
        y.timing.equal_picture_interval,
    ensures
        ({
            let s = uheader::scan_of(payload, x, slots)->Ok_0;
            let out = uheader::splice_of(
                payload,
                s.removal_insert_pos as int,
                s.end_pos as int,
                seq![false],
            );
            &&& out is Ok
            &&& uheader::scan_of(out->Ok_0, y, slots) == Ok::<HeaderScan, Error>(
                HeaderScan { end_pos: (s.end_pos + 1) as usize, ..s },
            )
        }),
{
    lemma_walked_parts(payload, x, slots);
    lemma_scan_parts(payload, x, slots);
    let found = uheader::scan_of(payload, x, slots)->Ok_0;
    let insert = found.removal_insert_pos as int;
    let ends = found.end_pos as int;
    let flag = seq![false];
    uheader::splice_keeps_header_and_tiles(payload, insert, ends, flag);
    let out = uheader::spliced(payload, insert, ends, flag);
    lemma_scan_parts(out, y, slots);
    let a = bitio::bits_of(payload);
    let b = bitio::bits_of(out);
    let z = parts_of(payload, x);
    let z2 = parts_of(out, y);
    let before = uheader::slots_before(slots, z.kind);
    // The front stands where it stood.
    let front = Shift { a, b, from: 0, end: insert as nat, k: 0 };
    assert forall|i: int| 0 <= i < insert implies #[trigger] a[i] == b[i + 0] by {
        assert(b[i] == a[i]);
    }
    let c = Cur::start(payload);
    let d = Cur::start(out);
    assert(front.in_step(c, d));
    lemma_kind_in_step(front, c, d, x, y);
    lemma_prelude_in_step(front, z.kinded, z2.kinded, x, y, z.kind.frame_type, z.kind.resilient);
    // The flag says that there are no removal times.
    assert(b[insert] == flag[0]) by {
        assert(flag[0] == b[insert + 0]);
    }
    let e = z2.fronted;
    assert(e.bits == b && e.pos == insert && e.err is None);
    let bit = b.subrange(insert, insert + 1);
    assert(bit =~= seq![false]);
    reveal_with_fuel(bitio::value, 2);
    assert(bitio::value(bit) == 0);
    reveal(frame_header::removal_at);
    assert(z2.removed == (Cur { pos: (insert + 1) as nat, ..e }));
    // The rest stands one bit later.
    let rest = Shift { a, b, from: insert as nat, end: ends as nat, k: 1 };
    assert(rest.in_step(z.removed, z2.removed));
    lemma_behind_in_step(rest, z.removed, z2.removed, x, y, z.kind, z.prelude, before);
}

} // verus!
