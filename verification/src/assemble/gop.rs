//! Where keyframes, goldens and re-shown frames stand in the output.

use vstd::prelude::*;

use crate::model;

verus! {

/// What one output temporal unit is.
#[derive(Debug, Clone, Copy, PartialEq, Eq, Structural)]
pub enum Slot {
    /// The segment's key temporal unit.
    Key,
    /// The segment's golden temporal unit.
    Golden,
    /// The golden, shown again.
    Show,
}

/// What stands at position `j` of a segment: every GOP is a keyframe, the
/// golden and the golden shown again.
pub open spec fn slot_at(j: int, gop: int) -> Slot {
    if j % gop == 0 {
        Slot::Key
    } else if j % gop == 1 {
        Slot::Golden
    } else {
        Slot::Show
    }
}

/// Segment `s` of `frames` frames: what each temporal unit is.
pub open spec fn segment_plan(s: int, frames: u64, gop: u64) -> Seq<(int, Slot)> {
    Seq::new(frames as nat, |j: int| (s, slot_at(j, gop as int)))
}

/// The whole output: segment and kind of each temporal unit.
pub open spec fn plan(frames: Seq<u64>, gop: u64) -> Seq<(int, Slot)> {
    model::concat(Seq::new(frames.len(), |s: int| segment_plan(s, frames[s], gop)))
}

/// The numbers, counted from 1, of the keyframe temporal units.
pub open spec fn key_numbers(plan: Seq<(int, Slot)>) -> Seq<u32>
    decreases plan.len(),
{
    if plan.len() == 0 {
        Seq::empty()
    } else {
        let head = key_numbers(plan.drop_last());
        if plan.last().1 == Slot::Key {
            head.push(plan.len() as u32)
        } else {
            head
        }
    }
}

/// The sum of the frame counts.
pub open spec fn total(frames: Seq<u64>) -> nat
    decreases frames.len(),
{
    if frames.len() == 0 {
        0
    } else {
        total(frames.drop_last()) + frames.last() as nat
    }
}

/// Where segment `s` starts in the output.
pub open spec fn segment_start(frames: Seq<u64>, s: int) -> nat {
    total(frames.take(s))
}

pub proof fn lemma_plan_step(frames: Seq<u64>, gop: u64, n: int)
    requires
        0 <= n < frames.len(),
    ensures
        plan(frames.take(n + 1), gop) == plan(frames.take(n), gop) + segment_plan(
            n,
            frames[n],
            gop,
        ),
        total(frames.take(n + 1)) == total(frames.take(n)) + frames[n],
{
    let a = frames.take(n);
    let b = frames.take(n + 1);
    let pa = Seq::new(a.len(), |s: int| segment_plan(s, a[s], gop));
    let pb = Seq::new(b.len(), |s: int| segment_plan(s, b[s], gop));
    assert(pb =~= pa.push(segment_plan(n, frames[n], gop)));
    model::lemma_concat_push(pa, segment_plan(n, frames[n], gop));
    assert(b.drop_last() =~= a);
}

/// The output has as many temporal units as frames were asked for.
pub proof fn plan_has_every_frame(frames: Seq<u64>, gop: u64)
    ensures
        plan(frames, gop).len() == total(frames),
    decreases frames.len(),
{
    if frames.len() > 0 {
        let n = frames.len() - 1;
        lemma_plan_step(frames, gop, n);
        assert(frames.take(n + 1) =~= frames);
        assert(frames.take(n) =~= frames.drop_last());
        plan_has_every_frame(frames.drop_last(), gop);
    } else {
        assert(Seq::new(frames.len(), |s: int| segment_plan(s, frames[s], gop)) =~= Seq::empty());
    }
}

pub proof fn lemma_total_monotone(frames: Seq<u64>, a: int, b: int)
    requires
        0 <= a <= b <= frames.len(),
    ensures
        total(frames.take(a)) <= total(frames.take(b)),
    decreases b - a,
{
    if a < b {
        lemma_total_monotone(frames, a, b - 1);
        assert(frames.take(b).drop_last() =~= frames.take(b - 1));
    }
}

/// The temporal units of segment `s` stand together, in its own pattern, from
/// where it starts.
pub proof fn plan_keeps_segments(frames: Seq<u64>, gop: u64, s: int, j: int)
    requires
        0 <= s < frames.len(),
        0 <= j < frames[s],
    ensures
        segment_start(frames, s) + j < plan(frames, gop).len(),
        plan(frames, gop)[segment_start(frames, s) + j] == (
            s,
            slot_at(j, gop as int),
        ),
    decreases frames.len(),
{
    let n = frames.len() - 1;
    let head = frames.drop_last();
    lemma_plan_step(frames, gop, n);
    assert(frames.take(n + 1) =~= frames);
    assert(frames.take(n) =~= head);
    plan_has_every_frame(head, gop);
    if s < n {
        plan_keeps_segments(head, gop, s, j);
        assert(head.take(s) =~= frames.take(s));
    }
}

/// Every segment starts with a keyframe, so each switch is a seek point.
pub proof fn segments_start_with_keyframes(frames: Seq<u64>, gop: u64, s: int)
    requires
        gop >= 2,
        0 <= s < frames.len(),
        frames[s] > 0,
    ensures
        plan(frames, gop)[segment_start(frames, s) as int] == (s, Slot::Key),
{
    plan_keeps_segments(frames, gop, s, 0);
    assert(0int % gop as int == 0);
}

/// Seek granularity: the latest keyframe of the same segment is less than
/// `gop` temporal units back.
pub proof fn keyframes_are_less_than_a_gop_back(frames: Seq<u64>, gop: u64, s: int, j: int)
    requires
        gop >= 2,
        0 <= s < frames.len(),
        0 <= j < frames[s],
    ensures
        exists|k: int|
            #![trigger plan(frames, gop)[segment_start(frames, s) + k]]
            0 <= k <= j && j - k < gop && plan(frames, gop)[segment_start(frames, s) + k] == (
                s,
                Slot::Key,
            ),
{
    let k = lemma_gop_start(j, gop);
    plan_keeps_segments(frames, gop, s, k);
    assert(plan(frames, gop)[segment_start(frames, s) + k] == (s, Slot::Key));
}

/// Where the GOP of position `j` starts.
proof fn lemma_gop_start(j: int, gop: u64) -> (k: int)
    requires
        gop >= 2,
        0 <= j,
    ensures
        0 <= k <= j,
        j - k < gop,
        k == j - j % gop as int,
        k == gop * (j / gop as int),
        slot_at(k, gop as int) == Slot::Key,
{
    let g = gop as int;
    let q = j / g;
    vstd::arithmetic::div_mod::lemma_fundamental_div_mod(j, g);
    assert(g * q >= 0) by (nonlinear_arith)
        requires
            g > 0,
            q >= 0,
    ;
    vstd::arithmetic::div_mod::lemma_fundamental_div_mod_converse(g * q, g, q, 0);
    g * q
}

/// What is shown again was shown before: behind the latest keyframe, and in
/// the same segment, the golden stands in front of every temporal unit that
/// shows it again.
pub proof fn golden_precedes_every_show(gop: u64, j: int)
    requires
        gop >= 2,
        0 <= j,
        slot_at(j, gop as int) == Slot::Show,
    ensures
        exists|k: int|
            #![trigger slot_at(k, gop as int)]
            0 <= k < j && slot_at(k, gop as int) == Slot::Golden && (forall|m: int|
                k < m <= j ==> #[trigger] slot_at(m, gop as int) == Slot::Show),
{
    let g = gop as int;
    let q = j / g;
    let base = lemma_gop_start(j, gop);
    let k = base + 1;
    vstd::arithmetic::div_mod::lemma_fundamental_div_mod_converse(k, g, q, 1);
    assert(slot_at(k, g) == Slot::Golden);
    assert forall|m: int| k < m <= j implies #[trigger] slot_at(m, g) == Slot::Show by {
        vstd::arithmetic::div_mod::lemma_fundamental_div_mod_converse(m, g, q, m - base);
    }
}

/// Every place of the output belongs to some segment.
pub proof fn lemma_place(frames: Seq<u64>, gop: u64, n: int) -> (at: (int, int))
    requires
        0 <= n < plan(frames, gop).len(),
    ensures
        0 <= at.0 < frames.len(),
        0 <= at.1 < frames[at.0],
        n == segment_start(frames, at.0) + at.1,
        plan(frames, gop)[n] == (at.0, slot_at(at.1, gop as int)),
    decreases frames.len(),
{
    plan_has_every_frame(frames, gop);
    let last = frames.len() - 1;
    let head = frames.drop_last();
    lemma_plan_step(frames, gop, last);
    assert(frames.take(last + 1) =~= frames);
    assert(frames.take(last) =~= head);
    plan_has_every_frame(head, gop);
    if n < total(head) {
        let at = lemma_place(head, gop, n);
        assert(head.take(at.0) =~= frames.take(at.0));
        at
    } else {
        (last, n - total(head))
    }
}

/// The output starts with a keyframe; a golden stands right behind the
/// keyframe of its segment, and what is shown again right behind the golden
/// or behind the golden shown again.
pub proof fn places_follow_their_pattern(frames: Seq<u64>, gop: u64, n: int)
    requires
        gop >= 2,
        0 <= n < plan(frames, gop).len(),
    ensures
        0 <= plan(frames, gop)[n].0 < frames.len(),
        n == 0 ==> plan(frames, gop)[n].1 == Slot::Key,
        n > 0 && plan(frames, gop)[n].1 == Slot::Golden ==> plan(frames, gop)[n - 1] == (
            plan(frames, gop)[n].0,
            Slot::Key,
        ),
        n > 0 && plan(frames, gop)[n].1 == Slot::Show ==> plan(frames, gop)[n - 1].0 == plan(
            frames,
            gop,
        )[n].0 && plan(frames, gop)[n - 1].1 != Slot::Key,
{
    let (s, j) = lemma_place(frames, gop, n);
    let g = gop as int;
    if j == 0 {
        assert(0int % g == 0);
        assert(slot_at(0, g) == Slot::Key);
    } else {
        plan_keeps_segments(frames, gop, s, j - 1);
        vstd::arithmetic::div_mod::lemma_fundamental_div_mod(j - 1, g);
        let q = (j - 1) / g;
        let r = (j - 1) % g;
        if r + 1 < g {
            vstd::arithmetic::div_mod::lemma_fundamental_div_mod_converse(j, g, q, r + 1);
        } else {
            assert(j == g * (q + 1)) by (nonlinear_arith)
                requires
                    j - 1 == g * q + r,
                    r + 1 == g,
            ;
            vstd::arithmetic::div_mod::lemma_fundamental_div_mod_converse(j, g, q + 1, 0);
        }
    }
}

proof fn lemma_key_numbers_bound(plan: Seq<(int, Slot)>)
    requires
        plan.len() <= u32::MAX,
    ensures
        forall|i: int|
            0 <= i < key_numbers(plan).len() ==> 1 <= #[trigger] key_numbers(plan)[i] <= plan.len(),
        key_numbers(plan).len() <= plan.len(),
    decreases plan.len(),
{
    if plan.len() > 0 {
        lemma_key_numbers_bound(plan.drop_last());
    }
}

/// The sync samples are exactly the keyframes: each number names a key temporal
/// unit, every key temporal unit is named, and the numbers increase.
pub proof fn key_numbers_name_the_keyframes(plan: Seq<(int, Slot)>)
    requires
        plan.len() <= u32::MAX,
    ensures
        forall|i: int|
            0 <= i < key_numbers(plan).len() ==> 1 <= #[trigger] key_numbers(plan)[i] <= plan.len()
                && plan[key_numbers(plan)[i] - 1].1 == Slot::Key,
        forall|p: int|
            0 <= p < plan.len() && (#[trigger] plan[p]).1 == Slot::Key ==> key_numbers(
                plan,
            ).contains((p + 1) as u32),
        forall|i: int, j: int|
            0 <= i < j < key_numbers(plan).len() ==> #[trigger] key_numbers(plan)[i]
                < #[trigger] key_numbers(plan)[j],
    decreases plan.len(),
{
    if plan.len() > 0 {
        let head = plan.drop_last();
        let kh = key_numbers(head);
        let k = key_numbers(plan);
        key_numbers_name_the_keyframes(head);
        lemma_key_numbers_bound(head);
        assert forall|i: int| 0 <= i < k.len() implies 1 <= #[trigger] k[i] <= plan.len()
            && plan[k[i] - 1].1 == Slot::Key by {
            if i < kh.len() {
                assert(kh[i] == k[i]);
                assert(head[kh[i] - 1] == plan[kh[i] - 1]);
            }
        }
        assert forall|p: int|
            0 <= p < plan.len() && (#[trigger] plan[p]).1 == Slot::Key implies k.contains(
            (p + 1) as u32,
        ) by {
            if p < head.len() {
                assert(head[p] == plan[p]);
                let i = choose|i: int| 0 <= i < kh.len() && kh[i] == (p + 1) as u32;
                assert(k[i] == (p + 1) as u32);
            } else {
                assert(k.last() == (p + 1) as u32);
            }
        }
        assert forall|i: int, j: int| 0 <= i < j < k.len() implies #[trigger] k[i]
            < #[trigger] k[j] by {
            assert(k[i] == kh[i]);
            if j < kh.len() {
                assert(k[j] == kh[j]);
            }
        }
    }
}

/// Seek granularity over the whole output: the first temporal unit is a
/// keyframe, neighbouring sync samples are at most `gop` apart, and so is the
/// end of the output from the last of them, image switches included.
pub proof fn sync_samples_are_at_most_a_gop_apart(frames: Seq<u64>, gop: u64)
    requires
        gop >= 2,
        0 < plan(frames, gop).len() <= u32::MAX,
    ensures
        key_numbers(plan(frames, gop)).len() > 0,
        key_numbers(plan(frames, gop))[0] == 1,
        forall|i: int, j: int|
            0 <= i && j == i + 1 && j < key_numbers(plan(frames, gop)).len() ==> #[trigger] key_numbers(
                plan(frames, gop),
            )[j] - #[trigger] key_numbers(plan(frames, gop))[i] <= gop,
        plan(frames, gop).len() + 1 - key_numbers(plan(frames, gop)).last() <= gop,
{
    let all = plan(frames, gop);
    let keys = key_numbers(all);
    key_numbers_name_the_keyframes(all);
    let first = lemma_key_behind(frames, gop, 0);
    assert(keys[first] == 1);
    if first > 0 {
        assert(keys[0] < keys[first]);
    }
    assert forall|i: int, j: int| 0 <= i && j == i + 1 && j < keys.len() implies #[trigger] keys[j]
        - #[trigger] keys[i] <= gop by {
        assert(keys[i] < keys[j]);
        let at = lemma_key_behind(frames, gop, keys[j] - 2);
        if at > i {
            if at > j {
                assert(keys[j] < keys[at]);
            }
        } else if at < i {
            assert(keys[at] < keys[i]);
        }
    }
    let at = lemma_key_behind(frames, gop, all.len() - 1);
    if at < keys.len() - 1 {
        assert(keys[at] < keys[keys.len() - 1]);
    }
}

/// The sync sample that place `n` is reached from.
proof fn lemma_key_behind(frames: Seq<u64>, gop: u64, n: int) -> (i: int)
    requires
        gop >= 2,
        0 <= n < plan(frames, gop).len() <= u32::MAX,
    ensures
        0 <= i < key_numbers(plan(frames, gop)).len(),
        key_numbers(plan(frames, gop))[i] - 1 <= n,
        n - (key_numbers(plan(frames, gop))[i] - 1) < gop,
{
    let all = plan(frames, gop);
    let keys = key_numbers(all);
    let (s, j) = lemma_place(frames, gop, n);
    let k = lemma_gop_start(j, gop);
    plan_keeps_segments(frames, gop, s, k);
    let p = segment_start(frames, s) + k;
    assert(all[p].1 == Slot::Key);
    key_numbers_name_the_keyframes(all);
    choose|i: int| 0 <= i < keys.len() && keys[i] == (p + 1) as u32
}

} // verus!
