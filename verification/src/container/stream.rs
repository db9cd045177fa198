//! Temporal units of a low-overhead OBU stream.
//!
//! A TemporalDelimiter starts a new temporal unit; streams without any are
//! grouped by coded frame.

use vstd::prelude::*;
use vstd::arithmetic::power2::*;

use crate::error::Error;
use crate::model;
use crate::obu::{self, parse_obus, Obu, ObuType};

verus! {

/// The OBUs of one temporal unit.
pub type Unit = Seq<Obu<Seq<u8>>>;

pub open spec fn is_td(o: Obu<Seq<u8>>) -> bool {
    o.obu_type == ObuType::TemporalDelimiter
}

/// Whether the OBU starts a coded frame.
pub open spec fn is_frame(o: Obu<Seq<u8>>) -> bool {
    o.obu_type == ObuType::Frame || o.obu_type == ObuType::FrameHeader
}

pub open spec fn has_frame(obus: Unit) -> bool {
    exists|i: int| 0 <= i < obus.len() && is_frame(#[trigger] obus[i])
}

/// The OBUs that are no TemporalDelimiter, in order.
pub open spec fn without_tds(obus: Unit) -> Unit
    decreases obus.len(),
{
    if obus.len() == 0 {
        Seq::empty()
    } else {
        let front = without_tds(obus.drop_last());
        if is_td(obus.last()) {
            front
        } else {
            front.push(obus.last())
        }
    }
}

/// Whether no TemporalDelimiter stands anywhere but first.
pub open spec fn only_leading_td(obus: Unit) -> bool {
    forall|i: int| 0 < i < obus.len() ==> !is_td(#[trigger] obus[i])
}

// ---------- grouping ----------

/// The groups that are complete, the one that is being filled, and whether
/// that one has a coded frame.
#[verifier::ext_equal]
pub struct Groups {
    pub done: Seq<Unit>,
    pub open: Unit,
    pub framed: bool,
}

impl Groups {
    /// The open group is complete.
    pub open spec fn closed(self) -> Seq<Unit> {
        if self.open.len() == 0 {
            self.done
        } else {
            self.done.push(self.open)
        }
    }

    /// The next OBU joins its group. A TemporalDelimiter starts a group, and
    /// so does a coded frame where the open group already has one.
    pub open spec fn joined_by(self, o: Obu<Seq<u8>>) -> Groups {
        if is_td(o) || (is_frame(o) && self.framed) {
            Groups { done: self.closed(), open: seq![o], framed: is_frame(o) }
        } else {
            Groups { open: self.open.push(o), framed: self.framed || is_frame(o), ..self }
        }
    }
}

/// The groups that these OBUs fill.
pub open spec fn grouped(obus: Unit) -> Groups
    decreases obus.len(),
{
    if obus.len() == 0 {
        Groups { done: Seq::empty(), open: Seq::empty(), framed: false }
    } else {
        grouped(obus.drop_last()).joined_by(obus.last())
    }
}

// ---------- merging ----------

/// Two adjacent groups joined into one temporal unit. At most one
/// TemporalDelimiter survives: a leading one of `front`, otherwise a leading
/// one of `back`. All other OBUs keep their order.
pub open spec fn joined(front: Unit, back: Unit) -> Unit {
    let body = without_tds(front + back);
    if front.len() > 0 && is_td(front[0]) {
        seq![front[0]] + body
    } else if back.len() > 0 && is_td(back[0]) {
        seq![back[0]] + body
    } else {
        body
    }
}

/// The temporal units that the groups make, and the groups without a coded
/// frame that wait for the next temporal unit.
#[verifier::ext_equal]
pub struct Merge {
    pub units: Seq<Unit>,
    pub pending: Unit,
}

impl Merge {
    /// The next group is taken in.
    pub open spec fn with(self, group: Unit) -> Merge {
        if has_frame(group) {
            Merge { units: self.units.push(joined(self.pending, group)), pending: Seq::empty() }
        } else {
            Merge { pending: self.pending + group, ..self }
        }
    }

    /// What is left over attaches to the last temporal unit.
    pub open spec fn finished(self) -> Seq<Unit> {
        if self.pending.len() == 0 {
            self.units
        } else if self.units.len() == 0 {
            seq![self.pending]
        } else {
            self.units.drop_last().push(joined(self.units.last(), self.pending))
        }
    }
}

pub open spec fn merged(groups: Seq<Unit>) -> Merge
    decreases groups.len(),
{
    if groups.len() == 0 {
        Merge { units: Seq::empty(), pending: Seq::empty() }
    } else {
        merged(groups.drop_last()).with(groups.last())
    }
}

/// The temporal units of a stream of these OBUs.
pub open spec fn units_of(obus: Unit) -> Seq<Unit> {
    merged(grouped(obus).closed()).finished()
}

/// The error of a stream whose OBUs cannot be told apart.
pub open spec fn stream_error(e: Error) -> Error {
    match e {
        Error::ObuOverrun => Error::ObuOverrunsStream,
        _ => e,
    }
}

/// The temporal units of a low-overhead OBU stream.
pub open spec fn stream_of(data: Seq<u8>) -> Result<Seq<Seq<u8>>, Error> {
    match obu::obus_of(data) {
        Err(e) => Err(stream_error(e)),
        Ok(obus) => Ok(obu::written(units_of(obus))),
    }
}

// ---------- splitting ----------

/// The views of lists of OBUs.
pub open spec fn unit_views(units: Seq<Vec<Obu>>) -> Seq<Unit> {
    Seq::new(units.len(), |i: int| model::views(units[i]@))
}

fn starts_frame(o: &Obu) -> (r: bool)
    ensures
        r == is_frame(o@),
{
    match o.obu_type {
        ObuType::Frame | ObuType::FrameHeader => true,
        _ => false,
    }
}

pub(crate) fn delimits(o: &Obu) -> (r: bool)
    ensures
        r == is_td(o@),
{
    match o.obu_type {
        ObuType::TemporalDelimiter => true,
        _ => false,
    }
}

fn carries_frame(obus: &Vec<Obu>) -> (r: bool)
    ensures
        r == has_frame(model::views(obus@)),
{
    let ghost all = model::views(obus@);
    let mut i: usize = 0;
    while i < obus.len()
        invariant
            i <= obus@.len(),
            all == model::views(obus@),
            forall|k: int| 0 <= k < i ==> !is_frame(#[trigger] all[k]),
        decreases obus@.len() - i,
    {
        assert(all[i as int] == obus@[i as int]@);
        if starts_frame(&obus[i]) {
            return true;
        }
        i = i + 1;
    }
    false
}

/// Append every OBU that is no TemporalDelimiter.
fn push_body(body: &mut Vec<Obu>, obus: &Vec<Obu>)
    ensures
        model::views(final(body)@) == model::views(old(body)@) + without_tds(model::views(obus@)),
{
    let ghost had = model::views(body@);
    let ghost all = model::views(obus@);
    let mut i: usize = 0;
    assert(all.take(0) =~= Seq::empty());
    assert(had + Seq::<Obu<Seq<u8>>>::empty() =~= had);
    while i < obus.len()
        invariant
            i <= obus@.len(),
            all == model::views(obus@),
            had == model::views(old(body)@),
            model::views(body@) == had + without_tds(all.take(i as int)),
        decreases obus@.len() - i,
    {
        let ghost before = model::views(body@);
        assert(all.take(i + 1).drop_last() =~= all.take(i as int));
        assert(all[i as int] == obus@[i as int]@);
        if !delimits(&obus[i]) {
            let o = obus[i].clone();
            body.push(o);
            assert(model::views(body@) =~= before.push(o@));
            assert(before.push(o@) =~= had + without_tds(all.take(i as int)).push(o@));
        }
        i = i + 1;
    }
    assert(all.take(i as int) =~= all);
}

proof fn lemma_without_tds_append(a: Unit, b: Unit)
    ensures
        without_tds(a + b) == without_tds(a) + without_tds(b),
    decreases b.len(),
{
    if b.len() == 0 {
        assert(a + b =~= a);
        assert(without_tds(a) + without_tds(b) =~= without_tds(a));
    } else {
        lemma_without_tds_append(a, b.drop_last());
        assert((a + b).drop_last() =~= a + b.drop_last());
        assert(without_tds(a + b) =~= without_tds(a) + without_tds(b));
    }
}

/// Join two adjacent groups into a single temporal unit. A
/// TemporalDelimiter marks a boundary and must be the first OBU of its
/// temporal unit, so at most one survives.
fn concat_tu(front: &Vec<Obu>, back: &Vec<Obu>) -> (r: Vec<Obu>)
    ensures
        model::views(r@) == joined(model::views(front@), model::views(back@)),
{
    let ghost f = model::views(front@);
    let ghost b = model::views(back@);
    let mut body: Vec<Obu> = Vec::new();
    if front.len() > 0 && delimits(&front[0]) {
        body.push(front[0].clone());
    } else if back.len() > 0 && delimits(&back[0]) {
        body.push(back[0].clone());
    }
    proof {
        if f.len() > 0 {
            assert(f[0] == front@[0]@);
        }
        if b.len() > 0 {
            assert(b[0] == back@[0]@);
        }
        lemma_without_tds_append(f, b);
    }
    let ghost lead = model::views(body@);
    push_body(&mut body, front);
    push_body(&mut body, back);
    proof {
        assert(lead + without_tds(f) + without_tds(b) =~= lead + without_tds(f + b));
        if f.len() > 0 && is_td(f[0]) {
            assert(lead =~= seq![f[0]]);
        } else if b.len() > 0 && is_td(b[0]) {
            assert(lead =~= seq![b[0]]);
        } else {
            assert(lead + without_tds(f + b) =~= without_tds(f + b));
        }
    }
    body
}

proof fn lemma_unit_views_push(units: Seq<Vec<Obu>>, unit: Vec<Obu>)
    ensures
        unit_views(units.push(unit)) == unit_views(units).push(model::views(unit@)),
{
    assert(unit_views(units.push(unit)) =~= unit_views(units).push(model::views(unit@)));
}

/// Group the OBUs of a stream.
fn group(obus: &Vec<Obu>) -> (r: Vec<Vec<Obu>>)
    ensures
        unit_views(r@) == grouped(model::views(obus@)).closed(),
{
    let ghost all = model::views(obus@);
    let mut tus: Vec<Vec<Obu>> = Vec::new();
    let mut cur: Vec<Obu> = Vec::new();
    let mut cur_has_frame = false;
    let mut i: usize = 0;
    assert(all.take(0) =~= Seq::empty());
    assert(unit_views(tus@) =~= Seq::empty());
    assert(model::views(cur@) =~= Seq::empty());
    while i < obus.len()
        invariant
            i <= obus@.len(),
            all == model::views(obus@),
            grouped(all.take(i as int)) == (Groups {
                done: unit_views(tus@),
                open: model::views(cur@),
                framed: cur_has_frame,
            }),
        decreases obus@.len() - i,
    {
        let ghost o = obus@[i as int]@;
        let ghost before = grouped(all.take(i as int));
        assert(all[i as int] == o);
        assert(all.take(i + 1).drop_last() =~= all.take(i as int));
        let frame = starts_frame(&obus[i]);
        let td = delimits(&obus[i]);
        let item = obus[i].clone();
        if td || (frame && cur_has_frame) {
            if cur.len() > 0 {
                proof {
                    lemma_unit_views_push(tus@, cur);
                }
                tus.push(cur);
            }
            cur = Vec::new();
            cur.push(item);
            cur_has_frame = frame;
            assert(model::views(cur@) =~= seq![o]);
        } else {
            cur.push(item);
            cur_has_frame = cur_has_frame || frame;
            assert(model::views(cur@) =~= before.open.push(o));
        }
        i = i + 1;
    }
    assert(all.take(i as int) =~= all);
    if cur.len() > 0 {
        proof {
            lemma_unit_views_push(tus@, cur);
        }
        tus.push(cur);
    }
    tus
}

/// Attach each group without a coded frame to the following temporal unit,
/// and a trailing one to the last.
fn merge(groups: &Vec<Vec<Obu>>) -> (r: Vec<Vec<Obu>>)
    ensures
        unit_views(r@) == merged(unit_views(groups@)).finished(),
{
    let ghost all = unit_views(groups@);
    let mut units: Vec<Vec<Obu>> = Vec::new();
    let mut pending: Vec<Obu> = Vec::new();
    let mut i: usize = 0;
    assert(all.take(0) =~= Seq::empty());
    assert(unit_views(units@) =~= Seq::empty());
    assert(model::views(pending@) =~= Seq::empty());
    while i < groups.len()
        invariant
            i <= groups@.len(),
            all == unit_views(groups@),
            merged(all.take(i as int)) == (Merge {
                units: unit_views(units@),
                pending: model::views(pending@),
            }),
        decreases groups@.len() - i,
    {
        let ghost g = model::views(groups@[i as int]@);
        let ghost waiting = model::views(pending@);
        assert(all[i as int] == g);
        assert(all.take(i + 1).drop_last() =~= all.take(i as int));
        if carries_frame(&groups[i]) {
            let unit = concat_tu(&pending, &groups[i]);
            proof {
                lemma_unit_views_push(units@, unit);
            }
            units.push(unit);
            pending = Vec::new();
            assert(model::views(pending@) =~= Seq::empty());
        } else {
            let mut k: usize = 0;
            assert(waiting + g.take(0) =~= waiting);
            while k < groups[i as usize].len()
                invariant
                    i < groups@.len(),
                    k <= groups@[i as int]@.len(),
                    g == model::views(groups@[i as int]@),
                    model::views(pending@) == waiting + g.take(k as int),
                decreases groups@[i as int]@.len() - k,
            {
                let ghost before = model::views(pending@);
                let item = groups[i][k].clone();
                pending.push(item);
                assert(g[k as int] == item@);
                assert(model::views(pending@) =~= before.push(item@));
                assert(waiting + g.take(k + 1) =~= before.push(item@));
                k = k + 1;
            }
            assert(g.take(k as int) =~= g);
        }
        i = i + 1;
    }
    assert(all.take(i as int) =~= all);
    if pending.len() > 0 {
        let ghost had = unit_views(units@);
        match units.pop() {
            Some(last) => {
                let unit = concat_tu(&last, &pending);
                assert(unit_views(units@) =~= had.drop_last());
                assert(had.last() == model::views(last@));
                proof {
                    lemma_unit_views_push(units@, unit);
                }
                units.push(unit);
            },
            None => {
                units.push(pending);
                assert(unit_views(units@) =~= seq![model::views(pending@)]);
            },
        }
    }
    units
}

/// Split a low-overhead OBU stream into temporal units. All OBUs must carry
/// size fields except possibly the stream's last.
pub fn split_obu_stream(data: &[u8]) -> (res: Result<Vec<Vec<u8>>, Error>)
    ensures
        match res {
            Ok(v) => stream_of(data@) == Ok::<Seq<Seq<u8>>, Error>(model::views(v@)),
            Err(e) => stream_of(data@) == Err::<Seq<Seq<u8>>, Error>(e),
        },
{
    let obus = match parse_obus(data) {
        Ok(obus) => obus,
        Err(Error::ObuOverrun) => return Err(Error::ObuOverrunsStream),
        Err(e) => return Err(e),
    };
    let groups = group(&obus);
    let units = merge(&groups);
    let ghost all = unit_views(units@);
    let mut out: Vec<Vec<u8>> = Vec::new();
    let mut i: usize = 0;
    while i < units.len()
        invariant
            i <= units@.len(),
            out@.len() == i,
            all == unit_views(units@),
            forall|k: int| 0 <= k < i ==> (#[trigger] out@[k])@ == obu::obus_bytes(all[k]),
        decreases units@.len() - i,
    {
        let tu = obu::write_obus(&units[i]);
        assert(all[i as int] == model::views(units@[i as int]@));
        out.push(tu);
        i = i + 1;
    }
    assert(model::views(out@) =~= obu::written(all));
    Ok(out)
}

// ---------- what splitting keeps ----------

pub proof fn lemma_no_td_left(obus: Unit)
    ensures
        forall|i: int|
            0 <= i < without_tds(obus).len() ==> !is_td(#[trigger] without_tds(obus)[i]),
    decreases obus.len(),
{
    if obus.len() > 0 {
        let front = without_tds(obus.drop_last());
        lemma_no_td_left(obus.drop_last());
        assert forall|i: int| 0 <= i < without_tds(obus).len() implies !is_td(
            #[trigger] without_tds(obus)[i],
        ) by {
            if i < front.len() {
                assert(without_tds(obus)[i] == front[i]);
            }
        }
    }
}

/// No OBU comes from elsewhere.
pub proof fn lemma_without_tds_within(obus: Unit)
    ensures
        forall|i: int|
            0 <= i < without_tds(obus).len() ==> obus.contains(#[trigger] without_tds(obus)[i]),
    decreases obus.len(),
{
    if obus.len() > 0 {
        let front = without_tds(obus.drop_last());
        lemma_without_tds_within(obus.drop_last());
        assert forall|i: int| 0 <= i < without_tds(obus).len() implies obus.contains(
            #[trigger] without_tds(obus)[i],
        ) by {
            if i < front.len() {
                assert(without_tds(obus)[i] == front[i]);
                let k = choose|k: int|
                    0 <= k < obus.drop_last().len() && obus.drop_last()[k] == front[i];
                assert(obus[k] == front[i]);
            } else {
                assert(obus[obus.len() - 1] == without_tds(obus)[i]);
            }
        }
    }
}

proof fn lemma_joined_leads(front: Unit, back: Unit)
    ensures
        only_leading_td(joined(front, back)),
{
    let body = without_tds(front + back);
    lemma_no_td_left(front + back);
    let u = joined(front, back);
    assert forall|i: int| 0 < i < u.len() implies !is_td(#[trigger] u[i]) by {
        if u.len() == body.len() {
            assert(u[i] == body[i]);
        } else {
            assert(u[i] == body[i - 1]);
        }
    }
}

proof fn lemma_merged_leads(groups: Seq<Unit>)
    ensures
        forall|i: int|
            0 <= i < merged(groups).units.len() ==> only_leading_td(
                #[trigger] merged(groups).units[i],
            ),
    decreases groups.len(),
{
    if groups.len() > 0 {
        let before = merged(groups.drop_last());
        lemma_merged_leads(groups.drop_last());
        lemma_joined_leads(before.pending, groups.last());
    }
}

proof fn lemma_merged_has_units(groups: Seq<Unit>, g: int)
    requires
        0 <= g < groups.len(),
        has_frame(groups[g]),
    ensures
        merged(groups).units.len() > 0,
    decreases groups.len(),
{
    if g < groups.len() - 1 {
        lemma_merged_has_units(groups.drop_last(), g);
    }
}

proof fn lemma_groups_keep_frames(obus: Unit, i: int)
    requires
        0 <= i < obus.len(),
        is_frame(obus[i]),
    ensures
        exists|g: int|
            0 <= g < grouped(obus).closed().len() && has_frame(
                #[trigger] grouped(obus).closed()[g],
            ),
    decreases obus.len(),
{
    let before = grouped(obus.drop_last());
    let after = grouped(obus);
    let o = obus.last();
    if i == obus.len() - 1 {
        let g = after.closed().len() - 1;
        let open = after.closed()[g];
        assert(open[open.len() - 1] == o);
        assert(has_frame(open));
    } else {
        lemma_groups_keep_frames(obus.drop_last(), i);
        let g = choose|g: int|
            0 <= g < before.closed().len() && has_frame(#[trigger] before.closed()[g]);
        let group = before.closed()[g];
        let k = choose|k: int| 0 <= k < group.len() && is_frame(#[trigger] group[k]);
        if is_td(o) || (is_frame(o) && before.framed) {
            assert(after.done == before.closed());
            assert(after.closed()[g] == group);
        } else if g < before.done.len() {
            assert(after.closed()[g] == group);
        } else {
            let open = after.closed()[g];
            assert(open == before.open.push(o));
            assert(open[k] == group[k]);
            assert(has_frame(open));
        }
    }
}

/// A stream with a coded frame splits into temporal units in which a
/// TemporalDelimiter stands only first.
pub proof fn units_have_only_a_leading_td(obus: Unit)
    requires
        has_frame(obus),
    ensures
        forall|i: int| 0 <= i < units_of(obus).len() ==> only_leading_td(#[trigger] units_of(obus)[i]),
{
    let groups = grouped(obus).closed();
    let m = merged(groups);
    let i = choose|i: int| 0 <= i < obus.len() && is_frame(#[trigger] obus[i]);
    lemma_groups_keep_frames(obus, i);
    let g = choose|g: int| 0 <= g < groups.len() && has_frame(#[trigger] groups[g]);
    lemma_merged_has_units(groups, g);
    lemma_merged_leads(groups);
    lemma_joined_leads(m.units.last(), m.pending);
}

/// A temporal unit as encoders emit it: one coded frame, and a
/// TemporalDelimiter at most in front.
pub open spec fn regular(u: Unit) -> bool {
    &&& only_leading_td(u)
    &&& exists|f: int|
        0 <= f < u.len() && #[trigger] is_frame(u[f]) && (forall|k: int|
            0 <= k < u.len() && k != f ==> !is_frame(#[trigger] u[k]))
}

/// Whether a stream tells this temporal unit from the one before it: a
/// TemporalDelimiter stands between them or, in streams without any, its coded
/// frame comes first.
pub open spec fn stands_apart(u: Unit) -> bool {
    is_td(u[0]) || is_frame(u[0])
}

/// Temporal units that a stream tells apart.
pub open spec fn told_apart(units: Seq<Unit>) -> bool {
    &&& forall|i: int| 0 <= i < units.len() ==> regular(#[trigger] units[i])
    &&& forall|i: int| 0 < i < units.len() ==> stands_apart(#[trigger] units[i])
}

/// Grouping a part of a regular temporal unit behind complete groups.
proof fn lemma_group_part(before: Unit, u: Unit, n: nat)
    requires
        regular(u),
        before.len() == 0 || (grouped(before).framed && stands_apart(u)),
        1 <= n <= u.len(),
    ensures
        grouped(before + u.take(n as int)).done == grouped(before).closed(),
        grouped(before + u.take(n as int)).open == u.take(n as int),
        grouped(before + u.take(n as int)).framed == has_frame(u.take(n as int)),
    decreases n,
{
    let part = u.take(n as int);
    let all = before + part;
    assert(all.last() == u[n - 1]);
    if n == 1 {
        assert(all.drop_last() =~= before);
        assert(part =~= seq![u[0]]);
        if before.len() == 0 {
            assert(before =~= Seq::empty());
            assert(grouped(before).open.push(u[0]) =~= part);
        }
        if is_frame(u[0]) {
            assert(is_frame(part[0]));
        }
    } else {
        let shorter = u.take(n - 1);
        assert(all.drop_last() =~= before + shorter);
        lemma_group_part(before, u, (n - 1) as nat);
        assert(part =~= shorter.push(u[n - 1]));
        assert(!is_td(u[n - 1]));
        let f = choose|f: int|
            0 <= f < u.len() && #[trigger] is_frame(u[f]) && (forall|k: int|
                0 <= k < u.len() && k != f ==> !is_frame(#[trigger] u[k]));
        if is_frame(u[n - 1]) {
            assert(f == n - 1);
            if has_frame(shorter) {
                let k = choose|k: int| 0 <= k < shorter.len() && is_frame(#[trigger] shorter[k]);
                assert(is_frame(u[k]));
            }
            assert(is_frame(part[n - 1]));
        } else {
            if has_frame(shorter) {
                let k = choose|k: int| 0 <= k < shorter.len() && is_frame(#[trigger] shorter[k]);
                assert(is_frame(part[k]));
            }
            if has_frame(part) {
                let k = choose|k: int| 0 <= k < part.len() && is_frame(#[trigger] part[k]);
                assert(k < n - 1);
                assert(is_frame(shorter[k]));
            }
        }
    }
}

proof fn lemma_groups_are_units(units: Seq<Unit>)
    requires
        told_apart(units),
    ensures
        grouped(model::concat(units)).closed() == units,
        units.len() > 0 ==> grouped(model::concat(units)).framed,
    decreases units.len(),
{
    if units.len() == 0 {
        assert(units =~= Seq::empty());
    } else {
        let front = units.drop_last();
        let u = units.last();
        lemma_groups_are_units(front);
        assert(regular(units[units.len() - 1]));
        if front.len() > 0 {
            assert(stands_apart(units[units.len() - 1]));
        } else {
            assert(front =~= Seq::empty());
        }
        lemma_group_part(model::concat(front), u, u.len());
        assert(u.take(u.len() as int) =~= u);
        assert(front.push(u) =~= units);
        lemma_regular_stays(u);
    }
}

proof fn lemma_regular_stays(u: Unit)
    requires
        regular(u),
    ensures
        has_frame(u),
        joined(Seq::empty(), u) == u,
{
    let none = Seq::<Obu<Seq<u8>>>::empty();
    assert(none + u =~= u);
    if is_td(u[0]) {
        lemma_without_tds_skips_front(u);
        assert(seq![u[0]] + u.skip(1) =~= u);
    } else {
        lemma_without_tds_keeps(u);
    }
}

proof fn lemma_without_tds_keeps(u: Unit)
    requires
        forall|i: int| 0 <= i < u.len() ==> !is_td(#[trigger] u[i]),
    ensures
        without_tds(u) == u,
    decreases u.len(),
{
    if u.len() > 0 {
        let front = u.drop_last();
        assert forall|i: int| 0 <= i < front.len() implies !is_td(#[trigger] front[i]) by {
            assert(!is_td(u[i]));
        }
        lemma_without_tds_keeps(front);
        assert(!is_td(u[u.len() - 1]));
        assert(front.push(u.last()) =~= u);
    }
}

proof fn lemma_without_tds_skips_front(u: Unit)
    requires
        u.len() > 0,
        is_td(u[0]),
        only_leading_td(u),
    ensures
        without_tds(u) == u.skip(1),
    decreases u.len(),
{
    if u.len() == 1 {
        reveal_with_fuel(without_tds, 2);
        assert(without_tds(u) =~= u.skip(1));
    } else {
        assert(only_leading_td(u.drop_last()));
        lemma_without_tds_skips_front(u.drop_last());
        assert(!is_td(u[u.len() - 1]));
        assert(u.drop_last().skip(1).push(u.last()) =~= u.skip(1));
    }
}

proof fn lemma_merge_keeps_units(units: Seq<Unit>)
    requires
        forall|i: int| 0 <= i < units.len() ==> regular(#[trigger] units[i]),
    ensures
        merged(units) == (Merge { units, pending: Seq::empty() }),
    decreases units.len(),
{
    if units.len() == 0 {
        assert(units =~= Seq::empty());
    } else {
        lemma_merge_keeps_units(units.drop_last());
        lemma_regular_stays(units.last());
        assert(units.drop_last().push(units.last()) =~= units);
    }
}

proof fn lemma_written_concat(units: Seq<Unit>)
    ensures
        model::concat(obu::written(units)) == obu::obus_bytes(model::concat(units)),
    decreases units.len(),
{
    if units.len() == 0 {
    } else {
        let front = units.drop_last();
        let u = units.last();
        lemma_written_concat(front);
        assert(obu::written(units).drop_last() =~= obu::written(front));
        let a = model::concat(front);
        let pa = Seq::new(a.len(), |i: int| a[i].bytes());
        let pu = Seq::new(u.len(), |i: int| u[i].bytes());
        let all = a + u;
        model::lemma_concat_append(pa, pu);
        assert(Seq::new(all.len(), |i: int| all[i].bytes()) =~= pa + pu);
    }
}

proof fn lemma_concat_payloads(units: Seq<Unit>)
    requires
        forall|i: int, k: int|
            0 <= i < units.len() && 0 <= k < units[i].len() ==> (
            #[trigger] units[i][k]).payload.len() < pow2(56),
    ensures
        forall|k: int|
            0 <= k < model::concat(units).len() ==> (
            #[trigger] model::concat(units)[k]).payload.len() < pow2(56),
    decreases units.len(),
{
    if units.len() > 0 {
        let front = units.drop_last();
        assert forall|i: int, k: int|
            0 <= i < front.len() && 0 <= k < front[i].len() implies (
        #[trigger] front[i][k]).payload.len() < pow2(56) by {
            assert(units[i][k].payload.len() < pow2(56));
        }
        lemma_concat_payloads(front);
        assert forall|k: int| 0 <= k < model::concat(units).len() implies (
        #[trigger] model::concat(units)[k]).payload.len() < pow2(56) by {
            let n = model::concat(front).len();
            if k < n {
                assert(model::concat(units)[k] == model::concat(front)[k]);
            } else {
                assert(model::concat(units)[k] == units[units.len() - 1][k - n]);
            }
        }
    }
}

/// Splitting a stream of temporal units that it tells apart gives them back.
pub proof fn stream_round_trip(units: Seq<Unit>)
    requires
        told_apart(units),
        forall|i: int, k: int|
            0 <= i < units.len() && 0 <= k < units[i].len() ==> (
            #[trigger] units[i][k]).payload.len() < pow2(56),
    ensures
        units_of(model::concat(units)) == units,
        stream_of(model::concat(obu::written(units))) == Ok::<Seq<Seq<u8>>, Error>(
            obu::written(units),
        ),
{
    lemma_groups_are_units(units);
    lemma_merge_keeps_units(units);
    lemma_written_concat(units);
    lemma_concat_payloads(units);
    obu::obus_round_trip(model::concat(units));
}

} // verus!
