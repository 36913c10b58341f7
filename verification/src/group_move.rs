//! Moving several placements as one edit. The primary placement goes to
//! the destination Track, start and layer; every other selected placement
//! keeps its time offset and its layer offset from the primary. The
//! selection is inserted into the destination Track's order by layer, each
//! at its own clamped layer, so non-contiguous layers stay apart; the
//! Tracks they leave close up.

use vstd::prelude::*;

use crate::authoring::{edit_outcome, order_position, position_in, with_items};
use crate::edit_plan::{layers_fit, lemma_insert_keeps_distinct};
use crate::ids::{TimelineItemId, TimelineTrackId};
use crate::layers::{insert_sorted, keys_distinct, keys_sorted};
use crate::model::{AuthoringProject, ProjectView, TimelineItem, TimelineItemView};
use crate::planning::TimelineEditPlanningIndex;
use crate::service::{recorded, ChangeSet, LibraryError, ProjectInvalidation, TimelineEditorService};
use crate::time::{add_fits, spec_add, spec_sub, sub_fits, MediaTime, TimelineInterval};

verus! {

/// `order` without the selected placements.
pub open spec fn remaining(order: Seq<TimelineItemId>, selected: Seq<TimelineItemId>) -> Seq<TimelineItemId>
    decreases order.len(),
{
    if order.len() == 0 {
        seq![]
    } else {
        let rest = remaining(order.drop_last(), selected);
        if selected.contains(order.last()) {
            rest
        } else {
            rest.push(order.last())
        }
    }
}

/// `d` clamped to the positions `0..=len`.
pub open spec fn clamp_position(d: int, len: int) -> int {
    if d <= 0 {
        0
    } else if d >= len {
        len
    } else {
        d
    }
}

/// `order` with each entry's placement inserted, in turn, at the entry's
/// clamped position.
pub open spec fn insert_all(order: Seq<TimelineItemId>, entries: Seq<(int, TimelineItemId)>) -> Seq<TimelineItemId>
    decreases entries.len(),
{
    if entries.len() == 0 {
        order
    } else {
        let o = insert_all(order, entries.drop_last());
        o.insert(clamp_position(entries.last().0, o.len() as int), entries.last().1)
    }
}

/// `keys` lists the selected placements once each, with their layers,
/// sorted by layer and then identity.
pub open spec fn selection_keys(p: ProjectView, selected: Seq<TimelineItemId>, keys: Seq<(i64, TimelineItemId)>) -> bool {
    &&& keys_sorted(keys)
    &&& keys_distinct(keys)
    &&& keys.len() == selected.len()
    &&& forall|k: int| 0 <= k < keys.len() ==> selected.contains((#[trigger] keys[k]).1) && keys[k].0 == p.item(keys[k].1).layer
    &&& forall|k: int| 0 <= k < selected.len() ==> keys.contains((p.item(#[trigger] selected[k]).layer, selected[k]))
}

/// The destination position each selected placement asks for: its layer
/// shifted by the primary's layer change.
pub open spec fn desired(keys: Seq<(i64, TimelineItemId)>, shift: int) -> Seq<(int, TimelineItemId)> {
    keys.map_values(|e: (i64, TimelineItemId)| (e.0 + shift, e.1))
}

/// Track `t` holds a selected placement.
pub open spec fn source_track(p: ProjectView, selected: Seq<TimelineItemId>, t: TimelineTrackId) -> bool {
    exists|k: int| 0 <= k < selected.len() && p.item(#[trigger] selected[k]).track_id == t
}

/// The destination Track's order after the move.
pub open spec fn destination(
    index: TimelineEditPlanningIndex,
    selected: Seq<TimelineItemId>,
    track: TimelineTrackId,
    keys: Seq<(i64, TimelineItemId)>,
    shift: int,
) -> Seq<TimelineItemId> {
    insert_all(remaining(index.order(track), selected), desired(keys, shift))
}

/// Placement `x` after the move, before its layer is renumbered.
pub open spec fn moved(x: TimelineItemView, selected: Seq<TimelineItemId>, track: TimelineTrackId, offset: MediaTime) -> TimelineItemView {
    if selected.contains(x.id) {
        TimelineItemView {
            track_id: track,
            interval: TimelineInterval { start: spec_add(x.interval.start, offset), duration: x.interval.duration },
            ..x
        }
    } else {
        x
    }
}

/// The layer of moved placement `y`: its position in the destination
/// order, or in the order its source Track keeps; other placements keep
/// theirs.
pub open spec fn group_layer(
    index: TimelineEditPlanningIndex,
    p: ProjectView,
    selected: Seq<TimelineItemId>,
    track: TimelineTrackId,
    dest: Seq<TimelineItemId>,
    y: TimelineItemView,
) -> i64 {
    if y.track_id == track {
        position_in(dest, y.id) as i64
    } else if source_track(p, selected, y.track_id) {
        position_in(remaining(index.order(y.track_id), selected), y.id) as i64
    } else {
        y.layer
    }
}

/// `p` after the selected placements moved.
pub open spec fn grouped(
    index: TimelineEditPlanningIndex,
    p: ProjectView,
    selected: Seq<TimelineItemId>,
    primary: TimelineItemId,
    track: TimelineTrackId,
    start: MediaTime,
    layer: i64,
    keys: Seq<(i64, TimelineItemId)>,
) -> ProjectView {
    let offset = spec_sub(start, p.item(primary).interval.start);
    let shift = layer - p.item(primary).layer;
    let dest = destination(index, selected, track, keys, shift);
    with_items(
        p,
        p.items.map_values(
            |x: TimelineItemView|
                {
                    let y = moved(x, selected, track, offset);
                    TimelineItemView { layer: group_layer(index, p, selected, track, dest, y), ..y }
                },
        ),
    )
}

/// A group move is allowed: the selection lists existing placements once
/// each and includes the primary, the destination Track exists, every
/// shifted start is exact, and the changed Tracks' layers fit.
pub open spec fn group_move_allowed(
    index: TimelineEditPlanningIndex,
    p: ProjectView,
    selected: Seq<TimelineItemId>,
    primary: TimelineItemId,
    track: TimelineTrackId,
    start: MediaTime,
) -> bool {
    let offset = spec_sub(start, p.item(primary).interval.start);
    &&& selected.no_duplicates()
    &&& selected.contains(primary)
    &&& forall|k: int| 0 <= k < selected.len() ==> p.has_item(#[trigger] selected[k])
    &&& p.has_track(track)
    &&& sub_fits(start, p.item(primary).interval.start)
    &&& forall|k: int| 0 <= k < selected.len() ==> add_fits(p.item(#[trigger] selected[k]).interval.start, offset)
    &&& layers_fit((remaining(index.order(track), selected).len() + selected.len()) as int)
    &&& forall|t: TimelineTrackId|
        source_track(p, selected, t) ==> layers_fit(#[trigger] remaining(index.order(t), selected).len() as int)
}

// ---------------------------------------------------------------------------
// Facts about orders
// ---------------------------------------------------------------------------

pub proof fn lemma_remaining(order: Seq<TimelineItemId>, selected: Seq<TimelineItemId>)
    ensures
        order.no_duplicates() ==> remaining(order, selected).no_duplicates(),
        forall|x: TimelineItemId|
            #[trigger] remaining(order, selected).contains(x) <==> order.contains(x) && !selected.contains(x),
        remaining(order, selected).len() <= order.len(),
    decreases order.len(),
{
    if order.len() > 0 {
        let d = order.drop_last();
        lemma_remaining(d, selected);
        let rest = remaining(d, selected);
        let r = remaining(order, selected);
        assert forall|x: TimelineItemId| #[trigger] r.contains(x) <==> order.contains(x) && !selected.contains(x) by {
            if r.contains(x) {
                let k = choose|k: int| 0 <= k < r.len() && r[k] == x;
                if k < rest.len() {
                    assert(rest[k] == x);
                    assert(rest.contains(x));
                    let j = choose|j: int| 0 <= j < d.len() && d[j] == x;
                    assert(order[j] == x);
                } else {
                    assert(order[order.len() - 1] == x);
                }
            }
            if order.contains(x) && !selected.contains(x) {
                let j = choose|j: int| 0 <= j < order.len() && order[j] == x;
                if j < order.len() - 1 {
                    assert(d[j] == x);
                    assert(rest.contains(x));
                    let k = choose|k: int| 0 <= k < rest.len() && rest[k] == x;
                    assert(r[k] == x);
                } else {
                    assert(r[r.len() - 1] == x);
                }
            }
        }
        if order.no_duplicates() {
            assert(d.no_duplicates()) by {
                assert forall|a: int, b: int| 0 <= a < d.len() && 0 <= b < d.len() && a != b implies d[a] != d[b] by {
                    assert(d[a] == order[a] && d[b] == order[b]);
                }
            }
            if !selected.contains(order.last()) {
                assert(!rest.contains(order.last())) by {
                    if rest.contains(order.last()) {
                        let j = choose|j: int| 0 <= j < d.len() && d[j] == order.last();
                        assert(order[j] == order[order.len() - 1]);
                    }
                }
                assert forall|a: int, b: int| 0 <= a < r.len() && 0 <= b < r.len() && a != b implies r[a] != r[b] by {
                    if a < rest.len() && b < rest.len() {
                        assert(r[a] == rest[a] && r[b] == rest[b]);
                    } else if a < rest.len() {
                        assert(r[a] == rest[a]);
                        assert(rest.contains(r[a]));
                    } else if b < rest.len() {
                        assert(r[b] == rest[b]);
                        assert(rest.contains(r[b]));
                    }
                }
            }
        }
    }
}

/// In an order without duplicates, a placement's position is where it is.
pub proof fn lemma_position(order: Seq<TimelineItemId>, id: TimelineItemId, k: int)
    requires
        order.no_duplicates(),
        0 <= k < order.len(),
        order[k] == id,
    ensures
        position_in(order, id) == k,
{
    let c = position_in(order, id);
    assert(0 <= c < order.len() && order[c] == id);
}

fn contains_id(v: &Vec<TimelineItemId>, id: TimelineItemId) -> (r: bool)
    ensures
        r == v@.contains(id),
{
    order_position(v, id).is_some()
}

fn remaining_exec(order: &Vec<TimelineItemId>, selected: &Vec<TimelineItemId>) -> (r: Vec<TimelineItemId>)
    ensures
        r@ == remaining(order@, selected@),
{
    let mut out: Vec<TimelineItemId> = Vec::new();
    for k in 0..order.len()
        invariant
            out@ == remaining(order@.take(k as int), selected@),
    {
        proof {
            let next = order@.take(k + 1);
            assert(next.drop_last() =~= order@.take(k as int));
            assert(next.last() == order@[k as int]);
        }
        if !contains_id(selected, order[k]) {
            out.push(order[k]);
        }
    }
    assert(order@.take(order@.len() as int) =~= order@);
    out
}

/// Inserts the selection, sorted by `keys`, into `base`.
fn insert_entries(base: Vec<TimelineItemId>, keys: &Vec<(i64, TimelineItemId)>, shift: i128) -> (r: Vec<TimelineItemId>)
    requires
        base@.no_duplicates(),
        keys_distinct(keys@),
        forall|k: int| 0 <= k < keys@.len() ==> !base@.contains((#[trigger] keys@[k]).1),
        -0x1_0000_0000_0000_0000 <= shift <= 0x1_0000_0000_0000_0000,
    ensures
        r@ == insert_all(base@, desired(keys@, shift as int)),
        r@.no_duplicates(),
        r@.len() == base@.len() + keys@.len(),
        forall|x: TimelineItemId|
            #[trigger] r@.contains(x) <==> base@.contains(x) || exists|k: int| 0 <= k < keys@.len() && keys@[k].1 == x,
{
    let ghost entries = desired(keys@, shift as int);
    let mut dest = base;
    let ghost b = dest@;
    assert(entries.take(0) =~= seq![]);
    for k in 0..keys.len()
        invariant
            b == base@,
            entries == desired(keys@, shift as int),
            keys_distinct(keys@),
            forall|j: int| 0 <= j < keys@.len() ==> !b.contains((#[trigger] keys@[j]).1),
            -0x1_0000_0000_0000_0000 <= shift <= 0x1_0000_0000_0000_0000,
            dest@ == insert_all(b, entries.take(k as int)),
            dest@.no_duplicates(),
            dest@.len() == b.len() + k,
            forall|x: TimelineItemId|
                #[trigger] dest@.contains(x) <==> b.contains(x) || exists|j: int| 0 <= j < k && keys@[j].1 == x,
    {
        let (key_layer, id) = keys[k];
        let d: i128 = key_layer as i128 + shift;
        let len = dest.len();
        let pos: usize = if d <= 0 {
            0
        } else if d >= len as i128 {
            len
        } else {
            d as usize
        };
        proof {
            let next = entries.take(k + 1);
            assert(next.drop_last() =~= entries.take(k as int));
            assert(next.last() == (key_layer + shift, id));
            assert(pos == clamp_position(key_layer + shift, len as int));
            assert(!dest@.contains(id)) by {
                if dest@.contains(id) {
                    assert(!b.contains(keys@[k as int].1));
                    let j = choose|j: int| 0 <= j < k && keys@[j].1 == id;
                    assert(keys@[j].1 != keys@[k as int].1);
                }
            }
            lemma_insert_keeps_distinct(dest@, pos as int, id);
        }
        dest.insert(pos, id);
        proof {
            assert forall|x: TimelineItemId|
                #[trigger] dest@.contains(x) <==> b.contains(x) || exists|j: int| 0 <= j < k + 1 && keys@[j].1 == x by {
                if x == id {
                    assert(keys@[k as int].1 == x);
                }
            }
        }
    }
    assert(entries.take(keys@.len() as int) =~= entries);
    dest
}

/// The selection's keys, sorted.
fn sort_selection(project: &AuthoringProject, selected: &Vec<TimelineItemId>) -> (r: Vec<(i64, TimelineItemId)>)
    requires
        project@.unique_item_ids(),
        selected@.no_duplicates(),
        forall|k: int| 0 <= k < selected@.len() ==> project@.has_item(#[trigger] selected@[k]),
    ensures
        selection_keys(project@, selected@, r@),
{
    let ghost p = project@;
    let ghost sel = selected@;
    let mut keys: Vec<(i64, TimelineItemId)> = Vec::new();
    for m in 0..selected.len()
        invariant
            p == project@,
            sel == selected@,
            p.unique_item_ids(),
            sel.no_duplicates(),
            forall|k: int| 0 <= k < sel.len() ==> p.has_item(#[trigger] sel[k]),
            keys_sorted(keys@),
            keys_distinct(keys@),
            keys@.len() == m,
            forall|k: int|
                0 <= k < keys@.len() ==> sel.take(m as int).contains((#[trigger] keys@[k]).1) && keys@[k].0 == p.item(
                    keys@[k].1,
                ).layer,
            forall|j: int| 0 <= j < m ==> keys@.contains((p.item(#[trigger] sel[j]).layer, sel[j])),
    {
        let id = selected[m];
        assert(p.has_item(sel[m as int]));
        let i = match project.item_position(id) {
            Some(i) => i,
            None => {
                assert(false);
                0
            },
        };
        proof {
            p.lemma_item_index(i as int);
        }
        let ghost old_keys = keys@;
        assert forall|k: int| 0 <= k < keys@.len() implies (#[trigger] keys@[k]).1 != id by {
            assert(sel.take(m as int).contains(keys@[k].1));
            let j = choose|j: int| 0 <= j < m && sel.take(m as int)[j] == keys@[k].1;
            assert(sel[j] != sel[m as int]);
        }
        insert_sorted(&mut keys, project.items[i].layer, id);
        proof {
            assert forall|k: int|
                0 <= k < keys@.len() implies sel.take(m + 1).contains((#[trigger] keys@[k]).1) && keys@[k].0 == p.item(
                    keys@[k].1,
                ).layer by {
                if old_keys.contains(keys@[k]) {
                    let o = choose|o: int| 0 <= o < old_keys.len() && old_keys[o] == keys@[k];
                    assert(old_keys[o] == keys@[k]);
                    assert(sel.take(m as int).contains(old_keys[o].1));
                    let j = choose|j: int| 0 <= j < m && sel.take(m as int)[j] == old_keys[o].1;
                    assert(sel.take(m + 1)[j] == keys@[k].1);
                } else {
                    assert(keys@[k] == (project.items@[i as int].layer, id));
                    assert(sel.take(m + 1)[m as int] == keys@[k].1);
                }
            }
        }
    }
    proof {
        assert(sel.take(sel.len() as int) =~= sel);
    }
    keys
}

/// `after` committed the group move from `before`, for the selection's
/// sorted keys.
pub open spec fn group_committed(
    before: TimelineEditorService,
    after: TimelineEditorService,
    selected: Seq<TimelineItemId>,
    primary: TimelineItemId,
    track: TimelineTrackId,
    start: MediaTime,
    layer: i64,
) -> bool {
    let p = before.spec_project();
    let index = before.planning_index_view();
    &&& group_move_allowed(index, p, selected, primary, track, start)
    &&& exists|keys: Seq<(i64, TimelineItemId)>|
        selection_keys(p, selected, keys) && #[trigger] crate::service::committed(
            before,
            after,
            grouped(index, p, selected, primary, track, start, layer, keys),
        )
}

fn position_of_track(v: &Vec<TimelineTrackId>, t: TimelineTrackId) -> (r: Option<usize>)
    ensures
        match r {
            Some(j) => j < v@.len() && v@[j as int] == t,
            None => !v@.contains(t),
        },
{
    for j in 0..v.len()
        invariant
            forall|e: int| 0 <= e < j ==> v@[e] != t,
    {
        if v[j] == t {
            return Some(j);
        }
    }
    None
}

/// The refusal of a group move.
fn refused(message: &str) -> (r: LibraryError)
    ensures
        r matches LibraryError::Validation(text) && text@ == message@,
{
    LibraryError::Validation(message.to_owned())
}

impl TimelineEditorService {
    /// Moves the selected placements as one transaction: the primary to
    /// `track`, `start` and `layer`, the others with their offsets from it.
    pub fn move_items(
        &mut self,
        selected: &Vec<TimelineItemId>,
        primary: TimelineItemId,
        track: TimelineTrackId,
        start: MediaTime,
        layer: i64,
    ) -> (r: Result<ChangeSet, LibraryError>)
        requires
            old(self).wf(),
        ensures
            final(self).wf(),
            r is Err ==> crate::service::unchanged(*old(self), *final(self)),
            r is Ok ==> group_committed(*old(self), *final(self), selected@, primary, track, start, layer),
            ({
                let p = old(self).spec_project();
                let index = old(self).planning_index_view();
                group_move_allowed(index, p, selected@, primary, track, start) && (forall|keys: Seq<(i64, TimelineItemId)>|
                    selection_keys(p, selected@, keys) ==> #[trigger] grouped(
                        index,
                        p,
                        selected@,
                        primary,
                        track,
                        start,
                        layer,
                        keys,
                    ).valid()) && old(self).spec_revision() < u64::MAX ==> r is Ok
            }),
            r matches Ok(changes) ==> recorded(*final(self), changes),
    {
        proof {
            self.lemma_wf();
        }
        let ghost p = self.project@;
        let ghost index = self.planning_index;
        let ghost sel = selected@;
        let n = selected.len();
        for a in 0..n
            invariant
                self.wf(),
                *self == *old(self),
                sel == selected@,
                n == sel.len(),
                forall|j: int, k: int| 0 <= j < a && 0 <= k < sel.len() && j != k ==> sel[j] != sel[k],
        {
            match order_position(selected, selected[a]) {
                Some(first) => {
                    if first != a {
                        return Err(refused("The selection lists a placement twice"));
                    }
                },
                None => {
                    return Err(refused("The selection lists a placement twice"));
                },
            }
            let mut b = a + 1;
            while b < n
                invariant
                    self.wf(),
                    *self == *old(self),
                    sel == selected@,
                    n == sel.len(),
                    a < b <= n,
                    forall|j: int, k: int| 0 <= j < a && 0 <= k < sel.len() && j != k ==> sel[j] != sel[k],
                    forall|k: int| 0 <= k < b && k != a ==> sel[a as int] != sel[k],
                decreases n - b,
            {
                if selected[b] == selected[a] {
                    return Err(refused("The selection lists a placement twice"));
                }
                b = b + 1;
            }
        }
        assert(sel.no_duplicates());
        if !contains_id(selected, primary) {
            return Err(refused("The primary placement must be selected"));
        }
        for m in 0..n
            invariant
                self.wf(),
                *self == *old(self),
                p == old(self).spec_project(),
                sel == selected@,
                p == self.project@,
                p.unique_ids(),
                n == sel.len(),
                forall|k: int| 0 <= k < m ==> p.has_item(#[trigger] sel[k]),
        {
            if self.project.item_position(selected[m]).is_none() {
                assert(!p.has_item(sel[m as int]));
                return Err(Self::missing_item(selected[m]));
            }
        }
        if self.project.track_position(track).is_none() {
            return Err(LibraryError::Validation(crate::ids::text_with_id("Missing Timeline Track ", track.0)));
        }
        let pi = match self.project.item_position(primary) {
            Some(pi) => pi,
            None => {
                assert(false);
                return Err(Self::missing_item(primary));
            },
        };
        proof {
            p.lemma_item_index(pi as int);
        }
        let primary_start = self.project.items[pi].interval.start;
        let primary_layer = self.project.items[pi].layer;
        let offset = match start.checked_sub(primary_start) {
            Ok(offset) => offset,
            Err(message) => return Err(LibraryError::Validation(message)),
        };
        for m in 0..n
            invariant
                self.wf(),
                *self == *old(self),
                p == old(self).spec_project(),
                offset == spec_sub(start, p.item(primary).interval.start),
                sel == selected@,
                p == self.project@,
                p.unique_ids(),
                n == sel.len(),
                forall|k: int| 0 <= k < sel.len() ==> p.has_item(#[trigger] sel[k]),
                forall|k: int| 0 <= k < m ==> add_fits(p.item(#[trigger] sel[k]).interval.start, offset),
        {
            let i = match self.project.item_position(selected[m]) {
                Some(i) => i,
                None => {
                    assert(p.has_item(sel[m as int]));
                    assert(false);
                    return Err(Self::missing_item(selected[m]));
                },
            };
            proof {
                p.lemma_item_index(i as int);
            }
            if let Err(message) = self.project.items[i].interval.start.checked_add(offset) {
                assert(p.item(sel[m as int]) == p.items[i as int]);
                assert(!add_fits(p.item(sel[m as int]).interval.start, offset));
                return Err(LibraryError::Validation(message));
            }
        }
        let keys = sort_selection(&self.project, selected);
        let shift: i128 = layer as i128 - primary_layer as i128;
        proof {
            index.lemma_indexes(p, track);
        }
        let track_order = self.planning_index.track_items(track);
        let base = remaining_exec(&track_order, selected);
        proof {
            lemma_remaining(index.order(track), sel);
        }
        if (base.len() as u128) + (n as u128) > 0x8000_0000_0000_0000u128 {
            return Err(refused("Timeline layer overflow"));
        }
        proof {
            assert forall|k: int| 0 <= k < keys@.len() implies !base@.contains((#[trigger] keys@[k]).1) by {
                assert(sel.contains(keys@[k].1));
            }
        }
        let dest = insert_entries(base, &keys, shift);
        let ghost dest_view = dest@;
        assert(dest_view == destination(index, sel, track, keys@, layer - p.item(primary).layer));
        let mut tracks: Vec<TimelineTrackId> = Vec::new();
        let mut orders: Vec<Vec<TimelineItemId>> = Vec::new();
        for m in 0..n
            invariant
                self.wf(),
                *self == *old(self),
                p == old(self).spec_project(),
                index == old(self).planning_index_view(),
                sel == selected@,
                p == self.project@,
                p.unique_ids(),
                p.valid(),
                index == self.planning_index,
                index.indexes(p),
                n == sel.len(),
                forall|k: int| 0 <= k < sel.len() ==> p.has_item(#[trigger] sel[k]),
                tracks@.len() == orders@.len(),
                forall|j: int| 0 <= j < orders@.len() ==> (#[trigger] orders@[j])@ == remaining(index.order(tracks@[j]), sel),
                forall|j: int| 0 <= j < orders@.len() ==> layers_fit((#[trigger] orders@[j])@.len() as int),
                forall|j: int| 0 <= j < orders@.len() ==> (#[trigger] orders@[j])@.no_duplicates(),
                forall|t: TimelineTrackId|
                    #[trigger] tracks@.contains(t) <==> exists|k: int| 0 <= k < m && p.item(#[trigger] sel[k]).track_id == t,
        {
            let i = match self.project.item_position(selected[m]) {
                Some(i) => i,
                None => {
                    assert(p.has_item(sel[m as int]));
                    assert(false);
                    return Err(Self::missing_item(selected[m]));
                },
            };
            proof {
                p.lemma_item_index(i as int);
                assert(p.item_valid(i as int));
            }
            let t = self.project.items[i].track_id;
            assert(p.item(sel[m as int]).track_id == t);
            let ghost old_tracks = tracks@;
            let found = position_of_track(&tracks, t);
            if let Some(j) = found {
                assert(tracks@[j as int] == t);
            }
            if found.is_none() {
                proof {
                    index.lemma_indexes(p, t);
                    lemma_remaining(index.order(t), sel);
                }
                let order = remaining_exec(&self.planning_index.track_items(t), selected);
                if (order.len() as u128) > 0x8000_0000_0000_0000u128 {
                    proof {
                        assert(source_track(p, sel, t));
                    }
                    return Err(refused("Timeline layer overflow"));
                }
                tracks.push(t);
                orders.push(order);
                assert(tracks@[tracks@.len() - 1] == t);
            }
            proof {
                assert(tracks@.contains(t));
                assert forall|u: TimelineTrackId|
                    #[trigger] tracks@.contains(u) <==> exists|k: int| 0 <= k < m + 1 && p.item(#[trigger] sel[k]).track_id == u by {
                    if tracks@.contains(u) && u != t {
                        let j = choose|j: int| 0 <= j < tracks@.len() && tracks@[j] == u;
                        if j < old_tracks.len() {
                            assert(old_tracks[j] == u);
                            assert(old_tracks.contains(u));
                        }
                    }
                    if exists|k: int| 0 <= k < m + 1 && p.item(#[trigger] sel[k]).track_id == u {
                        let k = choose|k: int| 0 <= k < m + 1 && p.item(#[trigger] sel[k]).track_id == u;
                        if k < m {
                            assert(old_tracks.contains(u));
                            let j = choose|j: int| 0 <= j < old_tracks.len() && old_tracks[j] == u;
                            assert(tracks@[j] == u);
                        }
                    }
                }
            }
        }
        proof {
            assert forall|u: TimelineTrackId| source_track(p, sel, u) implies layers_fit(
                #[trigger] remaining(index.order(u), sel).len() as int,
            ) by {
                assert(tracks@.contains(u));
                let j = choose|j: int| 0 <= j < tracks@.len() && tracks@[j] == u;
                assert(orders@[j]@ == remaining(index.order(u), sel));
            }
            assert(group_move_allowed(index, p, sel, primary, track, start));
        }
        let ghost shift_int = layer - p.item(primary).layer;
        let mut items: Vec<TimelineItem> = Vec::new();
        for m in 0..self.project.items.len()
            invariant
                sel == selected@,
                p == self.project@,
                p.unique_ids(),
                p.valid(),
                index == self.planning_index,
                index.indexes(p),
                dest_view == dest@,
                dest_view == destination(index, sel, track, keys@, shift_int),
                dest@.no_duplicates(),
                layers_fit(dest@.len() as int),
                selection_keys(p, sel, keys@),
                offset == spec_sub(start, p.item(primary).interval.start),
                forall|k: int| 0 <= k < sel.len() ==> add_fits(p.item(#[trigger] sel[k]).interval.start, offset),
                forall|x: TimelineItemId|
                    #[trigger] dest@.contains(x) <==> remaining(index.order(track), sel).contains(x) || exists|k: int|
                        0 <= k < keys@.len() && keys@[k].1 == x,
                tracks@.len() == orders@.len(),
                forall|j: int| 0 <= j < orders@.len() ==> (#[trigger] orders@[j])@ == remaining(index.order(tracks@[j]), sel),
                forall|j: int| 0 <= j < orders@.len() ==> layers_fit((#[trigger] orders@[j])@.len() as int),
                forall|j: int| 0 <= j < orders@.len() ==> (#[trigger] orders@[j])@.no_duplicates(),
                forall|t: TimelineTrackId|
                    #[trigger] tracks@.contains(t) <==> exists|k: int| 0 <= k < sel.len() && p.item(#[trigger] sel[k]).track_id == t,
                items@.len() == m,
                forall|j: int|
                    0 <= j < m ==> (#[trigger] items@[j])@ == {
                        let y = moved(p.items[j], sel, track, offset);
                        TimelineItemView { layer: group_layer(index, p, sel, track, dest_view, y), ..y }
                    },
        {
            let x = &self.project.items[m];
            assert(x@ == p.items[m as int]);
            proof {
                p.lemma_item_index(m as int);
                assert(p.item_valid(m as int));
            }
            let mut y = x.clone();
            let chosen = contains_id(selected, x.id);
            if chosen {
                let k = order_position(selected, x.id);
                assert(add_fits(p.item(sel[k.unwrap() as int]).interval.start, offset));
                let moved_start = match x.interval.start.checked_add(offset) {
                    Ok(t) => t,
                    Err(_) => {
                        assert(false);
                        return Err(refused("Timeline time overflow"));
                    },
                };
                y.track_id = track;
                y.interval = TimelineInterval { start: moved_start, duration: x.interval.duration };
            }
            let ghost yv = y@;
            assert(yv == moved(p.items[m as int], sel, track, offset));
            if y.track_id == track {
                proof {
                    if chosen {
                        assert(keys@.contains((p.item(x.id).layer, x.id))) by {
                            let k = choose|k: int| 0 <= k < sel.len() && sel[k] == x.id;
                            assert(keys@.contains((p.item(sel[k]).layer, sel[k])));
                        }
                        let k = choose|k: int| 0 <= k < keys@.len() && keys@[k] == (p.item(x.id).layer, x.id);
                        assert(keys@[k].1 == x.id);
                    } else {
                        index.lemma_indexes(p, track);
                        assert(crate::layers::counted(p.items[m as int], track, None));
                        assert(index.order(track).contains(x.id));
                        lemma_remaining(index.order(track), sel);
                    }
                    assert(dest@.contains(x.id));
                }
                let pos = match order_position(&dest, x.id) {
                    Some(pos) => pos,
                    None => {
                        assert(false);
                        return Err(refused("Timeline layer overflow"));
                    },
                };
                proof {
                    lemma_position(dest@, x.id, pos as int);
                }
                y.layer = pos as i64;
            } else {
                match position_of_track(&tracks, y.track_id) {
                    Some(j) => {
                        proof {
                            assert(tracks@.contains(y.track_id));
                            assert(source_track(p, sel, y.track_id));
                            index.lemma_indexes(p, y.track_id);
                            assert(crate::layers::counted(p.items[m as int], y.track_id, None));
                            assert(index.order(y.track_id).contains(x.id));
                            lemma_remaining(index.order(y.track_id), sel);
                            assert(orders@[j as int]@.contains(x.id));
                        }
                        let pos = match order_position(&orders[j], x.id) {
                            Some(pos) => pos,
                            None => {
                                assert(false);
                                return Err(refused("Timeline layer overflow"));
                            },
                        };
                        proof {
                            lemma_position(orders@[j as int]@, x.id, pos as int);
                        }
                        y.layer = pos as i64;
                    },
                    None => {
                        proof {
                            assert(!source_track(p, sel, y.track_id)) by {
                                if source_track(p, sel, y.track_id) {
                                    let k = choose|k: int| 0 <= k < sel.len() && p.item(#[trigger] sel[k]).track_id == y.track_id;
                                    assert(tracks@.contains(y.track_id));
                                }
                            }
                        }
                    },
                }
            }
            items.push(y);
        }
        let mut candidate = self.project.clone();
        let ghost items_view = items@.map_values(|x: TimelineItem| x@);
        candidate.items = items;
        proof {
            let q = grouped(index, p, sel, primary, track, start, layer, keys@);
            assert(candidate@.items =~= q.items);
            assert(candidate@ =~= q);
        }
        let mut invalidations: Vec<ProjectInvalidation> = Vec::new();
        invalidations.push(ProjectInvalidation::ProjectStructure);
        let r = self.commit_candidate(candidate, invalidations);
        proof {
            if r is Ok {
                assert(crate::service::committed(*old(self), *self, grouped(index, p, sel, primary, track, start, layer, keys@)));
            }
        }
        r
    }
}

} // verus!
