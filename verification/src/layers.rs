//! Layer order of the placements on one Track.
//!
//! The placements of a Track are ordered by layer, ties broken by identity.
//! Layer edits keep this order explicit: they compute the new order as a
//! sequence and then give each placement its position as its layer.

use vstd::prelude::*;

use crate::ids::{TimelineItemId, TimelineTrackId};
use crate::model::{AuthoringProject, ProjectView, TimelineItemView};

verus! {

/// `a` sorts before or with `b`: lower layer first, then lower identity.
pub open spec fn key_le(layer_a: i64, id_a: TimelineItemId, layer_b: i64, id_b: TimelineItemId) -> bool {
    layer_a < layer_b || (layer_a == layer_b && id_a.0 <= id_b.0)
}

/// Placement `item` is on `track` and is not `excluded`.
pub open spec fn counted(item: TimelineItemView, track: TimelineTrackId, excluded: Option<TimelineItemId>) -> bool {
    item.track_id == track && excluded != Some(item.id)
}

/// `order` lists exactly the placements of `track` but `excluded`, each
/// once, sorted by layer and then identity.
pub open spec fn is_track_order_without(
    p: ProjectView,
    track: TimelineTrackId,
    excluded: Option<TimelineItemId>,
    order: Seq<TimelineItemId>,
) -> bool {
    &&& order.no_duplicates()
    &&& forall|k: int|
        0 <= k < order.len() ==> p.has_item(#[trigger] order[k]) && p.item(order[k]).track_id == track && excluded
            != Some(order[k])
    &&& forall|i: int| 0 <= i < p.items.len() && counted(#[trigger] p.items[i], track, excluded) ==> order.contains(p.items[i].id)
    &&& forall|a: int, b: int|
        0 <= a < b < order.len() ==> key_le(
            p.item(#[trigger] order[a]).layer,
            order[a],
            p.item(#[trigger] order[b]).layer,
            order[b],
        )
}

/// `order` lists exactly the placements of `track`, each once, sorted by
/// layer and then identity.
pub open spec fn is_track_order(p: ProjectView, track: TimelineTrackId, order: Seq<TimelineItemId>) -> bool {
    is_track_order_without(p, track, None, order)
}

/// The placements of `track` have the layers `0, 1, ..., n - 1` in `order`.
pub open spec fn layers_canonical(p: ProjectView, order: Seq<TimelineItemId>) -> bool {
    forall|k: int| 0 <= k < order.len() ==> p.item(#[trigger] order[k]).layer == k
}

/// Entries sorted by layer, then identity.
pub open spec fn keys_sorted(keys: Seq<(i64, TimelineItemId)>) -> bool {
    forall|a: int, b: int|
        0 <= a < b < keys.len() ==> key_le(#[trigger] keys[a].0, keys[a].1, #[trigger] keys[b].0, keys[b].1)
}

/// No identity occurs twice among the entries.
pub open spec fn keys_distinct(keys: Seq<(i64, TimelineItemId)>) -> bool {
    forall|a: int, b: int| 0 <= a < keys.len() && 0 <= b < keys.len() && a != b ==> #[trigger] keys[a].1 != #[trigger] keys[b].1
}

/// Inserts `(layer, id)` after every entry that sorts before or with it.
pub(crate) fn insert_sorted(keys: &mut Vec<(i64, TimelineItemId)>, layer: i64, id: TimelineItemId)
    requires
        keys_sorted(old(keys)@),
        keys_distinct(old(keys)@),
        forall|k: int| 0 <= k < old(keys)@.len() ==> (#[trigger] old(keys)@[k]).1 != id,
    ensures
        keys_sorted(final(keys)@),
        keys_distinct(final(keys)@),
        final(keys)@.len() == old(keys)@.len() + 1,
        final(keys)@.contains((layer, id)),
        forall|x: (i64, TimelineItemId)| old(keys)@.contains(x) ==> #[trigger] final(keys)@.contains(x),
        forall|k: int| 0 <= k < final(keys)@.len() ==> old(keys)@.contains(#[trigger] final(keys)@[k]) || final(keys)@[k] == (layer, id),
{
    let ghost old_keys = keys@;
    let mut pos = keys.len();
    while pos > 0 && !key_le_exec(keys[pos - 1].0, keys[pos - 1].1, layer, id)
        invariant
            keys@ == old_keys,
            pos <= keys@.len(),
            forall|k: int| pos <= k < keys@.len() ==> !key_le(#[trigger] keys@[k].0, keys@[k].1, layer, id),
        decreases pos,
    {
        pos = pos - 1;
    }
    keys.insert(pos, (layer, id));
    proof {
        let n = keys@;
        assert(n == old_keys.insert(pos as int, (layer, id)));
        assert forall|k: int| 0 <= k < pos implies key_le(#[trigger] old_keys[k].0, old_keys[k].1, layer, id) by {
            assert(key_le(old_keys[pos - 1].0, old_keys[pos - 1].1, layer, id));
            if k < pos - 1 {
                assert(key_le(old_keys[k].0, old_keys[k].1, old_keys[pos - 1].0, old_keys[pos - 1].1));
            }
        }
        assert forall|a: int, b: int| 0 <= a < b < n.len() implies key_le(#[trigger] n[a].0, n[a].1, #[trigger] n[b].0, n[b].1) by {
            if b < pos {
                assert(n[a] == old_keys[a] && n[b] == old_keys[b]);
            } else if b == pos {
                assert(n[a] == old_keys[a]);
            } else if a < pos {
                assert(n[a] == old_keys[a] && n[b] == old_keys[b - 1]);
                assert(key_le(old_keys[a].0, old_keys[a].1, layer, id));
                assert(!key_le(old_keys[b - 1].0, old_keys[b - 1].1, layer, id));
            } else if a == pos {
                assert(n[b] == old_keys[b - 1]);
                assert(!key_le(old_keys[b - 1].0, old_keys[b - 1].1, layer, id));
            } else {
                assert(n[a] == old_keys[a - 1] && n[b] == old_keys[b - 1]);
                assert(key_le(old_keys[a - 1].0, old_keys[a - 1].1, old_keys[b - 1].0, old_keys[b - 1].1));
            }
        }
        assert forall|a: int, b: int| 0 <= a < n.len() && 0 <= b < n.len() && a != b implies #[trigger] n[a].1 != #[trigger] n[b].1 by {
            let oa = if a < pos { a } else { a - 1 };
            let ob = if b < pos { b } else { b - 1 };
            if a == pos {
                assert(n[b] == old_keys[ob]);
            } else if b == pos {
                assert(n[a] == old_keys[oa]);
            } else {
                assert(n[a] == old_keys[oa] && n[b] == old_keys[ob]);
            }
        }
        assert(n[pos as int] == (layer, id));
        assert forall|x: (i64, TimelineItemId)| old_keys.contains(x) implies #[trigger] n.contains(x) by {
            let k = choose|k: int| 0 <= k < old_keys.len() && old_keys[k] == x;
            if k < pos {
                assert(n[k] == x);
            } else {
                assert(n[k + 1] == x);
            }
        }
        assert forall|k: int| 0 <= k < n.len() implies old_keys.contains(#[trigger] n[k]) || n[k] == (layer, id) by {
            if k < pos {
                assert(n[k] == old_keys[k]);
            } else if k > pos {
                assert(n[k] == old_keys[k - 1]);
            }
        }
    }
}

/// The placements of a Track in layer order, leaving out `excluded`.
pub fn ordered_track_item_ids(
    project: &AuthoringProject,
    track_id: TimelineTrackId,
    excluded: Option<TimelineItemId>,
) -> (r: Vec<TimelineItemId>)
    requires
        project@.unique_item_ids(),
    ensures
        is_track_order_without(project@, track_id, excluded, r@),
{
    let ghost p = project@;
    let mut keys: Vec<(i64, TimelineItemId)> = Vec::new();
    for i in 0..project.items.len()
        invariant
            p == project@,
            p.unique_item_ids(),
            keys_sorted(keys@),
            keys_distinct(keys@),
            forall|k: int|
                0 <= k < keys@.len() ==> {
                    let key = #[trigger] keys@[k];
                    &&& p.has_item(key.1)
                    &&& p.item_index(key.1) < i
                    &&& p.item(key.1).track_id == track_id
                    &&& p.item(key.1).layer == key.0
                    &&& excluded != Some(key.1)
                },
            forall|j: int| 0 <= j < i && counted(#[trigger] p.items[j], track_id, excluded) ==> keys@.contains((p.items[j].layer, p.items[j].id)),
    {
        let item = &project.items[i];
        let skip = match excluded {
            Some(x) => x == item.id,
            None => false,
        };
        if item.track_id == track_id && !skip {
            proof {
                p.lemma_item_index(i as int);
            }
            let ghost old_keys = keys@;
            assert forall|k: int| 0 <= k < keys@.len() implies (#[trigger] keys@[k]).1 != item.id by {
                if keys@[k].1 == item.id {
                    assert(p.item_index(keys@[k].1) < i);
                }
            }
            insert_sorted(&mut keys, item.layer, item.id);
            proof {
                assert forall|k: int| 0 <= k < keys@.len() implies {
                    let key = #[trigger] keys@[k];
                    &&& p.has_item(key.1)
                    &&& p.item_index(key.1) < i + 1
                    &&& p.item(key.1).track_id == track_id
                    &&& p.item(key.1).layer == key.0
                    &&& excluded != Some(key.1)
                } by {
                    if old_keys.contains(keys@[k]) {
                        let o = choose|o: int| 0 <= o < old_keys.len() && old_keys[o] == keys@[k];
                        assert(old_keys[o] == keys@[k]);
                    }
                }
                assert forall|j: int| 0 <= j < i + 1 && counted(#[trigger] p.items[j], track_id, excluded) implies keys@.contains(
                    (p.items[j].layer, p.items[j].id),
                ) by {
                    if j < i {
                        assert(old_keys.contains((p.items[j].layer, p.items[j].id)));
                    }
                }
            }
        }
    }
    let mut ids: Vec<TimelineItemId> = Vec::new();
    for k in 0..keys.len()
        invariant
            ids@.len() == k,
            k <= keys@.len(),
            forall|m: int| 0 <= m < k ==> #[trigger] ids@[m] == keys@[m].1,
    {
        ids.push(keys[k].1);
    }
    proof {
        assert forall|a: int, b: int| 0 <= a < b < ids@.len() implies key_le(
            p.item(#[trigger] ids@[a]).layer,
            ids@[a],
            p.item(#[trigger] ids@[b]).layer,
            ids@[b],
        ) by {
            assert(key_le(keys@[a].0, keys@[a].1, keys@[b].0, keys@[b].1));
            assert(keys@[a] == keys@[a]);
            assert(keys@[b] == keys@[b]);
        }
        assert forall|m: int| 0 <= m < ids@.len() implies p.has_item(#[trigger] ids@[m]) && p.item(ids@[m]).track_id == track_id
            && excluded != Some(ids@[m]) by {
            assert(keys@[m] == keys@[m]);
        }
        assert forall|a: int, b: int| 0 <= a < b < ids@.len() implies ids@[a] != ids@[b] by {
            assert(keys@[a].1 != keys@[b].1);
        }
        assert forall|j: int| 0 <= j < p.items.len() && counted(#[trigger] p.items[j], track_id, excluded) implies ids@.contains(
            p.items[j].id,
        ) by {
            let k = choose|k: int| 0 <= k < keys@.len() && keys@[k] == (p.items[j].layer, p.items[j].id);
            assert(ids@[k] == p.items[j].id);
        }
    }
    ids
}

pub(crate) fn key_le_exec(layer_a: i64, id_a: TimelineItemId, layer_b: i64, id_b: TimelineItemId) -> (r: bool)
    ensures
        r == key_le(layer_a, id_a, layer_b, id_b),
{
    layer_a < layer_b || (layer_a == layer_b && id_a.0 <= id_b.0)
}

/// The layer order of `track_id` after placing `item_id` at position
/// `layer` (clamped) among the Track's other placements.
pub fn track_item_ids_after_placement(
    project: &AuthoringProject,
    track_id: TimelineTrackId,
    item_id: TimelineItemId,
    layer: i64,
) -> (r: Vec<TimelineItemId>)
    requires
        project@.unique_item_ids(),
    ensures
        exists|others: Seq<TimelineItemId>|
            #[trigger] is_track_order_without(project@, track_id, Some(item_id), others) && r@ == others.insert(
                crate::edit_plan::clamp_layer(layer, others.len() as int),
                item_id,
            ),
{
    let mut order = ordered_track_item_ids(project, track_id, Some(item_id));
    let ghost others = order@;
    let len = order.len();
    let d: usize = if layer <= 0 {
        0
    } else if (layer as u64) >= (len as u64) {
        len
    } else {
        layer as usize
    };
    order.insert(d, item_id);
    assert(d == crate::edit_plan::clamp_layer(layer, others.len() as int));
    order
}

} // verus!
