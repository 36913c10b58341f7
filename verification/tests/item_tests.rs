use std::collections::HashMap;

use timeline_authoring::ids::{TimelineItemId, TimelineTrackId};
use timeline_authoring::layers::{ordered_track_item_ids, track_item_ids_after_placement};
use timeline_authoring::model::{
    AttachmentOwner, AttachmentStage, AuthoringProject, BlendMode, Color, SourceRef, TimelineTrackKind,
};
use timeline_authoring::service::TimelineEditorService;
use timeline_authoring::time::{MediaTime, TimelineInterval};

fn seconds(value: i64) -> MediaTime {
    MediaTime::new(value, 1).expect("whole seconds")
}

fn solid(red: u8) -> SourceRef {
    SourceRef::Solid { color: Color { r: red, g: 0, b: 0, a: 255 } }
}

fn track_layers(project: &AuthoringProject, track_id: TimelineTrackId) -> Vec<(i64, TimelineItemId)> {
    let mut layers = project
        .items
        .iter()
        .filter(|item| item.track_id == track_id)
        .map(|item| (item.layer, item.id))
        .collect::<Vec<_>>();
    layers.sort_by_key(|entry| entry.0);
    layers
}

#[test]
fn inserting_and_reordering_items_keeps_one_unambiguous_layer_per_row() {
    let mut service = TimelineEditorService::create_default("layer rows").unwrap();
    let project = service.snapshot().unwrap();
    let track_id = project.timeline(project.root_timeline_id).unwrap().track_order[0];
    drop(project);

    let mut ids = Vec::new();
    for index in 0..3 {
        let (item_id, _) = service
            .add_item(
                track_id,
                format!("Clip {index}"),
                solid(index),
                TimelineInterval::new(seconds(index.into()), seconds(2)).unwrap(),
                0,
            )
            .unwrap();
        ids.push(item_id);
    }

    let before_move = service.snapshot().unwrap();
    assert_eq!(track_layers(&before_move, track_id).iter().map(|entry| entry.0).collect::<Vec<_>>(), vec![0, 1, 2]);
    let untouched_starts =
        ids.iter().map(|id| (*id, before_move.item(*id).unwrap().interval.start)).collect::<HashMap<_, _>>();
    let projected_order = track_item_ids_after_placement(&before_move, track_id, ids[0], 2);

    service.move_item(ids[0], track_id, seconds(9), 2).unwrap();
    let moved = service.snapshot().unwrap();
    assert_eq!(moved.item(ids[0]).unwrap().interval.start, seconds(9));
    assert_eq!(moved.item(ids[0]).unwrap().layer, 2);
    for item_id in &ids[1..] {
        assert_eq!(
            moved.item(*item_id).unwrap().interval.start,
            untouched_starts[item_id],
            "moving one clip must not move a sibling"
        );
    }
    assert_eq!(track_layers(&moved, track_id).iter().map(|entry| entry.0).collect::<Vec<_>>(), vec![0, 1, 2]);
    assert_eq!(
        ordered_track_item_ids(&moved, track_id, None),
        projected_order,
        "the pure placement query must match the committed service order"
    );
}

#[test]
fn a_layer_move_and_its_reindexing_are_one_undo_step() {
    let mut service = TimelineEditorService::create_default("atomic layer move").unwrap();
    let project = service.snapshot().unwrap();
    let track_id = project.timeline(project.root_timeline_id).unwrap().track_order[0];
    drop(project);
    let (first, _) = service
        .add_item(track_id, "First".to_string(), solid(1), TimelineInterval::new(seconds(0), seconds(2)).unwrap(), 0)
        .unwrap();
    service
        .add_item(track_id, "Second".to_string(), solid(2), TimelineInterval::new(seconds(3), seconds(2)).unwrap(), 1)
        .unwrap();
    let before = service.snapshot().unwrap();

    service.move_item(first, track_id, seconds(7), 1).unwrap();
    service.undo().unwrap().expect("one move transaction");

    assert_eq!(service.snapshot().unwrap(), before);
}

#[test]
fn blend_mode_is_owned_by_one_placement_and_is_undoable() {
    let mut service = TimelineEditorService::create_default("placement blend").unwrap();
    let project = service.snapshot().unwrap();
    let track_id = project.timeline(project.root_timeline_id).unwrap().track_order[0];
    drop(project);
    let (first, _) = service
        .add_item(track_id, "First".to_string(), solid(32), TimelineInterval::new(seconds(0), seconds(2)).unwrap(), 0)
        .unwrap();
    let (sibling, _) = service
        .add_item(track_id, "Sibling".to_string(), solid(64), TimelineInterval::new(seconds(0), seconds(2)).unwrap(), 1)
        .unwrap();

    service.set_item_blend_mode(first, BlendMode::Multiply).unwrap();
    let changed = service.snapshot().unwrap();
    assert_eq!(changed.item(first).unwrap().blend_mode, BlendMode::Multiply);
    assert_eq!(changed.item(sibling).unwrap().blend_mode, BlendMode::Normal);

    service.undo().unwrap().expect("blend transaction");
    let undone = service.snapshot().unwrap();
    assert_eq!(undone.item(first).unwrap().blend_mode, BlendMode::Normal);
    assert_eq!(undone.item(sibling).unwrap().blend_mode, BlendMode::Normal);
}

#[test]
fn grouped_move_preserves_offsets_and_order_across_tracks_in_one_undo_step() {
    let mut service = TimelineEditorService::create_default("group move").unwrap();
    let project = service.snapshot().unwrap();
    let timeline_id = project.root_timeline_id;
    let source_track_id = project.timeline(timeline_id).unwrap().track_order[0];
    drop(project);
    let (target_track_id, _) = service.add_track(timeline_id, "Video 2".to_string(), TimelineTrackKind::Visual).unwrap();
    let (first, _) = service
        .add_item(source_track_id, "First".to_string(), solid(1), TimelineInterval::new(seconds(2), seconds(2)).unwrap(), 0)
        .unwrap();
    let (primary, _) = service
        .add_item(source_track_id, "Primary".to_string(), solid(2), TimelineInterval::new(seconds(5), seconds(2)).unwrap(), 1)
        .unwrap();
    let (remaining, _) = service
        .add_item(source_track_id, "Remaining".to_string(), solid(3), TimelineInterval::new(seconds(8), seconds(2)).unwrap(), 2)
        .unwrap();
    let (target_existing, _) = service
        .add_item(
            target_track_id,
            "Target existing".to_string(),
            solid(4),
            TimelineInterval::new(seconds(1), seconds(2)).unwrap(),
            0,
        )
        .unwrap();
    let before_move = service.snapshot().unwrap();
    let before_revision = service.revision().unwrap();

    service.move_items(&vec![first, primary], primary, target_track_id, seconds(20), 1).unwrap();

    assert_eq!(service.revision().unwrap().get(), before_revision.get() + 1);
    let moved = service.snapshot().unwrap();
    assert_eq!(moved.item(first).unwrap().track_id, target_track_id);
    assert_eq!(moved.item(primary).unwrap().track_id, target_track_id);
    assert_eq!(moved.item(first).unwrap().interval.start, seconds(17));
    assert_eq!(moved.item(primary).unwrap().interval.start, seconds(20));
    assert_eq!(moved.item(first).unwrap().layer, 0);
    assert_eq!(moved.item(primary).unwrap().layer, 1);
    assert_eq!(moved.item(target_existing).unwrap().layer, 2);
    assert_eq!(moved.item(remaining).unwrap().track_id, source_track_id);
    assert_eq!(moved.item(remaining).unwrap().layer, 0);

    service.undo().unwrap().expect("one grouped move transaction");
    assert_eq!(service.snapshot().unwrap(), before_move);
}

#[test]
fn grouped_horizontal_move_does_not_collapse_noncontiguous_layers() {
    let mut service = TimelineEditorService::create_default("horizontal group move").unwrap();
    let project = service.snapshot().unwrap();
    let track_id = project.timeline(project.root_timeline_id).unwrap().track_order[0];
    drop(project);
    let mut item_ids = Vec::new();
    for index in 0..3u8 {
        let (item_id, _) = service
            .add_item(
                track_id,
                format!("Clip {index}"),
                solid(index),
                TimelineInterval::new(seconds(index.into()), seconds(2)).unwrap(),
                index.into(),
            )
            .unwrap();
        item_ids.push(item_id);
    }

    service.move_items(&vec![item_ids[0], item_ids[2]], item_ids[2], track_id, seconds(7), 2).unwrap();

    let moved = service.snapshot().unwrap();
    assert_eq!(moved.item(item_ids[0]).unwrap().layer, 0);
    assert_eq!(moved.item(item_ids[1]).unwrap().layer, 1);
    assert_eq!(moved.item(item_ids[2]).unwrap().layer, 2);
    assert_eq!(moved.item(item_ids[0]).unwrap().interval.start, seconds(5));
    assert_eq!(moved.item(item_ids[1]).unwrap().interval.start, seconds(1));
    assert_eq!(moved.item(item_ids[2]).unwrap().interval.start, seconds(7));
}

#[test]
fn a_group_move_refuses_bad_selections_and_negative_starts_without_history() {
    let mut service = TimelineEditorService::create_default("group move refusals").unwrap();
    let project = service.snapshot().unwrap();
    let track_id = project.timeline(project.root_timeline_id).unwrap().track_order[0];
    drop(project);
    let (early, _) = service
        .add_item(track_id, "Early".to_string(), solid(1), TimelineInterval::new(seconds(1), seconds(2)).unwrap(), 0)
        .unwrap();
    let (late, _) = service
        .add_item(track_id, "Late".to_string(), solid(2), TimelineInterval::new(seconds(6), seconds(2)).unwrap(), 1)
        .unwrap();
    let before = service.snapshot().unwrap();
    let revision = service.revision().unwrap();
    assert!(service.move_items(&vec![early], late, track_id, seconds(3), 0).is_err());
    assert!(service.move_items(&vec![early, early], early, track_id, seconds(3), 0).is_err());
    assert!(service.move_items(&vec![early, late], late, track_id, seconds(2), 0).is_err());
    assert_eq!(service.revision().unwrap(), revision);
    assert_eq!(service.snapshot().unwrap(), before);
}

#[test]
fn duplicating_copies_the_placement_and_shares_its_private_module() {
    let mut service = TimelineEditorService::create_default("duplicate").unwrap();
    let project = service.snapshot().unwrap();
    let track_id = project.timeline(project.root_timeline_id).unwrap().track_order[0];
    drop(project);
    let (original, _) = service
        .add_item(track_id, "Original".to_string(), solid(9), TimelineInterval::new(seconds(1), seconds(3)).unwrap(), 0)
        .unwrap();
    let (attachment_id, _) = service
        .add_builtin_attachment(AttachmentOwner::Item { item_id: original }, AttachmentStage::PostTransform, "blur".to_string())
        .unwrap();
    let before = service.snapshot().unwrap();

    let (copy, _) = service.duplicate_item(original, seconds(10), 0).unwrap();
    let duplicated = service.snapshot().unwrap();
    let copied = duplicated.item(copy).unwrap();
    assert_eq!(copied.interval, TimelineInterval::new(seconds(10), seconds(3)).unwrap());
    assert_eq!(copied.name, "Original");
    assert_eq!(copied.layer, 0);
    assert_eq!(duplicated.item(original).unwrap().layer, 1);
    let copied_attachments = duplicated
        .attachments
        .iter()
        .filter(|attachment| attachment.owner == AttachmentOwner::Item { item_id: copy })
        .collect::<Vec<_>>();
    assert_eq!(copied_attachments.len(), 1);
    assert_ne!(copied_attachments[0].id, attachment_id);

    service.undo().unwrap().expect("one duplicate transaction");
    assert_eq!(service.snapshot().unwrap(), before);
    assert!(service.duplicate_item(original, MediaTime::new(-1, 1).unwrap(), 0).is_err());
}

#[test]
fn splitting_keeps_local_time_and_places_the_right_part_below() {
    let mut service = TimelineEditorService::create_default("split").unwrap();
    let project = service.snapshot().unwrap();
    let track_id = project.timeline(project.root_timeline_id).unwrap().track_order[0];
    drop(project);
    let (item, _) = service
        .add_item(track_id, "Whole".to_string(), solid(5), TimelineInterval::new(seconds(2), seconds(6)).unwrap(), 0)
        .unwrap();
    let (above, _) = service
        .add_item(track_id, "Above".to_string(), solid(6), TimelineInterval::new(seconds(0), seconds(1)).unwrap(), 1)
        .unwrap();

    let (right, _) = service.split_item(item, seconds(5)).unwrap();
    let split = service.snapshot().unwrap();
    assert_eq!(split.item(item).unwrap().interval, TimelineInterval::new(seconds(2), seconds(3)).unwrap());
    let right_part = split.item(right).unwrap();
    assert_eq!(right_part.interval, TimelineInterval::new(seconds(5), seconds(3)).unwrap());
    assert_eq!(right_part.time_map.source_start, seconds(3));
    assert_eq!(split.item(item).unwrap().layer, 0);
    assert_eq!(right_part.layer, 1);
    assert_eq!(split.item(above).unwrap().layer, 2);

    assert!(service.split_item(item, seconds(2)).is_err());
    assert!(service.split_item(item, seconds(5)).is_err());
    service.undo().unwrap().expect("one split transaction");
    assert_eq!(service.snapshot().unwrap().item(item).unwrap().interval.duration, seconds(6));
}

#[test]
fn deleting_a_placement_orphans_children_and_closes_its_track() {
    let mut service = TimelineEditorService::create_default("delete").unwrap();
    let project = service.snapshot().unwrap();
    let track_id = project.timeline(project.root_timeline_id).unwrap().track_order[0];
    drop(project);
    let (parent, _) = service
        .add_item(track_id, "Parent".to_string(), solid(1), TimelineInterval::new(seconds(0), seconds(4)).unwrap(), 0)
        .unwrap();
    let (child, _) = service
        .add_item(track_id, "Child".to_string(), solid(2), TimelineInterval::new(seconds(0), seconds(4)).unwrap(), 1)
        .unwrap();
    service.set_item_parent(child, Some(parent)).unwrap();
    service
        .add_builtin_attachment(AttachmentOwner::Item { item_id: parent }, AttachmentStage::PostTransform, "blur".to_string())
        .unwrap();
    let before = service.snapshot().unwrap();

    service.delete_item(parent).unwrap();
    let deleted = service.snapshot().unwrap();
    assert!(deleted.item(parent).is_none());
    assert_eq!(deleted.item(child).unwrap().parent, None);
    assert_eq!(deleted.item(child).unwrap().layer, 0);
    assert!(deleted.attachments.iter().all(|attachment| attachment.owner != AttachmentOwner::Item { item_id: parent }));
    assert!(service.delete_item(parent).is_err());

    service.undo().unwrap().expect("one delete transaction");
    assert_eq!(service.snapshot().unwrap(), before);
}
