use timeline_authoring::authoring::TimelineSettingsUpdate;
use timeline_authoring::attachment::ModuleAttachmentPlacement;
use timeline_authoring::ids::{ModuleDefinitionId, ModuleOutputId, PublishedMediaInputId, TimelineItemId, TimelineTrackId};
use timeline_authoring::model::{
    AttachmentOwner, AttachmentProcessor, AttachmentStage, Color, InputBindingEntry, InstanceLocator, ItemOutputStage,
    MediaInputBinding, MediaOutputKind, ModuleDefinition, ModuleDefinitionSharing, ModuleInterface, ModuleTemplateOrigin,
    PortDataType, PublishedMediaInput, SourceRef, TimelineTrackKind,
};
use timeline_authoring::module::ModuleItemPlacement;
use timeline_authoring::service::TimelineEditorService;
use timeline_authoring::time::{MediaTime, RationalRate, TimelineInterval};

fn seconds(value: i64) -> MediaTime {
    MediaTime::new(value, 1).expect("whole seconds")
}

fn solid(red: u8) -> SourceRef {
    SourceRef::Solid { color: Color { r: red, g: 0, b: 0, a: 255 } }
}

fn first_track(service: &TimelineEditorService) -> TimelineTrackId {
    let project = service.snapshot().unwrap();
    project.timeline(project.root_timeline_id).unwrap().track_order[0]
}

fn one_input_module(service: &mut TimelineEditorService) -> (ModuleDefinitionId, ModuleOutputId, PublishedMediaInputId) {
    let (mut definition, output_id) = ModuleDefinition::new_image(
        "One input",
        ModuleDefinitionSharing::ReusableTemplate(ModuleTemplateOrigin::Project),
    );
    let input_id = PublishedMediaInputId::new();
    definition.interface = ModuleInterface {
        media_inputs: vec![PublishedMediaInput {
            id: input_id,
            name: "Image".to_string(),
            data_type: PortDataType::Image,
            target: definition.output(output_id).unwrap().target(PortDataType::Image).unwrap(),
            required: false,
            primary: true,
        }],
    };
    let definition_id = definition.id;
    service.add_module_definition(definition).unwrap();
    (definition_id, output_id, input_id)
}

fn reads(item_id: TimelineItemId) -> MediaInputBinding {
    MediaInputBinding::TimelineItemOutput {
        locator: InstanceLocator::SameTimeline,
        item_id,
        output: MediaOutputKind::Image,
        stage: ItemOutputStage::PostTransform,
    }
}

#[test]
fn renaming_and_retexting_placements_are_single_undo_steps() {
    let mut service = TimelineEditorService::create_default("names").unwrap();
    let track_id = first_track(&service);
    let (text_item, _) = service
        .add_item(
            track_id,
            "Title".to_string(),
            SourceRef::Text { text: "Hello".to_string() },
            TimelineInterval::new(seconds(0), seconds(2)).unwrap(),
            0,
        )
        .unwrap();
    let (solid_item, _) = service
        .add_item(track_id, "Solid".to_string(), solid(3), TimelineInterval::new(seconds(0), seconds(2)).unwrap(), 1)
        .unwrap();
    let before = service.snapshot().unwrap();

    service.rename_item(text_item, "Headline".to_string()).unwrap();
    assert_eq!(service.snapshot().unwrap().item(text_item).unwrap().name, "Headline");
    service.set_text(text_item, "Goodbye".to_string()).unwrap();
    assert_eq!(service.snapshot().unwrap().item(text_item).unwrap().source, SourceRef::Text { text: "Goodbye".to_string() });
    assert!(service.set_text(solid_item, "Not text".to_string()).is_err());
    assert!(service.rename_item(TimelineItemId::new(), "Missing".to_string()).is_err());

    service.undo().unwrap().expect("text edit");
    service.undo().unwrap().expect("rename");
    assert_eq!(service.snapshot().unwrap(), before);
}

#[test]
fn timeline_settings_change_only_the_given_fields() {
    let mut service = TimelineEditorService::create_default("settings").unwrap();
    let project = service.snapshot().unwrap();
    let timeline_id = project.root_timeline_id;
    let original = project.timeline(timeline_id).unwrap().clone();
    drop(project);

    let mut update = TimelineSettingsUpdate::default();
    update.name = Some("Renamed".to_string());
    update.width = Some(1280);
    update.fps = Some(RationalRate::new(24, 1).unwrap());
    service.update_timeline_settings(timeline_id, update).unwrap();
    let project = service.snapshot().unwrap();
    let timeline = project.timeline(timeline_id).unwrap();
    assert_eq!(timeline.name, "Renamed");
    assert_eq!(timeline.width, 1280);
    assert_eq!(timeline.height, original.height);
    assert_eq!(timeline.fps, RationalRate::new(24, 1).unwrap());
    assert_eq!(timeline.duration, original.duration);
    assert_eq!(timeline.color_profile, original.color_profile);
}

#[test]
fn tracks_can_be_renamed_hidden_and_reordered() {
    let mut service = TimelineEditorService::create_default("tracks").unwrap();
    let project = service.snapshot().unwrap();
    let timeline_id = project.root_timeline_id;
    let first = project.timeline(timeline_id).unwrap().track_order[0];
    drop(project);
    let (second, _) = service.add_track(timeline_id, "Second".to_string(), TimelineTrackKind::Visual).unwrap();
    let order_before = service.snapshot().unwrap().timeline(timeline_id).unwrap().track_order.clone();
    assert_eq!(order_before.len(), 2);

    service.rename_track(first, "Background".to_string()).unwrap();
    assert_eq!(service.snapshot().unwrap().track(first).unwrap().name, "Background");
    service.set_track_visual_enabled(second, false).unwrap();
    assert!(!service.snapshot().unwrap().track(second).unwrap().visual_enabled);
    service.set_track_visual_enabled(second, true).unwrap();
    assert!(service.snapshot().unwrap().track(second).unwrap().visual_enabled);

    let moved = order_before[1];
    service.reorder_track(timeline_id, moved, 0).unwrap();
    let order_after = service.snapshot().unwrap().timeline(timeline_id).unwrap().track_order.clone();
    assert_eq!(order_after, vec![order_before[1], order_before[0]]);
    assert!(service.reorder_track(timeline_id, moved, 2).is_err());
    assert!(service.rename_track(TimelineTrackId::new(), "Missing".to_string()).is_err());
}

#[test]
fn attachment_stacks_reorder_and_close_up_on_removal() {
    let mut service = TimelineEditorService::create_default("stack").unwrap();
    let track_id = first_track(&service);
    let (item_id, _) = service
        .add_item(track_id, "Owner".to_string(), solid(4), TimelineInterval::new(seconds(0), seconds(3)).unwrap(), 0)
        .unwrap();
    let owner = AttachmentOwner::Item { item_id };
    let mut ids = Vec::new();
    for name in ["blur", "glow", "grain"] {
        let (attachment_id, _) =
            service.add_builtin_attachment(owner, AttachmentStage::PostTransform, name.to_string()).unwrap();
        ids.push(attachment_id);
    }
    let order_of = |service: &TimelineEditorService, id| service.snapshot().unwrap().attachment(id).unwrap().order;
    assert_eq!((order_of(&service, ids[0]), order_of(&service, ids[1]), order_of(&service, ids[2])), (0, 1, 2));

    service.reorder_attachment(ids[2], 0).unwrap();
    assert_eq!((order_of(&service, ids[2]), order_of(&service, ids[0]), order_of(&service, ids[1])), (0, 1, 2));

    service.remove_attachment(ids[0]).unwrap();
    let project = service.snapshot().unwrap();
    assert!(project.attachment(ids[0]).is_none());
    drop(project);
    assert_eq!((order_of(&service, ids[2]), order_of(&service, ids[1])), (0, 1));
    assert!(service.remove_attachment(ids[0]).is_err());
    assert!(service.reorder_attachment(ids[1], 5).is_err());
}

#[test]
fn module_inputs_of_clips_and_attachments_can_be_unbound() {
    let mut service = TimelineEditorService::create_default("inputs").unwrap();
    let track_id = first_track(&service);
    let (source, _) = service
        .add_item(track_id, "Source".to_string(), solid(5), TimelineInterval::new(seconds(0), seconds(3)).unwrap(), 0)
        .unwrap();
    let (definition_id, output_id, input_id) = one_input_module(&mut service);
    let (clip, _, _) = service
        .place_module_item(
            definition_id,
            ModuleItemPlacement {
                track_id,
                name: "Reader".to_string(),
                output_id,
                interval: TimelineInterval::new(seconds(0), seconds(3)).unwrap(),
                layer: 1,
                input_bindings: vec![InputBindingEntry { input_id, binding: reads(source) }],
            },
        )
        .unwrap();
    let (attachment_id, _, _) = service
        .attach_module(ModuleAttachmentPlacement {
            owner: AttachmentOwner::Item { item_id: clip },
            stage: AttachmentStage::PostTransform,
            definition_id,
            output_id,
            input_bindings: vec![InputBindingEntry { input_id, binding: reads(source) }],
        })
        .unwrap();
    assert!(service.delete_item(source).is_err());

    service.unbind_module_input(clip, input_id).unwrap();
    assert!(service.unbind_module_input(clip, input_id).is_err());
    service.unbind_attachment_module_input(attachment_id, input_id).unwrap();
    assert!(service.unbind_attachment_module_input(attachment_id, input_id).is_err());
    let project = service.snapshot().unwrap();
    match &project.attachment(attachment_id).unwrap().processor {
        AttachmentProcessor::Module(invocation) => assert!(invocation.input_bindings.is_empty()),
        _ => panic!("expected a Module Attachment"),
    }
    drop(project);
    service.delete_item(source).unwrap();
}
