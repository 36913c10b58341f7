use timeline_authoring::ids::{ModuleDefinitionId, ModuleOutputId, PublishedMediaInputId, TimelineItemId, TimelineTrackId};
use timeline_authoring::model::{
    AttachmentOwner, AttachmentStage, Color, InputBindingEntry, InstanceLocator, ItemOutputStage, MediaInputBinding,
    MediaOutputKind, ModuleDefinition, ModuleDefinitionSharing, ModuleInterface, ModuleTemplateOrigin, PortDataType,
    PublishedMediaInput, SourceRef,
};
use timeline_authoring::module::ModuleItemPlacement;
use timeline_authoring::service::{LibraryError, TimelineEditorService};
use timeline_authoring::time::{MediaTime, TimelineInterval};

fn seconds(value: i64) -> MediaTime {
    MediaTime::new(value, 1).expect("whole seconds")
}

fn solid(red: u8) -> SourceRef {
    SourceRef::Solid { color: Color { r: red, g: 0, b: 0, a: 255 } }
}

fn reads(input_id: PublishedMediaInputId, item_id: TimelineItemId) -> InputBindingEntry {
    InputBindingEntry {
        input_id,
        binding: MediaInputBinding::TimelineItemOutput {
            locator: InstanceLocator::SameTimeline,
            item_id,
            output: MediaOutputKind::Image,
            stage: ItemOutputStage::PostTransform,
        },
    }
}

/// A reusable image Module with two media inputs.
fn two_input_module(service: &mut TimelineEditorService) -> (ModuleDefinitionId, ModuleOutputId, PublishedMediaInputId, PublishedMediaInputId) {
    let (mut definition, output_id) = ModuleDefinition::new_image(
        "Two inputs",
        ModuleDefinitionSharing::ReusableTemplate(ModuleTemplateOrigin::Project),
    );
    let target = definition.output(output_id).unwrap().target(PortDataType::Image).unwrap();
    let first = PublishedMediaInputId::new();
    let second = PublishedMediaInputId::new();
    definition.interface = ModuleInterface {
        media_inputs: vec![
            PublishedMediaInput {
                id: first,
                name: "First".to_string(),
                data_type: PortDataType::Image,
                target: target.clone(),
                required: true,
                primary: true,
            },
            PublishedMediaInput {
                id: second,
                name: "Second".to_string(),
                data_type: PortDataType::Image,
                target,
                required: false,
                primary: false,
            },
        ],
    };
    let definition_id = definition.id;
    service.add_module_definition(definition).unwrap();
    (definition_id, output_id, first, second)
}

fn place_reader(
    service: &mut TimelineEditorService,
    definition_id: ModuleDefinitionId,
    output_id: ModuleOutputId,
    track_id: TimelineTrackId,
    name: &str,
    layer: i64,
    input_bindings: Vec<InputBindingEntry>,
) -> TimelineItemId {
    let (item_id, _, _) = service
        .place_module_item(
            definition_id,
            ModuleItemPlacement {
                track_id,
                name: name.to_string(),
                output_id,
                interval: TimelineInterval::new(seconds(0), seconds(4)).unwrap(),
                layer,
                input_bindings,
            },
        )
        .unwrap();
    item_id
}

#[test]
fn cascading_deletion_removes_every_reader_and_what_they_own() {
    let mut service = TimelineEditorService::create_default("cascade").unwrap();
    let project = service.snapshot().unwrap();
    let track_id = project.timeline(project.root_timeline_id).unwrap().track_order[0];
    drop(project);
    let (source, _) = service
        .add_item(track_id, "Source".to_string(), solid(1), TimelineInterval::new(seconds(0), seconds(4)).unwrap(), 0)
        .unwrap();
    let (other, _) = service
        .add_item(track_id, "Other".to_string(), solid(2), TimelineInterval::new(seconds(0), seconds(4)).unwrap(), 1)
        .unwrap();
    let (definition_id, output_id, first, _) = two_input_module(&mut service);
    let reader = place_reader(&mut service, definition_id, output_id, track_id, "Reader", 2, vec![reads(first, source)]);
    let second_reader =
        place_reader(&mut service, definition_id, output_id, track_id, "Reader of reader", 3, vec![reads(first, reader)]);
    service
        .add_builtin_attachment(AttachmentOwner::Item { item_id: source }, AttachmentStage::PostTransform, "blur".to_string())
        .unwrap();
    let (kept_attachment, _) = service
        .add_builtin_attachment(AttachmentOwner::Item { item_id: other }, AttachmentStage::PostTransform, "blur".to_string())
        .unwrap();
    service.set_item_parent(other, Some(second_reader)).unwrap();
    match service.delete_item(source) {
        Err(LibraryError::Validation(message)) => assert_eq!(
            message,
            format!(
                "Timeline item {} is referenced by Node Clip {} input {}; remap inputs or call delete_item_cascade",
                uuid::Uuid::from_u128(source.0),
                uuid::Uuid::from_u128(reader.0),
                uuid::Uuid::from_u128(first.0),
            )
        ),
        other => panic!("expected a refusal, got {other:?}"),
    }
    let before = service.snapshot().unwrap();
    let revision = service.revision().unwrap();

    let changes = service.delete_item_cascade(source).unwrap();
    assert_eq!(changes.revision.get(), revision.get() + 1);
    let after = service.snapshot().unwrap();
    assert!(after.item(source).is_none());
    assert!(after.item(reader).is_none());
    assert!(after.item(second_reader).is_none());
    let remaining = after.item(other).unwrap();
    assert_eq!(remaining.layer, 0);
    assert_eq!(remaining.parent, None);
    assert_eq!(after.items.len(), 1);
    assert_eq!(after.attachments.len(), 1);
    assert_eq!(after.attachments[0].id, kept_attachment);
    assert_eq!(after.attachments[0].order, 0);
    assert!(after.module_instances.is_empty());
    assert!(after.module_definitions.iter().any(|definition| definition.id == definition_id));

    service.undo().unwrap().expect("one cascade transaction");
    assert_eq!(service.snapshot().unwrap(), before);
}

#[test]
fn cascading_deletion_of_an_unread_placement_removes_only_it() {
    let mut service = TimelineEditorService::create_default("cascade alone").unwrap();
    let project = service.snapshot().unwrap();
    let track_id = project.timeline(project.root_timeline_id).unwrap().track_order[0];
    drop(project);
    let (lower, _) = service
        .add_item(track_id, "Lower".to_string(), solid(1), TimelineInterval::new(seconds(0), seconds(4)).unwrap(), 0)
        .unwrap();
    let (upper, _) = service
        .add_item(track_id, "Upper".to_string(), solid(2), TimelineInterval::new(seconds(0), seconds(4)).unwrap(), 1)
        .unwrap();

    service.delete_item_cascade(lower).unwrap();
    let after = service.snapshot().unwrap();
    assert!(after.item(lower).is_none());
    assert_eq!(after.item(upper).unwrap().layer, 0);
    assert!(service.delete_item_cascade(lower).is_err());
}

#[test]
fn cascading_deletion_refuses_readers_that_read_one_another() {
    let mut service = TimelineEditorService::create_default("cascade circle").unwrap();
    let project = service.snapshot().unwrap();
    let track_id = project.timeline(project.root_timeline_id).unwrap().track_order[0];
    drop(project);
    let (source, _) = service
        .add_item(track_id, "Source".to_string(), solid(1), TimelineInterval::new(seconds(0), seconds(4)).unwrap(), 0)
        .unwrap();
    let (definition_id, output_id, first, second) = two_input_module(&mut service);
    let reader = place_reader(&mut service, definition_id, output_id, track_id, "Reader", 1, vec![reads(first, source)]);
    let back = place_reader(&mut service, definition_id, output_id, track_id, "Back", 2, vec![reads(first, reader)]);
    service.bind_module_input(reader, second, reads(second, back).binding).unwrap();
    let before = service.snapshot().unwrap();
    let revision = service.revision().unwrap();

    assert!(service.delete_item_cascade(source).is_err());
    assert_eq!(service.snapshot().unwrap(), before);
    assert_eq!(service.revision().unwrap(), revision);
}

#[test]
fn cascading_deletion_closes_up_stacks_that_lose_a_reading_attachment() {
    let mut service = TimelineEditorService::create_default("cascade stacks").unwrap();
    let project = service.snapshot().unwrap();
    let track_id = project.timeline(project.root_timeline_id).unwrap().track_order[0];
    drop(project);
    let (source, _) = service
        .add_item(track_id, "Source".to_string(), solid(1), TimelineInterval::new(seconds(0), seconds(4)).unwrap(), 0)
        .unwrap();
    let (host, _) = service
        .add_item(track_id, "Host".to_string(), solid(2), TimelineInterval::new(seconds(0), seconds(4)).unwrap(), 1)
        .unwrap();
    let (definition_id, output_id, first, _) = two_input_module(&mut service);
    let owner = AttachmentOwner::Item { item_id: host };
    let (blur, _) = service.add_builtin_attachment(owner, AttachmentStage::PostTransform, "blur".to_string()).unwrap();
    let (reader, _, _) = service
        .attach_module(timeline_authoring::attachment::ModuleAttachmentPlacement {
            owner,
            stage: AttachmentStage::PostTransform,
            definition_id,
            output_id,
            input_bindings: vec![reads(first, source)],
        })
        .unwrap();
    let (grain, _) = service.add_builtin_attachment(owner, AttachmentStage::PostTransform, "grain".to_string()).unwrap();
    assert_eq!(service.snapshot().unwrap().attachment(grain).unwrap().order, 2);

    service.delete_item_cascade(source).unwrap();
    let after = service.snapshot().unwrap();
    assert!(after.attachment(reader).is_none());
    assert_eq!(after.attachment(blur).unwrap().order, 0);
    assert_eq!(after.attachment(grain).unwrap().order, 1);
    assert!(after.module_instances.is_empty());
    assert_eq!(after.item(host).unwrap().layer, 0);
}
