use timeline_authoring::attachment::ModuleAttachmentPlacement;
use timeline_authoring::ids::{AttachmentId, CompositionParameterId, ModuleOutputId, PublishedMediaInputId, TimelineItemId, TransitionId};
use timeline_authoring::layers::ordered_track_item_ids;
use timeline_authoring::model::{
    AttachmentOwner, AttachmentProcessor, AttachmentStage, AuthoringProject, BlendMode, Color, CompositionInstance,
    CompositionParameterTarget, DurationPolicy, InputBindingEntry, InstanceLocator, ItemOutputStage, MediaInputBinding,
    MediaOutputKind, ModuleDefinition, ModuleDefinitionSharing, ModuleNode, ModulePortAddress, PortDataType,
    PropertyValue, PublishedMediaInput, SourceRef, TimelineItem, Transition, TransitionAlignment, MERGE_IMAGES_PORT,
};
use timeline_authoring::module::ModuleItemPlacement;
use timeline_authoring::service::TimelineEditorService;
use timeline_authoring::time::{MediaTime, RationalRate, TimeMap, TimelineInterval};

fn seconds(value: i64) -> MediaTime {
    MediaTime::new(value, 1).expect("whole seconds")
}

fn text_source(text: &str) -> SourceRef {
    SourceRef::Text { text: text.to_string() }
}

fn black() -> Color {
    Color { r: 0, g: 0, b: 0, a: 255 }
}

fn white() -> Color {
    Color { r: 255, g: 255, b: 255, a: 255 }
}

fn private_image_effect(name: &str) -> (ModuleDefinition, ModuleOutputId) {
    let (mut definition, output_id) = ModuleDefinition::new_image(name, ModuleDefinitionSharing::Private);
    let target = definition.output(output_id).expect("Output terminal").target(PortDataType::Image).expect("Image input");
    definition.interface.media_inputs.push(PublishedMediaInput {
        id: PublishedMediaInputId::new(),
        name: "Input".to_string(),
        data_type: PortDataType::Image,
        target,
        required: true,
        primary: true,
    });
    (definition, output_id)
}

fn text_fixture() -> (TimelineEditorService, TimelineItemId, AttachmentId) {
    let mut service = TimelineEditorService::create_default("Composition reuse").expect("service");
    let project = service.snapshot().expect("snapshot");
    let track_id = project.timeline(project.root_timeline_id).unwrap().track_order[0];
    drop(project);
    let (item_id, _) = service
        .add_item(
            track_id,
            "Title".to_string(),
            text_source("Shared words"),
            TimelineInterval::new(seconds(3), seconds(5)).expect("interval"),
            0,
        )
        .expect("Text item");
    service.set_item_blend_mode(item_id, BlendMode::Multiply).expect("blend");
    let (attachment_id, _) = service
        .add_builtin_attachment(AttachmentOwner::Item { item_id }, AttachmentStage::PostTransform, "qa-effect".to_string())
        .expect("attachment");
    (service, item_id, attachment_id)
}

fn composition(source: &SourceRef) -> &CompositionInstance {
    match source {
        SourceRef::Composition(instance) => instance,
        _ => panic!("Composition source"),
    }
}

fn override_value(instance: &CompositionInstance, parameter_id: CompositionParameterId) -> Option<&PropertyValue> {
    instance.parameter_overrides.iter().find(|entry| entry.parameter_id == parameter_id).map(|entry| &entry.value)
}

#[test]
fn extraction_is_one_transparent_nested_timeline_and_preserves_outer_placement() {
    let (mut service, item_id, attachment_id) = text_fixture();
    let before = service.snapshot().expect("before");
    let outer_before = before.item(item_id).unwrap().clone();
    let host_timeline = before.timeline(before.root_timeline_id).unwrap().clone();
    let revision = service.revision().expect("revision");

    let (timeline_id, changes) =
        service.extract_item_to_composition(item_id, "Reusable title".to_string()).expect("extract");
    assert_eq!(changes.revision.get(), revision.get() + 1);
    let extracted = service.snapshot().expect("extracted");
    let outer = extracted.item(item_id).unwrap();
    assert_eq!(outer.id, outer_before.id);
    assert_eq!(outer.track_id, outer_before.track_id);
    assert_eq!(outer.interval, outer_before.interval);
    assert_eq!(outer.layer, outer_before.layer);
    assert_eq!(outer.name, outer_before.name);
    assert_eq!(outer.blend_mode, BlendMode::Multiply);
    assert_eq!(outer.time_map, TimeMap::identity());
    let instance = composition(&outer.source);
    assert_eq!(instance.timeline_id, timeline_id);
    assert_eq!(instance.duration_policy, DurationPolicy::Fixed);
    assert!(instance.parameter_overrides.is_empty());

    let nested = extracted.timeline(timeline_id).unwrap();
    assert_eq!((nested.width, nested.height, nested.fps), (host_timeline.width, host_timeline.height, host_timeline.fps));
    assert_eq!(nested.duration, outer_before.interval.duration);
    assert_eq!(nested.background_color.a, 0);
    assert_eq!(nested.name, "Reusable title");
    assert_eq!(nested.published_parameters.len(), 1);
    assert_eq!(nested.published_parameters[0].name, "Text");
    assert_eq!(nested.published_parameters[0].default_value, PropertyValue::String("Shared words".to_string()));
    let inner_item_id = nested.published_parameters[0].target.item_id();
    let inner = extracted.item(inner_item_id).unwrap();
    assert_eq!(inner.interval, TimelineInterval::new(MediaTime::zero(), seconds(5)).expect("inner interval"));
    assert_eq!(inner.time_map, outer_before.time_map);
    assert_eq!(inner.blend_mode, BlendMode::Normal);
    assert_eq!(inner.source, outer_before.source);
    assert_eq!(extracted.attachment(attachment_id).unwrap().owner, AttachmentOwner::Item { item_id: inner_item_id });
    assert_eq!(extracted.composition_reference_count(timeline_id), 1);

    service.undo().expect("undo").expect("history");
    assert_eq!(service.snapshot().expect("undo snapshot"), before);
    service.redo().expect("redo").expect("history");
    assert_eq!(service.snapshot().expect("redo snapshot"), extracted);
}

#[test]
fn unique_copy_remaps_public_text_control_and_isolates_linked_placement() {
    let (mut service, item_id, _) = text_fixture();
    let (shared_timeline_id, _) =
        service.extract_item_to_composition(item_id, "Reusable title".to_string()).expect("extract");
    let shared = service.snapshot().expect("shared");
    let shared_parameter_id = shared.timeline(shared_timeline_id).unwrap().published_parameters[0].id;
    let outer = shared.item(item_id).unwrap();
    let (sibling_id, _) = service
        .add_item(
            outer.track_id,
            outer.name.clone(),
            outer.source.clone(),
            TimelineInterval::new(seconds(10), outer.interval.duration).unwrap(),
            outer.layer + 1,
        )
        .expect("linked placement");
    service
        .set_composition_parameter_override(
            item_id,
            shared_parameter_id,
            PropertyValue::String("Only this placement".to_string()),
        )
        .expect("override");
    let before_unique = service.snapshot().expect("before unique");
    assert_eq!(before_unique.composition_reference_count(shared_timeline_id), 2);

    let revision = service.revision().expect("revision");
    let (unique_timeline_id, changes) = service.make_composition_unique(item_id).expect("make unique");
    assert_eq!(changes.revision.get(), revision.get() + 1);
    let unique = service.snapshot().expect("unique");
    assert_eq!(unique.composition_reference_count(shared_timeline_id), 1);
    assert_eq!(unique.composition_reference_count(unique_timeline_id), 1);
    let unique_instance = composition(&unique.item(item_id).unwrap().source);
    let sibling_instance = composition(&unique.item(sibling_id).unwrap().source);
    assert_eq!(sibling_instance.timeline_id, shared_timeline_id);
    assert_eq!(unique_instance.timeline_id, unique_timeline_id);
    assert_eq!(unique.timeline(unique_timeline_id).unwrap().name, "Reusable title Copy");
    let unique_parameter = &unique.timeline(unique_timeline_id).unwrap().published_parameters[0];
    assert_ne!(unique_parameter.id, shared_parameter_id);
    assert_ne!(unique_parameter.target, unique.timeline(shared_timeline_id).unwrap().published_parameters[0].target);
    assert_eq!(
        override_value(unique_instance, unique_parameter.id),
        Some(&PropertyValue::String("Only this placement".to_string()))
    );
    assert!(sibling_instance.parameter_overrides.is_empty());

    service.undo().expect("undo").expect("history");
    assert_eq!(service.snapshot().expect("undo snapshot"), before_unique);
    service.redo().expect("redo").expect("history");
    assert_eq!(service.snapshot().expect("redo snapshot"), unique);
}

#[test]
fn extraction_and_unique_reject_unsupported_scope_without_history() {
    let (mut service, item_id, _) = text_fixture();
    let initial = service.snapshot().expect("initial");
    let track_id = initial.item(item_id).unwrap().track_id;
    drop(initial);
    let (parent_id, _) = service
        .add_item(
            track_id,
            "Parent".to_string(),
            SourceRef::Solid { color: black() },
            TimelineInterval::new(MediaTime::zero(), seconds(5)).expect("interval"),
            1,
        )
        .expect("parent");
    service.set_item_parent(item_id, Some(parent_id)).expect("valid parent");
    let before = service.snapshot().expect("before");
    let before_revision = service.revision().expect("revision");
    let error = service
        .extract_item_to_composition(item_id, "Unsupported".to_string())
        .expect_err("parented extraction rejected");
    assert!(error.message().contains("parented items"));
    assert_eq!(service.revision().expect("revision"), before_revision);
    assert_eq!(service.snapshot().expect("unchanged"), before);

    let error = service.make_composition_unique(parent_id).expect_err("ordinary item is not a Composition");
    assert!(error.message().contains("is not a Composition"));
    assert_eq!(service.revision().expect("revision"), before_revision);
    assert_eq!(service.snapshot().expect("unchanged"), before);
}

#[test]
fn unique_copy_remaps_transition_binding_and_private_module_owners() {
    let mut service = TimelineEditorService::create_default("Composition topology").expect("service");
    let (timeline_id, track_id, _) = service
        .add_timeline("Reusable scene".to_string(), 1920, 1080, RationalRate::new(30, 1).expect("fps"), seconds(10))
        .expect("nested Timeline");
    let (from_item_id, _) = service
        .add_item(
            track_id,
            "From".to_string(),
            SourceRef::Solid { color: black() },
            TimelineInterval::new(MediaTime::zero(), seconds(7)).expect("from interval"),
            0,
        )
        .expect("from");
    let (to_item_id, _) = service
        .add_item(
            track_id,
            "To".to_string(),
            SourceRef::Solid { color: white() },
            TimelineInterval::new(seconds(3), seconds(7)).expect("to interval"),
            1,
        )
        .expect("to");
    let transition_id = TransitionId::new();
    let mut with_transition = service.snapshot().expect("snapshot");
    with_transition.transitions.push(Transition {
        id: transition_id,
        timeline_id,
        from_item_id,
        to_item_id,
        edit_point: seconds(5),
        duration: seconds(4),
        alignment: TransitionAlignment::CenteredOnEdit,
    });
    let mut service = TimelineEditorService::new(with_transition).expect("transition");

    let (mut node_definition, node_output_id) =
        ModuleDefinition::new_image("Private Node Clip", ModuleDefinitionSharing::Private);
    let input_node = ModuleNode::new_merge("Reference");
    let input_node_id = input_node.id;
    node_definition.nodes.push(input_node);
    let media_input_id = PublishedMediaInputId::new();
    node_definition.interface.media_inputs.push(PublishedMediaInput {
        id: media_input_id,
        name: "Reference".to_string(),
        data_type: PortDataType::Image,
        target: ModulePortAddress { node_id: input_node_id, port: MERGE_IMAGES_PORT.to_string() },
        required: false,
        primary: false,
    });
    let node_definition_id = node_definition.id;
    let (node_item_id, node_instance_id, _) = service
        .create_private_module_item(
            node_definition,
            ModuleItemPlacement {
                track_id,
                name: "Node Clip".to_string(),
                output_id: node_output_id,
                interval: TimelineInterval::new(MediaTime::zero(), seconds(10)).expect("Node interval"),
                layer: 2,
                input_bindings: vec![InputBindingEntry {
                    input_id: media_input_id,
                    binding: MediaInputBinding::TimelineItemOutput {
                        locator: InstanceLocator::SameTimeline,
                        item_id: from_item_id,
                        output: MediaOutputKind::Image,
                        stage: ItemOutputStage::PostTransform,
                    },
                }],
            },
        )
        .expect("Node Clip");

    let (attachment_definition, attachment_output_id) = private_image_effect("Private Effect");
    let attachment_definition_id = attachment_definition.id;
    let (attachment_id, attachment_instance_id, _) = service
        .create_private_module_attachment(
            attachment_definition,
            ModuleAttachmentPlacement {
                owner: AttachmentOwner::Item { item_id: to_item_id },
                stage: AttachmentStage::PostTransform,
                definition_id: attachment_definition_id,
                output_id: attachment_output_id,
                input_bindings: Vec::new(),
            },
        )
        .expect("Module Attachment");

    let root = service.snapshot().expect("root");
    let root_track_id = root.timeline(root.root_timeline_id).unwrap().track_order[0];
    drop(root);
    let (outer_item_id, _) = service
        .add_item(
            root_track_id,
            "Reusable scene".to_string(),
            SourceRef::Composition(CompositionInstance {
                timeline_id,
                duration_policy: DurationPolicy::Fixed,
                parameter_overrides: Vec::new(),
            }),
            TimelineInterval::new(MediaTime::zero(), seconds(10)).expect("outer interval"),
            0,
        )
        .expect("outer Composition");
    let before = service.snapshot().expect("before unique");

    let (unique_timeline_id, _) = service.make_composition_unique(outer_item_id).expect("make unique");
    let unique = service.snapshot().expect("unique");
    assert_eq!(unique.timeline(timeline_id), before.timeline(timeline_id));
    assert_eq!(unique.item(node_item_id), before.item(node_item_id));
    assert_eq!(unique.attachment(attachment_id), before.attachment(attachment_id));
    assert_eq!(unique.module_instance(node_instance_id), before.module_instance(node_instance_id));
    assert_eq!(unique.module_instance(attachment_instance_id), before.module_instance(attachment_instance_id));
    assert_eq!(unique.module_definition(node_definition_id), before.module_definition(node_definition_id));
    assert_eq!(unique.module_definition(attachment_definition_id), before.module_definition(attachment_definition_id));

    let unique_track_ids = &unique.timeline(unique_timeline_id).unwrap().track_order;
    let unique_items =
        unique.items.iter().filter(|item| unique_track_ids.contains(&item.track_id)).collect::<Vec<&TimelineItem>>();
    let copied_from = unique_items.iter().find(|item| item.name == "From").expect("copied From");
    let copied_node = unique_items.iter().find(|item| item.name == "Node Clip").expect("copied Node Clip");
    let SourceRef::Module(copied_invocation) = &copied_node.source else {
        panic!("copied Module")
    };
    assert_ne!(copied_invocation.instance_id, node_instance_id);
    let copied_node_definition_id = unique.module_instance(copied_invocation.instance_id).unwrap().definition_id;
    assert_ne!(copied_node_definition_id, node_definition_id);
    assert!(matches!(
        unique.module_definition(copied_node_definition_id).unwrap().sharing,
        ModuleDefinitionSharing::Private
    ));
    let entry = copied_invocation.input_bindings.iter().find(|entry| entry.input_id == media_input_id).unwrap();
    let MediaInputBinding::TimelineItemOutput { locator, item_id, .. } = &entry.binding;
    assert_eq!(locator, &InstanceLocator::SameTimeline);
    assert_eq!(*item_id, copied_from.id);

    let copied_transition = unique
        .transitions
        .iter()
        .find(|transition| transition.timeline_id == unique_timeline_id)
        .expect("copied transition");
    assert_ne!(copied_transition.id, transition_id);
    assert!(unique_items.iter().any(|item| item.id == copied_transition.from_item_id));
    assert!(unique_items.iter().any(|item| item.id == copied_transition.to_item_id));
    let copied_attachment = unique
        .attachments
        .iter()
        .find(|attachment| {
            matches!(
                attachment.owner,
                AttachmentOwner::Item { item_id } if unique_items.iter().any(|item| item.id == item_id)
            ) && matches!(attachment.processor, AttachmentProcessor::Module(_))
        })
        .expect("copied Module Attachment");
    assert_ne!(copied_attachment.id, attachment_id);
    let AttachmentProcessor::Module(copied_attachment_invocation) = &copied_attachment.processor else {
        panic!("Module Attachment")
    };
    assert_ne!(copied_attachment_invocation.instance_id, attachment_instance_id);
    assert_ne!(
        unique.module_instance(copied_attachment_invocation.instance_id).unwrap().definition_id,
        attachment_definition_id
    );

    service.undo().expect("undo").expect("one transaction");
    assert_eq!(service.snapshot().expect("undo snapshot"), before);
}

fn item_mut(project: &mut AuthoringProject, id: TimelineItemId) -> &mut TimelineItem {
    let index = project.item_position(id).expect("placement exists");
    &mut project.items[index]
}

#[test]
fn unique_copy_preserves_authoritative_order_when_source_layers_and_starts_tie() {
    let mut service = TimelineEditorService::create_default("Composition tied order").expect("service");
    let (timeline_id, track_id, _) = service
        .add_timeline("Tied scene".to_string(), 640, 360, RationalRate::new(30, 1).expect("fps"), seconds(5))
        .expect("Timeline");
    let (first_id, _) = service
        .add_item(
            track_id,
            "First".to_string(),
            text_source("First"),
            TimelineInterval::new(MediaTime::zero(), seconds(5)).expect("interval"),
            0,
        )
        .expect("first");
    let (second_id, _) = service
        .add_item(
            track_id,
            "Second".to_string(),
            text_source("Second"),
            TimelineInterval::new(MediaTime::zero(), seconds(5)).expect("interval"),
            1,
        )
        .expect("second");
    let mut tied = service.snapshot().expect("snapshot");
    item_mut(&mut tied, first_id).layer = 0;
    item_mut(&mut tied, second_id).layer = 0;
    tied.validate().expect("tied layers are valid authoring state");
    let mut service = TimelineEditorService::new(tied).expect("tied service");
    let source = service.snapshot().expect("source");
    let source_order = ordered_track_item_ids(&source, track_id, None)
        .into_iter()
        .map(|item_id| source.item(item_id).unwrap().name.clone())
        .collect::<Vec<_>>();
    drop(source);
    let root = service.snapshot().expect("root");
    let root_track_id = root.timeline(root.root_timeline_id).unwrap().track_order[0];
    drop(root);
    let (outer_item_id, _) = service
        .add_item(
            root_track_id,
            "Tied scene".to_string(),
            SourceRef::Composition(CompositionInstance {
                timeline_id,
                duration_policy: DurationPolicy::Fixed,
                parameter_overrides: Vec::new(),
            }),
            TimelineInterval::new(MediaTime::zero(), seconds(5)).expect("outer interval"),
            0,
        )
        .expect("outer");
    let source_before = service.snapshot().expect("before");

    let (unique_timeline_id, _) = service.make_composition_unique(outer_item_id).expect("make unique");
    let unique = service.snapshot().expect("unique");
    let unique_track_id = unique.timeline(unique_timeline_id).unwrap().track_order[0];
    let unique_order = ordered_track_item_ids(&unique, unique_track_id, None)
        .into_iter()
        .map(|item_id| unique.item(item_id).unwrap().name.clone())
        .collect::<Vec<_>>();
    assert_eq!(unique_order, source_order);
    assert_eq!(
        ordered_track_item_ids(&unique, unique_track_id, None)
            .into_iter()
            .map(|item_id| unique.item(item_id).unwrap().layer)
            .collect::<Vec<_>>(),
        vec![0, 1]
    );
    assert_eq!(unique.item(first_id), source_before.item(first_id));
    assert_eq!(unique.item(second_id), source_before.item(second_id));
}

#[test]
fn published_parameters_reject_duplicates_and_unpublishing_clears_overrides() {
    let (mut service, item_id, _) = text_fixture();
    let (timeline_id, _) = service.extract_item_to_composition(item_id, "  Title card  ".to_string()).expect("extract");
    let project = service.snapshot().expect("extracted");
    assert_eq!(project.timeline(timeline_id).unwrap().name, "Title card");
    let text_parameter = project.timeline(timeline_id).unwrap().published_parameters[0].id;
    let inner_item_id = project.timeline(timeline_id).unwrap().published_parameters[0].target.item_id();
    drop(project);

    let revision = service.revision().expect("revision");
    let duplicate_name = service.publish_composition_parameter(
        timeline_id,
        " text ".to_string(),
        CompositionParameterTarget::ItemProperty { item_id: inner_item_id, property_key: "opacity".to_string() },
        PropertyValue::Boolean(true),
    );
    assert!(duplicate_name.is_err());
    let duplicate_target = service.publish_composition_parameter(
        timeline_id,
        "Words".to_string(),
        CompositionParameterTarget::TextContent { item_id: inner_item_id },
        PropertyValue::String("x".to_string()),
    );
    assert!(duplicate_target.is_err());
    assert_eq!(service.revision().expect("revision"), revision);

    let (visible, _) = service
        .publish_composition_parameter(
            timeline_id,
            " Visible ".to_string(),
            CompositionParameterTarget::ItemProperty { item_id: inner_item_id, property_key: "visible".to_string() },
            PropertyValue::Boolean(true),
        )
        .expect("publish");
    let published = service.snapshot().expect("published");
    let parameter = published.timeline(timeline_id).unwrap().published_parameters.last().unwrap().clone();
    assert_eq!(parameter.id, visible);
    assert_eq!(parameter.name, "Visible");
    assert_eq!(parameter.data_type, PortDataType::Boolean);
    drop(published);

    assert!(service.set_composition_parameter_override(item_id, visible, PropertyValue::String("no".to_string())).is_err());
    service.set_composition_parameter_override(item_id, visible, PropertyValue::Boolean(false)).expect("override");
    service.set_composition_parameter_override(item_id, visible, PropertyValue::Boolean(true)).expect("replace");
    let overridden = service.snapshot().expect("overridden");
    let instance = composition(&overridden.item(item_id).unwrap().source);
    assert_eq!(instance.parameter_overrides.len(), 1);
    assert_eq!(override_value(instance, visible), Some(&PropertyValue::Boolean(true)));
    drop(overridden);

    service.clear_composition_parameter_override(item_id, visible).expect("clear");
    assert!(service.clear_composition_parameter_override(item_id, visible).is_err());
    service.set_composition_parameter_override(item_id, text_parameter, PropertyValue::String("Local".to_string())).expect("text");
    let (cleared, _) = service.unpublish_composition_parameter(timeline_id, text_parameter).expect("unpublish");
    assert_eq!(cleared, 1);
    let unpublished = service.snapshot().expect("unpublished");
    assert!(composition(&unpublished.item(item_id).unwrap().source).parameter_overrides.is_empty());
    assert_eq!(unpublished.timeline(timeline_id).unwrap().published_parameters.len(), 1);
    assert!(service.unpublish_composition_parameter(timeline_id, text_parameter).is_err());
}

#[test]
fn extraction_refuses_an_empty_name_and_a_referenced_item() {
    let (mut service, item_id, _) = text_fixture();
    let revision = service.revision().expect("revision");
    let error = service.extract_item_to_composition(item_id, " \t ".to_string()).expect_err("blank name");
    assert!(error.message().contains("must not be empty"));
    let dependencies = service.item_input_dependencies(item_id).expect("dependencies");
    assert!(dependencies.is_empty());
    assert_eq!(service.revision().expect("revision"), revision);
}

#[test]
fn make_unique_with_too_few_identities_changes_nothing() {
    let (mut service, item_id, _) = text_fixture();
    service.extract_item_to_composition(item_id, "Reusable title".to_string()).expect("extract");
    let before = service.snapshot().expect("before");
    let ids = timeline_authoring::unique::CopyIds {
        timeline_id: timeline_authoring::ids::TimelineId::new(),
        tracks: Vec::new(),
        items: Vec::new(),
        attachments: Vec::new(),
        transitions: Vec::new(),
        parameters: Vec::new(),
        instances: Vec::new(),
        definitions: Vec::new(),
    };
    let error = service.make_composition_unique_with_ids(item_id, &ids).expect_err("too few identities");
    assert_eq!(error.message(), "Make Composition Unique needs one identity for each copied object");
    assert_eq!(service.snapshot().expect("after"), before);
}
