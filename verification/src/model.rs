//! The authored Project: Timelines, Tracks, placements, Transitions, Module
//! definitions and instances, and Attachments.
//!
//! Every collection is an ordered list of records with unique identities.
//! Each record that owns a list has a mathematical view in which its lists
//! are sequences; `AuthoringProject@` is the view the contracts speak of.

use vstd::prelude::*;

use crate::ids::{
    AttachmentId, CompositionParameterId, ModuleConnectionId, ModuleDefinitionId, ModuleInstanceId, ModuleNodeId,
    ModuleOutputId, PublishedMediaInputId, TimelineId, TimelineItemId, TimelineTrackId,
    TransitionId,
};
use crate::time::{MediaTime, RationalRate, TimeMap, TimelineInterval};

verus! {

// ---------------------------------------------------------------------------
// Plain records
// ---------------------------------------------------------------------------

#[derive(Clone, Copy, PartialEq, Eq, Structural, Debug, Hash)]
pub struct Color {
    pub r: u8,
    pub g: u8,
    pub b: u8,
    pub a: u8,
}

/// How a placement or a connection composites over what lies beneath it.
#[derive(Clone, Copy, PartialEq, Eq, Structural, Debug, Hash)]
pub enum BlendMode {
    Normal,
    Multiply,
    Screen,
    Overlay,
    Add,
}

#[derive(Clone, Copy, PartialEq, Eq, Structural, Debug, Hash)]
pub enum TimelineTrackKind {
    Visual,
    Audio,
    AudioVisual,
}

/// One Track of a Timeline. Its position is given by the owning Timeline's
/// `track_order`.
#[derive(Debug, PartialEq, Eq)]
pub struct TimelineTrack {
    pub id: TimelineTrackId,
    pub timeline_id: TimelineId,
    pub name: String,
    pub kind: TimelineTrackKind,
    pub visual_enabled: bool,
}

impl Clone for TimelineTrack {
    fn clone(&self) -> (r: Self)
        ensures
            r == *self,
    {
        TimelineTrack {
            id: self.id,
            timeline_id: self.timeline_id,
            name: self.name.clone(),
            kind: self.kind,
            visual_enabled: self.visual_enabled,
        }
    }
}

#[derive(Clone, Copy, PartialEq, Eq, Structural, Debug, Hash)]
pub enum MediaOutputKind {
    Image,
    Audio,
}

#[derive(Clone, Copy, PartialEq, Eq, Structural, Debug, Hash)]
pub enum ItemOutputStage {
    PreTransform,
    PostTransform,
}

/// Where the placement named by a media binding is looked up.
#[derive(Clone, Copy, PartialEq, Eq, Structural, Debug, Hash)]
pub enum InstanceLocator {
    /// On the Timeline of the placement or Attachment that owns the binding.
    SameTimeline,
}

/// A published Module media input fed by the output of a placement.
#[derive(Clone, Copy, PartialEq, Eq, Structural, Debug, Hash)]
pub enum MediaInputBinding {
    TimelineItemOutput {
        locator: InstanceLocator,
        item_id: TimelineItemId,
        output: MediaOutputKind,
        stage: ItemOutputStage,
    },
}

#[derive(Clone, Copy, PartialEq, Eq, Structural, Debug, Hash)]
pub struct InputBindingEntry {
    pub input_id: PublishedMediaInputId,
    pub binding: MediaInputBinding,
}

/// The source item that a binding reads.
pub open spec fn binding_item(binding: MediaInputBinding) -> TimelineItemId {
    match binding {
        MediaInputBinding::TimelineItemOutput { item_id, .. } => item_id,
    }
}

// ---------------------------------------------------------------------------
// Module invocations
// ---------------------------------------------------------------------------

/// One use of a Module instance: its selected output and its input bindings.
#[derive(Debug, PartialEq, Eq)]
pub struct ModuleInvocation {
    pub instance_id: ModuleInstanceId,
    pub output_id: ModuleOutputId,
    pub input_bindings: Vec<InputBindingEntry>,
}

pub ghost struct ModuleInvocationView {
    pub instance_id: ModuleInstanceId,
    pub output_id: ModuleOutputId,
    pub input_bindings: Seq<InputBindingEntry>,
}

impl View for ModuleInvocation {
    type V = ModuleInvocationView;

    open spec fn view(&self) -> ModuleInvocationView {
        ModuleInvocationView {
            instance_id: self.instance_id,
            output_id: self.output_id,
            input_bindings: self.input_bindings@,
        }
    }
}

fn copy_bindings(bindings: &Vec<InputBindingEntry>) -> (r: Vec<InputBindingEntry>)
    ensures
        r@ == bindings@,
{
    let mut r: Vec<InputBindingEntry> = Vec::new();
    for i in 0..bindings.len()
        invariant
            r@ == bindings@.subrange(0, i as int),
    {
        r.push(bindings[i]);
        assert(r@ =~= bindings@.subrange(0, i + 1));
    }
    assert(r@ =~= bindings@);
    r
}

impl Clone for ModuleInvocation {
    fn clone(&self) -> (r: Self)
        ensures
            r@ == self@,
    {
        ModuleInvocation {
            instance_id: self.instance_id,
            output_id: self.output_id,
            input_bindings: copy_bindings(&self.input_bindings),
        }
    }
}

// ---------------------------------------------------------------------------
// Placements
// ---------------------------------------------------------------------------

/// How long a Composition placement plays its Timeline.
#[derive(Clone, Copy, PartialEq, Eq, Structural, Debug, Hash)]
pub enum DurationPolicy {
    /// The placement's own interval, whatever the Timeline's duration.
    Fixed,
}

/// A placement-local value of a published Composition parameter.
#[derive(Debug, PartialEq, Eq)]
pub struct ParameterOverride {
    pub parameter_id: CompositionParameterId,
    pub value: PropertyValue,
}

impl Clone for ParameterOverride {
    fn clone(&self) -> (r: Self)
        ensures
            r == *self,
    {
        ParameterOverride { parameter_id: self.parameter_id, value: self.value.clone() }
    }
}

fn copy_overrides(overrides: &Vec<ParameterOverride>) -> (r: Vec<ParameterOverride>)
    ensures
        r@ == overrides@,
{
    let mut r: Vec<ParameterOverride> = Vec::new();
    for i in 0..overrides.len()
        invariant
            r@ == overrides@.subrange(0, i as int),
    {
        r.push(overrides[i].clone());
        assert(r@ =~= overrides@.subrange(0, i + 1));
    }
    assert(r@ =~= overrides@);
    r
}

/// A placement of another Timeline, with its own values for the
/// parameters that Timeline publishes.
#[derive(Debug, PartialEq, Eq)]
pub struct CompositionInstance {
    pub timeline_id: TimelineId,
    pub duration_policy: DurationPolicy,
    pub parameter_overrides: Vec<ParameterOverride>,
}

pub ghost struct CompositionInstanceView {
    pub timeline_id: TimelineId,
    pub duration_policy: DurationPolicy,
    pub parameter_overrides: Seq<ParameterOverride>,
}

impl View for CompositionInstance {
    type V = CompositionInstanceView;

    open spec fn view(&self) -> CompositionInstanceView {
        CompositionInstanceView {
            timeline_id: self.timeline_id,
            duration_policy: self.duration_policy,
            parameter_overrides: self.parameter_overrides@,
        }
    }
}

impl Clone for CompositionInstance {
    fn clone(&self) -> (r: Self)
        ensures
            r@ == self@,
    {
        CompositionInstance {
            timeline_id: self.timeline_id,
            duration_policy: self.duration_policy,
            parameter_overrides: copy_overrides(&self.parameter_overrides),
        }
    }
}

/// What a published Composition parameter controls inside its Timeline.
#[derive(Debug, PartialEq, Eq)]
pub enum CompositionParameterTarget {
    /// The text of a Text placement.
    TextContent { item_id: TimelineItemId },
    /// A named authored property of a placement.
    ItemProperty { item_id: TimelineItemId, property_key: String },
}

/// The placement a parameter target controls.
pub open spec fn target_item(target: CompositionParameterTarget) -> TimelineItemId {
    match target {
        CompositionParameterTarget::TextContent { item_id } => item_id,
        CompositionParameterTarget::ItemProperty { item_id, .. } => item_id,
    }
}

impl CompositionParameterTarget {
    pub fn item_id(&self) -> (r: TimelineItemId)
        ensures
            r == target_item(*self),
    {
        match self {
            CompositionParameterTarget::TextContent { item_id } => *item_id,
            CompositionParameterTarget::ItemProperty { item_id, .. } => *item_id,
        }
    }
}

impl Clone for CompositionParameterTarget {
    fn clone(&self) -> (r: Self)
        ensures
            r == *self,
    {
        match self {
            CompositionParameterTarget::TextContent { item_id } => CompositionParameterTarget::TextContent {
                item_id: *item_id,
            },
            CompositionParameterTarget::ItemProperty { item_id, property_key } =>
                CompositionParameterTarget::ItemProperty { item_id: *item_id, property_key: property_key.clone() },
        }
    }
}

/// A control inside a Timeline that the Timeline publishes to the
/// placements that nest it.
#[derive(Debug, PartialEq, Eq)]
pub struct CompositionParameter {
    pub id: CompositionParameterId,
    pub name: String,
    pub data_type: PortDataType,
    pub default_value: PropertyValue,
    pub target: CompositionParameterTarget,
}

impl Clone for CompositionParameter {
    fn clone(&self) -> (r: Self)
        ensures
            r == *self,
    {
        CompositionParameter {
            id: self.id,
            name: self.name.clone(),
            data_type: self.data_type,
            default_value: self.default_value.clone(),
            target: self.target.clone(),
        }
    }
}

pub fn copy_parameters(parameters: &Vec<CompositionParameter>) -> (r: Vec<CompositionParameter>)
    ensures
        r@ == parameters@,
{
    let mut r: Vec<CompositionParameter> = Vec::new();
    for i in 0..parameters.len()
        invariant
            r@ == parameters@.subrange(0, i as int),
    {
        r.push(parameters[i].clone());
        assert(r@ =~= parameters@.subrange(0, i + 1));
    }
    assert(r@ =~= parameters@);
    r
}

/// What a placement renders.
#[derive(Debug, PartialEq, Eq)]
pub enum SourceRef {
    Solid { color: Color },
    Text { text: String },
    /// A Node Clip: the placement of a Module invocation.
    Module(ModuleInvocation),
    /// A nested Timeline.
    Composition(CompositionInstance),
}

pub ghost enum SourceRefView {
    Solid { color: Color },
    Text { text: String },
    Module(ModuleInvocationView),
    Composition(CompositionInstanceView),
}

impl View for SourceRef {
    type V = SourceRefView;

    open spec fn view(&self) -> SourceRefView {
        match self {
            SourceRef::Solid { color } => SourceRefView::Solid { color: *color },
            SourceRef::Text { text } => SourceRefView::Text { text: *text },
            SourceRef::Module(invocation) => SourceRefView::Module(invocation@),
            SourceRef::Composition(instance) => SourceRefView::Composition(instance@),
        }
    }
}

impl Clone for SourceRef {
    fn clone(&self) -> (r: Self)
        ensures
            r@ == self@,
    {
        match self {
            SourceRef::Solid { color } => SourceRef::Solid { color: *color },
            SourceRef::Text { text } => SourceRef::Text { text: text.clone() },
            SourceRef::Module(invocation) => SourceRef::Module(invocation.clone()),
            SourceRef::Composition(instance) => SourceRef::Composition(instance.clone()),
        }
    }
}

/// A placement of a source on a Track.
#[derive(Debug, PartialEq, Eq)]
pub struct TimelineItem {
    pub id: TimelineItemId,
    pub track_id: TimelineTrackId,
    pub name: String,
    pub source: SourceRef,
    pub interval: TimelineInterval,
    pub time_map: TimeMap,
    pub layer: i64,
    pub parent: Option<TimelineItemId>,
    pub blend_mode: BlendMode,
}

pub ghost struct TimelineItemView {
    pub id: TimelineItemId,
    pub track_id: TimelineTrackId,
    pub name: String,
    pub source: SourceRefView,
    pub interval: TimelineInterval,
    pub time_map: TimeMap,
    pub layer: i64,
    pub parent: Option<TimelineItemId>,
    pub blend_mode: BlendMode,
}

impl View for TimelineItem {
    type V = TimelineItemView;

    open spec fn view(&self) -> TimelineItemView {
        TimelineItemView {
            id: self.id,
            track_id: self.track_id,
            name: self.name,
            source: self.source@,
            interval: self.interval,
            time_map: self.time_map,
            layer: self.layer,
            parent: self.parent,
            blend_mode: self.blend_mode,
        }
    }
}

impl Clone for TimelineItem {
    fn clone(&self) -> (r: Self)
        ensures
            r@ == self@,
    {
        TimelineItem {
            id: self.id,
            track_id: self.track_id,
            name: self.name.clone(),
            source: self.source.clone(),
            interval: self.interval,
            time_map: self.time_map,
            layer: self.layer,
            parent: self.parent,
            blend_mode: self.blend_mode,
        }
    }
}

// ---------------------------------------------------------------------------
// Timelines
// ---------------------------------------------------------------------------

#[derive(Debug, PartialEq, Eq)]
pub struct Timeline {
    pub id: TimelineId,
    pub name: String,
    pub width: u64,
    pub height: u64,
    pub fps: RationalRate,
    pub duration: MediaTime,
    pub background_color: Color,
    pub color_profile: String,
    /// The Timeline's Tracks, top to bottom.
    pub track_order: Vec<TimelineTrackId>,
    /// The controls the Timeline publishes to its Composition placements.
    pub published_parameters: Vec<CompositionParameter>,
}

pub ghost struct TimelineView {
    pub id: TimelineId,
    pub name: String,
    pub width: u64,
    pub height: u64,
    pub fps: RationalRate,
    pub duration: MediaTime,
    pub background_color: Color,
    pub color_profile: String,
    pub track_order: Seq<TimelineTrackId>,
    pub published_parameters: Seq<CompositionParameter>,
}

impl View for Timeline {
    type V = TimelineView;

    open spec fn view(&self) -> TimelineView {
        TimelineView {
            id: self.id,
            name: self.name,
            width: self.width,
            height: self.height,
            fps: self.fps,
            duration: self.duration,
            background_color: self.background_color,
            color_profile: self.color_profile,
            track_order: self.track_order@,
            published_parameters: self.published_parameters@,
        }
    }
}

fn copy_track_ids(ids: &Vec<TimelineTrackId>) -> (r: Vec<TimelineTrackId>)
    ensures
        r@ == ids@,
{
    let mut r: Vec<TimelineTrackId> = Vec::new();
    for i in 0..ids.len()
        invariant
            r@ == ids@.subrange(0, i as int),
    {
        r.push(ids[i]);
        assert(r@ =~= ids@.subrange(0, i + 1));
    }
    assert(r@ =~= ids@);
    r
}

impl Clone for Timeline {
    fn clone(&self) -> (r: Self)
        ensures
            r@ == self@,
    {
        Timeline {
            id: self.id,
            name: self.name.clone(),
            width: self.width,
            height: self.height,
            fps: self.fps,
            duration: self.duration,
            background_color: self.background_color,
            color_profile: self.color_profile.clone(),
            track_order: copy_track_ids(&self.track_order),
            published_parameters: copy_parameters(&self.published_parameters),
        }
    }
}

// ---------------------------------------------------------------------------
// Transitions
// ---------------------------------------------------------------------------

/// Where a Transition's interval lies relative to its edit point.
#[derive(Clone, Copy, PartialEq, Eq, Structural, Debug, Hash)]
pub enum TransitionAlignment {
    CenteredOnEdit,
    EndsAtEdit,
    StartsAtEdit,
}

/// A Transition from one placement to the next on a Timeline.
#[derive(Clone, Copy, PartialEq, Eq, Structural, Debug, Hash)]
pub struct Transition {
    pub id: TransitionId,
    pub timeline_id: TimelineId,
    pub from_item_id: TimelineItemId,
    pub to_item_id: TimelineItemId,
    pub edit_point: MediaTime,
    pub duration: MediaTime,
    pub alignment: TransitionAlignment,
}

// ---------------------------------------------------------------------------
// Module definitions and instances
// ---------------------------------------------------------------------------

#[derive(Clone, Copy, PartialEq, Eq, Structural, Debug, Hash)]
pub enum ModuleTemplateOrigin {
    Project,
    Library,
}

/// Who may use a definition: one private owner, several local copies, or
/// any number of instances of a reusable template.
#[derive(Clone, Copy, PartialEq, Eq, Structural, Debug, Hash)]
pub enum ModuleDefinitionSharing {
    Private,
    SharedLocal,
    ReusableTemplate(ModuleTemplateOrigin),
}

/// The processing a Module Node performs.
#[derive(Clone, Copy, PartialEq, Eq, Structural, Debug, Hash)]
pub enum ModuleNodeKind {
    /// Number arithmetic; inputs `a` and `b`, output `result`.
    Add,
    /// Variadic image merge; input `images`, output `image`.
    Merge,
    /// Image transform; input `image`, output `image`.
    ImageTransform,
    /// A shader generator; output `image`.
    Shader,
    /// The required render terminal; input `image`.
    Output,
    /// An Appearance Style operation, output `image`; it reads a Shape on
    /// `shape` when `shape_input` holds, else the Image before it on
    /// `image`.
    Style { shape_input: bool },
}

#[derive(Debug, PartialEq, Eq)]
pub struct ModuleNode {
    pub id: ModuleNodeId,
    pub name: String,
    pub kind: ModuleNodeKind,
    pub enabled: bool,
    pub bypassed: bool,
}

impl Clone for ModuleNode {
    fn clone(&self) -> (r: Self)
        ensures
            r == *self,
    {
        ModuleNode {
            id: self.id,
            name: self.name.clone(),
            kind: self.kind,
            enabled: self.enabled,
            bypassed: self.bypassed,
        }
    }
}

pub const NUMBER_RESULT_OUTPUT_PORT: &'static str = "result";

pub const NUMERIC_A_INPUT_PORT: &'static str = "a";

pub const NUMERIC_B_INPUT_PORT: &'static str = "b";

pub const IMAGE_OUTPUT_PORT: &'static str = "image";

pub const IMAGE_INPUT_PORT: &'static str = "image";

pub const MERGE_IMAGES_PORT: &'static str = "images";

impl ModuleNode {
    fn with_kind(name: &str, kind: ModuleNodeKind) -> (r: Self)
        ensures
            r.name@ == name@,
            r.kind == kind,
            r.enabled && !r.bypassed,
    {
        ModuleNode { id: ModuleNodeId::new(), name: name.to_owned(), kind, enabled: true, bypassed: false }
    }

    pub fn new_add(name: &str) -> (r: Self)
        ensures
            r.name@ == name@,
            r.kind == ModuleNodeKind::Add,
            r.enabled && !r.bypassed,
    {
        Self::with_kind(name, ModuleNodeKind::Add)
    }

    pub fn new_merge(name: &str) -> (r: Self)
        ensures
            r.name@ == name@,
            r.kind == ModuleNodeKind::Merge,
            r.enabled && !r.bypassed,
    {
        Self::with_kind(name, ModuleNodeKind::Merge)
    }

    pub fn new_image_transform(name: &str) -> (r: Self)
        ensures
            r.name@ == name@,
            r.kind == ModuleNodeKind::ImageTransform,
            r.enabled && !r.bypassed,
    {
        Self::with_kind(name, ModuleNodeKind::ImageTransform)
    }

    pub fn new_shader(name: &str) -> (r: Self)
        ensures
            r.name@ == name@,
            r.kind == ModuleNodeKind::Shader,
            r.enabled && !r.bypassed,
    {
        Self::with_kind(name, ModuleNodeKind::Shader)
    }

    pub fn new_output(name: &str) -> (r: Self)
        ensures
            r.name@ == name@,
            r.kind == ModuleNodeKind::Output,
            r.enabled && !r.bypassed,
    {
        Self::with_kind(name, ModuleNodeKind::Output)
    }
}

/// One port of one Node.
#[derive(Debug, PartialEq, Eq)]
pub struct ModulePortAddress {
    pub node_id: ModuleNodeId,
    pub port: String,
}

impl Clone for ModulePortAddress {
    fn clone(&self) -> (r: Self)
        ensures
            r == *self,
    {
        ModulePortAddress { node_id: self.node_id, port: self.port.clone() }
    }
}

/// A directed edge from an output port to an input port. `order` ranks the
/// edges that feed one variadic input.
#[derive(Debug, PartialEq, Eq)]
pub struct ModuleConnection {
    pub id: ModuleConnectionId,
    pub from: ModulePortAddress,
    pub to: ModulePortAddress,
    pub order: i64,
    pub blend_mode: BlendMode,
}

impl Clone for ModuleConnection {
    fn clone(&self) -> (r: Self)
        ensures
            r == *self,
    {
        ModuleConnection {
            id: self.id,
            from: self.from.clone(),
            to: self.to.clone(),
            order: self.order,
            blend_mode: self.blend_mode,
        }
    }
}

/// The kind of data a port carries.
#[derive(Clone, Copy, PartialEq, Eq, Structural, Debug, Hash)]
pub enum PortDataType {
    Number,
    Image,
    String,
    Boolean,
    Color,
}

impl PortDataType {
    /// A control of this type takes values of type `other`.
    pub fn accepts(&self, other: PortDataType) -> (r: bool)
        ensures
            r == (*self == other),
    {
        *self == other
    }
}

/// The value of an authored control.
#[derive(Debug, PartialEq, Eq)]
pub enum PropertyValue {
    String(String),
    Boolean(bool),
    Color(Color),
}

impl Clone for PropertyValue {
    fn clone(&self) -> (r: Self)
        ensures
            r == *self,
    {
        match self {
            PropertyValue::String(text) => PropertyValue::String(text.clone()),
            PropertyValue::Boolean(value) => PropertyValue::Boolean(*value),
            PropertyValue::Color(color) => PropertyValue::Color(*color),
        }
    }
}

/// The type of data a value carries.
pub open spec fn value_type(value: PropertyValue) -> PortDataType {
    match value {
        PropertyValue::String(_) => PortDataType::String,
        PropertyValue::Boolean(_) => PortDataType::Boolean,
        PropertyValue::Color(_) => PortDataType::Color,
    }
}

pub fn property_value_type(value: &PropertyValue) -> (r: PortDataType)
    ensures
        r == value_type(*value),
{
    match value {
        PropertyValue::String(_) => PortDataType::String,
        PropertyValue::Boolean(_) => PortDataType::Boolean,
        PropertyValue::Color(_) => PortDataType::Color,
    }
}

/// A media input that a definition publishes to its users, delivered to one
/// port of one of its Nodes.
#[derive(Debug, PartialEq, Eq)]
pub struct PublishedMediaInput {
    pub id: PublishedMediaInputId,
    pub name: String,
    pub data_type: PortDataType,
    pub target: ModulePortAddress,
    pub required: bool,
    pub primary: bool,
}

impl Clone for PublishedMediaInput {
    fn clone(&self) -> (r: Self)
        ensures
            r == *self,
    {
        PublishedMediaInput {
            id: self.id,
            name: self.name.clone(),
            data_type: self.data_type,
            target: self.target.clone(),
            required: self.required,
            primary: self.primary,
        }
    }
}

/// What a definition publishes to its users.
#[derive(Debug, PartialEq, Eq)]
pub struct ModuleInterface {
    pub media_inputs: Vec<PublishedMediaInput>,
}

fn copy_media_inputs(inputs: &Vec<PublishedMediaInput>) -> (r: Vec<PublishedMediaInput>)
    ensures
        r@ == inputs@,
{
    let mut r: Vec<PublishedMediaInput> = Vec::new();
    for i in 0..inputs.len()
        invariant
            r@ == inputs@.subrange(0, i as int),
    {
        r.push(inputs[i].clone());
        assert(r@ =~= inputs@.subrange(0, i + 1));
    }
    assert(r@ =~= inputs@);
    r
}

impl Clone for ModuleInterface {
    fn clone(&self) -> (r: Self)
        ensures
            r.media_inputs@ == self.media_inputs@,
    {
        ModuleInterface { media_inputs: copy_media_inputs(&self.media_inputs) }
    }
}

/// A published output: the Output Node that renders it.
#[derive(Clone, Copy, PartialEq, Eq, Structural, Debug, Hash)]
pub struct ModuleOutput {
    pub id: ModuleOutputId,
    pub node_id: ModuleNodeId,
}

impl ModuleOutput {
    /// The port of the Output Node that receives data of `data_type`.
    pub fn target(&self, data_type: PortDataType) -> (r: Option<ModulePortAddress>)
        ensures
            match data_type {
                PortDataType::Image => r matches Some(address) && address.node_id == self.node_id && address.port@
                    == IMAGE_INPUT_PORT@,
                _ => r is None,
            },
    {
        match data_type {
            PortDataType::Image => Some(ModulePortAddress { node_id: self.node_id, port: IMAGE_INPUT_PORT.to_owned() }),
            _ => None,
        }
    }
}

/// A reusable or private processing graph.
#[derive(Debug, PartialEq, Eq)]
pub struct ModuleDefinition {
    pub id: ModuleDefinitionId,
    pub name: String,
    pub sharing: ModuleDefinitionSharing,
    pub nodes: Vec<ModuleNode>,
    pub connections: Vec<ModuleConnection>,
    pub outputs: Vec<ModuleOutput>,
    pub interface: ModuleInterface,
    /// Advances with every executable topology edit.
    pub topology_revision: u64,
    /// Advances with every edit of the published interface.
    pub interface_version: u64,
}

pub ghost struct ModuleDefinitionView {
    pub id: ModuleDefinitionId,
    pub name: String,
    pub sharing: ModuleDefinitionSharing,
    pub nodes: Seq<ModuleNode>,
    pub connections: Seq<ModuleConnection>,
    pub outputs: Seq<ModuleOutput>,
    pub media_inputs: Seq<PublishedMediaInput>,
    pub topology_revision: u64,
    pub interface_version: u64,
}

impl View for ModuleDefinition {
    type V = ModuleDefinitionView;

    open spec fn view(&self) -> ModuleDefinitionView {
        ModuleDefinitionView {
            id: self.id,
            name: self.name,
            sharing: self.sharing,
            nodes: self.nodes@,
            connections: self.connections@,
            outputs: self.outputs@,
            media_inputs: self.interface.media_inputs@,
            topology_revision: self.topology_revision,
            interface_version: self.interface_version,
        }
    }
}

fn copy_nodes(nodes: &Vec<ModuleNode>) -> (r: Vec<ModuleNode>)
    ensures
        r@ == nodes@,
{
    let mut r: Vec<ModuleNode> = Vec::new();
    for i in 0..nodes.len()
        invariant
            r@ == nodes@.subrange(0, i as int),
    {
        r.push(nodes[i].clone());
        assert(r@ =~= nodes@.subrange(0, i + 1));
    }
    assert(r@ =~= nodes@);
    r
}

fn copy_connections(connections: &Vec<ModuleConnection>) -> (r: Vec<ModuleConnection>)
    ensures
        r@ == connections@,
{
    let mut r: Vec<ModuleConnection> = Vec::new();
    for i in 0..connections.len()
        invariant
            r@ == connections@.subrange(0, i as int),
    {
        r.push(connections[i].clone());
        assert(r@ =~= connections@.subrange(0, i + 1));
    }
    assert(r@ =~= connections@);
    r
}

fn copy_outputs(outputs: &Vec<ModuleOutput>) -> (r: Vec<ModuleOutput>)
    ensures
        r@ == outputs@,
{
    let mut r: Vec<ModuleOutput> = Vec::new();
    for i in 0..outputs.len()
        invariant
            r@ == outputs@.subrange(0, i as int),
    {
        r.push(outputs[i]);
        assert(r@ =~= outputs@.subrange(0, i + 1));
    }
    assert(r@ =~= outputs@);
    r
}

impl Clone for ModuleDefinition {
    fn clone(&self) -> (r: Self)
        ensures
            r@ == self@,
    {
        ModuleDefinition {
            id: self.id,
            name: self.name.clone(),
            sharing: self.sharing,
            nodes: copy_nodes(&self.nodes),
            connections: copy_connections(&self.connections),
            outputs: copy_outputs(&self.outputs),
            interface: self.interface.clone(),
            topology_revision: self.topology_revision,
            interface_version: self.interface_version,
        }
    }
}

impl ModuleDefinition {
    /// A definition with one Output Node that renders its one image output.
    pub fn new_image(name: &str, sharing: ModuleDefinitionSharing) -> (r: (Self, ModuleOutputId))
        ensures
            r.0.name@ == name@,
            r.0.sharing == sharing,
            r.0.nodes@.len() == 1,
            r.0.nodes@[0].kind == ModuleNodeKind::Output,
            r.0.connections@.len() == 0,
            r.0.outputs@ == seq![ModuleOutput { id: r.1, node_id: r.0.nodes@[0].id }],
            r.0.interface.media_inputs@.len() == 0,
            r.0.topology_revision == 0,
            r.0.interface_version == 0,
    {
        let output_node = ModuleNode::new_output("Output");
        let node_id = output_node.id;
        let output_id = ModuleOutputId::new();
        let mut nodes: Vec<ModuleNode> = Vec::new();
        nodes.push(output_node);
        let mut outputs: Vec<ModuleOutput> = Vec::new();
        outputs.push(ModuleOutput { id: output_id, node_id });
        let definition = ModuleDefinition {
            id: ModuleDefinitionId::new(),
            name: name.to_owned(),
            sharing,
            nodes,
            connections: Vec::new(),
            outputs,
            interface: ModuleInterface { media_inputs: Vec::new() },
            topology_revision: 0,
            interface_version: 0,
        };
        assert(definition.outputs@ =~= seq![ModuleOutput { id: output_id, node_id: definition.nodes@[0].id }]);
        (definition, output_id)
    }

    /// A reusable Project template with one image output.
    pub fn new_project_image(name: &str) -> (r: (Self, ModuleOutputId))
        ensures
            r.0.name@ == name@,
            r.0.sharing == ModuleDefinitionSharing::ReusableTemplate(ModuleTemplateOrigin::Project),
            r.0.nodes@.len() == 1,
            r.0.connections@.len() == 0,
            r.0.outputs@.len() == 1,
            r.0.outputs@[0].id == r.1,
    {
        Self::new_image(name, ModuleDefinitionSharing::ReusableTemplate(ModuleTemplateOrigin::Project))
    }

    /// The published output `output_id`.
    pub fn output(&self, output_id: ModuleOutputId) -> (r: Option<&ModuleOutput>)
        ensures
            match r {
                Some(output) => output.id == output_id && self.outputs@.contains(*output),
                None => forall|i: int| 0 <= i < self.outputs@.len() ==> self.outputs@[i].id != output_id,
            },
    {
        for i in 0..self.outputs.len()
            invariant
                forall|j: int| 0 <= j < i ==> self.outputs@[j].id != output_id,
        {
            if self.outputs[i].id == output_id {
                assert(self.outputs@[i as int] == self.outputs@[i as int]);
                return Some(&self.outputs[i]);
            }
        }
        None
    }

    /// The Output Node that renders `output_id`.
    pub fn output_node(&self, output_id: ModuleOutputId) -> (r: Option<ModuleNodeId>)
        ensures
            match r {
                Some(node_id) => exists|i: int|
                    0 <= i < self.outputs@.len() && self.outputs@[i].id == output_id
                        && self.outputs@[i].node_id == node_id,
                None => forall|i: int| 0 <= i < self.outputs@.len() ==> self.outputs@[i].id != output_id,
            },
    {
        for i in 0..self.outputs.len()
            invariant
                forall|j: int| 0 <= j < i ==> self.outputs@[j].id != output_id,
        {
            if self.outputs[i].id == output_id {
                return Some(self.outputs[i].node_id);
            }
        }
        None
    }
}

/// One use of a definition by a placement, Attachment or Transition.
#[derive(Clone, Copy, PartialEq, Eq, Structural, Debug, Hash)]
pub struct ModuleInstance {
    pub id: ModuleInstanceId,
    pub definition_id: ModuleDefinitionId,
}

// ---------------------------------------------------------------------------
// Attachments
// ---------------------------------------------------------------------------

/// The authored object an Attachment processes.
#[derive(Clone, Copy, PartialEq, Eq, Structural, Debug, Hash)]
pub enum AttachmentOwner {
    Timeline { timeline_id: TimelineId },
    Track { track_id: TimelineTrackId },
    Item { item_id: TimelineItemId },
}

/// Where in the owner's evaluation an Attachment runs.
#[derive(Clone, Copy, PartialEq, Eq, Structural, Debug, Hash)]
pub enum AttachmentStage {
    PreTransform,
    PostTransform,
    TimelinePostComposite,
}

#[derive(Debug, PartialEq, Eq)]
pub enum AttachmentProcessor {
    Module(ModuleInvocation),
    BuiltinEffect { effect_id: String },
}

pub ghost enum AttachmentProcessorView {
    Module(ModuleInvocationView),
    BuiltinEffect { effect_id: String },
}

impl View for AttachmentProcessor {
    type V = AttachmentProcessorView;

    open spec fn view(&self) -> AttachmentProcessorView {
        match self {
            AttachmentProcessor::Module(invocation) => AttachmentProcessorView::Module(invocation@),
            AttachmentProcessor::BuiltinEffect { effect_id } => AttachmentProcessorView::BuiltinEffect {
                effect_id: *effect_id,
            },
        }
    }
}

impl Clone for AttachmentProcessor {
    fn clone(&self) -> (r: Self)
        ensures
            r@ == self@,
    {
        match self {
            AttachmentProcessor::Module(invocation) => AttachmentProcessor::Module(invocation.clone()),
            AttachmentProcessor::BuiltinEffect { effect_id } => AttachmentProcessor::BuiltinEffect {
                effect_id: effect_id.clone(),
            },
        }
    }
}

/// An Effect in the ordered stack of one owner and stage.
#[derive(Debug, PartialEq, Eq)]
pub struct Attachment {
    pub id: AttachmentId,
    pub owner: AttachmentOwner,
    pub stage: AttachmentStage,
    pub order: i64,
    pub enabled: bool,
    pub bypassed: bool,
    pub processor: AttachmentProcessor,
}

pub ghost struct AttachmentView {
    pub id: AttachmentId,
    pub owner: AttachmentOwner,
    pub stage: AttachmentStage,
    pub order: i64,
    pub enabled: bool,
    pub bypassed: bool,
    pub processor: AttachmentProcessorView,
}

impl View for Attachment {
    type V = AttachmentView;

    open spec fn view(&self) -> AttachmentView {
        AttachmentView {
            id: self.id,
            owner: self.owner,
            stage: self.stage,
            order: self.order,
            enabled: self.enabled,
            bypassed: self.bypassed,
            processor: self.processor@,
        }
    }
}

impl Clone for Attachment {
    fn clone(&self) -> (r: Self)
        ensures
            r@ == self@,
    {
        Attachment {
            id: self.id,
            owner: self.owner,
            stage: self.stage,
            order: self.order,
            enabled: self.enabled,
            bypassed: self.bypassed,
            processor: self.processor.clone(),
        }
    }
}

// ---------------------------------------------------------------------------
// The Project
// ---------------------------------------------------------------------------

/// The authored source of truth of one Project.
#[derive(Debug, PartialEq, Eq)]
pub struct AuthoringProject {
    pub name: String,
    pub root_timeline_id: TimelineId,
    pub timelines: Vec<Timeline>,
    pub tracks: Vec<TimelineTrack>,
    pub items: Vec<TimelineItem>,
    pub transitions: Vec<Transition>,
    pub module_definitions: Vec<ModuleDefinition>,
    pub module_instances: Vec<ModuleInstance>,
    pub attachments: Vec<Attachment>,
}

pub ghost struct ProjectView {
    pub name: String,
    pub root_timeline_id: TimelineId,
    pub timelines: Seq<TimelineView>,
    pub tracks: Seq<TimelineTrack>,
    pub items: Seq<TimelineItemView>,
    pub transitions: Seq<Transition>,
    pub module_definitions: Seq<ModuleDefinitionView>,
    pub module_instances: Seq<ModuleInstance>,
    pub attachments: Seq<AttachmentView>,
}

impl View for AuthoringProject {
    type V = ProjectView;

    open spec fn view(&self) -> ProjectView {
        ProjectView {
            name: self.name,
            root_timeline_id: self.root_timeline_id,
            timelines: self.timelines@.map_values(|t: Timeline| t@),
            tracks: self.tracks@,
            items: self.items@.map_values(|i: TimelineItem| i@),
            transitions: self.transitions@,
            module_definitions: self.module_definitions@.map_values(|d: ModuleDefinition| d@),
            module_instances: self.module_instances@,
            attachments: self.attachments@.map_values(|a: Attachment| a@),
        }
    }
}

fn copy_timelines(v: &Vec<Timeline>) -> (r: Vec<Timeline>)
    ensures
        r@.map_values(|t: Timeline| t@) == v@.map_values(|t: Timeline| t@),
{
    let mut r: Vec<Timeline> = Vec::new();
    for i in 0..v.len()
        invariant
            r@.len() == i,
            forall|j: int| 0 <= j < i ==> r@[j]@ == v@[j]@,
    {
        r.push(v[i].clone());
    }
    assert(r@.map_values(|t: Timeline| t@) =~= v@.map_values(|t: Timeline| t@));
    r
}

fn copy_tracks(v: &Vec<TimelineTrack>) -> (r: Vec<TimelineTrack>)
    ensures
        r@ == v@,
{
    let mut r: Vec<TimelineTrack> = Vec::new();
    for i in 0..v.len()
        invariant
            r@ == v@.subrange(0, i as int),
    {
        r.push(v[i].clone());
        assert(r@ =~= v@.subrange(0, i + 1));
    }
    assert(r@ =~= v@);
    r
}

fn copy_items(v: &Vec<TimelineItem>) -> (r: Vec<TimelineItem>)
    ensures
        r@.map_values(|t: TimelineItem| t@) == v@.map_values(|t: TimelineItem| t@),
{
    let mut r: Vec<TimelineItem> = Vec::new();
    for i in 0..v.len()
        invariant
            r@.len() == i,
            forall|j: int| 0 <= j < i ==> r@[j]@ == v@[j]@,
    {
        r.push(v[i].clone());
    }
    assert(r@.map_values(|t: TimelineItem| t@) =~= v@.map_values(|t: TimelineItem| t@));
    r
}

fn copy_transitions(v: &Vec<Transition>) -> (r: Vec<Transition>)
    ensures
        r@ == v@,
{
    let mut r: Vec<Transition> = Vec::new();
    for i in 0..v.len()
        invariant
            r@ == v@.subrange(0, i as int),
    {
        r.push(v[i]);
        assert(r@ =~= v@.subrange(0, i + 1));
    }
    assert(r@ =~= v@);
    r
}

fn copy_definitions(v: &Vec<ModuleDefinition>) -> (r: Vec<ModuleDefinition>)
    ensures
        r@.map_values(|t: ModuleDefinition| t@) == v@.map_values(|t: ModuleDefinition| t@),
{
    let mut r: Vec<ModuleDefinition> = Vec::new();
    for i in 0..v.len()
        invariant
            r@.len() == i,
            forall|j: int| 0 <= j < i ==> r@[j]@ == v@[j]@,
    {
        r.push(v[i].clone());
    }
    assert(r@.map_values(|t: ModuleDefinition| t@) =~= v@.map_values(|t: ModuleDefinition| t@));
    r
}

fn copy_instances(v: &Vec<ModuleInstance>) -> (r: Vec<ModuleInstance>)
    ensures
        r@ == v@,
{
    let mut r: Vec<ModuleInstance> = Vec::new();
    for i in 0..v.len()
        invariant
            r@ == v@.subrange(0, i as int),
    {
        r.push(v[i]);
        assert(r@ =~= v@.subrange(0, i + 1));
    }
    assert(r@ =~= v@);
    r
}

fn copy_attachments(v: &Vec<Attachment>) -> (r: Vec<Attachment>)
    ensures
        r@.map_values(|t: Attachment| t@) == v@.map_values(|t: Attachment| t@),
{
    let mut r: Vec<Attachment> = Vec::new();
    for i in 0..v.len()
        invariant
            r@.len() == i,
            forall|j: int| 0 <= j < i ==> r@[j]@ == v@[j]@,
    {
        r.push(v[i].clone());
    }
    assert(r@.map_values(|t: Attachment| t@) =~= v@.map_values(|t: Attachment| t@));
    r
}

impl Clone for AuthoringProject {
    fn clone(&self) -> (r: Self)
        ensures
            r@ == self@,
    {
        AuthoringProject {
            name: self.name.clone(),
            root_timeline_id: self.root_timeline_id,
            timelines: copy_timelines(&self.timelines),
            tracks: copy_tracks(&self.tracks),
            items: copy_items(&self.items),
            transitions: copy_transitions(&self.transitions),
            module_definitions: copy_definitions(&self.module_definitions),
            module_instances: copy_instances(&self.module_instances),
            attachments: copy_attachments(&self.attachments),
        }
    }
}


// ---------------------------------------------------------------------------
// Identity lookups in the specification
// ---------------------------------------------------------------------------

impl ProjectView {
    pub open spec fn has_timeline(self, id: TimelineId) -> bool {
        exists|i: int| 0 <= i < self.timelines.len() && self.timelines[i].id == id
    }

    pub open spec fn timeline_index(self, id: TimelineId) -> int {
        choose|i: int| 0 <= i < self.timelines.len() && self.timelines[i].id == id
    }

    pub open spec fn has_track(self, id: TimelineTrackId) -> bool {
        exists|i: int| 0 <= i < self.tracks.len() && self.tracks[i].id == id
    }

    pub open spec fn track_index(self, id: TimelineTrackId) -> int {
        choose|i: int| 0 <= i < self.tracks.len() && self.tracks[i].id == id
    }

    pub open spec fn has_item(self, id: TimelineItemId) -> bool {
        exists|i: int| 0 <= i < self.items.len() && self.items[i].id == id
    }

    pub open spec fn item_index(self, id: TimelineItemId) -> int {
        choose|i: int| 0 <= i < self.items.len() && self.items[i].id == id
    }

    pub open spec fn has_transition(self, id: TransitionId) -> bool {
        exists|i: int| 0 <= i < self.transitions.len() && self.transitions[i].id == id
    }

    pub open spec fn has_definition(self, id: ModuleDefinitionId) -> bool {
        exists|i: int| 0 <= i < self.module_definitions.len() && self.module_definitions[i].id == id
    }

    pub open spec fn definition_index(self, id: ModuleDefinitionId) -> int {
        choose|i: int| 0 <= i < self.module_definitions.len() && self.module_definitions[i].id == id
    }

    pub open spec fn has_instance(self, id: ModuleInstanceId) -> bool {
        exists|i: int| 0 <= i < self.module_instances.len() && self.module_instances[i].id == id
    }

    pub open spec fn instance_index(self, id: ModuleInstanceId) -> int {
        choose|i: int| 0 <= i < self.module_instances.len() && self.module_instances[i].id == id
    }

    pub open spec fn has_attachment(self, id: AttachmentId) -> bool {
        exists|i: int| 0 <= i < self.attachments.len() && self.attachments[i].id == id
    }

    pub open spec fn attachment_index(self, id: AttachmentId) -> int {
        choose|i: int| 0 <= i < self.attachments.len() && self.attachments[i].id == id
    }

    /// The Timeline that owns a Track.
    pub open spec fn track_timeline(self, id: TimelineTrackId) -> TimelineId {
        self.tracks[self.track_index(id)].timeline_id
    }

    /// The placement with identity `id`.
    pub open spec fn item(self, id: TimelineItemId) -> TimelineItemView {
        self.items[self.item_index(id)]
    }

    /// The Timeline of the Track that holds a placement.
    pub open spec fn item_timeline(self, id: TimelineItemId) -> TimelineId {
        self.track_timeline(self.item(id).track_id)
    }

    /// The placement's Track exists, so its Timeline is known.
    pub open spec fn item_placed(self, id: TimelineItemId) -> bool {
        self.has_item(id) && self.has_track(self.item(id).track_id)
    }

    pub open spec fn unique_timeline_ids(self) -> bool {
        forall|i: int, j: int|
            0 <= i < self.timelines.len() && 0 <= j < self.timelines.len() && i != j
                ==> self.timelines[i].id != self.timelines[j].id
    }

    pub open spec fn unique_track_ids(self) -> bool {
        forall|i: int, j: int|
            0 <= i < self.tracks.len() && 0 <= j < self.tracks.len() && i != j
                ==> self.tracks[i].id != self.tracks[j].id
    }

    pub open spec fn unique_item_ids(self) -> bool {
        forall|i: int, j: int|
            0 <= i < self.items.len() && 0 <= j < self.items.len() && i != j
                ==> self.items[i].id != self.items[j].id
    }

    pub open spec fn unique_transition_ids(self) -> bool {
        forall|i: int, j: int|
            0 <= i < self.transitions.len() && 0 <= j < self.transitions.len() && i != j
                ==> self.transitions[i].id != self.transitions[j].id
    }

    pub open spec fn unique_definition_ids(self) -> bool {
        forall|i: int, j: int|
            0 <= i < self.module_definitions.len() && 0 <= j < self.module_definitions.len() && i != j
                ==> self.module_definitions[i].id != self.module_definitions[j].id
    }

    pub open spec fn unique_instance_ids(self) -> bool {
        forall|i: int, j: int|
            0 <= i < self.module_instances.len() && 0 <= j < self.module_instances.len() && i != j
                ==> self.module_instances[i].id != self.module_instances[j].id
    }

    pub open spec fn unique_attachment_ids(self) -> bool {
        forall|i: int, j: int|
            0 <= i < self.attachments.len() && 0 <= j < self.attachments.len() && i != j
                ==> self.attachments[i].id != self.attachments[j].id
    }

    /// Every collection holds each identity at most once.
    pub open spec fn unique_ids(self) -> bool {
        &&& self.unique_timeline_ids()
        &&& self.unique_track_ids()
        &&& self.unique_item_ids()
        &&& self.unique_transition_ids()
        &&& self.unique_definition_ids()
        &&& self.unique_instance_ids()
        &&& self.unique_attachment_ids()
    }
}

// ---------------------------------------------------------------------------
// Identity lookups
// ---------------------------------------------------------------------------

impl AuthoringProject {
    pub fn timeline_position(&self, id: TimelineId) -> (r: Option<usize>)
        ensures
            match r {
                Some(i) => i < self@.timelines.len() && self@.timelines[i as int].id == id,
                None => !self@.has_timeline(id),
            },
    {
        for i in 0..self.timelines.len()
            invariant
                forall|j: int| 0 <= j < i ==> self@.timelines[j].id != id,
        {
            if self.timelines[i].id == id {
                return Some(i);
            }
        }
        None
    }

    pub fn track_position(&self, id: TimelineTrackId) -> (r: Option<usize>)
        ensures
            match r {
                Some(i) => i < self@.tracks.len() && self@.tracks[i as int].id == id,
                None => !self@.has_track(id),
            },
    {
        for i in 0..self.tracks.len()
            invariant
                forall|j: int| 0 <= j < i ==> self@.tracks[j].id != id,
        {
            if self.tracks[i].id == id {
                return Some(i);
            }
        }
        None
    }

    pub fn item_position(&self, id: TimelineItemId) -> (r: Option<usize>)
        ensures
            match r {
                Some(i) => i < self@.items.len() && self@.items[i as int].id == id,
                None => !self@.has_item(id),
            },
    {
        for i in 0..self.items.len()
            invariant
                forall|j: int| 0 <= j < i ==> self@.items[j].id != id,
        {
            if self.items[i].id == id {
                return Some(i);
            }
        }
        None
    }

    pub fn transition_position(&self, id: TransitionId) -> (r: Option<usize>)
        ensures
            match r {
                Some(i) => i < self@.transitions.len() && self@.transitions[i as int].id == id,
                None => !self@.has_transition(id),
            },
    {
        for i in 0..self.transitions.len()
            invariant
                forall|j: int| 0 <= j < i ==> self@.transitions[j].id != id,
        {
            if self.transitions[i].id == id {
                return Some(i);
            }
        }
        None
    }

    pub fn definition_position(&self, id: ModuleDefinitionId) -> (r: Option<usize>)
        ensures
            match r {
                Some(i) => i < self@.module_definitions.len() && self@.module_definitions[i as int].id == id,
                None => !self@.has_definition(id),
            },
    {
        for i in 0..self.module_definitions.len()
            invariant
                forall|j: int| 0 <= j < i ==> self@.module_definitions[j].id != id,
        {
            if self.module_definitions[i].id == id {
                return Some(i);
            }
        }
        None
    }

    pub fn instance_position(&self, id: ModuleInstanceId) -> (r: Option<usize>)
        ensures
            match r {
                Some(i) => i < self@.module_instances.len() && self@.module_instances[i as int].id == id,
                None => !self@.has_instance(id),
            },
    {
        for i in 0..self.module_instances.len()
            invariant
                forall|j: int| 0 <= j < i ==> self@.module_instances[j].id != id,
        {
            if self.module_instances[i].id == id {
                return Some(i);
            }
        }
        None
    }

    pub fn attachment_position(&self, id: AttachmentId) -> (r: Option<usize>)
        ensures
            match r {
                Some(i) => i < self@.attachments.len() && self@.attachments[i as int].id == id,
                None => !self@.has_attachment(id),
            },
    {
        for i in 0..self.attachments.len()
            invariant
                forall|j: int| 0 <= j < i ==> self@.attachments[j].id != id,
        {
            if self.attachments[i].id == id {
                return Some(i);
            }
        }
        None
    }

    /// The Timeline with identity `id`.
    pub fn timeline(&self, id: TimelineId) -> (r: Option<&Timeline>)
        ensures
            match r {
                Some(t) => self@.has_timeline(id) && t.id == id
                    && exists|i: int| 0 <= i < self@.timelines.len() && self@.timelines[i] == t@,
                None => !self@.has_timeline(id),
            },
    {
        match self.timeline_position(id) {
            Some(i) => Some(&self.timelines[i]),
            None => None,
        }
    }

    /// The Track with identity `id`.
    pub fn track(&self, id: TimelineTrackId) -> (r: Option<&TimelineTrack>)
        ensures
            match r {
                Some(t) => self@.has_track(id) && t.id == id
                    && exists|i: int| 0 <= i < self@.tracks.len() && self@.tracks[i] == *t,
                None => !self@.has_track(id),
            },
    {
        match self.track_position(id) {
            Some(i) => Some(&self.tracks[i]),
            None => None,
        }
    }

    /// The placement with identity `id`.
    pub fn item(&self, id: TimelineItemId) -> (r: Option<&TimelineItem>)
        ensures
            match r {
                Some(t) => self@.has_item(id) && t.id == id
                    && exists|i: int| 0 <= i < self@.items.len() && self@.items[i] == t@,
                None => !self@.has_item(id),
            },
    {
        match self.item_position(id) {
            Some(i) => Some(&self.items[i]),
            None => None,
        }
    }

    /// The Transition with identity `id`.
    pub fn transition(&self, id: TransitionId) -> (r: Option<&Transition>)
        ensures
            match r {
                Some(t) => self@.has_transition(id) && t.id == id,
                None => !self@.has_transition(id),
            },
    {
        match self.transition_position(id) {
            Some(i) => Some(&self.transitions[i]),
            None => None,
        }
    }

    /// The Module definition with identity `id`.
    pub fn module_definition(&self, id: ModuleDefinitionId) -> (r: Option<&ModuleDefinition>)
        ensures
            match r {
                Some(d) => self@.has_definition(id) && d.id == id
                    && exists|i: int| 0 <= i < self@.module_definitions.len() && self@.module_definitions[i] == d@,
                None => !self@.has_definition(id),
            },
    {
        match self.definition_position(id) {
            Some(i) => Some(&self.module_definitions[i]),
            None => None,
        }
    }

    /// The Module instance with identity `id`.
    pub fn module_instance(&self, id: ModuleInstanceId) -> (r: Option<&ModuleInstance>)
        ensures
            match r {
                Some(m) => self@.has_instance(id) && m.id == id,
                None => !self@.has_instance(id),
            },
    {
        match self.instance_position(id) {
            Some(i) => Some(&self.module_instances[i]),
            None => None,
        }
    }

    /// The Attachment with identity `id`.
    pub fn attachment(&self, id: AttachmentId) -> (r: Option<&Attachment>)
        ensures
            match r {
                Some(a) => self@.has_attachment(id) && a.id == id,
                None => !self@.has_attachment(id),
            },
    {
        match self.attachment_position(id) {
            Some(i) => Some(&self.attachments[i]),
            None => None,
        }
    }
}


// ---------------------------------------------------------------------------
// Unique identities make lookups exact
// ---------------------------------------------------------------------------

impl ProjectView {
    pub proof fn lemma_track_index(self, i: int)
        requires
            self.unique_track_ids(),
            0 <= i < self.tracks.len(),
        ensures
            self.has_track(self.tracks[i].id),
            self.track_index(self.tracks[i].id) == i,
    {
        let k = self.track_index(self.tracks[i].id);
        assert(0 <= k < self.tracks.len() && self.tracks[k].id == self.tracks[i].id);
    }

    pub proof fn lemma_item_index(self, i: int)
        requires
            self.unique_item_ids(),
            0 <= i < self.items.len(),
        ensures
            self.has_item(self.items[i].id),
            self.item_index(self.items[i].id) == i,
    {
        let k = self.item_index(self.items[i].id);
        assert(0 <= k < self.items.len() && self.items[k].id == self.items[i].id);
    }

    pub proof fn lemma_timeline_index(self, i: int)
        requires
            self.unique_timeline_ids(),
            0 <= i < self.timelines.len(),
        ensures
            self.has_timeline(self.timelines[i].id),
            self.timeline_index(self.timelines[i].id) == i,
    {
        let k = self.timeline_index(self.timelines[i].id);
        assert(0 <= k < self.timelines.len() && self.timelines[k].id == self.timelines[i].id);
    }

    pub proof fn lemma_definition_index(self, i: int)
        requires
            self.unique_definition_ids(),
            0 <= i < self.module_definitions.len(),
        ensures
            self.has_definition(self.module_definitions[i].id),
            self.definition_index(self.module_definitions[i].id) == i,
    {
        let k = self.definition_index(self.module_definitions[i].id);
        assert(0 <= k < self.module_definitions.len() && self.module_definitions[k].id == self.module_definitions[i].id);
    }

    pub proof fn lemma_instance_index(self, i: int)
        requires
            self.unique_instance_ids(),
            0 <= i < self.module_instances.len(),
        ensures
            self.has_instance(self.module_instances[i].id),
            self.instance_index(self.module_instances[i].id) == i,
    {
        let k = self.instance_index(self.module_instances[i].id);
        assert(0 <= k < self.module_instances.len() && self.module_instances[k].id == self.module_instances[i].id);
    }

    pub proof fn lemma_attachment_index(self, i: int)
        requires
            self.unique_attachment_ids(),
            0 <= i < self.attachments.len(),
        ensures
            self.has_attachment(self.attachments[i].id),
            self.attachment_index(self.attachments[i].id) == i,
    {
        let k = self.attachment_index(self.attachments[i].id);
        assert(0 <= k < self.attachments.len() && self.attachments[k].id == self.attachments[i].id);
    }
}

impl AuthoringProject {
    /// The Timeline that owns Track `track_id`.
    pub fn timeline_of_track(&self, track_id: TimelineTrackId) -> (r: Option<TimelineId>)
        requires
            self@.unique_track_ids(),
        ensures
            match r {
                Some(t) => self@.has_track(track_id) && t == self@.track_timeline(track_id),
                None => !self@.has_track(track_id),
            },
    {
        match self.track_position(track_id) {
            Some(i) => {
                proof {
                    self@.lemma_track_index(i as int);
                }
                Some(self.tracks[i].timeline_id)
            },
            None => None,
        }
    }

    /// The Timeline that holds placement `item_id`.
    pub fn timeline_of_item(&self, item_id: TimelineItemId) -> (r: Option<TimelineId>)
        requires
            self@.unique_track_ids(),
            self@.unique_item_ids(),
        ensures
            match r {
                Some(t) => self@.item_placed(item_id) && t == self@.item_timeline(item_id),
                None => !self@.item_placed(item_id),
            },
    {
        match self.item_position(item_id) {
            Some(i) => {
                proof {
                    self@.lemma_item_index(i as int);
                }
                self.timeline_of_track(self.items[i].track_id)
            },
            None => None,
        }
    }
}

} // verus!
