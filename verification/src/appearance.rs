//! Recognising a structured Appearance in a Module graph: a chain of Style
//! operations that turn one Shape into one Image, rasterising operations
//! laid over what came before by two-input Merges.

use vstd::prelude::*;

use crate::ids::{ModuleConnectionId, ModuleNodeId};
use crate::model::{BlendMode, ModuleConnection, ModuleDefinition, ModuleDefinitionView, ModuleNode, ModuleNodeKind, ModulePortAddress};
use crate::module_graph::{node_index, same_port};
use crate::validation::has_node;

verus! {

/// A connection leaving Node `node_id`.
pub open spec fn leaves(node_id: ModuleNodeId) -> spec_fn(ModuleConnection) -> bool {
    |c: ModuleConnection| c.from.node_id == node_id
}

/// A connection into port `port` of Node `node_id`.
pub open spec fn enters(node_id: ModuleNodeId, port: Seq<char>) -> spec_fn(ModuleConnection) -> bool {
    |c: ModuleConnection| c.to.node_id == node_id && c.to.port@ == port
}

/// A connection into any port of Node `node_id`.
pub open spec fn enters_node(node_id: ModuleNodeId) -> spec_fn(ModuleConnection) -> bool {
    |c: ModuleConnection| c.to.node_id == node_id
}

fn connections_from(definition: &ModuleDefinition, node_id: ModuleNodeId) -> (r: Vec<ModuleConnection>)
    ensures
        r@ == definition@.connections.filter(leaves(node_id)),
{
    let ghost all = definition@.connections;
    let mut out: Vec<ModuleConnection> = Vec::new();
    for k in 0..definition.connections.len()
        invariant
            all == definition@.connections,
            out@ == all.take(k as int).filter(leaves(node_id)),
    {
        proof {
            crate::module_graph::lemma_filter_step(all, k as int, leaves(node_id));
        }
        if definition.connections[k].from.node_id == node_id {
            out.push(definition.connections[k].clone());
        }
    }
    assert(all.take(all.len() as int) =~= all);
    out
}

fn connections_into(definition: &ModuleDefinition, node_id: ModuleNodeId, port: &str) -> (r: Vec<ModuleConnection>)
    ensures
        r@ == definition@.connections.filter(enters(node_id, port@)),
{
    let ghost all = definition@.connections;
    let wanted = port.to_owned();
    let mut out: Vec<ModuleConnection> = Vec::new();
    for k in 0..definition.connections.len()
        invariant
            all == definition@.connections,
            wanted@ == port@,
            out@ == all.take(k as int).filter(enters(node_id, port@)),
    {
        proof {
            crate::module_graph::lemma_filter_step(all, k as int, enters(node_id, port@));
        }
        if definition.connections[k].to.node_id == node_id && definition.connections[k].to.port == wanted {
            out.push(definition.connections[k].clone());
        }
    }
    assert(all.take(all.len() as int) =~= all);
    out
}

fn connections_into_node(definition: &ModuleDefinition, node_id: ModuleNodeId) -> (r: Vec<ModuleConnection>)
    ensures
        r@ == definition@.connections.filter(enters_node(node_id)),
{
    let ghost all = definition@.connections;
    let mut out: Vec<ModuleConnection> = Vec::new();
    for k in 0..definition.connections.len()
        invariant
            all == definition@.connections,
            out@ == all.take(k as int).filter(enters_node(node_id)),
    {
        proof {
            crate::module_graph::lemma_filter_step(all, k as int, enters_node(node_id));
        }
        if definition.connections[k].to.node_id == node_id {
            out.push(definition.connections[k].clone());
        }
    }
    assert(all.take(all.len() as int) =~= all);
    out
}

/// A Node whose identity is not among `visited`.
pub open spec fn unvisited_node(visited: Seq<ModuleNodeId>) -> spec_fn(ModuleNode) -> bool {
    |n: ModuleNode| !visited.contains(n.id)
}

/// How many Nodes of `d` a parse has not visited yet.
pub open spec fn unvisited(d: ModuleDefinitionView, visited: Seq<ModuleNodeId>) -> nat {
    d.nodes.filter(unvisited_node(visited)).len()
}

/// Visiting a new identity leaves no more Nodes of `s` unvisited, and fewer
/// when one of them has it.
pub proof fn lemma_unvisited_shrinks_seq(s: Seq<ModuleNode>, visited: Seq<ModuleNodeId>, x: ModuleNodeId)
    requires
        !visited.contains(x),
    ensures
        s.filter(unvisited_node(visited.push(x))).len() <= s.filter(unvisited_node(visited)).len(),
        (exists|n: int| 0 <= n < s.len() && s[n].id == x) ==> s.filter(unvisited_node(visited.push(x))).len() < s.filter(
            unvisited_node(visited),
        ).len(),
    decreases s.len(),
{
    reveal(Seq::filter);
    if s.len() > 0 {
        let t = s.drop_last();
        lemma_unvisited_shrinks_seq(t, visited, x);
        let last = s.last();
        assert(visited.push(x).contains(last.id) == (visited.contains(last.id) || last.id == x)) by {
            if last.id == x {
                assert(visited.push(x)[visited.len() as int] == x);
            }
            if visited.push(x).contains(last.id) {
                let j = choose|j: int| 0 <= j < visited.push(x).len() && visited.push(x)[j] == last.id;
                if j < visited.len() {
                    assert(visited[j] == last.id);
                }
            }
            if visited.contains(last.id) {
                let j = choose|j: int| 0 <= j < visited.len() && visited[j] == last.id;
                assert(visited.push(x)[j] == last.id);
            }
        }
        if exists|n: int| 0 <= n < s.len() && s[n].id == x {
            let n = choose|n: int| 0 <= n < s.len() && s[n].id == x;
            if n < s.len() - 1 {
                assert(t[n].id == x);
            }
        }
    }
}

/// Visiting a new Node of `d` leaves fewer of its Nodes unvisited.
pub proof fn lemma_unvisited_shrinks(d: ModuleDefinitionView, visited: Seq<ModuleNodeId>, x: ModuleNodeId)
    requires
        !visited.contains(x),
        has_node(d, x),
    ensures
        unvisited(d, visited.push(x)) < unvisited(d, visited),
{
    lemma_unvisited_shrinks_seq(d.nodes, visited, x);
}


// ---------------------------------------------------------------------------
// The parse
// ---------------------------------------------------------------------------

/// What a parse recognised: the Shape every rasterising operation reads,
/// the connections that carry it, the operations in order, the Merges, and
/// the connections of the chain.
pub ghost struct ParsedView {
    pub shape_source: Option<ModulePortAddress>,
    pub shape_links: Seq<ModuleConnectionId>,
    pub entries: Seq<ModuleNodeId>,
    pub merge_node_ids: Seq<ModuleNodeId>,
    pub topology_link_ids: Seq<ModuleConnectionId>,
}

pub struct ParsedAppearance {
    pub shape_source: Option<ModulePortAddress>,
    pub shape_links: Vec<ModuleConnectionId>,
    pub entries: Vec<ModuleNodeId>,
    pub merge_node_ids: Vec<ModuleNodeId>,
    pub topology_link_ids: Vec<ModuleConnectionId>,
}

impl View for ParsedAppearance {
    type V = ParsedView;

    open spec fn view(&self) -> ParsedView {
        ParsedView {
            shape_source: self.shape_source,
            shape_links: self.shape_links@,
            entries: self.entries@,
            merge_node_ids: self.merge_node_ids@,
            topology_link_ids: self.topology_link_ids@,
        }
    }
}

/// The view of an optional parse.
pub open spec fn parsed_view(r: Option<ParsedAppearance>) -> Option<ParsedView> {
    match r {
        Some(p) => Some(p@),
        None => None,
    }
}

/// Node `node_id` feeds exactly one connection, `expected`.
pub open spec fn only_consumer(d: ModuleDefinitionView, node_id: ModuleNodeId, expected: ModuleConnectionId) -> bool {
    let out = d.connections.filter(leaves(node_id));
    out.len() == 1 && out[0].id == expected
}

/// An enabled, not bypassed Style operation.
pub open spec fn style_op(n: ModuleNode) -> bool {
    n.kind is Style && n.enabled && !n.bypassed
}

/// A published media input targets Node `node_id`.
pub open spec fn published_into(d: ModuleDefinitionView, node_id: ModuleNodeId) -> bool {
    exists|j: int| 0 <= j < d.media_inputs.len() && d.media_inputs[j].target.node_id == node_id
}

/// Rasterising operation `id` reading its Shape over its one Shape
/// connection from a Shape output, consumed over `consumer`.
#[verifier::opaque]
pub open spec fn shape_parsed(d: ModuleDefinitionView, id: ModuleNodeId, consumer: ModuleConnectionId) -> Option<ParsedView> {
    let incoming = d.connections.filter(enters(id, "shape"@));
    if incoming.len() != 1 || incoming[0].from.port@ != "shape"@ {
        None
    } else {
        Some(
            ParsedView {
                shape_source: Some(incoming[0].from),
                shape_links: seq![incoming[0].id],
                entries: seq![id],
                merge_node_ids: Seq::empty(),
                topology_link_ids: seq![incoming[0].id, consumer],
            },
        )
    }
}

/// The rasterising operation a Merge lays over what came before: an
/// enabled Shape Style operation whose Image only that Merge reads.
#[verifier::opaque]
pub open spec fn raster_parsed(d: ModuleDefinitionView, source: ModulePortAddress, consumer: ModuleConnectionId) -> Option<ParsedView> {
    if source.port@ != "image"@ || !has_node(d, source.node_id) {
        None
    } else {
        let node = d.nodes[node_index(d, source.node_id)];
        if !only_consumer(d, source.node_id, consumer) || !style_op(node) || node.kind != (ModuleNodeKind::Style {
            shape_input: true,
        }) {
            None
        } else {
            shape_parsed(d, source.node_id, consumer)
        }
    }
}

/// The two Image inputs of a Merge carry orders 0 and 1.
pub open spec fn merge_orders(inputs: Seq<ModuleConnection>) -> bool {
    (inputs[0].order == 0 && inputs[1].order == 1) || (inputs[0].order == 1 && inputs[1].order == 0)
}

/// An Image Style operation `id` consumed over `consumer`, after the parse
/// `inner` of what it reads.
#[verifier::opaque]
pub open spec fn image_step(inner: Option<ParsedView>, id: ModuleNodeId, consumer: ModuleConnectionId) -> Option<ParsedView> {
    match inner {
        None => None,
        Some(p) => Some(ParsedView { entries: p.entries.push(id), topology_link_ids: p.topology_link_ids.push(consumer), ..p }),
    }
}

/// An Image Style operation `id` that reads nothing.
pub open spec fn image_alone(id: ModuleNodeId, consumer: ModuleConnectionId) -> ParsedView {
    ParsedView {
        shape_source: None,
        shape_links: Seq::empty(),
        entries: seq![id],
        merge_node_ids: Seq::empty(),
        topology_link_ids: seq![consumer],
    }
}

/// Merge `id` of the parse `prior` of what lies under and the raster
/// operation `raster` laid over it; both must read the same Shape.
#[verifier::opaque]
pub open spec fn merge_step(
    prior: Option<ParsedView>,
    raster: Option<ParsedView>,
    id: ModuleNodeId,
    consumer: ModuleConnectionId,
) -> Option<ParsedView> {
    match prior {
        None => None,
        Some(p) => match raster {
            None => None,
            Some(q) => if p.shape_source is Some && q.shape_source is Some && !same_port(
                p.shape_source.unwrap(),
                q.shape_source.unwrap(),
            ) {
                None
            } else {
                Some(
                    ParsedView {
                        shape_source: if p.shape_source is Some {
                            p.shape_source
                        } else {
                            q.shape_source
                        },
                        shape_links: p.shape_links + q.shape_links,
                        entries: p.entries + q.entries,
                        merge_node_ids: (p.merge_node_ids + q.merge_node_ids).push(id),
                        topology_link_ids: (p.topology_link_ids + q.topology_link_ids).push(consumer),
                    },
                )
            },
        },
    }
}

/// The Image inputs of Merge `id`, when it has exactly these two inputs
/// with orders 0 and 1 and normal blending.
pub open spec fn merge_inputs_ok(d: ModuleDefinitionView, id: ModuleNodeId) -> bool {
    let all_in = d.connections.filter(enters_node(id));
    let images = d.connections.filter(enters(id, "images"@));
    all_in.len() == 2 && images.len() == 2 && merge_orders(images) && images[0].blend_mode == BlendMode::Normal
        && images[1].blend_mode == BlendMode::Normal
}

/// The Merge input of order `order`.
pub open spec fn merge_input(d: ModuleDefinitionView, id: ModuleNodeId, order: i64) -> ModuleConnection {
    let images = d.connections.filter(enters(id, "images"@));
    if images[0].order == order {
        images[0]
    } else {
        images[1]
    }
}

/// What Node `node` of `d`, reached over `consumer`, is in a structured
/// Appearance, before anything it reads is parsed.
pub enum Reading {
    /// No structured Appearance.
    Nothing,
    /// Rasterising operation (`shape_parsed`).
    Shape,
    /// Image operation reading over connection `input`.
    ImageOver { input: ModuleConnection },
    /// Image operation reading nothing.
    ImageAlone,
    /// Merge over its two inputs.
    Merge { under: ModuleConnection, over: ModuleConnection },
}

/// The reading of Node `id` (which exists) consumed over `consumer`.
#[verifier::opaque]
pub open spec fn reading(d: ModuleDefinitionView, id: ModuleNodeId, consumer: ModuleConnectionId) -> Reading {
    let node = d.nodes[node_index(d, id)];
    if !only_consumer(d, id, consumer) {
        Reading::Nothing
    } else if style_op(node) {
        if node.kind == (ModuleNodeKind::Style { shape_input: true }) {
            Reading::Shape
        } else {
            let incoming = d.connections.filter(enters(id, "image"@));
            if incoming.len() > 1 {
                Reading::Nothing
            } else if incoming.len() == 1 {
                Reading::ImageOver { input: incoming[0] }
            } else {
                Reading::ImageAlone
            }
        }
    } else if node.kind != ModuleNodeKind::Merge || published_into(d, id) || !merge_inputs_ok(d, id) {
        Reading::Nothing
    } else {
        Reading::Merge { under: merge_input(d, id, 0), over: merge_input(d, id, 1) }
    }
}

/// The Appearance whose Image leaves port `source` over connection
/// `consumer`, and the Nodes visited after the parse, given those visited
/// before it; `None` where the graph there is no structured Appearance.
#[verifier::opaque]
pub open spec fn parsed_appearance(
    d: ModuleDefinitionView,
    source: ModulePortAddress,
    consumer: ModuleConnectionId,
    visited: Seq<ModuleNodeId>,
) -> (Option<ParsedView>, Seq<ModuleNodeId>)
    decreases unvisited(d, visited),
{
    let id = source.node_id;
    if source.port@ != "image"@ || visited.contains(id) {
        (None, visited)
    } else if !has_node(d, id) {
        (None, visited.push(id))
    } else {
        let v1 = visited.push(id);
        match reading(d, id, consumer) {
            Reading::Nothing => (None, v1),
            Reading::Shape => (shape_parsed(d, id, consumer), v1),
            Reading::ImageAlone => (Some(image_alone(id, consumer)), v1),
            Reading::ImageOver { input } => {
                proof {
                    lemma_unvisited_shrinks(d, visited, id);
                }
                let inner = parsed_appearance(d, input.from, input.id, v1);
                (image_step(inner.0, id, consumer), inner.1)
            },
            Reading::Merge { under, over } => {
                proof {
                    lemma_unvisited_shrinks(d, visited, id);
                }
                let prior = parsed_appearance(d, under.from, under.id, v1);
                (merge_step(prior.0, raster_parsed(d, over.from, over.id), id, consumer), prior.1)
            },
        }
    }
}

/// One step of the parse: `parsed_appearance` with what the Node reads
/// parsed by `parsed_appearance` again.
pub open spec fn parse_step(
    d: ModuleDefinitionView,
    source: ModulePortAddress,
    consumer: ModuleConnectionId,
    visited: Seq<ModuleNodeId>,
) -> (Option<ParsedView>, Seq<ModuleNodeId>)
{
    let id = source.node_id;
    if source.port@ != "image"@ || visited.contains(id) {
        (None, visited)
    } else if !has_node(d, id) {
        (None, visited.push(id))
    } else {
        let v1 = visited.push(id);
        match reading(d, id, consumer) {
            Reading::Nothing => (None, v1),
            Reading::Shape => (shape_parsed(d, id, consumer), v1),
            Reading::ImageAlone => (Some(image_alone(id, consumer)), v1),
            Reading::ImageOver { input } => {
                let inner = parsed_appearance(d, input.from, input.id, v1);
                (image_step(inner.0, id, consumer), inner.1)
            },
            Reading::Merge { under, over } => {
                let prior = parsed_appearance(d, under.from, under.id, v1);
                (merge_step(prior.0, raster_parsed(d, over.from, over.id), id, consumer), prior.1)
            },
        }
    }
}

/// `parsed_appearance` unfolded once.
pub proof fn lemma_parsed_appearance_step(
    d: ModuleDefinitionView,
    source: ModulePortAddress,
    consumer: ModuleConnectionId,
    visited: Seq<ModuleNodeId>,
)
    ensures
        parsed_appearance(d, source, consumer, visited) == parse_step(d, source, consumer, visited),
{
    reveal(parsed_appearance);
}

fn only_consumer_exec(definition: &ModuleDefinition, node_id: ModuleNodeId, expected: ModuleConnectionId) -> (r: bool)
    ensures
        r == only_consumer(definition@, node_id, expected),
{
    let out = connections_from(definition, node_id);
    out.len() == 1 && out[0].id == expected
}

fn published_into_exec(definition: &ModuleDefinition, node_id: ModuleNodeId) -> (r: bool)
    ensures
        r == published_into(definition@, node_id),
{
    for j in 0..definition.interface.media_inputs.len()
        invariant
            forall|x: int| 0 <= x < j ==> definition@.media_inputs[x].target.node_id != node_id,
    {
        if definition.interface.media_inputs[j].target.node_id == node_id {
            return true;
        }
    }
    false
}

fn shape_parse(definition: &ModuleDefinition, id: ModuleNodeId, consumer: ModuleConnectionId) -> (r: Option<ParsedAppearance>)
    ensures
        parsed_view(r) == shape_parsed(definition@, id, consumer),
{
    proof {
        reveal(shape_parsed);
    }
    let incoming = connections_into(definition, id, "shape");
    let shape = "shape".to_owned();
    if incoming.len() != 1 || !(incoming[0].from.port == shape) {
        return None;
    }
    let mut shape_links: Vec<ModuleConnectionId> = Vec::new();
    shape_links.push(incoming[0].id);
    let mut entries: Vec<ModuleNodeId> = Vec::new();
    entries.push(id);
    let mut topology_link_ids: Vec<ModuleConnectionId> = Vec::new();
    topology_link_ids.push(incoming[0].id);
    topology_link_ids.push(consumer);
    let r = ParsedAppearance {
        shape_source: Some(incoming[0].from.clone()),
        shape_links,
        entries,
        merge_node_ids: Vec::new(),
        topology_link_ids,
    };
    assert(r@.shape_links =~= seq![incoming@[0].id]);
    assert(r@.entries =~= seq![id]);
    assert(r@.merge_node_ids =~= Seq::<ModuleNodeId>::empty());
    assert(r@.topology_link_ids =~= seq![incoming@[0].id, consumer]);
    Some(r)
}

fn raster_parse(definition: &ModuleDefinition, source: &ModulePortAddress, consumer: ModuleConnectionId) -> (r: Option<
    ParsedAppearance,
>)
    ensures
        parsed_view(r) == raster_parsed(definition@, *source, consumer),
{
    proof {
        reveal(raster_parsed);
    }
    let image = "image".to_owned();
    if !(source.port == image) {
        return None;
    }
    let n = match crate::module_graph::find_node(definition, source.node_id) {
        None => return None,
        Some(n) => n,
    };
    let node = &definition.nodes[n];
    if !only_consumer_exec(definition, source.node_id, consumer) || !node.enabled || node.bypassed || node.kind
        != (ModuleNodeKind::Style { shape_input: true }) {
        return None;
    }
    shape_parse(definition, source.node_id, consumer)
}

fn merge_input_exec(images: &Vec<ModuleConnection>, order: i64) -> (r: ModuleConnection)
    requires
        images@.len() == 2,
    ensures
        r == (if images@[0].order == order {
            images@[0]
        } else {
            images@[1]
        }),
{
    if images[0].order == order {
        images[0].clone()
    } else {
        images[1].clone()
    }
}

/// The reading of Node `n` of `definition` consumed over `consumer`.
fn reading_exec(definition: &ModuleDefinition, n: usize, consumer: ModuleConnectionId) -> (r: Reading)
    requires
        n < definition@.nodes.len(),
        has_node(definition@, definition@.nodes[n as int].id),
        node_index(definition@, definition@.nodes[n as int].id) == n,
    ensures
        r == reading(definition@, definition@.nodes[n as int].id, consumer),
{
    proof {
        reveal(reading);
    }
    let node = &definition.nodes[n];
    let id = node.id;
    if !only_consumer_exec(definition, id, consumer) {
        return Reading::Nothing;
    }
    let is_style = match node.kind {
        ModuleNodeKind::Style { .. } => node.enabled && !node.bypassed,
        _ => false,
    };
    if is_style {
        if node.kind == (ModuleNodeKind::Style { shape_input: true }) {
            return Reading::Shape;
        }
        let incoming = connections_into(definition, id, "image");
        if incoming.len() > 1 {
            return Reading::Nothing;
        }
        if incoming.len() == 1 {
            return Reading::ImageOver { input: incoming[0].clone() };
        }
        return Reading::ImageAlone;
    }
    if node.kind != ModuleNodeKind::Merge || published_into_exec(definition, id) {
        return Reading::Nothing;
    }
    let all_in = connections_into_node(definition, id);
    let images = connections_into(definition, id, "images");
    if all_in.len() != 2 || images.len() != 2 {
        return Reading::Nothing;
    }
    let orders_ok = (images[0].order == 0 && images[1].order == 1) || (images[0].order == 1 && images[1].order == 0);
    if !orders_ok || images[0].blend_mode != BlendMode::Normal || images[1].blend_mode != BlendMode::Normal {
        return Reading::Nothing;
    }
    Reading::Merge { under: merge_input_exec(&images, 0), over: merge_input_exec(&images, 1) }
}

fn image_step_exec(inner: Option<ParsedAppearance>, id: ModuleNodeId, consumer: ModuleConnectionId) -> (r: Option<
    ParsedAppearance,
>)
    ensures
        parsed_view(r) == image_step(parsed_view(inner), id, consumer),
{
    proof {
        reveal(image_step);
    }
    match inner {
        None => None,
        Some(mut p) => {
            let ghost pv = p@;
            p.entries.push(id);
            p.topology_link_ids.push(consumer);
            assert(p@ == (ParsedView { entries: pv.entries.push(id), topology_link_ids: pv.topology_link_ids.push(consumer), ..pv }));
            Some(p)
        },
    }
}

fn image_alone_exec(id: ModuleNodeId, consumer: ModuleConnectionId) -> (r: ParsedAppearance)
    ensures
        r@ == image_alone(id, consumer),
{
    let mut entries: Vec<ModuleNodeId> = Vec::new();
    entries.push(id);
    let mut topology_link_ids: Vec<ModuleConnectionId> = Vec::new();
    topology_link_ids.push(consumer);
    let r = ParsedAppearance { shape_source: None, shape_links: Vec::new(), entries, merge_node_ids: Vec::new(), topology_link_ids };
    assert(r@.shape_links =~= Seq::<ModuleConnectionId>::empty());
    assert(r@.entries =~= seq![id]);
    assert(r@.merge_node_ids =~= Seq::<ModuleNodeId>::empty());
    assert(r@.topology_link_ids =~= seq![consumer]);
    r
}

fn merge_step_exec(
    prior: Option<ParsedAppearance>,
    raster: Option<ParsedAppearance>,
    id: ModuleNodeId,
    consumer: ModuleConnectionId,
) -> (r: Option<ParsedAppearance>)
    ensures
        parsed_view(r) == merge_step(parsed_view(prior), parsed_view(raster), id, consumer),
{
    proof {
        reveal(merge_step);
    }
    let mut p = match prior {
        None => return None,
        Some(p) => p,
    };
    let mut q = match raster {
        None => return None,
        Some(q) => q,
    };
    let same_source = match (&p.shape_source, &q.shape_source) {
        (Some(a), Some(b)) => crate::module_graph::same_port_exec(a, b),
        _ => true,
    };
    if p.shape_source.is_some() && q.shape_source.is_some() && !same_source {
        return None;
    }
    let ghost pv = p@;
    let ghost qv = q@;
    if p.shape_source.is_none() {
        p.shape_source = match &q.shape_source {
            Some(a) => Some(a.clone()),
            None => None,
        };
    }
    p.shape_links.append(&mut q.shape_links);
    p.entries.append(&mut q.entries);
    p.merge_node_ids.append(&mut q.merge_node_ids);
    p.merge_node_ids.push(id);
    p.topology_link_ids.append(&mut q.topology_link_ids);
    p.topology_link_ids.push(consumer);
    assert(p@.shape_links =~= pv.shape_links + qv.shape_links);
    assert(p@.entries =~= pv.entries + qv.entries);
    assert(p@.merge_node_ids =~= (pv.merge_node_ids + qv.merge_node_ids).push(id));
    assert(p@.topology_link_ids =~= (pv.topology_link_ids + qv.topology_link_ids).push(consumer));
    Some(p)
}

/// Recognises the structured Appearance whose Image leaves port `source`
/// over connection `consumer` (`parsed_appearance`), adding the Nodes it
/// visits to `visited`.
pub fn parse_appearance_source(
    definition: &ModuleDefinition,
    source: &ModulePortAddress,
    consumer: ModuleConnectionId,
    visited: &mut Vec<ModuleNodeId>,
) -> (r: Option<ParsedAppearance>)
    ensures
        parsed_view(r) == parsed_appearance(definition@, *source, consumer, old(visited)@).0,
        final(visited)@ == parsed_appearance(definition@, *source, consumer, old(visited)@).1,
    decreases unvisited(definition@, old(visited)@),
{
    let ghost d = definition@;
    let ghost before = visited@;
    proof {
        lemma_parsed_appearance_step(d, *source, consumer, before);
    }
    let id = source.node_id;
    let image = "image".to_owned();
    if !(source.port == image) || crate::module_graph::selection_contains(visited, id) {
        return None;
    }
    visited.push(id);
    let n = match crate::module_graph::find_node(definition, id) {
        None => return None,
        Some(n) => n,
    };
    proof {
        assert(d.nodes[n as int].id == id);
    }
    let rd = reading_exec(definition, n, consumer);
    assert(rd == reading(d, id, consumer));
    match rd {
        Reading::Nothing => None,
        Reading::Shape => shape_parse(definition, id, consumer),
        Reading::ImageAlone => Some(image_alone_exec(id, consumer)),
        Reading::ImageOver { input } => {
            proof {
                lemma_unvisited_shrinks(d, before, id);
            }
            let inner = parse_appearance_source(definition, &input.from, input.id, visited);
            image_step_exec(inner, id, consumer)
        },
        Reading::Merge { under, over } => {
            proof {
                lemma_unvisited_shrinks(d, before, id);
            }
            let prior = parse_appearance_source(definition, &under.from, under.id, visited);
            let raster = raster_parse(definition, &over.from, over.id);
            merge_step_exec(prior, raster, id, consumer)
        },
    }
}

} // verus!
