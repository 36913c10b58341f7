//! Topology edits of one Module definition: connecting, reconnecting,
//! re-blending and disconnecting ports. Every edit that changes the graph
//! advances the definition's topology revision; an edit that fails leaves
//! the definition exactly as it was.

use vstd::prelude::*;

use crate::ids::{ModuleConnectionId, ModuleNodeId, PublishedMediaInputId};
use crate::model::{
    BlendMode, ModuleConnection, ModuleDefinition, ModuleDefinitionView, ModuleNode, ModuleNodeKind, ModulePortAddress,
    PublishedMediaInput,
};
use crate::validation::{check_graph, connection_valid, graph_valid, has_node};

verus! {

/// Two port addresses name the same port.
pub open spec fn same_port(a: ModulePortAddress, b: ModulePortAddress) -> bool {
    a.node_id == b.node_id && a.port@ == b.port@
}

/// `d` with its connections replaced by `connections` and its topology
/// revision advanced.
pub open spec fn with_connections(d: ModuleDefinitionView, connections: Seq<ModuleConnection>) -> ModuleDefinitionView {
    ModuleDefinitionView { connections, topology_revision: (d.topology_revision + 1) as u64, ..d }
}

/// Some connection of `d` has identity `id`.
pub open spec fn has_connection(d: ModuleDefinitionView, id: ModuleConnectionId) -> bool {
    exists|c: int| 0 <= c < d.connections.len() && d.connections[c].id == id
}

/// The first connection of `d` with identity `id`.
pub open spec fn connection_index(d: ModuleDefinitionView, id: ModuleConnectionId) -> int {
    choose|c: int|
        0 <= c < d.connections.len() && d.connections[c].id == id && forall|e: int| 0 <= e < c ==> d.connections[e].id != id
}

pub(crate) fn same_port_exec(a: &ModulePortAddress, b: &ModulePortAddress) -> (r: bool)
    ensures
        r == same_port(*a, *b),
{
    a.node_id == b.node_id && a.port == b.port
}

fn find_connection(definition: &ModuleDefinition, id: ModuleConnectionId) -> (r: Option<usize>)
    ensures
        match r {
            Some(c) => has_connection(definition@, id) && c == connection_index(definition@, id) && c < definition@.connections.len()
                && definition@.connections[c as int].id == id,
            None => !has_connection(definition@, id),
        },
{
    for c in 0..definition.connections.len()
        invariant
            forall|e: int| 0 <= e < c ==> definition@.connections[e].id != id,
    {
        if definition.connections[c].id == id {
            proof {
                let d = definition@;
                let k = connection_index(d, id);
                assert(0 <= c < d.connections.len() && d.connections[c as int].id == id && forall|e: int|
                    0 <= e < c ==> d.connections[e].id != id);
                if k < c {
                    assert(d.connections[k].id != id);
                } else if k > c {
                    assert(d.connections[c as int].id != id);
                }
            }
            return Some(c);
        }
    }
    None
}

impl ModuleDefinition {
    /// Checks the definition's graph.
    pub fn validate(&self) -> (r: Result<(), String>)
        ensures
            r is Ok <==> graph_valid(self@),
    {
        check_graph(self)
    }
}

/// Advances the topology revision; refused when it cannot advance.
pub fn bump_topology_revision(definition: &mut ModuleDefinition) -> (r: Result<(), String>)
    ensures
        r is Ok <==> old(definition).topology_revision < u64::MAX,
        r is Ok ==> final(definition)@ == (ModuleDefinitionView {
            topology_revision: (old(definition).topology_revision + 1) as u64,
            ..old(definition)@
        }),
        r is Err ==> *final(definition) == *old(definition),
{
    if definition.topology_revision == u64::MAX {
        return Err("Module topology revision overflow".to_owned());
    }
    definition.topology_revision = definition.topology_revision + 1;
    Ok(())
}

/// Adds connection `connection_id` from `from` to `to` at input order
/// `order`, blending normally.
pub fn connect_definition_ports_with_id(
    definition: &mut ModuleDefinition,
    from: ModulePortAddress,
    to: ModulePortAddress,
    order: i64,
    connection_id: ModuleConnectionId,
) -> (r: Result<(), String>)
    ensures
        r is Ok <==> old(definition).topology_revision < u64::MAX,
        r is Ok ==> final(definition)@ == with_connections(
            old(definition)@,
            old(definition)@.connections.push(
                ModuleConnection { id: connection_id, from, to, order, blend_mode: BlendMode::Normal },
            ),
        ),
        r is Err ==> final(definition)@ == old(definition)@,
{
    if definition.topology_revision == u64::MAX {
        return Err("Module topology revision overflow".to_owned());
    }
    let ghost connection = ModuleConnection { id: connection_id, from, to, order, blend_mode: BlendMode::Normal };
    definition.connections.push(ModuleConnection { id: connection_id, from, to, order, blend_mode: BlendMode::Normal });
    definition.topology_revision = definition.topology_revision + 1;
    Ok(())
}

/// Adds a connection with a fresh identity and returns it.
pub fn connect_definition_ports(
    definition: &mut ModuleDefinition,
    from: ModulePortAddress,
    to: ModulePortAddress,
    order: i64,
) -> (r: Result<ModuleConnectionId, String>)
    ensures
        r is Ok <==> old(definition).topology_revision < u64::MAX,
        r matches Ok(connection_id) ==> final(definition)@ == with_connections(
            old(definition)@,
            old(definition)@.connections.push(
                ModuleConnection { id: connection_id, from, to, order, blend_mode: BlendMode::Normal },
            ),
        ),
        r is Err ==> final(definition)@ == old(definition)@,
{
    let connection_id = ModuleConnectionId::new();
    connect_definition_ports_with_id(definition, from, to, order, connection_id)?;
    Ok(connection_id)
}

/// Connection `c` with endpoints `from` and `to`; identity, input order and
/// blend are kept.
pub open spec fn reconnected(c: ModuleConnection, from: ModulePortAddress, to: ModulePortAddress) -> ModuleConnection {
    ModuleConnection { from, to, ..c }
}

/// Moves either endpoint of connection `connection_id`. Identity, input
/// order and blend survive; the resulting graph must be valid. When the
/// endpoints do not change, nothing changes.
pub fn reconnect_definition_connection(
    definition: &mut ModuleDefinition,
    connection_id: ModuleConnectionId,
    from: ModulePortAddress,
    to: ModulePortAddress,
) -> (r: Result<(), String>)
    ensures
        ({
            let d = old(definition)@;
            let c = connection_index(d, connection_id);
            let unchanged_endpoints = same_port(d.connections[c].from, from) && same_port(d.connections[c].to, to);
            let next = with_connections(d, d.connections.update(c, reconnected(d.connections[c], from, to)));
            &&& r is Ok <==> has_connection(d, connection_id) && (unchanged_endpoints || (graph_valid(next)
                && d.topology_revision < u64::MAX))
            &&& r is Ok && unchanged_endpoints ==> final(definition)@ == d
            &&& r is Ok && !unchanged_endpoints ==> final(definition)@ == next
            &&& r is Err ==> final(definition)@ == d
        }),
{
    let ghost d = definition@;
    let c = match find_connection(definition, connection_id) {
        None => {
            return Err(crate::ids::text_with_id("Missing Module connection ", connection_id.0));
        },
        Some(c) => c,
    };
    if same_port_exec(&definition.connections[c].from, &from) && same_port_exec(&definition.connections[c].to, &to) {
        return Ok(());
    }
    if definition.topology_revision == u64::MAX {
        return Err("Module topology revision overflow".to_owned());
    }
    let previous = definition.connections[c].clone();
    let mut next = definition.connections[c].clone();
    next.from = from;
    next.to = to;
    let ghost next_view = next;
    definition.connections.set(c, next);
    definition.topology_revision = definition.topology_revision + 1;
    assert(definition@ == with_connections(d, d.connections.update(c as int, next_view)));
    if let Err(error) = check_graph(definition) {
        definition.connections.set(c, previous);
        definition.topology_revision = definition.topology_revision - 1;
        assert(definition@.connections =~= d.connections);
        return Err(error);
    }
    Ok(())
}

/// Gives connection `connection_id` blend `blend_mode`. When the blend does
/// not change, nothing changes.
pub fn set_definition_connection_blend_mode(
    definition: &mut ModuleDefinition,
    connection_id: ModuleConnectionId,
    blend_mode: BlendMode,
) -> (r: Result<(), String>)
    ensures
        ({
            let d = old(definition)@;
            let c = connection_index(d, connection_id);
            let same = d.connections[c].blend_mode == blend_mode;
            let next = with_connections(d, d.connections.update(c, ModuleConnection { blend_mode, ..d.connections[c] }));
            &&& r is Ok <==> has_connection(d, connection_id) && (same || (graph_valid(next)
                && d.topology_revision < u64::MAX))
            &&& r is Ok && same ==> final(definition)@ == d
            &&& r is Ok && !same ==> final(definition)@ == next
            &&& r is Err ==> final(definition)@ == d
            &&& graph_valid(d) && has_connection(d, connection_id) ==> graph_valid(next)
        }),
{
    let ghost d = definition@;
    let c = match find_connection(definition, connection_id) {
        None => {
            return Err(crate::ids::text_with_id("Missing Module connection ", connection_id.0));
        },
        Some(c) => c,
    };
    proof {
        let next = with_connections(
            d,
            d.connections.update(c as int, ModuleConnection { blend_mode, ..d.connections[c as int] }),
        );
        if graph_valid(d) {
            assert forall|x: int| 0 <= x < next.connections.len() implies #[trigger] connection_valid(next, x) by {
                assert(connection_valid(d, x));
                assert(next.nodes == d.nodes);
            }
        }
    }
    if definition.connections[c].blend_mode == blend_mode {
        return Ok(());
    }
    if definition.topology_revision == u64::MAX {
        return Err("Module topology revision overflow".to_owned());
    }
    let previous = definition.connections[c].clone();
    let mut next = definition.connections[c].clone();
    next.blend_mode = blend_mode;
    let ghost next_view = next;
    definition.connections.set(c, next);
    definition.topology_revision = definition.topology_revision + 1;
    assert(definition@ == with_connections(d, d.connections.update(c as int, next_view)));
    if let Err(error) = check_graph(definition) {
        definition.connections.set(c, previous);
        definition.topology_revision = definition.topology_revision - 1;
        assert(definition@.connections =~= d.connections);
        return Err(error);
    }
    Ok(())
}

/// Connection `e` after connection `removed` leaves the inputs of its
/// target port: later inputs of that port move up by one.
pub open spec fn after_disconnect(e: ModuleConnection, removed: ModuleConnection) -> ModuleConnection {
    if same_port(e.to, removed.to) && e.order > removed.order {
        ModuleConnection { order: (e.order - 1) as i64, ..e }
    } else {
        e
    }
}

fn close_input_order(connections: &Vec<ModuleConnection>, removed: &ModuleConnection) -> (r: Vec<ModuleConnection>)
    ensures
        r@ == connections@.map_values(|e: ModuleConnection| after_disconnect(e, *removed)),
{
    let mut out: Vec<ModuleConnection> = Vec::new();
    for k in 0..connections.len()
        invariant
            out@.len() == k,
            forall|m: int| 0 <= m < k ==> #[trigger] out@[m] == after_disconnect(connections@[m], *removed),
    {
        let mut next = connections[k].clone();
        if same_port_exec(&next.to, &removed.to) && next.order > removed.order {
            next.order = next.order - 1;
        }
        out.push(next);
    }
    assert(out@ =~= connections@.map_values(|e: ModuleConnection| after_disconnect(e, *removed)));
    out
}

/// Removes connection `connection_id` and closes the input order of its
/// target port.
pub fn disconnect_definition_connection(definition: &mut ModuleDefinition, connection_id: ModuleConnectionId) -> (r:
    Result<(), String>)
    ensures
        ({
            let d = old(definition)@;
            let c = connection_index(d, connection_id);
            &&& r is Ok <==> has_connection(d, connection_id) && d.topology_revision < u64::MAX
            &&& r is Ok ==> final(definition)@ == with_connections(
                d,
                d.connections.remove(c).map_values(|e: ModuleConnection| after_disconnect(e, d.connections[c])),
            )
            &&& r is Err ==> final(definition)@ == d
        }),
{
    let ghost d = definition@;
    let c = match find_connection(definition, connection_id) {
        None => {
            return Err(crate::ids::text_with_id("Missing Module connection ", connection_id.0));
        },
        Some(c) => c,
    };
    if definition.topology_revision == u64::MAX {
        return Err("Module topology revision overflow".to_owned());
    }
    let removed = definition.connections.remove(c);
    assert(definition@.connections =~= d.connections.remove(c as int));
    let closed = close_input_order(&definition.connections, &removed);
    definition.connections = closed;
    definition.topology_revision = definition.topology_revision + 1;
    Ok(())
}

/// The first Node of `d` with identity `node_id`.
pub open spec fn node_index(d: ModuleDefinitionView, node_id: ModuleNodeId) -> int {
    choose|n: int| 0 <= n < d.nodes.len() && d.nodes[n].id == node_id && forall|e: int| 0 <= e < n ==> d.nodes[e].id != node_id
}

/// Node `node_id` of `d` can take these switches: it exists, an Output
/// Node stays enabled and not bypassed, and the topology revision can
/// advance.
pub open spec fn node_state_allowed(d: ModuleDefinitionView, node_id: ModuleNodeId, enabled: bool, bypassed: bool) -> bool {
    &&& has_node(d, node_id)
    &&& d.nodes[node_index(d, node_id)].kind == ModuleNodeKind::Output ==> enabled && !bypassed
    &&& d.topology_revision < u64::MAX
}

/// `d` with Node `node_id` renamed and switched, and its topology revision
/// advanced.
pub open spec fn with_node_state(
    d: ModuleDefinitionView,
    node_id: ModuleNodeId,
    name: String,
    enabled: bool,
    bypassed: bool,
) -> ModuleDefinitionView {
    let n = node_index(d, node_id);
    ModuleDefinitionView {
        nodes: d.nodes.update(n, ModuleNode { name, enabled, bypassed, ..d.nodes[n] }),
        topology_revision: (d.topology_revision + 1) as u64,
        ..d
    }
}

/// Renaming, switching or bypassing a Node keeps a consistent graph
/// consistent.
#[verifier::rlimit(50)]
proof fn lemma_node_state_keeps_graph(d: ModuleDefinitionView, node_id: ModuleNodeId, name: String, enabled: bool, bypassed: bool)
    requires
        graph_valid(d),
        0 <= node_index(d, node_id) < d.nodes.len(),
    ensures
        graph_valid(with_node_state(d, node_id, name, enabled, bypassed)),
{
    let e = with_node_state(d, node_id, name, enabled, bypassed);
    assert(e.nodes.len() == d.nodes.len() && e.connections == d.connections && e.outputs == d.outputs);
    assert forall|i: int| 0 <= i < e.nodes.len() implies #[trigger] e.nodes[i].id == d.nodes[i].id by {}
    assert forall|i: int, j: int| 0 <= i < e.nodes.len() && 0 <= j < e.nodes.len() && i != j implies e.nodes[i].id
        != e.nodes[j].id by {
        assert(d.nodes[i].id != d.nodes[j].id);
    }
    assert forall|x: ModuleNodeId| #[trigger] has_node(e, x) == has_node(d, x) by {
        if has_node(d, x) {
            let i = choose|i: int| 0 <= i < d.nodes.len() && d.nodes[i].id == x;
            assert(e.nodes[i].id == x);
        }
        if has_node(e, x) {
            let i = choose|i: int| 0 <= i < e.nodes.len() && e.nodes[i].id == x;
            assert(d.nodes[i].id == x);
        }
    }
    assert forall|c: int| 0 <= c < e.connections.len() implies #[trigger] connection_valid(e, c) by {
        assert(connection_valid(d, c));
    }
    assert forall|o: int| 0 <= o < e.outputs.len() implies has_node(e, #[trigger] e.outputs[o].node_id) by {
        assert(has_node(d, d.outputs[o].node_id));
    }
}

pub(crate) fn find_node(definition: &ModuleDefinition, node_id: ModuleNodeId) -> (r: Option<usize>)
    ensures
        match r {
            Some(n) => has_node(definition@, node_id) && n == node_index(definition@, node_id) && n < definition@.nodes.len()
                && definition@.nodes[n as int].id == node_id,
            None => !has_node(definition@, node_id),
        },
{
    for n in 0..definition.nodes.len()
        invariant
            forall|e: int| 0 <= e < n ==> definition@.nodes[e].id != node_id,
    {
        if definition.nodes[n].id == node_id {
            proof {
                let d = definition@;
                let k = node_index(d, node_id);
                assert(0 <= n < d.nodes.len() && d.nodes[n as int].id == node_id && forall|e: int|
                    0 <= e < n ==> d.nodes[e].id != node_id);
                if k < n {
                    assert(d.nodes[k].id != node_id);
                } else if k > n {
                    assert(d.nodes[n as int].id != node_id);
                }
            }
            return Some(n);
        }
    }
    None
}

/// Renames Node `node_id` and sets whether it is enabled and bypassed. The
/// required Output Node cannot be disabled or bypassed.
pub fn set_definition_node_state(
    definition: &mut ModuleDefinition,
    node_id: ModuleNodeId,
    name: String,
    enabled: bool,
    bypassed: bool,
) -> (r: Result<(), String>)
    ensures
        r is Ok <==> node_state_allowed(old(definition)@, node_id, enabled, bypassed),
        r is Ok ==> final(definition)@ == with_node_state(old(definition)@, node_id, name, enabled, bypassed),
        r is Err ==> final(definition)@ == old(definition)@,
        r is Ok && graph_valid(old(definition)@) ==> graph_valid(final(definition)@),
{
    let ghost d = definition@;
    let n = match find_node(definition, node_id) {
        None => {
            return Err(crate::ids::text_with_id("Missing Module Node ", node_id.0));
        },
        Some(n) => n,
    };
    if definition.nodes[n].kind == ModuleNodeKind::Output && (!enabled || bypassed) {
        return Err("A Module Output Node cannot be disabled or bypassed".to_owned());
    }
    if definition.topology_revision == u64::MAX {
        return Err("Module topology revision overflow".to_owned());
    }
    let node = ModuleNode {
        id: definition.nodes[n].id,
        name,
        kind: definition.nodes[n].kind,
        enabled,
        bypassed,
    };
    definition.nodes.set(n, node);
    definition.topology_revision = definition.topology_revision + 1;
    assert(definition@.nodes =~= with_node_state(d, node_id, name, enabled, bypassed).nodes);
    proof {
        if graph_valid(d) {
            lemma_node_state_keeps_graph(d, node_id, name, enabled, bypassed);
        }
    }
    Ok(())
}

/// Node `node` can join `d`: it is not an Output Node, which only a
/// definition's factory creates, its identity is new to `d`, and the
/// topology revision can advance.
pub open spec fn node_insert_allowed(d: ModuleDefinitionView, node: ModuleNode) -> bool {
    &&& node.kind != ModuleNodeKind::Output
    &&& !has_node(d, node.id)
    &&& d.topology_revision < u64::MAX
}

/// `d` with Node `node` added and its topology revision advanced.
pub open spec fn with_node(d: ModuleDefinitionView, node: ModuleNode) -> ModuleDefinitionView {
    ModuleDefinitionView { nodes: d.nodes.push(node), topology_revision: (d.topology_revision + 1) as u64, ..d }
}

/// Adds processing Node `node` to the definition and returns its identity.
pub fn add_node_to_definition(definition: &mut ModuleDefinition, node: ModuleNode) -> (r: Result<ModuleNodeId, String>)
    ensures
        r is Ok <==> node_insert_allowed(old(definition)@, node),
        r matches Ok(id) ==> id == node.id && final(definition)@ == with_node(old(definition)@, node),
        r is Err ==> final(definition)@ == old(definition)@,
{
    let ghost d = definition@;
    let ghost added = node;
    if node.kind == ModuleNodeKind::Output {
        return Err(
            "Dedicated Output Nodes are created by the Module definition factory, not the ordinary Node catalog".to_owned(),
        );
    }
    let node_id = node.id;
    if find_node(definition, node_id).is_some() {
        return Err(crate::ids::text_with_id("Module Node already exists: ", node_id.0));
    }
    if definition.topology_revision == u64::MAX {
        return Err("Module topology revision overflow".to_owned());
    }
    definition.nodes.push(node);
    definition.topology_revision = definition.topology_revision + 1;
    assert(definition@.nodes =~= d.nodes.push(added));
    Ok(node_id)
}


// ---------------------------------------------------------------------------
// Deleting a selection of Nodes
// ---------------------------------------------------------------------------

/// A Node outside the selection `ids`.
pub open spec fn node_kept(ids: Seq<ModuleNodeId>) -> spec_fn(ModuleNode) -> bool {
    |n: ModuleNode| !ids.contains(n.id)
}

/// A connection with neither end in the selection `ids`.
pub open spec fn connection_kept(ids: Seq<ModuleNodeId>) -> spec_fn(ModuleConnection) -> bool {
    |c: ModuleConnection| !ids.contains(c.from.node_id) && !ids.contains(c.to.node_id)
}

/// A published media input whose target Node is in the selection `ids`.
pub open spec fn media_input_dropped(ids: Seq<ModuleNodeId>) -> spec_fn(PublishedMediaInput) -> bool {
    |m: PublishedMediaInput| ids.contains(m.target.node_id)
}

/// A published media input whose target Node is outside the selection `ids`.
pub open spec fn media_input_kept(ids: Seq<ModuleNodeId>) -> spec_fn(PublishedMediaInput) -> bool {
    |m: PublishedMediaInput| !ids.contains(m.target.node_id)
}

/// The identity of a published media input.
pub open spec fn media_input_id() -> spec_fn(PublishedMediaInput) -> PublishedMediaInputId {
    |m: PublishedMediaInput| m.id
}

/// Deleting the selection `ids` takes something out of the published
/// interface of `d`.
pub open spec fn removal_touches_interface(d: ModuleDefinitionView, ids: Seq<ModuleNodeId>) -> bool {
    exists|j: int| 0 <= j < d.media_inputs.len() && ids.contains(#[trigger] d.media_inputs[j].target.node_id)
}

/// The selection `ids` can be deleted from `d`: it names at least one
/// Node, none twice, each an existing Node other than the required Output
/// Node, and the revisions the deletion advances can advance.
pub open spec fn node_removal_allowed(d: ModuleDefinitionView, ids: Seq<ModuleNodeId>) -> bool {
    &&& selection_removable(d, ids)
    &&& d.topology_revision < u64::MAX
    &&& removal_touches_interface(d, ids) ==> d.interface_version < u64::MAX
}

/// `d` without the Nodes of `ids`, the connections that touch them and the
/// published media inputs that target them; the topology revision
/// advances, and the interface version does when the interface changed.
pub open spec fn without_nodes(d: ModuleDefinitionView, ids: Seq<ModuleNodeId>) -> ModuleDefinitionView {
    ModuleDefinitionView {
        nodes: d.nodes.filter(node_kept(ids)),
        connections: d.connections.filter(connection_kept(ids)),
        media_inputs: d.media_inputs.filter(media_input_kept(ids)),
        topology_revision: (d.topology_revision + 1) as u64,
        interface_version: if removal_touches_interface(d, ids) {
            (d.interface_version + 1) as u64
        } else {
            d.interface_version
        },
        ..d
    }
}

/// One more element of `s` filtered by `pred`.
pub proof fn lemma_filter_step<A>(s: Seq<A>, k: int, pred: spec_fn(A) -> bool)
    requires
        0 <= k < s.len(),
    ensures
        s.take(k + 1).filter(pred) == if pred(s[k]) {
            s.take(k).filter(pred).push(s[k])
        } else {
            s.take(k).filter(pred)
        },
{
    let next = s.take(k + 1);
    assert(next.drop_last() =~= s.take(k));
    reveal(Seq::filter);
}

/// The published interface entries a Node deletion took out.
#[derive(Debug)]
pub struct RemovedInterfaceEntries {
    pub media_input_ids: Vec<PublishedMediaInputId>,
}

pub(crate) fn selection_contains(ids: &Vec<ModuleNodeId>, id: ModuleNodeId) -> (r: bool)
    ensures
        r == ids@.contains(id),
{
    for i in 0..ids.len()
        invariant
            forall|j: int| 0 <= j < i ==> ids@[j] != id,
    {
        if ids[i] == id {
            assert(ids@[i as int] == id);
            return true;
        }
    }
    false
}

/// Node `node_id` exists in `d` and is not the required Output Node.
#[verifier::opaque]
pub open spec fn node_removable(d: ModuleDefinitionView, node_id: ModuleNodeId) -> bool {
    has_node(d, node_id) && d.nodes[node_index(d, node_id)].kind != ModuleNodeKind::Output
}

/// The selection `ids` names at least one Node, none twice, each an
/// existing Node of `d` other than the required Output Node.
#[verifier::opaque]
pub open spec fn selection_removable(d: ModuleDefinitionView, ids: Seq<ModuleNodeId>) -> bool {
    &&& ids.len() > 0
    &&& ids.no_duplicates()
    &&& forall|i: int| 0 <= i < ids.len() ==> node_removable(d, #[trigger] ids[i])
}

proof fn lemma_node_removable(d: ModuleDefinitionView, id: ModuleNodeId, n: int)
    requires
        has_node(d, id),
        n == node_index(d, id),
    ensures
        node_removable(d, id) == (d.nodes[n].kind != ModuleNodeKind::Output),
{
    reveal(node_removable);
}

proof fn lemma_node_missing(d: ModuleDefinitionView, id: ModuleNodeId)
    requires
        !has_node(d, id),
    ensures
        !node_removable(d, id),
{
    reveal(node_removable);
}

proof fn lemma_repeat_refutes(d: ModuleDefinitionView, ids: Seq<ModuleNodeId>, b: int, i: int)
    requires
        0 <= b < i < ids.len(),
        ids[b] == ids[i],
    ensures
        !selection_removable(d, ids),
{
    reveal(selection_removable);
}

proof fn lemma_unremovable_refutes(d: ModuleDefinitionView, ids: Seq<ModuleNodeId>, i: int)
    requires
        0 <= i < ids.len(),
        !node_removable(d, ids[i]),
    ensures
        !selection_removable(d, ids),
{
    reveal(selection_removable);
}

proof fn lemma_selection_removable(d: ModuleDefinitionView, ids: Seq<ModuleNodeId>)
    requires
        ids.len() > 0,
        ids.take(ids.len() as int).no_duplicates(),
        forall|a: int| 0 <= a < ids.len() ==> node_removable(d, #[trigger] ids[a]),
    ensures
        selection_removable(d, ids),
{
    reveal(selection_removable);
    assert(ids.take(ids.len() as int) =~= ids);
}

/// Where `id` occurs among the first `upto` entries of `ids`, if it does.
pub(crate) fn position_before(ids: &Vec<ModuleNodeId>, id: ModuleNodeId, upto: usize) -> (r: Option<usize>)
    requires
        upto <= ids@.len(),
    ensures
        r matches Some(b) ==> b < upto && ids@[b as int] == id,
        r is None ==> absent_before(ids@, id, upto as int),
{
    for j in 0..upto
        invariant
            upto <= ids@.len(),
            forall|b: int| 0 <= b < j ==> ids@[b] != id,
    {
        if ids[j] == id {
            return Some(j);
        }
    }
    proof {
        reveal(absent_before);
    }
    None
}

/// `id` is none of the first `upto` entries of `ids`.
#[verifier::opaque]
pub open spec fn absent_before(ids: Seq<ModuleNodeId>, id: ModuleNodeId, upto: int) -> bool {
    forall|b: int| 0 <= b < upto ==> ids[b] != id
}

/// A prefix without repeats stays so when the next entry is new to it.
proof fn lemma_take_no_duplicates_step(s: Seq<ModuleNodeId>, i: int)
    requires
        0 <= i < s.len(),
        s.take(i).no_duplicates(),
        absent_before(s, s[i], i),
    ensures
        s.take(i + 1).no_duplicates(),
{
    reveal(absent_before);
    let t = s.take(i + 1);
    let u = s.take(i);
    assert forall|a: int, b: int| 0 <= a < t.len() && 0 <= b < t.len() && a != b implies t[a] != t[b] by {
        if a < i && b < i {
            assert(u[a] == t[a] && u[b] == t[b]);
        } else if a == i {
            assert(t[b] == s[b]);
        } else {
            assert(t[a] == s[a]);
        }
    }
}

/// Checks the selection `ids` for deletion from `definition`, in the order
/// the selection lists it.
#[verifier::rlimit(30)]
fn check_node_selection(definition: &ModuleDefinition, ids: &Vec<ModuleNodeId>) -> (r: Result<(), String>)
    ensures
        r is Ok <==> selection_removable(definition@, ids@),
{
    if ids.len() == 0 {
        proof {
            reveal(selection_removable);
        }
        return Err("At least one Module Node must be selected for deletion".to_owned());
    }
    for i in 0..ids.len()
        invariant
            ids@.take(i as int).no_duplicates(),
            forall|a: int| 0 <= a < i ==> node_removable(definition@, #[trigger] ids@[a]),
    {
        let id = ids[i];
        if let Some(b) = position_before(ids, id, i) {
            proof {
                lemma_repeat_refutes(definition@, ids@, b as int, i as int);
            }
            return Err("Module Node deletion contains duplicate IDs".to_owned());
        }
        match find_node(definition, id) {
            Some(n) => {
                if definition.nodes[n].kind == ModuleNodeKind::Output {
                    proof {
                        lemma_node_removable(definition@, id, n as int);
                        lemma_unremovable_refutes(definition@, ids@, i as int);
                    }
                    return Err(crate::ids::append_text(
                        crate::ids::text_with_id("Module Output Node ", id.0),
                        " is a required render terminal and cannot be deleted",
                    ));
                }
                proof {
                    lemma_node_removable(definition@, id, n as int);
                }
            },
            None => {
                proof {
                    lemma_node_missing(definition@, id);
                    lemma_unremovable_refutes(definition@, ids@, i as int);
                }
                return Err(crate::ids::text_with_id("Missing Module Node ", id.0));
            },
        }
        proof {
            lemma_take_no_duplicates_step(ids@, i as int);
        }
    }
    proof {
        lemma_selection_removable(definition@, ids@);
    }
    Ok(())
}

/// Deletes the selection `ids` of Nodes from `definition`, with the
/// connections that touch them and the published media inputs that target
/// them, as one topology edit; returns the identities of the media inputs
/// it took out.
pub fn remove_nodes_from_definition(definition: &mut ModuleDefinition, ids: &Vec<ModuleNodeId>) -> (r: Result<
    RemovedInterfaceEntries,
    String,
>)
    ensures
        r is Ok <==> node_removal_allowed(old(definition)@, ids@),
        r matches Ok(removed) ==> final(definition)@ == without_nodes(old(definition)@, ids@) && removed.media_input_ids@
            == old(definition)@.media_inputs.filter(media_input_dropped(ids@)).map_values(media_input_id()),
        r is Err ==> final(definition)@ == old(definition)@,
{
    let ghost d = definition@;
    let ghost sel = ids@;
    check_node_selection(definition, ids)?;
    let mut kept_inputs: Vec<PublishedMediaInput> = Vec::new();
    let mut removed: Vec<PublishedMediaInputId> = Vec::new();
    let mut touched = false;
    for k in 0..definition.interface.media_inputs.len()
        invariant
            d == definition@,
            sel == ids@,
            kept_inputs@ == d.media_inputs.take(k as int).filter(media_input_kept(sel)),
            removed@ == d.media_inputs.take(k as int).filter(media_input_dropped(sel)).map_values(media_input_id()),
            touched == exists|j: int| 0 <= j < k && sel.contains(#[trigger] d.media_inputs[j].target.node_id),
    {
        let input = definition.interface.media_inputs[k].clone();
        proof {
            lemma_filter_step(d.media_inputs, k as int, media_input_kept(sel));
            lemma_filter_step(d.media_inputs, k as int, media_input_dropped(sel));
        }
        let ghost before_removed = d.media_inputs.take(k as int).filter(media_input_dropped(sel));
        if selection_contains(ids, input.target.node_id) {
            let ghost m = input;
            removed.push(input.id);
            touched = true;
            assert(before_removed.push(m).map_values(media_input_id()) =~= before_removed.map_values(media_input_id()).push(m.id));
        } else {
            kept_inputs.push(input);
            assert(forall|j: int| 0 <= j < k + 1 && sel.contains(#[trigger] d.media_inputs[j].target.node_id) ==> j < k);
        }
    }
    assert(d.media_inputs.take(d.media_inputs.len() as int) =~= d.media_inputs);
    assert(touched == removal_touches_interface(d, sel));
    if definition.topology_revision == u64::MAX {
        return Err("Module topology revision overflow".to_owned());
    }
    if touched && definition.interface_version == u64::MAX {
        return Err("Module interface version overflow".to_owned());
    }
    let mut kept_nodes: Vec<ModuleNode> = Vec::new();
    for k in 0..definition.nodes.len()
        invariant
            d == definition@,
            sel == ids@,
            kept_nodes@ == d.nodes.take(k as int).filter(node_kept(sel)),
    {
        proof {
            lemma_filter_step(d.nodes, k as int, node_kept(sel));
        }
        if !selection_contains(ids, definition.nodes[k].id) {
            kept_nodes.push(definition.nodes[k].clone());
        }
    }
    assert(d.nodes.take(d.nodes.len() as int) =~= d.nodes);
    let mut kept_connections: Vec<ModuleConnection> = Vec::new();
    for k in 0..definition.connections.len()
        invariant
            d == definition@,
            sel == ids@,
            kept_connections@ == d.connections.take(k as int).filter(connection_kept(sel)),
    {
        proof {
            lemma_filter_step(d.connections, k as int, connection_kept(sel));
        }
        let c = &definition.connections[k];
        if !selection_contains(ids, c.from.node_id) && !selection_contains(ids, c.to.node_id) {
            kept_connections.push(c.clone());
        }
    }
    assert(d.connections.take(d.connections.len() as int) =~= d.connections);
    definition.nodes = kept_nodes;
    definition.connections = kept_connections;
    definition.interface.media_inputs = kept_inputs;
    definition.topology_revision = definition.topology_revision + 1;
    if touched {
        definition.interface_version = definition.interface_version + 1;
    }
    assert(definition@ == without_nodes(d, sel));
    Ok(RemovedInterfaceEntries { media_input_ids: removed })
}

} // verus!
