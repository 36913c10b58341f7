//! Copying a selection of processing Nodes out of the definition an
//! instance uses: the Nodes, and the connections between them.

use vstd::prelude::*;

use crate::ids::{ModuleConnectionId, ModuleDefinitionId, ModuleInstanceId, ModuleNodeId};
use crate::model::{
    AuthoringProject, ModuleConnection, ModuleDefinition, ModuleDefinitionView, ModuleNode, ModuleNodeKind, ModulePortAddress,
    ProjectView,
};
use crate::module::{
    definition_of, instance_definition, instance_edit_done, instance_edit_outcome, instance_resolves, privatized_id,
};
use crate::service::{unchanged, ChangeSet, LibraryError, ProjectInvalidation, TimelineEditorService};
use crate::owners::{invocation_owner, invocation_owners};
use crate::validation::has_node;

verus! {

/// The clipboard format's version.
pub const CLIPBOARD_VERSION: u32 = 1;

/// A copied selection: processing Nodes in ascending identity order, and
/// the connections whose both ends are among them. Published media inputs
/// and their bindings stay with the host.
pub struct ModuleSelectionClipboard {
    pub version: u32,
    pub nodes: Vec<ModuleNode>,
    pub connections: Vec<ModuleConnection>,
}

/// A selected processing Node.
pub open spec fn node_captured(sel: Seq<ModuleNodeId>) -> spec_fn(ModuleNode) -> bool {
    |n: ModuleNode| sel.contains(n.id) && n.kind != ModuleNodeKind::Output
}

/// The selected processing Nodes of `d`, in definition order.
pub open spec fn captured_nodes(d: ModuleDefinitionView, sel: Seq<ModuleNodeId>) -> Seq<ModuleNode> {
    d.nodes.filter(node_captured(sel))
}

/// The identity of a Node.
pub open spec fn node_id_of() -> spec_fn(ModuleNode) -> ModuleNodeId {
    |n: ModuleNode| n.id
}

/// A connection whose both ends are among `ids`.
pub open spec fn connection_inside(ids: Seq<ModuleNodeId>) -> spec_fn(ModuleConnection) -> bool {
    |c: ModuleConnection| ids.contains(c.from.node_id) && ids.contains(c.to.node_id)
}

/// The connections of `d` between the selected processing Nodes.
pub open spec fn captured_connections(d: ModuleDefinitionView, sel: Seq<ModuleNodeId>) -> Seq<ModuleConnection> {
    d.connections.filter(connection_inside(captured_nodes(d, sel).map_values(node_id_of())))
}

/// Nodes in ascending identity order.
pub open spec fn nodes_ascending(s: Seq<ModuleNode>) -> bool {
    forall|a: int, b: int| 0 <= a < b < s.len() ==> (#[trigger] s[a]).id.0 <= (#[trigger] s[b]).id.0
}

/// A selection of `p` can be copied through instance `instance_id`: the
/// Project is valid, the instance resolves and has exactly one invoking
/// owner, and the selection names existing Nodes of its definition, none
/// twice, at least one of them a processing Node.
pub open spec fn capture_allowed(p: ProjectView, instance_id: ModuleInstanceId, sel: Seq<ModuleNodeId>) -> bool {
    let d = definition_of(p, instance_definition(p, instance_id));
    &&& p.valid()
    &&& instance_resolves(p, instance_id)
    &&& sel.no_duplicates()
    &&& forall|i: int| 0 <= i < sel.len() ==> has_node(d, #[trigger] sel[i])
    &&& captured_nodes(d, sel).len() > 0
    &&& invocation_owners(p, instance_id).len() == 1
}

proof fn lemma_take_distinct_step<A>(s: Seq<A>, i: int)
    requires
        0 <= i < s.len(),
        s.take(i).no_duplicates(),
        forall|b: int| 0 <= b < i ==> s[b] != s[i],
    ensures
        s.take(i + 1).no_duplicates(),
{
    let t = s.take(i + 1);
    let u = s.take(i);
    assert forall|a: int, b: int| 0 <= a < t.len() && 0 <= b < t.len() && a != b implies t[a] != t[b] by {
        if a < i && b < i {
            assert(u[a] == t[a] && u[b] == t[b]);
        } else if a == i {
            assert(t[b] == s[b]);
        } else {
            assert(t[a] == s[a]);
        }
    }
}

/// Checks that `sel` names existing Nodes of `definition`, none twice.
#[verifier::rlimit(50)]
fn check_selection(definition: &crate::model::ModuleDefinition, sel: &Vec<ModuleNodeId>) -> (r: Result<(), String>)
    ensures
        r is Ok <==> sel@.no_duplicates() && forall|i: int| 0 <= i < sel@.len() ==> has_node(definition@, #[trigger] sel@[i]),
{
    for i in 0..sel.len()
        invariant
            sel@.take(i as int).no_duplicates(),
            forall|a: int| 0 <= a < i ==> has_node(definition@, #[trigger] sel@[a]),
    {
        let id = sel[i];
        if let Some(b) = crate::module_graph::position_before(sel, id, i) {
            proof {
                assert(sel@[b as int] == sel@[i as int]);
                assert(!sel@.no_duplicates());
            }
            return Err("A Module clipboard selection contains duplicate Node IDs".to_owned());
        }
        proof {
            reveal(crate::module_graph::absent_before);
        }
        if crate::module_graph::find_node(definition, id).is_none() {
            return Err(crate::ids::text_with_id("Missing Module Node ", id.0));
        }
        proof {
            lemma_take_distinct_step(sel@, i as int);
        }
    }
    assert(sel@.take(sel@.len() as int) =~= sel@);
    Ok(())
}


/// Inserts `e` into `out` after every Node whose identity is not above its own.
fn insert_node_by_id(out: &mut Vec<ModuleNode>, e: ModuleNode)
    requires
        nodes_ascending(old(out)@),
    ensures
        nodes_ascending(final(out)@),
        final(out)@.len() == old(out)@.len() + 1,
        forall|x: ModuleNode| final(out)@.contains(x) <==> (old(out)@.contains(x) || x == e),
{
    let ghost before = out@;
    let ghost added = e;
    let mut p: usize = 0;
    while p < out.len() && out[p].id.0 <= e.id.0
        invariant
            p <= out@.len(),
            out@ == before,
            forall|k: int| 0 <= k < p ==> (#[trigger] out@[k]).id.0 <= e.id.0,
        decreases out@.len() - p,
    {
        p = p + 1;
    }
    proof {
        assert forall|k: int| p <= k < before.len() implies (#[trigger] before[k]).id.0 > e.id.0 by {
            if k > p {
                assert(before[p as int].id.0 <= before[k].id.0);
            }
        }
    }
    out.insert(p, e);
    proof {
        before.insert_ensures(p as int, added);
        let after = out@;
        assert(after =~= before.insert(p as int, added));
        assert forall|a: int, b: int| 0 <= a < b < after.len() implies (#[trigger] after[a]).id.0 <= (#[trigger] after[b]).id.0 by {
            if b < p {
                assert(after[a] == before[a] && after[b] == before[b]);
            } else if b == p {
                assert(after[a] == before[a]);
            } else if a < p {
                assert(after[a] == before[a] && after[b] == before[b - 1]);
            } else if a == p {
                assert(after[b] == before[b - 1]);
            } else {
                assert(after[a] == before[a - 1] && after[b] == before[b - 1]);
            }
        }
        assert forall|x: ModuleNode| after.contains(x) <==> (before.contains(x) || x == added) by {
            if after.contains(x) {
                let j = choose|j: int| 0 <= j < after.len() && after[j] == x;
                if j < p {
                    assert(before[j] == x);
                } else if j > p {
                    assert(before[j - 1] == x);
                }
            }
            if before.contains(x) {
                let j = choose|j: int| 0 <= j < before.len() && before[j] == x;
                if j < p {
                    assert(after[j] == x);
                } else {
                    assert(after[j + 1] == x);
                }
            }
            if x == added {
                assert(after[p as int] == x);
            }
        }
    }
}

/// The Nodes of `nodes` in ascending identity order.
fn nodes_by_id(nodes: &Vec<ModuleNode>) -> (r: Vec<ModuleNode>)
    ensures
        nodes_ascending(r@),
        r@.len() == nodes@.len(),
        forall|x: ModuleNode| r@.contains(x) <==> nodes@.contains(x),
{
    let mut out: Vec<ModuleNode> = Vec::new();
    for k in 0..nodes.len()
        invariant
            nodes_ascending(out@),
            out@.len() == k,
            forall|x: ModuleNode| out@.contains(x) <==> nodes@.take(k as int).contains(x),
    {
        let e = nodes[k].clone();
        insert_node_by_id(&mut out, e);
        proof {
            assert forall|x: ModuleNode| out@.contains(x) <==> nodes@.take(k + 1).contains(x) by {
                let t = nodes@.take(k + 1);
                let u = nodes@.take(k as int);
                if u.contains(x) {
                    let i = choose|i: int| 0 <= i < u.len() && u[i] == x;
                    assert(t[i] == x);
                }
                if t.contains(x) {
                    let i = choose|i: int| 0 <= i < t.len() && t[i] == x;
                    if i < k {
                        assert(u[i] == x);
                    }
                }
                if x == e {
                    assert(t[k as int] == x);
                }
            }
        }
    }
    assert(nodes@.take(nodes@.len() as int) =~= nodes@);
    out
}

impl ModuleSelectionClipboard {
    /// Copies the processing Nodes of selection `selected` of the definition
    /// instance `instance_id` uses, with the connections between them.
    pub fn capture(project: &AuthoringProject, instance_id: ModuleInstanceId, selected: &Vec<ModuleNodeId>) -> (r: Result<
        Self,
        String,
    >)
        ensures
            r is Ok <==> capture_allowed(project@, instance_id, selected@),
            r matches Ok(c) ==> {
                let d = definition_of(project@, instance_definition(project@, instance_id));
                &&& c.version == CLIPBOARD_VERSION
                &&& nodes_ascending(c.nodes@)
                &&& c.nodes@.len() == captured_nodes(d, selected@).len()
                &&& forall|n: ModuleNode| c.nodes@.contains(n) <==> captured_nodes(d, selected@).contains(n)
                &&& c.connections@ == captured_connections(d, selected@)
            },
    {
        let ghost p = project@;
        project.validate()?;
        let i = match project.instance_position(instance_id) {
            None => return Err(crate::ids::text_with_id("Missing Module instance ", instance_id.0)),
            Some(i) => i,
        };
        proof {
            p.lemma_instance_index(i as int);
        }
        let definition_id = project.module_instances[i].definition_id;
        let dp = match project.definition_position(definition_id) {
            None => return Err(crate::ids::text_with_id("Missing Module definition ", definition_id.0)),
            Some(dp) => dp,
        };
        proof {
            p.lemma_definition_index(dp as int);
        }
        let definition = &project.module_definitions[dp];
        let ghost d = definition@;
        assert(d == definition_of(p, instance_definition(p, instance_id)));
        check_selection(definition, selected)?;
        let mut captured: Vec<ModuleNode> = Vec::new();
        for k in 0..definition.nodes.len()
            invariant
                d == definition@,
                captured@ == d.nodes.take(k as int).filter(node_captured(selected@)),
        {
            proof {
                crate::module_graph::lemma_filter_step(d.nodes, k as int, node_captured(selected@));
            }
            if crate::module_graph::selection_contains(selected, definition.nodes[k].id) && definition.nodes[k].kind
                != ModuleNodeKind::Output {
                captured.push(definition.nodes[k].clone());
            }
        }
        assert(d.nodes.take(d.nodes.len() as int) =~= d.nodes);
        if captured.len() == 0 {
            return Err("A Module clipboard selection must contain a processing Node".to_owned());
        }
        let mut ids: Vec<ModuleNodeId> = Vec::new();
        for k in 0..captured.len()
            invariant
                ids@ == captured@.take(k as int).map_values(node_id_of()),
        {
            ids.push(captured[k].id);
            assert(ids@ =~= captured@.take(k + 1).map_values(node_id_of()));
        }
        assert(captured@.take(captured@.len() as int) =~= captured@);
        let mut connections: Vec<ModuleConnection> = Vec::new();
        for k in 0..definition.connections.len()
            invariant
                d == definition@,
                ids@ == captured_nodes(d, selected@).map_values(node_id_of()),
                connections@ == d.connections.take(k as int).filter(connection_inside(ids@)),
        {
            proof {
                crate::module_graph::lemma_filter_step(d.connections, k as int, connection_inside(ids@));
            }
            let c = &definition.connections[k];
            if crate::module_graph::selection_contains(&ids, c.from.node_id) && crate::module_graph::selection_contains(
                &ids,
                c.to.node_id,
            ) {
                connections.push(c.clone());
            }
        }
        assert(d.connections.take(d.connections.len() as int) =~= d.connections);
        invocation_owner(project, instance_id)?;
        let nodes = nodes_by_id(&captured);
        Ok(ModuleSelectionClipboard { version: CLIPBOARD_VERSION, nodes, connections })
    }
}


// ---------------------------------------------------------------------------
// Pasting a copied selection
// ---------------------------------------------------------------------------

/// The identity of a connection.
pub open spec fn connection_id_of() -> spec_fn(ModuleConnection) -> ModuleConnectionId {
    |c: ModuleConnection| c.id
}

/// A clipboard can be pasted: its version is known, it holds at least one
/// Node, only processing Nodes, no Node or connection twice, and only
/// connections between its own Nodes.
pub open spec fn clipboard_valid(version: u32, nodes: Seq<ModuleNode>, connections: Seq<ModuleConnection>) -> bool {
    &&& version == CLIPBOARD_VERSION
    &&& nodes.len() > 0
    &&& forall|i: int| 0 <= i < nodes.len() ==> (#[trigger] nodes[i]).kind != ModuleNodeKind::Output
    &&& nodes.map_values(node_id_of()).no_duplicates()
    &&& connections.map_values(connection_id_of()).no_duplicates()
    &&& forall|j: int| 0 <= j < connections.len() ==> connection_inside(nodes.map_values(node_id_of()))(#[trigger] connections[j])
}

/// The new identity of copied Node `id`: the one at the same position.
pub open spec fn remapped(nodes: Seq<ModuleNode>, node_ids: Seq<ModuleNodeId>, id: ModuleNodeId) -> ModuleNodeId {
    node_ids[choose|k: int| 0 <= k < nodes.len() && nodes[k].id == id]
}

/// Copied connection `c` under identity `id`, between the copies of its ends.
pub open spec fn remapped_connection(
    nodes: Seq<ModuleNode>,
    node_ids: Seq<ModuleNodeId>,
    c: ModuleConnection,
    id: ModuleConnectionId,
) -> ModuleConnection {
    ModuleConnection {
        id,
        from: ModulePortAddress { node_id: remapped(nodes, node_ids, c.from.node_id), port: c.from.port },
        to: ModulePortAddress { node_id: remapped(nodes, node_ids, c.to.node_id), port: c.to.port },
        ..c
    }
}

/// The copies can join `d`: their identities are new to `d` and to each
/// other, and the topology revision can advance.
pub open spec fn paste_fits(d: ModuleDefinitionView, node_ids: Seq<ModuleNodeId>) -> bool {
    &&& node_ids.no_duplicates()
    &&& forall|i: int| 0 <= i < node_ids.len() ==> !has_node(d, #[trigger] node_ids[i])
    &&& d.topology_revision < u64::MAX
}

/// `d` with the copies of `nodes` under `node_ids` and of `connections`
/// under `connection_ids` appended, and its topology revision advanced.
pub open spec fn pasted(
    d: ModuleDefinitionView,
    nodes: Seq<ModuleNode>,
    connections: Seq<ModuleConnection>,
    node_ids: Seq<ModuleNodeId>,
    connection_ids: Seq<ModuleConnectionId>,
) -> ModuleDefinitionView {
    ModuleDefinitionView {
        nodes: d.nodes + Seq::new(nodes.len(), |i: int| ModuleNode { id: node_ids[i], ..nodes[i] }),
        connections: d.connections + Seq::new(
            connections.len(),
            |j: int| remapped_connection(nodes, node_ids, connections[j], connection_ids[j]),
        ),
        topology_revision: (d.topology_revision + 1) as u64,
        ..d
    }
}

/// Whether the copies fit a definition, as an edit through an instance reads it.
pub open spec fn paste_fits_in(node_ids: Seq<ModuleNodeId>) -> spec_fn(ModuleDefinitionView) -> bool {
    |d: ModuleDefinitionView| paste_fits(d, node_ids)
}

/// The paste, as an edit through an instance applies it.
pub open spec fn pasted_in(
    nodes: Seq<ModuleNode>,
    connections: Seq<ModuleConnection>,
    node_ids: Seq<ModuleNodeId>,
    connection_ids: Seq<ModuleConnectionId>,
) -> spec_fn(ModuleDefinitionView) -> ModuleDefinitionView {
    |d: ModuleDefinitionView| pasted(d, nodes, connections, node_ids, connection_ids)
}

fn connection_position_before(ids: &Vec<ModuleConnectionId>, id: ModuleConnectionId, upto: usize) -> (r: Option<usize>)
    requires
        upto <= ids@.len(),
    ensures
        r matches Some(b) ==> b < upto && ids@[b as int] == id,
        r is None ==> forall|b: int| 0 <= b < upto ==> ids@[b] != id,
{
    for j in 0..upto
        invariant
            upto <= ids@.len(),
            forall|b: int| 0 <= b < j ==> ids@[b] != id,
    {
        if ids[j] == id {
            return Some(j);
        }
    }
    None
}

/// Whether `ids` holds no identity twice.
fn node_ids_distinct(ids: &Vec<ModuleNodeId>) -> (r: bool)
    ensures
        r == ids@.no_duplicates(),
{
    for i in 0..ids.len()
        invariant
            ids@.take(i as int).no_duplicates(),
    {
        if let Some(b) = crate::module_graph::position_before(ids, ids[i], i) {
            assert(ids@[b as int] == ids@[i as int]);
            return false;
        }
        proof {
            reveal(crate::module_graph::absent_before);
            lemma_take_distinct_step(ids@, i as int);
        }
    }
    assert(ids@.take(ids@.len() as int) =~= ids@);
    true
}

/// Whether `ids` holds no identity twice.
fn connection_ids_distinct(ids: &Vec<ModuleConnectionId>) -> (r: bool)
    ensures
        r == ids@.no_duplicates(),
{
    for i in 0..ids.len()
        invariant
            ids@.take(i as int).no_duplicates(),
    {
        if let Some(b) = connection_position_before(ids, ids[i], i) {
            assert(ids@[b as int] == ids@[i as int]);
            return false;
        }
        proof {
            lemma_take_distinct_step(ids@, i as int);
        }
    }
    assert(ids@.take(ids@.len() as int) =~= ids@);
    true
}

impl ModuleSelectionClipboard {
    /// Checks that the clipboard can be pasted (`clipboard_valid`).
    pub fn validate(&self) -> (r: Result<(), String>)
        ensures
            r is Ok <==> clipboard_valid(self.version, self.nodes@, self.connections@),
    {
        if self.version != CLIPBOARD_VERSION {
            return Err(crate::ids::text_with_number("Unsupported Module clipboard version ", self.version as u64));
        }
        if self.nodes.len() == 0 {
            return Err("A Module clipboard selection must contain a processing Node".to_owned());
        }
        let mut ids: Vec<ModuleNodeId> = Vec::new();
        for k in 0..self.nodes.len()
            invariant
                ids@ == self.nodes@.take(k as int).map_values(node_id_of()),
                forall|i: int| 0 <= i < k ==> (#[trigger] self.nodes@[i]).kind != ModuleNodeKind::Output,
        {
            if self.nodes[k].kind == ModuleNodeKind::Output {
                return Err(
                    "Dedicated Output Nodes are created by the Module definition factory, not the ordinary Node catalog".to_owned(),
                );
            }
            ids.push(self.nodes[k].id);
            assert(ids@ =~= self.nodes@.take(k + 1).map_values(node_id_of()));
        }
        assert(self.nodes@.take(self.nodes@.len() as int) =~= self.nodes@);
        if !node_ids_distinct(&ids) {
            return Err("A Module clipboard selection contains duplicate Node IDs".to_owned());
        }
        let mut connection_ids: Vec<ModuleConnectionId> = Vec::new();
        for k in 0..self.connections.len()
            invariant
                connection_ids@ == self.connections@.take(k as int).map_values(connection_id_of()),
        {
            connection_ids.push(self.connections[k].id);
            assert(connection_ids@ =~= self.connections@.take(k + 1).map_values(connection_id_of()));
        }
        assert(self.connections@.take(self.connections@.len() as int) =~= self.connections@);
        if !connection_ids_distinct(&connection_ids) {
            return Err("A Module clipboard selection contains duplicate Connection IDs".to_owned());
        }
        for k in 0..self.connections.len()
            invariant
                ids@ == self.nodes@.map_values(node_id_of()),
                forall|j: int| 0 <= j < k ==> connection_inside(ids@)(#[trigger] self.connections@[j]),
        {
            let c = &self.connections[k];
            if !crate::module_graph::selection_contains(&ids, c.from.node_id) || !crate::module_graph::selection_contains(
                &ids,
                c.to.node_id,
            ) {
                return Err("A Module clipboard Connection escapes the selected Nodes".to_owned());
            }
        }
        Ok(())
    }
}


/// The first position of a Node with identity `id` in `nodes`.
fn node_position(nodes: &Vec<ModuleNode>, id: ModuleNodeId) -> (r: Option<usize>)
    ensures
        r matches Some(k) ==> k < nodes@.len() && nodes@[k as int].id == id,
        r is None ==> forall|k: int| 0 <= k < nodes@.len() ==> (#[trigger] nodes@[k]).id != id,
{
    for k in 0..nodes.len()
        invariant
            forall|j: int| 0 <= j < k ==> (#[trigger] nodes@[j]).id != id,
    {
        if nodes[k].id == id {
            return Some(k);
        }
    }
    None
}

proof fn lemma_remapped(nodes: Seq<ModuleNode>, node_ids: Seq<ModuleNodeId>, id: ModuleNodeId, k: int)
    requires
        0 <= k < nodes.len(),
        nodes[k].id == id,
        nodes.map_values(node_id_of()).no_duplicates(),
    ensures
        remapped(nodes, node_ids, id) == node_ids[k],
{
    let c = choose|c: int| 0 <= c < nodes.len() && nodes[c].id == id;
    assert(0 <= c < nodes.len() && nodes[c].id == id);
    if c != k {
        let m = nodes.map_values(node_id_of());
        assert(m[c] == m[k]);
    }
}

/// The copy of connection `c` between the copies of its ends.
fn remap_connection(
    nodes: &Vec<ModuleNode>,
    node_ids: &Vec<ModuleNodeId>,
    c: &ModuleConnection,
    id: ModuleConnectionId,
) -> (r: ModuleConnection)
    requires
        node_ids@.len() == nodes@.len(),
        nodes@.map_values(node_id_of()).no_duplicates(),
        connection_inside(nodes@.map_values(node_id_of()))(*c),
    ensures
        r == remapped_connection(nodes@, node_ids@, *c, id),
{
    let ghost m = nodes@.map_values(node_id_of());
    let f = match node_position(nodes, c.from.node_id) {
        Some(f) => f,
        None => {
            proof {
                let j = choose|j: int| 0 <= j < m.len() && m[j] == c.from.node_id;
                assert(nodes@[j].id == c.from.node_id);
            }
            return c.clone();
        },
    };
    let t = match node_position(nodes, c.to.node_id) {
        Some(t) => t,
        None => {
            proof {
                let j = choose|j: int| 0 <= j < m.len() && m[j] == c.to.node_id;
                assert(nodes@[j].id == c.to.node_id);
            }
            return c.clone();
        },
    };
    proof {
        lemma_remapped(nodes@, node_ids@, c.from.node_id, f as int);
        lemma_remapped(nodes@, node_ids@, c.to.node_id, t as int);
    }
    ModuleConnection {
        id,
        from: ModulePortAddress { node_id: node_ids[f], port: c.from.port.clone() },
        to: ModulePortAddress { node_id: node_ids[t], port: c.to.port.clone() },
        order: c.order,
        blend_mode: c.blend_mode,
    }
}

/// Appends the copies of a valid clipboard's Nodes under `node_ids` and of
/// its connections under `connection_ids` to `definition`, as one topology
/// edit.
pub fn paste_into_definition(
    definition: &mut ModuleDefinition,
    clipboard: &ModuleSelectionClipboard,
    node_ids: &Vec<ModuleNodeId>,
    connection_ids: &Vec<ModuleConnectionId>,
) -> (r: Result<(), String>)
    requires
        clipboard_valid(clipboard.version, clipboard.nodes@, clipboard.connections@),
        node_ids@.len() == clipboard.nodes@.len(),
        connection_ids@.len() == clipboard.connections@.len(),
    ensures
        r is Ok <==> paste_fits(old(definition)@, node_ids@),
        r is Ok ==> final(definition)@ == pasted(
            old(definition)@,
            clipboard.nodes@,
            clipboard.connections@,
            node_ids@,
            connection_ids@,
        ),
        r is Err ==> final(definition)@ == old(definition)@,
{
    let ghost d = definition@;
    let nodes = &clipboard.nodes;
    let connections = &clipboard.connections;
    if !node_ids_distinct(node_ids) {
        return Err("Generated Module Node ID collided during paste".to_owned());
    }
    for i in 0..node_ids.len()
        invariant
            d == definition@,
            forall|a: int| 0 <= a < i ==> !has_node(d, #[trigger] node_ids@[a]),
    {
        if crate::module_graph::find_node(definition, node_ids[i]).is_some() {
            return Err("Generated Module Node ID collided during paste".to_owned());
        }
    }
    if definition.topology_revision == u64::MAX {
        return Err("Module topology revision overflow".to_owned());
    }
    let mut copies: Vec<ModuleNode> = Vec::new();
    for k in 0..nodes.len()
        invariant
            node_ids@.len() == nodes@.len(),
            copies@ == Seq::new(k as nat, |i: int| ModuleNode { id: node_ids@[i], ..nodes@[i] }),
    {
        let n = &nodes[k];
        copies.push(ModuleNode { id: node_ids[k], name: n.name.clone(), kind: n.kind, enabled: n.enabled, bypassed: n.bypassed });
        assert(copies@ =~= Seq::new((k + 1) as nat, |i: int| ModuleNode { id: node_ids@[i], ..nodes@[i] }));
    }
    let mut wires: Vec<ModuleConnection> = Vec::new();
    for k in 0..connections.len()
        invariant
            node_ids@.len() == nodes@.len(),
            connection_ids@.len() == connections@.len(),
            clipboard_valid(clipboard.version, nodes@, connections@),
            wires@ == Seq::new(
                k as nat,
                |j: int| remapped_connection(nodes@, node_ids@, connections@[j], connection_ids@[j]),
            ),
    {
        assert(connection_inside(nodes@.map_values(node_id_of()))(connections@[k as int]));
        let c = remap_connection(nodes, node_ids, &connections[k], connection_ids[k]);
        wires.push(c);
        assert(wires@ =~= Seq::new(
            (k + 1) as nat,
            |j: int| remapped_connection(nodes@, node_ids@, connections@[j], connection_ids@[j]),
        ));
    }
    definition.nodes.append(&mut copies);
    definition.connections.append(&mut wires);
    definition.topology_revision = definition.topology_revision + 1;
    assert(definition@ =~= pasted(d, nodes@, connections@, node_ids@, connection_ids@));
    Ok(())
}


/// Identities in ascending order.
pub open spec fn ids_ascending(s: Seq<ModuleNodeId>) -> bool {
    forall|a: int, b: int| 0 <= a < b < s.len() ==> (#[trigger] s[a]).0 <= (#[trigger] s[b]).0
}

/// Inserts `e` into `out` after every identity not above it.
fn insert_id(out: &mut Vec<ModuleNodeId>, e: ModuleNodeId)
    requires
        ids_ascending(old(out)@),
    ensures
        ids_ascending(final(out)@),
        final(out)@.len() == old(out)@.len() + 1,
        forall|x: ModuleNodeId| final(out)@.contains(x) <==> (old(out)@.contains(x) || x == e),
{
    let ghost before = out@;
    let mut p: usize = 0;
    while p < out.len() && out[p].0 <= e.0
        invariant
            p <= out@.len(),
            out@ == before,
            forall|k: int| 0 <= k < p ==> (#[trigger] out@[k]).0 <= e.0,
        decreases out@.len() - p,
    {
        p = p + 1;
    }
    proof {
        assert forall|k: int| p <= k < before.len() implies (#[trigger] before[k]).0 > e.0 by {
            if k > p {
                assert(before[p as int].0 <= before[k].0);
            }
        }
    }
    out.insert(p, e);
    proof {
        before.insert_ensures(p as int, e);
        let after = out@;
        assert(after =~= before.insert(p as int, e));
        assert forall|a: int, b: int| 0 <= a < b < after.len() implies (#[trigger] after[a]).0 <= (#[trigger] after[b]).0 by {
            if b < p {
                assert(after[a] == before[a] && after[b] == before[b]);
            } else if b == p {
                assert(after[a] == before[a]);
            } else if a < p {
                assert(after[a] == before[a] && after[b] == before[b - 1]);
            } else if a == p {
                assert(after[b] == before[b - 1]);
            } else {
                assert(after[a] == before[a - 1] && after[b] == before[b - 1]);
            }
        }
        assert forall|x: ModuleNodeId| after.contains(x) <==> (before.contains(x) || x == e) by {
            if after.contains(x) {
                let j = choose|j: int| 0 <= j < after.len() && after[j] == x;
                if j < p {
                    assert(before[j] == x);
                } else if j > p {
                    assert(before[j - 1] == x);
                }
            }
            if before.contains(x) {
                let j = choose|j: int| 0 <= j < before.len() && before[j] == x;
                if j < p {
                    assert(after[j] == x);
                } else {
                    assert(after[j + 1] == x);
                }
            }
            if x == e {
                assert(after[p as int] == x);
            }
        }
    }
}

/// The identities of `ids` in ascending order.
fn sorted_ids(ids: &Vec<ModuleNodeId>) -> (r: Vec<ModuleNodeId>)
    ensures
        ids_ascending(r@),
        r@.len() == ids@.len(),
        forall|x: ModuleNodeId| r@.contains(x) <==> ids@.contains(x),
{
    let mut out: Vec<ModuleNodeId> = Vec::new();
    for k in 0..ids.len()
        invariant
            ids_ascending(out@),
            out@.len() == k,
            forall|x: ModuleNodeId| out@.contains(x) <==> ids@.take(k as int).contains(x),
    {
        let e = ids[k];
        insert_id(&mut out, e);
        proof {
            assert forall|x: ModuleNodeId| out@.contains(x) <==> ids@.take(k + 1).contains(x) by {
                let t = ids@.take(k + 1);
                let u = ids@.take(k as int);
                if u.contains(x) {
                    let i = choose|i: int| 0 <= i < u.len() && u[i] == x;
                    assert(t[i] == x);
                }
                if t.contains(x) {
                    let i = choose|i: int| 0 <= i < t.len() && t[i] == x;
                    if i < k {
                        assert(u[i] == x);
                    }
                }
                if x == e {
                    assert(t[k as int] == x);
                }
            }
        }
    }
    assert(ids@.take(ids@.len() as int) =~= ids@);
    out
}

/// What a paste committed: the definition it edited, the new Nodes'
/// identities in ascending order, and the transaction.
pub struct ModuleSelectionPasteReceipt {
    pub definition_id: ModuleDefinitionId,
    pub node_ids: Vec<ModuleNodeId>,
    pub changes: ChangeSet,
}

impl TimelineEditorService {
    /// Pastes `clipboard` into the definition instance `instance_id` uses,
    /// copying a shared definition first under `copy_id`, as one
    /// transaction; the copies take identities `node_ids` and
    /// `connection_ids`, position by position.
    pub fn paste_instance_module_selection_with_ids(
        &mut self,
        instance_id: ModuleInstanceId,
        clipboard: &ModuleSelectionClipboard,
        copy_id: ModuleDefinitionId,
        node_ids: &Vec<ModuleNodeId>,
        connection_ids: &Vec<ModuleConnectionId>,
    ) -> (r: Result<ModuleSelectionPasteReceipt, LibraryError>)
        requires
            old(self).wf(),
            node_ids@.len() == clipboard.nodes@.len(),
            connection_ids@.len() == clipboard.connections@.len(),
        ensures
            final(self).wf(),
            r is Err ==> unchanged(*old(self), *final(self)),
            r is Ok ==> clipboard_valid(clipboard.version, clipboard.nodes@, clipboard.connections@) && invocation_owners(
                old(self).spec_project(),
                instance_id,
            ).len() == 1,
            clipboard_valid(clipboard.version, clipboard.nodes@, clipboard.connections@) && invocation_owners(
                old(self).spec_project(),
                instance_id,
            ).len() == 1 ==> instance_edit_outcome(
                *old(self),
                *final(self),
                r is Ok,
                instance_id,
                copy_id,
                paste_fits_in(node_ids@),
                pasted_in(clipboard.nodes@, clipboard.connections@, node_ids@, connection_ids@),
            ),
            r matches Ok(receipt) ==> receipt.definition_id == privatized_id(old(self).spec_project(), instance_id, copy_id)
                && ids_ascending(receipt.node_ids@) && receipt.node_ids@.len() == node_ids@.len() && forall|x: ModuleNodeId|
                receipt.node_ids@.contains(x) <==> node_ids@.contains(x),
    {
        proof {
            self.lemma_wf();
        }
        if let Err(message) = clipboard.validate() {
            return Err(LibraryError::Validation(message));
        }
        if let Err(message) = invocation_owner(&self.project, instance_id) {
            return Err(LibraryError::Validation(message));
        }
        let (candidate, d, mut definition) = self.instance_edit_candidate(instance_id, copy_id)?;
        if let Err(message) = paste_into_definition(&mut definition, clipboard, node_ids, connection_ids) {
            return Err(LibraryError::Validation(message));
        }
        let target = definition.id;
        let ghost q = candidate@;
        assert(definition@ == pasted_in(clipboard.nodes@, clipboard.connections@, node_ids@, connection_ids@)(
            definition_of(q, target),
        ));
        let changes = self.commit_definition_in(candidate, d, definition, ProjectInvalidation::ModuleInstance { instance_id })?;
        Ok(ModuleSelectionPasteReceipt { definition_id: target, node_ids: sorted_ids(node_ids), changes })
    }
}


impl TimelineEditorService {
    /// Pastes `clipboard` into the definition instance `instance_id` uses,
    /// with fresh identities for a needed copy of the definition, for the
    /// pasted Nodes and for the pasted connections.
    pub fn paste_instance_module_selection(&mut self, instance_id: ModuleInstanceId, clipboard: &ModuleSelectionClipboard) -> (r:
        Result<ModuleSelectionPasteReceipt, LibraryError>)
        requires
            old(self).wf(),
        ensures
            final(self).wf(),
            r is Err ==> unchanged(*old(self), *final(self)),
            !instance_resolves(old(self).spec_project(), instance_id) ==> r is Err,
            !clipboard_valid(clipboard.version, clipboard.nodes@, clipboard.connections@) ==> r is Err,
            invocation_owners(old(self).spec_project(), instance_id).len() != 1 ==> r is Err,
            r matches Ok(receipt) ==> ids_ascending(receipt.node_ids@) && exists|
                node_ids: Seq<ModuleNodeId>,
                connection_ids: Seq<ModuleConnectionId>,
            |
                node_ids.len() == clipboard.nodes@.len() && connection_ids.len() == clipboard.connections@.len() && (forall|
                    x: ModuleNodeId,
                | receipt.node_ids@.contains(x) <==> node_ids.contains(x)) && #[trigger] instance_edit_done(
                    *old(self),
                    *final(self),
                    instance_id,
                    receipt.definition_id,
                    paste_fits_in(node_ids),
                    pasted_in(clipboard.nodes@, clipboard.connections@, node_ids, connection_ids),
                ),
    {
        let copy_id = ModuleDefinitionId::new();
        let mut node_ids: Vec<ModuleNodeId> = Vec::new();
        for k in 0..clipboard.nodes.len()
            invariant
                node_ids@.len() == k,
        {
            node_ids.push(ModuleNodeId::new());
        }
        let mut connection_ids: Vec<ModuleConnectionId> = Vec::new();
        for k in 0..clipboard.connections.len()
            invariant
                connection_ids@.len() == k,
        {
            connection_ids.push(ModuleConnectionId::new());
        }
        let r = self.paste_instance_module_selection_with_ids(instance_id, clipboard, copy_id, &node_ids, &connection_ids);
        proof {
            if r is Ok {
                let receipt = r->Ok_0;
                assert(privatized_id(old(self).spec_project(), instance_id, copy_id) == receipt.definition_id);
                assert(instance_edit_done(
                    *old(self),
                    *final(self),
                    instance_id,
                    receipt.definition_id,
                    paste_fits_in(node_ids@),
                    pasted_in(clipboard.nodes@, clipboard.connections@, node_ids@, connection_ids@),
                ));
            }
        }
        r
    }
}

} // verus!
