//! Deleting a placement together with everything that reads it. The Node
//! Clips whose Module inputs read the placement, directly or through one
//! another, go with it; so do the Transitions and Module Attachments that
//! depend on any of them. A circle of Node Clips that read one another is
//! refused.

use vstd::prelude::*;

use crate::attachment::{in_stack, without_instance};
use crate::authoring::{edit_outcome, layered, with_items};
use crate::deletion::without_attachment_instances;
use crate::edit_plan::layers_fit;
use crate::ids::{ModuleInstanceId, TimelineItemId};
use crate::model::{
    binding_item, Attachment, AttachmentOwner, AttachmentProcessor, AttachmentProcessorView, AttachmentView,
    AuthoringProject, InputBindingEntry, MediaInputBinding, ProjectView, SourceRef, SourceRefView, TimelineItem,
    TimelineItemView, Transition,
};
use crate::planning::TimelineEditPlanningIndex;
use crate::service::{recorded, ChangeSet, LibraryError, ProjectInvalidation, TimelineEditorService};

verus! {

// ---------------------------------------------------------------------------
// What reads what
// ---------------------------------------------------------------------------

/// One of `bindings` reads placement `id`.
pub open spec fn bindings_read(bindings: Seq<InputBindingEntry>, id: TimelineItemId) -> bool {
    exists|k: int| 0 <= k < bindings.len() && binding_item(#[trigger] bindings[k].binding) == id
}

/// `source` invokes a Module with an input that reads placement `id`.
pub open spec fn source_reads(source: SourceRefView, id: TimelineItemId) -> bool {
    match source {
        SourceRefView::Module(invocation) => bindings_read(invocation.input_bindings, id),
        _ => false,
    }
}

/// Placement `reader` exists and one of its Module inputs reads `source`.
pub open spec fn reads_item(p: ProjectView, reader: TimelineItemId, source: TimelineItemId) -> bool {
    p.has_item(reader) && source_reads(p.item(reader).source, source)
}

/// Step `i` of `s`: placement `s[i + 1]` reads `s[i]`.
pub open spec fn chain_link(p: ProjectView, s: Seq<TimelineItemId>, i: int) -> bool {
    reads_item(p, s[i + 1], s[i])
}

/// `s` starts at an existing placement and every later placement of it
/// reads the one before.
pub open spec fn dependency_chain(p: ProjectView, s: Seq<TimelineItemId>) -> bool {
    &&& s.len() >= 1
    &&& p.has_item(s[0])
    &&& forall|i: int| 0 <= i < s.len() - 1 ==> #[trigger] chain_link(p, s, i)
}

/// Placement `x` is `root` or reads it, directly or through other
/// placements.
pub open spec fn depends_on(p: ProjectView, root: TimelineItemId, x: TimelineItemId) -> bool {
    exists|s: Seq<TimelineItemId>| #[trigger] dependency_chain(p, s) && s[0] == root && s.last() == x
}

/// Some chain of readers from `root` comes back to a placement it already
/// passed: placements that depend on `root` read one another in a circle.
pub open spec fn cascade_cycle(p: ProjectView, root: TimelineItemId) -> bool {
    exists|s: Seq<TimelineItemId>, j: int|
        #![trigger dependency_chain(p, s), s[j]]
        dependency_chain(p, s) && s[0] == root && 0 <= j < s.len() - 1 && s[j] == s.last()
}

/// Placement `x` lies on such a circle.
pub open spec fn on_cycle(p: ProjectView, root: TimelineItemId, x: TimelineItemId) -> bool {
    exists|s: Seq<TimelineItemId>, j: int, k: int|
        #![trigger dependency_chain(p, s), s[j], s[k]]
        dependency_chain(p, s) && s[0] == root && 0 <= j < s.len() - 1 && s[j] == s.last() && j <= k < s.len() && s[k]
            == x
}

/// How many entries of `s` are `v`.
pub open spec fn count_of(s: Seq<bool>, v: bool) -> nat
    decreases s.len(),
{
    if s.len() == 0 {
        0
    } else {
        count_of(s.drop_last(), v) + if s.last() == v {
            1nat
        } else {
            0nat
        }
    }
}

proof fn lemma_count_flip(s: Seq<bool>, b: int, v: bool)
    requires
        0 <= b < s.len(),
        s[b] == v,
    ensures
        count_of(s.update(b, !v), v) + 1 == count_of(s, v),
    decreases s.len(),
{
    if b == s.len() - 1 {
        assert(s.update(b, !v).drop_last() =~= s.drop_last());
    } else {
        lemma_count_flip(s.drop_last(), b, v);
        assert(s.update(b, !v).drop_last() =~= s.drop_last().update(b, !v));
    }
}

/// Every member of a chain exists.
proof fn lemma_chain_member(p: ProjectView, s: Seq<TimelineItemId>, k: int)
    requires
        dependency_chain(p, s),
        0 <= k < s.len(),
    ensures
        p.has_item(s[k]),
{
    if k > 0 {
        assert(chain_link(p, s, k - 1));
    }
}

/// A chain's first `k + 1` members form a chain.
proof fn lemma_chain_prefix(p: ProjectView, s: Seq<TimelineItemId>, k: int)
    requires
        dependency_chain(p, s),
        0 <= k < s.len(),
    ensures
        dependency_chain(p, s.take(k + 1)),
        s.take(k + 1)[0] == s[0],
        s.take(k + 1).last() == s[k],
{
    let t = s.take(k + 1);
    assert forall|i: int| 0 <= i < t.len() - 1 implies #[trigger] chain_link(p, t, i) by {
        assert(chain_link(p, s, i));
        assert(t[i] == s[i] && t[i + 1] == s[i + 1]);
    }
}

/// A chain that ends where another starts continues into it.
proof fn lemma_chain_concat(p: ProjectView, q: Seq<TimelineItemId>, c: Seq<TimelineItemId>)
    requires
        dependency_chain(p, q),
        dependency_chain(p, c),
        q.last() == c[0],
    ensures
        dependency_chain(p, q + c.drop_first()),
        (q + c.drop_first())[0] == q[0],
        (q + c.drop_first()).last() == c.last(),
        (q + c.drop_first()).len() == q.len() + c.len() - 1,
        (q + c.drop_first())[q.len() - 1] == c[0],
{
    let s = q + c.drop_first();
    let n = q.len();
    assert forall|i: int| 0 <= i < s.len() - 1 implies #[trigger] chain_link(p, s, i) by {
        if i < n - 1 {
            assert(chain_link(p, q, i));
            assert(s[i] == q[i] && s[i + 1] == q[i + 1]);
        } else {
            let m = i - n + 1;
            assert(chain_link(p, c, m));
            assert(s[i + 1] == c[m + 1]);
            if i == n - 1 {
                assert(s[i] == q.last());
            } else {
                assert(s[i] == c[m]);
            }
        }
    }
    if c.len() == 1 {
        assert(s =~= q);
    }
}

/// Extending a chain from `root` by a reader of its last placement.
proof fn lemma_depends_extend(p: ProjectView, root: TimelineItemId, a: int, b: int)
    requires
        p.unique_item_ids(),
        0 <= a < p.items.len(),
        0 <= b < p.items.len(),
        depends_on(p, root, p.items[a].id),
        source_reads(p.items[b].source, p.items[a].id),
    ensures
        depends_on(p, root, p.items[b].id),
{
    let s = choose|s: Seq<TimelineItemId>| #[trigger] dependency_chain(p, s) && s[0] == root && s.last() == p.items[a].id;
    p.lemma_item_index(b);
    let c = seq![p.items[a].id, p.items[b].id];
    assert(chain_link(p, c, 0));
    p.lemma_item_index(a);
    assert(dependency_chain(p, c));
    lemma_chain_concat(p, s, c);
    assert(dependency_chain(p, s + c.drop_first()));
}

/// Every placement on a chain from the placement at `r` is marked, when the
/// marks include `r` and every reader of a marked placement.
proof fn lemma_closed_chain(p: ProjectView, marks: Seq<bool>, r: int, s: Seq<TimelineItemId>, m: int)
    requires
        p.unique_item_ids(),
        marks.len() == p.items.len(),
        0 <= r < p.items.len(),
        marks[r],
        dependency_chain(p, s),
        s[0] == p.items[r].id,
        0 <= m < s.len(),
        forall|a: int, b: int|
            0 <= a < p.items.len() && 0 <= b < p.items.len() && marks[a] && #[trigger] source_reads(
                p.items[b].source,
                p.items[a].id,
            ) ==> #[trigger] marks[b],
    ensures
        p.has_item(s[m]),
        marks[p.item_index(s[m])],
    decreases m,
{
    if m == 0 {
        p.lemma_item_index(r);
    } else {
        lemma_closed_chain(p, marks, r, s, m - 1);
        assert(chain_link(p, s, m - 1));
        let a = p.item_index(s[m - 1]);
        let b = p.item_index(s[m]);
        assert(source_reads(p.items[b].source, p.items[a].id));
    }
}

// ---------------------------------------------------------------------------
// Finding what depends on a placement
// ---------------------------------------------------------------------------

fn bindings_read_exec(bindings: &Vec<InputBindingEntry>, id: TimelineItemId) -> (r: bool)
    ensures
        r == bindings_read(bindings@, id),
{
    for k in 0..bindings.len()
        invariant
            forall|m: int| 0 <= m < k ==> binding_item(#[trigger] bindings@[m].binding) != id,
    {
        let source = match bindings[k].binding {
            MediaInputBinding::TimelineItemOutput { item_id: source, .. } => source,
        };
        if source == id {
            assert(binding_item(bindings@[k as int].binding) == id);
            return true;
        }
    }
    false
}

/// Whether the placement at position `z` reads placement `id`.
fn item_reads(project: &AuthoringProject, z: usize, id: TimelineItemId) -> (r: bool)
    requires
        z < project@.items.len(),
    ensures
        r == source_reads(project@.items[z as int].source, id),
{
    assert(project.items@[z as int]@ == project@.items[z as int]);
    match &project.items[z].source {
        SourceRef::Module(invocation) => bindings_read_exec(&invocation.input_bindings, id),
        _ => false,
    }
}

/// Marks, by position, the placements that depend on the placement at `r`.
pub(crate) fn dependents(project: &AuthoringProject, r: usize) -> (marks: Vec<bool>)
    requires
        project@.unique_item_ids(),
        r < project@.items.len(),
    ensures
        marks@.len() == project@.items.len(),
        forall|i: int|
            0 <= i < marks@.len() ==> (marks@[i] <==> depends_on(project@, project@.items[r as int].id, project@.items[i].id)),
{
    let ghost p = project@;
    let n = project.items.len();
    let root = project.items[r].id;
    assert(root == p.items[r as int].id);
    let mut marks: Vec<bool> = Vec::new();
    for i in 0..n
        invariant
            marks@.len() == i,
            forall|k: int| 0 <= k < i ==> !marks@[k],
    {
        marks.push(false);
    }
    proof {
        let s = seq![root];
        p.lemma_item_index(r as int);
        assert(dependency_chain(p, s));
    }
    marks.set(r, true);
    let mut stack: Vec<usize> = Vec::new();
    stack.push(r);
    assert(stack@[0] == r);
    while stack.len() > 0
        invariant
            p == project@,
            n == p.items.len(),
            marks@.len() == n,
            r < n,
            root == p.items[r as int].id,
            p.unique_item_ids(),
            marks@[r as int],
            forall|i: int| 0 <= i < n && #[trigger] marks@[i] ==> depends_on(p, root, p.items[i].id),
            forall|k: int| 0 <= k < stack@.len() ==> #[trigger] stack@[k] < n && marks@[stack@[k] as int],
            stack@.no_duplicates(),
            forall|a: int, b: int|
                0 <= a < n && 0 <= b < n && marks@[a] && !stack@.contains(a as usize) && #[trigger] source_reads(
                    p.items[b].source,
                    p.items[a].id,
                ) ==> #[trigger] marks@[b],
        decreases count_of(marks@, false) + stack@.len(),
    {
        let ghost measure = count_of(marks@, false) + stack@.len();
        let ghost old_stack = stack@;
        let a = stack.pop().unwrap();
        proof {
            assert(old_stack == stack@.push(a));
            assert forall|a2: int, b2: int|
                0 <= a2 < n && 0 <= b2 < n && a2 != a && marks@[a2] && !stack@.contains(a2 as usize)
                    && #[trigger] source_reads(p.items[b2].source, p.items[a2].id) implies #[trigger] marks@[b2] by {
                if old_stack.contains(a2 as usize) {
                    let k = choose|k: int| 0 <= k < old_stack.len() && old_stack[k] == a2 as usize;
                    if k < stack@.len() {
                        assert(stack@[k] == old_stack[k]);
                    }
                }
            }
        }
        let id_a = project.items[a].id;
        assert(id_a == p.items[a as int].id);
        assert(!stack@.contains(a)) by {
            if stack@.contains(a) {
                let k = choose|k: int| 0 <= k < stack@.len() && stack@[k] == a;
                let old_stack = stack@.push(a);
                assert(old_stack[k] == old_stack[old_stack.len() - 1]);
            }
        }
        for b in 0..n
            invariant
                p == project@,
                n == p.items.len(),
                marks@.len() == n,
                r < n,
                a < n,
                id_a == p.items[a as int].id,
                root == p.items[r as int].id,
                p.unique_item_ids(),
                marks@[r as int],
                marks@[a as int],
                !stack@.contains(a),
                count_of(marks@, false) + stack@.len() + 1 == measure,
                forall|i: int| 0 <= i < n && #[trigger] marks@[i] ==> depends_on(p, root, p.items[i].id),
                forall|k: int| 0 <= k < stack@.len() ==> #[trigger] stack@[k] < n && marks@[stack@[k] as int],
                stack@.no_duplicates(),
                forall|a2: int, b2: int|
                    0 <= a2 < n && 0 <= b2 < n && a2 != a && marks@[a2] && !stack@.contains(a2 as usize)
                        && #[trigger] source_reads(p.items[b2].source, p.items[a2].id) ==> #[trigger] marks@[b2],
                forall|b2: int| 0 <= b2 < b && source_reads(p.items[b2].source, id_a) ==> #[trigger] marks@[b2],
        {
            if !marks[b] && item_reads(project, b, id_a) {
                proof {
                    lemma_depends_extend(p, root, a as int, b as int);
                    lemma_count_flip(marks@, b as int, false);
                    assert(!stack@.contains(b)) by {
                        if stack@.contains(b) {
                            let k = choose|k: int| 0 <= k < stack@.len() && stack@[k] == b;
                            assert(marks@[stack@[k] as int]);
                        }
                    }
                }
                let ghost before_marks = marks@;
                marks.set(b, true);
                let ghost before = stack@;
                stack.push(b);
                proof {
                    assert forall|a2: int, b2: int|
                        0 <= a2 < n && 0 <= b2 < n && a2 != a && marks@[a2] && !stack@.contains(a2 as usize)
                            && #[trigger] source_reads(p.items[b2].source, p.items[a2].id) implies #[trigger] marks@[b2] by {
                        if before.contains(a2 as usize) {
                            let k = choose|k: int| 0 <= k < before.len() && before[k] == a2 as usize;
                            assert(stack@[k] == before[k]);
                        }
                        if a2 as usize == b {
                            assert(stack@[before.len() as int] == b);
                        } else {
                            assert(before_marks[a2]);
                            assert(before_marks[b2]);
                        }
                    }
                    assert forall|x: int, y: int| 0 <= x < stack@.len() && 0 <= y < stack@.len() && x != y implies stack@[x]
                        != stack@[y] by {
                        if x < before.len() && y < before.len() {
                            assert(stack@[x] == before[x] && stack@[y] == before[y]);
                        } else if x < before.len() {
                            assert(stack@[x] == before[x]);
                            assert(before.contains(before[x]));
                        } else if y < before.len() {
                            assert(stack@[y] == before[y]);
                            assert(before.contains(before[y]));
                        }
                    }
                }
            }
        }
    }
    proof {
        assert forall|i: int| 0 <= i < n && depends_on(p, root, p.items[i].id) implies marks@[i] by {
            let s = choose|s: Seq<TimelineItemId>| #[trigger] dependency_chain(p, s) && s[0] == root && s.last() == p.items[i].id;
            lemma_closed_chain(p, marks@, r as int, s, s.len() - 1);
            p.lemma_item_index(i);
        }
    }
    marks
}

// ---------------------------------------------------------------------------
// Finding a circle
// ---------------------------------------------------------------------------

/// Some placement that is still `alive` is read by the placement at `z`.
pub open spec fn has_live_source(p: ProjectView, alive: Seq<bool>, z: int) -> bool {
    exists|a: int| 0 <= a < alive.len() && alive[a] && #[trigger] source_reads(p.items[z].source, p.items[a].id)
}

/// A placement on a circle exists, depends on `root`, and reads another
/// placement of the circle.
proof fn lemma_cycle_member(p: ProjectView, root: TimelineItemId, x: TimelineItemId) -> (y: TimelineItemId)
    requires
        on_cycle(p, root, x),
    ensures
        p.has_item(x),
        depends_on(p, root, x),
        on_cycle(p, root, y),
        reads_item(p, x, y),
{
    let (s, j, k) = choose|s: Seq<TimelineItemId>, j: int, k: int|
        #![trigger dependency_chain(p, s), s[j], s[k]]
        dependency_chain(p, s) && s[0] == root && 0 <= j < s.len() - 1 && s[j] == s.last() && j <= k < s.len() && s[k]
            == x;
    lemma_chain_member(p, s, k);
    lemma_chain_prefix(p, s, k);
    let t = s.take(k + 1);
    assert(dependency_chain(p, t) && t[0] == root && t.last() == x);
    let k2 = if k > j {
        k - 1
    } else {
        s.len() - 2
    };
    assert(chain_link(p, s, k2));
    assert(s[k2 + 1] == x);
    let y = s[k2];
    assert(dependency_chain(p, s) && s[0] == root && 0 <= j < s.len() - 1 && s[j] == s.last() && j <= k2 < s.len()
        && s[k2] == y);
    y
}

/// Following, from `start`, a live source of each placement in turn.
pub open spec fn walk(p: ProjectView, alive: Seq<bool>, start: int, m: nat) -> Seq<int>
    decreases m,
{
    if m == 0 {
        seq![start]
    } else {
        let w = walk(p, alive, start, (m - 1) as nat);
        let a = choose|a: int| 0 <= a < alive.len() && alive[a] && #[trigger] source_reads(p.items[w.last()].source, p.items[a].id);
        w.push(a)
    }
}

proof fn lemma_walk(p: ProjectView, alive: Seq<bool>, start: int, m: nat)
    requires
        alive.len() == p.items.len(),
        0 <= start < alive.len(),
        alive[start],
        forall|z: int| 0 <= z < alive.len() && alive[z] ==> #[trigger] has_live_source(p, alive, z),
    ensures
        walk(p, alive, start, m).len() == m + 1,
        walk(p, alive, start, m)[0] == start,
        forall|i: int|
            0 <= i <= m ==> 0 <= #[trigger] walk(p, alive, start, m)[i] < alive.len() && alive[walk(p, alive, start, m)[i]],
        forall|i: int|
            0 <= i < m ==> #[trigger] source_reads(
                p.items[walk(p, alive, start, m)[i]].source,
                p.items[walk(p, alive, start, m)[i + 1]].id,
            ),
    decreases m,
{
    if m > 0 {
        lemma_walk(p, alive, start, (m - 1) as nat);
        let w = walk(p, alive, start, (m - 1) as nat);
        assert(has_live_source(p, alive, w.last()));
        let v = walk(p, alive, start, m);
        assert(v == w.push(v.last()));
        assert forall|i: int| 0 <= i <= m implies 0 <= #[trigger] v[i] < alive.len() && alive[v[i]] by {
            if i < m {
                assert(v[i] == w[i]);
            }
        }
        assert forall|i: int| 0 <= i < m implies #[trigger] source_reads(p.items[v[i]].source, p.items[v[i + 1]].id) by {
            if i < m - 1 {
                assert(v[i] == w[i] && v[i + 1] == w[i + 1]);
            } else {
                assert(v[i] == w.last());
            }
        }
    }
}

/// More than `n` positions below `n` repeat one.
proof fn lemma_repeat(w: Seq<int>, n: nat) -> (r: (int, int))
    requires
        w.len() == n + 1,
        forall|i: int| 0 <= i < w.len() ==> 0 <= #[trigger] w[i] < n,
    ensures
        0 <= r.0 < r.1 < w.len(),
        w[r.0] == w[r.1],
{
    if w.no_duplicates() {
        w.unique_seq_to_set();
        vstd::set_lib::lemma_int_range(0, n as int);
        assert(w.to_set().subset_of(vstd::set_lib::set_int_range(0, n as int))) by {
            assert forall|x: int| w.to_set().contains(x) implies vstd::set_lib::set_int_range(0, n as int).contains(x) by {
                assert(w.contains(x));
            }
        }
        vstd::set_lib::lemma_len_subset(w.to_set(), vstd::set_lib::set_int_range(0, n as int));
        assert(false);
    }
    let (a, b) = choose|a: int, b: int| 0 <= a < w.len() && 0 <= b < w.len() && a != b && w[a] == w[b];
    if a < b {
        (a, b)
    } else {
        (b, a)
    }
}

/// When every live placement reads a live one, and every live placement
/// depends on `root`, placements that depend on `root` form a circle.
proof fn lemma_stuck(p: ProjectView, root: TimelineItemId, alive: Seq<bool>, start: int)
    requires
        p.unique_item_ids(),
        alive.len() == p.items.len(),
        0 <= start < alive.len(),
        alive[start],
        forall|z: int| 0 <= z < alive.len() && alive[z] ==> #[trigger] has_live_source(p, alive, z),
        forall|z: int| 0 <= z < alive.len() && #[trigger] alive[z] ==> depends_on(p, root, p.items[z].id),
    ensures
        cascade_cycle(p, root),
{
    let n = alive.len();
    lemma_walk(p, alive, start, n);
    let w = walk(p, alive, start, n);
    let (a, b) = lemma_repeat(w, n);
    let len = b - a + 1;
    let c = Seq::new(len as nat, |i: int| p.items[w[b - i]].id);
    assert forall|i: int| 0 <= i < c.len() - 1 implies #[trigger] chain_link(p, c, i) by {
        let x = w[b - i - 1];
        let y = w[b - i];
        assert(source_reads(p.items[w[b - i - 1]].source, p.items[w[b - i - 1 + 1]].id));
        assert(b - i - 1 + 1 == b - i);
        p.lemma_item_index(x);
        assert(c[i + 1] == p.items[x].id && c[i] == p.items[y].id);
    }
    p.lemma_item_index(w[b]);
    assert(dependency_chain(p, c));
    assert(alive[w[b]]);
    let q = choose|q: Seq<TimelineItemId>| #[trigger] dependency_chain(p, q) && q[0] == root && q.last() == p.items[w[b]].id;
    lemma_chain_concat(p, q, c);
    let s = q + c.drop_first();
    let j = q.len() - 1;
    assert(c.last() == p.items[w[a]].id);
    assert(dependency_chain(p, s) && s[0] == root && 0 <= j < s.len() - 1 && s[j] == s.last());
}

/// Whether the placement at `z` reads a placement that is still `alive`.
fn reads_live(project: &AuthoringProject, alive: &Vec<bool>, z: usize) -> (r: bool)
    requires
        alive@.len() == project@.items.len(),
        z < alive@.len(),
    ensures
        r == has_live_source(project@, alive@, z as int),
{
    let ghost p = project@;
    for a in 0..alive.len()
        invariant
            p == project@,
            alive@.len() == p.items.len(),
            z < alive@.len(),
            forall|a2: int| 0 <= a2 < a && alive@[a2] ==> !#[trigger] source_reads(p.items[z as int].source, p.items[a2].id),
    {
        if alive[a] {
            let id = project.items[a].id;
            assert(id == p.items[a as int].id);
            if item_reads(project, z, id) {
                return true;
            }
        }
    }
    false
}

/// A live placement that reads no live placement, if there is one.
fn peelable(project: &AuthoringProject, alive: &Vec<bool>) -> (r: Option<usize>)
    requires
        alive@.len() == project@.items.len(),
    ensures
        match r {
            Some(z) => z < alive@.len() && alive@[z as int] && !has_live_source(project@, alive@, z as int),
            None => forall|z: int| 0 <= z < alive@.len() && alive@[z] ==> #[trigger] has_live_source(project@, alive@, z),
        },
{
    for z in 0..alive.len()
        invariant
            alive@.len() == project@.items.len(),
            forall|z2: int| 0 <= z2 < z && alive@[z2] ==> #[trigger] has_live_source(project@, alive@, z2),
    {
        if alive[z] && !reads_live(project, alive, z) {
            return Some(z);
        }
    }
    None
}

/// Whether the placements that depend on the placement at `r`, marked in
/// `marks`, read one another in a circle.
pub(crate) fn reaches_cycle(project: &AuthoringProject, r: usize, marks: &Vec<bool>) -> (cyclic: bool)
    requires
        project@.unique_item_ids(),
        r < project@.items.len(),
        marks@.len() == project@.items.len(),
        forall|i: int|
            0 <= i < marks@.len() ==> (marks@[i] <==> depends_on(project@, project@.items[r as int].id, project@.items[i].id)),
    ensures
        cyclic == cascade_cycle(project@, project@.items[r as int].id),
{
    let ghost p = project@;
    let ghost root = p.items[r as int].id;
    let n = marks.len();
    let mut alive: Vec<bool> = Vec::new();
    for i in 0..n
        invariant
            n == marks@.len(),
            alive@ == marks@.take(i as int),
    {
        alive.push(marks[i]);
        assert(alive@ =~= marks@.take(i + 1));
    }
    assert(alive@ =~= marks@);
    proof {
        assert forall|i: int| 0 <= i < n && #[trigger] on_cycle(p, root, p.items[i].id) implies alive@[i] by {
            lemma_cycle_member(p, root, p.items[i].id);
        }
    }
    loop
        invariant
            p == project@,
            p.unique_item_ids(),
            root == p.items[r as int].id,
            n == p.items.len(),
            alive@.len() == n,
            forall|i: int| 0 <= i < n && #[trigger] alive@[i] ==> depends_on(p, root, p.items[i].id),
            forall|i: int| 0 <= i < n && #[trigger] on_cycle(p, root, p.items[i].id) ==> alive@[i],
        decreases count_of(alive@, true),
    {
        match peelable(project, &alive) {
            Some(z) => {
                proof {
                    if on_cycle(p, root, p.items[z as int].id) {
                        let y = lemma_cycle_member(p, root, p.items[z as int].id);
                        lemma_cycle_member(p, root, y);
                        let a = p.item_index(y);
                        assert(on_cycle(p, root, p.items[a].id));
                        p.lemma_item_index(z as int);
                        assert(source_reads(p.items[z as int].source, p.items[a].id));
                        assert(has_live_source(p, alive@, z as int));
                    }
                    lemma_count_flip(alive@, z as int, true);
                }
                alive.set(z, false);
            },
            None => {
                for i in 0..n
                    invariant
                        p == project@,
                        p.unique_item_ids(),
                        root == p.items[r as int].id,
                        n == p.items.len(),
                        alive@.len() == n,
                        forall|k: int| 0 <= k < i ==> !alive@[k],
                        forall|z: int| 0 <= z < alive@.len() && alive@[z] ==> #[trigger] has_live_source(p, alive@, z),
                        forall|k: int| 0 <= k < n && #[trigger] alive@[k] ==> depends_on(p, root, p.items[k].id),
                        forall|k: int| 0 <= k < n && #[trigger] on_cycle(p, root, p.items[k].id) ==> alive@[k],
                {
                    if alive[i] {
                        proof {
                            lemma_stuck(p, root, alive@, i as int);
                        }
                        return true;
                    }
                }
                proof {
                    if cascade_cycle(p, root) {
                        let (s, j) = choose|s: Seq<TimelineItemId>, j: int|
                            #![trigger dependency_chain(p, s), s[j]]
                            dependency_chain(p, s) && s[0] == root && 0 <= j < s.len() - 1 && s[j] == s.last();
                        let x = s.last();
                        assert(dependency_chain(p, s) && s[0] == root && 0 <= j < s.len() - 1 && s[j] == s.last() && j <= s.len()
                            - 1 < s.len() && s[s.len() - 1] == x);
                        lemma_cycle_member(p, root, x);
                        assert(on_cycle(p, root, p.items[p.item_index(x)].id));
                    }
                }
                return false;
            },
        }
    }
}

// ---------------------------------------------------------------------------
// What is left afterwards
// ---------------------------------------------------------------------------

/// The placements that go with `root`: itself and every placement that
/// depends on it.
pub open spec fn cascade_set(p: ProjectView, root: TimelineItemId) -> Set<TimelineItemId> {
    Set::new(|x: TimelineItemId| depends_on(p, root, x))
}

/// Placement `item` with no parent when its parent goes.
pub open spec fn orphaned_from(item: TimelineItemView, d: Set<TimelineItemId>) -> TimelineItemView {
    match item.parent {
        Some(parent) => if d.contains(parent) {
            TimelineItemView { parent: None, ..item }
        } else {
            item
        },
        None => item,
    }
}

/// The placements among `items` that stay, each without a parent that goes.
pub open spec fn surviving_items(items: Seq<TimelineItemView>, d: Set<TimelineItemId>) -> Seq<TimelineItemView>
    decreases items.len(),
{
    if items.len() == 0 {
        seq![]
    } else {
        let rest = surviving_items(items.drop_last(), d);
        if d.contains(items.last().id) {
            rest
        } else {
            rest.push(orphaned_from(items.last(), d))
        }
    }
}

/// The placements among `items` that go.
pub open spec fn doomed_items(items: Seq<TimelineItemView>, d: Set<TimelineItemId>) -> Seq<TimelineItemView>
    decreases items.len(),
{
    if items.len() == 0 {
        seq![]
    } else {
        let rest = doomed_items(items.drop_last(), d);
        if d.contains(items.last().id) {
            rest.push(items.last())
        } else {
            rest
        }
    }
}

/// `order` without the placements that go.
pub open spec fn remaining_order(order: Seq<TimelineItemId>, d: Set<TimelineItemId>) -> Seq<TimelineItemId>
    decreases order.len(),
{
    if order.len() == 0 {
        seq![]
    } else {
        let rest = remaining_order(order.drop_last(), d);
        if d.contains(order.last()) {
            rest
        } else {
            rest.push(order.last())
        }
    }
}

/// The layer order of each Track of `p`, without the placements that go.
pub open spec fn track_orders(index: TimelineEditPlanningIndex, p: ProjectView, d: Set<TimelineItemId>) -> Seq<
    Seq<TimelineItemId>,
> {
    Seq::new(p.tracks.len(), |k: int| remaining_order(index.order(p.tracks[k].id), d))
}

/// `items` with the layers of each order in `orders` renumbered, one after
/// the other.
pub open spec fn relayered(items: Seq<TimelineItemView>, orders: Seq<Seq<TimelineItemId>>) -> Seq<TimelineItemView>
    decreases orders.len(),
{
    if orders.len() == 0 {
        items
    } else {
        layered(relayered(items, orders.drop_last()), orders.last())
    }
}

/// The Transitions among `transitions` whose placements both stay.
pub open spec fn surviving_transitions(transitions: Seq<Transition>, d: Set<TimelineItemId>) -> Seq<Transition>
    decreases transitions.len(),
{
    if transitions.len() == 0 {
        seq![]
    } else {
        let rest = surviving_transitions(transitions.drop_last(), d);
        let t = transitions.last();
        if d.contains(t.from_item_id) || d.contains(t.to_item_id) {
            rest
        } else {
            rest.push(t)
        }
    }
}

/// One of `bindings` reads a placement that goes.
pub open spec fn reads_any(bindings: Seq<InputBindingEntry>, d: Set<TimelineItemId>) -> bool {
    exists|k: int| 0 <= k < bindings.len() && d.contains(binding_item(#[trigger] bindings[k].binding))
}

/// Attachment `a` goes: its placement goes, or its Module reads one that
/// does.
pub open spec fn attachment_gone(a: AttachmentView, d: Set<TimelineItemId>) -> bool {
    ||| a.owner matches AttachmentOwner::Item { item_id } && d.contains(item_id)
    ||| a.processor matches AttachmentProcessorView::Module(invocation) && reads_any(invocation.input_bindings, d)
}

/// The Attachments among `attachments` that stay.
pub open spec fn kept_attachments(attachments: Seq<AttachmentView>, d: Set<TimelineItemId>) -> Seq<AttachmentView>
    decreases attachments.len(),
{
    if attachments.len() == 0 {
        seq![]
    } else {
        let rest = kept_attachments(attachments.drop_last(), d);
        if attachment_gone(attachments.last(), d) {
            rest
        } else {
            rest.push(attachments.last())
        }
    }
}

/// The Attachments among `attachments` that go.
pub open spec fn gone_attachments(attachments: Seq<AttachmentView>, d: Set<TimelineItemId>) -> Seq<AttachmentView>
    decreases attachments.len(),
{
    if attachments.len() == 0 {
        seq![]
    } else {
        let rest = gone_attachments(attachments.drop_last(), d);
        if attachment_gone(attachments.last(), d) {
            rest.push(attachments.last())
        } else {
            rest
        }
    }
}

/// Attachment `k` of `s` comes before Attachment `i` in `i`'s stack: by
/// order, and by position between equal orders.
pub open spec fn ranks_below(s: Seq<AttachmentView>, k: int, i: int) -> bool {
    &&& in_stack(s[k], s[i].owner, s[i].stage)
    &&& (s[k].order < s[i].order || (s[k].order == s[i].order && k < i))
}

/// How many of the first `m` Attachments of `s` come before Attachment `i`
/// in its stack.
pub open spec fn stack_rank(s: Seq<AttachmentView>, i: int, m: int) -> nat
    decreases m,
{
    if m <= 0 {
        0
    } else {
        stack_rank(s, i, m - 1) + if ranks_below(s, m - 1, i) {
            1nat
        } else {
            0nat
        }
    }
}

/// `s` with each stack renumbered `0, 1, ...` in its order.
pub open spec fn ranked(s: Seq<AttachmentView>) -> Seq<AttachmentView> {
    Seq::new(s.len(), |i: int| AttachmentView { order: stack_rank(s, i, s.len() as int) as i64, ..s[i] })
}

/// `p` without the instances that placements `removed` invoke, one after
/// the other.
pub open spec fn without_item_instances(p: ProjectView, removed: Seq<TimelineItemView>) -> ProjectView
    decreases removed.len(),
{
    if removed.len() == 0 {
        p
    } else {
        let q = without_item_instances(p, removed.drop_last());
        match removed.last().source {
            SourceRefView::Module(invocation) => without_instance(q, invocation.instance_id),
            _ => q,
        }
    }
}

/// `p` after the placements `d` go: the others lose them as parent and have
/// their Tracks' layers renumbered in order; the Transitions and
/// Attachments that depend on them go, and the other Attachment stacks are
/// renumbered; the Module instances that the removed placements and
/// Attachments invoke go with their private definitions.
pub open spec fn cascaded(p: ProjectView, index: TimelineEditPlanningIndex, d: Set<TimelineItemId>) -> ProjectView {
    let base = ProjectView {
        items: relayered(surviving_items(p.items, d), track_orders(index, p, d)),
        transitions: surviving_transitions(p.transitions, d),
        attachments: ranked(kept_attachments(p.attachments, d)),
        ..p
    };
    without_attachment_instances(without_item_instances(base, doomed_items(p.items, d)), gone_attachments(p.attachments, d))
}

/// The cascade can run: the placement exists, what depends on it forms no
/// circle, and the renumbered layers and stack positions are representable.
pub open spec fn cascade_allowed(p: ProjectView, index: TimelineEditPlanningIndex, root: TimelineItemId) -> bool {
    &&& p.has_item(root)
    &&& !cascade_cycle(p, root)
    &&& forall|k: int| 0 <= k < p.tracks.len() ==> layers_fit(#[trigger] track_orders(index, p, cascade_set(p, root))[k].len() as int)
    &&& layers_fit(kept_attachments(p.attachments, cascade_set(p, root)).len() as int)
}

// ---------------------------------------------------------------------------
// Building what is left
// ---------------------------------------------------------------------------

/// The marks describe what depends on the placement at `r`.
pub open spec fn marks_cascade(p: ProjectView, marks: Seq<bool>, r: int) -> bool {
    &&& p.unique_item_ids()
    &&& 0 <= r < p.items.len()
    &&& marks.len() == p.items.len()
    &&& forall|i: int| 0 <= i < marks.len() ==> (marks[i] <==> depends_on(p, p.items[r].id, p.items[i].id))
}

/// Whether placement `id` goes with the placement at `r`.
fn in_cascade(project: &AuthoringProject, marks: &Vec<bool>, r: usize, id: TimelineItemId) -> (b: bool)
    requires
        marks_cascade(project@, marks@, r as int),
    ensures
        b == cascade_set(project@, project@.items[r as int].id).contains(id),
{
    let ghost p = project@;
    let ghost root = p.items[r as int].id;
    match project.item_position(id) {
        None => {
            proof {
                if depends_on(p, root, id) {
                    let c = choose|c: Seq<TimelineItemId>| #[trigger] dependency_chain(p, c) && c[0] == root && c.last() == id;
                    lemma_chain_member(p, c, c.len() - 1);
                }
            }
            false
        },
        Some(i) => marks[i],
    }
}

/// Whether one of `bindings` reads a placement that goes.
fn reads_cascade(project: &AuthoringProject, marks: &Vec<bool>, r: usize, bindings: &Vec<InputBindingEntry>) -> (b: bool)
    requires
        marks_cascade(project@, marks@, r as int),
    ensures
        b == reads_any(bindings@, cascade_set(project@, project@.items[r as int].id)),
{
    let ghost d = cascade_set(project@, project@.items[r as int].id);
    for k in 0..bindings.len()
        invariant
            marks_cascade(project@, marks@, r as int),
            d == cascade_set(project@, project@.items[r as int].id),
            forall|m: int| 0 <= m < k ==> !d.contains(binding_item(#[trigger] bindings@[m].binding)),
    {
        let source = match bindings[k].binding {
            MediaInputBinding::TimelineItemOutput { item_id: source, .. } => source,
        };
        assert(binding_item(bindings@[k as int].binding) == source);
        if in_cascade(project, marks, r, source) {
            return true;
        }
    }
    false
}

/// Whether Attachment `a` goes.
fn attachment_goes(project: &AuthoringProject, marks: &Vec<bool>, r: usize, a: &Attachment) -> (b: bool)
    requires
        marks_cascade(project@, marks@, r as int),
    ensures
        b == attachment_gone(a@, cascade_set(project@, project@.items[r as int].id)),
{
    let owner_goes = match a.owner {
        AttachmentOwner::Item { item_id } => in_cascade(project, marks, r, item_id),
        _ => false,
    };
    if owner_goes {
        return true;
    }
    match &a.processor {
        AttachmentProcessor::Module(invocation) => reads_cascade(project, marks, r, &invocation.input_bindings),
        _ => false,
    }
}

/// The placements of `project` that stay.
fn surviving_item_list(project: &AuthoringProject, marks: &Vec<bool>, r: usize) -> (out: Vec<TimelineItem>)
    requires
        marks_cascade(project@, marks@, r as int),
    ensures
        out@.map_values(|x: TimelineItem| x@) == surviving_items(
            project@.items,
            cascade_set(project@, project@.items[r as int].id),
        ),
{
    let ghost p = project@;
    let ghost d = cascade_set(p, p.items[r as int].id);
    let mut out: Vec<TimelineItem> = Vec::new();
    for m in 0..project.items.len()
        invariant
            p == project@,
            marks_cascade(p, marks@, r as int),
            d == cascade_set(p, p.items[r as int].id),
            out@.map_values(|x: TimelineItem| x@) == surviving_items(p.items.take(m as int), d),
    {
        proof {
            let next = p.items.take(m + 1);
            assert(next.drop_last() =~= p.items.take(m as int));
            assert(next.last() == p.items[m as int]);
        }
        assert(project.items@[m as int]@ == p.items[m as int]);
        let id = project.items[m].id;
        if !in_cascade(project, marks, r, id) {
            let ghost before = out@.map_values(|x: TimelineItem| x@);
            let mut x = project.items[m].clone();
            let orphan = match x.parent {
                Some(parent) => in_cascade(project, marks, r, parent),
                None => false,
            };
            if orphan {
                x.parent = None;
            }
            assert(x@ == orphaned_from(p.items[m as int], d));
            out.push(x);
            assert(out@.map_values(|x: TimelineItem| x@) =~= before.push(orphaned_from(p.items[m as int], d)));
        }
    }
    assert(p.items.take(p.items.len() as int) =~= p.items);
    out
}

/// The Transitions of `project` whose placements both stay.
fn surviving_transition_list(project: &AuthoringProject, marks: &Vec<bool>, r: usize) -> (out: Vec<Transition>)
    requires
        marks_cascade(project@, marks@, r as int),
    ensures
        out@ == surviving_transitions(project@.transitions, cascade_set(project@, project@.items[r as int].id)),
{
    let ghost p = project@;
    let ghost d = cascade_set(p, p.items[r as int].id);
    let mut out: Vec<Transition> = Vec::new();
    for m in 0..project.transitions.len()
        invariant
            p == project@,
            marks_cascade(p, marks@, r as int),
            d == cascade_set(p, p.items[r as int].id),
            out@ == surviving_transitions(p.transitions.take(m as int), d),
    {
        proof {
            let next = p.transitions.take(m + 1);
            assert(next.drop_last() =~= p.transitions.take(m as int));
            assert(next.last() == p.transitions[m as int]);
        }
        let t = project.transitions[m];
        if !in_cascade(project, marks, r, t.from_item_id) && !in_cascade(project, marks, r, t.to_item_id) {
            out.push(t);
        }
    }
    assert(p.transitions.take(p.transitions.len() as int) =~= p.transitions);
    out
}

/// The Attachments of `project` that stay and those that go.
fn split_attachments(project: &AuthoringProject, marks: &Vec<bool>, r: usize) -> (out: (Vec<Attachment>, Vec<Attachment>))
    requires
        marks_cascade(project@, marks@, r as int),
    ensures
        out.0@.map_values(|a: Attachment| a@) == kept_attachments(
            project@.attachments,
            cascade_set(project@, project@.items[r as int].id),
        ),
        out.1@.map_values(|a: Attachment| a@) == gone_attachments(
            project@.attachments,
            cascade_set(project@, project@.items[r as int].id),
        ),
{
    let ghost p = project@;
    let ghost d = cascade_set(p, p.items[r as int].id);
    let mut kept: Vec<Attachment> = Vec::new();
    let mut gone: Vec<Attachment> = Vec::new();
    for m in 0..project.attachments.len()
        invariant
            p == project@,
            marks_cascade(p, marks@, r as int),
            d == cascade_set(p, p.items[r as int].id),
            kept@.map_values(|a: Attachment| a@) == kept_attachments(p.attachments.take(m as int), d),
            gone@.map_values(|a: Attachment| a@) == gone_attachments(p.attachments.take(m as int), d),
    {
        proof {
            let next = p.attachments.take(m + 1);
            assert(next.drop_last() =~= p.attachments.take(m as int));
            assert(next.last() == p.attachments[m as int]);
        }
        let a = project.attachments[m].clone();
        assert(a@ == p.attachments[m as int]);
        if attachment_goes(project, marks, r, &a) {
            let ghost before = gone@.map_values(|x: Attachment| x@);
            gone.push(a);
            assert(gone@.map_values(|x: Attachment| x@) =~= before.push(p.attachments[m as int]));
        } else {
            let ghost before = kept@.map_values(|x: Attachment| x@);
            kept.push(a);
            assert(kept@.map_values(|x: Attachment| x@) =~= before.push(p.attachments[m as int]));
        }
    }
    assert(p.attachments.take(p.attachments.len() as int) =~= p.attachments);
    (kept, gone)
}

/// `kept` with each stack renumbered in its order.
fn rank_attachments(kept: &Vec<Attachment>) -> (out: Vec<Attachment>)
    requires
        layers_fit(kept@.len() as int),
    ensures
        out@.map_values(|a: Attachment| a@) == ranked(kept@.map_values(|a: Attachment| a@)),
{
    let ghost s = kept@.map_values(|a: Attachment| a@);
    let mut out: Vec<Attachment> = Vec::new();
    for i in 0..kept.len()
        invariant
            s == kept@.map_values(|a: Attachment| a@),
            layers_fit(kept@.len() as int),
            out@.len() == i,
            forall|j: int| 0 <= j < i ==> (#[trigger] out@[j])@ == ranked(s)[j],
    {
        let mut count: usize = 0;
        for k in 0..kept.len()
            invariant
                s == kept@.map_values(|a: Attachment| a@),
                i < kept@.len(),
                count <= k,
                count == stack_rank(s, i as int, k as int),
        {
            let below = kept[k].owner == kept[i].owner && kept[k].stage == kept[i].stage && (kept[k].order < kept[i].order
                || (kept[k].order == kept[i].order && k < i));
            assert(kept@[k as int]@ == s[k as int] && kept@[i as int]@ == s[i as int]);
            assert(below == ranks_below(s, k as int, i as int));
            if below {
                count = count + 1;
            }
        }
        let mut a = kept[i].clone();
        a.order = count as i64;
        assert(a@ == ranked(s)[i as int]);
        out.push(a);
    }
    assert(out@.map_values(|a: Attachment| a@) =~= ranked(s));
    out
}

/// Removing an instance keeps the instance and definition identities
/// distinct and leaves everything else alone.
proof fn lemma_without_instance_distinct(q: ProjectView, instance_id: ModuleInstanceId)
    requires
        q.unique_instance_ids(),
        q.unique_definition_ids(),
    ensures
        without_instance(q, instance_id).unique_instance_ids(),
        without_instance(q, instance_id).unique_definition_ids(),
{
    if q.has_instance(instance_id) {
        let w = without_instance(q, instance_id);
        let i = q.instance_index(instance_id);
        assert forall|a: int, b: int|
            0 <= a < w.module_instances.len() && 0 <= b < w.module_instances.len() && a != b implies w.module_instances[a].id
            != w.module_instances[b].id by {
            let oa = if a < i { a } else { a + 1 };
            let ob = if b < i { b } else { b + 1 };
            assert(w.module_instances[a] == q.module_instances[oa]);
            assert(w.module_instances[b] == q.module_instances[ob]);
        }
        let definition_id = q.module_instances[i].definition_id;
        if q.has_definition(definition_id) {
            let d = q.definition_index(definition_id);
            assert forall|a: int, b: int|
                0 <= a < w.module_definitions.len() && 0 <= b < w.module_definitions.len() && a != b implies w.module_definitions[a].id
                != w.module_definitions[b].id by {
                if w.module_definitions.len() < q.module_definitions.len() {
                    let oa = if a < d { a } else { a + 1 };
                    let ob = if b < d { b } else { b + 1 };
                    assert(w.module_definitions[a] == q.module_definitions[oa]);
                    assert(w.module_definitions[b] == q.module_definitions[ob]);
                } else {
                    assert(w.module_definitions[a].id == q.module_definitions[a].id);
                    assert(w.module_definitions[b].id == q.module_definitions[b].id);
                }
            }
        }
    }
}

/// Removes the instances that the placements which go invoke.
fn remove_item_instances(candidate: &mut AuthoringProject, project: &AuthoringProject, marks: &Vec<bool>, r: usize)
    requires
        marks_cascade(project@, marks@, r as int),
        old(candidate)@.unique_instance_ids(),
        old(candidate)@.unique_definition_ids(),
    ensures
        final(candidate)@ == without_item_instances(
            old(candidate)@,
            doomed_items(project@.items, cascade_set(project@, project@.items[r as int].id)),
        ),
        final(candidate)@.unique_instance_ids(),
        final(candidate)@.unique_definition_ids(),
{
    let ghost p = project@;
    let ghost d = cascade_set(p, p.items[r as int].id);
    let ghost start = candidate@;
    for m in 0..project.items.len()
        invariant
            p == project@,
            marks_cascade(p, marks@, r as int),
            d == cascade_set(p, p.items[r as int].id),
            candidate@ == without_item_instances(start, doomed_items(p.items.take(m as int), d)),
            candidate@.unique_instance_ids(),
            candidate@.unique_definition_ids(),
    {
        proof {
            let next = p.items.take(m + 1);
            assert(next.drop_last() =~= p.items.take(m as int));
            assert(next.last() == p.items[m as int]);
        }
        assert(project.items@[m as int]@ == p.items[m as int]);
        if in_cascade(project, marks, r, project.items[m].id) {
            proof {
                let doomed = doomed_items(p.items.take(m + 1), d);
                assert(doomed.drop_last() == doomed_items(p.items.take(m as int), d));
                assert(doomed.last() == p.items[m as int]);
            }
            match &project.items[m].source {
                SourceRef::Module(invocation) => {
                    proof {
                        lemma_without_instance_distinct(candidate@, invocation.instance_id);
                    }
                    candidate.remove_instance_and_private_definition(invocation.instance_id);
                },
                _ => {},
            }
        }
    }
    assert(p.items.take(p.items.len() as int) =~= p.items);
}

/// Removes the instances that the Attachments `gone` invoke.
fn remove_attachment_instances(candidate: &mut AuthoringProject, gone: &Vec<Attachment>)
    requires
        old(candidate)@.unique_instance_ids(),
        old(candidate)@.unique_definition_ids(),
    ensures
        final(candidate)@ == without_attachment_instances(old(candidate)@, gone@.map_values(|a: Attachment| a@)),
{
    let ghost start = candidate@;
    let ghost removed = gone@.map_values(|a: Attachment| a@);
    for m in 0..gone.len()
        invariant
            removed == gone@.map_values(|a: Attachment| a@),
            candidate@ == without_attachment_instances(start, removed.take(m as int)),
            candidate@.unique_instance_ids(),
            candidate@.unique_definition_ids(),
    {
        proof {
            let next = removed.take(m + 1);
            assert(next.drop_last() =~= removed.take(m as int));
            assert(next.last() == removed[m as int]);
            assert(gone@[m as int]@ == removed[m as int]);
        }
        match &gone[m].processor {
            AttachmentProcessor::Module(invocation) => {
                proof {
                    lemma_without_instance_distinct(candidate@, invocation.instance_id);
                }
                candidate.remove_instance_and_private_definition(invocation.instance_id);
            },
            _ => {},
        }
    }
    assert(removed.take(removed.len() as int) =~= removed);
}

/// Leaving placements out of an order keeps it free of repeats and
/// within the order.
proof fn lemma_remaining_order(order: Seq<TimelineItemId>, d: Set<TimelineItemId>)
    requires
        order.no_duplicates(),
    ensures
        remaining_order(order, d).no_duplicates(),
        remaining_order(order, d).len() <= order.len(),
        forall|x: TimelineItemId| remaining_order(order, d).contains(x) ==> order.contains(x),
    decreases order.len(),
{
    if order.len() > 0 {
        let o = order.drop_last();
        assert forall|a: int, b: int| 0 <= a < o.len() && 0 <= b < o.len() && a != b implies o[a] != o[b] by {
            assert(o[a] == order[a] && o[b] == order[b]);
        }
        lemma_remaining_order(o, d);
        let rest = remaining_order(o, d);
        assert forall|x: TimelineItemId| remaining_order(order, d).contains(x) implies order.contains(x) by {
            if rest.contains(x) {
                assert(o.contains(x));
                let k = choose|k: int| 0 <= k < o.len() && o[k] == x;
                assert(order[k] == x);
            } else {
                assert(order[order.len() - 1] == x);
            }
        }
        if !d.contains(order.last()) {
            let t = rest.push(order.last());
            assert(!rest.contains(order.last())) by {
                if rest.contains(order.last()) {
                    assert(o.contains(order.last()));
                    let k = choose|k: int| 0 <= k < o.len() && o[k] == order.last();
                    assert(order[k] == order[order.len() - 1]);
                }
            }
            assert forall|a: int, b: int| 0 <= a < t.len() && 0 <= b < t.len() && a != b implies t[a] != t[b] by {
                if a < rest.len() && b < rest.len() {
                } else if a < rest.len() {
                    assert(rest.contains(t[a]));
                } else if b < rest.len() {
                    assert(rest.contains(t[b]));
                }
            }
        }
    }
}

/// Renumbers the layers of every Track of `project` in its order without
/// the placements that go; false when some Track's layers do not fit.
fn relayer_tracks(
    candidate: &mut AuthoringProject,
    index: &TimelineEditPlanningIndex,
    project: &AuthoringProject,
    marks: &Vec<bool>,
    r: usize,
) -> (ok: bool)
    requires
        marks_cascade(project@, marks@, r as int),
        index.indexes(project@),
        project@.unique_track_ids(),
    ensures
        ok == forall|k: int|
            0 <= k < project@.tracks.len() ==> layers_fit(
                #[trigger] track_orders(*index, project@, cascade_set(project@, project@.items[r as int].id))[k].len() as int,
            ),
        ok ==> final(candidate)@ == with_items(
            old(candidate)@,
            relayered(old(candidate)@.items, track_orders(*index, project@, cascade_set(project@, project@.items[r as int].id))),
        ),
{
    let ghost p = project@;
    let ghost d = cascade_set(p, p.items[r as int].id);
    let ghost orders = track_orders(*index, p, d);
    let ghost start = candidate@;
    for k in 0..project.tracks.len()
        invariant
            p == project@,
            marks_cascade(p, marks@, r as int),
            index.indexes(p),
            p.unique_track_ids(),
            d == cascade_set(p, p.items[r as int].id),
            orders == track_orders(*index, p, d),
            orders.len() == p.tracks.len(),
            forall|k2: int| 0 <= k2 < k ==> layers_fit(#[trigger] orders[k2].len() as int),
            candidate@ == with_items(start, relayered(start.items, orders.take(k as int))),
    {
        let track_id = project.tracks[k].id;
        proof {
            assert(p.tracks[k as int].id == track_id);
            assert(p.has_track(track_id));
            index.lemma_indexes(p, track_id);
        }
        let order = index.track_items(track_id);
        let mut kept: Vec<crate::ids::TimelineItemId> = Vec::new();
        for m in 0..order.len()
            invariant
                marks_cascade(p, marks@, r as int),
                p == project@,
                d == cascade_set(p, p.items[r as int].id),
                kept@ == remaining_order(order@.take(m as int), d),
        {
            proof {
                let next = order@.take(m + 1);
                assert(next.drop_last() =~= order@.take(m as int));
                assert(next.last() == order@[m as int]);
            }
            if !in_cascade(project, marks, r, order[m]) {
                kept.push(order[m]);
            }
        }
        assert(order@.take(order@.len() as int) =~= order@);
        assert(kept@ == orders[k as int]);
        proof {
            lemma_remaining_order(order@, d);
        }
        if kept.len() as u64 > (i64::MAX as u64) + 1 {
            return false;
        }
        crate::authoring::assign_layers(candidate, &kept);
        proof {
            let t = orders.take(k + 1);
            assert(t.drop_last() =~= orders.take(k as int));
            assert(t.last() == orders[k as int]);
        }
    }
    assert(orders.take(orders.len() as int) =~= orders);
    true
}

// ---------------------------------------------------------------------------
// What a cascade leaves
// ---------------------------------------------------------------------------

proof fn lemma_instances_leave_rest(base: ProjectView, items: Seq<TimelineItemView>, attachments: Seq<AttachmentView>)
    ensures
        without_attachment_instances(without_item_instances(base, items), attachments).items == base.items,
        without_attachment_instances(without_item_instances(base, items), attachments).transitions == base.transitions,
        without_attachment_instances(without_item_instances(base, items), attachments).attachments == base.attachments,
    decreases items.len() + attachments.len(),
{
    if attachments.len() > 0 {
        lemma_instances_leave_rest(base, items, attachments.drop_last());
    } else if items.len() > 0 {
        lemma_instances_leave_rest(base, items.drop_last(), attachments);
    }
}

proof fn lemma_surviving_items(items: Seq<TimelineItemView>, d: Set<TimelineItemId>)
    ensures
        forall|i: int|
            0 <= i < surviving_items(items, d).len() ==> {
                let x = #[trigger] surviving_items(items, d)[i];
                &&& !d.contains(x.id)
                &&& !(x.parent matches Some(parent) && d.contains(parent))
                &&& exists|j: int| 0 <= j < items.len() && items[j].id == x.id && items[j].source == x.source
            },
        forall|j: int|
            0 <= j < items.len() && !d.contains(#[trigger] items[j].id) ==> exists|i: int|
                0 <= i < surviving_items(items, d).len() && surviving_items(items, d)[i].id == items[j].id,
    decreases items.len(),
{
    if items.len() > 0 {
        let o = items.drop_last();
        lemma_surviving_items(o, d);
        let rest = surviving_items(o, d);
        let all = surviving_items(items, d);
        assert forall|i: int| 0 <= i < all.len() implies {
            let x = #[trigger] all[i];
            &&& !d.contains(x.id)
            &&& !(x.parent matches Some(parent) && d.contains(parent))
            &&& exists|j: int| 0 <= j < items.len() && items[j].id == x.id && items[j].source == x.source
        } by {
            if i < rest.len() {
                assert(all[i] == rest[i]);
                let j = choose|j: int| 0 <= j < o.len() && o[j].id == rest[i].id && o[j].source == rest[i].source;
                assert(items[j] == o[j]);
            } else {
                assert(all[i] == orphaned_from(items.last(), d));
                assert(items[items.len() - 1] == items.last());
            }
        }
        assert forall|j: int| 0 <= j < items.len() && !d.contains(#[trigger] items[j].id) implies exists|i: int|
            0 <= i < all.len() && all[i].id == items[j].id by {
            if j < o.len() {
                assert(o[j] == items[j]);
                let i = choose|i: int| 0 <= i < rest.len() && rest[i].id == o[j].id;
                assert(all[i] == rest[i]);
            } else {
                assert(all[all.len() - 1] == orphaned_from(items.last(), d));
            }
        }
    }
}

proof fn lemma_relayered(items: Seq<TimelineItemView>, orders: Seq<Seq<TimelineItemId>>)
    ensures
        relayered(items, orders).len() == items.len(),
        forall|i: int|
            0 <= i < items.len() ==> (#[trigger] relayered(items, orders)[i]).id == items[i].id && relayered(items, orders)[i].source
                == items[i].source && relayered(items, orders)[i].parent == items[i].parent,
    decreases orders.len(),
{
    if orders.len() > 0 {
        lemma_relayered(items, orders.drop_last());
    }
}

proof fn lemma_surviving_transitions(transitions: Seq<Transition>, d: Set<TimelineItemId>)
    ensures
        forall|k: int|
            0 <= k < surviving_transitions(transitions, d).len() ==> !d.contains(
                (#[trigger] surviving_transitions(transitions, d)[k]).from_item_id,
            ) && !d.contains(surviving_transitions(transitions, d)[k].to_item_id),
    decreases transitions.len(),
{
    if transitions.len() > 0 {
        lemma_surviving_transitions(transitions.drop_last(), d);
        let rest = surviving_transitions(transitions.drop_last(), d);
        let all = surviving_transitions(transitions, d);
        assert forall|k: int| 0 <= k < all.len() implies !d.contains((#[trigger] all[k]).from_item_id) && !d.contains(
            all[k].to_item_id,
        ) by {
            if k < rest.len() {
                assert(all[k] == rest[k]);
            }
        }
    }
}

proof fn lemma_kept_attachments(attachments: Seq<AttachmentView>, d: Set<TimelineItemId>)
    ensures
        forall|k: int|
            0 <= k < kept_attachments(attachments, d).len() ==> !attachment_gone(
                #[trigger] kept_attachments(attachments, d)[k],
                d,
            ),
    decreases attachments.len(),
{
    if attachments.len() > 0 {
        lemma_kept_attachments(attachments.drop_last(), d);
        let rest = kept_attachments(attachments.drop_last(), d);
        let all = kept_attachments(attachments, d);
        assert forall|k: int| 0 <= k < all.len() implies !attachment_gone(#[trigger] all[k], d) by {
            if k < rest.len() {
                assert(all[k] == rest[k]);
            }
        }
    }
}

/// What a cascade deletion promises: the placements that go are exactly
/// `root` and those that depend on it, and nothing that stays reads one of
/// them, takes part in a Transition with one, is attached to one, or has
/// one as parent.
pub proof fn lemma_cascade_leaves_no_dependents(p: ProjectView, index: TimelineEditPlanningIndex, root: TimelineItemId)
    requires
        p.unique_item_ids(),
    ensures
        ({
            let d = cascade_set(p, root);
            let q = cascaded(p, index, d);
            &&& forall|x: TimelineItemId| q.has_item(x) <==> p.has_item(x) && !depends_on(p, root, x)
            &&& forall|i: int, y: TimelineItemId|
                0 <= i < q.items.len() && depends_on(p, root, y) ==> !#[trigger] source_reads(q.items[i].source, y)
            &&& forall|i: int|
                0 <= i < q.items.len() ==> !((#[trigger] q.items[i]).parent matches Some(parent) && depends_on(p, root, parent))
            &&& forall|k: int|
                0 <= k < q.transitions.len() ==> !depends_on(p, root, (#[trigger] q.transitions[k]).from_item_id)
                    && !depends_on(p, root, q.transitions[k].to_item_id)
            &&& forall|k: int| 0 <= k < q.attachments.len() ==> !attachment_gone(#[trigger] q.attachments[k], d)
        }),
{
    let d = cascade_set(p, root);
    let q = cascaded(p, index, d);
    let survivors = surviving_items(p.items, d);
    let base = ProjectView {
        items: relayered(survivors, track_orders(index, p, d)),
        transitions: surviving_transitions(p.transitions, d),
        attachments: ranked(kept_attachments(p.attachments, d)),
        ..p
    };
    lemma_instances_leave_rest(base, doomed_items(p.items, d), gone_attachments(p.attachments, d));
    lemma_surviving_items(p.items, d);
    lemma_relayered(survivors, track_orders(index, p, d));
    lemma_surviving_transitions(p.transitions, d);
    lemma_kept_attachments(p.attachments, d);
    assert(q.items == base.items);
    assert forall|x: TimelineItemId| q.has_item(x) <==> p.has_item(x) && !depends_on(p, root, x) by {
        if q.has_item(x) {
            let i = choose|i: int| 0 <= i < q.items.len() && q.items[i].id == x;
            assert(survivors[i].id == x);
            assert(!d.contains(survivors[i].id));
            let j = choose|j: int| 0 <= j < p.items.len() && p.items[j].id == survivors[i].id && p.items[j].source == survivors[i].source;
        }
        if p.has_item(x) && !depends_on(p, root, x) {
            let j = choose|j: int| 0 <= j < p.items.len() && p.items[j].id == x;
            assert(!d.contains(p.items[j].id));
            let i = choose|i: int| 0 <= i < survivors.len() && survivors[i].id == p.items[j].id;
            assert(q.items[i].id == x);
        }
    }
    assert forall|i: int, y: TimelineItemId|
        0 <= i < q.items.len() && depends_on(p, root, y) implies !#[trigger] source_reads(q.items[i].source, y) by {
        assert(q.items[i].source == survivors[i].source && q.items[i].id == survivors[i].id);
        assert(!d.contains(survivors[i].id));
        let j = choose|j: int| 0 <= j < p.items.len() && p.items[j].id == survivors[i].id && p.items[j].source == survivors[i].source;
        if source_reads(q.items[i].source, y) {
            let c = choose|c: Seq<TimelineItemId>| #[trigger] dependency_chain(p, c) && c[0] == root && c.last() == y;
            lemma_chain_member(p, c, c.len() - 1);
            let a = p.item_index(y);
            p.lemma_item_index(a);
            lemma_depends_extend(p, root, a, j);
        }
    }
    assert forall|i: int| 0 <= i < q.items.len() implies !((#[trigger] q.items[i]).parent matches Some(parent)
        && depends_on(p, root, parent)) by {
        assert(q.items[i].parent == survivors[i].parent);
    }
    assert forall|k: int| 0 <= k < q.attachments.len() implies !attachment_gone(#[trigger] q.attachments[k], d) by {
        let kept = kept_attachments(p.attachments, d);
        assert(!attachment_gone(kept[k], d));
        assert(q.attachments[k] == AttachmentView { order: q.attachments[k].order, ..kept[k] });
    }
}

impl TimelineEditorService {
    /// Deletes placement `item_id` together with every Node Clip that reads
    /// it, directly or through other Node Clips, and with the Transitions
    /// and Module Attachments that depend on any of them, as one
    /// transaction. A circle of Node Clips that read one another is refused.
    pub fn delete_item_cascade(&mut self, item_id: TimelineItemId) -> (r: Result<ChangeSet, LibraryError>)
        requires
            old(self).wf(),
        ensures
            final(self).wf(),
            ({
                let p = old(self).spec_project();
                let index = old(self).planning_index_view();
                edit_outcome(
                    *old(self),
                    *final(self),
                    r is Ok,
                    cascade_allowed(p, index, item_id),
                    cascaded(p, index, cascade_set(p, item_id)),
                )
            }),
            r matches Ok(changes) ==> recorded(*final(self), changes),
    {
        proof {
            self.lemma_wf();
        }
        let ghost p = self.project@;
        let ghost index = self.planning_index;
        let r = match self.project.item_position(item_id) {
            None => return Err(Self::missing_item(item_id)),
            Some(r) => r,
        };
        proof {
            p.lemma_item_index(r as int);
            assert(p.item_valid(r as int));
        }
        let marks = dependents(&self.project, r);
        if reaches_cycle(&self.project, r, &marks) {
            return Err(
                LibraryError::Validation(
                    crate::ids::text_with_id("Deletion dependency cycle reaches Timeline item ", item_id.0),
                ),
            );
        }
        let track_id = self.project.items[r].track_id;
        let timeline_id = match self.project.timeline_of_track(track_id) {
            None => {
                assert(false);
                return Err(LibraryError::Validation("Timeline item is placed on a missing Track".to_owned()));
            },
            Some(timeline_id) => timeline_id,
        };
        let ghost d = cascade_set(p, item_id);
        let (kept, gone) = split_attachments(&self.project, &marks, r);
        if kept.len() as u64 > (i64::MAX as u64) + 1 {
            return Err(LibraryError::Validation("Attachment order overflow".to_owned()));
        }
        let mut candidate = self.project.clone();
        candidate.items = surviving_item_list(&self.project, &marks, r);
        candidate.transitions = surviving_transition_list(&self.project, &marks, r);
        candidate.attachments = rank_attachments(&kept);
        let ghost base = candidate@;
        assert(base == ProjectView {
            items: surviving_items(p.items, d),
            transitions: surviving_transitions(p.transitions, d),
            attachments: ranked(kept_attachments(p.attachments, d)),
            ..p
        });
        if !relayer_tracks(&mut candidate, &self.planning_index, &self.project, &marks, r) {
            return Err(LibraryError::Validation("Timeline layer overflow".to_owned()));
        }
        remove_item_instances(&mut candidate, &self.project, &marks, r);
        remove_attachment_instances(&mut candidate, &gone);
        assert(candidate@ == cascaded(p, index, d));
        let mut invalidations: Vec<ProjectInvalidation> = Vec::new();
        invalidations.push(ProjectInvalidation::TimelineStructure { timeline_id });
        self.commit_candidate(candidate, invalidations)
    }
}

} // verus!
