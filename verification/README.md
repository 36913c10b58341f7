# timeline_authoring

A verified editing kernel for a timeline-based motion-graphics project:
exact rational media time, the authored Project model (Timelines, Tracks,
placements, Transitions, Module definitions and instances, Attachments,
Composition placements), planning of placement edits, and an undoable
editor service whose every edit is one validated transaction.

Every public operation states in its contract what it commits, or that
nothing changed, and the proofs are checked by Verus. Where an operation
draws fresh random identities, its contract states the committed Project
up to those identities; a sibling operation that takes the identities as
arguments (`..._with_id`, `..._with_ids`) states it exactly.

## What the model leaves out

The model keeps what the editing rules read and leaves out:

- published Module parameters, signals and actions, per-instance
  parameter overrides and automation; a Module interface holds its
  published media inputs only;
- Node properties, Node presentation and UI state (Nodes have a fixed
  set of kinds);
- of the conversion of a source placement into a Node Clip, the published
  parameters, the authored-property moves and their automation, ensemble
  operations, and Asset and Shape sources: the library builds and commits
  the Node graph (source, pre-transform Effect chain, output), builds an
  appearance chain on a graph builder and parses one back, but it does not
  insert an appearance operation into an existing Node Clip;
- the Effect catalogue itself: what it knows is handed to the library as
  plain values (the names of the built-in Effects it lists, and which
  built-in operation each Effect runs);
- authored properties of Tracks and placements (visibility is a flag);
- built-in Effect parameters, and Module processors on Transitions;
- Node layout positions, so a paste places no Nodes on a canvas.

## Layout

- `src/time.rs` — exact media time, intervals and time maps.
- `src/model.rs`, `src/ids.rs`, `src/validation.rs` — the Project model,
  identities, and the consistency rules every committed Project keeps.
- `src/service.rs`, `src/authoring.rs` — the editor service: transactions,
  undo/redo, revisions, and the simple authoring edits.
- `src/planning.rs`, `src/layers.rs`, `src/edit_plan.rs`, `src/item.rs`,
  `src/group_move.rs` — layer orders and planned move/trim edits.
- `src/duplicate.rs`, `src/deletion.rs`, `src/cascade.rs`,
  `src/dependencies.rs` — duplicating, splitting and deleting placements,
  with or without what depends on them.
- `src/module.rs`, `src/module_graph.rs`, `src/generator.rs`,
  `src/owners.rs` — Module definitions, instances and their graphs:
  topology edits, deleting Node selections, and the one owner of an
  instance's invocation.
- `src/clipboard.rs` — copying a selection of processing Nodes out of an
  instance's definition and pasting it, under new identities, into
  another's.
- `src/conversion.rs`, `src/appearance.rs` — turning a Solid or Text
  source placement into a Node Clip: the graph builder and the reading of
  an appearance chain.
- `src/attachment.rs` — Effect stacks on Timelines, Tracks and placements.
- `src/composition.rs`, `src/unique.rs`, `src/text.rs` — Compositions:
  extracting, publishing parameters, and making a placement's Timeline its
  own.
- `tests/` — scenario tests run against the compiled library.
