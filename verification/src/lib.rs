//! Timeline authoring kernel: exact media time, the authored Project model,
//! Timeline placement edit planning, and the undoable editor service.

pub mod attachment;
pub mod appearance;
pub mod authoring;
pub mod cascade;
pub mod clipboard;
pub mod composition;
pub mod conversion;
pub mod deletion;
pub mod dependencies;
pub mod duplicate;
pub mod edit_plan;
pub mod generator;
pub mod group_move;
pub mod ids;
pub mod item;
pub mod layers;
pub mod model;
pub mod module;
pub mod module_graph;
pub mod owners;
pub mod planning;
pub mod service;
pub mod text;
pub mod time;
pub mod unique;
pub mod validation;
