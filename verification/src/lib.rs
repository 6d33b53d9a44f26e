//! Graphs that are found by following references, with their construction
//! verified.
//!
//! Two kinds of graph are built here.
//!
//! The first is the graph of everything that can be reached from a root by
//! fetching a node and following the children that its content names.
//! [`registry`] holds the two registries that make sure that every node is
//! fetched once and every edge recorded once, [`progress`] the mathematics
//! of a crawl and its laws, [`builder`] the engine, and [`graph`] the result.
//! [`links`] finds the children of a documentation page.
//!
//! The second is the graph of the types of a crate: an edge leads from a
//! struct, enum or union to each type that its fields mention. [`model`]
//! describes a crate, [`primitive`] knows the paths of the built-in types,
//! [`structy`] walks the fields of an item, and [`type_graph`] builds the
//! graph. [`minimal`] is a sample to try them on.

pub mod builder;
pub mod graph;
pub mod links;
pub mod minimal;
pub mod model;
pub mod primitive;
pub mod progress;
pub mod registry;
pub mod seqs;
pub mod structy;
pub mod type_graph;
