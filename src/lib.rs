//! A compiler for declarative reactive dataflow: it builds the graph of
//! sources, maps, folds, filters, choices and change projections from a block
//! of declarations, enforces the family and type rules, orders the graph
//! topologically and defines the incremental update of one tick.
pub mod analysis;
pub mod ast;
pub mod combinators;
pub mod graph;
pub mod laws;
pub mod schedule;
pub mod signal;
pub mod tick;
pub mod visitor;
