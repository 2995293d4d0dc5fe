//! Event-driven digital-logic simulation engine.
//!
//! The crate provides a three-valued bit-vector algebra ([`vector3vl`]), a
//! library of combinational, arithmetic, sequential, memory and routing cells
//! (the `cell_*` modules), an entity store of graphs, gates and links, and a
//! tick-driven scheduler ([`engine`]) that propagates signals between them.

pub mod cell_arith;
pub mod cell_bus;
pub mod cell_dff;
pub mod cell_fsm;
pub mod cell_gates;
pub mod cell_io;
pub mod cell_memory;
pub mod cell_mux;
pub mod engine;
pub mod errors;
pub mod gate;
pub mod graph;
pub mod link;
pub mod names;
pub mod operations;
pub mod sigmap;
pub mod vector3vl;
