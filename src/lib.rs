//! Layout and routing engine for circuits built on a voxel grid.
//!
//! Functional blocks are packed on a grid, their footprints become obstacles
//! and port positions, and every bus between two ports is routed through the
//! free space left by the blocks and by earlier routes.
pub mod ast;
pub mod builder;
pub mod compiler;
pub mod lexer;
pub mod nbt;
pub mod nodes;
pub mod obstacles;
pub mod parser;
pub mod pathfinding;
pub mod precedence;
pub mod structures;
pub mod ports;
pub mod template;
pub mod vectors;
