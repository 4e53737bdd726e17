//! Verified core of the Lost Oppai world and dialogue logic.

pub mod bitmask;
pub mod tiles;
pub mod bitmap;
pub mod graph;
pub mod text;
pub mod npc;
pub mod petgraph_specs;
pub mod dialogue_flow;
pub mod graph_output;
pub mod yarn;
pub mod typewriter;
pub mod option_selection;
pub mod chunk_manager;
pub mod runner;
pub mod player;
pub mod fauna;
pub mod menu;
pub mod flora;
pub mod fixed_queue;
