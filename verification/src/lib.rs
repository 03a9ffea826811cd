//! Core simulation of a grid world of autonomous "rumblebee" agents: a
//! walkability navmesh, a breadth-first path planner, a step-wise path
//! follower, terrain-change reaction, an agent decision policy, and a
//! pairwise combat model.

pub mod combat;
pub mod game;
pub mod grid;
pub mod inventory;
pub mod mover;
pub mod organism;
pub mod path;
pub mod pointer;
pub mod policy;
pub mod rng;
pub mod rumblebees;
pub mod search;
pub mod settings;
pub mod terrain;
pub mod world;
