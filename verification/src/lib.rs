//! Flock Lab: the integer side of a boids flocking demo.
//!
//! The library holds the parts of the simulation and of its front end that
//! work on integers and collections: the cell-keyed spatial hash that finds
//! neighbour candidates, the bookkeeping that keeps agent, predator, obstacle
//! and trail vectors at their configured sizes, the clamping of the count
//! settings, the instance-buffer capacity policy of the renderer, the input
//! routing and viewport decisions of the window loop, and the dart mesh
//! topology.

pub mod input;
pub mod instances;
pub mod mesh;
pub mod population;
pub mod settings;
pub mod spatial_hash;
pub mod ui;

pub use input::{is_handled, route_input, ControlKey, InputOutcome, Viewport};
pub use instances::{next_power_of_two, InstanceSlots, InstanceUpload};
pub use mesh::{dart_indices, DART_INDEX_COUNT, DART_VERTEX_COUNT};
pub use population::{fill_to_count, resize_agents, seed_trails, spawn_count, update_trails};
pub use settings::{
    CountSettings, MAX_AGENTS, MAX_OBSTACLES, MAX_PREDATORS, MAX_TRAIL_LENGTH, MIN_AGENTS,
};
pub use spatial_hash::SpatialHash;
pub use ui::{UiAction, UiState};
