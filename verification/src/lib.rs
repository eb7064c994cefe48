//! A swarm-foraging simulation on a cell-partitioned toroidal surface.
//!
//! Mobile agents ("insects") wander a bounded 2D world, collide with static
//! Food and Base landmarks, and relay foraging-progress information to nearby
//! peers. All geometry is fixed-point integer arithmetic: world coordinates
//! are milli-units, headings are tenth-degree angles with a cached unit
//! vector scaled by 1000.

pub mod fixed;
mod rng;
pub mod landmark;
pub mod insect;
pub mod relay;
pub mod grid;

pub use fixed::UNIT;
pub use fixed::TURN;
pub use landmark::Landmark;
pub use landmark::LandmarkKind;
pub use insect::Foraging;
pub use insect::Insect;
pub use grid::Cell;
pub use grid::Grid;
pub use grid::GridError;
pub use grid::get_neightboring_cells;
