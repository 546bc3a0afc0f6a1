//! A verified engine for three-dimensional random walks.
//!
//! A walker starts at the centre of a sphere and takes small steps until it
//! first stands beyond the escape radius. All coordinates and lengths are
//! whole numbers of lattice units: the caller picks how many units make up
//! one unit of length, and hands the engine the displacements it has drawn.
//! Given those, each walker's evolution is a function of its own state and
//! its own stream of displacements.

pub mod config;
pub mod engine;
pub mod error;
pub mod geometry;
pub mod laws;
pub mod model;
pub mod tag;
pub mod walker;

pub use config::SimConfig;
pub use engine::{EngineView, Marker, MarkerView, WalkerEngine, WalkerId};
pub use error::{Parameter, SimError};
pub use geometry::{Point, Segment, SegmentView, Vec3, MAX_LENGTH};
pub use model::WalkerView;
pub use tag::ColorTag;
pub use walker::{StepOutcome, Walker};
