//! A fixed-step arcade simulation: missiles fall toward a field, counter-missiles
//! are fired at a cursor-selected point, and blasts destroy whatever they reach.
//!
//! Every quantity is an exact integer. Lengths are counted in grid steps
//! ([`units::UNIT`] of them make one field unit) and time in clock steps
//! ([`units::SECOND`] of them make one second), so that a speed given in field
//! units per second is also a number of grid steps per clock step.

pub mod units;
pub mod geometry;
pub mod ray;
pub mod explosion;
pub mod missile;
pub mod sequences;
pub mod scene;
pub mod laws;
pub mod game;

pub use explosion::Explosion;
pub use game::MainState;
pub use scene::Scene;
pub use geometry::Point;
pub use missile::Missile;
