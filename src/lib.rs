//! A small 2D rigid-body collision engine over fixed-point quantities:
//! circles and axis-aligned rectangles, contact detection, impulse
//! resolution and positional correction.
pub mod fixed;
pub mod vec2;
pub mod body;
pub mod collision;
pub mod resolve;
pub mod engine;
pub mod laws;

pub use body::{Ball, Block, BodyState};
pub use collision::{ball_block_colliding, balls_colliding, closest_point_ball_block, Contact};
pub use engine::{Config, Engine, Manifold, Partner};
pub use fixed::{isqrt, LIMIT, MASS_LIMIT, SCALE};
pub use resolve::{correct_positions, resolve_collision};
pub use vec2::Vec2;
