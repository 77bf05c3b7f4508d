//! Collision detection and game-state resolution for a small 2D arcade game.
//!
//! A [`World`](world::World) holds circular colliders in an arena, the score,
//! the difficulty ramp and the game state. Each tick moves the bodies, finds
//! the touching pairs, resolves them by kind, relocates consumed pickups and
//! checks for a win. All quantities are integers: lengths in world units,
//! time in milliseconds, colour channels in hundredths.
//!
//! - [`geometry`]: colliders and the overlap test
//! - [`field`]: the playfield and what is derived from its size
//! - [`world`]: the arena, the resources of a session and their invariant
//! - [`detect`]: the collision detector
//! - [`resolve`]: the collision resolver
//! - [`state`]: the game states and the start input
//! - [`motion`]: the movement of player, orbs, stars and relocated pickups
//! - [`session`]: setting a level up and restarting it
//! - [`nearest`]: the pickup to highlight
//! - [`tick`]: the order of a tick

pub mod detect;
pub mod field;
pub mod geometry;
pub mod motion;
pub mod nearest;
mod random;
pub mod resolve;
pub mod session;
pub mod state;
pub mod tick;
pub mod world;
