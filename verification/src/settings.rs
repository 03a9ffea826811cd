//! Tunable constants of the simulation. Distances and positions are in whole
//! world units (pixels); speeds are in milli-units per second; times are in
//! milliseconds.

use vstd::prelude::*;

verus! {

/// Map width in tiles.
pub const MAP_COLS: u32 = 23;

/// Map height in tiles.
pub const MAP_ROWS: u32 = 15;

/// Side length of one tile in world units.
pub const TILE_SIZE: i64 = 40;

/// Width of the UI strip left of the map, in world units.
pub const GAP_LEFT: i64 = 80;

/// Offset from a tile's corner to the point an agent steers for.
pub const TILE_CENTER_OFFSET: i64 = 25;

/// Distance to the target considered "at" the target.
pub const TARGET_EPSILON: i64 = 5;

/// Starting base speed of an agent, in milli-units per second.
pub const RUMBLEBEE_SPEED_START: u32 = 50_000;

/// Cap on the base speed of an agent, in milli-units per second.
pub const RUMBLEBEE_SPEED_MAX: u32 = 120_000;

/// How much the base speed grows with each agent born:
/// 1.5 percent of the span between start and cap.
pub const RUMBLEBEE_PER_EGG_SPEEDUP: u32 = (120_000 - 50_000) * 15 / 1000;

/// Per-agent speed variance around the base speed, in parts per thousand.
pub const RUMBLEBEE_SPEED_VARIANCE: u32 = 200;

/// How long two colliding agents fight before the fight resolves.
pub const FIGHT_DURATION_MS: u64 = 5000;

/// Agents of opposing factions closer than this start a fight.
pub const FIGHT_RADIUS: i64 = 50;

/// An agent closer than this to a compatible egg captures it.
pub const EGG_RADIUS: i64 = 20;

/// How long a freshly spawned agent stays inactive.
pub const INACTIVE_MS: u64 = 3000;

/// How many times the wander fallback retries an unreachable sample.
pub const WANDER_RETRIES: u32 = 20;

/// How often a stuck agent digs, in milliseconds.
pub const DIG_REPEAT_MS: u64 = 500;

/// Health removed from a tile by each dig.
pub const DIG_POWER: u8 = 25;

/// Starting delay between egg spawns, in milliseconds.
pub const EGG_SPAWN_TIME_START_MS: u64 = 6000;

/// Smallest delay between egg spawns, in milliseconds.
pub const EGG_SPAWN_TIME_END_MS: u64 = 2000;

/// How much the egg spawn delay shrinks at each spawn:
/// 1 percent of the span between start and end.
pub const EGG_SPAWN_SPEEDUP_MS: u64 = (6000 - 2000) / 100;

} // verus!
