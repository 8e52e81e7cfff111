//! Global tuning constants of the simulation.
//!
//! All lengths are in millionths of an arena unit, all angles in millionths of
//! a radian (see [`crate::math_utils::UNIT`]).

use vstd::prelude::*;

verus! {

/// Hit points every character starts a round with (100 units).
pub const INITIAL_HP: i64 = 100_000_000;

/// Largest body-turn per tick (0.05 rad).
pub const MAX_TURN_RATE: i64 = 50_000;

/// Largest head-turn per tick (0.1 rad).
pub const MAX_HEAD_TURN_RATE: i64 = 100_000;

/// Largest arms-turn per tick (0.08 rad).
pub const MAX_ARMS_TURN_RATE: i64 = 80_000;

/// Full width of the vision cone (0.45 * pi rad).
pub const ANGLE_OF_VISION: i64 = 1_413_716;

/// Largest absolute head/arms offset from the body heading (pi/2 rad).
pub const ANGLE_OF_ACTION: i64 = 1_570_796;

/// Radius of a character's body (25 units).
pub const CHARACTER_RADIUS: i64 = 25_000_000;

/// Radius of a projectile (4 units).
pub const ATTACK_RADIUS: i64 = 4_000_000;

/// Hit points taken by one projectile hit (10 units).
pub const ATTACK_DAMAGE: i64 = 10_000_000;

/// Ticks a character must wait between two attacks.
pub const ATTACK_COOLDOWN: u8 = 35;

/// Arena width (1600 units).
pub const WIDTH: i64 = 1_600_000_000;

/// Arena height (1200 units).
pub const HEIGHT: i64 = 1_200_000_000;

/// Largest distance a character may cover in one tick (1 unit).
pub const MAX_VELOCITY: i64 = 1_000_000;

/// Distance a projectile covers each tick (2.5 units).
pub const ATTACK_VELOCITY: i64 = 2_500_000;

/// Bound within which adapter-supplied distances and angles are kept when they
/// are turned into intent; large enough never to matter in a real battle, small
/// enough that all later arithmetic stays well inside `i64`.
pub const INTENT_LIMIT: i64 = 1_000_000_000_000;

/// Largest number of characters a game can hold; small enough that the
/// fallback spawn grid (see [`crate::game::random_positions`]) always fits
/// into the arena.
pub const MAX_CHARACTERS: usize = 512;

/// Spacing of the fallback spawn grid: wider than a character's diameter, so
/// grid positions never collide.
pub const SPAWN_GRID_STEP: i64 = 51_000_000;

/// Columns of the fallback spawn grid.
pub const SPAWN_GRID_COLS: usize = 30;

/// Largest number of projectiles that can be in flight at once; an
/// attack-created event beyond this bound is ignored.
pub const MAX_ATTACKS: usize = 0x1000_0000;

/// Margin between the arena walls and freshly spawned characters (20 units,
/// in addition to the character radius).
pub const SPAWN_MARGIN: i64 = 20_000_000;

} // verus!
