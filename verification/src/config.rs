//! The constants a session is built from.

use vstd::prelude::*;

verus! {

// Window
pub const WINDOW_WIDTH: u32 = 1280;
pub const WINDOW_HEIGHT: u32 = 720;
pub const MSAA_COUNT: u32 = 4;

// ColumnGrid
pub const COLUMN_GRID_SIDELEN: u8 = 3;

/// Number of equally likely raw draws behind one column height: a draw `d`
/// stands for the real number `2 * d / DRAW_RESOLUTION` in `[0, 2)`.
pub const DRAW_RESOLUTION: u64 = 0x20_0000_0000_0000;

// Nets
pub const NET_TEX_INDEX: u32 = 0;
pub const NET_COUNT: usize = 4;
pub const NET_LAYER: u8 = 4;
pub const NET_RANDOM_CHANGES: u32 = 2;

// Buttons
pub const BUTTON_TEX_INDEX: u32 = 1;

// Timer
pub const TIMER_TEX_INDEX: u32 = 0;

/// Time is counted in units of a millionth of a frame.
pub const TIMER_UNITS_PER_FRAME: u64 = 1_000_000;

/// The time budget of a round after a wrong answer: 480 frames.
pub const TIMER_DEFAULT_MAX: u64 = 480_000_000;

/// A right answer leaves this many hundredths of the time budget.
pub const TIMER_REDUCTION_PERCENT: u64 = 99;

/// A round is lost once no more than this much time remains: 10 frames.
pub const TIMER_TIMEOUT: u64 = 10_000_000;

// Numbers
pub const NUMBER_TEX_INDEX_START: u32 = 2;

// Animations
pub const ANIM_SLIDE_OUT_LEN_FRAMES: u32 = 20;
pub const ANIM_SLIDE_IN_LEN_FRAMES: u32 = 20;
pub const ANIM_BETWEEN_SLIDES_FRAMES: u32 = 5;

// Generation
/// How many grids, and how many candidates for each decoy, a session tries
/// before it gives up.
pub const GENERATION_MAX_ATTEMPTS: u32 = 1_000_000;

} // verus!
