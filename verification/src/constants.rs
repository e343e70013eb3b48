use vstd::prelude::*;

verus! {

// Game constants
pub const DIRECTIONS: usize = 3;
pub const EXPONENT: i32 = 13;
pub const LENGTH_ADVANTAGE: i32 = 5;
pub const MAX_HEALTH: i32 = 100;
pub const MAX_SEARCH: i32 = 30;
pub const YOU_ID: u8 = 0;

// The most live serpents a search will enumerate. Each ply fans out into
// 3^N joint profiles, so the machine itself only requires N <= 19 for the
// profile indices to stay in an i32; twelve is kept with headroom because
// no supported game size fields more, and callers fall back to the default
// direction beyond it.
pub const MAX_LIVE_SNAKES: usize = 12;

} // verus!
