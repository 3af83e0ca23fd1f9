//! Level arithmetic: a user's level is the sum of their activity count
//! and the likes those activities collected.

use vstd::prelude::*;

verus! {

/// The level owed to a user with `recipe_count` activity records that
/// collected `total_likes` likes in all: the exact sum of the two.
///
/// Overflow of the sum is a fatal programming error, not a recoverable
/// condition: callers must establish that the sum fits in `u32`.
pub fn calculate_level(recipe_count: u32, total_likes: u32) -> (level: u32)
    requires
        recipe_count + total_likes <= u32::MAX,
    ensures
        level == recipe_count + total_likes,
{
    recipe_count + total_likes
}

} // verus!
