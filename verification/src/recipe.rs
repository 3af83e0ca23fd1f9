//! Activity records: the inputs to level and badge computation.

use vstd::prelude::*;
use crate::calendar::valid_timestamp;

verus! {

/// One activity record (a recipe) owned by a user.  Read-only input to the
/// badge engine: only the like count and the creation time matter to it.
#[derive(Debug)]
pub struct Recipe {
    /// Identifier of the record itself.
    pub id: String,
    /// Identifier of the owning user.
    pub user_id: String,
    /// How many likes the record has collected; never negative.
    pub num_likes: u32,
    /// Creation time, in seconds since the Unix epoch.
    pub created_at: i64,
}

impl Clone for Recipe {
    fn clone(&self) -> (r: Self)
        ensures
            r == *self,
    {
        Recipe {
            id: self.id.clone(),
            user_id: self.user_id.clone(),
            num_likes: self.num_likes,
            created_at: self.created_at,
        }
    }
}

impl Recipe {
    /// A record the badge engine can work on: its creation time is close
    /// enough to the epoch for calendar arithmetic.
    pub open spec fn dated(self) -> bool {
        valid_timestamp(self.created_at)
    }
}

/// Every record in the sequence is datable.
pub open spec fn all_dated(rs: Seq<Recipe>) -> bool {
    forall|i: int| 0 <= i < rs.len() ==> #[trigger] rs[i].dated()
}

} // verus!
