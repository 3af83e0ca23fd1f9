//! The per-request computation of the badge processor.
//!
//! The processor loop itself performs record-store I/O and so lives with
//! the surrounding application; everything it decides or computes is here:
//! validating the user identifier, and turning a fetched user record and
//! its activity records into the replacement value to persist.

use vstd::prelude::*;
use vstd::string::StringSliceAdditionalSpecFns;
use crate::badges::{assign_badges, assigned_badges};
use crate::level::calculate_level;
use crate::recipe::{all_dated, Recipe};
use crate::user::User;

verus! {

/// Why processing a single request failed.  A failure terminates that
/// request only: it is logged, the request is still marked done, and no
/// retry is attempted.
#[derive(Clone, Copy, Debug, PartialEq, Eq, Structural)]
pub enum ProcessError {
    /// The request's user identifier is not a valid record-store id.
    InvalidUserId,
    /// No user record with the requested identifier exists.
    UserNotFound,
    /// The record store failed while fetching or updating.
    StoreError,
    /// The level sum left the unsigned 32-bit range: a fatal condition
    /// surfaced explicitly rather than wrapped silently.
    LevelOverflow,
}

/// The replacement values persisted for a user after one request.
#[derive(Debug)]
pub struct UserUpdate {
    /// The recomputed level.
    pub level: u32,
    /// The recomputed badge list.
    pub badges: Vec<String>,
    /// The recomputed verification flag.
    pub verified: bool,
}

/// An ASCII hexadecimal digit.
pub open spec fn is_hex_digit(b: u8) -> bool {
    (48 <= b <= 57) || (97 <= b <= 102) || (65 <= b <= 70)
}

/// A well-formed record-store identifier: exactly 24 hexadecimal
/// characters, upper or lower case.
pub open spec fn is_object_id(s: Seq<u8>) -> bool {
    s.len() == 24 && forall|i: int| 0 <= i < 24 ==> is_hex_digit(#[trigger] s[i])
}

/// Whether `user_id` is a well-formed record-store identifier.  Malformed
/// identifiers fail a request before any store access.
pub fn validate_user_id(user_id: &str) -> (ok: bool)
    ensures
        ok == is_object_id(user_id.spec_bytes()),
{
    let bytes = user_id.as_bytes();
    if bytes.len() != 24 {
        return false;
    }
    let mut i: usize = 0;
    while i < 24
        invariant
            0 <= i <= 24,
            bytes@ == user_id.spec_bytes(),
            bytes@.len() == 24,
            forall|j: int| 0 <= j < i ==> is_hex_digit(#[trigger] bytes@[j]),
        decreases 24 - i,
    {
        let b = bytes[i];
        if !((b >= 48 && b <= 57) || (b >= 97 && b <= 102) || (b >= 65 && b <= 70)) {
            return false;
        }
        i += 1;
    }
    true
}

/// The sum of the like counts of all records.
pub open spec fn total_likes(rs: Seq<Recipe>) -> int
    decreases rs.len(),
{
    if rs.len() == 0 {
        0
    } else {
        total_likes(rs.drop_last()) + rs.last().num_likes
    }
}

/// The like sum is non-negative and no prefix exceeds the whole.
proof fn lemma_total_likes_prefix(rs: Seq<Recipe>, n: int)
    requires
        0 <= n <= rs.len(),
    ensures
        0 <= total_likes(rs.subrange(0, n)),
        total_likes(rs.subrange(0, n)) <= total_likes(rs),
    decreases rs.len(),
{
    lemma_total_likes_nonneg(rs.subrange(0, n));
    if n < rs.len() {
        lemma_total_likes_prefix(rs.drop_last(), n);
        assert(rs.drop_last().subrange(0, n) =~= rs.subrange(0, n));
    } else {
        assert(rs.subrange(0, n) =~= rs);
    }
}

/// The like sum is never negative.
proof fn lemma_total_likes_nonneg(rs: Seq<Recipe>)
    ensures
        0 <= total_likes(rs),
    decreases rs.len(),
{
    if rs.len() > 0 {
        lemma_total_likes_nonneg(rs.drop_last());
    }
}

/// Turns a fetched user record and its activity records into the values
/// to persist: the level is the sum of record count and like count, the
/// badge list is recomputed from the current one, and verification turns
/// true at thirty records and never turns back off.  A level sum beyond
/// the unsigned 32-bit range is reported as the fatal overflow error.
pub fn compute_user_update(user: &User, recipes: Vec<Recipe>) -> (r: Result<
    UserUpdate,
    ProcessError,
>)
    requires
        all_dated(recipes@),
    ensures
        recipes@.len() + total_likes(recipes@) > u32::MAX ==> r == Err::<
            UserUpdate,
            ProcessError,
        >(ProcessError::LevelOverflow),
        recipes@.len() + total_likes(recipes@) <= u32::MAX ==> {
            &&& r matches Ok(u)
            &&& u.level == recipes@.len() + total_likes(recipes@)
            &&& u.badges.deep_view() == assigned_badges(
                user.badges.deep_view(),
                u.level,
                recipes@,
            )
            &&& u.verified == (recipes@.len() >= 30 || user.verified)
        },
{
    let ghost rs = recipes@;
    let count = recipes.len();
    let mut sum: u64 = 0;
    let mut i: usize = 0;
    while i < recipes.len()
        invariant
            0 <= i <= rs.len(),
            rs == recipes@,
            sum == total_likes(rs.subrange(0, i as int)),
            sum <= u32::MAX,
        decreases rs.len() - i,
    {
        let likes = recipes[i].num_likes;
        let next = sum + (likes as u64);
        proof {
            assert(rs.subrange(0, i + 1).drop_last() =~= rs.subrange(0, i as int));
            assert(rs.subrange(0, i + 1).last() == rs[i as int]);
        }
        if next > (u32::MAX as u64) {
            proof {
                lemma_total_likes_prefix(rs, i + 1);
            }
            return Err(ProcessError::LevelOverflow);
        }
        sum = next;
        i += 1;
    }
    proof {
        assert(rs.subrange(0, rs.len() as int) =~= rs);
        lemma_total_likes_nonneg(rs);
    }
    if count as u64 > (u32::MAX as u64) - sum {
        return Err(ProcessError::LevelOverflow);
    }
    let level = calculate_level(count as u32, sum as u32);
    let mut badges = user.badges.clone();
    proof {
        assert forall|j: int| 0 <= j < badges@.len() implies badges@[j] == user.badges@[j] by {
            assert(cloned::<String>(user.badges@[j], badges@[j]));
        }
        assert(badges.deep_view() =~= user.badges.deep_view());
    }
    assign_badges(&mut badges, level, recipes);
    let verified = if count >= 30 {
        true
    } else {
        user.verified
    };
    Ok(UserUpdate { level, badges, verified })
}

} // verus!
