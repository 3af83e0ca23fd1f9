//! The closed set of badges a user can earn.

use vstd::prelude::*;

verus! {

/// A badge identifier.  The set is closed: three tiered level badges and
/// two streak badges.
#[derive(Clone, Copy, Debug, PartialEq, Eq, Structural)]
pub enum Badge {
    Level100,
    Level250,
    Level500,
    MonthStreak,
    WeekStreak,
}

/// The canonical name of a badge, as stored in a user's badge list.
pub open spec fn badge_name(b: Badge) -> Seq<char> {
    match b {
        Badge::Level100 => "level_100"@,
        Badge::Level250 => "level_250"@,
        Badge::Level500 => "level_500"@,
        Badge::MonthStreak => "month_streak"@,
        Badge::WeekStreak => "week_streak"@,
    }
}

impl Badge {
    /// The canonical name of this badge.
    pub fn as_str(&self) -> (r: &'static str)
        ensures
            r@ == badge_name(*self),
    {
        match self {
            Badge::Level100 => "level_100",
            Badge::Level250 => "level_250",
            Badge::Level500 => "level_500",
            Badge::MonthStreak => "month_streak",
            Badge::WeekStreak => "week_streak",
        }
    }
}

} // verus!
