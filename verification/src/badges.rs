//! Badge assignment: tiered level badges and calendar streak badges.
//!
//! The week-streak predicate asks for seven strictly consecutive calendar
//! days each carrying at least one record, anywhere in the history.  The
//! month-streak predicate asks for records in four consecutive ISO weeks
//! ending at the week of the most recent record; unlike the week streak it
//! never looks at earlier windows.  The asymmetry is deliberate and is kept
//! exactly as stated.

use vstd::prelude::*;
use crate::calendar::{day_of, iso_pair, prev_iso_pair};
use crate::recipe::{all_dated, Recipe};

verus! {

/// Some record in `rs` was created on calendar date `d`.
pub open spec fn has_date(rs: Seq<Recipe>, d: int) -> bool {
    exists|i: int| 0 <= i < rs.len() && day_of(#[trigger] rs[i].created_at as int) == d
}

/// Every one of the seven consecutive dates `d .. d + 6` carries a record.
pub open spec fn covers_week_from(rs: Seq<Recipe>, d: int) -> bool {
    forall|k: int| 0 <= k < 7 ==> #[trigger] has_date(rs, d + k)
}

/// The week-streak predicate: at least seven records, and seven strictly
/// consecutive calendar dates each with at least one record.
pub open spec fn week_streak(rs: Seq<Recipe>) -> bool {
    rs.len() >= 7 && exists|d: int| covers_week_from(rs, d)
}

/// `v` occurs in the integer sequence `s`.
pub open spec fn seq_has(s: Seq<i64>, v: int) -> bool {
    exists|j: int| 0 <= j < s.len() && s[j] == v
}

/// The sequence is strictly increasing.
pub open spec fn strictly_sorted(s: Seq<i64>) -> bool {
    forall|a: int, b: int| 0 <= a < b < s.len() ==> s[a] < s[b]
}

/// Some record among the first `n` of `rs` was created on date `d`.
pub open spec fn has_date_in_prefix(rs: Seq<Recipe>, n: int, d: int) -> bool {
    exists|i: int| 0 <= i < n && day_of(#[trigger] rs[i].created_at as int) == d
}

/// The seven entries of `s` starting at `t` are consecutive integers.
pub open spec fn window_at(s: Seq<i64>, t: int) -> bool {
    forall|k: int| 1 <= k < 7 ==> #[trigger] s[t + k] == s[t] + k
}

/// In a strictly sorted sequence containing all of `d .. d + 6`, those
/// seven values sit at seven adjacent positions starting at the position
/// of `d`: integers leave no room between consecutive values.
proof fn lemma_consecutive_values_adjacent(s: Seq<i64>, i: int, d: int, k: int)
    requires
        strictly_sorted(s),
        0 <= i < s.len(),
        s[i] == d,
        forall|j: int| 0 <= j < 7 ==> #[trigger] seq_has(s, d + j),
        0 <= k < 7,
    ensures
        i + k < s.len(),
        s[i + k] == d + k,
    decreases k,
{
    if k > 0 {
        lemma_consecutive_values_adjacent(s, i, d, k - 1);
        assert(seq_has(s, d + k));
        let m = choose|m: int| 0 <= m < s.len() && s[m] == d + k;
        assert(s[i + k - 1] == d + k - 1);
        if m <= i + k - 1 {
            assert(m < i + k - 1 ==> s[m] < s[i + k - 1]);
            assert(false);
        }
        if m > i + k {
            assert(s[i + k] < s[m]);
            assert(s[i + k - 1] < s[i + k]);
            assert(false);
        }
        assert(m == i + k);
    }
}

/// If a strictly sorted sequence holding exactly the dates of `rs` has no
/// seven-entry window of consecutive values, then no seven consecutive
/// dates are all covered by `rs`.
proof fn lemma_no_window_no_streak(s: Seq<i64>, rs: Seq<Recipe>)
    requires
        strictly_sorted(s),
        forall|v: int| #[trigger] seq_has(s, v) <==> has_date(rs, v),
        forall|t: int| 0 <= t <= s.len() - 7 ==> !(#[trigger] window_at(s, t)),
    ensures
        forall|d: int| !(#[trigger] covers_week_from(rs, d)),
{
    assert forall|d: int| !(#[trigger] covers_week_from(rs, d)) by {
        if covers_week_from(rs, d) {
            assert(forall|j: int| 0 <= j < 7 ==> #[trigger] has_date(rs, d + j));
            assert(forall|j: int| 0 <= j < 7 ==> #[trigger] seq_has(s, d + j));
            assert(seq_has(s, d + 0));
            assert(seq_has(s, d));
            let i = choose|i: int| 0 <= i < s.len() && s[i] == d;
            assert forall|k: int| 1 <= k < 7 implies #[trigger] s[i + k] == s[i] + k by {
                lemma_consecutive_values_adjacent(s, i, d, k);
            }
            lemma_consecutive_values_adjacent(s, i, d, 6);
            assert(i + 6 < s.len());
            assert(window_at(s, i));
            assert(!window_at(s, i));
        }
    }
}

/// Whether seven strictly consecutive calendar days each carry at least one
/// of the given records.  Scans every seven-day window of the distinct
/// record dates, not only the most recent one.
pub fn is_week_streak(recipes: &[Recipe]) -> (r: bool)
    ensures
        r == week_streak(recipes@),
{
    if recipes.len() < 7 {
        return false;
    }
    // Collect the distinct record dates in increasing order.
    let ghost rs = recipes@;
    let mut dates: Vec<i64> = Vec::new();
    let mut i: usize = 0;
    while i < recipes.len()
        invariant
            0 <= i <= rs.len(),
            rs == recipes@,
            strictly_sorted(dates@),
            forall|v: int| #[trigger] seq_has(dates@, v) <==> has_date_in_prefix(rs, i as int, v),
            forall|j: int| 0 <= j < dates@.len()
                ==> -107_000_000_000_000 <= #[trigger] dates@[j] <= 107_000_000_000_000,
        decreases rs.len() - i,
    {
        let d = crate::calendar::day_of_timestamp(recipes[i].created_at);
        let ghost dates0 = dates@;
        let mut pos: usize = 0;
        while pos < dates.len() && dates[pos] < d
            invariant
                0 <= pos <= dates@.len(),
                dates@ == dates0,
                forall|j: int| 0 <= j < pos ==> dates@[j] < d,
            decreases dates@.len() - pos,
        {
            pos += 1;
        }
        if pos == dates.len() || dates[pos] > d {
            dates.insert(pos, d);
            proof {
                assert forall|a: int, b: int| 0 <= a < b < dates@.len() implies dates@[a]
                    < dates@[b] by {
                    if b < pos {
                    } else if a < pos && b == pos {
                    } else if a < pos && b > pos {
                        assert(dates0[b - 1] >= dates0[pos as int]);
                    } else if a == pos {
                        assert(dates@[b] == dates0[b - 1]);
                        assert(dates0[b - 1] >= dates0[pos as int]);
                    } else {
                    }
                }
                assert forall|v: int| #[trigger] seq_has(dates@, v) implies has_date_in_prefix(
                    rs,
                    i + 1,
                    v,
                ) by {
                    let j = choose|j: int| 0 <= j < dates@.len() && dates@[j] == v;
                    if j < pos {
                        assert(dates0[j] == v);
                        assert(seq_has(dates0, v));
                    } else if j == pos {
                        assert(day_of(rs[i as int].created_at as int) == v);
                    } else {
                        assert(dates0[j - 1] == v);
                        assert(seq_has(dates0, v));
                    }
                }
                assert forall|v: int| has_date_in_prefix(rs, i + 1, v) implies #[trigger] seq_has(
                    dates@,
                    v,
                ) by {
                    let j = choose|j: int| 0 <= j < i + 1 && day_of(rs[j].created_at as int) == v;
                    if j < i {
                        assert(has_date_in_prefix(rs, i as int, v));
                        assert(seq_has(dates0, v));
                        let m = choose|m: int| 0 <= m < dates0.len() && dates0[m] == v;
                        if m < pos {
                            assert(dates@[m] == v);
                        } else {
                            assert(dates@[m + 1] == v);
                        }
                    } else {
                        assert(dates@[pos as int] == v);
                    }
                }
            }
        } else {
            proof {
                assert(dates@[pos as int] == d);
                assert forall|v: int| has_date_in_prefix(rs, i + 1, v) implies #[trigger] seq_has(
                    dates@,
                    v,
                ) by {
                    let j = choose|j: int| 0 <= j < i + 1 && day_of(rs[j].created_at as int) == v;
                    if j < i {
                        assert(has_date_in_prefix(rs, i as int, v));
                    } else {
                        assert(v == d);
                    }
                }
            }
        }
        i += 1;
    }
    // Scan every window of seven adjacent distinct dates.
    let mut s: usize = 0;
    while dates.len() >= 7 && s <= dates.len() - 7
        invariant
            strictly_sorted(dates@),
            forall|v: int| #[trigger] seq_has(dates@, v) <==> has_date_in_prefix(
                rs,
                rs.len() as int,
                v,
            ),
            forall|j: int| 0 <= j < dates@.len()
                ==> -107_000_000_000_000 <= #[trigger] dates@[j] <= 107_000_000_000_000,
            rs == recipes@,
            rs.len() >= 7,
            0 <= s <= dates@.len(),
            forall|t: int| 0 <= t < s ==> !(#[trigger] window_at(dates@, t)),
        decreases dates@.len() + 7 - s,
    {
        let base = dates[s];
        let mut k: usize = 1;
        let mut okwin: bool = true;
        while okwin && k < 7
            invariant
                1 <= k <= 7,
                s + 7 <= dates@.len() <= usize::MAX,
                strictly_sorted(dates@),
                base == dates@[s as int],
                forall|j: int| 0 <= j < dates@.len()
                    ==> -107_000_000_000_000 <= #[trigger] dates@[j] <= 107_000_000_000_000,
                okwin ==> forall|j: int| 1 <= j < k ==> #[trigger] dates@[s + j] == dates@[s as int]
                    + j,
                !okwin ==> !window_at(dates@, s as int),
            decreases 7 - k + (if okwin { 1int } else { 0int }),
        {
            if dates[s + k] != base + (k as i64) {
                okwin = false;
            } else {
                k += 1;
            }
        }
        if okwin {
            proof {
                let d = dates@[s as int] as int;
                assert forall|k2: int| 0 <= k2 < 7 implies #[trigger] has_date(rs, d + k2) by {
                    assert(dates@[s + k2] == d + k2);
                    assert(seq_has(dates@, d + k2));
                    assert(has_date_in_prefix(rs, rs.len() as int, d + k2));
                }
                assert(covers_week_from(rs, d));
            }
            return true;
        }
        s += 1;
    }
    proof {
        assert forall|v: int| #[trigger] seq_has(dates@, v) <==> has_date(rs, v) by {
            assert(seq_has(dates@, v) <==> has_date_in_prefix(rs, rs.len() as int, v));
        }
        lemma_no_window_no_streak(dates@, rs);
    }
    false
}


/// Some record in `rs` falls in the ISO (year, week) pair `p`.
pub open spec fn has_week(rs: Seq<Recipe>, p: (int, int)) -> bool {
    exists|i: int| 0 <= i < rs.len() && iso_pair(day_of(#[trigger] rs[i].created_at as int)) == p
}

/// The (year, week) pair `k` ISO weeks before `p`.
pub open spec fn back_weeks(p: (int, int), k: nat) -> (int, int)
    decreases k,
{
    if k == 0 {
        p
    } else {
        prev_iso_pair(back_weeks(p, (k - 1) as nat))
    }
}

/// The largest creation timestamp among the records.
pub open spec fn latest_timestamp(rs: Seq<Recipe>) -> int
    recommends
        rs.len() > 0,
    decreases rs.len(),
{
    if rs.len() <= 1 {
        rs[0].created_at as int
    } else {
        let rest = latest_timestamp(rs.drop_last());
        if rs.last().created_at as int > rest {
            rs.last().created_at as int
        } else {
            rest
        }
    }
}

/// The month-streak predicate: at least four records, and a record in each
/// of the four consecutive ISO weeks ending at the week of the most recent
/// record.
pub open spec fn month_streak(rs: Seq<Recipe>) -> bool {
    rs.len() >= 4 && {
        let start = iso_pair(day_of(latest_timestamp(rs)));
        forall|k: int| 0 <= k < 4 ==> has_week(rs, #[trigger] back_weeks(start, k as nat))
    }
}

/// The pair `p` occurs in the sequence of pairs `s`.
pub open spec fn pairs_has(s: Seq<(i64, i64)>, p: (int, int)) -> bool {
    exists|j: int| 0 <= j < s.len() && (#[trigger] s[j].0 as int, s[j].1 as int) == p
}

/// Some record among the first `n` of `rs` falls in the ISO pair `p`.
pub open spec fn has_week_in_prefix(rs: Seq<Recipe>, n: int, p: (int, int)) -> bool {
    exists|i: int| 0 <= i < n && iso_pair(day_of(#[trigger] rs[i].created_at as int)) == p
}

/// The largest timestamp of a non-empty record sequence is one of its
/// timestamps and bounds them all; the index of one such record is returned.
proof fn lemma_latest_timestamp_props(rs: Seq<Recipe>) -> (w: int)
    requires
        rs.len() > 0,
    ensures
        0 <= w < rs.len(),
        latest_timestamp(rs) == rs[w].created_at as int,
        forall|i: int| 0 <= i < rs.len() ==> #[trigger] rs[i].created_at as int <= latest_timestamp(rs),
    decreases rs.len(),
{
    if rs.len() <= 1 {
        0
    } else {
        let prev = lemma_latest_timestamp_props(rs.drop_last());
        let rest = latest_timestamp(rs.drop_last());
        assert(rs[prev].created_at as int == rest);
        assert forall|i: int| 0 <= i < rs.len() implies #[trigger] rs[i].created_at as int
            <= latest_timestamp(rs) by {
            if i < rs.len() - 1 {
                assert(rs.drop_last()[i].created_at as int <= rest);
            }
        }
        if rs.last().created_at as int > rest {
            rs.len() - 1
        } else {
            prev
        }
    }
}

/// Whether the sequence of pairs holds the given pair.
fn contains_pair(weeks: &Vec<(i64, i64)>, p: (i64, i64)) -> (r: bool)
    ensures
        r == pairs_has(weeks@, (p.0 as int, p.1 as int)),
{
    let mut i: usize = 0;
    while i < weeks.len()
        invariant
            0 <= i <= weeks@.len(),
            forall|j: int| 0 <= j < i ==> !((#[trigger] weeks@[j].0 as int, weeks@[j].1 as int)
                == (p.0 as int, p.1 as int)),
        decreases weeks@.len() - i,
    {
        if weeks[i].0 == p.0 && weeks[i].1 == p.1 {
            return true;
        }
        i += 1;
    }
    false
}

/// Whether the records cover the four consecutive ISO weeks ending at the
/// week of the most recent record.  Only that one window is ever examined.
#[verifier::rlimit(60)]
pub fn is_month_streak(recipes: &[Recipe]) -> (r: bool)
    requires
        all_dated(recipes@),
    ensures
        r == month_streak(recipes@),
{
    if recipes.len() < 4 {
        return false;
    }
    let ghost rs = recipes@;
    // Collect the distinct ISO (year, week) pairs of all records.
    let mut weeks: Vec<(i64, i64)> = Vec::new();
    let mut i: usize = 0;
    while i < recipes.len()
        invariant
            0 <= i <= rs.len(),
            rs == recipes@,
            all_dated(rs),
            forall|p: (int, int)| #[trigger] pairs_has(weeks@, p) <==> has_week_in_prefix(
                rs,
                i as int,
                p,
            ),
        decreases rs.len() - i,
    {
        let day = crate::calendar::day_of_timestamp(recipes[i].created_at);
        assert(rs[i as int].dated());
        let p = crate::calendar::iso_week_pair(day);
        let ghost weeks0 = weeks@;
        if !contains_pair(&weeks, p) {
            weeks.push(p);
        }
        proof {
            let ghost pi = iso_pair(day_of(rs[i as int].created_at as int));
            assert((p.0 as int, p.1 as int) == pi);
            assert forall|q: (int, int)| #[trigger] pairs_has(weeks@, q) implies has_week_in_prefix(
                rs,
                i + 1,
                q,
            ) by {
                let j = choose|j: int| 0 <= j < weeks@.len() && (#[trigger] weeks@[j].0 as int,
                    weeks@[j].1 as int) == q;
                if j < weeks0.len() {
                    assert(pairs_has(weeks0, q));
                } else {
                    assert(q == pi);
                }
            }
            assert forall|q: (int, int)| has_week_in_prefix(rs, i + 1, q)
                implies #[trigger] pairs_has(weeks@, q) by {
                let j = choose|j: int|
                    0 <= j < i + 1 && iso_pair(day_of(#[trigger] rs[j].created_at as int)) == q;
                if j < i {
                    assert(has_week_in_prefix(rs, i as int, q));
                    assert(pairs_has(weeks0, q));
                    let m = choose|m: int| 0 <= m < weeks0.len() && (#[trigger] weeks0[m].0 as int,
                        weeks0[m].1 as int) == q;
                    assert(weeks@[m] == weeks0[m]);
                } else {
                    if pairs_has(weeks0, pi) {
                        let m = choose|m: int| 0 <= m < weeks0.len() && (#[trigger] weeks0[m].0 as int,
                            weeks0[m].1 as int) == pi;
                        assert(weeks@[m] == weeks0[m]);
                    } else {
                        assert(weeks@[weeks@.len() - 1] == p);
                    }
                }
            }
        }
        i += 1;
    }
    // The most recent record decides where the four-week window ends.
    let mut latest: i64 = recipes[0].created_at;
    let mut i: usize = 1;
    while i < recipes.len()
        invariant
            1 <= i <= rs.len(),
            rs == recipes@,
            rs.len() > 0,
            exists|j: int| 0 <= j < i && latest as int == #[trigger] rs[j].created_at as int,
            forall|j: int| 0 <= j < i ==> #[trigger] rs[j].created_at as int <= latest as int,
        decreases rs.len() - i,
    {
        if recipes[i].created_at > latest {
            latest = recipes[i].created_at;
        }
        i += 1;
    }
    proof {
        let w = lemma_latest_timestamp_props(rs);
        assert(rs[w].created_at as int <= latest as int);
        assert(latest as int == latest_timestamp(rs));
    }
    let start_day = crate::calendar::day_of_timestamp(latest);
    proof {
        let j = choose|j: int| 0 <= j < rs.len() && latest as int == #[trigger] rs[j].created_at as int;
        assert(rs[j].dated());
    }
    let start = crate::calendar::iso_week_pair(start_day);
    let ghost start_spec = iso_pair(day_of(latest_timestamp(rs)));
    let mut cy: i64 = start.0;
    let mut cw: i64 = start.1;
    let mut k: usize = 0;
    while k < 4
        invariant
            0 <= k <= 4,
            rs == recipes@,
            rs.len() >= 4,
            -268_000 <= start.0 <= 268_000,
            start.0 - k <= cy <= start.0,
            start_spec == iso_pair(day_of(latest_timestamp(rs))),
            (start.0 as int, start.1 as int) == start_spec,
            (cy as int, cw as int) == back_weeks(start_spec, k as nat),
            forall|p: (int, int)| #[trigger] pairs_has(weeks@, p) <==> has_week_in_prefix(
                rs,
                rs.len() as int,
                p,
            ),
            forall|j: int| 0 <= j < k ==> has_week(rs, #[trigger] back_weeks(start_spec, j as nat)),
        decreases 4 - k,
    {
        if !contains_pair(&weeks, (cy, cw)) {
            proof {
                let kk: int = k as int;
                assert(!has_week_in_prefix(rs, rs.len() as int, back_weeks(start_spec, k as nat)));
                assert(!has_week(rs, back_weeks(start_spec, kk as nat)));
                assert(!month_streak(rs));
            }
            return false;
        }
        proof {
            assert(has_week_in_prefix(rs, rs.len() as int, back_weeks(start_spec, k as nat)));
            assert(has_week(rs, back_weeks(start_spec, k as nat)));
        }
        if cw > 1 {
            cw = cw - 1;
        } else {
            cy = cy - 1;
            cw = crate::calendar::last_iso_week_number(cy);
        }
        k += 1;
    }
    proof {
        assert forall|k2: int| 0 <= k2 < 4 implies has_week(
            rs,
            #[trigger] back_weeks(start_spec, k2 as nat),
        ) by {}
        assert(month_streak(rs));
    }
    true
}


/// The badge list after the tiered level checks.  Each tier is examined
/// only when the previous tier's badge was newly granted by this same
/// evaluation: a user whose lower-tier badge already existed beforehand
/// gets no higher tier here, whatever the level.  This nesting is kept
/// faithfully.
pub open spec fn with_level_badges(b: Seq<Seq<char>>, level: u32) -> Seq<Seq<char>> {
    if level >= 100 && !b.contains("level_100"@) {
        let b1 = b.push("level_100"@);
        if level >= 250 && !b1.contains("level_250"@) {
            let b2 = b1.push("level_250"@);
            if level >= 500 && !b2.contains("level_500"@) {
                b2.push("level_500"@)
            } else {
                b2
            }
        } else {
            b1
        }
    } else {
        b
    }
}

/// The badge list after the streak checks: the month streak first, then
/// the week streak, each added only when absent and its predicate holds.
pub open spec fn with_streak_badges(b: Seq<Seq<char>>, rs: Seq<Recipe>) -> Seq<Seq<char>> {
    let b1 = if !b.contains("month_streak"@) && month_streak(rs) {
        b.push("month_streak"@)
    } else {
        b
    };
    if !b1.contains("week_streak"@) && week_streak(rs) {
        b1.push("week_streak"@)
    } else {
        b1
    }
}

/// The badge list owed to a user with the given current badges, new level,
/// and activity records: level tiers first, then streaks.
pub open spec fn assigned_badges(b: Seq<Seq<char>>, level: u32, rs: Seq<Recipe>) -> Seq<Seq<char>> {
    with_streak_badges(with_level_badges(b, level), rs)
}

/// Whether the badge list holds the given name.
fn contains_str(v: &Vec<String>, s: &str) -> (r: bool)
    ensures
        r == v.deep_view().contains(s@),
{
    let needle: String = s.to_owned();
    let mut i: usize = 0;
    while i < v.len()
        invariant
            0 <= i <= v@.len(),
            needle@ == s@,
            forall|j: int| 0 <= j < i ==> #[trigger] v.deep_view()[j] != s@,
        decreases v@.len() - i,
    {
        if v[i] == needle {
            assert(v.deep_view()[i as int] == v@[i as int]@);
            assert(v.deep_view().contains(s@));
            return true;
        }
        i += 1;
    }
    proof {
        if v.deep_view().contains(s@) {
            let j = choose|j: int| 0 <= j < v.deep_view().len() && v.deep_view()[j] == s@;
            assert(v.deep_view()[j] != s@);
        }
    }
    false
}

/// Appends a badge name to the list.
fn push_badge(v: &mut Vec<String>, s: &str)
    ensures
        final(v).deep_view() == old(v).deep_view().push(s@),
{
    v.push(s.to_owned());
    proof {
        assert(final(v).deep_view() =~= old(v).deep_view().push(s@));
    }
}

/// Recomputes the badge list in place: tiered level badges in their nested
/// order, then the month streak, then the week streak.  Badges already
/// present are never removed or added again.
pub fn assign_badges(user_badges: &mut Vec<String>, user_level: u32, recipes: Vec<Recipe>)
    requires
        all_dated(recipes@),
    ensures
        final(user_badges).deep_view() == assigned_badges(
            old(user_badges).deep_view(),
            user_level,
            recipes@,
        ),
{
    if user_level >= 100 && !contains_str(user_badges, "level_100") {
        push_badge(user_badges, "level_100");
        if user_level >= 250 && !contains_str(user_badges, "level_250") {
            push_badge(user_badges, "level_250");
            if user_level >= 500 && !contains_str(user_badges, "level_500") {
                push_badge(user_badges, "level_500");
            }
        }
    }
    assert(user_badges.deep_view() == with_level_badges(old(user_badges).deep_view(), user_level));
    if !contains_str(user_badges, "month_streak") && is_month_streak(recipes.as_slice()) {
        push_badge(user_badges, "month_streak");
    }
    if !contains_str(user_badges, "week_streak") && is_week_streak(recipes.as_slice()) {
        push_badge(user_badges, "week_streak");
    }
}


/// No name occurs twice in the badge list.
pub open spec fn distinct_badges(b: Seq<Seq<char>>) -> bool {
    forall|i: int, j: int| 0 <= i < j < b.len() ==> b[i] != b[j]
}

/// Badge assignment never removes or reorders what was already there:
/// the previous badge list is a prefix of the new one, so badge sets only
/// ever grow.
pub proof fn lemma_assigned_badges_preserve(b: Seq<Seq<char>>, level: u32, rs: Seq<Recipe>)
    ensures
        assigned_badges(b, level, rs).len() >= b.len(),
        forall|i: int| 0 <= i < b.len() ==> #[trigger] assigned_badges(b, level, rs)[i] == b[i],
        forall|n: Seq<char>| b.contains(n) ==> #[trigger] assigned_badges(b, level, rs).contains(n),
{
    let a = assigned_badges(b, level, rs);
    assert forall|n: Seq<char>| b.contains(n) implies #[trigger] a.contains(n) by {
        let i = choose|i: int| 0 <= i < b.len() && b[i] == n;
        assert(a[i] == b[i]);
    }
}

/// Badge assignment never duplicates a badge: a list of pairwise distinct
/// names stays pairwise distinct, because a name is only ever appended
/// after the list was found not to hold it.
pub proof fn lemma_assigned_badges_distinct(b: Seq<Seq<char>>, level: u32, rs: Seq<Recipe>)
    requires
        distinct_badges(b),
    ensures
        distinct_badges(assigned_badges(b, level, rs)),
{
    if level >= 100 && !b.contains("level_100"@) {
        lemma_push_absent_distinct(b, "level_100"@);
        let b1 = b.push("level_100"@);
        if level >= 250 && !b1.contains("level_250"@) {
            lemma_push_absent_distinct(b1, "level_250"@);
            let b2 = b1.push("level_250"@);
            if level >= 500 && !b2.contains("level_500"@) {
                lemma_push_absent_distinct(b2, "level_500"@);
            }
        }
    }
    let bl = with_level_badges(b, level);
    assert(distinct_badges(bl));
    if !bl.contains("month_streak"@) && month_streak(rs) {
        lemma_push_absent_distinct(bl, "month_streak"@);
    }
    let bm = if !bl.contains("month_streak"@) && month_streak(rs) {
        bl.push("month_streak"@)
    } else {
        bl
    };
    if !bm.contains("week_streak"@) && week_streak(rs) {
        lemma_push_absent_distinct(bm, "week_streak"@);
    }
}

/// Appending a name a list does not hold keeps the list distinct.
proof fn lemma_push_absent_distinct(b: Seq<Seq<char>>, n: Seq<char>)
    requires
        distinct_badges(b),
        !b.contains(n),
    ensures
        distinct_badges(b.push(n)),
{
    assert forall|i: int, j: int| 0 <= i < j < b.push(n).len() implies b.push(n)[i] != b.push(n)[j] by {
        if j == b.len() {
            assert(b.push(n)[i] == b[i]);
            if b[i] == n {
                assert(b.contains(n));
            }
        }
    }
}

/// Seven records on seven strictly consecutive calendar dates always make
/// a week streak, wherever those dates lie in the history.
pub proof fn lemma_week_streak_of_consecutive(rs: Seq<Recipe>, d: int)
    requires
        rs.len() >= 7,
        forall|k: int| 0 <= k < 7 ==> #[trigger] has_date(rs, d + k),
    ensures
        week_streak(rs),
{
    assert(covers_week_from(rs, d));
}

} // verus!
