//! Picking one choice of knobs from a front of trade-offs: weighted scores in
//! exact fractions, and rankings.
use vstd::prelude::*;

use crate::config::Knobs;
use crate::tuning::{JigglyTuning, Totals};

verus! {

// Weights of the score's terms, in hundredths.
pub const W_LUNCH: u128 = 30;

pub const W_AFTER: u128 = 25;

pub const W_WORK: u128 = 20;

pub const W_PRESS: u128 = 15;

pub const W_BALANCE: u128 = 10;

// Presses per day, doubled: full reward up to the first, rejected above the
// second.
pub const PRESS_HINGE_LOW_X2: u128 = 5;

pub const PRESS_COMFORT_CAP_X2: u128 = 7;

/// Minutes of the shorter warning phase at which the balance bonus is full.
pub const BALANCE_SATURATION_MIN: i32 = 10;

/// A choice of knobs and what it came to.
#[derive(Debug, Clone, Copy, PartialEq, Eq, Structural)]
pub struct Row {
    pub knobs: Knobs,
    pub totals: Totals,
}

/// Puts a row together.
pub fn row_for(knobs: &Knobs, totals: &Totals) -> (r: Row)
    ensures
        r == (Row { knobs: *knobs, totals: *totals }),
{
    Row { knobs: *knobs, totals: *totals }
}

/// `s` without what occurred before, in order.
pub open spec fn first_only(s: Seq<Knobs>) -> Seq<Knobs>
    decreases s.len(),
{
    if s.len() == 0 {
        s
    } else if s.drop_last().contains(s.last()) {
        first_only(s.drop_last())
    } else {
        first_only(s.drop_last()).push(s.last())
    }
}

/// The members of `s` whose LED phases are in order.
pub open spec fn feasible_only(s: Seq<Knobs>) -> Seq<Knobs>
    decreases s.len(),
{
    if s.len() == 0 {
        s
    } else if s.last().feasible() {
        feasible_only(s.drop_last()).push(s.last())
    } else {
        feasible_only(s.drop_last())
    }
}

/// Deduplication keeps every choice, and each once.
pub proof fn law_first_only_is_distinct(s: Seq<Knobs>)
    ensures
        first_only(s).no_duplicates(),
        forall|k: Knobs| #[trigger] first_only(s).contains(k) <==> s.contains(k),
    decreases s.len(),
{
    if s.len() > 0 {
        let d = s.drop_last();
        let f = first_only(d);
        law_first_only_is_distinct(d);
        assert(s =~= d.push(s.last()));
        assert forall|k: Knobs| #[trigger] first_only(s).contains(k) <==> s.contains(k) by {
            if s.contains(k) {
                let m = choose|m: int| 0 <= m < s.len() && s[m] == k;
                if m < d.len() {
                    assert(d[m] == k);
                    assert(f.contains(k));
                    let j = choose|j: int| 0 <= j < f.len() && f[j] == k;
                    assert(first_only(s)[j] == k);
                } else if d.contains(s.last()) {
                    assert(f.contains(s.last()));
                } else {
                    assert(first_only(s)[f.len() as int] == k);
                }
            }
            if first_only(s).contains(k) {
                let j = choose|j: int| 0 <= j < first_only(s).len() && first_only(s)[j] == k;
                if j < f.len() {
                    assert(f[j] == k);
                    assert(f.contains(k));
                    let m = choose|m: int| 0 <= m < d.len() && d[m] == k;
                    assert(s[m] == k);
                } else {
                    assert(s[s.len() - 1] == k);
                }
            }
        }
        if !d.contains(s.last()) {
            assert(!f.contains(s.last()));
            assert forall|i: int, j: int|
                0 <= i < first_only(s).len() && 0 <= j < first_only(s).len() && i != j implies
                first_only(s)[i] != first_only(s)[j] by {
                if i < f.len() && j < f.len() {
                    assert(f[i] != f[j]);
                } else if i < f.len() {
                    assert(f.contains(f[i]));
                } else {
                    assert(f.contains(f[j]));
                }
            }
        }
    }
}

/// Only choices whose LED phases are in order are kept, and every one of them.
pub proof fn law_feasible_only_keeps_the_feasible(s: Seq<Knobs>)
    ensures
        forall|k: Knobs|
            #[trigger] feasible_only(s).contains(k) <==> s.contains(k) && k.feasible(),
    decreases s.len(),
{
    if s.len() > 0 {
        let d = s.drop_last();
        let f = feasible_only(d);
        law_feasible_only_keeps_the_feasible(d);
        assert forall|k: Knobs| #[trigger] feasible_only(s).contains(k) <==> s.contains(k)
            && k.feasible() by {
            if s.contains(k) && k.feasible() {
                let m = choose|m: int| 0 <= m < s.len() && s[m] == k;
                if m < d.len() {
                    assert(d[m] == k);
                    assert(f.contains(k));
                    let j = choose|j: int| 0 <= j < f.len() && f[j] == k;
                    assert(feasible_only(s)[j] == k);
                } else {
                    assert(feasible_only(s)[f.len() as int] == k);
                }
            }
            if feasible_only(s).contains(k) {
                let j = choose|j: int| 0 <= j < feasible_only(s).len() && feasible_only(s)[j] == k;
                if j < f.len() {
                    assert(f[j] == k);
                    assert(f.contains(k));
                    let m = choose|m: int| 0 <= m < d.len() && d[m] == k;
                    assert(s[m] == k);
                } else {
                    assert(s[s.len() - 1] == k);
                }
            }
        }
    }
}

/// The first of each distinct choice of knobs, in order.
pub fn dedupe(front: &Vec<Knobs>) -> (r: Vec<Knobs>)
    ensures
        r@ == first_only(front@),
{
    let mut r: Vec<Knobs> = Vec::new();
    let mut i: usize = 0;
    assert(front@.take(0) =~= Seq::<Knobs>::empty());
    while i < front.len()
        invariant
            i <= front@.len(),
            r@ == first_only(front@.take(i as int)),
        decreases front@.len() - i,
    {
        let k = front[i];
        let mut seen = false;
        let mut j: usize = 0;
        while j < i
            invariant
                j <= i < front@.len(),
                k == front@[i as int],
                seen == front@.take(j as int).contains(k),
            decreases i - j,
        {
            proof {
                let before = front@.take(j as int);
                let after = front@.take(j + 1);
                assert(after =~= before.push(front@[j as int]));
                assert(after[j as int] == front@[j as int]);
                if before.contains(k) {
                    let m = choose|m: int| 0 <= m < before.len() && before[m] == k;
                    assert(after[m] == k);
                }
            }
            if front[j] == k {
                seen = true;
            }
            j = j + 1;
        }
        proof {
            assert(front@.take(i + 1).drop_last() =~= front@.take(i as int));
            assert(front@.take(i + 1).last() == k);
        }
        if !seen {
            r.push(k);
        }
        i = i + 1;
    }
    assert(front@.take(i as int) =~= front@);
    r
}

/// The rows of a front: one for each distinct choice of knobs whose LED phases
/// are in order, in the order of the front.
pub fn front_rows(problem: &JigglyTuning, front: &Vec<Knobs>) -> (r: Vec<Row>)
    requires
        forall|i: int| 0 <= i < front@.len() ==> problem.fits((#[trigger] front@[i]).rt),
    ensures
        r@.map_values(|row: Row| row.knobs) == feasible_only(first_only(front@)),
        forall|i: int|
            0 <= i < r@.len() ==> crate::tuning::totals_are(
                (#[trigger] r@[i]).totals,
                problem.days@,
                r@[i].knobs,
            ),
{
    let distinct = dedupe(front);
    proof {
        law_first_only_is_distinct(front@);
        assert forall|j: int| 0 <= j < distinct@.len() implies front@.contains(
            #[trigger] distinct@[j],
        ) by {
            assert(first_only(front@).contains(distinct@[j]));
        }
    }
    let mut r: Vec<Row> = Vec::new();
    let mut i: usize = 0;
    assert(distinct@.take(0) =~= Seq::<Knobs>::empty());
    assert(r@.map_values(|row: Row| row.knobs) =~= feasible_only(distinct@.take(0)));
    while i < distinct.len()
        invariant
            i <= distinct@.len(),
            forall|j: int| 0 <= j < front@.len() ==> problem.fits((#[trigger] front@[j]).rt),
            forall|j: int| 0 <= j < distinct@.len() ==> front@.contains(#[trigger] distinct@[j]),
            r@.map_values(|row: Row| row.knobs) == feasible_only(distinct@.take(i as int)),
            forall|j: int|
                0 <= j < r@.len() ==> crate::tuning::totals_are(
                    (#[trigger] r@[j]).totals,
                    problem.days@,
                    r@[j].knobs,
                ),
        decreases distinct@.len() - i,
    {
        let k = distinct[i];
        assert(front@.contains(distinct@[i as int]));
        proof {
            assert(distinct@.take(i + 1).drop_last() =~= distinct@.take(i as int));
            assert(distinct@.take(i + 1).last() == k);
        }
        if k.is_feasible() {
            let t = problem.aggregate(&k);
            let ghost old_r = r@;
            r.push(row_for(&k, &t));
            assert(r@.map_values(|row: Row| row.knobs) =~= old_r.map_values(
                |row: Row| row.knobs,
            ).push(k));
        }
        i = i + 1;
    }
    assert(distinct@.take(i as int) =~= distinct@);
    r
}

/// `x` ranks above `y`; what has no key ranks below everything that has one.
pub open spec fn above(x: Option<u128>, y: Option<u128>) -> bool {
    match (x, y) {
        (Some(a), Some(b)) => a > b,
        (Some(_), None) => true,
        (None, _) => false,
    }
}

/// `r` lists every index of `keys` from the highest key to the lowest, equal
/// keys in their own order.
pub open spec fn is_ranking(keys: Seq<Option<u128>>, r: Seq<usize>) -> bool {
    &&& r.len() == keys.len()
    &&& forall|a: int| 0 <= a < keys.len() ==> #[trigger] r.contains(a as usize)
    &&& forall|i: int| 0 <= i < r.len() ==> (#[trigger] r[i]) < keys.len()
    &&& forall|i: int, j: int|
        0 <= i < j < r.len() ==> above(keys[(#[trigger] r[i]) as int], keys[(#[trigger] r[j]) as int]) || (
        keys[r[i] as int] == keys[r[j] as int] && r[i] < r[j])
}

fn is_above(x: Option<u128>, y: Option<u128>) -> (r: bool)
    ensures
        r == above(x, y),
{
    match (x, y) {
        (Some(a), Some(b)) => a > b,
        (Some(_), None) => true,
        (None, _) => false,
    }
}

/// Ranks from the highest key down; equal keys keep their order.
pub fn rank_descending(keys: &Vec<Option<u128>>) -> (r: Vec<usize>)
    ensures
        is_ranking(keys@, r@),
{
    let mut r: Vec<usize> = Vec::new();
    let mut i: usize = 0;
    assert(keys@.take(0) =~= Seq::<Option<u128>>::empty());
    while i < keys.len()
        invariant
            i <= keys@.len(),
            is_ranking(keys@.take(i as int), r@),
        decreases keys@.len() - i,
    {
        let ghost seen = keys@.take(i as int);
        let ghost old_r = r@;
        let mut pos: usize = 0;
        while pos < r.len() && !is_above(keys[i], keys[r[pos]])
            invariant
                i < keys@.len(),
                seen == keys@.take(i as int),
                pos <= r@.len(),
                r@ == old_r,
                is_ranking(seen, r@),
                forall|j: int|
                    0 <= j < pos ==> !above(keys@[i as int], keys@[(#[trigger] r@[j]) as int]),
            decreases r@.len() - pos,
        {
            pos = pos + 1;
        }
        r.insert(pos, i);
        proof {
            let now = keys@.take(i + 1);
            assert(forall|a: int| 0 <= a < i ==> now[a] == #[trigger] seen[a]);
            assert(r@ =~= old_r.insert(pos as int, i));
            assert forall|a: int| 0 <= a < now.len() implies #[trigger] r@.contains(a as usize) by {
                if a < i {
                    assert(old_r.contains(a as usize));
                    let m = choose|m: int| 0 <= m < old_r.len() && old_r[m] == a as usize;
                    if m < pos {
                        assert(r@[m] == a as usize);
                    } else {
                        assert(r@[m + 1] == a as usize);
                    }
                } else {
                    assert(r@[pos as int] == i);
                }
            }
            assert forall|x: int| 0 <= x < r@.len() implies (#[trigger] r@[x]) < now.len() by {
                if x < pos {
                    assert(r@[x] == old_r[x]);
                } else if x > pos {
                    assert(r@[x] == old_r[x - 1]);
                }
            }
            assert forall|x: int, y: int| 0 <= x < y < r@.len() implies above(
                now[(#[trigger] r@[x]) as int],
                now[(#[trigger] r@[y]) as int],
            ) || (now[r@[x] as int] == now[r@[y] as int] && r@[x] < r@[y]) by {
                let ox = if x < pos {
                    x
                } else {
                    x - 1
                };
                let oy = if y < pos {
                    y
                } else {
                    y - 1
                };
                if x < pos && y == pos {
                    assert(old_r[x] < i);
                    assert(!above(keys@[i as int], keys@[old_r[x] as int]));
                } else if x == pos && y > pos {
                    assert(above(keys@[i as int], keys@[old_r[pos as int] as int]));
                    if y - 1 > pos {
                        assert(old_r[pos as int] < i && old_r[y - 1] < i);
                    }
                } else if x != pos && y != pos {
                    assert(r@[x] == old_r[ox] && r@[y] == old_r[oy]);
                    assert(old_r[ox] < i && old_r[oy] < i);
                }
            }
        }
        i = i + 1;
    }
    assert(keys@.take(i as int) =~= keys@);
    r
}

/// What rows are ranked by: their lunch sleep.
pub open spec fn lunch_keys(rows: Seq<Row>) -> Seq<Option<u128>> {
    rows.map_values(|row: Row| Some(row.totals.lunch))
}

/// `rows` in the given order.
pub open spec fn rows_in(rows: Seq<Row>, order: Seq<usize>) -> Seq<Row> {
    order.map_values(|i: usize| rows[i as int])
}

/// The rows of most lunch sleep first; equal rows keep their order.
pub fn rank_by_lunch(rows: &Vec<Row>) -> (r: Vec<usize>)
    ensures
        is_ranking(lunch_keys(rows@), r@),
{
    let mut keys: Vec<Option<u128>> = Vec::new();
    let mut i: usize = 0;
    while i < rows.len()
        invariant
            i <= rows@.len(),
            keys@.len() == i,
            forall|j: int| 0 <= j < i ==> #[trigger] keys@[j] == Some(rows@[j].totals.lunch),
        decreases rows@.len() - i,
    {
        keys.push(Some(rows[i].totals.lunch));
        i = i + 1;
    }
    assert(keys@ =~= lunch_keys(rows@));
    rank_descending(&keys)
}

/// The rows themselves, most lunch sleep first; equal rows keep their order.
pub fn sort_by_lunch(rows: &Vec<Row>) -> (r: Vec<Row>)
    ensures
        exists|order: Seq<usize>|
            #[trigger] is_ranking(lunch_keys(rows@), order)
                && r@ == rows_in(rows@, order),
{
    let order = rank_by_lunch(rows);
    let mut r: Vec<Row> = Vec::new();
    let mut i: usize = 0;
    while i < order.len()
        invariant
            i <= order@.len(),
            is_ranking(lunch_keys(rows@), order@),
            r@.len() == i,
            forall|j: int| 0 <= j < i ==> #[trigger] r@[j] == rows@[order@[j] as int],
        decreases order@.len() - i,
    {
        assert(order@[i as int] < rows@.len());
        r.push(rows[order[i]]);
        i = i + 1;
    }
    assert(r@ =~= rows_in(rows@, order@));
    r
}

/// The place, counted from one, of `idx` in a ranking; zero if it is not there.
pub fn place_of(order: &Vec<usize>, idx: usize) -> (r: usize)
    requires
        order@.len() < usize::MAX,
    ensures
        r == 0 <==> !order@.contains(idx),
        r > 0 ==> r <= order@.len() && order@[r - 1] == idx && !order@.take(r - 1).contains(idx),
{
    let mut i: usize = 0;
    while i < order.len()
        invariant
            i <= order@.len() < usize::MAX,
            forall|j: int| 0 <= j < i ==> order@[j] != idx,
        decreases order@.len() - i,
    {
        if order[i] == idx {
            return i + 1;
        }
        i = i + 1;
    }
    0
}

/// `b` is the first of the best keys: of the highest if `want_high`, else of the
/// lowest.
pub open spec fn is_best(keys: Seq<u128>, want_high: bool, b: int) -> bool {
    &&& 0 <= b < keys.len()
    &&& forall|j: int|
        0 <= j < keys.len() ==> if want_high {
            #[trigger] keys[j] <= keys[b]
        } else {
            keys[j] >= keys[b]
        }
    &&& forall|j: int| 0 <= j < b ==> #[trigger] keys[j] != keys[b]
}

/// The first of the best: of the highest keys if `want_high`, else of the
/// lowest.
pub fn best_by(keys: &Vec<u128>, want_high: bool) -> (r: Option<usize>)
    ensures
        r is None <==> keys@.len() == 0,
        r matches Some(b) ==> is_best(keys@, want_high, b as int),
{
    if keys.len() == 0 {
        return None;
    }
    let mut b: usize = 0;
    let mut i: usize = 1;
    while i < keys.len()
        invariant
            b < i <= keys@.len(),
            forall|j: int|
                0 <= j < i ==> if want_high {
                    #[trigger] keys@[j] <= keys@[b as int]
                } else {
                    keys@[j] >= keys@[b as int]
                },
            forall|j: int| 0 <= j < b ==> #[trigger] keys@[j] != keys@[b as int],
        decreases keys@.len() - i,
    {
        if (want_high && keys[i] > keys[b]) || (!want_high && keys[i] < keys[b]) {
            b = i;
        }
        i = i + 1;
    }
    Some(b)
}

/// The least member of `s`.
pub open spec fn least(s: Seq<u128>) -> u128
    decreases s.len(),
{
    if s.len() <= 1 {
        s[0]
    } else if s.last() < least(s.drop_last()) {
        s.last()
    } else {
        least(s.drop_last())
    }
}

/// The greatest member of `s`.
pub open spec fn greatest(s: Seq<u128>) -> u128
    decreases s.len(),
{
    if s.len() <= 1 {
        s[0]
    } else if s.last() > greatest(s.drop_last()) {
        s.last()
    } else {
        greatest(s.drop_last())
    }
}

/// Every member lies between the least and the greatest.
proof fn lemma_between(s: Seq<u128>, i: int)
    requires
        0 <= i < s.len(),
    ensures
        least(s) <= s[i] <= greatest(s),
    decreases s.len(),
{
    if s.len() > 1 {
        if i < s.len() - 1 {
            assert(s.drop_last()[i] == s[i]);
            lemma_between(s.drop_last(), i);
        } else {
            assert(s.drop_last()[0] == s[0]);
            lemma_between(s.drop_last(), 0);
        }
    }
}

fn bounds(s: &Vec<u128>) -> (r: (u128, u128))
    requires
        s@.len() > 0,
    ensures
        r.0 == least(s@),
        r.1 == greatest(s@),
{
    let mut lo = s[0];
    let mut hi = s[0];
    let mut i: usize = 1;
    assert(s@.take(1).len() == 1);
    while i < s.len()
        invariant
            1 <= i <= s@.len(),
            lo == least(s@.take(i as int)),
            hi == greatest(s@.take(i as int)),
        decreases s@.len() - i,
    {
        proof {
            assert(s@.take(i + 1).drop_last() =~= s@.take(i as int));
            assert(s@.take(i + 1).last() == s@[i as int]);
        }
        if s[i] < lo {
            lo = s[i];
        }
        if s[i] > hi {
            hi = s[i];
        }
        i = i + 1;
    }
    assert(s@.take(i as int) =~= s@);
    (lo, hi)
}

/// Two means that differ by less than one part in this many count as equal.
pub const MEANS_APART: u128 = 1_000_000_000_000;

/// The means of `lo` and `hi` over `days` days differ by less than a
/// `MEANS_APART`-th.
pub open spec fn level(lo: int, hi: int, days: int) -> bool {
    (hi - lo) * MEANS_APART < days
}

fn is_level(lo: u128, hi: u128, days: u64) -> (r: bool)
    requires
        lo <= hi,
    ensures
        r == level(lo as int, hi as int, days as int),
{
    hi - lo <= days as u128 && (hi - lo) * MEANS_APART < days as u128
}

/// The mean of a total between `lo` and `hi`, over `days` days, as a fraction of
/// the way from the worst (0) to the best (1), where less is better. Where the
/// means hardly differ, every one is the best.
pub fn norm_min(v: u128, lo: u128, hi: u128, days: u64) -> (r: (u128, u128))
    requires
        lo <= v <= hi,
        days > 0,
    ensures
        level(lo as int, hi as int, days as int) ==> r == (1u128, 1u128),
        !level(lo as int, hi as int, days as int) ==> r.0 == hi - v && r.1 == hi - lo,
        r.0 <= r.1,
        r.1 >= 1,
{
    if is_level(lo, hi, days) {
        (1, 1)
    } else {
        (hi - v, hi - lo)
    }
}

/// The mean of a total between `lo` and `hi`, over `days` days, as a fraction of
/// the way from the worst (0) to the best (1), where more is better. Where the
/// means hardly differ, every one is the best.
pub fn norm_max(v: u128, lo: u128, hi: u128, days: u64) -> (r: (u128, u128))
    requires
        lo <= v <= hi,
        days > 0,
    ensures
        level(lo as int, hi as int, days as int) ==> r == (1u128, 1u128),
        !level(lo as int, hi as int, days as int) ==> r.0 == v - lo && r.1 == hi - lo,
        r.0 <= r.1,
        r.1 >= 1,
{
    if is_level(lo, hi, days) {
        (1, 1)
    } else {
        (v - lo, hi - lo)
    }
}

/// How the presses of a day are taken.
#[derive(Debug, Clone, Copy, PartialEq, Eq, Structural)]
pub enum PressZone {
    /// At or below the hinge: no penalty.
    Free,
    /// Between the hinge and the cap.
    Ramp,
    /// Exactly at the cap.
    AtCap,
    /// Above the cap: out of the question.
    Rejected,
}

/// Where `presses` over `days` days stands against the hinge of 2.5 and the cap
/// of 3.5 a day.
pub open spec fn zone_of(presses: int, days: int) -> PressZone {
    if 2 * presses <= PRESS_HINGE_LOW_X2 * days {
        PressZone::Free
    } else if 2 * presses < PRESS_COMFORT_CAP_X2 * days {
        PressZone::Ramp
    } else if 2 * presses == PRESS_COMFORT_CAP_X2 * days {
        PressZone::AtCap
    } else {
        PressZone::Rejected
    }
}

/// Where `presses` over `days` days stands.
pub fn press_zone(presses: u128, days: u64) -> (r: PressZone)
    requires
        2 * presses <= u128::MAX,
    ensures
        r == zone_of(presses as int, days as int),
{
    let p: u128 = 2 * presses;
    let n: u128 = days as u128;
    if p <= PRESS_HINGE_LOW_X2 * n {
        PressZone::Free
    } else if p < PRESS_COMFORT_CAP_X2 * n {
        PressZone::Ramp
    } else if p == PRESS_COMFORT_CAP_X2 * n {
        PressZone::AtCap
    } else {
        PressZone::Rejected
    }
}

/// The press term over `2 * days`: full up to the hinge, then falling straight
/// to nothing at the cap.
pub open spec fn press_num(presses: int, days: int) -> int {
    if 2 * presses <= PRESS_HINGE_LOW_X2 * days {
        2 * days
    } else {
        PRESS_COMFORT_CAP_X2 * days - 2 * presses
    }
}

/// The press term as a fraction, or nothing where the presses are above the
/// cap.
pub fn press_score(presses: u128, days: u64) -> (r: Option<(u128, u128)>)
    requires
        2 * presses <= u128::MAX,
        days > 0,
    ensures
        r is None <==> zone_of(presses as int, days as int) is Rejected,
        r matches Some(f) ==> {
            &&& f.0 == press_num(presses as int, days as int)
            &&& f.1 == 2 * days
            &&& f.0 <= f.1
        },
{
    let n: u128 = days as u128;
    match press_zone(presses, days) {
        PressZone::Free => Some((2 * n, 2 * n)),
        PressZone::Rejected => None,
        _ => Some((PRESS_COMFORT_CAP_X2 * n - 2 * presses, 2 * n)),
    }
}

/// Minutes of the shorter of the yellow and the red phase, between zero and the
/// saturation point.
pub open spec fn balance_of(k: Knobs) -> int {
    let yellow = k.ya - k.ra;
    let red = k.ra - k.fra;
    let raw = if yellow < red {
        yellow
    } else {
        red
    };
    if raw < 0 {
        0
    } else if raw > BALANCE_SATURATION_MIN {
        BALANCE_SATURATION_MIN as int
    } else {
        raw
    }
}

/// The knobs whose phase widths are free of overflow.
pub open spec fn widths_fit(k: Knobs) -> bool {
    &&& i32::MIN <= k.ya - k.ra <= i32::MAX
    &&& i32::MIN <= k.ra - k.fra <= i32::MAX
}

/// The balance bonus, in tenths.
pub fn balance_score_for(k: &Knobs) -> (r: u128)
    requires
        widths_fit(*k),
    ensures
        r == balance_of(*k),
        r <= 10,
{
    let yellow_w: i32 = k.ya - k.ra;
    let red_w: i32 = k.ra - k.fra;
    let raw: i32 = if yellow_w < red_w {
        yellow_w
    } else {
        red_w
    };
    if raw < 0 {
        0
    } else if raw > BALANCE_SATURATION_MIN {
        BALANCE_SATURATION_MIN as u128
    } else {
        raw as u128
    }
}

/// Lunch, after-hours and work totals of a set of rows.
pub open spec fn lunches(rows: Seq<Row>) -> Seq<u128> {
    rows.map_values(|r: Row| r.totals.lunch)
}

pub open spec fn afters(rows: Seq<Row>) -> Seq<u128> {
    rows.map_values(|r: Row| r.totals.after)
}

pub open spec fn works(rows: Seq<Row>) -> Seq<u128> {
    rows.map_values(|r: Row| r.totals.work)
}

/// The spread of the totals `s` over `days` days, or one where their means hardly
/// differ.
pub open spec fn spread(s: Seq<u128>, days: int) -> int {
    if level(least(s) as int, greatest(s) as int, days) {
        1
    } else {
        greatest(s) - least(s)
    }
}

/// How far `v` is from the worst member of `s`, less being better, over
/// `spread(s, days)`.
pub open spec fn less_is_better(v: u128, s: Seq<u128>, days: int) -> int {
    if level(least(s) as int, greatest(s) as int, days) {
        1
    } else {
        greatest(s) - v
    }
}

/// How far `v` is from the worst member of `s`, more being better, over
/// `spread(s, days)`.
pub open spec fn more_is_better(v: u128, s: Seq<u128>, days: int) -> int {
    if level(least(s) as int, greatest(s) as int, days) {
        1
    } else {
        v - least(s)
    }
}

/// The days that rows are over.
pub open spec fn days_of(rows: Seq<Row>) -> int {
    rows[0].totals.days as int
}

/// The product of the five terms' denominators.
pub open spec fn terms_den(rows: Seq<Row>) -> int {
    let n = days_of(rows);
    spread(lunches(rows), n) * spread(afters(rows), n) * spread(works(rows), n) * (2 * n) * 10
}

/// The common denominator of all scores in a set of rows.
pub open spec fn score_den(rows: Seq<Row>) -> int {
    100 * terms_den(rows)
}

/// The numerator of a row's score: 30% lunch sleep, 25% after hours, 20% sleep
/// at work, 15% presses and 10% balance, each a fraction between 0 and 1
/// brought to the common denominator.
pub open spec fn score_num(rows: Seq<Row>, r: Row) -> int {
    let n = days_of(rows);
    let l = spread(lunches(rows), n);
    let a = spread(afters(rows), n);
    let w = spread(works(rows), n);
    let p = 2 * n;
    W_LUNCH * (more_is_better(r.totals.lunch, lunches(rows), n) * (a * w * p * 10)) + W_AFTER * (
    less_is_better(r.totals.after, afters(rows), n) * (l * w * p * 10)) + W_WORK * (
    less_is_better(r.totals.work, works(rows), n) * (l * a * p * 10)) + W_PRESS * (press_num(
        r.totals.presses as int,
        n,
    ) * (l * a * w * 10)) + W_BALANCE * (balance_of(r.knobs) * (l * a * w * p))
}

/// A set of rows that can be scored against each other: all over the same
/// days, and small enough for the machine's integers.
pub open spec fn comparable(rows: Seq<Row>) -> bool {
    &&& rows.len() > 0
    &&& rows[0].totals.days > 0
    &&& forall|i: int|
        0 <= i < rows.len() ==> {
            &&& (#[trigger] rows[i]).totals.days == rows[0].totals.days
            &&& 2 * rows[i].totals.presses <= u128::MAX
            &&& widths_fit(rows[i].knobs)
        }
    &&& score_den(rows) <= u128::MAX
}

/// `nums` holds the numerators of the scores of `rows`: none exactly where a row
/// is rejected.
pub open spec fn are_scores(nums: Seq<Option<u128>>, rows: Seq<Row>) -> bool {
    &&& nums.len() == rows.len()
    &&& forall|i: int|
        0 <= i < rows.len() ==> (#[trigger] nums[i] is None <==> zone_of(
            rows[i].totals.presses as int,
            rows[i].totals.days as int,
        ) is Rejected)
    &&& forall|i: int|
        0 <= i < rows.len() && nums[i] is Some ==> (#[trigger] nums[i])->0 == score_num(
            rows,
            rows[i],
        )
}

/// Scores over a common denominator; none where a row is rejected.
#[derive(Debug)]
pub struct Scores {
    pub den: u128,
    pub nums: Vec<Option<u128>>,
}

/// The five ways to take one factor out of the product, and how each bounds a
/// fraction's numerator.
proof fn lemma_products(l: int, a: int, w: int, p: int)
    requires
        l >= 1,
        a >= 1,
        w >= 1,
        p >= 1,
    ensures
        l * (a * w * p * 10) == l * a * w * p * 10,
        a * (l * w * p * 10) == l * a * w * p * 10,
        w * (l * a * p * 10) == l * a * w * p * 10,
        p * (l * a * w * 10) == l * a * w * p * 10,
        10 * (l * a * w * p) == l * a * w * p * 10,
        1 <= l * a <= l * a * w * p * 10,
        1 <= l * w <= l * a * w * p * 10,
        1 <= a * w <= l * a * w * p * 10,
        1 <= l * a * w <= l * a * w * p * 10,
        1 <= a * w * p <= l * a * w * p * 10,
        1 <= l * w * p <= l * a * w * p * 10,
        1 <= l * a * p <= l * a * w * p * 10,
        1 <= l * a * w * p <= l * a * w * p * 10,
        a * w * p * 10 <= l * a * w * p * 10,
        l * w * p * 10 <= l * a * w * p * 10,
        l * a * p * 10 <= l * a * w * p * 10,
        l * a * w * 10 <= l * a * w * p * 10,
{
    let la = l * a;
    let law = la * w;
    let lawp = law * p;
    assert(la >= 1) by (nonlinear_arith)
        requires
            la == l * a,
            l >= 1,
            a >= 1,
    ;
    assert(law >= la) by (nonlinear_arith)
        requires
            law == la * w,
            la >= 1,
            w >= 1,
    ;
    assert(lawp >= law) by (nonlinear_arith)
        requires
            lawp == law * p,
            law >= 1,
            p >= 1,
    ;
    assert(l * (a * w * p * 10) == lawp * 10) by (nonlinear_arith)
        requires
            lawp == l * a * w * p,
    ;
    assert(a * (l * w * p * 10) == lawp * 10) by (nonlinear_arith)
        requires
            lawp == l * a * w * p,
    ;
    assert(w * (l * a * p * 10) == lawp * 10) by (nonlinear_arith)
        requires
            lawp == l * a * w * p,
    ;
    assert(p * (l * a * w * 10) == lawp * 10) by (nonlinear_arith)
        requires
            lawp == l * a * w * p,
    ;
    let aw = a * w;
    let awp = aw * p;
    assert(aw >= 1) by (nonlinear_arith)
        requires
            aw == a * w,
            a >= 1,
            w >= 1,
    ;
    assert(awp >= aw) by (nonlinear_arith)
        requires
            awp == aw * p,
            aw >= 1,
            p >= 1,
    ;
    assert(lawp >= awp) by (nonlinear_arith)
        requires
            lawp == l * a * w * p,
            awp == a * w * p,
            awp >= 1,
            l >= 1,
    ;
    let lw = l * w;
    let lwp = lw * p;
    assert(lw >= 1) by (nonlinear_arith)
        requires
            lw == l * w,
            l >= 1,
            w >= 1,
    ;
    assert(lwp >= lw) by (nonlinear_arith)
        requires
            lwp == lw * p,
            lw >= 1,
            p >= 1,
    ;
    assert(lawp >= lwp) by (nonlinear_arith)
        requires
            lawp == l * a * w * p,
            lwp == l * w * p,
            lwp >= 1,
            a >= 1,
    ;
    let lap = la * p;
    assert(lap >= la) by (nonlinear_arith)
        requires
            lap == la * p,
            la >= 1,
            p >= 1,
    ;
    assert(lawp >= lap) by (nonlinear_arith)
        requires
            lawp == l * a * w * p,
            lap == l * a * p,
            lap >= 1,
            w >= 1,
    ;
}

/// A fraction `x / y` of at most one, brought to the denominator `y * q`, stays
/// at most one.
proof fn lemma_scaled(x: int, y: int, q: int)
    requires
        0 <= x <= y,
        q >= 0,
    ensures
        0 <= x * q <= y * q,
{
    assert(0 <= x * q <= y * q) by (nonlinear_arith)
        requires
            0 <= x <= y,
            q >= 0,
    ;
}

/// Every score of an accepted row lies between 0 and 1.
pub proof fn law_score_in_unit_interval(rows: Seq<Row>, i: int)
    requires
        comparable(rows),
        0 <= i < rows.len(),
        !(zone_of(rows[i].totals.presses as int, rows[i].totals.days as int) is Rejected),
    ensures
        0 <= score_num(rows, rows[i]) <= score_den(rows),
{
    let r = rows[i];
    let n = days_of(rows);
    let l = spread(lunches(rows), n);
    let a = spread(afters(rows), n);
    let w = spread(works(rows), n);
    let p = 2 * n;
    assert(lunches(rows)[i] == r.totals.lunch);
    assert(afters(rows)[i] == r.totals.after);
    assert(works(rows)[i] == r.totals.work);
    lemma_between(lunches(rows), i);
    lemma_between(afters(rows), i);
    lemma_between(works(rows), i);
    lemma_products(l, a, w, p);
    lemma_scaled(more_is_better(r.totals.lunch, lunches(rows), n), l, a * w * p * 10);
    lemma_scaled(less_is_better(r.totals.after, afters(rows), n), a, l * w * p * 10);
    lemma_scaled(less_is_better(r.totals.work, works(rows), n), w, l * a * p * 10);
    lemma_scaled(press_num(r.totals.presses as int, n), p, l * a * w * 10);
    lemma_scaled(balance_of(r.knobs), 10, l * a * w * p);
}

/// A row that is at least as good as another on every term scores no less.
pub proof fn law_dominating_row_scores_no_less(rows: Seq<Row>, i: int, j: int)
    requires
        comparable(rows),
        0 <= i < rows.len(),
        0 <= j < rows.len(),
        rows[i].totals.lunch >= rows[j].totals.lunch,
        rows[i].totals.after <= rows[j].totals.after,
        rows[i].totals.work <= rows[j].totals.work,
        rows[i].totals.presses <= rows[j].totals.presses,
        balance_of(rows[i].knobs) >= balance_of(rows[j].knobs),
    ensures
        score_num(rows, rows[i]) >= score_num(rows, rows[j]),
{
    let n = days_of(rows);
    let l = spread(lunches(rows), n);
    let a = spread(afters(rows), n);
    let w = spread(works(rows), n);
    let p = 2 * n;
    assert(lunches(rows)[0] == rows[0].totals.lunch);
    lemma_between(lunches(rows), 0);
    lemma_between(afters(rows), 0);
    lemma_between(works(rows), 0);
    lemma_products(l, a, w, p);
    let ri = rows[i].totals;
    let rj = rows[j].totals;
    lemma_monotone(
        more_is_better(rj.lunch, lunches(rows), n),
        more_is_better(ri.lunch, lunches(rows), n),
        a * w * p * 10,
    );
    lemma_monotone(
        less_is_better(rj.after, afters(rows), n),
        less_is_better(ri.after, afters(rows), n),
        l * w * p * 10,
    );
    lemma_monotone(
        less_is_better(rj.work, works(rows), n),
        less_is_better(ri.work, works(rows), n),
        l * a * p * 10,
    );
    lemma_monotone(
        press_num(rj.presses as int, n),
        press_num(ri.presses as int, n),
        l * a * w * 10,
    );
    lemma_monotone(balance_of(rows[j].knobs), balance_of(rows[i].knobs), l * a * w * p);
}

proof fn lemma_monotone(x: int, y: int, q: int)
    requires
        x <= y,
        q >= 0,
    ensures
        x * q <= y * q,
{
    assert(x * q <= y * q) by (nonlinear_arith)
        requires
            x <= y,
            q >= 0,
    ;
}

/// A row that is best on every term scores exactly 1: the weights add up.
pub proof fn law_best_row_scores_one(rows: Seq<Row>, i: int)
    requires
        comparable(rows),
        0 <= i < rows.len(),
        rows[i].totals.lunch == greatest(lunches(rows)),
        rows[i].totals.after == least(afters(rows)),
        rows[i].totals.work == least(works(rows)),
        zone_of(rows[i].totals.presses as int, rows[i].totals.days as int) is Free,
        balance_of(rows[i].knobs) == BALANCE_SATURATION_MIN,
    ensures
        score_num(rows, rows[i]) == score_den(rows),
{
    let n = days_of(rows);
    let l = spread(lunches(rows), n);
    let a = spread(afters(rows), n);
    let w = spread(works(rows), n);
    let p = 2 * n;
    lemma_between(lunches(rows), 0);
    lemma_between(afters(rows), 0);
    lemma_between(works(rows), 0);
    lemma_products(l, a, w, p);
}

/// Scores every row against the others. Rows above the comfort cap on presses
/// are rejected. No rows have no scores.
pub fn compute_weighted_scores(rows: &Vec<Row>) -> (r: Scores)
    requires
        rows@.len() == 0 || comparable(rows@),
    ensures
        are_scores(r.nums@, rows@),
        r.den > 0,
        rows@.len() > 0 ==> r.den == score_den(rows@),
{
    if rows.len() == 0 {
        return Scores { den: 1, nums: Vec::new() };
    }
    let mut lunch: Vec<u128> = Vec::new();
    let mut after: Vec<u128> = Vec::new();
    let mut work: Vec<u128> = Vec::new();
    let mut i: usize = 0;
    while i < rows.len()
        invariant
            i <= rows@.len(),
            lunch@.len() == i,
            after@.len() == i,
            work@.len() == i,
            forall|j: int| 0 <= j < i ==> #[trigger] lunch@[j] == rows@[j].totals.lunch,
            forall|j: int| 0 <= j < i ==> #[trigger] after@[j] == rows@[j].totals.after,
            forall|j: int| 0 <= j < i ==> #[trigger] work@[j] == rows@[j].totals.work,
        decreases rows@.len() - i,
    {
        lunch.push(rows[i].totals.lunch);
        after.push(rows[i].totals.after);
        work.push(rows[i].totals.work);
        i = i + 1;
    }
    assert(lunch@ =~= lunches(rows@));
    assert(after@ =~= afters(rows@));
    assert(work@ =~= works(rows@));
    let (lunch_min, lunch_max) = bounds(&lunch);
    let (after_min, after_max) = bounds(&after);
    let (work_min, work_max) = bounds(&work);
    proof {
        lemma_between(lunch@, 0);
        lemma_between(after@, 0);
        lemma_between(work@, 0);
    }
    let days = rows[0].totals.days;
    let l = norm_max(lunch_min, lunch_min, lunch_max, days).1;
    let a = norm_min(after_min, after_min, after_max, days).1;
    let w = norm_min(work_min, work_min, work_max, days).1;
    let p: u128 = 2 * days as u128;
    assert(l == spread(lunches(rows@), days as int));
    assert(a == spread(afters(rows@), days as int));
    assert(w == spread(works(rows@), days as int));
    proof {
        lemma_products(l as int, a as int, w as int, p as int);
    }
    let q_lunch: u128 = a * w * p * 10;
    let q_after: u128 = l * w * p * 10;
    let q_work: u128 = l * a * p * 10;
    let q_press: u128 = l * a * w * 10;
    let q_balance: u128 = l * a * w * p;
    let den: u128 = 100 * (q_balance * 10);
    let mut nums: Vec<Option<u128>> = Vec::new();
    let mut j: usize = 0;
    while j < rows.len()
        invariant
            j <= rows@.len(),
            comparable(rows@),
            lunch@ == lunches(rows@),
            after@ == afters(rows@),
            work@ == works(rows@),
            lunch_min == least(lunch@),
            lunch_max == greatest(lunch@),
            after_min == least(after@),
            after_max == greatest(after@),
            work_min == least(work@),
            work_max == greatest(work@),
            days == rows@[0].totals.days,
            l == spread(lunch@, days as int),
            a == spread(after@, days as int),
            w == spread(work@, days as int),
            p == 2 * days,
            l >= 1,
            a >= 1,
            w >= 1,
            q_lunch == a * w * p * 10,
            q_after == l * w * p * 10,
            q_work == l * a * p * 10,
            q_press == l * a * w * 10,
            q_balance == l * a * w * p,
            nums@.len() == j,
            forall|i: int|
                0 <= i < j ==> (#[trigger] nums@[i] is None <==> zone_of(
                    rows@[i].totals.presses as int,
                    rows@[i].totals.days as int,
                ) is Rejected),
            forall|i: int|
                0 <= i < j && nums@[i] is Some ==> (#[trigger] nums@[i])->0 == score_num(
                    rows@,
                    rows@[i],
                ),
        decreases rows@.len() - j,
    {
        let row = rows[j];
        proof {
            assert(lunch@[j as int] == row.totals.lunch);
            assert(after@[j as int] == row.totals.after);
            assert(work@[j as int] == row.totals.work);
            lemma_between(lunch@, j as int);
            lemma_between(after@, j as int);
            lemma_between(work@, j as int);
        }
        match press_score(row.totals.presses, days) {
            None => {
                nums.push(None);
            },
            Some(press) => {
                let x_lunch = norm_max(row.totals.lunch, lunch_min, lunch_max, days).0;
                let x_after = norm_min(row.totals.after, after_min, after_max, days).0;
                let x_work = norm_min(row.totals.work, work_min, work_max, days).0;
                let x_balance = balance_score_for(&row.knobs);
                proof {
                    lemma_products(l as int, a as int, w as int, p as int);
                    lemma_scaled(x_lunch as int, l as int, q_lunch as int);
                    lemma_scaled(x_after as int, a as int, q_after as int);
                    lemma_scaled(x_work as int, w as int, q_work as int);
                    lemma_scaled(press.0 as int, p as int, q_press as int);
                    lemma_scaled(x_balance as int, 10, q_balance as int);
                }
                let num: u128 = W_LUNCH * (x_lunch * q_lunch) + W_AFTER * (x_after * q_after)
                    + W_WORK * (x_work * q_work) + W_PRESS * (press.0 * q_press) + W_BALANCE * (
                x_balance * q_balance);
                nums.push(Some(num));
            },
        }
        j = j + 1;
    }
    Scores { den, nums }
}

/// One choice out of many.
#[derive(Debug)]
pub struct Pick {
    /// The front, and after it the knobs that ship.
    pub candidates: Vec<Row>,
    pub scores: Scores,
    /// The candidates from the best score to the worst.
    pub order: Vec<usize>,
    /// The best candidate.
    pub top: usize,
    /// The place of the knobs that ship, counted from one.
    pub shipping_place: usize,
    /// The most sleep at work of any candidate.
    pub most_work: u128,
}

/// `p` is the choice among `candidates`.
pub open spec fn is_pick(p: Pick, candidates: Seq<Row>) -> bool {
    &&& p.candidates@ == candidates
    &&& p.scores.den == score_den(candidates)
    &&& are_scores(p.scores.nums@, candidates)
    &&& is_ranking(p.scores.nums@, p.order@)
    &&& p.top == p.order@[0]
    &&& p.order@[p.shipping_place - 1] == candidates.len() - 1
    &&& 1 <= p.shipping_place <= candidates.len()
    &&& p.most_work == greatest(works(candidates))
}

/// Scores the front together with the knobs that ship, on equal footing, and
/// picks the best.
pub fn recommend(front: &Vec<Row>, shipping: &Row) -> (r: Pick)
    requires
        comparable(front@.push(*shipping)),
        front@.len() + 1 < usize::MAX,
    ensures
        is_pick(r, front@.push(*shipping)),
{
    let mut candidates: Vec<Row> = Vec::new();
    let mut work: Vec<u128> = Vec::new();
    let mut i: usize = 0;
    while i < front.len()
        invariant
            i <= front@.len(),
            candidates@ == front@.take(i as int),
            work@ == works(front@.take(i as int)),
        decreases front@.len() - i,
    {
        candidates.push(front[i]);
        work.push(front[i].totals.work);
        i = i + 1;
        assert(candidates@ =~= front@.take(i as int));
        assert(work@ =~= works(front@.take(i as int)));
    }
    candidates.push(*shipping);
    work.push(shipping.totals.work);
    assert(candidates@ =~= front@.push(*shipping));
    assert(work@ =~= works(candidates@));
    let most_work = bounds(&work).1;
    let scores = compute_weighted_scores(&candidates);
    let order = rank_descending(&scores.nums);
    let last: usize = candidates.len() - 1;
    assert(order@.contains(last));
    let shipping_place = place_of(&order, last);
    let top = order[0];
    Pick { candidates, scores, order, top, shipping_place, most_work }
}

/// Nothing is preferred to the pick: no candidate scores above it, of equal
/// scores it is the first, and a rejected candidate is picked only where all
/// are rejected.
pub proof fn law_pick_is_best(p: Pick, candidates: Seq<Row>, i: int)
    requires
        candidates.len() > 0,
        is_pick(p, candidates),
        0 <= i < candidates.len() <= usize::MAX,
    ensures
        p.top < candidates.len(),
        !above(p.scores.nums@[i], p.scores.nums@[p.top as int]),
        p.scores.nums@[i] == p.scores.nums@[p.top as int] ==> p.top <= i,
        p.scores.nums@[p.top as int] is None ==> p.scores.nums@[i] is None,
{
    let nums = p.scores.nums@;
    assert(p.order@[0] < nums.len());
    assert(p.order@.contains(i as usize));
    let m = choose|m: int| 0 <= m < p.order@.len() && p.order@[m] == i as usize;
    if m > 0 {
        assert(above(nums[p.order@[0] as int], nums[p.order@[m] as int]) || (nums[p.order@[0] as int]
            == nums[p.order@[m] as int] && p.order@[0] < p.order@[m]));
    }
}

// ---------------------------------------------------------------------------
// What the score is made of.
// ---------------------------------------------------------------------------

/// The balance goes by the shorter warning phase: it is no longer than either,
/// it is one of the two or the ten minutes at which it is full, it is full only
/// where both phases have ten minutes, and a phase out of order has none.
pub proof fn law_balance_is_the_shorter_phase(k: Knobs)
    ensures
        ({
            let yellow = k.ya - k.ra;
            let red = k.ra - k.fra;
            let b = balance_of(k);
            &&& 0 <= b <= 10
            &&& yellow >= 0 && red >= 0 ==> b <= yellow && b <= red && (b == yellow || b == red || b
                == 10)
            &&& b == 10 <==> yellow >= 10 && red >= 10
            &&& yellow <= 0 || red <= 0 ==> b == 0
        }),
{
}

/// The balance does not care which phase is which, where they lie, or how long
/// the cycle is.
pub proof fn law_balance_is_even_handed(k: Knobs, j: Knobs)
    requires
        (k.ya - k.ra == j.ra - j.fra && k.ra - k.fra == j.ya - j.ra) || (k.ya - k.ra == j.ya - j.ra
            && k.ra - k.fra == j.ra - j.fra),
    ensures
        balance_of(k) == balance_of(j),
{
}

/// A longer phase never costs balance.
pub proof fn law_balance_grows_with_the_phases(k: Knobs, j: Knobs)
    requires
        k.ya - k.ra <= j.ya - j.ra,
        k.ra - k.fra <= j.ra - j.fra,
    ensures
        balance_of(k) <= balance_of(j),
{
}

/// Presses cost nothing up to two and a half a day, and are out of the question
/// above three and a half.
pub proof fn law_presses_have_a_hinge_and_a_cap(presses: int, days: int)
    requires
        presses >= 0,
        days > 0,
    ensures
        zone_of(presses, days) is Free <==> 10 * presses <= 25 * days,
        zone_of(presses, days) is Ramp <==> 25 * days < 10 * presses && 10 * presses < 35 * days,
        zone_of(presses, days) is AtCap <==> 10 * presses == 35 * days,
        zone_of(presses, days) is Rejected <==> 10 * presses > 35 * days,
{
}

/// The press term is full up to the hinge, nothing at the cap, and between them
/// falls by the same amount for every press.
pub proof fn law_press_term_is_a_ramp(presses: int, more: int, days: int)
    requires
        0 <= presses <= more,
        days > 0,
    ensures
        2 * presses <= 5 * days ==> press_num(presses, days) == 2 * days,
        2 * presses == 7 * days ==> press_num(presses, days) == 0,
        5 * days <= 2 * presses ==> press_num(presses, days) - press_num(more, days) == 2 * (more
            - presses),
        press_num(more, days) <= press_num(presses, days),
{
}

/// The least and the greatest of some totals bound them all, and are among them.
pub proof fn law_least_and_greatest(s: Seq<u128>)
    requires
        s.len() > 0,
    ensures
        forall|i: int| 0 <= i < s.len() ==> least(s) <= #[trigger] s[i] <= greatest(s),
        s.contains(least(s)),
        s.contains(greatest(s)),
    decreases s.len(),
{
    assert forall|i: int| 0 <= i < s.len() implies least(s) <= #[trigger] s[i] <= greatest(s) by {
        lemma_between(s, i);
    }
    if s.len() == 1 {
        assert(s[0] == least(s) && s[0] == greatest(s));
    } else {
        let d = s.drop_last();
        law_least_and_greatest(d);
        let i = choose|i: int| 0 <= i < d.len() && d[i] == least(d);
        let j = choose|j: int| 0 <= j < d.len() && d[j] == greatest(d);
        assert(s[i] == least(d) && s[j] == greatest(d));
        assert(s[s.len() - 1] == s.last());
    }
}

/// Outcomes are measured on a straight scale from the worst, nothing, to the
/// best, all of it: equal steps count equally, and the two directions mirror each
/// other. Where the means differ by less than a million-millionth, all are best.
pub proof fn law_outcomes_are_on_a_straight_scale(s: Seq<u128>, days: int, u: u128, v: u128)
    requires
        s.len() > 0,
        days > 0,
    ensures
        ({
            let apart = greatest(s) - least(s);
            if apart * 1_000_000_000_000 < days {
                &&& spread(s, days) == 1
                &&& less_is_better(v, s, days) == 1
                &&& more_is_better(v, s, days) == 1
            } else {
                &&& spread(s, days) == apart
                &&& more_is_better(v, s, days) - more_is_better(u, s, days) == v - u
                &&& less_is_better(v, s, days) - less_is_better(u, s, days) == u - v
                &&& more_is_better(greatest(s), s, days) == apart
                &&& less_is_better(least(s), s, days) == apart
                &&& more_is_better(least(s), s, days) == 0
                &&& less_is_better(greatest(s), s, days) == 0
            }
        }),
{
}

/// A set of totals is that of its rows, each taken from its own column.
pub proof fn law_columns_are_the_rows(rows: Seq<Row>, i: int)
    requires
        0 <= i < rows.len(),
    ensures
        lunches(rows).len() == rows.len() && lunches(rows)[i] == rows[i].totals.lunch,
        afters(rows).len() == rows.len() && afters(rows)[i] == rows[i].totals.after,
        works(rows).len() == rows.len() && works(rows)[i] == rows[i].totals.work,
        lunch_keys(rows).len() == rows.len() && lunch_keys(rows)[i] == Some(rows[i].totals.lunch),
        days_of(rows) == rows[0].totals.days,
{
}

/// A term of the score scales from its own denominator to that of the score.
proof fn lemma_share_of_score(weight: int, x: int, y: int, own: int, q: int, den: int)
    requires
        den == 100 * (own * q),
    ensures
        (weight * (x * q) - weight * (y * q)) * 100 * own == weight * (x - y) * den,
{
    assert((weight * (x * q) - weight * (y * q)) * 100 * own == weight * (x - y) * (100 * (own
        * q))) by (nonlinear_arith);
}

/// The weights: of two rows that differ in one outcome only, the better one is
/// ahead by that outcome's weight times the difference on its scale. Lunch sleep
/// weighs 30 in a hundred, after hours 25, sleep at work 20, presses 15 and the
/// balance of the warning phases 10.
pub proof fn law_outcomes_weigh_what_they_should(rows: Seq<Row>, r: Row, q: Row)
    requires
        comparable(rows),
    ensures
        ({
            let n = rows[0].totals.days as int;
            let den = score_den(rows);
            let ahead = score_num(rows, r) - score_num(rows, q);
            let (a, b) = (r.totals, q.totals);
            let same_lunch = a.lunch == b.lunch;
            let same_after = a.after == b.after;
            let same_work = a.work == b.work;
            let same_press = a.presses == b.presses;
            let same_balance = balance_of(r.knobs) == balance_of(q.knobs);
            &&& same_after && same_work && same_press && same_balance ==> ahead * 100 * spread(
                lunches(rows),
                n,
            ) == 30 * (more_is_better(a.lunch, lunches(rows), n) - more_is_better(
                b.lunch,
                lunches(rows),
                n,
            )) * den
            &&& same_lunch && same_work && same_press && same_balance ==> ahead * 100 * spread(
                afters(rows),
                n,
            ) == 25 * (less_is_better(a.after, afters(rows), n) - less_is_better(
                b.after,
                afters(rows),
                n,
            )) * den
            &&& same_lunch && same_after && same_press && same_balance ==> ahead * 100 * spread(
                works(rows),
                n,
            ) == 20 * (less_is_better(a.work, works(rows), n) - less_is_better(
                b.work,
                works(rows),
                n,
            )) * den
            &&& same_lunch && same_after && same_work && same_balance ==> ahead * 100 * (2 * n)
                == 15 * (press_num(a.presses as int, n) - press_num(b.presses as int, n)) * den
            &&& same_lunch && same_after && same_work && same_press ==> ahead * 100 * 10 == 10 * (
            balance_of(r.knobs) - balance_of(q.knobs)) * den
        }),
{
    let n = days_of(rows);
    let l = spread(lunches(rows), n);
    let a = spread(afters(rows), n);
    let w = spread(works(rows), n);
    let p = 2 * n;
    let den = score_den(rows);
    lemma_between(lunches(rows), 0);
    lemma_between(afters(rows), 0);
    lemma_between(works(rows), 0);
    lemma_products(l, a, w, p);
    lemma_share_of_score(
        30,
        more_is_better(r.totals.lunch, lunches(rows), n),
        more_is_better(q.totals.lunch, lunches(rows), n),
        l,
        a * w * p * 10,
        den,
    );
    lemma_share_of_score(
        25,
        less_is_better(r.totals.after, afters(rows), n),
        less_is_better(q.totals.after, afters(rows), n),
        a,
        l * w * p * 10,
        den,
    );
    lemma_share_of_score(
        20,
        less_is_better(r.totals.work, works(rows), n),
        less_is_better(q.totals.work, works(rows), n),
        w,
        l * a * p * 10,
        den,
    );
    lemma_share_of_score(
        15,
        press_num(r.totals.presses as int, n),
        press_num(q.totals.presses as int, n),
        p,
        l * a * w * 10,
        den,
    );
    lemma_share_of_score(
        10,
        balance_of(r.knobs),
        balance_of(q.knobs),
        10,
        l * a * w * p,
        den,
    );
}

/// A row that is worst on every outcome, where they differ at all, scores
/// nothing, and the common denominator is more than that.
pub proof fn law_worst_row_scores_nothing(rows: Seq<Row>, r: Row)
    requires
        comparable(rows),
        r.totals.lunch == least(lunches(rows)),
        r.totals.after == greatest(afters(rows)),
        r.totals.work == greatest(works(rows)),
        2 * r.totals.presses == 7 * rows[0].totals.days,
        r.knobs.ya <= r.knobs.ra,
        !level(least(lunches(rows)) as int, greatest(lunches(rows)) as int, days_of(rows)),
        !level(least(afters(rows)) as int, greatest(afters(rows)) as int, days_of(rows)),
        !level(least(works(rows)) as int, greatest(works(rows)) as int, days_of(rows)),
    ensures
        score_num(rows, r) == 0,
        score_den(rows) > 0,
{
    let n = days_of(rows);
    let l = spread(lunches(rows), n);
    let a = spread(afters(rows), n);
    let w = spread(works(rows), n);
    lemma_between(lunches(rows), 0);
    lemma_between(afters(rows), 0);
    lemma_between(works(rows), 0);
    lemma_products(l, a, w, 2 * n);
    assert(0 * (a * w * (2 * n) * 10) == 0 && 0 * (l * w * (2 * n) * 10) == 0 && 0 * (l * a * (2
        * n) * 10) == 0 && 0 * (l * a * w * 10) == 0 && 0 * (l * a * w * (2 * n)) == 0);
}

/// A row is left without a score exactly where its user presses more than three
/// and a half times a day; any other has the score of its outcomes.
pub proof fn law_only_heavy_pressing_is_rejected(nums: Seq<Option<u128>>, rows: Seq<Row>, i: int)
    requires
        are_scores(nums, rows),
        0 <= i < rows.len(),
    ensures
        nums.len() == rows.len(),
        nums[i] is None <==> 2 * rows[i].totals.presses > 7 * rows[i].totals.days,
        nums[i] matches Some(n) ==> n == score_num(rows, rows[i]),
{
}

// ---------------------------------------------------------------------------
// What an order is.
// ---------------------------------------------------------------------------

/// A ranking lists every index once, keys falling, those without a key last, and
/// equal keys in their own order.
pub proof fn law_ranking_falls(keys: Seq<Option<u128>>, r: Seq<usize>, i: int, j: int)
    requires
        is_ranking(keys, r),
        0 <= i < j < r.len(),
    ensures
        r.len() == keys.len(),
        r[i] < keys.len(),
        r[j] < keys.len(),
        r[i] != r[j],
        match (keys[r[i] as int], keys[r[j] as int]) {
            (Some(a), Some(b)) => a > b || (a == b && r[i] < r[j]),
            (Some(_), None) => true,
            (None, Some(_)) => false,
            (None, None) => r[i] < r[j],
        },
{
    assert(r[i] < keys.len() && r[j] < keys.len());
}

/// There is one ranking of given keys.
pub proof fn law_ranking_is_unique(keys: Seq<Option<u128>>, r: Seq<usize>, q: Seq<usize>)
    requires
        keys.len() <= usize::MAX,
        is_ranking(keys, r),
        is_ranking(keys, q),
    ensures
        r == q,
{
    if r != q {
        assert(!(r =~= q));
        let i = lemma_first_difference(r, q, 0);
        // What stands at `i` in one stands later in the other, both ways round.
        let (a, b) = (r[i], q[i]);
        assert(a < keys.len() && b < keys.len());
        assert(q.contains(a) && r.contains(b)) by {
            assert(q.contains(a as int as usize));
            assert(r.contains(b as int as usize));
        }
        let x = choose|x: int| 0 <= x < q.len() && q[x] == a;
        let y = choose|y: int| 0 <= y < r.len() && r[y] == b;
        if x < i {
            assert(r[x] == q[x]);
            law_ranking_falls(keys, r, x, i);
        }
        if y < i {
            assert(q[y] == r[y]);
            law_ranking_falls(keys, q, y, i);
        }
        law_ranking_falls(keys, q, i, x);
        law_ranking_falls(keys, r, i, y);
    }
}

proof fn lemma_first_difference(r: Seq<usize>, q: Seq<usize>, from: int) -> (i: int)
    requires
        r.len() == q.len(),
        0 <= from <= r.len(),
        forall|j: int| 0 <= j < from ==> r[j] == q[j],
        r != q,
    ensures
        0 <= i < r.len(),
        r[i] != q[i],
        forall|j: int| 0 <= j < i ==> r[j] == q[j],
    decreases r.len() - from,
{
    if from == r.len() {
        assert(r =~= q);
        from
    } else if r[from] != q[from] {
        from
    } else {
        lemma_first_difference(r, q, from + 1)
    }
}

/// Deduplication keeps the order of first appearance: where one choice comes
/// after another in what is kept, the other appeared before its every appearance.
pub proof fn law_first_only_keeps_the_order(s: Seq<Knobs>, i: int, j: int, at: int)
    requires
        0 <= i < j < first_only(s).len(),
        0 <= at < s.len(),
        s[at] == first_only(s)[j],
    ensures
        exists|p: int| 0 <= p < at && #[trigger] s[p] == first_only(s)[i],
    decreases s.len(),
{
    let d = s.drop_last();
    let f = first_only(d);
    law_first_only_is_distinct(d);
    if j < f.len() {
        assert(first_only(s)[i] == f[i] && first_only(s)[j] == f[j]);
        if at < d.len() {
            assert(d[at] == s[at]);
            law_first_only_keeps_the_order(d, i, j, at);
            let p = choose|p: int| 0 <= p < at && #[trigger] d[p] == f[i];
            assert(s[p] == first_only(s)[i]);
        } else {
            assert(f.contains(f[i]));
            let p = choose|p: int| 0 <= p < d.len() && d[p] == f[i];
            assert(s[p] == first_only(s)[i]);
        }
    } else {
        assert(first_only(s)[j] == s.last() && !d.contains(s.last()));
        if at < d.len() {
            assert(d[at] == s.last());
        }
        assert(f.contains(f[i]) && first_only(s)[i] == f[i]);
        let p = choose|p: int| 0 <= p < d.len() && d[p] == f[i];
        assert(s[p] == first_only(s)[i]);
    }
}

/// Keeping the feasible goes choice by choice, and changes neither their order
/// nor their number.
pub proof fn law_feasible_only_goes_choice_by_choice(s: Seq<Knobs>, t: Seq<Knobs>, k: Knobs)
    ensures
        feasible_only(s + t) == feasible_only(s) + feasible_only(t),
        feasible_only(seq![k]) == if k.ya > k.ra && k.ra > k.fra && k.fra > 0 {
            seq![k]
        } else {
            seq![]
        },
    decreases t.len(),
{
    assert(seq![k].drop_last() =~= seq![]);
    assert(feasible_only(Seq::<Knobs>::empty()) =~= seq![]);
    if t.len() == 0 {
        assert(s + t =~= s);
        assert(feasible_only(s) + feasible_only(t) =~= feasible_only(s));
    } else {
        assert((s + t).drop_last() =~= s + t.drop_last());
        assert((s + t).last() == t.last());
        law_feasible_only_goes_choice_by_choice(s, t.drop_last(), k);
        assert(feasible_only(s + t) =~= feasible_only(s) + feasible_only(t));
    }
}

/// The knobs that ship stand where their score puts them: what scores above them,
/// and what came first among equals, stands before, and no more; and the worst of
/// the sleep at work is that of some candidate, and no less than any.
pub proof fn law_shipping_takes_its_place(p: Pick, candidates: Seq<Row>, i: int)
    requires
        is_pick(p, candidates),
        0 <= i < candidates.len() <= usize::MAX,
    ensures
        ({
            let last = candidates.len() - 1;
            let place = p.shipping_place - 1;
            &&& p.candidates@ == candidates
            &&& p.order@[place] == last
            &&& i != last ==> {
                p.order@.take(place).contains(i as usize) <==> (above(
                    p.scores.nums@[i],
                    p.scores.nums@[last],
                ) || p.scores.nums@[i] == p.scores.nums@[last])
            }
            &&& candidates[i].totals.work <= p.most_work
            &&& works(candidates).contains(p.most_work)
        }),
{
    let nums = p.scores.nums@;
    let last = candidates.len() - 1;
    let place = p.shipping_place - 1;
    law_least_and_greatest(works(candidates));
    assert(works(candidates)[i] == candidates[i].totals.work);
    assert(p.order@.contains(i as usize));
    let m = choose|m: int| 0 <= m < p.order@.len() && p.order@[m] == i as usize;
    if i != last {
        if m < place {
            law_ranking_falls(nums, p.order@, m, place);
            assert(p.order@.take(place)[m] == i as usize);
        } else {
            law_ranking_falls(nums, p.order@, place, m);
            assert forall|x: int| 0 <= x < place implies p.order@[x] != i as usize by {
                law_ranking_falls(nums, p.order@, x, m);
            }
            if p.order@.take(place).contains(i as usize) {
                let x = choose|x: int|
                    0 <= x < p.order@.take(place).len() && p.order@.take(place)[x] == i as usize;
                assert(p.order@[x] == i as usize);
            }
        }
    }
}

/// Sorted rows are the rows, each once, and no row has more lunch sleep than one
/// before it.
pub proof fn law_sorted_rows_fall(rows: Seq<Row>, order: Seq<usize>, i: int, j: int)
    requires
        is_ranking(lunch_keys(rows), order),
        0 <= i < j < rows.len(),
    ensures
        ({
            let sorted = rows_in(rows, order);
            &&& sorted.len() == rows.len()
            &&& sorted[i] == rows[order[i] as int]
            &&& sorted[i].totals.lunch >= sorted[j].totals.lunch
            &&& sorted[i].totals.lunch == sorted[j].totals.lunch ==> order[i] < order[j]
        }),
{
    law_ranking_falls(lunch_keys(rows), order, i, j);
}

/// The best key is the greatest or the least of all, as asked, and stands where
/// that first appears.
pub proof fn law_best_is_an_extreme(keys: Seq<u128>, want_high: bool, b: int, j: int)
    requires
        is_best(keys, want_high, b),
        0 <= j < keys.len(),
    ensures
        0 <= b < keys.len(),
        want_high ==> keys[b] == greatest(keys),
        !want_high ==> keys[b] == least(keys),
        keys[j] == keys[b] ==> b <= j,
{
    law_least_and_greatest(keys);
    let g = choose|g: int| 0 <= g < keys.len() && keys[g] == greatest(keys);
    let l = choose|l: int| 0 <= l < keys.len() && keys[l] == least(keys);
    assert(keys[g] == greatest(keys) && keys[l] == least(keys));
}

} // verus!
