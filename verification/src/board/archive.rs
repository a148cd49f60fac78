//! The archive: subjects counted and listed by the month they were posted in.
use vstd::prelude::*;
use crate::board::model::TopicFacts;
use crate::board::topics::Visibility;

verus! {

/// The earliest moment the calendar reaches, in seconds from the epoch.
pub const MIN_MOMENT: i64 = -377705116800;
/// The latest moment the calendar reaches, in seconds from the epoch.
pub const MAX_MOMENT: i64 = 253402300799;

/// The calendar year of a moment given in seconds from the epoch, read at an
/// offset from UTC given in seconds.
pub uninterp spec fn calendar_year(at: i64, offset: i32) -> int;

/// The calendar month (1 to 12) of a moment given in seconds from the epoch,
/// read at an offset from UTC given in seconds.
pub uninterp spec fn calendar_month(at: i64, offset: i32) -> int;

/// The first moment of a calendar month, in UTC, in seconds from the epoch.
pub uninterp spec fn first_moment_of(year: i32, month: u8) -> i64;

/// The calendar year and month of a moment read at an offset from UTC
/// (`time::OffsetDateTime::from_unix_timestamp`, then `to_offset` with
/// `time::UtcOffset::from_whole_seconds`, then `year` and `month`). Claimed:
/// the month lies between 1 and 12 and the year within the calendar's range;
/// both are named, not computed here.
#[verifier::external_body]
fn calendar_of(at: i64, offset: i32) -> (r: (i32, u8))
    requires
        moment_in_range(at, offset),
    ensures
        r.0 as int == calendar_year(at, offset),
        r.1 as int == calendar_month(at, offset),
        1 <= r.1 <= 12,
        -9999 <= r.0 <= 9999,
{
    let utc = time::OffsetDateTime::from_unix_timestamp(at).unwrap();
    let local = utc.to_offset(time::UtcOffset::from_whole_seconds(offset).unwrap());
    (local.year(), local.month() as u8)
}

/// The first moment of a month in UTC (`time::Date::from_calendar_date` on its
/// first day, then `midnight`, `assume_utc` and `unix_timestamp`). The moment is named,
/// not computed here.
#[verifier::external_body]
fn month_start(year: i32, month: u8) -> (r: i64)
    requires
        1 <= month <= 12,
        -9999 <= year <= 9999,
    ensures
        r == first_moment_of(year, month),
{
    let m = time::Month::try_from(month).unwrap();
    time::Date::from_calendar_date(year, m, 1).unwrap().midnight().assume_utc().unix_timestamp()
}

/// A month of the calendar.
#[derive(Debug, Clone, Copy, PartialEq, Eq, PartialOrd, Ord, Structural)]
pub struct ArchiveMonth {
    pub year: i32,
    pub month: u8,
}

/// A month that is not in the archive's calendar.
#[derive(Debug, Clone, Copy, PartialEq, Eq, Structural)]
pub struct MonthError;

/// Whether month `a` comes after month `b`.
pub open spec fn later(a: ArchiveMonth, b: ArchiveMonth) -> bool {
    a.year > b.year || (a.year == b.year && a.month > b.month)
}

/// The month after `m`.
pub open spec fn next_month(m: ArchiveMonth) -> ArchiveMonth {
    if m.month == 12 {
        ArchiveMonth { year: (m.year + 1) as i32, month: 1 }
    } else {
        ArchiveMonth { year: m.year, month: (m.month + 1) as u8 }
    }
}

/// Whether a month is one the archive lists: months 1 to 12 of the years 1970 to 9999.
pub open spec fn archive_month_valid(year: i32, month: u8) -> bool {
    1 <= month <= 12 && 1970 <= year <= 9999
}

/// The greatest offset from UTC, in seconds, a moment may be read at.
pub const MAX_OFFSET: i32 = 93599;

/// A moment: seconds from the epoch, with the offset from UTC, in seconds, at
/// which it was recorded.
#[derive(Debug, Clone, Copy, PartialEq, Eq, Structural)]
pub struct Moment {
    pub at: i64,
    pub offset: i32,
}

/// Whether a moment, and its reading at its offset, lie within the calendar.
pub open spec fn moment_in_range(at: i64, offset: i32) -> bool {
    &&& MIN_MOMENT <= at <= MAX_MOMENT
    &&& -MAX_OFFSET <= offset <= MAX_OFFSET
    &&& MIN_MOMENT <= at + offset <= MAX_MOMENT
}

/// Whether a moment lies within the calendar.
pub open spec fn valid_moment(t: Moment) -> bool {
    moment_in_range(t.at, t.offset)
}

/// The month a moment falls in, read at its own offset.
pub open spec fn month_of(t: Moment) -> ArchiveMonth {
    ArchiveMonth { year: calendar_year(t.at, t.offset) as i32, month: calendar_month(t.at, t.offset) as u8 }
}

impl ArchiveMonth {
    /// A month of the archive: refused outside months 1 to 12 of the years 1970 to 9999.
    pub fn new(year: i32, month: u8) -> (r: Result<ArchiveMonth, MonthError>)
        ensures
            r is Ok <==> archive_month_valid(year, month),
            r is Ok ==> r->Ok_0 == (ArchiveMonth { year, month }),
    {
        if month < 1 || month > 12 {
            return Err(MonthError);
        }
        if year < 1970 || year > 9999 {
            return Err(MonthError);
        }
        Ok(ArchiveMonth { year, month })
    }

    /// The month a moment falls in, read at the offset it was recorded at.
    pub fn of(at: Moment) -> (r: ArchiveMonth)
        requires
            valid_moment(at),
        ensures
            r == month_of(at),
            1 <= r.month <= 12,
            -9999 <= r.year <= 9999,
    {
        let (year, month) = calendar_of(at.at, at.offset);
        ArchiveMonth { year, month }
    }

    /// The first moment of the month.
    pub fn starts_at(&self) -> (r: i64)
        requires
            1 <= self.month <= 12,
            -9999 <= self.year <= 9999,
        ensures
            r == first_moment_of(self.year, self.month),
    {
        month_start(self.year, self.month)
    }

    /// The month after this one; December rolls into January of the next year.
    pub fn next(&self) -> (r: ArchiveMonth)
        requires
            self.month == 12 ==> self.year < i32::MAX,
            self.month < 255,
        ensures
            r == next_month(*self),
    {
        if self.month == 12 {
            ArchiveMonth { year: self.year + 1, month: 1 }
        } else {
            ArchiveMonth { year: self.year, month: self.month + 1 }
        }
    }

    /// The first moment after the month: the first moment of the next month.
    pub fn ends_before(&self) -> (r: i64)
        requires
            1 <= self.month <= 12,
            -9999 <= self.year,
            self.month == 12 ==> self.year < 9999,
            self.year <= 9999,
        ensures
            r == first_moment_of(next_month(*self).year, next_month(*self).month),
    {
        self.next().starts_at()
    }
}

/// The month after a month of the archive comes after it, and is itself a
/// month of the calendar.
pub proof fn next_month_is_later(m: ArchiveMonth)
    requires
        archive_month_valid(m.year, m.month),
    ensures
        later(next_month(m), m),
        1 <= next_month(m).month <= 12,
        next_month(m).year == m.year || next_month(m).year == m.year + 1,
{
}

/// A month and the number of subjects posted in it.
#[derive(Debug, Clone, Copy, PartialEq, Eq, Structural)]
pub struct MonthCount {
    pub month: ArchiveMonth,
    pub topics: u64,
}

/// How many entries of `ms` are month `m`.
pub open spec fn count_in(ms: Seq<ArchiveMonth>, m: ArchiveMonth) -> nat
    decreases ms.len(),
{
    if ms.len() == 0 {
        0
    } else {
        count_in(ms.drop_last(), m) + if ms.last() == m { 1nat } else { 0nat }
    }
}

/// Whether some entry of `r` is for month `m`.
pub open spec fn has_month(r: Seq<MonthCount>, m: ArchiveMonth) -> bool {
    exists|k: int| 0 <= k < r.len() && (#[trigger] r[k]).month == m
}

/// Whether `r` lists the months of `ms`: each month that occurs once, newest
/// first, with the number of times it occurs.
pub open spec fn lists_months(ms: Seq<ArchiveMonth>, r: Seq<MonthCount>) -> bool {
    &&& forall|i: int, j: int| 0 <= i < j < r.len() ==> later(r[i].month, r[j].month)
    &&& forall|k: int| 0 <= k < r.len() ==> (#[trigger] r[k]).topics == count_in(ms, r[k].month)
        && r[k].topics > 0
    &&& forall|i: int| 0 <= i < ms.len() ==> has_month(r, #[trigger] ms[i])
}

proof fn lemma_count_zero(ms: Seq<ArchiveMonth>, m: ArchiveMonth)
    requires
        forall|i: int| 0 <= i < ms.len() ==> ms[i] != m,
    ensures
        count_in(ms, m) == 0,
    decreases ms.len(),
{
    if ms.len() > 0 {
        lemma_count_zero(ms.drop_last(), m);
    }
}

proof fn lemma_count_bound(ms: Seq<ArchiveMonth>, m: ArchiveMonth)
    ensures
        count_in(ms, m) <= ms.len(),
    decreases ms.len(),
{
    if ms.len() > 0 {
        lemma_count_bound(ms.drop_last(), m);
    }
}

/// Counts the months, newest first, each with the number of times it occurs.
pub fn count_months(months: &Vec<ArchiveMonth>) -> (r: Vec<MonthCount>)
    ensures
        lists_months(months@, r@),
{
    let ghost ms = months@;
    let mut counted: Vec<MonthCount> = Vec::new();
    let mut i: usize = 0;
    while i < months.len()
        invariant
            i <= ms.len(),
            ms == months@,
            forall|a: int, b: int| 0 <= a < b < counted@.len() ==> counted@[a].month != counted@[b].month,
            forall|k: int| 0 <= k < counted@.len() ==> (#[trigger] counted@[k]).topics == count_in(
                ms.subrange(0, i as int),
                counted@[k].month,
            ) && counted@[k].topics > 0,
            forall|a: int| 0 <= a < i ==> exists|k: int| 0 <= k < counted@.len() && (#[trigger] counted@[k]).month == #[trigger] ms[a],
        decreases ms.len() - i,
    {
        let m = months[i];
        let ghost pre = ms.subrange(0, i as int);
        let ghost next = ms.subrange(0, i + 1);
        assert(next.drop_last() =~= pre);
        assert(next.last() == ms[i as int]);
        let mut j: usize = 0;
        while j < counted.len() && !(counted[j].month.year == m.year && counted[j].month.month
            == m.month)
            invariant
                j <= counted@.len(),
                forall|k: int| 0 <= k < j ==> (#[trigger] counted@[k]).month != m,
            decreases counted@.len() - j,
        {
            j = j + 1;
        }
        let ghost old_counted = counted@;
        proof {
            lemma_count_bound(pre, m);
        }
        if j < counted.len() {
            let c = counted[j];
            assert(c.month == m);
            assert(c.topics <= i);
            counted.set(j, MonthCount { month: m, topics: c.topics + 1 });
            assert forall|k: int| 0 <= k < counted@.len() implies (#[trigger] counted@[k]).topics == count_in(
                next,
                counted@[k].month,
            ) && counted@[k].topics > 0 by {
                assert(old_counted[k].topics == count_in(pre, old_counted[k].month));
            }
        } else {
            proof {
                lemma_count_zero(pre, m);
                assert forall|a: int| 0 <= a < i implies #[trigger] pre[a] != m by {
                    assert(pre[a] == ms[a]);
                    let k = choose|k: int| 0 <= k < old_counted.len() && (#[trigger] old_counted[k]).month == ms[a];
                }
                lemma_count_zero(pre, m);
            }
            counted.push(MonthCount { month: m, topics: 1 });
            assert forall|k: int| 0 <= k < counted@.len() implies (#[trigger] counted@[k]).topics == count_in(
                next,
                counted@[k].month,
            ) && counted@[k].topics > 0 by {
                if k < old_counted.len() {
                    assert(old_counted[k].topics == count_in(pre, old_counted[k].month));
                }
            }
        }
        assert forall|a: int| 0 <= a < i + 1 implies exists|k: int| 0 <= k < counted@.len() && (#[trigger] counted@[k]).month == #[trigger] ms[a] by {
            if a < i {
                let k = choose|k: int| 0 <= k < old_counted.len() && (#[trigger] old_counted[k]).month == ms[a];
                assert(counted@[k].month == old_counted[k].month);
            } else {
                assert(counted@[j as int].month == m);
            }
        }
        i = i + 1;
    }
    assert(ms.subrange(0, ms.len() as int) =~= ms);
    let r = newest_first(counted, Ghost(ms));
    assert forall|a: int| 0 <= a < ms.len() implies has_month(r@, #[trigger] ms[a]) by {
        let k = choose|k: int| 0 <= k < counted@.len() && (#[trigger] counted@[k]).month == ms[a];
        assert(has_month(r@, counted@[k].month));
    }
    r
}

proof fn lemma_insert_sorted(before: Seq<MonthCount>, j: int, x: MonthCount)
    requires
        0 <= j <= before.len(),
        forall|p: int, q: int| 0 <= p < q < before.len() ==> later(before[p].month, before[q].month),
        forall|k: int| 0 <= k < j ==> later(before[k].month, x.month),
        j < before.len() ==> later(x.month, before[j].month),
    ensures
        forall|p: int, q: int|
            0 <= p < q < before.insert(j, x).len() ==> later(
                before.insert(j, x)[p].month,
                before.insert(j, x)[q].month,
            ),
{
    let r = before.insert(j, x);
    assert forall|p: int, q: int| 0 <= p < q < r.len() implies later(r[p].month, r[q].month) by {
        if q < j {
            assert(r[p] == before[p] && r[q] == before[q]);
        } else if q == j {
            assert(r[p] == before[p]);
        } else if p > j {
            assert(r[p] == before[p - 1] && r[q] == before[q - 1]);
        } else if p == j {
            assert(r[q] == before[q - 1]);
            if q - 1 > j {
                assert(later(before[j].month, before[q - 1].month));
            }
        } else {
            assert(r[p] == before[p] && r[q] == before[q - 1]);
            if q - 1 > j {
                assert(later(before[j].month, before[q - 1].month));
            }
        }
    }
}

/// The same counts ordered newest month first.
fn newest_first(counted: Vec<MonthCount>, Ghost(ms): Ghost<Seq<ArchiveMonth>>) -> (r: Vec<MonthCount>)
    requires
        forall|a: int, b: int| 0 <= a < b < counted@.len() ==> counted@[a].month != counted@[b].month,
        forall|a: int| 0 <= a < counted@.len() ==> (#[trigger] counted@[a]).topics == count_in(ms, counted@[a].month) && counted@[a].topics > 0,
    ensures
        forall|i: int, j: int| 0 <= i < j < r@.len() ==> later(r@[i].month, r@[j].month),
        forall|k: int| 0 <= k < r@.len() ==> (#[trigger] r@[k]).topics == count_in(ms, r@[k].month) && r@[k].topics > 0,
        forall|a: int| 0 <= a < counted@.len() ==> has_month(r@, (#[trigger] counted@[a]).month),
{
    let mut r: Vec<MonthCount> = Vec::new();
    let ghost mut pos: Seq<int> = Seq::empty();
    let mut i: usize = 0;
    while i < counted.len()
        invariant
            i <= counted@.len(),
            forall|a: int, b: int| 0 <= a < b < counted@.len() ==> counted@[a].month != counted@[b].month,
            forall|a: int| 0 <= a < counted@.len() ==> (#[trigger] counted@[a]).topics == count_in(ms, counted@[a].month) && counted@[a].topics > 0,
            forall|x: int, y: int| 0 <= x < y < r@.len() ==> later(r@[x].month, r@[y].month),
            forall|k: int| 0 <= k < r@.len() ==> (#[trigger] r@[k]).topics == count_in(ms, r@[k].month) && r@[k].topics > 0,
            pos.len() == i,
            forall|a: int| 0 <= a < i ==> 0 <= #[trigger] pos[a] < r@.len() && r@[pos[a]].month == counted@[a].month,
            forall|k: int| 0 <= k < r@.len() ==> exists|a: int| 0 <= a < i && (#[trigger] r@[k]).month == (#[trigger] counted@[a]).month,
        decreases counted@.len() - i,
    {
        let x = counted[i];
        let mut j: usize = 0;
        while j < r.len() && (r[j].month.year > x.month.year || (r[j].month.year == x.month.year
            && r[j].month.month > x.month.month))
            invariant
                j <= r@.len(),
                forall|k: int| 0 <= k < j ==> later(r@[k].month, x.month),
            decreases r@.len() - j,
        {
            j = j + 1;
        }
        let ghost before = r@;
        proof {
            if j < r@.len() {
                let a = choose|a: int| 0 <= a < i && (#[trigger] before[j as int]).month == (#[trigger] counted@[a]).month;
                assert(before[j as int].month != x.month);
            }
        }
        r.insert(j, x);
        proof {
            lemma_insert_sorted(before, j as int, x);
            assert(r@ == before.insert(j as int, x));
            let old_pos = pos;
            pos = Seq::new((i + 1) as nat, |a: int| if a == i { j as int } else if old_pos[a] >= j { old_pos[a] + 1 } else { old_pos[a] });
            assert forall|a: int| 0 <= a < i + 1 implies 0 <= #[trigger] pos[a] < r@.len() && r@[pos[a]].month == counted@[a].month by {
                if a < i {
                    if old_pos[a] >= j {
                        assert(r@[old_pos[a] + 1] == before[old_pos[a]]);
                    } else {
                        assert(r@[old_pos[a]] == before[old_pos[a]]);
                    }
                }
            }
            assert forall|k: int| 0 <= k < r@.len() implies exists|a: int| 0 <= a < i + 1 && (#[trigger] r@[k]).month == (#[trigger] counted@[a]).month by {
                if k < j {
                    assert(r@[k] == before[k]);
                } else if k > j {
                    assert(r@[k] == before[k - 1]);
                } else {
                    assert(r@[k] == counted@[i as int]);
                }
            }
            assert forall|k: int| 0 <= k < r@.len() implies (#[trigger] r@[k]).topics == count_in(ms, r@[k].month) && r@[k].topics > 0 by {
                if k < j {
                    assert(r@[k] == before[k]);
                } else if k > j {
                    assert(r@[k] == before[k - 1]);
                }
            }
        }
        i = i + 1;
    }
    assert forall|a: int| 0 <= a < counted@.len() implies has_month(r@, (#[trigger] counted@[a]).month) by {
        let k = pos[a];
        assert(0 <= k < r@.len());
        assert(r@[k].month == counted@[a].month);
    }
    r
}

/// The subjects counted in the entries of `r`, all together.
pub open spec fn total(r: Seq<MonthCount>) -> nat
    decreases r.len(),
{
    if r.len() == 0 {
        0
    } else {
        total(r.drop_last()) + r.last().topics as nat
    }
}

/// The moments of `ms` that fall in the months of `r`, month by month, all together.
spec fn counted_in(ms: Seq<ArchiveMonth>, r: Seq<MonthCount>) -> nat
    decreases r.len(),
{
    if r.len() == 0 {
        0
    } else {
        counted_in(ms, r.drop_last()) + count_in(ms, r.last().month)
    }
}

/// How many entries of `r` are for month `m`.
spec fn entries_for(r: Seq<MonthCount>, m: ArchiveMonth) -> nat
    decreases r.len(),
{
    if r.len() == 0 {
        0
    } else {
        entries_for(r.drop_last(), m) + if r.last().month == m { 1nat } else { 0nat }
    }
}

proof fn lemma_counted_step(ms: Seq<ArchiveMonth>, r: Seq<MonthCount>)
    requires
        ms.len() > 0,
    ensures
        counted_in(ms, r) == counted_in(ms.drop_last(), r) + entries_for(r, ms.last()),
    decreases r.len(),
{
    if r.len() > 0 {
        lemma_counted_step(ms, r.drop_last());
    }
}

proof fn lemma_one_entry(r: Seq<MonthCount>, m: ArchiveMonth)
    requires
        forall|i: int, j: int| 0 <= i < j < r.len() ==> later(r[i].month, r[j].month),
        has_month(r, m),
    ensures
        entries_for(r, m) == 1,
    decreases r.len(),
{
    let rest = r.drop_last();
    assert forall|i: int, j: int| 0 <= i < j < rest.len() implies later(rest[i].month, rest[j].month) by {
        assert(rest[i] == r[i] && rest[j] == r[j]);
    }
    if r.last().month == m {
        assert forall|k: int| 0 <= k < rest.len() implies (#[trigger] rest[k]).month != m by {
            assert(later(r[k].month, r[r.len() - 1].month));
        }
        lemma_no_entry(rest, m);
    } else {
        let k = choose|k: int| 0 <= k < r.len() && (#[trigger] r[k]).month == m;
        assert(k < r.len() - 1);
        assert(rest[k].month == m);
        lemma_one_entry(rest, m);
    }
}

proof fn lemma_no_entry(r: Seq<MonthCount>, m: ArchiveMonth)
    requires
        forall|k: int| 0 <= k < r.len() ==> (#[trigger] r[k]).month != m,
    ensures
        entries_for(r, m) == 0,
    decreases r.len(),
{
    if r.len() > 0 {
        lemma_no_entry(r.drop_last(), m);
        assert(r[r.len() - 1].month != m);
    }
}

proof fn lemma_counted_all(ms: Seq<ArchiveMonth>, r: Seq<MonthCount>)
    requires
        forall|i: int, j: int| 0 <= i < j < r.len() ==> later(r[i].month, r[j].month),
        forall|i: int| 0 <= i < ms.len() ==> has_month(r, #[trigger] ms[i]),
    ensures
        counted_in(ms, r) == ms.len(),
    decreases ms.len(),
{
    if ms.len() == 0 {
        lemma_counted_none(r);
        assert(ms =~= Seq::<ArchiveMonth>::empty());
    } else {
        let rest = ms.drop_last();
        assert forall|i: int| 0 <= i < rest.len() implies has_month(r, #[trigger] rest[i]) by {
            assert(rest[i] == ms[i]);
        }
        lemma_counted_all(rest, r);
        lemma_counted_step(ms, r);
        assert(ms.last() == ms[ms.len() - 1]);
        lemma_one_entry(r, ms.last());
    }
}

proof fn lemma_counted_none(r: Seq<MonthCount>)
    ensures
        counted_in(Seq::<ArchiveMonth>::empty(), r) == 0,
    decreases r.len(),
{
    if r.len() > 0 {
        lemma_counted_none(r.drop_last());
    }
}

proof fn lemma_total_is_counted(ms: Seq<ArchiveMonth>, r: Seq<MonthCount>)
    requires
        forall|k: int| 0 <= k < r.len() ==> (#[trigger] r[k]).topics == count_in(ms, r[k].month),
    ensures
        total(r) == counted_in(ms, r),
    decreases r.len(),
{
    if r.len() > 0 {
        let rest = r.drop_last();
        assert forall|k: int| 0 <= k < rest.len() implies (#[trigger] rest[k]).topics == count_in(ms, rest[k].month) by {
            assert(rest[k] == r[k]);
        }
        lemma_total_is_counted(ms, rest);
        assert(r.last() == r[r.len() - 1]);
    }
}

/// The months of the archive count every entry once: their counts add up to
/// the number of entries counted.
pub proof fn every_moment_is_counted_once(ms: Seq<ArchiveMonth>, r: Seq<MonthCount>)
    requires
        lists_months(ms, r),
    ensures
        total(r) == ms.len(),
{
    lemma_total_is_counted(ms, r);
    lemma_counted_all(ms, r);
}

/// The month of each moment, in order.
pub open spec fn months_of(ts: Seq<Moment>) -> Seq<ArchiveMonth> {
    ts.map_values(|t: Moment| month_of(t))
}

/// Counts the moments by the month each falls in, read at its own offset,
/// newest month first, leaving out the months nothing fell in.
pub fn count_by_month(moments: &Vec<Moment>) -> (r: Vec<MonthCount>)
    requires
        forall|i: int| 0 <= i < moments@.len() ==> valid_moment(#[trigger] moments@[i]),
    ensures
        lists_months(months_of(moments@), r@),
{
    let mut months: Vec<ArchiveMonth> = Vec::new();
    let mut i: usize = 0;
    while i < moments.len()
        invariant
            i <= moments@.len(),
            forall|i: int| 0 <= i < moments@.len() ==> valid_moment(#[trigger] moments@[i]),
            months@ == months_of(moments@.subrange(0, i as int)),
        decreases moments@.len() - i,
    {
        let m = ArchiveMonth::of(moments[i]);
        months.push(m);
        assert(months_of(moments@.subrange(0, i + 1)) =~= months_of(moments@.subrange(0, i as int)).push(m));
        i = i + 1;
    }
    assert(moments@.subrange(0, moments@.len() as int) =~= moments@);
    count_months(&months)
}

/// The moments the subjects a viewer is shown were posted at, in order.
pub open spec fn visible_moments(ts: Seq<TopicFacts>, v: Visibility) -> Seq<Moment>
    decreases ts.len(),
{
    if ts.len() == 0 {
        Seq::empty()
    } else if v.shows(ts.last()) {
        visible_moments(ts.drop_last(), v).push(ts.last().created_at)
    } else {
        visible_moments(ts.drop_last(), v)
    }
}

proof fn lemma_visible_moments_in(ts: Seq<TopicFacts>, v: Visibility)
    requires
        forall|i: int| 0 <= i < ts.len() ==> valid_moment(#[trigger] ts[i].created_at),
    ensures
        forall|i: int| 0 <= i < visible_moments(ts, v).len() ==> valid_moment(#[trigger] visible_moments(ts, v)[i]),
    decreases ts.len(),
{
    if ts.len() > 0 {
        lemma_visible_moments_in(ts.drop_last(), v);
        assert forall|i: int| 0 <= i < visible_moments(ts, v).len() implies valid_moment(#[trigger] visible_moments(ts, v)[i]) by {
            if i < visible_moments(ts.drop_last(), v).len() {
                assert(visible_moments(ts, v)[i] == visible_moments(ts.drop_last(), v)[i]);
            } else {
                assert(ts.drop_last().len() < ts.len());
                assert(ts.last() == ts[ts.len() - 1]);
            }
        }
    }
}

/// The months in which the subjects a viewer is shown were posted, newest
/// first, each with the number of those subjects posted in it.
pub fn months_with_topics(topics: &Vec<TopicFacts>, visibility: &Visibility) -> (r: Vec<MonthCount>)
    requires
        forall|i: int| 0 <= i < topics@.len() ==> valid_moment(#[trigger] topics@[i].created_at),
    ensures
        lists_months(months_of(visible_moments(topics@, *visibility)), r@),
{
    let mut moments: Vec<Moment> = Vec::new();
    let mut i: usize = 0;
    while i < topics.len()
        invariant
            i <= topics@.len(),
            moments@ == visible_moments(topics@.subrange(0, i as int), *visibility),
        decreases topics@.len() - i,
    {
        assert(topics@.subrange(0, i + 1).drop_last() =~= topics@.subrange(0, i as int));
        if visibility.allows(&topics[i]) {
            moments.push(topics[i].created_at);
        }
        i = i + 1;
    }
    assert(topics@.subrange(0, topics@.len() as int) =~= topics@);
    proof { lemma_visible_moments_in(topics@, *visibility); }
    count_by_month(&moments)
}

} // verus!
