//! The year/month/day tree the date sidebar displays.
//!
//! Photos are grouped by capture date: years newest first, months and
//! days in calendar order, each level carrying how many photos fall
//! under it. The tree is built from the flat per-day tally of
//! `date_counts`, so its leaves flatten back to exactly that tally.

use vstd::prelude::*;

use crate::dates::{
    count_unknown, date_counts, date_lt, date_tally_exact, key_of, sorted_by_date, sum_counts,
    DateCount,
};

verus! {

/// One day of a month, with its photo count.
#[derive(Clone, Copy, Debug, PartialEq, Eq, Structural)]
pub struct DayEntry {
    /// Day of the month, 1..=31.
    pub day: u8,
    /// Photos taken on this day, at least 1.
    pub count: usize,
}

/// One month of a year, its days in calendar order.
#[derive(Clone, Debug)]
pub struct MonthEntry {
    /// Month of the year, 1..=12.
    pub month: u8,
    /// Photos taken in this month, at least 1.
    pub count: usize,
    /// The days with photos, strictly ascending.
    pub days: Vec<DayEntry>,
}

/// One year, its months in calendar order.
#[derive(Clone, Debug)]
pub struct YearEntry {
    /// The year.
    pub year: u16,
    /// Photos taken in this year, at least 1.
    pub count: usize,
    /// The months with photos, strictly ascending.
    pub months: Vec<MonthEntry>,
}

/// The full sidebar tree: years newest first, plus the photos whose
/// date could not be read.
pub struct DateTree {
    /// All photos considered.
    pub total: usize,
    /// The years with photos, newest first.
    pub years: Vec<YearEntry>,
    /// Photos without a parsable date.
    pub unknown_count: usize,
}

// --- Flattening a tree back to the per-day tally ---

/// The tally entry a day of the tree stands for.
pub open spec fn flat_day(y: u16, m: u8, e: DayEntry) -> DateCount {
    DateCount { year: y, month: m, day: e.day, count: e.count }
}

/// The tally entries of one month's days, in order.
pub open spec fn flatten_days(y: u16, m: u8, days: Seq<DayEntry>) -> Seq<DateCount>
    decreases days.len(),
{
    if days.len() == 0 {
        Seq::empty()
    } else {
        flatten_days(y, m, days.drop_last()).push(flat_day(y, m, days.last()))
    }
}

/// The tally entries under one month.
pub open spec fn flatten_month(y: u16, me: MonthEntry) -> Seq<DateCount> {
    flatten_days(y, me.month, me.days@)
}

/// The tally entries under a year's months, in order.
pub open spec fn flatten_months(y: u16, months: Seq<MonthEntry>) -> Seq<DateCount>
    decreases months.len(),
{
    if months.len() == 0 {
        Seq::empty()
    } else {
        flatten_months(y, months.drop_last()) + flatten_month(y, months.last())
    }
}

/// The tally entries under one year.
pub open spec fn flatten_year(ye: YearEntry) -> Seq<DateCount> {
    flatten_months(ye.year, ye.months@)
}

/// The tally entries of a whole tree, years in the order given.
pub open spec fn flatten_years(years: Seq<YearEntry>) -> Seq<DateCount>
    decreases years.len(),
{
    if years.len() == 0 {
        Seq::empty()
    } else {
        flatten_years(years.drop_last()) + flatten_year(years.last())
    }
}

// --- Internal consistency of the tree ---

/// Total photo count of a run of days.
pub open spec fn sum_day_counts(days: Seq<DayEntry>) -> int
    decreases days.len(),
{
    if days.len() == 0 {
        0
    } else {
        sum_day_counts(days.drop_last()) + days.last().count
    }
}

/// Total photo count of a run of months.
pub open spec fn sum_month_counts(months: Seq<MonthEntry>) -> int
    decreases months.len(),
{
    if months.len() == 0 {
        0
    } else {
        sum_month_counts(months.drop_last()) + months.last().count
    }
}

/// Total photo count of a run of years.
pub open spec fn sum_year_counts(years: Seq<YearEntry>) -> int
    decreases years.len(),
{
    if years.len() == 0 {
        0
    } else {
        sum_year_counts(years.drop_last()) + years.last().count
    }
}

/// A month entry holds at least one day, its days strictly ascending,
/// and its count is the sum of its days' counts.
pub open spec fn month_wf(me: MonthEntry) -> bool {
    &&& me.days@.len() > 0
    &&& forall|p: int, q: int|
        0 <= p < q < me.days@.len() ==> (#[trigger] me.days@[p]).day < (#[trigger] me.days@[q]).day
    &&& me.count == sum_day_counts(me.days@)
}

/// A year entry holds at least one month, its months strictly ascending
/// and each well formed, and its count is the sum of its months' counts.
pub open spec fn year_wf(ye: YearEntry) -> bool {
    &&& ye.months@.len() > 0
    &&& forall|p: int, q: int|
        0 <= p < q < ye.months@.len() ==> (#[trigger] ye.months@[p]).month < (
        #[trigger] ye.months@[q]).month
    &&& forall|k: int| 0 <= k < ye.months@.len() ==> month_wf(#[trigger] ye.months@[k])
}

/// Years strictly ascending by year, each well formed with its count
/// the sum of its months' counts.
pub open spec fn years_ascending_wf(years: Seq<YearEntry>) -> bool {
    &&& forall|p: int, q: int|
        0 <= p < q < years.len() ==> (#[trigger] years[p]).year < (#[trigger] years[q]).year
    &&& forall|k: int|
        0 <= k < years.len() ==> year_wf(#[trigger] years[k]) && years[k].count
            == sum_month_counts(years[k].months@)
}

/// The finished tree: years strictly newest first, each well formed.
pub open spec fn tree_wf(t: &DateTree) -> bool {
    &&& forall|p: int, q: int|
        0 <= p < q < t.years@.len() ==> (#[trigger] t.years@[p]).year > (
        #[trigger] t.years@[q]).year
    &&& forall|k: int|
        0 <= k < t.years@.len() ==> year_wf(#[trigger] t.years@[k]) && t.years@[k].count
            == sum_month_counts(t.years@[k].months@)
}

// --- Small facts about sums and flattening ---

proof fn lemma_sum_counts_nonneg(s: Seq<DateCount>)
    ensures
        sum_counts(s) >= 0,
    decreases s.len(),
{
    if s.len() > 0 {
        lemma_sum_counts_nonneg(s.drop_last());
    }
}

proof fn lemma_sum_counts_step(s: Seq<DateCount>, i: int)
    requires
        0 <= i < s.len(),
    ensures
        sum_counts(s.subrange(0, i + 1)) == sum_counts(s.subrange(0, i)) + s[i].count,
{
    assert(s.subrange(0, i + 1).drop_last() =~= s.subrange(0, i));
    assert(s.subrange(0, i + 1).last() == s[i]);
}

proof fn lemma_sum_counts_prefix_le(s: Seq<DateCount>, i: int)
    requires
        0 <= i <= s.len(),
    ensures
        sum_counts(s.subrange(0, i)) <= sum_counts(s),
    decreases s.len() - i,
{
    if i == s.len() {
        assert(s.subrange(0, i) =~= s);
    } else {
        lemma_sum_counts_step(s, i);
        lemma_sum_counts_prefix_le(s, i + 1);
    }
}

proof fn lemma_sum_month_counts_nonneg(s: Seq<MonthEntry>)
    ensures
        sum_month_counts(s) >= 0,
    decreases s.len(),
{
    if s.len() > 0 {
        lemma_sum_month_counts_nonneg(s.drop_last());
    }
}

proof fn lemma_sum_year_counts_nonneg(s: Seq<YearEntry>)
    ensures
        sum_year_counts(s) >= 0,
    decreases s.len(),
{
    if s.len() > 0 {
        lemma_sum_year_counts_nonneg(s.drop_last());
    }
}

proof fn lemma_count_unknown_nonneg(dates: Seq<Option<String>>, n: int)
    requires
        n >= 0,
    ensures
        count_unknown(dates, n) >= 0,
    decreases n,
{
    if n > 0 {
        lemma_count_unknown_nonneg(dates, n - 1);
    }
}

proof fn lemma_flatten_one_day(y: u16, m: u8, d: DayEntry)
    ensures
        flatten_days(y, m, seq![d]) =~= seq![flat_day(y, m, d)],
        sum_day_counts(seq![d]) == d.count,
{
    assert(seq![d].drop_last() =~= Seq::<DayEntry>::empty());
    assert(seq![d].last() == d);
    assert(flatten_days(y, m, Seq::<DayEntry>::empty()) =~= Seq::<DateCount>::empty());
    assert(sum_day_counts(Seq::<DayEntry>::empty()) == 0);
}

proof fn lemma_one_month(y: u16, me: MonthEntry)
    requires
        me.days@.len() == 1,
        me.count == me.days@[0].count,
    ensures
        month_wf(me),
        flatten_month(y, me) =~= seq![flat_day(y, me.month, me.days@[0])],
        sum_month_counts(seq![me]) == me.count,
{
    assert(me.days@ =~= seq![me.days@[0]]);
    lemma_flatten_one_day(y, me.month, me.days@[0]);
    assert(seq![me].drop_last() =~= Seq::<MonthEntry>::empty());
    assert(sum_month_counts(Seq::<MonthEntry>::empty()) == 0);
}

/// A well-formed year flattens to a non-empty run whose last element is
/// the last day of its last month.
proof fn lemma_flatten_year_last(ye: YearEntry)
    requires
        year_wf(ye),
    ensures
        flatten_year(ye).len() > 0,
        flatten_year(ye).last() == flat_day(
            ye.year,
            ye.months@.last().month,
            ye.months@.last().days@.last(),
        ),
{
    let months = ye.months@;
    let me = months.last();
    assert(month_wf(me));
    assert(flatten_month(ye.year, me).len() > 0);
    assert(flatten_month(ye.year, me).last() == flat_day(ye.year, me.month, me.days@.last()));
    let a = flatten_months(ye.year, months.drop_last());
    let b = flatten_month(ye.year, me);
    assert(flatten_months(ye.year, months) == a + b);
    assert((a + b).last() == b.last());
}

// --- Building the tree ---

impl DateTree {
    /// Groups the photos' `date_taken` strings into the sidebar tree:
    /// years newest first, months and days in calendar order, every
    /// count exact. Flattening the years oldest-first yields precisely
    /// the per-day tally of the photos.
    pub fn build(dates: &Vec<Option<String>>) -> (r: DateTree)
        ensures
            tree_wf(&r),
            r.total == dates@.len(),
            r.unknown_count == count_unknown(dates@, dates@.len() as int),
            date_tally_exact(
                flatten_years(r.years@.reverse()),
                r.unknown_count as int,
                dates@,
            ),
    {
        let tally = date_counts(dates);
        let flat = tally.days;
        let n = flat.len();
        proof {
            lemma_count_unknown_nonneg(dates@, dates@.len() as int);
            assert(sum_counts(flat@) <= dates@.len());
        }
        let total = dates.len();
        let mut years: Vec<YearEntry> = Vec::new();
        let mut i: usize = 0;
        while i < n
            invariant
                n == flat@.len(),
                i <= n,
                sorted_by_date(flat@),
                forall|idx: int| 0 <= idx < flat@.len() ==> (#[trigger] flat@[idx]).count >= 1,
                sum_counts(flat@) <= dates@.len(),
                total == dates@.len(),
                years_ascending_wf(years@),
                flatten_years(years@) == flat@.subrange(0, i as int),
                sum_year_counts(years@) == sum_counts(flat@.subrange(0, i as int)),
            decreases n - i,
        {
            let e = flat[i];
            proof {
                lemma_sum_counts_step(flat@, i as int);
                lemma_sum_counts_prefix_le(flat@, i + 1);
                if years@.len() > 0 {
                    lemma_flatten_year_last(years@.last());
                    let a = flatten_years(years@.drop_last());
                    let b = flatten_year(years@.last());
                    assert(flatten_years(years@) == a + b);
                    assert((a + b).last() == b.last());
                    assert(flat@.subrange(0, i as int).last() == flat@[i as int - 1]);
                    assert(i > 0);
                    assert(date_lt(key_of(flat@[i as int - 1]), key_of(flat@[i as int])));
                }
            }
            let new_year = years.len() == 0 || years[years.len() - 1].year != e.year;
            if new_year {
                let mut days: Vec<DayEntry> = Vec::new();
                days.push(DayEntry { day: e.day, count: e.count });
                let mut months: Vec<MonthEntry> = Vec::new();
                months.push(MonthEntry { month: e.month, count: e.count, days });
                let ghost old_years = years@;
                years.push(YearEntry { year: e.year, count: e.count, months });
                proof {
                    let ye = years@.last();
                    let de = DayEntry { day: e.day, count: e.count };
                    assert(years@.drop_last() =~= old_years);
                    assert(ye.months@ =~= seq![ye.months@[0]]);
                    assert(ye.months@[0].days@ =~= seq![de]);
                    lemma_one_month(e.year, ye.months@[0]);
                    assert(flat_day(e.year, e.month, de) == e);
                    assert(flatten_month(e.year, ye.months@.last()) =~= seq![e]);
                    assert(ye.months@.drop_last() =~= Seq::<MonthEntry>::empty());
                    assert(flatten_months(e.year, Seq::<MonthEntry>::empty())
                        =~= Seq::<DateCount>::empty());
                    assert(flatten_year(ye) =~= seq![e]);
                    assert(flat@.subrange(0, i + 1) =~= flat@.subrange(0, i as int).push(
                        flat@[i as int],
                    ));
                    assert(flatten_years(years@) =~= flat@.subrange(0, i + 1));
                    assert(year_wf(ye));
                    assert(ye.count == sum_month_counts(ye.months@));
                    if old_years.len() > 0 {
                        assert(old_years.last().year < e.year);
                    }
                    assert forall|p: int, q: int| 0 <= p < q < years@.len() implies (
                    #[trigger] years@[p]).year < (#[trigger] years@[q]).year by {
                        if q == years@.len() - 1 {
                            assert(years@[p] == old_years[p]);
                            if p < old_years.len() - 1 {
                                assert(old_years[p].year < old_years.last().year);
                            }
                        } else {
                            assert(years@[p] == old_years[p]);
                            assert(years@[q] == old_years[q]);
                        }
                    }
                    assert(sum_year_counts(years@) == sum_year_counts(old_years) + e.count);
                }
            } else {
                let ghost old_years = years@;
                let mut ye = years.pop().unwrap();
                proof {
                    assert(ye == old_years.last());
                    assert(year_wf(ye));
                    assert(ye.year == e.year);
                    // the previous tally entry is this year's last day
                    assert(flat@[i as int - 1] == flat_day(
                        ye.year,
                        ye.months@.last().month,
                        ye.months@.last().days@.last(),
                    ));
                    lemma_sum_year_counts_nonneg(old_years.drop_last());
                    assert(ye.count <= sum_counts(flat@.subrange(0, i as int)));
                }
                let ghost old_ye = ye;
                let last_month = ye.months[ye.months.len() - 1].month;
                if last_month == e.month {
                    let mut me = ye.months.pop().unwrap();
                    proof {
                        assert(me == old_ye.months@.last());
                        assert(month_wf(me));
                        lemma_sum_month_counts_nonneg(old_ye.months@.drop_last());
                        assert(me.count <= old_ye.count);
                    }
                    let ghost old_me = me;
                    me.days.push(DayEntry { day: e.day, count: e.count });
                    me.count = me.count + e.count;
                    ye.months.push(me);
                    proof {
                        let me2 = ye.months@.last();
                        assert(me2.days@.drop_last() =~= old_me.days@);
                        assert(flatten_month(e.year, me2) == flatten_month(
                            e.year,
                            old_me,
                        ).push(flat_day(e.year, e.month, me2.days@.last())));
                        assert(flat_day(e.year, e.month, me2.days@.last()) == e);
                        assert(ye.months@.drop_last() =~= old_ye.months@.drop_last());
                        assert(flatten_year(ye) == flatten_year(old_ye).push(e));
                        assert(sum_month_counts(ye.months@) == sum_month_counts(old_ye.months@)
                            + e.count);
                    }
                } else {
                    let mut days: Vec<DayEntry> = Vec::new();
                    days.push(DayEntry { day: e.day, count: e.count });
                    let ghost old_months = ye.months@;
                    ye.months.push(MonthEntry { month: e.month, count: e.count, days });
                    proof {
                        let me2 = ye.months@.last();
                        let de = DayEntry { day: e.day, count: e.count };
                        assert(ye.months@.drop_last() =~= old_months);
                        assert(me2.days@ =~= seq![de]);
                        lemma_one_month(e.year, me2);
                        assert(flat_day(e.year, e.month, de) == e);
                        assert(flatten_month(e.year, me2) =~= seq![e]);
                        assert(flatten_year(ye) == flatten_months(e.year, old_months) + seq![e]);
                        assert(flatten_year(ye) == flatten_year(old_ye).push(e));
                        assert(sum_month_counts(ye.months@) == sum_month_counts(old_months)
                            + e.count);
                        // the new month comes after every existing one
                        assert(old_ye.months@.last().month < e.month);
                    }
                }
                ye.count = ye.count + e.count;
                let ghost new_ye = ye;
                years.push(ye);
                proof {
                    assert(years@.drop_last() =~= old_years.drop_last());
                    assert(years@.last() == new_ye);
                    assert(flatten_years(old_years) == flatten_years(old_years.drop_last())
                        + flatten_year(old_years.last()));
                    assert(flatten_years(years@) == flatten_years(old_years.drop_last())
                        + flatten_year(new_ye));
                    assert(flatten_year(new_ye) == flatten_year(old_ye).push(e));
                    assert(flatten_years(years@) =~= flatten_years(old_years).push(e));
                    assert(flat@.subrange(0, i + 1) =~= flat@.subrange(0, i as int).push(
                        flat@[i as int],
                    ));
                    assert(flatten_years(years@) =~= flat@.subrange(0, i + 1));
                    assert(sum_year_counts(years@) == sum_year_counts(old_years.drop_last())
                        + new_ye.count);
                }
            }
            i += 1;
        }
        proof {
            assert(flat@.subrange(0, n as int) =~= flat@);
        }
        // newest first
        let ghost asc = years@;
        let mut newest_first: Vec<YearEntry> = Vec::new();
        while years.len() > 0
            invariant
                years@ + newest_first@.reverse() =~= asc,
                years_ascending_wf(asc),
                years@ =~= asc.subrange(0, years@.len() as int),
            decreases years@.len(),
        {
            let ghost old_rest = years@;
            let ghost old_rev = newest_first@;
            let ye = years.pop().unwrap();
            newest_first.push(ye);
            proof {
                assert(newest_first@.reverse() =~= seq![ye] + old_rev.reverse());
                assert(years@ + newest_first@.reverse() =~= old_rest + old_rev.reverse());
                assert(years@ =~= asc.subrange(0, years@.len() as int));
            }
        }
        proof {
            assert(newest_first@.reverse() =~= asc);
            assert forall|p: int| 0 <= p < newest_first@.len() implies newest_first@[p]
                == asc[asc.len() - 1 - p] by {
                assert(newest_first@.reverse()[asc.len() - 1 - p] == newest_first@[p]);
            }
        }
        DateTree { total, years: newest_first, unknown_count: tally.unknown }
    }
}

} // verus!
