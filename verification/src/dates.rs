//! Capture-date handling for the catalog sidebar.
//!
//! A photo's `date_taken` field is free text; the first ten characters are
//! expected to look like `YYYY-MM-DD`. `parse_date` extracts that triple,
//! rejecting anything that does not split into three numeric fields with a
//! month in 1..=12 and a day in 1..=31. `DateFilter` then matches photos by
//! year, month or day of the parsed date, or picks out the photos whose
//! date cannot be parsed at all.

use vstd::prelude::*;

verus! {

/// One decimal digit?
pub open spec fn is_digit(c: char) -> bool {
    '0' <= c && c <= '9'
}

/// Numeric value of a digit character (meaningful only under `is_digit`).
pub open spec fn digit_val(c: char) -> int {
    c as int - '0' as int
}

/// Non-empty and entirely decimal digits?
pub open spec fn all_digits(s: Seq<char>) -> bool {
    s.len() > 0 && forall|i: int| 0 <= i < s.len() ==> is_digit(#[trigger] s[i])
}

/// The number the digit string denotes, most significant digit first.
pub open spec fn digits_to_int(s: Seq<char>) -> int
    decreases s.len(),
{
    if s.len() == 0 {
        0
    } else {
        digits_to_int(s.drop_last()) * 10 + digit_val(s.last())
    }
}

/// A numeric field may carry one leading `+`, as Rust's unsigned parsing
/// accepts; the sign is dropped before the digits are read.
pub open spec fn strip_plus(s: Seq<char>) -> Seq<char> {
    if s.len() > 0 && s[0] == '+' {
        s.subrange(1, s.len() as int)
    } else {
        s
    }
}

/// The value of a numeric field: an optional `+`, then only digits;
/// anything else has no value.
pub open spec fn spec_parse_uint(s: Seq<char>) -> Option<int> {
    if all_digits(strip_plus(s)) {
        Some(digits_to_int(strip_plus(s)))
    } else {
        None
    }
}

/// Index of the first `-` at or after `from`, or `s.len()` if there is none.
pub open spec fn spec_find_dash(s: Seq<char>, from: int) -> int
    decreases s.len() - from,
{
    if from < 0 || from >= s.len() {
        s.len() as int
    } else if s[from] == '-' {
        from
    } else {
        spec_find_dash(s, from + 1)
    }
}

/// The date triple denoted by `s`, if any: the first ten characters are
/// split on `-`; the first three fields must be numeric, with year below
/// 65536, month in 1..=12 and day in 1..=31.
pub open spec fn spec_parse_date(s: Seq<char>) -> Option<(u16, u8, u8)> {
    if s.len() < 10 {
        None
    } else {
        let p = s.subrange(0, 10);
        let d1 = spec_find_dash(p, 0);
        if d1 >= 10 {
            None
        } else {
            let d2 = spec_find_dash(p, d1 + 1);
            if d2 >= 10 {
                None
            } else {
                let d3 = spec_find_dash(p, d2 + 1);
                match (spec_parse_uint(p.subrange(0, d1)), spec_parse_uint(
                    p.subrange(d1 + 1, d2),
                ), spec_parse_uint(p.subrange(d2 + 1, d3))) {
                    (Some(y), Some(m), Some(d)) => {
                        if y <= 65535 && 1 <= m && m <= 12 && 1 <= d && d <= 31 {
                            Some((y as u16, m as u8, d as u8))
                        } else {
                            None
                        }
                    },
                    _ => None,
                }
            }
        }
    }
}

/// The date triple of an optional date string, `None` when absent.
pub open spec fn spec_parse_date_opt(s: Option<&str>) -> Option<(u16, u8, u8)> {
    match s {
        None => None,
        Some(t) => spec_parse_date(t@),
    }
}

/// Ten to the given power.
pub open spec fn pow10(n: nat) -> nat
    decreases n,
{
    if n == 0 {
        1
    } else {
        10 * pow10((n - 1) as nat)
    }
}

proof fn lemma_find_dash_at(s: Seq<char>, from: int, i: int)
    requires
        0 <= from <= i <= s.len(),
        forall|j: int| from <= j < i ==> s[j] != '-',
        i < s.len() ==> s[i] == '-',
    ensures
        spec_find_dash(s, from) == if i < s.len() {
            i
        } else {
            s.len() as int
        },
    decreases i - from,
{
    if from < i {
        lemma_find_dash_at(s, from + 1, i);
    }
}

/// Index of the first `-` at or after `from` in `p`, or `p.len()`.
fn find_dash(p: &Vec<char>, from: usize) -> (r: usize)
    requires
        from <= p@.len(),
    ensures
        r == spec_find_dash(p@, from as int),
        from <= r <= p@.len(),
{
    let mut i: usize = from;
    while i < p.len()
        invariant
            from <= i <= p@.len(),
            forall|j: int| from <= j < i ==> p@[j] != '-',
        decreases p@.len() - i,
    {
        if p[i] == '-' {
            proof {
                lemma_find_dash_at(p@, from as int, i as int);
            }
            return i;
        }
        i += 1;
    }
    proof {
        lemma_find_dash_at(p@, from as int, p@.len() as int);
    }
    i
}

/// Parses `p[start..end]` as an unsigned number, `None` on any non-numeric
/// field or a value above `max`.
fn parse_bounded(p: &Vec<char>, start: usize, end: usize, max: u32) -> (r: Option<u32>)
    requires
        start <= end <= p@.len(),
        end - start <= 10,
    ensures
        ({
            let tok = p@.subrange(start as int, end as int);
            match spec_parse_uint(tok) {
                Some(v) => if v <= max {
                    r == Some(v as u32) && 0 <= v
                } else {
                    r is None
                },
                None => r is None,
            }
        }),
{
    let ghost tok = p@.subrange(start as int, end as int);
    let mut idx: usize = start;
    if idx < end && p[idx] == '+' {
        idx += 1;
    }
    proof {
        assert(strip_plus(tok) =~= p@.subrange(idx as int, end as int));
    }
    let ghost digits = p@.subrange(idx as int, end as int);
    if idx == end {
        // an empty field, or a lone sign
        assert(!all_digits(strip_plus(tok)));
        return None;
    }
    let mut acc: u64 = 0;
    let mut k: usize = idx;
    while k < end
        invariant
            start <= idx <= k <= end,
            end <= p@.len(),
            end - idx <= 10,
            digits == p@.subrange(idx as int, end as int),
            digits == strip_plus(p@.subrange(start as int, end as int)),
            forall|j: int| idx <= j < k ==> is_digit(#[trigger] p@[j]),
            acc == digits_to_int(p@.subrange(idx as int, k as int)),
            acc < pow10((k - idx) as nat),
        decreases end - k,
    {
        let c = p[k];
        if !('0' <= c && c <= '9') {
            assert(digits[k - idx] == p@[k as int]);
            assert(!all_digits(digits));
            return None;
        }
        proof {
            let pre = p@.subrange(idx as int, k as int);
            let cur = p@.subrange(idx as int, k + 1 as int);
            assert(cur.drop_last() =~= pre);
            assert(cur.last() == p@[k as int]);
            reveal_with_fuel(pow10, 12);
            assert(pow10((k - idx) as nat) <= pow10(9)) by {
                lemma_pow10_mono((k - idx) as nat, 9);
            }
        }
        let d: u32 = (c as u32) - 48;
        assert(d == digit_val(c));
        acc = acc * 10 + (d as u64);
        k += 1;
    }
    proof {
        assert(p@.subrange(idx as int, k as int) =~= digits);
        assert(all_digits(digits));
    }
    if acc > max as u64 {
        None
    } else {
        Some(acc as u32)
    }
}

proof fn lemma_pow10_mono(a: nat, b: nat)
    requires
        a <= b,
    ensures
        pow10(a) <= pow10(b),
    decreases b,
{
    if a < b {
        lemma_pow10_mono(a, (b - 1) as nat);
        assert(pow10(b) == 10 * pow10((b - 1) as nat));
    }
}

/// Extracts `(year, month, day)` from an optional date string, as
/// `spec_parse_date` describes; `None` for absent, short or malformed input.
pub fn parse_date(s: Option<&str>) -> (r: Option<(u16, u8, u8)>)
    ensures
        r == spec_parse_date_opt(s),
{
    let t = match s {
        Some(t) => t,
        None => {
            return None;
        },
    };
    if t.unicode_len() < 10 {
        return None;
    }
    let mut p: Vec<char> = Vec::new();
    let mut i: usize = 0;
    while i < 10
        invariant
            i <= 10,
            t@.len() >= 10,
            p@ =~= t@.subrange(0, i as int),
        decreases 10 - i,
    {
        p.push(t.get_char(i));
        i += 1;
    }
    proof {
        assert(p@ =~= t@.subrange(0, 10));
    }
    let d1 = find_dash(&p, 0);
    if d1 >= 10 {
        return None;
    }
    let d2 = find_dash(&p, d1 + 1);
    if d2 >= 10 {
        return None;
    }
    let d3 = find_dash(&p, d2 + 1);
    let oy = parse_bounded(&p, 0, d1, 65535);
    let om = parse_bounded(&p, d1 + 1, d2, 255);
    let od = parse_bounded(&p, d2 + 1, d3, 255);
    match (oy, om, od) {
        (Some(y), Some(m), Some(d)) => {
            if 1 <= m && m <= 12 && 1 <= d && d <= 31 {
                Some((y as u16, m as u8, d as u8))
            } else {
                None
            }
        },
        _ => None,
    }
}

/// A sidebar filter over a photo's capture date.
#[derive(Debug, Clone, PartialEq, Eq, Structural)]
pub enum DateFilter {
    All,
    Year(u16),
    Month(u16, u8),
    Day(u16, u8, u8),
    Unknown,
}

/// Whether a filter accepts a photo whose date parsed to `parsed`.
pub open spec fn spec_filter_matches(f: DateFilter, parsed: Option<(u16, u8, u8)>) -> bool {
    match f {
        DateFilter::All => true,
        DateFilter::Unknown => parsed is None,
        DateFilter::Year(y) => match parsed {
            Some((py, _, _)) => py == y,
            None => false,
        },
        DateFilter::Month(y, m) => match parsed {
            Some((py, pm, _)) => py == y && pm == m,
            None => false,
        },
        DateFilter::Day(y, m, d) => match parsed {
            Some((py, pm, pd)) => py == y && pm == m && pd == d,
            None => false,
        },
    }
}

impl DateFilter {
    /// Does this filter accept a photo with the given `date_taken` text?
    pub fn matches(&self, date_taken: Option<&str>) -> (r: bool)
        ensures
            r == spec_filter_matches(*self, spec_parse_date_opt(date_taken)),
    {
        match self {
            DateFilter::All => true,
            DateFilter::Unknown => parse_date(date_taken).is_none(),
            DateFilter::Year(y) => match parse_date(date_taken) {
                Some((py, _, _)) => py == *y,
                None => false,
            },
            DateFilter::Month(y, m) => match parse_date(date_taken) {
                Some((py, pm, _)) => py == *y && pm == *m,
                None => false,
            },
            DateFilter::Day(y, m, d) => match parse_date(date_taken) {
                Some((py, pm, pd)) => py == *y && pm == *m && pd == *d,
                None => false,
            },
        }
    }
}

/// Identifies an expandable row of the date sidebar.
#[derive(Debug, Clone, PartialEq, Eq, Hash, Structural)]
pub enum DateExpansionKey {
    Year(u16),
    Month(u16, u8),
}

/// Three-letter name of a month, `"???"` outside 1..=12.
pub open spec fn spec_month_name(m: u8) -> Seq<char> {
    if m == 1 {
        "Jan"@
    } else if m == 2 {
        "Feb"@
    } else if m == 3 {
        "Mar"@
    } else if m == 4 {
        "Apr"@
    } else if m == 5 {
        "May"@
    } else if m == 6 {
        "Jun"@
    } else if m == 7 {
        "Jul"@
    } else if m == 8 {
        "Aug"@
    } else if m == 9 {
        "Sep"@
    } else if m == 10 {
        "Oct"@
    } else if m == 11 {
        "Nov"@
    } else if m == 12 {
        "Dec"@
    } else {
        "???"@
    }
}

/// Three-letter display name of month `m`, `"???"` outside 1..=12.
pub fn month_name(m: u8) -> (r: &'static str)
    ensures
        r@ == spec_month_name(m),
{
    match m {
        1 => "Jan",
        2 => "Feb",
        3 => "Mar",
        4 => "Apr",
        5 => "May",
        6 => "Jun",
        7 => "Jul",
        8 => "Aug",
        9 => "Sep",
        10 => "Oct",
        11 => "Nov",
        12 => "Dec",
        _ => "???",
    }
}


// --- Per-day tally of capture dates ---

/// The date triple a stored date string denotes, if any.
pub open spec fn parsed_of(o: Option<String>) -> Option<(u16, u8, u8)> {
    match o {
        None => None,
        Some(s) => spec_parse_date(s@),
    }
}

/// How many of the first `n` entries parse to exactly `(y, m, d)`.
pub open spec fn count_ymd(dates: Seq<Option<String>>, y: u16, m: u8, d: u8, n: int) -> int
    decreases n,
{
    if n <= 0 {
        0
    } else {
        count_ymd(dates, y, m, d, n - 1) + if parsed_of(dates[n - 1]) == Some((y, m, d)) {
            1int
        } else {
            0int
        }
    }
}

/// How many of the first `n` entries have no parsable date.
pub open spec fn count_unknown(dates: Seq<Option<String>>, n: int) -> int
    decreases n,
{
    if n <= 0 {
        0
    } else {
        count_unknown(dates, n - 1) + if parsed_of(dates[n - 1]) is None {
            1int
        } else {
            0int
        }
    }
}

/// Strict calendar order on date triples: by year, then month, then day.
pub open spec fn date_lt(a: (u16, u8, u8), b: (u16, u8, u8)) -> bool {
    ||| a.0 < b.0
    ||| (a.0 == b.0 && a.1 < b.1)
    ||| (a.0 == b.0 && a.1 == b.1 && a.2 < b.2)
}

/// One calendar day and how many photos were taken on it.
#[derive(Clone, Copy, Debug, PartialEq, Eq, Structural)]
pub struct DateCount {
    /// Year of the day.
    pub year: u16,
    /// Month of the day, 1..=12.
    pub month: u8,
    /// Day of the month, 1..=31.
    pub day: u8,
    /// Number of photos taken on this day, at least 1.
    pub count: usize,
}

/// The day an entry tallies.
pub open spec fn key_of(e: DateCount) -> (u16, u8, u8) {
    (e.year, e.month, e.day)
}

/// Strictly ascending by calendar day.
pub open spec fn sorted_by_date(s: Seq<DateCount>) -> bool {
    forall|p: int, q: int|
        0 <= p < q < s.len() ==> date_lt(key_of(#[trigger] s[p]), key_of(#[trigger] s[q]))
}

/// Does some entry tally the day `k`?
pub open spec fn has_key(s: Seq<DateCount>, k: (u16, u8, u8)) -> bool {
    exists|idx: int| 0 <= idx < s.len() && key_of(#[trigger] s[idx]) == k
}

/// The per-day tally of a set of photos' `date_taken` strings, as the
/// date sidebar groups them.
pub struct DateCounts {
    /// One entry per day that at least one photo was taken on, strictly
    /// ascending.
    pub days: Vec<DateCount>,
    /// Photos whose date could not be parsed.
    pub unknown: usize,
}

/// Total number of photos the entries tally.
pub open spec fn sum_counts(s: Seq<DateCount>) -> int
    decreases s.len(),
{
    if s.len() == 0 {
        0
    } else {
        sum_counts(s.drop_last()) + s.last().count
    }
}

proof fn lemma_sum_update(s: Seq<DateCount>, j: int, e: DateCount)
    requires
        0 <= j < s.len(),
    ensures
        sum_counts(s.update(j, e)) == sum_counts(s) - s[j].count + e.count,
    decreases s.len(),
{
    if j == s.len() - 1 {
        assert(s.update(j, e).drop_last() =~= s.drop_last());
        assert(s.update(j, e).last() == e);
    } else {
        assert(s.update(j, e).drop_last() =~= s.drop_last().update(j, e));
        assert(s.update(j, e).last() == s.last());
        lemma_sum_update(s.drop_last(), j, e);
    }
}

proof fn lemma_sum_insert(s: Seq<DateCount>, j: int, e: DateCount)
    requires
        0 <= j <= s.len(),
    ensures
        sum_counts(s.insert(j, e)) == sum_counts(s) + e.count,
    decreases s.len(),
{
    if j == s.len() {
        assert(s.insert(j, e) =~= s.push(e));
        assert(s.push(e).drop_last() =~= s);
        assert(s.push(e).last() == e);
    } else {
        assert(s.insert(j, e).drop_last() =~= s.drop_last().insert(j, e));
        assert(s.insert(j, e).last() == s.last());
        lemma_sum_insert(s.drop_last(), j, e);
    }
}

/// The flat tally `(days, unknown)` describes `dates` exactly: entries
/// are strictly sorted, each entry's count is the number of photos of
/// that day, every day that occurs has an entry, `unknown` counts the
/// unparsable dates, and together they account for every photo.
pub open spec fn date_tally_exact(days: Seq<DateCount>, unknown: int, dates: Seq<Option<String>>) -> bool {
    let n = dates.len() as int;
    &&& sorted_by_date(days)
    &&& forall|idx: int|
        0 <= idx < days.len() ==> (#[trigger] days[idx]).count == count_ymd(
            dates,
            days[idx].year,
            days[idx].month,
            days[idx].day,
            n,
        ) && days[idx].count >= 1
    &&& forall|y: u16, m: u8, d: u8|
        #[trigger] count_ymd(dates, y, m, d, n) > 0 ==> has_key(days, (y, m, d))
    &&& unknown == count_unknown(dates, n)
    &&& sum_counts(days) + unknown == n
}

/// `date_tally_exact`, packaged for what `date_counts` returns.
pub open spec fn date_counts_exact(r: &DateCounts, dates: Seq<Option<String>>) -> bool {
    date_tally_exact(r.days@, r.unknown as int, dates)
}

proof fn lemma_count_ymd_bound(dates: Seq<Option<String>>, y: u16, m: u8, d: u8, n: int)
    requires
        n >= 0,
    ensures
        0 <= count_ymd(dates, y, m, d, n) <= n,
    decreases n,
{
    if n > 0 {
        lemma_count_ymd_bound(dates, y, m, d, n - 1);
    }
}

proof fn lemma_date_lt_trans(a: (u16, u8, u8), b: (u16, u8, u8), c: (u16, u8, u8))
    requires
        date_lt(a, b),
        date_lt(b, c),
    ensures
        date_lt(a, c),
{
}

proof fn lemma_date_lt_total(a: (u16, u8, u8), b: (u16, u8, u8))
    ensures
        a == b || date_lt(a, b) || date_lt(b, a),
{
}

/// Is this entry's day strictly before `(y, m, d)`?
fn key_below(e: &DateCount, y: u16, m: u8, d: u8) -> (r: bool)
    ensures
        r == date_lt(key_of(*e), (y, m, d)),
{
    e.year < y || (e.year == y && (e.month < m || (e.month == m && e.day < d)))
}

/// Tallies the photos of each calendar day, in one pass: each date
/// string is parsed as `parse_date` does, parsable days are counted into
/// a strictly sorted per-day list, the rest into `unknown`.
#[verifier::rlimit(100)]
pub fn date_counts(dates: &Vec<Option<String>>) -> (r: DateCounts)
    ensures
        date_counts_exact(&r, dates@),
{
    let n = dates.len();
    let mut days: Vec<DateCount> = Vec::new();
    let mut unknown: usize = 0;
    let mut i: usize = 0;
    while i < n
        invariant
            n == dates@.len(),
            i <= n,
            sorted_by_date(days@),
            forall|idx: int|
                0 <= idx < days@.len() ==> (#[trigger] days@[idx]).count == count_ymd(
                    dates@,
                    days@[idx].year,
                    days@[idx].month,
                    days@[idx].day,
                    i as int,
                ) && days@[idx].count >= 1,
            forall|y: u16, m: u8, d: u8|
                #[trigger] count_ymd(dates@, y, m, d, i as int) > 0 ==> has_key(days@, (y, m, d)),
            unknown == count_unknown(dates@, i as int),
            sum_counts(days@) + unknown == i,
            unknown <= i,
        decreases n - i,
    {
        let parsed = match &dates[i] {
            None => None,
            Some(s) => parse_date(Some(s.as_str())),
        };
        proof {
            assert(parsed == parsed_of(dates@[i as int]));
        }
        match parsed {
            None => {
                unknown += 1;
                proof {
                    assert forall|idx: int| 0 <= idx < days@.len() implies (
                    #[trigger] days@[idx]).count == count_ymd(
                        dates@,
                        days@[idx].year,
                        days@[idx].month,
                        days@[idx].day,
                        i + 1,
                    ) by {
                        assert(count_ymd(
                            dates@,
                            days@[idx].year,
                            days@[idx].month,
                            days@[idx].day,
                            i + 1,
                        ) == count_ymd(
                            dates@,
                            days@[idx].year,
                            days@[idx].month,
                            days@[idx].day,
                            i as int,
                        ));
                    }
                    assert forall|yy: u16, mm: u8, dd: u8|
                        #[trigger] count_ymd(dates@, yy, mm, dd, i + 1) > 0 implies has_key(
                        days@,
                        (yy, mm, dd),
                    ) by {
                        assert(count_ymd(dates@, yy, mm, dd, i + 1) == count_ymd(
                            dates@,
                            yy,
                            mm,
                            dd,
                            i as int,
                        ));
                    }
                    assert(count_unknown(dates@, i + 1) == count_unknown(dates@, i as int) + 1);
                }
            },
            Some((y, m, d)) => {
                let ghost t = (y, m, d);
                let mut j: usize = 0;
                while j < days.len() && key_below(&days[j], y, m, d)
                    invariant
                        j <= days@.len(),
                        forall|p: int| 0 <= p < j ==> date_lt(key_of(#[trigger] days@[p]), t),
                        t == (y, m, d),
                    decreases days@.len() - j,
                {
                    j += 1;
                }
                let ghost old_days = days@;
                if j < days.len() && days[j].year == y && days[j].month == m && days[j].day == d {
                    proof {
                        lemma_count_ymd_bound(dates@, y, m, d, i as int);
                    }
                    let cur = days[j].count;
                    days[j] = DateCount { year: y, month: m, day: d, count: cur + 1 };
                    proof {
                        lemma_sum_update(
                            old_days,
                            j as int,
                            DateCount { year: y, month: m, day: d, count: (cur + 1) as usize },
                        );
                        assert(key_of(days@[j as int]) == key_of(old_days[j as int]));
                        assert forall|p: int, q: int| 0 <= p < q < days@.len() implies date_lt(
                            key_of(#[trigger] days@[p]),
                            key_of(#[trigger] days@[q]),
                        ) by {
                            assert(key_of(days@[p]) == key_of(old_days[p]));
                            assert(key_of(days@[q]) == key_of(old_days[q]));
                        }
                        assert forall|idx: int| 0 <= idx < days@.len() implies (
                        #[trigger] days@[idx]).count == count_ymd(
                            dates@,
                            days@[idx].year,
                            days@[idx].month,
                            days@[idx].day,
                            i + 1,
                        ) && days@[idx].count >= 1 by {
                            let k = key_of(days@[idx]);
                            assert(count_ymd(dates@, k.0, k.1, k.2, i + 1) == count_ymd(
                                dates@,
                                k.0,
                                k.1,
                                k.2,
                                i as int,
                            ) + if parsed_of(dates@[i as int]) == Some(k) {
                                1int
                            } else {
                                0int
                            });
                            if idx != j {
                                assert(days@[idx] == old_days[idx]);
                                if idx < j {
                                    assert(date_lt(key_of(old_days[idx]), t));
                                } else {
                                    assert(date_lt(key_of(old_days[j as int]), key_of(
                                        old_days[idx],
                                    )));
                                }
                                assert(k != t);
                            }
                        }
                        assert(count_unknown(dates@, i + 1) == count_unknown(
                            dates@,
                            i as int,
                        ));
                        assert forall|yy: u16, mm: u8, dd: u8|
                            #[trigger] count_ymd(dates@, yy, mm, dd, i + 1) > 0 implies has_key(
                            days@,
                            (yy, mm, dd),
                        ) by {
                            if (yy, mm, dd) == t {
                                assert(key_of(days@[j as int]) == t);
                            } else {
                                assert(count_ymd(dates@, yy, mm, dd, i + 1) == count_ymd(
                                    dates@,
                                    yy,
                                    mm,
                                    dd,
                                    i as int,
                                ));
                                let w = choose|idx: int|
                                    0 <= idx < old_days.len() && key_of(#[trigger] old_days[idx])
                                        == (yy, mm, dd);
                                assert(key_of(days@[w]) == (yy, mm, dd));
                            }
                        }
                    }
                } else {
                    proof {
                        // no entry tallies this day yet
                        assert forall|idx: int| 0 <= idx < old_days.len() implies key_of(
                            #[trigger] old_days[idx],
                        ) != t by {
                            if idx < j {
                                assert(date_lt(key_of(old_days[idx]), t));
                            } else if idx == j {
                                lemma_date_lt_total(key_of(old_days[idx]), t);
                            } else {
                                lemma_date_lt_total(key_of(old_days[j as int]), t);
                                lemma_date_lt_trans(
                                    t,
                                    key_of(old_days[j as int]),
                                    key_of(old_days[idx]),
                                );
                            }
                        }
                        if count_ymd(dates@, y, m, d, i as int) > 0 {
                            let w = choose|idx: int|
                                0 <= idx < old_days.len() && key_of(#[trigger] old_days[idx]) == t;
                            assert(false);
                        }
                        lemma_count_ymd_bound(dates@, y, m, d, i as int);
                    }
                    let e = DateCount { year: y, month: m, day: d, count: 1 };
                    days.insert(j, e);
                    proof {
                        old_days.insert_ensures(j as int, e);
                        lemma_sum_insert(old_days, j as int, e);
                        assert forall|p: int, q: int| 0 <= p < q < days@.len() implies date_lt(
                            key_of(#[trigger] days@[p]),
                            key_of(#[trigger] days@[q]),
                        ) by {
                            if q < j {
                            } else if p < j && q == j {
                                assert(date_lt(key_of(old_days[p]), t));
                            } else if p < j && q > j {
                                assert(days@[q] == old_days[q - 1]);
                            } else if p == j {
                                assert(days@[q] == old_days[q - 1]);
                                lemma_date_lt_total(key_of(old_days[j as int]), t);
                                if q - 1 > j {
                                    lemma_date_lt_trans(
                                        t,
                                        key_of(old_days[j as int]),
                                        key_of(old_days[q - 1]),
                                    );
                                }
                            } else {
                                assert(days@[p] == old_days[p - 1]);
                                assert(days@[q] == old_days[q - 1]);
                            }
                        }
                        assert forall|idx: int| 0 <= idx < days@.len() implies (
                        #[trigger] days@[idx]).count == count_ymd(
                            dates@,
                            days@[idx].year,
                            days@[idx].month,
                            days@[idx].day,
                            i + 1,
                        ) && days@[idx].count >= 1 by {
                            let k = key_of(days@[idx]);
                            assert(count_ymd(dates@, k.0, k.1, k.2, i + 1) == count_ymd(
                                dates@,
                                k.0,
                                k.1,
                                k.2,
                                i as int,
                            ) + if parsed_of(dates@[i as int]) == Some(k) {
                                1int
                            } else {
                                0int
                            });
                            if idx < j {
                                assert(days@[idx] == old_days[idx]);
                                assert(date_lt(key_of(old_days[idx]), t));
                            } else if idx == j {
                                assert(days@[idx] == e);
                            } else {
                                assert(days@[idx] == old_days[idx - 1]);
                                assert(key_of(old_days[idx - 1]) != t);
                            }
                        }
                        assert(count_unknown(dates@, i + 1) == count_unknown(
                            dates@,
                            i as int,
                        ));
                        assert forall|yy: u16, mm: u8, dd: u8|
                            #[trigger] count_ymd(dates@, yy, mm, dd, i + 1) > 0 implies has_key(
                            days@,
                            (yy, mm, dd),
                        ) by {
                            if (yy, mm, dd) == t {
                                assert(key_of(days@[j as int]) == t);
                            } else {
                                assert(count_ymd(dates@, yy, mm, dd, i + 1) == count_ymd(
                                    dates@,
                                    yy,
                                    mm,
                                    dd,
                                    i as int,
                                ));
                                let w = choose|idx: int|
                                    0 <= idx < old_days.len() && key_of(#[trigger] old_days[idx])
                                        == (yy, mm, dd);
                                if w < j {
                                    assert(key_of(days@[w]) == (yy, mm, dd));
                                } else {
                                    assert(days@[w + 1] == old_days[w]);
                                    assert(key_of(days@[w + 1]) == (yy, mm, dd));
                                }
                            }
                        }
                    }
                }
            },
        }
        i += 1;
    }
    DateCounts { days, unknown }
}

} // verus!
