//! Playtime analytics: the session-length histogram, the daily and monthly
//! series behind the charts, the window the daily chart pages through, and
//! the figures and labels around them.
use vstd::prelude::*;

use crate::text::{decimal, decimal_string};

verus! {

/// The position of the largest value, the last one when several tie; `None`
/// when no value is above zero.
pub open spec fn peak_of(values: Seq<i64>) -> Option<int> {
    let m = max_from(values, 0);
    if values.len() > 0 && m > 0 {
        Some(last_index_of(values, m, values.len() as int))
    } else {
        None
    }
}

/// The largest of `values[from..]`, or `i64::MIN` when that is empty.
pub open spec fn max_from(values: Seq<i64>, from: int) -> i64
    decreases values.len() - from,
{
    if from < 0 || from >= values.len() {
        i64::MIN
    } else {
        let rest = max_from(values, from + 1);
        if values[from] >= rest {
            values[from]
        } else {
            rest
        }
    }
}

/// The last position below `n` that holds `v`, or -1.
pub open spec fn last_index_of(values: Seq<i64>, v: i64, n: int) -> int
    decreases n,
{
    if n <= 0 {
        -1
    } else if values[n - 1] == v {
        n - 1
    } else {
        last_index_of(values, v, n - 1)
    }
}

proof fn lemma_last_index_found(values: Seq<i64>, v: i64, n: int)
    requires
        0 <= n <= values.len(),
    ensures
        last_index_of(values, v, n) == -1 ==> forall|k: int| 0 <= k < n ==> values[k] != v,
        last_index_of(values, v, n) != -1 ==> 0 <= last_index_of(values, v, n) < n && values[last_index_of(
            values,
            v,
            n,
        )] == v && forall|k: int| last_index_of(values, v, n) < k < n ==> values[k] != v,
    decreases n,
{
    if n > 0 && values[n - 1] != v {
        lemma_last_index_found(values, v, n - 1);
    }
}

/// The peak is the largest value, when it is above zero, at its last
/// position: no value is larger, and none after it is as large. There is no
/// peak when no value is above zero.
pub proof fn law_peak_is_largest(values: Seq<i64>)
    ensures
        peak_of(values) matches Some(i) ==> 0 <= i < values.len() && values[i] > 0 && (forall|k: int|
            0 <= k < values.len() ==> values[k] <= values[i]) && (forall|k: int|
            i < k < values.len() ==> values[k] < values[i]),
        peak_of(values) is None ==> forall|k: int| 0 <= k < values.len() ==> values[k] <= 0,
{
    lemma_max_from_step(values, 0);
    let m = max_from(values, 0);
    lemma_last_index_found(values, m, values.len() as int);
}

proof fn lemma_max_from_step(values: Seq<i64>, from: int)
    requires
        0 <= from <= values.len(),
    ensures
        forall|k: int| from <= k < values.len() ==> values[k] <= max_from(values, from),
        from < values.len() ==> exists|k: int| from <= k < values.len() && values[k] == max_from(values, from),
    decreases values.len() - from,
{
    if from < values.len() {
        lemma_max_from_step(values, from + 1);
        if values[from] < max_from(values, from + 1) {
            assert(from + 1 < values.len());
            let k = choose|k: int| from + 1 <= k < values.len() && values[k] == max_from(values, from + 1);
            assert(from <= k < values.len() && values[k] == max_from(values, from));
        } else {
            assert(values[from] == max_from(values, from));
        }
    }
}

/// Where the peak of a bar chart is, as `max_by_key` finds it.
pub fn peak_index(values: &Vec<i64>) -> (r: Option<usize>)
    ensures
        match r {
            Some(i) => peak_of(values@) == Some(i as int),
            None => peak_of(values@) is None,
        },
{
    let n = values.len();
    if n == 0 {
        return None;
    }
    // The maximum of values[k..], and the last position holding it.
    let mut best: i64 = values[n - 1];
    let mut k: usize = n - 1;
    assert(max_from(values@, n as int) == i64::MIN);
    assert(best == max_from(values@, k as int));
    while k > 0
        invariant
            0 <= k < n,
            n == values@.len(),
            best == max_from(values@, k as int),
        decreases k,
    {
        k = k - 1;
        if values[k] >= best {
            best = values[k];
        }
    }
    proof {
        lemma_max_from_step(values@, 0);
    }
    if best <= 0 {
        return None;
    }
    let mut j: usize = n;
    while j > 0
        invariant
            j <= n,
            n == values@.len(),
            best == max_from(values@, 0),
            best > 0,
            last_index_of(values@, best, n as int) == last_index_of(values@, best, j as int),
        decreases j,
    {
        if values[j - 1] == best {
            return Some(j - 1);
        }
        j = j - 1;
    }
    proof {
        let w = choose|w: int| 0 <= w < values@.len() && values@[w] == max_from(values@, 0);
        lemma_last_index_finds(values@, best, n as int, w);
    }
    None
}

proof fn lemma_last_index_finds(values: Seq<i64>, v: i64, n: int, w: int)
    requires
        0 <= w < n <= values.len(),
        values[w] == v,
    ensures
        w <= last_index_of(values, v, n) < n,
    decreases n,
{
    if values[n - 1] != v {
        lemma_last_index_finds(values, v, n - 1, w);
    }
}

/// The session-length buckets, as upper bounds in seconds; the last takes
/// everything else.
pub open spec fn bucket_of(secs: i64) -> int {
    if secs < 15 * 60 {
        0
    } else if secs < 30 * 60 {
        1
    } else if secs < 60 * 60 {
        2
    } else if secs < 2 * 3600 {
        3
    } else if secs < 4 * 3600 {
        4
    } else {
        5
    }
}

pub fn session_bucket(secs: i64) -> (r: usize)
    ensures
        r as int == bucket_of(secs),
{
    if secs < 15 * 60 {
        0
    } else if secs < 30 * 60 {
        1
    } else if secs < 60 * 60 {
        2
    } else if secs < 2 * 3600 {
        3
    } else if secs < 4 * 3600 {
        4
    } else {
        5
    }
}

/// The labels of the session-length buckets.
pub open spec fn bucket_labels_seq() -> Seq<Seq<char>> {
    seq!["<15m"@, "15m-30m"@, "30m-60m"@, "1h-2h"@, "2h-4h"@, "4h+"@]
}

/// How many of `sessions` fall in bucket `b`.
pub open spec fn bucket_count(sessions: Seq<i64>, b: int) -> nat
    decreases sessions.len(),
{
    if sessions.len() == 0 {
        0
    } else {
        bucket_count(sessions.drop_last(), b) + if bucket_of(sessions.last()) == b {
            1nat
        } else {
            0nat
        }
    }
}

/// The session-length chart: how many sessions fall in each bucket, the
/// fullest bucket, and the subtitle.
pub struct Distribution {
    pub counts: Vec<i64>,
    pub labels: Vec<&'static str>,
    pub peak: Option<usize>,
    pub subtitle: String,
}

proof fn lemma_bucket_count_bound(sessions: Seq<i64>, b: int)
    ensures
        bucket_count(sessions, b) <= sessions.len(),
    decreases sessions.len(),
{
    if sessions.len() > 0 {
        lemma_bucket_count_bound(sessions.drop_last(), b);
    }
}

/// The session-length card, shown once there are two sessions (or always
/// when `force`).
pub fn distribution(session_secs: &Vec<i64>, force: bool) -> (r: Option<Distribution>)
    requires
        session_secs@.len() <= i64::MAX,
    ensures
        r is Some <==> (session_secs@.len() >= 2 || force),
        r matches Some(d) ==> {
            &&& d.counts@.len() == 6
            &&& forall|b: int| 0 <= b < 6 ==> d.counts@[b] == bucket_count(session_secs@, b)
            &&& d.labels@.map_values(|s: &'static str| s@) == bucket_labels_seq()
            &&& match d.peak {
                Some(p) => peak_of(d.counts@) == Some(p as int),
                None => peak_of(d.counts@) is None,
            }
            &&& d.subtitle@ == decimal(session_secs@.len()) + " sessions grouped by length"@
        },
{
    if session_secs.len() < 2 && !force {
        return None;
    }
    let mut counts: Vec<i64> = vec![0, 0, 0, 0, 0, 0];
    let mut i: usize = 0;
    while i < session_secs.len()
        invariant
            i <= session_secs@.len(),
            session_secs@.len() <= i64::MAX,
            counts@.len() == 6,
            forall|b: int| 0 <= b < 6 ==> counts@[b] == bucket_count(session_secs@.take(i as int), b),
        decreases session_secs@.len() - i,
    {
        let b = session_bucket(session_secs[i]);
        proof {
            assert(session_secs@.take(i + 1).drop_last() =~= session_secs@.take(i as int));
            lemma_bucket_count_bound(session_secs@.take(i as int), b as int);
        }
        let c = counts[b];
        counts.set(b, c + 1);
        i = i + 1;
    }
    assert(session_secs@.take(i as int) =~= session_secs@);
    let peak = peak_index(&counts);
    let labels: Vec<&'static str> = vec!["<15m", "15m-30m", "30m-60m", "1h-2h", "2h-4h", "4h+"];
    assert(labels@.map_values(|s: &'static str| s@) =~= bucket_labels_seq());
    let mut subtitle = decimal_string(session_secs.len() as u64);
    subtitle.append(" sessions grouped by length");
    Some(Distribution { counts, labels, peak, subtitle })
}

/// The spans the daily chart can show at once.
#[derive(Clone, Copy, PartialEq, Eq, Debug, Structural)]
pub enum Range {
    TwoWeeks,
    Month,
    Quarter,
}

impl Range {
    pub open spec fn spec_days(self) -> nat {
        match self {
            Range::TwoWeeks => 14,
            Range::Month => 30,
            Range::Quarter => 90,
        }
    }

    /// The number of days the range spans.
    pub fn days(self) -> (r: usize)
        ensures
            r == self.spec_days(),
    {
        match self {
            Range::TwoWeeks => 14,
            Range::Month => 30,
            Range::Quarter => 90,
        }
    }
}

/// The part of the daily series on screen, and whether the arrows can page.
pub struct ChartWindow {
    pub start: usize,
    pub end: usize,
    pub can_older: bool,
    pub can_newer: bool,
}

/// The position of `day` in a series starting on `first`; days before it
/// count as the first.
pub open spec fn day_index_of(first: i32, day: i32) -> int {
    if day >= first {
        day - first
    } else {
        0
    }
}

pub open spec fn min_nat(a: int, b: int) -> int {
    if a <= b {
        a
    } else {
        b
    }
}

/// The newest-first paging of the daily series: page `offset` (kept within
/// the pages there are) ends `offset` windows before the last day.
pub open spec fn paged_window(total: int, window: int, offset: int) -> (int, int, int) {
    let max_offset = if total > 0 {
        (total - 1) / window
    } else {
        0
    };
    let off = min_nat(offset, max_offset);
    let end = if total >= off * window {
        total - off * window
    } else {
        0
    };
    let start = if end >= window {
        end - window
    } else {
        0
    };
    (start, end, off)
}

/// The window of the daily chart. `custom` is a picked range of days, with
/// `first` the first day of the series; without one the chart pages by
/// `range`.
pub fn daily_window(total: usize, range: Range, offset: usize, first: i32, custom: Option<(i32, i32)>) -> (r: ChartWindow)
    ensures
        match custom {
            Some((from, to)) => {
                &&& r.end as int == min_nat(day_index_of(first, to) + 1, total as int)
                &&& r.start as int == min_nat(min_nat(day_index_of(first, from), total as int), r.end as int)
                &&& !r.can_older && !r.can_newer
            },
            None => {
                let (s, e, off) = paged_window(total as int, range.spec_days() as int, offset as int);
                let max_offset = if total > 0 { (total - 1) / (range.spec_days() as int) } else { 0 };
                &&& r.start as int == s
                &&& r.end as int == e
                &&& r.can_older == (off < max_offset)
                &&& r.can_newer == (off > 0)
            },
        },
{
    match custom {
        Some((from, to)) => {
            let fi: u64 = if from >= first {
                (from as i64 - first as i64) as u64
            } else {
                0
            };
            let ti: u64 = if to >= first {
                (to as i64 - first as i64) as u64
            } else {
                0
            };
            let start: u64 = if fi < total as u64 {
                fi
            } else {
                total as u64
            };
            let end: u64 = if ti + 1 < total as u64 {
                ti + 1
            } else {
                total as u64
            };
            let s = if start < end {
                start
            } else {
                end
            };
            ChartWindow { start: s as usize, end: end as usize, can_older: false, can_newer: false }
        },
        None => {
            let window = range.days();
            let max_offset = if total > 0 {
                (total - 1) / window
            } else {
                0
            };
            let off = if offset < max_offset {
                offset
            } else {
                max_offset
            };
            assert(off * window <= total) by (nonlinear_arith)
                requires
                    window > 0,
                    off <= max_offset,
                    total > 0 ==> max_offset as int == (total - 1) as int / (window as int),
                    total == 0 ==> max_offset == 0,
            {
            }
            let end = total - off * window;
            let start = if end >= window {
                end - window
            } else {
                0
            };
            ChartWindow { start, end, can_older: off < max_offset, can_newer: off > 0 }
        },
    }
}

/// A recorded day: its day number (days since the start of the common era),
/// if its date parsed, and the seconds played on it.
pub struct DayEntry {
    pub day: Option<i32>,
    pub secs: i64,
}

/// The seconds recorded for `day`: the last entry for it wins; 0 without one.
pub open spec fn secs_on(entries: Seq<DayEntry>, day: int) -> i64
    decreases entries.len(),
{
    if entries.len() == 0 {
        0
    } else {
        match entries.last().day {
            Some(d) => if d as int == day {
                entries.last().secs
            } else {
                secs_on(entries.drop_last(), day)
            },
            None => secs_on(entries.drop_last(), day),
        }
    }
}

/// The earliest parsed day among the entries, if any.
pub open spec fn first_day(entries: Seq<DayEntry>) -> Option<i32>
    decreases entries.len(),
{
    if entries.len() == 0 {
        None
    } else {
        let rest = first_day(entries.drop_last());
        match entries.last().day {
            None => rest,
            Some(d) => match rest {
                Some(r) => Some(if d < r { d } else { r }),
                None => Some(d),
            },
        }
    }
}

/// The latest parsed day among the entries, if any.
pub open spec fn last_day(entries: Seq<DayEntry>) -> Option<i32>
    decreases entries.len(),
{
    if entries.len() == 0 {
        None
    } else {
        let rest = last_day(entries.drop_last());
        match entries.last().day {
            None => rest,
            Some(d) => match rest {
                Some(r) => Some(if d > r { d } else { r }),
                None => Some(d),
            },
        }
    }
}

/// Every day from the first recorded one to the later of the last recorded
/// one and `today`, each with its seconds (0 for a day not recorded).
pub open spec fn series_until(entries: Seq<DayEntry>, today: i32) -> Seq<(i32, i64)> {
    match (first_day(entries), last_day(entries)) {
        (Some(f), Some(l)) => {
            let last = if l > today { l } else { today };
            Seq::new((last - f + 1) as nat, |i: int| ((f + i) as i32, secs_on(entries, f + i)))
        },
        _ => Seq::empty(),
    }
}

fn secs_for(entries: &Vec<DayEntry>, day: i32) -> (r: i64)
    ensures
        r == secs_on(entries@, day as int),
{
    let mut k: usize = entries.len();
    assert(entries@.take(k as int) =~= entries@);
    while k > 0
        invariant
            k <= entries@.len(),
            secs_on(entries@, day as int) == secs_on(entries@.take(k as int), day as int),
        decreases k,
    {
        assert(entries@.take(k as int).drop_last() =~= entries@.take(k - 1));
        assert(entries@.take(k as int).last() == entries@[k - 1]);
        match entries[k - 1].day {
            Some(d) => {
                if d == day {
                    return entries[k - 1].secs;
                }
            },
            None => {},
        }
        k = k - 1;
    }
    assert(entries@.take(0) =~= Seq::<DayEntry>::empty());
    0
}

/// The daily series up to `today`, the local date as a day number counted
/// from the start of the common era; the caller reads it from the clock.
pub fn continuous_series(entries: &Vec<DayEntry>, today: i32) -> (r: Vec<(i32, i64)>)
    ensures
        r@ == series_until(entries@, today),
{
    let mut first: Option<i32> = None;
    let mut last: Option<i32> = None;
    let mut i: usize = 0;
    while i < entries.len()
        invariant
            i <= entries@.len(),
            first == first_day(entries@.take(i as int)),
            last == last_day(entries@.take(i as int)),
        decreases entries@.len() - i,
    {
        assert(entries@.take(i + 1).drop_last() =~= entries@.take(i as int));
        assert(entries@.take(i + 1).last() == entries@[i as int]);
        match entries[i].day {
            None => {},
            Some(d) => {
                first = match first {
                    Some(f) => Some(if d < f { d } else { f }),
                    None => Some(d),
                };
                last = match last {
                    Some(l) => Some(if d > l { d } else { l }),
                    None => Some(d),
                };
            },
        }
        i = i + 1;
    }
    assert(entries@.take(i as int) =~= entries@);
    let mut out: Vec<(i32, i64)> = Vec::new();
    match (first, last) {
        (Some(f), Some(l)) => {
            let end: i32 = if l > today {
                l
            } else {
                today
            };
            proof {
                lemma_first_le_last(entries@);
            }
            let mut cur: i64 = f as i64;
            while cur <= end as i64
                invariant
                    f as i64 <= cur <= end as i64 + 1,
                    f <= end,
                    first_day(entries@) == Some(f),
                    last_day(entries@) == Some(l),
                    end == (if l > today { l } else { today }),
                    out@.len() == cur - f,
                    forall|k: int| 0 <= k < out@.len() ==> #[trigger] out@[k] == ((f + k) as i32, secs_on(entries@, f + k)),
                decreases end as i64 + 1 - cur,
            {
                let d = cur as i32;
                let s = secs_for(entries, d);
                out.push((d, s));
                cur = cur + 1;
            }
            assert(out@ =~= series_until(entries@, today));
        },
        _ => {
            assert(out@ =~= series_until(entries@, today));
        },
    }
    out
}

proof fn lemma_first_le_last(entries: Seq<DayEntry>)
    ensures
        first_day(entries) is Some <==> last_day(entries) is Some,
        first_day(entries) matches Some(f) ==> last_day(entries) matches Some(l) && f <= l,
    decreases entries.len(),
{
    if entries.len() > 0 {
        lemma_first_le_last(entries.drop_last());
    }
}

/// A recorded day for the monthly chart: the month it falls in, as its year
/// and month (0 for January), if its date parsed, and the seconds played.
pub struct MonthEntry {
    pub month: Option<(i32, u32)>,
    pub secs: i64,
}

/// A month counted from year 0.
pub open spec fn month_number(m: (i32, u32)) -> int {
    m.0 * 12 + m.1
}

pub open spec fn valid_month(m: (i32, u32)) -> bool {
    m.1 < 12
}

/// Every parsed month names a month from 0 to 11.
pub open spec fn months_valid(entries: Seq<MonthEntry>) -> bool {
    forall|k: int| 0 <= k < entries.len() ==> (#[trigger] entries[k]).month is Some ==> valid_month(entries[k].month.unwrap())
}

/// The seconds played in month `n` over the first entries: their sum.
pub open spec fn month_total(entries: Seq<MonthEntry>, n: int) -> int
    decreases entries.len(),
{
    if entries.len() == 0 {
        0
    } else {
        month_total(entries.drop_last(), n) + match entries.last().month {
            Some(m) => if month_number(m) == n {
                entries.last().secs as int
            } else {
                0
            },
            None => 0,
        }
    }
}

pub open spec fn first_month(entries: Seq<MonthEntry>) -> Option<int>
    decreases entries.len(),
{
    if entries.len() == 0 {
        None
    } else {
        let rest = first_month(entries.drop_last());
        match entries.last().month {
            None => rest,
            Some(m) => match rest {
                Some(r) => Some(if month_number(m) < r { month_number(m) } else { r }),
                None => Some(month_number(m)),
            },
        }
    }
}

pub open spec fn last_month(entries: Seq<MonthEntry>) -> Option<int>
    decreases entries.len(),
{
    if entries.len() == 0 {
        None
    } else {
        let rest = last_month(entries.drop_last());
        match entries.last().month {
            None => rest,
            Some(m) => match rest {
                Some(r) => Some(if month_number(m) > r { month_number(m) } else { r }),
                None => Some(month_number(m)),
            },
        }
    }
}

/// Every running total of a month fits in an `i64`, so adding up a month
/// never overflows.
pub open spec fn totals_fit(entries: Seq<MonthEntry>) -> bool {
    forall|k: int, n: int|
        0 <= k <= entries.len() ==> i64::MIN <= #[trigger] month_total(entries.take(k), n) <= i64::MAX
}

/// Every month from the first recorded to the last, with its total.
pub open spec fn monthly_of(entries: Seq<MonthEntry>) -> Seq<(int, int)> {
    match (first_month(entries), last_month(entries)) {
        (Some(f), Some(l)) => Seq::new((l - f + 1) as nat, |i: int| (f + i, month_total(entries, f + i))),
        _ => Seq::empty(),
    }
}

/// The seconds of every entry whose month parsed.
pub open spec fn parsed_total(entries: Seq<MonthEntry>) -> int
    decreases entries.len(),
{
    if entries.len() == 0 {
        0
    } else {
        parsed_total(entries.drop_last()) + match entries.last().month {
            Some(_) => entries.last().secs as int,
            None => 0,
        }
    }
}

/// The totals of a series added up.
pub open spec fn series_total(s: Seq<(int, int)>) -> int
    decreases s.len(),
{
    if s.len() == 0 {
        0
    } else {
        series_total(s.drop_last()) + s.last().1
    }
}

/// The totals of the `c` months from `lo` on.
spec fn months_sum(entries: Seq<MonthEntry>, lo: int, c: nat) -> int
    decreases c,
{
    if c == 0 {
        0
    } else {
        months_sum(entries, lo, (c - 1) as nat) + month_total(entries, lo + c - 1)
    }
}

proof fn lemma_series_is_months_sum(entries: Seq<MonthEntry>, lo: int, c: nat)
    ensures
        series_total(Seq::new(c, |i: int| (lo + i, month_total(entries, lo + i)))) == months_sum(entries, lo, c),
    decreases c,
{
    if c > 0 {
        lemma_series_is_months_sum(entries, lo, (c - 1) as nat);
        let s = Seq::new(c, |i: int| (lo + i, month_total(entries, lo + i)));
        assert(s.drop_last() =~= Seq::new((c - 1) as nat, |i: int| (lo + i, month_total(entries, lo + i))));
    }
}

proof fn lemma_months_sum_step(entries: Seq<MonthEntry>, lo: int, c: nat)
    requires
        entries.len() > 0,
    ensures
        months_sum(entries, lo, c) == months_sum(entries.drop_last(), lo, c) + match entries.last().month {
            Some(m) => if lo <= month_number(m) < lo + c {
                entries.last().secs as int
            } else {
                0
            },
            None => 0,
        },
    decreases c,
{
    if c > 0 {
        lemma_months_sum_step(entries, lo, (c - 1) as nat);
    }
}

proof fn lemma_months_sum_all(entries: Seq<MonthEntry>, lo: int, c: nat)
    requires
        forall|k: int|
            0 <= k < entries.len() && (#[trigger] entries[k]).month is Some ==> lo <= month_number(
                entries[k].month->0,
            ) < lo + c,
    ensures
        months_sum(entries, lo, c) == parsed_total(entries),
    decreases entries.len(),
{
    if entries.len() == 0 {
        lemma_months_sum_empty(entries, lo, c);
    } else {
        let init = entries.drop_last();
        assert forall|k: int|
            0 <= k < init.len() && (#[trigger] init[k]).month is Some implies lo <= month_number(init[k].month->0)
                < lo + c by {
            assert(init[k] == entries[k]);
        }
        lemma_months_sum_all(init, lo, c);
        lemma_months_sum_step(entries, lo, c);
        assert(entries[entries.len() - 1] == entries.last());
    }
}

proof fn lemma_months_sum_empty(entries: Seq<MonthEntry>, lo: int, c: nat)
    requires
        entries.len() == 0,
    ensures
        months_sum(entries, lo, c) == 0,
    decreases c,
{
    if c > 0 {
        lemma_months_sum_empty(entries, lo, (c - 1) as nat);
    }
}

proof fn lemma_months_within(entries: Seq<MonthEntry>)
    ensures
        forall|k: int|
            0 <= k < entries.len() && (#[trigger] entries[k]).month is Some ==> first_month(entries) is Some
                && last_month(entries) is Some && first_month(entries)->0 <= month_number(entries[k].month->0)
                <= last_month(entries)->0,
        first_month(entries) is Some <==> last_month(entries) is Some,
        first_month(entries) matches Some(f) ==> f <= last_month(entries)->0,
    decreases entries.len(),
{
    if entries.len() > 0 {
        let init = entries.drop_last();
        lemma_months_within(init);
        assert forall|k: int|
            0 <= k < entries.len() && (#[trigger] entries[k]).month is Some implies first_month(entries) is Some
                && last_month(entries) is Some && first_month(entries)->0 <= month_number(entries[k].month->0)
                <= last_month(entries)->0 by {
            if k < init.len() {
                assert(init[k] == entries[k]);
            }
        }
    }
}

/// The monthly series loses no time and counts none twice: its totals add
/// up to the seconds of every entry whose month parsed.
pub proof fn law_monthly_total_kept(entries: Seq<MonthEntry>)
    ensures
        series_total(monthly_of(entries)) == parsed_total(entries),
{
    lemma_months_within(entries);
    match (first_month(entries), last_month(entries)) {
        (Some(f), Some(l)) => {
            let c = (l - f + 1) as nat;
            lemma_series_is_months_sum(entries, f, c);
            lemma_months_sum_all(entries, f, c);
        },
        _ => {
            assert forall|k: int| 0 <= k < entries.len() implies (#[trigger] entries[k]).month is None by {
                if entries[k].month is Some {
                    assert(first_month(entries) is Some);
                }
            }
            lemma_no_parsed(entries);
        },
    }
}

proof fn lemma_no_parsed(entries: Seq<MonthEntry>)
    requires
        forall|k: int| 0 <= k < entries.len() ==> (#[trigger] entries[k]).month is None,
    ensures
        parsed_total(entries) == 0,
    decreases entries.len(),
{
    if entries.len() > 0 {
        let init = entries.drop_last();
        assert forall|k: int| 0 <= k < init.len() implies (#[trigger] init[k]).month is None by {
            assert(init[k] == entries[k]);
        }
        lemma_no_parsed(init);
        assert(entries[entries.len() - 1] == entries.last());
    }
}

fn month_sum(entries: &Vec<MonthEntry>, month: (i32, u32)) -> (r: i64)
    requires
        totals_fit(entries@),
        valid_month(month),
        months_valid(entries@),
    ensures
        r as int == month_total(entries@, month_number(month)),
{
    let mut total: i64 = 0;
    let mut i: usize = 0;
    while i < entries.len()
        invariant
            i <= entries@.len(),
            totals_fit(entries@),
            valid_month(month),
            months_valid(entries@),
            total as int == month_total(entries@.take(i as int), month_number(month)),
        decreases entries@.len() - i,
    {
        assert(entries@.take(i + 1).drop_last() =~= entries@.take(i as int));
        assert(entries@.take(i + 1).last() == entries@[i as int]);
        assert(i64::MIN <= month_total(entries@.take(i + 1), month_number(month)) <= i64::MAX);
        match entries[i].month {
            Some(m) => {
                if m.0 == month.0 && m.1 == month.1 {
                    total = total + entries[i].secs;
                } else {
                    assert(valid_month(m));
                    let ghost (y1, m1, y2, m2) = (m.0 as int, m.1 as int, month.0 as int, month.1 as int);
                    assert(y1 * 12 + m1 != y2 * 12 + m2) by (nonlinear_arith)
                        requires
                            0 <= m1 < 12,
                            0 <= m2 < 12,
                            !(y1 == y2 && m1 == m2),
                    {
                    }
                }
            },
            None => {},
        }
        i = i + 1;
    }
    assert(entries@.take(i as int) =~= entries@);
    total
}

/// The monthly series: each month from the first recorded to the last, as
/// (year, month from 0, seconds played).
#[verifier::spinoff_prover]
pub fn monthly_series(entries: &Vec<MonthEntry>) -> (r: Vec<(i32, u32, i64)>)
    requires
        totals_fit(entries@),
        months_valid(entries@),
    ensures
        r@.len() == monthly_of(entries@).len(),
        forall|k: int|
            0 <= k < r@.len() ==> valid_month((r@[k].0, r@[k].1)) && month_number((r@[k].0, r@[k].1))
                == monthly_of(entries@)[k].0 && r@[k].2 as int == monthly_of(entries@)[k].1,
{
    let mut first: Option<(i32, u32)> = None;
    let mut last: Option<(i32, u32)> = None;
    let mut i: usize = 0;
    while i < entries.len()
        invariant
            i <= entries@.len(),
            months_valid(entries@),
            match first {
                Some(f) => valid_month(f) && first_month(entries@.take(i as int)) == Some(month_number(f)),
                None => first_month(entries@.take(i as int)) is None,
            },
            match last {
                Some(l) => valid_month(l) && last_month(entries@.take(i as int)) == Some(month_number(l)),
                None => last_month(entries@.take(i as int)) is None,
            },
        decreases entries@.len() - i,
    {
        assert(entries@.take(i + 1).drop_last() =~= entries@.take(i as int));
        assert(entries@.take(i + 1).last() == entries@[i as int]);
        match entries[i].month {
            None => {},
            Some(m) => {
                assert(valid_month(m));
                first = match first {
                    Some(f) => Some(if m.0 < f.0 || (m.0 == f.0 && m.1 < f.1) { m } else { f }),
                    None => Some(m),
                };
                last = match last {
                    Some(l) => Some(if m.0 > l.0 || (m.0 == l.0 && m.1 > l.1) { m } else { l }),
                    None => Some(m),
                };
            },
        }
        i = i + 1;
    }
    assert(entries@.take(i as int) =~= entries@);
    let mut out: Vec<(i32, u32, i64)> = Vec::new();
    match (first, last) {
        (Some(f), Some(l)) => {
            proof {
                lemma_first_month_le_last(entries@);
            }
            let ghost fnum = month_number(f);
            let ghost lnum = month_number(l);
            let mut cur = f;
            let count: i64 = (l.0 as i64 - f.0 as i64) * 12 + (l.1 as i64 - f.1 as i64) + 1;
            assert(count == lnum - fnum + 1);
            let mut j: i64 = 0;
            while j < count
                invariant
                    valid_month(cur),
                    valid_month(l),
                    totals_fit(entries@),
                    months_valid(entries@),
                    fnum == month_number(f),
                    lnum == month_number(l),
                    count == lnum - fnum + 1,
                    0 <= j <= count,
                    j < count ==> month_number(cur) == fnum + j,
                    monthly_of(entries@) == Seq::new(
                        (lnum - fnum + 1) as nat,
                        |k: int| (fnum + k, month_total(entries@, fnum + k)),
                    ),
                    out@.len() == j,
                    forall|k: int|
                        0 <= k < out@.len() ==> valid_month((#[trigger] out@[k].0, out@[k].1)) && month_number((out@[k].0, out@[k].1))
                            == fnum + k && out@[k].2 as int == month_total(entries@, fnum + k),
                decreases count - j,
            {
                let s = month_sum(entries, cur);
                out.push((cur.0, cur.1, s));
                j = j + 1;
                if j < count {
                    if cur.1 + 1 < 12 {
                        cur = (cur.0, cur.1 + 1);
                    } else {
                        assert(cur.0 < l.0);
                        cur = (cur.0 + 1, 0);
                    }
                }
            }
            assert forall|k: int| 0 <= k < out@.len() implies valid_month((#[trigger] out@[k].0, out@[k].1))
                && month_number((out@[k].0, out@[k].1)) == monthly_of(entries@)[k].0 && out@[k].2 as int
                == monthly_of(entries@)[k].1 by {
                assert(valid_month((out@[k].0, out@[k].1)));
                assert(month_number((out@[k].0, out@[k].1)) == fnum + k);
                assert(out@[k].2 as int == month_total(entries@, fnum + k));
                assert(monthly_of(entries@)[k] == (fnum + k, month_total(entries@, fnum + k)));
            }
        },
        _ => {
            assert(monthly_of(entries@) =~= Seq::<(int, int)>::empty());
        },
    }
    out
}

proof fn lemma_first_month_le_last(entries: Seq<MonthEntry>)
    ensures
        first_month(entries) is Some <==> last_month(entries) is Some,
        first_month(entries) matches Some(f) ==> last_month(entries) matches Some(l) && f <= l,
    decreases entries.len(),
{
    if entries.len() > 0 {
        lemma_first_month_le_last(entries.drop_last());
    }
}

/// The short names of the months, January first.
pub open spec fn month_abbr_text(m: u32) -> Seq<char> {
    if m == 0 { "Jan"@ }
    else if m == 1 { "Feb"@ }
    else if m == 2 { "Mar"@ }
    else if m == 3 { "Apr"@ }
    else if m == 4 { "May"@ }
    else if m == 5 { "Jun"@ }
    else if m == 6 { "Jul"@ }
    else if m == 7 { "Aug"@ }
    else if m == 8 { "Sep"@ }
    else if m == 9 { "Oct"@ }
    else if m == 10 { "Nov"@ }
    else { "Dec"@ }
}

pub fn month_abbr(m: u32) -> (r: &'static str)
    requires
        m < 12,
    ensures
        r@ == month_abbr_text(m),
{
    if m == 0 { "Jan" }
    else if m == 1 { "Feb" }
    else if m == 2 { "Mar" }
    else if m == 3 { "Apr" }
    else if m == 4 { "May" }
    else if m == 5 { "Jun" }
    else if m == 6 { "Jul" }
    else if m == 7 { "Aug" }
    else if m == 8 { "Sep" }
    else if m == 9 { "Oct" }
    else if m == 10 { "Nov" }
    else { "Dec" }
}

/// The weekday names, Monday first.
pub open spec fn weekday_full_text(d: nat) -> Seq<char> {
    if d == 0 { "Monday"@ }
    else if d == 1 { "Tuesday"@ }
    else if d == 2 { "Wednesday"@ }
    else if d == 3 { "Thursday"@ }
    else if d == 4 { "Friday"@ }
    else if d == 5 { "Saturday"@ }
    else { "Sunday"@ }
}

pub fn weekday_full(d: usize) -> (r: &'static str)
    requires
        d < 7,
    ensures
        r@ == weekday_full_text(d as nat),
{
    if d == 0 { "Monday" }
    else if d == 1 { "Tuesday" }
    else if d == 2 { "Wednesday" }
    else if d == 3 { "Thursday" }
    else if d == 4 { "Friday" }
    else if d == 5 { "Saturday" }
    else { "Sunday" }
}

/// The subtitle of the by-day chart, naming the busiest weekday.
pub fn weekday_subtitle(peak_weekday: Option<usize>) -> (r: String)
    requires
        peak_weekday matches Some(d) ==> d < 7,
    ensures
        r@ == "Every "@ + match peak_weekday {
            Some(d) => weekday_full_text(d as nat),
            None => "—"@,
        } + " you have played, added up"@,
{
    let day = match peak_weekday {
        Some(d) => weekday_full(d),
        None => "—",
    };
    crate::text::join3("Every ", day, " you have played, added up")
}

/// The subtitle of the by-hour chart; `peak_hour_text` is the busiest hour
/// as written, if there is one.
pub fn hour_subtitle(peak_hour_text: Option<&str>) -> (r: String)
    ensures
        r@ == "Every day's "@ + match peak_hour_text {
            Some(h) => h@,
            None => "—"@,
        } + " hour, added up"@,
{
    let hour = match peak_hour_text {
        Some(h) => h,
        None => "—",
    };
    crate::text::join3("Every day's ", hour, " hour, added up")
}

/// The readout of a month: its short name and year.
pub fn month_readout(year: i32, m: u32) -> (r: String)
    requires
        m < 12,
    ensures
        r@ == month_abbr_text(m) + " "@ + crate::text::signed_decimal(year as int),
{
    crate::text::join3(month_abbr(m), " ", crate::text::signed_decimal_string(year as i64).as_str())
}

/// The subtitle of the by-month chart: the best month, or a note that there
/// is none yet.
pub fn best_month_subtitle(months: &Vec<(i32, u32, i64)>) -> (r: String)
    requires
        forall|k: int| 0 <= k < months@.len() ==> (#[trigger] months@[k]).1 < 12,
    ensures
        r@ == match peak_of(months@.map_values(|m: (i32, u32, i64)| m.2)) {
            Some(i) => "Best month so far: "@ + month_abbr_text(months@[i].1) + " "@
                + crate::text::signed_decimal(months@[i].0 as int),
            None => "No sessions recorded yet"@,
        },
{
    let mut values: Vec<i64> = Vec::new();
    let mut i: usize = 0;
    while i < months.len()
        invariant
            i <= months@.len(),
            values@ == months@.take(i as int).map_values(|m: (i32, u32, i64)| m.2),
        decreases months@.len() - i,
    {
        values.push(months[i].2);
        assert(months@.take(i + 1).map_values(|m: (i32, u32, i64)| m.2) =~= months@.take(i as int).map_values(
            |m: (i32, u32, i64)| m.2,
        ).push(months@[i as int].2));
        i = i + 1;
    }
    assert(months@.take(i as int) =~= months@);
    match peak_index(&values) {
        Some(k) => {
            proof {
                lemma_peak_in_range(values@);
            }
            let readout = month_readout(months[k].0, months[k].1);
            crate::text::join2("Best month so far: ", readout.as_str())
        },
        None => String::from_str("No sessions recorded yet"),
    }
}

proof fn lemma_peak_in_range(values: Seq<i64>)
    ensures
        peak_of(values) matches Some(i) ==> 0 <= i < values.len(),
{
    if values.len() > 0 && max_from(values, 0) > 0 {
        lemma_max_from_step(values, 0);
        let w = choose|w: int| 0 <= w < values.len() && values[w] == max_from(values, 0);
        lemma_last_index_finds(values, max_from(values, 0), values.len() as int, w);
    }
}

/// A streak as the tiles show it.
pub fn streak_value(days: usize) -> (r: String)
    ensures
        r@ == decimal(days as nat) + "d"@,
{
    crate::text::join2(decimal_string(days as u64).as_str(), "d")
}

} // verus!
