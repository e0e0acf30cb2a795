//! The debug page's own logic: comma-separated inputs, the cluster-update
//! notification copy, the test progress, and the SQL console's messages.
use vstd::prelude::*;

use crate::domain::strings_view;
use crate::text::{decimal, decimal_string, trim, trimmed};

verus! {

/// `s` cut at every comma, as `str::split(',')` cuts it.
pub open spec fn split_commas(s: Seq<char>) -> Seq<Seq<char>>
    decreases s.len(),
{
    if s.len() == 0 {
        seq![Seq::empty()]
    } else {
        let before = split_commas(s.drop_last());
        if s.last() == ',' {
            before.push(Seq::empty())
        } else {
            before.update(before.len() - 1, before.last().push(s.last()))
        }
    }
}

pub(crate) proof fn lemma_split_nonempty(s: Seq<char>)
    ensures
        split_commas(s).len() >= 1,
    decreases s.len(),
{
    if s.len() > 0 {
        lemma_split_nonempty(s.drop_last());
    }
}

/// Text without a comma, appended to `x`, extends the last piece of `x`.
pub(crate) proof fn lemma_split_append_plain(x: Seq<char>, y: Seq<char>)
    requires
        !y.contains(','),
    ensures
        split_commas(x + y) == split_commas(x).update(
            split_commas(x).len() - 1,
            split_commas(x).last() + y,
        ),
    decreases y.len(),
{
    lemma_split_nonempty(x);
    let sx = split_commas(x);
    if y.len() == 0 {
        assert(x + y =~= x);
        assert(sx.last() + y =~= sx.last());
        assert(sx.update(sx.len() - 1, sx.last() + y) =~= sx);
    } else {
        let y0 = y.drop_last();
        let c = y.last();
        assert(!y0.contains(',')) by {
            if y0.contains(',') {
                let k = choose|k: int| 0 <= k < y0.len() && y0[k] == ',';
                assert(y[k] == ',');
            }
        }
        assert(c != ',') by {
            assert(y[y.len() - 1] == c);
        }
        lemma_split_append_plain(x, y0);
        assert((x + y).drop_last() =~= x + y0);
        assert((x + y).last() == c);
        assert((sx.last() + y0).push(c) =~= sx.last() + y);
        assert(split_commas(x + y) =~= sx.update(sx.len() - 1, sx.last() + y));
    }
}

/// No piece between commas holds a comma.
pub(crate) proof fn lemma_split_pieces_plain(s: Seq<char>)
    ensures
        forall|i: int| 0 <= i < split_commas(s).len() ==> !(#[trigger] split_commas(s)[i]).contains(','),
    decreases s.len(),
{
    if s.len() > 0 {
        let init = s.drop_last();
        lemma_split_pieces_plain(init);
        lemma_split_nonempty(init);
        let before = split_commas(init);
        let c = s.last();
        if c != ',' {
            let l = before.last().push(c);
            assert(!l.contains(',')) by {
                if l.contains(',') {
                    let k = choose|k: int| 0 <= k < l.len() && l[k] == ',';
                    if k < l.len() - 1 {
                        assert(before.last()[k] == ',');
                        assert(before[before.len() - 1].contains(','));
                    }
                }
            }
        }
    }
}

/// The pieces of `raw` between commas, trimmed, without the blank ones.
pub open spec fn csv_items(raw: Seq<char>) -> Seq<Seq<char>> {
    split_commas(raw).map_values(|p: Seq<char>| trimmed(p)).filter(|p: Seq<char>| p.len() > 0)
}

/// The pieces of `raw` between commas, before trimming.
fn split_pieces(raw: &str) -> (r: Vec<String>)
    ensures
        strings_view(r@) == split_commas(raw@),
{
    let n = raw.unicode_len();
    let mut pieces: Vec<String> = Vec::new();
    let mut cur = String::new();
    let mut i: usize = 0;
    while i < n
        invariant
            n == raw@.len(),
            i <= n,
            strings_view(pieces@).push(cur@) == split_commas(raw@.take(i as int)),
        decreases n - i,
    {
        let c = raw.get_char(i);
        let ghost t = raw@.take(i + 1);
        assert(t.drop_last() =~= raw@.take(i as int));
        assert(t.last() == c);
        proof {
            lemma_split_nonempty(raw@.take(i as int));
        }
        if c == ',' {
            let ghost before = pieces@;
            let done = cur;
            pieces.push(done);
            cur = String::new();
            proof {
                crate::domain::lemma_strings_view_push(before, done);
            }
        } else {
            let ghost prev = split_commas(raw@.take(i as int));
            crate::text::push_char(&mut cur, c);
            assert(strings_view(pieces@).push(cur@) =~= prev.update(prev.len() - 1, prev.last().push(c)));
        }
        i = i + 1;
    }
    assert(raw@.take(n as int) =~= raw@);
    let ghost before = pieces@;
    let last = cur;
    pieces.push(last);
    proof {
        crate::domain::lemma_strings_view_push(before, last);
    }
    pieces
}

/// Splits a comma-separated input into its trimmed, non-blank items.
pub fn split_csv(raw: &str) -> (r: Vec<String>)
    ensures
        strings_view(r@) == csv_items(raw@),
{
    let pieces = split_pieces(raw);
    let ghost pv = strings_view(pieces@);
    let ghost tv = pv.map_values(|p: Seq<char>| trimmed(p));
    let ghost pred = |p: Seq<char>| p.len() > 0;
    let mut out: Vec<String> = Vec::new();
    let mut i: usize = 0;
    while i < pieces.len()
        invariant
            i <= pieces@.len(),
            pv == strings_view(pieces@),
            tv == pv.map_values(|p: Seq<char>| trimmed(p)),
            pred == (|p: Seq<char>| p.len() > 0),
            strings_view(out@) == tv.subrange(0, i as int).filter(pred),
        decreases pieces@.len() - i,
    {
        proof {
            crate::text::lemma_filter_step(tv, i as int, pred);
        }
        assert(pv[i as int] == pieces@[i as int]@);
        let t = trim(pieces[i].as_str());
        assert(t@ == tv[i as int]);
        if t.unicode_len() > 0 {
            let ghost before = out@;
            let c = String::from_str(t);
            out.push(c);
            proof {
                crate::domain::lemma_strings_view_push(before, c);
            }
        }
        i = i + 1;
    }
    assert(tv.subrange(0, i as int) =~= tv);
    out
}

/// One changed cluster of a bundle sync: its name and how many packages
/// changed in it.
pub struct UpdateSummary {
    pub cluster_name: String,
    pub total: usize,
}

pub open spec fn totals_sum(s: Seq<UpdateSummary>) -> int
    decreases s.len(),
{
    if s.len() == 0 {
        0
    } else {
        totals_sum(s.drop_last()) + s.last().total
    }
}

pub open spec fn package_plural(total: int) -> Seq<char> {
    if total == 1 {
        Seq::empty()
    } else {
        "s"@
    }
}

/// The notification a bundle sync sends: none without changes; for one
/// cluster, how many packages changed in it; for several, how many changed
/// across how many clusters.
pub open spec fn update_notice(s: Seq<UpdateSummary>) -> Option<(Seq<char>, Seq<char>)> {
    let total = totals_sum(s);
    if s.len() == 0 {
        None
    } else if s.len() == 1 {
        Some(("Cluster updated"@, decimal(total as nat) + " package"@ + package_plural(total) + " changed in "@
            + s[0].cluster_name@))
    } else {
        Some(("Mods updated"@, decimal(total as nat) + " package"@ + package_plural(total) + " updated across "@
            + decimal(s.len()) + " clusters"@))
    }
}

pub fn update_notice_text(summaries: &Vec<UpdateSummary>) -> (r: Option<(&'static str, String)>)
    requires
        totals_sum(summaries@) <= u64::MAX,
    ensures
        match r {
            Some((t, b)) => update_notice(summaries@) == Some((t@, b@)),
            None => update_notice(summaries@) is None,
        },
{
    if summaries.len() == 0 {
        return None;
    }
    let mut total: u64 = 0;
    let mut i: usize = 0;
    while i < summaries.len()
        invariant
            i <= summaries@.len(),
            totals_sum(summaries@) <= u64::MAX,
            total as int == totals_sum(summaries@.take(i as int)),
        decreases summaries@.len() - i,
    {
        assert(summaries@.take(i + 1).drop_last() =~= summaries@.take(i as int));
        proof {
            lemma_totals_prefix(summaries@, i + 1);
        }
        total = total + summaries[i].total as u64;
        i = i + 1;
    }
    assert(summaries@.take(i as int) =~= summaries@);
    let plural = if total == 1 {
        ""
    } else {
        "s"
    };
    proof {
        reveal_strlit("");
    }
    let mut body = decimal_string(total);
    body.append(" package");
    body.append(plural);
    if summaries.len() == 1 {
        body.append(" changed in ");
        body.append(summaries[0].cluster_name.as_str());
        Some(("Cluster updated", body))
    } else {
        body.append(" updated across ");
        body.append(decimal_string(summaries.len() as u64).as_str());
        body.append(" clusters");
        Some(("Mods updated", body))
    }
}

proof fn lemma_totals_prefix(s: Seq<UpdateSummary>, k: int)
    requires
        0 <= k <= s.len(),
    ensures
        totals_sum(s.take(k)) <= totals_sum(s),
    decreases s.len() - k,
{
    if k < s.len() {
        lemma_totals_prefix(s, k + 1);
        assert(s.take(k + 1).drop_last() =~= s.take(k));
    } else {
        assert(s.take(k) =~= s);
    }
}

/// The test progress after one more step of ten, never past 100.
pub fn progress_step(progress: u64) -> (r: u64)
    ensures
        r == (if progress + 10 < 100 { progress + 10 } else { 100 }),
{
    if progress < 90 {
        progress + 10
    } else {
        100
    }
}

/// The SQL console runs a query only when none is running and the query is
/// not blank.
pub fn should_run_sql(running: bool, sql: &str) -> (r: bool)
    ensures
        r == (!running && trimmed(sql@).len() > 0),
{
    !running && trim(sql).unicode_len() > 0
}

/// What the SQL console shows for a finished query.
pub enum SqlOutcome {
    NotRun,
    Failed(String),
    /// A statement that returns no rows, with the rows it changed.
    Affected(u64),
    /// A query's result: its columns and how many rows it returned.
    Rows { columns: usize, rows: usize },
}

pub open spec fn sql_message_text(outcome: SqlOutcome) -> Seq<char> {
    match outcome {
        SqlOutcome::NotRun => "No query run yet."@,
        SqlOutcome::Failed(e) => e@,
        SqlOutcome::Affected(n) => "OK, "@ + decimal(n as nat) + " row(s) affected."@,
        SqlOutcome::Rows { columns, rows } => if columns == 0 {
            "0 rows returned."@
        } else {
            decimal(rows as nat) + " row(s)"@
        },
    }
}

pub fn sql_message(outcome: &SqlOutcome) -> (r: String)
    ensures
        r@ == sql_message_text(*outcome),
{
    match outcome {
        SqlOutcome::NotRun => String::from_str("No query run yet."),
        SqlOutcome::Failed(e) => e.clone(),
        SqlOutcome::Affected(n) => crate::text::join3("OK, ", decimal_string(*n).as_str(), " row(s) affected."),
        SqlOutcome::Rows { columns, rows } => if *columns == 0 {
            String::from_str("0 rows returned.")
        } else {
            crate::text::join2(decimal_string(*rows as u64).as_str(), " row(s)")
        },
    }
}

/// The status line of the connectivity simulator.
pub fn pinned_text(pinned: bool) -> (r: &'static str)
    ensures
        r@ == (if pinned {
            "Pinned. Probing still runs, but its result is not published."@
        } else {
            "Not pinned; showing the real probe result."@
        }),
{
    if pinned {
        "Pinned. Probing still runs, but its result is not published."
    } else {
        "Not pinned; showing the real probe result."
    }
}

/// The option the auth preview shows: the one chosen, kept within the
/// options (the first is the no-error state).
pub fn preview_index(choice: usize, option_count: usize) -> (r: usize)
    requires
        option_count > 0,
    ensures
        r == (if choice < option_count - 1 { choice } else { (option_count - 1) as usize }),
{
    if choice < option_count - 1 {
        choice
    } else {
        option_count - 1
    }
}

} // verus!
