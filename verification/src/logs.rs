//! The log views: which lines the level and search filters let through, the
//! level a line inherits from the lines before it, and which log file is
//! shown.
use vstd::prelude::*;

use crate::domain::strings_view;
use crate::text::{has_infix, lowercase, str_contains, str_eq, to_lower, trim, trimmed};

verus! {

/// The level a log line was written at; `Unknown` before any line names one.
#[derive(Clone, Copy, PartialEq, Eq, Debug, Structural)]
pub enum LogLevel {
    Unknown,
    Error,
    Warn,
    Info,
    Debug,
}

/// The level picker above the log viewer.
#[derive(Clone, Copy, PartialEq, Eq, Debug, Structural)]
pub enum LevelFilter {
    All,
    Error,
    Warn,
    Info,
    Debug,
}

impl LevelFilter {
    pub open spec fn spec_to_level(self) -> Option<LogLevel> {
        match self {
            LevelFilter::All => None,
            LevelFilter::Error => Some(LogLevel::Error),
            LevelFilter::Warn => Some(LogLevel::Warn),
            LevelFilter::Info => Some(LogLevel::Info),
            LevelFilter::Debug => Some(LogLevel::Debug),
        }
    }

    /// The level the filter asks for; `None` lets every level through.
    pub fn to_level(self) -> (r: Option<LogLevel>)
        ensures
            r == self.spec_to_level(),
    {
        match self {
            LevelFilter::All => None,
            LevelFilter::Error => Some(LogLevel::Error),
            LevelFilter::Warn => Some(LogLevel::Warn),
            LevelFilter::Info => Some(LogLevel::Info),
            LevelFilter::Debug => Some(LogLevel::Debug),
        }
    }

    pub open spec fn spec_label(self) -> Seq<char> {
        match self {
            LevelFilter::All => "All"@,
            LevelFilter::Error => "Errors"@,
            LevelFilter::Warn => "Warnings"@,
            LevelFilter::Info => "Info"@,
            LevelFilter::Debug => "Debug"@,
        }
    }

    /// The filter's name in the picker.
    pub fn label(self) -> (r: &'static str)
        ensures
            r@ == self.spec_label(),
    {
        match self {
            LevelFilter::All => "All",
            LevelFilter::Error => "Errors",
            LevelFilter::Warn => "Warnings",
            LevelFilter::Info => "Info",
            LevelFilter::Debug => "Debug",
        }
    }
}

/// What wrote a log file.
#[derive(Clone, Copy, PartialEq, Eq, Debug, Structural)]
pub enum LogKind {
    Game,
    Minecraft,
    CrashReport,
    Other,
}

pub open spec fn kind_badge_text(kind: LogKind) -> Seq<char> {
    match kind {
        LogKind::Game => "Launcher"@,
        LogKind::Minecraft => "Minecraft"@,
        LogKind::CrashReport => "Crash report"@,
        LogKind::Other => "Other"@,
    }
}

/// The badge a log file wears in the picker.
pub fn kind_badge(kind: LogKind) -> (r: &'static str)
    ensures
        r@ == kind_badge_text(kind),
{
    match kind {
        LogKind::Game => "Launcher",
        LogKind::Minecraft => "Minecraft",
        LogKind::CrashReport => "Crash report",
        LogKind::Other => "Other",
    }
}

/// The level in effect after the first `n` lines: that of the last line among
/// them that names one, `Unknown` if none does. `parsed[i]` is the level line
/// `i` names, if any.
pub open spec fn carried_level(parsed: Seq<Option<LogLevel>>, n: int) -> LogLevel
    decreases n,
{
    if n <= 0 {
        LogLevel::Unknown
    } else {
        match parsed[n - 1] {
            Some(l) => l,
            None => carried_level(parsed, n - 1),
        }
    }
}

/// A line without a level of its own carries the level of the last line
/// before it that names one; before any such line the level is unknown.
pub proof fn law_level_carried(parsed: Seq<Option<LogLevel>>, n: int)
    requires
        0 <= n <= parsed.len(),
    ensures
        forall|k: int|
            0 <= k < n && (#[trigger] parsed[k]) is Some && (forall|j: int| k < j < n ==> parsed[j] is None)
                ==> carried_level(parsed, n) == parsed[k]->0,
        (forall|j: int| 0 <= j < n ==> parsed[j] is None) ==> carried_level(parsed, n) == LogLevel::Unknown,
    decreases n,
{
    if n > 0 {
        law_level_carried(parsed, n - 1);
        assert forall|k: int|
            0 <= k < n && (#[trigger] parsed[k]) is Some && (forall|j: int| k < j < n ==> parsed[j] is None)
                implies carried_level(parsed, n) == parsed[k]->0 by {
            if k < n - 1 {
                assert(parsed[n - 1] is None);
            }
        }
    }
}

/// The text a search looks for: the lower-cased search, or nothing when the
/// search is blank.
pub open spec fn search_needle(search: Seq<char>) -> Option<Seq<char>> {
    if trimmed(search).len() == 0 {
        None
    } else {
        Some(lowercase(search))
    }
}

/// A line at `level` passes the filters.
pub open spec fn line_kept(line: Seq<char>, level: LogLevel, needle: Option<Seq<char>>, wanted: Option<LogLevel>) -> bool {
    &&& match wanted {
        Some(w) => w == level,
        None => true,
    }
    &&& match needle {
        Some(n) => has_infix(lowercase(line), n),
        None => true,
    }
}

/// The lines among the first `n` that pass, in order; each line is judged by
/// the level carried to it.
pub open spec fn kept_lines(
    lines: Seq<Seq<char>>,
    parsed: Seq<Option<LogLevel>>,
    n: int,
    needle: Option<Seq<char>>,
    wanted: Option<LogLevel>,
) -> Seq<Seq<char>>
    decreases n,
{
    if n <= 0 {
        Seq::empty()
    } else {
        let before = kept_lines(lines, parsed, n - 1, needle, wanted);
        if line_kept(lines[n - 1], carried_level(parsed, n), needle, wanted) {
            before.push(lines[n - 1])
        } else {
            before
        }
    }
}

/// Without a search and a level, every line passes.
pub proof fn lemma_unfiltered_keeps_all(lines: Seq<Seq<char>>, parsed: Seq<Option<LogLevel>>, n: int)
    requires
        0 <= n <= lines.len(),
    ensures
        kept_lines(lines, parsed, n, None, None) == lines.take(n),
    decreases n,
{
    if n > 0 {
        lemma_unfiltered_keeps_all(lines, parsed, n - 1);
        assert(lines.take(n) =~= lines.take(n - 1).push(lines[n - 1]));
    } else {
        assert(lines.take(n) =~= Seq::<Seq<char>>::empty());
    }
}

/// The lines the log viewer shows. `parsed[i]` is the level that line `i`
/// names, if it names one; a line that names none keeps the level of the
/// lines before it.
pub fn filter_lines(lines: &Vec<String>, parsed: &Vec<Option<LogLevel>>, search: &str, level: LevelFilter) -> (r: Vec<String>)
    requires
        parsed@.len() == lines@.len(),
    ensures
        strings_view(r@) == kept_lines(
            strings_view(lines@),
            parsed@,
            lines@.len() as int,
            search_needle(search@),
            level.spec_to_level(),
        ),
{
    let ghost lv = strings_view(lines@);
    let wanted = level.to_level();
    let blank = trim(search).unicode_len() == 0;
    if blank && wanted.is_none() {
        proof {
            lemma_unfiltered_keeps_all(lv, parsed@, lv.len() as int);
            assert(lv.take(lv.len() as int) =~= lv);
        }
        return crate::domain::copy_strings(lines);
    }
    let needle: Option<String> = if blank {
        None
    } else {
        Some(to_lower(search))
    };
    let ghost nv: Option<Seq<char>> = match &needle {
        Some(s) => Some(s@),
        None => None,
    };
    assert(nv == search_needle(search@));
    let mut carried = LogLevel::Unknown;
    let mut out: Vec<String> = Vec::new();
    let mut i: usize = 0;
    while i < lines.len()
        invariant
            i <= lines@.len(),
            parsed@.len() == lines@.len(),
            lv == strings_view(lines@),
            nv == match &needle {
                Some(s) => Some(s@),
                None => None::<Seq<char>>,
            },
            carried == carried_level(parsed@, i as int),
            strings_view(out@) == kept_lines(lv, parsed@, i as int, nv, wanted),
        decreases lines@.len() - i,
    {
        match parsed[i] {
            Some(l) => {
                carried = l;
            },
            None => {},
        }
        let level_ok = match wanted {
            Some(w) => w == carried,
            None => true,
        };
        let keep = level_ok && match &needle {
            Some(n) => {
                let low = to_lower(lines[i].as_str());
                str_contains(low.as_str(), n.as_str())
            },
            None => true,
        };
        assert(lv[i as int] == lines@[i as int]@);
        if keep {
            let ghost before = out@;
            let c = lines[i].clone();
            out.push(c);
            proof {
                crate::domain::lemma_strings_view_push(before, c);
            }
        }
        i = i + 1;
    }
    out
}

/// A log file the cluster has written.
pub struct LogFile {
    pub name: String,
    pub path: String,
    pub kind: LogKind,
    pub size_bytes: u64,
}

pub open spec fn file_paths(files: Seq<LogFile>) -> Seq<Seq<char>> {
    files.map_values(|f: LogFile| f.path@)
}

pub open spec fn file_names(files: Seq<LogFile>) -> Seq<Seq<char>> {
    files.map_values(|f: LogFile| f.name@)
}

/// The first position at or after `from` that holds `target`, or -1.
pub open spec fn find_from(items: Seq<Seq<char>>, target: Seq<char>, from: int) -> int
    decreases items.len() - from,
{
    if from < 0 || from >= items.len() {
        -1
    } else if items[from] == target {
        from
    } else {
        find_from(items, target, from + 1)
    }
}

/// The file shown: the one already shown while it still exists, else
/// `latest.log`, else the first file; nothing when there are no files.
pub open spec fn selected_path(files: Seq<LogFile>, current: Seq<char>) -> Seq<char> {
    if files.len() == 0 {
        Seq::empty()
    } else if current.len() > 0 && file_paths(files).contains(current) {
        current
    } else if find_from(file_names(files), "latest.log"@, 0) >= 0 {
        files[find_from(file_names(files), "latest.log"@, 0)].path@
    } else {
        files[0].path@
    }
}

/// Where `target` first occurs in `items` at or after `from`.
fn position_from(items: &Vec<String>, target: &str, from: usize) -> (r: Option<usize>)
    requires
        from <= items@.len(),
    ensures
        match r {
            Some(k) => k as int == find_from(strings_view(items@), target@, from as int),
            None => find_from(strings_view(items@), target@, from as int) == -1,
        },
    decreases items@.len() - from,
{
    if from == items.len() {
        return None;
    }
    assert(strings_view(items@)[from as int] == items@[from as int]@);
    if str_eq(items[from].as_str(), target) {
        Some(from)
    } else {
        position_from(items, target, from + 1)
    }
}

proof fn lemma_find_from_contains(items: Seq<Seq<char>>, target: Seq<char>, from: int)
    requires
        0 <= from <= items.len(),
    ensures
        find_from(items, target, from) >= 0 <==> (exists|k: int| from <= k < items.len() && items[k] == target),
        find_from(items, target, from) >= 0 ==> from <= find_from(items, target, from) < items.len()
            && items[find_from(items, target, from)] == target,
    decreases items.len() - from,
{
    if from < items.len() {
        lemma_find_from_contains(items, target, from + 1);
        if items[from] != target {
            if exists|k: int| from <= k < items.len() && items[k] == target {
                let k = choose|k: int| from <= k < items.len() && items[k] == target;
                assert(from + 1 <= k);
            }
        }
    }
}

/// The path of the log file to show after the list of files changed.
pub fn next_selection(files: &Vec<LogFile>, current: &str) -> (r: String)
    ensures
        r@ == selected_path(files@, current@),
{
    if files.len() == 0 {
        return String::new();
    }
    let mut paths: Vec<String> = Vec::new();
    let mut names: Vec<String> = Vec::new();
    let mut i: usize = 0;
    while i < files.len()
        invariant
            i <= files@.len(),
            strings_view(paths@) == file_paths(files@).take(i as int),
            strings_view(names@) == file_names(files@).take(i as int),
        decreases files@.len() - i,
    {
        let ghost pb = paths@;
        let ghost nb = names@;
        let p = files[i].path.clone();
        let n = files[i].name.clone();
        paths.push(p);
        names.push(n);
        proof {
            crate::domain::lemma_strings_view_push(pb, p);
            crate::domain::lemma_strings_view_push(nb, n);
            assert(file_paths(files@).take(i + 1) =~= file_paths(files@).take(i as int).push(p@));
            assert(file_names(files@).take(i + 1) =~= file_names(files@).take(i as int).push(n@));
        }
        i = i + 1;
    }
    proof {
        assert(file_paths(files@).take(i as int) =~= file_paths(files@));
        assert(file_names(files@).take(i as int) =~= file_names(files@));
    }
    if current.unicode_len() > 0 {
        let at = position_from(&paths, current, 0);
        proof {
            lemma_find_from_contains(strings_view(paths@), current@, 0);
            if file_paths(files@).contains(current@) {
                let k = choose|k: int| 0 <= k < file_paths(files@).len() && file_paths(files@)[k] == current@;
                assert(0 <= k < strings_view(paths@).len() && strings_view(paths@)[k] == current@);
            }
        }
        if at.is_some() {
            return String::from_str(current);
        }
    }
    let latest = position_from(&names, "latest.log", 0);
    proof {
        lemma_find_from_contains(strings_view(names@), "latest.log"@, 0);
    }
    match latest {
        Some(k) => {
            assert(strings_view(names@)[k as int] == "latest.log"@);
            files[k].path.clone()
        },
        None => files[0].path.clone(),
    }
}

/// The label of the log picker: the shown file's name, or "No logs".
pub open spec fn picker_label_text(files: Seq<LogFile>, selected: Seq<char>) -> Seq<char> {
    let k = find_from(file_paths(files), selected, 0);
    if k >= 0 {
        files[k].name@
    } else {
        "No logs"@
    }
}

pub fn picker_label(files: &Vec<LogFile>, selected: &str) -> (r: String)
    ensures
        r@ == picker_label_text(files@, selected@),
{
    let mut paths: Vec<String> = Vec::new();
    let mut i: usize = 0;
    while i < files.len()
        invariant
            i <= files@.len(),
            strings_view(paths@) == file_paths(files@).take(i as int),
        decreases files@.len() - i,
    {
        let ghost pb = paths@;
        let p = files[i].path.clone();
        paths.push(p);
        proof {
            crate::domain::lemma_strings_view_push(pb, p);
            assert(file_paths(files@).take(i + 1) =~= file_paths(files@).take(i as int).push(p@));
        }
        i = i + 1;
    }
    assert(file_paths(files@).take(i as int) =~= file_paths(files@));
    match position_from(&paths, selected, 0) {
        Some(k) => {
            proof {
                lemma_find_from_contains(strings_view(paths@), selected@, 0);
            }
            files[k].name.clone()
        },
        None => String::from_str("No logs"),
    }
}

/// A file is listed under the picker's search: the search is empty, or the
/// lower-cased search occurs in the lower-cased name or badge.
pub open spec fn log_listed(name: Seq<char>, kind: LogKind, filter: Seq<char>) -> bool {
    let q = lowercase(filter);
    q.len() == 0 || has_infix(lowercase(name), q) || has_infix(lowercase(kind_badge_text(kind)), q)
}

pub fn log_matches(file: &LogFile, filter: &str) -> (r: bool)
    ensures
        r == log_listed(file.name@, file.kind, filter@),
{
    let q = to_lower(filter);
    if q.unicode_len() == 0 {
        return true;
    }
    let name = to_lower(file.name.as_str());
    if str_contains(name.as_str(), q.as_str()) {
        return true;
    }
    let badge = to_lower(kind_badge(file.kind));
    str_contains(badge.as_str(), q.as_str())
}

} // verus!
