//! A cluster's game settings: what each field shows, the change a typed value
//! asks for, and the Java and loader pickers; and the overview page.
use vstd::prelude::*;

use crate::browse::{all_digits, char_digit, digits_value};
use crate::domain::{opt_view, strings_view, GameLoader};
use crate::text::{decimal, decimal_string, str_eq, trim, trimmed};

verus! {

/// A change to one field of a settings profile: leave it, clear it back to
/// the global value, or set it.
#[derive(PartialEq, Eq, Debug)]
pub enum Patch<T> {
    Unchanged,
    Clear,
    Assign(T),
}

/// The changes sent for a cluster's settings profile, one per field; a new
/// update leaves every field unchanged.
pub struct ProfileUpdate {
    pub force_fullscreen: Patch<bool>,
    pub resolution: Patch<(u32, u32)>,
    pub mem_max: Patch<u32>,
    pub java_path: Patch<String>,
    pub hook_pre: Patch<String>,
    pub hook_wrapper: Patch<String>,
    pub hook_post: Patch<String>,
}

/// The fields of a profile that can be reset to the global value.
#[derive(Clone, Copy, PartialEq, Eq, Debug, Structural)]
pub enum Field {
    ForceFullscreen,
    Resolution,
    MemMax,
    JavaPath,
}

/// The launch commands a profile holds.
#[derive(Clone, Copy, PartialEq, Eq, Debug, Structural)]
pub enum TextField {
    Pre,
    Wrapper,
    Post,
}

impl ProfileUpdate {
    /// Every field other than the hooks is unchanged.
    pub open spec fn only_hooks(&self) -> bool {
        &&& self.force_fullscreen is Unchanged
        &&& self.resolution is Unchanged
        &&& self.mem_max is Unchanged
        &&& self.java_path is Unchanged
    }

    /// An update that changes nothing.
    pub fn unchanged() -> (r: ProfileUpdate)
        ensures
            r.only_hooks(),
            r.hook_pre is Unchanged,
            r.hook_wrapper is Unchanged,
            r.hook_post is Unchanged,
    {
        ProfileUpdate {
            force_fullscreen: Patch::Unchanged,
            resolution: Patch::Unchanged,
            mem_max: Patch::Unchanged,
            java_path: Patch::Unchanged,
            hook_pre: Patch::Unchanged,
            hook_wrapper: Patch::Unchanged,
            hook_post: Patch::Unchanged,
        }
    }
}

/// The update that resets `field` to the global value and leaves every
/// other field unchanged.
pub fn clear_update(field: Field) -> (r: ProfileUpdate)
    ensures
        r.force_fullscreen == (if field == Field::ForceFullscreen { Patch::Clear } else { Patch::<bool>::Unchanged }),
        r.resolution == (if field == Field::Resolution { Patch::Clear } else { Patch::<(u32, u32)>::Unchanged }),
        r.mem_max == (if field == Field::MemMax { Patch::Clear } else { Patch::<u32>::Unchanged }),
        (if field == Field::JavaPath { r.java_path is Clear } else { r.java_path is Unchanged }),
        r.hook_pre is Unchanged,
        r.hook_wrapper is Unchanged,
        r.hook_post is Unchanged,
{
    let mut u = ProfileUpdate::unchanged();
    match field {
        Field::ForceFullscreen => u.force_fullscreen = Patch::Clear,
        Field::Resolution => u.resolution = Patch::Clear,
        Field::MemMax => u.mem_max = Patch::Clear,
        Field::JavaPath => u.java_path = Patch::Clear,
    }
    u
}

/// The patch `p` as a patch of character sequences.
pub open spec fn patch_view(p: Patch<String>) -> Patch<Seq<char>> {
    match p {
        Patch::Unchanged => Patch::Unchanged,
        Patch::Clear => Patch::Clear,
        Patch::Assign(v) => Patch::Assign(v@),
    }
}

impl TextField {
    /// The update that applies `value` to this command and leaves every
    /// other field unchanged.
    pub fn patch(self, value: Patch<String>) -> (r: ProfileUpdate)
        ensures
            r.only_hooks(),
            patch_view(r.hook_pre) == (if self == TextField::Pre { patch_view(value) } else { Patch::Unchanged }),
            patch_view(r.hook_wrapper) == (if self == TextField::Wrapper { patch_view(value) } else { Patch::Unchanged }),
            patch_view(r.hook_post) == (if self == TextField::Post { patch_view(value) } else { Patch::Unchanged }),
    {
        let mut u = ProfileUpdate::unchanged();
        match self {
            TextField::Pre => u.hook_pre = value,
            TextField::Wrapper => u.hook_wrapper = value,
            TextField::Post => u.hook_post = value,
        }
        u
    }
}

/// What `str::parse::<u32>` gives: an optional `+`, then at least one
/// decimal digit, spelling a number that fits in 32 bits.
pub open spec fn parse_u32_text(s: Seq<char>) -> Option<u32> {
    let d = if s.len() > 0 && s[0] == '+' {
        s.drop_first()
    } else {
        s
    };
    if d.len() > 0 && all_digits(d) && digits_value(d) <= u32::MAX {
        Some(digits_value(d) as u32)
    } else {
        None
    }
}

proof fn lemma_digit_round_trip(d: nat)
    requires
        d < 10,
    ensures
        char_digit(crate::text::digit_char(d)) == Some(d),
        crate::text::digit_char(d) != '+',
{
}

proof fn lemma_decimal_digits(n: nat)
    ensures
        decimal(n).len() > 0,
        all_digits(decimal(n)),
        digits_value(decimal(n)) == n,
        decimal(n)[0] != '+',
    decreases n,
{
    if n < 10 {
        lemma_digit_round_trip(n);
        assert(decimal(n) == seq![crate::text::digit_char(n)]);
        assert(decimal(n).drop_last() =~= Seq::<char>::empty());
        assert(decimal(n).last() == crate::text::digit_char(n));
        assert(digits_value(decimal(n)) == digits_value(Seq::<char>::empty()) * 10 + n);
    } else {
        lemma_decimal_digits(n / 10);
        lemma_digit_round_trip(n % 10);
        let s = decimal(n);
        let h = decimal(n / 10);
        assert(s == h.push(crate::text::digit_char(n % 10)));
        assert(s.drop_last() =~= h);
        assert(s[0] == h[0]);
        assert forall|i: int| 0 <= i < s.len() implies (#[trigger] char_digit(s[i])) is Some by {
            if i < h.len() {
                assert(s[i] == h[i]);
                assert(char_digit(h[i]) is Some);
            }
        }
        assert(s.last() == crate::text::digit_char(n % 10));
        assert(digits_value(s) == digits_value(h) * 10 + n % 10);
        assert((n / 10) * 10 + n % 10 == n) by (nonlinear_arith);
    }
}

/// A count written out in decimal reads back as the same count.
pub proof fn law_count_round_trip(n: u32)
    ensures
        parse_u32_text(decimal(n as nat)) == Some(n),
{
    lemma_decimal_digits(n as nat);
}

fn digit_value(c: char) -> (r: Option<u64>)
    ensures
        match r {
            Some(d) => char_digit(c) == Some(d as nat),
            None => char_digit(c) is None,
        },
{
    if c == '0' { Some(0) }
    else if c == '1' { Some(1) }
    else if c == '2' { Some(2) }
    else if c == '3' { Some(3) }
    else if c == '4' { Some(4) }
    else if c == '5' { Some(5) }
    else if c == '6' { Some(6) }
    else if c == '7' { Some(7) }
    else if c == '8' { Some(8) }
    else if c == '9' { Some(9) }
    else { None }
}

/// Parses a 32-bit count written in decimal.
pub fn parse_u32(s: &str) -> (r: Option<u32>)
    ensures
        r == parse_u32_text(s@),
{
    let n = s.unicode_len();
    let start: usize = if n > 0 && s.get_char(0) == '+' {
        1
    } else {
        0
    };
    let ghost d = s@.subrange(start as int, n as int);
    assert(d =~= (if s@.len() > 0 && s@[0] == '+' { s@.drop_first() } else { s@ }));
    if start == n {
        return None;
    }
    let cap: u64 = 0x1_0000_0000;
    let mut acc: u64 = 0;
    let mut i: usize = start;
    while i < n
        invariant
            start <= i <= n,
            n == s@.len(),
            cap == 0x1_0000_0000,
            d == s@.subrange(start as int, n as int),
            d == (if s@.len() > 0 && s@[0] == '+' { s@.drop_first() } else { s@ }),
            all_digits(s@.subrange(start as int, i as int)),
            acc as nat == if digits_value(s@.subrange(start as int, i as int)) < cap {
                digits_value(s@.subrange(start as int, i as int))
            } else {
                cap as nat
            },
        decreases n - i,
    {
        let c = s.get_char(i);
        let ghost pre = s@.subrange(start as int, i as int);
        let ghost next = s@.subrange(start as int, i + 1);
        assert(next.drop_last() =~= pre);
        assert(next.last() == c);
        match digit_value(c) {
            None => {
                assert(d[i - start] == c);
                assert(char_digit(d[i - start]) is None);
                assert(!all_digits(d));
                return None;
            },
            Some(v) => {
                let t = acc * 10 + v;
                acc = if t < cap {
                    t
                } else {
                    cap
                };
                assert(all_digits(next)) by {
                    assert forall|k: int| 0 <= k < next.len() implies (#[trigger] char_digit(next[k])) is Some by {
                        if k < pre.len() {
                            assert(next[k] == pre[k]);
                        }
                    }
                }
            },
        }
        i = i + 1;
    }
    assert(s@.subrange(start as int, i as int) =~= d);
    if acc < cap {
        Some(acc as u32)
    } else {
        None
    }
}

/// The change a typed memory value asks for: clearing when blank, setting a
/// number, nothing for anything else.
pub open spec fn memory_patch_of(raw: Seq<char>) -> Patch<u32> {
    let t = trimmed(raw);
    if t.len() == 0 {
        Patch::Clear
    } else {
        match parse_u32_text(t) {
            Some(v) => Patch::Assign(v),
            None => Patch::Unchanged,
        }
    }
}

pub fn memory_patch(raw: &str) -> (r: Patch<u32>)
    ensures
        r == memory_patch_of(raw@),
{
    let t = trim(raw);
    if t.unicode_len() == 0 {
        Patch::Clear
    } else {
        match parse_u32(t) {
            Some(v) => Patch::Assign(v),
            None => Patch::Unchanged,
        }
    }
}

/// The change typed width and height ask for: clearing when both are blank,
/// setting when both are numbers, nothing otherwise.
pub open spec fn resolution_patch_of(w: Seq<char>, h: Seq<char>) -> Patch<(u32, u32)> {
    let (tw, th) = (trimmed(w), trimmed(h));
    if tw.len() == 0 && th.len() == 0 {
        Patch::Clear
    } else {
        match (parse_u32_text(tw), parse_u32_text(th)) {
            (Some(a), Some(b)) => Patch::Assign((a, b)),
            _ => Patch::Unchanged,
        }
    }
}

pub fn resolution_patch(w: &str, h: &str) -> (r: Patch<(u32, u32)>)
    ensures
        r == resolution_patch_of(w@, h@),
{
    let tw = trim(w);
    let th = trim(h);
    if tw.unicode_len() == 0 && th.unicode_len() == 0 {
        Patch::Clear
    } else {
        match (parse_u32(tw), parse_u32(th)) {
            (Some(a), Some(b)) => Patch::Assign((a, b)),
            _ => Patch::Unchanged,
        }
    }
}

/// The change a typed launch command asks for: clearing when blank, else the
/// trimmed command.
pub fn command_patch(raw: &str) -> (r: Patch<String>)
    ensures
        match r {
            Patch::Clear => trimmed(raw@).len() == 0,
            Patch::Assign(v) => trimmed(raw@).len() > 0 && v@ == trimmed(raw@),
            Patch::Unchanged => false,
        },
{
    let t = trim(raw);
    if t.unicode_len() == 0 {
        Patch::Clear
    } else {
        Patch::Assign(String::from_str(t))
    }
}

/// A typed value is sent only when it differs from the last one sent.
pub fn should_send(raw: &str, last: &str) -> (r: bool)
    ensures
        r == (raw@ != last@),
{
    !str_eq(raw, last)
}

/// A field shows the cluster's own value, else the global one; it can be
/// reset while the cluster has its own.
pub fn field_state(value: Option<u32>, global: u32) -> (r: (u32, bool))
    ensures
        r.0 == match value {
            Some(v) => v,
            None => global,
        },
        r.1 == value is Some,
{
    match value {
        Some(v) => (v, true),
        None => (global, false),
    }
}

/// The global memory when none is set: 4096 MB.
pub fn global_memory(global: Option<u32>) -> (r: u32)
    ensures
        r == match global {
            Some(g) => g,
            None => 4096,
        },
{
    match global {
        Some(g) => g,
        None => 4096,
    }
}

/// An installed Java runtime.
pub struct JavaRuntime {
    pub vendor: String,
    pub major: u32,
    pub version: String,
    pub absolute_path: String,
}

pub open spec fn runtime_label_text(r: JavaRuntime) -> Seq<char> {
    r.vendor@ + " "@ + decimal(r.major as nat) + " ("@ + r.version@ + ")"@
}

/// How a runtime is named in the picker.
pub fn runtime_label(r: &JavaRuntime) -> (s: String)
    ensures
        s@ == runtime_label_text(*r),
{
    let mut s = r.vendor.clone();
    s.append(" ");
    s.append(decimal_string(r.major as u64).as_str());
    s.append(" (");
    s.append(r.version.as_str());
    s.append(")");
    s
}

/// The first runtime at or after `from` installed at `path`.
pub open spec fn runtime_at(rs: Seq<JavaRuntime>, path: Seq<char>, from: int) -> Option<int>
    decreases rs.len() - from,
{
    if from < 0 || from >= rs.len() {
        None
    } else if rs[from].absolute_path@ == path {
        Some(from)
    } else {
        runtime_at(rs, path, from + 1)
    }
}

/// The runtime picker's label: the runtime in effect (the cluster's, else the
/// global one), or "Automatic".
pub open spec fn java_selected_text(rs: Seq<JavaRuntime>, value: Option<Seq<char>>, global: Option<Seq<char>>) -> Seq<char> {
    let resolved = match value {
        Some(v) => Some(v),
        None => global,
    };
    match resolved {
        Some(p) => match runtime_at(rs, p, 0) {
            Some(k) => runtime_label_text(rs[k]),
            None => "Automatic"@,
        },
        None => "Automatic"@,
    }
}

proof fn lemma_runtime_at_range(rs: Seq<JavaRuntime>, path: Seq<char>, from: int)
    requires
        0 <= from,
    ensures
        runtime_at(rs, path, from) matches Some(k) ==> from <= k < rs.len(),
    decreases rs.len() - from,
{
    if from < rs.len() && rs[from].absolute_path@ != path {
        lemma_runtime_at_range(rs, path, from + 1);
    }
}

pub fn java_selected(runtimes: &Vec<JavaRuntime>, value: Option<&String>, global: Option<&String>) -> (r: String)
    ensures
        r@ == java_selected_text(runtimes@, match value {
            Some(v) => Some(v@),
            None => None,
        }, match global {
            Some(g) => Some(g@),
            None => None,
        }),
{
    let resolved = match value {
        Some(v) => Some(v),
        None => global,
    };
    match resolved {
        Some(p) => {
            let mut i: usize = 0;
            while i < runtimes.len()
                invariant
                    i <= runtimes@.len(),
                    runtime_at(runtimes@, p@, 0) == runtime_at(runtimes@, p@, i as int),
                    (match value {
                        Some(v) => Some(v@),
                        None => match global {
                            Some(g) => Some(g@),
                            None => None,
                        },
                    }) == Some(p@),
                decreases runtimes@.len() - i,
            {
                if str_eq(runtimes[i].absolute_path.as_str(), p.as_str()) {
                    return runtime_label(&runtimes[i]);
                }
                i = i + 1;
            }
            String::from_str("Automatic")
        },
        None => String::from_str("Automatic"),
    }
}

/// The options of the runtime picker: "Automatic", then every runtime.
pub fn java_options(runtimes: &Vec<JavaRuntime>) -> (r: Vec<String>)
    ensures
        r@.len() == runtimes@.len() + 1,
        r@[0]@ == "Automatic"@,
        forall|k: int| 0 <= k < runtimes@.len() ==> (#[trigger] r@[k + 1])@ == runtime_label_text(runtimes@[k]),
{
    let mut out: Vec<String> = Vec::new();
    out.push(String::from_str("Automatic"));
    let mut i: usize = 0;
    while i < runtimes.len()
        invariant
            i <= runtimes@.len(),
            out@.len() == i + 1,
            out@[0]@ == "Automatic"@,
            forall|k: int| 0 <= k < i ==> (#[trigger] out@[k + 1])@ == runtime_label_text(runtimes@[k]),
        decreases runtimes@.len() - i,
    {
        out.push(runtime_label(&runtimes[i]));
        i = i + 1;
    }
    out
}

/// The change picking option `idx` asks for: "Automatic" clears the runtime,
/// another option sets that runtime's path.
pub fn java_pick(runtimes: &Vec<JavaRuntime>, idx: usize) -> (r: Patch<String>)
    ensures
        idx == 0 ==> r == Patch::<String>::Clear,
        0 < idx <= runtimes@.len() ==> (r matches Patch::Assign(p) && p@ == runtimes@[idx - 1].absolute_path@),
        idx > runtimes@.len() ==> r == Patch::<String>::Unchanged,
{
    if idx == 0 {
        Patch::Clear
    } else if idx - 1 < runtimes.len() {
        Patch::Assign(runtimes[idx - 1].absolute_path.clone())
    } else {
        Patch::Unchanged
    }
}

/// The loader version the picker shows: the cluster's, else the first
/// offered, else "Latest".
pub fn loader_version_shown(selected: Option<&String>, versions: &Vec<String>) -> (r: String)
    ensures
        r@ == match selected {
            Some(s) => s@,
            None => if versions@.len() > 0 {
                versions@[0]@
            } else {
                "Latest"@
            },
        },
{
    match selected {
        Some(s) => s.clone(),
        None => if versions.len() > 0 {
            versions[0].clone()
        } else {
            String::from_str("Latest")
        },
    }
}

/// The description of the loader-version row.
pub fn loader_row_text(loader: GameLoader) -> (r: String)
    ensures
        r@ == "The "@ + loader.spec_label() + " loader version used to launch this cluster."@,
{
    crate::text::join3("The ", loader.label(), " loader version used to launch this cluster.")
}

/// What the overview page shows: a note while the history loads, the
/// placeholder before any session, else the analytics.
#[derive(Clone, Copy, PartialEq, Eq, Debug, Structural)]
pub enum OverviewBody {
    Loading,
    Placeholder,
    Analytics,
}

pub fn overview_body(loaded: bool, session_count: u64) -> (r: OverviewBody)
    ensures
        r == (if !loaded {
            OverviewBody::Loading
        } else if session_count == 0 {
            OverviewBody::Placeholder
        } else {
            OverviewBody::Analytics
        }),
{
    if !loaded {
        OverviewBody::Loading
    } else if session_count == 0 {
        OverviewBody::Placeholder
    } else {
        OverviewBody::Analytics
    }
}

/// The overview's subtitle.
pub fn overview_subtitle(name: &str) -> (r: String)
    ensures
        r@ == "Play history & servers for "@ + name@,
{
    crate::text::join2("Play history & servers for ", name)
}

} // verus!
