//! The versions page: the versions the user can play, which instance the
//! side panel shows, and what its launch button and summary say.
use vstd::prelude::*;

use crate::domain::GameLoader;
use crate::order::{chars_lt, lemma_le_total_preorder, seq_le};
use crate::text::{chars_of, str_eq};

verus! {

/// How far a launch has got.
#[derive(Clone, Copy, PartialEq, Eq, Debug, Structural)]
pub enum LaunchStage {
    Checking,
    Downloading,
    Launching,
    Running,
    Exited,
}

/// The launch button's label and whether it can be pressed: busy while a
/// launch is under way, and blocked while the startup bundles still sync.
pub open spec fn launch_state(stage: Option<LaunchStage>, syncing: bool) -> (Seq<char>, bool) {
    match stage {
        Some(LaunchStage::Checking) => ("Checking"@, false),
        Some(LaunchStage::Downloading) => ("Downloading"@, false),
        Some(LaunchStage::Launching) => ("Launching"@, false),
        Some(LaunchStage::Running) => ("Running"@, false),
        _ => ("Launch"@, !syncing),
    }
}

/// `stage` is the stage of the cluster's launch, if one is known.
pub fn launch_button_state(stage: Option<LaunchStage>, syncing: bool) -> (r: (&'static str, bool))
    ensures
        (r.0@, r.1) == launch_state(stage, syncing),
{
    let state: (&'static str, bool) = match stage {
        Some(LaunchStage::Checking) => ("Checking", false),
        Some(LaunchStage::Downloading) => ("Downloading", false),
        Some(LaunchStage::Launching) => ("Launching", false),
        Some(LaunchStage::Running) => ("Running", false),
        _ => ("Launch", true),
    };
    if syncing && state.1 {
        return (state.0, false);
    }
    state
}

/// A version the user can play: a game version with a loader. `rank` is the
/// version's (major, minor, patch) as it parses, with a missing part read as
/// 0 and an unparsable version as (0, 0, 0).
pub struct VersionTarget {
    pub version: String,
    pub loader: GameLoader,
    pub rank: (u32, u32, u32),
}

pub struct VersionTargetView {
    pub version: Seq<char>,
    pub loader: GameLoader,
    pub rank: (u32, u32, u32),
}

impl View for VersionTarget {
    type V = VersionTargetView;

    open spec fn view(&self) -> VersionTargetView {
        VersionTargetView { version: self.version@, loader: self.loader, rank: self.rank }
    }
}

pub open spec fn targets_view(ts: Seq<VersionTarget>) -> Seq<VersionTargetView> {
    ts.map_values(|t: VersionTarget| t@)
}

/// `a` is an older version number than `b`.
pub open spec fn rank_lt(a: (u32, u32, u32), b: (u32, u32, u32)) -> bool {
    a.0 < b.0 || (a.0 == b.0 && (a.1 < b.1 || (a.1 == b.1 && a.2 < b.2)))
}

/// `a` may be listed before `b`: newer versions first, and for one version
/// the loaders in the order of their names.
pub open spec fn target_le(a: VersionTargetView, b: VersionTargetView) -> bool {
    rank_lt(b.rank, a.rank) || (a.rank == b.rank && seq_le(a.loader.spec_label(), b.loader.spec_label()))
}

/// Neither of `a` and `b` goes before the other.
pub open spec fn target_tie(a: VersionTargetView, b: VersionTargetView) -> bool {
    a.rank == b.rank && a.loader.spec_label() == b.loader.spec_label()
}

pub proof fn lemma_target_le_preorder(a: VersionTargetView, b: VersionTargetView, c: VersionTargetView)
    ensures
        target_le(a, a),
        target_le(a, b) || target_le(b, a),
        target_le(a, b) && target_le(b, c) ==> target_le(a, c),
        target_le(a, b) && target_le(b, a) ==> target_tie(a, b),
{
    let (la, lb, lc) = (a.loader.spec_label(), b.loader.spec_label(), c.loader.spec_label());
    lemma_le_total_preorder(la, lb, lc);
    lemma_le_total_preorder(lc, lb, la);
    lemma_le_total_preorder(lb, la, lc);
    crate::order::lemma_lt_total(la, lb);
}

/// `s` holds the version and loader of `t`.
pub open spec fn has_target(s: Seq<VersionTargetView>, t: VersionTargetView) -> bool {
    exists|j: int| 0 <= j < s.len() && #[trigger] s[j].version == t.version && s[j].loader == t.loader
}

/// The targets of `input` with repeats left out, each where it first occurs.
pub open spec fn dedup_targets(input: Seq<VersionTargetView>) -> Seq<VersionTargetView>
    decreases input.len(),
{
    if input.len() == 0 {
        Seq::empty()
    } else {
        let before = dedup_targets(input.drop_last());
        if has_target(before, input.last()) {
            before
        } else {
            before.push(input.last())
        }
    }
}

/// `perm` takes `input` to `output`, which is in `target_le` order with
/// ties kept in input order.
pub open spec fn targets_perm(input: Seq<VersionTargetView>, output: Seq<VersionTargetView>, perm: Seq<int>) -> bool {
    &&& perm.len() == input.len()
    &&& output.len() == input.len()
    &&& forall|i: int|
        0 <= i < output.len() ==> 0 <= #[trigger] perm[i] < input.len() && output[i] == input[perm[i]]
    &&& forall|i: int, j: int| 0 <= i < j < perm.len() ==> perm[i] != perm[j]
    &&& forall|i: int, j: int|
        0 <= i < j < output.len() ==> target_le(#[trigger] output[i], #[trigger] output[j])
    &&& forall|i: int, j: int|
        0 <= i < j < output.len() && target_tie(#[trigger] output[i], #[trigger] output[j]) ==> perm[i]
            < perm[j]
}

/// `output` is `input` reordered by `target_le`, ties kept in input order.
pub open spec fn sorted_targets_of(input: Seq<VersionTargetView>, output: Seq<VersionTargetView>) -> bool {
    exists|perm: Seq<int>| targets_perm(input, output, perm)
}

fn copy_target(t: &VersionTarget) -> (r: VersionTarget)
    ensures
        r@ == t@,
{
    VersionTarget { version: t.version.clone(), loader: t.loader, rank: t.rank }
}

fn contains_target(ts: &Vec<VersionTarget>, t: &VersionTarget) -> (r: bool)
    ensures
        r == has_target(targets_view(ts@), t@),
{
    let mut i: usize = 0;
    while i < ts.len()
        invariant
            i <= ts@.len(),
            forall|j: int| 0 <= j < i ==> !(#[trigger] targets_view(ts@)[j].version == t@.version && targets_view(ts@)[j].loader == t@.loader),
        decreases ts@.len() - i,
    {
        assert(targets_view(ts@)[i as int] == ts@[i as int]@);
        if ts[i].loader == t.loader && str_eq(ts[i].version.as_str(), t.version.as_str()) {
            assert(targets_view(ts@)[i as int].version == t@.version);
            return true;
        }
        i = i + 1;
    }
    assert forall|j: int| 0 <= j < targets_view(ts@).len() implies !(#[trigger] targets_view(ts@)[j].version == t@.version
        && targets_view(ts@)[j].loader == t@.loader) by {}
    false
}

/// `rank_lt(a, b)`.
fn rank_less(a: (u32, u32, u32), b: (u32, u32, u32)) -> (r: bool)
    ensures
        r == rank_lt(a, b),
{
    a.0 < b.0 || (a.0 == b.0 && (a.1 < b.1 || (a.1 == b.1 && a.2 < b.2)))
}

fn le_at(ts: &Vec<VersionTarget>, labels: &Vec<Vec<char>>, a: usize, b: usize) -> (r: bool)
    requires
        a < ts@.len(),
        b < ts@.len(),
        labels@.len() == ts@.len(),
        forall|j: int| 0 <= j < ts@.len() ==> (#[trigger] labels@[j])@ == ts@[j].loader.spec_label(),
    ensures
        r == target_le(ts@[a as int]@, ts@[b as int]@),
{
    let ra = ts[a].rank;
    let rb = ts[b].rank;
    assert(labels@[a as int]@ == ts@[a as int].loader.spec_label());
    assert(labels@[b as int]@ == ts@[b as int].loader.spec_label());
    rank_less(rb, ra) || (ra.0 == rb.0 && ra.1 == rb.1 && ra.2 == rb.2 && !chars_lt(labels[b].as_slice(), labels[a].as_slice()))
}

/// Sorts `ts` stably by `target_le`.
fn sort_targets(ts: Vec<VersionTarget>) -> (r: Vec<VersionTarget>)
    ensures
        sorted_targets_of(targets_view(ts@), targets_view(r@)),
{
    let ghost iv = targets_view(ts@);
    let n = ts.len();
    let mut labels: Vec<Vec<char>> = Vec::new();
    let mut k: usize = 0;
    while k < n
        invariant
            n == ts@.len(),
            k <= n,
            labels@.len() == k,
            forall|j: int| 0 <= j < k ==> (#[trigger] labels@[j])@ == ts@[j].loader.spec_label(),
        decreases n - k,
    {
        labels.push(chars_of(ts[k].loader.label()));
        k = k + 1;
    }
    let mut order: Vec<usize> = Vec::new();
    let mut i: usize = 0;
    while i < n
        invariant
            n == ts@.len(),
            iv == targets_view(ts@),
            i <= n,
            labels@.len() == n,
            forall|j: int| 0 <= j < n ==> (#[trigger] labels@[j])@ == ts@[j].loader.spec_label(),
            order@.len() == i,
            forall|a: int| 0 <= a < i ==> #[trigger] order@[a] < i,
            forall|a: int, b: int| 0 <= a < b < i ==> order@[a] != order@[b],
            forall|a: int, b: int|
                0 <= a < b < i ==> target_le(iv[#[trigger] order@[a] as int], iv[#[trigger] order@[b] as int]),
            forall|a: int, b: int|
                0 <= a < b < i && target_tie(iv[#[trigger] order@[a] as int], iv[#[trigger] order@[b] as int])
                    ==> order@[a] < order@[b],
        decreases n - i,
    {
        let mut p: usize = i;
        while p > 0 && !le_at(&ts, &labels, order[p - 1], i)
            invariant
                n == ts@.len(),
                iv == targets_view(ts@),
                i < n,
                labels@.len() == n,
                forall|j: int| 0 <= j < n ==> (#[trigger] labels@[j])@ == ts@[j].loader.spec_label(),
                order@.len() == i,
                forall|a: int| 0 <= a < i ==> #[trigger] order@[a] < i,
                p <= i,
                forall|q: int| p <= q < i ==> !target_le(iv[#[trigger] order@[q] as int], iv[i as int]),
            decreases p,
        {
            proof {
                assert(iv[order@[p - 1] as int] == ts@[order@[p - 1] as int]@);
                assert(iv[i as int] == ts@[i as int]@);
            }
            p = p - 1;
        }
        let ghost o = order@;
        proof {
            if p > 0 {
                assert(iv[o[p - 1] as int] == ts@[o[p - 1] as int]@);
                assert(iv[i as int] == ts@[i as int]@);
            }
            assert(p == 0 || target_le(iv[o[p - 1] as int], iv[i as int]));
            assert forall|a: int, b: int| 0 <= a < b < i + 1 implies target_le(
                iv[#[trigger] o.insert(p as int, i)[a] as int],
                iv[#[trigger] o.insert(p as int, i)[b] as int],
            ) by {
                let no = o.insert(p as int, i);
                if b < p {
                } else if b == p {
                    if a < p - 1 {
                        lemma_target_le_preorder(iv[o[a] as int], iv[o[p - 1] as int], iv[i as int]);
                    }
                } else if a == p {
                    lemma_target_le_preorder(iv[i as int], iv[o[b - 1] as int], iv[i as int]);
                } else if a < p {
                    assert(no[a] == o[a]);
                    assert(no[b] == o[b - 1]);
                } else {
                    assert(no[a] == o[a - 1]);
                    assert(no[b] == o[b - 1]);
                }
            }
            assert forall|a: int, b: int|
                0 <= a < b < i + 1 && target_tie(
                    iv[#[trigger] o.insert(p as int, i)[a] as int],
                    iv[#[trigger] o.insert(p as int, i)[b] as int],
                ) implies o.insert(p as int, i)[a] < o.insert(p as int, i)[b] by {
                let no = o.insert(p as int, i);
                if b < p {
                } else if b == p {
                } else if a == p {
                    lemma_target_le_preorder(iv[i as int], iv[o[b - 1] as int], iv[i as int]);
                } else if a < p {
                    assert(no[a] == o[a]);
                    assert(no[b] == o[b - 1]);
                } else {
                    assert(no[a] == o[a - 1]);
                    assert(no[b] == o[b - 1]);
                }
            }
            assert forall|a: int, b: int| 0 <= a < b < i + 1 implies o.insert(p as int, i)[a] != o.insert(
                p as int,
                i,
            )[b] by {
                let no = o.insert(p as int, i);
                if b < p {
                } else if b == p {
                } else if a == p {
                    assert(no[b] == o[b - 1]);
                } else if a < p {
                    assert(no[b] == o[b - 1]);
                } else {
                    assert(no[a] == o[a - 1]);
                    assert(no[b] == o[b - 1]);
                }
            }
            assert forall|a: int| 0 <= a < i + 1 implies #[trigger] o.insert(p as int, i)[a] < i + 1 by {
                if a < p {
                } else if a > p {
                    assert(o.insert(p as int, i)[a] == o[a - 1]);
                }
            }
        }
        order.insert(p, i);
        assert(order@ == o.insert(p as int, i));
        i = i + 1;
    }
    let mut out: Vec<VersionTarget> = Vec::new();
    let mut j: usize = 0;
    while j < n
        invariant
            n == ts@.len(),
            iv == targets_view(ts@),
            order@.len() == n,
            forall|a: int| 0 <= a < n ==> #[trigger] order@[a] < n,
            j <= n,
            out@.len() == j,
            forall|a: int| 0 <= a < j ==> (#[trigger] out@[a])@ == iv[order@[a] as int],
        decreases n - j,
    {
        let t = copy_target(&ts[order[j]]);
        out.push(t);
        j = j + 1;
    }
    let ghost perm = order@.map_values(|x: usize| x as int);
    let ghost ov = targets_view(out@);
    assert(ov.len() == iv.len());
    assert(forall|a: int| 0 <= a < ov.len() ==> 0 <= #[trigger] perm[a] < iv.len() && ov[a] == iv[perm[a]]) by {
        assert forall|a: int| 0 <= a < ov.len() implies 0 <= #[trigger] perm[a] < iv.len() && ov[a] == iv[perm[a]] by {
            assert(ov[a] == out@[a]@);
        }
    }
    assert(forall|a: int, b: int| 0 <= a < b < ov.len() ==> target_le(#[trigger] ov[a], #[trigger] ov[b])) by {
        assert forall|a: int, b: int| 0 <= a < b < ov.len() implies target_le(#[trigger] ov[a], #[trigger] ov[b]) by {
            assert(ov[a] == iv[order@[a] as int]);
            assert(ov[b] == iv[order@[b] as int]);
        }
    }
    assert(forall|a: int, b: int|
        0 <= a < b < ov.len() && target_tie(#[trigger] ov[a], #[trigger] ov[b]) ==> perm[a] < perm[b]) by {
        assert forall|a: int, b: int|
            0 <= a < b < ov.len() && target_tie(#[trigger] ov[a], #[trigger] ov[b]) implies perm[a] < perm[b] by {
            assert(ov[a] == iv[order@[a] as int]);
            assert(ov[b] == iv[order@[b] as int]);
        }
    }
    assert(forall|a: int, b: int| 0 <= a < b < perm.len() ==> perm[a] != perm[b]) by {
        assert forall|a: int, b: int| 0 <= a < b < perm.len() implies perm[a] != perm[b] by {
            assert(order@[a] != order@[b]);
        }
    }
    assert(targets_perm(iv, ov, perm));
    out
}

/// No two entries share a version and a loader.
pub open spec fn targets_distinct(s: Seq<VersionTargetView>) -> bool {
    forall|i: int, j: int|
        0 <= i < j < s.len() ==> !((#[trigger] s[i]).version == (#[trigger] s[j]).version && s[i].loader
            == s[j].loader)
}

proof fn lemma_has_target_push(s: Seq<VersionTargetView>, x: VersionTargetView, t: VersionTargetView)
    ensures
        has_target(s.push(x), t) <==> has_target(s, t) || (x.version == t.version && x.loader == t.loader),
{
    let p = s.push(x);
    if has_target(p, t) {
        let j = choose|j: int| 0 <= j < p.len() && #[trigger] p[j].version == t.version && p[j].loader == t.loader;
        if j < s.len() {
            assert(s[j] == p[j]);
        }
    }
    if has_target(s, t) {
        let j = choose|j: int| 0 <= j < s.len() && #[trigger] s[j].version == t.version && s[j].loader == t.loader;
        assert(p[j] == s[j]);
    }
    if x.version == t.version && x.loader == t.loader {
        assert(p[s.len() as int] == x);
    }
}

proof fn lemma_dedup_targets(input: Seq<VersionTargetView>)
    ensures
        targets_distinct(dedup_targets(input)),
        forall|t: VersionTargetView| #[trigger] has_target(dedup_targets(input), t) <==> has_target(input, t),
    decreases input.len(),
{
    if input.len() > 0 {
        let init = input.drop_last();
        let x = input.last();
        lemma_dedup_targets(init);
        let before = dedup_targets(init);
        assert(init.push(x) =~= input);
        assert forall|t: VersionTargetView| #[trigger] has_target(dedup_targets(input), t) <==> has_target(input, t) by {
            lemma_has_target_push(init, x, t);
            lemma_has_target_push(before, x, t);
            if has_target(before, x) && x.version == t.version && x.loader == t.loader {
                let j = choose|j: int|
                    0 <= j < before.len() && #[trigger] before[j].version == x.version && before[j].loader == x.loader;
                assert(before[j].version == t.version && before[j].loader == t.loader);
            }
        }
        if !has_target(before, x) {
            let d = before.push(x);
            assert forall|i: int, j: int| 0 <= i < j < d.len() implies !((#[trigger] d[i]).version == (
            #[trigger] d[j]).version && d[i].loader == d[j].loader) by {
                if j == before.len() {
                    assert(d[i] == before[i]);
                    if d[i].version == x.version && d[i].loader == x.loader {
                        assert(before[i].version == x.version && before[i].loader == x.loader);
                    }
                } else {
                    assert(d[i] == before[i] && d[j] == before[j]);
                }
            }
        }
    }
}

/// The versions page lists each version with a loader once, and exactly
/// those that the bundles and the user's own instances have.
pub proof fn law_targets_listed_once(input: Seq<VersionTargetView>, output: Seq<VersionTargetView>)
    requires
        sorted_targets_of(dedup_targets(input), output),
    ensures
        targets_distinct(output),
        forall|t: VersionTargetView| #[trigger] has_target(output, t) <==> has_target(input, t),
{
    let d = dedup_targets(input);
    lemma_dedup_targets(input);
    let perm = choose|perm: Seq<int>| targets_perm(d, output, perm);
    let n = d.len();
    assert forall|i: int, j: int| 0 <= i < j < output.len() implies !((#[trigger] output[i]).version == (
    #[trigger] output[j]).version && output[i].loader == output[j].loader) by {
        let (a, b) = (perm[i], perm[j]);
        assert(a != b);
        if a < b {
            assert(!(d[a].version == d[b].version && d[a].loader == d[b].loader));
        } else {
            assert(!(d[b].version == d[a].version && d[b].loader == d[a].loader));
        }
    }
    assert(perm.no_duplicates()) by {
        assert forall|i: int, j: int| 0 <= i < perm.len() && 0 <= j < perm.len() && i != j implies perm[i]
            != perm[j] by {
            if i > j {
                assert(perm[j] != perm[i]);
            }
        }
    }
    perm.unique_seq_to_set();
    vstd::set_lib::lemma_int_range(0, n as int);
    let range = vstd::set_lib::set_int_range(0, n as int);
    assert(perm.to_set().subset_of(range)) by {
        assert forall|k: int| perm.to_set().contains(k) implies range.contains(k) by {
            let i = choose|i: int| 0 <= i < perm.len() && perm[i] == k;
            assert(0 <= perm[i] < n);
        }
    }
    vstd::seq_lib::seq_to_set_is_finite(perm);
    vstd::set_lib::lemma_subset_equality(perm.to_set(), range);
    assert forall|t: VersionTargetView| #[trigger] has_target(output, t) <==> has_target(input, t) by {
        if has_target(output, t) {
            let j = choose|j: int| 0 <= j < output.len() && #[trigger] output[j].version == t.version && output[j].loader == t.loader;
            assert(d[perm[j]] == output[j]);
            assert(has_target(d, t));
        }
        if has_target(d, t) {
            let k = choose|k: int| 0 <= k < d.len() && #[trigger] d[k].version == t.version && d[k].loader == t.loader;
            assert(range.contains(k));
            assert(perm.to_set().contains(k));
            let i = choose|i: int| 0 <= i < perm.len() && perm[i] == k;
            assert(output[i] == d[k]);
            assert(has_target(output, t));
        }
    }
}

/// The versions page lists a newer version number before an older one,
/// comparing major, then minor, then patch; for one version number the
/// loaders follow the order of their names.
pub proof fn law_targets_newest_first(input: Seq<VersionTargetView>, output: Seq<VersionTargetView>)
    requires
        sorted_targets_of(dedup_targets(input), output),
    ensures
        forall|i: int, j: int|
            0 <= i < j < output.len() ==> {
                let (a, b) = ((#[trigger] output[i]).rank, (#[trigger] output[j]).rank);
                a.0 > b.0 || (a.0 == b.0 && (a.1 > b.1 || (a.1 == b.1 && a.2 >= b.2)))
            },
        forall|i: int, j: int|
            0 <= i < j < output.len() && (#[trigger] output[i]).rank == (#[trigger] output[j]).rank ==> seq_le(
                output[i].loader.spec_label(),
                output[j].loader.spec_label(),
            ),
{
    let d = dedup_targets(input);
    let perm = choose|perm: Seq<int>| targets_perm(d, output, perm);
    assert forall|i: int, j: int| 0 <= i < j < output.len() implies {
        let (a, b) = ((#[trigger] output[i]).rank, (#[trigger] output[j]).rank);
        a.0 > b.0 || (a.0 == b.0 && (a.1 > b.1 || (a.1 == b.1 && a.2 >= b.2)))
    } by {
        assert(target_le(output[i], output[j]));
    }
    assert forall|i: int, j: int|
        0 <= i < j < output.len() && (#[trigger] output[i]).rank == (#[trigger] output[j]).rank implies seq_le(
            output[i].loader.spec_label(),
            output[j].loader.spec_label(),
        ) by {
        assert(target_le(output[i], output[j]));
    }
}

/// The versions the user can play: the bundled ones, then those of the
/// user's own instances, each once, newest first; for one version the
/// loaders in the order of their names; otherwise in the order given.
pub fn version_targets(bundled: &Vec<VersionTarget>, owned: &Vec<VersionTarget>) -> (r: Vec<VersionTarget>)
    ensures
        sorted_targets_of(dedup_targets(targets_view(bundled@) + targets_view(owned@)), targets_view(r@)),
{
    let ghost all = targets_view(bundled@) + targets_view(owned@);
    let mut targets: Vec<VersionTarget> = Vec::new();
    let mut i: usize = 0;
    while i < bundled.len()
        invariant
            all == targets_view(bundled@) + targets_view(owned@),
            i <= bundled@.len(),
            targets_view(targets@) == dedup_targets(all.take(i as int)),
        decreases bundled@.len() - i,
    {
        let t = &bundled[i];
        assert(all[i as int] == bundled@[i as int]@);
        assert(all.take(i + 1).drop_last() =~= all.take(i as int));
        assert(all.take(i + 1).last() == t@);
        if !contains_target(&targets, t) {
            let c = copy_target(t);
            let ghost before = targets@;
            targets.push(c);
            assert(targets_view(targets@) =~= targets_view(before).push(c@));
        }
        i = i + 1;
    }
    let nb = bundled.len();
    let mut j: usize = 0;
    while j < owned.len()
        invariant
            all == targets_view(bundled@) + targets_view(owned@),
            nb == bundled@.len(),
            j <= owned@.len(),
            targets_view(targets@) == dedup_targets(all.take(nb + j)),
        decreases owned@.len() - j,
    {
        let t = &owned[j];
        assert(all[nb + j] == owned@[j as int]@);
        assert(all.take(nb + j + 1).drop_last() =~= all.take(nb + j));
        assert(all.take(nb + j + 1).last() == t@);
        if !contains_target(&targets, t) {
            let c = copy_target(t);
            let ghost before = targets@;
            targets.push(c);
            assert(targets_view(targets@) =~= targets_view(before).push(c@));
        }
        j = j + 1;
    }
    assert(all.take(nb + j) =~= all);
    sort_targets(targets)
}

/// The instance the side panel shows: the one picked, else the active one,
/// else the first; `None` with no instances.
pub open spec fn shown_instance(ids: Seq<i64>, picked: Option<i64>, active: Option<i64>) -> Option<int> {
    let p = match picked {
        Some(id) => crate::browse::first_id_from(ids, id, 0),
        None => None,
    };
    let a = match active {
        Some(id) => crate::browse::first_id_from(ids, id, 0),
        None => None,
    };
    if p is Some {
        p
    } else if a is Some {
        a
    } else if ids.len() > 0 {
        Some(0)
    } else {
        None
    }
}

fn find_id(ids: &Vec<i64>, id: i64) -> (r: Option<usize>)
    ensures
        match r {
            Some(k) => crate::browse::first_id_from(ids@, id, 0) == Some(k as int),
            None => crate::browse::first_id_from(ids@, id, 0) is None,
        },
{
    let mut i: usize = 0;
    while i < ids.len()
        invariant
            i <= ids@.len(),
            crate::browse::first_id_from(ids@, id, 0) == crate::browse::first_id_from(ids@, id, i as int),
        decreases ids@.len() - i,
    {
        if ids[i] == id {
            return Some(i);
        }
        i = i + 1;
    }
    None
}

/// The position in `ids` of the instance the side panel shows.
pub fn shown_instance_index(ids: &Vec<i64>, picked: Option<i64>, active: Option<i64>) -> (r: Option<usize>)
    ensures
        match r {
            Some(k) => shown_instance(ids@, picked, active) == Some(k as int),
            None => shown_instance(ids@, picked, active) is None,
        },
{
    let p = match picked {
        Some(id) => find_id(ids, id),
        None => None,
    };
    if p.is_some() {
        return p;
    }
    let a = match active {
        Some(id) => find_id(ids, id),
        None => None,
    };
    if a.is_some() {
        return a;
    }
    if ids.len() > 0 {
        Some(0)
    } else {
        None
    }
}

/// The line under an instance's description: its play time and whether it
/// keeps a folder of its own. `played_text` is the play time as written.
pub open spec fn instance_meta_text(played_text: Seq<char>, dedicated: bool, ever_played: bool) -> Seq<char> {
    let folder = if dedicated {
        "separate folder"@
    } else {
        "shared folder"@
    };
    if ever_played {
        played_text + " played · "@ + folder
    } else {
        "Never played · "@ + folder
    }
}

pub fn instance_meta(played_text: &str, dedicated: bool, ever_played: bool) -> (r: String)
    ensures
        r@ == instance_meta_text(played_text@, dedicated, ever_played),
{
    let folder = if dedicated {
        "separate folder"
    } else {
        "shared folder"
    };
    if ever_played {
        crate::text::join3(played_text, " played · ", folder)
    } else {
        crate::text::join2("Never played · ", folder)
    }
}

/// The loader and version line of the side panel.
pub fn loader_version_line(loader: GameLoader, version: &str) -> (r: String)
    ensures
        r@ == loader.spec_label() + " "@ + version@,
{
    crate::text::join3(loader.label(), " ", version)
}

/// The version's description, or a placeholder while there is none.
pub fn version_description(long_description: Option<&String>) -> (r: String)
    ensures
        r@ == match long_description {
            Some(d) => d@,
            None => "Placeholder version info"@,
        },
{
    match long_description {
        Some(d) => d.clone(),
        None => String::from_str("Placeholder version info"),
    }
}

} // verus!
