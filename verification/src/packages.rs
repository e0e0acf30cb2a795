//! The package manager of a cluster: the rows it lists, its tabs, its search,
//! its filters and its sort orders.
use vstd::prelude::*;

use crate::domain::{
    artifacts_view, bundles_view, copy_opt, copy_strings, metas_view, opt_view, strings_contain,
    strings_view, Bundle, BundleFile, BundleFileView, BundleView, ContentType, FileKind,
    FileKindView, LinkedArtifact, LinkedArtifactView, PackageMeta, PackageMetaView, ProviderId,
};
use crate::order::{chars_lt, lemma_le_total_preorder, seq_le};
use crate::text::{chars_contain, chars_of, has_infix, lemma_filter_step, lowercase, to_lower};

verus! {

/// One row of the package manager.
pub struct PackageEntry {
    pub package_id: String,
    pub bundle_name: Option<String>,
    pub provider: ProviderId,
    pub name: String,
    pub file_name: String,
    pub author: String,
    pub description: String,
    pub icon_url: Option<String>,
    pub size: u64,
    pub categories: Vec<String>,
    pub enabled: bool,
    pub manifest_default: bool,
    pub installed: bool,
    pub hash: Option<String>,
}

pub struct PackageEntryView {
    pub package_id: Seq<char>,
    pub bundle_name: Option<Seq<char>>,
    pub provider: ProviderId,
    pub name: Seq<char>,
    pub file_name: Seq<char>,
    pub author: Seq<char>,
    pub description: Seq<char>,
    pub icon_url: Option<Seq<char>>,
    pub size: u64,
    pub categories: Seq<Seq<char>>,
    pub enabled: bool,
    pub manifest_default: bool,
    pub installed: bool,
    pub hash: Option<Seq<char>>,
}

impl View for PackageEntry {
    type V = PackageEntryView;

    open spec fn view(&self) -> PackageEntryView {
        PackageEntryView {
            package_id: self.package_id@,
            bundle_name: opt_view(self.bundle_name),
            provider: self.provider,
            name: self.name@,
            file_name: self.file_name@,
            author: self.author@,
            description: self.description@,
            icon_url: opt_view(self.icon_url),
            size: self.size,
            categories: strings_view(self.categories@),
            enabled: self.enabled,
            manifest_default: self.manifest_default,
            installed: self.installed,
            hash: opt_view(self.hash),
        }
    }
}

pub open spec fn entries_view(v: Seq<PackageEntry>) -> Seq<PackageEntryView> {
    v.map_values(|p: PackageEntry| p@)
}

impl PackageEntry {
    /// Content from a provider, as opposed to a local file.
    pub fn is_remote(&self) -> (r: bool)
        ensures
            r == self@.provider.spec_is_remote(),
    {
        self.provider.is_remote()
    }

    /// The package ships with one of the cluster's bundles.
    pub fn in_bundle(&self) -> (r: bool)
        ensures
            r == self@.bundle_name is Some,
    {
        self.bundle_name.is_some()
    }

    /// A copy of the row.
    pub fn copy(&self) -> (r: PackageEntry)
        ensures
            r@ == self@,
    {
        PackageEntry {
            package_id: self.package_id.clone(),
            bundle_name: copy_opt(&self.bundle_name),
            provider: self.provider,
            name: self.name.clone(),
            file_name: self.file_name.clone(),
            author: self.author.clone(),
            description: self.description.clone(),
            icon_url: copy_opt(&self.icon_url),
            size: self.size,
            categories: copy_strings(&self.categories),
            enabled: self.enabled,
            manifest_default: self.manifest_default,
            installed: self.installed,
            hash: copy_opt(&self.hash),
        }
    }
}

/// A tab of the package manager.
pub enum Tab {
    /// Every package of the cluster, whatever its origin.
    All,
    /// Packages a bundle files under this category.
    Category(String),
    /// Provider content that no bundle ships.
    Browser,
    /// Local files.
    Local,
}

pub enum TabView {
    All,
    Category(Seq<char>),
    Browser,
    Local,
}

impl View for Tab {
    type V = TabView;

    open spec fn view(&self) -> TabView {
        match self {
            Tab::All => TabView::All,
            Tab::Category(c) => TabView::Category(c@),
            Tab::Browser => TabView::Browser,
            Tab::Local => TabView::Local,
        }
    }
}

pub open spec fn tab_label(t: TabView) -> Seq<char> {
    match t {
        TabView::All => "All"@,
        TabView::Category(c) => c,
        TabView::Browser => "Browser"@,
        TabView::Local => "Local"@,
    }
}

/// Whether a row belongs to a tab.
pub open spec fn tab_matches(t: TabView, p: PackageEntryView) -> bool {
    match t {
        TabView::All => true,
        TabView::Category(c) => p.categories.contains(c),
        TabView::Browser => p.provider.spec_is_remote() && p.bundle_name is None,
        TabView::Local => !p.provider.spec_is_remote(),
    }
}

impl Tab {
    /// The tab's title.
    pub fn label(&self) -> (r: String)
        ensures
            r@ == tab_label(self@),
    {
        match self {
            Tab::All => String::from_str("All"),
            Tab::Category(c) => c.clone(),
            Tab::Browser => String::from_str("Browser"),
            Tab::Local => String::from_str("Local"),
        }
    }

    /// Whether the row `p` is listed under this tab.
    pub fn matches(&self, p: &PackageEntry) -> (r: bool)
        ensures
            r == tab_matches(self@, p@),
    {
        match self {
            Tab::All => true,
            Tab::Category(c) => strings_contain(&p.categories, c.as_str()),
            Tab::Browser => p.is_remote() && !p.in_bundle(),
            Tab::Local => !p.is_remote(),
        }
    }

    /// A copy of the tab.
    pub fn copy(&self) -> (r: Tab)
        ensures
            r@ == self@,
    {
        match self {
            Tab::All => Tab::All,
            Tab::Category(c) => Tab::Category(c.clone()),
            Tab::Browser => Tab::Browser,
            Tab::Local => Tab::Local,
        }
    }
}

/// Which rows to show by whether they are enabled.
#[derive(Clone, Copy, PartialEq, Eq, Debug, Structural)]
pub enum EnabledFilter {
    All,
    Enabled,
    Disabled,
}

pub open spec fn filter_keeps(f: EnabledFilter, p: PackageEntryView) -> bool {
    match f {
        EnabledFilter::All => true,
        EnabledFilter::Enabled => p.enabled,
        EnabledFilter::Disabled => !p.enabled,
    }
}

impl EnabledFilter {
    pub open spec fn spec_label(self) -> Seq<char> {
        match self {
            EnabledFilter::All => "All packages"@,
            EnabledFilter::Enabled => "Enabled only"@,
            EnabledFilter::Disabled => "Disabled only"@,
        }
    }

    /// The filter's name in the filter menu.
    pub fn label(self) -> (r: &'static str)
        ensures
            r@ == self.spec_label(),
    {
        match self {
            EnabledFilter::All => "All packages",
            EnabledFilter::Enabled => "Enabled only",
            EnabledFilter::Disabled => "Disabled only",
        }
    }

    /// Whether the row `p` passes the filter.
    pub fn keep(self, p: &PackageEntry) -> (r: bool)
        ensures
            r == filter_keeps(self, p@),
    {
        match self {
            EnabledFilter::All => true,
            EnabledFilter::Enabled => p.enabled,
            EnabledFilter::Disabled => !p.enabled,
        }
    }
}

/// A row matches a search when the query is empty or occurs in its lower-cased
/// name or file name; the query is lower-cased by the caller.
pub open spec fn query_matches(p: PackageEntryView, query: Seq<char>) -> bool {
    query.len() == 0 || has_infix(lowercase(p.name), query) || has_infix(
        lowercase(p.file_name),
        query,
    )
}

/// Whether the row `p` matches the (already lower-cased) search `query`.
pub fn matches_query(p: &PackageEntry, query: &str) -> (r: bool)
    ensures
        r == query_matches(p@, query@),
{
    if query.unicode_len() == 0 {
        return true;
    }
    let q = chars_of(query);
    let name = to_lower(p.name.as_str());
    if chars_contain(chars_of(name.as_str()).as_slice(), q.as_slice()) {
        return true;
    }
    let file = to_lower(p.file_name.as_str());
    chars_contain(chars_of(file.as_str()).as_slice(), q.as_slice())
}

/// A row is shown when it belongs to the active tab (any row, with no tab),
/// matches the search, and passes the enabled filter.
pub open spec fn row_visible(
    p: PackageEntryView,
    tab: Option<TabView>,
    query: Seq<char>,
    show: EnabledFilter,
) -> bool {
    (match tab {
        Some(t) => tab_matches(t, p),
        None => true,
    }) && query_matches(p, query) && filter_keeps(show, p)
}

pub open spec fn tab_view(tab: Option<&Tab>) -> Option<TabView> {
    match tab {
        Some(t) => Some(t@),
        None => None,
    }
}

/// A row belongs to a tab as the package manager files it: every row to
/// "All"; to a category when the row is filed under it; to "Browser" when it
/// comes from a provider and no bundle ships it; to "Local" when it is a
/// local file, whether or not a bundle ships it.
pub open spec fn in_tab(t: TabView, p: PackageEntryView) -> bool {
    match t {
        TabView::All => true,
        TabView::Category(c) => exists|k: int| 0 <= k < p.categories.len() && p.categories[k] == c,
        TabView::Browser => p.provider != ProviderId::Local && p.bundle_name is None,
        TabView::Local => p.provider == ProviderId::Local,
    }
}

/// The rows of `items` that `visible_packages` shows, in their order.
pub open spec fn shown_rows(items: Seq<PackageEntryView>, tab: Option<TabView>, query: Seq<char>, show: EnabledFilter) -> Seq<
    PackageEntryView,
> {
    items.filter(|x: PackageEntryView| row_visible(x, tab, query, show))
}

/// The rows shown are the rows of the list, in its order, that belong to the
/// active tab, match the search and pass the enabled filter: a row is shown
/// exactly when all three hold of it.
pub proof fn law_visible_rows(items: Seq<PackageEntryView>, tab: Option<TabView>, query: Seq<char>, show: EnabledFilter)
    ensures
        forall|p: PackageEntryView|
            #[trigger] shown_rows(items, tab, query, show).contains(p) <==> items.contains(p)
                && (match tab {
                Some(t) => in_tab(t, p),
                None => true,
            }) && query_matches(p, query) && filter_keeps(show, p),
{
    let pred = |x: PackageEntryView| row_visible(x, tab, query, show);
    assert forall|p: PackageEntryView| #[trigger] items.filter(pred).contains(p) <==> items.contains(p) && (match tab {
        Some(t) => in_tab(t, p),
        None => true,
    }) && query_matches(p, query) && filter_keeps(show, p) by {
        let same = pred(p) == ((match tab {
            Some(t) => in_tab(t, p),
            None => true,
        }) && query_matches(p, query) && filter_keeps(show, p));
        assert(same) by {
            match tab {
                Some(TabView::Category(c)) => {
                    if p.categories.contains(c) {
                        let k = choose|k: int| 0 <= k < p.categories.len() && p.categories[k] == c;
                    }
                },
                _ => {},
            }
        }
        if items.filter(pred).contains(p) {
            items.lemma_filter_contains_rev(pred, p);
            let k = choose|k: int| 0 <= k < items.filter(pred).len() && items.filter(pred)[k] == p;
            items.lemma_filter_pred(pred, k);
        }
        if items.contains(p) && pred(p) {
            let k = choose|k: int| 0 <= k < items.len() && items[k] == p;
            items.lemma_filter_contains(pred, k);
        }
    }
}

/// The rows to show, in their order. The search is scoped to the active tab: a
/// row has to belong to the tab and match the query, so a search inside a
/// category never pulls in rows of another one; the `All` tab admits every row.
pub fn visible_packages(
    items: &[PackageEntry],
    tab: Option<&Tab>,
    query: &str,
    show: EnabledFilter,
) -> (r: Vec<PackageEntry>)
    ensures
        entries_view(r@) == entries_view(items@).filter(
            |p: PackageEntryView| row_visible(p, tab_view(tab), query@, show),
        ),
        entries_view(r@) == shown_rows(entries_view(items@), tab_view(tab), query@, show),
{
    let ghost pred = |p: PackageEntryView| row_visible(p, tab_view(tab), query@, show);
    let ghost all = entries_view(items@);
    let mut out: Vec<PackageEntry> = Vec::new();
    let mut i: usize = 0;
    while i < items.len()
        invariant
            i <= items@.len(),
            all == entries_view(items@),
            pred == (|p: PackageEntryView| row_visible(p, tab_view(tab), query@, show)),
            entries_view(out@) == all.subrange(0, i as int).filter(pred),
        decreases items@.len() - i,
    {
        let p = &items[i];
        assert(all[i as int] == p@);
        proof {
            lemma_filter_step(all, i as int, pred);
            assert(pred(p@) == row_visible(p@, tab_view(tab), query@, show));
        }
        let in_tab = match tab {
            Some(t) => t.matches(p),
            None => true,
        };
        assert(all.subrange(0, i + 1).drop_last() =~= all.subrange(0, i as int));
        if in_tab && matches_query(p, query) && show.keep(p) {
            let c = p.copy();
            let ghost before = out@;
            out.push(c);
            assert(entries_view(out@) =~= entries_view(before).push(c@));
        }
        i = i + 1;
    }
    assert(all.subrange(0, i as int) =~= all);
    out
}

/// `acc` with `c` added at the end unless it is there already.
pub open spec fn add_absent(acc: Seq<Seq<char>>, c: Seq<char>) -> Seq<Seq<char>> {
    if acc.contains(c) {
        acc
    } else {
        acc.push(c)
    }
}

/// The bundles' categories, each once, in the order they first appear; a
/// bundle without a category adds none.
pub open spec fn categories_of(bs: Seq<BundleView>) -> Seq<Seq<char>>
    decreases bs.len(),
{
    if bs.len() == 0 {
        Seq::empty()
    } else {
        let acc = categories_of(bs.drop_last());
        let c = bs.last().category;
        if c.len() == 0 {
            acc
        } else {
            add_absent(acc, c)
        }
    }
}

/// Some bundle of `bs` at an index below `end` has category `c`.
pub open spec fn category_before(bs: Seq<BundleView>, c: Seq<char>, end: int) -> bool {
    exists|k: int| 0 <= k < end && k < bs.len() && #[trigger] bs[k].category == c
}

/// The category list holds every non-empty category of the bundles and no
/// other text, each once, and in the order in which the categories first
/// appear: one listed earlier shows up before every bundle of a later one.
pub proof fn law_categories_listed_once(bs: Seq<BundleView>)
    ensures
        categories_of(bs).no_duplicates(),
        forall|i: int| 0 <= i < categories_of(bs).len() ==> (#[trigger] categories_of(bs)[i]).len() > 0,
        forall|c: Seq<char>|
            #[trigger] categories_of(bs).contains(c) <==> c.len() > 0 && category_before(bs, c, bs.len() as int),
        forall|i: int, j: int, k: int|
            #![trigger bs[k], categories_of(bs)[i], categories_of(bs)[j]]
            0 <= i < j < categories_of(bs).len() && 0 <= k < bs.len() && bs[k].category == categories_of(bs)[j]
                ==> category_before(bs, categories_of(bs)[i], k),
    decreases bs.len(),
{
    if bs.len() > 0 {
        let init = bs.drop_last();
        let n = bs.len() - 1;
        law_categories_listed_once(init);
        let acc = categories_of(init);
        let c = bs.last().category;
        assert forall|x: Seq<char>, e: int| 0 <= e <= n implies category_before(init, x, e) == category_before(
            bs,
            x,
            e,
        ) by {
            if category_before(init, x, e) {
                let k = choose|k: int| 0 <= k < e && k < init.len() && #[trigger] init[k].category == x;
                assert(bs[k] == init[k]);
            }
            if category_before(bs, x, e) {
                let k = choose|k: int| 0 <= k < e && k < bs.len() && #[trigger] bs[k].category == x;
                assert(bs[k] == init[k]);
            }
        }
        assert forall|x: Seq<char>| category_before(bs, x, bs.len() as int) <==> category_before(bs, x, n) || x == c by {
            if category_before(bs, x, bs.len() as int) && x != c {
                let k = choose|k: int| 0 <= k < bs.len() && k < bs.len() && #[trigger] bs[k].category == x;
                assert(k != n);
            }
            if x == c {
                assert(bs[n].category == c);
            }
        }
        let out = categories_of(bs);
        if c.len() > 0 && !acc.contains(c) {
            assert(out == acc.push(c));
            assert forall|x: Seq<char>| #[trigger] out.contains(x) <==> acc.contains(x) || x == c by {
                if out.contains(x) {
                    let q = choose|q: int| 0 <= q < out.len() && out[q] == x;
                    if q < acc.len() {
                        assert(acc[q] == x);
                    }
                }
                if acc.contains(x) {
                    let q = choose|q: int| 0 <= q < acc.len() && acc[q] == x;
                    assert(out[q] == x);
                }
                if x == c {
                    assert(out[acc.len() as int] == c);
                }
            }
            assert forall|a: int, b: int| 0 <= a < out.len() && 0 <= b < out.len() && a != b implies out[a]
                != out[b] by {
                if a == acc.len() {
                    if out[a] == out[b] {
                        assert(acc[b] == c);
                    }
                } else if b == acc.len() {
                    if out[a] == out[b] {
                        assert(acc[a] == c);
                    }
                } else {
                    assert(out[a] == acc[a] && out[b] == acc[b]);
                }
            }
            assert forall|i: int, j: int, k: int|
                #![trigger bs[k], out[i], out[j]]
                0 <= i < j < out.len() && 0 <= k < bs.len() && bs[k].category == out[j]
                    implies category_before(bs, out[i], k) by {
                assert(out[i] == acc[i]);
                assert(acc.contains(acc[i]));
                if j == acc.len() {
                    if k < n {
                        assert(init[k].category == c);
                        assert(category_before(init, c, n));
                    }
                    assert(category_before(init, acc[i], n));
                } else {
                    assert(out[j] == acc[j]);
                    if k == n {
                        assert(acc.contains(acc[j]));
                        assert(category_before(init, acc[i], n));
                    } else {
                        assert(init[k].category == acc[j]);
                        assert(category_before(init, acc[i], k));
                    }
                }
            }
        } else {
            assert(out == acc);
            assert forall|i: int, j: int, k: int|
                #![trigger bs[k], out[i], out[j]]
                0 <= i < j < out.len() && 0 <= k < bs.len() && bs[k].category == out[j]
                    implies category_before(bs, out[i], k) by {
                assert(acc.contains(acc[i]));
                if k == n {
                    assert(category_before(init, acc[i], n));
                } else {
                    assert(init[k].category == acc[j]);
                    assert(category_before(init, acc[i], k));
                }
            }
            assert forall|x: Seq<char>| #[trigger] out.contains(x) <==> x.len() > 0 && category_before(
                bs,
                x,
                bs.len() as int,
            ) by {
                if x == c && c.len() > 0 {
                    assert(acc.contains(c));
                }
            }
        }
    }
}

/// The categories of the cluster's bundles, each once, in bundle order.
pub fn bundle_categories(bundles: &[Bundle]) -> (r: Vec<String>)
    ensures
        strings_view(r@) == categories_of(crate::domain::bundles_view(bundles@)),
{
    let ghost bv = crate::domain::bundles_view(bundles@);
    let mut cats: Vec<String> = Vec::new();
    let mut i: usize = 0;
    while i < bundles.len()
        invariant
            i <= bundles@.len(),
            bv == crate::domain::bundles_view(bundles@),
            strings_view(cats@) == categories_of(bv.subrange(0, i as int)),
        decreases bundles@.len() - i,
    {
        let category = &bundles[i].category;
        assert(bv.subrange(0, i + 1).drop_last() =~= bv.subrange(0, i as int));
        if category.unicode_len() != 0 && !strings_contain(&cats, category.as_str()) {
            cats.push(category.clone());
            assert(strings_view(cats@) =~= categories_of(bv.subrange(0, i as int)).push(
                category@,
            ));
        }
        i = i + 1;
    }
    assert(bv.subrange(0, i as int) =~= bv);
    cats
}

/// `acc` with each of `cs` added unless already there.
pub open spec fn add_all_absent(acc: Seq<Seq<char>>, cs: Seq<Seq<char>>) -> Seq<Seq<char>>
    decreases cs.len(),
{
    if cs.len() == 0 {
        acc
    } else {
        add_absent(add_all_absent(acc, cs.drop_last()), cs.last())
    }
}

/// The given categories followed by any category of a row that is not among
/// them yet.
pub open spec fn tab_categories(cats: Seq<Seq<char>>, items: Seq<PackageEntryView>) -> Seq<
    Seq<char>,
>
    decreases items.len(),
{
    if items.len() == 0 {
        cats
    } else {
        add_all_absent(tab_categories(cats, items.drop_last()), items.last().categories)
    }
}

/// Some row belongs to the category `c`.
pub open spec fn category_has_rows(c: Seq<char>, items: Seq<PackageEntryView>) -> bool {
    exists|i: int| 0 <= i < items.len() && (#[trigger] items[i]).categories.contains(c)
}

/// The tabs: `All`, then each category that has rows, then `Browser` and
/// `Local`, which are always shown.
pub open spec fn tabs_for(cats: Seq<Seq<char>>, items: Seq<PackageEntryView>) -> Seq<TabView> {
    seq![TabView::All] + tab_categories(cats, items).filter(
        |c: Seq<char>| category_has_rows(c, items),
    ).map_values(|c: Seq<char>| TabView::Category(c)) + seq![TabView::Browser, TabView::Local]
}

pub open spec fn tabs_view(v: Seq<Tab>) -> Seq<TabView> {
    v.map_values(|t: Tab| t@)
}

fn add_categories(cats: &mut Vec<String>, more: &Vec<String>)
    ensures
        strings_view(final(cats)@) == add_all_absent(strings_view(old(cats)@), strings_view(more@)),
{
    let ghost start = strings_view(cats@);
    let ghost mv = strings_view(more@);
    let mut i: usize = 0;
    while i < more.len()
        invariant
            i <= more@.len(),
            mv == strings_view(more@),
            strings_view(cats@) == add_all_absent(start, mv.subrange(0, i as int)),
        decreases more@.len() - i,
    {
        assert(mv.subrange(0, i + 1).drop_last() =~= mv.subrange(0, i as int));
        if !strings_contain(&*cats, more[i].as_str()) {
            cats.push(more[i].clone());
            assert(strings_view(cats@) =~= add_all_absent(start, mv.subrange(0, i as int)).push(
                mv[i as int],
            ));
        }
        i = i + 1;
    }
    assert(mv.subrange(0, i as int) =~= mv);
}

fn has_rows(c: &String, items: &[PackageEntry]) -> (r: bool)
    ensures
        r == category_has_rows(c@, entries_view(items@)),
{
    let mut i: usize = 0;
    while i < items.len()
        invariant
            i <= items@.len(),
            forall|j: int| 0 <= j < i ==> !(#[trigger] entries_view(items@)[j]).categories.contains(c@),
        decreases items@.len() - i,
    {
        assert(entries_view(items@)[i as int] == items@[i as int]@);
        if strings_contain(&items[i].categories, c.as_str()) {
            return true;
        }
        i = i + 1;
    }
    false
}

/// The tabs of the package manager. A category tab is hidden while no row is
/// in it; `All`, `Browser` and `Local` are always there.
pub fn build_tabs(categories: &[String], items: &[PackageEntry]) -> (r: Vec<Tab>)
    ensures
        tabs_view(r@) == tabs_for(strings_view(categories@), entries_view(items@)),
{
    let ghost iv = entries_view(items@);
    let mut cats: Vec<String> = Vec::new();
    let mut k: usize = 0;
    while k < categories.len()
        invariant
            k <= categories@.len(),
            strings_view(cats@) == strings_view(categories@).subrange(0, k as int),
        decreases categories@.len() - k,
    {
        let c = categories[k].clone();
        let ghost before = cats@;
        cats.push(c);
        proof {
            crate::domain::lemma_strings_view_push(before, c);
            assert(strings_view(categories@).subrange(0, k + 1) =~= strings_view(
                categories@,
            ).subrange(0, k as int).push(categories@[k as int]@));
        }
        k = k + 1;
    }
    assert(strings_view(categories@).subrange(0, k as int) =~= strings_view(categories@));
    let mut i: usize = 0;
    while i < items.len()
        invariant
            i <= items@.len(),
            iv == entries_view(items@),
            strings_view(cats@) == tab_categories(strings_view(categories@), iv.subrange(0, i as int)),
        decreases items@.len() - i,
    {
        assert(iv.subrange(0, i + 1).drop_last() =~= iv.subrange(0, i as int));
        add_categories(&mut cats, &items[i].categories);
        i = i + 1;
    }
    assert(iv.subrange(0, i as int) =~= iv);
    let ghost cv = strings_view(cats@);
    let ghost pred = |c: Seq<char>| category_has_rows(c, iv);
    let mut tabs: Vec<Tab> = Vec::new();
    tabs.push(Tab::All);
    let mut j: usize = 0;
    while j < cats.len()
        invariant
            j <= cats@.len(),
            cv == strings_view(cats@),
            iv == entries_view(items@),
            pred == (|c: Seq<char>| category_has_rows(c, iv)),
            tabs_view(tabs@) == seq![TabView::All] + cv.subrange(0, j as int).filter(pred).map_values(
                |c: Seq<char>| TabView::Category(c),
            ),
        decreases cats@.len() - j,
    {
        assert(cv[j as int] == cats@[j as int]@);
        proof {
            lemma_filter_step(cv, j as int, pred);
            assert(pred(cv[j as int]) == category_has_rows(cv[j as int], iv));
        }
        let ghost prev = cv.subrange(0, j as int).filter(pred);
        if has_rows(&cats[j], items) {
            assert(cv.subrange(0, j + 1).filter(pred) == prev.push(cv[j as int]));
            assert(prev.push(cv[j as int]).map_values(|c: Seq<char>| TabView::Category(c))
                =~= prev.map_values(|c: Seq<char>| TabView::Category(c)).push(
                TabView::Category(cv[j as int]),
            ));
            let t = Tab::Category(cats[j].clone());
            assert(t@ == TabView::Category(cv[j as int]));
            let ghost before = tabs@;
            tabs.push(t);
            assert(tabs_view(tabs@) =~= tabs_view(before).push(t@));
            assert(tabs_view(tabs@) =~= seq![TabView::All] + cv.subrange(0, j + 1).filter(
                pred,
            ).map_values(|c: Seq<char>| TabView::Category(c)));
        } else {
            assert(cv.subrange(0, j + 1).filter(pred) == prev);
            assert(tabs_view(tabs@) =~= seq![TabView::All] + cv.subrange(0, j + 1).filter(
                pred,
            ).map_values(|c: Seq<char>| TabView::Category(c)));
        }
        j = j + 1;
    }
    assert(cv.subrange(0, j as int) =~= cv);
    tabs.push(Tab::Browser);
    tabs.push(Tab::Local);
    assert(tabs_view(tabs@) =~= tabs_for(strings_view(categories@), iv));
    tabs
}


/// The first record about project `pid` from `provider`.
pub open spec fn meta_for(metas: Seq<PackageMetaView>, provider: ProviderId, pid: Seq<char>) -> Option<
    PackageMetaView,
>
    decreases metas.len(),
{
    if metas.len() == 0 {
        None
    } else if metas[0].provider == provider && metas[0].project_id == pid {
        Some(metas[0])
    } else {
        meta_for(metas.drop_first(), provider, pid)
    }
}

/// The last artifact recorded under project id `pid`.
pub open spec fn last_by_project(xs: Seq<LinkedArtifactView>, pid: Seq<char>) -> Option<
    LinkedArtifactView,
>
    decreases xs.len(),
{
    if xs.len() == 0 {
        None
    } else if xs.last().project_id == Some(pid) {
        Some(xs.last())
    } else {
        last_by_project(xs.drop_last(), pid)
    }
}

/// The last artifact whose hash is `h`.
pub open spec fn last_by_hash(xs: Seq<LinkedArtifactView>, h: Seq<char>) -> Option<
    LinkedArtifactView,
>
    decreases xs.len(),
{
    if xs.len() == 0 {
        None
    } else if xs.last().hash == h {
        Some(xs.last())
    } else {
        last_by_hash(xs.drop_last(), h)
    }
}

/// The linked artifact behind a bundle package: matched by project id, else by
/// hash.
pub open spec fn installed_for(content: Seq<LinkedArtifactView>, pid: Seq<char>) -> Option<
    LinkedArtifactView,
> {
    match last_by_project(content, pid) {
        Some(x) => Some(x),
        None => last_by_hash(content, pid),
    }
}

/// A row built from what is known of a package. The provider's name, author
/// and summary win where they are not empty; otherwise the fallback name, no
/// author, and the linked version as description.
pub open spec fn row_of(
    pid: Seq<char>,
    bundle_name: Option<Seq<char>>,
    provider: ProviderId,
    size: u64,
    categories: Seq<Seq<char>>,
    enabled: bool,
    manifest_default: bool,
    info: Option<LinkedArtifactView>,
    meta: Option<PackageMetaView>,
    fallback: Seq<char>,
) -> PackageEntryView {
    PackageEntryView {
        package_id: pid,
        bundle_name: bundle_name,
        provider: provider,
        name: if meta is Some && meta->0.name.len() > 0 {
            meta->0.name
        } else {
            fallback
        },
        file_name: match info {
            Some(i) => i.file_name,
            None => fallback,
        },
        author: if meta is Some && meta->0.author.len() > 0 {
            meta->0.author
        } else {
            Seq::empty()
        },
        description: if meta is Some && meta->0.summary.len() > 0 {
            meta->0.summary
        } else if info is Some && info->0.display_version is Some {
            "Version "@ + info->0.display_version->0
        } else {
            Seq::empty()
        },
        icon_url: match meta {
            Some(m) => m.icon_url,
            None => None,
        },
        size: size,
        categories: categories,
        enabled: enabled,
        manifest_default: manifest_default,
        installed: info is Some,
        hash: match info {
            Some(i) => Some(i.hash),
            None => None,
        },
    }
}

pub open spec fn opt_artifact_view(x: Option<&LinkedArtifact>) -> Option<LinkedArtifactView> {
    match x {
        Some(a) => Some(a@),
        None => None,
    }
}

pub open spec fn opt_meta_view(x: Option<&PackageMeta>) -> Option<PackageMetaView> {
    match x {
        Some(a) => Some(a@),
        None => None,
    }
}

pub(crate) fn find_meta<'a>(metas: &'a [PackageMeta], provider: ProviderId, pid: &str) -> (r: Option<
    &'a PackageMeta,
>)
    ensures
        opt_meta_view(r) == meta_for(metas_view(metas@), provider, pid@),
{
    let ghost mv = metas_view(metas@);
    let mut i: usize = 0;
    assert(mv.subrange(0, mv.len() as int) =~= mv);
    while i < metas.len()
        invariant
            i <= metas@.len(),
            mv == metas_view(metas@),
            meta_for(mv, provider, pid@) == meta_for(mv.subrange(i as int, mv.len() as int), provider, pid@),
        decreases metas@.len() - i,
    {
        let ghost rest = mv.subrange(i as int, mv.len() as int);
        assert(rest[0] == metas@[i as int]@);
        assert(rest.drop_first() =~= mv.subrange(i + 1, mv.len() as int));
        if metas[i].provider == provider && crate::text::str_eq(metas[i].project_id.as_str(), pid) {
            return Some(&metas[i]);
        }
        i = i + 1;
    }
    None
}

fn find_installed<'a>(content: &'a [LinkedArtifact], pid: &str) -> (r: Option<&'a LinkedArtifact>)
    ensures
        opt_artifact_view(r) == installed_for(artifacts_view(content@), pid@),
{
    let ghost cv = artifacts_view(content@);
    let mut i: usize = content.len();
    assert(cv.subrange(0, i as int) =~= cv);
    while i > 0
        invariant
            i <= content@.len(),
            cv == artifacts_view(content@),
            last_by_project(cv, pid@) == last_by_project(cv.subrange(0, i as int), pid@),
        decreases i,
    {
        let ghost pre = cv.subrange(0, i as int);
        assert(pre.last() == content@[i - 1]@);
        assert(pre.drop_last() =~= cv.subrange(0, i - 1));
        let hit = match &content[i - 1].project_id {
            Some(p) => crate::text::str_eq(p.as_str(), pid),
            None => false,
        };
        if hit {
            return Some(&content[i - 1]);
        }
        i = i - 1;
    }
    let mut j: usize = content.len();
    assert(cv.subrange(0, j as int) =~= cv);
    while j > 0
        invariant
            j <= content@.len(),
            cv == artifacts_view(content@),
            last_by_project(cv, pid@) is None,
            last_by_hash(cv, pid@) == last_by_hash(cv.subrange(0, j as int), pid@),
        decreases j,
    {
        let ghost pre = cv.subrange(0, j as int);
        assert(pre.last() == content@[j - 1]@);
        assert(pre.drop_last() =~= cv.subrange(0, j - 1));
        if crate::text::str_eq(content[j - 1].hash.as_str(), pid) {
            return Some(&content[j - 1]);
        }
        j = j - 1;
    }
    None
}

/// Builds one row of the package manager.
fn make_row(
    package_id: String,
    bundle_name: Option<String>,
    provider: ProviderId,
    size: u64,
    categories: Vec<String>,
    enabled: bool,
    manifest_default: bool,
    installed_info: Option<&LinkedArtifact>,
    metas: &[PackageMeta],
    fallback_name: String,
) -> (r: PackageEntry)
    ensures
        r@ == row_of(
            package_id@,
            opt_view(bundle_name),
            provider,
            size,
            strings_view(categories@),
            enabled,
            manifest_default,
            opt_artifact_view(installed_info),
            meta_for(metas_view(metas@), provider, package_id@),
            fallback_name@,
        ),
{
    let m = find_meta(metas, provider, package_id.as_str());
    let name = match m {
        Some(meta) => if meta.name.unicode_len() > 0 {
            meta.name.clone()
        } else {
            fallback_name.clone()
        },
        None => fallback_name.clone(),
    };
    let file_name = match installed_info {
        Some(i) => i.file_name.clone(),
        None => fallback_name,
    };
    let author = match m {
        Some(meta) => if meta.author.unicode_len() > 0 {
            meta.author.clone()
        } else {
            String::new()
        },
        None => String::new(),
    };
    let description = match m {
        Some(meta) if meta.summary.unicode_len() > 0 => meta.summary.clone(),
        _ => match installed_info {
            Some(i) => match &i.display_version {
                Some(v) => crate::text::join2("Version ", v.as_str()),
                None => String::new(),
            },
            None => String::new(),
        },
    };
    let icon_url = match m {
        Some(meta) => copy_opt(&meta.icon_url),
        None => None,
    };
    let hash = match installed_info {
        Some(i) => Some(i.hash.clone()),
        None => None,
    };
    PackageEntry {
        package_id,
        bundle_name,
        provider,
        name,
        file_name,
        author,
        description,
        icon_url,
        size,
        categories,
        enabled,
        manifest_default,
        installed: installed_info.is_some(),
        hash,
    }
}

pub type RowsAcc = (Seq<PackageEntryView>, Seq<Seq<char>>);
/// The row of a bundle file: the linked artifact found for its package (by
/// project id, else by hash) decides whether it is installed and enabled;
/// otherwise the file's own setting does. A hidden file, or one of a bundle
/// without a category, gets no category.
pub open spec fn bundle_entry(
    b: BundleView,
    f: BundleFileView,
    content: Seq<LinkedArtifactView>,
    metas: Seq<PackageMetaView>,
) -> PackageEntryView {
    let info = installed_for(content, f.package_id);
    let enabled = match info {
        Some(i) => i.enabled,
        None => f.effective_enabled,
    };
    let cats = if f.hidden || b.category.len() == 0 {
        Seq::empty()
    } else {
        seq![b.category]
    };
    row_of(
        f.package_id,
        Some(b.name),
        f.provider(),
        f.size,
        cats,
        enabled,
        f.enabled,
        info,
        meta_for(metas, f.provider(), f.package_id),
        f.display_name,
    )
}


/// A bundle file's row reads the last linked artifact recorded under its
/// package's project id, else the last with that hash: it is installed
/// exactly when there is one, and then takes that artifact's enabled flag,
/// hash and file name; without one it has no hash and the file's own
/// setting decides whether it is enabled. It is filed under the bundle's
/// category unless the file is hidden or the bundle has none.
pub proof fn law_bundle_row_fields(
    b: BundleView,
    f: BundleFileView,
    content: Seq<LinkedArtifactView>,
    metas: Seq<PackageMetaView>,
)
    ensures
        ({
            let row = bundle_entry(b, f, content, metas);
            let x = match last_by_project(content, f.package_id) {
                Some(i) => Some(i),
                None => last_by_hash(content, f.package_id),
            };
            &&& row.package_id == f.package_id
            &&& row.bundle_name == Some(b.name)
            &&& row.size == f.size
            &&& row.manifest_default == f.enabled
            &&& row.installed == x is Some
            &&& (x matches Some(i) ==> row.enabled == i.enabled && row.hash == Some(i.hash) && row.file_name
                == i.file_name)
            &&& (x is None ==> row.hash is None && row.enabled == f.effective_enabled)
            &&& row.categories == (if f.hidden || b.category.len() == 0 {
                Seq::<Seq<char>>::empty()
            } else {
                seq![b.category]
            })
        }),
{
}

/// The rows after one bundle file: a file of another content type, or of a
/// package an earlier bundle already listed, adds nothing.
pub open spec fn bundle_file_row(
    acc: RowsAcc,
    b: BundleView,
    f: BundleFileView,
    ct: ContentType,
    content: Seq<LinkedArtifactView>,
    metas: Seq<PackageMetaView>,
) -> RowsAcc {
    if f.content_type != ct || acc.1.contains(f.package_id) {
        acc
    } else {
        (acc.0.push(bundle_entry(b, f, content, metas)), acc.1.push(f.package_id))
    }
}

pub open spec fn bundle_files_rows(
    acc: RowsAcc,
    b: BundleView,
    fs: Seq<BundleFileView>,
    ct: ContentType,
    content: Seq<LinkedArtifactView>,
    metas: Seq<PackageMetaView>,
) -> RowsAcc
    decreases fs.len(),
{
    if fs.len() == 0 {
        acc
    } else {
        bundle_file_row(
            bundle_files_rows(acc, b, fs.drop_last(), ct, content, metas),
            b,
            fs.last(),
            ct,
            content,
            metas,
        )
    }
}

pub open spec fn bundles_rows(
    bs: Seq<BundleView>,
    ct: ContentType,
    content: Seq<LinkedArtifactView>,
    metas: Seq<PackageMetaView>,
) -> RowsAcc
    decreases bs.len(),
{
    if bs.len() == 0 {
        (Seq::empty(), Seq::empty())
    } else {
        bundle_files_rows(
            bundles_rows(bs.drop_last(), ct, content, metas),
            bs.last(),
            bs.last().files,
            ct,
            content,
            metas,
        )
    }
}

/// A bundle row already stands for `x`, by project id or by hash.
pub open spec fn claimed(seen: Seq<Seq<char>>, x: LinkedArtifactView) -> bool {
    (x.project_id is Some && seen.contains(x.project_id->0)) || seen.contains(x.hash)
}

/// The row of a linked artifact that no bundle row stands for: keyed by its
/// project id, else its hash, from its provider, else local.
pub open spec fn content_entry(x: LinkedArtifactView, metas: Seq<PackageMetaView>) -> PackageEntryView {
    let provider = match x.provider {
        Some(p) => p,
        None => ProviderId::Local,
    };
    let pid = match x.project_id {
        Some(p) => p,
        None => x.hash,
    };
    row_of(
        pid,
        None,
        provider,
        0,
        Seq::empty(),
        x.enabled,
        true,
        Some(x),
        meta_for(metas, provider, pid),
        match x.display_name {
            Some(d) => d,
            None => x.file_name,
        },
    )
}

/// The rows after one linked artifact: one that a bundle row already stands
/// for, by project id or by hash, adds nothing.
pub open spec fn content_row(
    rows: Seq<PackageEntryView>,
    seen: Seq<Seq<char>>,
    x: LinkedArtifactView,
    metas: Seq<PackageMetaView>,
) -> Seq<PackageEntryView> {
    if claimed(seen, x) {
        rows
    } else {
        rows.push(content_entry(x, metas))
    }
}

pub open spec fn content_rows(
    rows: Seq<PackageEntryView>,
    seen: Seq<Seq<char>>,
    xs: Seq<LinkedArtifactView>,
    metas: Seq<PackageMetaView>,
) -> Seq<PackageEntryView>
    decreases xs.len(),
{
    if xs.len() == 0 {
        rows
    } else {
        content_row(content_rows(rows, seen, xs.drop_last(), metas), seen, xs.last(), metas)
    }
}

/// File `f` of bundle `b` comes before file `f2` of bundle `b2`: in bundle
/// order, then file order.
pub open spec fn pos_before(b: int, f: int, b2: int, f2: int) -> bool {
    b < b2 || (b == b2 && f < f2)
}

/// File `f` of bundle `b` exists, is of content type `ct`, and is of package
/// `pid`.
pub open spec fn file_for(bs: Seq<BundleView>, b: int, f: int, ct: ContentType, pid: Seq<char>) -> bool {
    0 <= b < bs.len() && 0 <= f < bs[b].files.len() && bs[b].files[f].content_type == ct
        && bs[b].files[f].package_id == pid
}

/// File `f` of bundle `b` is the first file of content type `ct` of its
/// package.
pub open spec fn first_file_for(bs: Seq<BundleView>, b: int, f: int, ct: ContentType) -> bool {
    &&& file_for(bs, b, f, ct, bs[b].files[f].package_id)
    &&& forall|b2: int, f2: int|
        #[trigger] file_for(bs, b2, f2, ct, bs[b].files[f].package_id) ==> !pos_before(b2, f2, b, f)
}

/// `rows` are the rows of the files at positions `ps`: each the first file
/// of its package, in bundle and file order.
pub open spec fn rows_at(
    bs: Seq<BundleView>,
    ct: ContentType,
    content: Seq<LinkedArtifactView>,
    metas: Seq<PackageMetaView>,
    rows: Seq<PackageEntryView>,
    ps: Seq<(int, int)>,
) -> bool {
    &&& ps.len() == rows.len()
    &&& forall|i: int|
        0 <= i < ps.len() ==> first_file_for(bs, (#[trigger] ps[i]).0, ps[i].1, ct) && rows[i] == bundle_entry(
            bs[ps[i].0],
            bs[ps[i].0].files[ps[i].1],
            content,
            metas,
        )
    &&& forall|i: int, j: int|
        0 <= i < j < ps.len() ==> pos_before((#[trigger] ps[i]).0, ps[i].1, (#[trigger] ps[j]).0, ps[j].1)
}

/// What the bundle rows hold once the files before file `f` of bundle `b`
/// were read.
spec fn rows_inv(
    bs: Seq<BundleView>,
    ct: ContentType,
    content: Seq<LinkedArtifactView>,
    metas: Seq<PackageMetaView>,
    acc: RowsAcc,
    ps: Seq<(int, int)>,
    b: int,
    f: int,
) -> bool {
    &&& rows_at(bs, ct, content, metas, acc.0, ps)
    &&& acc.1.len() == ps.len()
    &&& forall|i: int| 0 <= i < ps.len() ==> acc.1[i] == bs[(#[trigger] ps[i]).0].files[ps[i].1].package_id
    &&& forall|i: int| 0 <= i < ps.len() ==> pos_before((#[trigger] ps[i]).0, ps[i].1, b, f)
    &&& forall|b2: int, f2: int|
        pos_before(b2, f2, b, f) && #[trigger] file_for(bs, b2, f2, ct, bs[b2].files[f2].package_id)
            ==> acc.1.contains(bs[b2].files[f2].package_id)
}

proof fn lemma_bundle_files_inv(
    bs: Seq<BundleView>,
    ct: ContentType,
    content: Seq<LinkedArtifactView>,
    metas: Seq<PackageMetaView>,
    b: int,
    f: int,
    acc0: RowsAcc,
    ps0: Seq<(int, int)>,
) -> (ps: Seq<(int, int)>)
    requires
        0 <= b < bs.len(),
        0 <= f <= bs[b].files.len(),
        rows_inv(bs, ct, content, metas, acc0, ps0, b, 0),
    ensures
        rows_inv(
            bs,
            ct,
            content,
            metas,
            bundle_files_rows(acc0, bs[b], bs[b].files.take(f), ct, content, metas),
            ps,
            b,
            f,
        ),
    decreases f,
{
    let fs = bs[b].files;
    if f == 0 {
        assert(fs.take(0).len() == 0);
        ps0
    } else {
        let prev_ps = lemma_bundle_files_inv(bs, ct, content, metas, b, f - 1, acc0, ps0);
        let prev = bundle_files_rows(acc0, bs[b], fs.take(f - 1), ct, content, metas);
        assert(fs.take(f).drop_last() =~= fs.take(f - 1));
        assert(fs.take(f).last() == fs[f - 1]);
        let file = fs[f - 1];
        let acc = bundle_files_rows(acc0, bs[b], fs.take(f), ct, content, metas);
        assert(acc == bundle_file_row(prev, bs[b], file, ct, content, metas));
        if file.content_type != ct || prev.1.contains(file.package_id) {
            assert forall|b2: int, f2: int|
                pos_before(b2, f2, b, f) && #[trigger] file_for(bs, b2, f2, ct, bs[b2].files[f2].package_id)
                    implies acc.1.contains(bs[b2].files[f2].package_id) by {
                if !pos_before(b2, f2, b, f - 1) {
                    assert(b2 == b && f2 == f - 1);
                }
            }
            prev_ps
        } else {
            let ps = prev_ps.push((b, f - 1));
            let pid = file.package_id;
            assert(first_file_for(bs, b, f - 1, ct)) by {
                assert forall|b2: int, f2: int| #[trigger] file_for(bs, b2, f2, ct, pid) implies !pos_before(
                    b2,
                    f2,
                    b,
                    f - 1,
                ) by {
                    if pos_before(b2, f2, b, f - 1) {
                        assert(file_for(bs, b2, f2, ct, bs[b2].files[f2].package_id));
                    }
                }
            }
            assert forall|i: int| 0 <= i < ps.len() implies first_file_for(bs, (#[trigger] ps[i]).0, ps[i].1, ct)
                && acc.0[i] == bundle_entry(bs[ps[i].0], bs[ps[i].0].files[ps[i].1], content, metas) by {
                if i < prev_ps.len() {
                    assert(ps[i] == prev_ps[i]);
                    assert(acc.0[i] == prev.0[i]);
                }
            }
            assert forall|i: int, j: int| 0 <= i < j < ps.len() implies pos_before(
                (#[trigger] ps[i]).0,
                ps[i].1,
                (#[trigger] ps[j]).0,
                ps[j].1,
            ) by {
                assert(ps[i] == prev_ps[i]);
                if j < prev_ps.len() {
                    assert(ps[j] == prev_ps[j]);
                }
            }
            assert forall|i: int| 0 <= i < ps.len() implies acc.1[i] == bs[(#[trigger] ps[i]).0].files[ps[i].1].package_id by {
                if i < prev_ps.len() {
                    assert(ps[i] == prev_ps[i]);
                }
            }
            assert forall|i: int| 0 <= i < ps.len() implies pos_before((#[trigger] ps[i]).0, ps[i].1, b, f) by {
                if i < prev_ps.len() {
                    assert(ps[i] == prev_ps[i]);
                }
            }
            assert forall|b2: int, f2: int|
                pos_before(b2, f2, b, f) && #[trigger] file_for(bs, b2, f2, ct, bs[b2].files[f2].package_id)
                    implies acc.1.contains(bs[b2].files[f2].package_id) by {
                if pos_before(b2, f2, b, f - 1) {
                    let k = choose|k: int| 0 <= k < prev.1.len() && prev.1[k] == bs[b2].files[f2].package_id;
                    assert(acc.1[k] == prev.1[k]);
                } else {
                    assert(b2 == b && f2 == f - 1);
                    assert(acc.1[prev.1.len() as int] == pid);
                }
            }
            ps
        }
    }
}

proof fn lemma_bundles_inv(
    bs: Seq<BundleView>,
    ct: ContentType,
    content: Seq<LinkedArtifactView>,
    metas: Seq<PackageMetaView>,
    b: int,
) -> (ps: Seq<(int, int)>)
    requires
        0 <= b <= bs.len(),
    ensures
        rows_inv(bs, ct, content, metas, bundles_rows(bs.take(b), ct, content, metas), ps, b, 0),
    decreases b,
{
    if b == 0 {
        assert(bs.take(0).len() == 0);
        Seq::empty()
    } else {
        let ps0 = lemma_bundles_inv(bs, ct, content, metas, b - 1);
        let fs = bs[b - 1].files;
        let acc0 = bundles_rows(bs.take(b - 1), ct, content, metas);
        let ps = lemma_bundle_files_inv(bs, ct, content, metas, b - 1, fs.len() as int, acc0, ps0);
        assert(bs.take(b).drop_last() =~= bs.take(b - 1));
        assert(bs.take(b).last() == bs[b - 1]);
        assert(fs.take(fs.len() as int) =~= fs);
        let acc = bundles_rows(bs.take(b), ct, content, metas);
        assert(acc == bundle_files_rows(acc0, bs[b - 1], fs, ct, content, metas));
        assert forall|i: int| 0 <= i < ps.len() implies pos_before((#[trigger] ps[i]).0, ps[i].1, b, 0) by {
            assert(pos_before(ps[i].0, ps[i].1, b - 1, fs.len() as int));
        }
        assert forall|b2: int, f2: int|
            pos_before(b2, f2, b, 0) && #[trigger] file_for(bs, b2, f2, ct, bs[b2].files[f2].package_id)
                implies acc.1.contains(bs[b2].files[f2].package_id) by {
            assert(pos_before(b2, f2, b - 1, fs.len() as int));
        }
        ps
    }
}

/// The rows a bundle adds come first: one for each package that some file of
/// the content type names in the bundles, made from the first such file (in
/// bundle order, then file order), in that order, and no package twice.
pub proof fn law_bundle_rows_first(
    content: Seq<LinkedArtifactView>,
    bundles: Seq<BundleView>,
    metas: Seq<PackageMetaView>,
    ct: ContentType,
)
    ensures
        ({
            let rows = bundles_rows(bundles, ct, content, metas).0;
            &&& package_rows(content, bundles, metas, ct).take(rows.len() as int) == rows
            &&& exists|ps: Seq<(int, int)>| rows_at(bundles, ct, content, metas, rows, ps)
            &&& forall|b: int, f: int|
                #[trigger] file_for(bundles, b, f, ct, bundles[b].files[f].package_id) ==> exists|i: int|
                    0 <= i < rows.len() && (#[trigger] rows[i]).package_id == bundles[b].files[f].package_id
            &&& forall|i: int, j: int|
                0 <= i < j < rows.len() ==> (#[trigger] rows[i]).package_id != (#[trigger] rows[j]).package_id
        }),
{
    let n = bundles.len() as int;
    let ps = lemma_bundles_inv(bundles, ct, content, metas, n);
    assert(bundles.take(n) =~= bundles);
    let acc = bundles_rows(bundles, ct, content, metas);
    let rows = acc.0;
    law_content_rows_follow(content, bundles, metas, ct);
    let pr = package_rows(content, bundles, metas, ct);
    assert(pr.take(rows.len() as int) =~= rows);
    assert forall|b: int, f: int|
        #[trigger] file_for(bundles, b, f, ct, bundles[b].files[f].package_id) implies exists|i: int|
            0 <= i < rows.len() && (#[trigger] rows[i]).package_id == bundles[b].files[f].package_id by {
        assert(pos_before(b, f, n, 0));
        let k = choose|k: int| 0 <= k < acc.1.len() && acc.1[k] == bundles[b].files[f].package_id;
        assert(ps[k] == ps[k]);
        assert(rows[k].package_id == acc.1[k]);
    }
    assert forall|i: int, j: int| 0 <= i < j < rows.len() implies (#[trigger] rows[i]).package_id
        != (#[trigger] rows[j]).package_id by {
        let (bi, fi) = ps[i];
        let (bj, fj) = ps[j];
        assert(first_file_for(bundles, bi, fi, ct));
        assert(first_file_for(bundles, bj, fj, ct));
        assert(pos_before(bi, fi, bj, fj));
        if rows[i].package_id == rows[j].package_id {
            assert(rows[i].package_id == bundles[bi].files[fi].package_id);
            assert(rows[j].package_id == bundles[bj].files[fj].package_id);
            assert(file_for(bundles, bi, fi, ct, bundles[bj].files[fj].package_id));
        }
    }
}

/// What the provider says of a package wins on its row: the record found by
/// the row's provider and package id gives the name and the description when
/// they are not empty; only without a summary does the description fall back
/// to "Version " and the linked version, or stay empty.
pub open spec fn shows_provider_record(row: PackageEntryView, metas: Seq<PackageMetaView>) -> bool {
    let m = meta_for(metas, row.provider, row.package_id);
    &&& match m {
        Some(x) => x.summary.len() > 0 ==> row.description == x.summary,
        None => true,
    }
    &&& match m {
        Some(x) => x.name.len() > 0 ==> row.name == x.name,
        None => true,
    }
    &&& (match m {
        Some(x) => x.summary.len() == 0,
        None => true,
    }) ==> (row.description.len() == 0 || row.description.take(8) == "Version "@)
}

proof fn lemma_row_shows_record(
    pid: Seq<char>,
    bundle_name: Option<Seq<char>>,
    provider: ProviderId,
    size: u64,
    categories: Seq<Seq<char>>,
    enabled: bool,
    manifest_default: bool,
    info: Option<LinkedArtifactView>,
    metas: Seq<PackageMetaView>,
    fallback: Seq<char>,
)
    ensures
        shows_provider_record(
            row_of(
                pid,
                bundle_name,
                provider,
                size,
                categories,
                enabled,
                manifest_default,
                info,
                meta_for(metas, provider, pid),
                fallback,
            ),
            metas,
        ),
{
    reveal_strlit("Version ");
    let row = row_of(
        pid,
        bundle_name,
        provider,
        size,
        categories,
        enabled,
        manifest_default,
        info,
        meta_for(metas, provider, pid),
        fallback,
    );
    if info is Some && info->0.display_version is Some {
        let v = info->0.display_version->0;
        assert(("Version "@ + v).take(8) =~= "Version "@);
    }
}

/// Every row of the package manager shows its provider record's name and
/// summary when they are not empty, whether a bundle ships the package or it
/// is only linked content.
pub proof fn law_rows_show_provider_record(
    content: Seq<LinkedArtifactView>,
    bundles: Seq<BundleView>,
    metas: Seq<PackageMetaView>,
    ct: ContentType,
)
    ensures
        forall|i: int|
            0 <= i < package_rows(content, bundles, metas, ct).len() ==> shows_provider_record(
                #[trigger] package_rows(content, bundles, metas, ct)[i],
                metas,
            ),
{
    let acc = bundles_rows(bundles, ct, content, metas);
    let rows = package_rows(content, bundles, metas, ct);
    law_bundle_rows_first(content, bundles, metas, ct);
    law_content_rows_follow(content, bundles, metas, ct);
    let ps = choose|ps: Seq<(int, int)>| rows_at(bundles, ct, content, metas, acc.0, ps);
    let rest = content.filter(|x: LinkedArtifactView| !claimed(acc.1, x));
    let tail = rest.map_values(|x: LinkedArtifactView| content_entry(x, metas));
    assert(rows == acc.0 + tail);
    assert forall|i: int| 0 <= i < rows.len() implies shows_provider_record(#[trigger] rows[i], metas) by {
        if i < acc.0.len() {
            assert(rows[i] == acc.0[i]);
            let (b, f) = ps[i];
            let bv = bundles[b];
            let fv = bv.files[f];
            let info = installed_for(content, fv.package_id);
            let enabled = match info {
                Some(x) => x.enabled,
                None => fv.effective_enabled,
            };
            let cats = if fv.hidden || bv.category.len() == 0 {
                Seq::empty()
            } else {
                seq![bv.category]
            };
            lemma_row_shows_record(
                fv.package_id,
                Some(bv.name),
                fv.provider(),
                fv.size,
                cats,
                enabled,
                fv.enabled,
                info,
                metas,
                fv.display_name,
            );
        } else {
            let x = rest[i - acc.0.len()];
            assert(rows[i] == tail[i - acc.0.len()]);
            assert(tail[i - acc.0.len()] == content_entry(x, metas));
            let provider = match x.provider {
                Some(p) => p,
                None => ProviderId::Local,
            };
            let pid = match x.project_id {
                Some(p) => p,
                None => x.hash,
            };
            lemma_row_shows_record(
                pid,
                None,
                provider,
                0,
                Seq::empty(),
                x.enabled,
                true,
                Some(x),
                metas,
                match x.display_name {
                    Some(d) => d,
                    None => x.file_name,
                },
            );
        }
    }
}

proof fn lemma_content_rows_shape(
    rows: Seq<PackageEntryView>,
    seen: Seq<Seq<char>>,
    xs: Seq<LinkedArtifactView>,
    metas: Seq<PackageMetaView>,
)
    ensures
        content_rows(rows, seen, xs, metas) == rows + xs.filter(|x: LinkedArtifactView| !claimed(seen, x)).map_values(
            |x: LinkedArtifactView| content_entry(x, metas),
        ),
    decreases xs.len(),
{
    reveal_with_fuel(Seq::<_>::filter, 1);
    let pred = |x: LinkedArtifactView| !claimed(seen, x);
    let f = |x: LinkedArtifactView| content_entry(x, metas);
    if xs.len() == 0 {
        assert(rows + xs.filter(pred).map_values(f) =~= rows);
    } else {
        lemma_content_rows_shape(rows, seen, xs.drop_last(), metas);
        let before = xs.drop_last().filter(pred);
        if pred(xs.last()) {
            assert(xs.filter(pred) == before.push(xs.last()));
            assert(rows + before.push(xs.last()).map_values(f) =~= (rows + before.map_values(f)).push(f(xs.last())));
        } else {
            assert(xs.filter(pred) == before);
        }
    }
}

/// The package rows are the bundle rows, then, in content order, one row for
/// each linked artifact that no bundle row stands for (by project id or by
/// hash), keyed by its project id or else its hash, in no bundle, with no
/// size and no category, installed, and enabled as the artifact is.
pub proof fn law_content_rows_follow(
    content: Seq<LinkedArtifactView>,
    bundles: Seq<BundleView>,
    metas: Seq<PackageMetaView>,
    ct: ContentType,
)
    ensures
        ({
            let acc = bundles_rows(bundles, ct, content, metas);
            package_rows(content, bundles, metas, ct) == acc.0 + content.filter(
                |x: LinkedArtifactView| !claimed(acc.1, x),
            ).map_values(|x: LinkedArtifactView| content_entry(x, metas))
        }),
{
    let acc = bundles_rows(bundles, ct, content, metas);
    lemma_content_rows_shape(acc.0, acc.1, content, metas);
}

/// The package manager's rows: each package of the bundles once, first bundle
/// first, then each linked artifact no bundle row stands for.
pub open spec fn package_rows(
    content: Seq<LinkedArtifactView>,
    bundles: Seq<BundleView>,
    metas: Seq<PackageMetaView>,
    ct: ContentType,
) -> Seq<PackageEntryView> {
    let acc = bundles_rows(bundles, ct, content, metas);
    content_rows(acc.0, acc.1, content, metas)
}

fn add_bundle_file_row(
    rows: &mut Vec<PackageEntry>,
    seen: &mut Vec<String>,
    b: &Bundle,
    f: &BundleFile,
    ct: ContentType,
    content: &[LinkedArtifact],
    metas: &[PackageMeta],
)
    ensures
        (entries_view(final(rows)@), strings_view(final(seen)@)) == bundle_file_row(
            (entries_view(old(rows)@), strings_view(old(seen)@)),
            b@,
            f@,
            ct,
            artifacts_view(content@),
            metas_view(metas@),
        ),
{
    if f.content_type != ct || strings_contain(&*seen, f.package_id.as_str()) {
        return;
    }
    let info = find_installed(content, f.package_id.as_str());
    let enabled = match info {
        Some(i) => i.enabled,
        None => f.effective_enabled,
    };
    let mut cats: Vec<String> = Vec::new();
    if !(f.hidden || b.category.unicode_len() == 0) {
        cats.push(b.category.clone());
    }
    assert(strings_view(cats@) =~= if f.hidden || b@.category.len() == 0 {
        Seq::<Seq<char>>::empty()
    } else {
        seq![b@.category]
    });
    let row = make_row(
        f.package_id.clone(),
        Some(b.name.clone()),
        crate::naming::file_provider(f),
        f.size,
        cats,
        enabled,
        f.enabled,
        info,
        metas,
        f.display_name.clone(),
    );
    let ghost r0 = rows@;
    let ghost s0 = seen@;
    rows.push(row);
    seen.push(f.package_id.clone());
    assert(entries_view(rows@) =~= entries_view(r0).push(row@));
    assert(strings_view(seen@) =~= strings_view(s0).push(f.package_id@));
}

fn add_content_row(
    rows: &mut Vec<PackageEntry>,
    seen: &Vec<String>,
    x: &LinkedArtifact,
    metas: &[PackageMeta],
)
    ensures
        entries_view(final(rows)@) == content_row(
            entries_view(old(rows)@),
            strings_view(seen@),
            x@,
            metas_view(metas@),
        ),
{
    let by_project = match &x.project_id {
        Some(p) => strings_contain(seen, p.as_str()),
        None => false,
    };
    if by_project || strings_contain(seen, x.hash.as_str()) {
        return;
    }
    let provider = match x.provider {
        Some(p) => p,
        None => ProviderId::Local,
    };
    let pid = match &x.project_id {
        Some(p) => p.clone(),
        None => x.hash.clone(),
    };
    let fallback = match &x.display_name {
        Some(d) => d.clone(),
        None => x.file_name.clone(),
    };
    let no_categories: Vec<String> = Vec::new();
    assert(strings_view(no_categories@) =~= Seq::<Seq<char>>::empty());
    let row = make_row(pid, None, provider, 0, no_categories, x.enabled, true, Some(x), metas, fallback);
    let ghost r0 = rows@;
    rows.push(row);
    assert(entries_view(rows@) =~= entries_view(r0).push(row@));
}

/// The rows of the package manager for one content type. Each package a
/// bundle ships is listed once, under the first bundle that ships it, taking
/// its enabled state from the linked artifact when there is one and from the
/// manifest (with the user's override) otherwise; then every linked artifact
/// that no bundle row stands for is listed as installed by hand. A row's name,
/// author and description come from the provider's record when it has them.
pub fn bundle_packages(
    content: Vec<LinkedArtifact>,
    bundles: &[Bundle],
    metas: &[PackageMeta],
    content_type: ContentType,
) -> (r: Vec<PackageEntry>)
    ensures
        entries_view(r@) == package_rows(
            artifacts_view(content@),
            bundles_view(bundles@),
            metas_view(metas@),
            content_type,
        ),
{
    let ghost cv = artifacts_view(content@);
    let ghost bv = bundles_view(bundles@);
    let ghost mv = metas_view(metas@);
    let mut rows: Vec<PackageEntry> = Vec::new();
    let mut seen: Vec<String> = Vec::new();
    let mut b: usize = 0;
    assert(entries_view(rows@) =~= Seq::<PackageEntryView>::empty());
    assert(strings_view(seen@) =~= Seq::<Seq<char>>::empty());
    while b < bundles.len()
        invariant
            b <= bundles@.len(),
            cv == artifacts_view(content@),
            bv == bundles_view(bundles@),
            mv == metas_view(metas@),
            (entries_view(rows@), strings_view(seen@)) == bundles_rows(
                bv.subrange(0, b as int),
                content_type,
                cv,
                mv,
            ),
        decreases bundles@.len() - b,
    {
        let bundle = &bundles[b];
        let ghost fv = bundle@.files;
        let ghost start = (entries_view(rows@), strings_view(seen@));
        let mut f: usize = 0;
        while f < bundle.files.len()
            invariant
                f <= bundle.files@.len(),
                fv == bundle@.files,
                cv == artifacts_view(content@),
                mv == metas_view(metas@),
                (entries_view(rows@), strings_view(seen@)) == bundle_files_rows(
                    start,
                    bundle@,
                    fv.subrange(0, f as int),
                    content_type,
                    cv,
                    mv,
                ),
            decreases bundle.files@.len() - f,
        {
            assert(fv.subrange(0, f + 1).drop_last() =~= fv.subrange(0, f as int));
            assert(fv[f as int] == bundle.files@[f as int]@);
            add_bundle_file_row(&mut rows, &mut seen, bundle, &bundle.files[f], content_type, content.as_slice(), metas);
            f = f + 1;
        }
        assert(fv.subrange(0, f as int) =~= fv);
        assert(bv.subrange(0, b + 1).drop_last() =~= bv.subrange(0, b as int));
        assert(bv[b as int] == bundle@);
        b = b + 1;
    }
    assert(bv.subrange(0, b as int) =~= bv);
    let ghost seen_v = strings_view(seen@);
    let ghost start_rows = entries_view(rows@);
    let mut i: usize = 0;
    while i < content.len()
        invariant
            i <= content@.len(),
            cv == artifacts_view(content@),
            mv == metas_view(metas@),
            seen_v == strings_view(seen@),
            entries_view(rows@) == content_rows(start_rows, seen_v, cv.subrange(0, i as int), mv),
        decreases content@.len() - i,
    {
        assert(cv.subrange(0, i + 1).drop_last() =~= cv.subrange(0, i as int));
        add_content_row(&mut rows, &seen, &content[i], metas);
        i = i + 1;
    }
    assert(cv.subrange(0, i as int) =~= cv);
    rows
}


/// An order the package rows can be sorted in.
#[derive(Clone, Copy, PartialEq, Eq, Debug, Structural)]
pub enum SortMode {
    NameAsc,
    NameDesc,
    SizeAsc,
    SizeDesc,
}

pub open spec fn sort_key_text(m: SortMode) -> Seq<char> {
    match m {
        SortMode::NameAsc => "name_asc"@,
        SortMode::NameDesc => "name_desc"@,
        SortMode::SizeAsc => "size_asc"@,
        SortMode::SizeDesc => "size_desc"@,
    }
}

pub open spec fn sort_label_text(m: SortMode) -> Seq<char> {
    match m {
        SortMode::NameAsc => "Name (A-Z)"@,
        SortMode::NameDesc => "Name (Z-A)"@,
        SortMode::SizeAsc => "Size (Smallest)"@,
        SortMode::SizeDesc => "Size (Largest)"@,
    }
}

/// The mode saved under `key`: the first of name ascending, name descending,
/// size ascending and size descending whose key it is.
pub open spec fn mode_for_key(key: Seq<char>) -> Option<SortMode> {
    if key == sort_key_text(SortMode::NameAsc) {
        Some(SortMode::NameAsc)
    } else if key == sort_key_text(SortMode::NameDesc) {
        Some(SortMode::NameDesc)
    } else if key == sort_key_text(SortMode::SizeAsc) {
        Some(SortMode::SizeAsc)
    } else if key == sort_key_text(SortMode::SizeDesc) {
        Some(SortMode::SizeDesc)
    } else {
        None
    }
}

/// The text a row is sorted by: the lower-cased name of provider content, the
/// lower-cased file name of a local file.
pub open spec fn sort_title(p: PackageEntryView) -> Seq<char> {
    lowercase(
        if p.provider.spec_is_remote() {
            p.name
        } else {
            p.file_name
        },
    )
}

/// `a` may come before `b` in the order `m`.
pub open spec fn sort_le(m: SortMode, a: PackageEntryView, b: PackageEntryView) -> bool {
    match m {
        SortMode::NameAsc => seq_le(sort_title(a), sort_title(b)),
        SortMode::NameDesc => seq_le(sort_title(b), sort_title(a)),
        SortMode::SizeAsc => a.size <= b.size,
        SortMode::SizeDesc => b.size <= a.size,
    }
}

/// `a` and `b` tie in the order `m`.
pub open spec fn sort_tie(m: SortMode, a: PackageEntryView, b: PackageEntryView) -> bool {
    sort_le(m, a, b) && sort_le(m, b, a)
}

/// `output` is `input` rearranged by `perm` (`output[i]` is `input[perm[i]]`),
/// in order `m`, with tied rows kept in their input order.
pub open spec fn stable_perm(
    m: SortMode,
    input: Seq<PackageEntryView>,
    output: Seq<PackageEntryView>,
    perm: Seq<int>,
) -> bool {
    &&& perm.len() == input.len()
    &&& output.len() == input.len()
    &&& forall|i: int|
        0 <= i < output.len() ==> 0 <= #[trigger] perm[i] < input.len() && output[i]
            == input[perm[i]]
    &&& forall|i: int, j: int| 0 <= i < j < perm.len() ==> perm[i] != perm[j]
    &&& forall|i: int, j: int|
        0 <= i < j < output.len() ==> sort_le(m, #[trigger] output[i], #[trigger] output[j])
    &&& forall|i: int, j: int|
        0 <= i < j < output.len() && sort_tie(m, #[trigger] output[i], #[trigger] output[j])
            ==> perm[i] < perm[j]
}

/// `output` is the stable sort of `input` in order `m`.
pub open spec fn is_stable_sort(m: SortMode, input: Seq<PackageEntryView>, output: Seq<PackageEntryView>) -> bool {
    exists|perm: Seq<int>| stable_perm(m, input, output, perm)
}

/// The text a row sorts by: a provider package's name, a local file's file
/// name.
pub open spec fn row_title(p: PackageEntryView) -> Seq<char> {
    if p.provider == ProviderId::Local {
        p.file_name
    } else {
        p.name
    }
}

/// Sorting keeps every row and orders them as the mode says: by size
/// ascending or descending, or by the lower-cased title from A to Z or from
/// Z to A.
pub proof fn law_sort_orders(m: SortMode, input: Seq<PackageEntryView>, output: Seq<PackageEntryView>)
    requires
        is_stable_sort(m, input, output),
    ensures
        output.len() == input.len(),
        forall|i: int| 0 <= i < output.len() ==> input.contains(#[trigger] output[i]),
        forall|i: int, j: int|
            0 <= i < j < output.len() ==> (m == SortMode::SizeAsc ==> (#[trigger] output[i]).size
                <= (#[trigger] output[j]).size) && (m == SortMode::SizeDesc ==> output[i].size >= output[j].size)
                && (m == SortMode::NameAsc ==> seq_le(lowercase(row_title(output[i])), lowercase(row_title(output[j]))))
                && (m == SortMode::NameDesc ==> seq_le(lowercase(row_title(output[j])), lowercase(row_title(output[i])))),
{
    let perm = choose|perm: Seq<int>| stable_perm(m, input, output, perm);
    assert forall|i: int| 0 <= i < output.len() implies input.contains(#[trigger] output[i]) by {
        assert(input[perm[i]] == output[i]);
    }
    assert forall|i: int, j: int| 0 <= i < j < output.len() implies (m == SortMode::SizeAsc ==> (
    #[trigger] output[i]).size <= (#[trigger] output[j]).size) && (m == SortMode::SizeDesc ==> output[i].size
        >= output[j].size) && (m == SortMode::NameAsc ==> seq_le(lowercase(row_title(output[i])), lowercase(row_title(output[j]))))
        && (m == SortMode::NameDesc ==> seq_le(lowercase(row_title(output[j])), lowercase(row_title(output[i])))) by {
        assert(sort_le(m, output[i], output[j]));
        assert(sort_title(output[i]) == lowercase(row_title(output[i])));
        assert(sort_title(output[j]) == lowercase(row_title(output[j])));
    }
}

pub proof fn lemma_sort_le_preorder(m: SortMode, a: PackageEntryView, b: PackageEntryView, c: PackageEntryView)
    ensures
        sort_le(m, a, a),
        sort_le(m, a, b) || sort_le(m, b, a),
        sort_le(m, a, b) && sort_le(m, b, c) ==> sort_le(m, a, c),
{
    lemma_le_total_preorder(sort_title(a), sort_title(b), sort_title(c));
    lemma_le_total_preorder(sort_title(c), sort_title(b), sort_title(a));
    lemma_le_total_preorder(sort_title(b), sort_title(a), sort_title(c));
}

impl SortMode {
    /// The key the mode is saved under.
    pub fn key(self) -> (r: &'static str)
        ensures
            r@ == sort_key_text(self),
    {
        match self {
            SortMode::NameAsc => "name_asc",
            SortMode::NameDesc => "name_desc",
            SortMode::SizeAsc => "size_asc",
            SortMode::SizeDesc => "size_desc",
        }
    }

    /// The mode saved under `key`, if any.
    pub fn from_key(key: &str) -> (r: Option<SortMode>)
        ensures
            r == mode_for_key(key@),
    {
        let all = [SortMode::NameAsc, SortMode::NameDesc, SortMode::SizeAsc, SortMode::SizeDesc];
        let mut i: usize = 0;
        while i < 4
            invariant
                i <= 4,
                all@ == seq![SortMode::NameAsc, SortMode::NameDesc, SortMode::SizeAsc, SortMode::SizeDesc],
                forall|j: int| 0 <= j < i ==> sort_key_text(#[trigger] all@[j]) != key@,
            decreases 4 - i,
        {
            let mode = all[i];
            if crate::text::str_eq(mode.key(), key) {
                return Some(mode);
            }
            i = i + 1;
        }
        assert(sort_key_text(all@[0]) != key@);
        assert(sort_key_text(all@[1]) != key@);
        assert(sort_key_text(all@[2]) != key@);
        assert(sort_key_text(all@[3]) != key@);
        None
    }

    /// The mode's name in the sort menu.
    pub fn label(self) -> (r: &'static str)
        ensures
            r@ == sort_label_text(self),
    {
        match self {
            SortMode::NameAsc => "Name (A-Z)",
            SortMode::NameDesc => "Name (Z-A)",
            SortMode::SizeAsc => "Size (Smallest)",
            SortMode::SizeDesc => "Size (Largest)",
        }
    }

    /// Sorts the rows in this order. The sort is stable: rows that tie keep
    /// the order they had.
    pub fn sort(self, rows: &mut Vec<PackageEntry>)
        ensures
            is_stable_sort(self, entries_view(old(rows)@), entries_view(final(rows)@)),
    {
        let ghost iv = entries_view(rows@);
        let n = rows.len();
        let mut titles: Vec<Vec<char>> = Vec::new();
        let mut k: usize = 0;
        while k < n
            invariant
                n == rows@.len(),
                iv == entries_view(rows@),
                k <= n,
                titles@.len() == k,
                forall|j: int| 0 <= j < k ==> (#[trigger] titles@[j])@ == sort_title(iv[j]),
            decreases n - k,
        {
            let p = &rows[k];
            let text = if p.is_remote() {
                to_lower(p.name.as_str())
            } else {
                to_lower(p.file_name.as_str())
            };
            titles.push(chars_of(text.as_str()));
            k = k + 1;
        }
        let mut order: Vec<usize> = Vec::new();
        let mut i: usize = 0;
        while i < n
            invariant
                n == rows@.len(),
                iv == entries_view(rows@),
                i <= n,
                titles@.len() == n,
                forall|j: int| 0 <= j < n ==> (#[trigger] titles@[j])@ == sort_title(iv[j]),
                order@.len() == i,
                forall|a: int| 0 <= a < i ==> #[trigger] order@[a] < i,
                forall|a: int, b: int| 0 <= a < b < i ==> order@[a] != order@[b],
                forall|a: int, b: int|
                    0 <= a < b < i ==> sort_le(self, iv[#[trigger] order@[a] as int], iv[#[trigger] order@[b] as int]),
                forall|a: int, b: int|
                    0 <= a < b < i && sort_tie(self, iv[#[trigger] order@[a] as int], iv[#[trigger] order@[b] as int])
                        ==> order@[a] < order@[b],
            decreases n - i,
        {
            let mut p: usize = i;
            while p > 0 && !self.le_at(&titles, rows, order[p - 1], i)
                invariant
                    n == rows@.len(),
                    iv == entries_view(rows@),
                    i < n,
                    titles@.len() == n,
                    forall|j: int| 0 <= j < n ==> (#[trigger] titles@[j])@ == sort_title(iv[j]),
                    order@.len() == i,
                    forall|a: int| 0 <= a < i ==> #[trigger] order@[a] < i,
                    p <= i,
                    forall|q: int| p <= q < i ==> !sort_le(self, iv[#[trigger] order@[q] as int], iv[i as int]),
                decreases p,
            {
                p = p - 1;
            }
            let ghost o = order@;
            proof {
                assert(p == 0 || sort_le(self, iv[o[p - 1] as int], iv[i as int]));
                assert forall|a: int, b: int| 0 <= a < b < i + 1 implies sort_le(
                    self,
                    iv[#[trigger] o.insert(p as int, i)[a] as int],
                    iv[#[trigger] o.insert(p as int, i)[b] as int],
                ) by {
                    let no = o.insert(p as int, i);
                    if b < p {
                    } else if b == p {
                        if a < p - 1 {
                            lemma_sort_le_preorder(self, iv[o[a] as int], iv[o[p - 1] as int], iv[i as int]);
                        }
                    } else if a == p {
                        lemma_sort_le_preorder(self, iv[i as int], iv[o[b - 1] as int], iv[i as int]);
                    } else if a < p {
                        assert(no[a] == o[a]);
                        assert(no[b] == o[b - 1]);
                    } else {
                        assert(no[a] == o[a - 1]);
                        assert(no[b] == o[b - 1]);
                    }
                }
                assert forall|a: int, b: int|
                    0 <= a < b < i + 1 && sort_tie(
                        self,
                        iv[#[trigger] o.insert(p as int, i)[a] as int],
                        iv[#[trigger] o.insert(p as int, i)[b] as int],
                    ) implies o.insert(p as int, i)[a] < o.insert(p as int, i)[b] by {
                    let no = o.insert(p as int, i);
                    if b < p {
                    } else if b == p {
                    } else if a == p {
                    } else if a < p {
                        assert(no[a] == o[a]);
                        assert(no[b] == o[b - 1]);
                    } else {
                        assert(no[a] == o[a - 1]);
                        assert(no[b] == o[b - 1]);
                    }
                }
                assert forall|a: int, b: int| 0 <= a < b < i + 1 implies o.insert(p as int, i)[a]
                    != o.insert(p as int, i)[b] by {
                    let no = o.insert(p as int, i);
                    if b < p {
                    } else if b == p {
                    } else if a == p {
                        assert(no[b] == o[b - 1]);
                    } else if a < p {
                        assert(no[b] == o[b - 1]);
                    } else {
                        assert(no[a] == o[a - 1]);
                        assert(no[b] == o[b - 1]);
                    }
                }
                assert forall|a: int| 0 <= a < i + 1 implies #[trigger] o.insert(p as int, i)[a] < i + 1 by {
                    if a < p {
                    } else if a > p {
                        assert(o.insert(p as int, i)[a] == o[a - 1]);
                    }
                }
            }
            order.insert(p, i);
            assert(order@ == o.insert(p as int, i));
            i = i + 1;
        }
        let mut out: Vec<PackageEntry> = Vec::new();
        let mut j: usize = 0;
        while j < n
            invariant
                n == rows@.len(),
                iv == entries_view(rows@),
                order@.len() == n,
                forall|a: int| 0 <= a < n ==> #[trigger] order@[a] < n,
                j <= n,
                out@.len() == j,
                forall|a: int| 0 <= a < j ==> (#[trigger] out@[a])@ == iv[order@[a] as int],
            decreases n - j,
        {
            let row = rows[order[j]].copy();
            out.push(row);
            j = j + 1;
        }
        let ghost perm = order@.map_values(|x: usize| x as int);
        let ghost ov = entries_view(out@);
        assert(stable_perm(self, iv, ov, perm)) by {
            assert forall|a: int| 0 <= a < ov.len() implies 0 <= #[trigger] perm[a] < iv.len() && ov[a]
                == iv[perm[a]] by {
                assert(ov[a] == out@[a]@);
            }
            assert forall|a: int, b: int|
                0 <= a < b < ov.len() implies sort_le(self, #[trigger] ov[a], #[trigger] ov[b]) by {
                assert(ov[a] == iv[order@[a] as int]);
                assert(ov[b] == iv[order@[b] as int]);
            }
            assert forall|a: int, b: int|
                0 <= a < b < ov.len() && sort_tie(self, #[trigger] ov[a], #[trigger] ov[b]) implies perm[a]
                < perm[b] by {
                assert(ov[a] == iv[order@[a] as int]);
                assert(ov[b] == iv[order@[b] as int]);
            }
            assert forall|a: int, b: int| 0 <= a < b < perm.len() implies perm[a] != perm[b] by {
                assert(order@[a] != order@[b]);
            }
        }
        *rows = out;
    }

    /// Whether row `a` may come before row `b`, given each row's sort title.
    fn le_at(self, titles: &Vec<Vec<char>>, rows: &Vec<PackageEntry>, a: usize, b: usize) -> (r: bool)
        requires
            a < rows@.len(),
            b < rows@.len(),
            titles@.len() == rows@.len(),
            forall|j: int| 0 <= j < rows@.len() ==> (#[trigger] titles@[j])@ == sort_title(entries_view(rows@)[j]),
        ensures
            r == sort_le(self, entries_view(rows@)[a as int], entries_view(rows@)[b as int]),
    {
        assert(titles@[a as int]@ == sort_title(entries_view(rows@)[a as int]));
        assert(titles@[b as int]@ == sort_title(entries_view(rows@)[b as int]));
        match self {
            SortMode::NameAsc => !chars_lt(titles[b].as_slice(), titles[a].as_slice()),
            SortMode::NameDesc => !chars_lt(titles[a].as_slice(), titles[b].as_slice()),
            SortMode::SizeAsc => rows[a].size <= rows[b].size,
            SortMode::SizeDesc => rows[b].size <= rows[a].size,
        }
    }
}


/// The project ids of one provider and content type that a cluster holds:
/// those its bundles name, bundle by bundle and file by file, then those of
/// the linked files, in order.
pub open spec fn bundle_ids(bs: Seq<BundleView>, ct: ContentType, provider: ProviderId) -> Seq<Seq<char>>
    decreases bs.len(),
{
    if bs.len() == 0 {
        Seq::empty()
    } else {
        bundle_ids(bs.drop_last(), ct, provider) + file_ids(bs.last().files, ct, provider)
    }
}

pub open spec fn file_ids(fs: Seq<BundleFileView>, ct: ContentType, provider: ProviderId) -> Seq<Seq<char>>
    decreases fs.len(),
{
    if fs.len() == 0 {
        Seq::empty()
    } else {
        let before = file_ids(fs.drop_last(), ct, provider);
        let f = fs.last();
        match f.kind {
            FileKindView::Managed { provider: p, project_id, .. } => if f.content_type == ct && p == provider {
                before.push(project_id)
            } else {
                before
            },
            FileKindView::External => before,
        }
    }
}

pub open spec fn content_ids(xs: Seq<LinkedArtifactView>, ct: ContentType, provider: ProviderId) -> Seq<Seq<char>>
    decreases xs.len(),
{
    if xs.len() == 0 {
        Seq::empty()
    } else {
        let before = content_ids(xs.drop_last(), ct, provider);
        let x = xs.last();
        if x.content_type == ct && x.provider == Some(provider) && x.project_id is Some {
            before.push(x.project_id->0)
        } else {
            before
        }
    }
}

/// The project ids whose metadata the package manager asks `provider` for.
pub fn provider_project_ids(content: &[LinkedArtifact], bundles: &[Bundle], content_type: ContentType, provider: ProviderId) -> (r: Vec<String>)
    ensures
        strings_view(r@) == bundle_ids(bundles_view(bundles@), content_type, provider) + content_ids(
            artifacts_view(content@),
            content_type,
            provider,
        ),
{
    let ghost bv = bundles_view(bundles@);
    let ghost cv = artifacts_view(content@);
    let mut ids: Vec<String> = Vec::new();
    let mut b: usize = 0;
    while b < bundles.len()
        invariant
            b <= bundles@.len(),
            bv == bundles_view(bundles@),
            strings_view(ids@) == bundle_ids(bv.take(b as int), content_type, provider),
        decreases bundles@.len() - b,
    {
        assert(bv.take(b + 1).drop_last() =~= bv.take(b as int));
        assert(bv.take(b + 1).last() == bundles@[b as int]@);
        let files = &bundles[b].files;
        let ghost fv = crate::domain::files_view(files@);
        let ghost start = strings_view(ids@);
        let mut f: usize = 0;
        while f < files.len()
            invariant
                f <= files@.len(),
                fv == crate::domain::files_view(files@),
                strings_view(ids@) == start + file_ids(fv.take(f as int), content_type, provider),
            decreases files@.len() - f,
        {
            assert(fv.take(f + 1).drop_last() =~= fv.take(f as int));
            assert(fv.take(f + 1).last() == files@[f as int]@);
            let file = &files[f];
            match &file.kind {
                FileKind::Managed { provider: p, project_id, .. } => {
                    if file.content_type == content_type && *p == provider {
                        let ghost before = ids@;
                        let c = project_id.clone();
                        ids.push(c);
                        proof {
                            crate::domain::lemma_strings_view_push(before, c);
                            assert(start + file_ids(fv.take(f + 1), content_type, provider) =~= (start + file_ids(
                                fv.take(f as int),
                                content_type,
                                provider,
                            )).push(c@));
                        }
                    }
                },
                FileKind::External => {},
            }
            f = f + 1;
        }
        assert(fv.take(f as int) =~= fv);
        b = b + 1;
    }
    assert(bv.take(b as int) =~= bv);
    let ghost mid = strings_view(ids@);
    let mut i: usize = 0;
    while i < content.len()
        invariant
            i <= content@.len(),
            cv == artifacts_view(content@),
            strings_view(ids@) == mid + content_ids(cv.take(i as int), content_type, provider),
        decreases content@.len() - i,
    {
        assert(cv.take(i + 1).drop_last() =~= cv.take(i as int));
        assert(cv.take(i + 1).last() == content@[i as int]@);
        let x = &content[i];
        if x.content_type == content_type && x.provider == Some(provider) {
            match &x.project_id {
                Some(pid) => {
                    let ghost before = ids@;
                    let c = pid.clone();
                    ids.push(c);
                    proof {
                        crate::domain::lemma_strings_view_push(before, c);
                        assert(mid + content_ids(cv.take(i + 1), content_type, provider) =~= (mid + content_ids(
                            cv.take(i as int),
                            content_type,
                            provider,
                        )).push(c@));
                    }
                },
                None => {},
            }
        }
        i = i + 1;
    }
    assert(cv.take(i as int) =~= cv);
    ids
}

/// The tab shown: the one picked, kept within the tabs there are.
pub fn shown_tab_index(active: usize, tab_count: usize) -> (r: usize)
    ensures
        r == (if tab_count == 0 {
            0
        } else if active < tab_count - 1 {
            active
        } else {
            (tab_count - 1) as usize
        }),
{
    if tab_count == 0 {
        0
    } else if active < tab_count - 1 {
        active
    } else {
        tab_count - 1
    }
}

/// The sort order saved under `key`, name A to Z when none is saved or the
/// key names none.
pub fn sort_mode_for(key: Option<&str>) -> (r: SortMode)
    ensures
        match key {
            Some(k) => match mode_for_key(k@) {
                Some(m) => r == m,
                None => r == SortMode::NameAsc,
            },
            None => r == SortMode::NameAsc,
        },
{
    match key {
        Some(k) => match SortMode::from_key(k) {
            Some(m) => m,
            None => SortMode::NameAsc,
        },
        None => SortMode::NameAsc,
    }
}

/// The filter button is lit when the sort or the filter differs from the
/// defaults.
pub fn filters_active(sort: SortMode, filter: EnabledFilter) -> (r: bool)
    ensures
        r == (sort != SortMode::NameAsc || filter != EnabledFilter::All),
{
    sort != SortMode::NameAsc || filter != EnabledFilter::All
}

/// What the package list shows when it shows no rows, or which list it is.
pub enum ContentKind {
    /// A search found nothing; the tab searched, unless it is "All".
    NoMatches { scope: Option<String> },
    Browser,
    Local,
    Other,
}

pub fn content_kind(nothing_shown: bool, query: &str, tab: Option<&Tab>) -> (r: ContentKind)
    ensures
        nothing_shown && query@.len() > 0 ==> match r {
            ContentKind::NoMatches { scope } => match tab {
                Some(t) => match t@ {
                    TabView::All => scope is None,
                    _ => opt_view(scope) == Some(tab_label(t@)),
                },
                None => scope is None,
            },
            _ => false,
        },
        !(nothing_shown && query@.len() > 0) ==> match tab {
            Some(t) => match t@ {
                TabView::Browser => r is Browser,
                TabView::Local => r is Local,
                _ => r is Other,
            },
            None => r is Other,
        },
{
    if nothing_shown && query.unicode_len() > 0 {
        let scope = match tab {
            Some(Tab::All) => None,
            None => None,
            Some(t) => Some(t.label()),
        };
        ContentKind::NoMatches { scope }
    } else {
        match tab {
            Some(Tab::Browser) => ContentKind::Browser,
            Some(Tab::Local) => ContentKind::Local,
            _ => ContentKind::Other,
        }
    }
}


} // verus!
