//! The package browser: which content types can be browsed, how a package is
//! named in a route, the search filters a cluster implies, and the paging of
//! results and versions.
use vstd::prelude::*;

use crate::domain::{
    artifacts_view, bundles_view, opt_view, strings_view, Bundle, ContentType, GameLoader, LinkedArtifact, ProviderId,
};
use crate::installed::{installed_map, installed_model, InstallSource, InstalledMap, InstalledVersion, InstalledView, ProjectKey};
use crate::text::{decimal, decimal_string, lowercase, str_eq, to_lower};

verus! {

/// The first major version (`1.x`) whose worlds take data packs.
pub const FIRST_DATAPACK_MAJOR: u32 = 13;

/// A cluster takes data packs unless its version parses to a major below the
/// first that does; `major` is the parsed major version, if it parsed.
pub open spec fn spec_supports_datapacks(major: Option<u32>) -> bool {
    match major {
        None => true,
        Some(m) => m >= FIRST_DATAPACK_MAJOR,
    }
}

pub fn supports_datapacks(major: Option<u32>) -> (r: bool)
    ensures
        r == spec_supports_datapacks(major),
{
    match major {
        None => true,
        Some(m) => m >= FIRST_DATAPACK_MAJOR,
    }
}

/// The title the browser gives a content slug; unknown slugs read as mods.
pub open spec fn type_title_text(slug: Seq<char>) -> Seq<char> {
    if slug == "mod"@ {
        "Mods"@
    } else if slug == "texture"@ {
        "Textures"@
    } else if slug == "shader"@ {
        "Shaders"@
    } else if slug == "datapack"@ {
        "Data packs"@
    } else {
        "Mods"@
    }
}

pub fn type_title(slug: &str) -> (r: &'static str)
    ensures
        r@ == type_title_text(slug@),
{
    if str_eq(slug, "mod") {
        "Mods"
    } else if str_eq(slug, "texture") {
        "Textures"
    } else if str_eq(slug, "shader") {
        "Shaders"
    } else if str_eq(slug, "datapack") {
        "Data packs"
    } else {
        "Mods"
    }
}

/// The slugs offered by the type picker, in order; data packs only where the
/// cluster takes them.
pub open spec fn browse_slugs_seq(datapacks: bool) -> Seq<Seq<char>> {
    if datapacks {
        seq!["mod"@, "texture"@, "shader"@, "datapack"@]
    } else {
        seq!["mod"@, "texture"@, "shader"@]
    }
}

pub fn browse_slugs(datapacks: bool) -> (r: Vec<&'static str>)
    ensures
        r@.map_values(|s: &'static str| s@) == browse_slugs_seq(datapacks),
{
    let mut v: Vec<&'static str> = Vec::new();
    v.push("mod");
    v.push("texture");
    v.push("shader");
    if datapacks {
        v.push("datapack");
    }
    assert(v@.map_values(|s: &'static str| s@) =~= browse_slugs_seq(datapacks));
    v
}

/// The type to browse on a cluster: data packs fall back to mods where the
/// cluster does not take them.
pub open spec fn browsable_type_text(package_type: Seq<char>, major: Option<u32>) -> Seq<char> {
    if package_type == "datapack"@ && !spec_supports_datapacks(major) {
        "mod"@
    } else {
        package_type
    }
}

pub fn browsable_type(package_type: &str, major: Option<u32>) -> (r: String)
    ensures
        r@ == browsable_type_text(package_type@, major),
{
    if str_eq(package_type, "datapack") && !supports_datapacks(major) {
        String::from_str("mod")
    } else {
        String::from_str(package_type)
    }
}

/// The ASCII digit `c` stands for, if it is one.
pub open spec fn char_digit(c: char) -> Option<nat> {
    if c == '0' { Some(0) }
    else if c == '1' { Some(1) }
    else if c == '2' { Some(2) }
    else if c == '3' { Some(3) }
    else if c == '4' { Some(4) }
    else if c == '5' { Some(5) }
    else if c == '6' { Some(6) }
    else if c == '7' { Some(7) }
    else if c == '8' { Some(8) }
    else if c == '9' { Some(9) }
    else { None }
}

fn digit_of(c: char) -> (r: Option<u32>)
    ensures
        match r {
            Some(d) => char_digit(c) == Some(d as nat),
            None => char_digit(c) is None,
        },
{
    if c == '0' { Some(0) }
    else if c == '1' { Some(1) }
    else if c == '2' { Some(2) }
    else if c == '3' { Some(3) }
    else if c == '4' { Some(4) }
    else if c == '5' { Some(5) }
    else if c == '6' { Some(6) }
    else if c == '7' { Some(7) }
    else if c == '8' { Some(8) }
    else if c == '9' { Some(9) }
    else { None }
}

pub open spec fn all_digits(s: Seq<char>) -> bool {
    forall|i: int| 0 <= i < s.len() ==> (#[trigger] char_digit(s[i])) is Some
}

/// The number the decimal digits `s` spell.
pub open spec fn digits_value(s: Seq<char>) -> nat
    decreases s.len(),
{
    if s.len() == 0 {
        0
    } else {
        digits_value(s.drop_last()) * 10 + match char_digit(s.last()) {
            Some(d) => d,
            None => 0,
        }
    }
}

/// What `str::parse::<u8>` gives: an optional `+`, then at least one decimal
/// digit, spelling a number below 256.
pub open spec fn parse_u8_text(s: Seq<char>) -> Option<u8> {
    let d = if s.len() > 0 && s[0] == '+' {
        s.drop_first()
    } else {
        s
    };
    if d.len() > 0 && all_digits(d) && digits_value(d) < 256 {
        Some(digits_value(d) as u8)
    } else {
        None
    }
}

/// Parses a byte written in decimal.
pub fn parse_u8(s: &str) -> (r: Option<u8>)
    ensures
        r == parse_u8_text(s@),
{
    let n = s.unicode_len();
    let start: usize = if n > 0 && s.get_char(0) == '+' {
        1
    } else {
        0
    };
    let ghost d = s@.subrange(start as int, n as int);
    assert(d =~= (if s@.len() > 0 && s@[0] == '+' { s@.drop_first() } else { s@ }));
    if start == n {
        return None;
    }
    let mut acc: u32 = 0;
    let mut i: usize = start;
    while i < n
        invariant
            start <= i <= n,
            n == s@.len(),
            d == s@.subrange(start as int, n as int),
            d == (if s@.len() > 0 && s@[0] == '+' { s@.drop_first() } else { s@ }),
            all_digits(s@.subrange(start as int, i as int)),
            acc as nat == if digits_value(s@.subrange(start as int, i as int)) < 256 {
                digits_value(s@.subrange(start as int, i as int))
            } else {
                256
            },
        decreases n - i,
    {
        let c = s.get_char(i);
        let ghost pre = s@.subrange(start as int, i as int);
        let ghost next = s@.subrange(start as int, i + 1);
        assert(next.drop_last() =~= pre);
        assert(next.last() == c);
        match digit_of(c) {
            None => {
                assert(d[i - start] == c);
                assert(char_digit(d[i - start]) is None);
                assert(!all_digits(d));
                return None;
            },
            Some(v) => {
                let t = acc * 10 + v;
                acc = if t < 256 {
                    t
                } else {
                    256
                };
                assert(all_digits(next)) by {
                    assert forall|k: int| 0 <= k < next.len() implies (#[trigger] char_digit(next[k])) is Some by {
                        if k < pre.len() {
                            assert(next[k] == pre[k]);
                        }
                    }
                }
            },
        }
        i = i + 1;
    }
    assert(s@.subrange(start as int, i as int) =~= d);
    if acc < 256 {
        Some(acc as u8)
    } else {
        None
    }
}

/// The route segment that names a package: the provider's number, a colon,
/// then the project id.
pub open spec fn package_id_text(provider: ProviderId, id: Seq<char>) -> Seq<char> {
    decimal(provider.spec_repr() as nat) + ":"@ + id
}

pub fn encode_package_id(provider: ProviderId, id: &str) -> (r: String)
    ensures
        r@ == package_id_text(provider, id@),
{
    let mut r = decimal_string(provider.repr() as u64);
    r.append(":");
    r.append(id);
    r
}

/// The first position at or after `from` that holds `c`.
pub open spec fn first_char_from(s: Seq<char>, c: char, from: int) -> Option<int>
    decreases s.len() - from,
{
    if from < 0 || from >= s.len() {
        None
    } else if s[from] == c {
        Some(from)
    } else {
        first_char_from(s, c, from + 1)
    }
}

/// The provider a decoded number names, Modrinth when it names none.
pub open spec fn provider_or_default(n: Option<u8>) -> ProviderId {
    match n {
        Some(v) => match ProviderId::spec_from_repr(v) {
            Some(p) => p,
            None => ProviderId::Modrinth,
        },
        None => ProviderId::Modrinth,
    }
}

/// A route segment read back: split at the first colon into a provider
/// number and an id; without a colon the whole segment is a Modrinth id.
pub open spec fn decoded_package(s: Seq<char>) -> (ProviderId, Seq<char>) {
    match first_char_from(s, ':', 0) {
        Some(k) => (provider_or_default(parse_u8_text(s.take(k))), s.skip(k + 1)),
        None => (ProviderId::Modrinth, s),
    }
}

fn colon_from(s: &str, from: usize) -> (r: Option<usize>)
    requires
        from <= s@.len(),
    ensures
        match r {
            Some(k) => first_char_from(s@, ':', from as int) == Some(k as int),
            None => first_char_from(s@, ':', from as int) is None,
        },
    decreases s@.len() - from,
{
    if from == s.unicode_len() {
        return None;
    }
    if s.get_char(from) == ':' {
        Some(from)
    } else {
        colon_from(s, from + 1)
    }
}

proof fn lemma_first_char_in_range(s: Seq<char>, c: char, from: int)
    requires
        0 <= from,
    ensures
        first_char_from(s, c, from) matches Some(k) ==> from <= k < s.len() && s[k] == c,
    decreases s.len() - from,
{
    if from < s.len() && s[from] != c {
        lemma_first_char_in_range(s, c, from + 1);
    }
}

/// Reads a package route segment back into a provider and an id.
pub fn decode_package_id(package_id: &str) -> (r: (ProviderId, String))
    ensures
        (r.0, r.1@) == decoded_package(package_id@),
{
    match colon_from(package_id, 0) {
        Some(k) => {
            proof {
                lemma_first_char_in_range(package_id@, ':', 0);
            }
            let n = package_id.unicode_len();
            let repr = package_id.substring_char(0, k);
            let id = package_id.substring_char(k + 1, n);
            assert(repr@ =~= package_id@.take(k as int));
            assert(id@ =~= package_id@.skip(k + 1));
            let provider = match parse_u8(repr) {
                Some(v) => match ProviderId::from_repr(v) {
                    Some(p) => p,
                    None => ProviderId::Modrinth,
                },
                None => ProviderId::Modrinth,
            };
            (provider, String::from_str(id))
        },
        None => (ProviderId::Modrinth, String::from_str(package_id)),
    }
}

/// Reading back the segment that names a package gives the provider and the
/// project id it was made from, whatever the id holds.
pub proof fn law_package_id_round_trip(provider: ProviderId, id: Seq<char>)
    ensures
        decoded_package(package_id_text(provider, id)) == (provider, id),
{
    reveal_strlit(":");
    let s = package_id_text(provider, id);
    let n = provider.spec_repr();
    assert(char_digit(crate::text::digit_char(n as nat)) == Some(n as nat)) by {
        if n == 0 {
        } else if n == 1 {
        } else {
        }
    }
    assert(decimal(n as nat) == seq![crate::text::digit_char(n as nat)]);
    assert(s[0] == crate::text::digit_char(n as nat));
    assert(s[1] == ':');
    assert(first_char_from(s, ':', 1) == Some(1int));
    assert(first_char_from(s, ':', 0) == Some(1int));
    let head = s.take(1);
    assert(head =~= seq![crate::text::digit_char(n as nat)]);
    assert(head.drop_last() =~= Seq::<char>::empty());
    assert(digits_value(head.drop_last()) == 0);
    assert(head.last() == crate::text::digit_char(n as nat));
    assert(digits_value(head) == n as nat);
    assert(all_digits(head));
    assert(parse_u8_text(head) == Some(n));
    assert(s.skip(2) =~= id);
}

/// The sort orders a search can use.
#[derive(Clone, Copy, PartialEq, Eq, Debug, Structural)]
pub enum SearchSort {
    Relevance,
    Downloads,
    Newest,
    Updated,
}

pub open spec fn sort_label_text(sort: SearchSort) -> Seq<char> {
    match sort {
        SearchSort::Relevance => "Relevance"@,
        SearchSort::Downloads => "Downloads"@,
        SearchSort::Newest => "Newest"@,
        SearchSort::Updated => "Updated"@,
    }
}

/// The sort order's name in the sort picker.
pub fn sort_label(sort: SearchSort) -> (r: &'static str)
    ensures
        r@ == sort_label_text(sort),
{
    match sort {
        SearchSort::Relevance => "Relevance",
        SearchSort::Downloads => "Downloads",
        SearchSort::Newest => "Newest",
        SearchSort::Updated => "Updated",
    }
}

/// The sort order at position `idx` of the picker.
pub open spec fn sort_at_index(idx: int) -> Option<SearchSort> {
    if idx == 0 {
        Some(SearchSort::Relevance)
    } else if idx == 1 {
        Some(SearchSort::Downloads)
    } else if idx == 2 {
        Some(SearchSort::Newest)
    } else if idx == 3 {
        Some(SearchSort::Updated)
    } else {
        None
    }
}

pub fn sort_at(idx: usize) -> (r: Option<SearchSort>)
    ensures
        r == sort_at_index(idx as int),
{
    if idx == 0 {
        Some(SearchSort::Relevance)
    } else if idx == 1 {
        Some(SearchSort::Downloads)
    } else if idx == 2 {
        Some(SearchSort::Newest)
    } else if idx == 3 {
        Some(SearchSort::Updated)
    } else {
        None
    }
}

/// The cluster that content is browsed for.
pub struct BrowseTarget {
    pub mc_version: String,
    pub mc_loader: GameLoader,
}

/// The game versions and loaders a search is limited to: the cluster's
/// version, and its loader for mods, when only compatible results are wanted.
pub fn search_filters(compatible_only: bool, target: Option<&BrowseTarget>, is_mod: bool) -> (r: (Vec<String>, Vec<GameLoader>))
    ensures
        match (compatible_only, target) {
            (true, Some(t)) => r.0@.len() == 1 && r.0@[0]@ == t.mc_version@
                && r.1@ == (if is_mod { seq![t.mc_loader] } else { Seq::<GameLoader>::empty() }),
            _ => r.0@.len() == 0 && r.1@.len() == 0,
        },
{
    match (compatible_only, target) {
        (true, Some(t)) => {
            let mut loaders: Vec<GameLoader> = Vec::new();
            if is_mod {
                loaders.push(t.mc_loader);
            }
            let mut versions: Vec<String> = Vec::new();
            versions.push(t.mc_version.clone());
            assert(loaders@ =~= (if is_mod { seq![t.mc_loader] } else { Seq::<GameLoader>::empty() }));
            (versions, loaders)
        },
        _ => (Vec::new(), Vec::new()),
    }
}

/// The game version and loader the version list of one package is limited
/// to.
pub fn version_filters(compatible_only: bool, target: Option<&BrowseTarget>, is_mod: bool) -> (r: (Option<String>, Option<GameLoader>))
    ensures
        match (compatible_only, target) {
            (true, Some(t)) => opt_view(r.0) == Some(t.mc_version@)
                && r.1 == (if is_mod { Some(t.mc_loader) } else { None }),
            _ => r.0 is None && r.1 is None,
        },
{
    match (compatible_only, target) {
        (true, Some(t)) => (Some(t.mc_version.clone()), if is_mod { Some(t.mc_loader) } else { None }),
        _ => (None, None),
    }
}

/// The items joined by commas.
pub open spec fn comma_joined(items: Seq<Seq<char>>) -> Seq<char>
    decreases items.len(),
{
    if items.len() == 0 {
        Seq::empty()
    } else if items.len() == 1 {
        items[0]
    } else {
        comma_joined(items.drop_last()) + ","@ + items.last()
    }
}

fn join_commas(items: &Vec<String>) -> (r: String)
    ensures
        r@ == comma_joined(strings_view(items@)),
{
    let ghost v = strings_view(items@);
    let mut r = String::new();
    let mut i: usize = 0;
    while i < items.len()
        invariant
            i <= items@.len(),
            v == strings_view(items@),
            r@ == comma_joined(v.take(i as int)),
        decreases items@.len() - i,
    {
        assert(v.take(i + 1).drop_last() =~= v.take(i as int));
        assert(v.take(i + 1).last() == items@[i as int]@);
        if i > 0 {
            r.append(",");
        } else {
            assert(v.take(1)[0] == items@[0]@);
        }
        r.append(items[i].as_str());
        i = i + 1;
    }
    assert(v.take(i as int) =~= v);
    r
}

pub open spec fn provider_name(p: ProviderId) -> Seq<char> {
    match p {
        ProviderId::Modrinth => "Modrinth"@,
        ProviderId::CurseForge => "CurseForge"@,
        ProviderId::Local => "Local"@,
    }
}

pub open spec fn sort_name(s: SearchSort) -> Seq<char> {
    match s {
        SearchSort::Relevance => "Relevance"@,
        SearchSort::Downloads => "Downloads"@,
        SearchSort::Newest => "Newest"@,
        SearchSort::Updated => "Updated"@,
    }
}

/// What a search is made of, as one line: provider, lower-cased query,
/// whether only compatible results are wanted, the categories and the sort,
/// separated by bars. A change of it sends the browser back to the first
/// page.
pub open spec fn signature_text(
    provider: ProviderId,
    query: Seq<char>,
    compatible_only: bool,
    categories: Seq<Seq<char>>,
    sort: SearchSort,
) -> Seq<char> {
    provider_name(provider) + "|"@ + lowercase(query) + "|"@ + (if compatible_only {
        "true"@
    } else {
        "false"@
    }) + "|"@ + comma_joined(categories) + "|"@ + sort_name(sort)
}

/// The signature of a search; `query` is the search text as normalised for
/// searching.
pub fn search_signature(
    provider: ProviderId,
    query: &str,
    compatible_only: bool,
    categories: &Vec<String>,
    sort: SearchSort,
) -> (r: String)
    ensures
        r@ == signature_text(provider, query@, compatible_only, strings_view(categories@), sort),
{
    let mut r = String::from_str(match provider {
        ProviderId::Modrinth => "Modrinth",
        ProviderId::CurseForge => "CurseForge",
        ProviderId::Local => "Local",
    });
    r.append("|");
    r.append(to_lower(query).as_str());
    r.append("|");
    r.append(if compatible_only {
        "true"
    } else {
        "false"
    });
    r.append("|");
    r.append(join_commas(categories).as_str());
    r.append("|");
    r.append(match sort {
        SearchSort::Relevance => "Relevance",
        SearchSort::Downloads => "Downloads",
        SearchSort::Newest => "Newest",
        SearchSort::Updated => "Updated",
    });
    r
}

/// Queries that differ only in letter case give the same signature, so
/// retyping a query in another case keeps the page.
pub proof fn law_case_keeps_signature(
    provider: ProviderId,
    q1: Seq<char>,
    q2: Seq<char>,
    compatible_only: bool,
    categories: Seq<Seq<char>>,
    sort: SearchSort,
)
    requires
        lowercase(q1) == lowercase(q2),
    ensures
        signature_text(provider, q1, compatible_only, categories, sort) == signature_text(
            provider,
            q2,
            compatible_only,
            categories,
            sort,
        ),
{
}

/// The page a search shows after its filters were read: back to the first
/// page when they differ from those of the page on screen.
pub fn page_for_signature(last: &str, signature: &str, page: usize) -> (r: usize)
    ensures
        r == (if last@ == signature@ { page } else { 0 }),
{
    if str_eq(last, signature) {
        page
    } else {
        0
    }
}

/// `ceil(total / size)`.
pub open spec fn pages_of(total: nat, size: nat) -> nat
    recommends
        size > 0,
{
    ((total + size - 1) / (size as int)) as nat
}

/// The pages hold the results: with results there is at least one page,
/// the last page is not empty, and all pages together have room for every
/// result; without results there are no pages.
pub proof fn law_pages_hold_results(total: nat, size: nat)
    requires
        size > 0,
    ensures
        total == 0 ==> live_pages_of(total, size) is None,
        total > 0 ==> (live_pages_of(total, size) matches Some(p) && p >= 1 && (p - 1) * size < total && total
            <= p * size),
{
    if total > 0 {
        let p = pages_of(total, size);
        assert(p == (total + size - 1) / (size as int));
        assert(p >= 1 && (p - 1) * size < total && total <= p * size) by (nonlinear_arith)
            requires
                total > 0,
                size > 0,
                p == (total + size - 1) / (size as int),
        ;
    }
}

/// The number of result pages, none while there are no results.
pub open spec fn live_pages_of(total: nat, size: nat) -> Option<nat> {
    if total > 0 {
        Some(if pages_of(total, size) >= 1 { pages_of(total, size) } else { 1 })
    } else {
        None
    }
}

pub fn live_pages(total: usize, page_size: usize) -> (r: Option<usize>)
    requires
        page_size > 0,
    ensures
        match r {
            Some(p) => live_pages_of(total as nat, page_size as nat) == Some(p as nat),
            None => live_pages_of(total as nat, page_size as nat) is None,
        },
{
    if total > 0 {
        assert(total % page_size != 0 ==> total / page_size < usize::MAX) by (nonlinear_arith)
        requires
            page_size > 0,
            total <= usize::MAX,
    {
    }
    let p = total / page_size + if total % page_size == 0 {
            0
        } else {
            1
        };
        assert(p == pages_of(total as nat, page_size as nat)) by (nonlinear_arith)
            requires
                page_size > 0,
                p == total / page_size + if total % page_size == 0 { 0int } else { 1int },
        {
        }
        Some(if p >= 1 {
            p
        } else {
            1
        })
    } else {
        None
    }
}

/// The pages the pager shows: while a page is in flight the last settled
/// count is kept, so the pager does not jump.
pub fn shown_pages(pending: bool, settled: Option<usize>, live: Option<usize>) -> (r: Option<usize>)
    ensures
        r == (if pending { settled } else { live }),
{
    if pending {
        settled
    } else {
        live
    }
}

/// The line above the results: "N results · page i of n" once settled, blank
/// while a page is in flight. `total_text` is the total as the browser
/// abbreviates it.
pub open spec fn results_summary_text(pending: bool, pages: Option<usize>, total_text: Seq<char>, current: nat) -> Seq<char> {
    match (pending, pages) {
        (false, Some(p)) => total_text + " results · page "@ + decimal(current + 1) + " of "@ + decimal(p as nat),
        _ => Seq::empty(),
    }
}

pub fn results_summary(pending: bool, pages: Option<usize>, total_text: &str, current: usize) -> (r: String)
    requires
        current < usize::MAX,
    ensures
        r@ == results_summary_text(pending, pages, total_text@, current as nat),
{
    match (pending, pages) {
        (false, Some(p)) => {
            let mut r = String::from_str(total_text);
            r.append(" results · page ");
            r.append(decimal_string((current + 1) as u64).as_str());
            r.append(" of ");
            r.append(decimal_string(p as u64).as_str());
            r
        },
        _ => String::new(),
    }
}

/// The arrows and label under a version list.
pub struct Pager {
    pub prev: usize,
    pub prev_enabled: bool,
    pub label: String,
    pub next: usize,
    pub next_enabled: bool,
}

/// The version pager on page `current` of `total_pages`: "Page i / n", back
/// while not on the first page, forward while not on the last.
pub fn version_pager(current: usize, total_pages: usize) -> (r: Pager)
    requires
        current < usize::MAX,
    ensures
        r.prev == (if current > 0 { current - 1 } else { 0 }),
        r.prev_enabled == (current > 0),
        r.label@ == "Page "@ + decimal(current as nat + 1) + " / "@ + decimal(total_pages as nat),
        r.next == current + 1,
        r.next_enabled == (current + 1 < total_pages),
{
    let mut label = String::from_str("Page ");
    label.append(decimal_string((current + 1) as u64).as_str());
    label.append(" / ");
    label.append(decimal_string(total_pages as u64).as_str());
    Pager {
        prev: if current > 0 {
            current - 1
        } else {
            0
        },
        prev_enabled: current > 0,
        label,
        next: current + 1,
        next_enabled: current + 1 < total_pages,
    }
}

/// The number of version pages: at least one.
pub fn version_pages(total_versions: usize, page_size: usize) -> (r: usize)
    requires
        page_size > 0,
    ensures
        r as nat == (if pages_of(total_versions as nat, page_size as nat) >= 1 {
            pages_of(total_versions as nat, page_size as nat)
        } else {
            1
        }),
{
    assert(total_versions % page_size != 0 ==> total_versions / page_size < usize::MAX) by (nonlinear_arith)
        requires
            page_size > 0,
            total_versions <= usize::MAX,
    {
    }
    let p = total_versions / page_size + if total_versions % page_size == 0 {
        0
    } else {
        1
    };
    assert(p == pages_of(total_versions as nat, page_size as nat)) by (nonlinear_arith)
        requires
            page_size > 0,
            p == total_versions / page_size + if total_versions % page_size == 0 { 0int } else { 1int },
    {
    }
    if p >= 1 {
        p
    } else {
        1
    }
}

/// The tab shown on a package page: the one picked, kept within the tabs
/// there are (the gallery tab only exists when there is a gallery).
pub fn shown_tab(active: usize, has_gallery: bool) -> (r: usize)
    ensures
        r == (if has_gallery {
            if active < 2 { active } else { 2 }
        } else {
            if active < 1 { active } else { 1 }
        }),
{
    let max_tab: usize = if has_gallery {
        2
    } else {
        1
    };
    if active < max_tab {
        active
    } else {
        max_tab
    }
}

/// The pills a list is shown as: the first `max` items, and "+n" for the `n`
/// left out.
pub open spec fn pill_texts_of(items: Seq<Seq<char>>, max: nat) -> Seq<Seq<char>> {
    if items.len() > max {
        items.take(max as int).push("+"@ + decimal((items.len() - max) as nat))
    } else {
        items
    }
}

pub fn pill_texts(items: &Vec<String>, max: usize) -> (r: Vec<String>)
    ensures
        crate::domain::strings_view(r@) == pill_texts_of(crate::domain::strings_view(items@), max as nat),
{
    let ghost iv = crate::domain::strings_view(items@);
    let mut out: Vec<String> = Vec::new();
    let mut i: usize = 0;
    while i < items.len() && i < max
        invariant
            i <= items@.len(),
            i <= max,
            iv == crate::domain::strings_view(items@),
            crate::domain::strings_view(out@) == iv.take(i as int),
        decreases items@.len() - i,
    {
        let ghost before = out@;
        let c = items[i].clone();
        out.push(c);
        proof {
            crate::domain::lemma_strings_view_push(before, c);
            assert(iv.take(i + 1) =~= iv.take(i as int).push(iv[i as int]));
        }
        i = i + 1;
    }
    if items.len() > max {
        let rest = items.len() - max;
        let ghost before = out@;
        let c = crate::text::join2("+", decimal_string(rest as u64).as_str());
        out.push(c);
        proof {
            crate::domain::lemma_strings_view_push(before, c);
        }
    } else {
        assert(iv.take(i as int) =~= iv);
    }
    out
}

/// The line of figures under a version: its downloads, its size when it has
/// one, and its date, joined by dots. The parts arrive formatted.
pub open spec fn version_stats_text(downloads_text: Seq<char>, file_size: u64, size_text: Seq<char>, date_text: Seq<char>) -> Seq<char> {
    if file_size > 0 {
        downloads_text + " downloads"@ + "  ·  "@ + size_text + "  ·  "@ + date_text
    } else {
        downloads_text + " downloads"@ + "  ·  "@ + date_text
    }
}

pub fn version_stats(downloads_text: &str, file_size: u64, size_text: &str, date_text: &str) -> (r: String)
    ensures
        r@ == version_stats_text(downloads_text@, file_size, size_text@, date_text@),
{
    let mut r = String::from_str(downloads_text);
    r.append(" downloads");
    r.append("  ·  ");
    if file_size > 0 {
        r.append(size_text);
        r.append("  ·  ");
    }
    r.append(date_text);
    r
}

/// What the button on a version row does.
#[derive(PartialEq, Eq, Debug)]
pub enum VersionAction {
    /// Install this version.
    Install { enabled: bool },
    /// A bundle names this version but nothing is linked: there is nothing
    /// to remove, and installing it by hand would make a second copy.
    Pinned,
    /// Remove the linked artifact `hash`.
    Remove { enabled: bool, hash: String },
}

pub fn version_action(installed: Option<&InstalledVersion>, busy: bool) -> (r: VersionAction)
    ensures
        match installed {
            None => r == VersionAction::Install { enabled: !busy },
            Some(v) => match v.hash {
                None => r == VersionAction::Pinned,
                Some(h) => r matches VersionAction::Remove { enabled, hash } && enabled == !busy && hash@ == h@,
            },
        },
{
    match installed {
        None => VersionAction::Install { enabled: !busy },
        Some(v) => match &v.hash {
            None => VersionAction::Pinned,
            Some(h) => VersionAction::Remove { enabled: !busy, hash: h.clone() },
        },
    }
}

/// What the browser marks as installed for a content type: nothing for data
/// packs, which are installed into a world rather than the cluster; for the
/// other types what the cluster has.
pub fn browse_installed(content: Vec<LinkedArtifact>, bundles: &[Bundle], content_type: ContentType) -> (r: InstalledMap)
    ensures
        r@ == (if content_type == ContentType::DataPack {
            Map::<ProjectKey, InstalledView>::empty()
        } else {
            installed_model(artifacts_view(content@), bundles_view(bundles@))
        }),
{
    let map = installed_map(content, bundles);
    if content_type == ContentType::DataPack {
        InstalledMap::new()
    } else {
        map
    }
}

/// How a package's card reads installed: the source of the project in the
/// cluster, if it is there.
pub fn installed_source(map: &InstalledMap, provider: ProviderId, id: &str) -> (r: Option<InstallSource>)
    ensures
        r == (if map@.contains_key((provider, id@)) {
            Some(map@[(provider, id@)].source)
        } else {
            None
        }),
{
    match map.get(provider, id) {
        Some(i) => Some(i.source),
        None => None,
    }
}

/// The kind of release a version is.
#[derive(Clone, Copy, PartialEq, Eq, Debug, Structural)]
pub enum ReleaseType {
    Release,
    Beta,
    Alpha,
}

/// The letter on a version's release badge.
pub fn release_letter(release: ReleaseType) -> (r: &'static str)
    ensures
        r@ == match release {
            ReleaseType::Release => "R"@,
            ReleaseType::Beta => "B"@,
            ReleaseType::Alpha => "A"@,
        },
{
    match release {
        ReleaseType::Release => "R",
        ReleaseType::Beta => "B",
        ReleaseType::Alpha => "A",
    }
}

/// A package page's description: the text itself, or the summary and a link
/// when the provider only gives a URL.
pub enum PackageBody {
    Raw(String),
    Url(String),
}

pub fn about_body(body: &PackageBody, summary: &str) -> (r: String)
    ensures
        r@ == match body {
            PackageBody::Raw(md) => md@,
            PackageBody::Url(url) => summary@ + "\n\n[View online]("@ + url@ + ")"@,
        },
{
    match body {
        PackageBody::Raw(md) => md.clone(),
        PackageBody::Url(url) => {
            let mut r = String::from_str(summary);
            r.append("\n\n[View online](");
            r.append(url.as_str());
            r.append(")");
            r
        },
    }
}

/// A cluster as the cluster picker lists it: its name and version name.
pub fn cluster_choice_label(name: &str, version_name: &str) -> (r: String)
    ensures
        r@ == name@ + " · "@ + version_name@,
{
    crate::text::join3(name, " · ", version_name)
}

/// The first position at or after `from` holding `id`.
pub open spec fn first_id_from(ids: Seq<i64>, id: i64, from: int) -> Option<int>
    decreases ids.len() - from,
{
    if from < 0 || from >= ids.len() {
        None
    } else if ids[from] == id {
        Some(from)
    } else {
        first_id_from(ids, id, from + 1)
    }
}

/// The picker's label: that of the cluster browsed, or "Select a version".
pub open spec fn picked_label_text(ids: Seq<i64>, labels: Seq<Seq<char>>, cluster_id: i64) -> Seq<char> {
    match first_id_from(ids, cluster_id, 0) {
        Some(k) => if k < labels.len() {
            labels[k]
        } else {
            "Select a version"@
        },
        None => "Select a version"@,
    }
}

pub fn picked_cluster_label(ids: &Vec<i64>, labels: &Vec<String>, cluster_id: i64) -> (r: String)
    ensures
        r@ == picked_label_text(ids@, crate::domain::strings_view(labels@), cluster_id),
{
    let mut i: usize = 0;
    while i < ids.len()
        invariant
            i <= ids@.len(),
            first_id_from(ids@, cluster_id, 0) == first_id_from(ids@, cluster_id, i as int),
        decreases ids@.len() - i,
    {
        if ids[i] == cluster_id {
            if i < labels.len() {
                assert(crate::domain::strings_view(labels@)[i as int] == labels@[i as int]@);
                return labels[i].clone();
            } else {
                return String::from_str("Select a version");
            }
        }
        i = i + 1;
    }
    String::from_str("Select a version")
}

} // verus!
