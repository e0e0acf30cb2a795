//! The servers card of the analytics page: how a server is named and masked,
//! and which servers the pie chart shows on their own.
use vstd::prelude::*;

use crate::text::{decimal, decimal_string, signed_decimal, signed_decimal_string};

verus! {

/// A server the user joined.
pub struct ServerStat {
    pub address: String,
    pub port: Option<u16>,
    pub is_ip: bool,
    pub joins: i64,
    pub total_secs: i64,
}

/// The address as shown: with the port when it is not the default one.
pub open spec fn display_address_text(address: Seq<char>, port: Option<u16>) -> Seq<char> {
    match port {
        Some(p) => if p != 25565 {
            address + ":"@ + decimal(p as nat)
        } else {
            address
        },
        None => address,
    }
}

pub fn display_address(s: &ServerStat) -> (r: String)
    ensures
        r@ == display_address_text(s.address@, s.port),
{
    match s.port {
        Some(p) => if p != 25565 {
            crate::text::join3(s.address.as_str(), ":", decimal_string(p as u64).as_str())
        } else {
            s.address.clone()
        },
        None => s.address.clone(),
    }
}

/// `n` bullets.
pub open spec fn bullets(n: nat) -> Seq<char> {
    Seq::new(n, |i: int| '•')
}

/// An address with its host hidden: as many bullets as the host has
/// characters, but at least 6 and at most 18, then the port part as it was.
pub open spec fn mask_text(address: Seq<char>) -> Seq<char> {
    match crate::browse::first_char_from(address, ':', 0) {
        Some(k) => bullets(clamp_len(k as nat)) + ":"@ + address.skip(k + 1),
        None => bullets(clamp_len(address.len())),
    }
}

pub open spec fn clamp_len(n: nat) -> nat {
    if n < 6 {
        6
    } else if n > 18 {
        18
    } else {
        n
    }
}

fn colon_at(s: &str) -> (r: Option<usize>)
    ensures
        match r {
            Some(k) => crate::browse::first_char_from(s@, ':', 0) == Some(k as int),
            None => crate::browse::first_char_from(s@, ':', 0) is None,
        },
{
    let n = s.unicode_len();
    let mut i: usize = 0;
    while i < n
        invariant
            n == s@.len(),
            i <= n,
            crate::browse::first_char_from(s@, ':', 0) == crate::browse::first_char_from(s@, ':', i as int),
        decreases n - i,
    {
        if s.get_char(i) == ':' {
            return Some(i);
        }
        i = i + 1;
    }
    None
}

proof fn lemma_colon_in_range(s: Seq<char>, from: int)
    requires
        0 <= from,
    ensures
        crate::browse::first_char_from(s, ':', from) matches Some(k) ==> from <= k < s.len(),
    decreases s.len() - from,
{
    if from < s.len() && s[from] != ':' {
        lemma_colon_in_range(s, from + 1);
    }
}

fn bullet_string(n: usize) -> (r: String)
    ensures
        r@ == bullets(n as nat),
{
    let mut r = String::new();
    let mut i: usize = 0;
    while i < n
        invariant
            i <= n,
            r@ == bullets(i as nat),
        decreases n - i,
    {
        crate::text::push_char(&mut r, '•');
        assert(r@ =~= bullets((i + 1) as nat));
        i = i + 1;
    }
    r
}

/// Hides the host of an address.
pub fn mask(address: &str) -> (r: String)
    ensures
        r@ == mask_text(address@),
{
    proof {
        lemma_colon_in_range(address@, 0);
    }
    match colon_at(address) {
        Some(k) => {
            let n = if k < 6 {
                6
            } else if k > 18 {
                18
            } else {
                k
            };
            let len = address.unicode_len();
            assert(k < len);
            let mut r = bullet_string(n);
            let tail = address.substring_char(k + 1, len);
            assert(tail@ =~= address@.skip(k + 1));
            r.append(":");
            r.append(tail);
            r
        },
        None => {
            let len = address.unicode_len();
            let n = if len < 6 {
                6
            } else if len > 18 {
                18
            } else {
                len
            };
            bullet_string(n)
        },
    }
}

/// The name a server goes by in the chart legend: IP addresses stay hidden.
pub fn server_label(s: &ServerStat) -> (r: String)
    ensures
        r@ == (if s.is_ip {
            "Direct IP"@
        } else {
            display_address_text(s.address@, s.port)
        }),
{
    if s.is_ip {
        return String::from_str("Direct IP");
    }
    display_address(s)
}

/// Where a server's icon is fetched from; an IP address has none.
pub fn server_icon_url(s: &ServerStat) -> (r: Option<String>)
    ensures
        match r {
            Some(u) => !s.is_ip && u@ == "https://api.mcsrvstat.us/icon/"@ + s.address@,
            None => s.is_ip,
        },
{
    if s.is_ip {
        return None;
    }
    Some(crate::text::join2("https://api.mcsrvstat.us/icon/", s.address.as_str()))
}

/// The address a row of the details list shows: an IP address only while
/// the row is hovered, masked otherwise.
pub fn row_address(s: &ServerStat, hovered: bool) -> (r: String)
    ensures
        r@ == (if hovered || !s.is_ip {
            display_address_text(s.address@, s.port)
        } else {
            mask_text(display_address_text(s.address@, s.port))
        }),
{
    let shown = display_address(s);
    if hovered || !s.is_ip {
        shown
    } else {
        mask(shown.as_str())
    }
}

/// How many times a server was joined, as its row shows it.
pub fn joins_text(joins: i64) -> (r: String)
    ensures
        r@ == signed_decimal(joins as int) + "×"@,
{
    crate::text::join2(signed_decimal_string(joins).as_str(), "×")
}

/// The plural ending for a count: none for exactly one.
pub open spec fn plural_text(n: int) -> Seq<char> {
    if n == 1 {
        Seq::empty()
    } else {
        "s"@
    }
}

pub fn plural(n: i64) -> (r: &'static str)
    ensures
        r@ == plural_text(n as int),
{
    proof {
        reveal_strlit("");
    }
    if n == 1 {
        ""
    } else {
        "s"
    }
}

/// The sum of the first `n` values.
pub open spec fn sum_of(values: Seq<i64>, n: int) -> int
    decreases n,
{
    if n <= 0 {
        0
    } else {
        sum_of(values, n - 1) + values[n - 1]
    }
}

/// Every running sum of `values` fits in an `i64`.
pub open spec fn sums_fit(values: Seq<i64>) -> bool {
    forall|n: int| 0 <= n <= values.len() ==> i64::MIN <= #[trigger] sum_of(values, n) <= i64::MAX
}

pub fn total_of(values: &Vec<i64>) -> (r: i64)
    requires
        sums_fit(values@),
    ensures
        r as int == sum_of(values@, values@.len() as int),
{
    let mut total: i64 = 0;
    let mut i: usize = 0;
    while i < values.len()
        invariant
            i <= values@.len(),
            sums_fit(values@),
            total as int == sum_of(values@, i as int),
        decreases values@.len() - i,
    {
        assert(i64::MIN <= sum_of(values@, i + 1) <= i64::MAX);
        total = total + values[i];
        i = i + 1;
    }
    total
}

/// The subtitle of the servers card: how many servers and joins.
pub fn servers_subtitle(server_count: usize, total_joins: i64) -> (r: String)
    requires
        server_count <= i64::MAX,
    ensures
        r@ == decimal(server_count as nat) + " server"@ + plural_text(server_count as int) + " · "@
            + signed_decimal(total_joins as int) + " join"@ + plural_text(total_joins as int),
{
    let mut r = decimal_string(server_count as u64);
    r.append(" server");
    r.append(plural(server_count as i64));
    r.append(" · ");
    r.append(signed_decimal_string(total_joins).as_str());
    r.append(" join");
    r.append(plural(total_joins));
    r
}

/// `perm` lists the positions of `keys` largest key first, equal keys in
/// the order they came.
pub open spec fn desc_order(keys: Seq<i64>, perm: Seq<int>) -> bool {
    &&& perm.len() == keys.len()
    &&& forall|i: int| 0 <= i < perm.len() ==> 0 <= #[trigger] perm[i] < keys.len()
    &&& forall|i: int, j: int| 0 <= i < j < perm.len() ==> perm[i] != perm[j]
    &&& forall|i: int, j: int| 0 <= i < j < perm.len() ==> keys[#[trigger] perm[i]] >= keys[#[trigger] perm[j]]
    &&& forall|i: int, j: int|
        0 <= i < j < perm.len() && keys[#[trigger] perm[i]] == keys[#[trigger] perm[j]] ==> perm[i] < perm[j]
}

/// The positions of `keys`, largest first, as a stable sort on the reversed
/// key orders them.
pub fn order_desc(keys: &Vec<i64>) -> (r: Vec<usize>)
    ensures
        desc_order(keys@, r@.map_values(|x: usize| x as int)),
{
    let n = keys.len();
    let mut order: Vec<usize> = Vec::new();
    let mut i: usize = 0;
    while i < n
        invariant
            n == keys@.len(),
            i <= n,
            order@.len() == i,
            forall|a: int| 0 <= a < i ==> #[trigger] order@[a] < i,
            forall|a: int, b: int| 0 <= a < b < i ==> order@[a] != order@[b],
            forall|a: int, b: int|
                0 <= a < b < i ==> keys@[#[trigger] order@[a] as int] >= keys@[#[trigger] order@[b] as int],
            forall|a: int, b: int|
                0 <= a < b < i && keys@[#[trigger] order@[a] as int] == keys@[#[trigger] order@[b] as int] ==> order@[a]
                    < order@[b],
        decreases n - i,
    {
        let mut p: usize = i;
        while p > 0 && keys[order[p - 1]] < keys[i]
            invariant
                n == keys@.len(),
                i < n,
                order@.len() == i,
                forall|a: int| 0 <= a < i ==> #[trigger] order@[a] < i,
                p <= i,
                forall|q: int| p <= q < i ==> keys@[#[trigger] order@[q] as int] < keys@[i as int],
            decreases p,
        {
            p = p - 1;
        }
        let ghost o = order@;
        proof {
            assert forall|a: int, b: int| 0 <= a < b < i + 1 implies keys@[#[trigger] o.insert(p as int, i)[a] as int]
                >= keys@[#[trigger] o.insert(p as int, i)[b] as int] by {
                let no = o.insert(p as int, i);
                if b < p {
                } else if b == p {
                } else if a == p {
                    assert(no[b] == o[b - 1]);
                } else if a < p {
                    assert(no[a] == o[a]);
                    assert(no[b] == o[b - 1]);
                } else {
                    assert(no[a] == o[a - 1]);
                    assert(no[b] == o[b - 1]);
                }
            }
            assert forall|a: int, b: int|
                0 <= a < b < i + 1 && keys@[#[trigger] o.insert(p as int, i)[a] as int] == keys@[#[trigger] o.insert(
                    p as int,
                    i,
                )[b] as int] implies o.insert(p as int, i)[a] < o.insert(p as int, i)[b] by {
                let no = o.insert(p as int, i);
                if b < p {
                } else if b == p {
                } else if a == p {
                    assert(no[b] == o[b - 1]);
                } else if a < p {
                    assert(no[a] == o[a]);
                    assert(no[b] == o[b - 1]);
                } else {
                    assert(no[a] == o[a - 1]);
                    assert(no[b] == o[b - 1]);
                }
            }
            assert forall|a: int, b: int| 0 <= a < b < i + 1 implies o.insert(p as int, i)[a] != o.insert(
                p as int,
                i,
            )[b] by {
                let no = o.insert(p as int, i);
                if b < p {
                } else if b == p {
                } else if a == p {
                    assert(no[b] == o[b - 1]);
                } else if a < p {
                    assert(no[b] == o[b - 1]);
                } else {
                    assert(no[a] == o[a - 1]);
                    assert(no[b] == o[b - 1]);
                }
            }
            assert forall|a: int| 0 <= a < i + 1 implies #[trigger] o.insert(p as int, i)[a] < i + 1 by {
                if a < p {
                } else if a > p {
                    assert(o.insert(p as int, i)[a] == o[a - 1]);
                }
            }
        }
        order.insert(p, i);
        assert(order@ == o.insert(p as int, i));
        i = i + 1;
    }
    let ghost perm = order@.map_values(|x: usize| x as int);
    assert(desc_order(keys@, perm)) by {
        assert forall|a: int, b: int| 0 <= a < b < perm.len() implies perm[a] != perm[b] by {
            assert(order@[a] != order@[b]);
        }
        assert forall|a: int, b: int| 0 <= a < b < perm.len() implies keys@[#[trigger] perm[a]] >= keys@[#[trigger] perm[b]] by {
            assert(perm[a] == order@[a] as int);
            assert(perm[b] == order@[b] as int);
        }
        assert forall|a: int, b: int|
            0 <= a < b < perm.len() && keys@[#[trigger] perm[a]] == keys@[#[trigger] perm[b]] implies perm[a] < perm[b] by {
            assert(perm[a] == order@[a] as int);
            assert(perm[b] == order@[b] as int);
        }
    }
    order
}

/// The most servers the pie chart shows on their own; the rest share a
/// slice.
pub const TOP_SERVERS: usize = 10;

/// The servers' play times and labels as the pie chart shows them: the ten
/// longest played on their own, longest first, and the rest as one slice
/// labelled "N more". `order` is the servers longest played first.
pub struct PieSlices {
    pub values: Vec<i64>,
    pub labels: Vec<String>,
}

pub open spec fn server_label_text(s: ServerStat) -> Seq<char> {
    if s.is_ip {
        "Direct IP"@
    } else {
        display_address_text(s.address@, s.port)
    }
}

/// The play times of the servers in `order` from position `from` on.
pub open spec fn rest_secs(servers: Seq<ServerStat>, order: Seq<int>, from: int) -> Seq<i64> {
    order.skip(from).map_values(|k: int| servers[k].total_secs)
}

/// `values` and `labels` are the pie of `servers` sorted by `order`.
pub open spec fn pie_of(servers: Seq<ServerStat>, order: Seq<int>, values: Seq<i64>, labels: Seq<Seq<char>>) -> bool {
    let top = if servers.len() < TOP_SERVERS { servers.len() as int } else { TOP_SERVERS as int };
    let rest = servers.len() - top;
    &&& desc_order(servers.map_values(|s: ServerStat| s.total_secs), order)
    &&& values.len() == top + (if rest > 0 { 1int } else { 0 })
    &&& labels.len() == values.len()
    &&& forall|k: int| 0 <= k < top ==> values[k] == servers[#[trigger] order[k]].total_secs
        && labels[k] == server_label_text(servers[order[k]])
    &&& rest > 0 ==> values[top] as int == sum_of(rest_secs(servers, order, top), rest) && labels[top]
        == decimal(rest as nat) + " more"@
}

pub fn pie_slices(servers: &Vec<ServerStat>) -> (r: PieSlices)
    requires
        servers@.len() <= i64::MAX,
        forall|order: Seq<int>|
            desc_order(servers@.map_values(|s: ServerStat| s.total_secs), order) ==> sums_fit(
                #[trigger] rest_secs(servers@, order, TOP_SERVERS as int),
            ),
    ensures
        exists|order: Seq<int>| pie_of(servers@, order, r.values@, crate::domain::strings_view(r.labels@)),
{
    let mut keys: Vec<i64> = Vec::new();
    let mut i: usize = 0;
    while i < servers.len()
        invariant
            i <= servers@.len(),
            keys@ == servers@.take(i as int).map_values(|s: ServerStat| s.total_secs),
        decreases servers@.len() - i,
    {
        keys.push(servers[i].total_secs);
        assert(servers@.take(i + 1).map_values(|s: ServerStat| s.total_secs) =~= servers@.take(i as int).map_values(
            |s: ServerStat| s.total_secs,
        ).push(servers@[i as int].total_secs));
        i = i + 1;
    }
    assert(servers@.take(i as int) =~= servers@);
    let order = order_desc(&keys);
    let ghost perm = order@.map_values(|x: usize| x as int);
    let n = servers.len();
    assert(order@.len() == n);
    assert forall|a: int| 0 <= a < n implies #[trigger] order@[a] < n by {
        assert(perm[a] == order@[a] as int);
    }
    let top = if n < TOP_SERVERS {
        n
    } else {
        TOP_SERVERS
    };
    let mut values: Vec<i64> = Vec::new();
    let mut labels: Vec<String> = Vec::new();
    let mut k: usize = 0;
    while k < top
        invariant
            n == servers@.len(),
            top <= n,
            order@.len() == n,
            perm == order@.map_values(|x: usize| x as int),
            forall|a: int| 0 <= a < n ==> #[trigger] order@[a] < n,
            k <= top,
            values@.len() == k,
            labels@.len() == k,
            forall|a: int| 0 <= a < k ==> values@[a] == servers@[#[trigger] perm[a]].total_secs
                && labels@[a]@ == server_label_text(servers@[perm[a]]),
        decreases top - k,
    {
        let s = &servers[order[k]];
        values.push(s.total_secs);
        labels.push(server_label(s));
        k = k + 1;
    }
    if n > top {
        let ghost rest = rest_secs(servers@, perm, top as int);
        let mut extra: Vec<i64> = Vec::new();
        let mut j: usize = top;
        while j < n
            invariant
                n == servers@.len(),
                top <= j <= n,
                order@.len() == n,
                perm == order@.map_values(|x: usize| x as int),
                forall|a: int| 0 <= a < n ==> #[trigger] order@[a] < n,
                rest == rest_secs(servers@, perm, top as int),
                extra@ == rest.take(j - top),
            decreases n - j,
        {
            extra.push(servers[order[j]].total_secs);
            assert(rest.take(j + 1 - top) =~= rest.take(j - top).push(rest[j - top]));
            j = j + 1;
        }
        assert(rest.take(n - top) =~= rest);
        let sum = total_of(&extra);
        values.push(sum);
        labels.push(crate::text::join2(decimal_string((n - top) as u64).as_str(), " more"));
    }
    assert(desc_order(servers@.map_values(|s: ServerStat| s.total_secs), perm)) by {
        assert(keys@ =~= servers@.map_values(|s: ServerStat| s.total_secs));
    }
    let ghost lv = crate::domain::strings_view(labels@);
    assert(desc_order(servers@.map_values(|s: ServerStat| s.total_secs), perm));
    assert(lv.len() == values@.len());
    assert(forall|k: int| 0 <= k < top ==> values@[k] == servers@[#[trigger] perm[k]].total_secs
        && lv[k] == server_label_text(servers@[perm[k]]));
    assert(pie_of(servers@, perm, values@, lv));
    let r = PieSlices { values, labels };
    assert(pie_of(servers@, perm, r.values@, crate::domain::strings_view(r.labels@)));
    r
}

/// The longest play time among the servers, at least 1, which the bars of
/// the details list are drawn against.
pub fn bar_scale(servers: &Vec<ServerStat>) -> (r: i64)
    ensures
        r >= 1,
        forall|k: int| 0 <= k < servers@.len() ==> servers@[k].total_secs <= r,
        r == 1 || exists|k: int| 0 <= k < servers@.len() && servers@[k].total_secs == r,
{
    let mut best: i64 = 1;
    let mut i: usize = 0;
    while i < servers.len()
        invariant
            i <= servers@.len(),
            best >= 1,
            forall|k: int| 0 <= k < i ==> servers@[k].total_secs <= best,
            best == 1 || exists|k: int| 0 <= k < i && servers@[k].total_secs == best,
        decreases servers@.len() - i,
    {
        if servers[i].total_secs > best {
            best = servers[i].total_secs;
        }
        i = i + 1;
    }
    best
}

} // verus!
