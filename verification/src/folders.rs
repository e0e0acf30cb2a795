//! The folder views of a cluster (worlds and data packs): searching them,
//! which world the data packs are shown for, what an empty list says, and
//! when a world may be deleted.
use vstd::prelude::*;

use crate::domain::strings_view;
use crate::text::{has_infix, lowercase, str_contains, str_eq, to_lower, trim, trimmed};

verus! {

/// The search text as the folder views compare it: trimmed and lower-cased.
pub fn folder_needle(search: &str) -> (r: String)
    ensures
        r@ == lowercase(trimmed(search@)),
{
    to_lower(trim(search))
}

/// An entry matches a search when the search is empty or some field,
/// lower-cased, holds it.
pub open spec fn search_matches(needle: Seq<char>, fields: Seq<Seq<char>>) -> bool {
    needle.len() == 0 || exists|k: int| 0 <= k < fields.len() && has_infix(lowercase(#[trigger] fields[k]), needle)
}

pub fn matches_search(needle: &str, fields: &Vec<String>) -> (r: bool)
    ensures
        r == search_matches(needle@, strings_view(fields@)),
{
    if needle.unicode_len() == 0 {
        return true;
    }
    let ghost fv = strings_view(fields@);
    let mut i: usize = 0;
    while i < fields.len()
        invariant
            i <= fields@.len(),
            fv == strings_view(fields@),
            forall|k: int| 0 <= k < i ==> !has_infix(lowercase(#[trigger] fv[k]), needle@),
        decreases fields@.len() - i,
    {
        assert(fv[i as int] == fields@[i as int]@);
        let low = to_lower(fields[i].as_str());
        if str_contains(low.as_str(), needle) {
            return true;
        }
        i = i + 1;
    }
    false
}

/// The world whose data packs are shown: the one picked, else the one asked
/// for, whichever exists first; else the first world; none without worlds.
pub open spec fn current_world_of(names: Seq<Seq<char>>, picked: Option<Seq<char>>, requested: Seq<char>) -> Option<Seq<char>> {
    match picked {
        Some(p) if names.contains(p) => Some(p),
        _ => if names.contains(requested) {
            Some(requested)
        } else if names.len() > 0 {
            Some(names[0])
        } else {
            None
        },
    }
}

pub fn current_world(names: &Vec<String>, picked: Option<&String>, requested: &str) -> (r: Option<String>)
    ensures
        crate::domain::opt_view(r) == current_world_of(strings_view(names@), match picked {
            Some(p) => Some(p@),
            None => None,
        }, requested@),
{
    match picked {
        Some(p) => {
            if crate::domain::strings_contain(names, p.as_str()) {
                return Some(p.clone());
            }
        },
        None => {},
    }
    if crate::domain::strings_contain(names, requested) {
        return Some(String::from_str(requested));
    }
    if names.len() > 0 {
        assert(strings_view(names@)[0] == names@[0]@);
        Some(names[0].clone())
    } else {
        None
    }
}

/// What a list shows when it has no rows: nothing while it loads, an empty
/// state when there is nothing at all, and a no-match state when the search
/// hides everything.
#[derive(Clone, Copy, PartialEq, Eq, Debug, Structural)]
pub enum EmptyState {
    Loading,
    Nothing,
    NoMatch,
}

pub fn empty_state(loading: bool, total: usize) -> (r: EmptyState)
    ensures
        r == (if loading {
            EmptyState::Loading
        } else if total == 0 {
            EmptyState::Nothing
        } else {
            EmptyState::NoMatch
        }),
{
    if loading {
        EmptyState::Loading
    } else if total == 0 {
        EmptyState::Nothing
    } else {
        EmptyState::NoMatch
    }
}

/// A data pack in a world.
pub struct DataPack {
    pub file_name: String,
    pub description: Option<String>,
    pub is_dir: bool,
    pub size_bytes: u64,
}

/// The data packs a search shows, in order: those whose file name or
/// description matches.
pub open spec fn pack_fields(p: DataPack) -> Seq<Seq<char>> {
    seq![p.file_name@, match p.description {
        Some(d) => d@,
        None => Seq::<char>::empty(),
    }]
}

pub open spec fn shown_packs(packs: Seq<DataPack>, needle: Seq<char>) -> Seq<DataPack> {
    packs.filter(|p: DataPack| search_matches(needle, pack_fields(p)))
}

fn pack_matches(p: &DataPack, needle: &str) -> (r: bool)
    ensures
        r == search_matches(needle@, pack_fields(*p)),
{
    let mut fields: Vec<String> = Vec::new();
    fields.push(p.file_name.clone());
    fields.push(match &p.description {
        Some(d) => d.clone(),
        None => String::new(),
    });
    assert(strings_view(fields@) =~= pack_fields(*p));
    matches_search(needle, &fields)
}

/// The positions of the data packs a search shows.
pub fn filter_packs(packs: &Vec<DataPack>, needle: &str) -> (r: Vec<usize>)
    ensures
        r@.len() == shown_packs(packs@, needle@).len(),
        forall|k: int| 0 <= k < r@.len() ==> (#[trigger] r@[k]) < packs@.len() && packs@[r@[k] as int]
            == shown_packs(packs@, needle@)[k],
{
    let ghost pred = |p: DataPack| search_matches(needle@, pack_fields(p));
    let mut out: Vec<usize> = Vec::new();
    let mut i: usize = 0;
    while i < packs.len()
        invariant
            i <= packs@.len(),
            pred == (|p: DataPack| search_matches(needle@, pack_fields(p))),
            out@.len() == packs@.subrange(0, i as int).filter(pred).len(),
            forall|k: int| 0 <= k < out@.len() ==> (#[trigger] out@[k]) < i && packs@[out@[k] as int]
                == packs@.subrange(0, i as int).filter(pred)[k],
        decreases packs@.len() - i,
    {
        proof {
            crate::text::lemma_filter_step(packs@, i as int, pred);
        }
        if pack_matches(&packs[i], needle) {
            out.push(i);
        }
        i = i + 1;
    }
    assert(packs@.subrange(0, i as int) =~= packs@);
    out
}

/// The badge of a data pack's card.
pub fn pack_badge(p: &DataPack) -> (r: &'static str)
    ensures
        r@ == (if p.is_dir {
            "Folder"@
        } else {
            "Zip"@
        }),
{
    if p.is_dir {
        "Folder"
    } else {
        "Zip"
    }
}

/// The line under a card in the grid: its subtitle, its badge, and its size
/// when it has one, joined by dots. `size_text` is the size as written.
pub fn grid_meta(subtitle: &str, badge: &str, size: u64, size_text: &str) -> (r: String)
    ensures
        r@ == subtitle@ + " \u{b7} "@ + badge@ + (if size > 0 {
            " \u{b7} "@ + size_text@
        } else {
            Seq::<char>::empty()
        }),
{
    let mut r = crate::text::join3(subtitle, " \u{b7} ", badge);
    if size > 0 {
        r.append(" \u{b7} ");
        r.append(size_text);
    }
    r
}

/// The question before a data pack goes to the trash.
pub fn delete_pack_prompt(file_name: &str, world: &str) -> (r: (String, String))
    ensures
        r.0@ == "Move \""@ + file_name@ + "\" to trash?"@,
        r.1@ == "It is removed from \""@ + world@ + "\" only and can be restored from your system trash."@,
{
    (
        crate::text::join3("Move \"", file_name, "\" to trash?"),
        crate::text::join3(
            "It is removed from \"",
            world,
            "\" only and can be restored from your system trash.",
        ),
    )
}

/// Another cluster, as the worlds view looks at it.
pub struct OtherCluster {
    pub active: bool,
    pub dedicated_dir: bool,
}

/// A world may not be deleted while a game that uses it runs: the cluster's
/// own, or, for a shared game folder, any running cluster that shares it.
pub open spec fn worlds_in_use(active: bool, shared: bool, others: Seq<OtherCluster>) -> bool {
    active || (shared && exists|k: int| 0 <= k < others.len() && (#[trigger] others[k]).active && !others[k].dedicated_dir)
}

pub fn world_in_use(active: bool, shared: bool, others: &Vec<OtherCluster>) -> (r: bool)
    ensures
        r == worlds_in_use(active, shared, others@),
{
    if active {
        return true;
    }
    if !shared {
        return false;
    }
    let mut i: usize = 0;
    while i < others.len()
        invariant
            i <= others@.len(),
            shared,
            !active,
            forall|k: int| 0 <= k < i ==> !((#[trigger] others@[k]).active && !others@[k].dedicated_dir),
        decreases others@.len() - i,
    {
        if others[i].active && !others[i].dedicated_dir {
            assert(others@[i as int].active && !others@[i as int].dedicated_dir);
            return true;
        }
        i = i + 1;
    }
    false
}

/// What pressing Delete on a world does.
#[derive(Clone, Copy, PartialEq, Eq, Debug, Structural)]
pub enum DeleteWorld {
    /// Tell the user to close the game first.
    NotifyInUse,
    /// Ask before moving the world to the trash.
    Confirm,
}

pub fn delete_world_step(in_use: bool) -> (r: DeleteWorld)
    ensures
        r == (if in_use {
            DeleteWorld::NotifyInUse
        } else {
            DeleteWorld::Confirm
        }),
{
    if in_use {
        DeleteWorld::NotifyInUse
    } else {
        DeleteWorld::Confirm
    }
}

/// The question before a world goes to the trash; a shared folder loses it
/// for every version that uses that folder.
pub fn delete_world_prompt(world: &str, shared: bool) -> (r: (String, &'static str))
    ensures
        r.0@ == "Move \""@ + world@ + "\" to trash?"@,
        r.1@ == (if shared {
            "This version uses the shared game folder, so the world is removed from every version that uses it. It can be restored from your system trash."@
        } else {
            "It can be restored from your system trash."@
        }),
{
    (
        crate::text::join3("Move \"", world, "\" to trash?"),
        if shared {
            "This version uses the shared game folder, so the world is removed from every version that uses it. It can be restored from your system trash."
        } else {
            "It can be restored from your system trash."
        },
    )
}

/// The notices above the worlds list.
pub fn world_notices(shared: bool) -> (r: Vec<&'static str>)
    ensures
        r@.len() == (if shared { 1int } else { 0 }),
        shared ==> r@[0]@
            == "This version uses the shared game folder, so these worlds also appear in every other version that uses it."@,
{
    let mut v: Vec<&'static str> = Vec::new();
    if shared {
        v.push(
            "This version uses the shared game folder, so these worlds also appear in every other version that uses it.",
        );
    }
    v
}

/// The line under a world in the grid: when it was last played, and its size
/// once known. Both parts arrive written.
pub fn world_meta(last_played_text: &str, size_text: Option<&str>) -> (r: String)
    ensures
        r@ == "Last played "@ + last_played_text@ + match size_text {
            Some(s) => " \u{b7} "@ + s@,
            None => Seq::<char>::empty(),
        },
{
    let mut r = crate::text::join2("Last played ", last_played_text);
    match size_text {
        Some(s) => {
            r.append(" \u{b7} ");
            r.append(s);
        },
        None => {},
    }
    r
}

} // verus!
