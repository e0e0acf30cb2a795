//! The screenshots view: picking screenshots to delete, opening one in the
//! viewer, and the words around the selection.
use vstd::prelude::*;

use crate::domain::strings_view;
use crate::text::{decimal, decimal_string, str_eq};

verus! {

/// The screenshots view's state: whether screenshots are being picked, which
/// are picked (each path once), which one the viewer shows, and whether the
/// delete question is open.
pub struct ShotSelection {
    pub editing: bool,
    pub selected: Vec<String>,
    pub viewing: Option<usize>,
    pub confirm_delete: bool,
}

impl ShotSelection {
    /// The picked paths, as a set.
    pub open spec fn picked(&self) -> Set<Seq<char>> {
        strings_view(self.selected@).to_set()
    }

    /// No path is picked twice.
    pub open spec fn wf(&self) -> bool {
        strings_view(self.selected@).no_duplicates()
    }
}

/// `set` with `item` added if it was missing and removed if it was there.
pub open spec fn toggled_set(set: Set<Seq<char>>, item: Seq<char>) -> Set<Seq<char>> {
    if set.contains(item) {
        set.remove(item)
    } else {
        set.insert(item)
    }
}

proof fn lemma_push_keeps_distinct(s: Seq<Seq<char>>, x: Seq<char>)
    requires
        s.no_duplicates(),
        !s.contains(x),
    ensures
        s.push(x).no_duplicates(),
{
    let p = s.push(x);
    assert forall|i: int, j: int| 0 <= i < p.len() && 0 <= j < p.len() && i != j implies p[i] != p[j] by {
        if i == s.len() {
            assert(p[j] == s[j]);
        } else if j == s.len() {
            assert(p[i] == s[i]);
        }
    }
}

/// `list` with `item` toggled, keeping the other paths in order.
fn toggle_path(list: &Vec<String>, item: &String) -> (r: Vec<String>)
    requires
        strings_view(list@).no_duplicates(),
    ensures
        strings_view(r@).no_duplicates(),
        strings_view(r@).to_set() == toggled_set(strings_view(list@).to_set(), item@),
{
    let ghost sv = strings_view(list@);
    let mut out: Vec<String> = Vec::new();
    let mut found = false;
    let mut i: usize = 0;
    while i < list.len()
        invariant
            i <= list@.len(),
            sv == strings_view(list@),
            sv.no_duplicates(),
            found == sv.take(i as int).contains(item@),
            strings_view(out@).to_set() == sv.take(i as int).to_set().remove(item@),
            strings_view(out@).no_duplicates(),
            forall|x: Seq<char>| strings_view(out@).contains(x) ==> sv.take(i as int).contains(x) && x != item@,
        decreases list@.len() - i,
    {
        assert(sv[i as int] == list@[i as int]@);
        assert(sv.take(i + 1) =~= sv.take(i as int).push(sv[i as int]));
        proof {
            vstd::seq_lib::lemma_seq_contains_after_push(sv.take(i as int), sv[i as int], item@);
            sv.take(i as int).lemma_push_to_set_commute(sv[i as int]);
        }
        if str_eq(list[i].as_str(), item.as_str()) {
            found = true;
            assert(sv.take(i + 1).to_set().remove(item@) =~= sv.take(i as int).to_set().remove(item@));
            assert forall|x: Seq<char>| strings_view(out@).contains(x) implies sv.take(i + 1).contains(x) && x != item@ by {
                vstd::seq_lib::lemma_seq_contains_after_push(sv.take(i as int), sv[i as int], x);
            }
        } else {
            let ghost before = strings_view(out@);
            let c = list[i].clone();
            proof {
                if before.contains(sv[i as int]) {
                    assert(sv.take(i as int).contains(sv[i as int]));
                    let k = choose|k: int| 0 <= k < i && sv.take(i as int)[k] == sv[i as int];
                    assert(sv[k] == sv[i as int]);
                }
                lemma_push_keeps_distinct(before, c@);
                before.lemma_push_to_set_commute(c@);
            }
            let ghost ob = out@;
            out.push(c);
            proof {
                crate::domain::lemma_strings_view_push(ob, c);
                assert(strings_view(out@).to_set() =~= sv.take(i + 1).to_set().remove(item@));
                assert forall|x: Seq<char>| strings_view(out@).contains(x) implies sv.take(i + 1).contains(x) && x != item@ by {
                    vstd::seq_lib::lemma_seq_contains_after_push(before, c@, x);
                    vstd::seq_lib::lemma_seq_contains_after_push(sv.take(i as int), sv[i as int], x);
                }
            }
        }
        i = i + 1;
    }
    assert(sv.take(i as int) =~= sv);
    if !found {
        let ghost before = strings_view(out@);
        let c = item.clone();
        proof {
            lemma_push_keeps_distinct(before, c@);
            before.lemma_push_to_set_commute(c@);
        }
        let ghost ob = out@;
        out.push(c);
        proof {
            crate::domain::lemma_strings_view_push(ob, c);
            assert(!sv.to_set().contains(item@));
            assert(strings_view(out@).to_set() =~= sv.to_set().insert(item@));
        }
    } else {
        assert(sv.to_set().contains(item@));
    }
    out
}

/// `paths` with repeats left out, each at its first place.
fn distinct_paths(paths: &Vec<String>) -> (r: Vec<String>)
    ensures
        strings_view(r@).no_duplicates(),
        strings_view(r@).to_set() == strings_view(paths@).to_set(),
{
    let ghost pv = strings_view(paths@);
    let mut out: Vec<String> = Vec::new();
    let mut i: usize = 0;
    while i < paths.len()
        invariant
            i <= paths@.len(),
            pv == strings_view(paths@),
            strings_view(out@).no_duplicates(),
            strings_view(out@).to_set() == pv.take(i as int).to_set(),
        decreases paths@.len() - i,
    {
        assert(pv[i as int] == paths@[i as int]@);
        assert(pv.take(i + 1) =~= pv.take(i as int).push(pv[i as int]));
        proof {
            pv.take(i as int).lemma_push_to_set_commute(pv[i as int]);
        }
        if !crate::domain::strings_contain(&out, paths[i].as_str()) {
            let ghost before = strings_view(out@);
            let c = paths[i].clone();
            proof {
                lemma_push_keeps_distinct(before, c@);
                before.lemma_push_to_set_commute(c@);
            }
            let ghost ob = out@;
            out.push(c);
            proof {
                crate::domain::lemma_strings_view_push(ob, c);
            }
        } else {
            proof {
                assert(strings_view(out@).to_set().contains(pv[i as int]));
                assert(pv.take(i + 1).to_set() =~= pv.take(i as int).to_set());
            }
        }
        i = i + 1;
    }
    assert(pv.take(i as int) =~= pv);
    out
}

impl ShotSelection {
    /// The view as it opens: nothing picked, nothing shown.
    pub fn new() -> (r: ShotSelection)
        ensures
            r.wf(),
            !r.editing,
            r.picked() == Set::<Seq<char>>::empty(),
            r.viewing is None,
            !r.confirm_delete,
    {
        let r = ShotSelection { editing: false, selected: Vec::new(), viewing: None, confirm_delete: false };
        assert(strings_view(r.selected@) =~= Seq::<Seq<char>>::empty());
        r
    }

    /// A screenshot was pressed: while picking it is picked or unpicked,
    /// otherwise the viewer opens on it.
    pub fn activate(&mut self, index: usize, path: &String)
        requires
            old(self).wf(),
        ensures
            final(self).wf(),
            final(self).editing == old(self).editing,
            final(self).confirm_delete == old(self).confirm_delete,
            old(self).editing ==> final(self).picked() == toggled_set(old(self).picked(), path@)
                && final(self).viewing == old(self).viewing,
            !old(self).editing ==> final(self).picked() == old(self).picked() && final(self).viewing == Some(index),
    {
        if self.editing {
            let next = toggle_path(&self.selected, path);
            self.selected = next;
        } else {
            self.viewing = Some(index);
        }
    }

    /// The Select button: picking starts, when there is a screenshot.
    pub fn start_picking(&mut self, shot_count: usize)
        requires
            old(self).wf(),
        ensures
            final(self).wf(),
            final(self).editing == (old(self).editing || shot_count > 0),
            final(self).picked() == old(self).picked(),
            final(self).viewing == old(self).viewing,
            final(self).confirm_delete == old(self).confirm_delete,
    {
        if shot_count > 0 {
            self.editing = true;
        }
    }

    /// Picks every screenshot.
    pub fn select_all(&mut self, paths: &Vec<String>)
        requires
            old(self).wf(),
        ensures
            final(self).wf(),
            final(self).picked() == strings_view(paths@).to_set(),
            final(self).editing == old(self).editing,
            final(self).viewing == old(self).viewing,
            final(self).confirm_delete == old(self).confirm_delete,
    {
        self.selected = distinct_paths(paths);
    }

    /// Unpicks everything.
    pub fn deselect_all(&mut self)
        requires
            old(self).wf(),
        ensures
            final(self).wf(),
            final(self).picked() == Set::<Seq<char>>::empty(),
            final(self).editing == old(self).editing,
            final(self).viewing == old(self).viewing,
            final(self).confirm_delete == old(self).confirm_delete,
    {
        self.selected = Vec::new();
        assert(strings_view(self.selected@) =~= Seq::<Seq<char>>::empty());
    }

    /// Leaves picking, unpicking everything.
    pub fn cancel(&mut self)
        requires
            old(self).wf(),
        ensures
            final(self).wf(),
            !final(self).editing,
            final(self).picked() == Set::<Seq<char>>::empty(),
            final(self).viewing == old(self).viewing,
            final(self).confirm_delete == old(self).confirm_delete,
    {
        self.selected = Vec::new();
        self.editing = false;
        assert(strings_view(self.selected@) =~= Seq::<Seq<char>>::empty());
    }

    /// The Delete button asks first, when something is picked.
    pub fn ask_delete(&mut self)
        requires
            old(self).wf(),
        ensures
            final(self).wf(),
            final(self).confirm_delete == (old(self).confirm_delete || old(self).selected@.len() > 0),
            final(self).picked() == old(self).picked(),
            final(self).editing == old(self).editing,
            final(self).viewing == old(self).viewing,
    {
        if self.selected.len() > 0 {
            self.confirm_delete = true;
        }
    }

    /// The user confirmed: the picked screenshots are returned for deletion,
    /// and picking ends with nothing picked.
    pub fn confirm_deletion(&mut self) -> (r: Vec<String>)
        requires
            old(self).wf(),
        ensures
            final(self).wf(),
            strings_view(r@).to_set() == old(self).picked(),
            strings_view(r@).no_duplicates(),
            final(self).picked() == Set::<Seq<char>>::empty(),
            !final(self).editing,
            !final(self).confirm_delete,
            final(self).viewing == old(self).viewing,
    {
        let mut taken: Vec<String> = Vec::new();
        std::mem::swap(&mut taken, &mut self.selected);
        self.editing = false;
        self.confirm_delete = false;
        assert(strings_view(self.selected@) =~= Seq::<Seq<char>>::empty());
        taken
    }

    /// The viewer was closed.
    pub fn close_viewer(&mut self)
        ensures
            final(self).viewing is None,
            final(self).editing == old(self).editing,
            strings_view(final(self).selected@) == strings_view(old(self).selected@),
            final(self).confirm_delete == old(self).confirm_delete,
    {
        self.viewing = None;
    }
}

/// Pressing the same screenshot twice while picking leaves the picks as they
/// were.
pub proof fn law_pick_twice(set: Set<Seq<char>>, path: Seq<char>)
    ensures
        toggled_set(toggled_set(set, path), path) == set,
{
    assert(toggled_set(toggled_set(set, path), path) =~= set);
}

/// The count the toolbar shows while picking.
pub fn selected_text(count: usize) -> (r: String)
    ensures
        r@ == decimal(count as nat) + " selected"@,
{
    crate::text::join2(decimal_string(count as u64).as_str(), " selected")
}

/// The label of the delete button while picking.
pub fn delete_label(count: usize) -> (r: String)
    ensures
        r@ == "Delete ("@ + decimal(count as nat) + ")"@,
{
    crate::text::join3("Delete (", decimal_string(count as u64).as_str(), ")")
}

/// The question before the picked screenshots go to the trash.
pub fn delete_question(count: usize) -> (r: String)
    ensures
        r@ == "Move "@ + decimal(count as nat) + " screenshot"@ + (if count == 1 {
            Seq::<char>::empty()
        } else {
            "s"@
        }) + " to trash?"@,
{
    let mut r = String::from_str("Move ");
    r.append(decimal_string(count as u64).as_str());
    r.append(" screenshot");
    if count != 1 {
        r.append("s");
    }
    r.append(" to trash?");
    r
}

/// What the view says with no screenshots.
pub fn empty_text(loading: bool) -> (r: &'static str)
    ensures
        r@ == (if loading {
            "Loading screenshots..."@
        } else {
            "No screenshots yet. Press F2 in-game to capture one."@
        }),
{
    if loading {
        "Loading screenshots..."
    } else {
        "No screenshots yet. Press F2 in-game to capture one."
    }
}

} // verus!
