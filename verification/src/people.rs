//! The people dialog of the chat: friend requests, the tab counts, and
//! picking the members of a new group. A player is named by the 128 bits of
//! their UUID.
use vstd::prelude::*;

use crate::text::{decimal, decimal_string, trim, trimmed};

verus! {

/// The tabs of the people dialog.
#[derive(Clone, Copy, PartialEq, Eq, Debug, Structural)]
pub enum PeopleTab {
    Friends,
    Requests,
    Blocked,
}

/// The counts the three tabs show: friends, pending requests both ways, and
/// blocked players.
pub fn tab_counts(friends: usize, incoming: usize, outgoing: usize, blocked: usize) -> (r: (String, String, String))
    requires
        incoming + outgoing <= u64::MAX,
    ensures
        r.0@ == decimal(friends as nat),
        r.1@ == decimal((incoming + outgoing) as nat),
        r.2@ == decimal(blocked as nat),
{
    (
        decimal_string(friends as u64),
        decimal_string(incoming as u64 + outgoing as u64),
        decimal_string(blocked as u64),
    )
}

/// The username a friend request goes to: the draft, trimmed; none while it
/// is blank.
pub fn friend_request_target(draft: &str) -> (r: Option<String>)
    ensures
        match r {
            Some(u) => u@ == trimmed(draft@) && u@.len() > 0,
            None => trimmed(draft@).len() == 0,
        },
{
    let t = trim(draft);
    if t.unicode_len() == 0 {
        None
    } else {
        Some(String::from_str(t))
    }
}

/// The note beside a friend: best friends are marked.
pub fn friend_note(best: bool) -> (r: Option<&'static str>)
    ensures
        match r {
            Some(n) => best && n@ == "Best friend"@,
            None => !best,
        },
{
    if best {
        Some("Best friend")
    } else {
        None
    }
}

/// What the dialog says when a tab has nothing to list.
pub fn empty_hint(tab: PeopleTab) -> (r: &'static str)
    ensures
        r@ == match tab {
            PeopleTab::Friends => "No friends yet. Add one by username above."@,
            PeopleTab::Requests => "No pending friend requests."@,
            PeopleTab::Blocked => "Nobody is blocked."@,
        },
{
    match tab {
        PeopleTab::Friends => "No friends yet. Add one by username above.",
        PeopleTab::Requests => "No pending friend requests.",
        PeopleTab::Blocked => "Nobody is blocked.",
    }
}

/// What can be done with a friend request: accept or decline one that came
/// in, cancel one that was sent.
#[derive(Clone, Copy, PartialEq, Eq, Debug, Structural)]
pub enum RequestActions {
    AcceptOrDecline,
    Cancel,
}

pub fn request_actions(incoming: bool) -> (r: RequestActions)
    ensures
        r == (if incoming {
            RequestActions::AcceptOrDecline
        } else {
            RequestActions::Cancel
        }),
{
    if incoming {
        RequestActions::AcceptOrDecline
    } else {
        RequestActions::Cancel
    }
}

/// The members picked for a new group, each once.
pub struct GroupPicks {
    pub members: Vec<u128>,
}

impl GroupPicks {
    pub open spec fn picked(&self) -> Set<u128> {
        self.members@.to_set()
    }

    pub open spec fn wf(&self) -> bool {
        self.members@.no_duplicates()
    }

    pub fn new() -> (r: GroupPicks)
        ensures
            r.wf(),
            r.picked() == Set::<u128>::empty(),
    {
        let r = GroupPicks { members: Vec::new() };
        assert(r.members@.to_set() =~= Set::<u128>::empty());
        r
    }

    /// A friend was pressed: picked if they were not, unpicked if they were.
    pub fn toggle(&mut self, player: u128)
        requires
            old(self).wf(),
        ensures
            final(self).wf(),
            final(self).picked() == (if old(self).picked().contains(player) {
                old(self).picked().remove(player)
            } else {
                old(self).picked().insert(player)
            }),
    {
        let ghost s = self.members@;
        let mut out: Vec<u128> = Vec::new();
        let mut found = false;
        let mut i: usize = 0;
        while i < self.members.len()
            invariant
                i <= self.members@.len(),
                s == self.members@,
                s.no_duplicates(),
                found == s.take(i as int).contains(player),
                out@.to_set() == s.take(i as int).to_set().remove(player),
                out@.no_duplicates(),
                forall|x: u128| out@.contains(x) ==> s.take(i as int).contains(x) && x != player,
            decreases self.members@.len() - i,
        {
            let m = self.members[i];
            assert(s.take(i + 1) =~= s.take(i as int).push(m));
            proof {
                vstd::seq_lib::lemma_seq_contains_after_push(s.take(i as int), m, player);
                s.take(i as int).lemma_push_to_set_commute(m);
            }
            if m == player {
                found = true;
                assert(s.take(i + 1).to_set().remove(player) =~= s.take(i as int).to_set().remove(player));
                assert forall|x: u128| out@.contains(x) implies s.take(i + 1).contains(x) && x != player by {
                    vstd::seq_lib::lemma_seq_contains_after_push(s.take(i as int), m, x);
                }
            } else {
                let ghost before = out@;
                proof {
                    if before.contains(m) {
                        let k = choose|k: int| 0 <= k < i && s.take(i as int)[k] == m;
                        assert(s[k] == m);
                    }
                    lemma_push_distinct(before, m);
                    before.lemma_push_to_set_commute(m);
                }
                out.push(m);
                proof {
                    assert(out@.to_set() =~= s.take(i + 1).to_set().remove(player));
                    assert forall|x: u128| out@.contains(x) implies s.take(i + 1).contains(x) && x != player by {
                        vstd::seq_lib::lemma_seq_contains_after_push(before, m, x);
                        vstd::seq_lib::lemma_seq_contains_after_push(s.take(i as int), m, x);
                    }
                }
            }
            i = i + 1;
        }
        assert(s.take(i as int) =~= s);
        if !found {
            let ghost before = out@;
            proof {
                lemma_push_distinct(before, player);
                before.lemma_push_to_set_commute(player);
            }
            out.push(player);
            proof {
                assert(!s.to_set().contains(player));
                assert(out@.to_set() =~= s.to_set().insert(player));
            }
        } else {
            assert(s.to_set().contains(player));
        }
        self.members = out;
    }
}

proof fn lemma_push_distinct(s: Seq<u128>, x: u128)
    requires
        s.no_duplicates(),
        !s.contains(x),
    ensures
        s.push(x).no_duplicates(),
{
    let p = s.push(x);
    assert forall|i: int, j: int| 0 <= i < p.len() && 0 <= j < p.len() && i != j implies p[i] != p[j] by {
        if i == s.len() {
            assert(p[j] == s[j]);
        } else if j == s.len() {
            assert(p[i] == s[i]);
        }
    }
}

/// Pressing the same friend twice leaves the picks as they were.
pub proof fn law_member_toggle_twice(set: Set<u128>, player: u128)
    ensures
        ({
            let once = if set.contains(player) { set.remove(player) } else { set.insert(player) };
            if once.contains(player) { once.remove(player) } else { once.insert(player) }
        }) == set,
{
    let once = if set.contains(player) { set.remove(player) } else { set.insert(player) };
    let twice = if once.contains(player) { once.remove(player) } else { once.insert(player) };
    assert(twice =~= set);
}

/// A group can be created once it has a name that is not blank and at least
/// one member.
pub fn can_create_group(title: &str, picked: usize) -> (r: bool)
    ensures
        r == (trimmed(title@).len() > 0 && picked > 0),
{
    trim(title).unicode_len() > 0 && picked > 0
}

} // verus!
