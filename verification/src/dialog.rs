//! The create-instance dialog: the versions a loader runs on, the version
//! rows it lists, what it has settled on, and how its footer buttons move
//! between steps. It shares its rules with the wizard where they agree.
use vstd::prelude::*;

use crate::domain::{bundles_view, copy_opt, copy_strings, opt_view, strings_view, Bundle, GameLoader};
use crate::picks::{footer_text, heading_subtitle, heading_title, progress_text, ready, taken_names};
use crate::text::{decimal_string, trim, trimmed};
use crate::wizard::{
    default_version, indices_valid, list_len, row_at, rows_view, ClusterKind, Step, TypeChoice, VersionList,
    VersionRow, VersionRowView,
};

verus! {

/// The versions a loader runs on, as far as they are known: `None` while
/// unknown, `Some(None)` when the loader runs on every version, else the
/// versions. For Fabric the versions of Ornithe, its legacy build, count
/// too once they are known.
pub open spec fn allowed_set(
    primary: Option<Option<Seq<Seq<char>>>>,
    ornithe: Option<Option<Seq<Seq<char>>>>,
    fabric: bool,
) -> Option<Option<Set<Seq<char>>>> {
    match primary {
        None => None,
        Some(None) => Some(None),
        Some(Some(ids)) => Some(Some(
            if fabric {
                match ornithe {
                    Some(Some(extra)) => ids.to_set().union(extra.to_set()),
                    _ => ids.to_set(),
                }
            } else {
                ids.to_set()
            },
        )),
    }
}

pub open spec fn opt_opt_view(o: Option<Option<Vec<String>>>) -> Option<Option<Seq<Seq<char>>>> {
    match o {
        None => None,
        Some(None) => Some(None),
        Some(Some(v)) => Some(Some(strings_view(v@))),
    }
}

pub fn allowed_versions(
    primary: Option<Option<Vec<String>>>,
    ornithe: Option<Option<Vec<String>>>,
    fabric: bool,
) -> (r: Option<Option<Vec<String>>>)
    ensures
        match (r, allowed_set(opt_opt_view(primary), opt_opt_view(ornithe), fabric)) {
            (None, None) => true,
            (Some(None), Some(None)) => true,
            (Some(Some(v)), Some(Some(s))) => strings_view(v@).to_set() == s,
            _ => false,
        },
{
    match primary {
        None => None,
        Some(None) => Some(None),
        Some(Some(mut ids)) => {
            let ghost first = strings_view(ids@);
            if fabric {
                match ornithe {
                    Some(Some(extra)) => {
                        let ghost second = strings_view(extra@);
                        let mut i: usize = 0;
                        while i < extra.len()
                            invariant
                                i <= extra@.len(),
                                second == strings_view(extra@),
                                strings_view(ids@) == first + second.take(i as int),
                            decreases extra@.len() - i,
                        {
                            let ghost before = ids@;
                            let c = extra[i].clone();
                            ids.push(c);
                            proof {
                                crate::domain::lemma_strings_view_push(before, c);
                                assert(second[i as int] == extra@[i as int]@);
                                assert(first + second.take(i + 1) =~= (first + second.take(i as int)).push(c@));
                            }
                            i = i + 1;
                        }
                        proof {
                            assert(second.take(i as int) =~= second);
                            vstd::seq_lib::seq_to_set_distributes_over_add(first, second);
                        }
                        Some(Some(ids))
                    },
                    _ => Some(Some(ids)),
                }
            } else {
                Some(Some(ids))
            }
        },
    }
}

/// The rows a version list shows, in order.
pub fn list_rows(list: &VersionList) -> (r: Vec<VersionRow>)
    requires
        indices_valid(list@),
    ensures
        rows_view(r@).len() == list_len(list@),
        forall|i: int| 0 <= i < r@.len() ==> row_at(list@, i) == Some(#[trigger] rows_view(r@)[i]),
{
    let n = list.len();
    let mut out: Vec<VersionRow> = Vec::new();
    let mut i: usize = 0;
    while i < n
        invariant
            n == list_len(list@),
            indices_valid(list@),
            i <= n,
            out@.len() == i,
            forall|k: int| 0 <= k < i ==> row_at(list@, k) == Some(#[trigger] rows_view(out@)[k]),
        decreases n - i,
    {
        match list.row(i) {
            Some(row) => {
                let ghost before = out@;
                out.push(row);
                proof {
                    assert forall|k: int| 0 <= k < i + 1 implies row_at(list@, k) == Some(#[trigger] rows_view(out@)[k]) by {
                        if k < i {
                            assert(rows_view(out@)[k] == rows_view(before)[k]);
                        }
                    }
                }
            },
            None => {
                proof {
                    match list@ {
                        crate::wizard::VersionListView::Curated(rows) => {},
                        crate::wizard::VersionListView::Catalogue { all, visible } => {
                            assert(visible[i as int] < all.len());
                        },
                    }
                }
                return out;
            },
        }
        i = i + 1;
    }
    out
}

/// The version the dialog settles on: the one picked while it is still
/// listed, else the default of the list.
pub open spec fn dialog_version_of(previous: Option<Seq<char>>, rows: Seq<VersionRowView>, fallback: Option<Seq<char>>) -> Option<Seq<char>> {
    match previous {
        Some(p) => if exists|k: int| 0 <= k < rows.len() && (#[trigger] rows[k]).id == p {
            Some(p)
        } else {
            fallback
        },
        None => fallback,
    }
}

pub fn dialog_version(previous: Option<String>, rows: &Vec<VersionRow>, list: &VersionList) -> (r: Option<String>)
    requires
        indices_valid(list@),
    ensures
        opt_view(r) == dialog_version_of(opt_view(previous), rows_view(rows@), default_version(list@)),
{
    match previous {
        Some(p) => {
            let mut i: usize = 0;
            while i < rows.len()
                invariant
                    i <= rows@.len(),
                    opt_view(previous) == Some(p@),
                    indices_valid(list@),
                    forall|k: int| 0 <= k < i ==> (#[trigger] rows_view(rows@)[k]).id != p@,
                decreases rows@.len() - i,
            {
                assert(rows_view(rows@)[i as int] == rows@[i as int]@);
                if crate::text::str_eq(rows[i].id.as_str(), p.as_str()) {
                    assert(rows_view(rows@)[i as int].id == p@);
                    return Some(p);
                }
                i = i + 1;
            }
            list.default_id()
        },
        None => list.default_id(),
    }
}

/// The version list has arrived: the OneClient catalogue for a OneClient
/// instance; otherwise a vanilla catalogue that is not empty and the
/// loader's versions.
pub fn dialog_versions_loaded(oneclient: bool, catalogue_loaded: bool, vanilla_count: usize, allowed_known: bool) -> (r: bool)
    ensures
        r == (if oneclient {
            catalogue_loaded
        } else {
            vanilla_count > 0 && allowed_known
        }),
{
    if oneclient {
        catalogue_loaded
    } else {
        vanilla_count > 0 && allowed_known
    }
}

/// The version bundles are looked up for: the version of a OneClient
/// instance, else none.
pub fn bundle_version(oneclient: bool, version: Option<&String>) -> (r: String)
    ensures
        r@ == (if oneclient {
            match version {
                Some(v) => v@,
                None => Seq::<char>::empty(),
            }
        } else {
            Seq::<char>::empty()
        }),
{
    if oneclient {
        match version {
            Some(v) => v.clone(),
            None => String::new(),
        }
    } else {
        String::new()
    }
}

/// What the dialog has settled on.
pub struct Picks {
    pub steps: Vec<Step>,
    pub index: usize,
    pub step: Step,
    pub choice: Option<TypeChoice>,
    pub kind: ClusterKind,
    pub version: Option<String>,
    pub loader: Option<GameLoader>,
    pub loader_version: Option<String>,
    pub loader_versions: Vec<String>,
    pub versions: Vec<VersionRow>,
    pub versions_loaded: bool,
    pub archives: Vec<Bundle>,
    pub bundles_loaded: bool,
    pub declined: Vec<String>,
    pub name: String,
    pub suggested: String,
}

/// The loader as the dialog names it: "No loader" without a modded one.
pub open spec fn dialog_loader_text(loader: Option<GameLoader>, version: Option<Seq<char>>) -> Seq<char> {
    match loader {
        None => "No loader"@,
        Some(GameLoader::Vanilla) => "No loader"@,
        Some(l) => match version {
            Some(v) => l.spec_label() + " "@ + v,
            None => l.spec_label(),
        },
    }
}

impl Picks {
    pub open spec fn spec_loader_label(&self) -> Seq<char> {
        dialog_loader_text(self.loader, opt_view(self.loader_version))
    }

    pub open spec fn spec_taken(&self) -> Seq<Seq<char>> {
        taken_names(bundles_view(self.archives@), strings_view(self.declined@))
    }

    pub fn loader_label(&self) -> (r: String)
        ensures
            r@ == self.spec_loader_label(),
    {
        match self.loader {
            None => String::from_str("No loader"),
            Some(GameLoader::Vanilla) => String::from_str("No loader"),
            Some(l) => match &self.loader_version {
                Some(v) => crate::text::join3(l.label(), " ", v.as_str()),
                None => String::from_str(l.label()),
            },
        }
    }

    /// The names of the bundles taken: those not turned down, in order.
    pub fn taken_bundles(&self) -> (r: Vec<String>)
        ensures
            strings_view(r@) == self.spec_taken(),
    {
        let ghost bv = bundles_view(self.archives@);
        let ghost dv = strings_view(self.declined@);
        let mut out: Vec<String> = Vec::new();
        let mut i: usize = 0;
        while i < self.archives.len()
            invariant
                i <= self.archives@.len(),
                bv == bundles_view(self.archives@),
                dv == strings_view(self.declined@),
                strings_view(out@) == taken_names(bv.take(i as int), dv),
            decreases self.archives@.len() - i,
        {
            assert(bv[i as int] == self.archives@[i as int]@);
            assert(bv.take(i + 1).drop_last() =~= bv.take(i as int));
            let name = &self.archives[i].name;
            if !crate::domain::strings_contain(&self.declined, name.as_str()) {
                let ghost before = out@;
                let c = name.clone();
                out.push(c);
                proof {
                    crate::domain::lemma_strings_view_push(before, c);
                }
            }
            i = i + 1;
        }
        assert(bv.take(i as int) =~= bv);
        out
    }

    /// The primary button can move on.
    pub fn ready(&self) -> (r: bool)
        ensures
            r == ready(self.step, self.choice, opt_view(self.version), self.loader is Some, self.name@),
    {
        match self.step {
            Step::Type => self.choice.is_some(),
            Step::Loader => true,
            Step::Bundles => true,
            Step::Version => self.version.is_some() && self.loader.is_some(),
            Step::Customize => trim(self.name.as_str()).unicode_len() > 0,
        }
    }

    /// "Step i of n".
    pub fn progress(&self) -> (r: String)
        requires
            self.index < self.steps@.len(),
        ensures
            r@ == progress_text(self.index as nat, self.steps@.len()),
    {
        let total = self.steps.len();
        let mut r = String::from_str("Step ");
        r.append(decimal_string((self.index + 1) as u64).as_str());
        r.append(" of ");
        r.append(decimal_string(total as u64).as_str());
        r
    }

    /// The dialog's title and subtitle.
    pub fn heading(&self) -> (r: (&'static str, String))
        ensures
            r.0@ == heading_title(self.step),
            r.1@ == heading_subtitle(self.step, self.choice, self.spec_loader_label()),
    {
        match self.step {
            Step::Type => ("Choose a type", String::from_str("Two ways to start. Packages can be added to either of them later.")),
            Step::Loader => (
                "Choose a mod loader",
                String::from_str("Loaders are what packages install into. Pick one, then the Minecraft version it runs on."),
            ),
            Step::Version => (
                "Choose a version",
                if self.choice == Some(TypeChoice::OneClient) {
                    String::from_str("Only versions OneClient ships a build for are listed.")
                } else {
                    crate::text::join3(
                        "Versions ",
                        self.loader_label().as_str(),
                        " can run. Switch the release type to reach snapshots, betas and alphas.",
                    )
                },
            ),
            Step::Bundles => (
                "Add bundles",
                String::from_str("Curated sets of packages, installed and configured together. Take as many as you like."),
            ),
            Step::Customize => ("Name the instance", String::from_str("Everything here can be changed afterwards.")),
        }
    }

    /// The note in the dialog's footer.
    pub fn footer_note(&self) -> (r: String)
        ensures
            r@ == footer_text(
                self.step,
                self.choice,
                self.spec_loader_label(),
                opt_view(self.version),
                self.loader is Some,
                self.spec_taken().len(),
                self.archives@.len(),
            ),
    {
        match self.step {
            Step::Type => match self.choice {
                Some(TypeChoice::OneClient) => String::from_str(
                    "Shares its game folder, worlds and packs with your other OneClient instances.",
                ),
                Some(TypeChoice::Scratch) => String::from_str("Keeps its own game folder, worlds and packs."),
                None => String::from_str("Pick a type to continue."),
            },
            Step::Loader => self.loader_label(),
            Step::Version => match &self.version {
                Some(v) => if self.loader.is_some() {
                    crate::text::join2(v.as_str(), " downloads the first time you launch it.")
                } else {
                    let mut r = self.loader_label();
                    r.append(" has no build for ");
                    r.append(v.as_str());
                    r.append(".");
                    r
                },
                None => String::from_str("Pick a version to continue."),
            },
            Step::Bundles => {
                let taken = self.taken_bundles().len();
                let total = self.archives.len();
                if taken == 0 {
                    String::from_str("Nothing selected. OneConfig is installed either way.")
                } else {
                    let mut r = decimal_string(taken as u64);
                    r.append(" of ");
                    r.append(decimal_string(total as u64).as_str());
                    r.append(" selected. Bundles can be changed later.");
                    r
                }
            },
            Step::Customize => String::from_str("The instance is created locally. Nothing is uploaded."),
        }
    }
}

/// The request the dialog sends: none until a version and a loader are
/// settled; a OneClient instance names the bundles it takes.
pub fn create_action(
    picks: &Picks,
    description: &str,
    tags: &Vec<String>,
    cover: &Option<String>,
) -> (r: Option<crate::details::CreateRequest>)
    ensures
        r is Some <==> (picks.version is Some && picks.loader is Some),
        r matches Some(req) ==> {
            &&& req.kind == picks.kind
            &&& req.name@ == trimmed(picks.name@)
            &&& Some(req.mc_version@) == opt_view(picks.version)
            &&& Some(req.mc_loader) == picks.loader
            &&& opt_view(req.mc_loader_version) == opt_view(picks.loader_version)
            &&& opt_view(req.description) == (if trimmed(description@).len() > 0 {
                Some(trimmed(description@))
            } else {
                None
            })
            &&& strings_view(req.tags@) == strings_view(tags@)
            &&& opt_view(req.cover_source) == opt_view(*cover)
            &&& match req.bundles {
                Some(b) => picks.kind == ClusterKind::OneClient && strings_view(b@) == picks.spec_taken(),
                None => picks.kind != ClusterKind::OneClient,
            }
        },
{
    let mc_version = match &picks.version {
        Some(v) => v.clone(),
        None => return None,
    };
    let mc_loader = match picks.loader {
        Some(l) => l,
        None => return None,
    };
    let d = trim(description);
    let description = if d.unicode_len() > 0 {
        Some(String::from_str(d))
    } else {
        None
    };
    let bundles = if picks.kind == ClusterKind::OneClient {
        Some(picks.taken_bundles())
    } else {
        None
    };
    Some(crate::details::CreateRequest {
        kind: picks.kind,
        name: String::from_str(trim(picks.name.as_str())),
        mc_version,
        mc_loader,
        mc_loader_version: copy_opt(&picks.loader_version),
        description,
        tags: copy_strings(tags),
        cover_source: copy_opt(cover),
        bundles,
    })
}

/// Where a footer button takes the wizard.
#[derive(Clone, Copy, PartialEq, Eq, Debug, Structural)]
pub enum Nav {
    /// Close without creating.
    Close,
    /// Show the step at this index (the search is cleared when moving on).
    GoTo(usize),
    /// Create the instance.
    Create,
    /// Nothing happens.
    Stay,
}

/// Where the left button leads: closing on the first step, else back one
/// step.
pub open spec fn secondary_target(index: nat) -> Nav {
    if index == 0 {
        Nav::Close
    } else {
        Nav::GoTo((index - 1) as usize)
    }
}

/// Where the right button leads: nowhere until the step is ready, then to
/// creating on the last step and to the next step before it.
pub open spec fn primary_target(ready: bool, last: bool, index: nat) -> Nav {
    if !ready {
        Nav::Stay
    } else if last {
        Nav::Create
    } else {
        Nav::GoTo((index + 1) as usize)
    }
}

/// The left button: "Cancel" on the first step, else "Back".
pub fn secondary_nav(index: usize) -> (r: (&'static str, Nav))
    ensures
        r.0@ == (if index == 0 {
            "Cancel"@
        } else {
            "Back"@
        }),
        r.1 == secondary_target(index as nat),
{
    if index == 0 {
        ("Cancel", Nav::Close)
    } else {
        ("Back", Nav::GoTo(index - 1))
    }
}

/// The right button: "Create instance" on the last step, else "Next".
pub fn primary_nav(ready: bool, last: bool, index: usize) -> (r: (&'static str, Nav))
    requires
        index < usize::MAX,
    ensures
        r.0@ == (if last {
            "Create instance"@
        } else {
            "Next"@
        }),
        r.1 == primary_target(ready, last, index as nat),
{
    let label = if last {
        "Create instance"
    } else {
        "Next"
    };
    let nav = if !ready {
        Nav::Stay
    } else if last {
        Nav::Create
    } else {
        Nav::GoTo(index + 1)
    };
    (label, nav)
}

/// Moving on from a step that is ready and then pressing Back returns to
/// that step.
pub proof fn law_next_then_back(index: usize)
    requires
        index < usize::MAX,
    ensures
        primary_target(true, false, index as nat) == Nav::GoTo((index + 1) as usize),
        secondary_target((index + 1) as nat) == Nav::GoTo(index),
{
}

impl Picks {
    /// The value a step shows in the dialog's rail; `tags` is the number of
    /// tags typed.
    pub fn step_value(&self, step: Step, tags: usize) -> (r: String)
        ensures
            r@ == crate::picks::step_value_text(
                step,
                self.choice,
                self.spec_loader_label(),
                opt_view(self.version),
                self.spec_taken().len(),
                tags as nat,
            ),
    {
        match step {
            Step::Type => match self.choice {
                Some(TypeChoice::OneClient) => String::from_str("OneClient"),
                Some(TypeChoice::Scratch) => String::from_str("From scratch"),
                None => String::new(),
            },
            Step::Loader => self.loader_label(),
            Step::Version => match &self.version {
                Some(v) => v.clone(),
                None => String::from_str("Not chosen"),
            },
            Step::Bundles => {
                let taken = self.taken_bundles().len();
                if taken == 0 {
                    String::from_str("None")
                } else {
                    crate::text::join2(decimal_string(taken as u64).as_str(), " selected")
                }
            },
            Step::Customize => if tags == 0 {
                String::from_str("Optional")
            } else if tags == 1 {
                String::from_str("1 tag")
            } else {
                crate::text::join2(decimal_string(tags as u64).as_str(), " tags")
            },
        }
    }
}

} // verus!
