//! What the wizard has settled on, and the text its header, footer and
//! progress card show for it; the details form shared with the edit dialog.
use vstd::prelude::*;

use crate::domain::{bundles_view, copy_opt, opt_view, strings_contain, strings_view, Bundle, BundleView, GameLoader};
use crate::naming::NameTable;
use crate::text::{decimal, decimal_string, trim, trimmed};
use crate::wizard::{
    kind_of, step_label, ClusterKind, Step, TypeChoice, VersionList,
};

verus! {

/// The version step's state.
pub struct VersionPicks {
    pub chosen: Option<String>,
    pub list: VersionList,
    pub loaded: bool,
    pub error: Option<String>,
    pub filter: usize,
}

/// The loader in effect and the versions it offers.
pub struct LoaderPicks {
    pub chosen: Option<GameLoader>,
    pub version: Option<String>,
    pub versions: Vec<String>,
}

/// The bundles offered and those the user turned down.
pub struct BundlePicks {
    pub archives: Vec<Bundle>,
    pub loaded: bool,
    pub names: NameTable,
    pub declined: Vec<String>,
}

/// The names of the bundles that are taken: those not turned down, in order.
pub open spec fn taken_names(archives: Seq<BundleView>, declined: Seq<Seq<char>>) -> Seq<Seq<char>>
    decreases archives.len(),
{
    if archives.len() == 0 {
        Seq::empty()
    } else if declined.contains(archives.last().name) {
        taken_names(archives.drop_last(), declined)
    } else {
        taken_names(archives.drop_last(), declined).push(archives.last().name)
    }
}

impl BundlePicks {
    /// The names of the bundles taken.
    pub fn taken(&self) -> (r: Vec<String>)
        ensures
            strings_view(r@) == taken_names(bundles_view(self.archives@), strings_view(self.declined@)),
    {
        let ghost bv = bundles_view(self.archives@);
        let ghost dv = strings_view(self.declined@);
        let mut out: Vec<String> = Vec::new();
        let mut i: usize = 0;
        while i < self.archives.len()
            invariant
                i <= self.archives@.len(),
                bv == bundles_view(self.archives@),
                dv == strings_view(self.declined@),
                strings_view(out@) == taken_names(bv.take(i as int), dv),
            decreases self.archives@.len() - i,
        {
            assert(bv[i as int] == self.archives@[i as int]@);
            assert(bv.take(i + 1).drop_last() =~= bv.take(i as int));
            let name = &self.archives[i].name;
            if !strings_contain(&self.declined, name.as_str()) {
                let ghost before = out@;
                let c = name.clone();
                out.push(c);
                proof {
                    crate::domain::lemma_strings_view_push(before, c);
                }
            }
            i = i + 1;
        }
        assert(bv.take(i as int) =~= bv);
        out
    }

    /// How many bundles are taken.
    pub fn taken_count(&self) -> (r: usize)
        ensures
            r == taken_names(bundles_view(self.archives@), strings_view(self.declined@)).len(),
    {
        self.taken().len()
    }
}

/// Everything the wizard has settled on.
pub struct Picks {
    pub steps: Vec<Step>,
    pub index: usize,
    pub step: Step,
    pub choice: Option<TypeChoice>,
    pub kind: ClusterKind,
    pub name: String,
    pub suggested: String,
    pub versions: VersionPicks,
    pub loader: LoaderPicks,
    pub bundles: BundlePicks,
}

/// The loader as the wizard names it: "Vanilla" without a modded loader, else
/// the loader and its version.
pub open spec fn loader_text(chosen: Option<GameLoader>, version: Option<Seq<char>>) -> Seq<char> {
    match chosen {
        None => "Vanilla"@,
        Some(GameLoader::Vanilla) => "Vanilla"@,
        Some(l) => match version {
            Some(v) => l.spec_label() + " "@ + v,
            None => l.spec_label(),
        },
    }
}

/// "Step i of n".
pub open spec fn progress_text(index: nat, total: nat) -> Seq<char> {
    "Step "@ + decimal(index + 1) + " of "@ + decimal(total)
}

pub open spec fn heading_title(step: Step) -> Seq<char> {
    match step {
        Step::Type => "Choose a type"@,
        Step::Loader => "Choose a mod loader"@,
        Step::Version => "Choose a version"@,
        Step::Bundles => "Add bundles"@,
        Step::Customize => "Name the instance"@,
    }
}

pub open spec fn heading_subtitle(step: Step, choice: Option<TypeChoice>, loader: Seq<char>) -> Seq<char> {
    match step {
        Step::Type => "Two ways to start. Packages can be added to either of them later."@,
        Step::Loader => "Loaders are what packages install into. Pick one, then the Minecraft version it runs on."@,
        Step::Version => if choice == Some(TypeChoice::OneClient) {
            "Only versions OneClient ships a build for are listed."@
        } else {
            "Versions "@ + loader + " can run. Switch the release type to reach snapshots, betas and alphas."@
        },
        Step::Bundles => "Curated sets of packages, installed and configured together. Take as many as you like."@,
        Step::Customize => "Everything here can be changed afterwards."@,
    }
}

/// The note in the wizard's footer.
pub open spec fn footer_text(
    step: Step,
    choice: Option<TypeChoice>,
    loader: Seq<char>,
    version: Option<Seq<char>>,
    has_loader: bool,
    taken: nat,
    total: nat,
) -> Seq<char> {
    match step {
        Step::Type => match choice {
            Some(TypeChoice::OneClient) => "Shares its game folder, worlds and packs with your other OneClient instances."@,
            Some(TypeChoice::Scratch) => "Keeps its own game folder, worlds and packs."@,
            None => "Pick a type to continue."@,
        },
        Step::Loader => loader,
        Step::Version => match version {
            Some(v) => if has_loader {
                v + " downloads the first time you launch it."@
            } else {
                loader + " has no build for "@ + v + "."@
            },
            None => "Pick a version to continue."@,
        },
        Step::Bundles => if taken == 0 {
            "Nothing selected. OneConfig is installed either way."@
        } else {
            decimal(taken) + " of "@ + decimal(total) + " selected. Bundles can be changed later."@
        },
        Step::Customize => "The instance is created locally. Nothing is uploaded."@,
    }
}

/// The value a step shows in the progress card.
pub open spec fn step_value_text(
    step: Step,
    choice: Option<TypeChoice>,
    loader: Seq<char>,
    version: Option<Seq<char>>,
    taken: nat,
    tags: nat,
) -> Seq<char> {
    match step {
        Step::Type => match choice {
            Some(TypeChoice::OneClient) => "OneClient"@,
            Some(TypeChoice::Scratch) => "From scratch"@,
            None => Seq::empty(),
        },
        Step::Loader => loader,
        Step::Version => match version {
            Some(v) => v,
            None => "Not chosen"@,
        },
        Step::Bundles => if taken == 0 {
            "None"@
        } else {
            decimal(taken) + " selected"@
        },
        Step::Customize => if tags == 0 {
            "Optional"@
        } else if tags == 1 {
            "1 tag"@
        } else {
            decimal(tags) + " tags"@
        },
    }
}

/// The wizard can move on: a type is picked on the type step, a version with
/// a loader on the version step, a name that is not blank on the last step.
pub open spec fn ready(step: Step, choice: Option<TypeChoice>, version: Option<Seq<char>>, has_loader: bool, name: Seq<char>) -> bool {
    match step {
        Step::Type => choice is Some,
        Step::Loader => true,
        Step::Bundles => true,
        Step::Version => version is Some && has_loader,
        Step::Customize => trimmed(name).len() > 0,
    }
}

impl Picks {
    pub open spec fn spec_loader_label(&self) -> Seq<char> {
        loader_text(self.loader.chosen, opt_view(self.loader.version))
    }

    pub open spec fn spec_taken(&self) -> nat {
        taken_names(bundles_view(self.bundles.archives@), strings_view(self.bundles.declined@)).len()
    }

    /// The loader as the wizard names it.
    pub fn loader_label(&self) -> (r: String)
        ensures
            r@ == self.spec_loader_label(),
    {
        match self.loader.chosen {
            None => String::from_str("Vanilla"),
            Some(GameLoader::Vanilla) => String::from_str("Vanilla"),
            Some(l) => match &self.loader.version {
                Some(v) => crate::text::join3(l.label(), " ", v.as_str()),
                None => String::from_str(l.label()),
            },
        }
    }

    /// "Step i of n" for the step shown.
    pub fn progress(&self) -> (r: String)
        requires
            self.index < self.steps@.len(),
        ensures
            r@ == progress_text(self.index as nat, self.steps@.len()),
    {
        let total = self.steps.len();
        let mut r = String::from_str("Step ");
        r.append(decimal_string((self.index + 1) as u64).as_str());
        r.append(" of ");
        r.append(decimal_string(total as u64).as_str());
        r
    }
}

/// The wizard's title and subtitle for the step shown.
pub fn heading(picks: &Picks) -> (r: (&'static str, String))
    ensures
        r.0@ == heading_title(picks.step),
        r.1@ == heading_subtitle(picks.step, picks.choice, picks.spec_loader_label()),
{
    match picks.step {
        Step::Type => ("Choose a type", String::from_str("Two ways to start. Packages can be added to either of them later.")),
        Step::Loader => (
            "Choose a mod loader",
            String::from_str("Loaders are what packages install into. Pick one, then the Minecraft version it runs on."),
        ),
        Step::Version => (
            "Choose a version",
            if picks.choice == Some(TypeChoice::OneClient) {
                String::from_str("Only versions OneClient ships a build for are listed.")
            } else {
                crate::text::join3(
                    "Versions ",
                    picks.loader_label().as_str(),
                    " can run. Switch the release type to reach snapshots, betas and alphas.",
                )
            },
        ),
        Step::Bundles => (
            "Add bundles",
            String::from_str("Curated sets of packages, installed and configured together. Take as many as you like."),
        ),
        Step::Customize => ("Name the instance", String::from_str("Everything here can be changed afterwards.")),
    }
}

/// The note in the wizard's footer.
pub fn footer_note(picks: &Picks) -> (r: String)
    ensures
        r@ == footer_text(
            picks.step,
            picks.choice,
            picks.spec_loader_label(),
            opt_view(picks.versions.chosen),
            picks.loader.chosen is Some,
            picks.spec_taken(),
            picks.bundles.archives@.len(),
        ),
{
    match picks.step {
        Step::Type => match picks.choice {
            Some(TypeChoice::OneClient) => String::from_str(
                "Shares its game folder, worlds and packs with your other OneClient instances.",
            ),
            Some(TypeChoice::Scratch) => String::from_str("Keeps its own game folder, worlds and packs."),
            None => String::from_str("Pick a type to continue."),
        },
        Step::Loader => picks.loader_label(),
        Step::Version => match &picks.versions.chosen {
            Some(v) => if picks.loader.chosen.is_some() {
                crate::text::join2(v.as_str(), " downloads the first time you launch it.")
            } else {
                let mut r = picks.loader_label();
                r.append(" has no build for ");
                r.append(v.as_str());
                r.append(".");
                r
            },
            None => String::from_str("Pick a version to continue."),
        },
        Step::Bundles => {
            let taken = picks.bundles.taken_count();
            let total = picks.bundles.archives.len();
            if taken == 0 {
                String::from_str("Nothing selected. OneConfig is installed either way.")
            } else {
                let mut r = decimal_string(taken as u64);
                r.append(" of ");
                r.append(decimal_string(total as u64).as_str());
                r.append(" selected. Bundles can be changed later.");
                r
            }
        },
        Step::Customize => String::from_str("The instance is created locally. Nothing is uploaded."),
    }
}

/// The value `step` shows in the progress card; `tag_count` is the number of
/// tags on the details form.
pub fn step_value(tag_count: usize, picks: &Picks, step: Step) -> (r: String)
    ensures
        r@ == step_value_text(
            step,
            picks.choice,
            picks.spec_loader_label(),
            opt_view(picks.versions.chosen),
            picks.spec_taken(),
            tag_count as nat,
        ),
{
    match step {
        Step::Type => match picks.choice {
            Some(TypeChoice::OneClient) => String::from_str("OneClient"),
            Some(TypeChoice::Scratch) => String::from_str("From scratch"),
            None => String::new(),
        },
        Step::Loader => picks.loader_label(),
        Step::Version => match &picks.versions.chosen {
            Some(v) => v.clone(),
            None => String::from_str("Not chosen"),
        },
        Step::Bundles => {
            let taken = picks.bundles.taken_count();
            if taken == 0 {
                String::from_str("None")
            } else {
                crate::text::join2(decimal_string(taken as u64).as_str(), " selected")
            }
        },
        Step::Customize => if tag_count == 0 {
            String::from_str("Optional")
        } else if tag_count == 1 {
            String::from_str("1 tag")
        } else {
            crate::text::join2(decimal_string(tag_count as u64).as_str(), " tags")
        },
    }
}

/// Whether the primary button of the wizard is enabled.
pub fn is_ready(picks: &Picks) -> (r: bool)
    ensures
        r == ready(picks.step, picks.choice, opt_view(picks.versions.chosen), picks.loader.chosen is Some, picks.name@),
{
    match picks.step {
        Step::Type => picks.choice.is_some(),
        Step::Loader => true,
        Step::Bundles => true,
        Step::Version => picks.versions.chosen.is_some() && picks.loader.chosen.is_some(),
        Step::Customize => trim(picks.name.as_str()).unicode_len() > 0,
    }
}

/// Where a step stands in the progress card.
#[derive(Clone, Copy, PartialEq, Eq, Debug, Structural)]
pub enum RowState {
    Done,
    Current,
    Pending,
}

/// Steps before the one shown are done, after it pending.
pub open spec fn row_state_at(index: nat, current: nat) -> RowState {
    if index < current {
        RowState::Done
    } else if index == current {
        RowState::Current
    } else {
        RowState::Pending
    }
}

/// The state of the step at `index` when the step at `current` is shown.
pub fn row_state(index: usize, current: usize) -> (r: RowState)
    ensures
        r == row_state_at(index as nat, current as nat),
{
    if index < current {
        RowState::Done
    } else if index == current {
        RowState::Current
    } else {
        RowState::Pending
    }
}

/// The rows of the progress card: each step's name, its value (blank while
/// it is still to come) and where it stands.
pub fn rail_rows(tag_count: usize, picks: &Picks) -> (r: Vec<(&'static str, String, RowState)>)
    ensures
        r@.len() == picks.steps@.len(),
        forall|i: int|
            0 <= i < r@.len() ==> {
                let st = row_state_at(i as nat, picks.index as nat);
                &&& (#[trigger] r@[i]).0@ == step_label(picks.steps@[i])
                &&& r@[i].2 == st
                &&& r@[i].1@ == (if st == RowState::Pending {
                    Seq::<char>::empty()
                } else {
                    step_value_text(
                        picks.steps@[i],
                        picks.choice,
                        picks.spec_loader_label(),
                        opt_view(picks.versions.chosen),
                        picks.spec_taken(),
                        tag_count as nat,
                    )
                })
            },
{
    let mut rows: Vec<(&'static str, String, RowState)> = Vec::new();
    let mut i: usize = 0;
    while i < picks.steps.len()
        invariant
            i <= picks.steps@.len(),
            rows@.len() == i,
            forall|k: int|
                0 <= k < i ==> {
                    let st = row_state_at(k as nat, picks.index as nat);
                    &&& (#[trigger] rows@[k]).0@ == step_label(picks.steps@[k])
                    &&& rows@[k].2 == st
                    &&& rows@[k].1@ == (if st == RowState::Pending {
                        Seq::<char>::empty()
                    } else {
                        step_value_text(
                            picks.steps@[k],
                            picks.choice,
                            picks.spec_loader_label(),
                            opt_view(picks.versions.chosen),
                            picks.spec_taken(),
                            tag_count as nat,
                        )
                    })
                },
        decreases picks.steps@.len() - i,
    {
        let step = picks.steps[i];
        let state = row_state(i, picks.index);
        let value = if state == RowState::Pending {
            String::new()
        } else {
            step_value(tag_count, picks, step)
        };
        rows.push((step.label(), value, state));
        i = i + 1;
    }
    rows
}

/// The tags the rail shows: those of the form, on the details step only.
pub fn rail_tags(picks: &Picks, tags: &Vec<String>) -> (r: Vec<String>)
    ensures
        strings_view(r@) == (if picks.step == Step::Customize {
            strings_view(tags@)
        } else {
            Seq::<Seq<char>>::empty()
        }),
{
    if picks.step == Step::Customize {
        crate::domain::copy_strings(tags)
    } else {
        let r: Vec<String> = Vec::new();
        assert(strings_view(r@) =~= Seq::<Seq<char>>::empty());
        r
    }
}

/// The title of the wizard's side rail: the instance's name, or "New
/// instance" while it is blank.
pub open spec fn rail_title_text(name: Seq<char>) -> Seq<char> {
    if trimmed(name).len() == 0 {
        "New instance"@
    } else {
        name
    }
}

pub fn rail_title(picks: &Picks) -> (r: String)
    ensures
        r@ == rail_title_text(picks.name@),
{
    if trim(picks.name.as_str()).unicode_len() == 0 {
        String::from_str("New instance")
    } else {
        picks.name.clone()
    }
}

/// The subtitle of the side rail: the description when there is one, else
/// what has been picked so far.
pub open spec fn rail_subtitle_text(
    description: Seq<char>,
    choice: Option<TypeChoice>,
    version: Option<Seq<char>>,
    loader: Seq<char>,
) -> Seq<char> {
    if trimmed(description).len() > 0 {
        trimmed(description)
    } else {
        match choice {
            None => "Pick a type to get started"@,
            Some(TypeChoice::OneClient) => match version {
                Some(v) => "OneClient · "@ + v,
                None => "OneClient"@,
            },
            Some(TypeChoice::Scratch) => match version {
                Some(v) => v + " · "@ + loader,
                None => loader,
            },
        }
    }
}

pub fn rail_subtitle(description: &str, picks: &Picks) -> (r: String)
    ensures
        r@ == rail_subtitle_text(description@, picks.choice, opt_view(picks.versions.chosen), picks.spec_loader_label()),
{
    let d = trim(description);
    if d.unicode_len() > 0 {
        return String::from_str(d);
    }
    match picks.choice {
        None => String::from_str("Pick a type to get started"),
        Some(TypeChoice::OneClient) => match &picks.versions.chosen {
            Some(v) => crate::text::join2("OneClient · ", v.as_str()),
            None => String::from_str("OneClient"),
        },
        Some(TypeChoice::Scratch) => match &picks.versions.chosen {
            Some(v) => crate::text::join3(v.as_str(), " · ", picks.loader_label().as_str()),
            None => picks.loader_label(),
        },
    }
}

/// The bundles turned down before the user changes anything: those not
/// enabled by default.
pub open spec fn default_declined_names(archives: Seq<BundleView>) -> Seq<Seq<char>>
    decreases archives.len(),
{
    if archives.len() == 0 {
        Seq::empty()
    } else if archives.last().enabled {
        default_declined_names(archives.drop_last())
    } else {
        default_declined_names(archives.drop_last()).push(archives.last().name)
    }
}

/// The names of the bundles that are not taken by default.
pub fn default_declined(archives: &[Bundle]) -> (r: Vec<String>)
    ensures
        strings_view(r@) == default_declined_names(bundles_view(archives@)),
{
    let ghost bv = bundles_view(archives@);
    let mut out: Vec<String> = Vec::new();
    let mut i: usize = 0;
    while i < archives.len()
        invariant
            i <= archives@.len(),
            bv == bundles_view(archives@),
            strings_view(out@) == default_declined_names(bv.take(i as int)),
        decreases archives@.len() - i,
    {
        assert(bv[i as int] == archives@[i as int]@);
        assert(bv.take(i + 1).drop_last() =~= bv.take(i as int));
        if !archives[i].enabled {
            let ghost before = out@;
            let c = archives[i].name.clone();
            out.push(c);
            proof {
                crate::domain::lemma_strings_view_push(before, c);
            }
        }
        i = i + 1;
    }
    assert(bv.take(i as int) =~= bv);
    out
}

/// The turned-down set after the user presses a bundle's card: the card's
/// bundle leaves the set if it was in it and joins it otherwise.
pub open spec fn toggled(set: Set<Seq<char>>, name: Seq<char>) -> Set<Seq<char>> {
    if set.contains(name) {
        set.remove(name)
    } else {
        set.insert(name)
    }
}

/// Toggles whether bundle `name` is turned down. `current` is the user's set
/// so far, `defaults` the set used before the user changed anything.
pub fn toggle_declined(current: Option<&Vec<String>>, defaults: &Vec<String>, name: &String) -> (r: Vec<String>)
    ensures
        strings_view(r@).to_set() == toggled(
            match current {
                Some(c) => strings_view(c@).to_set(),
                None => strings_view(defaults@).to_set(),
            },
            name@,
        ),
{
    let start = match current {
        Some(c) => c,
        None => defaults,
    };
    let ghost sv = strings_view(start@);
    let mut out: Vec<String> = Vec::new();
    let mut found = false;
    let mut i: usize = 0;
    while i < start.len()
        invariant
            i <= start@.len(),
            sv == strings_view(start@),
            found == sv.take(i as int).contains(name@),
            strings_view(out@).to_set() == sv.take(i as int).to_set().remove(name@),
        decreases start@.len() - i,
    {
        assert(sv[i as int] == start@[i as int]@);
        assert(sv.take(i + 1) =~= sv.take(i as int).push(sv[i as int]));
        proof {
            vstd::seq_lib::lemma_seq_contains_after_push(sv.take(i as int), sv[i as int], name@);
            sv.take(i as int).lemma_push_to_set_commute(sv[i as int]);
        }
        if crate::text::str_eq(start[i].as_str(), name.as_str()) {
            found = true;
            assert(sv.take(i + 1).to_set().remove(name@) =~= sv.take(i as int).to_set().remove(name@));
        } else {
            let ghost before = out@;
            let c = start[i].clone();
            out.push(c);
            proof {
                crate::domain::lemma_strings_view_push(before, c);
                strings_view(before).lemma_push_to_set_commute(c@);
                assert(strings_view(out@).to_set() =~= sv.take(i + 1).to_set().remove(name@));
            }
        }
        i = i + 1;
    }
    assert(sv.take(i as int) =~= sv);
    if !found {
        let ghost before = out@;
        let c = name.clone();
        out.push(c);
        proof {
            crate::domain::lemma_strings_view_push(before, c);
            strings_view(before).lemma_push_to_set_commute(c@);
            assert(!sv.to_set().contains(name@));
            assert(strings_view(out@).to_set() =~= sv.to_set().insert(name@));
        }
    } else {
        assert(sv.to_set().contains(name@));
    }
    out
}

/// Pressing a bundle's card twice leaves the turned-down set as it was.
pub proof fn law_toggle_twice(set: Set<Seq<char>>, name: Seq<char>)
    ensures
        toggled(toggled(set, name), name) == set,
{
    assert(toggled(toggled(set, name), name) =~= set);
}

/// What the version step shows: the load error, a spinner while loading, a
/// note when the search matches nothing, else the rows.
pub enum VersionListState {
    Failed(String),
    Loading,
    NoMatch,
    Rows,
}

pub fn version_list_state(error: Option<&String>, loaded: bool, row_count: usize) -> (r: VersionListState)
    ensures
        match error {
            Some(e) => r matches VersionListState::Failed(m) && m@ == "Could not load the version list. "@ + e@,
            None => if !loaded {
                r is Loading
            } else if row_count == 0 {
                r is NoMatch
            } else {
                r is Rows
            },
        },
{
    match error {
        Some(e) => VersionListState::Failed(crate::text::join2("Could not load the version list. ", e.as_str())),
        None => if !loaded {
            VersionListState::Loading
        } else if row_count == 0 {
            VersionListState::NoMatch
        } else {
            VersionListState::Rows
        },
    }
}

/// What the bundles step says with no bundles to show.
pub fn bundles_empty_text(loaded: bool) -> (r: &'static str)
    ensures
        r@ == (if loaded {
            "No bundles ship for this version yet."@
        } else {
            "Loading bundles..."@
        }),
{
    if loaded {
        "No bundles ship for this version yet."
    } else {
        "Loading bundles..."
    }
}

/// The count on a bundle's card: how many of its packages are shown.
pub fn bundle_card_meta(count: usize) -> (r: String)
    ensures
        r@ == (if count == 1 {
            "1 package"@
        } else {
            decimal(count as nat) + " packages"@
        }),
{
    if count == 1 {
        String::from_str("1 package")
    } else {
        crate::text::join2(decimal_string(count as u64).as_str(), " packages")
    }
}

} // verus!
