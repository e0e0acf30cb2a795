//! The new-instance wizard: its steps, the version list, the loader a choice
//! resolves to, and the instance's suggested name and kind.
use vstd::prelude::*;

use crate::domain::{opt_view, strings_view, GameLoader};
use crate::text::{chars_contain, chars_of, decimal, decimal_string, has_infix, lowercase, to_lower};

verus! {

/// The two kinds of instance the wizard creates.
#[derive(Clone, Copy, PartialEq, Eq, Debug, Structural)]
pub enum TypeChoice {
    OneClient,
    Scratch,
}

/// An icon drawn in the loader's colour.
#[derive(Clone, Copy, PartialEq, Eq, Debug, Structural)]
pub enum MarkIcon {
    Quilt,
}

/// How a loader's mark is drawn.
#[derive(Clone, Copy, PartialEq, Eq, Debug)]
pub enum LoaderMark {
    Tinted(MarkIcon),
    Image(&'static str),
}

/// The loader picked on the loader step.
#[derive(Clone, Copy, PartialEq, Eq, Debug, Structural)]
pub enum LoaderChoice {
    Fabric,
    Forge,
    NeoForge,
    Quilt,
    Vanilla,
}

pub open spec fn primary_loader(c: LoaderChoice) -> GameLoader {
    match c {
        LoaderChoice::Fabric => GameLoader::Fabric,
        LoaderChoice::Forge => GameLoader::Forge,
        LoaderChoice::NeoForge => GameLoader::NeoForge,
        LoaderChoice::Quilt => GameLoader::Quilt,
        LoaderChoice::Vanilla => GameLoader::Vanilla,
    }
}

pub open spec fn loader_name(c: LoaderChoice) -> Seq<char> {
    match c {
        LoaderChoice::Fabric => "Fabric"@,
        LoaderChoice::Forge => "Forge"@,
        LoaderChoice::NeoForge => "NeoForge"@,
        LoaderChoice::Quilt => "Quilt"@,
        LoaderChoice::Vanilla => "Vanilla"@,
    }
}

pub open spec fn loader_short(c: LoaderChoice) -> Seq<char> {
    match c {
        LoaderChoice::Fabric => "FA"@,
        LoaderChoice::Forge => "FO"@,
        LoaderChoice::NeoForge => "NF"@,
        LoaderChoice::Quilt => "QL"@,
        LoaderChoice::Vanilla => "MC"@,
    }
}

pub open spec fn loader_blurb(c: LoaderChoice) -> Seq<char> {
    match c {
        LoaderChoice::Fabric => "Light and quick to start. The widest package selection on modern versions, and the legacy build covers 1.8.9 and older."@,
        LoaderChoice::Forge => "The oldest loader. Most 1.12.2 and 1.8.9 packages need it."@,
        LoaderChoice::NeoForge => "Forge's successor, for 1.20.2 and newer."@,
        LoaderChoice::Quilt => "A Fabric-compatible fork with extra loader features."@,
        LoaderChoice::Vanilla => "Minecraft exactly as Mojang ships it. Packages cannot be installed without a loader."@,
    }
}

/// The loader a choice runs with on a version that offers `available`:
/// vanilla always; Fabric, or its legacy build Ornithe where Fabric is not
/// offered; any other loader only where it is offered.
pub open spec fn resolve_loader(c: LoaderChoice, available: Seq<GameLoader>) -> Option<GameLoader> {
    match c {
        LoaderChoice::Vanilla => Some(GameLoader::Vanilla),
        LoaderChoice::Fabric => if available.contains(GameLoader::Fabric) {
            Some(GameLoader::Fabric)
        } else if available.contains(GameLoader::Ornithe) {
            Some(GameLoader::Ornithe)
        } else {
            None
        },
        _ => if available.contains(primary_loader(c)) {
            Some(primary_loader(c))
        } else {
            None
        },
    }
}

/// Each choice runs with its own loader and only where the version offers
/// it: Vanilla always runs vanilla; Fabric runs Fabric where offered, else
/// its legacy build Ornithe where that is offered; Forge, NeoForge and Quilt
/// run only their own loader, never another choice's.
pub proof fn law_loader_resolution(c: LoaderChoice, available: Seq<GameLoader>)
    ensures
        resolve_loader(c, available) matches Some(l) ==> l == GameLoader::Vanilla || available.contains(l),
        c == LoaderChoice::Vanilla ==> resolve_loader(c, available) == Some(GameLoader::Vanilla),
        c == LoaderChoice::Fabric ==> resolve_loader(c, available) == (if available.contains(GameLoader::Fabric) {
            Some(GameLoader::Fabric)
        } else if available.contains(GameLoader::Ornithe) {
            Some(GameLoader::Ornithe)
        } else {
            None
        }),
        c == LoaderChoice::Forge ==> resolve_loader(c, available) == (if available.contains(GameLoader::Forge) {
            Some(GameLoader::Forge)
        } else {
            None
        }),
        c == LoaderChoice::NeoForge ==> resolve_loader(c, available) == (if available.contains(
            GameLoader::NeoForge,
        ) {
            Some(GameLoader::NeoForge)
        } else {
            None
        }),
        c == LoaderChoice::Quilt ==> resolve_loader(c, available) == (if available.contains(GameLoader::Quilt) {
            Some(GameLoader::Quilt)
        } else {
            None
        }),
{
}

fn loaders_contain(available: &[GameLoader], l: GameLoader) -> (r: bool)
    ensures
        r == available@.contains(l),
{
    let mut i: usize = 0;
    while i < available.len()
        invariant
            i <= available@.len(),
            forall|j: int| 0 <= j < i ==> available@[j] != l,
        decreases available@.len() - i,
    {
        if available[i] == l {
            assert(available@[i as int] == l);
            return true;
        }
        i = i + 1;
    }
    false
}

impl LoaderChoice {
    /// The four loaders offered as cards, in order.
    pub fn modded() -> (r: [LoaderChoice; 4])
        ensures
            r@ == seq![LoaderChoice::Fabric, LoaderChoice::Forge, LoaderChoice::NeoForge, LoaderChoice::Quilt],
    {
        [LoaderChoice::Fabric, LoaderChoice::Forge, LoaderChoice::NeoForge, LoaderChoice::Quilt]
    }

    /// The loader this choice stands for.
    pub fn primary(self) -> (r: GameLoader)
        ensures
            r == primary_loader(self),
    {
        match self {
            LoaderChoice::Fabric => GameLoader::Fabric,
            LoaderChoice::Forge => GameLoader::Forge,
            LoaderChoice::NeoForge => GameLoader::NeoForge,
            LoaderChoice::Quilt => GameLoader::Quilt,
            LoaderChoice::Vanilla => GameLoader::Vanilla,
        }
    }

    /// The name on the loader's card.
    pub fn name(self) -> (r: &'static str)
        ensures
            r@ == loader_name(self),
    {
        match self {
            LoaderChoice::Fabric => "Fabric",
            LoaderChoice::Forge => "Forge",
            LoaderChoice::NeoForge => "NeoForge",
            LoaderChoice::Quilt => "Quilt",
            LoaderChoice::Vanilla => "Vanilla",
        }
    }

    /// The loader's mark.
    pub fn mark(self) -> (r: Option<LoaderMark>)
        ensures
            r == Some(
                match self {
                    LoaderChoice::Fabric => LoaderMark::Image("icons/fabric.png"),
                    LoaderChoice::Forge => LoaderMark::Image("icons/forge.png"),
                    LoaderChoice::NeoForge => LoaderMark::Image("icons/neo-forge.png"),
                    LoaderChoice::Quilt => LoaderMark::Tinted(MarkIcon::Quilt),
                    LoaderChoice::Vanilla => LoaderMark::Image("icons/vanilla.png"),
                },
            ),
    {
        match self {
            LoaderChoice::Fabric => Some(LoaderMark::Image("icons/fabric.png")),
            LoaderChoice::Forge => Some(LoaderMark::Image("icons/forge.png")),
            LoaderChoice::NeoForge => Some(LoaderMark::Image("icons/neo-forge.png")),
            LoaderChoice::Quilt => Some(LoaderMark::Tinted(MarkIcon::Quilt)),
            LoaderChoice::Vanilla => Some(LoaderMark::Image("icons/vanilla.png")),
        }
    }

    /// Two letters drawn when the loader's image cannot be loaded.
    pub fn short(self) -> (r: &'static str)
        ensures
            r@ == loader_short(self),
    {
        match self {
            LoaderChoice::Fabric => "FA",
            LoaderChoice::Forge => "FO",
            LoaderChoice::NeoForge => "NF",
            LoaderChoice::Quilt => "QL",
            LoaderChoice::Vanilla => "MC",
        }
    }

    /// The description on the loader's card.
    pub fn blurb(self) -> (r: &'static str)
        ensures
            r@ == loader_blurb(self),
    {
        match self {
            LoaderChoice::Fabric => "Light and quick to start. The widest package selection on modern versions, and the legacy build covers 1.8.9 and older.",
            LoaderChoice::Forge => "The oldest loader. Most 1.12.2 and 1.8.9 packages need it.",
            LoaderChoice::NeoForge => "Forge's successor, for 1.20.2 and newer.",
            LoaderChoice::Quilt => "A Fabric-compatible fork with extra loader features.",
            LoaderChoice::Vanilla => "Minecraft exactly as Mojang ships it. Packages cannot be installed without a loader.",
        }
    }

    /// The loader this choice runs with on a version offering `available`.
    pub fn resolve(self, available: &[GameLoader]) -> (r: Option<GameLoader>)
        ensures
            r == resolve_loader(self, available@),
    {
        match self {
            LoaderChoice::Vanilla => Some(GameLoader::Vanilla),
            LoaderChoice::Fabric => {
                if loaders_contain(available, GameLoader::Fabric) {
                    Some(GameLoader::Fabric)
                } else if loaders_contain(available, GameLoader::Ornithe) {
                    Some(GameLoader::Ornithe)
                } else {
                    None
                }
            },
            other => {
                let loader = other.primary();
                if loaders_contain(available, loader) {
                    Some(loader)
                } else {
                    None
                }
            },
        }
    }
}

/// A step of the wizard.
#[derive(Clone, Copy, PartialEq, Eq, Debug, Structural)]
pub enum Step {
    Type,
    Loader,
    Version,
    Bundles,
    Customize,
}

pub open spec fn step_label(s: Step) -> Seq<char> {
    match s {
        Step::Type => "Type"@,
        Step::Loader => "Loader"@,
        Step::Version => "Version"@,
        Step::Bundles => "Bundles"@,
        Step::Customize => "Details"@,
    }
}

impl Step {
    /// The step's name in the progress card.
    pub fn label(self) -> (r: &'static str)
        ensures
            r@ == step_label(self),
    {
        match self {
            Step::Type => "Type",
            Step::Loader => "Loader",
            Step::Version => "Version",
            Step::Bundles => "Bundles",
            Step::Customize => "Details",
        }
    }
}

/// The steps a choice of type goes through: a OneClient instance takes
/// bundles, one from scratch takes a loader, and before a type is picked only
/// type, version and details are shown.
pub open spec fn steps_for(choice: Option<TypeChoice>) -> Seq<Step> {
    match choice {
        Some(TypeChoice::OneClient) => seq![Step::Type, Step::Version, Step::Bundles, Step::Customize],
        Some(TypeChoice::Scratch) => seq![Step::Type, Step::Loader, Step::Version, Step::Customize],
        None => seq![Step::Type, Step::Version, Step::Customize],
    }
}

/// The steps of the wizard for a choice of type.
pub fn step_order(choice: Option<TypeChoice>) -> (r: Vec<Step>)
    ensures
        r@ == steps_for(choice),
{
    match choice {
        Some(TypeChoice::OneClient) => vec![Step::Type, Step::Version, Step::Bundles, Step::Customize],
        Some(TypeChoice::Scratch) => vec![Step::Type, Step::Loader, Step::Version, Step::Customize],
        None => vec![Step::Type, Step::Version, Step::Customize],
    }
}

/// The step index actually shown: the stored one, kept within the steps.
pub open spec fn shown_index(stored: nat, len: nat) -> nat {
    if stored < len {
        stored
    } else if len == 0 {
        0
    } else {
        (len - 1) as nat
    }
}

/// The stored step index clamped to the last step.
pub fn clamp_step(stored: usize, len: usize) -> (r: usize)
    ensures
        r == shown_index(stored as nat, len as nat),
{
    let last = if len == 0 { 0 } else { len - 1 };
    if stored < last { stored } else if stored < len { stored } else { last }
}

/// The steps for the choice of type, the index of the step shown (the
/// stored one, kept within the steps) and that step. Whatever index is
/// stored, it names a step.
pub fn current_step(choice: Option<TypeChoice>, stored: usize) -> (r: (Vec<Step>, usize, Step))
    ensures
        r.0@ == steps_for(choice),
        r.1 == shown_index(stored as nat, steps_for(choice).len()),
        r.1 < r.0@.len(),
        r.2 == r.0@[r.1 as int],
{
    let steps = step_order(choice);
    let index = clamp_step(stored, steps.len());
    let step = steps[index];
    (steps, index, step)
}

/// The release channel of a game version.
#[derive(Clone, Copy, PartialEq, Eq, Debug, Structural)]
pub enum GameVersionKind {
    Release,
    Snapshot,
    Beta,
    Alpha,
}

pub open spec fn kind_label(k: GameVersionKind) -> Seq<char> {
    match k {
        GameVersionKind::Release => "Release"@,
        GameVersionKind::Snapshot => "Snapshot"@,
        GameVersionKind::Beta => "Beta"@,
        GameVersionKind::Alpha => "Alpha"@,
    }
}

impl GameVersionKind {
    /// The channel's name, shown as a badge on versions outside releases.
    pub fn label(self) -> (r: &'static str)
        ensures
            r@ == kind_label(self),
    {
        match self {
            GameVersionKind::Release => "Release",
            GameVersionKind::Snapshot => "Snapshot",
            GameVersionKind::Beta => "Beta",
            GameVersionKind::Alpha => "Alpha",
        }
    }
}

pub open spec fn filter_name(i: nat) -> Seq<char> {
    if i == 0 {
        "Releases"@
    } else if i == 1 {
        "Snapshots"@
    } else if i == 2 {
        "Beta"@
    } else if i == 3 {
        "Alpha"@
    } else {
        "All versions"@
    }
}

/// The name of release-type filter `i` in the filter menu; an index past the
/// last filter names the last one.
pub fn filter_label(i: usize) -> (r: &'static str)
    ensures
        r@ == filter_name(i as nat),
{
    if i == 0 {
        "Releases"
    } else if i == 1 {
        "Snapshots"
    } else if i == 2 {
        "Beta"
    } else if i == 3 {
        "Alpha"
    } else {
        "All versions"
    }
}

/// Filters 0 to 3 keep one channel each: releases, snapshots, betas, alphas;
/// any other filter keeps every version.
pub open spec fn filter_keeps_kind(kind: GameVersionKind, filter: nat) -> bool {
    if filter == 0 {
        kind == GameVersionKind::Release
    } else if filter == 1 {
        kind == GameVersionKind::Snapshot
    } else if filter == 2 {
        kind == GameVersionKind::Beta
    } else if filter == 3 {
        kind == GameVersionKind::Alpha
    } else {
        true
    }
}

/// Whether release-type filter `filter` keeps versions of channel `kind`.
pub fn matches_filter(kind: GameVersionKind, filter: usize) -> (r: bool)
    ensures
        r == filter_keeps_kind(kind, filter as nat),
{
    if filter == 0 {
        kind == GameVersionKind::Release
    } else if filter == 1 {
        kind == GameVersionKind::Snapshot
    } else if filter == 2 {
        kind == GameVersionKind::Beta
    } else if filter == 3 {
        kind == GameVersionKind::Alpha
    } else {
        true
    }
}

/// A row of the version list.
pub struct VersionRow {
    pub id: String,
    pub meta: String,
    pub badge: Option<String>,
    pub date: String,
}

pub struct VersionRowView {
    pub id: Seq<char>,
    pub meta: Seq<char>,
    pub badge: Option<Seq<char>>,
    pub date: Seq<char>,
}

impl View for VersionRow {
    type V = VersionRowView;

    open spec fn view(&self) -> VersionRowView {
        VersionRowView { id: self.id@, meta: self.meta@, badge: opt_view(self.badge), date: self.date@ }
    }
}

pub open spec fn rows_view(v: Seq<VersionRow>) -> Seq<VersionRowView> {
    v.map_values(|r: VersionRow| r@)
}

impl VersionRow {
    /// A copy of the row.
    pub fn copy(&self) -> (r: VersionRow)
        ensures
            r@ == self@,
    {
        VersionRow {
            id: self.id.clone(),
            meta: self.meta.clone(),
            badge: crate::domain::copy_opt(&self.badge),
            date: self.date.clone(),
        }
    }
}

/// A game version from the vanilla catalogue.
pub struct GameVersion {
    pub id: String,
    pub kind: GameVersionKind,
    pub released: String,
}

pub struct GameVersionView {
    pub id: Seq<char>,
    pub kind: GameVersionKind,
    pub released: Seq<char>,
}

impl View for GameVersion {
    type V = GameVersionView;

    open spec fn view(&self) -> GameVersionView {
        GameVersionView { id: self.id@, kind: self.kind, released: self.released@ }
    }
}

pub open spec fn game_versions_view(v: Seq<GameVersion>) -> Seq<GameVersionView> {
    v.map_values(|g: GameVersion| g@)
}

/// The versions the version step lists: curated rows for a OneClient
/// instance, or the vanilla catalogue with the indices of the versions shown.
pub enum VersionList {
    Curated(Vec<VersionRow>),
    Catalogue { all: Vec<GameVersion>, visible: Vec<u32> },
}

pub enum VersionListView {
    Curated(Seq<VersionRowView>),
    Catalogue { all: Seq<GameVersionView>, visible: Seq<u32> },
}

impl View for VersionList {
    type V = VersionListView;

    open spec fn view(&self) -> VersionListView {
        match self {
            VersionList::Curated(rows) => VersionListView::Curated(rows_view(rows@)),
            VersionList::Catalogue { all, visible } => VersionListView::Catalogue {
                all: game_versions_view(all@),
                visible: visible@,
            },
        }
    }
}

pub open spec fn list_len(l: VersionListView) -> nat {
    match l {
        VersionListView::Curated(rows) => rows.len(),
        VersionListView::Catalogue { visible, .. } => visible.len(),
    }
}

/// The row a catalogue version is listed as: no loader text, its channel as a
/// badge unless it is a release, and its release date.
pub open spec fn catalogue_row(g: GameVersionView) -> VersionRowView {
    VersionRowView {
        id: g.id,
        meta: Seq::empty(),
        badge: if g.kind == GameVersionKind::Release {
            None
        } else {
            Some(kind_label(g.kind))
        },
        date: g.released,
    }
}

/// The row at `index`, if there is one.
pub open spec fn row_at(l: VersionListView, index: int) -> Option<VersionRowView> {
    match l {
        VersionListView::Curated(rows) => if 0 <= index < rows.len() {
            Some(rows[index])
        } else {
            None
        },
        VersionListView::Catalogue { all, visible } => if 0 <= index < visible.len()
            && visible[index] < all.len() {
            Some(catalogue_row(all[visible[index] as int]))
        } else {
            None
        },
    }
}

/// The first shown catalogue version at or after `from` that is a release.
pub open spec fn first_release_from(all: Seq<GameVersionView>, visible: Seq<u32>, from: int) -> Option<int>
    decreases visible.len() - from,
{
    if from < 0 || from >= visible.len() {
        None
    } else if all[visible[from] as int].kind == GameVersionKind::Release {
        Some(from)
    } else {
        first_release_from(all, visible, from + 1)
    }
}

/// The version picked when the user has not picked one: the first curated
/// row, or the first release shown, else the first version shown.
pub open spec fn default_version(l: VersionListView) -> Option<Seq<char>> {
    match l {
        VersionListView::Curated(rows) => if rows.len() > 0 {
            Some(rows[0].id)
        } else {
            None
        },
        VersionListView::Catalogue { all, visible } => match first_release_from(all, visible, 0) {
            Some(j) => Some(all[visible[j] as int].id),
            None => if visible.len() > 0 {
                Some(all[visible[0] as int].id)
            } else {
                None
            },
        },
    }
}

/// Every shown index names a version of the catalogue.
pub open spec fn indices_valid(l: VersionListView) -> bool {
    match l {
        VersionListView::Curated(_) => true,
        VersionListView::Catalogue { all, visible } => forall|i: int|
            0 <= i < visible.len() ==> (#[trigger] visible[i]) < all.len(),
    }
}

pub open spec fn opt_row_view(r: Option<VersionRow>) -> Option<VersionRowView> {
    match r {
        Some(x) => Some(x@),
        None => None,
    }
}

impl VersionList {
    /// The number of rows shown.
    pub fn len(&self) -> (r: usize)
        ensures
            r == list_len(self@),
    {
        match self {
            VersionList::Curated(rows) => rows.len(),
            VersionList::Catalogue { visible, .. } => visible.len(),
        }
    }

    /// No row is shown.
    pub fn is_empty(&self) -> (r: bool)
        ensures
            r == (list_len(self@) == 0),
    {
        self.len() == 0
    }

    /// The row at `index`.
    pub fn row(&self, index: usize) -> (r: Option<VersionRow>)
        ensures
            opt_row_view(r) == row_at(self@, index as int),
    {
        match self {
            VersionList::Curated(rows) => {
                if index < rows.len() {
                    assert(rows_view(rows@)[index as int] == rows@[index as int]@);
                    Some(rows[index].copy())
                } else {
                    None
                }
            },
            VersionList::Catalogue { all, visible } => {
                if index >= visible.len() {
                    return None;
                }
                let k = visible[index] as usize;
                if k >= all.len() {
                    return None;
                }
                let entry = &all[k];
                assert(game_versions_view(all@)[k as int] == entry@);
                let badge = if entry.kind == GameVersionKind::Release {
                    None
                } else {
                    Some(String::from_str(entry.kind.label()))
                };
                Some(VersionRow { id: entry.id.clone(), meta: String::new(), badge, date: entry.released.clone() })
            },
        }
    }

    /// The version to pick when the user has not picked one.
    pub fn default_id(&self) -> (r: Option<String>)
        requires
            indices_valid(self@),
        ensures
            opt_view(r) == default_version(self@),
    {
        match self {
            VersionList::Curated(rows) => {
                if rows.len() > 0 {
                    assert(rows_view(rows@)[0] == rows@[0]@);
                    Some(rows[0].id.clone())
                } else {
                    None
                }
            },
            VersionList::Catalogue { all, visible } => {
                let ghost av = game_versions_view(all@);
                let mut i: usize = 0;
                while i < visible.len()
                    invariant
                        i <= visible@.len(),
                        av == game_versions_view(all@),
                        self@ == (VersionListView::Catalogue { all: av, visible: visible@ }),
                        forall|j: int| 0 <= j < visible@.len() ==> (#[trigger] visible@[j]) < all@.len(),
                        first_release_from(av, visible@, 0) == first_release_from(av, visible@, i as int),
                    decreases visible@.len() - i,
                {
                    let k = visible[i] as usize;
                    assert(visible@[i as int] < all@.len());
                    assert(av[k as int] == all@[k as int]@);
                    if all[k].kind == GameVersionKind::Release {
                        assert(av[visible@[i as int] as int].kind == GameVersionKind::Release);
                        assert(first_release_from(av, visible@, i as int) == Some(i as int));
                        return Some(all[k].id.clone());
                    }
                    i = i + 1;
                }
                if visible.len() > 0 {
                    let k = visible[0] as usize;
                    assert(visible@[0] < all@.len());
                    assert(av[k as int] == all@[k as int]@);
                    Some(all[k].id.clone())
                } else {
                    None
                }
            },
        }
    }
}

/// The kind of cluster the wizard creates.
#[derive(Clone, Copy, PartialEq, Eq, Debug, Structural)]
pub enum ClusterKind {
    OneClient,
    Vanilla,
    Modded,
}

/// A OneClient instance (and one with no type yet) is a OneClient cluster; one
/// from scratch is vanilla without a loader or with vanilla, and modded with
/// any other loader.
pub open spec fn kind_of(choice: Option<TypeChoice>, loader: Option<GameLoader>) -> ClusterKind {
    match choice {
        Some(TypeChoice::Scratch) => match loader {
            Some(GameLoader::Vanilla) | None => ClusterKind::Vanilla,
            Some(_) => ClusterKind::Modded,
        },
        _ => ClusterKind::OneClient,
    }
}

/// The kind of cluster a choice of type and loader creates.
pub fn kind_for(choice: Option<TypeChoice>, loader: Option<GameLoader>) -> (r: ClusterKind)
    ensures
        r == kind_of(choice, loader),
{
    match choice {
        Some(TypeChoice::Scratch) => match loader {
            Some(GameLoader::Vanilla) | None => ClusterKind::Vanilla,
            Some(_) => ClusterKind::Modded,
        },
        _ => ClusterKind::OneClient,
    }
}

pub open spec fn cluster_kind_label(k: ClusterKind) -> Seq<char> {
    match k {
        ClusterKind::OneClient => "OneClient"@,
        ClusterKind::Vanilla => "Vanilla"@,
        ClusterKind::Modded => "Modded"@,
    }
}

/// The cluster kind's name.
pub fn kind_label_of(kind: ClusterKind) -> (r: &'static str)
    ensures
        r@ == cluster_kind_label(kind),
{
    match kind {
        ClusterKind::OneClient => "OneClient",
        ClusterKind::Vanilla => "Vanilla",
        ClusterKind::Modded => "Modded",
    }
}

/// The name suggested for a new instance: nothing before a version is picked;
/// the version for a OneClient instance; the version and "Vanilla" for a
/// vanilla cluster; otherwise the version and its loader.
pub open spec fn suggested_text(
    version: Option<Seq<char>>,
    choice: Option<TypeChoice>,
    kind: ClusterKind,
    loader: Option<GameLoader>,
) -> Seq<char> {
    match version {
        None => Seq::empty(),
        Some(v) => if choice == Some(TypeChoice::OneClient) {
            v
        } else if kind == ClusterKind::Vanilla {
            v + " Vanilla"@
        } else {
            match loader {
                Some(l) => v + " "@ + l.spec_label(),
                None => v,
            }
        },
    }
}

/// The name suggested for the new instance.
pub fn suggested_name(
    version: Option<&String>,
    choice: Option<TypeChoice>,
    kind: ClusterKind,
    loader: Option<GameLoader>,
) -> (r: String)
    ensures
        r@ == suggested_text(
            match version {
                Some(v) => Some(v@),
                None => None,
            },
            choice,
            kind,
            loader,
        ),
{
    match version {
        None => String::new(),
        Some(v) => {
            if choice == Some(TypeChoice::OneClient) {
                v.clone()
            } else if kind == ClusterKind::Vanilla {
                crate::text::join2(v.as_str(), " Vanilla")
            } else {
                match loader {
                    Some(l) => crate::text::join3(v.as_str(), " ", l.label()),
                    None => v.clone(),
                }
            }
        },
    }
}


/// A version OneClient ships a build for, with the loader that build uses.
pub struct OneClientVersion {
    pub id: String,
    pub loader: GameLoader,
}

pub struct OneClientVersionView {
    pub id: Seq<char>,
    pub loader: GameLoader,
}

impl View for OneClientVersion {
    type V = OneClientVersionView;

    open spec fn view(&self) -> OneClientVersionView {
        OneClientVersionView { id: self.id@, loader: self.loader }
    }
}

pub open spec fn oneclient_view(v: Seq<OneClientVersion>) -> Seq<OneClientVersionView> {
    v.map_values(|e: OneClientVersion| e@)
}

/// `perm` takes `input` to `output`, the highest rank first and entries of
/// one rank in input order; `ranks[k]` is the rank of `input[k]`.
pub open spec fn newest_first_perm(
    input: Seq<OneClientVersionView>,
    ranks: Seq<(u32, u32, u32)>,
    output: Seq<OneClientVersionView>,
    perm: Seq<int>,
) -> bool {
    &&& perm.len() == input.len()
    &&& output.len() == input.len()
    &&& forall|i: int| 0 <= i < output.len() ==> 0 <= #[trigger] perm[i] < input.len() && output[i] == input[perm[i]]
    &&& forall|i: int, j: int| 0 <= i < j < perm.len() ==> perm[i] != perm[j]
    &&& forall|i: int, j: int|
        0 <= i < j < output.len() ==> !crate::clusters::rank_lt(ranks[#[trigger] perm[i]], ranks[#[trigger] perm[j]])
    &&& forall|i: int, j: int|
        0 <= i < j < output.len() && ranks[#[trigger] perm[i]] == ranks[#[trigger] perm[j]] ==> perm[i] < perm[j]
}

/// `output` is `input` ordered newest first, as a stable sort by descending
/// rank orders it.
pub open spec fn newest_first_of(
    input: Seq<OneClientVersionView>,
    ranks: Seq<(u32, u32, u32)>,
    output: Seq<OneClientVersionView>,
) -> bool {
    exists|perm: Seq<int>| newest_first_perm(input, ranks, output, perm)
}

fn rank_below(a: (u32, u32, u32), b: (u32, u32, u32)) -> (r: bool)
    ensures
        r == crate::clusters::rank_lt(a, b),
{
    a.0 < b.0 || (a.0 == b.0 && (a.1 < b.1 || (a.1 == b.1 && a.2 < b.2)))
}

/// The OneClient catalogue, newest version first. `ranks[k]` is the
/// (major, minor, patch) that `versions[k]` parses to, (0, 0, 0) when it
/// does not parse; versions of one rank keep their order.
pub fn catalogue_order(versions: Vec<OneClientVersion>, ranks: &Vec<(u32, u32, u32)>) -> (r: Vec<OneClientVersion>)
    requires
        ranks@.len() == versions@.len(),
    ensures
        newest_first_of(oneclient_view(versions@), ranks@, oneclient_view(r@)),
{
    let ghost iv = oneclient_view(versions@);
    let ghost rk = ranks@;
    let n = versions.len();
    let mut order: Vec<usize> = Vec::new();
    let mut i: usize = 0;
    while i < n
        invariant
            n == versions@.len(),
            n == rk.len(),
            rk == ranks@,
            i <= n,
            order@.len() == i,
            forall|a: int| 0 <= a < i ==> #[trigger] order@[a] < i,
            forall|a: int, b: int| 0 <= a < b < i ==> order@[a] != order@[b],
            forall|a: int, b: int|
                0 <= a < b < i ==> !crate::clusters::rank_lt(rk[#[trigger] order@[a] as int], rk[#[trigger] order@[b] as int]),
            forall|a: int, b: int|
                0 <= a < b < i && rk[#[trigger] order@[a] as int] == rk[#[trigger] order@[b] as int] ==> order@[a] < order@[b],
        decreases n - i,
    {
        let mut p: usize = i;
        while p > 0 && rank_below(ranks[order[p - 1]], ranks[i])
            invariant
                n == rk.len(),
                rk == ranks@,
                i < n,
                order@.len() == i,
                forall|a: int| 0 <= a < i ==> #[trigger] order@[a] < i,
                p <= i,
                forall|q: int| p <= q < i ==> crate::clusters::rank_lt(rk[#[trigger] order@[q] as int], rk[i as int]),
            decreases p,
        {
            p = p - 1;
        }
        let ghost o = order@;
        proof {
            let ri = rk[i as int];
            assert(p == 0 || !crate::clusters::rank_lt(rk[o[p - 1] as int], ri));
            assert forall|a: int, b: int| 0 <= a < b < i + 1 implies !crate::clusters::rank_lt(
                rk[#[trigger] o.insert(p as int, i)[a] as int],
                rk[#[trigger] o.insert(p as int, i)[b] as int],
            ) by {
                let no = o.insert(p as int, i);
                if b < p {
                } else if b == p {
                    if a < p - 1 {
                        assert(!crate::clusters::rank_lt(rk[o[a] as int], rk[o[p - 1] as int]));
                    }
                } else if a == p {
                    assert(no[b] == o[b - 1]);
                    assert(crate::clusters::rank_lt(rk[o[b - 1] as int], ri));
                } else if a < p {
                    assert(no[a] == o[a]);
                    assert(no[b] == o[b - 1]);
                } else {
                    assert(no[a] == o[a - 1]);
                    assert(no[b] == o[b - 1]);
                }
            }
            assert forall|a: int, b: int|
                0 <= a < b < i + 1 && rk[#[trigger] o.insert(p as int, i)[a] as int] == rk[#[trigger] o.insert(
                    p as int,
                    i,
                )[b] as int] implies o.insert(p as int, i)[a] < o.insert(p as int, i)[b] by {
                let no = o.insert(p as int, i);
                if b < p {
                } else if b == p {
                } else if a == p {
                    assert(no[b] == o[b - 1]);
                    assert(crate::clusters::rank_lt(rk[o[b - 1] as int], ri));
                } else if a < p {
                    assert(no[a] == o[a]);
                    assert(no[b] == o[b - 1]);
                } else {
                    assert(no[a] == o[a - 1]);
                    assert(no[b] == o[b - 1]);
                }
            }
            assert forall|a: int, b: int| 0 <= a < b < i + 1 implies o.insert(p as int, i)[a] != o.insert(
                p as int,
                i,
            )[b] by {
                let no = o.insert(p as int, i);
                if b < p {
                } else if b == p {
                } else if a == p {
                    assert(no[b] == o[b - 1]);
                } else if a < p {
                    assert(no[b] == o[b - 1]);
                } else {
                    assert(no[a] == o[a - 1]);
                    assert(no[b] == o[b - 1]);
                }
            }
            assert forall|a: int| 0 <= a < i + 1 implies #[trigger] o.insert(p as int, i)[a] < i + 1 by {
                if a < p {
                } else if a > p {
                    assert(o.insert(p as int, i)[a] == o[a - 1]);
                }
            }
        }
        order.insert(p, i);
        assert(order@ == o.insert(p as int, i));
        i = i + 1;
    }
    let mut out: Vec<OneClientVersion> = Vec::new();
    let mut j: usize = 0;
    while j < n
        invariant
            n == versions@.len(),
            iv == oneclient_view(versions@),
            order@.len() == n,
            forall|a: int| 0 <= a < n ==> #[trigger] order@[a] < n,
            j <= n,
            out@.len() == j,
            forall|a: int| 0 <= a < j ==> (#[trigger] out@[a])@ == iv[order@[a] as int],
        decreases n - j,
    {
        let v = &versions[order[j]];
        let c = OneClientVersion { id: v.id.clone(), loader: v.loader };
        out.push(c);
        j = j + 1;
    }
    let ghost perm = order@.map_values(|x: usize| x as int);
    let ghost ov = oneclient_view(out@);
    assert forall|a: int| 0 <= a < ov.len() implies 0 <= #[trigger] perm[a] < iv.len() && ov[a] == iv[perm[a]] by {
        assert(ov[a] == out@[a]@);
    }
    assert forall|a: int, b: int| 0 <= a < b < ov.len() implies !crate::clusters::rank_lt(
        rk[#[trigger] perm[a]],
        rk[#[trigger] perm[b]],
    ) by {
        assert(perm[a] == order@[a] as int && perm[b] == order@[b] as int);
    }
    assert forall|a: int, b: int|
        0 <= a < b < ov.len() && rk[#[trigger] perm[a]] == rk[#[trigger] perm[b]] implies perm[a] < perm[b] by {
        assert(perm[a] == order@[a] as int && perm[b] == order@[b] as int);
    }
    assert forall|a: int, b: int| 0 <= a < b < perm.len() implies perm[a] != perm[b] by {
        assert(order@[a] != order@[b]);
    }
    assert(newest_first_perm(iv, rk, ov, perm));
    out
}

/// The Java major version a game version needs.
pub struct JavaMajor {
    pub version: String,
    pub major: u32,
}

pub open spec fn java_view(v: Seq<JavaMajor>) -> Seq<(Seq<char>, u32)> {
    v.map_values(|j: JavaMajor| (j.version@, j.major))
}

/// The Java major recorded for `id`: the first record for it.
pub open spec fn java_for(java: Seq<(Seq<char>, u32)>, id: Seq<char>) -> Option<u32>
    decreases java.len(),
{
    if java.len() == 0 {
        None
    } else if java[0].0 == id {
        Some(java[0].1)
    } else {
        java_for(java.drop_first(), id)
    }
}

/// A version id matches the search when the search is empty or occurs in the
/// lower-cased id; the search is trimmed and lower-cased by the caller.
pub open spec fn needle_matches(id: Seq<char>, needle: Seq<char>) -> bool {
    needle.len() == 0 || has_infix(lowercase(id), needle)
}

/// The curated row of a OneClient version: the Java it needs as a badge and
/// its loader as the text beside it.
pub open spec fn curated_row(e: OneClientVersionView, java: Seq<(Seq<char>, u32)>) -> VersionRowView {
    VersionRowView {
        id: e.id,
        meta: e.loader.spec_label(),
        badge: match java_for(java, e.id) {
            Some(m) => Some("Java "@ + decimal(m as nat)),
            None => None,
        },
        date: Seq::empty(),
    }
}

/// A loader restricts the versions it runs on only once its list is known.
pub open spec fn permits(allowed: Option<Seq<Seq<char>>>, id: Seq<char>) -> bool {
    match allowed {
        Some(ids) => ids.contains(id),
        None => true,
    }
}

/// A catalogue version is in scope when the release filter keeps it and the
/// loader runs on it.
pub open spec fn in_scope(g: GameVersionView, allowed: Option<Seq<Seq<char>>>, filter: nat) -> bool {
    filter_keeps_kind(g.kind, filter) && permits(allowed, g.id)
}

/// The indices below `n` of the catalogue versions that are shown.
pub open spec fn shown_indices(all: Seq<GameVersionView>, n: int, allowed: Option<Seq<Seq<char>>>, filter: nat, needle: Seq<char>) -> Seq<u32>
    decreases n,
{
    if n <= 0 {
        Seq::empty()
    } else {
        let prev = shown_indices(all, n - 1, allowed, filter, needle);
        if in_scope(all[n - 1], allowed, filter) && needle_matches(all[n - 1].id, needle) {
            prev.push((n - 1) as u32)
        } else {
            prev
        }
    }
}

/// The version list: for a OneClient instance the curated versions that match
/// the search; otherwise the whole vanilla catalogue with the versions that
/// are in scope and match the search shown.
pub open spec fn version_list_for(
    choice: Option<TypeChoice>,
    oneclient: Seq<OneClientVersionView>,
    java: Seq<(Seq<char>, u32)>,
    vanilla: Seq<GameVersionView>,
    allowed: Option<Seq<Seq<char>>>,
    filter: nat,
    needle: Seq<char>,
) -> VersionListView {
    if choice == Some(TypeChoice::OneClient) {
        VersionListView::Curated(
            oneclient.filter(|e: OneClientVersionView| needle_matches(e.id, needle)).map_values(
                |e: OneClientVersionView| curated_row(e, java),
            ),
        )
    } else {
        VersionListView::Catalogue {
            all: vanilla,
            visible: shown_indices(vanilla, vanilla.len() as int, allowed, filter, needle),
        }
    }
}

pub open spec fn opt_strings_view(o: Option<&Vec<String>>) -> Option<Seq<Seq<char>>> {
    match o {
        Some(v) => Some(strings_view(v@)),
        None => None,
    }
}

fn find_java(java: &[JavaMajor], id: &str) -> (r: Option<u32>)
    ensures
        r == java_for(java_view(java@), id@),
{
    let ghost jv = java_view(java@);
    let mut i: usize = 0;
    assert(jv.subrange(0, jv.len() as int) =~= jv);
    while i < java.len()
        invariant
            i <= java@.len(),
            jv == java_view(java@),
            java_for(jv, id@) == java_for(jv.subrange(i as int, jv.len() as int), id@),
        decreases java@.len() - i,
    {
        let ghost rest = jv.subrange(i as int, jv.len() as int);
        assert(rest[0] == (java@[i as int].version@, java@[i as int].major));
        assert(rest.drop_first() =~= jv.subrange(i + 1, jv.len() as int));
        if crate::text::str_eq(java[i].version.as_str(), id) {
            return Some(java[i].major);
        }
        i = i + 1;
    }
    None
}

fn id_matches(id: &String, needle: &Vec<char>) -> (r: bool)
    ensures
        r == needle_matches(id@, needle@),
{
    if needle.len() == 0 {
        return true;
    }
    let lower = to_lower(id.as_str());
    chars_contain(chars_of(lower.as_str()).as_slice(), needle.as_slice())
}

fn allowed_contains(allowed: Option<&Vec<String>>, id: &String) -> (r: bool)
    ensures
        r == permits(opt_strings_view(allowed), id@),
{
    match allowed {
        Some(ids) => crate::domain::strings_contain(ids, id.as_str()),
        None => true,
    }
}

/// Builds the version list of the version step. `needle` is the trimmed,
/// lower-cased search; `allowed` is the list of versions the picked loader
/// runs on, once it is known.
pub fn build_version_list(
    choice: Option<TypeChoice>,
    oneclient: &[OneClientVersion],
    java: &[JavaMajor],
    vanilla: Vec<GameVersion>,
    allowed: Option<&Vec<String>>,
    filter: usize,
    needle: &str,
) -> (r: VersionList)
    requires
        vanilla@.len() <= u32::MAX + 1,
    ensures
        r@ == version_list_for(
            choice,
            oneclient_view(oneclient@),
            java_view(java@),
            game_versions_view(vanilla@),
            opt_strings_view(allowed),
            filter as nat,
            needle@,
        ),
        indices_valid(r@),
{
    let nv = chars_of(needle);
    if choice == Some(TypeChoice::OneClient) {
        let ghost ov = oneclient_view(oneclient@);
        let ghost pred = |e: OneClientVersionView| needle_matches(e.id, needle@);
        let ghost f = |e: OneClientVersionView| curated_row(e, java_view(java@));
        let mut rows: Vec<VersionRow> = Vec::new();
        let mut i: usize = 0;
        while i < oneclient.len()
            invariant
                i <= oneclient@.len(),
                ov == oneclient_view(oneclient@),
                nv@ == needle@,
                pred == (|e: OneClientVersionView| needle_matches(e.id, needle@)),
                f == (|e: OneClientVersionView| curated_row(e, java_view(java@))),
                rows_view(rows@) == ov.subrange(0, i as int).filter(pred).map_values(f),
            decreases oneclient@.len() - i,
        {
            let e = &oneclient[i];
            assert(ov[i as int] == e@);
            proof {
                crate::text::lemma_filter_step(ov, i as int, pred);
            }
            if id_matches(&e.id, &nv) {
                let badge = match find_java(java, e.id.as_str()) {
                    Some(m) => Some(crate::text::join2("Java ", decimal_string(m as u64).as_str())),
                    None => None,
                };
                let row = VersionRow {
                    id: e.id.clone(),
                    meta: String::from_str(e.loader.label()),
                    badge,
                    date: String::new(),
                };
                assert(row@ == f(e@));
                let ghost before = rows@;
                rows.push(row);
                assert(rows_view(rows@) =~= rows_view(before).push(row@));
                assert(ov.subrange(0, i + 1).filter(pred).map_values(f) =~= ov.subrange(0, i as int).filter(pred).map_values(f).push(f(e@)));
            }
            i = i + 1;
        }
        assert(ov.subrange(0, i as int) =~= ov);
        VersionList::Curated(rows)
    } else {
        let ghost av = game_versions_view(vanilla@);
        let mut visible: Vec<u32> = Vec::new();
        let mut k: usize = 0;
        while k < vanilla.len()
            invariant
                k <= vanilla@.len(),
                vanilla@.len() <= u32::MAX + 1,
                av == game_versions_view(vanilla@),
                nv@ == needle@,
                visible@ == shown_indices(av, k as int, opt_strings_view(allowed), filter as nat, needle@),
                forall|j: int| 0 <= j < visible@.len() ==> (#[trigger] visible@[j]) < k,
            decreases vanilla@.len() - k,
        {
            let g = &vanilla[k];
            assert(av[k as int] == g@);
            if matches_filter(g.kind, filter) && allowed_contains(allowed, &g.id) && id_matches(&g.id, &nv) {
                visible.push(k as u32);
            }
            k = k + 1;
        }
        VersionList::Catalogue { all: vanilla, visible }
    }
}

/// A previously picked version is still offered: for a OneClient instance when
/// OneClient ships it, otherwise when the catalogue has it in scope. The
/// search does not drop a pick.
pub open spec fn still_offered(
    choice: Option<TypeChoice>,
    chosen: Seq<char>,
    oneclient: Seq<OneClientVersionView>,
    vanilla: Seq<GameVersionView>,
    allowed: Option<Seq<Seq<char>>>,
    filter: nat,
) -> bool {
    if choice == Some(TypeChoice::OneClient) {
        exists|i: int| 0 <= i < oneclient.len() && (#[trigger] oneclient[i]).id == chosen
    } else {
        exists|i: int|
            0 <= i < vanilla.len() && (#[trigger] vanilla[i]).id == chosen && in_scope(
                vanilla[i],
                allowed,
                filter,
            )
    }
}

/// The version in effect: the user's pick while it is still offered, else the
/// list's default.
pub open spec fn version_in_effect(
    choice: Option<TypeChoice>,
    previous: Option<Seq<char>>,
    oneclient: Seq<OneClientVersionView>,
    vanilla: Seq<GameVersionView>,
    allowed: Option<Seq<Seq<char>>>,
    filter: nat,
    list: VersionListView,
) -> Option<Seq<char>> {
    match previous {
        Some(p) => if still_offered(choice, p, oneclient, vanilla, allowed, filter) {
            Some(p)
        } else {
            default_version(list)
        },
        None => default_version(list),
    }
}

fn oneclient_lists(oneclient: &[OneClientVersion], id: &String) -> (r: bool)
    ensures
        r == exists|i: int| 0 <= i < oneclient@.len() && (#[trigger] oneclient_view(oneclient@)[i]).id == id@,
{
    let ghost ov = oneclient_view(oneclient@);
    let mut i: usize = 0;
    while i < oneclient.len()
        invariant
            i <= oneclient@.len(),
            ov == oneclient_view(oneclient@),
            forall|j: int| 0 <= j < i ==> (#[trigger] ov[j]).id != id@,
        decreases oneclient@.len() - i,
    {
        assert(ov[i as int] == oneclient@[i as int]@);
        if crate::text::str_eq(oneclient[i].id.as_str(), id.as_str()) {
            return true;
        }
        i = i + 1;
    }
    false
}

fn catalogue_offers(vanilla: &[GameVersion], id: &String, allowed: Option<&Vec<String>>, filter: usize) -> (r: bool)
    ensures
        r == exists|i: int|
            0 <= i < vanilla@.len() && (#[trigger] game_versions_view(vanilla@)[i]).id == id@ && in_scope(
                game_versions_view(vanilla@)[i],
                opt_strings_view(allowed),
                filter as nat,
            ),
{
    let ghost gv = game_versions_view(vanilla@);
    let mut i: usize = 0;
    while i < vanilla.len()
        invariant
            i <= vanilla@.len(),
            gv == game_versions_view(vanilla@),
            forall|j: int|
                0 <= j < i ==> !((#[trigger] gv[j]).id == id@ && in_scope(gv[j], opt_strings_view(allowed), filter as nat)),
        decreases vanilla@.len() - i,
    {
        assert(gv[i as int] == vanilla@[i as int]@);
        if crate::text::str_eq(vanilla[i].id.as_str(), id.as_str()) && matches_filter(vanilla[i].kind, filter)
            && allowed_contains(allowed, &vanilla[i].id) {
            return true;
        }
        i = i + 1;
    }
    false
}

/// The version in effect on the version step.
pub fn chosen_version(
    choice: Option<TypeChoice>,
    previous: Option<String>,
    oneclient: &[OneClientVersion],
    vanilla: &[GameVersion],
    allowed: Option<&Vec<String>>,
    filter: usize,
    list: &VersionList,
) -> (r: Option<String>)
    requires
        indices_valid(list@),
    ensures
        opt_view(r) == version_in_effect(
            choice,
            opt_view(previous),
            oneclient_view(oneclient@),
            game_versions_view(vanilla@),
            opt_strings_view(allowed),
            filter as nat,
            list@,
        ),
{
    match previous {
        Some(p) => {
            let offered = if choice == Some(TypeChoice::OneClient) {
                oneclient_lists(oneclient, &p)
            } else {
                catalogue_offers(vanilla, &p, allowed, filter)
            };
            if offered {
                Some(p)
            } else {
                list.default_id()
            }
        },
        None => list.default_id(),
    }
}

/// A version the user picked stays picked while it is still offered, and
/// whatever the search shows; once it is no longer offered, or nothing was
/// picked, the list's default is taken.
pub proof fn law_offered_pick_kept(
    choice: Option<TypeChoice>,
    previous: Option<Seq<char>>,
    oneclient: Seq<OneClientVersionView>,
    java: Seq<(Seq<char>, u32)>,
    vanilla: Seq<GameVersionView>,
    allowed: Option<Seq<Seq<char>>>,
    filter: nat,
    needle: Seq<char>,
)
    ensures
        ({
            let list = version_list_for(choice, oneclient, java, vanilla, allowed, filter, needle);
            let v = version_in_effect(choice, previous, oneclient, vanilla, allowed, filter, list);
            &&& (previous matches Some(p) && still_offered(choice, p, oneclient, vanilla, allowed, filter)) ==> v
                == previous
            &&& !(previous matches Some(p) && still_offered(choice, p, oneclient, vanilla, allowed, filter)) ==> v
                == default_version(list)
        }),
{
}

fn oneclient_loader_of(oneclient: &[OneClientVersion], id: &String) -> (r: Option<GameLoader>)
    ensures
        r == oneclient_loader(oneclient_view(oneclient@), id@),
{
    let ghost ov = oneclient_view(oneclient@);
    let mut i: usize = 0;
    assert(ov.subrange(0, ov.len() as int) =~= ov);
    while i < oneclient.len()
        invariant
            i <= oneclient@.len(),
            ov == oneclient_view(oneclient@),
            oneclient_loader(ov, id@) == oneclient_loader(ov.subrange(i as int, ov.len() as int), id@),
        decreases oneclient@.len() - i,
    {
        let ghost rest = ov.subrange(i as int, ov.len() as int);
        assert(rest[0] == oneclient@[i as int]@);
        assert(rest.drop_first() =~= ov.subrange(i + 1, ov.len() as int));
        if crate::text::str_eq(oneclient[i].id.as_str(), id.as_str()) {
            return Some(oneclient[i].loader);
        }
        i = i + 1;
    }
    None
}

/// The loader OneClient's build of `id` uses: that of the first entry for it.
pub open spec fn oneclient_loader(oneclient: Seq<OneClientVersionView>, id: Seq<char>) -> Option<GameLoader>
    decreases oneclient.len(),
{
    if oneclient.len() == 0 {
        None
    } else if oneclient[0].id == id {
        Some(oneclient[0].loader)
    } else {
        oneclient_loader(oneclient.drop_first(), id)
    }
}

/// The loader in effect: OneClient's for its version, the resolved choice for
/// an instance from scratch, none before a type is picked.
pub open spec fn loader_in_effect(
    choice: Option<TypeChoice>,
    version: Option<Seq<char>>,
    oneclient: Seq<OneClientVersionView>,
    picked: LoaderChoice,
    available: Seq<GameLoader>,
) -> Option<GameLoader> {
    match choice {
        Some(TypeChoice::OneClient) => match version {
            Some(v) => oneclient_loader(oneclient, v),
            None => None,
        },
        Some(TypeChoice::Scratch) => resolve_loader(picked, available),
        None => None,
    }
}

/// The loader the new instance runs with.
pub fn chosen_loader(
    choice: Option<TypeChoice>,
    version: Option<&String>,
    oneclient: &[OneClientVersion],
    picked: LoaderChoice,
    available: &[GameLoader],
) -> (r: Option<GameLoader>)
    ensures
        r == loader_in_effect(
            choice,
            match version {
                Some(v) => Some(v@),
                None => None,
            },
            oneclient_view(oneclient@),
            picked,
            available@,
        ),
{
    match choice {
        Some(TypeChoice::OneClient) => match version {
            Some(v) => oneclient_loader_of(oneclient, v),
            None => None,
        },
        Some(TypeChoice::Scratch) => picked.resolve(available),
        None => None,
    }
}

/// The loader version in effect for an instance from scratch with a modded
/// loader: the user's pick while the loader still offers it, else the first
/// (newest) one offered. Other instances pick none.
pub open spec fn loader_version_in_effect(
    choice: Option<TypeChoice>,
    loader: Option<GameLoader>,
    previous: Option<Seq<char>>,
    offered: Seq<Seq<char>>,
) -> Option<Seq<char>> {
    if choice == Some(TypeChoice::Scratch) && loader is Some && loader != Some(GameLoader::Vanilla) {
        match previous {
            Some(p) => if offered.contains(p) {
                Some(p)
            } else if offered.len() > 0 {
                Some(offered[0])
            } else {
                None
            },
            None => if offered.len() > 0 {
                Some(offered[0])
            } else {
                None
            },
        }
    } else {
        None
    }
}

/// A loader version is kept only for an instance from scratch with a modded
/// loader, and only one that the loader offers: the user's pick while it is
/// offered, else the first one offered.
pub proof fn law_loader_version_offered(
    choice: Option<TypeChoice>,
    loader: Option<GameLoader>,
    previous: Option<Seq<char>>,
    offered: Seq<Seq<char>>,
)
    ensures
        loader_version_in_effect(choice, loader, previous, offered) matches Some(x) ==> choice == Some(
            TypeChoice::Scratch,
        ) && loader is Some && loader != Some(GameLoader::Vanilla) && offered.contains(x) && (match previous {
            Some(p) if offered.contains(p) => x == p,
            _ => x == offered[0],
        }),
        choice == Some(TypeChoice::Scratch) && loader is Some && loader != Some(GameLoader::Vanilla) && offered.len()
            > 0 ==> loader_version_in_effect(choice, loader, previous, offered) is Some,
{
    if loader_version_in_effect(choice, loader, previous, offered) is Some && !(previous matches Some(p)
        && offered.contains(p)) {
        assert(offered.contains(offered[0]));
    }
}

/// The loader version the new instance runs with.
pub fn chosen_loader_version(
    choice: Option<TypeChoice>,
    loader: Option<GameLoader>,
    previous: Option<String>,
    offered: &Vec<String>,
) -> (r: Option<String>)
    ensures
        opt_view(r) == loader_version_in_effect(choice, loader, opt_view(previous), strings_view(offered@)),
{
    let modded = match loader {
        Some(l) => l != GameLoader::Vanilla,
        None => false,
    };
    if choice == Some(TypeChoice::Scratch) && modded {
        let first = if offered.len() > 0 {
            assert(strings_view(offered@)[0] == offered@[0]@);
            Some(offered[0].clone())
        } else {
            None
        };
        match previous {
            Some(p) => if crate::domain::strings_contain(offered, p.as_str()) {
                Some(p)
            } else {
                first
            },
            None => first,
        }
    } else {
        None
    }
}

/// The name the instance gets: what the user typed, once they have touched
/// the field and it is not blank; otherwise the suggestion.
pub open spec fn effective_name_text(touched: bool, typed: Seq<char>, suggested: Seq<char>) -> Seq<char> {
    if touched && typed.len() > 0 {
        typed
    } else {
        suggested
    }
}

} // verus!
