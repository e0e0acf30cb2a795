//! Which projects a cluster already has, and in which versions: the marks the
//! package browser puts on search results.
use vstd::prelude::*;

use crate::domain::{
    artifacts_view, bundles_view, files_view, Bundle, BundleFile, FileKind, opt_view, BundleFileView, BundleView, FileKindView, LinkedArtifact, LinkedArtifactView,
    ProviderId,
};

verus! {

/// Who put a package into the cluster.
#[derive(Clone, Copy, PartialEq, Eq, Debug, Structural)]
pub enum InstallSource {
    /// The user installed it.
    Manual,
    /// A bundle of the cluster ships it.
    Bundled,
}

impl InstallSource {
    pub open spec fn spec_label(self) -> Seq<char> {
        match self {
            InstallSource::Manual => "Installed"@,
            InstallSource::Bundled => "Bundled"@,
        }
    }

    /// The text of the badge shown on an installed package.
    pub fn label(self) -> (r: &'static str)
        ensures
            r@ == self.spec_label(),
    {
        match self {
            InstallSource::Manual => "Installed",
            InstallSource::Bundled => "Bundled",
        }
    }
}

/// One version of a project found in the cluster.
pub struct InstalledVersion {
    pub version_id: String,
    /// The linked artifact to remove; `None` when a bundle names this version
    /// but nothing is linked.
    pub hash: Option<String>,
    /// Meaningful only alongside a `hash`.
    pub enabled: bool,
    pub source: InstallSource,
}

pub struct InstalledVersionView {
    pub version_id: Seq<char>,
    pub hash: Option<Seq<char>>,
    pub enabled: bool,
    pub source: InstallSource,
}

impl View for InstalledVersion {
    type V = InstalledVersionView;

    open spec fn view(&self) -> InstalledVersionView {
        InstalledVersionView {
            version_id: self.version_id@,
            hash: opt_view(self.hash),
            enabled: self.enabled,
            source: self.source,
        }
    }
}

pub open spec fn versions_view(vs: Seq<InstalledVersion>) -> Seq<InstalledVersionView> {
    vs.map_values(|v: InstalledVersion| v@)
}

/// A project found in the cluster, with every version of it that was found.
pub struct Installed {
    /// A bundle claiming the project wins over a hand-installed copy.
    pub source: InstallSource,
    pub versions: Vec<InstalledVersion>,
}

pub struct InstalledView {
    pub source: InstallSource,
    pub versions: Seq<InstalledVersionView>,
}

impl View for Installed {
    type V = InstalledView;

    open spec fn view(&self) -> InstalledView {
        InstalledView { source: self.source, versions: versions_view(self.versions@) }
    }
}

/// The first index at or after `from` whose version is `id`.
pub open spec fn first_version_from(vs: Seq<InstalledVersionView>, id: Seq<char>, from: int) -> Option<
    int,
>
    decreases vs.len() - from,
{
    if from < 0 || from >= vs.len() {
        None
    } else if vs[from].version_id == id {
        Some(from)
    } else {
        first_version_from(vs, id, from + 1)
    }
}

/// The number of versions that have a linked artifact.
pub open spec fn linked_count(vs: Seq<InstalledVersionView>) -> nat
    decreases vs.len(),
{
    if vs.len() == 0 {
        0
    } else {
        linked_count(vs.drop_last()) + if vs.last().hash is Some {
            1nat
        } else {
            0nat
        }
    }
}

/// `first_version_from` finds an index exactly when some later version has the id.
pub proof fn lemma_first_version_from(vs: Seq<InstalledVersionView>, id: Seq<char>, from: int)
    requires
        0 <= from,
    ensures
        first_version_from(vs, id, from) matches Some(i) ==> from <= i < vs.len()
            && vs[i].version_id == id && forall|j: int| from <= j < i ==> vs[j].version_id != id,
        first_version_from(vs, id, from) is None ==> forall|j: int|
            from <= j < vs.len() ==> vs[j].version_id != id,
    decreases vs.len() - from,
{
    if from < vs.len() && vs[from].version_id != id {
        lemma_first_version_from(vs, id, from + 1);
    }
}

fn same_chars(a: &String, b: &str) -> (r: bool)
    ensures
        r == (a@ == b@),
{
    crate::text::str_eq(a.as_str(), b)
}

/// Index of the first version in `vs` whose id is `id`.
fn find_version_index(vs: &Vec<InstalledVersion>, id: &str) -> (r: Option<usize>)
    ensures
        match r {
            Some(i) => i < vs@.len() && first_version_from(versions_view(vs@), id@, 0) == Some(
                i as int,
            ),
            None => first_version_from(versions_view(vs@), id@, 0) is None,
        },
{
    let ghost vv = versions_view(vs@);
    let mut i: usize = 0;
    while i < vs.len()
        invariant
            i <= vs@.len(),
            vv == versions_view(vs@),
            first_version_from(vv, id@, 0) == first_version_from(vv, id@, i as int),
        decreases vs@.len() - i,
    {
        if same_chars(&vs[i].version_id, id) {
            return Some(i);
        }
        i = i + 1;
    }
    None
}

impl Installed {
    /// The first version of the project whose id is `version_id`.
    pub fn find_version(&self, version_id: &str) -> (r: Option<&InstalledVersion>)
        ensures
            r is Some <==> first_version_from(self@.versions, version_id@, 0) is Some,
            r matches Some(v) ==> v@ == self@.versions[first_version_from(
                self@.versions,
                version_id@,
                0,
            )->0],
    {
        match find_version_index(&self.versions, version_id) {
            Some(i) => Some(&self.versions[i]),
            None => None,
        }
    }

    /// Whether the cluster has the project in version `version_id`.
    pub fn is_version(&self, version_id: &str) -> (r: bool)
        ensures
            r == exists|i: int|
                0 <= i < self@.versions.len() && #[trigger] self@.versions[i].version_id
                    == version_id@,
    {
        proof {
            lemma_first_version_from(self@.versions, version_id@, 0);
        }
        self.find_version(version_id).is_some()
    }

    /// More than one linked copy of the project: a bundle pin the cluster never
    /// downloaded is not a second copy.
    pub fn is_duplicated(&self) -> (r: bool)
        ensures
            r == (linked_count(self@.versions) > 1),
    {
        let mut count: usize = 0;
        let mut i: usize = 0;
        while i < self.versions.len()
            invariant
                i <= self.versions@.len(),
                count == linked_count(versions_view(self.versions@).subrange(0, i as int)),
                count <= i,
            decreases self.versions@.len() - i,
        {
            let ghost vv = versions_view(self.versions@);
            assert(vv.subrange(0, i + 1).drop_last() =~= vv.subrange(0, i as int));
            if self.versions[i].hash.is_some() {
                count = count + 1;
            }
            i = i + 1;
        }
        assert(versions_view(self.versions@).subrange(0, i as int) =~= versions_view(
            self.versions@,
        ));
        count > 1
    }
}

pub type ProjectKey = (ProviderId, Seq<char>);

/// The cluster's projects, keyed by provider and project id.
pub struct InstalledEntry {
    pub provider: ProviderId,
    pub project_id: String,
    pub installed: Installed,
}

pub open spec fn key_of(e: InstalledEntry) -> ProjectKey {
    (e.provider, e.project_id@)
}

/// `es` holds each key once, and `m` maps every key of `es` to its entry.
pub open spec fn entries_model(es: Seq<InstalledEntry>, m: Map<ProjectKey, InstalledView>) -> bool {
    &&& forall|i: int, j: int|
        0 <= i < es.len() && 0 <= j < es.len() && i != j ==> key_of(#[trigger] es[i]) != key_of(
            #[trigger] es[j],
        )
    &&& forall|i: int|
        0 <= i < es.len() ==> m.contains_key(key_of(#[trigger] es[i])) && m[key_of(es[i])]
            == es[i].installed@
    &&& forall|k: ProjectKey|
        m.contains_key(k) ==> exists|i: int| 0 <= i < es.len() && key_of(#[trigger] es[i]) == k
}

/// Projects found in a cluster, each under its provider and project id.
pub struct InstalledMap {
    entries: Vec<InstalledEntry>,
    model: Ghost<Map<ProjectKey, InstalledView>>,
}

impl View for InstalledMap {
    type V = Map<ProjectKey, InstalledView>;

    closed spec fn view(&self) -> Map<ProjectKey, InstalledView> {
        self.model@
    }
}

impl InstalledMap {
    #[verifier::type_invariant]
    closed spec fn wf(self) -> bool {
        entries_model(self.entries@, self.model@)
    }

    /// A map with no projects.
    pub fn new() -> (r: InstalledMap)
        ensures
            r@ == Map::<ProjectKey, InstalledView>::empty(),
    {
        InstalledMap { entries: Vec::new(), model: Ghost(Map::empty()) }
    }

    /// The number of projects.
    pub fn len(&self) -> (r: usize)
        ensures
            r == self@.dom().len(),
    {
        proof {
            use_type_invariant(self);
            lemma_model_len(self.entries@, self.model@);
        }
        self.entries.len()
    }

    /// What the cluster has of the project `project_id` from `provider`.
    pub fn get(&self, provider: ProviderId, project_id: &str) -> (r: Option<&Installed>)
        ensures
            r is Some <==> self@.contains_key((provider, project_id@)),
            r matches Some(x) ==> x@ == self@[(provider, project_id@)],
    {
        proof {
            use_type_invariant(self);
        }
        match find_entry(&self.entries, provider, project_id) {
            Some(i) => Some(&self.entries[i].installed),
            None => None,
        }
    }
}

proof fn lemma_model_len(es: Seq<InstalledEntry>, m: Map<ProjectKey, InstalledView>)
    requires
        entries_model(es, m),
    ensures
        m.dom().finite(),
        m.dom().len() == es.len(),
    decreases es.len(),
{
    let keys = es.map_values(|e: InstalledEntry| key_of(e));
    assert forall|i: int, j: int| 0 <= i < keys.len() && 0 <= j < keys.len() && i != j implies keys[i]
        != keys[j] by {
        assert(key_of(es[i]) != key_of(es[j]));
    }
    assert(keys.no_duplicates());
    keys.unique_seq_to_set();
    assert(m.dom() =~= keys.to_set()) by {
        assert forall|k: ProjectKey| m.dom().contains(k) implies keys.to_set().contains(k) by {
            let i = choose|i: int| 0 <= i < es.len() && key_of(#[trigger] es[i]) == k;
            assert(keys[i] == k);
        }
        assert forall|k: ProjectKey| keys.to_set().contains(k) implies m.dom().contains(k) by {
            let i = choose|i: int| 0 <= i < keys.len() && keys[i] == k;
            assert(key_of(es[i]) == k);
        }
    }
}

fn find_entry(es: &Vec<InstalledEntry>, provider: ProviderId, project_id: &str) -> (r: Option<
    usize,
>)
    ensures
        match r {
            Some(i) => i < es@.len() && key_of(es@[i as int]) == (provider, project_id@),
            None => forall|i: int| 0 <= i < es@.len() ==> key_of(#[trigger] es@[i]) != (
                provider,
                project_id@,
            ),
        },
{
    let mut i: usize = 0;
    while i < es.len()
        invariant
            i <= es@.len(),
            forall|j: int| 0 <= j < i ==> key_of(#[trigger] es@[j]) != (provider, project_id@),
        decreases es@.len() - i,
    {
        if es[i].provider == provider && same_chars(&es[i].project_id, project_id) {
            return Some(i);
        }
        i = i + 1;
    }
    None
}

/// The empty record a linked artifact starts a project with.
pub open spec fn fresh_manual() -> InstalledView {
    InstalledView { source: InstallSource::Manual, versions: Seq::empty() }
}

/// The map after one artifact of the cluster's content listing. Artifacts with
/// no provider or no project id have nothing to be matched against and are
/// skipped; one with no recorded version still marks its project.
pub open spec fn content_step(m: Map<ProjectKey, InstalledView>, a: LinkedArtifactView) -> Map<
    ProjectKey,
    InstalledView,
> {
    match (a.provider, a.project_id) {
        (Some(p), Some(pid)) => {
            let k = (p, pid);
            let base = if m.contains_key(k) {
                m[k]
            } else {
                fresh_manual()
            };
            let next = match a.version_id {
                Some(v) => InstalledView {
                    source: base.source,
                    versions: base.versions.push(
                        InstalledVersionView {
                            version_id: v,
                            hash: Some(a.hash),
                            enabled: a.enabled,
                            source: InstallSource::Manual,
                        },
                    ),
                },
                None => base,
            };
            m.insert(k, next)
        },
        _ => m,
    }
}

pub open spec fn content_fold(m: Map<ProjectKey, InstalledView>, xs: Seq<LinkedArtifactView>) -> Map<
    ProjectKey,
    InstalledView,
>
    decreases xs.len(),
{
    if xs.len() == 0 {
        m
    } else {
        content_step(content_fold(m, xs.drop_last()), xs.last())
    }
}

/// `vs` with its first version `id` marked as the bundle's.
pub open spec fn mark_bundled(vs: Seq<InstalledVersionView>, id: Seq<char>) -> Seq<
    InstalledVersionView,
> {
    match first_version_from(vs, id, 0) {
        Some(j) => vs.update(j, InstalledVersionView { source: InstallSource::Bundled, ..vs[j] }),
        None => vs,
    }
}

/// The map after one file of a bundle. Bundle membership wins: a project the
/// bundle names becomes the bundle's, and so does the version it pins if that
/// version is linked. The pin itself is listed only for a project nothing is
/// linked for.
pub open spec fn bundle_step(m: Map<ProjectKey, InstalledView>, f: BundleFileView) -> Map<
    ProjectKey,
    InstalledView,
> {
    match f.kind {
        FileKindView::Managed { provider, project_id, version_id } => {
            let k = (provider, project_id);
            if m.contains_key(k) {
                m.insert(
                    k,
                    InstalledView {
                        source: InstallSource::Bundled,
                        versions: mark_bundled(m[k].versions, version_id),
                    },
                )
            } else {
                m.insert(
                    k,
                    InstalledView {
                        source: InstallSource::Bundled,
                        versions: seq![
                            InstalledVersionView {
                                version_id: version_id,
                                hash: None,
                                enabled: false,
                                source: InstallSource::Bundled,
                            },
                        ],
                    },
                )
            }
        },
        FileKindView::External => m,
    }
}

pub open spec fn files_fold(m: Map<ProjectKey, InstalledView>, fs: Seq<BundleFileView>) -> Map<
    ProjectKey,
    InstalledView,
>
    decreases fs.len(),
{
    if fs.len() == 0 {
        m
    } else {
        bundle_step(files_fold(m, fs.drop_last()), fs.last())
    }
}

pub open spec fn bundles_fold(m: Map<ProjectKey, InstalledView>, bs: Seq<BundleView>) -> Map<
    ProjectKey,
    InstalledView,
>
    decreases bs.len(),
{
    if bs.len() == 0 {
        m
    } else {
        files_fold(bundles_fold(m, bs.drop_last()), bs.last().files)
    }
}

/// What a cluster has of each project: its linked content first, then the
/// files its bundles name.
pub open spec fn installed_model(content: Seq<LinkedArtifactView>, bundles: Seq<BundleView>) -> Map<
    ProjectKey,
    InstalledView,
> {
    bundles_fold(content_fold(Map::empty(), content), bundles)
}

proof fn lemma_update_entry(
    es: Seq<InstalledEntry>,
    m: Map<ProjectKey, InstalledView>,
    i: int,
    e: InstalledEntry,
)
    requires
        entries_model(es, m),
        0 <= i < es.len(),
        key_of(e) == key_of(es[i]),
    ensures
        entries_model(es.update(i, e), m.insert(key_of(e), e.installed@)),
{
    let es2 = es.update(i, e);
    let m2 = m.insert(key_of(e), e.installed@);
    assert forall|j: int| 0 <= j < es2.len() implies m2.contains_key(key_of(#[trigger] es2[j]))
        && m2[key_of(es2[j])] == es2[j].installed@ by {
        if j != i {
            assert(key_of(es[j]) != key_of(es[i]));
        }
    }
    assert forall|k: ProjectKey| m2.contains_key(k) implies exists|j: int|
        0 <= j < es2.len() && key_of(#[trigger] es2[j]) == k by {
        if k == key_of(e) {
            assert(key_of(es2[i]) == k);
        } else {
            let j = choose|j: int| 0 <= j < es.len() && key_of(#[trigger] es[j]) == k;
            assert(key_of(es2[j]) == k);
        }
    }
    assert forall|a: int, b: int|
        0 <= a < es2.len() && 0 <= b < es2.len() && a != b implies key_of(#[trigger] es2[a])
        != key_of(#[trigger] es2[b]) by {
        assert(key_of(es[a]) != key_of(es[b]));
    }
}

proof fn lemma_push_entry(es: Seq<InstalledEntry>, m: Map<ProjectKey, InstalledView>, e: InstalledEntry)
    requires
        entries_model(es, m),
        !m.contains_key(key_of(e)),
    ensures
        entries_model(es.push(e), m.insert(key_of(e), e.installed@)),
{
    let es2 = es.push(e);
    let m2 = m.insert(key_of(e), e.installed@);
    assert forall|j: int| 0 <= j < es2.len() implies m2.contains_key(key_of(#[trigger] es2[j]))
        && m2[key_of(es2[j])] == es2[j].installed@ by {
        if j < es.len() {
            assert(es2[j] == es[j]);
            assert(m.contains_key(key_of(es[j])));
        }
    }
    assert forall|k: ProjectKey| m2.contains_key(k) implies exists|j: int|
        0 <= j < es2.len() && key_of(#[trigger] es2[j]) == k by {
        if k == key_of(e) {
            assert(key_of(es2[es.len() as int]) == k);
        } else {
            let j = choose|j: int| 0 <= j < es.len() && key_of(#[trigger] es[j]) == k;
            assert(key_of(es2[j]) == k);
        }
    }
    assert forall|a: int, b: int|
        0 <= a < es2.len() && 0 <= b < es2.len() && a != b implies key_of(#[trigger] es2[a])
        != key_of(#[trigger] es2[b]) by {
        if a < es.len() && b < es.len() {
            assert(key_of(es[a]) != key_of(es[b]));
        } else if a < es.len() {
            assert(m.contains_key(key_of(es[a])));
        } else {
            assert(m.contains_key(key_of(es[b])));
        }
    }
}

/// Applies one artifact of the content listing.
fn add_artifact(
    es: &mut Vec<InstalledEntry>,
    Ghost(m): Ghost<Map<ProjectKey, InstalledView>>,
    a: &LinkedArtifact,
) -> (r: Ghost<Map<ProjectKey, InstalledView>>)
    requires
        entries_model(old(es)@, m),
    ensures
        r@ == content_step(m, a@),
        entries_model(final(es)@, r@),
{
    match (a.provider, &a.project_id) {
        (Some(provider), Some(project_id)) => {
            let ghost k = (provider, project_id@);
            let idx = match find_entry(es, provider, project_id.as_str()) {
                Some(i) => {
                    assert(m.contains_key(k));
                    i
                },
                None => {
                    assert(!m.contains_key(k)) by {
                        if m.contains_key(k) {
                            let j = choose|j: int| 0 <= j < es@.len() && key_of(#[trigger] es@[j]) == k;
                        }
                    }
                    let e = InstalledEntry {
                        provider,
                        project_id: project_id.clone(),
                        installed: Installed { source: InstallSource::Manual, versions: Vec::new() },
                    };
                    proof {
                        assert(e.installed@.versions =~= Seq::<InstalledVersionView>::empty());
                        lemma_push_entry(es@, m, e);
                    }
                    es.push(e);
                    es.len() - 1
                },
            };
            let ghost m1 = if m.contains_key(k) { m } else { m.insert(k, fresh_manual()) };
            assert(entries_model(es@, m1));
            assert(m1[k] == es@[idx as int].installed@);
            match &a.version_id {
                Some(v) => {
                    let ghost es0 = es@;
                    let mut e = es.remove(idx);
                    let ghost before = e.installed@;
                    e.installed.versions.push(
                        InstalledVersion {
                            version_id: v.clone(),
                            hash: Some(a.hash.clone()),
                            enabled: a.enabled,
                            source: InstallSource::Manual,
                        },
                    );
                    assert(e.installed@.versions =~= before.versions.push(
                        InstalledVersionView {
                            version_id: v@,
                            hash: Some(a.hash@),
                            enabled: a.enabled,
                            source: InstallSource::Manual,
                        },
                    ));
                    proof {
                        lemma_update_entry(es0, m1, idx as int, e);
                    }
                    es.insert(idx, e);
                    assert(es@ =~= es0.update(idx as int, e));
                    assert(before == m1[k]);
                    assert(m1.insert(k, e.installed@) =~= content_step(m, a@));
                    Ghost(m1.insert(k, e.installed@))
                },
                None => {
                    assert(m1 =~= content_step(m, a@));
                    Ghost(m1)
                },
            }
        },
        _ => Ghost(m),
    }
}


/// Applies one file of a bundle.
fn add_bundle_file(
    es: &mut Vec<InstalledEntry>,
    Ghost(m): Ghost<Map<ProjectKey, InstalledView>>,
    f: &BundleFile,
) -> (r: Ghost<Map<ProjectKey, InstalledView>>)
    requires
        entries_model(old(es)@, m),
    ensures
        r@ == bundle_step(m, f@),
        entries_model(final(es)@, r@),
{
    match &f.kind {
        FileKind::Managed { provider, project_id, version_id } => {
            let ghost k = (*provider, project_id@);
            match find_entry(es, *provider, project_id.as_str()) {
                Some(idx) => {
                    assert(m.contains_key(k));
                    let ghost es0 = es@;
                    let mut e = es.remove(idx);
                    let ghost before = e.installed@;
                    assert(before == m[k]);
                    e.installed.source = InstallSource::Bundled;
                    match find_version_index(&e.installed.versions, version_id.as_str()) {
                        Some(j) => {
                            let ghost vs0 = e.installed.versions@;
                            let mut v = e.installed.versions.remove(j);
                            v.source = InstallSource::Bundled;
                            e.installed.versions.insert(j, v);
                            assert(e.installed.versions@ =~= vs0.update(j as int, v));
                            assert(versions_view(e.installed.versions@) =~= mark_bundled(
                                before.versions,
                                version_id@,
                            ));
                        },
                        None => {
                            assert(versions_view(e.installed.versions@) =~= mark_bundled(
                                before.versions,
                                version_id@,
                            ));
                        },
                    }
                    proof {
                        lemma_update_entry(es0, m, idx as int, e);
                    }
                    es.insert(idx, e);
                    assert(es@ =~= es0.update(idx as int, e));
                    assert(m.insert(k, e.installed@) =~= bundle_step(m, f@));
                    Ghost(m.insert(k, e.installed@))
                },
                None => {
                    assert(!m.contains_key(k)) by {
                        if m.contains_key(k) {
                            let j = choose|j: int| 0 <= j < es@.len() && key_of(#[trigger] es@[j]) == k;
                        }
                    }
                    let pin = InstalledVersion {
                        version_id: version_id.clone(),
                        hash: None,
                        enabled: false,
                        source: InstallSource::Bundled,
                    };
                    let mut versions: Vec<InstalledVersion> = Vec::new();
                    versions.push(pin);
                    let e = InstalledEntry {
                        provider: *provider,
                        project_id: project_id.clone(),
                        installed: Installed { source: InstallSource::Bundled, versions },
                    };
                    proof {
                        lemma_push_entry(es@, m, e);
                    }
                    assert(e.installed@.versions =~= seq![
                        InstalledVersionView {
                            version_id: version_id@,
                            hash: None,
                            enabled: false,
                            source: InstallSource::Bundled,
                        },
                    ]);
                    es.push(e);
                    assert(m.insert(k, e.installed@) =~= bundle_step(m, f@));
                    Ghost(m.insert(k, e.installed@))
                },
            }
        },
        FileKind::External => Ghost(m),
    }
}

/// Every project the cluster has, with its versions. Linked artifacts list the
/// versions; the cluster's bundles then claim the projects they name. Local
/// files and a bundle's own files are left out: they have no project id to
/// match against.
pub fn installed_map(content: Vec<LinkedArtifact>, bundles: &[Bundle]) -> (r: InstalledMap)
    ensures
        r@ == installed_model(artifacts_view(content@), bundles_view(bundles@)),
{
    let ghost av = artifacts_view(content@);
    let ghost bv = bundles_view(bundles@);
    let mut es: Vec<InstalledEntry> = Vec::new();
    let ghost mut m: Map<ProjectKey, InstalledView> = Map::empty();
    let mut i: usize = 0;
    while i < content.len()
        invariant
            i <= content@.len(),
            av == artifacts_view(content@),
            entries_model(es@, m),
            m == content_fold(Map::empty(), av.subrange(0, i as int)),
        decreases content@.len() - i,
    {
        let Ghost(m2) = add_artifact(&mut es, Ghost(m), &content[i]);
        assert(av.subrange(0, i + 1).drop_last() =~= av.subrange(0, i as int));
        proof {
            m = m2;
        }
        i = i + 1;
    }
    assert(av.subrange(0, i as int) =~= av);
    let ghost base = m;
    let mut b: usize = 0;
    while b < bundles.len()
        invariant
            b <= bundles@.len(),
            bv == bundles_view(bundles@),
            entries_model(es@, m),
            m == bundles_fold(base, bv.subrange(0, b as int)),
        decreases bundles@.len() - b,
    {
        let files = &bundles[b].files;
        let ghost fv = files_view(files@);
        let ghost start = m;
        let mut f: usize = 0;
        while f < files.len()
            invariant
                f <= files@.len(),
                fv == files_view(files@),
                entries_model(es@, m),
                m == files_fold(start, fv.subrange(0, f as int)),
            decreases files@.len() - f,
        {
            let Ghost(m2) = add_bundle_file(&mut es, Ghost(m), &files[f]);
            assert(fv.subrange(0, f + 1).drop_last() =~= fv.subrange(0, f as int));
            proof {
                m = m2;
            }
            f = f + 1;
        }
        assert(fv.subrange(0, f as int) =~= fv);
        assert(bv.subrange(0, b + 1).drop_last() =~= bv.subrange(0, b as int));
        assert(bv.subrange(0, b + 1).last().files == fv);
        b = b + 1;
    }
    assert(bv.subrange(0, b as int) =~= bv);
    InstalledMap { entries: es, model: Ghost(m) }
}


/// `b` lists the same versions as `a`, in the same order, with the same
/// artifacts; only who put them there may differ.
pub open spec fn same_versions(a: Seq<InstalledVersionView>, b: Seq<InstalledVersionView>) -> bool {
    &&& a.len() == b.len()
    &&& forall|j: int|
        0 <= j < a.len() ==> (#[trigger] b[j]).version_id == a[j].version_id && b[j].hash
            == a[j].hash && b[j].enabled == a[j].enabled
}

/// No version of `vs` has a linked artifact.
pub open spec fn all_unlinked(vs: Seq<InstalledVersionView>) -> bool {
    forall|j: int| 0 <= j < vs.len() ==> (#[trigger] vs[j]).hash is None
}

proof fn lemma_mark_bundled_same(vs: Seq<InstalledVersionView>, id: Seq<char>)
    ensures
        same_versions(vs, mark_bundled(vs, id)),
{
    lemma_first_version_from(vs, id, 0);
}

proof fn lemma_bundle_step_keeps(m: Map<ProjectKey, InstalledView>, f: BundleFileView, k: ProjectKey)
    ensures
        m.contains_key(k) ==> bundle_step(m, f).contains_key(k) && same_versions(
            m[k].versions,
            bundle_step(m, f)[k].versions,
        ),
        m.contains_key(k) && m[k].source == InstallSource::Bundled ==> bundle_step(m, f)[k].source
            == InstallSource::Bundled,
        (m.contains_key(k) ==> all_unlinked(m[k].versions)) ==> (bundle_step(m, f).contains_key(k)
            ==> all_unlinked(bundle_step(m, f)[k].versions)),
{
    if m.contains_key(k) {
        lemma_mark_bundled_same(m[k].versions, f.kind->Managed_version_id);
    }
    match f.kind {
        FileKindView::Managed { provider, project_id, version_id } => {
            lemma_mark_bundled_same(m[k].versions, version_id);
        },
        FileKindView::External => {},
    }
}

proof fn lemma_files_fold_keeps(m: Map<ProjectKey, InstalledView>, fs: Seq<BundleFileView>, k: ProjectKey)
    ensures
        m.contains_key(k) ==> files_fold(m, fs).contains_key(k) && same_versions(
            m[k].versions,
            files_fold(m, fs)[k].versions,
        ),
        m.contains_key(k) && m[k].source == InstallSource::Bundled ==> files_fold(m, fs)[k].source
            == InstallSource::Bundled,
        (m.contains_key(k) ==> all_unlinked(m[k].versions)) ==> (files_fold(m, fs).contains_key(k)
            ==> all_unlinked(files_fold(m, fs)[k].versions)),
    decreases fs.len(),
{
    if fs.len() > 0 {
        let prev = files_fold(m, fs.drop_last());
        lemma_files_fold_keeps(m, fs.drop_last(), k);
        lemma_bundle_step_keeps(prev, fs.last(), k);
    }
}

proof fn lemma_bundles_fold_keeps(m: Map<ProjectKey, InstalledView>, bs: Seq<BundleView>, k: ProjectKey)
    ensures
        m.contains_key(k) ==> bundles_fold(m, bs).contains_key(k) && same_versions(
            m[k].versions,
            bundles_fold(m, bs)[k].versions,
        ),
        m.contains_key(k) && m[k].source == InstallSource::Bundled ==> bundles_fold(m, bs)[k].source
            == InstallSource::Bundled,
        (m.contains_key(k) ==> all_unlinked(m[k].versions)) ==> (bundles_fold(m, bs).contains_key(k)
            ==> all_unlinked(bundles_fold(m, bs)[k].versions)),
    decreases bs.len(),
{
    if bs.len() > 0 {
        let prev = bundles_fold(m, bs.drop_last());
        lemma_bundles_fold_keeps(m, bs.drop_last(), k);
        lemma_files_fold_keeps(prev, bs.last().files, k);
    }
}

/// The versions listed for `k` after `xs` include every linked version of it.
proof fn lemma_content_lists(xs: Seq<LinkedArtifactView>, i: int)
    requires
        0 <= i < xs.len(),
        xs[i].provider is Some,
        xs[i].project_id is Some,
        xs[i].version_id is Some,
    ensures
        ({
            let k = (xs[i].provider->0, xs[i].project_id->0);
            let m = content_fold(Map::empty(), xs);
            m.contains_key(k) && exists|j: int|
                0 <= j < m[k].versions.len() && #[trigger] m[k].versions[j] == InstalledVersionView {
                    version_id: xs[i].version_id->0,
                    hash: Some(xs[i].hash),
                    enabled: xs[i].enabled,
                    source: InstallSource::Manual,
                }
        }),
    decreases xs.len(),
{
    let k = (xs[i].provider->0, xs[i].project_id->0);
    let want = InstalledVersionView {
        version_id: xs[i].version_id->0,
        hash: Some(xs[i].hash),
        enabled: xs[i].enabled,
        source: InstallSource::Manual,
    };
    let prev = content_fold(Map::empty(), xs.drop_last());
    let m = content_fold(Map::empty(), xs);
    if i == xs.len() - 1 {
        let base = if prev.contains_key(k) {
            prev[k]
        } else {
            fresh_manual()
        };
        assert(m[k].versions[base.versions.len() as int] == want);
    } else {
        assert(xs.drop_last()[i] == xs[i]);
        lemma_content_lists(xs.drop_last(), i);
        let j = choose|j: int| 0 <= j < prev[k].versions.len() && #[trigger] prev[k].versions[j] == want;
        assert(m[k].versions[j] == want);
    }
}

/// Some artifact of `xs` is linked from provider `k.0` under project id `k.1`.
pub open spec fn content_names(xs: Seq<LinkedArtifactView>, k: ProjectKey) -> bool {
    exists|j: int| 0 <= j < xs.len() && #[trigger] xs[j].provider == Some(k.0) && xs[j].project_id == Some(k.1)
}

/// `f` is a provider's file of project `k`.
pub open spec fn file_is_of(f: BundleFileView, k: ProjectKey) -> bool {
    f.kind matches FileKindView::Managed { provider, project_id, .. } && provider == k.0 && project_id == k.1
}

/// Some file of `fs` is a provider's file of project `k`.
pub open spec fn files_name(fs: Seq<BundleFileView>, k: ProjectKey) -> bool {
    exists|j: int| 0 <= j < fs.len() && file_is_of(#[trigger] fs[j], k)
}

/// Some bundle of `bs` ships a provider's file of project `k`.
pub open spec fn bundles_name(bs: Seq<BundleView>, k: ProjectKey) -> bool {
    exists|b: int| 0 <= b < bs.len() && files_name(#[trigger] bs[b].files, k)
}

proof fn lemma_content_keys(m: Map<ProjectKey, InstalledView>, xs: Seq<LinkedArtifactView>, k: ProjectKey)
    ensures
        content_fold(m, xs).contains_key(k) <==> m.contains_key(k) || content_names(xs, k),
    decreases xs.len(),
{
    if xs.len() > 0 {
        let init = xs.drop_last();
        lemma_content_keys(m, init, k);
        let x = xs.last();
        if content_names(xs, k) && !content_names(init, k) {
            let j = choose|j: int| 0 <= j < xs.len() && #[trigger] xs[j].provider == Some(k.0) && xs[j].project_id == Some(k.1);
            if j < init.len() {
                assert(init[j] == xs[j]);
            }
        }
        if content_names(init, k) {
            let j = choose|j: int| 0 <= j < init.len() && #[trigger] init[j].provider == Some(k.0) && init[j].project_id == Some(k.1);
            assert(xs[j] == init[j]);
        }
        if x.provider == Some(k.0) && x.project_id == Some(k.1) {
            assert(xs[xs.len() - 1] == x);
        }
    }
}

proof fn lemma_files_keys(m: Map<ProjectKey, InstalledView>, fs: Seq<BundleFileView>, k: ProjectKey)
    ensures
        files_fold(m, fs).contains_key(k) <==> m.contains_key(k) || files_name(fs, k),
    decreases fs.len(),
{
    if fs.len() > 0 {
        let init = fs.drop_last();
        lemma_files_keys(m, init, k);
        if files_name(fs, k) && !files_name(init, k) {
            let j = choose|j: int| 0 <= j < fs.len() && file_is_of(#[trigger] fs[j], k);
            if j < init.len() {
                assert(init[j] == fs[j]);
            }
        }
        if files_name(init, k) {
            let j = choose|j: int| 0 <= j < init.len() && file_is_of(#[trigger] init[j], k);
            assert(fs[j] == init[j]);
        }
        if file_is_of(fs.last(), k) {
            assert(fs[fs.len() - 1] == fs.last());
        }
    }
}

proof fn lemma_bundles_keys(m: Map<ProjectKey, InstalledView>, bs: Seq<BundleView>, k: ProjectKey)
    ensures
        bundles_fold(m, bs).contains_key(k) <==> m.contains_key(k) || bundles_name(bs, k),
    decreases bs.len(),
{
    if bs.len() > 0 {
        let init = bs.drop_last();
        lemma_bundles_keys(m, init, k);
        lemma_files_keys(bundles_fold(m, init), bs.last().files, k);
        if bundles_name(bs, k) && !bundles_name(init, k) {
            let b = choose|b: int| 0 <= b < bs.len() && files_name(#[trigger] bs[b].files, k);
            if b < init.len() {
                assert(init[b] == bs[b]);
            }
        }
        if bundles_name(init, k) {
            let b = choose|b: int| 0 <= b < init.len() && files_name(#[trigger] init[b].files, k);
            assert(bs[b] == init[b]);
        }
        if files_name(bs.last().files, k) {
            assert(bs[bs.len() - 1] == bs.last());
        }
    }
}

/// A project is in the installed map exactly when some artifact of the
/// content is linked to it or some bundle ships a provider's file of it;
/// artifacts without a provider or project id, and a bundle's own files, add
/// none.
pub proof fn law_installed_keys(content: Seq<LinkedArtifactView>, bundles: Seq<BundleView>, k: ProjectKey)
    ensures
        installed_model(content, bundles).contains_key(k) <==> content_names(content, k) || bundles_name(bundles, k),
{
    lemma_content_keys(Map::empty(), content, k);
    lemma_bundles_keys(content_fold(Map::empty(), content), bundles, k);
}

/// The version that the first provider's file of project `k` in `fs` pins.
pub open spec fn first_pin_in_files(fs: Seq<BundleFileView>, k: ProjectKey) -> Option<Seq<char>>
    decreases fs.len(),
{
    if fs.len() == 0 {
        None
    } else {
        match first_pin_in_files(fs.drop_last(), k) {
            Some(v) => Some(v),
            None => if file_is_of(fs.last(), k) {
                Some(fs.last().kind->version_id)
            } else {
                None
            },
        }
    }
}

/// The version that the first provider's file of project `k` pins, in
/// bundle order and then file order.
pub open spec fn first_pin(bs: Seq<BundleView>, k: ProjectKey) -> Option<Seq<char>>
    decreases bs.len(),
{
    if bs.len() == 0 {
        None
    } else {
        match first_pin(bs.drop_last(), k) {
            Some(v) => Some(v),
            None => first_pin_in_files(bs.last().files, k),
        }
    }
}

/// A project known only from a bundle's pin of version `v`.
pub open spec fn pinned(v: Seq<char>) -> InstalledView {
    InstalledView {
        source: InstallSource::Bundled,
        versions: seq![
            InstalledVersionView { version_id: v, hash: None, enabled: false, source: InstallSource::Bundled },
        ],
    }
}

proof fn lemma_step_keeps_pin(m: Map<ProjectKey, InstalledView>, f: BundleFileView, k: ProjectKey, v: Seq<char>)
    requires
        m.contains_key(k),
        m[k] == pinned(v),
    ensures
        bundle_step(m, f).contains_key(k),
        bundle_step(m, f)[k] == pinned(v),
{
    match f.kind {
        FileKindView::Managed { provider, project_id, version_id } => {
            if (provider, project_id) == k {
                let vs = m[k].versions;
                lemma_first_version_from(vs, version_id, 0);
                assert(mark_bundled(vs, version_id) =~= vs);
            }
        },
        FileKindView::External => {},
    }
}

proof fn lemma_files_pin(m: Map<ProjectKey, InstalledView>, fs: Seq<BundleFileView>, k: ProjectKey)
    ensures
        m.contains_key(k) ==> forall|v: Seq<char>|
            m[k] == #[trigger] pinned(v) ==> files_fold(m, fs).contains_key(k) && files_fold(m, fs)[k] == pinned(v),
        !m.contains_key(k) ==> match first_pin_in_files(fs, k) {
            Some(v) => files_fold(m, fs).contains_key(k) && files_fold(m, fs)[k] == pinned(v),
            None => !files_fold(m, fs).contains_key(k),
        },
    decreases fs.len(),
{
    if fs.len() > 0 {
        let init = fs.drop_last();
        let f = fs.last();
        lemma_files_pin(m, init, k);
        let prev = files_fold(m, init);
        if m.contains_key(k) {
            assert forall|v: Seq<char>| m[k] == #[trigger] pinned(v) implies files_fold(m, fs).contains_key(k)
                && files_fold(m, fs)[k] == pinned(v) by {
                lemma_step_keeps_pin(prev, f, k, v);
            }
        } else {
            match first_pin_in_files(init, k) {
                Some(v) => {
                    lemma_step_keeps_pin(prev, f, k, v);
                },
                None => {
                    if file_is_of(f, k) {
                        let vid = f.kind->version_id;
                        assert(bundle_step(prev, f)[k].versions =~= pinned(vid).versions);
                    }
                },
            }
        }
    }
}

proof fn lemma_bundles_pin(m: Map<ProjectKey, InstalledView>, bs: Seq<BundleView>, k: ProjectKey)
    requires
        !m.contains_key(k),
    ensures
        match first_pin(bs, k) {
            Some(v) => bundles_fold(m, bs).contains_key(k) && bundles_fold(m, bs)[k] == pinned(v),
            None => !bundles_fold(m, bs).contains_key(k),
        },
    decreases bs.len(),
{
    if bs.len() > 0 {
        let init = bs.drop_last();
        lemma_bundles_pin(m, init, k);
        let prev = bundles_fold(m, init);
        lemma_files_pin(prev, bs.last().files, k);
        match first_pin(init, k) {
            Some(v) => {
                assert(prev[k] == pinned(v));
            },
            None => {},
        }
    }
}

/// A project that no artifact of the content is linked to is listed, if a
/// bundle names it, with exactly one version: the pin of the first file
/// naming it, in bundle order and then file order, not linked and not
/// loaded.
pub proof fn law_only_pinned(content: Seq<LinkedArtifactView>, bundles: Seq<BundleView>, k: ProjectKey)
    requires
        !content_names(content, k),
    ensures
        match first_pin(bundles, k) {
            Some(v) => installed_model(content, bundles).contains_key(k) && installed_model(content, bundles)[k]
                == pinned(v),
            None => !installed_model(content, bundles).contains_key(k),
        },
{
    lemma_content_keys(Map::empty(), content, k);
    lemma_bundles_pin(content_fold(Map::empty(), content), bundles, k);
}

/// The versions the content links for project `k`, in content order, as
/// the content listing records them.
pub open spec fn linked_of(xs: Seq<LinkedArtifactView>, k: ProjectKey) -> Seq<InstalledVersionView>
    decreases xs.len(),
{
    if xs.len() == 0 {
        Seq::empty()
    } else {
        let before = linked_of(xs.drop_last(), k);
        let x = xs.last();
        if x.provider == Some(k.0) && x.project_id == Some(k.1) && x.version_id is Some {
            before.push(
                InstalledVersionView {
                    version_id: x.version_id->0,
                    hash: Some(x.hash),
                    enabled: x.enabled,
                    source: InstallSource::Manual,
                },
            )
        } else {
            before
        }
    }
}

/// The versions that provider's files of project `k` in `fs` pin.
pub open spec fn pins_in_files(fs: Seq<BundleFileView>, k: ProjectKey) -> Set<Seq<char>>
    decreases fs.len(),
{
    if fs.len() == 0 {
        Set::empty()
    } else if file_is_of(fs.last(), k) {
        pins_in_files(fs.drop_last(), k).insert(fs.last().kind->version_id)
    } else {
        pins_in_files(fs.drop_last(), k)
    }
}

/// The versions that the bundles' files of project `k` pin.
pub open spec fn pins(bs: Seq<BundleView>, k: ProjectKey) -> Set<Seq<char>>
    decreases bs.len(),
{
    if bs.len() == 0 {
        Set::empty()
    } else {
        pins(bs.drop_last(), k).union(pins_in_files(bs.last().files, k))
    }
}

/// No version before index `j` of `vs` has the id of `vs[j]`.
pub open spec fn first_of_id(vs: Seq<InstalledVersionView>, j: int) -> bool {
    forall|i: int| 0 <= i < j ==> vs[i].version_id != vs[j].version_id
}

/// `vs` lists the versions of `linked` in order, each marked as the
/// bundle's when its id is in `pinned` and no earlier version has that id.
pub open spec fn listed_as(vs: Seq<InstalledVersionView>, linked: Seq<InstalledVersionView>, pinned: Set<Seq<char>>) -> bool {
    &&& vs.len() == linked.len()
    &&& forall|j: int|
        0 <= j < vs.len() ==> (#[trigger] vs[j]).version_id == linked[j].version_id && vs[j].hash == linked[j].hash
            && vs[j].enabled == linked[j].enabled && (vs[j].source == InstallSource::Bundled <==> pinned.contains(
            linked[j].version_id,
        ) && first_of_id(linked, j))
}

proof fn lemma_content_linked(xs: Seq<LinkedArtifactView>, k: ProjectKey)
    ensures
        forall|j: int| 0 <= j < linked_of(xs, k).len() ==> (#[trigger] linked_of(xs, k)[j]).source
            == InstallSource::Manual,
        content_fold(Map::empty(), xs).contains_key(k) ==> content_fold(Map::empty(), xs)[k].source
            == InstallSource::Manual && content_fold(Map::empty(), xs)[k].versions == linked_of(xs, k),
        !content_fold(Map::empty(), xs).contains_key(k) ==> linked_of(xs, k).len() == 0,
    decreases xs.len(),
{
    if xs.len() > 0 {
        lemma_content_linked(xs.drop_last(), k);
    }
}

proof fn lemma_mark_listed(vs: Seq<InstalledVersionView>, linked: Seq<InstalledVersionView>, pinned: Set<Seq<char>>, v: Seq<char>)
    requires
        listed_as(vs, linked, pinned),
    ensures
        listed_as(mark_bundled(vs, v), linked, pinned.insert(v)),
{
    lemma_first_version_from(vs, v, 0);
    let out = mark_bundled(vs, v);
    assert forall|j: int| 0 <= j < out.len() implies (#[trigger] out[j]).version_id == linked[j].version_id
        && out[j].hash == linked[j].hash && out[j].enabled == linked[j].enabled && (out[j].source
        == InstallSource::Bundled <==> pinned.insert(v).contains(linked[j].version_id) && first_of_id(linked, j)) by {
        assert(vs[j].version_id == linked[j].version_id);
        match first_version_from(vs, v, 0) {
            Some(f) => {
                if linked[j].version_id == v {
                    if j == f {
                        assert forall|i: int| 0 <= i < j implies linked[i].version_id != linked[j].version_id by {
                            assert(vs[i].version_id == linked[i].version_id);
                        }
                    } else if j > f {
                        assert(vs[f].version_id == linked[f].version_id);
                        assert(!first_of_id(linked, j));
                    } else {
                        assert(vs[j].version_id != v);
                    }
                }
            },
            None => {
                if linked[j].version_id == v {
                    assert(vs[j].version_id != v);
                }
            },
        }
    }
}

proof fn lemma_files_listed(m: Map<ProjectKey, InstalledView>, fs: Seq<BundleFileView>, k: ProjectKey, linked: Seq<InstalledVersionView>, pinned: Set<Seq<char>>)
    requires
        m.contains_key(k),
        listed_as(m[k].versions, linked, pinned),
    ensures
        files_fold(m, fs).contains_key(k),
        listed_as(files_fold(m, fs)[k].versions, linked, pinned.union(pins_in_files(fs, k))),
        files_fold(m, fs)[k].source == (if files_name(fs, k) { InstallSource::Bundled } else { m[k].source }),
    decreases fs.len(),
{
    if fs.len() == 0 {
        assert(pinned.union(Set::empty()) =~= pinned);
    } else {
        let init = fs.drop_last();
        let f = fs.last();
        lemma_files_listed(m, init, k, linked, pinned);
        lemma_files_keys(m, init, k);
        let prev = files_fold(m, init);
        let p0 = pinned.union(pins_in_files(init, k));
        if file_is_of(f, k) {
            lemma_mark_listed(prev[k].versions, linked, p0, f.kind->version_id);
            assert(p0.insert(f.kind->version_id) =~= pinned.union(pins_in_files(fs, k)));
            assert(fs[fs.len() - 1] == f);
        } else {
            assert(pins_in_files(fs, k) == pins_in_files(init, k));
        }
        if files_name(fs, k) && !file_is_of(f, k) {
            let j = choose|j: int| 0 <= j < fs.len() && file_is_of(#[trigger] fs[j], k);
            assert(j < init.len());
            assert(init[j] == fs[j]);
        }
        if files_name(init, k) {
            let j = choose|j: int| 0 <= j < init.len() && file_is_of(#[trigger] init[j], k);
            assert(fs[j] == init[j]);
        }
    }
}

proof fn lemma_bundles_listed(m: Map<ProjectKey, InstalledView>, bs: Seq<BundleView>, k: ProjectKey, linked: Seq<InstalledVersionView>, pinned: Set<Seq<char>>)
    requires
        m.contains_key(k),
        listed_as(m[k].versions, linked, pinned),
    ensures
        bundles_fold(m, bs).contains_key(k),
        listed_as(bundles_fold(m, bs)[k].versions, linked, pinned.union(pins(bs, k))),
        bundles_fold(m, bs)[k].source == (if bundles_name(bs, k) { InstallSource::Bundled } else { m[k].source }),
    decreases bs.len(),
{
    if bs.len() == 0 {
        assert(pinned.union(Set::empty()) =~= pinned);
    } else {
        let init = bs.drop_last();
        lemma_bundles_listed(m, init, k, linked, pinned);
        let prev = bundles_fold(m, init);
        let p0 = pinned.union(pins(init, k));
        lemma_files_listed(prev, bs.last().files, k, linked, p0);
        assert(p0.union(pins_in_files(bs.last().files, k)) =~= pinned.union(pins(bs, k)));
        if bundles_name(bs, k) && !files_name(bs.last().files, k) {
            let b = choose|b: int| 0 <= b < bs.len() && files_name(#[trigger] bs[b].files, k);
            assert(b < init.len());
            assert(init[b] == bs[b]);
        }
        if bundles_name(init, k) {
            let b = choose|b: int| 0 <= b < init.len() && files_name(#[trigger] init[b].files, k);
            assert(bs[b] == init[b]);
        }
        if files_name(bs.last().files, k) {
            assert(bs[bs.len() - 1] == bs.last());
        }
    }
}

/// For a project that the content links, the versions listed are exactly
/// the linked ones, one per linked artifact with a recorded version, in
/// content order, with its artifact and whether the game loads it; a version
/// is marked as the bundle's when some bundle pins it (its first listing
/// only). The project is the bundle's when some bundle names it, else the
/// user's.
pub proof fn law_linked_versions_exact(content: Seq<LinkedArtifactView>, bundles: Seq<BundleView>, k: ProjectKey)
    requires
        content_names(content, k),
    ensures
        installed_model(content, bundles).contains_key(k),
        listed_as(installed_model(content, bundles)[k].versions, linked_of(content, k), pins(bundles, k)),
        installed_model(content, bundles)[k].source == (if bundles_name(bundles, k) {
            InstallSource::Bundled
        } else {
            InstallSource::Manual
        }),
{
    lemma_content_keys(Map::empty(), content, k);
    lemma_content_linked(content, k);
    let base = content_fold(Map::empty(), content);
    let l = linked_of(content, k);
    assert forall|j: int| 0 <= j < base[k].versions.len() implies (#[trigger] base[k].versions[j]).source
        != InstallSource::Bundled by {
        assert(l[j].source == InstallSource::Manual);
    }
    assert(listed_as(base[k].versions, l, Set::empty()));
    lemma_bundles_listed(base, bundles, k, l, Set::empty());
    assert(Set::<Seq<char>>::empty().union(pins(bundles, k)) =~= pins(bundles, k));
}

/// Every version of a project that is linked into the cluster is listed, with
/// the artifact the remove button needs and whether the game loads it; a
/// cluster can hold several versions of one project.
pub proof fn law_linked_versions_listed(
    content: Seq<LinkedArtifactView>,
    bundles: Seq<BundleView>,
    i: int,
)
    requires
        0 <= i < content.len(),
        content[i].provider is Some,
        content[i].project_id is Some,
        content[i].version_id is Some,
    ensures
        ({
            let k = (content[i].provider->0, content[i].project_id->0);
            let m = installed_model(content, bundles);
            m.contains_key(k) && exists|j: int|
                0 <= j < m[k].versions.len() && (#[trigger] m[k].versions[j]).version_id
                    == content[i].version_id->0 && m[k].versions[j].hash == Some(content[i].hash)
                    && m[k].versions[j].enabled == content[i].enabled
        }),
{
    let k = (content[i].provider->0, content[i].project_id->0);
    let base = content_fold(Map::empty(), content);
    lemma_content_lists(content, i);
    lemma_bundles_fold_keeps(base, bundles, k);
    let m = installed_model(content, bundles);
    let j = choose|j: int|
        0 <= j < base[k].versions.len() && #[trigger] base[k].versions[j] == InstalledVersionView {
            version_id: content[i].version_id->0,
            hash: Some(content[i].hash),
            enabled: content[i].enabled,
            source: InstallSource::Manual,
        };
    assert(m[k].versions[j].version_id == base[k].versions[j].version_id);
}

/// A bundle never adds its pin to a project that has linked content: the
/// versions listed are exactly those of the linked content, and only who put
/// them there can change.
pub proof fn law_pin_is_only_a_fallback(
    content: Seq<LinkedArtifactView>,
    bundles: Seq<BundleView>,
    k: ProjectKey,
)
    requires
        content_fold(Map::empty(), content).contains_key(k),
    ensures
        installed_model(content, bundles).contains_key(k),
        same_versions(
            content_fold(Map::empty(), content)[k].versions,
            installed_model(content, bundles)[k].versions,
        ),
{
    lemma_bundles_fold_keeps(content_fold(Map::empty(), content), bundles, k);
}

proof fn lemma_files_fold_claims(m: Map<ProjectKey, InstalledView>, fs: Seq<BundleFileView>, i: int)
    requires
        0 <= i < fs.len(),
        fs[i].kind is Managed,
    ensures
        ({
            let k = (fs[i].kind->Managed_provider, fs[i].kind->Managed_project_id);
            files_fold(m, fs).contains_key(k) && files_fold(m, fs)[k].source
                == InstallSource::Bundled
        }),
    decreases fs.len(),
{
    let k = (fs[i].kind->Managed_provider, fs[i].kind->Managed_project_id);
    let prev = files_fold(m, fs.drop_last());
    if i == fs.len() - 1 {
    } else {
        assert(fs.drop_last()[i] == fs[i]);
        lemma_files_fold_claims(m, fs.drop_last(), i);
        lemma_bundle_step_keeps(prev, fs.last(), k);
    }
}

proof fn lemma_bundles_fold_claims(m: Map<ProjectKey, InstalledView>, bs: Seq<BundleView>, b: int, i: int)
    requires
        0 <= b < bs.len(),
        0 <= i < bs[b].files.len(),
        bs[b].files[i].kind is Managed,
    ensures
        ({
            let f = bs[b].files[i];
            let k = (f.kind->Managed_provider, f.kind->Managed_project_id);
            bundles_fold(m, bs).contains_key(k) && bundles_fold(m, bs)[k].source
                == InstallSource::Bundled
        }),
    decreases bs.len(),
{
    let f = bs[b].files[i];
    let k = (f.kind->Managed_provider, f.kind->Managed_project_id);
    let prev = bundles_fold(m, bs.drop_last());
    if b == bs.len() - 1 {
        lemma_files_fold_claims(prev, bs.last().files, i);
    } else {
        assert(bs.drop_last()[b] == bs[b]);
        lemma_bundles_fold_claims(m, bs.drop_last(), b, i);
        lemma_files_fold_keeps(prev, bs.last().files, k);
    }
}

/// A project that any bundle of the cluster names is marked as the bundle's,
/// even when the user also installed it by hand.
pub proof fn law_bundle_owns_its_projects(
    content: Seq<LinkedArtifactView>,
    bundles: Seq<BundleView>,
    b: int,
    i: int,
)
    requires
        0 <= b < bundles.len(),
        0 <= i < bundles[b].files.len(),
        bundles[b].files[i].kind is Managed,
    ensures
        ({
            let f = bundles[b].files[i];
            let k = (f.kind->Managed_provider, f.kind->Managed_project_id);
            installed_model(content, bundles).contains_key(k) && installed_model(
                content,
                bundles,
            )[k].source == InstallSource::Bundled
        }),
{
    lemma_bundles_fold_claims(content_fold(Map::empty(), content), bundles, b, i);
}

proof fn lemma_linked_count_zero(vs: Seq<InstalledVersionView>)
    requires
        all_unlinked(vs),
    ensures
        linked_count(vs) == 0,
    decreases vs.len(),
{
    if vs.len() > 0 {
        assert forall|j: int| 0 <= j < vs.drop_last().len() implies (#[trigger] vs.drop_last()[j]).hash
            is None by {
            assert(vs.drop_last()[j] == vs[j]);
        }
        lemma_linked_count_zero(vs.drop_last());
        assert(vs[vs.len() - 1].hash is None);
    }
}

/// A project that only bundles name, with nothing linked, has no linked copy:
/// one pin and nothing linked is never reported as a duplicate.
pub proof fn law_unlinked_pin_is_not_a_copy(
    content: Seq<LinkedArtifactView>,
    bundles: Seq<BundleView>,
    k: ProjectKey,
)
    requires
        !content_fold(Map::empty(), content).contains_key(k),
        installed_model(content, bundles).contains_key(k),
    ensures
        linked_count(installed_model(content, bundles)[k].versions) == 0,
{
    lemma_bundles_fold_keeps(content_fold(Map::empty(), content), bundles, k);
    lemma_linked_count_zero(installed_model(content, bundles)[k].versions);
}

} // verus!
