//! The launcher's records as the views read them: providers, loaders, linked
//! artifacts and bundle files, held as plain values.
use vstd::prelude::*;

verus! {

/// Where a package comes from.
#[derive(Clone, Copy, PartialEq, Eq, Debug, Structural)]
pub enum ProviderId {
    Modrinth,
    CurseForge,
    Local,
}

impl ProviderId {
    /// The providers that are searched over the network.
    pub open spec fn spec_is_remote(self) -> bool {
        self != ProviderId::Local
    }

    /// Modrinth and CurseForge are remote; a local file is not.
    #[verifier::when_used_as_spec(spec_is_remote)]
    pub fn is_remote(self) -> (r: bool)
        ensures
            r == self.spec_is_remote(),
    {
        match self {
            ProviderId::Local => false,
            _ => true,
        }
    }

    /// The number a provider is stored under.
    pub open spec fn spec_repr(self) -> u8 {
        match self {
            ProviderId::Modrinth => 0,
            ProviderId::CurseForge => 1,
            ProviderId::Local => 2,
        }
    }

    #[verifier::when_used_as_spec(spec_repr)]
    pub fn repr(self) -> (r: u8)
        ensures
            r == self.spec_repr(),
    {
        match self {
            ProviderId::Modrinth => 0,
            ProviderId::CurseForge => 1,
            ProviderId::Local => 2,
        }
    }

    /// The provider stored under `n`, if any.
    pub open spec fn spec_from_repr(n: u8) -> Option<ProviderId> {
        if n == 0 {
            Some(ProviderId::Modrinth)
        } else if n == 1 {
            Some(ProviderId::CurseForge)
        } else if n == 2 {
            Some(ProviderId::Local)
        } else {
            None
        }
    }

    #[verifier::when_used_as_spec(spec_from_repr)]
    pub fn from_repr(n: u8) -> (r: Option<ProviderId>)
        ensures
            r == Self::spec_from_repr(n),
    {
        if n == 0 {
            Some(ProviderId::Modrinth)
        } else if n == 1 {
            Some(ProviderId::CurseForge)
        } else if n == 2 {
            Some(ProviderId::Local)
        } else {
            None
        }
    }
}

/// The kind of content a package is.
#[derive(Clone, Copy, PartialEq, Eq, Debug, Structural)]
pub enum ContentType {
    Mod,
    ResourcePack,
    ShaderPack,
    DataPack,
}

/// A mod loader a game version can run with.
#[derive(Clone, Copy, PartialEq, Eq, Debug, Structural)]
pub enum GameLoader {
    Vanilla,
    Fabric,
    Forge,
    NeoForge,
    Quilt,
    Ornithe,
}

impl GameLoader {
    pub open spec fn spec_label(self) -> Seq<char> {
        match self {
            GameLoader::Vanilla => "Vanilla"@,
            GameLoader::Fabric => "Fabric"@,
            GameLoader::Forge => "Forge"@,
            GameLoader::NeoForge => "NeoForge"@,
            GameLoader::Quilt => "Quilt"@,
            GameLoader::Ornithe => "Ornithe"@,
        }
    }

    /// The loader's name as it is shown.
    pub fn label(self) -> (r: &'static str)
        ensures
            r@ == self.spec_label(),
    {
        match self {
            GameLoader::Vanilla => "Vanilla",
            GameLoader::Fabric => "Fabric",
            GameLoader::Forge => "Forge",
            GameLoader::NeoForge => "NeoForge",
            GameLoader::Quilt => "Quilt",
            GameLoader::Ornithe => "Ornithe",
        }
    }
}

pub open spec fn opt_view(o: Option<String>) -> Option<Seq<char>> {
    match o {
        Some(s) => Some(s@),
        None => None,
    }
}

/// A copy of an optional string.
pub fn copy_opt(o: &Option<String>) -> (r: Option<String>)
    ensures
        opt_view(r) == opt_view(*o),
{
    match o {
        Some(s) => Some(s.clone()),
        None => None,
    }
}

/// A file linked into a cluster, as its content listing reports it.
pub struct LinkedArtifact {
    pub hash: String,
    pub enabled: bool,
    pub content_type: ContentType,
    pub file_name: String,
    pub project_id: Option<String>,
    pub version_id: Option<String>,
    pub display_name: Option<String>,
    pub display_version: Option<String>,
    pub provider: Option<ProviderId>,
}

pub struct LinkedArtifactView {
    pub hash: Seq<char>,
    pub enabled: bool,
    pub content_type: ContentType,
    pub file_name: Seq<char>,
    pub project_id: Option<Seq<char>>,
    pub version_id: Option<Seq<char>>,
    pub display_name: Option<Seq<char>>,
    pub display_version: Option<Seq<char>>,
    pub provider: Option<ProviderId>,
}

impl View for LinkedArtifact {
    type V = LinkedArtifactView;

    open spec fn view(&self) -> LinkedArtifactView {
        LinkedArtifactView {
            hash: self.hash@,
            enabled: self.enabled,
            content_type: self.content_type,
            file_name: self.file_name@,
            project_id: opt_view(self.project_id),
            version_id: opt_view(self.version_id),
            display_name: opt_view(self.display_name),
            display_version: opt_view(self.display_version),
            provider: self.provider,
        }
    }
}

/// How a bundle names one of its files.
pub enum FileKind {
    /// A file fetched from a provider.
    Managed { provider: ProviderId, project_id: String, version_id: String },
    /// A file shipped inside the bundle itself.
    External,
}

pub enum FileKindView {
    Managed { provider: ProviderId, project_id: Seq<char>, version_id: Seq<char> },
    External,
}

impl View for FileKind {
    type V = FileKindView;

    open spec fn view(&self) -> FileKindView {
        match self {
            FileKind::Managed { provider, project_id, version_id } => FileKindView::Managed {
                provider: *provider,
                project_id: project_id@,
                version_id: version_id@,
            },
            FileKind::External => FileKindView::External,
        }
    }
}

/// A file listed in a bundle's manifest, with the identifiers the launcher
/// derives for it.
pub struct BundleFile {
    pub enabled: bool,
    pub hidden: bool,
    pub size: u64,
    pub content_type: ContentType,
    pub kind: FileKind,
    /// Whether the file is enabled once the user's override for it, if any,
    /// is applied to the manifest default.
    pub effective_enabled: bool,
    /// The key the package is tracked by (the project id of a managed file).
    pub package_id: String,
    /// The name the file is shown under when nothing better is known.
    pub display_name: String,
}

pub struct BundleFileView {
    pub enabled: bool,
    pub hidden: bool,
    pub size: u64,
    pub content_type: ContentType,
    pub kind: FileKindView,
    pub effective_enabled: bool,
    pub package_id: Seq<char>,
    pub display_name: Seq<char>,
}

impl View for BundleFile {
    type V = BundleFileView;

    open spec fn view(&self) -> BundleFileView {
        BundleFileView {
            enabled: self.enabled,
            hidden: self.hidden,
            size: self.size,
            content_type: self.content_type,
            kind: self.kind@,
            effective_enabled: self.effective_enabled,
            package_id: self.package_id@,
            display_name: self.display_name@,
        }
    }
}

impl BundleFileView {
    /// The provider a file comes from; a bundle's own files are local.
    pub open spec fn provider(self) -> ProviderId {
        match self.kind {
            FileKindView::Managed { provider, .. } => provider,
            FileKindView::External => ProviderId::Local,
        }
    }
}

pub open spec fn files_view(fs: Seq<BundleFile>) -> Seq<BundleFileView> {
    fs.map_values(|f: BundleFile| f@)
}

/// A bundle: a named, curated set of package files.
pub struct Bundle {
    pub name: String,
    pub category: String,
    /// Whether the bundle is taken by default.
    pub enabled: bool,
    pub files: Vec<BundleFile>,
}

pub struct BundleView {
    pub name: Seq<char>,
    pub category: Seq<char>,
    pub enabled: bool,
    pub files: Seq<BundleFileView>,
}

impl View for Bundle {
    type V = BundleView;

    open spec fn view(&self) -> BundleView {
        BundleView {
            name: self.name@,
            category: self.category@,
            enabled: self.enabled,
            files: files_view(self.files@),
        }
    }
}

pub open spec fn bundles_view(bs: Seq<Bundle>) -> Seq<BundleView> {
    bs.map_values(|b: Bundle| b@)
}

pub open spec fn artifacts_view(xs: Seq<LinkedArtifact>) -> Seq<LinkedArtifactView> {
    xs.map_values(|x: LinkedArtifact| x@)
}


pub open spec fn strings_view(v: Seq<String>) -> Seq<Seq<char>> {
    v.map_values(|s: String| s@)
}

pub proof fn lemma_strings_view_push(s: Seq<String>, x: String)
    ensures
        strings_view(s.push(x)) == strings_view(s).push(x@),
{
    assert(strings_view(s.push(x)) =~= strings_view(s).push(x@));
}

/// A copy of a list of strings.
pub fn copy_strings(v: &Vec<String>) -> (r: Vec<String>)
    ensures
        strings_view(r@) == strings_view(v@),
{
    let mut r: Vec<String> = Vec::new();
    let mut i: usize = 0;
    while i < v.len()
        invariant
            i <= v@.len(),
            strings_view(r@) == strings_view(v@).subrange(0, i as int),
        decreases v@.len() - i,
    {
        let c = v[i].clone();
        let ghost before = r@;
        r.push(c);
        proof {
            lemma_strings_view_push(before, c);
            assert(strings_view(v@).subrange(0, i + 1) =~= strings_view(v@).subrange(0, i as int).push(
                v@[i as int]@,
            ));
        }
        i = i + 1;
    }
    assert(strings_view(v@).subrange(0, i as int) =~= strings_view(v@));
    r
}

/// Whether `v` holds a string with the characters of `s`.
pub fn strings_contain(v: &Vec<String>, s: &str) -> (r: bool)
    ensures
        r == strings_view(v@).contains(s@),
{
    let mut i: usize = 0;
    while i < v.len()
        invariant
            i <= v@.len(),
            forall|j: int| 0 <= j < i ==> strings_view(v@)[j] != s@,
        decreases v@.len() - i,
    {
        assert(strings_view(v@)[i as int] == v@[i as int]@);
        if crate::text::str_eq(v[i].as_str(), s) {
            return true;
        }
        i = i + 1;
    }
    false
}


/// What a provider reports about a project.
pub struct PackageMeta {
    pub provider: ProviderId,
    pub project_id: String,
    pub name: String,
    pub author: String,
    pub summary: String,
    pub icon_url: Option<String>,
}

pub struct PackageMetaView {
    pub provider: ProviderId,
    pub project_id: Seq<char>,
    pub name: Seq<char>,
    pub author: Seq<char>,
    pub summary: Seq<char>,
    pub icon_url: Option<Seq<char>>,
}

impl View for PackageMeta {
    type V = PackageMetaView;

    open spec fn view(&self) -> PackageMetaView {
        PackageMetaView {
            provider: self.provider,
            project_id: self.project_id@,
            name: self.name@,
            author: self.author@,
            summary: self.summary@,
            icon_url: opt_view(self.icon_url),
        }
    }
}

pub open spec fn metas_view(xs: Seq<PackageMeta>) -> Seq<PackageMetaView> {
    xs.map_values(|x: PackageMeta| x@)
}

} // verus!
