use oneclient_app::domain::{
    Bundle, BundleFile, ContentType, FileKind, LinkedArtifact, ProviderId,
};
use oneclient_app::installed::{installed_map, InstallSource, Installed, InstalledMap};

fn linked(project_id: &str, version_id: Option<&str>, hash: &str) -> LinkedArtifact {
    disabled_linked(project_id, version_id, hash, true)
}

fn disabled_linked(
    project_id: &str,
    version_id: Option<&str>,
    hash: &str,
    enabled: bool,
) -> LinkedArtifact {
    LinkedArtifact {
        hash: hash.to_string(),
        enabled,
        content_type: ContentType::Mod,
        file_name: format!("{hash}.jar"),
        project_id: Some(project_id.to_string()),
        version_id: version_id.map(Into::into),
        display_name: None,
        display_version: None,
        provider: Some(ProviderId::Modrinth),
    }
}

fn managed(project_id: &str, version_id: &str) -> BundleFile {
    BundleFile {
        enabled: true,
        hidden: false,
        size: 1,
        content_type: ContentType::Mod,
        kind: FileKind::Managed {
            provider: ProviderId::Modrinth,
            project_id: project_id.to_string(),
            version_id: version_id.to_string(),
        },
        effective_enabled: true,
        package_id: project_id.to_string(),
        display_name: format!("{project_id}.jar"),
    }
}

fn bundles(files: Vec<BundleFile>) -> Vec<Bundle> {
    vec![Bundle {
        name: "performance".to_string(),
        category: String::new(),
        enabled: true,
        files,
    }]
}

fn entry<'a>(map: &'a InstalledMap, project: &str) -> &'a Installed {
    map.get(ProviderId::Modrinth, project)
        .expect("project missing from the map")
}

#[test]
fn every_installed_version_of_one_project_is_listed() {
    let map = installed_map(
        vec![
            linked("sodium", Some("v1"), "hash-1"),
            linked("sodium", Some("v2"), "hash-2"),
        ],
        &[],
    );

    let sodium = entry(&map, "sodium");
    assert!(sodium.is_version("v1"), "the older version is still in there");
    assert!(sodium.is_version("v2"));
    assert_eq!(
        sodium.find_version("v2").and_then(|v| v.hash.clone()),
        Some("hash-2".to_string()),
        "each version carries the artifact the remove button needs"
    );
}

#[test]
fn a_bundle_marks_only_the_version_it_ships() {
    let map = installed_map(
        vec![
            linked("sodium", Some("v1"), "hash-1"),
            linked("sodium", Some("v2"), "hash-2"),
        ],
        &bundles(vec![managed("sodium", "v1")]),
    );

    let sodium = entry(&map, "sodium");
    assert_eq!(sodium.source, InstallSource::Bundled, "the bundle owns the project");
    assert_eq!(
        sodium.find_version("v1").map(|v| v.source),
        Some(InstallSource::Bundled)
    );
    assert_eq!(
        sodium.find_version("v2").map(|v| v.source),
        Some(InstallSource::Manual),
        "a version the user added themselves does not become the bundle's"
    );
}

#[test]
fn an_unlinked_bundle_pin_is_the_fallback() {
    let map = installed_map(Vec::new(), &bundles(vec![managed("sodium", "v1")]));

    let sodium = entry(&map, "sodium");
    assert_eq!(sodium.source, InstallSource::Bundled);
    assert_eq!(
        sodium.find_version("v1").map(|v| v.hash.clone()),
        Some(None),
        "nothing is linked, so there is no artifact to remove"
    );
}

#[test]
fn a_bundle_pin_is_not_listed_beside_a_linked_version() {
    let map = installed_map(
        vec![linked("sodium", Some("v2"), "hash-2")],
        &bundles(vec![managed("sodium", "v1")]),
    );

    let sodium = entry(&map, "sodium");
    assert!(
        !sodium.is_version("v1"),
        "a pin the cluster never downloaded is not installed"
    );
    assert_eq!(sodium.versions.len(), 1);
}

#[test]
fn a_single_copy_is_not_a_duplicate() {
    let map = installed_map(vec![linked("sodium", Some("v1"), "hash-1")], &[]);

    assert!(!entry(&map, "sodium").is_duplicated());
}

#[test]
fn an_unlinked_bundle_pin_is_not_a_second_copy() {
    let map = installed_map(Vec::new(), &bundles(vec![managed("sodium", "v1")]));

    assert!(
        !entry(&map, "sodium").is_duplicated(),
        "one pin and nothing linked is not two of anything"
    );
}

#[test]
fn each_copy_reports_whether_the_game_loads_it() {
    let map = installed_map(
        vec![
            disabled_linked("sodium", Some("v1"), "hash-1", false),
            linked("sodium", Some("v2"), "hash-2"),
        ],
        &[],
    );

    let sodium = entry(&map, "sodium");
    assert!(sodium.is_duplicated());
    assert_eq!(sodium.find_version("v1").map(|v| v.enabled), Some(false));
    assert_eq!(sodium.find_version("v2").map(|v| v.enabled), Some(true));
}

#[test]
fn an_artifact_with_no_recorded_version_still_marks_the_project() {
    let map = installed_map(vec![linked("sodium", None, "hash-1")], &[]);

    let sodium = entry(&map, "sodium");
    assert!(
        sodium.versions.is_empty(),
        "there is no version to tie to a row in the list"
    );
    assert_eq!(sodium.source, InstallSource::Manual);
}

#[test]
fn an_artifact_without_a_project_id_is_left_out() {
    let mut local = linked("x", Some("v1"), "hash-1");
    local.project_id = None;
    let map = installed_map(vec![local], &[]);
    assert_eq!(map.len(), 0);
}

#[test]
fn projects_are_kept_apart_by_provider() {
    let mut other = linked("sodium", Some("v9"), "hash-9");
    other.provider = Some(ProviderId::CurseForge);
    let map = installed_map(vec![linked("sodium", Some("v1"), "hash-1"), other], &[]);
    assert_eq!(map.len(), 2);
    assert!(map.get(ProviderId::CurseForge, "sodium").unwrap().is_version("v9"));
    assert!(!map.get(ProviderId::Modrinth, "sodium").unwrap().is_version("v9"));
}

#[test]
fn install_badges_read_as_their_source() {
    assert_eq!(InstallSource::Manual.label(), "Installed");
    assert_eq!(InstallSource::Bundled.label(), "Bundled");
}
