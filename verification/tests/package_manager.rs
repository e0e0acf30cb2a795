use oneclient_app::domain::{
    Bundle, BundleFile, ContentType, FileKind, LinkedArtifact, PackageMeta, ProviderId,
};
use oneclient_app::packages::{
    build_tabs, bundle_categories, bundle_packages, content_kind, filters_active, matches_query,
    provider_project_ids, shown_tab_index, sort_mode_for, visible_packages, ContentKind,
    EnabledFilter, PackageEntry, SortMode, Tab,
};

fn entry(name: &str, provider: ProviderId, categories: &[&str]) -> PackageEntry {
    PackageEntry {
        package_id: name.to_string(),
        bundle_name: (!categories.is_empty()).then(|| "bundle".to_string()),
        provider,
        name: name.to_string(),
        file_name: format!("{}.jar", name.to_lowercase()),
        author: String::new(),
        description: String::new(),
        icon_url: None,
        size: 0,
        categories: categories.iter().map(|c| (*c).to_string()).collect(),
        enabled: true,
        manifest_default: true,
        installed: true,
        hash: None,
    }
}

fn items() -> Vec<PackageEntry> {
    vec![
        entry("Sodium", ProviderId::Modrinth, &["Performance"]),
        entry("Sodium Extra", ProviderId::Modrinth, &["Visuals"]),
        entry("Sodium Local", ProviderId::Local, &[]),
    ]
}

fn names(rows: &[PackageEntry]) -> Vec<&str> {
    rows.iter().map(|p| p.name.as_str()).collect()
}

#[test]
fn search_stays_inside_the_active_category() {
    let items = items();
    let tab = Tab::Category("Performance".to_string());
    let rows = visible_packages(&items, Some(&tab), "sodium", EnabledFilter::All);
    assert_eq!(names(&rows), ["Sodium"]);
}

#[test]
fn search_stays_inside_the_local_tab() {
    let items = items();
    let rows = visible_packages(&items, Some(&Tab::Local), "sodium", EnabledFilter::All);
    assert_eq!(names(&rows), ["Sodium Local"]);
}

#[test]
fn all_tab_searches_every_package() {
    let items = items();
    let rows = visible_packages(&items, Some(&Tab::All), "sodium", EnabledFilter::All);
    assert_eq!(names(&rows), ["Sodium", "Sodium Extra", "Sodium Local"]);
}

#[test]
fn empty_query_keeps_the_whole_tab() {
    let items = items();
    let tab = Tab::Category("Visuals".to_string());
    let rows = visible_packages(&items, Some(&tab), "", EnabledFilter::All);
    assert_eq!(names(&rows), ["Sodium Extra"]);
}

#[test]
fn browser_tab_holds_provider_content_outside_bundles() {
    let mut items = items();
    items.push(entry("Iris", ProviderId::Modrinth, &[]));
    let rows = visible_packages(&items, Some(&Tab::Browser), "", EnabledFilter::All);
    assert_eq!(names(&rows), ["Iris"]);
}

#[test]
fn the_enabled_filter_applies_after_the_tab() {
    let mut items = items();
    items[1].enabled = false;
    let rows = visible_packages(&items, None, "", EnabledFilter::Disabled);
    assert_eq!(names(&rows), ["Sodium Extra"]);
    let rows = visible_packages(&items, None, "", EnabledFilter::Enabled);
    assert_eq!(names(&rows), ["Sodium", "Sodium Local"]);
}

#[test]
fn a_query_also_matches_the_file_name() {
    let mut p = entry("Pretty Name", ProviderId::Modrinth, &[]);
    p.file_name = "ugly-file.jar".to_string();
    assert!(matches_query(&p, "ugly"));
    assert!(matches_query(&p, "pretty"));
    assert!(!matches_query(&p, "nothing"));
    assert!(matches_query(&p, ""));
}

#[test]
fn tab_labels() {
    assert_eq!(Tab::All.label(), "All");
    assert_eq!(Tab::Browser.label(), "Browser");
    assert_eq!(Tab::Local.label(), "Local");
    assert_eq!(Tab::Category("Visuals".to_string()).label(), "Visuals");
}

#[test]
fn empty_category_tabs_are_hidden() {
    let items = items();
    let tabs = build_tabs(
        &["Performance".to_string(), "Empty".to_string()],
        &items,
    );
    let labels: Vec<String> = tabs.iter().map(|t| t.label()).collect();
    assert_eq!(labels, ["All", "Performance", "Visuals", "Browser", "Local"]);
}

fn bundle(name: &str, category: &str, files: Vec<BundleFile>) -> Bundle {
    Bundle {
        name: name.to_string(),
        category: category.to_string(),
        enabled: true,
        files,
    }
}

fn managed(project_id: &str, hidden: bool) -> BundleFile {
    BundleFile {
        enabled: true,
        hidden,
        size: 10,
        content_type: ContentType::Mod,
        kind: FileKind::Managed {
            provider: ProviderId::Modrinth,
            project_id: project_id.to_string(),
            version_id: "v1".to_string(),
        },
        effective_enabled: false,
        package_id: project_id.to_string(),
        display_name: format!("{project_id}-1.0.jar"),
    }
}

#[test]
fn categories_are_listed_once_in_bundle_order() {
    let bundles = vec![
        bundle("a", "Performance", vec![]),
        bundle("b", "", vec![]),
        bundle("c", "Visuals", vec![]),
        bundle("d", "Performance", vec![]),
    ];
    assert_eq!(bundle_categories(&bundles), ["Performance", "Visuals"]);
}

fn artifact(project_id: Option<&str>, hash: &str, enabled: bool) -> LinkedArtifact {
    LinkedArtifact {
        hash: hash.to_string(),
        enabled,
        content_type: ContentType::Mod,
        file_name: format!("{hash}.jar"),
        project_id: project_id.map(Into::into),
        version_id: None,
        display_name: None,
        display_version: Some("2.0".to_string()),
        provider: project_id.map(|_| ProviderId::Modrinth),
    }
}

#[test]
fn bundle_rows_come_first_and_once() {
    let bundles = vec![
        bundle("perf", "Performance", vec![managed("sodium", false), managed("lithium", true)]),
        bundle("again", "Visuals", vec![managed("sodium", false)]),
    ];
    let content = vec![
        artifact(Some("sodium"), "h1", true),
        artifact(None, "local-hash", true),
    ];
    let metas = vec![PackageMeta {
        provider: ProviderId::Modrinth,
        project_id: "sodium".to_string(),
        name: "Sodium".to_string(),
        author: "jellysquid".to_string(),
        summary: String::new(),
        icon_url: None,
    }];
    let rows = bundle_packages(content, &bundles, &metas, ContentType::Mod);
    let ids: Vec<&str> = rows.iter().map(|r| r.package_id.as_str()).collect();
    assert_eq!(ids, ["sodium", "lithium", "local-hash"]);

    let sodium = &rows[0];
    assert_eq!(sodium.name, "Sodium");
    assert_eq!(sodium.author, "jellysquid");
    assert_eq!(sodium.description, "Version 2.0");
    assert_eq!(sodium.bundle_name.as_deref(), Some("perf"));
    assert_eq!(sodium.categories, ["Performance"]);
    assert!(sodium.installed && sodium.enabled);
    assert_eq!(sodium.file_name, "h1.jar");

    let lithium = &rows[1];
    assert_eq!(lithium.name, "lithium-1.0.jar");
    assert!(lithium.categories.is_empty(), "a hidden file gets no category");
    assert!(!lithium.installed);
    assert!(!lithium.enabled, "the manifest default with its override applies");

    let local = &rows[2];
    assert_eq!(local.provider, ProviderId::Local);
    assert_eq!(local.bundle_name, None);
    assert_eq!(local.name, "local-hash.jar");
}

#[test]
fn other_content_types_are_skipped() {
    let mut shader = managed("complementary", false);
    shader.content_type = ContentType::ShaderPack;
    let bundles = vec![bundle("perf", "", vec![shader])];
    let rows = bundle_packages(Vec::new(), &bundles, &[], ContentType::Mod);
    assert!(rows.is_empty());
}

fn sized(name: &str, provider: ProviderId, size: u64) -> PackageEntry {
    let mut p = entry(name, provider, &[]);
    p.size = size;
    p
}

#[test]
fn sort_keys_round_trip() {
    for mode in [SortMode::NameAsc, SortMode::NameDesc, SortMode::SizeAsc, SortMode::SizeDesc] {
        assert_eq!(SortMode::from_key(mode.key()), Some(mode));
    }
    assert_eq!(SortMode::from_key("bogus"), None);
    assert_eq!(SortMode::NameAsc.label(), "Name (A-Z)");
    assert_eq!(SortMode::SizeDesc.label(), "Size (Largest)");
}

#[test]
fn sorting_by_name_ignores_case_and_is_stable() {
    let mut rows = vec![
        sized("beta", ProviderId::Modrinth, 1),
        sized("Alpha", ProviderId::Modrinth, 2),
        sized("BETA", ProviderId::Modrinth, 3),
    ];
    SortMode::NameAsc.sort(&mut rows);
    assert_eq!(names(&rows), ["Alpha", "beta", "BETA"]);
    SortMode::NameDesc.sort(&mut rows);
    assert_eq!(names(&rows), ["beta", "BETA", "Alpha"]);
}

#[test]
fn local_files_sort_by_file_name() {
    let mut a = sized("Zed", ProviderId::Local, 1);
    a.file_name = "aaa.jar".to_string();
    let b = sized("Abc", ProviderId::Modrinth, 1);
    let mut rows = vec![b, a];
    SortMode::NameAsc.sort(&mut rows);
    assert_eq!(names(&rows), ["Zed", "Abc"]);
}

#[test]
fn sorting_by_size() {
    let mut rows = vec![
        sized("a", ProviderId::Modrinth, 5),
        sized("b", ProviderId::Modrinth, 1),
        sized("c", ProviderId::Modrinth, 5),
    ];
    SortMode::SizeAsc.sort(&mut rows);
    assert_eq!(names(&rows), ["b", "a", "c"]);
    SortMode::SizeDesc.sort(&mut rows);
    assert_eq!(names(&rows), ["a", "c", "b"]);
}

#[test]
fn provider_ids_come_from_bundles_then_content() {
    let mut other = managed("iris", false);
    other.kind = FileKind::Managed {
        provider: ProviderId::CurseForge,
        project_id: "iris".to_string(),
        version_id: "v".to_string(),
    };
    let bundles = vec![bundle("perf", "", vec![managed("sodium", false), other])];
    let content = vec![artifact(Some("lithium"), "h", true), artifact(None, "x", true)];
    let ids = provider_project_ids(&content, &bundles, ContentType::Mod, ProviderId::Modrinth);
    assert_eq!(ids, ["sodium", "lithium"]);
    let ids = provider_project_ids(&content, &bundles, ContentType::Mod, ProviderId::CurseForge);
    assert_eq!(ids, ["iris"]);
}

#[test]
fn saved_sort_modes_and_the_filter_light() {
    assert_eq!(sort_mode_for(Some("size_desc")), SortMode::SizeDesc);
    assert_eq!(sort_mode_for(Some("bogus")), SortMode::NameAsc);
    assert_eq!(sort_mode_for(None), SortMode::NameAsc);
    assert!(!filters_active(SortMode::NameAsc, EnabledFilter::All));
    assert!(filters_active(SortMode::NameDesc, EnabledFilter::All));
    assert!(filters_active(SortMode::NameAsc, EnabledFilter::Disabled));
    assert_eq!(shown_tab_index(7, 3), 2);
    assert_eq!(shown_tab_index(1, 3), 1);
    assert_eq!(shown_tab_index(4, 0), 0);
}

#[test]
fn what_an_empty_list_says() {
    let cat = Tab::Category("Performance".to_string());
    match content_kind(true, "sod", Some(&cat)) {
        ContentKind::NoMatches { scope } => assert_eq!(scope.as_deref(), Some("Performance")),
        _ => panic!("a search that found nothing"),
    }
    assert!(matches!(
        content_kind(true, "sod", Some(&Tab::All)),
        ContentKind::NoMatches { scope: None }
    ));
    assert!(matches!(content_kind(true, "", Some(&Tab::Browser)), ContentKind::Browser));
    assert!(matches!(content_kind(false, "x", Some(&Tab::Local)), ContentKind::Local));
    assert!(matches!(content_kind(true, "", None), ContentKind::Other));
}
