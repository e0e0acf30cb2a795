use oneclient_app::browse::{
    about_body, browsable_type, browse_installed, browse_slugs, cluster_choice_label, decode_package_id,
    encode_package_id, installed_source, live_pages, page_for_signature, parse_u8, search_signature,
    picked_cluster_label, pill_texts, release_letter, results_summary, search_filters,
    shown_pages, shown_tab, sort_at, sort_label, supports_datapacks, type_title, version_action,
    version_filters, version_pager, version_pages, version_stats, BrowseTarget, PackageBody,
    ReleaseType, SearchSort, VersionAction,
};
use oneclient_app::domain::{GameLoader, ProviderId};
use oneclient_app::installed::{installed_map, InstallSource, InstalledVersion};
use oneclient_app::package_page::{
    authors, card_byline, card_control, install_button, install_step, install_world,
    no_world_text, provider_project_url, toggle_category, world_install, Author, CardControl,
    InstallStep, ProjectLink,
};
use oneclient_app::domain::{ContentType, LinkedArtifact};
use oneclient_app::gallery::{open_at, step, viewer_header};

fn linked(project: &str, version: &str) -> LinkedArtifact {
    LinkedArtifact {
        hash: format!("h-{version}"),
        enabled: true,
        content_type: ContentType::Mod,
        file_name: format!("{project}.jar"),
        project_id: Some(project.to_string()),
        version_id: Some(version.to_string()),
        display_name: None,
        display_version: None,
        provider: Some(ProviderId::Modrinth),
    }
}

#[test]
fn data_packs_need_a_version_that_takes_them() {
    assert!(supports_datapacks(None));
    assert!(supports_datapacks(Some(13)));
    assert!(!supports_datapacks(Some(12)));
    assert_eq!(browsable_type("datapack", Some(8)), "mod");
    assert_eq!(browsable_type("datapack", Some(20)), "datapack");
    assert_eq!(browsable_type("shader", Some(8)), "shader");
    assert_eq!(browse_slugs(false), vec!["mod", "texture", "shader"]);
    assert_eq!(browse_slugs(true).len(), 4);
}

#[test]
fn type_titles_default_to_mods() {
    assert_eq!(type_title("texture"), "Textures");
    assert_eq!(type_title("datapack"), "Data packs");
    assert_eq!(type_title("unknown"), "Mods");
}

#[test]
fn a_package_id_reads_back_as_written() {
    let encoded = encode_package_id(ProviderId::CurseForge, "abc:def");
    assert_eq!(encoded, "1:abc:def");
    assert_eq!(decode_package_id(&encoded), (ProviderId::CurseForge, "abc:def".to_string()));
    assert_eq!(decode_package_id("sodium"), (ProviderId::Modrinth, "sodium".to_string()));
    assert_eq!(decode_package_id("9:x"), (ProviderId::Modrinth, "x".to_string()));
    assert_eq!(decode_package_id("+2:x"), (ProviderId::Local, "x".to_string()));
    assert_eq!(decode_package_id("q:x"), (ProviderId::Modrinth, "x".to_string()));
}

#[test]
fn bytes_parse_as_the_standard_library_does() {
    assert_eq!(parse_u8("255"), Some(255));
    assert_eq!(parse_u8("256"), None);
    assert_eq!(parse_u8("+7"), Some(7));
    assert_eq!(parse_u8("+"), None);
    assert_eq!(parse_u8(""), None);
    assert_eq!(parse_u8("-1"), None);
    assert_eq!(parse_u8("007"), Some(7));
    for n in 0..=255u8 {
        assert_eq!(parse_u8(&n.to_string()), n.to_string().parse::<u8>().ok());
    }
}

#[test]
fn sorts_and_their_names() {
    assert_eq!(sort_label(SearchSort::Newest), "Newest");
    assert_eq!(sort_at(1), Some(SearchSort::Downloads));
    assert_eq!(sort_at(4), None);
}

#[test]
fn compatible_results_are_limited_to_the_cluster() {
    let target = BrowseTarget { mc_version: "1.21".to_string(), mc_loader: GameLoader::Fabric };
    let (versions, loaders) = search_filters(true, Some(&target), true);
    assert_eq!(versions, vec!["1.21".to_string()]);
    assert_eq!(loaders, vec![GameLoader::Fabric]);
    let (_, loaders) = search_filters(true, Some(&target), false);
    assert!(loaders.is_empty());
    let (versions, _) = search_filters(false, Some(&target), true);
    assert!(versions.is_empty());
    assert_eq!(version_filters(true, Some(&target), false), (Some("1.21".to_string()), None));
    assert_eq!(version_filters(true, None, true), (None, None));
}

#[test]
fn paging_results() {
    assert_eq!(live_pages(0, 20), None);
    assert_eq!(live_pages(1, 20), Some(1));
    assert_eq!(live_pages(40, 20), Some(2));
    assert_eq!(live_pages(41, 20), Some(3));
    assert_eq!(shown_pages(true, Some(5), None), Some(5));
    assert_eq!(shown_pages(false, Some(5), Some(2)), Some(2));
    assert_eq!(results_summary(false, Some(3), "1.2K", 0), "1.2K results · page 1 of 3");
    assert_eq!(results_summary(true, Some(3), "1.2K", 0), "");
    assert_eq!(page_for_signature("a", "a", 4), 4);
    assert_eq!(page_for_signature("a", "b", 4), 0);
}

#[test]
fn the_version_pager() {
    let p = version_pager(0, 3);
    assert_eq!(p.label, "Page 1 / 3");
    assert!(!p.prev_enabled && p.next_enabled);
    let p = version_pager(2, 3);
    assert_eq!((p.prev, p.next), (1, 3));
    assert!(p.prev_enabled && !p.next_enabled);
    assert_eq!(version_pages(0, 10), 1);
    assert_eq!(version_pages(25, 10), 3);
    assert_eq!(shown_tab(5, false), 1);
    assert_eq!(shown_tab(5, true), 2);
}

#[test]
fn pills_and_stats() {
    let items: Vec<String> = (0..5).map(|i| format!("v{i}")).collect();
    assert_eq!(pill_texts(&items, 3), vec!["v0", "v1", "v2", "+2"]);
    assert_eq!(pill_texts(&items, 9), items);
    assert_eq!(version_stats("12K", 0, "1 MB", "2024-01-01"), "12K downloads  ·  2024-01-01");
    assert_eq!(version_stats("12K", 5, "1 MB", "2024-01-01"), "12K downloads  ·  1 MB  ·  2024-01-01");
    assert_eq!(release_letter(ReleaseType::Beta), "B");
    assert_eq!(
        about_body(&PackageBody::Url("https://x".to_string()), "Sum"),
        "Sum\n\n[View online](https://x)"
    );
    assert_eq!(about_body(&PackageBody::Raw("# md".to_string()), "Sum"), "# md");
    assert_eq!(cluster_choice_label("PvP", "1.21"), "PvP · 1.21");
    let ids = vec![3, 5];
    let labels = vec!["A".to_string(), "B".to_string()];
    assert_eq!(picked_cluster_label(&ids, &labels, 5), "B");
    assert_eq!(picked_cluster_label(&ids, &labels, 9), "Select a version");
}

#[test]
fn version_rows_offer_what_can_be_done() {
    assert_eq!(version_action(None, false), VersionAction::Install { enabled: true });
    let pinned = InstalledVersion {
        version_id: "v1".to_string(),
        hash: None,
        enabled: false,
        source: InstallSource::Bundled,
    };
    assert_eq!(version_action(Some(&pinned), false), VersionAction::Pinned);
    let linked_v = InstalledVersion { hash: Some("h".to_string()), ..pinned };
    assert_eq!(
        version_action(Some(&linked_v), true),
        VersionAction::Remove { enabled: false, hash: "h".to_string() }
    );
}

#[test]
fn install_button_reflects_the_latest_version() {
    let map = installed_map(vec![linked("sodium", "v2")], &[]);
    assert_eq!(installed_source(&map, ProviderId::Modrinth, "sodium"), Some(InstallSource::Manual));
    assert_eq!(installed_source(&map, ProviderId::CurseForge, "sodium"), None);
    let inst = map.get(ProviderId::Modrinth, "sodium");
    let latest = "v2".to_string();
    let b = install_button(inst, Some(&latest), false);
    assert!(!b.enabled);
    assert_eq!(b.label, "Latest installed");
    let newer = "v3".to_string();
    let b = install_button(inst, Some(&newer), false);
    assert!(b.enabled);
    assert_eq!(b.label, "Install latest");
    assert_eq!(install_button(None, Some(&newer), true).label, "Installing...");
    assert!(!install_button(None, None, false).enabled);
}

#[test]
fn provider_pages_and_authors() {
    let links = vec![
        ProjectLink { label: "Issues".to_string(), url: "i".to_string() },
        ProjectLink { label: "Website".to_string(), url: "w".to_string() },
    ];
    assert_eq!(
        provider_project_url(ProviderId::Modrinth, "https://modrinth.com/", "mod", "sodium", &links).as_deref(),
        Some("https://modrinth.com/mod/sodium")
    );
    assert_eq!(provider_project_url(ProviderId::CurseForge, "", "", "", &links).as_deref(), Some("w"));
    assert_eq!(provider_project_url(ProviderId::Local, "", "", "", &links), None);
    let none = authors(&Vec::new(), "");
    assert!(none.is_none());
    let solo = authors(&Vec::new(), "jelly").unwrap();
    assert_eq!((solo[0].name.as_str(), solo[0].role.as_str()), ("jelly", "Author"));
    let members = vec![Author { name: "a".to_string(), role: "Dev".to_string(), url: None }];
    assert_eq!(authors(&members, "jelly").unwrap()[0].role, "Dev");
    assert_eq!(card_byline("jelly", "3M"), "by jelly · 3M downloads");
}

#[test]
fn result_cards_install_or_show_a_pill() {
    assert!(matches!(card_control(Some(InstallSource::Bundled), true, false), CardControl::Pill("Bundled")));
    assert!(matches!(
        card_control(None, true, true),
        CardControl::Install { enabled: false, label: "Installing" }
    ));
    assert!(matches!(
        card_control(None, true, false),
        CardControl::Install { enabled: true, label: "Install" }
    ));
    assert!(matches!(install_step(true, "v".to_string()), InstallStep::AskWorld(v) if v == "v"));
    assert!(matches!(install_step(false, "v".to_string()), InstallStep::Install(v) if v == "v"));
}

#[test]
fn category_toggles_keep_order() {
    let cats = vec!["a".to_string(), "b".to_string()];
    let added = toggle_category(&cats, "c");
    assert_eq!(added, vec!["a", "b", "c"]);
    assert_eq!(toggle_category(&added, "c"), cats);
    assert_eq!(toggle_category(&added, "a"), vec!["b", "c"]);
}

#[test]
fn data_pack_worlds() {
    let names = vec!["World".to_string(), "Other".to_string()];
    let picked = "Other".to_string();
    let gone = "Gone".to_string();
    assert_eq!(install_world(&names, Some(&picked), None).as_deref(), Some("Other"));
    assert_eq!(install_world(&names, Some(&gone), Some(&picked)).as_deref(), Some("Other"));
    assert_eq!(install_world(&names, None, Some(&gone)).as_deref(), Some("World"));
    assert_eq!(install_world(&Vec::new(), None, None), None);
    assert_eq!(no_world_text(true), "Loading worlds...");
    let v = "v1".to_string();
    assert_eq!(world_install(Some(&picked), Some(&v)), Some(("Other".to_string(), "v1".to_string())));
    assert_eq!(world_install(None, Some(&v)), None);
}

#[test]
fn the_gallery_viewer_steps_through_images() {
    assert_eq!(open_at(9, 3), 2);
    assert_eq!(open_at(1, 3), 1);
    assert_eq!(step(1, 3, true), 2);
    assert_eq!(step(2, 3, true), 2);
    assert_eq!(step(0, 3, false), 0);
    assert_eq!(step(step(0, 3, true), 3, false), 0);
    let title = "Cover".to_string();
    assert_eq!(viewer_header(Some(&title), 0, 1), ("Cover".to_string(), None));
    assert_eq!(viewer_header(None, 1, 3), ("Image 2".to_string(), Some("2 of 3".to_string())));
}

#[test]
fn a_search_signature_ignores_letter_case() {
    let cats = vec!["optimization".to_string(), "utility".to_string()];
    let a = search_signature(ProviderId::Modrinth, "SoDium", true, &cats, SearchSort::Downloads);
    assert_eq!(a, "Modrinth|sodium|true|optimization,utility|Downloads");
    let b = search_signature(ProviderId::Modrinth, "sodium", true, &cats, SearchSort::Downloads);
    assert_eq!(page_for_signature(&a, &b, 3), 3);
    let c = search_signature(ProviderId::CurseForge, "sodium", false, &Vec::new(), SearchSort::Relevance);
    assert_eq!(c, "CurseForge|sodium|false||Relevance");
    assert_eq!(page_for_signature(&a, &c, 3), 0);
}

#[test]
fn data_packs_are_never_marked_installed_in_the_browser() {
    let map = browse_installed(vec![linked("sodium", "v2")], &[], ContentType::DataPack);
    assert_eq!(installed_source(&map, ProviderId::Modrinth, "sodium"), None);
    let map = browse_installed(vec![linked("sodium", "v2")], &[], ContentType::Mod);
    assert_eq!(installed_source(&map, ProviderId::Modrinth, "sodium"), Some(InstallSource::Manual));
}
