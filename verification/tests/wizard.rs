use oneclient_app::dialog::{primary_nav, secondary_nav, Nav};
use oneclient_app::domain::GameLoader;
use oneclient_app::wizard::{
    build_version_list, catalogue_order, chosen_loader, current_step, chosen_loader_version, clamp_step, filter_label, kind_for,
    kind_label_of, matches_filter, step_order, suggested_name, ClusterKind, GameVersion,
    GameVersionKind, JavaMajor, LoaderChoice, OneClientVersion, Step, TypeChoice, VersionList,
};

fn gv(id: &str, kind: GameVersionKind) -> GameVersion {
    GameVersion { id: id.to_string(), kind, released: format!("{id}-date") }
}

fn catalogue() -> Vec<GameVersion> {
    vec![
        gv("24w10a", GameVersionKind::Snapshot),
        gv("1.21", GameVersionKind::Release),
        gv("1.20.4", GameVersionKind::Release),
        gv("b1.7.3", GameVersionKind::Beta),
    ]
}

#[test]
fn steps_follow_the_chosen_type() {
    assert_eq!(
        step_order(Some(TypeChoice::OneClient)),
        vec![Step::Type, Step::Version, Step::Bundles, Step::Customize]
    );
    assert_eq!(
        step_order(Some(TypeChoice::Scratch)),
        vec![Step::Type, Step::Loader, Step::Version, Step::Customize]
    );
    assert_eq!(step_order(None), vec![Step::Type, Step::Version, Step::Customize]);
    assert_eq!(Step::Customize.label(), "Details");
}

#[test]
fn a_stored_step_is_kept_within_the_steps() {
    assert_eq!(clamp_step(1, 4), 1);
    assert_eq!(clamp_step(7, 4), 3);
    assert_eq!(clamp_step(5, 0), 0);
}

#[test]
fn release_filters_keep_one_channel_each() {
    assert!(matches_filter(GameVersionKind::Release, 0));
    assert!(!matches_filter(GameVersionKind::Snapshot, 0));
    assert!(matches_filter(GameVersionKind::Snapshot, 1));
    assert!(matches_filter(GameVersionKind::Beta, 2));
    assert!(matches_filter(GameVersionKind::Alpha, 3));
    assert!(matches_filter(GameVersionKind::Alpha, 4));
    assert_eq!(filter_label(0), "Releases");
    assert_eq!(filter_label(9), "All versions");
}

#[test]
fn fabric_falls_back_to_ornithe() {
    assert_eq!(
        LoaderChoice::Fabric.resolve(&[GameLoader::Ornithe]),
        Some(GameLoader::Ornithe)
    );
    assert_eq!(
        LoaderChoice::Fabric.resolve(&[GameLoader::Fabric, GameLoader::Ornithe]),
        Some(GameLoader::Fabric)
    );
    assert_eq!(LoaderChoice::Forge.resolve(&[GameLoader::Fabric]), None);
    assert_eq!(LoaderChoice::Vanilla.resolve(&[]), Some(GameLoader::Vanilla));
    assert_eq!(LoaderChoice::NeoForge.short(), "NF");
}

#[test]
fn kinds_and_suggested_names() {
    assert_eq!(kind_for(None, Some(GameLoader::Fabric)), ClusterKind::OneClient);
    assert_eq!(kind_for(Some(TypeChoice::Scratch), None), ClusterKind::Vanilla);
    assert_eq!(
        kind_for(Some(TypeChoice::Scratch), Some(GameLoader::Quilt)),
        ClusterKind::Modded
    );
    assert_eq!(kind_label_of(ClusterKind::Modded), "Modded");
    let v = "1.21".to_string();
    assert_eq!(
        suggested_name(Some(&v), Some(TypeChoice::Scratch), ClusterKind::Vanilla, None),
        "1.21 Vanilla"
    );
    assert_eq!(
        suggested_name(
            Some(&v),
            Some(TypeChoice::Scratch),
            ClusterKind::Modded,
            Some(GameLoader::Fabric)
        ),
        "1.21 Fabric"
    );
    assert_eq!(
        suggested_name(Some(&v), Some(TypeChoice::OneClient), ClusterKind::OneClient, None),
        "1.21"
    );
    assert_eq!(suggested_name(None, None, ClusterKind::OneClient, None), "");
}

#[test]
fn the_catalogue_lists_versions_in_scope_and_defaults_to_a_release() {
    let allowed = vec!["1.21".to_string(), "24w10a".to_string(), "1.20.4".to_string()];
    let list = build_version_list(
        Some(TypeChoice::Scratch),
        &[],
        &[],
        catalogue(),
        Some(&allowed),
        4,
        "",
    );
    assert_eq!(list.len(), 3);
    let first = list.row(0).unwrap();
    assert_eq!(first.id, "24w10a");
    assert_eq!(first.badge.as_deref(), Some("Snapshot"));
    assert_eq!(list.row(1).unwrap().badge, None);
    assert!(list.row(3).is_none());
    assert_eq!(list.default_id().as_deref(), Some("1.21"));

    let searched = build_version_list(Some(TypeChoice::Scratch), &[], &[], catalogue(), None, 4, "1.20");
    assert_eq!(searched.len(), 1);
    assert_eq!(searched.row(0).unwrap().id, "1.20.4");
}

#[test]
fn oneclient_versions_carry_their_java_and_loader() {
    let oneclient = vec![
        OneClientVersion { id: "1.21".to_string(), loader: GameLoader::Fabric },
        OneClientVersion { id: "1.8.9".to_string(), loader: GameLoader::Forge },
    ];
    let java = vec![JavaMajor { version: "1.21".to_string(), major: 21 }];
    let list = build_version_list(Some(TypeChoice::OneClient), &oneclient, &java, Vec::new(), None, 0, "");
    assert!(matches!(list, VersionList::Curated(_)));
    let row = list.row(0).unwrap();
    assert_eq!(row.meta, "Fabric");
    assert_eq!(row.badge.as_deref(), Some("Java 21"));
    assert_eq!(list.row(1).unwrap().badge, None);
    assert_eq!(list.default_id().as_deref(), Some("1.21"));
    let v = "1.8.9".to_string();
    assert_eq!(
        chosen_loader(Some(TypeChoice::OneClient), Some(&v), &oneclient, LoaderChoice::Fabric, &[]),
        Some(GameLoader::Forge)
    );
}

#[test]
fn a_loader_version_no_longer_offered_falls_back_to_the_first() {
    let offered = vec!["0.16.0".to_string(), "0.15.11".to_string()];
    assert_eq!(
        chosen_loader_version(
            Some(TypeChoice::Scratch),
            Some(GameLoader::Fabric),
            Some("0.14".to_string()),
            &offered
        )
        .as_deref(),
        Some("0.16.0")
    );
    assert_eq!(
        chosen_loader_version(
            Some(TypeChoice::Scratch),
            Some(GameLoader::Fabric),
            Some("0.15.11".to_string()),
            &offered
        )
        .as_deref(),
        Some("0.15.11")
    );
    assert_eq!(
        chosen_loader_version(
            Some(TypeChoice::Scratch),
            Some(GameLoader::Vanilla),
            None,
            &offered
        ),
        None
    );
}

#[test]
fn footer_buttons_move_between_steps() {
    assert_eq!(secondary_nav(0), ("Cancel", Nav::Close));
    assert_eq!(secondary_nav(2), ("Back", Nav::GoTo(1)));
    assert_eq!(primary_nav(true, false, 1), ("Next", Nav::GoTo(2)));
    assert_eq!(primary_nav(false, false, 1), ("Next", Nav::Stay));
    assert_eq!(primary_nav(true, true, 3), ("Create instance", Nav::Create));
}

#[test]
fn next_then_back_returns_to_the_step() {
    let (_, next) = primary_nav(true, false, 2);
    assert_eq!(next, Nav::GoTo(3));
    let (_, back) = secondary_nav(3);
    assert_eq!(back, Nav::GoTo(2));
}

#[test]
fn the_catalogue_lists_the_newest_version_first() {
    let v = |id: &str, loader| OneClientVersion { id: id.to_string(), loader };
    let versions = vec![
        v("1.8.9", GameLoader::Forge),
        v("1.21", GameLoader::Fabric),
        v("1.21.1", GameLoader::Fabric),
        v("1.21", GameLoader::Forge),
    ];
    let ranks = vec![(1, 8, 9), (1, 21, 0), (1, 21, 1), (1, 21, 0)];
    let out: Vec<(String, GameLoader)> =
        catalogue_order(versions, &ranks).into_iter().map(|e| (e.id, e.loader)).collect();
    assert_eq!(
        out,
        vec![
            ("1.21.1".to_string(), GameLoader::Fabric),
            ("1.21".to_string(), GameLoader::Fabric),
            ("1.21".to_string(), GameLoader::Forge),
            ("1.8.9".to_string(), GameLoader::Forge),
        ]
    );
}

#[test]
fn the_stored_step_is_kept_within_the_steps() {
    let (steps, index, step) = current_step(Some(TypeChoice::Scratch), 9);
    assert_eq!(steps.len(), 4);
    assert_eq!(index, 3);
    assert_eq!(step, Step::Customize);
    let (_, index, step) = current_step(None, 1);
    assert_eq!(index, 1);
    assert_eq!(step, Step::Version);
}
