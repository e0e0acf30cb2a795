use oneclient_app::details::{
    active_after_delete, create_action, delete_prompt, edit_facts, edit_rail, join_tags, parse_tags,
    plain_preview, update_action, DetailsState, InstanceFacts,
};
use oneclient_app::dialog::{
    allowed_versions, bundle_version, create_action as legacy_create_action, Picks as LegacyPicks,
};
use oneclient_app::domain::{Bundle, GameLoader};
use oneclient_app::naming::NameTable;
use oneclient_app::picks::{
    bundle_card_meta, bundles_empty_text, default_declined, footer_note, heading, is_ready,
    rail_rows, rail_subtitle, rail_tags, rail_title, row_state, step_value, toggle_declined,
    version_list_state, BundlePicks, LoaderPicks, Picks, RowState, VersionListState, VersionPicks,
};
use oneclient_app::wizard::{ClusterKind, Step, TypeChoice, VersionList};

fn bundle(name: &str, enabled: bool) -> Bundle {
    Bundle { name: name.to_string(), category: String::new(), enabled, files: Vec::new() }
}

fn picks(step: Step, index: usize) -> Picks {
    Picks {
        steps: vec![Step::Type, Step::Loader, Step::Version, Step::Customize],
        index,
        step,
        choice: Some(TypeChoice::Scratch),
        kind: ClusterKind::Modded,
        name: "  My pack ".to_string(),
        suggested: "1.21 Fabric".to_string(),
        versions: VersionPicks {
            chosen: Some("1.21".to_string()),
            list: VersionList::Curated(Vec::new()),
            loaded: true,
            error: None,
            filter: 0,
        },
        loader: LoaderPicks {
            chosen: Some(GameLoader::Fabric),
            version: Some("0.16.0".to_string()),
            versions: vec!["0.16.0".to_string()],
        },
        bundles: BundlePicks {
            archives: vec![bundle("Performance", true), bundle("Visuals", false), bundle("QoL", true)],
            loaded: true,
            names: NameTable::new(),
            declined: vec!["Visuals".to_string()],
        },
    }
}

#[test]
fn the_loader_label_names_the_loader_and_its_version() {
    let p = picks(Step::Loader, 1);
    assert_eq!(p.loader_label(), "Fabric 0.16.0");
    assert_eq!(p.progress(), "Step 2 of 4");
    let mut vanilla = picks(Step::Loader, 1);
    vanilla.loader.chosen = Some(GameLoader::Vanilla);
    assert_eq!(vanilla.loader_label(), "Vanilla");
}

#[test]
fn taken_bundles_leave_out_the_declined_ones() {
    let p = picks(Step::Type, 0);
    assert_eq!(p.bundles.taken(), vec!["Performance".to_string(), "QoL".to_string()]);
    assert_eq!(p.bundles.taken_count(), 2);
}

#[test]
fn headings_and_footers_follow_the_step() {
    let p = picks(Step::Version, 2);
    let (title, sub) = heading(&p);
    assert_eq!(title, "Choose a version");
    assert_eq!(
        sub,
        "Versions Fabric 0.16.0 can run. Switch the release type to reach snapshots, betas and alphas."
    );
    assert_eq!(footer_note(&p), "1.21 downloads the first time you launch it.");
    let mut none = picks(Step::Version, 2);
    none.loader.chosen = None;
    assert_eq!(footer_note(&none), "Vanilla has no build for 1.21.");
    let b = picks(Step::Bundles, 2);
    assert_eq!(footer_note(&b), "2 of 3 selected. Bundles can be changed later.");
}

#[test]
fn step_values_and_readiness() {
    let p = picks(Step::Customize, 3);
    assert_eq!(step_value(0, &p, Step::Customize), "Optional");
    assert_eq!(step_value(1, &p, Step::Customize), "1 tag");
    assert_eq!(step_value(4, &p, Step::Customize), "4 tags");
    assert_eq!(step_value(0, &p, Step::Bundles), "2 selected");
    assert_eq!(step_value(0, &p, Step::Type), "From scratch");
    assert!(is_ready(&p));
    let mut blank = picks(Step::Customize, 3);
    blank.name = "   ".to_string();
    assert!(!is_ready(&blank));
    assert_eq!(rail_title(&blank), "New instance");
    assert_eq!(rail_title(&p), "  My pack ");
}

#[test]
fn the_rail_lists_steps_with_values_up_to_the_current_one() {
    let p = picks(Step::Version, 2);
    let rows = rail_rows(2, &p);
    assert_eq!(rows.len(), 4);
    assert_eq!(rows[0], ("Type", "From scratch".to_string(), RowState::Done));
    assert_eq!(rows[2], ("Version", "1.21".to_string(), RowState::Current));
    assert_eq!(rows[3], ("Details", String::new(), RowState::Pending));
    assert_eq!(row_state(1, 2), RowState::Done);
    let tags = vec!["pvp".to_string()];
    assert!(rail_tags(&p, &tags).is_empty());
    assert_eq!(rail_tags(&picks(Step::Customize, 3), &tags), tags);
}

#[test]
fn the_rail_subtitle_prefers_the_description() {
    let p = picks(Step::Version, 2);
    assert_eq!(rail_subtitle("  for pvp ", &p), "for pvp");
    assert_eq!(rail_subtitle("", &p), "1.21 · Fabric 0.16.0");
}

#[test]
fn pressing_a_bundle_twice_restores_the_declined_set() {
    let archives = vec![bundle("A", true), bundle("B", false)];
    let defaults = default_declined(&archives);
    assert_eq!(defaults, vec!["B".to_string()]);
    let once = toggle_declined(None, &defaults, &"A".to_string());
    let mut sorted = once.clone();
    sorted.sort();
    assert_eq!(sorted, vec!["A".to_string(), "B".to_string()]);
    let twice = toggle_declined(Some(&once), &defaults, &"A".to_string());
    assert_eq!(twice, vec!["B".to_string()]);
}

#[test]
fn version_list_states_and_bundle_texts() {
    let err = "offline".to_string();
    assert!(matches!(
        version_list_state(Some(&err), true, 3),
        VersionListState::Failed(m) if m == "Could not load the version list. offline"
    ));
    assert!(matches!(version_list_state(None, false, 3), VersionListState::Loading));
    assert!(matches!(version_list_state(None, true, 0), VersionListState::NoMatch));
    assert!(matches!(version_list_state(None, true, 2), VersionListState::Rows));
    assert_eq!(bundles_empty_text(false), "Loading bundles...");
    assert_eq!(bundle_card_meta(1), "1 package");
    assert_eq!(bundle_card_meta(5), "5 packages");
}

#[test]
fn committing_a_tag_trims_and_skips_repeats() {
    let mut d = DetailsState::blank();
    d.open_tag_input();
    assert!(d.tag_open);
    d.tag_draft = "  pvp ".to_string();
    d.commit_tag();
    assert_eq!(d.tags, vec!["pvp".to_string()]);
    assert!(!d.tag_open);
    assert!(d.tag_draft.is_empty());
    d.tag_draft = "pvp".to_string();
    d.commit_tag();
    assert_eq!(d.tags, vec!["pvp".to_string()]);
    d.tag_draft = "   ".to_string();
    d.commit_tag();
    assert_eq!(d.tags.len(), 1);
}

#[test]
fn commit_then_remove_gives_back_the_tags() {
    let mut d = DetailsState::seeded("Pack", None, &vec!["a".to_string()]);
    d.tag_draft = " b ".to_string();
    d.commit_tag();
    assert_eq!(d.tags, vec!["a".to_string(), "b".to_string()]);
    d.remove_tag("b");
    assert_eq!(d.tags, vec!["a".to_string()]);
}

#[test]
fn the_effective_name_waits_for_a_confirmed_name() {
    let mut d = DetailsState::blank();
    d.name = " Mine ".to_string();
    assert_eq!(d.effective_name("1.21"), "1.21");
    d.confirm_name();
    assert_eq!(d.effective_name("1.21"), "Mine");
    d.name = "  ".to_string();
    assert_eq!(d.effective_name("1.21"), "1.21");
    assert_eq!(d.typed_name(), "");
}

#[test]
fn the_cover_preview_follows_the_last_choice() {
    let existing = "old.png".to_string();
    let mut d = DetailsState::blank();
    assert_eq!(d.preview_cover(Some(&existing)), Some(("old.png".to_string(), false)));
    d.pick_cover("new.png".to_string());
    assert_eq!(d.preview_cover(Some(&existing)), Some(("new.png".to_string(), true)));
    d.use_version_art();
    assert_eq!(d.preview_cover(Some(&existing)), None);
}

#[test]
fn the_create_request_carries_the_form() {
    let mut d = DetailsState::blank();
    d.description = "  fast  ".to_string();
    d.tags = vec!["pvp".to_string()];
    let mut p = picks(Step::Customize, 3);
    let req = create_action(&d, &p).expect("version and loader are set");
    assert_eq!(req.name, "My pack");
    assert_eq!(req.mc_version, "1.21");
    assert_eq!(req.mc_loader, GameLoader::Fabric);
    assert_eq!(req.mc_loader_version.as_deref(), Some("0.16.0"));
    assert_eq!(req.description.as_deref(), Some("fast"));
    assert!(req.bundles.is_none());
    p.kind = ClusterKind::OneClient;
    let req = create_action(&d, &p).unwrap();
    assert_eq!(req.bundles, Some(vec!["Performance".to_string(), "QoL".to_string()]));
    p.loader.chosen = None;
    assert!(create_action(&d, &p).is_none());
}

#[test]
fn the_edit_dialog_rail_and_request() {
    let facts = InstanceFacts {
        cluster_id: 7,
        name: "Old".to_string(),
        description: None,
        tags: Vec::new(),
        cover: None,
        mc_version: "1.21".to_string(),
        mc_loader: GameLoader::Vanilla,
        kind: ClusterKind::Vanilla,
    };
    let mut d = DetailsState::seeded("Old", None, &Vec::new());
    d.name = "  ".to_string();
    let rail = edit_rail(&facts, &d);
    assert_eq!(rail.title, "Old");
    assert_eq!(rail.subtitle, "Vanilla · 1.21");
    assert!(!rail.can_save);
    d.name = " New ".to_string();
    let req = update_action(7, &d);
    assert_eq!(req.name, "New");
    assert!(req.description.is_none());
    let rows = edit_facts(&facts);
    assert_eq!(rows[2], ("Loader", "Vanilla".to_string()));
}

#[test]
fn plain_edit_dialog_tags_round_trip() {
    let tags = vec!["pvp".to_string(), "skyblock".to_string()];
    let joined = join_tags(&tags);
    assert_eq!(joined, "pvp, skyblock");
    assert_eq!(parse_tags(&joined), tags);
    assert_eq!(parse_tags(" a, ,b , a"), vec!["a".to_string(), "b".to_string()]);
}

#[test]
fn plain_preview_and_deletion() {
    let existing = "x.png".to_string();
    let picked = "y.png".to_string();
    assert_eq!(plain_preview(Some(&picked), false, Some(&existing)), Some(("y.png".to_string(), true)));
    assert_eq!(plain_preview(None, true, Some(&existing)), None);
    assert_eq!(plain_preview(None, false, Some(&existing)), Some(("x.png".to_string(), false)));
    assert_eq!(
        delete_prompt("Pack"),
        "Pack and its files will be deleted, including its worlds, settings and installed content. This cannot be undone."
    );
    assert_eq!(active_after_delete(Some(3), 3), None);
    assert_eq!(active_after_delete(Some(4), 3), Some(4));
}

#[test]
fn fabric_also_runs_on_ornithe_versions() {
    let primary = Some(Some(vec!["1.21".to_string()]));
    let ornithe = Some(Some(vec!["1.8.9".to_string()]));
    let both = allowed_versions(primary.clone(), ornithe.clone(), true).unwrap().unwrap();
    assert!(both.contains(&"1.8.9".to_string()) && both.contains(&"1.21".to_string()));
    let forge = allowed_versions(primary, ornithe, false).unwrap().unwrap();
    assert_eq!(forge, vec!["1.21".to_string()]);
    assert_eq!(allowed_versions(None, None, true), None);
    assert_eq!(allowed_versions(Some(None), None, true), Some(None));
}

#[test]
fn the_dialog_names_a_missing_loader_and_sends_bundles() {
    let v = "1.21".to_string();
    assert_eq!(bundle_version(true, Some(&v)), "1.21");
    assert_eq!(bundle_version(false, Some(&v)), "");
    let picks = LegacyPicks {
        steps: vec![Step::Type, Step::Version, Step::Bundles, Step::Customize],
        index: 2,
        step: Step::Bundles,
        choice: Some(TypeChoice::OneClient),
        kind: ClusterKind::OneClient,
        version: Some(v.clone()),
        loader: None,
        loader_version: None,
        loader_versions: Vec::new(),
        versions: Vec::new(),
        versions_loaded: true,
        archives: vec![bundle("A", true), bundle("B", true)],
        bundles_loaded: false,
        declined: vec!["B".to_string()],
        name: "x".to_string(),
        suggested: "1.21".to_string(),
    };
    assert_eq!(picks.loader_label(), "No loader");
    assert_eq!(picks.footer_note(), "1 of 2 selected. Bundles can be changed later.");
    assert_eq!(picks.step_value(Step::Loader, 0), "No loader");
    assert!(legacy_create_action(&picks, "", &Vec::new(), &None).is_none());
    let mut with_loader = picks;
    with_loader.loader = Some(GameLoader::Fabric);
    let req = legacy_create_action(&with_loader, " ", &Vec::new(), &None).unwrap();
    assert_eq!(req.bundles, Some(vec!["A".to_string()]));
    assert!(req.description.is_none());
}

#[test]
fn a_tag_with_a_comma_comes_back_split() {
    let tags = vec!["a,b".to_string()];
    assert_eq!(parse_tags(&join_tags(&tags)), vec!["a".to_string(), "b".to_string()]);
    let spaced = vec!["x".to_string(), "\u{3000}y".to_string()];
    assert_eq!(parse_tags(&join_tags(&spaced)), vec!["x".to_string(), "y".to_string()]);
}
