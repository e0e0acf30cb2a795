use oneclient_app::clusters::{
    instance_meta, launch_button_state, loader_version_line, shown_instance_index, version_description,
    version_targets, LaunchStage, VersionTarget,
};
use oneclient_app::domain::GameLoader;
use oneclient_app::folders::{
    current_world, delete_pack_prompt, delete_world_prompt, delete_world_step, empty_state,
    filter_packs, folder_needle, grid_meta, matches_search, pack_badge, world_in_use, world_meta,
    world_notices, DataPack, DeleteWorld, EmptyState, OtherCluster,
};
use oneclient_app::logs::{
    filter_lines, kind_badge, log_matches, next_selection, picker_label, LevelFilter, LogFile, LogKind,
    LogLevel,
};
use oneclient_app::screenshots::{delete_label, delete_question, empty_text, selected_text, ShotSelection};
use oneclient_app::settings::{
    clear_update, command_patch, field_state, global_memory, java_options, java_pick, java_selected, loader_row_text,
    loader_version_shown, memory_patch, overview_body, overview_subtitle, parse_u32, resolution_patch,
    runtime_label, should_send, Field, JavaRuntime, OverviewBody, Patch, TextField,
};

fn lines(v: &[&str]) -> Vec<String> {
    v.iter().map(|s| s.to_string()).collect()
}

#[test]
fn a_line_without_a_level_keeps_the_one_before() {
    let text = lines(&["[INFO] start", "  at trace", "[ERROR] boom", "  caused by x", "[INFO] done"]);
    let parsed = vec![Some(LogLevel::Info), None, Some(LogLevel::Error), None, Some(LogLevel::Info)];
    let errors = filter_lines(&text, &parsed, "", LevelFilter::Error);
    assert_eq!(errors, lines(&["[ERROR] boom", "  caused by x"]));
    let info = filter_lines(&text, &parsed, "", LevelFilter::Info);
    assert_eq!(info, lines(&["[INFO] start", "  at trace", "[INFO] done"]));
}

#[test]
fn no_filter_keeps_every_line() {
    let text = lines(&["a", "b"]);
    let parsed = vec![None, None];
    assert_eq!(filter_lines(&text, &parsed, "  ", LevelFilter::All), text);
}

#[test]
fn the_search_ignores_case_and_levels_before_any_line_are_unknown() {
    let text = lines(&["Boot", "[WARN] Disk LOW", "disk ok"]);
    let parsed = vec![None, Some(LogLevel::Warn), None];
    assert_eq!(filter_lines(&text, &parsed, "DISK", LevelFilter::All), lines(&["[WARN] Disk LOW", "disk ok"]));
    assert_eq!(filter_lines(&text, &parsed, "boot", LevelFilter::Warn), Vec::<String>::new());
    assert_eq!(LevelFilter::Warn.label(), "Warnings");
    assert_eq!(LevelFilter::All.to_level(), None);
}

fn log(name: &str, kind: LogKind) -> LogFile {
    LogFile { name: name.to_string(), path: format!("/logs/{name}"), kind, size_bytes: 1 }
}

#[test]
fn the_shown_log_prefers_the_current_then_latest() {
    let files = vec![log("debug.log", LogKind::Other), log("latest.log", LogKind::Minecraft)];
    assert_eq!(next_selection(&files, "/logs/debug.log"), "/logs/debug.log");
    assert_eq!(next_selection(&files, "/logs/gone.log"), "/logs/latest.log");
    assert_eq!(next_selection(&files, ""), "/logs/latest.log");
    let no_latest = vec![log("a.log", LogKind::Other)];
    assert_eq!(next_selection(&no_latest, ""), "/logs/a.log");
    assert_eq!(next_selection(&Vec::new(), "/logs/a.log"), "");
    assert_eq!(picker_label(&files, "/logs/latest.log"), "latest.log");
    assert_eq!(picker_label(&files, ""), "No logs");
}

#[test]
fn the_log_picker_searches_names_and_badges() {
    let f = log("crash-2024.txt", LogKind::CrashReport);
    assert!(log_matches(&f, ""));
    assert!(log_matches(&f, "CRASH"));
    assert!(log_matches(&f, "report"));
    assert!(!log_matches(&f, "launcher"));
    assert_eq!(kind_badge(LogKind::Game), "Launcher");
}

#[test]
fn launching_is_blocked_while_busy_or_syncing() {
    assert_eq!(launch_button_state(None, false), ("Launch", true));
    assert_eq!(launch_button_state(None, true), ("Launch", false));
    assert_eq!(launch_button_state(Some(LaunchStage::Running), false), ("Running", false));
    assert_eq!(launch_button_state(Some(LaunchStage::Exited), false), ("Launch", true));
    assert_eq!(launch_button_state(Some(LaunchStage::Checking), true), ("Checking", false));
}

fn target(v: &str, l: GameLoader, rank: (u32, u32, u32)) -> VersionTarget {
    VersionTarget { version: v.to_string(), loader: l, rank }
}

#[test]
fn version_targets_are_listed_once_newest_first() {
    let bundled = vec![
        target("1.8.9", GameLoader::Forge, (1, 8, 9)),
        target("1.21", GameLoader::Fabric, (1, 21, 0)),
    ];
    let owned = vec![
        target("1.21", GameLoader::Fabric, (1, 21, 0)),
        target("1.21", GameLoader::Forge, (1, 21, 0)),
        target("snapshot", GameLoader::Vanilla, (0, 0, 0)),
    ];
    let out: Vec<(String, GameLoader)> = version_targets(&bundled, &owned)
        .into_iter()
        .map(|t| (t.version, t.loader))
        .collect();
    assert_eq!(
        out,
        vec![
            ("1.21".to_string(), GameLoader::Fabric),
            ("1.21".to_string(), GameLoader::Forge),
            ("1.8.9".to_string(), GameLoader::Forge),
            ("snapshot".to_string(), GameLoader::Vanilla),
        ]
    );
}

#[test]
fn the_side_panel_shows_the_picked_active_or_first() {
    let ids = vec![4, 7, 9];
    assert_eq!(shown_instance_index(&ids, Some(9), Some(7)), Some(2));
    assert_eq!(shown_instance_index(&ids, Some(1), Some(7)), Some(1));
    assert_eq!(shown_instance_index(&ids, None, None), Some(0));
    assert_eq!(shown_instance_index(&Vec::new(), None, Some(7)), None);
    assert_eq!(instance_meta("2h 5m", true, true), "2h 5m played · separate folder");
    assert_eq!(instance_meta("0m", false, false), "Never played · shared folder");
    assert_eq!(loader_version_line(GameLoader::NeoForge, "1.21"), "NeoForge 1.21");
    assert_eq!(version_description(None), "Placeholder version info");
}

#[test]
fn folder_searches_match_any_field() {
    assert_eq!(folder_needle("  HeLLo "), "hello");
    let fields = vec!["Alpha".to_string(), "The BETA pack".to_string()];
    assert!(matches_search("beta", &fields));
    assert!(matches_search("", &fields));
    assert!(!matches_search("gamma", &fields));
    let packs = vec![
        DataPack { file_name: "a.zip".to_string(), description: Some("Adds ORES".to_string()), is_dir: false, size_bytes: 3 },
        DataPack { file_name: "b".to_string(), description: None, is_dir: true, size_bytes: 0 },
    ];
    assert_eq!(filter_packs(&packs, "ores"), vec![0]);
    assert_eq!(filter_packs(&packs, ""), vec![0, 1]);
    assert_eq!(pack_badge(&packs[1]), "Folder");
    assert_eq!(grid_meta("Modified today", "Zip", 0, "0 B"), "Modified today \u{b7} Zip");
    assert_eq!(grid_meta("Modified today", "Zip", 5, "5 B"), "Modified today \u{b7} Zip \u{b7} 5 B");
}

#[test]
fn worlds_and_data_pack_targets() {
    let names = vec!["A".to_string(), "B".to_string()];
    let picked = "B".to_string();
    assert_eq!(current_world(&names, Some(&picked), "A").as_deref(), Some("B"));
    assert_eq!(current_world(&names, None, "A").as_deref(), Some("A"));
    assert_eq!(current_world(&names, None, "Z").as_deref(), Some("A"));
    assert_eq!(current_world(&Vec::new(), None, "Z"), None);
    assert_eq!(empty_state(true, 0), EmptyState::Loading);
    assert_eq!(empty_state(false, 0), EmptyState::Nothing);
    assert_eq!(empty_state(false, 2), EmptyState::NoMatch);
    let (t, b) = delete_pack_prompt("x.zip", "World");
    assert_eq!(t, "Move \"x.zip\" to trash?");
    assert_eq!(b, "It is removed from \"World\" only and can be restored from your system trash.");
}

#[test]
fn a_shared_folder_is_busy_while_any_sharing_game_runs() {
    let others = vec![
        OtherCluster { active: true, dedicated_dir: true },
        OtherCluster { active: false, dedicated_dir: false },
    ];
    assert!(!world_in_use(false, true, &others));
    let sharing = vec![OtherCluster { active: true, dedicated_dir: false }];
    assert!(world_in_use(false, true, &sharing));
    assert!(!world_in_use(false, false, &sharing));
    assert!(world_in_use(true, false, &Vec::new()));
    assert_eq!(delete_world_step(true), DeleteWorld::NotifyInUse);
    assert_eq!(delete_world_step(false), DeleteWorld::Confirm);
    assert_eq!(delete_world_prompt("W", false).1, "It can be restored from your system trash.");
    assert_eq!(world_notices(false).len(), 0);
    assert_eq!(world_notices(true).len(), 1);
    assert_eq!(world_meta("today", Some("4 MB")), "Last played today \u{b7} 4 MB");
    assert_eq!(world_meta("today", None), "Last played today");
}

#[test]
fn picking_screenshots() {
    let mut s = ShotSelection::new();
    let a = "/s/a.png".to_string();
    let b = "/s/b.png".to_string();
    s.activate(0, &a);
    assert_eq!(s.viewing, Some(0));
    assert!(s.selected.is_empty());
    s.close_viewer();
    s.start_picking(0);
    assert!(!s.editing);
    s.start_picking(2);
    s.activate(0, &a);
    s.activate(1, &b);
    s.activate(0, &a);
    assert_eq!(s.selected, vec![b.clone()]);
    assert_eq!(s.viewing, None);
    s.select_all(&vec![a.clone(), b.clone(), a.clone()]);
    assert_eq!(s.selected.len(), 2);
    s.ask_delete();
    assert!(s.confirm_delete);
    let mut gone = s.confirm_deletion();
    gone.sort();
    assert_eq!(gone, vec![a.clone(), b.clone()]);
    assert!(s.selected.is_empty() && !s.editing && !s.confirm_delete);
    s.deselect_all();
    s.cancel();
    assert!(!s.editing);
}

#[test]
fn screenshot_texts() {
    assert_eq!(selected_text(2), "2 selected");
    assert_eq!(delete_label(3), "Delete (3)");
    assert_eq!(delete_question(1), "Move 1 screenshot to trash?");
    assert_eq!(delete_question(4), "Move 4 screenshots to trash?");
    assert_eq!(empty_text(true), "Loading screenshots...");
}

#[test]
fn typed_settings_become_changes() {
    assert_eq!(memory_patch("  "), Patch::Clear);
    assert_eq!(memory_patch(" 8192 "), Patch::Assign(8192));
    assert_eq!(memory_patch("lots"), Patch::Unchanged);
    assert_eq!(resolution_patch("", " "), Patch::Clear);
    assert_eq!(resolution_patch("1920", "1080"), Patch::Assign((1920, 1080)));
    assert_eq!(resolution_patch("1920", ""), Patch::Unchanged);
    assert_eq!(command_patch("  gamescope "), Patch::Assign("gamescope".to_string()));
    assert_eq!(command_patch(""), Patch::Clear);
    assert!(should_send("a", "b"));
    assert!(!should_send("a", "a"));
    assert_eq!(field_state(None, 4096), (4096, false));
    assert_eq!(field_state(Some(2048), 4096), (2048, true));
    assert_eq!(global_memory(None), 4096);
}

#[test]
fn counts_parse_as_the_standard_library_does() {
    for s in ["0", "4294967295", "4294967296", "+12", "", "+", "-3", "12a", "00042"] {
        assert_eq!(parse_u32(s), s.parse::<u32>().ok(), "parsing {s:?}");
    }
}

fn runtime(vendor: &str, major: u32, path: &str) -> JavaRuntime {
    JavaRuntime { vendor: vendor.to_string(), major, version: format!("{major}.0.1"), absolute_path: path.to_string() }
}

#[test]
fn the_java_picker() {
    let rs = vec![runtime("Temurin", 21, "/j21"), runtime("Zulu", 8, "/j8")];
    assert_eq!(runtime_label(&rs[0]), "Temurin 21 (21.0.1)");
    assert_eq!(java_options(&rs), vec!["Automatic", "Temurin 21 (21.0.1)", "Zulu 8 (8.0.1)"]);
    let p8 = "/j8".to_string();
    let missing = "/nope".to_string();
    assert_eq!(java_selected(&rs, None, Some(&p8)), "Zulu 8 (8.0.1)");
    assert_eq!(java_selected(&rs, Some(&missing), Some(&p8)), "Automatic");
    assert_eq!(java_selected(&rs, None, None), "Automatic");
    assert_eq!(java_pick(&rs, 0), Patch::Clear);
    assert_eq!(java_pick(&rs, 2), Patch::Assign("/j8".to_string()));
    assert_eq!(java_pick(&rs, 3), Patch::Unchanged);
}

#[test]
fn the_loader_row_and_overview() {
    let versions = vec!["0.16".to_string()];
    assert_eq!(loader_version_shown(None, &versions), "0.16");
    assert_eq!(loader_version_shown(None, &Vec::new()), "Latest");
    let mine = "0.15".to_string();
    assert_eq!(loader_version_shown(Some(&mine), &versions), "0.15");
    assert_eq!(loader_row_text(GameLoader::Quilt), "The Quilt loader version used to launch this cluster.");
    assert_eq!(overview_body(false, 3), OverviewBody::Loading);
    assert_eq!(overview_body(true, 0), OverviewBody::Placeholder);
    assert_eq!(overview_body(true, 3), OverviewBody::Analytics);
    assert_eq!(overview_subtitle("PvP"), "Play history & servers for PvP");
}

#[test]
fn a_reset_clears_only_its_field() {
    let u = clear_update(Field::MemMax);
    assert_eq!(u.mem_max, Patch::Clear);
    assert_eq!(u.force_fullscreen, Patch::Unchanged);
    assert_eq!(u.resolution, Patch::Unchanged);
    assert_eq!(u.java_path, Patch::Unchanged);
    assert_eq!(u.hook_pre, Patch::Unchanged);
    let u = clear_update(Field::JavaPath);
    assert_eq!(u.java_path, Patch::Clear);
    assert_eq!(u.mem_max, Patch::Unchanged);
    let u = clear_update(Field::ForceFullscreen);
    assert_eq!(u.force_fullscreen, Patch::Clear);
    let u = clear_update(Field::Resolution);
    assert_eq!(u.resolution, Patch::Clear);
}

#[test]
fn a_command_patch_goes_to_its_hook() {
    let u = TextField::Wrapper.patch(Patch::Assign("gamescope".to_string()));
    assert_eq!(u.hook_wrapper, Patch::Assign("gamescope".to_string()));
    assert_eq!(u.hook_pre, Patch::Unchanged);
    assert_eq!(u.hook_post, Patch::Unchanged);
    assert_eq!(u.mem_max, Patch::Unchanged);
    let u = TextField::Post.patch(Patch::Clear);
    assert_eq!(u.hook_post, Patch::Clear);
}
