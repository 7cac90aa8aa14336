use proton_prefix_manager::cleaner;
use proton_prefix_manager::cleaner::{InstallRef, LibraryScan, ToolDirScan, ToolEntry};
use proton_prefix_manager::config;
use proton_prefix_manager::models::GameInfo;
use proton_prefix_manager::output;
use proton_prefix_manager::output::OutputFormat;
use proton_prefix_manager::sort;
use proton_prefix_manager::sort::GameSortKey;
use proton_prefix_manager::ui;
use proton_prefix_manager::ui::{SortOption, TriState};
use proton_prefix_manager::validator;
use proton_prefix_manager::validator::{CheckStatus, PrefixFacts, RegFileFact};

fn healthy_facts() -> PrefixFacts {
    PrefixFacts {
        exists: true,
        is_dir: true,
        pfx_exists: true,
        pfx_empty: false,
        drive_c_is_dir: true,
        dosdevices_is_dir: true,
        system_reg: RegFileFact::NonEmpty,
        user_reg: RegFileFact::NonEmpty,
        userdef_reg: RegFileFact::NonEmpty,
        winetricks_log: false,
        windows_dir: true,
        program_files: false,
        steamuser_dir: false,
        broken_symlinks: 0,
        version: None,
        runtime_exists: false,
    }
}

#[test]
fn test_validate_prefix_missing() {
    let mut facts = healthy_facts();
    facts.exists = false;
    let results = validator::validate_prefix(&facts);
    assert!(matches!(results[0].status, CheckStatus::Fail(_)));
}

#[test]
fn test_validate_prefix_ok() {
    let facts = healthy_facts();
    let results = validator::validate_prefix(&facts);
    assert!(results
        .iter()
        .all(|r| !matches!(r.status, CheckStatus::Fail(_))));
}

#[test]
fn missing_registry_file_fails_its_check() {
    let mut facts = healthy_facts();
    facts.user_reg = RegFileFact::Missing;
    let results = validator::validate_prefix(&facts);
    let reg = results.iter().find(|r| r.label == "user.reg").unwrap();
    match &reg.status {
        CheckStatus::Fail(m) => assert_eq!(m, "Missing"),
        _ => panic!("expected a failure"),
    }
}

#[test]
fn broken_links_and_missing_runtime_are_reported() {
    let mut facts = healthy_facts();
    facts.broken_symlinks = 3;
    facts.version = Some("Proton 4.2".to_string());
    facts.runtime_exists = false;
    let results = validator::validate_prefix(&facts);
    let links = results.iter().find(|r| r.label == "Symlinks").unwrap();
    match &links.status {
        CheckStatus::Warning(m) => assert_eq!(m, "3 broken links"),
        _ => panic!("expected a caveat"),
    }
    let rt = results.iter().find(|r| r.label == "Proton runtime").unwrap();
    match &rt.status {
        CheckStatus::Fail(m) => assert_eq!(m, "Version 'Proton 4.2' missing"),
        _ => panic!("expected a failure"),
    }
}

#[test]
fn cleanup_scan_reports_each_orphan_category() {
    let libs = vec![LibraryScan {
        path: "/lib".to_string(),
        manifests: vec![InstallRef { app_id: 620, installdir: "Portal 2".to_string() }],
        common_entries: vec!["Portal 2".to_string(), "Leftover".to_string()],
        compat_ids: vec![620, 999],
        shader_ids: vec![777],
    }];
    let tools = vec![ToolDirScan {
        path: "/tools".to_string(),
        entries: vec![
            ToolEntry { name: "Good".to_string(), has_proton: true, has_proton_sh: false },
            ToolEntry { name: "Broken".to_string(), has_proton: false, has_proton_sh: false },
        ],
    }];
    let r = cleaner::scan(&libs, &tools);
    assert_eq!(r.install_folders.len(), 1);
    assert_eq!(r.install_folders[0].path, "/lib/steamapps/common/Leftover");
    assert_eq!(r.install_folders[0].reason, "No matching appmanifest");
    assert!(r.install_folders[0].selected && r.install_folders[0].verified);
    assert_eq!(r.prefixes.len(), 1);
    assert_eq!(r.prefixes[0].path, "/lib/steamapps/compatdata/999");
    assert_eq!(r.prefixes[0].app_id, Some(999));
    assert_eq!(r.prefixes[0].reason, "No appmanifest found for AppID 999");
    assert_eq!(r.shader_caches.len(), 1);
    assert_eq!(r.shader_caches[0].path, "/lib/steamapps/shadercache/777");
    assert_eq!(r.tools.len(), 1);
    assert_eq!(r.tools[0].path, "/tools/Broken");
    assert_eq!(r.tools[0].reason, "Missing proton executable");
    assert!(!r.tools[0].selected && !r.tools[0].verified);
}

#[test]
fn tool_with_launcher_script_is_valid() {
    assert!(cleaner::is_valid_tool(false, true));
    assert!(cleaner::is_valid_tool(true, false));
    assert!(!cleaner::is_valid_tool(false, false));
}

fn game(app_id: u32, name: &str, last_played: u64, modified: u64) -> GameInfo {
    let mut g = GameInfo::new(app_id, name.to_string(), format!("/cd/{}", app_id), true, last_played)
        .ok()
        .unwrap();
    g.set_modified(modified);
    g
}

#[test]
fn sort_games_orders_by_name_case_insensitively() {
    let mut games = vec![game(1, "zulu", 0, 0), game(2, "Alpha", 0, 0), game(3, "mike", 0, 0)];
    sort::sort_games(&mut games, GameSortKey::Name, false);
    let names: Vec<&str> = games.iter().map(|g| g.name()).collect();
    assert_eq!(names, vec!["Alpha", "mike", "zulu"]);
    sort::sort_games(&mut games, GameSortKey::Name, true);
    let names: Vec<&str> = games.iter().map(|g| g.name()).collect();
    assert_eq!(names, vec!["zulu", "mike", "Alpha"]);
}

#[test]
fn sort_games_orders_by_timestamps_and_identifier() {
    let mut games = vec![game(3, "c", 5, 30), game(1, "a", 9, 10), game(2, "b", 1, 20)];
    sort::sort_games(&mut games, GameSortKey::LastPlayed, false);
    let ids: Vec<u32> = games.iter().map(|g| g.app_id()).collect();
    assert_eq!(ids, vec![2, 3, 1]);
    sort::sort_games(&mut games, GameSortKey::LastUpdated, false);
    let ids: Vec<u32> = games.iter().map(|g| g.app_id()).collect();
    assert_eq!(ids, vec![1, 2, 3]);
    sort::sort_games(&mut games, GameSortKey::AppId, true);
    let ids: Vec<u32> = games.iter().map(|g| g.app_id()).collect();
    assert_eq!(ids, vec![3, 2, 1]);
}

#[test]
fn compare_games_reports_equal_under_version_key() {
    let a = game(1, "a", 0, 0);
    let b = game(2, "b", 0, 0);
    assert_eq!(
        sort::compare_games(&a, &b, GameSortKey::ProtonVersion),
        std::cmp::Ordering::Equal
    );
    assert_eq!(
        sort::compare_games(&a, &b, GameSortKey::AppId),
        std::cmp::Ordering::Less
    );
}

#[test]
fn tri_state_filters_by_property() {
    assert!(TriState::Any.matches(true) && TriState::Any.matches(false));
    assert!(TriState::Has.matches(true) && !TriState::Has.matches(false));
    assert!(TriState::Missing.matches(false) && !TriState::Missing.matches(true));
    assert_eq!(TriState::Any.label(), "Any");
}

#[test]
fn sort_option_maps_to_key_and_direction() {
    assert_eq!(SortOption::NameAsc.as_key(), (GameSortKey::Name, false));
    assert_eq!(SortOption::ModifiedDesc.as_key(), (GameSortKey::LastUpdated, true));
    assert_eq!(GameSortKey::LastPlayed.label(), "Last Played");
}

#[test]
fn determine_format_gives_machine_formats_precedence() {
    assert!(matches!(output::determine_format(true, true, &None), OutputFormat::Json));
    assert!(matches!(output::determine_format(false, true, &None), OutputFormat::Plain));
    match output::determine_format(false, false, &Some(";".to_string())) {
        OutputFormat::Delimited(d) => assert_eq!(d, ";"),
        _ => panic!("expected the delimited format"),
    }
    assert!(matches!(output::determine_format(false, false, &None), OutputFormat::Normal));
}

#[test]
fn game_config_round_trips_through_manifest_text() {
    let manifest = "\"AppState\" { \"appid\" \"620\" \"name\" \"Portal 2\" }";
    let cfg = config::game_config_from_manifest(manifest, None);
    assert_eq!(cfg.proton, None);
    assert_eq!(cfg.launch_options, "");
    assert!(cfg.cloud_sync);
    assert!(cfg.auto_update);

    let updated = config::apply_game_config(
        manifest,
        &config::GameConfig {
            proton: Some("Proton 8".to_string()),
            launch_options: "-novid".to_string(),
            auto_update: false,
            cloud_sync: false,
        },
    );
    let back = config::game_config_from_manifest(&updated, None);
    assert_eq!(back.proton, Some("Proton 8".to_string()));
    assert_eq!(back.launch_options, "-novid");
    assert!(!back.cloud_sync);
    assert!(!back.auto_update);
}

#[test]
fn settings_launch_options_win_over_manifest() {
    let manifest = "\"AppState\" { \"LaunchOptions\" \"-manifest\" }";
    let cfg = config::game_config_from_manifest(manifest, Some("-settings".to_string()));
    assert_eq!(cfg.launch_options, "-settings");
}

#[test]
fn advanced_search_filters_by_query_and_flags() {
    let mut with_prefix = GameInfo::new(620, "Portal 2".to_string(), "/cd/620".to_string(), true, 0)
        .ok()
        .unwrap();
    with_prefix.set_prefix_exists(true);
    let orphan = GameInfo::new(700, "App 700".to_string(), "/cd/700".to_string(), false, 0)
        .ok()
        .unwrap();
    let games = vec![with_prefix, orphan];

    let hits = ui::perform_search(games.clone(), "PORTAL", TriState::Any, TriState::Any);
    assert_eq!(hits.len(), 1);
    assert_eq!(hits[0].app_id(), 620);

    let hits = ui::perform_search(games.clone(), "700", TriState::Any, TriState::Any);
    assert_eq!(hits.len(), 1);
    assert_eq!(hits[0].app_id(), 700);

    let hits = ui::perform_search(games.clone(), "", TriState::Has, TriState::Any);
    assert_eq!(hits.len(), 1);
    assert_eq!(hits[0].app_id(), 620);

    let hits = ui::perform_search(games, "", TriState::Any, TriState::Missing);
    assert_eq!(hits.len(), 1);
    assert_eq!(hits[0].app_id(), 700);
}
