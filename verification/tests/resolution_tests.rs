use proton_prefix_manager::error::Error;
use proton_prefix_manager::models::{GameInfo, SteamLibrary};
use proton_prefix_manager::paths;
use proton_prefix_manager::paths::PathFact;
use proton_prefix_manager::scanner;
use proton_prefix_manager::scanner::AppEntry;
use proton_prefix_manager::user_config;
use proton_prefix_manager::user_config::UserDataDir;

fn fact(path: &str, exists: bool, canonical: &str) -> PathFact {
    PathFact { path: path.to_string(), exists, canonical: canonical.to_string() }
}

#[test]
fn test_game_info_creation() {
    let prefix_path = "/data/compatdata/123456".to_string();

    let game = GameInfo::new(123456, "Test Game".to_string(), prefix_path.clone(), true, 0)
        .ok()
        .unwrap();
    assert_eq!(game.app_id(), 123456);
    assert_eq!(game.name(), "Test Game");
    assert_eq!(game.prefix_path(), &prefix_path);
    assert!(game.has_manifest());

    assert!(GameInfo::new(0, "Test Game".to_string(), prefix_path.clone(), true, 0).is_err());
    assert!(GameInfo::new(123456, String::new(), prefix_path.clone(), true, 0).is_err());
}

#[test]
fn test_steam_library_creation() {
    let library = SteamLibrary::new("test/path".to_string(), true, true).ok().unwrap();
    assert_eq!(library.path(), "test/path");
    assert!(library.is_valid(true, true));
    assert_eq!(library.steamapps_path(), "test/path/steamapps");
    assert_eq!(library.compatdata_path(), "test/path/steamapps/compatdata");
    assert_eq!(library.join("sub"), "test/path/sub");

    assert!(SteamLibrary::new("nonexistent".to_string(), false, false).is_err());
}

#[test]
fn test_find_proton_prefix() {
    let libraries = vec!["/data/library".to_string()];
    let result = scanner::find_proton_prefix(123456, &libraries, &vec![true]);
    assert_eq!(
        result,
        Some("/data/library/steamapps/compatdata/123456".to_string())
    );

    let result = scanner::find_proton_prefix(999999, &libraries, &vec![false]);
    assert!(result.is_none());
}

#[test]
fn test_find_userdata_dir() {
    let user_dir = Some("/home/u/.steam/steam/userdata/111111111".to_string());
    let result = scanner::find_userdata_dir(&user_dir, 123456, true);
    assert_eq!(
        result,
        Some("/home/u/.steam/steam/userdata/111111111/123456".to_string())
    );
    assert!(scanner::find_userdata_dir(&user_dir, 999999, false).is_none());
    assert!(scanner::find_userdata_dir(&None, 123456, true).is_none());
}

#[test]
fn test_userdata_dirs_deduplicates_symlink() {
    let facts = vec![
        fact("/home/u/.steam/steam/userdata", true, "/real/userdata"),
        fact("/home/u/.local/share/Steam/userdata", true, "/real/userdata"),
    ];
    let dirs = paths::userdata_dirs(&facts);
    assert_eq!(dirs.len(), 1);
    assert_eq!(dirs[0], "/real/userdata");
}

#[test]
fn test_userdata_dirs_checks_steam_root() {
    let facts = vec![
        fact("/home/u/.steam/steam/userdata", false, "/home/u/.steam/steam/userdata"),
        fact("/home/u/.steam/root/userdata", true, "/home/u/.steam/root/userdata"),
    ];
    let dirs = paths::userdata_dirs(&facts);
    assert_eq!(dirs.len(), 1);
    assert_eq!(dirs[0], "/home/u/.steam/root/userdata");
}

#[test]
fn candidate_lists_follow_home_conventions() {
    let bases = paths::candidate_base_dirs("/home/u");
    assert_eq!(bases.len(), 5);
    assert_eq!(bases[0], "/home/u/.steam/steam");
    assert_eq!(bases[4], "/home/u/.steam");
    let configs = paths::candidate_config_dirs("/home/u");
    assert_eq!(configs[2], "/home/u/.steam/config");
    let ud = paths::userdata_candidates(&bases);
    assert_eq!(ud[0], "/home/u/.steam/steam/userdata");
}

#[test]
fn test_find_localconfig_files_respects_loginusers() {
    let contents = r#""users" {
            "111111111" { "MostRecent" "0" }
            "222222222" { "MostRecent" "1" }
        }"#;
    let recent = user_config::most_recent_user_id(&vec![contents.to_string()]);
    assert_eq!(recent, Some("222222222".to_string()));

    let dirs = vec![UserDataDir {
        path: "/home/u/.steam/steam/userdata".to_string(),
        users: vec!["111111111".to_string(), "222222222".to_string()],
        users_with_config: vec!["111111111".to_string(), "222222222".to_string()],
    }];
    let files = user_config::find_localconfig_files(&recent, &dirs);
    assert_eq!(files.len(), 1);
    assert_eq!(
        files[0],
        "/home/u/.steam/steam/userdata/222222222/config/localconfig.vdf"
    );
}

#[test]
fn test_find_localconfig_handles_steamid64() {
    let contents = r#""users" { "76561198001481842" { "MostRecent" "1" } }"#;
    let recent = user_config::most_recent_user_id(&vec![contents.to_string()]);
    assert_eq!(recent, Some("41216114".to_string()));

    let dirs = vec![UserDataDir {
        path: "/home/u/.steam/steam/userdata".to_string(),
        users: vec!["41216114".to_string()],
        users_with_config: vec!["41216114".to_string()],
    }];
    let files = user_config::find_localconfig_files(&recent, &dirs);
    assert_eq!(files.len(), 1);
    assert_eq!(
        files[0],
        "/home/u/.steam/steam/userdata/41216114/config/localconfig.vdf"
    );
}

#[test]
fn login_history_second_identity_wins_when_flagged() {
    let contents = r#""users" {
            "111111111" { "MostRecent" "0" }
            "222222222" { "MostRecent" "1" }
        }"#;
    let uid = user_config::most_recent_user(contents);
    assert_eq!(uid, Some("222222222".to_string()));
}

#[test]
fn fallback_scan_accepts_exactly_one_settings_file() {
    let recent = Some("999999999".to_string());
    let one = vec![UserDataDir {
        path: "/ud".to_string(),
        users: vec!["1".to_string()],
        users_with_config: vec!["1".to_string()],
    }];
    assert_eq!(
        user_config::expected_localconfig_path(&recent, &one),
        Some("/ud/1/config/localconfig.vdf".to_string())
    );
    let two = vec![UserDataDir {
        path: "/ud".to_string(),
        users: vec!["1".to_string(), "2".to_string()],
        users_with_config: vec!["1".to_string(), "2".to_string()],
    }];
    assert_eq!(user_config::expected_localconfig_path(&recent, &two), None);
    assert_eq!(user_config::expected_localconfig_path(&None, &two), None);
}

#[test]
fn expected_path_prefers_identity_directory() {
    let recent = Some("42".to_string());
    let dirs = vec![
        UserDataDir {
            path: "/a".to_string(),
            users: vec![],
            users_with_config: vec![],
        },
        UserDataDir {
            path: "/b".to_string(),
            users: vec!["42".to_string()],
            users_with_config: vec![],
        },
    ];
    assert_eq!(
        user_config::expected_localconfig_path(&recent, &dirs),
        Some("/b/42/config/localconfig.vdf".to_string())
    );
}

#[test]
fn scan_manifest_without_prefix_yields_manifest_item() {
    let manifests = vec![AppEntry { app_id: 620, name: "Portal 2".to_string(), last_played: 0 }];
    let games = scanner::load_games_from_library(manifests, &vec![], "/lib/steamapps/compatdata");
    assert_eq!(games.len(), 1);
    assert_eq!(games[0].app_id(), 620);
    assert_eq!(games[0].name(), "Portal 2");
    assert!(games[0].has_manifest());
    assert!(!games[0].prefix_exists());
}

#[test]
fn scan_prefix_without_manifest_yields_placeholder_item() {
    let games =
        scanner::load_games_from_library(vec![], &vec![700], "/lib/steamapps/compatdata");
    assert_eq!(games.len(), 1);
    assert_eq!(games[0].app_id(), 700);
    assert_eq!(games[0].name(), "App 700");
    assert!(!games[0].has_manifest());
    assert!(games[0].prefix_exists());
    assert_eq!(games[0].last_played(), 0);
}

#[test]
fn scan_records_each_identifier_once_with_manifest_data_winning() {
    let manifests = vec![
        AppEntry { app_id: 620, name: "Portal 2".to_string(), last_played: 7 },
        AppEntry { app_id: 620, name: "Duplicate".to_string(), last_played: 9 },
    ];
    let games = scanner::load_games_from_library(manifests, &vec![620, 700], "/cd");
    assert_eq!(games.len(), 2);
    assert_eq!(games[0].app_id(), 620);
    assert_eq!(games[0].name(), "Portal 2");
    assert!(games[0].prefix_exists());
    assert_eq!(games[1].app_id(), 700);
    assert_eq!(games[1].name(), "App 700");
}

#[test]
fn test_search_finds_game() {
    let appid = 7777;
    let name = "Test Game";
    let mut g = GameInfo::new(appid, name.to_string(), "/cd/7777".to_string(), true, 0)
        .ok()
        .unwrap();
    g.set_prefix_exists(true);
    let results = scanner::search_games(vec![g], "test");
    assert_eq!(results.len(), 1);
    assert_eq!(results[0].app_id(), appid);
    assert_eq!(results[0].name(), name);
}

#[test]
fn search_never_returns_manifest_less_placeholders() {
    let mut orphan = GameInfo::new(700, "App 700".to_string(), "/cd/700".to_string(), false, 0)
        .ok()
        .unwrap();
    orphan.set_prefix_exists(true);
    let results = scanner::search_games(vec![orphan], "App");
    assert!(results.is_empty());
}

#[test]
fn test_search_no_results() {
    let mut g = GameInfo::new(8888, "Another Game".to_string(), "/cd/8888".to_string(), true, 0)
        .ok()
        .unwrap();
    g.set_prefix_exists(true);
    let results = scanner::search_games(vec![g], "nomatch");
    assert!(results.is_empty());
}

#[test]
fn libraries_from_paths_requires_one_valid_root() {
    let paths_in = vec!["/a".to_string(), "/b".to_string()];
    let libs =
        scanner::libraries_from_paths(paths_in.clone(), &vec![false, true], &vec![false, true])
            .ok()
            .unwrap();
    assert_eq!(libs.len(), 1);
    assert_eq!(libs[0].path(), "/b");

    let err = scanner::libraries_from_paths(paths_in, &vec![false, false], &vec![false, false]);
    assert!(matches!(err, Err(Error::SteamNotFound)));
}

#[test]
fn steamid_narrowing_keeps_low_bits_and_rejects_text() {
    assert_eq!(
        user_config::steamid_to_accountid("76561198001481842"),
        Some("41216114".to_string())
    );
    assert_eq!(user_config::steamid_to_accountid("41216114"), Some("41216114".to_string()));
    assert_eq!(user_config::steamid_to_accountid("abc"), None);
    assert_eq!(user_config::steamid_to_accountid(""), None);
}

#[test]
fn error_messages_carry_their_context() {
    assert_eq!(
        Error::Parse("bad".to_string()).message(),
        "Parse error: bad"
    );
    assert_eq!(
        Error::LibraryNotFound("/x".to_string()).message(),
        "Steam library not found at: /x"
    );
    assert_eq!(
        Error::SteamNotFound.message(),
        "Steam installation not found. Please ensure Steam is installed and running."
    );
}

#[test]
fn libraries_keep_manifest_order_of_valid_roots() {
    let declared = vec!["/a".to_string(), "/b".to_string(), "/c".to_string()];
    let libs = scanner::libraries_from_paths(
        declared,
        &vec![true, false, true],
        &vec![true, false, true],
    )
    .ok()
    .unwrap();
    let roots: Vec<&String> = libs.iter().map(|l| l.path()).collect();
    assert_eq!(roots, vec!["/a", "/c"]);
}

#[test]
fn merged_pass_keeps_each_identifier_once_across_libraries() {
    let g = |id: u32, name: &str| {
        GameInfo::new(id, name.to_string(), format!("/cd/{}", id), true, 0)
            .ok()
            .unwrap()
    };
    let part_a = vec![g(620, "Portal 2"), g(400, "Portal")];
    let part_b = vec![g(620, "Portal 2 again"), g(70, "Half-Life")];
    let merged = scanner::load_games_from_libraries(vec![part_a, part_b]);
    let ids: Vec<u32> = merged.iter().map(|x| x.app_id()).collect();
    assert_eq!(ids, vec![620, 400, 70]);
    assert_eq!(merged[0].name(), "Portal 2");
}

#[test]
fn refresh_prefers_manifest_over_fallback() {
    let manifest = "\"AppState\" { \"appid\" \"620\" \"name\" \"Portal 2\" \"LastPlayed\" \"5\" }";
    let hit = Some((manifest.to_string(), "/lib/steamapps/compatdata".to_string()));
    let g = scanner::refresh_game_info(620, &hit, &None).ok().unwrap();
    assert_eq!(g.app_id(), 620);
    assert_eq!(g.name(), "Portal 2");
    assert!(g.has_manifest());
    assert_eq!(g.last_played(), 5);
    assert_eq!(g.prefix_path(), "/lib/steamapps/compatdata/620");

    let g = scanner::refresh_game_info(700, &None, &Some("/cd/700".to_string()))
        .ok()
        .unwrap();
    assert_eq!(g.name(), "App 700");
    assert!(!g.has_manifest());

    assert!(scanner::refresh_game_info(700, &None, &None).is_err());
}

#[test]
fn tool_scan_pairs_names_with_availability() {
    let names = vec!["winecfg".to_string(), "protontricks".to_string()];
    let avail = vec![true, false];
    let pairs = proton_prefix_manager::dependencies::scan_tools(&names, &avail);
    assert_eq!(pairs.len(), 2);
    assert_eq!(pairs[0], ("winecfg".to_string(), true));
    assert_eq!(pairs[1], ("protontricks".to_string(), false));
}
