use proton_prefix_manager::strutil;
use proton_prefix_manager::terminal;
use proton_prefix_manager::user_config;

#[test]
fn decimal_rendering_and_parsing_agree() {
    assert_eq!(strutil::u32_to_string(0), "0");
    assert_eq!(strutil::u32_to_string(620), "620");
    assert_eq!(strutil::u64_to_string(u64::MAX), "18446744073709551615");
    assert_eq!(strutil::parse_u32("620"), Some(620));
    assert_eq!(strutil::parse_u32("0"), Some(0));
    assert_eq!(strutil::parse_u64("18446744073709551615"), Some(u64::MAX));
    assert_eq!(strutil::parse_u64("18446744073709551616"), None);
    assert_eq!(strutil::parse_u32("4294967296"), None);
    assert_eq!(strutil::parse_u32(""), None);
    assert_eq!(strutil::parse_u32("12a"), None);
}

#[test]
fn string_helpers_behave_like_their_contracts_say() {
    assert!(strutil::str_contains("GE-Proton8-15", "Proton8"));
    assert!(!strutil::str_contains("short", "longer needle"));
    assert!(strutil::str_contains("anything", ""));
    assert!(strutil::starts_with("Proton 8", "Proton"));
    assert!(!strutil::starts_with("roton 8", "Proton"));
    assert_eq!(strutil::trim("  x y\t\n"), "x y");
    assert_eq!(strutil::trim("   "), "");
    assert_eq!(strutil::first_token("8.0-5 beta"), "8.0");
    assert_eq!(strutil::first_token(""), "");
    assert_eq!(strutil::strip_proton_prefix("ProtonProton 8"), " 8");
    assert_eq!(strutil::path_join("/a", "b"), "/a/b");
    let parts = strutil::split_char("a=b=c", '=');
    assert_eq!(parts, vec!["a", "b", "c"]);
    let parts = strutil::split_char("", '=');
    assert_eq!(parts, vec![""]);
}

#[test]
fn first_settings_text_with_an_answer_wins() {
    let empty = "\"UserLocalConfigStore\" { }".to_string();
    let with123 = user_config::update_launch_options("", 123, "-first").unwrap();
    let also123 = user_config::update_launch_options("", 123, "-second").unwrap();
    let texts = vec![empty, with123, also123];
    assert_eq!(
        user_config::get_launch_options(&texts, 123),
        Some("-first".to_string())
    );
    assert_eq!(user_config::get_launch_options(&texts, 999), None);

    let tool = user_config::update_compat_tool("", 77, Some("Proton 8")).unwrap();
    assert_eq!(
        user_config::get_compat_tool(&vec![tool], 77),
        Some("Proton 8".to_string())
    );
}

#[test]
fn terminal_choice_prefers_the_environment() {
    let avail = vec!["konsole".to_string(), "kitty".to_string()];
    assert_eq!(
        terminal::find_terminal(&Some("kitty".to_string()), &avail),
        Some("kitty".to_string())
    );
    assert_eq!(
        terminal::find_terminal(&Some("alacritty".to_string()), &avail),
        Some("konsole".to_string())
    );
    assert_eq!(terminal::find_terminal(&None, &vec![]), None);
    assert!(terminal::terminal_available(&None, &avail));
    assert!(!terminal::terminal_available(&None, &vec![]));
}
