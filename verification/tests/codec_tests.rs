use proton_prefix_manager::manifest;
use proton_prefix_manager::user_config;
use proton_prefix_manager::vdf;
use proton_prefix_manager::vdf::Value;

fn get_str(doc: &vdf::Doc, path: &[&str]) -> Option<String> {
    let owned: Vec<String> = path.iter().map(|p| p.to_string()).collect();
    match vdf::get(doc, &owned) {
        Some(Value::Str(s)) => Some(s.clone()),
        _ => None,
    }
}

#[test]
fn test_parse_appmanifest() {
    let content = r#"
        "AppState"
        {
            "appid"     "123456"
            "name"      "Test Game"
            "other"     "value"
        }
        "#;
    let result = manifest::parse_appmanifest(content);
    assert!(result.is_some());
    let (appid, name, _) = result.unwrap();
    assert_eq!(appid, 123456);
    assert_eq!(name, "Test Game");
}

#[test]
fn test_parse_appmanifest_missing_fields() {
    let content = r#"
        "AppState"
        {
            "appid"     "123456"
            // No name field
        }
        "#;
    let result = manifest::parse_appmanifest(content);
    assert!(result.is_none());
}

#[test]
fn test_library_parsing() {
    let lib1 = "/srv/lib1";
    let lib2 = "/srv/lib2";
    let content = format!(
        "\"libraryfolders\" {{\n    \"0\" {{\n        \"path\" \"{}\"\n    }}\n    \"1\" {{\n        \"path\" \"{}\"\n    }}\n}}",
        lib1, lib2
    );
    let libs = manifest::parse_libraryfolders(&content).unwrap();
    assert_eq!(libs.len(), 2);
    assert!(libs.contains(&lib1.to_string()));
    assert!(libs.contains(&lib2.to_string()));
}

#[test]
fn test_update_launch_options_creates_section() {
    let contents = "";
    let updated = user_config::update_launch_options(contents, 123, "-novid").unwrap();
    assert_eq!(
        user_config::parse_launch_options(&updated, 123),
        Some("-novid".to_string())
    );
}

#[test]
fn test_update_compat_tool_creates_section() {
    let contents = "";
    let updated = user_config::update_compat_tool(contents, 123, Some("Proton 8")).unwrap();
    assert_eq!(
        user_config::parse_compat_tool(&updated, 123),
        Some("Proton 8".to_string())
    );
}

#[test]
fn set_or_insert_is_idempotent_on_parsed_document() {
    let doc = "\"AppState\"\n{\n\"appid\" \"620\"\n\"name\" \"Portal 2\"\n}\n";
    let once = vdf::set_or_insert(doc, "LaunchOptions", "-novid");
    let twice = vdf::set_or_insert(&once, "LaunchOptions", "-novid");
    assert_eq!(once, twice);
}

#[test]
fn set_or_insert_is_idempotent_from_empty() {
    let once = vdf::set_or_insert("", "LaunchOptions", "-novid");
    let twice = vdf::set_or_insert(&once, "LaunchOptions", "-novid");
    assert_eq!(once, twice);
}

#[test]
fn set_or_insert_then_get_returns_value() {
    let doc = "\"AppState\"\n{\n\"appid\" \"620\"\n}\n";
    let updated = vdf::set_or_insert(doc, "LaunchOptions", "-novid");
    let parsed = vdf::parse(&updated).ok().unwrap();
    assert_eq!(get_str(&parsed, &["LaunchOptions"]), Some("-novid".to_string()));
    assert_eq!(get_str(&parsed, &["appid"]), Some("620".to_string()));
}

#[test]
fn set_or_insert_replaces_existing_value() {
    let doc = "\"AppState\"\n{\n\"LaunchOptions\" \"-old\"\n\"appid\" \"620\"\n}\n";
    let updated = vdf::set_or_insert(doc, "LaunchOptions", "-new");
    let parsed = vdf::parse(&updated).ok().unwrap();
    assert_eq!(get_str(&parsed, &["LaunchOptions"]), Some("-new".to_string()));
    assert_eq!(get_str(&parsed, &["appid"]), Some("620".to_string()));
}

#[test]
fn empty_input_synthesizes_document_with_wrapper_lookup() {
    let doc = vdf::set_or_insert("", "LaunchOptions", "-novid");
    let parsed = vdf::parse(&doc).ok().unwrap();
    assert_eq!(get_str(&parsed, &["LaunchOptions"]), Some("-novid".to_string()));
}

#[test]
fn wrapper_key_is_descended_on_lookup() {
    let doc = "\"root\"\n{\n\"UserLocalConfigStore\"\n{\n\"LaunchOptions\" \"-wrapped\"\n}\n}\n";
    let parsed = vdf::parse(doc).ok().unwrap();
    assert_eq!(get_str(&parsed, &["LaunchOptions"]), Some("-wrapped".to_string()));
}

#[test]
fn nested_blocks_round_trip_through_writer() {
    let doc = "\"a\" { \"b\" { \"c\" \"d\" } \"e\" \"f\" }";
    let parsed = vdf::parse(doc).ok().unwrap();
    let text = vdf::to_text(&parsed);
    let reparsed = vdf::parse(&text).ok().unwrap();
    assert_eq!(get_str(&reparsed, &["b", "c"]), Some("d".to_string()));
    assert_eq!(get_str(&reparsed, &["e"]), Some("f".to_string()));
}

#[test]
fn malformed_document_is_rejected() {
    assert!(vdf::parse("\"unclosed\" {").is_err());
    assert!(vdf::parse("").is_err());
    assert!(vdf::parse("plain").is_err());
    assert!(vdf::parse("\"a\" \"b\" trailing").is_err());
}

#[test]
fn comments_are_skipped_between_tokens() {
    let doc = "\"a\" { // remark\n \"k\" \"v\"\n }";
    let parsed = vdf::parse(doc).ok().unwrap();
    assert_eq!(get_str(&parsed, &["k"]), Some("v".to_string()));
}

#[test]
fn update_or_insert_appends_before_final_delimiter() {
    let doc = "\"AppState\"\n{\n\"appid\" \"620\"\n}\n";
    let updated = manifest::update_or_insert(doc, "CompatToolOverride", "Proton 8");
    assert_eq!(
        manifest::get_value(&updated, "CompatToolOverride"),
        Some("Proton 8".to_string())
    );
    assert_eq!(manifest::get_value(&updated, "appid"), Some("620".to_string()));
}

#[test]
fn parse_appmanifest_reads_last_played() {
    let content = "\"AppState\" { \"appid\" \"620\" \"name\" \"Portal 2\" \"LastPlayed\" \"1700000000\" }";
    let (appid, name, lp) = manifest::parse_appmanifest(content).unwrap();
    assert_eq!(appid, 620);
    assert_eq!(name, "Portal 2");
    assert_eq!(lp, 1700000000);
}

#[test]
fn parse_appmanifest_installdir_reads_both_fields() {
    let content = "\"AppState\" { \"appid\" \"620\" \"installdir\" \"Portal 2\" }";
    let (appid, dir) = manifest::parse_appmanifest_installdir(content).unwrap();
    assert_eq!(appid, 620);
    assert_eq!(dir, "Portal 2");
}

#[test]
fn compat_tool_update_fills_defaults_and_clear_removes() {
    let set = user_config::update_compat_tool("", 321, Some("Proton 9")).unwrap();
    assert_eq!(user_config::parse_compat_tool(&set, 321), Some("Proton 9".to_string()));
    let cleared = user_config::update_compat_tool(&set, 321, None).unwrap();
    assert_eq!(user_config::parse_compat_tool(&cleared, 321), None);
}

#[test]
fn clearing_removes_duplicate_override_entries() {
    // Two override blocks for the same identifier: clearing removes both,
    // so the override reads back as absent.
    let doc = "\"UserLocalConfigStore\" {\n\"Software\" {\n\"Valve\" {\n\"Steam\" {\n\"CompatToolOverrides\" {\n\"321\" {\n\"name\" \"Proton 8\"\n}\n\"321\" {\n\"name\" \"Proton 7\"\n}\n}\n}\n}\n}\n}\n";
    assert_eq!(
        user_config::parse_compat_tool(doc, 321),
        Some("Proton 8".to_string())
    );
    let cleared = user_config::update_compat_tool(doc, 321, None).unwrap();
    assert_eq!(user_config::parse_compat_tool(&cleared, 321), None);
}
