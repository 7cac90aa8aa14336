use proton_prefix_manager::matcher;
use proton_prefix_manager::matcher::{DirListing, Sys32Dlls, VersionSources};
use proton_prefix_manager::repair;
use proton_prefix_manager::repair::{RepairAction, RepairEvent, RepairState, RepairStatus};

fn listing(path: &str, entries: &[&str]) -> DirListing {
    DirListing {
        path: path.to_string(),
        entries: entries.iter().map(|e| e.to_string()).collect(),
    }
}

fn sources() -> VersionSources {
    VersionSources {
        version_file: None,
        parent_version_file: None,
        parent_dir_name: None,
        toolmanifest: None,
        proton_version_file: None,
        dist_info: None,
    }
}

#[test]
fn test_fake_prefix_parsing() {
    // Example test, replace with real logic later
    assert!(true);
}

#[test]
fn exact_label_match_wins_before_fuzzy_stage() {
    let libs = vec![listing("/lib", &["Proton 8.0-5"])];
    // A later root that only a loose substring match would pick.
    let tools = vec![listing("/tools", &["my proton 8.0-5 fork"])];
    let found = matcher::find_proton_runtime("Proton 8.0-5", &libs, &tools);
    assert_eq!(found, Some("/lib/steamapps/common/Proton 8.0-5".to_string()));
}

#[test]
fn normalized_short_form_matches_exactly() {
    let libs = vec![listing("/lib", &["Proton 8.0"])];
    let found = matcher::find_proton_runtime("Proton 8.0-5", &libs, &vec![]);
    assert_eq!(found, Some("/lib/steamapps/common/Proton 8.0".to_string()));
}

#[test]
fn unprefixed_label_gains_family_prefix() {
    let libs = vec![listing("/lib", &["Proton 8.0"])];
    let found = matcher::find_proton_runtime("8.0-5", &libs, &vec![]);
    assert_eq!(found, Some("/lib/steamapps/common/Proton 8.0".to_string()));
}

#[test]
fn tool_roots_are_searched_after_libraries() {
    let libs = vec![listing("/lib", &[])];
    let tools = vec![listing("/tools", &["Proton 9.0"])];
    let found = matcher::find_proton_runtime("Proton 9.0", &libs, &tools);
    assert_eq!(found, Some("/tools/Proton 9.0".to_string()));
}

#[test]
fn fuzzy_stage_matches_substring_case_insensitively() {
    let libs = vec![listing("/lib", &["GE-Proton8-15"])];
    let found = matcher::find_proton_runtime("proton8", &libs, &vec![]);
    assert_eq!(found, Some("/lib/steamapps/common/GE-Proton8-15".to_string()));
}

#[test]
fn no_stage_matching_yields_nothing() {
    let libs = vec![listing("/lib", &["Unrelated"])];
    assert_eq!(matcher::find_proton_runtime("Nothing 1.0", &libs, &vec![]), None);
}

#[test]
fn runtime_existence_uses_exact_stages_only() {
    let libs = vec![listing("/lib", &["Proton 8.0"])];
    assert!(matcher::proton_runtime_exists("Proton 8.0", &libs, &vec![]));
    assert!(!matcher::proton_runtime_exists("Proton 7.0", &libs, &vec![]));
}

#[test]
fn version_file_wins_over_every_other_source() {
    let mut s = sources();
    s.version_file = Some("  Proton 8.0-5\n".to_string());
    s.parent_dir_name = Some("Proton 7".to_string());
    assert_eq!(matcher::detect_proton_version(&s), Some("Proton 8.0-5".to_string()));
}

#[test]
fn parent_directory_name_counts_when_it_mentions_the_family() {
    let mut s = sources();
    s.parent_dir_name = Some("Proton 7.0".to_string());
    assert_eq!(matcher::detect_proton_version(&s), Some("Proton 7.0".to_string()));
    let mut t = sources();
    t.parent_dir_name = Some("compatdata".to_string());
    assert_eq!(matcher::detect_proton_version(&t), None);
}

#[test]
fn toolmanifest_name_field_is_read() {
    let mut s = sources();
    s.toolmanifest = Some("\"manifest\"\n{\n  \"name\" \"Proton Experimental\"\n}\n".to_string());
    assert_eq!(
        matcher::detect_proton_version(&s),
        Some("Proton Experimental".to_string())
    );
}

#[test]
fn dist_info_version_variable_is_read() {
    let mut s = sources();
    s.dist_info = Some("NAME=dist\nDIST_VERSION= 8.0-5 \n".to_string());
    assert_eq!(matcher::detect_proton_version(&s), Some("Proton 8.0-5".to_string()));
}

#[test]
fn translation_layers_follow_observed_libraries() {
    let info = matcher::collect_prefix_info(
        &sources(),
        &Sys32Dlls { d3d9: false, d3d10: false, d3d11: true, d3d12: false },
    );
    assert!(info.has_dxvk);
    assert!(!info.has_vkd3d);
    assert_eq!(info.version, None);
}

#[test]
fn repair_runs_to_success_on_zero_exit() {
    let (s1, a1) = repair::repair_step(
        RepairState::Start("/cd/620".to_string()),
        RepairEvent::Started,
    );
    match &a1 {
        RepairAction::EnsureDirs { pfx, drive_c, dosdevices, stamp } => {
            assert_eq!(pfx, "/cd/620/pfx");
            assert_eq!(drive_c, "/cd/620/pfx/drive_c");
            assert_eq!(dosdevices, "/cd/620/pfx/dosdevices");
            assert_eq!(stamp, "/cd/620/pfx/.update-timestamp");
        }
        _ => panic!("expected directory creation"),
    }
    let (s2, a2) = repair::repair_step(
        s1,
        RepairEvent::DirsResult { ok: true, message: String::new() },
    );
    assert!(matches!(a2, RepairAction::DetectVersion));
    let (s3, a3) = repair::repair_step(s2, RepairEvent::Version(Some("Proton 8.0".to_string())));
    assert!(matches!(a3, RepairAction::LocateRuntime { .. }));
    let (s4, a4) = repair::repair_step(
        s3,
        RepairEvent::RuntimeFound(Some("/lib/steamapps/common/Proton 8.0".to_string())),
    );
    assert!(matches!(a4, RepairAction::FindBootstrap { .. }));
    let (s5, a5) = repair::repair_step(
        s4,
        RepairEvent::Bootstrap(Some(("/rt/files/bin/wineboot".to_string(), false))),
    );
    match &a5 {
        RepairAction::Invoke { program, through_wine, pfx } => {
            assert_eq!(program, "/rt/files/bin/wineboot");
            assert!(!through_wine);
            assert_eq!(pfx, "/cd/620/pfx");
        }
        _ => panic!("expected an invocation"),
    }
    let (s6, _) = repair::repair_step(s5, RepairEvent::ExitStatus(Some(0)));
    assert!(matches!(s6, RepairState::Done(RepairStatus::Success)));
}

#[test]
fn repair_failure_paths_are_reported() {
    // A fatal directory failure aborts the pass.
    let (s1, _) = repair::repair_step(
        RepairState::Start("/cd/620".to_string()),
        RepairEvent::Started,
    );
    let (sf, _) = repair::repair_step(
        s1,
        RepairEvent::DirsResult { ok: false, message: "disk full".to_string() },
    );
    match sf {
        RepairState::Done(RepairStatus::Failed(m)) => assert_eq!(m, "disk full"),
        _ => panic!("expected a fatal failure"),
    }

    // An undetected version falls back to the general search path.
    let (s1, _) = repair::repair_step(
        RepairState::Start("/cd/620".to_string()),
        RepairEvent::Started,
    );
    let (s2, _) = repair::repair_step(
        s1,
        RepairEvent::DirsResult { ok: true, message: String::new() },
    );
    let (s3, a3) = repair::repair_step(s2, RepairEvent::Version(None));
    match &a3 {
        RepairAction::InvokeFallback { pfx } => assert_eq!(pfx, "/cd/620/pfx"),
        _ => panic!("expected the fallback invocation"),
    }
    let (s4, _) = repair::repair_step(s3, RepairEvent::ExitStatus(Some(2)));
    match s4 {
        RepairState::Done(RepairStatus::Failed(m)) => {
            assert_eq!(m, "bootstrap exited with status 2")
        }
        _ => panic!("expected a terminal failure"),
    }
}

#[test]
fn bootstrap_candidates_follow_conventional_layout() {
    let wb = repair::wineboot_candidates("/rt");
    assert_eq!(wb.len(), 3);
    assert_eq!(wb[0], "/rt/dist/bin/wineboot");
    let present = vec![false, true, false];
    assert_eq!(
        repair::find_wineboot(&wb, &present),
        Some("/rt/files/bin/wineboot".to_string())
    );
    let wine = repair::wine_candidates("/rt");
    assert_eq!(wine.len(), 6);
    assert_eq!(
        repair::find_wine(&wine, &vec![false, false, false, false, false, true]),
        Some("/rt/bin/wine".to_string())
    );
    assert_eq!(repair::find_wine(&wine, &vec![false; 6]), None);
}

#[test]
fn candidate_names_cover_both_label_shapes() {
    let c = matcher::runtime_candidates("Proton 8.0-5");
    assert_eq!(c.len(), 2);
    assert_eq!(c[0], "Proton 8.0-5");
    assert_eq!(c[1], "Proton 8.0");
    let c = matcher::runtime_candidates("8.0-5");
    assert_eq!(c.len(), 2);
    assert_eq!(c[0], "8.0-5");
    assert_eq!(c[1], "Proton 8.0");
    let c = matcher::runtime_candidates("Proton");
    assert_eq!(c.len(), 1);
    assert_eq!(c[0], "Proton");
}

#[test]
fn whitespace_only_version_file_is_no_label() {
    let mut s = sources();
    s.version_file = Some("   \n".to_string());
    assert_eq!(matcher::detect_proton_version(&s), None);
    s.proton_version_file = Some("Proton 7.0\n".to_string());
    assert_eq!(matcher::detect_proton_version(&s), Some("Proton 7.0".to_string()));
}
