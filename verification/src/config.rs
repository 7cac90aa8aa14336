use vstd::prelude::*;
use crate::manifest;
use crate::manifest::spec_get_value;
use crate::vdf::spec_set_or_insert;

verus! {

/// The per-application settings kept in its manifest and the identity's
/// settings document.
pub struct GameConfig {
    pub proton: Option<String>,
    pub launch_options: String,
    pub auto_update: bool,
    pub cloud_sync: bool,
}

/// The runtime override a manifest names, read as an optional field.
pub open spec fn spec_cfg_proton(text: Seq<char>) -> Option<Seq<char>> {
    spec_get_value(text, "CompatToolOverride"@)
}

/// Builds the settings view of one application from its manifest text and
/// the launch options found in the identity's settings document, when
/// any: the settings document wins for launch options, cloud sync is on
/// unless the manifest turns it off, and automatic updates are on exactly
/// when the manifest keeps the default behavior.
pub fn game_config_from_manifest(contents: &str, settings_launch: Option<String>) -> (r:
    GameConfig)
    ensures
        (match r.proton {
            Some(p) => spec_cfg_proton(contents@) == Some(p@),
            None => spec_cfg_proton(contents@) is None,
        }),
        (match settings_launch {
            Some(l) => r.launch_options@ == l@,
            None => match spec_get_value(contents@, "LaunchOptions"@) {
                Some(v) => r.launch_options@ == v,
                None => r.launch_options@ == Seq::<char>::empty(),
            },
        }),
        r.cloud_sync == (match spec_get_value(contents@, "AllowCloudSaves"@) {
            Some(v) => v == "1"@,
            None => true,
        }),
        r.auto_update == (match spec_get_value(contents@, "AutoUpdateBehavior"@) {
            Some(v) => v == "0"@,
            None => true,
        }),
{
    let proton = manifest::get_value(contents, "CompatToolOverride");
    let launch = match settings_launch {
        Some(l) => l,
        None => match manifest::get_value(contents, "LaunchOptions") {
            Some(v) => v,
            None => String::new(),
        },
    };
    let cloud = match manifest::get_value(contents, "AllowCloudSaves") {
        Some(v) => crate::strutil::str_eq(v.as_str(), "1"),
        None => true,
    };
    let auto = match manifest::get_value(contents, "AutoUpdateBehavior") {
        Some(v) => crate::strutil::str_eq(v.as_str(), "0"),
        None => true,
    };
    GameConfig { proton, launch_options: launch, auto_update: auto, cloud_sync: cloud }
}

/// The manifest text after the settings view is written back into it:
/// launch options, then the runtime override when one is chosen, then the
/// cloud-sync and auto-update flags in their stored encodings.
pub open spec fn spec_apply_config(text: Seq<char>, cfg: GameConfig) -> Seq<char> {
    let s1 = spec_set_or_insert(text, "LaunchOptions"@, cfg.launch_options@);
    let s2 = match cfg.proton {
        Some(p) => spec_set_or_insert(s1, "CompatToolOverride"@, p@),
        None => s1,
    };
    let s3 = spec_set_or_insert(
        s2,
        "AllowCloudSaves"@,
        if cfg.cloud_sync {
            "1"@
        } else {
            "0"@
        },
    );
    spec_set_or_insert(
        s3,
        "AutoUpdateBehavior"@,
        if cfg.auto_update {
            "0"@
        } else {
            "1"@
        },
    )
}

/// Writes the settings view back into a manifest text.
pub fn apply_game_config(contents: &str, cfg: &GameConfig) -> (r: String)
    ensures
        r@ == spec_apply_config(contents@, *cfg),
{
    let s1 = manifest::update_or_insert(contents, "LaunchOptions", cfg.launch_options.as_str());
    let s2 = match &cfg.proton {
        Some(p) => manifest::update_or_insert(s1.as_str(), "CompatToolOverride", p.as_str()),
        None => s1,
    };
    let cloud_val = if cfg.cloud_sync {
        "1"
    } else {
        "0"
    };
    let s3 = manifest::update_or_insert(s2.as_str(), "AllowCloudSaves", cloud_val);
    let auto_val = if cfg.auto_update {
        "0"
    } else {
        "1"
    };
    manifest::update_or_insert(s3.as_str(), "AutoUpdateBehavior", auto_val)
}

} // verus!
