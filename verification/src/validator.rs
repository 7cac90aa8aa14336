use vstd::prelude::*;
use crate::strutil::dec_str;
use crate::strutil::str_concat;
use crate::strutil::u64_to_string;

verus! {

/// Status of one validation check.
pub enum CheckStatus {
    Pass,
    Fail(String),
    Warning(String),
}

/// Result of one validation check.
pub struct CheckResult {
    pub label: String,
    pub status: CheckStatus,
}

/// Mathematical model of a check status.
#[verifier::ext_equal]
pub enum SpecStatus {
    Pass,
    Fail(Seq<char>),
    Warning(Seq<char>),
}

/// Mathematical model of a check result.
#[verifier::ext_equal]
pub struct SpecCheck {
    pub label: Seq<char>,
    pub status: SpecStatus,
}

/// The model of a check result.
pub open spec fn check_view(c: CheckResult) -> SpecCheck {
    SpecCheck {
        label: c.label@,
        status: match c.status {
            CheckStatus::Pass => SpecStatus::Pass,
            CheckStatus::Fail(m) => SpecStatus::Fail(m@),
            CheckStatus::Warning(m) => SpecStatus::Warning(m@),
        },
    }
}

impl CheckResult {
    /// A passing check.
    pub fn pass(label: &str) -> (r: CheckResult)
        ensures
            check_view(r) == (SpecCheck { label: label@, status: SpecStatus::Pass }),
    {
        CheckResult { label: String::from_str(label), status: CheckStatus::Pass }
    }

    /// A failing check with its reason.
    pub fn fail(label: &str, msg: &str) -> (r: CheckResult)
        ensures
            check_view(r) == (SpecCheck { label: label@, status: SpecStatus::Fail(msg@) }),
    {
        CheckResult {
            label: String::from_str(label),
            status: CheckStatus::Fail(String::from_str(msg)),
        }
    }

    /// A check that passes with a caveat.
    pub fn warn(label: &str, msg: &str) -> (r: CheckResult)
        ensures
            check_view(r) == (SpecCheck { label: label@, status: SpecStatus::Warning(msg@) }),
    {
        CheckResult {
            label: String::from_str(label),
            status: CheckStatus::Warning(String::from_str(msg)),
        }
    }
}

/// What the caller observed of one registry file.
pub enum RegFileFact {
    Missing,
    Unreadable,
    Empty,
    NonEmpty,
}

/// What the caller observed of a runtime-state directory, gathered before
/// validation so the rules can be checked as pure facts.
pub struct PrefixFacts {
    pub exists: bool,
    pub is_dir: bool,
    pub pfx_exists: bool,
    pub pfx_empty: bool,
    pub drive_c_is_dir: bool,
    pub dosdevices_is_dir: bool,
    pub system_reg: RegFileFact,
    pub user_reg: RegFileFact,
    pub userdef_reg: RegFileFact,
    pub winetricks_log: bool,
    pub windows_dir: bool,
    pub program_files: bool,
    pub steamuser_dir: bool,
    pub broken_symlinks: u64,
    pub version: Option<String>,
    pub runtime_exists: bool,
}

/// The check one registry file yields.
pub open spec fn spec_reg_check(name: Seq<char>, f: RegFileFact) -> SpecCheck {
    match f {
        RegFileFact::Missing => SpecCheck { label: name, status: SpecStatus::Fail("Missing"@) },
        RegFileFact::Unreadable => SpecCheck {
            label: name,
            status: SpecStatus::Fail("Unreadable"@),
        },
        RegFileFact::Empty => SpecCheck {
            label: name,
            status: SpecStatus::Warning("File is empty"@),
        },
        RegFileFact::NonEmpty => SpecCheck { label: name, status: SpecStatus::Pass },
    }
}

/// The nine fixed checks of the inner structure, in report order.
pub open spec fn spec_dir_checks(f: PrefixFacts) -> Seq<SpecCheck> {
    seq![
        if f.drive_c_is_dir {
            SpecCheck { label: "drive_c"@, status: SpecStatus::Pass }
        } else {
            SpecCheck { label: "drive_c"@, status: SpecStatus::Fail("Missing drive_c directory"@) }
        },
        if f.dosdevices_is_dir {
            SpecCheck { label: "dosdevices"@, status: SpecStatus::Pass }
        } else {
            SpecCheck {
                label: "dosdevices"@,
                status: SpecStatus::Fail("Missing dosdevices directory"@),
            }
        },
        spec_reg_check("system.reg"@, f.system_reg),
        spec_reg_check("user.reg"@, f.user_reg),
        spec_reg_check("userdef.reg"@, f.userdef_reg),
        if f.winetricks_log {
            SpecCheck { label: "winetricks.log"@, status: SpecStatus::Pass }
        } else {
            SpecCheck { label: "winetricks.log"@, status: SpecStatus::Warning("Missing"@) }
        },
        if f.windows_dir {
            SpecCheck { label: "drive_c/windows"@, status: SpecStatus::Pass }
        } else {
            SpecCheck {
                label: "drive_c/windows"@,
                status: SpecStatus::Fail("Missing windows directory"@),
            }
        },
        if f.program_files {
            SpecCheck { label: "Program Files"@, status: SpecStatus::Pass }
        } else {
            SpecCheck { label: "Program Files"@, status: SpecStatus::Warning("Not found"@) }
        },
        if f.steamuser_dir {
            SpecCheck { label: "users/steamuser"@, status: SpecStatus::Pass }
        } else {
            SpecCheck { label: "users/steamuser"@, status: SpecStatus::Warning("Not found"@) }
        },
    ]
}

/// Every check a validation pass yields, in report order.  A missing or
/// non-directory target, or a missing inner environment directory, cuts
/// the report short at the failing check.
pub open spec fn spec_validate(f: PrefixFacts) -> Seq<SpecCheck> {
    if !f.exists {
        seq![
            SpecCheck {
                label: "Prefix directory"@,
                status: SpecStatus::Fail("Directory not found"@),
            },
        ]
    } else if !f.is_dir {
        seq![
            SpecCheck { label: "Prefix directory"@, status: SpecStatus::Fail("Not a directory"@) },
        ]
    } else if !f.pfx_exists {
        seq![
            SpecCheck { label: "Prefix directory"@, status: SpecStatus::Pass },
            SpecCheck { label: "pfx folder"@, status: SpecStatus::Fail("Missing pfx directory"@) },
        ]
    } else {
        let head = seq![
            SpecCheck { label: "Prefix directory"@, status: SpecStatus::Pass },
            SpecCheck { label: "pfx folder"@, status: SpecStatus::Pass },
        ];
        let empt = if f.pfx_empty {
            seq![
                SpecCheck {
                    label: "pfx folder"@,
                    status: SpecStatus::Fail("Prefix appears empty"@),
                },
            ]
        } else {
            Seq::<SpecCheck>::empty()
        };
        let dirs = spec_dir_checks(f);
        let links = if f.broken_symlinks > 0 {
            seq![
                SpecCheck {
                    label: "Symlinks"@,
                    status: SpecStatus::Warning(
                        dec_str(f.broken_symlinks as nat) + " broken links"@,
                    ),
                },
            ]
        } else {
            Seq::<SpecCheck>::empty()
        };
        let runtime = seq![
            match f.version {
                Some(v) => {
                    if f.runtime_exists {
                        SpecCheck { label: "Proton runtime"@, status: SpecStatus::Pass }
                    } else {
                        SpecCheck {
                            label: "Proton runtime"@,
                            status: SpecStatus::Fail("Version '"@ + v@ + "' missing"@),
                        }
                    }
                },
                None => SpecCheck {
                    label: "Proton runtime"@,
                    status: SpecStatus::Warning("Unknown version"@),
                },
            },
        ];
        head + empt + dirs + links + runtime
    }
}

fn reg_check_x(name: &str, f: &RegFileFact) -> (r: CheckResult)
    ensures
        check_view(r) == spec_reg_check(name@, *f),
{
    match f {
        RegFileFact::Missing => CheckResult::fail(name, "Missing"),
        RegFileFact::Unreadable => CheckResult::fail(name, "Unreadable"),
        RegFileFact::Empty => CheckResult::warn(name, "File is empty"),
        RegFileFact::NonEmpty => CheckResult::pass(name),
    }
}

#[verifier::rlimit(100)]
fn dirs_checks_x(f: &PrefixFacts) -> (r: Vec<CheckResult>)
    ensures
        r@.map_values(|c: CheckResult| check_view(c)) == spec_dir_checks(*f),
{
    let mut out: Vec<CheckResult> = Vec::new();
    if f.drive_c_is_dir {
        out.push(CheckResult::pass("drive_c"));
    } else {
        out.push(CheckResult::fail("drive_c", "Missing drive_c directory"));
    }
    if f.dosdevices_is_dir {
        out.push(CheckResult::pass("dosdevices"));
    } else {
        out.push(CheckResult::fail("dosdevices", "Missing dosdevices directory"));
    }
    out.push(reg_check_x("system.reg", &f.system_reg));
    out.push(reg_check_x("user.reg", &f.user_reg));
    out.push(reg_check_x("userdef.reg", &f.userdef_reg));
    if f.winetricks_log {
        out.push(CheckResult::pass("winetricks.log"));
    } else {
        out.push(CheckResult::warn("winetricks.log", "Missing"));
    }
    if f.windows_dir {
        out.push(CheckResult::pass("drive_c/windows"));
    } else {
        out.push(CheckResult::fail("drive_c/windows", "Missing windows directory"));
    }
    if f.program_files {
        out.push(CheckResult::pass("Program Files"));
    } else {
        out.push(CheckResult::warn("Program Files", "Not found"));
    }
    if f.steamuser_dir {
        out.push(CheckResult::pass("users/steamuser"));
    } else {
        out.push(CheckResult::warn("users/steamuser", "Not found"));
    }
    proof {
        assert(out@.map_values(|c: CheckResult| check_view(c)) =~= spec_dir_checks(*f));
    }
    out
}

/// Validates a runtime-state directory from the facts the caller
/// gathered: existence, inner structure, registry files, optional
/// heuristics, broken links, and whether the detected runtime version is
/// installed.
#[verifier::rlimit(100)]
#[verifier::spinoff_prover]
pub fn validate_prefix(f: &PrefixFacts) -> (r: Vec<CheckResult>)
    ensures
        r@.map_values(|c: CheckResult| check_view(c)) == spec_validate(*f),
{
    let mut out: Vec<CheckResult> = Vec::new();
    if !f.exists {
        out.push(CheckResult::fail("Prefix directory", "Directory not found"));
        proof {
            assert(out@.map_values(|c: CheckResult| check_view(c)) =~= spec_validate(*f));
        }
        return out;
    }
    if !f.is_dir {
        out.push(CheckResult::fail("Prefix directory", "Not a directory"));
        proof {
            assert(out@.map_values(|c: CheckResult| check_view(c)) =~= spec_validate(*f));
        }
        return out;
    }
    out.push(CheckResult::pass("Prefix directory"));
    if !f.pfx_exists {
        out.push(CheckResult::fail("pfx folder", "Missing pfx directory"));
        proof {
            assert(out@.map_values(|c: CheckResult| check_view(c)) =~= spec_validate(*f));
        }
        return out;
    }
    out.push(CheckResult::pass("pfx folder"));
    if f.pfx_empty {
        out.push(CheckResult::fail("pfx folder", "Prefix appears empty"));
    }
    let ghost m1 = out@.map_values(|c: CheckResult| check_view(c));
    let mut mid = dirs_checks_x(f);
    out.append(&mut mid);
    proof {
        assert(out@.map_values(|c: CheckResult| check_view(c)) =~= m1 + spec_dir_checks(*f));
    }
    if f.broken_symlinks > 0 {
        let msg = str_concat(u64_to_string(f.broken_symlinks).as_str(), " broken links");
        out.push(CheckResult::warn("Symlinks", msg.as_str()));
    }
    match &f.version {
        Some(v) => {
            if f.runtime_exists {
                out.push(CheckResult::pass("Proton runtime"));
            } else {
                let head = str_concat("Version '", v.as_str());
                let msg = str_concat(head.as_str(), "' missing");
                proof {
                    assert(msg@ =~= "Version '"@ + v@ + "' missing"@);
                }
                out.push(CheckResult::fail("Proton runtime", msg.as_str()));
            }
        },
        None => {
            out.push(CheckResult::warn("Proton runtime", "Unknown version"));
        },
    }
    proof {
        assert(out@.map_values(|c: CheckResult| check_view(c)) =~= spec_validate(*f));
    }
    out
}

} // verus!
