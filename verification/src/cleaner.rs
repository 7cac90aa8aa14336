use vstd::prelude::*;
use crate::strutil::dec_str;
use crate::strutil::path_join;
use crate::strutil::str_concat;
use crate::strutil::str_eq;
use crate::strutil::u32_to_string;

verus! {

/// One manifest reference: the identifier it declares and the
/// installation directory it names.
pub struct InstallRef {
    pub app_id: u32,
    pub installdir: String,
}

/// What the caller observed of one library for a cleanup scan.
pub struct LibraryScan {
    pub path: String,
    pub manifests: Vec<InstallRef>,
    pub common_entries: Vec<String>,
    pub compat_ids: Vec<u32>,
    pub shader_ids: Vec<u32>,
}

/// What the caller observed of one entry under a configured tool root.
pub struct ToolEntry {
    pub name: String,
    pub has_proton: bool,
    pub has_proton_sh: bool,
}

/// What the caller observed of one configured tool root.
pub struct ToolDirScan {
    pub path: String,
    pub entries: Vec<ToolEntry>,
}

/// One sweepable item found by a cleanup scan.
pub struct RuntimeItem {
    pub path: String,
    pub app_id: Option<u32>,
    pub reason: String,
    pub selected: bool,
    pub verified: bool,
}

/// Everything a cleanup scan found, by category.
pub struct ScanResults {
    pub install_folders: Vec<RuntimeItem>,
    pub prefixes: Vec<RuntimeItem>,
    pub shader_caches: Vec<RuntimeItem>,
    pub tools: Vec<RuntimeItem>,
}

/// Mathematical model of a sweepable item.
#[verifier::ext_equal]
pub struct IRec {
    pub path: Seq<char>,
    pub app_id: Option<u32>,
    pub reason: Seq<char>,
    pub selected: bool,
    pub verified: bool,
}

/// The model of a sweepable item.
pub open spec fn item_view(i: RuntimeItem) -> IRec {
    IRec {
        path: i.path@,
        app_id: i.app_id,
        reason: i.reason@,
        selected: i.selected,
        verified: i.verified,
    }
}

/// Some manifest in some library declares this identifier.
pub open spec fn appid_known(libs: Seq<LibraryScan>, id: u32) -> bool {
    exists|a: int, b: int|
        0 <= a < libs.len() && 0 <= b < libs[a].manifests@.len() && (
        #[trigger] libs[a].manifests@[b]).app_id == id
}

/// Some manifest in some library names this installation directory.
pub open spec fn installdir_known(libs: Seq<LibraryScan>, name: Seq<char>) -> bool {
    exists|a: int, b: int|
        0 <= a < libs.len() && 0 <= b < libs[a].manifests@.len() && (
        #[trigger] libs[a].manifests@[b]).installdir@ == name
}

/// A tool directory entry is a usable runtime while it holds the runtime
/// executable or its launcher script.
pub fn is_valid_tool(has_proton: bool, has_proton_sh: bool) -> (r: bool)
    ensures
        r == (has_proton || has_proton_sh),
{
    has_proton || has_proton_sh
}

/// The orphaned installation folders of one library: entries of the
/// shared-tools directory that no manifest anywhere names.
pub open spec fn lib_orphan_folders(
    libs: Seq<LibraryScan>,
    lib: LibraryScan,
    entries: Seq<String>,
) -> Seq<IRec>
    decreases entries,
{
    if entries.len() == 0 {
        Seq::empty()
    } else {
        let head = if !installdir_known(libs, entries[0]@) {
            seq![
                IRec {
                    path: lib.path@ + "/steamapps/common/"@ + entries[0]@,
                    app_id: None,
                    reason: "No matching appmanifest"@,
                    selected: true,
                    verified: true,
                },
            ]
        } else {
            Seq::<IRec>::empty()
        };
        head + lib_orphan_folders(libs, lib, entries.drop_first())
    }
}

/// The orphaned identifier-named directories of one library under the
/// given subdirectory: identifiers that no manifest anywhere declares.
pub open spec fn lib_orphan_ids(
    libs: Seq<LibraryScan>,
    lib: LibraryScan,
    ids: Seq<u32>,
    mid: Seq<char>,
) -> Seq<IRec>
    decreases ids,
{
    if ids.len() == 0 {
        Seq::empty()
    } else {
        let head = if !appid_known(libs, ids[0]) {
            seq![
                IRec {
                    path: lib.path@ + mid + dec_str(ids[0] as nat),
                    app_id: Some(ids[0]),
                    reason: "No appmanifest found for AppID "@ + dec_str(ids[0] as nat),
                    selected: true,
                    verified: true,
                },
            ]
        } else {
            Seq::<IRec>::empty()
        };
        head + lib_orphan_ids(libs, lib, ids.drop_first(), mid)
    }
}

/// The unusable entries of one tool root.
pub open spec fn dir_bad_tools(dir: ToolDirScan, entries: Seq<ToolEntry>) -> Seq<IRec>
    decreases entries,
{
    if entries.len() == 0 {
        Seq::empty()
    } else {
        let e = entries[0];
        let head = if !(e.has_proton || e.has_proton_sh) {
            seq![
                IRec {
                    path: dir.path@ + "/"@ + e.name@,
                    app_id: None,
                    reason: "Missing proton executable"@,
                    selected: false,
                    verified: false,
                },
            ]
        } else {
            Seq::<IRec>::empty()
        };
        head + dir_bad_tools(dir, entries.drop_first())
    }
}

/// One category across all libraries, library order kept.
pub open spec fn all_orphan_folders(libs: Seq<LibraryScan>, rest: Seq<LibraryScan>) -> Seq<IRec>
    decreases rest,
{
    if rest.len() == 0 {
        Seq::empty()
    } else {
        lib_orphan_folders(libs, rest[0], rest[0].common_entries@) + all_orphan_folders(
            libs,
            rest.drop_first(),
        )
    }
}

/// Orphaned runtime-state directories across all libraries.
pub open spec fn all_orphan_prefixes(libs: Seq<LibraryScan>, rest: Seq<LibraryScan>) -> Seq<IRec>
    decreases rest,
{
    if rest.len() == 0 {
        Seq::empty()
    } else {
        lib_orphan_ids(libs, rest[0], rest[0].compat_ids@, "/steamapps/compatdata/"@)
            + all_orphan_prefixes(libs, rest.drop_first())
    }
}

/// Unused shader caches across all libraries.
pub open spec fn all_orphan_shaders(libs: Seq<LibraryScan>, rest: Seq<LibraryScan>) -> Seq<IRec>
    decreases rest,
{
    if rest.len() == 0 {
        Seq::empty()
    } else {
        lib_orphan_ids(libs, rest[0], rest[0].shader_ids@, "/steamapps/shadercache/"@)
            + all_orphan_shaders(libs, rest.drop_first())
    }
}

/// Unusable tools across all configured tool roots.
pub open spec fn all_bad_tools(dirs: Seq<ToolDirScan>) -> Seq<IRec>
    decreases dirs,
{
    if dirs.len() == 0 {
        Seq::empty()
    } else {
        dir_bad_tools(dirs[0], dirs[0].entries@) + all_bad_tools(dirs.drop_first())
    }
}

fn has_appid(libs: &Vec<LibraryScan>, id: u32) -> (r: bool)
    ensures
        r == appid_known(libs@, id),
{
    let mut a: usize = 0;
    while a < libs.len()
        invariant
            a <= libs@.len(),
            forall|x: int, y: int|
                0 <= x < a && 0 <= y < libs@[x].manifests@.len() ==> (
                #[trigger] libs@[x].manifests@[y]).app_id != id,
        decreases libs@.len() - a,
    {
        let ms = &libs[a].manifests;
        let mut b: usize = 0;
        while b < ms.len()
            invariant
                b <= ms@.len(),
                a < libs@.len(),
                ms@ == libs@[a as int].manifests@,
                forall|y: int| 0 <= y < b ==> (#[trigger] ms@[y]).app_id != id,
            decreases ms@.len() - b,
        {
            if ms[b].app_id == id {
                proof {
                    assert(libs@[a as int].manifests@[b as int].app_id == id);
                }
                return true;
            }
            b = b + 1;
        }
        a = a + 1;
    }
    false
}

fn has_installdir(libs: &Vec<LibraryScan>, name: &str) -> (r: bool)
    ensures
        r == installdir_known(libs@, name@),
{
    let mut a: usize = 0;
    while a < libs.len()
        invariant
            a <= libs@.len(),
            forall|x: int, y: int|
                0 <= x < a && 0 <= y < libs@[x].manifests@.len() ==> (
                #[trigger] libs@[x].manifests@[y]).installdir@ != name@,
        decreases libs@.len() - a,
    {
        let ms = &libs[a].manifests;
        let mut b: usize = 0;
        while b < ms.len()
            invariant
                b <= ms@.len(),
                a < libs@.len(),
                ms@ == libs@[a as int].manifests@,
                forall|y: int| 0 <= y < b ==> (#[trigger] ms@[y]).installdir@ != name@,
            decreases ms@.len() - b,
    {
            if str_eq(ms[b].installdir.as_str(), name) {
                proof {
                    assert(libs@[a as int].manifests@[b as int].installdir@ == name@);
                }
                return true;
            }
            b = b + 1;
        }
        a = a + 1;
    }
    false
}

/// Scans for sweepable leftovers: installation folders without a
/// manifest, runtime-state directories and shader caches whose identifier
/// no manifest declares, and tool-root entries without a runtime
/// executable.  One library's findings never abort the others.
pub fn scan(libraries: &Vec<LibraryScan>, tool_dirs: &Vec<ToolDirScan>) -> (r: ScanResults)
    ensures
        r.install_folders@.map_values(|i: RuntimeItem| item_view(i)) == all_orphan_folders(
            libraries@,
            libraries@,
        ),
        r.prefixes@.map_values(|i: RuntimeItem| item_view(i)) == all_orphan_prefixes(
            libraries@,
            libraries@,
        ),
        r.shader_caches@.map_values(|i: RuntimeItem| item_view(i)) == all_orphan_shaders(
            libraries@,
            libraries@,
        ),
        r.tools@.map_values(|i: RuntimeItem| item_view(i)) == all_bad_tools(tool_dirs@),
{
    let install_folders = scan_folders(libraries);
    let prefixes = scan_ids(libraries, true);
    let shader_caches = scan_ids(libraries, false);
    let tools = scan_tools_x(tool_dirs);
    ScanResults { install_folders, prefixes, shader_caches, tools }
}

fn scan_folders(libraries: &Vec<LibraryScan>) -> (r: Vec<RuntimeItem>)
    ensures
        r@.map_values(|i: RuntimeItem| item_view(i)) == all_orphan_folders(libraries@, libraries@),
{
    let mut out: Vec<RuntimeItem> = Vec::new();
    let mut a: usize = 0;
    proof {
        assert(libraries@.subrange(0, libraries@.len() as int) =~= libraries@);
        assert(out@.map_values(|i: RuntimeItem| item_view(i)) + all_orphan_folders(
            libraries@,
            libraries@,
        ) =~= all_orphan_folders(libraries@, libraries@));
    }
    while a < libraries.len()
        invariant
            a <= libraries@.len(),
            out@.map_values(|i: RuntimeItem| item_view(i)) + all_orphan_folders(
                libraries@,
                libraries@.subrange(a as int, libraries@.len() as int),
            ) == all_orphan_folders(libraries@, libraries@),
        decreases libraries@.len() - a,
    {
        let ghost tail = libraries@.subrange(a as int, libraries@.len() as int);
        proof {
            assert(tail[0] == libraries@[a as int]);
            assert(tail.drop_first() =~= libraries@.subrange(
                a as int + 1,
                libraries@.len() as int,
            ));
        }
        let entries = &libraries[a].common_entries;
        let ghost lib = libraries@[a as int];
        proof {
            assert(entries@.subrange(0, entries@.len() as int) =~= entries@);
        }
        let mut b: usize = 0;
        while b < entries.len()
            invariant
                b <= entries@.len(),
                a < libraries@.len(),
                entries@ == libraries@[a as int].common_entries@,
                lib == libraries@[a as int],
                tail == libraries@.subrange(a as int, libraries@.len() as int),
                tail[0] == lib,
                tail.drop_first() == libraries@.subrange(a as int + 1, libraries@.len() as int),
                out@.map_values(|i: RuntimeItem| item_view(i)) + lib_orphan_folders(
                    libraries@,
                    lib,
                    entries@.subrange(b as int, entries@.len() as int),
                ) + all_orphan_folders(libraries@, tail.drop_first()) == all_orphan_folders(
                    libraries@,
                    libraries@,
                ),
            decreases entries@.len() - b,
        {
            let ghost etail = entries@.subrange(b as int, entries@.len() as int);
            let ghost before = out@.map_values(|i: RuntimeItem| item_view(i));
            proof {
                assert(etail[0] == entries@[b as int]);
                assert(etail.drop_first() =~= entries@.subrange(
                    b as int + 1,
                    entries@.len() as int,
                ));
            }
            if !has_installdir(libraries, entries[b].as_str()) {
                let base = str_concat(libraries[a].path.as_str(), "/steamapps/common/");
                let path = str_concat(base.as_str(), entries[b].as_str());
                let item = RuntimeItem {
                    path,
                    app_id: None,
                    reason: String::from_str("No matching appmanifest"),
                    selected: true,
                    verified: true,
                };
                out.push(item);
                proof {
                    let after = out@.map_values(|i: RuntimeItem| item_view(i));
                    assert(after =~= before.push(item_view(out@[out@.len() - 1])));
                    assert(after + lib_orphan_folders(libraries@, lib, etail.drop_first())
                        =~= before + (seq![item_view(out@[out@.len() - 1])] + lib_orphan_folders(
                        libraries@,
                        lib,
                        etail.drop_first(),
                    )));
                }
            }
            b = b + 1;
        }
        proof {
            assert(entries@.subrange(entries@.len() as int, entries@.len() as int) =~= Seq::<
                String,
            >::empty());
            assert(lib_orphan_folders(libraries@, lib, Seq::<String>::empty()) == Seq::<
                IRec,
            >::empty());
            assert(out@.map_values(|i: RuntimeItem| item_view(i)) + Seq::<IRec>::empty()
                + all_orphan_folders(libraries@, tail.drop_first()) =~= out@.map_values(
                |i: RuntimeItem| item_view(i),
            ) + all_orphan_folders(libraries@, tail.drop_first()));
        }
        a = a + 1;
    }
    proof {
        assert(libraries@.subrange(libraries@.len() as int, libraries@.len() as int) =~= Seq::<
            LibraryScan,
        >::empty());
        assert(out@.map_values(|i: RuntimeItem| item_view(i)) + Seq::<IRec>::empty()
            =~= out@.map_values(|i: RuntimeItem| item_view(i)));
    }
    out
}

fn scan_ids(libraries: &Vec<LibraryScan>, compat: bool) -> (r: Vec<RuntimeItem>)
    ensures
        compat ==> r@.map_values(|i: RuntimeItem| item_view(i)) == all_orphan_prefixes(
            libraries@,
            libraries@,
        ),
        !compat ==> r@.map_values(|i: RuntimeItem| item_view(i)) == all_orphan_shaders(
            libraries@,
            libraries@,
        ),
{
    let ghost mid: Seq<char> = if compat {
        "/steamapps/compatdata/"@
    } else {
        "/steamapps/shadercache/"@
    };
    let mut out: Vec<RuntimeItem> = Vec::new();
    let mut a: usize = 0;
    proof {
        assert(libraries@.subrange(0, libraries@.len() as int) =~= libraries@);
    }
    while a < libraries.len()
        invariant
            a <= libraries@.len(),
            mid == (if compat {
                "/steamapps/compatdata/"@
            } else {
                "/steamapps/shadercache/"@
            }),
            compat ==> out@.map_values(|i: RuntimeItem| item_view(i)) + all_orphan_prefixes(
                libraries@,
                libraries@.subrange(a as int, libraries@.len() as int),
            ) == all_orphan_prefixes(libraries@, libraries@),
            !compat ==> out@.map_values(|i: RuntimeItem| item_view(i)) + all_orphan_shaders(
                libraries@,
                libraries@.subrange(a as int, libraries@.len() as int),
            ) == all_orphan_shaders(libraries@, libraries@),
        decreases libraries@.len() - a,
    {
        let ghost tail = libraries@.subrange(a as int, libraries@.len() as int);
        proof {
            assert(tail[0] == libraries@[a as int]);
            assert(tail.drop_first() =~= libraries@.subrange(
                a as int + 1,
                libraries@.len() as int,
            ));
        }
        let ids = if compat {
            &libraries[a].compat_ids
        } else {
            &libraries[a].shader_ids
        };
        let ghost lib = libraries@[a as int];
        proof {
            assert(ids@.subrange(0, ids@.len() as int) =~= ids@);
        }
        let mut b: usize = 0;
        while b < ids.len()
            invariant
                b <= ids@.len(),
                a < libraries@.len(),
                mid == (if compat {
                    "/steamapps/compatdata/"@
                } else {
                    "/steamapps/shadercache/"@
                }),
                ids@ == (if compat {
                    libraries@[a as int].compat_ids@
                } else {
                    libraries@[a as int].shader_ids@
                }),
                lib == libraries@[a as int],
                tail == libraries@.subrange(a as int, libraries@.len() as int),
                tail[0] == lib,
                tail.drop_first() == libraries@.subrange(a as int + 1, libraries@.len() as int),
                compat ==> out@.map_values(|i: RuntimeItem| item_view(i)) + lib_orphan_ids(
                    libraries@,
                    lib,
                    ids@.subrange(b as int, ids@.len() as int),
                    mid,
                ) + all_orphan_prefixes(libraries@, tail.drop_first()) == all_orphan_prefixes(
                    libraries@,
                    libraries@,
                ),
                !compat ==> out@.map_values(|i: RuntimeItem| item_view(i)) + lib_orphan_ids(
                    libraries@,
                    lib,
                    ids@.subrange(b as int, ids@.len() as int),
                    mid,
                ) + all_orphan_shaders(libraries@, tail.drop_first()) == all_orphan_shaders(
                    libraries@,
                    libraries@,
                ),
            decreases ids@.len() - b,
        {
            let ghost itail = ids@.subrange(b as int, ids@.len() as int);
            let ghost before = out@.map_values(|i: RuntimeItem| item_view(i));
            proof {
                assert(itail[0] == ids@[b as int]);
                assert(itail.drop_first() =~= ids@.subrange(b as int + 1, ids@.len() as int));
            }
            let id = ids[b];
            if !has_appid(libraries, id) {
                let mid_str = if compat {
                    "/steamapps/compatdata/"
                } else {
                    "/steamapps/shadercache/"
                };
                let base = str_concat(libraries[a].path.as_str(), mid_str);
                let path = str_concat(base.as_str(), u32_to_string(id).as_str());
                let reason = str_concat(
                    "No appmanifest found for AppID ",
                    u32_to_string(id).as_str(),
                );
                let item = RuntimeItem {
                    path,
                    app_id: Some(id),
                    reason,
                    selected: true,
                    verified: true,
                };
                out.push(item);
                proof {
                    let after = out@.map_values(|i: RuntimeItem| item_view(i));
                    assert(after =~= before.push(item_view(out@[out@.len() - 1])));
                    if compat {
                        assert(after + lib_orphan_ids(libraries@, lib, itail.drop_first(), mid)
                            =~= before + (seq![item_view(out@[out@.len() - 1])] + lib_orphan_ids(
                            libraries@,
                            lib,
                            itail.drop_first(),
                            mid,
                        )));
                    } else {
                        assert(after + lib_orphan_ids(libraries@, lib, itail.drop_first(), mid)
                            =~= before + (seq![item_view(out@[out@.len() - 1])] + lib_orphan_ids(
                            libraries@,
                            lib,
                            itail.drop_first(),
                            mid,
                        )));
                    }
                }
            }
            b = b + 1;
        }
        proof {
            assert(ids@.subrange(ids@.len() as int, ids@.len() as int) =~= Seq::<u32>::empty());
            assert(lib_orphan_ids(libraries@, lib, Seq::<u32>::empty(), mid) == Seq::<
                IRec,
            >::empty());
            assert(out@.map_values(|i: RuntimeItem| item_view(i)) + Seq::<IRec>::empty()
                + all_orphan_prefixes(libraries@, tail.drop_first()) =~= out@.map_values(
                |i: RuntimeItem| item_view(i),
            ) + all_orphan_prefixes(libraries@, tail.drop_first()));
            assert(out@.map_values(|i: RuntimeItem| item_view(i)) + Seq::<IRec>::empty()
                + all_orphan_shaders(libraries@, tail.drop_first()) =~= out@.map_values(
                |i: RuntimeItem| item_view(i),
            ) + all_orphan_shaders(libraries@, tail.drop_first()));
        }
        a = a + 1;
    }
    proof {
        assert(libraries@.subrange(libraries@.len() as int, libraries@.len() as int) =~= Seq::<
            LibraryScan,
        >::empty());
        assert(out@.map_values(|i: RuntimeItem| item_view(i)) + Seq::<IRec>::empty()
            =~= out@.map_values(|i: RuntimeItem| item_view(i)));
    }
    out
}

fn scan_tools_x(tool_dirs: &Vec<ToolDirScan>) -> (r: Vec<RuntimeItem>)
    ensures
        r@.map_values(|i: RuntimeItem| item_view(i)) == all_bad_tools(tool_dirs@),
{
    let mut out: Vec<RuntimeItem> = Vec::new();
    let mut a: usize = 0;
    proof {
        assert(tool_dirs@.subrange(0, tool_dirs@.len() as int) =~= tool_dirs@);
    }
    while a < tool_dirs.len()
        invariant
            a <= tool_dirs@.len(),
            out@.map_values(|i: RuntimeItem| item_view(i)) + all_bad_tools(
                tool_dirs@.subrange(a as int, tool_dirs@.len() as int),
            ) == all_bad_tools(tool_dirs@),
        decreases tool_dirs@.len() - a,
    {
        let ghost tail = tool_dirs@.subrange(a as int, tool_dirs@.len() as int);
        proof {
            assert(tail[0] == tool_dirs@[a as int]);
            assert(tail.drop_first() =~= tool_dirs@.subrange(
                a as int + 1,
                tool_dirs@.len() as int,
            ));
        }
        let entries = &tool_dirs[a].entries;
        let ghost dir = tool_dirs@[a as int];
        proof {
            assert(entries@.subrange(0, entries@.len() as int) =~= entries@);
        }
        let mut b: usize = 0;
        while b < entries.len()
            invariant
                b <= entries@.len(),
                a < tool_dirs@.len(),
                entries@ == tool_dirs@[a as int].entries@,
                dir == tool_dirs@[a as int],
                tail == tool_dirs@.subrange(a as int, tool_dirs@.len() as int),
                tail[0] == dir,
                tail.drop_first() == tool_dirs@.subrange(a as int + 1, tool_dirs@.len() as int),
                out@.map_values(|i: RuntimeItem| item_view(i)) + dir_bad_tools(
                    dir,
                    entries@.subrange(b as int, entries@.len() as int),
                ) + all_bad_tools(tail.drop_first()) == all_bad_tools(tool_dirs@),
            decreases entries@.len() - b,
        {
            let ghost etail = entries@.subrange(b as int, entries@.len() as int);
            let ghost before = out@.map_values(|i: RuntimeItem| item_view(i));
            proof {
                assert(etail[0] == entries@[b as int]);
                assert(etail.drop_first() =~= entries@.subrange(
                    b as int + 1,
                    entries@.len() as int,
                ));
            }
            if !is_valid_tool(entries[b].has_proton, entries[b].has_proton_sh) {
                let path = path_join(tool_dirs[a].path.as_str(), entries[b].name.as_str());
                let item = RuntimeItem {
                    path,
                    app_id: None,
                    reason: String::from_str("Missing proton executable"),
                    selected: false,
                    verified: false,
                };
                out.push(item);
                proof {
                    let after = out@.map_values(|i: RuntimeItem| item_view(i));
                    assert(after =~= before.push(item_view(out@[out@.len() - 1])));
                    assert(after + dir_bad_tools(dir, etail.drop_first()) =~= before + (seq![
                        item_view(out@[out@.len() - 1]),
                    ] + dir_bad_tools(dir, etail.drop_first())));
                }
            }
            b = b + 1;
        }
        proof {
            assert(entries@.subrange(entries@.len() as int, entries@.len() as int) =~= Seq::<
                ToolEntry,
            >::empty());
            assert(dir_bad_tools(dir, Seq::<ToolEntry>::empty()) == Seq::<IRec>::empty());
            assert(out@.map_values(|i: RuntimeItem| item_view(i)) + Seq::<IRec>::empty()
                + all_bad_tools(tail.drop_first()) =~= out@.map_values(|i: RuntimeItem| item_view(i))
                + all_bad_tools(tail.drop_first()));
        }
        a = a + 1;
    }
    proof {
        assert(tool_dirs@.subrange(tool_dirs@.len() as int, tool_dirs@.len() as int) =~= Seq::<
            ToolDirScan,
        >::empty());
        assert(out@.map_values(|i: RuntimeItem| item_view(i)) + Seq::<IRec>::empty()
            =~= out@.map_values(|i: RuntimeItem| item_view(i)));
    }
    out
}

} // verus!
