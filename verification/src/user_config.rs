use vstd::prelude::*;
use crate::strutil::all_digits;
use crate::strutil::digits_val;
use crate::strutil::dec_str;
use crate::strutil::parse_u64;
use crate::strutil::path_join;
use crate::strutil::seq_contains_str;
use crate::strutil::str_eq;
use crate::strutil::u32_to_string;
use crate::strutil::u64_to_string;
use crate::strutil::vec_contains;
use crate::vdf;
use crate::vdf::SpecValue;
use crate::vdf::SpecEntry;
use crate::vdf::Value;
use crate::vdf::parse_doc;
use crate::vdf::obj_get;
use crate::vdf::spec_get;
use crate::vdf::spec_set_at;
use crate::vdf::spec_remove_at;

verus! {

// ---------------------------------------------------------------------------
// Identity narrowing.
// ---------------------------------------------------------------------------

/// The 32-bit account form of a decimal identifier: the low 32 bits of its
/// 64-bit reading, in decimal; nothing when the text is not a 64-bit
/// decimal number.
pub open spec fn spec_narrow(uid: Seq<char>) -> Option<Seq<char>> {
    if uid.len() > 0 && all_digits(uid) && digits_val(uid) <= u64::MAX {
        Some(dec_str((digits_val(uid) % 0x1_0000_0000) as nat))
    } else {
        None
    }
}

/// Narrows a 64-bit wide identifier to the 32-bit form used by
/// per-identity storage directories, keeping the low 32 bits.
pub fn steamid_to_accountid(uid: &str) -> (r: Option<String>)
    ensures
        match r {
            Some(s) => spec_narrow(uid@) == Some(s@),
            None => spec_narrow(uid@) is None,
        },
{
    match parse_u64(uid) {
        None => None,
        Some(v) => {
            let low = v & 0xFFFF_FFFF;
            proof {
                assert(v & 0xFFFF_FFFF == v % 0x1_0000_0000) by (bit_vector);
            }
            Some(u64_to_string(low))
        },
    }
}

// ---------------------------------------------------------------------------
// The login-history manifest: finding the most recently active identity.
// ---------------------------------------------------------------------------

/// The identity entries of a login-history text: the root object when the
/// outer key is the well-known one, else the object under that key.
pub open spec fn spec_users_entries(text: Seq<char>) -> Option<Seq<SpecEntry>> {
    match parse_doc(text) {
        None => None,
        Some((k, v)) => {
            if k == "users"@ {
                match v {
                    SpecValue::Obj(es) => Some(es),
                    SpecValue::Str(_) => None,
                }
            } else {
                match v {
                    SpecValue::Obj(es) => match obj_get(es, "users"@) {
                        Some(SpecValue::Obj(inner)) => Some(inner),
                        _ => None,
                    },
                    SpecValue::Str(_) => None,
                }
            }
        },
    }
}

/// The key of the first identity entry flagged most recently active.
pub open spec fn spec_first_recent(es: Seq<SpecEntry>) -> Option<Seq<char>>
    decreases es,
{
    if es.len() == 0 {
        None
    } else {
        let flagged = match es[0].value {
            SpecValue::Obj(u) => obj_get(u, "MostRecent"@) == Some(SpecValue::Str("1"@)),
            SpecValue::Str(_) => false,
        };
        if flagged {
            Some(es[0].key)
        } else {
            spec_first_recent(es.drop_first())
        }
    }
}

/// What one login-history text yields: the most recently active identity,
/// narrowed to 32 bits when it reads as a number, kept as written
/// otherwise.
pub open spec fn spec_most_recent_user(text: Seq<char>) -> Option<Seq<char>> {
    match spec_users_entries(text) {
        None => None,
        Some(es) => match spec_first_recent(es) {
            None => None,
            Some(uid) => Some(
                match spec_narrow(uid) {
                    Some(n) => n,
                    None => uid,
                },
            ),
        },
    }
}

/// Reads one login-history text for the most recently active identity.
pub fn most_recent_user(text: &str) -> (r: Option<String>)
    ensures
        match r {
            Some(s) => spec_most_recent_user(text@) == Some(s@),
            None => spec_most_recent_user(text@) is None,
        },
{
    let d = match vdf::parse(text) {
        Ok(d) => d,
        Err(_) => {
            return None;
        },
    };
    proof {
        reveal_strlit("users");
    }
    let users: &Vec<vdf::Entry>;
    if str_eq(d.key.as_str(), "users") {
        match &d.value {
            Value::Obj(es) => {
                proof {
                    assert(d.value@ == SpecValue::Obj(Value::view_entries(es@)));
                }
                users = es;
            },
            Value::Str(_) => {
                return None;
            },
        }
    } else {
        match &d.value {
            Value::Obj(es) => {
                match vdf::obj_lookup(es, "users") {
                    Some(found) => {
                        match found {
                            Value::Obj(inner) => {
                                proof {
                                    assert(d.value@ == SpecValue::Obj(Value::view_entries(es@)));
                                    assert(found@ == SpecValue::Obj(Value::view_entries(inner@)));
                                }
                                users = inner;
                            },
                            Value::Str(_) => {
                                return None;
                            },
                        }
                    },
                    None => {
                        return None;
                    },
                }
            },
            Value::Str(_) => {
                return None;
            },
        }
    }
    let ghost ve = Value::view_entries(users@);
    proof {
        vdf::lemma_view_entries_props(users@);
        assert(spec_users_entries(text@) == Some(ve));
        assert(ve.subrange(0, ve.len() as int) =~= ve);
    }
    let mut i: usize = 0;
    while i < users.len()
        invariant
            i <= users@.len(),
            spec_users_entries(text@) == Some(ve),
            ve == Value::view_entries(users@),
            ve.len() == users@.len(),
            forall|k: int|
                0 <= k < users@.len() ==> #[trigger] ve[k] == (SpecEntry {
                    key: users@[k].key@,
                    value: users@[k].value.view(),
                }),
            spec_first_recent(ve) == spec_first_recent(ve.subrange(i as int, ve.len() as int)),
        decreases users@.len() - i,
    {
        let ghost tail = ve.subrange(i as int, ve.len() as int);
        proof {
            assert(tail[0] == ve[i as int]);
            assert(tail.drop_first() =~= ve.subrange(i as int + 1, ve.len() as int));
        }
        match &users[i].value {
            Value::Obj(u) => {
                match vdf::obj_lookup(u, "MostRecent") {
                    Some(Value::Str(flag)) => {
                        if str_eq(flag.as_str(), "1") {
                            proof {
                                assert(ve[i as int].value == users@[i as int].value.view());
                                assert(users@[i as int].value.view() == SpecValue::Obj(
                                    Value::view_entries(u@),
                                ));
                                assert(obj_get(Value::view_entries(u@), "MostRecent"@) == Some(
                                    SpecValue::Str("1"@),
                                ));
                                assert(spec_first_recent(tail) == Some(ve[i as int].key));
                                assert(ve[i as int].key == users@[i as int].key@);
                            }
                            let uid = &users[i].key;
                            return match steamid_to_accountid(uid.as_str()) {
                                Some(n) => Some(n),
                                None => Some(uid.clone()),
                            };
                        }
                    },
                    _ => {},
                }
            },
            Value::Str(_) => {},
        }
        i = i + 1;
    }
    proof {
        assert(ve.subrange(ve.len() as int, ve.len() as int) =~= Seq::<SpecEntry>::empty());
    }
    None
}

/// The first identity any of the texts yields, in text order.
pub open spec fn spec_most_recent_across(texts: Seq<Seq<char>>) -> Option<Seq<char>>
    decreases texts,
{
    if texts.len() == 0 {
        None
    } else {
        match spec_most_recent_user(texts[0]) {
            Some(uid) => Some(uid),
            None => spec_most_recent_across(texts.drop_first()),
        }
    }
}

/// Scans login-history texts, one per configuration directory in search
/// order, and yields the first most-recently-active identity found.
pub fn most_recent_user_id(texts: &Vec<String>) -> (r: Option<String>)
    ensures
        match r {
            Some(s) => spec_most_recent_across(texts.deep_view()) == Some(s@),
            None => spec_most_recent_across(texts.deep_view()) is None,
        },
{
    let ghost all = texts.deep_view();
    proof {
        assert(all.subrange(0, all.len() as int) =~= all);
    }
    let mut i: usize = 0;
    while i < texts.len()
        invariant
            i <= texts@.len(),
            all == texts.deep_view(),
            all.len() == texts@.len(),
            spec_most_recent_across(all) == spec_most_recent_across(
                all.subrange(i as int, all.len() as int),
            ),
        decreases texts@.len() - i,
    {
        let ghost tail = all.subrange(i as int, all.len() as int);
        proof {
            assert(tail[0] == all[i as int]);
            assert(all[i as int] == texts@[i as int]@);
            assert(tail.drop_first() =~= all.subrange(i as int + 1, all.len() as int));
        }
        match most_recent_user(texts[i].as_str()) {
            Some(uid) => {
                return Some(uid);
            },
            None => {},
        }
        i = i + 1;
    }
    proof {
        assert(all.subrange(all.len() as int, all.len() as int) =~= Seq::<Seq<char>>::empty());
    }
    None
}

// ---------------------------------------------------------------------------
// Locating per-identity settings files.
// ---------------------------------------------------------------------------

/// What the caller observed of one per-identity storage directory: its
/// path, the identity subdirectories it holds, and those among them that
/// hold a settings file.
pub struct UserDataDir {
    pub path: String,
    pub users: Vec<String>,
    pub users_with_config: Vec<String>,
}

/// The settings-file path for one identity under one storage directory.
pub open spec fn spec_cfg_path(dir: Seq<char>, uid: Seq<char>) -> Seq<char> {
    dir + "/"@ + uid + "/"@ + "config/localconfig.vdf"@
}

/// Every settings file under one storage directory, in directory order.
pub open spec fn spec_all_cfgs(d: UserDataDir) -> Seq<Seq<char>> {
    d.users_with_config.deep_view().map_values(|u: Seq<char>| spec_cfg_path(d.path@, u))
}

/// The settings files one storage directory contributes: the active
/// identity's file when that identity has one here, else every settings
/// file found under the directory.
pub open spec fn spec_dir_cfgs(recent: Option<Seq<char>>, d: UserDataDir) -> Seq<Seq<char>> {
    match recent {
        Some(uid) => {
            if seq_contains_str(d.users_with_config@, uid) {
                seq![spec_cfg_path(d.path@, uid)]
            } else {
                spec_all_cfgs(d)
            }
        },
        None => spec_all_cfgs(d),
    }
}

/// All settings files the storage directories contribute, in directory
/// order.
pub open spec fn spec_localconfig_files(recent: Option<Seq<char>>, dirs: Seq<UserDataDir>) -> Seq<
    Seq<char>,
>
    decreases dirs,
{
    if dirs.len() == 0 {
        Seq::empty()
    } else {
        spec_dir_cfgs(recent, dirs[0]) + spec_localconfig_files(recent, dirs.drop_first())
    }
}

fn cfg_path_x(dir: &str, uid: &str) -> (r: String)
    ensures
        r@ == spec_cfg_path(dir@, uid@),
{
    let a = path_join(dir, uid);
    let r = path_join(a.as_str(), "config/localconfig.vdf");
    proof {
        assert(r@ =~= spec_cfg_path(dir@, uid@));
    }
    r
}

fn all_cfgs_x(d: &UserDataDir) -> (r: Vec<String>)
    ensures
        r.deep_view() == spec_all_cfgs(*d),
{
    let mut out: Vec<String> = Vec::new();
    let mut i: usize = 0;
    while i < d.users_with_config.len()
        invariant
            i <= d.users_with_config@.len(),
            out@.len() == i,
            forall|k: int|
                0 <= k < i ==> out@[k]@ == spec_cfg_path(d.path@, d.users_with_config@[k]@),
        decreases d.users_with_config@.len() - i,
    {
        out.push(cfg_path_x(d.path.as_str(), d.users_with_config[i].as_str()));
        i = i + 1;
    }
    proof {
        assert(out.deep_view() =~= spec_all_cfgs(*d));
    }
    out
}

/// Finds the per-identity settings files, storage directory by storage
/// directory: the active identity's file where it exists, every existing
/// settings file as the fall-back where it does not, and every file when
/// no identity is active.
pub fn find_localconfig_files(recent: &Option<String>, dirs: &Vec<UserDataDir>) -> (r: Vec<String>)
    ensures
        r.deep_view() == spec_localconfig_files(
            match recent {
                Some(s) => Some(s@),
                None => None,
            },
            dirs@,
        ),
{
    let ghost srecent: Option<Seq<char>> = match recent {
        Some(s) => Some(s@),
        None => None,
    };
    let mut out: Vec<String> = Vec::new();
    let mut i: usize = 0;
    proof {
        assert(out.deep_view() =~= Seq::<Seq<char>>::empty());
        assert(dirs@.subrange(0, dirs@.len() as int) =~= dirs@);
        assert(out.deep_view() + spec_localconfig_files(srecent, dirs@) =~= spec_localconfig_files(
            srecent,
            dirs@,
        ));
    }
    while i < dirs.len()
        invariant
            i <= dirs@.len(),
            srecent == (match recent {
                Some(s) => Some(s@),
                None => None,
            }),
            out.deep_view() + spec_localconfig_files(
                srecent,
                dirs@.subrange(i as int, dirs@.len() as int),
            ) == spec_localconfig_files(srecent, dirs@),
        decreases dirs@.len() - i,
    {
        let ghost tail = dirs@.subrange(i as int, dirs@.len() as int);
        let ghost before = out.deep_view();
        proof {
            assert(tail[0] == dirs@[i as int]);
            assert(tail.drop_first() =~= dirs@.subrange(i as int + 1, dirs@.len() as int));
        }
        let d = &dirs[i];
        match recent {
            Some(uid) => {
                if vec_contains(&d.users_with_config, uid.as_str()) {
                    out.push(cfg_path_x(d.path.as_str(), uid.as_str()));
                    proof {
                        assert(out.deep_view() =~= before + spec_dir_cfgs(srecent, dirs@[i as int]));
                    }
                } else {
                    let mut more = all_cfgs_x(d);
                    let ghost madd = more.deep_view();
                    out.append(&mut more);
                    proof {
                        assert(out.deep_view() =~= before + madd);
                    }
                }
            },
            None => {
                let mut more = all_cfgs_x(d);
                let ghost madd = more.deep_view();
                out.append(&mut more);
                proof {
                    assert(out.deep_view() =~= before + madd);
                }
            },
        }
        proof {
            assert(out.deep_view() + spec_localconfig_files(srecent, tail.drop_first())
                =~= before + (spec_dir_cfgs(srecent, dirs@[i as int]) + spec_localconfig_files(
                srecent,
                tail.drop_first(),
            )));
        }
        i = i + 1;
    }
    proof {
        assert(dirs@.subrange(dirs@.len() as int, dirs@.len() as int) =~= Seq::<UserDataDir>::empty());
        assert(out.deep_view() + Seq::<Seq<char>>::empty() =~= out.deep_view());
    }
    out
}

/// All discovered per-identity settings files for the active identity.
pub fn get_localconfig_paths(recent: &Option<String>, dirs: &Vec<UserDataDir>) -> (r: Vec<String>)
    ensures
        r.deep_view() == spec_localconfig_files(
            match recent {
                Some(s) => Some(s@),
                None => None,
            },
            dirs@,
        ),
{
    find_localconfig_files(recent, dirs)
}

/// The first storage directory holding a subdirectory for this identity.
pub open spec fn spec_first_dir_with_user(dirs: Seq<UserDataDir>, uid: Seq<char>) -> Option<
    UserDataDir,
>
    decreases dirs,
{
    if dirs.len() == 0 {
        None
    } else if seq_contains_str(dirs[0].users@, uid) {
        Some(dirs[0])
    } else {
        spec_first_dir_with_user(dirs.drop_first(), uid)
    }
}

/// Every settings file across all storage directories.
pub open spec fn spec_all_cfgs_across(dirs: Seq<UserDataDir>) -> Seq<Seq<char>>
    decreases dirs,
{
    if dirs.len() == 0 {
        Seq::empty()
    } else {
        spec_all_cfgs(dirs[0]) + spec_all_cfgs_across(dirs.drop_first())
    }
}

/// The expected settings-file path for the active identity, even when the
/// file itself does not exist yet: under the first storage directory that
/// has the identity's subdirectory.  When none has it, a bounded fall-back
/// accepts exactly one existing settings file across all directories, and
/// deliberately yields nothing when several exist.  Without an active
/// identity there is nothing to expect.
pub open spec fn spec_expected_localconfig(recent: Option<Seq<char>>, dirs: Seq<UserDataDir>)
    -> Option<Seq<char>> {
    match recent {
        None => None,
        Some(uid) => match spec_first_dir_with_user(dirs, uid) {
            Some(d) => Some(spec_cfg_path(d.path@, uid)),
            None => {
                let all = spec_all_cfgs_across(dirs);
                if all.len() == 1 {
                    Some(all[0])
                } else {
                    None
                }
            },
        },
    }
}

/// Where the active identity's settings file is expected to live; also
/// the target to create when no such file exists yet.
pub fn expected_localconfig_path(recent: &Option<String>, dirs: &Vec<UserDataDir>) -> (r: Option<
    String,
>)
    ensures
        ({
            let srecent: Option<Seq<char>> = match recent {
                Some(s) => Some(s@),
                None => None,
            };
            match r {
                Some(p) => spec_expected_localconfig(srecent, dirs@) == Some(p@),
                None => spec_expected_localconfig(srecent, dirs@) is None,
            }
        }),
{
    let uid = match recent {
        Some(u) => u,
        None => {
            return None;
        },
    };
    let ghost suid = uid@;
    proof {
        assert(dirs@.subrange(0, dirs@.len() as int) =~= dirs@);
    }
    let mut i: usize = 0;
    while i < dirs.len()
        invariant
            i <= dirs@.len(),
            suid == uid@,
            (match recent {
                Some(x) => x@ == suid,
                None => false,
            }),
            spec_first_dir_with_user(dirs@, suid) == spec_first_dir_with_user(
                dirs@.subrange(i as int, dirs@.len() as int),
                suid,
            ),
        decreases dirs@.len() - i,
    {
        let ghost tail = dirs@.subrange(i as int, dirs@.len() as int);
        proof {
            assert(tail[0] == dirs@[i as int]);
            assert(tail.drop_first() =~= dirs@.subrange(i as int + 1, dirs@.len() as int));
        }
        if vec_contains(&dirs[i].users, uid.as_str()) {
            proof {
                assert(seq_contains_str(dirs@[i as int].users@, suid));
                assert(spec_first_dir_with_user(tail, suid) == Some(tail[0]));
                assert(spec_first_dir_with_user(dirs@, suid) == Some(dirs@[i as int]));
            }
            return Some(cfg_path_x(dirs[i].path.as_str(), uid.as_str()));
        }
        i = i + 1;
    }
    proof {
        assert(dirs@.subrange(dirs@.len() as int, dirs@.len() as int) =~= Seq::<UserDataDir>::empty());
    }
    let mut all: Vec<String> = Vec::new();
    let mut j: usize = 0;
    proof {
        assert(all.deep_view() =~= Seq::<Seq<char>>::empty());
        assert(all.deep_view() + spec_all_cfgs_across(dirs@) =~= spec_all_cfgs_across(dirs@));
    }
    while j < dirs.len()
        invariant
            j <= dirs@.len(),
            all.deep_view() + spec_all_cfgs_across(dirs@.subrange(j as int, dirs@.len() as int))
                == spec_all_cfgs_across(dirs@),
        decreases dirs@.len() - j,
    {
        let ghost tail = dirs@.subrange(j as int, dirs@.len() as int);
        let ghost before = all.deep_view();
        proof {
            assert(tail[0] == dirs@[j as int]);
            assert(tail.drop_first() =~= dirs@.subrange(j as int + 1, dirs@.len() as int));
        }
        let mut more = all_cfgs_x(&dirs[j]);
        let ghost madd = more.deep_view();
        all.append(&mut more);
        proof {
            assert(all.deep_view() =~= before + madd);
            assert(all.deep_view() + spec_all_cfgs_across(tail.drop_first()) =~= before + (madd
                + spec_all_cfgs_across(tail.drop_first())));
        }
        j = j + 1;
    }
    proof {
        assert(dirs@.subrange(dirs@.len() as int, dirs@.len() as int) =~= Seq::<UserDataDir>::empty());
        assert(all.deep_view() + Seq::<Seq<char>>::empty() =~= all.deep_view());
    }
    if all.len() == 1 {
        let ghost dv = all.deep_view();
        let p = all.remove(0);
        proof {
            assert(dv.len() == 1);
            assert(dv[0] == p@);
            assert(spec_all_cfgs_across(dirs@) == dv);
        }
        Some(p)
    } else {
        proof {
            assert(all.deep_view().len() == all@.len());
        }
        None
    }
}

} // verus!

verus! {

// ---------------------------------------------------------------------------
// Per-application settings inside the per-identity settings document.
// ---------------------------------------------------------------------------

/// The key path to an application's launch-options entry.
pub open spec fn spec_launch_path(appid: u32) -> Seq<Seq<char>> {
    seq!["Software"@, "Valve"@, "Steam"@, "apps"@, dec_str(appid as nat)]
}

/// The key path to an application's runtime-override entry.
pub open spec fn spec_compat_path(appid: u32) -> Seq<Seq<char>> {
    seq!["Software"@, "Valve"@, "Steam"@, "CompatToolOverrides"@, dec_str(appid as nat)]
}

/// The value found by a wrapper-aware lookup on a text; nothing when the
/// text does not parse.
pub open spec fn spec_get_at(text: Seq<char>, path: Seq<Seq<char>>) -> Option<SpecValue> {
    match parse_doc(text) {
        None => None,
        Some((_, v)) => spec_get(v, path),
    }
}

fn launch_path_x(appid: u32) -> (r: Vec<String>)
    ensures
        r.deep_view() == spec_launch_path(appid),
{
    let mut v: Vec<String> = Vec::new();
    v.push(String::from_str("Software"));
    v.push(String::from_str("Valve"));
    v.push(String::from_str("Steam"));
    v.push(String::from_str("apps"));
    v.push(u32_to_string(appid));
    proof {
        assert(v.deep_view() =~= spec_launch_path(appid));
    }
    v
}

fn compat_path_x(appid: u32) -> (r: Vec<String>)
    ensures
        r.deep_view() == spec_compat_path(appid),
{
    let mut v: Vec<String> = Vec::new();
    v.push(String::from_str("Software"));
    v.push(String::from_str("Valve"));
    v.push(String::from_str("Steam"));
    v.push(String::from_str("CompatToolOverrides"));
    v.push(u32_to_string(appid));
    proof {
        assert(v.deep_view() =~= spec_compat_path(appid));
    }
    v
}

fn get_at_str(text: &str, path: &Vec<String>, key: &str) -> (r: Option<String>)
    ensures
        match r {
            Some(s) => spec_get_at(text@, path.deep_view().push(key@)) == Some(
                SpecValue::Str(s@),
            ),
            None => !(spec_get_at(text@, path.deep_view().push(key@)) matches Some(
                SpecValue::Str(_),
            )),
        },
{
    let d = match vdf::parse(text) {
        Ok(d) => d,
        Err(_) => {
            return None;
        },
    };
    let mut full: Vec<String> = Vec::new();
    let mut i: usize = 0;
    while i < path.len()
        invariant
            i <= path@.len(),
            full@.len() == i,
            forall|k: int| 0 <= k < i ==> full@[k]@ == path@[k]@,
        decreases path@.len() - i,
    {
        full.push(path[i].clone());
        i = i + 1;
    }
    full.push(String::from_str(key));
    proof {
        assert(full.deep_view() =~= path.deep_view().push(key@));
    }
    match vdf::get(&d, &full) {
        Some(Value::Str(s)) => Some(s.clone()),
        _ => None,
    }
}

fn has_at(text: &str, path: &Vec<String>, key: &str) -> (r: bool)
    ensures
        r == (spec_get_at(text@, path.deep_view().push(key@)) is Some),
{
    let d = match vdf::parse(text) {
        Ok(d) => d,
        Err(_) => {
            return false;
        },
    };
    let mut full: Vec<String> = Vec::new();
    let mut i: usize = 0;
    while i < path.len()
        invariant
            i <= path@.len(),
            full@.len() == i,
            forall|k: int| 0 <= k < i ==> full@[k]@ == path@[k]@,
        decreases path@.len() - i,
    {
        full.push(path[i].clone());
        i = i + 1;
    }
    full.push(String::from_str(key));
    proof {
        assert(full.deep_view() =~= path.deep_view().push(key@));
    }
    match vdf::get(&d, &full) {
        Some(_) => true,
        None => false,
    }
}

/// The launch options a settings text holds for an application.
pub open spec fn spec_parse_launch_options(text: Seq<char>, appid: u32) -> Option<Seq<char>> {
    match spec_get_at(text, spec_launch_path(appid).push("LaunchOptions"@)) {
        Some(SpecValue::Str(s)) => Some(s),
        _ => None,
    }
}

/// Reads an application's launch options from a settings text.
pub fn parse_launch_options(contents: &str, app_id: u32) -> (r: Option<String>)
    ensures
        match r {
            Some(s) => spec_parse_launch_options(contents@, app_id) == Some(s@),
            None => spec_parse_launch_options(contents@, app_id) is None,
        },
{
    let path = launch_path_x(app_id);
    get_at_str(contents, &path, "LaunchOptions")
}

/// The text after setting an application's launch options, with every
/// missing block on the way created.
pub open spec fn spec_update_launch_options(text: Seq<char>, appid: u32, value: Seq<char>) -> Seq<
    char,
> {
    spec_set_at(text, spec_launch_path(appid), "LaunchOptions"@, value)
}

/// Sets an application's launch options in a settings text, synthesizing
/// a minimal document when the text does not parse.
pub fn update_launch_options(contents: &str, app_id: u32, value: &str) -> (r: Option<String>)
    ensures
        match r {
            Some(s) => s@ == spec_update_launch_options(contents@, app_id, value@),
            None => false,
        },
{
    let path = launch_path_x(app_id);
    Some(vdf::set_at(contents, &path, "LaunchOptions", value))
}

/// The runtime override a settings text names for an application.
pub open spec fn spec_parse_compat_tool(text: Seq<char>, appid: u32) -> Option<Seq<char>> {
    match spec_get_at(text, spec_compat_path(appid).push("name"@)) {
        Some(SpecValue::Str(s)) => Some(s),
        _ => None,
    }
}

/// Reads an application's runtime override from a settings text.
pub fn parse_compat_tool(contents: &str, app_id: u32) -> (r: Option<String>)
    ensures
        match r {
            Some(s) => spec_parse_compat_tool(contents@, app_id) == Some(s@),
            None => spec_parse_compat_tool(contents@, app_id) is None,
        },
{
    let path = compat_path_x(app_id);
    get_at_str(contents, &path, "name")
}

/// The text after naming a runtime override for an application: the name
/// is set, and the entry's `config` and `priority` fields are given their
/// conventional defaults when absent.
pub open spec fn spec_set_compat_tool(text: Seq<char>, appid: u32, tool: Seq<char>) -> Seq<char> {
    let s1 = spec_set_at(text, spec_compat_path(appid), "name"@, tool);
    let s2 = if spec_get_at(s1, spec_compat_path(appid).push("config"@)) is Some {
        s1
    } else {
        spec_set_at(s1, spec_compat_path(appid), "config"@, ""@)
    };
    if spec_get_at(s2, spec_compat_path(appid).push("priority"@)) is Some {
        s2
    } else {
        spec_set_at(s2, spec_compat_path(appid), "priority"@, "0"@)
    }
}

/// The text after dropping an application's runtime override: every
/// entry for the identifier leaves the overrides block, duplicates
/// included, so the override reads back as absent.
pub open spec fn spec_clear_compat_tool(text: Seq<char>, appid: u32) -> Seq<char> {
    spec_remove_at(
        text,
        seq!["Software"@, "Valve"@, "Steam"@, "CompatToolOverrides"@],
        dec_str(appid as nat),
    )
}

/// Sets or clears an application's runtime override in a settings text.
pub fn update_compat_tool(contents: &str, app_id: u32, value: Option<&str>) -> (r: Option<String>)
    ensures
        match r {
            Some(s) => match value {
                Some(tool) => s@ == spec_set_compat_tool(contents@, app_id, tool@),
                None => s@ == spec_clear_compat_tool(contents@, app_id),
            },
            None => false,
        },
{
    let path = compat_path_x(app_id);
    match value {
        Some(tool) => {
            let s1 = vdf::set_at(contents, &path, "name", tool);
            let s2 = if has_at(s1.as_str(), &path, "config") {
                s1
            } else {
                vdf::set_at(s1.as_str(), &path, "config", "")
            };
            let s3 = if has_at(s2.as_str(), &path, "priority") {
                s2
            } else {
                vdf::set_at(s2.as_str(), &path, "priority", "0")
            };
            Some(s3)
        },
        None => {
            let mut short: Vec<String> = Vec::new();
            short.push(String::from_str("Software"));
            short.push(String::from_str("Valve"));
            short.push(String::from_str("Steam"));
            short.push(String::from_str("CompatToolOverrides"));
            proof {
                assert(short.deep_view() =~= seq![
                    "Software"@,
                    "Valve"@,
                    "Steam"@,
                    "CompatToolOverrides"@,
                ]);
            }
            let appid_s = u32_to_string(app_id);
            Some(vdf::remove_at(contents, &short, appid_s.as_str()))
        },
    }
}

/// The first launch options any settings text yields, in search order.
pub open spec fn spec_launch_options_across(texts: Seq<Seq<char>>, appid: u32) -> Option<
    Seq<char>,
>
    decreases texts,
{
    if texts.len() == 0 {
        None
    } else {
        match spec_parse_launch_options(texts[0], appid) {
            Some(v) => Some(v),
            None => spec_launch_options_across(texts.drop_first(), appid),
        }
    }
}

/// Reads an application's launch options from the settings texts, first
/// hit winning.
pub fn get_launch_options(texts: &Vec<String>, app_id: u32) -> (r: Option<String>)
    ensures
        match r {
            Some(s) => spec_launch_options_across(texts.deep_view(), app_id) == Some(s@),
            None => spec_launch_options_across(texts.deep_view(), app_id) is None,
        },
{
    let ghost all = texts.deep_view();
    proof {
        assert(all.subrange(0, all.len() as int) =~= all);
    }
    let mut i: usize = 0;
    while i < texts.len()
        invariant
            i <= texts@.len(),
            all == texts.deep_view(),
            all.len() == texts@.len(),
            spec_launch_options_across(all, app_id) == spec_launch_options_across(
                all.subrange(i as int, all.len() as int),
                app_id,
            ),
        decreases texts@.len() - i,
    {
        let ghost tail = all.subrange(i as int, all.len() as int);
        proof {
            assert(tail[0] == all[i as int]);
            assert(all[i as int] == texts@[i as int]@);
            assert(tail.drop_first() =~= all.subrange(i as int + 1, all.len() as int));
        }
        match parse_launch_options(texts[i].as_str(), app_id) {
            Some(v) => {
                return Some(v);
            },
            None => {},
        }
        i = i + 1;
    }
    proof {
        assert(all.subrange(all.len() as int, all.len() as int) =~= Seq::<Seq<char>>::empty());
    }
    None
}

/// The first runtime override any settings text yields, in search order.
pub open spec fn spec_compat_tool_across(texts: Seq<Seq<char>>, appid: u32) -> Option<Seq<char>>
    decreases texts,
{
    if texts.len() == 0 {
        None
    } else {
        match spec_parse_compat_tool(texts[0], appid) {
            Some(v) => Some(v),
            None => spec_compat_tool_across(texts.drop_first(), appid),
        }
    }
}

/// Reads an application's runtime override from the settings texts, first
/// hit winning.
pub fn get_compat_tool(texts: &Vec<String>, app_id: u32) -> (r: Option<String>)
    ensures
        match r {
            Some(s) => spec_compat_tool_across(texts.deep_view(), app_id) == Some(s@),
            None => spec_compat_tool_across(texts.deep_view(), app_id) is None,
        },
{
    let ghost all = texts.deep_view();
    proof {
        assert(all.subrange(0, all.len() as int) =~= all);
    }
    let mut i: usize = 0;
    while i < texts.len()
        invariant
            i <= texts@.len(),
            all == texts.deep_view(),
            all.len() == texts@.len(),
            spec_compat_tool_across(all, app_id) == spec_compat_tool_across(
                all.subrange(i as int, all.len() as int),
                app_id,
            ),
        decreases texts@.len() - i,
    {
        let ghost tail = all.subrange(i as int, all.len() as int);
        proof {
            assert(tail[0] == all[i as int]);
            assert(all[i as int] == texts@[i as int]@);
            assert(tail.drop_first() =~= all.subrange(i as int + 1, all.len() as int));
        }
        match parse_compat_tool(texts[i].as_str(), app_id) {
            Some(v) => {
                return Some(v);
            },
            None => {},
        }
        i = i + 1;
    }
    proof {
        assert(all.subrange(all.len() as int, all.len() as int) =~= Seq::<Seq<char>>::empty());
    }
    None
}

} // verus!
