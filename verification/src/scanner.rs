use vstd::prelude::*;
use crate::models::GameInfo;
use crate::models::SteamLibrary;
use crate::error::Error;
use crate::strutil::dec_str;
use crate::strutil::contains_seq;
use crate::strutil::lower_of;
use crate::strutil::lowercase;
use crate::strutil::path_join;
use crate::strutil::str_contains;
use crate::strutil::u32_to_string;

verus! {

/// One application manifest, as parsed from a library's applications
/// directory.
pub struct AppEntry {
    pub app_id: u32,
    pub name: String,
    pub last_played: u64,
}

/// What one record of a scan should hold.
pub struct GRec {
    pub app_id: u32,
    pub name: Seq<char>,
    pub prefix_path: Seq<char>,
    pub has_manifest: bool,
    pub last_played: u64,
    pub prefix_exists: bool,
}

/// The record a `GameInfo` holds.
pub open spec fn grec_of(g: GameInfo) -> GRec {
    GRec {
        app_id: g.spec_app_id(),
        name: g.spec_name(),
        prefix_path: g.spec_prefix_path(),
        has_manifest: g.spec_has_manifest(),
        last_played: g.spec_last_played(),
        prefix_exists: g.spec_prefix_exists(),
    }
}

/// Whether an identifier occurs in a list.
pub open spec fn has_id(ids: Seq<u32>, id: u32) -> bool {
    exists|i: int| 0 <= i < ids.len() && ids[i] == id
}

/// The runtime-state path of an application under a library.
pub open spec fn spec_prefix_path(compatdata: Seq<char>, id: u32) -> Seq<char> {
    compatdata + "/"@ + dec_str(id as nat)
}

/// The records the manifest pass yields: one per manifest with a non-zero
/// identifier and a non-empty name, identifiers already recorded skipped,
/// marked as having a manifest, and marked present when a runtime-state
/// directory with the identifier was seen.
pub open spec fn manifest_recs(
    ms: Seq<AppEntry>,
    seen: Set<u32>,
    prefix_ids: Seq<u32>,
    compatdata: Seq<char>,
) -> Seq<GRec>
    decreases ms,
{
    if ms.len() == 0 {
        Seq::empty()
    } else {
        let m = ms[0];
        if m.app_id != 0 && m.name@.len() > 0 && !seen.contains(m.app_id) {
            seq![
                GRec {
                    app_id: m.app_id,
                    name: m.name@,
                    prefix_path: spec_prefix_path(compatdata, m.app_id),
                    has_manifest: true,
                    last_played: m.last_played,
                    prefix_exists: has_id(prefix_ids, m.app_id),
                },
            ] + manifest_recs(ms.drop_first(), seen.insert(m.app_id), prefix_ids, compatdata)
        } else {
            manifest_recs(ms.drop_first(), seen, prefix_ids, compatdata)
        }
    }
}

/// The records the orphan pass yields: one per runtime-state directory
/// whose identifier is non-zero and not recorded yet, with a generated
/// display name, no manifest, and no recorded activity.
pub open spec fn orphan_recs(ids: Seq<u32>, seen: Set<u32>, compatdata: Seq<char>) -> Seq<GRec>
    decreases ids,
{
    if ids.len() == 0 {
        Seq::empty()
    } else {
        let id = ids[0];
        if id != 0 && !seen.contains(id) {
            seq![
                GRec {
                    app_id: id,
                    name: "App "@ + dec_str(id as nat),
                    prefix_path: spec_prefix_path(compatdata, id),
                    has_manifest: false,
                    last_played: 0,
                    prefix_exists: true,
                },
            ] + orphan_recs(ids.drop_first(), seen.insert(id), compatdata)
        } else {
            orphan_recs(ids.drop_first(), seen, compatdata)
        }
    }
}

/// The identifiers of a record list.
pub open spec fn ids_of(gs: Seq<GRec>) -> Set<u32> {
    Set::new(|id: u32| exists|i: int| 0 <= i < gs.len() && gs[i].app_id == id)
}

/// Everything one library's scan yields: manifest records first, then the
/// orphaned runtime-state directories, identifiers unique across the two,
/// manifest-derived data taking precedence.
pub open spec fn spec_scan(ms: Seq<AppEntry>, prefix_ids: Seq<u32>, compatdata: Seq<char>) -> Seq<
    GRec,
> {
    let mg = manifest_recs(ms, Set::empty(), prefix_ids, compatdata);
    mg + orphan_recs(prefix_ids, ids_of(mg), compatdata)
}

proof fn lemma_seen_push_ids(gs: Seq<GRec>, g: GRec)
    ensures
        ids_of(gs.push(g)) =~= ids_of(gs).insert(g.app_id),
{
    assert forall|x: u32| ids_of(gs.push(g)).contains(x) implies ids_of(gs).insert(
        g.app_id,
    ).contains(x) by {
        let a = choose|a: int| 0 <= a < gs.push(g).len() && gs.push(g)[a].app_id == x;
        if a < gs.len() {
            assert(gs[a].app_id == x);
        }
    }
    assert forall|x: u32| ids_of(gs).insert(g.app_id).contains(x) implies ids_of(
        gs.push(g),
    ).contains(x) by {
        if x == g.app_id {
            assert(gs.push(g)[gs.len() as int].app_id == x);
        } else {
            let a = choose|a: int| 0 <= a < gs.len() && gs[a].app_id == x;
            assert(gs.push(g)[a].app_id == x);
        }
    }
}

fn contains_id(gs: &Vec<GameInfo>, id: u32) -> (r: bool)
    ensures
        r == ids_of(gs@.map_values(|g: GameInfo| grec_of(g))).contains(id),
{
    let ghost recs = gs@.map_values(|g: GameInfo| grec_of(g));
    let mut i: usize = 0;
    while i < gs.len()
        invariant
            i <= gs@.len(),
            recs == gs@.map_values(|g: GameInfo| grec_of(g)),
            forall|j: int| 0 <= j < i ==> gs@[j].spec_app_id() != id,
        decreases gs@.len() - i,
    {
        if gs[i].app_id() == id {
            proof {
                assert(recs[i as int].app_id == id);
            }
            return true;
        }
        i = i + 1;
    }
    proof {
        if ids_of(recs).contains(id) {
            let a = choose|a: int| 0 <= a < recs.len() && recs[a].app_id == id;
            assert(gs@[a].spec_app_id() == id);
        }
    }
    false
}

fn vec_has_id(ids: &Vec<u32>, id: u32) -> (r: bool)
    ensures
        r == has_id(ids@, id),
{
    let mut i: usize = 0;
    while i < ids.len()
        invariant
            i <= ids@.len(),
            forall|j: int| 0 <= j < i ==> ids@[j] != id,
        decreases ids@.len() - i,
    {
        if ids[i] == id {
            return true;
        }
        i = i + 1;
    }
    false
}

/// Scans one library: builds one record per application manifest, then one
/// placeholder per runtime-state directory whose identifier no manifest
/// declared.  Identifiers are unique in the result; manifest data wins.
pub fn load_games_from_library(
    manifests: Vec<AppEntry>,
    prefix_ids: &Vec<u32>,
    compatdata: &str,
) -> (r: Vec<GameInfo>)
    ensures
        r@.map_values(|g: GameInfo| grec_of(g)) == spec_scan(manifests@, prefix_ids@, compatdata@),
        forall|i: int, j: int|
            0 <= i < j < r@.len() ==> r@[i].spec_app_id() != r@[j].spec_app_id(),
        forall|i: int| 0 <= i < r@.len() ==> r@[i].wf(),
{
    let ghost all_ms = manifests@;
    let mut manifests = manifests;
    let mut out: Vec<GameInfo> = Vec::new();
    proof {
        assert(out@.map_values(|g: GameInfo| grec_of(g)) =~= Seq::<GRec>::empty());
        assert(ids_of(Seq::<GRec>::empty()) =~= Set::<u32>::empty());
        assert(Seq::<GRec>::empty() + manifest_recs(all_ms, Set::empty(), prefix_ids@, compatdata@)
            =~= manifest_recs(all_ms, Set::empty(), prefix_ids@, compatdata@));
    }
    while manifests.len() > 0
        invariant
            out@.map_values(|g: GameInfo| grec_of(g)) + manifest_recs(
                manifests@,
                ids_of(out@.map_values(|g: GameInfo| grec_of(g))),
                prefix_ids@,
                compatdata@,
            ) == manifest_recs(all_ms, Set::empty(), prefix_ids@, compatdata@),
            forall|i: int, j: int|
                0 <= i < j < out@.len() ==> out@[i].spec_app_id() != out@[j].spec_app_id(),
            forall|i: int| 0 <= i < out@.len() ==> out@[i].wf(),
        decreases manifests@.len(),
    {
        let ghost ms_before = manifests@;
        let ghost recs_before = out@.map_values(|g: GameInfo| grec_of(g));
        let m = manifests.remove(0);
        proof {
            assert(manifests@ =~= ms_before.drop_first());
        }
        let valid = m.app_id != 0 && !m.name.as_str().is_empty() && !contains_id(&out, m.app_id);
        if valid {
            let prefix_path = path_join(compatdata, u32_to_string(m.app_id).as_str());
            let mut g = match GameInfo::new(m.app_id, m.name, prefix_path, true, m.last_played) {
                Ok(g) => g,
                Err(_) => {
                    proof {
                        assert(false);
                    }
                    return out;
                },
            };
            g.set_prefix_exists(vec_has_id(prefix_ids, m.app_id));
            out.push(g);
            proof {
                assert forall|j: int| 0 <= j < out@.len() - 1 implies (#[trigger] out@[j]).spec_app_id()
                    != out@[out@.len() - 1].spec_app_id() by {
                    if out@[j].spec_app_id() == out@[out@.len() - 1].spec_app_id() {
                        assert(recs_before[j].app_id == out@[out@.len() - 1].spec_app_id());
                    }
                }
                let recs_after = out@.map_values(|g: GameInfo| grec_of(g));
                assert(recs_after =~= recs_before.push(grec_of(out@[out@.len() - 1])));
                lemma_seen_push_ids(recs_before, grec_of(out@[out@.len() - 1]));
                assert(grec_of(out@[out@.len() - 1]) == (GRec {
                    app_id: ms_before[0].app_id,
                    name: ms_before[0].name@,
                    prefix_path: spec_prefix_path(compatdata@, ms_before[0].app_id),
                    has_manifest: true,
                    last_played: ms_before[0].last_played,
                    prefix_exists: has_id(prefix_ids@, ms_before[0].app_id),
                }));
                assert(recs_after + manifest_recs(
                    manifests@,
                    ids_of(recs_after),
                    prefix_ids@,
                    compatdata@,
                ) =~= recs_before + (seq![grec_of(out@[out@.len() - 1])] + manifest_recs(
                    manifests@,
                    ids_of(recs_after),
                    prefix_ids@,
                    compatdata@,
                )));
            }
        }
    }
    proof {
        assert(manifests@ =~= Seq::<AppEntry>::empty());
        assert(manifest_recs(manifests@, ids_of(out@.map_values(|g: GameInfo| grec_of(g))), prefix_ids@, compatdata@)
            == Seq::<GRec>::empty());
        assert(out@.map_values(|g: GameInfo| grec_of(g)) + Seq::<GRec>::empty() =~= out@.map_values(
            |g: GameInfo| grec_of(g),
        ));
    }
    let ghost mg = out@.map_values(|g: GameInfo| grec_of(g));
    let mut k: usize = 0;
    proof {
        assert(prefix_ids@.subrange(0, prefix_ids@.len() as int) =~= prefix_ids@);
        assert(mg + orphan_recs(prefix_ids@, ids_of(mg), compatdata@) =~= spec_scan(
            all_ms,
            prefix_ids@,
            compatdata@,
        ));
    }
    while k < prefix_ids.len()
        invariant
            k <= prefix_ids@.len(),
            mg + orphan_recs(prefix_ids@, ids_of(mg), compatdata@) == spec_scan(
                all_ms,
                prefix_ids@,
                compatdata@,
            ),
            out@.map_values(|g: GameInfo| grec_of(g)) + orphan_recs(
                prefix_ids@.subrange(k as int, prefix_ids@.len() as int),
                ids_of(out@.map_values(|g: GameInfo| grec_of(g))),
                compatdata@,
            ) == spec_scan(all_ms, prefix_ids@, compatdata@),
            forall|i: int, j: int|
                0 <= i < j < out@.len() ==> out@[i].spec_app_id() != out@[j].spec_app_id(),
            forall|i: int| 0 <= i < out@.len() ==> out@[i].wf(),
        decreases prefix_ids@.len() - k,
    {
        let ghost tail = prefix_ids@.subrange(k as int, prefix_ids@.len() as int);
        let ghost recs_before = out@.map_values(|g: GameInfo| grec_of(g));
        proof {
            assert(tail[0] == prefix_ids@[k as int]);
            assert(tail.drop_first() =~= prefix_ids@.subrange(
                k as int + 1,
                prefix_ids@.len() as int,
            ));
        }
        let id = prefix_ids[k];
        if id != 0 && !contains_id(&out, id) {
            let name = crate::strutil::str_concat("App ", u32_to_string(id).as_str());
            let prefix_path = path_join(compatdata, u32_to_string(id).as_str());
            let mut g = match GameInfo::new(id, name, prefix_path, false, 0) {
                Ok(g) => g,
                Err(_) => {
                    proof {
                        assert(false);
                    }
                    return out;
                },
            };
            g.set_prefix_exists(true);
            out.push(g);
            proof {
                assert forall|j: int| 0 <= j < out@.len() - 1 implies (#[trigger] out@[j]).spec_app_id()
                    != out@[out@.len() - 1].spec_app_id() by {
                    if out@[j].spec_app_id() == out@[out@.len() - 1].spec_app_id() {
                        assert(recs_before[j].app_id == out@[out@.len() - 1].spec_app_id());
                    }
                }
                let recs_after = out@.map_values(|g: GameInfo| grec_of(g));
                assert(recs_after =~= recs_before.push(grec_of(out@[out@.len() - 1])));
                lemma_seen_push_ids(recs_before, grec_of(out@[out@.len() - 1]));
                assert(grec_of(out@[out@.len() - 1]) == (GRec {
                    app_id: id,
                    name: "App "@ + dec_str(id as nat),
                    prefix_path: spec_prefix_path(compatdata@, id),
                    has_manifest: false,
                    last_played: 0,
                    prefix_exists: true,
                }));
                assert(recs_after + orphan_recs(tail.drop_first(), ids_of(recs_after), compatdata@)
                    =~= recs_before + (seq![grec_of(out@[out@.len() - 1])] + orphan_recs(
                    tail.drop_first(),
                    ids_of(recs_after),
                    compatdata@,
                )));
            }
        }
        k = k + 1;
    }
    proof {
        assert(prefix_ids@.subrange(prefix_ids@.len() as int, prefix_ids@.len() as int) =~= Seq::<
            u32,
        >::empty());
        assert(out@.map_values(|g: GameInfo| grec_of(g)) + Seq::<GRec>::empty() =~= out@.map_values(
            |g: GameInfo| grec_of(g),
        ));
    }
    out
}

/// A game matches a search when its lowercased name contains the
/// lowercased query, it was found through a manifest, and its
/// runtime-state directory was seen.
pub open spec fn spec_matches_query(g: GameInfo, q: Seq<char>) -> bool {
    contains_seq(lower_of(g.spec_name()), lower_of(q)) && g.spec_has_manifest()
        && g.spec_prefix_exists()
}

/// The games matching a search, in scan order.
pub open spec fn spec_search(gs: Seq<GameInfo>, q: Seq<char>) -> Seq<GameInfo>
    decreases gs,
{
    if gs.len() == 0 {
        Seq::empty()
    } else if spec_matches_query(gs[0], q) {
        seq![gs[0]] + spec_search(gs.drop_first(), q)
    } else {
        spec_search(gs.drop_first(), q)
    }
}

/// Keeps the games found through a manifest whose name contains the
/// query, case-insensitively, and whose runtime-state directory exists;
/// placeholder records synthesized from orphaned runtime-state
/// directories never match.
pub fn search_games(games: Vec<GameInfo>, name: &str) -> (r: Vec<GameInfo>)
    ensures
        r@ == spec_search(games@, name@),
{
    let ghost all = games@;
    let q = lowercase(name);
    let mut games = games;
    let mut out: Vec<GameInfo> = Vec::new();
    proof {
        assert(Seq::<GameInfo>::empty() + spec_search(games@, name@) =~= spec_search(all, name@));
    }
    while games.len() > 0
        invariant
            q@ == lower_of(name@),
            out@ + spec_search(games@, name@) == spec_search(all, name@),
        decreases games@.len(),
    {
        let ghost gs_before = games@;
        let ghost out_before = out@;
        let g = games.remove(0);
        proof {
            assert(games@ =~= gs_before.drop_first());
        }
        let ln = lowercase(g.name());
        if str_contains(ln.as_str(), q.as_str()) && g.has_manifest() && g.prefix_exists() {
            out.push(g);
            proof {
                assert(out@ =~= out_before.push(gs_before[0]));
                assert(out@ + spec_search(games@, name@) =~= out_before + (seq![gs_before[0]]
                    + spec_search(games@, name@)));
            }
        }
    }
    proof {
        assert(games@ =~= Seq::<GameInfo>::empty());
        assert(spec_search(games@, name@) == Seq::<GameInfo>::empty());
        assert(out@ + Seq::<GameInfo>::empty() =~= out@);
    }
    out
}

/// The first library whose runtime-state directory for the identifier was
/// seen yields the path.
pub open spec fn spec_find_prefix(libs: Seq<Seq<char>>, present: Seq<bool>, appid: u32) -> Option<
    Seq<char>,
>
    decreases libs,
{
    if libs.len() == 0 || present.len() == 0 {
        None
    } else if present[0] {
        Some(libs[0] + "/steamapps/compatdata/"@ + dec_str(appid as nat))
    } else {
        spec_find_prefix(libs.drop_first(), present.drop_first(), appid)
    }
}

/// Finds the runtime-state directory of an application: the first
/// library root whose candidate directory the caller saw on disk wins.
/// `exists` records, per library root, whether
/// `<root>/steamapps/compatdata/<appid>` exists.
pub fn find_proton_prefix(appid: u32, libraries: &Vec<String>, present: &Vec<bool>) -> (r: Option<
    String,
>)
    requires
        libraries@.len() == present@.len(),
    ensures
        match r {
            Some(p) => spec_find_prefix(libraries.deep_view(), present@, appid) == Some(p@),
            None => spec_find_prefix(libraries.deep_view(), present@, appid) is None,
        },
{
    let ghost libs = libraries.deep_view();
    proof {
        assert(libs.subrange(0, libs.len() as int) =~= libs);
        assert(present@.subrange(0, present@.len() as int) =~= present@);
    }
    let mut i: usize = 0;
    while i < libraries.len()
        invariant
            i <= libraries@.len(),
            libs == libraries.deep_view(),
            libs.len() == libraries@.len(),
            present@.len() == libraries@.len(),
            spec_find_prefix(libs, present@, appid) == spec_find_prefix(
                libs.subrange(i as int, libs.len() as int),
                present@.subrange(i as int, present@.len() as int),
                appid,
            ),
        decreases libraries@.len() - i,
    {
        let ghost ltail = libs.subrange(i as int, libs.len() as int);
        let ghost etail = present@.subrange(i as int, present@.len() as int);
        proof {
            assert(ltail[0] == libs[i as int]);
            assert(libs[i as int] == libraries@[i as int]@);
            assert(etail[0] == present@[i as int]);
            assert(ltail.drop_first() =~= libs.subrange(i as int + 1, libs.len() as int));
            assert(etail.drop_first() =~= present@.subrange(i as int + 1, present@.len() as int));
        }
        if present[i] {
            let base = crate::strutil::str_concat(
                libraries[i].as_str(),
                "/steamapps/compatdata/",
            );
            let r = crate::strutil::str_concat(base.as_str(), u32_to_string(appid).as_str());
            return Some(r);
        }
        i = i + 1;
    }
    proof {
        assert(libs.subrange(libs.len() as int, libs.len() as int) =~= Seq::<Seq<char>>::empty());
    }
    None
}

/// The per-identity storage path for one application, when the identity's
/// directory is known and the application's subdirectory was seen.
pub fn find_userdata_dir(user_dir: &Option<String>, appid: u32, present: bool) -> (r: Option<
    String,
>)
    ensures
        match r {
            Some(p) => user_dir is Some && present && p@ == user_dir->0@ + "/"@ + dec_str(
                appid as nat,
            ),
            None => user_dir is None || !present,
        },
{
    match user_dir {
        None => None,
        Some(d) => {
            if present {
                Some(path_join(d.as_str(), u32_to_string(appid).as_str()))
            } else {
                None
            }
        },
    }
}

/// The declared paths that validate, in manifest order.
pub open spec fn spec_valid_paths(
    paths: Seq<String>,
    present: Seq<bool>,
    dir_ok: Seq<bool>,
) -> Seq<Seq<char>>
    decreases paths,
{
    if paths.len() == 0 || present.len() == 0 || dir_ok.len() == 0 {
        Seq::empty()
    } else {
        let head = if present[0] && dir_ok[0] {
            seq![paths[0]@]
        } else {
            Seq::<Seq<char>>::empty()
        };
        head + spec_valid_paths(paths.drop_first(), present.drop_first(), dir_ok.drop_first())
    }
}

/// Builds a library handle for each declared path the caller saw on disk
/// as a directory: the result holds exactly the validating paths, in
/// manifest order, each once; when none validates the discovery fails.
pub fn libraries_from_paths(paths: Vec<String>, present: &Vec<bool>, dir_ok: &Vec<bool>) -> (r:
    Result<Vec<SteamLibrary>, Error>)
    requires
        paths@.len() == present@.len(),
        paths@.len() == dir_ok@.len(),
    ensures
        match r {
            Ok(libs) => libs@.len() > 0 && libs@.map_values(|l: SteamLibrary| l.spec_path())
                == spec_valid_paths(paths@, present@, dir_ok@),
            Err(e) => e is SteamNotFound && spec_valid_paths(paths@, present@, dir_ok@).len()
                == 0,
        },
{
    let ghost all = paths@;
    let n0: usize = paths.len();
    let mut paths = paths;
    let mut out: Vec<SteamLibrary> = Vec::new();
    let mut i: usize = 0;
    proof {
        assert(all.subrange(0, all.len() as int) =~= all);
        assert(present@.subrange(0, present@.len() as int) =~= present@);
        assert(dir_ok@.subrange(0, dir_ok@.len() as int) =~= dir_ok@);
        assert(out@.map_values(|l: SteamLibrary| l.spec_path()) =~= Seq::<Seq<char>>::empty());
        assert(Seq::<Seq<char>>::empty() + spec_valid_paths(all, present@, dir_ok@)
            =~= spec_valid_paths(all, present@, dir_ok@));
    }
    while paths.len() > 0
        invariant
            n0 as int == all.len(),
            present@.len() == all.len(),
            dir_ok@.len() == all.len(),
            i + paths@.len() == all.len(),
            i <= n0,
            paths@ == all.subrange(i as int, all.len() as int),
            out@.map_values(|l: SteamLibrary| l.spec_path()) + spec_valid_paths(
                paths@,
                present@.subrange(i as int, present@.len() as int),
                dir_ok@.subrange(i as int, dir_ok@.len() as int),
            ) == spec_valid_paths(all, present@, dir_ok@),
        decreases paths@.len(),
    {
        let ghost ptail = paths@;
        let ghost etail = present@.subrange(i as int, present@.len() as int);
        let ghost dtail = dir_ok@.subrange(i as int, dir_ok@.len() as int);
        let ghost out_before = out@.map_values(|l: SteamLibrary| l.spec_path());
        proof {
            assert(ptail[0] == all[i as int]);
            assert(etail[0] == present@[i as int]);
            assert(dtail[0] == dir_ok@[i as int]);
            assert(ptail.drop_first() =~= all.subrange(i as int + 1, all.len() as int));
            assert(etail.drop_first() =~= present@.subrange(i as int + 1, present@.len() as int));
            assert(dtail.drop_first() =~= dir_ok@.subrange(i as int + 1, dir_ok@.len() as int));
        }
        let p = paths.remove(0);
        proof {
            assert(paths@ =~= ptail.drop_first());
        }
        match SteamLibrary::new(p, present[i], dir_ok[i]) {
            Ok(lib) => {
                out.push(lib);
                proof {
                    let out_after = out@.map_values(|l: SteamLibrary| l.spec_path());
                    assert(out_after =~= out_before.push(out@[out@.len() - 1].spec_path()));
                    assert(out_after + spec_valid_paths(paths@, etail.drop_first(), dtail.drop_first())
                        =~= out_before + (seq![all[i as int]@] + spec_valid_paths(
                        paths@,
                        etail.drop_first(),
                        dtail.drop_first(),
                    )));
                }
            },
            Err(_) => {
                proof {
                    assert(spec_valid_paths(ptail, etail, dtail) == spec_valid_paths(
                        ptail.drop_first(),
                        etail.drop_first(),
                        dtail.drop_first(),
                    )) by {
                        assert(Seq::<Seq<char>>::empty() + spec_valid_paths(
                            ptail.drop_first(),
                            etail.drop_first(),
                            dtail.drop_first(),
                        ) =~= spec_valid_paths(
                            ptail.drop_first(),
                            etail.drop_first(),
                            dtail.drop_first(),
                        ));
                    }
                }
            },
        }
        i = i + 1;
    }
    proof {
        assert(paths@.len() == 0);
        assert(spec_valid_paths(
            paths@,
            present@.subrange(i as int, present@.len() as int),
            dir_ok@.subrange(i as int, dir_ok@.len() as int),
        ) == Seq::<Seq<char>>::empty());
        assert(out@.map_values(|l: SteamLibrary| l.spec_path()) + Seq::<Seq<char>>::empty()
            =~= out@.map_values(|l: SteamLibrary| l.spec_path()));
    }
    if out.len() == 0 {
        proof {
            assert(out@.map_values(|l: SteamLibrary| l.spec_path()).len() == 0);
        }
        Err(Error::SteamNotFound)
    } else {
        Ok(out)
    }
}

} // verus!

verus! {

/// The identifiers of a game list.
pub open spec fn gids(gs: Seq<GameInfo>) -> Set<u32> {
    Set::new(|id: u32| exists|i: int| 0 <= i < gs.len() && gs[i].spec_app_id() == id)
}

/// The per-library results, joined in library order.
pub open spec fn flatten_parts(parts: Seq<Vec<GameInfo>>) -> Seq<GameInfo>
    decreases parts,
{
    if parts.len() == 0 {
        Seq::empty()
    } else {
        parts[0]@ + flatten_parts(parts.drop_first())
    }
}

/// The joined results with every identifier kept once, first occurrence
/// winning.
pub open spec fn merge_games(gs: Seq<GameInfo>, seen: Set<u32>) -> Seq<GameInfo>
    decreases gs,
{
    if gs.len() == 0 {
        Seq::empty()
    } else if seen.contains(gs[0].spec_app_id()) {
        merge_games(gs.drop_first(), seen)
    } else {
        seq![gs[0]] + merge_games(gs.drop_first(), seen.insert(gs[0].spec_app_id()))
    }
}

proof fn lemma_gids_push(gs: Seq<GameInfo>, g: GameInfo)
    ensures
        gids(gs.push(g)) =~= gids(gs).insert(g.spec_app_id()),
{
    assert forall|x: u32| gids(gs.push(g)).contains(x) implies gids(gs).insert(
        g.spec_app_id(),
    ).contains(x) by {
        let a = choose|a: int| 0 <= a < gs.push(g).len() && gs.push(g)[a].spec_app_id() == x;
        if a < gs.len() {
            assert(gs[a].spec_app_id() == x);
        }
    }
    assert forall|x: u32| gids(gs).insert(g.spec_app_id()).contains(x) implies gids(
        gs.push(g),
    ).contains(x) by {
        if x == g.spec_app_id() {
            assert(gs.push(g)[gs.len() as int].spec_app_id() == x);
        } else {
            let a = choose|a: int| 0 <= a < gs.len() && gs[a].spec_app_id() == x;
            assert(gs.push(g)[a].spec_app_id() == x);
        }
    }
}

fn has_game_id(gs: &Vec<GameInfo>, id: u32) -> (r: bool)
    ensures
        r == gids(gs@).contains(id),
{
    let mut i: usize = 0;
    while i < gs.len()
        invariant
            i <= gs@.len(),
            forall|j: int| 0 <= j < i ==> gs@[j].spec_app_id() != id,
        decreases gs@.len() - i,
    {
        if gs[i].app_id() == id {
            return true;
        }
        i = i + 1;
    }
    proof {
        if gids(gs@).contains(id) {
            let a = choose|a: int| 0 <= a < gs@.len() && gs@[a].spec_app_id() == id;
            assert(gs@[a].spec_app_id() == id);
        }
    }
    false
}

/// Merges the per-library scan results into one discovery pass: parts are
/// joined in library order and identifier uniqueness is enforced across
/// the whole pass, the first occurrence winning.
pub fn load_games_from_libraries(parts: Vec<Vec<GameInfo>>) -> (r: Vec<GameInfo>)
    ensures
        r@ == merge_games(flatten_parts(parts@), Set::empty()),
        forall|i: int, j: int|
            0 <= i < j < r@.len() ==> r@[i].spec_app_id() != r@[j].spec_app_id(),
{
    let ghost full = flatten_parts(parts@);
    let mut parts = parts;
    let mut out: Vec<GameInfo> = Vec::new();
    proof {
        assert(gids(out@) =~= Set::<u32>::empty());
        assert(Seq::<GameInfo>::empty() + merge_games(flatten_parts(parts@), gids(out@))
            =~= merge_games(full, Set::empty()));
    }
    while parts.len() > 0
        invariant
            out@ + merge_games(flatten_parts(parts@), gids(out@)) == merge_games(
                full,
                Set::empty(),
            ),
            forall|i: int, j: int|
                0 <= i < j < out@.len() ==> out@[i].spec_app_id() != out@[j].spec_app_id(),
        decreases parts@.len(),
    {
        let ghost parts_before = parts@;
        let mut cur = parts.remove(0);
        proof {
            assert(parts@ =~= parts_before.drop_first());
            assert(flatten_parts(parts_before) == cur@ + flatten_parts(parts@));
        }
        while cur.len() > 0
            invariant
                out@ + merge_games(cur@ + flatten_parts(parts@), gids(out@)) == merge_games(
                    full,
                    Set::empty(),
                ),
                forall|i: int, j: int|
                    0 <= i < j < out@.len() ==> out@[i].spec_app_id() != out@[j].spec_app_id(),
            decreases cur@.len(),
        {
            let ghost cur_before = cur@;
            let ghost out_before = out@;
            let ghost rem_before = cur_before + flatten_parts(parts@);
            let g = cur.remove(0);
            proof {
                assert(cur@ =~= cur_before.drop_first());
                assert(rem_before =~= seq![g] + (cur@ + flatten_parts(parts@)));
                assert((seq![g] + (cur@ + flatten_parts(parts@)))[0] == g);
                assert((seq![g] + (cur@ + flatten_parts(parts@))).drop_first() =~= cur@
                    + flatten_parts(parts@));
            }
            if !has_game_id(&out, g.app_id()) {
                let ghost gid = g.spec_app_id();
                out.push(g);
                proof {
                    assert forall|j: int| 0 <= j < out@.len() - 1 implies (
                    #[trigger] out@[j]).spec_app_id() != out@[out@.len() - 1].spec_app_id() by {
                        if out@[j].spec_app_id() == gid {
                            assert(gids(out_before).contains(gid));
                        }
                    }
                    lemma_gids_push(out_before, out@[out@.len() - 1]);
                    assert(out@ + merge_games(cur@ + flatten_parts(parts@), gids(out@))
                        =~= out_before + (seq![out@[out@.len() - 1]] + merge_games(
                        cur@ + flatten_parts(parts@),
                        gids(out_before).insert(gid),
                    )));
                }
            }
        }
        proof {
            assert(cur@ + flatten_parts(parts@) =~= flatten_parts(parts@));
        }
    }
    proof {
        assert(flatten_parts(parts@) == Seq::<GameInfo>::empty());
        assert(merge_games(flatten_parts(parts@), gids(out@)) == Seq::<GameInfo>::empty());
        assert(out@ + Seq::<GameInfo>::empty() =~= out@);
    }
    out
}

/// Rebuilds one application's record on demand, without re-scanning every
/// library: from its manifest in the first library that holds one —
/// handing in that manifest's text and the library's runtime-state
/// directory — or, failing that, from the runtime-state path the
/// libraries yielded.  Neither source means the identifier is unknown.
pub fn refresh_game_info(
    app_id: u32,
    manifest_hit: &Option<(String, String)>,
    fallback_prefix: &Option<String>,
) -> (r: Result<GameInfo, Error>)
    ensures
        (match r {
            Ok(g) => app_id != 0 && g.wf() && g.spec_app_id() == app_id && !g.spec_prefix_exists()
                && (match manifest_hit {
                Some(h) => g.spec_prefix_path() == h.1@ + "/"@ + dec_str(app_id as nat) && (
                match crate::manifest::spec_parse_appmanifest(h.0@) {
                    Some((_, nm, lp)) => g.spec_name() == nm && g.spec_last_played() == lp
                        && g.spec_has_manifest(),
                    None => g.spec_name() == "App "@ + dec_str(app_id as nat)
                        && g.spec_last_played() == 0 && !g.spec_has_manifest(),
                }),
                None => fallback_prefix is Some && g.spec_prefix_path() == fallback_prefix->0@
                    && g.spec_name() == "App "@ + dec_str(app_id as nat) && g.spec_last_played()
                    == 0 && !g.spec_has_manifest(),
            }),
            Err(e) => ((manifest_hit is None && fallback_prefix is None) || app_id == 0 || (
            manifest_hit matches Some(h) && crate::manifest::spec_parse_appmanifest(h.0@)
                matches Some((_, nm, _)) && nm.len() == 0)) && ((manifest_hit is None
                && fallback_prefix is None) || app_id == 0 ==> e is InvalidAppId) && ((
            manifest_hit is Some || fallback_prefix is Some) && app_id != 0 ==> e
                is InvalidManifest),
        }),
{
    let id_s = u32_to_string(app_id);
    let (name, prefix, has_manifest, last_played): (Option<String>, Option<String>, bool, u64) =
        match manifest_hit {
        Some((contents, compatdata)) => {
            let prefix = path_join(compatdata.as_str(), id_s.as_str());
            match crate::manifest::parse_appmanifest(contents.as_str()) {
                Some((_, nm, lp)) => (Some(nm), Some(prefix), true, lp),
                None => (None, Some(prefix), false, 0),
            }
        },
        None => {
            let p = match fallback_prefix {
                Some(p) => Some(p.clone()),
                None => None,
            };
            (None, p, false, 0)
        },
    };
    let prefix = match prefix {
        Some(p) => p,
        None => {
            return Err(Error::InvalidAppId(id_s));
        },
    };
    let name = match name {
        Some(n) => n,
        None => crate::strutil::str_concat("App ", id_s.as_str()),
    };
    GameInfo::new(app_id, name, prefix, has_manifest, last_played)
}

} // verus!
