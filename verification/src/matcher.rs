use vstd::prelude::*;
use crate::strutil::contains_seq;
use crate::strutil::lower_of;
use crate::strutil::lowercase;
use crate::strutil::spec_first_token;
use crate::strutil::spec_split;
use crate::strutil::spec_trim;
use crate::strutil::split_char;
use crate::strutil::split_lines;
use crate::strutil::str_concat;
use crate::strutil::str_contains;
use crate::strutil::strip_protons;
use crate::strutil::strip_proton_prefix;
use crate::strutil::first_token;
use crate::strutil::is_prefix;
use crate::strutil::starts_with;
use crate::strutil::trim;
use crate::strutil::vec_contains;
use crate::strutil::seq_contains_str;

verus! {

/// One searchable root: a directory path and the names of the directories
/// under it, as the caller listed them, in filesystem order.
pub struct DirListing {
    pub path: String,
    pub entries: Vec<String>,
}

/// The candidate directory names derived from a version label: the label
/// itself, and a normalized `Proton <first token>` form — derived from the
/// label's first token when the label does not already begin with the
/// family name, and from the first token after the family name when it
/// does and that token is non-empty.
pub open spec fn spec_candidates(v: Seq<char>) -> Seq<Seq<char>> {
    let n = spec_trim(v);
    if !is_prefix(lower_of(n), "proton"@) {
        seq![v, "Proton "@ + spec_first_token(n)]
    } else {
        let tok = spec_first_token(spec_trim(strip_protons(n)));
        if tok.len() > 0 {
            seq![v, "Proton "@ + tok]
        } else {
            seq![v]
        }
    }
}

/// Derives the candidate directory names for a version label.
pub fn runtime_candidates(version: &str) -> (r: Vec<String>)
    ensures
        r.deep_view() == spec_candidates(version@),
{
    let normalized = trim(version);
    let mut out: Vec<String> = Vec::new();
    out.push(String::from_str(version));
    let low = lowercase(normalized);
    if !starts_with(low.as_str(), "proton") {
        let tok = first_token(normalized);
        out.push(str_concat("Proton ", tok));
        proof {
            assert(out.deep_view() =~= spec_candidates(version@));
        }
    } else {
        let stripped = strip_proton_prefix(normalized);
        let rest = trim(stripped.as_str());
        let tok = first_token(rest);
        if tok.unicode_len() > 0 {
            out.push(str_concat("Proton ", tok));
            proof {
                assert(out.deep_view() =~= spec_candidates(version@));
            }
        } else {
            proof {
                assert(out.deep_view() =~= spec_candidates(version@));
            }
        }
    }
    out
}

/// The first root whose listing holds this exact name, as a full path.
pub open spec fn exact_in_dirs(cand: Seq<char>, dirs: Seq<DirListing>, mid: Seq<char>) -> Option<
    Seq<char>,
>
    decreases dirs,
{
    if dirs.len() == 0 {
        None
    } else if seq_contains_str(dirs[0].entries@, cand) {
        Some(dirs[0].path@ + mid + cand)
    } else {
        exact_in_dirs(cand, dirs.drop_first(), mid)
    }
}

/// The first candidate name found exactly under any root, candidates in
/// priority order.
pub open spec fn exact_stage(cands: Seq<Seq<char>>, dirs: Seq<DirListing>, mid: Seq<char>)
    -> Option<Seq<char>>
    decreases cands,
{
    if cands.len() == 0 {
        None
    } else {
        match exact_in_dirs(cands[0], dirs, mid) {
            Some(p) => Some(p),
            None => exact_stage(cands.drop_first(), dirs, mid),
        }
    }
}

/// A directory name matches loosely when its lowercased form contains the
/// whole lowercased label or the lowercased short form.
pub open spec fn fuzzy_matches(name: Seq<char>, full_l: Seq<char>, base_l: Seq<char>) -> bool {
    contains_seq(lower_of(name), full_l) || contains_seq(lower_of(name), base_l)
}

/// The first loosely matching name in one listing.
pub open spec fn fuzzy_in_listing(entries: Seq<String>, full_l: Seq<char>, base_l: Seq<char>)
    -> Option<Seq<char>>
    decreases entries,
{
    if entries.len() == 0 {
        None
    } else if fuzzy_matches(entries[0]@, full_l, base_l) {
        Some(entries[0]@)
    } else {
        fuzzy_in_listing(entries.drop_first(), full_l, base_l)
    }
}

/// The first loosely matching name under any root, as a full path.
pub open spec fn fuzzy_stage(
    dirs: Seq<DirListing>,
    full_l: Seq<char>,
    base_l: Seq<char>,
    mid: Seq<char>,
) -> Option<Seq<char>>
    decreases dirs,
{
    if dirs.len() == 0 {
        None
    } else {
        match fuzzy_in_listing(dirs[0].entries@, full_l, base_l) {
            Some(name) => Some(dirs[0].path@ + mid + name),
            None => fuzzy_stage(dirs.drop_first(), full_l, base_l, mid),
        }
    }
}

/// The lowercased whole label, trimmed.
pub open spec fn spec_full_lower(v: Seq<char>) -> Seq<char> {
    lower_of(spec_trim(v))
}

/// The lowercased short form: the first token after the family name.
pub open spec fn spec_base_lower(v: Seq<char>) -> Seq<char> {
    lower_of(spec_first_token(spec_trim(strip_protons(spec_trim(v)))))
}

/// Where a version label resolves to an installed runtime directory.
/// Search order: exact name match under each library's shared-tools
/// directory, then under each configured tool root, then a loose substring
/// match under the libraries, then under the tool roots.  The first hit
/// wins; no stage matching yields nothing.
pub open spec fn spec_find_runtime(
    v: Seq<char>,
    libs: Seq<DirListing>,
    tools: Seq<DirListing>,
) -> Option<Seq<char>> {
    let cands = spec_candidates(v);
    match exact_stage(cands, libs, "/steamapps/common/"@) {
        Some(p) => Some(p),
        None => match exact_stage(cands, tools, "/"@) {
            Some(p) => Some(p),
            None => match fuzzy_stage(
                libs,
                spec_full_lower(v),
                spec_base_lower(v),
                "/steamapps/common/"@,
            ) {
                Some(p) => Some(p),
                None => fuzzy_stage(tools, spec_full_lower(v), spec_base_lower(v), "/"@),
            },
        },
    }
}

fn exact_stage_x(cands: &Vec<String>, dirs: &Vec<DirListing>, mid: &str) -> (r: Option<String>)
    ensures
        match r {
            Some(p) => exact_stage(cands.deep_view(), dirs@, mid@) == Some(p@),
            None => exact_stage(cands.deep_view(), dirs@, mid@) is None,
        },
{
    let ghost cs = cands.deep_view();
    proof {
        assert(cs.subrange(0, cs.len() as int) =~= cs);
    }
    let mut c: usize = 0;
    while c < cands.len()
        invariant
            c <= cands@.len(),
            cs == cands.deep_view(),
            cs.len() == cands@.len(),
            exact_stage(cs, dirs@, mid@) == exact_stage(
                cs.subrange(c as int, cs.len() as int),
                dirs@,
                mid@,
            ),
        decreases cands@.len() - c,
    {
        let ghost ctail = cs.subrange(c as int, cs.len() as int);
        proof {
            assert(ctail[0] == cs[c as int]);
            assert(cs[c as int] == cands@[c as int]@);
            assert(ctail.drop_first() =~= cs.subrange(c as int + 1, cs.len() as int));
            assert(dirs@.subrange(0, dirs@.len() as int) =~= dirs@);
        }
        let mut d: usize = 0;
        while d < dirs.len()
            invariant
                d <= dirs@.len(),
                cs == cands.deep_view(),
                cs.len() == cands@.len(),
                c < cands@.len(),
                ctail == cs.subrange(c as int, cs.len() as int),
                ctail[0] == cands@[c as int]@,
                exact_stage(cs, dirs@, mid@) == exact_stage(ctail, dirs@, mid@),
                exact_in_dirs(ctail[0], dirs@, mid@) == exact_in_dirs(
                    ctail[0],
                    dirs@.subrange(d as int, dirs@.len() as int),
                    mid@,
                ),
            decreases dirs@.len() - d,
        {
            let ghost dtail = dirs@.subrange(d as int, dirs@.len() as int);
            proof {
                assert(dtail[0] == dirs@[d as int]);
                assert(dtail.drop_first() =~= dirs@.subrange(d as int + 1, dirs@.len() as int));
            }
            if vec_contains(&dirs[d].entries, cands[c].as_str()) {
                proof {
                    assert(seq_contains_str(dtail[0].entries@, ctail[0]));
                    assert(exact_in_dirs(ctail[0], dtail, mid@) == Some(
                        dtail[0].path@ + mid@ + ctail[0],
                    ));
                    assert(exact_stage(ctail, dirs@, mid@) == Some(
                        dtail[0].path@ + mid@ + ctail[0],
                    ));
                }
                let base = str_concat(dirs[d].path.as_str(), mid);
                let full = str_concat(base.as_str(), cands[c].as_str());
                return Some(full);
            }
            d = d + 1;
        }
        proof {
            assert(dirs@.subrange(dirs@.len() as int, dirs@.len() as int) =~= Seq::<
                DirListing,
            >::empty());
        }
        c = c + 1;
    }
    proof {
        assert(cs.subrange(cs.len() as int, cs.len() as int) =~= Seq::<Seq<char>>::empty());
    }
    None
}

fn fuzzy_stage_x(dirs: &Vec<DirListing>, full_l: &str, base_l: &str, mid: &str) -> (r: Option<
    String,
>)
    ensures
        match r {
            Some(p) => fuzzy_stage(dirs@, full_l@, base_l@, mid@) == Some(p@),
            None => fuzzy_stage(dirs@, full_l@, base_l@, mid@) is None,
        },
{
    proof {
        assert(dirs@.subrange(0, dirs@.len() as int) =~= dirs@);
    }
    let mut d: usize = 0;
    while d < dirs.len()
        invariant
            d <= dirs@.len(),
            fuzzy_stage(dirs@, full_l@, base_l@, mid@) == fuzzy_stage(
                dirs@.subrange(d as int, dirs@.len() as int),
                full_l@,
                base_l@,
                mid@,
            ),
        decreases dirs@.len() - d,
    {
        let ghost dtail = dirs@.subrange(d as int, dirs@.len() as int);
        proof {
            assert(dtail[0] == dirs@[d as int]);
            assert(dtail.drop_first() =~= dirs@.subrange(d as int + 1, dirs@.len() as int));
            assert(dirs@[d as int].entries@.subrange(0, dirs@[d as int].entries@.len() as int)
                =~= dirs@[d as int].entries@);
        }
        let entries = &dirs[d].entries;
        let mut e: usize = 0;
        while e < entries.len()
            invariant
                e <= entries@.len(),
                entries@ == dirs@[d as int].entries@,
                d < dirs@.len(),
                dtail == dirs@.subrange(d as int, dirs@.len() as int),
                dtail[0] == dirs@[d as int],
                fuzzy_stage(dirs@, full_l@, base_l@, mid@) == fuzzy_stage(
                    dtail,
                    full_l@,
                    base_l@,
                    mid@,
                ),
                fuzzy_in_listing(dirs@[d as int].entries@, full_l@, base_l@) == fuzzy_in_listing(
                    entries@.subrange(e as int, entries@.len() as int),
                    full_l@,
                    base_l@,
                ),
            decreases entries@.len() - e,
        {
            let ghost etail = entries@.subrange(e as int, entries@.len() as int);
            proof {
                assert(etail[0] == entries@[e as int]);
                assert(etail.drop_first() =~= entries@.subrange(
                    e as int + 1,
                    entries@.len() as int,
                ));
            }
            let nl = lowercase(entries[e].as_str());
            if str_contains(nl.as_str(), full_l) || str_contains(nl.as_str(), base_l) {
                proof {
                    assert(fuzzy_matches(etail[0]@, full_l@, base_l@));
                    assert(fuzzy_in_listing(etail, full_l@, base_l@) == Some(etail[0]@));
                    assert(fuzzy_stage(dtail, full_l@, base_l@, mid@) == Some(
                        dtail[0].path@ + mid@ + etail[0]@,
                    ));
                }
                let base = str_concat(dirs[d].path.as_str(), mid);
                let full = str_concat(base.as_str(), entries[e].as_str());
                return Some(full);
            }
            e = e + 1;
        }
        proof {
            assert(entries@.subrange(entries@.len() as int, entries@.len() as int) =~= Seq::<
                String,
            >::empty());
        }
        d = d + 1;
    }
    proof {
        assert(dirs@.subrange(dirs@.len() as int, dirs@.len() as int) =~= Seq::<DirListing>::empty());
    }
    None
}

/// Resolves a version label to an installed runtime directory through the
/// layered exact and loose strategies, or nothing when no stage matches.
pub fn find_proton_runtime(version: &str, libraries: &Vec<DirListing>, tool_dirs: &Vec<DirListing>)
    -> (r: Option<String>)
    ensures
        match r {
            Some(p) => spec_find_runtime(version@, libraries@, tool_dirs@) == Some(p@),
            None => spec_find_runtime(version@, libraries@, tool_dirs@) is None,
        },
{
    let cands = runtime_candidates(version);
    match exact_stage_x(&cands, libraries, "/steamapps/common/") {
        Some(p) => {
            return Some(p);
        },
        None => {},
    }
    match exact_stage_x(&cands, tool_dirs, "/") {
        Some(p) => {
            return Some(p);
        },
        None => {},
    }
    let full_l = lowercase(trim(version));
    let stripped = strip_proton_prefix(trim(version));
    let base_l = lowercase(first_token(trim(stripped.as_str())));
    match fuzzy_stage_x(libraries, full_l.as_str(), base_l.as_str(), "/steamapps/common/") {
        Some(p) => {
            return Some(p);
        },
        None => {},
    }
    fuzzy_stage_x(tool_dirs, full_l.as_str(), base_l.as_str(), "/")
}

/// Whether the exact stages alone would find the labelled runtime under
/// the libraries or the configured tool roots.
pub fn proton_runtime_exists(
    version: &str,
    libraries: &Vec<DirListing>,
    tool_dirs: &Vec<DirListing>,
) -> (r: bool)
    ensures
        r == (exact_stage(spec_candidates(version@), libraries@, "/steamapps/common/"@) is Some
            || exact_stage(spec_candidates(version@), tool_dirs@, "/"@) is Some),
{
    let cands = runtime_candidates(version);
    match exact_stage_x(&cands, libraries, "/steamapps/common/") {
        Some(_) => true,
        None => {
            match exact_stage_x(&cands, tool_dirs, "/") {
                Some(_) => true,
                None => false,
            }
        },
    }
}

} // verus!

verus! {

/// What the caller read from the possible version sources of a
/// runtime-state directory, in priority order.
pub struct VersionSources {
    pub version_file: Option<String>,
    pub parent_version_file: Option<String>,
    pub parent_dir_name: Option<String>,
    pub toolmanifest: Option<String>,
    pub proton_version_file: Option<String>,
    pub dist_info: Option<String>,
}

/// The name a tool manifest declares, from the first line that starts
/// with the quoted name key: the fourth quote-separated field, when it
/// mentions the family name.
pub open spec fn spec_tm_name(lines: Seq<Seq<char>>) -> Option<Seq<char>>
    decreases lines,
{
    if lines.len() == 0 {
        None
    } else {
        let t = spec_trim(lines[0]);
        let fields = spec_split(lines[0], '"');
        if is_prefix(t, "\"name\""@) && fields.len() > 3 && contains_seq(fields[3], "Proton"@) {
            Some(fields[3])
        } else {
            spec_tm_name(lines.drop_first())
        }
    }
}

/// The version a distribution marker declares: the value after the
/// equals sign on the first line naming the version variable, prefixed
/// with the family name.
pub open spec fn spec_dist_version(lines: Seq<Seq<char>>) -> Option<Seq<char>>
    decreases lines,
{
    if lines.len() == 0 {
        None
    } else if contains_seq(lines[0], "DIST_VERSION="@) {
        let fields = spec_split(lines[0], '=');
        if fields.len() > 1 {
            Some("Proton "@ + spec_trim(fields[1]))
        } else {
            None
        }
    } else {
        spec_dist_version(lines.drop_first())
    }
}

/// The version label a runtime-state directory yields, sources tried in
/// priority order: the version file, the parent's version file, a parent
/// directory name mentioning the family, the tool manifest, the dedicated
/// version file, the distribution marker.  A version file that trims to
/// nothing is no label: it falls through to the next source, so the
/// matcher is never handed an empty label that would match loosely
/// everywhere.
pub open spec fn spec_detect_version(src: VersionSources) -> Option<Seq<char>> {
    if src.version_file is Some && spec_trim(src.version_file->0@).len() > 0 {
        Some(spec_trim(src.version_file->0@))
    } else if src.parent_version_file is Some && spec_trim(src.parent_version_file->0@).len()
        > 0 {
        Some(spec_trim(src.parent_version_file->0@))
    } else if src.parent_dir_name is Some && contains_seq(
        lower_of(src.parent_dir_name->0@),
        "proton"@,
    ) {
        Some(src.parent_dir_name->0@)
    } else {
        let tm = match src.toolmanifest {
            Some(c) => spec_tm_name(spec_split(c@, '\n')),
            None => None,
        };
        if tm is Some {
            tm
        } else if src.proton_version_file is Some && spec_trim(
            src.proton_version_file->0@,
        ).len() > 0 {
            Some(spec_trim(src.proton_version_file->0@))
        } else {
            match src.dist_info {
                Some(c) => spec_dist_version(spec_split(c@, '\n')),
                None => None,
            }
        }
    }
}

fn tm_name_x(contents: &str) -> (r: Option<String>)
    ensures
        match r {
            Some(s) => spec_tm_name(spec_split(contents@, '\n')) == Some(s@),
            None => spec_tm_name(spec_split(contents@, '\n')) is None,
        },
{
    let lines = split_lines(contents);
    let ghost ls = lines.deep_view();
    proof {
        assert(ls.subrange(0, ls.len() as int) =~= ls);
    }
    let mut i: usize = 0;
    while i < lines.len()
        invariant
            i <= lines@.len(),
            ls == lines.deep_view(),
            ls.len() == lines@.len(),
            ls == spec_split(contents@, '\n'),
            spec_tm_name(ls) == spec_tm_name(ls.subrange(i as int, ls.len() as int)),
        decreases lines@.len() - i,
    {
        let ghost tail = ls.subrange(i as int, ls.len() as int);
        proof {
            assert(tail[0] == ls[i as int]);
            assert(ls[i as int] == lines@[i as int]@);
            assert(tail.drop_first() =~= ls.subrange(i as int + 1, ls.len() as int));
        }
        let t = trim(lines[i].as_str());
        if starts_with(t, "\"name\"") {
            let fields = split_char(lines[i].as_str(), '"');
            if fields.len() > 3 {
                if str_contains(fields[3].as_str(), "Proton") {
                    proof {
                        assert(fields.deep_view()[3] == fields@[3]@);
                        assert(spec_tm_name(tail) == Some(fields@[3]@));
                    }
                    return Some(fields[3].clone());
                }
            }
            proof {
                if fields.deep_view().len() > 3 {
                    assert(fields.deep_view()[3] == fields@[3]@);
                }
            }
        }
        i = i + 1;
    }
    proof {
        assert(ls.subrange(ls.len() as int, ls.len() as int) =~= Seq::<Seq<char>>::empty());
    }
    None
}

fn dist_version_x(contents: &str) -> (r: Option<String>)
    ensures
        match r {
            Some(s) => spec_dist_version(spec_split(contents@, '\n')) == Some(s@),
            None => spec_dist_version(spec_split(contents@, '\n')) is None,
        },
{
    let lines = split_lines(contents);
    let ghost ls = lines.deep_view();
    proof {
        assert(ls.subrange(0, ls.len() as int) =~= ls);
    }
    let mut i: usize = 0;
    while i < lines.len()
        invariant
            i <= lines@.len(),
            ls == lines.deep_view(),
            ls.len() == lines@.len(),
            ls == spec_split(contents@, '\n'),
            spec_dist_version(ls) == spec_dist_version(ls.subrange(i as int, ls.len() as int)),
        decreases lines@.len() - i,
    {
        let ghost tail = ls.subrange(i as int, ls.len() as int);
        proof {
            assert(tail[0] == ls[i as int]);
            assert(ls[i as int] == lines@[i as int]@);
            assert(tail.drop_first() =~= ls.subrange(i as int + 1, ls.len() as int));
        }
        if str_contains(lines[i].as_str(), "DIST_VERSION=") {
            let fields = split_char(lines[i].as_str(), '=');
            if fields.len() > 1 {
                let v = trim(fields[1].as_str());
                proof {
                    assert(fields.deep_view()[1] == fields@[1]@);
                }
                return Some(str_concat("Proton ", v));
            } else {
                proof {
                    assert(fields.deep_view().len() == fields@.len());
                }
                return None;
            }
        }
        i = i + 1;
    }
    proof {
        assert(ls.subrange(ls.len() as int, ls.len() as int) =~= Seq::<Seq<char>>::empty());
    }
    None
}

/// Detects the runtime version of a runtime-state directory from what the
/// caller read of its conventional version sources.
pub fn detect_proton_version(src: &VersionSources) -> (r: Option<String>)
    ensures
        match r {
            Some(s) => spec_detect_version(*src) == Some(s@),
            None => spec_detect_version(*src) is None,
        },
{
    match &src.version_file {
        Some(c) => {
            let t = trim(c.as_str());
            if t.unicode_len() > 0 {
                return Some(String::from_str(t));
            }
        },
        None => {},
    }
    match &src.parent_version_file {
        Some(c) => {
            let t = trim(c.as_str());
            if t.unicode_len() > 0 {
                return Some(String::from_str(t));
            }
        },
        None => {},
    }
    match &src.parent_dir_name {
        Some(n) => {
            let nl = lowercase(n.as_str());
            if str_contains(nl.as_str(), "proton") {
                return Some(n.clone());
            }
        },
        None => {},
    }
    match &src.toolmanifest {
        Some(c) => {
            match tm_name_x(c.as_str()) {
                Some(name) => {
                    return Some(name);
                },
                None => {},
            }
        },
        None => {},
    }
    match &src.proton_version_file {
        Some(c) => {
            let t = trim(c.as_str());
            if t.unicode_len() > 0 {
                return Some(String::from_str(t));
            }
        },
        None => {},
    }
    match &src.dist_info {
        Some(c) => dist_version_x(c.as_str()),
        None => None,
    }
}

/// Which of the conventional translation layers' libraries the caller saw
/// in the environment's system directory.
pub struct Sys32Dlls {
    pub d3d9: bool,
    pub d3d10: bool,
    pub d3d11: bool,
    pub d3d12: bool,
}

/// What a runtime-state directory shows about itself: the detected
/// version and which translation layers are present.
pub struct PrefixInfo {
    pub version: Option<String>,
    pub has_dxvk: bool,
    pub has_vkd3d: bool,
}

/// The Direct3D translation layer is present when any of its libraries is.
pub fn has_dxvk(dlls: &Sys32Dlls) -> (r: bool)
    ensures
        r == (dlls.d3d11 || dlls.d3d10 || dlls.d3d9),
{
    dlls.d3d11 || dlls.d3d10 || dlls.d3d9
}

/// The Direct3D 12 translation layer is present when its library is.
pub fn has_vkd3d(dlls: &Sys32Dlls) -> (r: bool)
    ensures
        r == dlls.d3d12,
{
    dlls.d3d12
}

/// Gathers what a runtime-state directory shows: version detection over
/// the observed sources, and the translation layers present.
pub fn collect_prefix_info(src: &VersionSources, dlls: &Sys32Dlls) -> (r: PrefixInfo)
    ensures
        ({
            match r.version {
                Some(s) => spec_detect_version(*src) == Some(s@),
                None => spec_detect_version(*src) is None,
            }
        }),
        r.has_dxvk == (dlls.d3d11 || dlls.d3d10 || dlls.d3d9),
        r.has_vkd3d == dlls.d3d12,
{
    PrefixInfo {
        version: detect_proton_version(src),
        has_dxvk: has_dxvk(dlls),
        has_vkd3d: has_vkd3d(dlls),
    }
}

} // verus!
