use vstd::prelude::*;
use crate::strutil::all_digits;
use crate::strutil::digits_val;
use crate::strutil::parse_u32;
use crate::strutil::parse_u64;
use crate::vdf;
use crate::vdf::Value;
use crate::vdf::SpecValue;
use crate::vdf::SpecEntry;
use crate::vdf::parse_doc;
use crate::vdf::obj_get;

verus! {

/// The string value of a top-level field of a document, read without the
/// wrapper convention, as manifest files are laid out.
pub open spec fn spec_get_value(text: Seq<char>, key: Seq<char>) -> Option<Seq<char>> {
    match parse_doc(text) {
        Some((_, SpecValue::Obj(es))) => match obj_get(es, key) {
            Some(SpecValue::Str(s)) => Some(s),
            _ => None,
        },
        _ => None,
    }
}

/// Reads the string value of a top-level field of a manifest document.
pub fn get_value(contents: &str, key: &str) -> (r: Option<String>)
    ensures
        match r {
            Some(v) => spec_get_value(contents@, key@) == Some(v@),
            None => spec_get_value(contents@, key@) is None,
        },
{
    match vdf::parse(contents) {
        Err(_) => None,
        Ok(d) => match &d.value {
            Value::Str(_) => None,
            Value::Obj(es) => match vdf::obj_lookup(es, key) {
                Some(Value::Str(s)) => Some(s.clone()),
                _ => None,
            },
        },
    }
}

/// Replaces the value of a top-level field of a manifest document, or
/// inserts the field just before the final closing delimiter when it is
/// absent.  Unreadable content is treated as an empty container.
pub fn update_or_insert(contents: &str, key: &str, value: &str) -> (r: String)
    ensures
        r@ == vdf::spec_set_or_insert(contents@, key@, value@),
{
    vdf::set_or_insert(contents, key, value)
}

/// Numeric reading of a decimal field value, when it fits 32 bits.
pub open spec fn spec_field_u32(text: Seq<char>, key: Seq<char>) -> Option<u32> {
    match spec_get_value(text, key) {
        Some(s) => {
            if s.len() > 0 && all_digits(s) && digits_val(s) <= u32::MAX {
                Some(digits_val(s) as u32)
            } else {
                None
            }
        },
        None => None,
    }
}

/// Numeric reading of a decimal field value, when it fits 64 bits.
pub open spec fn spec_field_u64(text: Seq<char>, key: Seq<char>) -> Option<u64> {
    match spec_get_value(text, key) {
        Some(s) => {
            if s.len() > 0 && all_digits(s) && digits_val(s) <= u64::MAX {
                Some(digits_val(s) as u64)
            } else {
                None
            }
        },
        None => None,
    }
}

/// What an application manifest yields: identifier, display name, and the
/// last-activity timestamp, zero when absent or unreadable.
pub open spec fn spec_parse_appmanifest(text: Seq<char>) -> Option<(u32, Seq<char>, u64)> {
    match spec_field_u32(text, "appid"@) {
        None => None,
        Some(appid) => match spec_get_value(text, "name"@) {
            None => None,
            Some(name) => {
                let lp = match spec_field_u64(text, "LastPlayed"@) {
                    Some(v) => v,
                    None => 0u64,
                };
                Some((appid, name, lp))
            },
        },
    }
}

/// Parses an application manifest: identifier, name, last activity.
pub fn parse_appmanifest(contents: &str) -> (r: Option<(u32, String, u64)>)
    ensures
        match r {
            Some((appid, name, lp)) => spec_parse_appmanifest(contents@) == Some(
                (appid, name@, lp),
            ),
            None => spec_parse_appmanifest(contents@) is None,
        },
{
    let appid_s = match get_value(contents, "appid") {
        Some(s) => s,
        None => {
            return None;
        },
    };
    let appid = match parse_u32(appid_s.as_str()) {
        Some(v) => v,
        None => {
            return None;
        },
    };
    let name = match get_value(contents, "name") {
        Some(s) => s,
        None => {
            return None;
        },
    };
    let lp: u64 = match get_value(contents, "LastPlayed") {
        Some(s) => match parse_u64(s.as_str()) {
            Some(v) => v,
            None => 0,
        },
        None => 0,
    };
    Some((appid, name, lp))
}

/// What an application manifest yields for cleanup scans: identifier and
/// installation directory name.
pub open spec fn spec_parse_appmanifest_installdir(text: Seq<char>) -> Option<(u32, Seq<char>)> {
    match spec_field_u32(text, "appid"@) {
        None => None,
        Some(appid) => match spec_get_value(text, "installdir"@) {
            None => None,
            Some(dir) => Some((appid, dir)),
        },
    }
}

/// Parses an application manifest down to identifier and install directory.
pub fn parse_appmanifest_installdir(contents: &str) -> (r: Option<(u32, String)>)
    ensures
        match r {
            Some((appid, dir)) => spec_parse_appmanifest_installdir(contents@) == Some(
                (appid, dir@),
            ),
            None => spec_parse_appmanifest_installdir(contents@) is None,
        },
{
    let appid_s = match get_value(contents, "appid") {
        Some(s) => s,
        None => {
            return None;
        },
    };
    let appid = match parse_u32(appid_s.as_str()) {
        Some(v) => v,
        None => {
            return None;
        },
    };
    match get_value(contents, "installdir") {
        Some(dir) => Some((appid, dir)),
        None => None,
    }
}

/// The `path` fields of the folder entries, in document order.
pub open spec fn folder_paths(es: Seq<SpecEntry>) -> Seq<Seq<char>>
    decreases es,
{
    if es.len() == 0 {
        Seq::empty()
    } else {
        let head = match es[0].value {
            SpecValue::Obj(inner) => match obj_get(inner, "path"@) {
                Some(SpecValue::Str(p)) => seq![p],
                _ => Seq::empty(),
            },
            SpecValue::Str(_) => Seq::empty(),
        };
        head + folder_paths(es.drop_first())
    }
}

/// The folder entries of a storage-root manifest: the root's own object
/// when its outer key is the well-known one, else the object under that
/// key inside the root.
pub open spec fn spec_library_folder_entries(text: Seq<char>) -> Option<Seq<SpecEntry>> {
    match parse_doc(text) {
        None => None,
        Some((k, v)) => {
            if k == "libraryfolders"@ {
                match v {
                    SpecValue::Obj(es) => Some(es),
                    SpecValue::Str(_) => None,
                }
            } else {
                match v {
                    SpecValue::Obj(es) => match obj_get(es, "libraryfolders"@) {
                        Some(SpecValue::Obj(inner)) => Some(inner),
                        _ => None,
                    },
                    SpecValue::Str(_) => None,
                }
            }
        },
    }
}

/// The storage-root paths a manifest text declares, in document order;
/// `None` when the text does not parse at all.
pub open spec fn spec_library_folders(text: Seq<char>) -> Option<Seq<Seq<char>>> {
    match parse_doc(text) {
        None => None,
        Some(_) => match spec_library_folder_entries(text) {
            None => Some(Seq::empty()),
            Some(es) => Some(folder_paths(es)),
        },
    }
}

proof fn lemma_folder_paths_app(a: Seq<SpecEntry>, b: Seq<SpecEntry>)
    ensures
        folder_paths(a + b) == folder_paths(a) + folder_paths(b),
    decreases a,
{
    if a.len() == 0 {
        assert(a + b =~= b);
        assert(folder_paths(a) + folder_paths(b) =~= folder_paths(b));
    } else {
        lemma_folder_paths_app(a.drop_first(), b);
        assert((a + b)[0] == a[0]);
        assert((a + b).drop_first() =~= a.drop_first() + b);
        assert(folder_paths(a + b) =~= folder_paths(a) + folder_paths(b));
    }
}

/// Reads the declared storage-root paths from a root-level manifest.
/// Unreadable text yields `None`; a readable manifest without folder
/// entries yields an empty list.
pub fn parse_libraryfolders(contents: &str) -> (r: Option<Vec<String>>)
    ensures
        match r {
            Some(paths) => spec_library_folders(contents@) == Some(paths.deep_view()),
            None => spec_library_folders(contents@) is None,
        },
{
    let d = match vdf::parse(contents) {
        Ok(d) => d,
        Err(_) => {
            return None;
        },
    };
    proof {
        reveal_strlit("libraryfolders");
    }
    let folders: Option<&Vec<crate::vdf::Entry>> = if crate::strutil::str_eq(
        d.key.as_str(),
        "libraryfolders",
    ) {
        match &d.value {
            Value::Obj(es) => Some(es),
            Value::Str(_) => None,
        }
    } else {
        match &d.value {
            Value::Obj(es) => match vdf::obj_lookup(es, "libraryfolders") {
                Some(Value::Obj(inner)) => Some(inner),
                _ => None,
            },
            Value::Str(_) => None,
        }
    };
    let es = match folders {
        None => {
            let empty: Vec<String> = Vec::new();
            proof {
                assert(empty.deep_view() =~= Seq::<Seq<char>>::empty());
            }
            return Some(empty);
        },
        Some(es) => es,
    };
    let ghost ve = Value::view_entries(es@);
    proof {
        vdf::lemma_view_entries_props(es@);
        assert(ve.subrange(0, 0) =~= Seq::<SpecEntry>::empty());
    }
    let mut out: Vec<String> = Vec::new();
    let mut i: usize = 0;
    while i < es.len()
        invariant
            i <= es@.len(),
            ve == Value::view_entries(es@),
            ve.len() == es@.len(),
            forall|k: int|
                0 <= k < es@.len() ==> #[trigger] ve[k] == (SpecEntry {
                    key: es@[k].key@,
                    value: es@[k].value.view(),
                }),
            out.deep_view() == folder_paths(ve.subrange(0, i as int)),
        decreases es@.len() - i,
    {
        let ghost seen = ve.subrange(0, i as int);
        proof {
            lemma_folder_paths_app(seen, seq![ve[i as int]]);
            assert(seen + seq![ve[i as int]] =~= ve.subrange(0, i as int + 1));
            assert(seq![ve[i as int]][0] == ve[i as int]);
            assert(seq![ve[i as int]].drop_first() =~= Seq::<SpecEntry>::empty());
            assert(folder_paths(seq![ve[i as int]].drop_first()) == Seq::<Seq<char>>::empty());
        }
        match &es[i].value {
            Value::Obj(inner) => {
                proof {
                    reveal_strlit("path");
                }
                match vdf::obj_lookup(inner, "path") {
                    Some(Value::Str(p)) => {
                        let ghost before = out.deep_view();
                        out.push(p.clone());
                        proof {
                            assert(out.deep_view() =~= before.push(p@));
                            assert(folder_paths(ve.subrange(0, i as int + 1)) =~= before.push(p@));
                        }
                    },
                    _ => {
                        proof {
                            assert(folder_paths(ve.subrange(0, i as int + 1)) =~= out.deep_view());
                        }
                    },
                }
            },
            Value::Str(_) => {
                proof {
                    assert(folder_paths(ve.subrange(0, i as int + 1)) =~= out.deep_view());
                }
            },
        }
        i = i + 1;
    }
    proof {
        assert(ve.subrange(0, ve.len() as int) =~= ve);
    }
    Some(out)
}

} // verus!
