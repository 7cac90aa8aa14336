use vstd::prelude::*;
use crate::strutil::path_join;

verus! {

/// What the caller observed of one candidate location: the configured
/// path, whether anything exists there, and its canonical (symlink-resolved)
/// path — the configured path itself where resolution failed.
pub struct PathFact {
    pub path: String,
    pub exists: bool,
    pub canonical: String,
}

/// The canonical paths of the existing candidates, first occurrence of
/// each canonical path kept, in candidate order.
pub open spec fn dedup_canon(facts: Seq<PathFact>, seen: Set<Seq<char>>) -> Seq<Seq<char>>
    decreases facts,
{
    if facts.len() == 0 {
        Seq::empty()
    } else {
        let f = facts[0];
        if f.exists && !seen.contains(f.canonical@) {
            seq![f.canonical@] + dedup_canon(facts.drop_first(), seen.insert(f.canonical@))
        } else {
            dedup_canon(facts.drop_first(), seen)
        }
    }
}

/// Filters candidate locations to those that exist and deduplicates them
/// by canonical path: two configured locations that resolve to the same
/// directory appear once, at the position of the first.
pub fn dedup_existing(facts: &Vec<PathFact>) -> (r: Vec<String>)
    ensures
        r.deep_view() == dedup_canon(facts@, Set::empty()),
        forall|i: int, j: int| 0 <= i < j < r@.len() ==> r@[i]@ != r@[j]@,
{
    let mut out: Vec<String> = Vec::new();
    let mut i: usize = 0;
    proof {
        assert(out.deep_view() =~= Seq::<Seq<char>>::empty());
        assert(seen_of(out.deep_view()) =~= Set::<Seq<char>>::empty());
        assert(facts@.subrange(0, facts@.len() as int) =~= facts@);
        assert(out.deep_view() + dedup_canon(facts@, Set::empty()) =~= dedup_canon(
            facts@,
            Set::empty(),
        ));
    }
    while i < facts.len()
        invariant
            i <= facts@.len(),
            out.deep_view() + dedup_canon(
                facts@.subrange(i as int, facts@.len() as int),
                seen_of(out.deep_view()),
            ) == dedup_canon(facts@, Set::empty()),
            forall|a: int, b: int| 0 <= a < b < out@.len() ==> out@[a]@ != out@[b]@,
            forall|a: int|
                0 <= a < out@.len() ==> seen_of(out.deep_view()).contains(#[trigger] out@[a]@),
            forall|c: Seq<char>|
                seen_of(out.deep_view()).contains(c) ==> exists|a: int|
                    0 <= a < out@.len() && out@[a]@ == c,
        decreases facts@.len() - i,
    {
        let ghost rest = facts@.subrange(i as int, facts@.len() as int);
        let ghost seen = seen_of(out.deep_view());
        proof {
            assert(rest[0] == facts@[i as int]);
            assert(rest.drop_first() =~= facts@.subrange(i as int + 1, facts@.len() as int));
        }
        let f = &facts[i];
        if f.exists && !contains_str(&out, f.canonical.as_str()) {
            let ghost before = out.deep_view();
            out.push(f.canonical.clone());
            proof {
                assert(out.deep_view() =~= before.push(f.canonical@));
                assert(seen_of(out.deep_view()) =~= seen.insert(f.canonical@)) by {
                    lemma_seen_push(before, f.canonical@);
                }
                assert(out.deep_view() + dedup_canon(rest.drop_first(), seen.insert(f.canonical@))
                    =~= before + (seq![f.canonical@] + dedup_canon(
                    rest.drop_first(),
                    seen.insert(f.canonical@),
                )));
            }
        } else {
            proof {
                if f.exists {
                    assert(seen.contains(f.canonical@));
                }
            }
        }
        i = i + 1;
    }
    proof {
        assert(facts@.subrange(facts@.len() as int, facts@.len() as int) =~= Seq::<PathFact>::empty());
        assert(out.deep_view() + Seq::<Seq<char>>::empty() =~= out.deep_view());
    }
    out
}

/// The set of strings in a list.
pub open spec fn seen_of(ss: Seq<Seq<char>>) -> Set<Seq<char>> {
    Set::new(|c: Seq<char>| exists|a: int| 0 <= a < ss.len() && ss[a] == c)
}

proof fn lemma_seen_push(ss: Seq<Seq<char>>, c: Seq<char>)
    ensures
        seen_of(ss.push(c)) =~= seen_of(ss).insert(c),
{
    assert forall|x: Seq<char>| seen_of(ss.push(c)).contains(x) implies seen_of(ss).insert(
        c,
    ).contains(x) by {
        let a = choose|a: int| 0 <= a < ss.push(c).len() && ss.push(c)[a] == x;
        if a < ss.len() {
            assert(ss[a] == x);
        }
    }
    assert forall|x: Seq<char>| seen_of(ss).insert(c).contains(x) implies seen_of(
        ss.push(c),
    ).contains(x) by {
        if x == c {
            assert(ss.push(c)[ss.len() as int] == c);
        } else {
            let a = choose|a: int| 0 <= a < ss.len() && ss[a] == x;
            assert(ss.push(c)[a] == x);
        }
    }
}

fn contains_str(v: &Vec<String>, s: &str) -> (r: bool)
    ensures
        r == seen_of(v.deep_view()).contains(s@),
{
    let mut i: usize = 0;
    while i < v.len()
        invariant
            i <= v@.len(),
            forall|j: int| 0 <= j < i ==> v@[j]@ != s@,
        decreases v@.len() - i,
    {
        if crate::strutil::str_eq(v[i].as_str(), s) {
            proof {
                assert(v.deep_view()[i as int] == s@);
            }
            return true;
        }
        i = i + 1;
    }
    proof {
        if seen_of(v.deep_view()).contains(s@) {
            let a = choose|a: int| 0 <= a < v.deep_view().len() && v.deep_view()[a] == s@;
            assert(v@[a]@ == s@);
        }
    }
    false
}

/// Every canonical path of an existing candidate appears in the result,
/// and it appears exactly once: two configured locations that resolve to
/// the same canonical path yield one entry between them.
pub proof fn lemma_dedup_complete(facts: Seq<PathFact>, seen: Set<Seq<char>>, k: int)
    requires
        0 <= k < facts.len(),
        facts[k].exists,
        !seen.contains(facts[k].canonical@),
    ensures
        exists|a: int|
            0 <= a < dedup_canon(facts, seen).len() && dedup_canon(facts, seen)[a]
                == facts[k].canonical@,
    decreases facts,
{
    let r = dedup_canon(facts, seen);
    let f = facts[0];
    if k == 0 {
        assert(r[0] == f.canonical@);
    } else {
        assert(facts.drop_first()[k - 1] == facts[k]);
        if f.exists && !seen.contains(f.canonical@) {
            if facts[k].canonical@ == f.canonical@ {
                assert(r[0] == facts[k].canonical@);
            } else {
                lemma_dedup_complete(facts.drop_first(), seen.insert(f.canonical@), k - 1);
                let a = choose|a: int|
                    0 <= a < dedup_canon(facts.drop_first(), seen.insert(f.canonical@)).len()
                        && dedup_canon(facts.drop_first(), seen.insert(f.canonical@))[a]
                        == facts[k].canonical@;
                assert(r[a + 1] == facts[k].canonical@);
            }
        } else {
            lemma_dedup_complete(facts.drop_first(), seen, k - 1);
        }
    }
}

/// Nothing stands in the result that no existing candidate resolves to.
pub proof fn lemma_dedup_sound(facts: Seq<PathFact>, seen: Set<Seq<char>>, a: int)
    requires
        0 <= a < dedup_canon(facts, seen).len(),
    ensures
        exists|k: int|
            0 <= k < facts.len() && facts[k].exists && #[trigger] facts[k].canonical@ == dedup_canon(
                facts,
                seen,
            )[a],
    decreases facts,
{
    let r = dedup_canon(facts, seen);
    let f = facts[0];
    if f.exists && !seen.contains(f.canonical@) {
        if a == 0 {
            assert(facts[0].exists && facts[0].canonical@ == r[0]);
        } else {
            lemma_dedup_sound(facts.drop_first(), seen.insert(f.canonical@), a - 1);
            let k = choose|k: int|
                0 <= k < facts.drop_first().len() && facts.drop_first()[k].exists
                    && #[trigger] facts.drop_first()[k].canonical@ == dedup_canon(
                    facts.drop_first(),
                    seen.insert(f.canonical@),
                )[a - 1];
            assert(facts[k + 1].exists && facts[k + 1].canonical@ == r[a]);
        }
    } else {
        lemma_dedup_sound(facts.drop_first(), seen, a);
        let k = choose|k: int|
            0 <= k < facts.drop_first().len() && facts.drop_first()[k].exists
                && #[trigger] facts.drop_first()[k].canonical@ == dedup_canon(
                facts.drop_first(),
                seen,
            )[a];
        assert(facts[k + 1].exists && facts[k + 1].canonical@ == r[a]);
    }
}

proof fn lemma_dedup_distinct(facts: Seq<PathFact>, seen: Set<Seq<char>>)
    ensures
        forall|a: int, b: int|
            0 <= a < b < dedup_canon(facts, seen).len() ==> dedup_canon(facts, seen)[a]
                != dedup_canon(facts, seen)[b],
        forall|a: int|
            0 <= a < dedup_canon(facts, seen).len() ==> !seen.contains(
                #[trigger] dedup_canon(facts, seen)[a],
            ),
    decreases facts,
{
    if facts.len() > 0 {
        let f = facts[0];
        if f.exists && !seen.contains(f.canonical@) {
            lemma_dedup_distinct(facts.drop_first(), seen.insert(f.canonical@));
            let r = dedup_canon(facts, seen);
            let rest = dedup_canon(facts.drop_first(), seen.insert(f.canonical@));
            assert(r == seq![f.canonical@] + rest);
            assert(r[0] == f.canonical@);
            assert forall|a: int, b: int| 0 <= a < b < r.len() implies r[a] != r[b] by {
                assert(r[b] == rest[b - 1]);
                if a == 0 {
                    assert(!seen.insert(f.canonical@).contains(rest[b - 1]));
                    assert(rest[b - 1] != f.canonical@);
                } else {
                    assert(r[a] == rest[a - 1]);
                }
            }
            assert forall|a: int| 0 <= a < r.len() implies !seen.contains(#[trigger] r[a]) by {
                if a > 0 {
                    assert(r[a] == rest[a - 1]);
                    assert(!seen.insert(f.canonical@).contains(rest[a - 1]));
                } else {
                    assert(r[0] == f.canonical@);
                }
            }
        } else {
            lemma_dedup_distinct(facts.drop_first(), seen);
            assert(dedup_canon(facts, seen) == dedup_canon(facts.drop_first(), seen));
        }
    }
}

/// Two configured locations that resolve to the same canonical path yield
/// exactly one entry between them: the canonical path appears in the
/// deduplicated list, and at exactly one position.
pub proof fn lemma_same_canonical_once(facts: Seq<PathFact>, i: int, j: int)
    requires
        0 <= i < j < facts.len(),
        facts[i].exists,
        facts[j].exists,
        facts[i].canonical@ == facts[j].canonical@,
    ensures
        exists|a: int|
            0 <= a < dedup_canon(facts, Set::empty()).len() && dedup_canon(facts, Set::empty())[a]
                == facts[i].canonical@,
        forall|a: int, b: int|
            0 <= a < dedup_canon(facts, Set::empty()).len() && 0 <= b < dedup_canon(
                facts,
                Set::empty(),
            ).len() && dedup_canon(facts, Set::empty())[a] == facts[i].canonical@ && dedup_canon(
                facts,
                Set::empty(),
            )[b] == facts[i].canonical@ ==> a == b,
{
    lemma_dedup_complete(facts, Set::empty(), i);
    lemma_dedup_distinct(facts, Set::empty());
    assert forall|a: int, b: int|
        0 <= a < dedup_canon(facts, Set::empty()).len() && 0 <= b < dedup_canon(
            facts,
            Set::empty(),
        ).len() && dedup_canon(facts, Set::empty())[a] == facts[i].canonical@ && dedup_canon(
            facts,
            Set::empty(),
        )[b] == facts[i].canonical@ implies a == b by {
        if a < b {
            assert(dedup_canon(facts, Set::empty())[a] != dedup_canon(facts, Set::empty())[b]);
        }
        if b < a {
            assert(dedup_canon(facts, Set::empty())[b] != dedup_canon(facts, Set::empty())[a]);
        }
    }
}

/// The conventional home-relative locations a storage root may stand at,
/// in search order.
pub fn candidate_base_dirs(home: &str) -> (r: Vec<String>)
    ensures
        r@.len() == 5,
        r@[0]@ == home@ + "/"@ + ".steam/steam"@,
        r@[1]@ == home@ + "/"@ + ".local/share/Steam"@,
        r@[2]@ == home@ + "/"@ + ".steam/root"@,
        r@[3]@ == home@ + "/"@ + ".steam/debian-installation"@,
        r@[4]@ == home@ + "/"@ + ".steam"@,
{
    let mut v: Vec<String> = Vec::new();
    v.push(path_join(home, ".steam/steam"));
    v.push(path_join(home, ".local/share/Steam"));
    v.push(path_join(home, ".steam/root"));
    v.push(path_join(home, ".steam/debian-installation"));
    v.push(path_join(home, ".steam"));
    v
}

/// The conventional home-relative locations of the configuration
/// directory, in search order.
pub fn candidate_config_dirs(home: &str) -> (r: Vec<String>)
    ensures
        r@.len() == 5,
        r@[0]@ == home@ + "/"@ + ".steam/steam/config"@,
        r@[1]@ == home@ + "/"@ + ".local/share/Steam/config"@,
        r@[2]@ == home@ + "/"@ + ".steam/config"@,
        r@[3]@ == home@ + "/"@ + ".steam/root/config"@,
        r@[4]@ == home@ + "/"@ + ".steam/debian-installation/config"@,
{
    let mut v: Vec<String> = Vec::new();
    v.push(path_join(home, ".steam/steam/config"));
    v.push(path_join(home, ".local/share/Steam/config"));
    v.push(path_join(home, ".steam/config"));
    v.push(path_join(home, ".steam/root/config"));
    v.push(path_join(home, ".steam/debian-installation/config"));
    v
}

/// Existing base directories, deduplicated by canonical path.  The caller
/// supplies what it observed of each candidate from `candidate_base_dirs`.
pub fn steam_base_dirs(facts: &Vec<PathFact>) -> (r: Vec<String>)
    ensures
        r.deep_view() == dedup_canon(facts@, Set::empty()),
        forall|i: int, j: int| 0 <= i < j < r@.len() ==> r@[i]@ != r@[j]@,
{
    dedup_existing(facts)
}

/// The per-identity storage directories under the given base directories.
pub fn userdata_candidates(bases: &Vec<String>) -> (r: Vec<String>)
    ensures
        r@.len() == bases@.len(),
        forall|i: int| 0 <= i < bases@.len() ==> r@[i]@ == bases@[i]@ + "/"@ + "userdata"@,
{
    let mut v: Vec<String> = Vec::new();
    let mut i: usize = 0;
    while i < bases.len()
        invariant
            i <= bases@.len(),
            v@.len() == i,
            forall|k: int| 0 <= k < i ==> v@[k]@ == bases@[k]@ + "/"@ + "userdata"@,
        decreases bases@.len() - i,
    {
        v.push(path_join(bases[i].as_str(), "userdata"));
        i = i + 1;
    }
    v
}

/// Existing per-identity storage directories, deduplicated by canonical
/// path, in base-directory order.
pub fn userdata_dirs(facts: &Vec<PathFact>) -> (r: Vec<String>)
    ensures
        r.deep_view() == dedup_canon(facts@, Set::empty()),
        forall|i: int, j: int| 0 <= i < j < r@.len() ==> r@[i]@ != r@[j]@,
{
    dedup_existing(facts)
}

/// Existing configuration directories, deduplicated by canonical path.
pub fn config_dirs(facts: &Vec<PathFact>) -> (r: Vec<String>)
    ensures
        r.deep_view() == dedup_canon(facts@, Set::empty()),
        forall|i: int, j: int| 0 <= i < j < r@.len() ==> r@[i]@ != r@[j]@,
{
    dedup_existing(facts)
}

} // verus!
