use vstd::prelude::*;
use vstd::multiset::Multiset;
use vstd::string::StrSliceExecFns;
use core::cmp::Ordering;
use crate::models::GameInfo;
use crate::strutil::lower_of;
use crate::strutil::lowercase;

verus! {

/// The orderings a game list can be shown in.
#[derive(Clone, Copy, Debug, PartialEq, Eq)]
pub enum GameSortKey {
    Name,
    LastUpdated,
    LastPlayed,
    AppId,
    ProtonVersion,
}

impl GameSortKey {
    /// The label shown for this ordering.
    pub fn label(&self) -> (r: &'static str)
        ensures
            match self {
                GameSortKey::Name => r@ == "Name"@,
                GameSortKey::LastUpdated => r@ == "Last Updated"@,
                GameSortKey::LastPlayed => r@ == "Last Played"@,
                GameSortKey::AppId => r@ == "AppID"@,
                GameSortKey::ProtonVersion => r@ == "Proton Version"@,
            },
    {
        match self {
            GameSortKey::Name => "Name",
            GameSortKey::LastUpdated => "Last Updated",
            GameSortKey::LastPlayed => "Last Played",
            GameSortKey::AppId => "AppID",
            GameSortKey::ProtonVersion => "Proton Version",
        }
    }
}

/// Lexicographic order on character sequences.
pub open spec fn lex_le(a: Seq<char>, b: Seq<char>) -> bool
    decreases a.len(),
{
    if a.len() == 0 {
        true
    } else if b.len() == 0 {
        false
    } else if a[0] != b[0] {
        a[0] < b[0]
    } else {
        lex_le(a.drop_first(), b.drop_first())
    }
}

/// Lexicographic order is total.
pub proof fn lemma_lex_total(a: Seq<char>, b: Seq<char>)
    ensures
        lex_le(a, b) || lex_le(b, a),
    decreases a.len(),
{
    if a.len() > 0 && b.len() > 0 && a[0] == b[0] {
        lemma_lex_total(a.drop_first(), b.drop_first());
    }
}

/// Lexicographic order is transitive.
pub proof fn lemma_lex_trans(a: Seq<char>, b: Seq<char>, c: Seq<char>)
    requires
        lex_le(a, b),
        lex_le(b, c),
    ensures
        lex_le(a, c),
    decreases a.len(),
{
    if a.len() > 0 && b.len() > 0 && c.len() > 0 && a[0] == b[0] && b[0] == c[0] {
        lemma_lex_trans(a.drop_first(), b.drop_first(), c.drop_first());
    }
}

/// One game sorts no later than another under a key: names compare
/// case-insensitively and lexicographically, timestamps and identifiers
/// numerically, and the runtime-version key imposes no order.
pub open spec fn game_le(a: GameInfo, b: GameInfo, key: GameSortKey) -> bool {
    match key {
        GameSortKey::Name => lex_le(lower_of(a.spec_name()), lower_of(b.spec_name())),
        GameSortKey::LastUpdated => a.spec_modified() <= b.spec_modified(),
        GameSortKey::LastPlayed => a.spec_last_played() <= b.spec_last_played(),
        GameSortKey::AppId => a.spec_app_id() <= b.spec_app_id(),
        GameSortKey::ProtonVersion => true,
    }
}

/// The order is total for every key.
pub proof fn lemma_game_le_total(a: GameInfo, b: GameInfo, key: GameSortKey)
    ensures
        game_le(a, b, key) || game_le(b, a, key),
{
    match key {
        GameSortKey::Name => {
            lemma_lex_total(lower_of(a.spec_name()), lower_of(b.spec_name()));
        },
        _ => {},
    }
}

/// The order is transitive for every key.
pub proof fn lemma_game_le_trans(a: GameInfo, b: GameInfo, c: GameInfo, key: GameSortKey)
    requires
        game_le(a, b, key),
        game_le(b, c, key),
    ensures
        game_le(a, c, key),
{
    match key {
        GameSortKey::Name => {
            lemma_lex_trans(
                lower_of(a.spec_name()),
                lower_of(b.spec_name()),
                lower_of(c.spec_name()),
            );
        },
        _ => {},
    }
}

fn lex_le_x(a: &str, b: &str) -> (r: bool)
    ensures
        r == lex_le(a@, b@),
{
    let an = a.unicode_len();
    let bn = b.unicode_len();
    let mut i: usize = 0;
    proof {
        assert(a@.subrange(0, an as int) =~= a@);
        assert(b@.subrange(0, bn as int) =~= b@);
    }
    loop
        invariant
            i <= an,
            i <= bn,
            an == a@.len(),
            bn == b@.len(),
            lex_le(a@, b@) == lex_le(
                a@.subrange(i as int, an as int),
                b@.subrange(i as int, bn as int),
            ),
            lex_le(b@, a@) == lex_le(
                b@.subrange(i as int, bn as int),
                a@.subrange(i as int, an as int),
            ),
        decreases an - i,
    {
        let ghost at = a@.subrange(i as int, an as int);
        let ghost bt = b@.subrange(i as int, bn as int);
        proof {
            if i < an {
                assert(at[0] == a@[i as int]);
            }
            if i < bn {
                assert(bt[0] == b@[i as int]);
            }
            if i < an {
                assert(at.drop_first() =~= a@.subrange(i as int + 1, an as int));
            }
            if i < bn {
                assert(bt.drop_first() =~= b@.subrange(i as int + 1, bn as int));
            }
        }
        if i == an {
            proof {
                assert(at.len() == 0);
            }
            return true;
        }
        if i == bn {
            proof {
                assert(bt.len() == 0 && at.len() > 0);
            }
            return false;
        }
        let ca = a.get_char(i);
        let cb = b.get_char(i);
        if ca != cb {
            return ca < cb;
        }
        i = i + 1;
    }
}

/// Compares two games under a key: the verdict is exactly the order of
/// the two key values, with equal names, timestamps or identifiers — and
/// everything under the runtime-version key — comparing as equal.
pub fn compare_games(a: &GameInfo, b: &GameInfo, key: GameSortKey) -> (r: Ordering)
    ensures
        r == Ordering::Less ==> game_le(*a, *b, key) && !game_le(*b, *a, key),
        r == Ordering::Greater ==> game_le(*b, *a, key) && !game_le(*a, *b, key),
        r == Ordering::Equal ==> game_le(*a, *b, key) && game_le(*b, *a, key),
{
    proof {
        lemma_game_le_total(*a, *b, key);
    }
    match key {
        GameSortKey::Name => {
            let la = lowercase(a.name());
            let lb = lowercase(b.name());
            let ab = lex_le_x(la.as_str(), lb.as_str());
            let ba = lex_le_x(lb.as_str(), la.as_str());
            if ab && ba {
                Ordering::Equal
            } else if ab {
                Ordering::Less
            } else {
                Ordering::Greater
            }
        },
        GameSortKey::LastUpdated => {
            let x = a.modified();
            let y = b.modified();
            if x < y {
                Ordering::Less
            } else if x == y {
                Ordering::Equal
            } else {
                Ordering::Greater
            }
        },
        GameSortKey::LastPlayed => {
            let x = a.last_played();
            let y = b.last_played();
            if x < y {
                Ordering::Less
            } else if x == y {
                Ordering::Equal
            } else {
                Ordering::Greater
            }
        },
        GameSortKey::AppId => {
            let x = a.app_id();
            let y = b.app_id();
            if x < y {
                Ordering::Less
            } else if x == y {
                Ordering::Equal
            } else {
                Ordering::Greater
            }
        },
        GameSortKey::ProtonVersion => Ordering::Equal,
    }
}

/// The list is ordered under the key, ascending or descending.
pub open spec fn sorted_by(gs: Seq<GameInfo>, key: GameSortKey, descending: bool) -> bool {
    if descending {
        forall|i: int, j: int| 0 <= i < j < gs.len() ==> game_le(#[trigger] gs[j], #[trigger] gs[i], key)
    } else {
        forall|i: int, j: int| 0 <= i < j < gs.len() ==> game_le(#[trigger] gs[i], #[trigger] gs[j], key)
    }
}

/// Sorts games in place under a key: the result holds exactly the same
/// records, ordered ascending, or descending when asked.  The contract
/// pins the permutation and the order, not the arrangement of ties:
/// callers must not rely on a particular tie order.
pub fn sort_games(games: &mut Vec<GameInfo>, key: GameSortKey, descending: bool)
    ensures
        final(games)@.to_multiset() == old(games)@.to_multiset(),
        sorted_by(final(games)@, key, descending),
{
    broadcast use vstd::seq_lib::group_to_multiset_ensures;
    broadcast use vstd::seq_lib::to_multiset_insert;
    broadcast use vstd::multiset::group_multiset_axioms;
    broadcast use vstd::multiset::group_multiset_properties;

    let mut out: Vec<GameInfo> = Vec::new();
    proof {
        assert(out@.to_multiset().add(games@.to_multiset()) =~= old(games)@.to_multiset());
    }
    while games.len() > 0
        invariant
            out@.to_multiset().add(games@.to_multiset()) == old(games)@.to_multiset(),
            forall|x: int, y: int|
                0 <= x < y < out@.len() ==> game_le(#[trigger] out@[x], #[trigger] out@[y], key),
        decreases games@.len(),
    {
        let ghost games_before = games@;
        let ghost out_before = out@;
        let x = games.remove(0);
        let mut pos: usize = 0;
        loop
            invariant
                pos <= out@.len(),
                out@ == out_before,
                forall|k: int| 0 <= k < pos ==> game_le(#[trigger] out@[k], x, key),
            ensures
                pos <= out@.len(),
                out@ == out_before,
                forall|k: int| 0 <= k < pos ==> game_le(#[trigger] out@[k], x, key),
                pos < out@.len() ==> game_le(x, out@[pos as int], key) && !game_le(
                    out@[pos as int],
                    x,
                    key,
                ),
            decreases out@.len() - pos,
        {
            if pos == out.len() {
                break ;
            }
            let cmp_here = compare_games(&out[pos], &x, key);
            if matches!(cmp_here, Ordering::Greater) {
                break ;
            }
            proof {
                lemma_game_le_total(out@[pos as int], x, key);
            }
            pos = pos + 1;
        }
        out.insert(pos, x);
        proof {
            broadcast use vstd::seq_lib::group_to_multiset_ensures;
            broadcast use vstd::seq_lib::to_multiset_insert;

            assert(games@ =~= games_before.drop_first());
            assert(games_before.remove(0) =~= games_before.drop_first());
            assert(games_before.to_multiset().remove(x) == games@.to_multiset());
            assert(out@.to_multiset() == out_before.to_multiset().insert(x));
            assert(out@.to_multiset().add(games@.to_multiset()) =~= old(games)@.to_multiset());
            assert forall|a: int, b: int|
                0 <= a < b < out@.len() implies game_le(#[trigger] out@[a], #[trigger] out@[b], key)
            by {
                if a < pos && b == pos {
                    assert(out@[a] == out_before[a]);
                } else if a == pos && b > pos {
                    assert(out@[b] == out_before[b - 1]);
                    if pos < out_before.len() {
                        if b - 1 > pos {
                            lemma_game_le_trans(x, out_before[pos as int], out_before[b - 1], key);
                        }
                    }
                } else if a < pos && b > pos {
                    assert(out@[a] == out_before[a]);
                    assert(out@[b] == out_before[b - 1]);
                } else if b < pos {
                    assert(out@[a] == out_before[a]);
                    assert(out@[b] == out_before[b]);
                } else if a > pos {
                    assert(out@[a] == out_before[a - 1]);
                    assert(out@[b] == out_before[b - 1]);
                }
            }
        }
    }
    if descending {
        let mut rev: Vec<GameInfo> = Vec::new();
        let ghost sorted_full = out@;
        while out.len() > 0
            invariant
                rev@.len() + out@.len() == sorted_full.len(),
                out@ == sorted_full.subrange(0, out@.len() as int),
                forall|k: int|
                    0 <= k < rev@.len() ==> #[trigger] rev@[k] == sorted_full[sorted_full.len() - 1
                        - k],
            decreases out@.len(),
        {
            let ghost out_before = out@;
            match out.pop() {
                Some(x) => {
                    rev.push(x);
                    proof {
                        assert(out@ =~= sorted_full.subrange(0, out@.len() as int));
                    }
                },
                None => {},
            }
        }
        proof {
            assert(rev@ =~= sorted_full.reverse());
            sorted_full.lemma_reverse_to_multiset();
            assert(sorted_full.to_multiset().add(games@.to_multiset()) == old(
                games,
            )@.to_multiset());
            assert(games@.to_multiset() =~= Multiset::<GameInfo>::empty()) by {
                assert(games@ =~= Seq::<GameInfo>::empty());
            }
            assert(rev@.to_multiset() =~= old(games)@.to_multiset());
        }
        *games = rev;
    } else {
        proof {
            assert(games@.to_multiset() =~= Multiset::<GameInfo>::empty()) by {
                assert(games@ =~= Seq::<GameInfo>::empty());
            }
            assert(out@.to_multiset() =~= old(games)@.to_multiset());
        }
        *games = out;
    }
}

} // verus!
