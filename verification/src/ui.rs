use vstd::prelude::*;
use crate::models::GameInfo;
use crate::sort::GameSortKey;

verus! {

/// A three-way filter over a boolean property.
#[derive(Clone, Copy, PartialEq, Eq, Structural)]
pub enum TriState {
    Any,
    Has,
    Missing,
}

impl TriState {
    /// Whether a property value passes the filter: everything passes
    /// `Any`, only holders pass `Has`, only non-holders pass `Missing`.
    pub fn matches(&self, value: bool) -> (r: bool)
        ensures
            r == (match self {
                TriState::Any => true,
                TriState::Has => value,
                TriState::Missing => !value,
            }),
    {
        match self {
            TriState::Any => true,
            TriState::Has => value,
            TriState::Missing => !value,
        }
    }

    /// The label shown for the filter position.
    pub fn label(&self) -> (r: &'static str)
        ensures
            match self {
                TriState::Any => r@ == "Any"@,
                TriState::Has => r@ == "Has"@,
                TriState::Missing => r@ == "Missing"@,
            },
    {
        match self {
            TriState::Any => "Any",
            TriState::Has => "Has",
            TriState::Missing => "Missing",
        }
    }
}

/// The orderings the advanced search offers.
#[derive(Clone, Copy, PartialEq, Eq, Structural)]
pub enum SortKey {
    LastPlayed,
    Name,
    AppId,
    ProtonVersion,
}

/// The orderings the plain game list offers.
#[derive(Clone, Copy, PartialEq, Eq, Structural)]
pub enum SortOption {
    NameAsc,
    NameDesc,
    ModifiedAsc,
    ModifiedDesc,
}

impl SortOption {
    /// The label shown for this ordering.
    pub fn label(&self) -> (r: &'static str)
        ensures
            match self {
                SortOption::NameAsc => r@ == "Name \u{2191}"@,
                SortOption::NameDesc => r@ == "Name \u{2193}"@,
                SortOption::ModifiedAsc => r@ == "Last Modified \u{2191}"@,
                SortOption::ModifiedDesc => r@ == "Last Modified \u{2193}"@,
            },
    {
        match self {
            SortOption::NameAsc => "Name \u{2191}",
            SortOption::NameDesc => "Name \u{2193}",
            SortOption::ModifiedAsc => "Last Modified \u{2191}",
            SortOption::ModifiedDesc => "Last Modified \u{2193}",
        }
    }

    /// The sort key and direction this option stands for.
    pub fn as_key(self) -> (r: (GameSortKey, bool))
        ensures
            self is NameAsc ==> r == (GameSortKey::Name, false),
            self is NameDesc ==> r == (GameSortKey::Name, true),
            self is ModifiedAsc ==> r == (GameSortKey::LastUpdated, false),
            self is ModifiedDesc ==> r == (GameSortKey::LastUpdated, true),
    {
        match self {
            SortOption::NameAsc => (GameSortKey::Name, false),
            SortOption::NameDesc => (GameSortKey::Name, true),
            SortOption::ModifiedAsc => (GameSortKey::LastUpdated, false),
            SortOption::ModifiedDesc => (GameSortKey::LastUpdated, true),
        }
    }
}

/// A borrowed view of the games shown in the list pane.
pub struct GameList<'a> {
    pub games: &'a [GameInfo],
}

impl<'a> GameList<'a> {
    /// Wraps the games to show.
    pub fn new(games: &'a [GameInfo]) -> (r: GameList<'a>)
        ensures
            r.games@ == games@,
    {
        GameList { games }
    }
}

} // verus!

verus! {

/// Whether a three-way filter passes a property value.
pub open spec fn spec_tri(t: TriState, value: bool) -> bool {
    match t {
        TriState::Any => true,
        TriState::Has => value,
        TriState::Missing => !value,
    }
}

/// Whether one game passes the advanced search: an empty query passes
/// everything, otherwise the lowercased query must occur in the lowercased
/// name, the decimal identifier, or the lowercased recorded path; and the
/// manifest and runtime-state filters must both pass.
pub open spec fn spec_adv_matches(g: GameInfo, q: Seq<char>, hm: TriState, hp: TriState) -> bool {
    (q.len() == 0 || crate::strutil::contains_seq(crate::strutil::lower_of(g.spec_name()), q)
        || crate::strutil::contains_seq(crate::strutil::dec_str(g.spec_app_id() as nat), q)
        || crate::strutil::contains_seq(crate::strutil::lower_of(g.spec_prefix_path()), q)) && spec_tri(
        hm,
        g.spec_has_manifest(),
    ) && spec_tri(hp, g.spec_prefix_exists())
}

/// The games passing the advanced search, in input order.
pub open spec fn spec_perform_search(
    gs: Seq<GameInfo>,
    q: Seq<char>,
    hm: TriState,
    hp: TriState,
) -> Seq<GameInfo>
    decreases gs,
{
    if gs.len() == 0 {
        Seq::empty()
    } else if spec_adv_matches(gs[0], q, hm, hp) {
        seq![gs[0]] + spec_perform_search(gs.drop_first(), q, hm, hp)
    } else {
        spec_perform_search(gs.drop_first(), q, hm, hp)
    }
}

/// Filters games for the advanced search: by lowercased query over name,
/// identifier and recorded path, and by the manifest and runtime-state
/// three-way filters.  The caller sorts the result as it pleases.
pub fn perform_search(
    games: Vec<GameInfo>,
    query: &str,
    has_manifest: TriState,
    has_prefix: TriState,
) -> (r: Vec<GameInfo>)
    ensures
        r@ == spec_perform_search(
            games@,
            crate::strutil::lower_of(query@),
            has_manifest,
            has_prefix,
        ),
{
    let ghost all = games@;
    let ghost sq = crate::strutil::lower_of(query@);
    let q = crate::strutil::lowercase(query);
    let mut games = games;
    let mut out: Vec<GameInfo> = Vec::new();
    proof {
        assert(Seq::<GameInfo>::empty() + spec_perform_search(games@, sq, has_manifest, has_prefix)
            =~= spec_perform_search(all, sq, has_manifest, has_prefix));
    }
    while games.len() > 0
        invariant
            q@ == sq,
            sq == crate::strutil::lower_of(query@),
            out@ + spec_perform_search(games@, sq, has_manifest, has_prefix)
                == spec_perform_search(all, sq, has_manifest, has_prefix),
        decreases games@.len(),
    {
        let ghost gs_before = games@;
        let ghost out_before = out@;
        let g = games.remove(0);
        proof {
            assert(games@ =~= gs_before.drop_first());
        }
        let keep = if q.as_str().is_empty() {
            true
        } else {
            let name_l = crate::strutil::lowercase(g.name());
            let id_s = crate::strutil::u32_to_string(g.app_id());
            let path_l = crate::strutil::lowercase(g.prefix_path().as_str());
            crate::strutil::str_contains(name_l.as_str(), q.as_str()) || crate::strutil::str_contains(
                id_s.as_str(),
                q.as_str(),
            ) || crate::strutil::str_contains(path_l.as_str(), q.as_str())
        };
        let keep = keep && has_manifest.matches(g.has_manifest()) && has_prefix.matches(
            g.prefix_exists(),
        );
        if keep {
            out.push(g);
            proof {
                assert(out@ =~= out_before.push(gs_before[0]));
                assert(out@ + spec_perform_search(games@, sq, has_manifest, has_prefix)
                    =~= out_before + (seq![gs_before[0]] + spec_perform_search(
                    games@,
                    sq,
                    has_manifest,
                    has_prefix,
                )));
            }
        } else {
            proof {
                assert(!spec_adv_matches(gs_before[0], sq, has_manifest, has_prefix));
            }
        }
    }
    proof {
        assert(games@ =~= Seq::<GameInfo>::empty());
        assert(spec_perform_search(games@, sq, has_manifest, has_prefix) == Seq::<
            GameInfo,
        >::empty());
        assert(out@ + Seq::<GameInfo>::empty() =~= out@);
    }
    out
}

} // verus!
