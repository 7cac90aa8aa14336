use vstd::prelude::*;

verus! {

/// How long a whole-result cache entry stays fresh, in milliseconds.
pub const CACHE_DURATION_MS: u64 = 5000;

/// A whole-result cache: one value plus the wall-clock time it was
/// produced.  An entry older than the staleness window is never returned;
/// the caller then recomputes and stores the fresh result.
pub struct TtlCache<V> {
    entry: Option<(V, u64)>,
}

/// A stored entry is fresh at `now` while the clock has not moved
/// backwards past it and less than the staleness window has elapsed.
pub open spec fn fresh_at(timestamp: u64, now: u64) -> bool {
    timestamp <= now && now - timestamp < CACHE_DURATION_MS
}

impl<V> TtlCache<V> {
    /// Spec access to the stored entry.
    pub closed spec fn spec_entry(&self) -> Option<(V, u64)> {
        self.entry
    }

    /// An empty cache.
    pub fn new() -> (r: TtlCache<V>)
        ensures
            r.spec_entry() is None,
    {
        TtlCache { entry: None }
    }

    /// The stored value, exactly when a value is stored and still fresh:
    /// within the window the prior result is returned without any
    /// recomputation, past it nothing is returned and the caller must
    /// recompute.
    pub fn get(&self, now: u64) -> (r: Option<&V>)
        ensures
            match r {
                Some(v) => match self.spec_entry() {
                    Some((sv, ts)) => fresh_at(ts, now) && *v == sv,
                    None => false,
                },
                None => match self.spec_entry() {
                    Some((_, ts)) => !fresh_at(ts, now),
                    None => true,
                },
            },
    {
        match &self.entry {
            None => None,
            Some((v, ts)) => {
                if *ts <= now && now - *ts < CACHE_DURATION_MS {
                    Some(v)
                } else {
                    None
                }
            },
        }
    }

    /// Stores a freshly computed value, replacing any prior entry
    /// wholesale.
    pub fn put(&mut self, value: V, now: u64)
        ensures
            final(self).spec_entry() == Some((value, now)),
    {
        self.entry = Some((value, now));
    }

    /// Drops the stored entry, so the next read recomputes.
    pub fn clear(&mut self)
        ensures
            final(self).spec_entry() is None,
    {
        self.entry = None;
    }
}

/// A cache entry younger than the staleness window is returned exactly as
/// stored, with no recomputation; one at or past the window is never
/// returned, so the caller recomputes exactly once and stores the result.
pub proof fn lemma_ttl_window<V>(c: TtlCache<V>, now: u64)
    requires
        c.spec_entry() is Some,
    ensures
        forall|r: Option<&V>|
            #[trigger] call_ensures(TtlCache::<V>::get, (&c, now), r) ==> if fresh_at(
                (c.spec_entry()->0).1,
                now,
            ) {
                (r matches Some(v) && *v == (c.spec_entry()->0).0)
            } else {
                (r is None)
            },
{
}

/// One remembered file: its contents and the modification time observed
/// when they were read or written.
pub struct FileEntry {
    pub path: String,
    pub contents: String,
    pub modified: u64,
}

/// Mathematical model of a remembered file.
#[verifier::ext_equal]
pub struct FRec {
    pub path: Seq<char>,
    pub contents: Seq<char>,
    pub modified: u64,
}

/// The model of a remembered file.
pub open spec fn fe_view(e: FileEntry) -> FRec {
    FRec { path: e.path@, contents: e.contents@, modified: e.modified }
}

/// The model of a cache's entry list, oldest first.
pub open spec fn entries_view(es: Seq<FileEntry>) -> Seq<FRec> {
    es.map_values(|e: FileEntry| fe_view(e))
}

/// The entry list with the first entry for this path dropped; under the
/// cache's uniqueness invariant that is its only entry.
pub open spec fn remove_first_path(es: Seq<FRec>, path: Seq<char>) -> Seq<FRec>
    decreases es,
{
    if es.len() == 0 {
        Seq::empty()
    } else if es[0].path == path {
        es.drop_first()
    } else {
        seq![es[0]] + remove_first_path(es.drop_first(), path)
    }
}

/// What a write leaves in the cache: every other entry kept in order, any
/// prior entry for the path dropped, the new entry joined at the young
/// end, and the oldest entry dropped exactly when the population would
/// exceed the bound.
pub open spec fn spec_after_update(
    es: Seq<FRec>,
    path: Seq<char>,
    contents: Seq<char>,
    modified: u64,
    limit: usize,
) -> Seq<FRec> {
    let mid = remove_first_path(es, path).push(FRec { path, contents, modified });
    if mid.len() > limit {
        mid.drop_first()
    } else {
        mid
    }
}

proof fn lemma_remove_first_at(ev: Seq<FRec>, path: Seq<char>, i: int)
    requires
        0 <= i < ev.len(),
        ev[i].path == path,
        forall|j: int| 0 <= j < i ==> (#[trigger] ev[j].path) != path,
    ensures
        remove_first_path(ev, path) == ev.remove(i),
    decreases i,
{
    if i == 0 {
        assert(remove_first_path(ev, path) == ev.drop_first());
        assert(ev.remove(0) =~= ev.drop_first());
    } else {
        lemma_remove_first_at(ev.drop_first(), path, i - 1);
        assert(ev.drop_first()[i - 1] == ev[i]);
        assert(remove_first_path(ev, path) == seq![ev[0]] + ev.drop_first().remove(i - 1));
        assert(seq![ev[0]] + ev.drop_first().remove(i - 1) =~= ev.remove(i));
    }
}

proof fn lemma_remove_first_absent(ev: Seq<FRec>, path: Seq<char>)
    requires
        forall|j: int| 0 <= j < ev.len() ==> (#[trigger] ev[j].path) != path,
    ensures
        remove_first_path(ev, path) == ev,
    decreases ev,
{
    if ev.len() > 0 {
        lemma_remove_first_absent(ev.drop_first(), path);
        assert(seq![ev[0]] + ev.drop_first() =~= ev);
    }
}

/// A per-file cache gated on modification times, with a bounded
/// population: entries are kept in insertion order and the oldest is
/// evicted once the bound is exceeded.
pub struct FileCache {
    entries: Vec<FileEntry>,
    limit: usize,
}

impl FileCache {
    /// Spec access to the entries, oldest first.
    pub closed spec fn spec_entries(&self) -> Seq<FileEntry> {
        self.entries@
    }

    /// Spec access to the population bound.
    pub closed spec fn spec_limit(&self) -> usize {
        self.limit
    }

    /// Each path appears at most once, and the population respects the
    /// bound.
    pub open spec fn wf(&self) -> bool {
        &&& forall|i: int, j: int|
            0 <= i < j < self.spec_entries().len() ==> (#[trigger] self.spec_entries()[i].path@)
                != (#[trigger] self.spec_entries()[j].path@)
        &&& self.spec_entries().len() <= self.spec_limit()
        &&& self.spec_limit() > 0
    }

    /// Whether a path is remembered.
    pub open spec fn spec_has(&self, path: Seq<char>) -> bool {
        exists|i: int|
            0 <= i < self.spec_entries().len() && (#[trigger] self.spec_entries()[i].path@) == path
    }

    /// The entry remembered for a path.
    pub open spec fn spec_entry_for(&self, path: Seq<char>) -> FileEntry {
        self.spec_entries()[choose|i: int|
            0 <= i < self.spec_entries().len() && (#[trigger] self.spec_entries()[i].path@)
                == path]
    }

    /// An empty cache with the given population bound.
    pub fn new(limit: usize) -> (r: FileCache)
        requires
            limit > 0,
        ensures
            r.wf(),
            r.spec_entries().len() == 0,
            r.spec_limit() == limit,
    {
        FileCache { entries: Vec::new(), limit }
    }

    fn position_of(&self, path: &str) -> (r: Option<usize>)
        ensures
            match r {
                Some(i) => i < self.spec_entries().len() && self.spec_entries()[i as int].path@
                    == path@,
                None => !self.spec_has(path@),
            },
    {
        let mut i: usize = 0;
        while i < self.entries.len()
            invariant
                i <= self.entries@.len(),
                forall|j: int| 0 <= j < i ==> (#[trigger] self.entries@[j].path@) != path@,
            decreases self.entries@.len() - i,
        {
            if crate::strutil::str_eq(self.entries[i].path.as_str(), path) {
                return Some(i);
            }
            i = i + 1;
        }
        None
    }

    /// The remembered contents of a file, exactly when the file is
    /// remembered and its current modification time is no newer than the
    /// recorded one.  A file whose modification time advanced is never
    /// served from the cache: the caller must re-read it.
    pub fn lookup(&self, path: &str, current_modified: u64) -> (r: Option<String>)
        requires
            self.wf(),
        ensures
            match r {
                Some(c) => self.spec_has(path@) && self.spec_entry_for(path@).modified
                    >= current_modified && c@ == self.spec_entry_for(path@).contents@,
                None => !self.spec_has(path@) || self.spec_entry_for(path@).modified
                    < current_modified,
            },
    {
        match self.position_of(path) {
            None => None,
            Some(i) => {
                proof {
                    let w = choose|w: int|
                        0 <= w < self.entries@.len() && (#[trigger] self.entries@[w].path@)
                            == path@;
                    assert(w == i);
                }
                if self.entries[i].modified >= current_modified {
                    Some(self.entries[i].contents.clone())
                } else {
                    None
                }
            },
        }
    }

    /// Remembers a file's contents and modification time: any prior entry
    /// for the path is dropped, the entry joins at the young end, and the
    /// oldest entry leaves once the population exceeds the bound.  Writers
    /// call this with what they just wrote, so the next read is served
    /// without touching the file again.
    pub fn update(&mut self, path: &str, contents: String, modified: u64)
        requires
            old(self).wf(),
        ensures
            final(self).wf(),
            final(self).spec_limit() == old(self).spec_limit(),
            final(self).spec_has(path@),
            final(self).spec_entry_for(path@).contents@ == contents@,
            final(self).spec_entry_for(path@).modified == modified,
            final(self).spec_entries().len() <= old(self).spec_entries().len() + 1,
            entries_view(final(self).spec_entries()) == spec_after_update(
                entries_view(old(self).spec_entries()),
                path@,
                contents@,
                modified,
                old(self).spec_limit(),
            ),
    {
        let ghost orig = self.entries@;
        let ghost orig_view = entries_view(orig);
        match self.position_of(path) {
            Some(i) => {
                self.entries.remove(i);
                proof {
                    assert forall|a: int, b: int|
                        0 <= a < b < self.entries@.len() implies (#[trigger] self.entries@[a].path@)
                        != (#[trigger] self.entries@[b].path@) by {
                        let oa = if a < i {
                            a
                        } else {
                            a + 1
                        };
                        let ob = if b < i {
                            b
                        } else {
                            b + 1
                        };
                        assert(self.entries@[a] == orig[oa]);
                        assert(self.entries@[b] == orig[ob]);
                    }
                    assert forall|a: int| 0 <= a < self.entries@.len() implies (
                    #[trigger] self.entries@[a].path@) != path@ by {
                        let oa = if a < i {
                            a
                        } else {
                            a + 1
                        };
                        assert(self.entries@[a] == orig[oa]);
                        assert(orig[oa].path@ != orig[i as int].path@);
                    }
                    assert forall|j: int| 0 <= j < i implies (#[trigger] orig[j].path@) != path@
                    by {
                        assert(orig[j].path@ != orig[i as int].path@);
                    }
                    assert(self.entries@.len() < orig.len());
                    assert(0 <= i < orig.len() && orig[i as int].path@ == path@ && self.entries@
                        =~= orig.remove(i as int) && (forall|j: int|
                        0 <= j < i ==> (#[trigger] orig[j].path@) != path@));
                }
            },
            None => {
                proof {
                    assert forall|a: int| 0 <= a < self.entries@.len() implies (
                    #[trigger] self.entries@[a].path@) != path@ by {}
                }
            },
        }
        let ghost mid = self.entries@;
        proof {
            let mv = entries_view(mid);
            if mid.len() == orig.len() {
                assert forall|j: int| 0 <= j < orig_view.len() implies (
                #[trigger] orig_view[j].path) != path@ by {
                    assert(orig_view[j] == fe_view(orig[j]));
                    assert(mid[j] == orig[j]);
                }
                lemma_remove_first_absent(orig_view, path@);
                assert(mv =~= remove_first_path(orig_view, path@));
            } else {
                let i = choose|i: int|
                    0 <= i < orig.len() && (#[trigger] orig[i].path@) == path@ && mid
                        =~= orig.remove(i) && (forall|j: int|
                        0 <= j < i ==> (#[trigger] orig[j].path@) != path@);
                assert forall|j: int| 0 <= j < i implies (#[trigger] orig_view[j].path) != path@
                by {
                    assert(orig_view[j] == fe_view(orig[j]));
                }
                assert(orig_view[i].path == path@);
                lemma_remove_first_at(orig_view, path@, i);
                assert(mv =~= orig_view.remove(i));
                assert(mv =~= remove_first_path(orig_view, path@));
            }
            assert(mv == remove_first_path(orig_view, path@));
        }
        let entry = FileEntry { path: String::from_str(path), contents, modified };
        self.entries.push(entry);
        proof {
            assert forall|a: int, b: int|
                0 <= a < b < self.entries@.len() implies (#[trigger] self.entries@[a].path@) != (
            #[trigger] self.entries@[b].path@) by {
                if b < self.entries@.len() - 1 {
                    assert(self.entries@[a] == mid[a]);
                    assert(self.entries@[b] == mid[b]);
                } else {
                    assert(self.entries@[a] == mid[a]);
                    assert(mid[a].path@ != path@);
                }
            }
            assert(fe_view(self.entries@[self.entries@.len() - 1]) == (FRec {
                path: path@,
                contents: contents@,
                modified,
            }));
            assert(entries_view(self.entries@) =~= entries_view(mid).push(
                fe_view(self.entries@[self.entries@.len() - 1]),
            ));
        }
        let ghost pushed = self.entries@;
        if self.entries.len() > self.limit {
            let ghost before = self.entries@;
            self.entries.remove(0);
            proof {
                assert forall|a: int, b: int|
                    0 <= a < b < self.entries@.len() implies (#[trigger] self.entries@[a].path@)
                    != (#[trigger] self.entries@[b].path@) by {
                    assert(self.entries@[a] == before[a + 1]);
                    assert(self.entries@[b] == before[b + 1]);
                }
                assert(self.entries@[self.entries@.len() - 1] == before[before.len() - 1]);
                assert(entries_view(self.entries@) =~= entries_view(before).drop_first());
            }
        }
        proof {
            let es = self.entries@;
            let n = es.len() as int;
            assert(es[n - 1].path@ == path@);
            assert(self.spec_has(path@));
            let w = choose|w: int| 0 <= w < n && (#[trigger] es[w].path@) == path@;
            if w != n - 1 {
                assert(es[w].path@ != es[n - 1].path@);
            }
            assert(self.spec_entry_for(path@) == es[n - 1]);
            let target = spec_after_update(
                orig_view,
                path@,
                contents@,
                modified,
                old(self).spec_limit(),
            );
            assert(entries_view(pushed) =~= remove_first_path(orig_view, path@).push(
                FRec { path: path@, contents: contents@, modified },
            ));
            if pushed.len() > old(self).spec_limit() {
                assert(entries_view(es) =~= target);
            } else {
                assert(entries_view(es) =~= target);
            }
            assert(entries_view(es) == target);
        }
    }

    /// Forgets everything, for when many files may have changed as a
    /// batch.
    pub fn invalidate_all(&mut self)
        requires
            old(self).wf(),
        ensures
            final(self).wf(),
            final(self).spec_entries().len() == 0,
            final(self).spec_limit() == old(self).spec_limit(),
    {
        self.entries.clear();
    }
}

/// If a file's modification time advances past what the cache recorded,
/// the lookup refuses the remembered contents, so the next read comes from
/// the file itself.
pub proof fn lemma_stale_file_not_served(c: FileCache, path: Seq<char>, current_modified: u64)
    requires
        c.wf(),
        c.spec_has(path),
        c.spec_entry_for(path).modified < current_modified,
    ensures
        forall|p: &str, r: Option<String>|
            p@ == path && #[trigger] call_ensures(FileCache::lookup, (&c, p, current_modified), r)
                ==> r is None,
{
}

} // verus!

verus! {

/// Population bound of the manifest file cache.
pub const MANIFEST_CACHE_LIMIT: usize = 20;

/// Population bound of the per-identity settings file cache.
pub const LOCALCONFIG_CACHE_LIMIT: usize = 10;

/// Writers pre-populate the manifest cache with content just written.
pub fn update_manifest_cache(cache: &mut FileCache, path: &str, contents: String, modified: u64)
    requires
        old(cache).wf(),
    ensures
        final(cache).wf(),
        final(cache).spec_has(path@),
        final(cache).spec_entry_for(path@).contents@ == contents@,
        final(cache).spec_entry_for(path@).modified == modified,
        entries_view(final(cache).spec_entries()) == spec_after_update(
            entries_view(old(cache).spec_entries()),
            path@,
            contents@,
            modified,
            old(cache).spec_limit(),
        ),
{
    cache.update(path, contents, modified);
}

/// Forgets every remembered manifest file.
pub fn clear_manifest_cache(cache: &mut FileCache)
    requires
        old(cache).wf(),
    ensures
        final(cache).wf(),
        final(cache).spec_entries().len() == 0,
{
    cache.invalidate_all();
}

/// Writers pre-populate the settings cache with content just written.
pub fn update_localconfig_cache(cache: &mut FileCache, path: &str, contents: String, modified: u64)
    requires
        old(cache).wf(),
    ensures
        final(cache).wf(),
        final(cache).spec_has(path@),
        final(cache).spec_entry_for(path@).contents@ == contents@,
        final(cache).spec_entry_for(path@).modified == modified,
        entries_view(final(cache).spec_entries()) == spec_after_update(
            entries_view(old(cache).spec_entries()),
            path@,
            contents@,
            modified,
            old(cache).spec_limit(),
        ),
{
    cache.update(path, contents, modified);
}

/// Forgets every remembered settings file.
pub fn clear_localconfig_cache(cache: &mut FileCache)
    requires
        old(cache).wf(),
    ensures
        final(cache).wf(),
        final(cache).spec_entries().len() == 0,
{
    cache.invalidate_all();
}

} // verus!
