//! The per-file source cache: one entry per configuration file, keyed by
//! path, refreshed when the file's modification time advances and evicted
//! when an extension file's modification day is no longer today.

use vstd::prelude::*;

use crate::schedule::{view_days, DayConfig, DayConfigV};
use crate::types::Username;

verus! {

/// Where the configuration lives on disk: the main weekly file and the
/// directory of single-day extension files.
#[derive(Debug)]
pub struct Options {
    pub main_config: String,
    pub extensions_dir: String,
}

/// An instant in time, as the cache needs it: nanoseconds since the epoch
/// for ordering, and the calendar day it falls on for day-based eviction.
#[derive(PartialEq, Eq, Structural, Debug, Clone, Copy)]
pub struct Timestamp {
    pub nanos: u128,
    pub day: i64,
}

/// The parsed contribution of one file: rules for the current day, per
/// user.
pub type UserRules = Vec<(Username, DayConfig)>;

/// The mathematical shape of a file's parsed contribution.
pub type UserRulesV = Seq<(Seq<char>, DayConfigV)>;

pub open spec fn view_rules(s: Seq<(Username, DayConfig)>) -> UserRulesV {
    s.map_values(|p: (Username, DayConfig)| (p.0.0@, p.1@))
}

/// One cached configuration file.
#[derive(Debug)]
pub struct CacheEntry {
    /// When the file was last modified, as of the last successful read.
    pub latest_update: Timestamp,
    /// When the file was created.
    pub creation_date: Timestamp,
    /// Contents last read from the file.
    pub config: UserRules,
}

/// The mathematical shape of a cache entry.
pub struct CacheEntryV {
    pub latest_update: Timestamp,
    pub creation_date: Timestamp,
    pub config: UserRulesV,
}

impl View for CacheEntry {
    type V = CacheEntryV;

    open spec fn view(&self) -> CacheEntryV {
        CacheEntryV {
            latest_update: self.latest_update,
            creation_date: self.creation_date,
            config: view_rules(self.config@),
        }
    }
}

/// What a refresh tick should do with one file, given its current
/// modification time.
#[derive(PartialEq, Eq, Structural, Debug, Clone, Copy)]
pub enum RefreshPlan {
    /// The file was last modified before today and only today's files
    /// count: drop the cache entry and delete the file.
    EvictAndDelete,
    /// The modification time did not advance past the cached one: keep the
    /// cached contents.
    Unchanged,
    /// The file is new or has advanced: read and parse it again.
    Reparse,
}

/// Decide what to do with one file on a refresh tick. `stored` is the
/// modification time remembered by the cache, if the file is cached.
pub fn refresh_plan(
    stored: Option<&Timestamp>,
    mtime: Timestamp,
    today: i64,
    today_only: bool,
) -> (r: RefreshPlan)
    ensures
        r is EvictAndDelete <==> today_only && mtime.day != today,
        r is Unchanged <==> !(today_only && mtime.day != today) && (stored is Some
            && mtime.nanos <= stored->0.nanos),
        r is Reparse <==> !(today_only && mtime.day != today) && (stored is None
            || mtime.nanos > stored->0.nanos),
{
    if today_only && mtime.day != today {
        return RefreshPlan::EvictAndDelete;
    }
    match stored {
        Some(prev) if mtime.nanos <= prev.nanos => RefreshPlan::Unchanged,
        _ => RefreshPlan::Reparse,
    }
}

/// The cache itself: one entry per file path, each path at most once.
#[derive(Debug)]
pub struct Cache {
    pub entries: Vec<(String, CacheEntry)>,
}

pub open spec fn view_cache(s: Seq<(String, CacheEntry)>) -> Seq<(Seq<char>, CacheEntryV)> {
    s.map_values(|p: (String, CacheEntry)| (p.0@, p.1@))
}

impl View for Cache {
    type V = Seq<(Seq<char>, CacheEntryV)>;

    open spec fn view(&self) -> Seq<(Seq<char>, CacheEntryV)> {
        view_cache(self.entries@)
    }
}

fn str_eq(a: &String, b: &str) -> (r: bool)
    ensures
        r == (a@ == b@),
{
    a.eq(&b.to_owned())
}

impl Cache {
    /// Each path occurs at most once.
    pub open spec fn wf(self) -> bool {
        forall|i: int, j: int| 0 <= i < j < self@.len() ==> self@[i].0 != self@[j].0
    }

    /// The position of a path in the cache, if cached.
    pub open spec fn spec_find(self, path: Seq<char>) -> Option<int> {
        if exists|i: int| 0 <= i < self@.len() && self@[i].0 == path {
            Some(choose|i: int| 0 <= i < self@.len() && self@[i].0 == path)
        } else {
            None
        }
    }

    pub fn new() -> (r: Cache)
        ensures
            r@.len() == 0,
            r.wf(),
    {
        Cache { entries: Vec::new() }
    }

    fn find(&self, path: &str) -> (r: Option<usize>)
        ensures
            r is Some <==> self.spec_find(path@) is Some,
            r is Some ==> 0 <= r->0 < self@.len() && self@[r->0 as int].0 == path@,
    {
        let mut i: usize = 0;
        while i < self.entries.len()
            invariant
                i <= self@.len(),
                forall|j: int| 0 <= j < i ==> (#[trigger] self@[j]).0 != path@,
            decreases self@.len() - i,
        {
            if str_eq(&self.entries[i].0, path) {
                proof {
                    assert(self@[i as int].0 == path@);
                }
                return Some(i);
            }
            i += 1;
        }
        proof {
            assert(self.spec_find(path@) is None);
        }
        None
    }

    /// The remembered modification time of a cached file.
    pub fn stored_update(&self, path: &str) -> (r: Option<&Timestamp>)
        requires
            self.wf(),
        ensures
            r is Some <==> self.spec_find(path@) is Some,
            r is Some ==> ({
                let i = self.spec_find(path@)->0;
                *r->0 == self@[i].1.latest_update
            }),
    {
        match self.find(path) {
            None => None,
            Some(i) => {
                proof {
                    let j = self.spec_find(path@)->0;
                    assert(self@[j].0 == path@);
                    assert(self@[i as int].0 == path@);
                    if i as int != j {
                        assert(false);
                    }
                }
                Some(&self.entries[i].1.latest_update)
            },
        }
    }

    /// Drop a file from the cache. Reports whether anything was removed.
    pub fn remove(&mut self, path: &str) -> (changed: bool)
        requires
            old(self).wf(),
        ensures
            final(self).wf(),
            changed <==> old(self).spec_find(path@) is Some,
            changed ==> ({
                let i = old(self).spec_find(path@)->0;
                final(self)@ == old(self)@.remove(i)
            }),
            !changed ==> *final(self) == *old(self),
    {
        match self.find(path) {
            None => false,
            Some(i) => {
                proof {
                    let j = old(self).spec_find(path@)->0;
                    assert(old(self)@[j].0 == path@);
                    if i as int != j {
                        assert(false);
                    }
                }
                let _ = self.entries.remove(i);
                proof {
                    assert(view_cache(self.entries@) =~= view_cache(
                        old(self).entries@,
                    ).remove(i as int));
                }
                true
            },
        }
    }

    /// Store the freshly parsed contents of a file, replacing any previous
    /// entry for the same path. A replaced entry keeps its creation date,
    /// as the file itself was not recreated.
    pub fn upsert(&mut self, path: &str, mtime: Timestamp, creation: Timestamp, config: UserRules)
        requires
            old(self).wf(),
        ensures
            final(self).wf(),
            old(self).spec_find(path@) is None ==> final(self)@ == old(self)@.push(
                (
                    path@,
                    CacheEntryV {
                        latest_update: mtime,
                        creation_date: creation,
                        config: view_rules(config@),
                    },
                ),
            ),
            old(self).spec_find(path@) is Some ==> ({
                let i = old(self).spec_find(path@)->0;
                final(self)@ == old(self)@.update(
                    i,
                    (
                        path@,
                        CacheEntryV {
                            latest_update: mtime,
                            creation_date: old(self)@[i].1.creation_date,
                            config: view_rules(config@),
                        },
                    ),
                )
            }),
    {
        match self.find(path) {
            None => {
                let entry = CacheEntry {
                    latest_update: mtime,
                    creation_date: creation,
                    config,
                };
                self.entries.push((path.to_owned(), entry));
                proof {
                    assert(view_cache(self.entries@) =~= view_cache(old(self).entries@).push(
                        (
                            path@,
                            CacheEntryV {
                                latest_update: mtime,
                                creation_date: creation,
                                config: view_rules(config@),
                            },
                        ),
                    ));
                    assert forall|i: int, j: int|
                        0 <= i < j < self@.len() implies self@[i].0 != self@[j].0 by {
                        if j == self@.len() - 1 {
                            assert(old(self).spec_find(path@) is None);
                            assert(old(self)@[i].0 != path@);
                        }
                    }
                }
            },
            Some(i) => {
                proof {
                    let j = old(self).spec_find(path@)->0;
                    assert(old(self)@[j].0 == path@);
                    if i as int != j {
                        assert(false);
                    }
                }
                let creation_kept = self.entries[i].1.creation_date;
                let entry = CacheEntry {
                    latest_update: mtime,
                    creation_date: creation_kept,
                    config,
                };
                self.entries[i] = (path.to_owned(), entry);
                proof {
                    assert(view_cache(self.entries@) =~= view_cache(old(self).entries@).update(
                        i as int,
                        (
                            path@,
                            CacheEntryV {
                                latest_update: mtime,
                                creation_date: old(self)@[i as int].1.creation_date,
                                config: view_rules(config@),
                            },
                        ),
                    ));
                    assert forall|a: int, b: int|
                        0 <= a < b < self@.len() implies self@[a].0 != self@[b].0 by {
                        assert(old(self)@[a].0 != old(self)@[b].0);
                    }
                }
            },
        }
    }

    /// Purge every entry whose file was last modified before today, except
    /// the main configuration file's. Reports whether anything was removed.
    pub fn purge_stale(&mut self, today: i64, main_path: &str) -> (changed: bool)
        requires
            old(self).wf(),
        ensures
            final(self).wf(),
            final(self)@ == old(self)@.filter(
                |p: (Seq<char>, CacheEntryV)| p.1.latest_update.day == today || p.0 == main_path@,
            ),
            changed <==> final(self)@.len() != old(self)@.len(),
    {
        let ghost keep = |p: (Seq<char>, CacheEntryV)|
            p.1.latest_update.day == today || p.0 == main_path@;
        let mut out: Vec<(String, CacheEntry)> = Vec::new();
        let mut i: usize = 0;
        proof {
            assert(view_cache(old(self).entries@).subrange(0, 0) =~= Seq::<
                (Seq<char>, CacheEntryV),
            >::empty());
            assert(Seq::<(Seq<char>, CacheEntryV)>::empty().filter(keep) =~= Seq::<
                (Seq<char>, CacheEntryV),
            >::empty());
        }
        while i < self.entries.len()
            invariant
                i <= self.entries@.len(),
                self.entries@ == old(self).entries@,
                old(self).wf(),
                view_cache(out@) == view_cache(self.entries@).subrange(0, i as int).filter(keep),
                keep == (|p: (Seq<char>, CacheEntryV)|
                    p.1.latest_update.day == today || p.0 == main_path@),
                forall|a: int, b: int|
                    0 <= a < b < view_cache(out@).len() ==> view_cache(out@)[a].0 != view_cache(
                        out@,
                    )[b].0,
                forall|a: int|
                    0 <= a < view_cache(out@).len() ==> exists|b: int|
                        0 <= b < i && view_cache(self.entries@)[b] == #[trigger] view_cache(
                            out@,
                        )[a],
            decreases self.entries@.len() - i,
        {
            let ghost pre = view_cache(self.entries@).subrange(0, i as int);
            proof {
                let s1 = pre.push(view_cache(self.entries@)[i as int]);
                assert(view_cache(self.entries@).subrange(0, i + 1) =~= s1);
                reveal(Seq::filter);
                assert(s1.drop_last() =~= pre);
                assert(s1.last() == view_cache(self.entries@)[i as int]);
                assert(s1.filter(keep) == if keep(view_cache(self.entries@)[i as int]) {
                    pre.filter(keep).push(view_cache(self.entries@)[i as int])
                } else {
                    pre.filter(keep)
                });
            }
            let stale = self.entries[i].1.latest_update.day != today && !str_eq(
                &self.entries[i].0,
                main_path,
            );
            if !stale {
                let path_copy = self.entries[i].0.clone();
                let entry_copy = copy_entry(&self.entries[i].1);
                out.push((path_copy, entry_copy));
                proof {
                    assert(view_cache(out@) =~= view_cache(old(self).entries@).subrange(
                        0,
                        i + 1,
                    ).filter(keep));
                    assert forall|a: int|
                        0 <= a < view_cache(out@).len() implies exists|b: int|
                            0 <= b < i + 1 && view_cache(self.entries@)[b] == #[trigger] view_cache(
                                out@,
                            )[a] by {
                        if a == view_cache(out@).len() - 1 {
                            assert(view_cache(self.entries@)[i as int] == view_cache(out@)[a]);
                        }
                    }
                    assert forall|a: int, b: int|
                        0 <= a < b < view_cache(out@).len() implies view_cache(out@)[a].0
                            != view_cache(out@)[b].0 by {
                        if b == view_cache(out@).len() - 1 {
                            let w = choose|w: int|
                                0 <= w < i && view_cache(self.entries@)[w] == view_cache(out@)[a];
                            assert(old(self)@ == view_cache(self.entries@));
                            assert(old(self)@[w].0 != old(self)@[i as int].0);
                        }
                    }
                }
            } else {
                proof {
                    assert(view_cache(out@) =~= view_cache(old(self).entries@).subrange(
                        0,
                        i + 1,
                    ).filter(keep));
                }
            }
            i += 1;
        }
        proof {
            assert(view_cache(self.entries@).subrange(0, self.entries@.len() as int) =~= view_cache(
                self.entries@,
            ));
        }
        let changed = out.len() != self.entries.len();
        self.entries = out;
        changed
    }
}

impl Clone for CacheEntry {
    fn clone(&self) -> (r: CacheEntry)
        ensures
            r@ == self@,
    {
        copy_entry(self)
    }
}

fn copy_entry(e: &CacheEntry) -> (r: CacheEntry)
    ensures
        r@ == e@,
{
    let mut config: UserRules = Vec::new();
    let mut i: usize = 0;
    while i < e.config.len()
        invariant
            i <= e.config@.len(),
            config@.len() == i,
            forall|j: int|
                0 <= j < i ==> (#[trigger] config@[j]).0 == e.config@[j].0 && config@[j].1@
                    == e.config@[j].1@,
        decreases e.config@.len() - i,
    {
        let name = e.config[i].0.clone();
        let day = e.config[i].1.clone();
        config.push((name, day));
        i += 1;
    }
    proof {
        assert(view_rules(config@) =~= view_rules(e.config@));
    }
    CacheEntry { latest_update: e.latest_update, creation_date: e.creation_date, config }
}

/// Whether a tick must rebuild the snapshot: when any source changed, or
/// when the calendar day advanced since the last build, so that day-of-week
/// rules roll over even with no file changes.
pub fn needs_recompile(changed: bool, last_compiled_day: i64, today: i64) -> (r: bool)
    ensures
        r == (changed || last_compiled_day != today),
{
    changed || last_compiled_day != today
}

} // verus!
