//! The policy compiler: merges all currently valid cache entries, ordered
//! by the creation date of their backing files, into one interval diff per
//! user and per target, then resolves the diffs through the interval
//! algebra into an immutable snapshot.

use vstd::prelude::*;

use crate::algebra::{
    accepted_ivs, complement_spec, fold_diffs, rejected_ivs, view_diffs, wrap_accepted,
    wrap_rejected, AcceptedInterval, DiffV, IntervalsDiff, RejectedInterval,
};
use crate::cache::{view_rules, Cache, CacheEntry, CacheEntryV, UserRulesV};
use crate::interval::Interval;
use crate::schedule::{view_filters, view_processes, Binary, DayConfig, DayConfigV, ProcessConfigV, WebFilterV};
use crate::types::{Domain, Username};
use crate::uid_resolver::{Resolver, Uid};

verus! {

/// Stable insertion of a cache entry into a run sorted by creation date.
pub open spec fn insert_by_creation(s: Seq<CacheEntryV>, x: CacheEntryV) -> Seq<CacheEntryV>
    decreases s.len(),
{
    if s.len() == 0 {
        seq![x]
    } else if s.last().creation_date.nanos <= x.creation_date.nanos {
        s.push(x)
    } else {
        insert_by_creation(s.drop_last(), x).push(s.last())
    }
}

/// Stable sort of cache entries by creation date, oldest first: older
/// files are base layers, newer files are refinements.
pub open spec fn sort_by_creation(s: Seq<CacheEntryV>) -> Seq<CacheEntryV>
    decreases s.len(),
{
    if s.len() == 0 {
        Seq::empty()
    } else {
        insert_by_creation(sort_by_creation(s.drop_last()), s.last())
    }
}

pub open spec fn cache_entry_views(s: Seq<(Seq<char>, CacheEntryV)>) -> Seq<CacheEntryV> {
    s.map_values(|p: (Seq<char>, CacheEntryV)| p.1)
}

proof fn lemma_insert_by_creation_at(s: Seq<CacheEntryV>, x: CacheEntryV, k: int)
    requires
        0 <= k <= s.len(),
        forall|m: int| k <= m < s.len() ==> !((#[trigger] s[m]).creation_date.nanos
            <= x.creation_date.nanos),
        k > 0 ==> s[k - 1].creation_date.nanos <= x.creation_date.nanos,
    ensures
        insert_by_creation(s, x) == s.subrange(0, k).push(x) + s.subrange(k, s.len() as int),
    decreases s.len(),
{
    if s.len() == 0 {
        assert(insert_by_creation(s, x) =~= s.subrange(0, k).push(x) + s.subrange(
            k,
            s.len() as int,
        ));
    } else if s.last().creation_date.nanos <= x.creation_date.nanos {
        assert(k == s.len());
        assert(insert_by_creation(s, x) =~= s.subrange(0, k).push(x) + s.subrange(
            k,
            s.len() as int,
        ));
    } else {
        assert(k < s.len());
        lemma_insert_by_creation_at(s.drop_last(), x, k);
        assert(s.drop_last().subrange(0, k) == s.subrange(0, k));
        assert(insert_by_creation(s, x) =~= s.subrange(0, k).push(x) + s.subrange(
            k,
            s.len() as int,
        ));
    }
}

/// Copies of the cache's entries, ordered by the creation date of their
/// backing files, oldest first; ties keep the cache's own order.
fn sorted_entries(cache: &Cache) -> (r: Vec<CacheEntry>)
    ensures
        r@.map_values(|e: CacheEntry| e@) == sort_by_creation(cache_entry_views(cache@)),
{
    let ghost all = cache_entry_views(cache@);
    let mut out: Vec<CacheEntry> = Vec::new();
    let mut i: usize = 0;
    proof {
        assert(out@.map_values(|e: CacheEntry| e@) =~= sort_by_creation(all.subrange(0, 0)));
    }
    while i < cache.entries.len()
        invariant
            i <= cache.entries@.len(),
            all == cache_entry_views(cache@),
            all.len() == cache.entries@.len(),
            out@.map_values(|e: CacheEntry| e@) == sort_by_creation(all.subrange(0, i as int)),
        decreases cache.entries@.len() - i,
    {
        let ghost sorted_pre = out@.map_values(|e: CacheEntry| e@);
        let x = cache.entries[i].1.clone();
        proof {
            assert(x@ == all[i as int]);
        }
        let mut k: usize = out.len();
        while k > 0 && !(out[k - 1].creation_date.nanos <= x.creation_date.nanos)
            invariant
                k <= out@.len(),
                sorted_pre == out@.map_values(|e: CacheEntry| e@),
                forall|m: int| k <= m < out@.len() ==> !((#[trigger] sorted_pre[m]).creation_date.nanos
                    <= x@.creation_date.nanos),
            decreases k,
        {
            proof {
                assert(sorted_pre[k - 1] == out@[k - 1]@);
            }
            k -= 1;
        }
        proof {
            assert(k > 0 ==> sorted_pre[k - 1].creation_date.nanos <= x@.creation_date.nanos);
            lemma_insert_by_creation_at(sorted_pre, x@, k as int);
            assert(all.subrange(0, i + 1).drop_last() =~= all.subrange(0, i as int));
            assert(all.subrange(0, i + 1).last() == all[i as int]);
        }
        out.insert(k, x);
        proof {
            assert(out@.map_values(|e: CacheEntry| e@) =~= sorted_pre.subrange(0, k as int).push(
                x@,
            ) + sorted_pre.subrange(k as int, sorted_pre.len() as int));
        }
        i += 1;
    }
    proof {
        assert(all.subrange(0, all.len() as int) =~= all);
    }
    out
}

proof fn lemma_assoc_index_some<V>(m: Seq<(Seq<char>, V)>, key: Seq<char>, i: int, j: int)
    requires
        0 <= i <= m.len(),
        assoc_index(m, key, i) == Some(j),
    ensures
        i <= j < m.len(),
        m[j].0 == key,
    decreases m.len() - i,
{
    if i >= m.len() {
    } else if m[i].0 == key {
    } else {
        lemma_assoc_index_some(m, key, i + 1, j);
    }
}

/// The first position holding a key, scanning from `i`.
pub open spec fn assoc_index<V>(m: Seq<(Seq<char>, V)>, key: Seq<char>, i: int) -> Option<int>
    decreases m.len() - i when 0 <= i <= m.len()
{
    if i >= m.len() {
        None
    } else if m[i].0 == key {
        Some(i)
    } else {
        assoc_index(m, key, i + 1)
    }
}

/// Append one diff to the list kept for a target, creating the target's
/// slot at the end on first sight.
pub open spec fn add_diff(m: Seq<(Seq<char>, Seq<DiffV>)>, key: Seq<char>, d: DiffV) -> Seq<
    (Seq<char>, Seq<DiffV>),
> {
    match assoc_index(m, key, 0) {
        Some(i) => m.update(i, (key, m[i].1.push(d))),
        None => m.push((key, seq![d])),
    }
}

/// The diff a process rule contributes.
pub open spec fn proc_diff(p: ProcessConfigV) -> DiffV {
    DiffV { accepted: p.permitted, rejected: p.forbidden }
}

/// The diff a domain rule contributes.
pub open spec fn filter_diff(f: WebFilterV) -> DiffV {
    DiffV { accepted: f.permitted, rejected: f.forbidden }
}

pub open spec fn fold_procs(m: Seq<(Seq<char>, Seq<DiffV>)>, procs: Seq<ProcessConfigV>) -> Seq<
    (Seq<char>, Seq<DiffV>),
>
    decreases procs.len(),
{
    if procs.len() == 0 {
        m
    } else {
        add_diff(fold_procs(m, procs.drop_last()), procs.last().binary, proc_diff(procs.last()))
    }
}

pub open spec fn fold_filters(m: Seq<(Seq<char>, Seq<DiffV>)>, fs: Seq<WebFilterV>) -> Seq<
    (Seq<char>, Seq<DiffV>),
>
    decreases fs.len(),
{
    if fs.len() == 0 {
        m
    } else {
        add_diff(fold_filters(m, fs.drop_last()), fs.last().domain, filter_diff(fs.last()))
    }
}

/// The mathematical shape of one user's accumulated diffs: per binary
/// pattern, per blocked domain and per filtered domain, in first-seen
/// order.
pub struct UserDiffsV {
    pub processes: Seq<(Seq<char>, Seq<DiffV>)>,
    pub ips: Seq<(Seq<char>, Seq<DiffV>)>,
    pub web: Seq<(Seq<char>, Seq<DiffV>)>,
}

pub open spec fn empty_user_diffs() -> UserDiffsV {
    UserDiffsV { processes: Seq::empty(), ips: Seq::empty(), web: Seq::empty() }
}

/// Fold one day's rules into a user's accumulated diffs.
pub open spec fn add_day(u: UserDiffsV, c: DayConfigV) -> UserDiffsV {
    UserDiffsV {
        processes: fold_procs(u.processes, c.processes),
        ips: fold_filters(u.ips, c.ip),
        web: fold_filters(u.web, c.web),
    }
}

/// Per-user accumulated diffs, in first-seen order.
pub type GatherV = Seq<(Seq<char>, UserDiffsV)>;

/// Fold one cache entry's per-user rules into the accumulation.
pub open spec fn add_users(g: GatherV, users: UserRulesV) -> GatherV
    decreases users.len(),
{
    if users.len() == 0 {
        g
    } else {
        let g1 = add_users(g, users.drop_last());
        let uname = users.last().0;
        let c = users.last().1;
        match assoc_index(g1, uname, 0) {
            Some(i) => g1.update(i, (uname, add_day(g1[i].1, c))),
            None => g1.push((uname, add_day(empty_user_diffs(), c))),
        }
    }
}

/// Accumulate every entry, oldest first.
pub open spec fn gather_spec(entries: Seq<CacheEntryV>) -> GatherV
    decreases entries.len(),
{
    if entries.len() == 0 {
        Seq::empty()
    } else {
        add_users(gather_spec(entries.drop_last()), entries.last().config)
    }
}

/// One user's accumulated diffs: one ordered diff list per binary pattern
/// and per domain.
#[derive(Debug)]
pub struct UserDiffs {
    pub processes: Vec<(Binary, Vec<IntervalsDiff>)>,
    pub ips: Vec<(Domain, Vec<IntervalsDiff>)>,
    pub web: Vec<(Domain, Vec<IntervalsDiff>)>,
}

pub open spec fn view_bin_map(s: Seq<(Binary, Vec<IntervalsDiff>)>) -> Seq<(Seq<char>, Seq<DiffV>)> {
    s.map_values(|p: (Binary, Vec<IntervalsDiff>)| (p.0@, view_diffs(p.1@)))
}

pub open spec fn view_dom_map(s: Seq<(Domain, Vec<IntervalsDiff>)>) -> Seq<(Seq<char>, Seq<DiffV>)> {
    s.map_values(|p: (Domain, Vec<IntervalsDiff>)| (p.0@, view_diffs(p.1@)))
}

impl View for UserDiffs {
    type V = UserDiffsV;

    open spec fn view(&self) -> UserDiffsV {
        UserDiffsV {
            processes: view_bin_map(self.processes@),
            ips: view_dom_map(self.ips@),
            web: view_dom_map(self.web@),
        }
    }
}

fn find_bin(m: &Vec<(Binary, Vec<IntervalsDiff>)>, key: &String) -> (r: Option<usize>)
    ensures
        match r {
            Some(i) => i < m@.len() && assoc_index(view_bin_map(m@), key@, 0) == Some(i as int),
            None => assoc_index(view_bin_map(m@), key@, 0) is None,
        },
{
    let mut i: usize = 0;
    while i < m.len()
        invariant
            i <= m@.len(),
            assoc_index(view_bin_map(m@), key@, 0) == assoc_index(view_bin_map(m@), key@, i as int),
        decreases m@.len() - i,
    {
        if m[i].0.path.eq(key) {
            proof {
                assert(view_bin_map(m@)[i as int].0 == key@);
            }
            return Some(i);
        }
        proof {
            assert(view_bin_map(m@)[i as int].0 != key@);
        }
        i += 1;
    }
    None
}

fn find_dom(m: &Vec<(Domain, Vec<IntervalsDiff>)>, key: &String) -> (r: Option<usize>)
    ensures
        match r {
            Some(i) => i < m@.len() && assoc_index(view_dom_map(m@), key@, 0) == Some(i as int),
            None => assoc_index(view_dom_map(m@), key@, 0) is None,
        },
{
    let mut i: usize = 0;
    while i < m.len()
        invariant
            i <= m@.len(),
            assoc_index(view_dom_map(m@), key@, 0) == assoc_index(view_dom_map(m@), key@, i as int),
        decreases m@.len() - i,
    {
        if m[i].0.0.eq(key) {
            proof {
                assert(view_dom_map(m@)[i as int].0 == key@);
            }
            return Some(i);
        }
        proof {
            assert(view_dom_map(m@)[i as int].0 != key@);
        }
        i += 1;
    }
    None
}

fn push_bin_diff(m: &mut Vec<(Binary, Vec<IntervalsDiff>)>, key: &Binary, d: IntervalsDiff)
    ensures
        view_bin_map(final(m)@) == add_diff(view_bin_map(old(m)@), key@, d@),
{
    let ghost dv = d@;
    match find_bin(m, &key.path) {
        Some(i) => {
            let mut pair = m.remove(i);
            pair.1.push(d);
            m.insert(i, pair);
            proof {
                lemma_assoc_index_some(view_bin_map(old(m)@), key@, 0, i as int);
                assert(view_diffs(pair.1@) =~= view_diffs(old(m)@[i as int].1@).push(dv));
                assert(view_bin_map(m@) =~= add_diff(view_bin_map(old(m)@), key@, dv));
            }
        },
        None => {
            let mut ds: Vec<IntervalsDiff> = Vec::new();
            ds.push(d);
            m.push((key.clone(), ds));
            proof {
                assert(view_diffs(ds@) =~= seq![dv]);
                assert(view_bin_map(m@) =~= add_diff(view_bin_map(old(m)@), key@, dv));
            }
        },
    }
}

/// Fold one day's rules for one user into that user's accumulated diffs:
/// one diff per process rule, keyed by its binary pattern, and one per
/// domain rule, keyed by its domain.
fn apply_day(u: &mut UserDiffs, c: &DayConfig)
    ensures
        final(u)@ == add_day(old(u)@, c@),
{
    let mut i: usize = 0;
    while i < c.processes.len()
        invariant
            i <= c.processes@.len(),
            view_bin_map(u.processes@) == fold_procs(
                view_bin_map(old(u).processes@),
                view_processes(c.processes@).subrange(0, i as int),
            ),
            u.ips@ == old(u).ips@,
            u.web@ == old(u).web@,
        decreases c.processes@.len() - i,
    {
        let ghost pv = view_processes(c.processes@);
        proof {
            assert(pv.subrange(0, i + 1).drop_last() =~= pv.subrange(0, i as int));
            assert(pv.subrange(0, i + 1).last() == c.processes@[i as int]@);
        }
        let d = IntervalsDiff {
            accepted: wrap_accepted(&c.processes[i].permitted),
            rejected: wrap_rejected(&c.processes[i].forbidden),
        };
        proof {
            assert(d@ == proc_diff(c.processes@[i as int]@));
        }
        push_bin_diff(&mut u.processes, &c.processes[i].binary, d);
        i += 1;
    }
    proof {
        assert(view_processes(c.processes@).subrange(
            0,
            c.processes@.len() as int,
        ) =~= view_processes(c.processes@));
    }
    let mut i: usize = 0;
    while i < c.ip.len()
        invariant
            i <= c.ip@.len(),
            view_bin_map(u.processes@) == fold_procs(
                view_bin_map(old(u).processes@),
                view_processes(c.processes@),
            ),
            view_dom_map(u.ips@) == fold_filters(
                view_dom_map(old(u).ips@),
                view_filters(c.ip@).subrange(0, i as int),
            ),
            u.web@ == old(u).web@,
        decreases c.ip@.len() - i,
    {
        let ghost fv = view_filters(c.ip@);
        proof {
            assert(fv.subrange(0, i + 1).drop_last() =~= fv.subrange(0, i as int));
            assert(fv.subrange(0, i + 1).last() == c.ip@[i as int]@);
        }
        let d = IntervalsDiff {
            accepted: wrap_accepted(&c.ip[i].permitted),
            rejected: wrap_rejected(&c.ip[i].forbidden),
        };
        proof {
            assert(d@ == filter_diff(c.ip@[i as int]@));
        }
        push_dom_diff(&mut u.ips, &c.ip[i].domain, d);
        i += 1;
    }
    proof {
        assert(view_filters(c.ip@).subrange(0, c.ip@.len() as int) =~= view_filters(c.ip@));
    }
    let mut i: usize = 0;
    while i < c.web.len()
        invariant
            i <= c.web@.len(),
            view_bin_map(u.processes@) == fold_procs(
                view_bin_map(old(u).processes@),
                view_processes(c.processes@),
            ),
            view_dom_map(u.ips@) == fold_filters(view_dom_map(old(u).ips@), view_filters(c.ip@)),
            view_dom_map(u.web@) == fold_filters(
                view_dom_map(old(u).web@),
                view_filters(c.web@).subrange(0, i as int),
            ),
        decreases c.web@.len() - i,
    {
        let ghost fv = view_filters(c.web@);
        proof {
            assert(fv.subrange(0, i + 1).drop_last() =~= fv.subrange(0, i as int));
            assert(fv.subrange(0, i + 1).last() == c.web@[i as int]@);
        }
        let d = IntervalsDiff {
            accepted: wrap_accepted(&c.web[i].permitted),
            rejected: wrap_rejected(&c.web[i].forbidden),
        };
        proof {
            assert(d@ == filter_diff(c.web@[i as int]@));
        }
        push_dom_diff(&mut u.web, &c.web[i].domain, d);
        i += 1;
    }
    proof {
        assert(view_filters(c.web@).subrange(0, c.web@.len() as int) =~= view_filters(c.web@));
    }
}

pub open spec fn view_gather(s: Seq<(Username, UserDiffs)>) -> GatherV {
    s.map_values(|p: (Username, UserDiffs)| (p.0@, p.1@))
}

fn find_user(g: &Vec<(Username, UserDiffs)>, key: &Username) -> (r: Option<usize>)
    ensures
        match r {
            Some(i) => i < g@.len() && assoc_index(view_gather(g@), key@, 0) == Some(i as int),
            None => assoc_index(view_gather(g@), key@, 0) is None,
        },
{
    let mut i: usize = 0;
    while i < g.len()
        invariant
            i <= g@.len(),
            assoc_index(view_gather(g@), key@, 0) == assoc_index(view_gather(g@), key@, i as int),
        decreases g@.len() - i,
    {
        if g[i].0.0.eq(&key.0) {
            proof {
                assert(view_gather(g@)[i as int].0 == key@);
            }
            return Some(i);
        }
        proof {
            assert(view_gather(g@)[i as int].0 != key@);
        }
        i += 1;
    }
    None
}

/// Group every cache entry's rules, oldest file first, into one ordered
/// diff list per user and per target.
pub fn gather(cache: &Cache) -> (r: Vec<(Username, UserDiffs)>)
    ensures
        view_gather(r@) == gather_spec(sort_by_creation(cache_entry_views(cache@))),
{
    let sorted = sorted_entries(cache);
    let ghost sv = sorted@.map_values(|e: CacheEntry| e@);
    let mut g: Vec<(Username, UserDiffs)> = Vec::new();
    let mut j: usize = 0;
    proof {
        assert(view_gather(g@) =~= gather_spec(sv.subrange(0, 0)));
    }
    while j < sorted.len()
        invariant
            j <= sorted@.len(),
            sv == sorted@.map_values(|e: CacheEntry| e@),
            sv == sort_by_creation(cache_entry_views(cache@)),
            sv.len() == sorted@.len(),
            view_gather(g@) == gather_spec(sv.subrange(0, j as int)),
        decreases sorted@.len() - j,
    {
        let ghost g0 = gather_spec(sv.subrange(0, j as int));
        let ghost users = sv[j as int].config;
        proof {
            assert(sv.subrange(0, j + 1).drop_last() =~= sv.subrange(0, j as int));
            assert(sv.subrange(0, j + 1).last() == sv[j as int]);
            assert(view_rules(sorted@[j as int].config@) == users);
        }
        let mut ui: usize = 0;
        proof {
            assert(view_gather(g@) =~= add_users(g0, users.subrange(0, 0)));
        }
        while ui < sorted[j].config.len()
            invariant
                j < sorted@.len(),
                ui <= sorted@[j as int].config@.len(),
                users == view_rules(sorted@[j as int].config@),
                users.len() == sorted@[j as int].config@.len(),
                view_gather(g@) == add_users(g0, users.subrange(0, ui as int)),
            decreases sorted@[j as int].config@.len() - ui,
        {
            let ghost before = view_gather(g@);
            proof {
                assert(users.subrange(0, ui + 1).drop_last() =~= users.subrange(0, ui as int));
                assert(users.subrange(0, ui + 1).last() == users[ui as int]);
                assert(users[ui as int].0 == sorted@[j as int].config@[ui as int].0@);
                assert(users[ui as int].1 == sorted@[j as int].config@[ui as int].1@);
            }
            match find_user(&g, &sorted[j].config[ui].0) {
                Some(k) => {
                    proof {
                        lemma_assoc_index_some(before, sorted@[j as int].config@[ui as int].0@, 0, k as int);
                    }
                    let mut pair = g.remove(k);
                    apply_day(&mut pair.1, &sorted[j].config[ui].1);
                    g.insert(k, pair);
                    proof {
                        assert(view_gather(g@) =~= add_users(g0, users.subrange(0, ui + 1)));
                    }
                },
                None => {
                    let mut fresh = UserDiffs {
                        processes: Vec::new(),
                        ips: Vec::new(),
                        web: Vec::new(),
                    };
                    proof {
                        assert(fresh@.processes =~= empty_user_diffs().processes);
                        assert(fresh@.ips =~= empty_user_diffs().ips);
                        assert(fresh@.web =~= empty_user_diffs().web);
                    }
                    apply_day(&mut fresh, &sorted[j].config[ui].1);
                    let name = sorted[j].config[ui].0.clone();
                    g.push((name, fresh));
                    proof {
                        assert(view_gather(g@) =~= add_users(g0, users.subrange(0, ui + 1)));
                    }
                },
            }
            ui += 1;
        }
        proof {
            assert(users.subrange(0, users.len() as int) =~= users);
        }
        j += 1;
    }
    proof {
        assert(sv.subrange(0, sv.len() as int) =~= sv);
    }
    g
}

fn push_dom_diff(m: &mut Vec<(Domain, Vec<IntervalsDiff>)>, key: &Domain, d: IntervalsDiff)
    ensures
        view_dom_map(final(m)@) == add_diff(view_dom_map(old(m)@), key@, d@),
{
    let ghost dv = d@;
    match find_dom(m, &key.0) {
        Some(i) => {
            let mut pair = m.remove(i);
            pair.1.push(d);
            m.insert(i, pair);
            proof {
                lemma_assoc_index_some(view_dom_map(old(m)@), key@, 0, i as int);
                assert(view_diffs(pair.1@) =~= view_diffs(old(m)@[i as int].1@).push(dv));
                assert(view_dom_map(m@) =~= add_diff(view_dom_map(old(m)@), key@, dv));
            }
        },
        None => {
            let mut ds: Vec<IntervalsDiff> = Vec::new();
            ds.push(d);
            m.push((key.clone(), ds));
            proof {
                assert(view_diffs(ds@) =~= seq![dv]);
                assert(view_dom_map(m@) =~= add_diff(view_dom_map(old(m)@), key@, dv));
            }
        },
    }
}

/// The mathematical shape of one user's compiled instructions: final
/// windows per target.
pub struct UserInstructionsV {
    pub user_name: Seq<char>,
    pub processes: Seq<(Seq<char>, Seq<Interval>)>,
    pub ips: Seq<(Seq<char>, Seq<Interval>)>,
    pub web: Seq<(Seq<char>, Seq<Interval>)>,
}

/// What compiling one user's diffs means: per binary pattern and per
/// filtered domain, the ordered fold of its diffs; per blocked domain, the
/// complement of that fold, since domain blocking expresses permitted
/// windows and everything outside them is rejected.
pub open spec fn compile_user_spec(name: Seq<char>, u: UserDiffsV) -> UserInstructionsV {
    UserInstructionsV {
        user_name: name,
        processes: u.processes.map_values(
            |p: (Seq<char>, Seq<DiffV>)| (p.0, fold_diffs(p.1)),
        ),
        ips: u.ips.map_values(
            |p: (Seq<char>, Seq<DiffV>)| (p.0, complement_spec(fold_diffs(p.1))),
        ),
        web: u.web.map_values(|p: (Seq<char>, Seq<DiffV>)| (p.0, fold_diffs(p.1))),
    }
}

/// One user's compiled policy for the current day.
#[derive(Debug)]
pub struct UserInstructions {
    pub user_name: Username,
    pub processes: Vec<(Binary, Vec<AcceptedInterval>)>,
    pub ips: Vec<(Domain, Vec<RejectedInterval>)>,
    pub web: Vec<(Domain, Vec<AcceptedInterval>)>,
}

impl View for UserInstructions {
    type V = UserInstructionsV;

    open spec fn view(&self) -> UserInstructionsV {
        UserInstructionsV {
            user_name: self.user_name@,
            processes: self.processes@.map_values(
                |p: (Binary, Vec<AcceptedInterval>)| (p.0@, accepted_ivs(p.1@)),
            ),
            ips: self.ips@.map_values(
                |p: (Domain, Vec<RejectedInterval>)| (p.0@, rejected_ivs(p.1@)),
            ),
            web: self.web@.map_values(
                |p: (Domain, Vec<AcceptedInterval>)| (p.0@, accepted_ivs(p.1@)),
            ),
        }
    }
}

impl UserInstructions {
    /// Instructions with no rules yet.
    pub fn new(user_name: Username) -> (r: UserInstructions)
        ensures
            r@.user_name == user_name@,
            r@.processes.len() == 0,
            r@.ips.len() == 0,
            r@.web.len() == 0,
    {
        UserInstructions { user_name, processes: Vec::new(), ips: Vec::new(), web: Vec::new() }
    }
}

/// Resolve one user's accumulated diffs into final windows.
fn compile_user(name: Username, diffs: UserDiffs) -> (r: UserInstructions)
    ensures
        r@ == compile_user_spec(name@, diffs@),
{
    let UserDiffs { mut processes, mut ips, mut web } = diffs;
    let ghost pv = view_bin_map(processes@);
    let ghost iv = view_dom_map(ips@);
    let ghost wv = view_dom_map(web@);
    let mut out_p: Vec<(Binary, Vec<AcceptedInterval>)> = Vec::new();
    while processes.len() > 0
        invariant
            out_p@.len() + processes@.len() == pv.len(),
            forall|m: int|
                0 <= m < processes@.len() ==> ((#[trigger] processes@[m]).0@ == pv[out_p@.len()
                    + m].0 && view_diffs(processes@[m].1@) == pv[out_p@.len() + m].1),
            forall|j: int|
                0 <= j < out_p@.len() ==> ((#[trigger] out_p@[j]).0@ == pv[j].0 && accepted_ivs(
                    out_p@[j].1@,
                ) == fold_diffs(pv[j].1)),
        decreases processes@.len(),
    {
        let ghost before = processes@;
        let pair = processes.remove(0);
        proof {
            assert(before[0] == pair);
            assert forall|m: int| 0 <= m < processes@.len() implies processes@[m] == before[
                m + 1
            ] by {}
        }
        let windows = IntervalsDiff::compute_accepted_intervals(pair.1);
        out_p.push((pair.0, windows));
    }
    let mut out_i: Vec<(Domain, Vec<RejectedInterval>)> = Vec::new();
    while ips.len() > 0
        invariant
            out_i@.len() + ips@.len() == iv.len(),
            forall|m: int|
                0 <= m < ips@.len() ==> ((#[trigger] ips@[m]).0@ == iv[out_i@.len() + m].0
                    && view_diffs(ips@[m].1@) == iv[out_i@.len() + m].1),
            forall|j: int|
                0 <= j < out_i@.len() ==> ((#[trigger] out_i@[j]).0@ == iv[j].0 && rejected_ivs(
                    out_i@[j].1@,
                ) == complement_spec(fold_diffs(iv[j].1))),
        decreases ips@.len(),
    {
        let ghost before = ips@;
        let pair = ips.remove(0);
        proof {
            assert(before[0] == pair);
            assert forall|m: int| 0 <= m < ips@.len() implies ips@[m] == before[m + 1] by {}
        }
        let windows = IntervalsDiff::compute_rejected_intervals(pair.1);
        out_i.push((pair.0, windows));
    }
    let mut out_w: Vec<(Domain, Vec<AcceptedInterval>)> = Vec::new();
    while web.len() > 0
        invariant
            out_w@.len() + web@.len() == wv.len(),
            forall|m: int|
                0 <= m < web@.len() ==> ((#[trigger] web@[m]).0@ == wv[out_w@.len() + m].0
                    && view_diffs(web@[m].1@) == wv[out_w@.len() + m].1),
            forall|j: int|
                0 <= j < out_w@.len() ==> ((#[trigger] out_w@[j]).0@ == wv[j].0 && accepted_ivs(
                    out_w@[j].1@,
                ) == fold_diffs(wv[j].1)),
        decreases web@.len(),
    {
        let ghost before = web@;
        let pair = web.remove(0);
        proof {
            assert(before[0] == pair);
            assert forall|m: int| 0 <= m < web@.len() implies web@[m] == before[m + 1] by {}
        }
        let windows = IntervalsDiff::compute_accepted_intervals(pair.1);
        out_w.push((pair.0, windows));
    }
    let r = UserInstructions { user_name: name, processes: out_p, ips: out_i, web: out_w };
    proof {
        assert(r@.processes =~= pv.map_values(|p: (Seq<char>, Seq<DiffV>)| (p.0, fold_diffs(p.1))));
        assert(r@.ips =~= iv.map_values(
            |p: (Seq<char>, Seq<DiffV>)| (p.0, complement_spec(fold_diffs(p.1))),
        ));
        assert(r@.web =~= wv.map_values(|p: (Seq<char>, Seq<DiffV>)| (p.0, fold_diffs(p.1))));
    }
    r
}

/// The compiled policy snapshot: per resolved user id, the day's final
/// windows. Immutable once built; a new tick builds a new one.
#[derive(Debug)]
pub struct Precompiled {
    pub today_per_user: Vec<(Uid, UserInstructions)>,
}

impl View for Precompiled {
    type V = Seq<(Uid, UserInstructionsV)>;

    open spec fn view(&self) -> Seq<(Uid, UserInstructionsV)> {
        self.today_per_user@.map_values(|p: (Uid, UserInstructions)| (p.0, p.1@))
    }
}

impl Precompiled {
    /// An empty snapshot, as the daemon starts with.
    pub fn new() -> (r: Precompiled)
        ensures
            r@.len() == 0,
    {
        Precompiled { today_per_user: Vec::new() }
    }

    /// The day's instructions, per user id.
    pub fn today_per_user(&self) -> (r: &Vec<(Uid, UserInstructions)>)
        ensures
            r == &self.today_per_user,
    {
        &self.today_per_user
    }
}

/// How a snapshot relates to the gathered per-user diffs: `picks` names,
/// in increasing order, the gathered users that made it into the snapshot,
/// and each snapshot row carries exactly the compiled instructions of its
/// user, under the id the resolver answers for that user.
pub open spec fn compiled_from(
    gathered: GatherV,
    result: Seq<(Uid, UserInstructionsV)>,
    picks: Seq<int>,
    resolver: Resolver,
) -> bool {
    &&& picks.len() == result.len()
    &&& forall|j: int| 0 <= j < picks.len() ==> 0 <= #[trigger] picks[j] < gathered.len()
    &&& forall|j1: int, j2: int| 0 <= j1 < j2 < picks.len() ==> picks[j1] < picks[j2]
    &&& forall|j: int|
        0 <= j < picks.len() ==> (#[trigger] result[j]).1 == compile_user_spec(
            gathered[picks[j]].0,
            gathered[picks[j]].1,
        ) && resolver.spec_lookup(gathered[picks[j]].0) == Some(result[j].0)
}

/// Every user among the first `n` gathered ones whose name the resolver
/// already answered for appears in the snapshot, under that id.
pub open spec fn precached_included(
    gathered: GatherV,
    result: Seq<(Uid, UserInstructionsV)>,
    prior: Resolver,
    n: int,
) -> bool {
    forall|i: int|
        (0 <= i < n && (#[trigger] prior.spec_lookup(gathered[i].0)) is Some) ==> exists|j: int|
            0 <= j < result.len() && (#[trigger] result[j]).0 == prior.spec_lookup(
                gathered[i].0,
            )->0 && result[j].1 == compile_user_spec(gathered[i].0, gathered[i].1)
}

/// Each key occurs at most once.
pub open spec fn distinct_keys<V>(m: Seq<(Seq<char>, V)>) -> bool {
    forall|i: int, j: int| 0 <= i < j < m.len() ==> m[i].0 != m[j].0
}

proof fn lemma_assoc_index_none<V>(m: Seq<(Seq<char>, V)>, key: Seq<char>, i: int)
    requires
        0 <= i <= m.len(),
        assoc_index(m, key, i) is None,
    ensures
        forall|j: int| i <= j < m.len() ==> (#[trigger] m[j]).0 != key,
    decreases m.len() - i,
{
    if i >= m.len() {
    } else if m[i].0 == key {
    } else {
        lemma_assoc_index_none(m, key, i + 1);
    }
}

proof fn lemma_add_users_distinct(g: GatherV, users: UserRulesV)
    requires
        distinct_keys(g),
    ensures
        distinct_keys(add_users(g, users)),
    decreases users.len(),
{
    if users.len() == 0 {
    } else {
        lemma_add_users_distinct(g, users.drop_last());
        let g1 = add_users(g, users.drop_last());
        let uname = users.last().0;
        match assoc_index(g1, uname, 0) {
            Some(i) => {
                lemma_assoc_index_some(g1, uname, 0, i);
                let g2 = g1.update(i, (uname, add_day(g1[i].1, users.last().1)));
                assert forall|a: int, b: int|
                    0 <= a < b < g2.len() implies g2[a].0 != g2[b].0 by {
                    assert(g2[a].0 == g1[a].0 && g2[b].0 == g1[b].0);
                }
            },
            None => {
                lemma_assoc_index_none(g1, uname, 0);
                let g2 = g1.push((uname, add_day(empty_user_diffs(), users.last().1)));
                assert forall|a: int, b: int|
                    0 <= a < b < g2.len() implies g2[a].0 != g2[b].0 by {
                    if b == g2.len() - 1 {
                        assert(g1[a].0 != uname);
                    }
                }
            },
        }
    }
}

/// The accumulation keys each user once.
proof fn lemma_gather_distinct(entries: Seq<CacheEntryV>)
    ensures
        distinct_keys(gather_spec(entries)),
    decreases entries.len(),
{
    if entries.len() == 0 {
    } else {
        lemma_gather_distinct(entries.drop_last());
        lemma_add_users_distinct(gather_spec(entries.drop_last()), entries.last().config);
    }
}

/// Every one of the first `n` gathered users is accounted for: either the
/// snapshot carries its compiled instructions under the id the resolver
/// answers for its name, or the resolver has no answer for that name at
/// all -- it could not be resolved.
pub open spec fn all_users_settled(
    gathered: GatherV,
    result: Seq<(Uid, UserInstructionsV)>,
    resolver: Resolver,
    n: int,
) -> bool {
    forall|i: int|
        0 <= i < n ==> ((#[trigger] resolver.spec_lookup(gathered[i].0)) is None || exists|j: int|
            0 <= j < result.len() && (#[trigger] result[j]).0 == resolver.spec_lookup(
                gathered[i].0,
            )->0 && result[j].1 == compile_user_spec(gathered[i].0, gathered[i].1))
}

/// Compile the cache into a snapshot: gather all entries' rules, ordered
/// by file creation date, then resolve each mentioned user name to a user
/// id and run the interval algebra per target. A user whose name the
/// system cannot resolve is skipped; the other users are still compiled.
pub fn compile(cache: &Cache, resolver: &mut Resolver) -> (r: Precompiled)
    ensures
        final(resolver).extends(*old(resolver)),
        exists|picks: Seq<int>|
            compiled_from(
                gather_spec(sort_by_creation(cache_entry_views(cache@))),
                r@,
                picks,
                *final(resolver),
            ),
        precached_included(
            gather_spec(sort_by_creation(cache_entry_views(cache@))),
            r@,
            *old(resolver),
            gather_spec(sort_by_creation(cache_entry_views(cache@))).len() as int,
        ),
        all_users_settled(
            gather_spec(sort_by_creation(cache_entry_views(cache@))),
            r@,
            *final(resolver),
            gather_spec(sort_by_creation(cache_entry_views(cache@))).len() as int,
        ),
{
    let ghost gathered = gather_spec(sort_by_creation(cache_entry_views(cache@)));
    proof {
        lemma_gather_distinct(sort_by_creation(cache_entry_views(cache@)));
    }
    let mut pending = gather(cache);
    let ghost total = gathered.len();
    let mut result: Vec<(Uid, UserInstructions)> = Vec::new();
    let ghost mut picks: Seq<int> = Seq::empty();
    proof {
        assert forall|m: int| 0 <= m < pending@.len() implies ((#[trigger] pending@[m]).0@
            == gathered[m].0 && pending@[m].1@ == gathered[m].1) by {
            assert(view_gather(pending@)[m] == gathered[m]);
        }
    }
    while pending.len() > 0
        invariant
            pending@.len() <= gathered.len(),
            gathered == gather_spec(sort_by_creation(cache_entry_views(cache@))),
            forall|m: int|
                0 <= m < pending@.len() ==> ((#[trigger] pending@[m]).0@ == gathered[gathered.len()
                    - pending@.len() + m].0 && pending@[m].1@ == gathered[gathered.len()
                    - pending@.len() + m].1),
            resolver.extends(*old(resolver)),
            compiled_from(
                gathered,
                result@.map_values(|p: (Uid, UserInstructions)| (p.0, p.1@)),
                picks,
                *resolver,
            ),
            forall|j: int|
                0 <= j < picks.len() ==> #[trigger] picks[j] < gathered.len() - pending@.len(),
            precached_included(
                gathered,
                result@.map_values(|p: (Uid, UserInstructions)| (p.0, p.1@)),
                *old(resolver),
                gathered.len() - pending@.len(),
            ),
            distinct_keys(gathered),
            all_users_settled(
                gathered,
                result@.map_values(|p: (Uid, UserInstructions)| (p.0, p.1@)),
                *resolver,
                gathered.len() - pending@.len(),
            ),
        decreases pending@.len(),
    {
        let ghost k = gathered.len() - pending@.len();
        let ghost res_before = *resolver;
        let ghost before = pending@;
        let pair = pending.remove(0);
        proof {
            assert(before[0] == pair);
            assert(pair.0@ == gathered[k].0 && pair.1@ == gathered[k].1);
            assert forall|m: int| 0 <= m < pending@.len() implies pending@[m] == before[m + 1] by {}
        }
        match resolver.resolve(&pair.0) {
            Err(_) => {
                proof {
                    let f = |p: (Uid, UserInstructions)| (p.0, p.1@);
                    let rv = result@.map_values(f);
                    assert(res_before.spec_lookup(gathered[k].0) is None);
                    assert forall|i: int|
                        (0 <= i < k + 1 && (#[trigger] old(resolver).spec_lookup(
                            gathered[i].0,
                        )) is Some) implies exists|j: int|
                            0 <= j < rv.len() && (#[trigger] rv[j]).0 == old(resolver).spec_lookup(
                                gathered[i].0,
                            )->0 && rv[j].1 == compile_user_spec(gathered[i].0, gathered[i].1) by {
                        if i == k {
                            assert(res_before.extends(*old(resolver)));
                            assert(res_before.spec_lookup(gathered[i].0) == old(
                                resolver,
                            ).spec_lookup(gathered[i].0));
                            assert(false);
                        }
                    }
                    assert(precached_included(gathered, rv, *old(resolver), k + 1));
                    assert(*resolver == res_before);
                    assert(resolver.spec_lookup(gathered[k].0) is None);
                    assert(all_users_settled(gathered, rv, *resolver, k + 1));
                }
            },
            Ok(uid) => {
                let ghost result_before = result@;
                let ghost picks_before = picks;
                let ghost instr_spec = compile_user_spec(gathered[k].0, gathered[k].1);
                let instructions = compile_user(pair.0, pair.1);
                result.push((uid, instructions));
                proof {
                    picks = picks.push(k);
                    assert(resolver.spec_lookup(gathered[k].0) == Some(uid));
                    let f = |p: (Uid, UserInstructions)| (p.0, p.1@);
                    let rv_old = result_before.map_values(f);
                    let rv = result@.map_values(f);
                    assert(rv.len() == rv_old.len() + 1);
                    assert forall|j: int|
                        0 <= j < picks.len() implies rv[j].1 == compile_user_spec(
                        gathered[#[trigger] picks[j]].0,
                        gathered[picks[j]].1,
                    ) && resolver.spec_lookup(gathered[picks[j]].0) == Some(rv[j].0) by {
                        if j < picks.len() - 1 {
                            assert(picks[j] == picks_before[j]);
                            assert(rv_old[j].1 == compile_user_spec(
                                gathered[picks_before[j]].0,
                                gathered[picks_before[j]].1,
                            ));
                            assert(res_before.spec_lookup(gathered[picks_before[j]].0) == Some(
                                rv_old[j].0,
                            ));
                            assert(rv[j] == rv_old[j]);
                            assert(resolver.extends(res_before));
                            assert(resolver.spec_lookup(gathered[picks_before[j]].0) == Some(
                                rv_old[j].0,
                            ));
                        } else {
                            assert(rv[j] == (uid, instructions@));
                            assert(instructions@ == instr_spec);
                        }
                    }
                    assert(compiled_from(gathered, rv, picks, *resolver));
                    assert forall|i: int|
                        (0 <= i < k + 1 && (#[trigger] old(resolver).spec_lookup(
                            gathered[i].0,
                        )) is Some) implies exists|j: int|
                            0 <= j < rv.len() && (#[trigger] rv[j]).0 == old(resolver).spec_lookup(
                                gathered[i].0,
                            )->0 && rv[j].1 == compile_user_spec(gathered[i].0, gathered[i].1) by {
                        if i == k {
                            assert(res_before.extends(*old(resolver)));
                            assert(res_before.spec_lookup(gathered[i].0) == old(
                                resolver,
                            ).spec_lookup(gathered[i].0));
                            assert(rv[rv.len() - 1] == (uid, instructions@));
                            assert(uid == old(resolver).spec_lookup(gathered[i].0)->0);
                            assert(rv[rv.len() - 1].1 == compile_user_spec(
                                gathered[i].0,
                                gathered[i].1,
                            ));
                        } else {
                            assert(exists|j: int|
                                0 <= j < rv_old.len() && (#[trigger] rv_old[j]).0 == old(
                                    resolver,
                                ).spec_lookup(gathered[i].0)->0 && rv_old[j].1 == compile_user_spec(
                                    gathered[i].0,
                                    gathered[i].1,
                                ));
                            let j0 = choose|j0: int|
                                0 <= j0 < rv_old.len() && (#[trigger] rv_old[j0]).0 == old(
                                    resolver,
                                ).spec_lookup(gathered[i].0)->0 && rv_old[j0].1
                                == compile_user_spec(gathered[i].0, gathered[i].1);
                            assert(rv[j0] == rv_old[j0]);
                        }
                    }
                    assert(precached_included(gathered, rv, *old(resolver), k + 1));
                    assert forall|i: int|
                        0 <= i < k + 1 implies ((#[trigger] resolver.spec_lookup(
                        gathered[i].0,
                    )) is None || exists|j: int|
                        0 <= j < rv.len() && (#[trigger] rv[j]).0 == resolver.spec_lookup(
                            gathered[i].0,
                        )->0 && rv[j].1 == compile_user_spec(gathered[i].0, gathered[i].1)) by {
                        if i == k {
                            assert(rv[rv.len() - 1] == (uid, instructions@));
                            assert(resolver.spec_lookup(gathered[k].0) == Some(uid));
                        } else {
                            assert(gathered[i].0 != gathered[k].0);
                            assert(resolver.spec_lookup(gathered[i].0) == res_before.spec_lookup(
                                gathered[i].0,
                            ));
                            if res_before.spec_lookup(gathered[i].0) is Some {
                                let j0 = choose|j0: int|
                                    0 <= j0 < rv_old.len() && (#[trigger] rv_old[j0]).0
                                        == res_before.spec_lookup(gathered[i].0)->0 && rv_old[j0].1
                                        == compile_user_spec(gathered[i].0, gathered[i].1);
                                assert(rv[j0] == rv_old[j0]);
                            }
                        }
                    }
                    assert(all_users_settled(gathered, rv, *resolver, k + 1));
                }
            },
        }
    }
    let r = Precompiled { today_per_user: result };
    proof {
        assert(compiled_from(gathered, r@, picks, *resolver));
    }
    r
}

} // verus!
