//! Per-day configuration shapes and the weekly schedule resolver: a day may
//! either carry concrete instructions or say "same as day X", and the
//! resolver flattens such references, rejecting cycles.

use vstd::prelude::*;

use crate::interval::Interval;
use crate::types::{DayOfWeek, Domain};

verus! {

/// Why a configuration fragment was rejected.
#[derive(PartialEq, Eq, Structural, Debug, Clone, Copy)]
pub enum ConfigError {
    /// A binary path pattern is not a valid glob.
    InvalidGlob,
    /// The day-of-week references form a cycle.
    DayCycle,
}

/// The absolute path to a binary; may be a glob pattern.
#[derive(Debug, PartialEq, Eq, Hash)]
pub struct Binary {
    pub path: String,
}

impl View for Binary {
    type V = Seq<char>;

    open spec fn view(&self) -> Seq<char> {
        self.path@
    }
}

impl Clone for Binary {
    fn clone(&self) -> (r: Binary)
        ensures
            r@ == self@,
    {
        Binary { path: self.path.clone() }
    }
}

/// Whether `globset` accepts a pattern; this depends on the pattern alone.
pub uninterp spec fn glob_pattern_ok(pattern: Seq<char>) -> bool;

/// Relies on globset::Glob::new: a pattern is either accepted as a valid
/// glob or rejected, deterministically in the pattern.
#[verifier::external_body]
fn glob_new_ok(pattern: &str) -> (r: bool)
    ensures
        r == glob_pattern_ok(pattern@),
{
    globset::Glob::new(pattern).is_ok()
}

impl Binary {
    /// Validate a path pattern as a glob and keep it.
    pub fn try_new(path: &str) -> (r: Result<Binary, ConfigError>)
        ensures
            r is Ok <==> glob_pattern_ok(path@),
            r is Ok ==> r->Ok_0@ == path@,
            r is Err ==> r->Err_0 is InvalidGlob,
    {
        if glob_new_ok(path) {
            Ok(Binary { path: path.to_owned() })
        } else {
            Err(ConfigError::InvalidGlob)
        }
    }
}

/// The mathematical shape of a process rule: a pattern and its windows.
pub struct ProcessConfigV {
    pub binary: Seq<char>,
    pub permitted: Seq<Interval>,
    pub forbidden: Seq<Interval>,
}

/// Watch one binary: when it may run, and when it must not.
#[derive(Debug)]
pub struct ProcessConfig {
    /// The full path to the binary being watched.
    pub binary: Binary,
    pub permitted: Vec<Interval>,
    pub forbidden: Vec<Interval>,
}

impl View for ProcessConfig {
    type V = ProcessConfigV;

    open spec fn view(&self) -> ProcessConfigV {
        ProcessConfigV {
            binary: self.binary@,
            permitted: self.permitted@,
            forbidden: self.forbidden@,
        }
    }
}

/// The mathematical shape of a domain rule: a domain and its windows.
pub struct WebFilterV {
    pub domain: Seq<char>,
    pub permitted: Seq<Interval>,
    pub forbidden: Seq<Interval>,
}

/// Watch one domain: when it may be reached, and when it must not.
#[derive(Debug)]
pub struct WebFilter {
    pub domain: Domain,
    pub permitted: Vec<Interval>,
    pub forbidden: Vec<Interval>,
}

impl View for WebFilter {
    type V = WebFilterV;

    open spec fn view(&self) -> WebFilterV {
        WebFilterV {
            domain: self.domain.0@,
            permitted: self.permitted@,
            forbidden: self.forbidden@,
        }
    }
}

/// The mathematical shape of one day's rules.
pub struct DayConfigV {
    pub processes: Seq<ProcessConfigV>,
    pub ip: Seq<WebFilterV>,
    pub web: Seq<WebFilterV>,
}

/// The concrete rules of one day.
#[derive(Debug)]
pub struct DayConfig {
    pub processes: Vec<ProcessConfig>,
    pub ip: Vec<WebFilter>,
    pub web: Vec<WebFilter>,
}

pub open spec fn view_processes(s: Seq<ProcessConfig>) -> Seq<ProcessConfigV> {
    s.map_values(|p: ProcessConfig| p@)
}

pub open spec fn view_filters(s: Seq<WebFilter>) -> Seq<WebFilterV> {
    s.map_values(|f: WebFilter| f@)
}

impl View for DayConfig {
    type V = DayConfigV;

    open spec fn view(&self) -> DayConfigV {
        DayConfigV {
            processes: view_processes(self.processes@),
            ip: view_filters(self.ip@),
            web: view_filters(self.web@),
        }
    }
}

fn copy_intervals(v: &Vec<Interval>) -> (r: Vec<Interval>)
    ensures
        r@ == v@,
{
    let mut out: Vec<Interval> = Vec::new();
    let mut i: usize = 0;
    while i < v.len()
        invariant
            i <= v@.len(),
            out@ == v@.subrange(0, i as int),
        decreases v@.len() - i,
    {
        out.push(v[i]);
        proof {
            assert(out@ =~= v@.subrange(0, i + 1));
        }
        i += 1;
    }
    proof {
        assert(v@.subrange(0, v@.len() as int) =~= v@);
    }
    out
}

impl Clone for ProcessConfig {
    fn clone(&self) -> (r: ProcessConfig)
        ensures
            r@ == self@,
    {
        ProcessConfig {
            binary: self.binary.clone(),
            permitted: copy_intervals(&self.permitted),
            forbidden: copy_intervals(&self.forbidden),
        }
    }
}

impl Clone for WebFilter {
    fn clone(&self) -> (r: WebFilter)
        ensures
            r@ == self@,
    {
        WebFilter {
            domain: self.domain.clone(),
            permitted: copy_intervals(&self.permitted),
            forbidden: copy_intervals(&self.forbidden),
        }
    }
}

fn copy_processes(v: &Vec<ProcessConfig>) -> (r: Vec<ProcessConfig>)
    ensures
        view_processes(r@) == view_processes(v@),
{
    let mut out: Vec<ProcessConfig> = Vec::new();
    let mut i: usize = 0;
    while i < v.len()
        invariant
            i <= v@.len(),
            out@.len() == i,
            forall|j: int| 0 <= j < i ==> (#[trigger] out@[j])@ == v@[j]@,
        decreases v@.len() - i,
    {
        out.push(v[i].clone());
        i += 1;
    }
    proof {
        assert(view_processes(out@) =~= view_processes(v@));
    }
    out
}

fn copy_filters(v: &Vec<WebFilter>) -> (r: Vec<WebFilter>)
    ensures
        view_filters(r@) == view_filters(v@),
{
    let mut out: Vec<WebFilter> = Vec::new();
    let mut i: usize = 0;
    while i < v.len()
        invariant
            i <= v@.len(),
            out@.len() == i,
            forall|j: int| 0 <= j < i ==> (#[trigger] out@[j])@ == v@[j]@,
        decreases v@.len() - i,
    {
        out.push(v[i].clone());
        i += 1;
    }
    proof {
        assert(view_filters(out@) =~= view_filters(v@));
    }
    out
}

impl Clone for DayConfig {
    fn clone(&self) -> (r: DayConfig)
        ensures
            r@ == self@,
    {
        DayConfig {
            processes: copy_processes(&self.processes),
            ip: copy_filters(&self.ip),
            web: copy_filters(&self.web),
        }
    }
}

/// The mathematical shape of one day's entry.
pub enum DayEntryV {
    Copy { like: DayOfWeek },
    Instructions { config: DayConfigV },
}

/// One day's entry as configuration files state it: either concrete rules,
/// or a reference to another day's rules.
#[derive(Debug)]
pub enum DayEntry {
    /// Copy the configuration of another day of the week.
    Copy { like: DayOfWeek },
    /// Concrete rules for this day.
    Instructions { config: DayConfig },
}

impl View for DayEntry {
    type V = DayEntryV;

    open spec fn view(&self) -> DayEntryV {
        match self {
            DayEntry::Copy { like } => DayEntryV::Copy { like: *like },
            DayEntry::Instructions { config } => DayEntryV::Instructions { config: config@ },
        }
    }
}

pub open spec fn view_entries(s: Seq<Option<DayEntry>>) -> Seq<Option<DayEntryV>> {
    s.map_values(
        |o: Option<DayEntry>|
            match o {
                Option::None => Option::<DayEntryV>::None,
                Option::Some(e) => Option::Some(e@),
            },
    )
}

pub open spec fn view_days(s: Seq<Option<DayConfig>>) -> Seq<Option<DayConfigV>> {
    s.map_values(
        |o: Option<DayConfig>|
            match o {
                Option::None => Option::<DayConfigV>::None,
                Option::Some(c) => Option::Some(c@),
            },
    )
}

/// A resolved week: one optional concrete configuration per day, Monday
/// first.
#[derive(Debug)]
pub struct Week(pub Vec<Option<DayConfig>>);

impl View for Week {
    type V = Seq<Option<DayConfigV>>;

    open spec fn view(&self) -> Seq<Option<DayConfigV>> {
        view_days(self.0@)
    }
}

impl Week {
    pub open spec fn wf(self) -> bool {
        self.0@.len() == 7
    }
}

/// Every `Copy` reference in the entries names a valid day, and there is
/// one entry slot per day.
pub open spec fn entries_wf(entries: Seq<Option<DayEntryV>>) -> bool {
    &&& entries.len() == 7
    &&& forall|d: int|
        0 <= d < 7 ==> match #[trigger] entries[d] {
            Option::Some(DayEntryV::Copy { like }) => like.wf(),
            _ => true,
        }
}

/// One resolution step for one day: a `Copy` entry resolves when its target
/// day is already resolved; an `Instructions` entry resolves outright; any
/// other entry is left for a later pass.
pub open spec fn step_day(
    parse: Seq<Option<DayEntryV>>,
    build: Seq<Option<DayConfigV>>,
    d: int,
) -> (Seq<Option<DayEntryV>>, Seq<Option<DayConfigV>>) {
    match parse[d] {
        Option::None => (parse, build),
        Option::Some(e) => match e {
            DayEntryV::Copy { like } => match build[like.0 as int] {
                Option::None => (parse, build),
                Option::Some(c) => (parse.update(d, Option::None), build.update(d, Option::Some(c))),
            },
            DayEntryV::Instructions { config } => (
                parse.update(d, Option::None),
                build.update(d, Option::Some(config)),
            ),
        },
    }
}

/// One pass over the seven days, Monday first.
pub open spec fn run_days(
    parse: Seq<Option<DayEntryV>>,
    build: Seq<Option<DayConfigV>>,
    d: int,
) -> (Seq<Option<DayEntryV>>, Seq<Option<DayConfigV>>)
    decreases 7 - d when 0 <= d <= 7
{
    if d >= 7 {
        (parse, build)
    } else {
        let sb = step_day(parse, build, d);
        run_days(sb.0, sb.1, d + 1)
    }
}

/// Up to seven passes: as there are exactly seven days, seven passes
/// flatten any acyclic chain of references.
pub open spec fn run_passes(
    parse: Seq<Option<DayEntryV>>,
    build: Seq<Option<DayConfigV>>,
    pass: int,
) -> (Seq<Option<DayEntryV>>, Seq<Option<DayConfigV>>)
    decreases 7 - pass when 0 <= pass <= 7
{
    if pass >= 7 {
        (parse, build)
    } else {
        let db = run_days(parse, build, 0);
        run_passes(db.0, db.1, pass + 1)
    }
}

/// The final resolution state of a week's entries: what is still
/// unresolved, and what each day resolved to.
pub open spec fn resolution(entries: Seq<Option<DayEntryV>>) -> (
    Seq<Option<DayEntryV>>,
    Seq<Option<DayConfigV>>,
) {
    run_passes(entries, Seq::new(7, |d: int| Option::None), 0)
}

/// The days of `cycle` form a closed ring of references: each one is a
/// `Copy` entry whose target day also belongs to `cycle`.
pub open spec fn copy_cycle(entries: Seq<Option<DayEntryV>>, cycle: Set<int>) -> bool {
    forall|d: int|
        #[trigger] cycle.contains(d) ==> 0 <= d < 7 && match entries[d] {
            Option::Some(DayEntryV::Copy { like }) => cycle.contains(like.0 as int),
            _ => false,
        }
}

/// The days of a closed reference ring never resolve.
spec fn cycle_stuck(
    entries: Seq<Option<DayEntryV>>,
    cycle: Set<int>,
    parse: Seq<Option<DayEntryV>>,
    build: Seq<Option<DayConfigV>>,
) -> bool {
    forall|d: int|
        #[trigger] cycle.contains(d) ==> parse[d] == entries[d] && build[d] is None
}

proof fn lemma_cycle_step(
    entries: Seq<Option<DayEntryV>>,
    cycle: Set<int>,
    parse: Seq<Option<DayEntryV>>,
    build: Seq<Option<DayConfigV>>,
    d: int,
)
    requires
        0 <= d < 7,
        parse.len() == 7,
        build.len() == 7,
        copy_cycle(entries, cycle),
        cycle_stuck(entries, cycle, parse, build),
    ensures
        step_day(parse, build, d).0.len() == 7,
        step_day(parse, build, d).1.len() == 7,
        cycle_stuck(entries, cycle, step_day(parse, build, d).0, step_day(parse, build, d).1),
{
    let sb = step_day(parse, build, d);
    if cycle.contains(d) {
        // This day copies from a day of the ring, which is unresolved, so
        // nothing happens.
        assert(parse[d] == entries[d]);
        match entries[d] {
            Option::Some(DayEntryV::Copy { like }) => {
                assert(cycle.contains(like.0 as int));
                assert(build[like.0 as int] is None);
                assert(sb == (parse, build));
            },
            _ => {
                assert(false);
            },
        }
    } else {
        // The step touches only position `d`, which is outside the ring.
        assert forall|d2: int| #[trigger] cycle.contains(d2) implies sb.0[d2] == entries[d2]
            && sb.1[d2] is None by {
            assert(d2 != d);
        }
    }
}

proof fn lemma_cycle_run_days(
    entries: Seq<Option<DayEntryV>>,
    cycle: Set<int>,
    parse: Seq<Option<DayEntryV>>,
    build: Seq<Option<DayConfigV>>,
    d: int,
)
    requires
        0 <= d <= 7,
        parse.len() == 7,
        build.len() == 7,
        copy_cycle(entries, cycle),
        cycle_stuck(entries, cycle, parse, build),
    ensures
        run_days(parse, build, d).0.len() == 7,
        run_days(parse, build, d).1.len() == 7,
        cycle_stuck(entries, cycle, run_days(parse, build, d).0, run_days(parse, build, d).1),
    decreases 7 - d,
{
    if d >= 7 {
    } else {
        let sb = step_day(parse, build, d);
        lemma_cycle_step(entries, cycle, parse, build, d);
        lemma_cycle_run_days(entries, cycle, sb.0, sb.1, d + 1);
    }
}

proof fn lemma_cycle_run_passes(
    entries: Seq<Option<DayEntryV>>,
    cycle: Set<int>,
    parse: Seq<Option<DayEntryV>>,
    build: Seq<Option<DayConfigV>>,
    pass: int,
)
    requires
        0 <= pass <= 7,
        parse.len() == 7,
        build.len() == 7,
        copy_cycle(entries, cycle),
        cycle_stuck(entries, cycle, parse, build),
    ensures
        cycle_stuck(entries, cycle, run_passes(parse, build, pass).0, run_passes(
            parse,
            build,
            pass,
        ).1),
    decreases 7 - pass,
{
    if pass >= 7 {
    } else {
        let db = run_days(parse, build, 0);
        lemma_cycle_run_days(entries, cycle, parse, build, 0);
        lemma_cycle_run_passes(entries, cycle, db.0, db.1, pass + 1);
    }
}

/// A schedule whose `Copy` references form a cycle can never resolve:
/// every day on the ring is still unresolved after the bounded fixed
/// point, so `resolve_week` rejects the week with a cycle error.
pub proof fn lemma_copy_cycle_rejected(entries: Seq<Option<DayEntryV>>, cycle: Set<int>, d0: int)
    requires
        entries_wf(entries),
        copy_cycle(entries, cycle),
        cycle.contains(d0),
    ensures
        resolution(entries).0[d0] == entries[d0],
        resolution(entries).0[d0] is Some,
{
    let build0 = Seq::new(7, |d: int| Option::<DayConfigV>::None);
    assert(cycle_stuck(entries, cycle, entries, build0));
    lemma_cycle_run_passes(entries, cycle, entries, build0, 0);
}

/// Resolve a week of day entries into concrete per-day rules, by a bounded
/// fixed point: in each of seven passes, resolve every `Instructions` entry
/// and every `Copy` entry whose target day is already resolved. An entry
/// still unresolved after seven passes sits on a reference cycle, which is
/// a hard configuration error.
pub fn resolve_week(entries: Vec<Option<DayEntry>>) -> (r: Result<Week, ConfigError>)
    requires
        entries_wf(view_entries(entries@)),
    ensures
        r is Ok <==> (forall|d: int|
            0 <= d < 7 ==> resolution(view_entries(entries@)).0[d] is None),
        r is Ok ==> r->Ok_0@ == resolution(view_entries(entries@)).1 && r->Ok_0.wf(),
        r is Err ==> r->Err_0 is DayCycle,
{
    let mut parse = entries;
    let mut build: Vec<Option<DayConfig>> = Vec::new();
    let mut d0: usize = 0;
    while d0 < 7
        invariant
            d0 <= 7,
            build@.len() == d0,
            forall|d: int| 0 <= d < d0 ==> build@[d] is None,
        decreases 7 - d0,
    {
        build.push(None);
        d0 += 1;
    }
    proof {
        assert(view_days(build@) =~= Seq::new(7, |d: int| Option::<DayConfigV>::None));
    }
    let ghost orig = view_entries(parse@);
    let mut pass: usize = 0;
    while pass < 7
        invariant
            pass <= 7,
            parse@.len() == 7,
            build@.len() == 7,
            entries_wf(view_entries(parse@)),
            run_passes(view_entries(parse@), view_days(build@), pass as int) == resolution(orig),
        decreases 7 - pass,
    {
        let ghost pass_parse = view_entries(parse@);
        let ghost pass_build = view_days(build@);
        let mut day: usize = 0;
        while day < 7
            invariant
                day <= 7,
                pass < 7,
                parse@.len() == 7,
                build@.len() == 7,
                entries_wf(view_entries(parse@)),
                run_days(view_entries(parse@), view_days(build@), day as int) == run_days(
                    pass_parse,
                    pass_build,
                    0,
                ),
            decreases 7 - day,
        {
            let ghost before_parse = view_entries(parse@);
            let ghost before_build = view_days(build@);
            let resolved: Option<DayConfig> = match &parse[day] {
                Option::None => Option::None,
                Option::Some(DayEntry::Copy { like }) => {
                    let target = like.0 as usize;
                    proof {
                        assert(before_parse[day as int] == Option::Some(
                            DayEntryV::Copy { like: *like },
                        ));
                    }
                    match &build[target] {
                        Option::None => Option::None,
                        Option::Some(c) => Option::Some(c.clone()),
                    }
                },
                Option::Some(DayEntry::Instructions { config }) => Option::Some(config.clone()),
            };
            if let Option::Some(c) = resolved {
                parse[day] = Option::None;
                build[day] = Option::Some(c);
            }
            proof {
                assert(view_entries(parse@) =~= step_day(before_parse, before_build, day as int).0);
                assert(view_days(build@) =~= step_day(before_parse, before_build, day as int).1);
                assert(run_days(before_parse, before_build, day as int) == run_days(
                    view_entries(parse@),
                    view_days(build@),
                    day + 1,
                ));
            }
            day += 1;
        }
        proof {
            assert(run_days(view_entries(parse@), view_days(build@), 7) == (
                view_entries(parse@),
                view_days(build@),
            ));
            assert(run_passes(pass_parse, pass_build, pass as int) == run_passes(
                view_entries(parse@),
                view_days(build@),
                pass + 1,
            ));
        }
        pass += 1;
    }
    proof {
        assert(run_passes(view_entries(parse@), view_days(build@), 7) == (
            view_entries(parse@),
            view_days(build@),
        ));
    }
    let mut day: usize = 0;
    while day < 7
        invariant
            day <= 7,
            parse@.len() == 7,
            orig == view_entries(entries@),
            view_entries(parse@) == resolution(orig).0,
            forall|d: int| 0 <= d < day ==> resolution(orig).0[d] is None,
        decreases 7 - day,
    {
        if parse[day].is_some() {
            proof {
                assert(resolution(orig).0[day as int] is Some);
            }
            return Err(ConfigError::DayCycle);
        }
        proof {
            assert(resolution(orig).0[day as int] is None);
        }
        day += 1;
    }
    Ok(Week(build))
}

} // verus!
