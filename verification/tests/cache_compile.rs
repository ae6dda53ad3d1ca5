use keep_it_focused::algebra::AcceptedInterval;
use keep_it_focused::cache::{needs_recompile, refresh_plan, Cache, RefreshPlan, Timestamp};
use keep_it_focused::compiler::{compile, UserInstructions};
use keep_it_focused::interval::Interval;
use keep_it_focused::schedule::{Binary, DayConfig, ProcessConfig};
use keep_it_focused::types::{TimeOfDay, Username};
use keep_it_focused::uid_resolver::{Resolver, Uid};

const TODAY: i64 = 739000;
const YESTERDAY: i64 = 738999;

fn ts(nanos: u128, day: i64) -> Timestamp {
    Timestamp { nanos, day }
}

fn rules_for_root(binary: &str, sh: u8, eh: u8) -> Vec<(Username, DayConfig)> {
    vec![(
        Username("root".to_string()),
        DayConfig {
            processes: vec![ProcessConfig {
                binary: Binary::try_new(binary).expect("valid glob"),
                permitted: vec![Interval {
                    start: TimeOfDay { hours: sh, minutes: 0 },
                    end: TimeOfDay { hours: eh, minutes: 0 },
                }],
                forbidden: vec![],
            }],
            ip: vec![],
            web: vec![],
        },
    )]
}

#[test]
fn refresh_decisions() {
    let stored = ts(100, TODAY);
    // An extension file from yesterday is evicted, whatever the cache held.
    assert_eq!(
        refresh_plan(Some(&stored), ts(500, YESTERDAY), TODAY, true),
        RefreshPlan::EvictAndDelete
    );
    // The main file is never evicted on age alone.
    assert_eq!(
        refresh_plan(Some(&stored), ts(50, YESTERDAY), TODAY, false),
        RefreshPlan::Unchanged
    );
    // A modification time that did not advance keeps the cache.
    assert_eq!(
        refresh_plan(Some(&stored), ts(100, TODAY), TODAY, true),
        RefreshPlan::Unchanged
    );
    // A new or advanced file is parsed again.
    assert_eq!(
        refresh_plan(Some(&stored), ts(101, TODAY), TODAY, true),
        RefreshPlan::Reparse
    );
    assert_eq!(
        refresh_plan(None, ts(1, TODAY), TODAY, true),
        RefreshPlan::Reparse
    );
}

#[test]
fn stale_extension_is_evicted_and_left_out_of_the_snapshot() {
    let mut cache = Cache::new();
    cache.upsert(
        "/etc/focus.yaml",
        ts(10, TODAY),
        ts(10, TODAY),
        rules_for_root("/bin/main_rule", 9, 10),
    );
    cache.upsert(
        "/tmp/focus.d/old.yaml",
        ts(20, YESTERDAY),
        ts(20, YESTERDAY),
        rules_for_root("/bin/old_rule", 11, 12),
    );

    // The stale extension is dropped; the main file stays.
    let changed = cache.purge_stale(TODAY, "/etc/focus.yaml");
    assert!(changed);
    assert_eq!(cache.entries.len(), 1);
    assert_eq!(cache.entries[0].0, "/etc/focus.yaml");

    // Purging again changes nothing.
    let changed_again = cache.purge_stale(TODAY, "/etc/focus.yaml");
    assert!(!changed_again);

    // And no rule from the evicted file reaches the snapshot.
    let mut resolver = Resolver::new();
    let snapshot = compile(&cache, &mut resolver);
    assert_eq!(snapshot.today_per_user.len(), 1);
    let (uid, instructions): &(Uid, UserInstructions) = &snapshot.today_per_user[0];
    assert_eq!(*uid, Uid(0));
    assert_eq!(instructions.processes.len(), 1);
    assert_eq!(instructions.processes[0].0.path, "/bin/main_rule");
}

#[test]
fn compile_folds_in_creation_order() {
    // The newer file's rejection carves into the older file's acceptance,
    // even though the newer file sits first in the cache.
    let mut cache = Cache::new();
    let mut newer = rules_for_root("/bin/game", 0, 0);
    newer[0].1.processes[0].permitted = vec![];
    newer[0].1.processes[0].forbidden = vec![Interval {
        start: TimeOfDay { hours: 1, minutes: 0 },
        end: TimeOfDay { hours: 1, minutes: 30 },
    }];
    cache.upsert("/tmp/focus.d/newer.yaml", ts(90, TODAY), ts(90, TODAY), newer);
    cache.upsert(
        "/etc/focus.yaml",
        ts(5, TODAY),
        ts(5, TODAY),
        rules_for_root("/bin/game", 1, 2),
    );

    let mut resolver = Resolver::new();
    let snapshot = compile(&cache, &mut resolver);
    assert_eq!(snapshot.today_per_user.len(), 1);
    let instructions = &snapshot.today_per_user[0].1;
    assert_eq!(instructions.processes.len(), 1);
    assert_eq!(instructions.processes[0].0.path, "/bin/game");
    assert_eq!(
        instructions.processes[0].1,
        vec![AcceptedInterval(Interval {
            start: TimeOfDay { hours: 1, minutes: 30 },
            end: TimeOfDay { hours: 2, minutes: 0 },
        })]
    );
}

#[test]
fn unknown_users_are_skipped() {
    let mut cache = Cache::new();
    let mut rules = rules_for_root("/bin/a", 9, 10);
    rules.push((
        Username("no_such_user_for_this_test".to_string()),
        DayConfig { processes: vec![], ip: vec![], web: vec![] },
    ));
    cache.upsert("/etc/focus.yaml", ts(1, TODAY), ts(1, TODAY), rules);
    let mut resolver = Resolver::new();
    let snapshot = compile(&cache, &mut resolver);
    // Only root could be resolved; the unknown user is skipped, not fatal.
    assert_eq!(snapshot.today_per_user.len(), 1);
    assert_eq!(snapshot.today_per_user[0].0, Uid(0));
}

#[test]
fn resolver_caches_answers() {
    let mut resolver = Resolver::new();
    let root = Username("root".to_string());
    let first = resolver.resolve(&root).expect("root exists");
    assert_eq!(first, Uid(0));
    let second = resolver.resolve(&root).expect("still cached");
    assert_eq!(second, Uid(0));
    assert!(resolver
        .resolve(&Username("no_such_user_for_this_test".to_string()))
        .is_err());
}

#[test]
fn recompile_conditions() {
    assert!(needs_recompile(true, TODAY, TODAY));
    assert!(needs_recompile(false, YESTERDAY, TODAY));
    assert!(!needs_recompile(false, TODAY, TODAY));
}

#[test]
fn upsert_keeps_creation_date() {
    let mut cache = Cache::new();
    cache.upsert("/etc/focus.yaml", ts(10, TODAY), ts(10, TODAY), vec![]);
    cache.upsert("/etc/focus.yaml", ts(20, TODAY), ts(99, TODAY), vec![]);
    assert_eq!(cache.entries.len(), 1);
    assert_eq!(cache.entries[0].1.latest_update.nanos, 20);
    // A rewritten file keeps its original creation date.
    assert_eq!(cache.entries[0].1.creation_date.nanos, 10);
}

#[test]
fn remove_reports_whether_anything_was_cached() {
    let mut cache = Cache::new();
    cache.upsert("/a", ts(1, TODAY), ts(1, TODAY), vec![]);
    assert!(cache.remove("/a"));
    assert!(!cache.remove("/a"));
    assert_eq!(cache.entries.len(), 0);
}

#[test]
fn equal_targets_accumulate_in_order() {
    // Two rules for the same binary within one file: the acceptance is
    // unioned in before that same diff's rejection is applied, and the
    // second diff's rejection carves into the first diff's acceptance.
    let mut cache = Cache::new();
    let rules = vec![(
        Username("root".to_string()),
        DayConfig {
            processes: vec![
                ProcessConfig {
                    binary: Binary::try_new("/bin/game").expect("valid glob"),
                    permitted: vec![Interval {
                        start: TimeOfDay { hours: 9, minutes: 0 },
                        end: TimeOfDay { hours: 12, minutes: 0 },
                    }],
                    forbidden: vec![],
                },
                ProcessConfig {
                    binary: Binary::try_new("/bin/game").expect("valid glob"),
                    permitted: vec![],
                    forbidden: vec![Interval {
                        start: TimeOfDay { hours: 10, minutes: 0 },
                        end: TimeOfDay { hours: 11, minutes: 0 },
                    }],
                },
            ],
            ip: vec![],
            web: vec![],
        },
    )];
    cache.upsert("/etc/focus.yaml", ts(1, TODAY), ts(1, TODAY), rules);
    let mut resolver = Resolver::new();
    let snapshot = compile(&cache, &mut resolver);
    assert_eq!(snapshot.today_per_user.len(), 1);
    let instructions = &snapshot.today_per_user[0].1;
    // One target, two diffs, folded into two remaining windows.
    assert_eq!(instructions.processes.len(), 1);
    assert_eq!(
        instructions.processes[0].1,
        vec![
            AcceptedInterval(Interval {
                start: TimeOfDay { hours: 9, minutes: 0 },
                end: TimeOfDay { hours: 10, minutes: 0 },
            }),
            AcceptedInterval(Interval {
                start: TimeOfDay { hours: 11, minutes: 0 },
                end: TimeOfDay { hours: 12, minutes: 0 },
            }),
        ]
    );
}

#[test]
fn empty_cache_compiles_to_empty_snapshot() {
    let cache = Cache::new();
    let mut resolver = Resolver::new();
    let snapshot = compile(&cache, &mut resolver);
    assert_eq!(snapshot.today_per_user.len(), 0);
}
