use keep_it_focused::interval::Interval;
use keep_it_focused::schedule::{
    resolve_week, Binary, ConfigError, DayConfig, DayEntry, ProcessConfig,
};
use keep_it_focused::types::{DayOfWeek, TimeOfDay};

fn lesson_rules() -> DayConfig {
    DayConfig {
        processes: vec![ProcessConfig {
            binary: Binary::try_new("/bin/test").expect("valid glob"),
            permitted: vec![Interval {
                start: TimeOfDay { hours: 9, minutes: 11 },
                end: TimeOfDay { hours: 9, minutes: 23 },
            }],
            forbidden: vec![],
        }],
        ip: vec![],
        web: vec![],
    }
}

fn entry_of(config: DayConfig) -> DayEntry {
    DayEntry::Instructions { config }
}

#[test]
fn week_copies_resolve_to_their_source() {
    let monday = DayOfWeek::parse("monday").expect("day");
    let wednesday_name = DayOfWeek::parse("WEDanythinggoes").expect("arbitrary-cased day");
    assert_eq!(wednesday_name, DayOfWeek::wednesday());

    let mut entries: Vec<Option<DayEntry>> = vec![None, None, None, None, None, None, None];
    entries[0] = Some(entry_of(lesson_rules()));
    entries[1] = Some(DayEntry::Copy { like: monday });
    entries[2] = Some(DayEntry::Copy { like: monday });

    let week = resolve_week(entries).expect("no cycle");
    let resolved_monday = week.0[0].as_ref().expect("monday resolved");
    let resolved_tuesday = week.0[1].as_ref().expect("tuesday resolved");
    let resolved_wednesday = week.0[2].as_ref().expect("wednesday resolved");

    assert_eq!(resolved_monday.processes.len(), 1);
    assert_eq!(resolved_monday.processes[0].binary.path, "/bin/test");
    assert_eq!(resolved_monday.processes[0].permitted.len(), 1);
    assert_eq!(
        resolved_monday.processes[0].permitted[0].start,
        TimeOfDay { hours: 9, minutes: 11 }
    );
    for resolved in [resolved_tuesday, resolved_wednesday] {
        assert_eq!(resolved.processes.len(), 1);
        assert_eq!(resolved.processes[0].binary.path, "/bin/test");
        assert_eq!(
            resolved.processes[0].permitted,
            resolved_monday.processes[0].permitted
        );
    }
    for day in 3..7 {
        assert!(week.0[day].is_none());
    }
}

#[test]
fn chained_copies_resolve() {
    // Sunday copies Saturday copies ... copies Monday: the longest chain
    // the seven passes must flatten.
    let mut entries: Vec<Option<DayEntry>> = vec![None, None, None, None, None, None, None];
    entries[0] = Some(entry_of(lesson_rules()));
    for day in 1..7u8 {
        entries[day as usize] = Some(DayEntry::Copy {
            like: DayOfWeek::from_index(day - 1).expect("valid day"),
        });
    }
    let week = resolve_week(entries).expect("no cycle");
    for day in 0..7 {
        let resolved = week.0[day].as_ref().expect("resolved");
        assert_eq!(resolved.processes.len(), 1);
        assert_eq!(resolved.processes[0].binary.path, "/bin/test");
    }
}

#[test]
fn copy_cycle_is_rejected() {
    let mut entries: Vec<Option<DayEntry>> = vec![None, None, None, None, None, None, None];
    entries[0] = Some(DayEntry::Copy { like: DayOfWeek::tuesday() });
    entries[1] = Some(DayEntry::Copy { like: DayOfWeek::monday() });
    assert!(matches!(resolve_week(entries), Err(ConfigError::DayCycle)));
}

#[test]
fn copy_of_absent_day_is_rejected() {
    let mut entries: Vec<Option<DayEntry>> = vec![None, None, None, None, None, None, None];
    entries[3] = Some(DayEntry::Copy { like: DayOfWeek::monday() });
    assert!(matches!(resolve_week(entries), Err(ConfigError::DayCycle)));
}

#[test]
fn glob_validation() {
    let ok = Binary::try_new("/**/snap/test/**").expect("valid glob");
    assert_eq!(ok.path, "/**/snap/test/**");
    assert_eq!(Binary::try_new("/bin/tes[t"), Err(ConfigError::InvalidGlob));
}
