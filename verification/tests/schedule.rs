use traccar::json::{JsonDocument, JsonEntry, JsonKind};
use traccar::schedule::{
    active_devices_request, active_users_request, inactive_devices_request, inactive_events,
    statistics_record, Condition, ConditionValue, DeviceInactiveTask, HealthCheckTask, Period,
    ScheduleError, ScheduleManager, ScheduledTask, StatisticsTask,
};

#[test]
fn schedule_manager_keeps_order() {
    let mut m: ScheduleManager<Period> = ScheduleManager::new();
    m.add_task(Period::from_secs(1));
    m.add_task(Period::from_secs(2));
    assert_eq!(m.into_tasks(), vec![Period::from_secs(1), Period::from_secs(2)]);
}

#[test]
fn schedule_task_names_and_intervals() {
    assert_eq!(HealthCheckTask::new().name(), "health_check");
    assert_eq!(HealthCheckTask::new().interval(), Period { secs: 60, nanos: 0 });
    assert_eq!(StatisticsTask::new().name(), "statistics");
    assert_eq!(StatisticsTask::new().interval(), Period { secs: 3600, nanos: 0 });
    let t = DeviceInactiveTask::new();
    assert_eq!(t.name(), "device_inactive");
    assert_eq!(t.interval(), Period { secs: 300, nanos: 0 });
    assert_eq!(t.inactive_threshold, Period { secs: 3600, nanos: 0 });
}

#[test]
fn schedule_inactive_cutoff() {
    let t = DeviceInactiveTask::new().with_threshold(Period::from_secs(120));
    assert_eq!(t.cutoff_delta(), Period { secs: 120, nanos: 0 });
    let edge = Period { secs: 9_223_372_036_854_775, nanos: 807_000_000 };
    assert_eq!(DeviceInactiveTask::new().with_threshold(edge).cutoff_delta(), edge);
    let over = Period { secs: 9_223_372_036_854_775, nanos: 807_000_001 };
    assert_eq!(DeviceInactiveTask::new().with_threshold(over).cutoff_delta(), Period::from_secs(3600));
}

#[test]
fn schedule_statistics_counts() {
    let r = statistics_record(Some(3), None, "t".to_string());
    assert_eq!(r.active_devices, 3);
    assert_eq!(r.active_users, 0);
    assert_eq!(r.capture_time, "t");
    let wrapped = statistics_record(Some(1usize << 31), Some(5), "t".to_string());
    assert_eq!(wrapped.active_devices, i32::MIN);
}

#[test]
fn schedule_requests() {
    let d = active_devices_request();
    assert_eq!(d.table, "tc_devices");
    assert_eq!(d.columns, vec!["id".to_string()]);
    assert!(matches!(&d.condition, Condition::Equals(k, ConditionValue::Text(v)) if k == "status" && v == "online"));
    let u = active_users_request();
    assert_eq!(u.table, "tc_users");
    assert!(matches!(&u.condition, Condition::Equals(k, ConditionValue::Flag(false)) if k == "disabled"));
    let i = inactive_devices_request("2024-01-01T00:00:00+00:00".to_string());
    assert_eq!(i.columns, vec!["id".to_string(), "name".to_string(), "lastUpdate".to_string()]);
    match &i.condition {
        Condition::And(a, b) => {
            assert!(matches!(&**a, Condition::Equals(k, _) if k == "status"));
            assert!(matches!(&**b, Condition::LessThan(k, ConditionValue::Text(v)) if k == "lastUpdate" && v == "2024-01-01T00:00:00+00:00"));
        }
        _ => panic!("expected a conjunction"),
    }
}

#[test]
fn schedule_inactive_events() {
    let rows = vec![
        JsonDocument {
            entries: vec![JsonEntry { path: vec!["id".to_string()], kind: JsonKind::Number("17".to_string()) }],
        },
        JsonDocument { entries: vec![JsonEntry { path: vec!["id".to_string()], kind: JsonKind::Str("17".to_string()) }] },
    ];
    let events = inactive_events(&rows, &"now".to_string());
    assert_eq!(events.len(), 2);
    assert_eq!(events[0].device_id, 17);
    assert_eq!(events[1].device_id, 0);
    assert_eq!(events[1].event_time, "now");
}

#[test]
fn schedule_error_messages() {
    assert_eq!(ScheduleError::Task("x".to_string()).message(), "Task error: x");
    assert_eq!(ScheduleError::Storage("db".to_string()).message(), "Storage error: db");
}

#[test]
fn schedule_cutoff_any_threshold() {
    let odd = Period { secs: 1, nanos: 2_000_000_000 };
    assert_eq!(DeviceInactiveTask::new().with_threshold(odd).cutoff_delta(), odd);
    let huge = Period { secs: u64::MAX, nanos: 0 };
    assert_eq!(DeviceInactiveTask::new().with_threshold(huge).cutoff_delta(), Period::from_secs(3600));
}
