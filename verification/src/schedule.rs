//! Periodic background tasks: their names and periods, the manager that
//! holds them, and what the statistics and inactive-device tasks query and
//! record.

use vstd::prelude::*;

use crate::json::{as_i64, json_at, json_i64, JsonDocument};
use crate::registry::command_names;
use crate::text::{push_str, string_from_str};

verus! {

/// A failure of a scheduled task.
#[derive(Debug, Clone, PartialEq)]
pub enum ScheduleError {
    Task(String),
    Storage(String),
}

pub open spec fn schedule_error_text(e: ScheduleError) -> Seq<char> {
    match e {
        ScheduleError::Task(m) => "Task error: "@ + m@,
        ScheduleError::Storage(m) => "Storage error: "@ + m@,
    }
}

impl ScheduleError {
    /// The error's message.
    pub fn message(&self) -> (s: String)
        ensures
            s@ == schedule_error_text(*self),
    {
        match self {
            ScheduleError::Task(m) => {
                let mut s = string_from_str("Task error: ");
                push_str(&mut s, m.as_str());
                s
            },
            ScheduleError::Storage(m) => {
                let mut s = string_from_str("Storage error: ");
                push_str(&mut s, m.as_str());
                s
            },
        }
    }
}

/// A span of time: whole seconds and the nanoseconds beyond them.
#[derive(Debug, Clone, Copy, PartialEq, Eq, Structural)]
pub struct Period {
    pub secs: u64,
    pub nanos: u32,
}

pub open spec fn period_nanos(p: Period) -> int {
    p.secs * 1_000_000_000 + p.nanos
}

impl Period {
    pub fn from_secs(secs: u64) -> (p: Period)
        ensures
            p.secs == secs,
            p.nanos == 0,
    {
        Period { secs, nanos: 0 }
    }
}

/// A task that runs periodically.
pub trait ScheduledTask {
    /// The task's name, for logs.
    fn name(&self) -> &str;

    /// How often the task runs.
    fn interval(&self) -> Period;
}

/// The tasks to run, in the order they were added.
pub struct ScheduleManager<T> {
    tasks: Vec<T>,
}

impl<T> ScheduleManager<T> {
    pub closed spec fn tasks_view(&self) -> Seq<T> {
        self.tasks@
    }

    pub fn new() -> (m: Self)
        ensures
            m.tasks_view() == Seq::<T>::empty(),
    {
        ScheduleManager { tasks: Vec::new() }
    }

    pub fn add_task(&mut self, task: T)
        ensures
            final(self).tasks_view() == old(self).tasks_view().push(task),
    {
        self.tasks.push(task);
    }

    /// The tasks, to be started.
    pub fn into_tasks(self) -> (v: Vec<T>)
        ensures
            v@ == self.tasks_view(),
    {
        self.tasks
    }
}

impl<T> Default for ScheduleManager<T> {
    fn default() -> (m: Self)
        ensures
            m.tasks_view() == Seq::<T>::empty(),
    {
        ScheduleManager::new()
    }
}

/// A periodic health check; it only reports that the server is alive.
#[derive(Debug, Clone, Copy, PartialEq, Eq, Structural)]
pub struct HealthCheckTask;

impl HealthCheckTask {
    pub fn new() -> (t: HealthCheckTask) {
        HealthCheckTask
    }
}

impl Default for HealthCheckTask {
    fn default() -> (t: HealthCheckTask) {
        HealthCheckTask::new()
    }
}

impl ScheduledTask for HealthCheckTask {
    fn name(&self) -> (s: &str)
        ensures
            s@ == "health_check"@,
    {
        "health_check"
    }

    fn interval(&self) -> (p: Period)
        ensures
            p == (Period { secs: 60, nanos: 0 }),
    {
        Period::from_secs(60)
    }
}

/// The hourly collection of server statistics.
#[derive(Debug, Clone, Copy, PartialEq, Eq, Structural)]
pub struct StatisticsTask;

impl StatisticsTask {
    pub fn new() -> (t: StatisticsTask) {
        StatisticsTask
    }
}

impl ScheduledTask for StatisticsTask {
    fn name(&self) -> (s: &str)
        ensures
            s@ == "statistics"@,
    {
        "statistics"
    }

    fn interval(&self) -> (p: Period)
        ensures
            p == (Period { secs: 3600, nanos: 0 }),
    {
        Period::from_secs(3600)
    }
}

/// The check, every five minutes, for online devices that stopped
/// reporting.
#[derive(Debug, Clone, Copy, PartialEq, Eq, Structural)]
pub struct DeviceInactiveTask {
    pub inactive_threshold: Period,
}

/// The longest span that `chrono::TimeDelta::from_std` accepts:
/// `i64::MAX` milliseconds.
pub open spec fn fits_time_delta(p: Period) -> bool {
    period_nanos(p) <= 9_223_372_036_854_775_807 * 1_000_000
}

impl DeviceInactiveTask {
    /// A task with the default threshold of one hour.
    pub fn new() -> (t: DeviceInactiveTask)
        ensures
            t.inactive_threshold == (Period { secs: 3600, nanos: 0 }),
    {
        DeviceInactiveTask { inactive_threshold: Period::from_secs(3600) }
    }

    pub fn with_threshold(self, threshold: Period) -> (t: DeviceInactiveTask)
        ensures
            t.inactive_threshold == threshold,
    {
        DeviceInactiveTask { inactive_threshold: threshold }
    }

    /// How far before now a device's last update must lie for it to count
    /// as inactive: the threshold, or one hour where the threshold is too
    /// long for a time delta.
    pub fn cutoff_delta(&self) -> (p: Period)
        ensures
            p == if fits_time_delta(self.inactive_threshold) {
                self.inactive_threshold
            } else {
                Period { secs: 3600, nanos: 0 }
            },
    {
        let t = self.inactive_threshold;
        let total: u128 = (t.secs as u128) * 1_000_000_000 + (t.nanos as u128);
        if total <= 9_223_372_036_854_775_807_000_000u128 {
            t
        } else {
            Period::from_secs(3600)
        }
    }
}

impl ScheduledTask for DeviceInactiveTask {
    fn name(&self) -> (s: &str)
        ensures
            s@ == "device_inactive"@,
    {
        "device_inactive"
    }

    fn interval(&self) -> (p: Period)
        ensures
            p == (Period { secs: 300, nanos: 0 }),
    {
        Period::from_secs(300)
    }
}

/// A value that a storage condition compares a column with.
#[derive(Debug, Clone, PartialEq)]
pub enum ConditionValue {
    Text(String),
    Flag(bool),
}

/// A filter on the rows of a storage table.
#[derive(Debug)]
pub enum Condition {
    Equals(String, ConditionValue),
    LessThan(String, ConditionValue),
    And(Box<Condition>, Box<Condition>),
}

/// A query for rows of a table: the columns to read and the filter.
#[derive(Debug)]
pub struct StorageRequest {
    pub table: String,
    pub columns: Vec<String>,
    pub condition: Condition,
}

pub open spec fn strings_view(v: Seq<String>) -> Seq<Seq<char>> {
    v.map_values(|s: String| s@)
}

/// The condition `column == text`.
pub open spec fn equals_text(c: Condition, column: Seq<char>, text: Seq<char>) -> bool {
    c matches Condition::Equals(k, ConditionValue::Text(v)) && k@ == column && v@ == text
}

/// The devices that are online: their ids, from `tc_devices`.
pub fn active_devices_request() -> (r: StorageRequest)
    ensures
        r.table@ == "tc_devices"@,
        strings_view(r.columns@) == seq!["id"@],
        equals_text(r.condition, "status"@, "online"@),
{
    let names = vec!["id"];
    let cols = command_names(&names);
    assert(strings_view(cols@) =~= seq!["id"@]);
    StorageRequest {
        table: string_from_str("tc_devices"),
        columns: cols,
        condition: Condition::Equals(
            string_from_str("status"),
            ConditionValue::Text(string_from_str("online")),
        ),
    }
}

/// The users that are not disabled: their ids, from `tc_users`.
pub fn active_users_request() -> (r: StorageRequest)
    ensures
        r.table@ == "tc_users"@,
        strings_view(r.columns@) == seq!["id"@],
        r.condition matches Condition::Equals(k, ConditionValue::Flag(false)) && k@ == "disabled"@,
{
    let names = vec!["id"];
    let cols = command_names(&names);
    assert(strings_view(cols@) =~= seq!["id"@]);
    StorageRequest {
        table: string_from_str("tc_users"),
        columns: cols,
        condition: Condition::Equals(string_from_str("disabled"), ConditionValue::Flag(false)),
    }
}

/// The online devices whose last update came before the cutoff (an RFC 3339
/// time): their id, name and last update, from `tc_devices`.
pub fn inactive_devices_request(cutoff: String) -> (r: StorageRequest)
    ensures
        r.table@ == "tc_devices"@,
        strings_view(r.columns@) == seq!["id"@, "name"@, "lastUpdate"@],
        r.condition matches Condition::And(a, b) && equals_text(*a, "status"@, "online"@) && (*b
            matches Condition::LessThan(k, ConditionValue::Text(v)) && k@ == "lastUpdate"@ && v@
            == cutoff@),
{
    let names = vec!["id", "name", "lastUpdate"];
    let cols = command_names(&names);
    assert(strings_view(cols@) =~= seq!["id"@, "name"@, "lastUpdate"@]);
    StorageRequest {
        table: string_from_str("tc_devices"),
        columns: cols,
        condition: Condition::And(
            Box::new(
                Condition::Equals(
                    string_from_str("status"),
                    ConditionValue::Text(string_from_str("online")),
                ),
            ),
            Box::new(Condition::LessThan(string_from_str("lastUpdate"), ConditionValue::Text(cutoff))),
        ),
    }
}

/// A row count as the statistics record it: the count of rows read, cut to
/// 32 bits as `as i32` does; 0 where the query failed.
pub open spec fn row_count(rows: Option<usize>) -> i32 {
    match rows {
        Some(n) => n as i32,
        None => 0,
    }
}

/// One statistics record: when it was taken, and how many devices and users
/// were active.
#[derive(Debug, Clone, PartialEq)]
pub struct StatisticsRecord {
    pub capture_time: String,
    pub active_devices: i32,
    pub active_users: i32,
}

/// The record made from the row counts of the two queries (none where a
/// query failed).
pub fn statistics_record(devices: Option<usize>, users: Option<usize>, capture_time: String) -> (r:
    StatisticsRecord)
    ensures
        r.capture_time == capture_time,
        r.active_devices == row_count(devices),
        r.active_users == row_count(users),
{
    let active_devices: i32 = match devices {
        Some(n) => n as i32,
        None => 0,
    };
    let active_users: i32 = match users {
        Some(n) => n as i32,
        None => 0,
    };
    StatisticsRecord { capture_time, active_devices, active_users }
}

/// An event recording that a device went inactive.
#[derive(Debug, Clone, PartialEq)]
pub struct InactiveEvent {
    pub device_id: i64,
    pub event_time: String,
}

/// The id of a device row: its `id` when that is an integer, otherwise 0.
pub open spec fn row_id(row: JsonDocument) -> i64 {
    match json_i64(json_at(row.entries@, seq!["id"@])) {
        Some(v) => v,
        None => 0,
    }
}

/// The event type that inactive-device events carry.
pub const INACTIVE_EVENT_TYPE: &'static str = "deviceInactive";

/// One inactive-device event per device row, in order, each at the given
/// time.
pub fn inactive_events(devices: &Vec<JsonDocument>, event_time: &String) -> (r: Vec<InactiveEvent>)
    ensures
        r@.len() == devices@.len(),
        forall|i: int|
            0 <= i < r@.len() ==> r@[i].device_id == row_id(devices@[i]) && r@[i].event_time@
                == event_time@,
{
    let mut r: Vec<InactiveEvent> = Vec::new();
    let mut i: usize = 0;
    while i < devices.len()
        invariant
            i <= devices@.len(),
            r@.len() == i,
            forall|k: int|
                0 <= k < i ==> r@[k].device_id == row_id(devices@[k]) && r@[k].event_time@
                    == event_time@,
        decreases devices.len() - i,
    {
        let path = vec!["id"];
        assert(path@.map_values(|s: &str| s@) =~= seq!["id"@]);
        let id = match as_i64(devices[i].at(&path)) {
            Some(v) => v,
            None => 0,
        };
        let t = string_from_str(event_time.as_str());
        r.push(InactiveEvent { device_id: id, event_time: t });
        i = i + 1;
    }
    r
}

} // verus!
