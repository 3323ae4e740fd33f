use std::collections::HashMap;

use embassy_visor::executor::ExecutorTraceInfo;
use embassy_visor::instance::TracingInstance;
use embassy_visor::stats::{TaskStats, Utilization};
use embassy_visor::task::{TaskTraceInfo, TaskTraceState};
use embassy_visor::time::{ComputerTime, EmbassyTime, TimePair};
use embassy_visor::trace_data::{TraceItem, TraceItemType};

const MS: u64 = 1000;

fn ev(us: u64, core: u32, data: TraceItemType) -> TraceItem {
    TraceItem::new(
        TimePair::new(EmbassyTime::from_micros(us), ComputerTime::new_from_micros(us)),
        core,
        data,
    )
}

fn ready(us: u64) -> TraceItem {
    ev(us, 0, TraceItemType::TaskReadyBegin { executor_id: 1, task_id: 42 })
}

fn begin(us: u64) -> TraceItem {
    ev(us, 0, TraceItemType::TaskExecBegin { executor_id: 1, task_id: 42 })
}

fn end(us: u64) -> TraceItem {
    ev(us, 0, TraceItemType::TaskExecEnd { executor_id: 1, task_id: 42 })
}

/// A task that waited 5 ms, 10 ms and 20 ms, and is idle from 100 ms on.
fn task_with_three_waits() -> TaskTraceInfo {
    let w = ComputerTime::from_s(30);
    let mut t = TaskTraceInfo::new(42, 1, 0, TimePair::new(EmbassyTime::from_micros(0), ComputerTime::new_from_micros(0)), &HashMap::new());
    t.update(&ready(0), w);
    t.update(&begin(5 * MS), w);
    t.update(&end(10 * MS), w);
    t.update(&ready(20 * MS), w);
    t.update(&begin(30 * MS), w);
    t.update(&end(35 * MS), w);
    t.update(&ready(50 * MS), w);
    t.update(&begin(70 * MS), w);
    t.update(&end(100 * MS), w);
    t
}

#[test]
fn waiting_time_statistics() {
    let t = task_with_three_waits();
    let now = ComputerTime::new_from_micros(200 * MS);
    let (min, mean, max, count) = t.calc_min_mean_max_count_waiting_time(now).unwrap();
    assert_eq!(min.as_micros(), 5 * MS);
    assert_eq!(max.as_micros(), 20 * MS);
    assert_eq!(mean.as_micros(), 11_666);
    assert_eq!(count, 3);
}

#[test]
fn short_ongoing_wait_leaves_count_and_mean() {
    let mut t = task_with_three_waits();
    t.update(&ready(200 * MS), ComputerTime::from_s(30));
    let (min, mean, max, count) = t
        .calc_min_mean_max_count_waiting_time(ComputerTime::new_from_micros(203 * MS))
        .unwrap();
    assert_eq!(min.as_micros(), 5 * MS);
    assert_eq!(mean.as_micros(), 11_666);
    assert_eq!(max.as_micros(), 20 * MS);
    assert_eq!(count, 3);
}

#[test]
fn long_ongoing_wait_raises_max() {
    let mut t = task_with_three_waits();
    t.update(&ready(200 * MS), ComputerTime::from_s(30));
    let (min, mean, max, count) = t
        .calc_min_mean_max_count_waiting_time(ComputerTime::new_from_micros(225 * MS))
        .unwrap();
    assert_eq!(min.as_micros(), 5 * MS);
    assert_eq!(max.as_micros(), 25 * MS);
    assert_eq!(count, 4);
    assert_eq!(mean.as_micros(), 15 * MS);
}

#[test]
fn no_recorded_wait_gives_no_statistics() {
    let mut t = TaskTraceInfo::new(42, 1, 0, TimePair::new(EmbassyTime::from_micros(0), ComputerTime::new_from_micros(0)), &HashMap::new());
    assert!(t.calc_min_mean_max_count_waiting_time(ComputerTime::new_from_micros(10)).is_none());
    t.update(&ready(0), ComputerTime::from_s(30));
    // an ongoing first wait is not counted
    assert!(t.calc_min_mean_max_count_waiting_time(ComputerTime::new_from_micros(10 * MS)).is_none());
}

#[test]
fn task_time_totals() {
    let t = task_with_three_waits();
    let now = ComputerTime::new_from_micros(200 * MS);
    // from the first recorded start (0) until now
    assert_eq!(t.calc_total_history_duration(now).as_micros(), 200 * MS);
    // running: 5 + 5 + 30 ms
    assert_eq!(
        t.calc_total_history_state_duration(TaskTraceState::Running, now).as_micros(),
        40 * MS
    );
    // idle: 10 + 15 ms recorded, plus 100 ms ongoing
    assert_eq!(
        t.calc_total_history_state_duration(TaskTraceState::Idle, now).as_micros(),
        125 * MS
    );
    let s = TaskStats::from_task(&t, now);
    assert_eq!(s.name, "Task 0x2A");
    assert_eq!(s.cpu_utilization.active_micros, 40 * MS);
    assert_eq!(s.cpu_utilization.total_micros, 200 * MS);
    assert_eq!(s.cpu_utilization.percent_hundredths(), 2000);
    assert_eq!(s.count_waiting_time, 3);
    assert_eq!(s.avg_waiting_time.as_micros(), 11_666);
}

#[test]
fn history_entry_duration() {
    let t = task_with_three_waits();
    let h = t.get_history();
    assert_eq!(h[1].state, TaskTraceState::Waiting);
    assert_eq!(h[1].get_uc_duration().as_micros(), 5 * MS);
}

#[test]
fn utilization_percentages() {
    let zero = Utilization { active_micros: 0, total_micros: 0 };
    assert_eq!(zero.percent_hundredths(), 0);
    let half = Utilization { active_micros: 50, total_micros: 100 };
    assert_eq!(half.percent_hundredths(), 5000);
    let third = Utilization { active_micros: 1, total_micros: 3 };
    assert_eq!(third.percent_hundredths(), 3333);
    let over = Utilization { active_micros: 7, total_micros: 5 };
    assert_eq!(over.percent_hundredths(), 10000);
    let big = Utilization { active_micros: u64::MAX - 1, total_micros: u64::MAX };
    assert_eq!(big.percent_hundredths(), 9999);
}

#[test]
fn executor_utilization_counts_scheduling_and_polling() {
    let names = HashMap::new();
    let w = ComputerTime::from_s(30);
    let mut a = ExecutorTraceInfo::new(1, 0, TimePair::new(EmbassyTime::from_micros(0), ComputerTime::new_from_micros(0)), &names);
    // nothing tracked yet
    let u = a.calculate_cpu_utilization(ComputerTime::new_from_micros(0));
    assert_eq!(u.total_micros, 0);
    assert_eq!(u.percent_hundredths(), 0);
    a.update(&ev(100, 0, TraceItemType::ExecutorPollStart { executor_id: 1 }), w, &names);
    a.update(&ev(150, 0, TraceItemType::TaskExecBegin { executor_id: 1, task_id: 3 }), w, &names);
    a.update(&ev(200, 0, TraceItemType::TaskExecEnd { executor_id: 1, task_id: 3 }), w, &names);
    a.update(&ev(300, 0, TraceItemType::ExecutorIdle { executor_id: 1 }), w, &names);
    let u = a.calculate_cpu_utilization(ComputerTime::new_from_micros(400));
    assert_eq!(u.active_micros, 200);
    assert_eq!(u.total_micros, 400);
    assert_eq!(u.percent_hundredths(), 5000);
}

#[test]
fn instance_statistics_group_by_core() {
    let mut instance = TracingInstance::new(HashMap::new());
    let stats = instance.get_stats(ComputerTime::new_from_micros(0));
    assert!(stats.core_stats.is_empty());
    assert_eq!(stats.tasks_count, 0);
    assert_eq!(stats.executor_count, 0);

    instance.update(&ev(10, 1, TraceItemType::ExecutorPollStart { executor_id: 7 }));
    instance.update(&ev(20, 0, TraceItemType::TaskNew { executor_id: 5, task_id: 1 }));
    instance.update(&ev(30, 1, TraceItemType::TaskNew { executor_id: 8, task_id: 2 }));
    instance.update(&ev(40, 1, TraceItemType::TaskNew { executor_id: 8, task_id: 3 }));
    let stats = instance.get_stats(ComputerTime::new_from_micros(110));
    assert_eq!(stats.executor_count, 3);
    assert_eq!(stats.tasks_count, 3);
    assert_eq!(stats.core_stats.len(), 2);
    assert_eq!(stats.core_stats[0].core_id, 0);
    assert_eq!(stats.core_stats[0].executors.len(), 1);
    assert_eq!(stats.core_stats[0].executors[0].name, "Executor 0x5");
    assert_eq!(stats.core_stats[1].core_id, 1);
    assert_eq!(stats.core_stats[1].executors.len(), 2);
    assert_eq!(stats.core_stats[1].executors[0].name, "Executor 0x7");
    assert_eq!(stats.core_stats[1].executors[1].tasks.len(), 2);
    // executor 7 has been scheduling since 10 us: 100 of 110 us
    assert_eq!(stats.core_stats[1].executors[0].cpu_utilization.active_micros, 100);
    let e7 = stats.core_stats[1].executors[0].cpu_utilization.percent_hundredths() as u64;
    let e8 = stats.core_stats[1].executors[1].cpu_utilization.percent_hundredths() as u64;
    assert_eq!(stats.core_stats[1].cpu_utilization_hundredths, e7 + e8);
    assert!(stats.core_stats[1].cpu_utilization_hundredths > 0);
}
