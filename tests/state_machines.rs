use std::collections::HashMap;

use embassy_visor::executor::{ExecutorState, ExecutorTraceInfo, PreemptedPrevState};
use embassy_visor::instance::TracingInstance;
use embassy_visor::task::{TaskTraceInfo, TaskTraceState};
use embassy_visor::time::{ComputerTime, EmbassyTime, TimePair};
use embassy_visor::trace_data::{TraceItem, TraceItemType};

fn at(uc_us: u64, pc_us: u64) -> TimePair {
    TimePair::new(EmbassyTime::from_micros(uc_us), ComputerTime::new_from_micros(pc_us))
}

fn ev(uc_us: u64, core: u32, data: TraceItemType) -> TraceItem {
    TraceItem::new(at(uc_us, uc_us), core, data)
}

fn window() -> ComputerTime {
    ComputerTime::from_s(30)
}

#[test]
fn task_and_executor_lifecycle() {
    let names = HashMap::new();
    let mut instance = TracingInstance::new(names);
    let events = [
        ev(10, 0, TraceItemType::TaskNew { executor_id: 1, task_id: 42 }),
        ev(20, 0, TraceItemType::TaskReadyBegin { executor_id: 1, task_id: 42 }),
        ev(30, 0, TraceItemType::ExecutorPollStart { executor_id: 1 }),
        ev(40, 0, TraceItemType::TaskExecBegin { executor_id: 1, task_id: 42 }),
        ev(50, 0, TraceItemType::TaskExecEnd { executor_id: 1, task_id: 42 }),
    ];
    let mut task_states = Vec::new();
    let mut executor_states = Vec::new();
    for e in events.iter() {
        instance.update(e);
        let exec = &instance.get_executors()[0];
        let task = exec.find_task_by_id(42).unwrap();
        if task_states.last() != Some(task.get_state()) {
            task_states.push(*task.get_state());
        }
        if executor_states.last() != Some(exec.get_state()) {
            executor_states.push(*exec.get_state());
        }
    }
    assert_eq!(
        task_states,
        vec![
            TaskTraceState::Spawned,
            TaskTraceState::Waiting,
            TaskTraceState::Running,
            TaskTraceState::Idle
        ]
    );
    assert_eq!(
        executor_states,
        vec![
            ExecutorState::Idle,
            ExecutorState::Scheduling,
            ExecutorState::Polling,
            ExecutorState::Scheduling
        ]
    );
    let exec = &instance.get_executors()[0];
    assert_eq!(exec.count_tasks(), 1);
    assert_eq!(exec.get_history().len(), 3);
    let task = exec.find_task_by_id(42).unwrap();
    assert_eq!(task.get_history().len(), 3);
    assert_eq!(task.get_created_at(), at(10, 10));
    assert!(exec.find_task_by_id(43).is_none());
}

#[test]
fn executor_preemption_and_resume() {
    let names = HashMap::new();
    let mut a = ExecutorTraceInfo::new(1, 0, at(0, 0), &names);
    let w = window();
    a.update(&ev(10, 0, TraceItemType::ExecutorPollStart { executor_id: 1 }), w, &names);
    a.update(&ev(20, 0, TraceItemType::TaskExecBegin { executor_id: 1, task_id: 5 }), w, &names);
    assert_eq!(*a.get_state(), ExecutorState::Polling);

    a.update(&ev(30, 0, TraceItemType::ExecutorPollStart { executor_id: 2 }), w, &names);
    assert_eq!(
        *a.get_state(),
        ExecutorState::Preempted {
            by_executor_id: 2,
            prev_state: PreemptedPrevState::Polling
        }
    );
    // an unrelated executor going idle changes nothing
    a.update(&ev(35, 0, TraceItemType::ExecutorIdle { executor_id: 3 }), w, &names);
    assert_eq!(
        *a.get_state(),
        ExecutorState::Preempted {
            by_executor_id: 2,
            prev_state: PreemptedPrevState::Polling
        }
    );
    a.update(&ev(40, 0, TraceItemType::ExecutorIdle { executor_id: 2 }), w, &names);
    assert_eq!(*a.get_state(), ExecutorState::Polling);
    assert_eq!(a.get_state_start_time(), at(40, 40));
}

#[test]
fn poll_start_on_other_core_does_not_preempt() {
    let names = HashMap::new();
    let mut a = ExecutorTraceInfo::new(1, 0, at(0, 0), &names);
    let w = window();
    a.update(&ev(10, 0, TraceItemType::ExecutorPollStart { executor_id: 1 }), w, &names);
    a.update(&ev(20, 1, TraceItemType::ExecutorPollStart { executor_id: 2 }), w, &names);
    assert_eq!(*a.get_state(), ExecutorState::Scheduling);
    a.update(&ev(30, 0, TraceItemType::ExecutorIdle { executor_id: 1 }), w, &names);
    assert_eq!(*a.get_state(), ExecutorState::Idle);
}

#[test]
fn task_preempted_by_other_executor_on_same_core() {
    let names = HashMap::new();
    let mut t = TaskTraceInfo::new(42, 1, 0, at(0, 0), &names);
    let w = window();
    t.update(&ev(10, 0, TraceItemType::TaskReadyBegin { executor_id: 1, task_id: 42 }), w);
    t.update(&ev(20, 0, TraceItemType::TaskExecBegin { executor_id: 1, task_id: 42 }), w);
    assert_eq!(*t.get_state(), TaskTraceState::Running);
    t.update(&ev(30, 0, TraceItemType::ExecutorPollStart { executor_id: 7 }), w);
    assert_eq!(*t.get_state(), TaskTraceState::Preempted { by_executor_id: 7 });
    t.update(&ev(35, 0, TraceItemType::ExecutorIdle { executor_id: 8 }), w);
    assert_eq!(*t.get_state(), TaskTraceState::Preempted { by_executor_id: 7 });
    t.update(&ev(40, 0, TraceItemType::ExecutorIdle { executor_id: 7 }), w);
    assert_eq!(*t.get_state(), TaskTraceState::Running);
    t.update(&ev(50, 0, TraceItemType::TaskEnd { executor_id: 1, task_id: 42 }), w);
    assert_eq!(*t.get_state(), TaskTraceState::Ended);
    // no way out of Ended
    t.update(&ev(60, 0, TraceItemType::TaskReadyBegin { executor_id: 1, task_id: 42 }), w);
    assert_eq!(*t.get_state(), TaskTraceState::Ended);
}

#[test]
fn task_ignores_events_of_other_tasks() {
    let names = HashMap::new();
    let mut t = TaskTraceInfo::new(42, 1, 0, at(0, 0), &names);
    let w = window();
    t.update(&ev(10, 0, TraceItemType::TaskReadyBegin { executor_id: 1, task_id: 43 }), w);
    t.update(&ev(10, 0, TraceItemType::TaskReadyBegin { executor_id: 2, task_id: 42 }), w);
    assert_eq!(*t.get_state(), TaskTraceState::Spawned);
    assert_eq!(t.get_history().len(), 0);
}

#[test]
fn state_start_follows_last_history_entry() {
    let names = HashMap::new();
    let mut t = TaskTraceInfo::new(42, 1, 0, at(5, 5), &names);
    assert_eq!(t.get_state_start_time(), t.get_created_at());
    let w = window();
    let kinds = [
        TraceItemType::TaskReadyBegin { executor_id: 1, task_id: 42 },
        TraceItemType::TaskExecBegin { executor_id: 1, task_id: 42 },
        TraceItemType::TaskReadyBegin { executor_id: 1, task_id: 42 },
        TraceItemType::TaskExecBegin { executor_id: 1, task_id: 42 },
        TraceItemType::TaskExecEnd { executor_id: 1, task_id: 42 },
    ];
    for (i, k) in kinds.iter().enumerate() {
        t.update(&ev(10 * (i as u64 + 1), 0, *k), w);
        let h = t.get_history();
        assert_eq!(t.get_state_start_time(), h[h.len() - 1].end_time);
        for j in 1..h.len() {
            assert_eq!(h[j - 1].end_time, h[j].start_time);
        }
    }
}

#[test]
fn history_window_evicts_old_entries() {
    let names = HashMap::new();
    let mut t = TaskTraceInfo::new(42, 1, 0, at(0, 0), &names);
    let w = ComputerTime::from_s(1);
    let s = 1_000_000;
    t.update(&ev(s / 10, 0, TraceItemType::TaskReadyBegin { executor_id: 1, task_id: 42 }), w);
    t.update(&ev(2 * s / 10, 0, TraceItemType::TaskExecBegin { executor_id: 1, task_id: 42 }), w);
    t.update(&ev(3 * s / 10, 0, TraceItemType::TaskExecEnd { executor_id: 1, task_id: 42 }), w);
    assert_eq!(t.get_history().len(), 3);
    // 2.5 s later: everything that ended before 1.8 s is gone
    t.update(&ev(28 * s / 10, 0, TraceItemType::TaskReadyBegin { executor_id: 1, task_id: 42 }), w);
    let h = t.get_history();
    assert_eq!(h.len(), 1);
    assert_eq!(h[0].state, TaskTraceState::Idle);
    for e in h.iter() {
        assert!(28 * s / 10 - e.end_time.get_pc_timestamp().as_micros() <= s);
    }
}

#[test]
fn executor_history_window_evicts_old_entries() {
    let names = HashMap::new();
    let mut a = ExecutorTraceInfo::new(1, 0, at(0, 0), &names);
    let w = ComputerTime::from_s(1);
    a.update(&ev(100, 0, TraceItemType::ExecutorPollStart { executor_id: 1 }), w, &names);
    a.update(&ev(200, 0, TraceItemType::ExecutorIdle { executor_id: 1 }), w, &names);
    assert_eq!(a.get_history().len(), 2);
    a.update(&ev(5_000_000, 0, TraceItemType::ExecutorPollStart { executor_id: 1 }), w, &names);
    assert_eq!(a.get_history().len(), 1);
    assert_eq!(a.get_history()[0].state, ExecutorState::Idle);
}

#[test]
fn registry_creates_records_defensively() {
    let mut instance = TracingInstance::new(HashMap::new());
    // a task event with no TaskNew before it
    instance.update(&ev(10, 3, TraceItemType::TaskReadyBegin { executor_id: 9, task_id: 4 }));
    instance.update(&ev(20, 1, TraceItemType::ExecutorIdle { executor_id: 2 }));
    let execs = instance.get_executors();
    assert_eq!(execs.len(), 2);
    assert_eq!(execs[0].get_executor_id(), 9);
    assert_eq!(execs[0].get_core_id(), 3);
    assert_eq!(execs[0].count_tasks(), 1);
    assert_eq!(*execs[0].get_tasks()[0].get_state(), TaskTraceState::Waiting);
    assert_eq!(execs[0].get_tasks()[0].get_core_id(), 3);
    assert_eq!(execs[0].get_tasks()[0].get_executor_id(), 9);
    assert_eq!(execs[1].get_executor_id(), 2);
    assert_eq!(execs[1].count_tasks(), 0);
    assert_eq!(instance.get_history_max_time_s(), 30);
    instance.set_history_max_time_s(5);
    assert_eq!(instance.get_history_max_time_s(), 5);
}

#[test]
fn names_resolved_from_symbol_table() {
    let mut names = HashMap::new();
    names.insert(42u64, String::from("app::blinky::POOL::h1234"));
    names.insert(1u64, String::from("app::EXECUTOR"));
    let t = TaskTraceInfo::new(42, 1, 0, at(0, 0), &names);
    assert_eq!(t.get_task_name(), Some(&String::from("app::blinky")));
    assert_eq!(t.get_task_display_name(), "app::blinky");
    let t = TaskTraceInfo::new(0x2A0, 1, 0, at(0, 0), &names);
    assert_eq!(t.get_task_name(), None);
    assert_eq!(t.get_task_display_name(), "Task 0x2A0");
    let e = ExecutorTraceInfo::new(1, 0, at(0, 0), &names);
    assert_eq!(e.get_executor_name(), Some(&String::from("app::EXECUTOR")));
    assert_eq!(e.get_executor_display_name(), "app::EXECUTOR");
    let e = ExecutorTraceInfo::new(0x3FFB0000, 0, at(0, 0), &names);
    assert_eq!(e.get_executor_display_name(), "Executor 0x3FFB0000");
    assert_eq!(e.get_executor_name(), None);
}

#[test]
fn four_task_events_move_task_through_its_states() {
    let mut instance = TracingInstance::new(HashMap::new());
    let events = [
        ev(1, 0, TraceItemType::TaskNew { executor_id: 1, task_id: 42 }),
        ev(2, 0, TraceItemType::TaskReadyBegin { executor_id: 1, task_id: 42 }),
        ev(3, 0, TraceItemType::TaskExecBegin { executor_id: 1, task_id: 42 }),
        ev(4, 0, TraceItemType::TaskExecEnd { executor_id: 1, task_id: 42 }),
    ];
    for e in events.iter() {
        instance.update(e);
    }
    let exec = &instance.get_executors()[0];
    let task = exec.find_task_by_id(42).unwrap();
    let states: Vec<TaskTraceState> = task.get_history().iter().map(|h| h.state).collect();
    assert_eq!(
        states,
        vec![TaskTraceState::Spawned, TaskTraceState::Waiting, TaskTraceState::Running]
    );
    assert_eq!(*task.get_state(), TaskTraceState::Idle);
    // without an ExecutorPollStart the executor itself never leaves Idle
    assert_eq!(*exec.get_state(), ExecutorState::Idle);
}

#[test]
fn tasks_listed_in_creation_order() {
    let names = HashMap::new();
    let mut a = ExecutorTraceInfo::new(1, 0, at(0, 0), &names);
    let w = window();
    a.update(&ev(1, 0, TraceItemType::TaskNew { executor_id: 1, task_id: 9 }), w, &names);
    a.update(&ev(2, 0, TraceItemType::TaskNew { executor_id: 1, task_id: 3 }), w, &names);
    a.update(&ev(3, 0, TraceItemType::TaskNew { executor_id: 1, task_id: 9 }), w, &names);
    a.update(&ev(4, 0, TraceItemType::TaskNew { executor_id: 2, task_id: 5 }), w, &names);
    let ids: Vec<u32> = a.iter_tasks().map(|t| t.get_task_id()).collect();
    assert_eq!(ids, vec![9, 3]);
}

#[test]
fn stale_history_goes_after_any_event() {
    let names = HashMap::new();
    let w = ComputerTime::from_s(1);
    let s = 1_000_000;
    let mut t = TaskTraceInfo::new(42, 1, 0, at(0, 0), &names);
    let mut a = ExecutorTraceInfo::new(1, 0, at(0, 0), &names);
    t.update(&ev(100, 0, TraceItemType::TaskReadyBegin { executor_id: 1, task_id: 42 }), w);
    a.update(&ev(100, 0, TraceItemType::ExecutorPollStart { executor_id: 1 }), w, &names);
    assert_eq!(t.get_history().len(), 1);
    assert_eq!(a.get_history().len(), 1);
    // 5 s later an event of another executor: both histories lose their stale entry
    let other = ev(5 * s, 1, TraceItemType::TaskNew { executor_id: 2, task_id: 7 });
    t.update(&other, w);
    a.update(&other, w, &names);
    assert_eq!(t.get_history().len(), 0);
    assert_eq!(a.get_history().len(), 0);
    assert_eq!(*t.get_state(), TaskTraceState::Waiting);
}

#[test]
fn repeated_preemption_keeps_history_bounded() {
    let names = HashMap::new();
    let w = ComputerTime::from_s(1);
    let s = 1_000_000;
    let mut t = TaskTraceInfo::new(42, 1, 0, at(0, 0), &names);
    t.update(&ev(1, 0, TraceItemType::TaskReadyBegin { executor_id: 1, task_id: 42 }), w);
    t.update(&ev(2, 0, TraceItemType::TaskExecBegin { executor_id: 1, task_id: 42 }), w);
    for i in 1..50u64 {
        t.update(&ev(i * s, 0, TraceItemType::ExecutorPollStart { executor_id: 7 }), w);
        t.update(&ev(i * s + 10, 0, TraceItemType::ExecutorIdle { executor_id: 7 }), w);
    }
    assert_eq!(*t.get_state(), TaskTraceState::Running);
    let now = 49 * s + 10;
    for e in t.get_history().iter() {
        assert!(now - e.end_time.get_pc_timestamp().as_micros() <= s);
    }
    assert!(t.get_history().len() <= 3);
}
