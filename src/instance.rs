//! The registry of all tracked executors: every event is applied to it in arrival order.
use std::collections::HashMap;
use vstd::prelude::*;

use crate::executor::{
    exec_preempt_step, executor_step, executor_wf, find_task_index, lemma_executor_step_wf,
    new_executor, tasks_with, ExecutorModel, ExecutorState, ExecutorTraceInfo,
};
use crate::task::{
    new_task, task_end_times, task_step, task_transition, TaskHistoryEntry, TaskTraceState,
};
use crate::window::stale_count;
use crate::stats::InstanceStats;
use crate::time::{sat_add, ComputerTime, TimePair, MICROS_PER_SEC};
use crate::trace_data::{executor_of, TraceItem, TraceItemType};

verus! {

/// Default length of the history window, in seconds.
pub const DEFAULT_HISTORY_MAX_TIME_S: u64 = 30;

/// What the registry holds, as plain values.
pub struct InstanceModel {
    pub executors: Seq<ExecutorModel>,
    pub names: Map<u64, String>,
    pub history_max_time_s: u64,
}

/// Index of the first executor record with id `id`.
pub open spec fn find_executor_index(execs: Seq<ExecutorModel>, id: u32) -> Option<int>
    decreases execs.len(),
{
    if execs.len() == 0 {
        None
    } else if execs[0].executor_id == id {
        Some(0)
    } else {
        match find_executor_index(execs.drop_first(), id) {
            Some(i) => Some(i + 1),
            None => None,
        }
    }
}

/// The history window as a host-time span.
pub open spec fn window_of(secs: u64) -> ComputerTime {
    ComputerTime { micros: sat_add(0, secs * MICROS_PER_SEC) as u64 }
}

/// The registry after `item`: an event of an unknown executor first adds a record for it
/// (on the event's core), then every executor record sees the event.
pub open spec fn instance_step(m: InstanceModel, item: TraceItem) -> InstanceModel {
    let x = executor_of(item.data);
    let execs = if find_executor_index(m.executors, x) is None {
        m.executors.push(new_executor(x, item.core_id, item.time_pair, m.names))
    } else {
        m.executors
    };
    InstanceModel {
        executors: execs.map_values(
            |e: ExecutorModel| executor_step(e, item, window_of(m.history_max_time_s), m.names),
        ),
        ..m
    }
}

/// The registry's invariant: every executor record is well formed, and no executor id
/// occurs twice.
pub open spec fn instance_wf(m: InstanceModel) -> bool {
    &&& forall|i: int| 0 <= i < m.executors.len() ==> executor_wf(#[trigger] m.executors[i])
    &&& forall|i: int, j: int|
        0 <= i < j < m.executors.len() ==> (#[trigger] m.executors[i]).executor_id != (
        #[trigger] m.executors[j]).executor_id
}

/// All executor records, fed one event at a time.
pub struct TracingInstance {
    executors: Vec<ExecutorTraceInfo>,
    names: HashMap<u64, String>,
    history_max_time_s: u64,
}

impl View for TracingInstance {
    type V = InstanceModel;

    closed spec fn view(&self) -> InstanceModel {
        InstanceModel {
            executors: self.executors@.map_values(|e: ExecutorTraceInfo| e@),
            names: self.names@,
            history_max_time_s: self.history_max_time_s,
        }
    }
}

impl TracingInstance {
    /// An empty registry that resolves names through `names` (address to symbol) and
    /// keeps 30 s of history.
    pub fn new(names: HashMap<u64, String>) -> (r: Self)
        ensures
            r@.executors.len() == 0,
            r@.names == names@,
            r@.history_max_time_s == DEFAULT_HISTORY_MAX_TIME_S,
            instance_wf(r@),
    {
        TracingInstance {
            executors: Vec::new(),
            names,
            history_max_time_s: DEFAULT_HISTORY_MAX_TIME_S,
        }
    }

    /// Changes the history window; it applies from the next event on.
    pub fn set_history_max_time_s(&mut self, secs: u64)
        ensures
            final(self)@ == (InstanceModel { history_max_time_s: secs, ..old(self)@ }),
    {
        self.history_max_time_s = secs;
        assert(self@.executors =~= old(self)@.executors);
    }

    pub fn get_history_max_time_s(&self) -> (r: u64)
        ensures
            r == self@.history_max_time_s,
    {
        self.history_max_time_s
    }

    pub fn get_executors(&self) -> (r: &Vec<ExecutorTraceInfo>)
        ensures
            r@.map_values(|e: ExecutorTraceInfo| e@) == self@.executors,
    {
        &self.executors
    }

    /// Applies one event; see `instance_step`. Events must be applied in arrival order.
    pub fn update(&mut self, trace_item: &TraceItem)
        ensures
            final(self)@ == instance_step(old(self)@, *trace_item),
            instance_wf(old(self)@) ==> instance_wf(final(self)@),
    {
        proof {
            lemma_instance_step_wf(self@, *trace_item);
        }
        let ghost m0 = self@;
        let executor_id = trace_item.data.get_executor_id();
        if Self::find_executor_by_id(&self.executors, executor_id).is_none() {
            let new_executor = ExecutorTraceInfo::new(
                executor_id,
                trace_item.core_id,
                trace_item.time_pair,
                &self.names,
            );
            self.executors.push(new_executor);
            proof {
                assert(self@.executors =~= m0.executors.push(new_executor@));
            }
        }
        let ghost before = self@.executors;
        let max_age = crate::time::ComputerTime::from_s(self.history_max_time_s);
        let mut i: usize = 0;
        while i < self.executors.len()
            invariant
                0 <= i <= before.len(),
                self.executors@.len() == before.len(),
                forall|j: int|
                    0 <= j < i ==> (#[trigger] self.executors@[j])@ == executor_step(
                        before[j],
                        *trace_item,
                        window_of(m0.history_max_time_s),
                        m0.names,
                    ),
                forall|j: int| i <= j < before.len() ==> (#[trigger] self.executors@[j])@ == before[j],
                self.names@ == m0.names,
                self.history_max_time_s == m0.history_max_time_s,
                max_age == window_of(m0.history_max_time_s),
            decreases before.len() - i,
        {
            self.executors[i].update(trace_item, max_age, &self.names);
            i = i + 1;
        }
        proof {
            assert(self@.executors =~= before.map_values(
                |e: ExecutorModel| executor_step(e, *trace_item, window_of(m0.history_max_time_s), m0.names),
            ));
        }
    }

    /// Statistics of all executors and tasks at host moment `now`.
    pub fn get_stats(&self, now: ComputerTime) -> (r: InstanceStats)
        requires
            instance_wf(self@),
        ensures
            crate::stats::instance_stats_match(r, self@.executors, now),
    {
        proof {
            assert forall|i: int| 0 <= i < self.executors@.len() implies executor_wf(
                #[trigger] self.executors@[i]@,
            ) by {
                assert(self@.executors[i] == self.executors@[i]@);
            }
        }
        InstanceStats::from_executors(&self.executors, now)
    }

    /// The first executor record with id `executor_id`.
    fn find_executor_by_id(executors: &Vec<ExecutorTraceInfo>, executor_id: u32) -> (r: Option<
        &ExecutorTraceInfo,
    >)
        ensures
            match find_executor_index(executors@.map_values(|e: ExecutorTraceInfo| e@), executor_id) {
                Some(i) => r matches Some(e) && e@ == executors@[i]@,
                None => r is None,
            },
    {
        let ghost es = executors@.map_values(|e: ExecutorTraceInfo| e@);
        assert(es.skip(0) =~= es);
        let mut i: usize = 0;
        while i < executors.len()
            invariant
                es == executors@.map_values(|e: ExecutorTraceInfo| e@),
                0 <= i <= es.len(),
                find_executor_index(es, executor_id) == match find_executor_index(
                    es.skip(i as int),
                    executor_id,
                ) {
                    Some(j) => Some(j + i),
                    None => None,
                },
            decreases es.len() - i,
        {
            proof {
                assert(es.skip(i as int)[0] == es[i as int]);
                assert(es.skip(i as int).drop_first() =~= es.skip(i + 1));
            }
            if executors[i].get_executor_id() == executor_id {
                return Some(&executors[i]);
            }
            i = i + 1;
        }
        None
    }
}

proof fn lemma_find_executor_none(execs: Seq<ExecutorModel>, id: u32)
    requires
        find_executor_index(execs, id) is None,
    ensures
        forall|i: int| 0 <= i < execs.len() ==> (#[trigger] execs[i]).executor_id != id,
    decreases execs.len(),
{
    if execs.len() > 0 {
        lemma_find_executor_none(execs.drop_first(), id);
        assert forall|i: int| 0 <= i < execs.len() implies (#[trigger] execs[i]).executor_id
            != id by {
            if i > 0 {
                assert(execs[i] == execs.drop_first()[i - 1]);
            }
        }
    }
}

/// Applying an event keeps the registry well formed.
pub proof fn lemma_instance_step_wf(m: InstanceModel, item: TraceItem)
    ensures
        instance_wf(m) ==> instance_wf(instance_step(m, item)),
{
    if instance_wf(m) {
        let x = executor_of(item.data);
        let execs = if find_executor_index(m.executors, x) is None {
            m.executors.push(new_executor(x, item.core_id, item.time_pair, m.names))
        } else {
            m.executors
        };
        if find_executor_index(m.executors, x) is None {
            lemma_find_executor_none(m.executors, x);
        }
        assert forall|i: int| 0 <= i < execs.len() implies executor_wf(#[trigger] execs[i]) by {
            if i < m.executors.len() {
                assert(execs[i] == m.executors[i]);
            } else {
                assert(execs[i].tasks =~= Seq::<crate::task::TaskModel>::empty());
            }
        }
        assert forall|i: int, j: int| 0 <= i < j < execs.len() implies (#[trigger] execs[i]).executor_id
            != (#[trigger] execs[j]).executor_id by {
            if j < m.executors.len() {
                assert(execs[i] == m.executors[i] && execs[j] == m.executors[j]);
            } else {
                assert(execs[i] == m.executors[i]);
            }
        }
        let w = window_of(m.history_max_time_s);
        let out = instance_step(m, item).executors;
        assert forall|i: int| 0 <= i < out.len() implies executor_wf(#[trigger] out[i]) by {
            lemma_executor_step_wf(execs[i], item, w, m.names);
        }
        assert forall|i: int, j: int| 0 <= i < j < out.len() implies (#[trigger] out[i]).executor_id
            != (#[trigger] out[j]).executor_id by {
            assert(out[i].executor_id == execs[i].executor_id);
            assert(out[j].executor_id == execs[j].executor_id);
        }
    }
}

} // verus!

verus! {

/// One event of executor `e` on core `core` at `at`.
pub open spec fn event_at(core: u32, at: TimePair, data: TraceItemType) -> TraceItem {
    TraceItem { time_pair: at, core_id: core, data }
}

proof fn lemma_single_executor_step(m: InstanceModel, item: TraceItem)
    requires
        m.executors.len() == 1,
        m.executors[0].executor_id == executor_of(item.data),
    ensures
        instance_step(m, item).executors == seq![
            executor_step(m.executors[0], item, window_of(m.history_max_time_s), m.names),
        ],
        instance_step(m, item).names == m.names,
        instance_step(m, item).history_max_time_s == m.history_max_time_s,
{
    assert(find_executor_index(m.executors, executor_of(item.data)) == Some(0int));
    assert(instance_step(m, item).executors =~= seq![
        executor_step(m.executors[0], item, window_of(m.history_max_time_s), m.names),
    ]);
}

/// From an empty registry, `TaskNew`, `TaskReadyBegin`, `TaskExecBegin` and `TaskExecEnd`
/// of one task, in host-time order and within one window, create one executor record
/// with one task record whose state goes `Spawned`, `Waiting`, `Running`, `Idle`, which
/// records those first three states ending at the second, third and fourth event, and
/// whose executor stays `Idle` (it leaves `Idle` only on an `ExecutorPollStart`).
pub proof fn lemma_task_lifecycle(
    names: Map<u64, String>,
    window_s: u64,
    core: u32,
    e: u32,
    t: u32,
    t1: TimePair,
    t2: TimePair,
    t3: TimePair,
    t4: TimePair,
)
    requires
        t1.pc.micros <= t2.pc.micros <= t3.pc.micros <= t4.pc.micros,
        t4.pc.micros - t2.pc.micros <= window_of(window_s).micros,
    ensures
        ({
            let m0 = InstanceModel { executors: Seq::empty(), names, history_max_time_s: window_s };
            let m1 = instance_step(
                m0,
                event_at(core, t1, TraceItemType::TaskNew { executor_id: e, task_id: t }),
            );
            let m2 = instance_step(
                m1,
                event_at(core, t2, TraceItemType::TaskReadyBegin { executor_id: e, task_id: t }),
            );
            let m3 = instance_step(
                m2,
                event_at(core, t3, TraceItemType::TaskExecBegin { executor_id: e, task_id: t }),
            );
            let m4 = instance_step(
                m3,
                event_at(core, t4, TraceItemType::TaskExecEnd { executor_id: e, task_id: t }),
            );
            &&& m1.executors.len() == 1 && m1.executors[0].tasks.len() == 1
            &&& m1.executors[0].tasks[0].state == TaskTraceState::Spawned
            &&& m2.executors.len() == 1 && m2.executors[0].tasks.len() == 1
            &&& m2.executors[0].tasks[0].state == TaskTraceState::Waiting
            &&& m3.executors.len() == 1 && m3.executors[0].tasks.len() == 1
            &&& m3.executors[0].tasks[0].state == TaskTraceState::Running
            &&& m4.executors.len() == 1 && m4.executors[0].tasks.len() == 1
            &&& m4.executors[0].tasks[0].state == TaskTraceState::Idle
            &&& m4.executors[0].tasks[0].task_id == t
            &&& m4.executors[0].executor_id == e
            &&& m4.executors[0].state == ExecutorState::Idle
            &&& m4.executors[0].tasks[0].history.map_values(|h: TaskHistoryEntry| h.state) == seq![
                TaskTraceState::Spawned,
                TaskTraceState::Waiting,
                TaskTraceState::Running,
            ]
            &&& m4.executors[0].tasks[0].history.map_values(|h: TaskHistoryEntry| h.end_time)
                == seq![t2, t3, t4]
        }),
{
    let w = window_of(window_s);
    let m0 = InstanceModel { executors: Seq::empty(), names, history_max_time_s: window_s };
    let i1 = event_at(core, t1, TraceItemType::TaskNew { executor_id: e, task_id: t });
    let i2 = event_at(core, t2, TraceItemType::TaskReadyBegin { executor_id: e, task_id: t });
    let i3 = event_at(core, t3, TraceItemType::TaskExecBegin { executor_id: e, task_id: t });
    let i4 = event_at(core, t4, TraceItemType::TaskExecEnd { executor_id: e, task_id: t });

    // first event: a new executor record with a new task record
    let x0 = new_executor(e, core, t1, names);
    assert(find_executor_index(m0.executors, e) is None);
    let m1 = instance_step(m0, i1);
    assert(m1.executors =~= seq![executor_step(x0, i1, w, names)]);
    assert(find_task_index(x0.tasks, t) is None);
    let n0 = new_task(t, e, core, t1, names);
    assert(tasks_with(exec_preempt_step(x0, i1), i1, names) =~= seq![n0]);
    assert(task_end_times(n0.history) =~= Seq::<ComputerTime>::empty());
    assert(task_step(n0, i1, w) == n0) by {
        assert(n0.history.skip(0) =~= n0.history);
    }
    let x1 = m1.executors[0];
    assert(x1.tasks =~= seq![n0]);
    assert(x1.state == ExecutorState::Idle);

    // second event
    lemma_single_executor_step(m1, i2);
    let m2 = instance_step(m1, i2);
    assert(find_task_index(x1.tasks, t) == Some(0int));
    let n1 = task_transition(n0, i2);
    assert(n1.history == seq![TaskHistoryEntry { state: TaskTraceState::Spawned, start_time: t1, end_time: t2 }]);
    assert(task_end_times(n1.history) =~= seq![t2.pc]);
    assert(stale_count(task_end_times(n1.history), t2.pc, w) == 0);
    assert(n1.history.skip(0) =~= n1.history);
    let x2 = m2.executors[0];
    assert(x2.tasks =~= seq![n1]);
    assert(x2.state == ExecutorState::Idle);

    // third event
    lemma_single_executor_step(m2, i3);
    let m3 = instance_step(m2, i3);
    assert(find_task_index(x2.tasks, t) == Some(0int));
    let n2 = task_transition(n1, i3);
    assert(n2.history =~= n1.history.push(
        TaskHistoryEntry { state: TaskTraceState::Waiting, start_time: t2, end_time: t3 },
    ));
    assert(task_end_times(n2.history) =~= seq![t2.pc, t3.pc]);
    assert(stale_count(task_end_times(n2.history), t3.pc, w) == 0);
    assert(n2.history.skip(0) =~= n2.history);
    let x3 = m3.executors[0];
    assert(x3.tasks =~= seq![n2]);
    assert(x3.state == ExecutorState::Idle);

    // fourth event
    lemma_single_executor_step(m3, i4);
    let m4 = instance_step(m3, i4);
    assert(find_task_index(x3.tasks, t) == Some(0int));
    let n3 = task_transition(n2, i4);
    assert(n3.history =~= n2.history.push(
        TaskHistoryEntry { state: TaskTraceState::Running, start_time: t3, end_time: t4 },
    ));
    assert(task_end_times(n3.history) =~= seq![t2.pc, t3.pc, t4.pc]);
    assert(stale_count(task_end_times(n3.history), t4.pc, w) == 0);
    assert(n3.history.skip(0) =~= n3.history);
    let x4 = m4.executors[0];
    assert(x4.tasks =~= seq![n3]);
    assert(n3.history.map_values(|h: TaskHistoryEntry| h.state) =~= seq![
        TaskTraceState::Spawned,
        TaskTraceState::Waiting,
        TaskTraceState::Running,
    ]);
    assert(n3.history.map_values(|h: TaskHistoryEntry| h.end_time) =~= seq![t2, t3, t4]);
}

} // verus!
