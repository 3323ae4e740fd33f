//! Per-executor lifecycle tracking.
//!
//! An executor moves `Idle -> Scheduling -> Polling -> Scheduling -> Idle`; while
//! scheduling or polling it can be preempted by a higher-priority executor on its core,
//! and returns to the state it left once that executor goes idle. It owns the records
//! of its tasks and hands every event to each of them.
use std::collections::{HashMap, VecDeque};
use vstd::prelude::*;

use crate::stats::Utilization;
use crate::task::{lemma_task_step_wf, new_task, task_step, task_wf, TaskModel, TaskTraceInfo};
use crate::text::{hex, push_hex, push_str};
use crate::time::{extrapolated_uc, sat_add, sat_sub, ComputerTime, EmbassyTime, TimePair};
use crate::trace_data::{executor_of, task_of, TraceItem, TraceItemType};
use crate::window::{is_stale, lemma_evicted_within_window, ordered_ends, stale_count};

verus! {

broadcast use vstd::std_specs::hash::group_hash_axioms;

/// The active state that a preempted executor returns to.
#[derive(Debug, Clone, Copy, PartialEq, Eq, Structural)]
pub enum PreemptedPrevState {
    Scheduling,
    Polling,
}

#[derive(Debug, Clone, Copy, PartialEq, Eq, Structural)]
pub enum ExecutorState {
    Idle,
    Scheduling,
    /// Interrupted by a higher-priority executor on the same core.
    Preempted { by_executor_id: u32, prev_state: PreemptedPrevState },
    Polling,
}

pub open spec fn resumed_state(p: PreemptedPrevState) -> ExecutorState {
    match p {
        PreemptedPrevState::Scheduling => ExecutorState::Scheduling,
        PreemptedPrevState::Polling => ExecutorState::Polling,
    }
}

impl PreemptedPrevState {
    /// The executor state to resume.
    pub fn into_state(self) -> (r: ExecutorState)
        ensures
            r == resumed_state(self),
    {
        match self {
            PreemptedPrevState::Scheduling => ExecutorState::Scheduling,
            PreemptedPrevState::Polling => ExecutorState::Polling,
        }
    }
}

/// Whether the executor counts as busy in `s`.
pub open spec fn is_active(s: ExecutorState) -> bool {
    s == ExecutorState::Scheduling || s == ExecutorState::Polling
}

/// A state that has ended, with when it began and ended.
#[derive(Debug, Clone, Copy, PartialEq, Eq, Structural)]
pub struct ExecutorHistoryEntry {
    pub state: ExecutorState,
    pub start_time: TimePair,
    pub end_time: TimePair,
}

/// What an executor record holds, as plain values.
pub struct ExecutorModel {
    pub executor_id: u32,
    pub name: Option<Seq<char>>,
    pub core_id: u32,
    pub created_at: TimePair,
    pub state: ExecutorState,
    pub state_start: TimePair,
    pub history: Seq<ExecutorHistoryEntry>,
    pub tasks: Seq<TaskModel>,
}

pub open spec fn executor_end_times(h: Seq<ExecutorHistoryEntry>) -> Seq<ComputerTime> {
    h.map_values(|e: ExecutorHistoryEntry| e.end_time.pc)
}

/// The record's invariant: every task record is well formed and belongs to this executor,
/// and no task id occurs twice.
pub open spec fn executor_wf(m: ExecutorModel) -> bool {
    &&& forall|i: int| 0 <= i < m.tasks.len() ==> task_wf(#[trigger] m.tasks[i])
    &&& forall|i: int| 0 <= i < m.tasks.len() ==> (#[trigger] m.tasks[i]).executor_id == m.executor_id
    &&& forall|i: int, j: int|
        0 <= i < j < m.tasks.len() ==> (#[trigger] m.tasks[i]).task_id != (#[trigger] m.tasks[j]).task_id
}

pub open spec fn resolved_executor_name(names: Map<u64, String>, id: u32) -> Option<Seq<char>> {
    if names.contains_key(id as u64) {
        Some(names[id as u64]@)
    } else {
        None
    }
}

/// A record for an executor first seen at `at`, on core `core_id`.
pub open spec fn new_executor(
    executor_id: u32,
    core_id: u32,
    at: TimePair,
    names: Map<u64, String>,
) -> ExecutorModel {
    ExecutorModel {
        executor_id,
        name: resolved_executor_name(names, executor_id),
        core_id,
        created_at: at,
        state: ExecutorState::Idle,
        state_start: at,
        history: Seq::empty(),
        tasks: Seq::empty(),
    }
}

/// Index of the first task record with id `id`.
pub open spec fn find_task_index(tasks: Seq<TaskModel>, id: u32) -> Option<int>
    decreases tasks.len(),
{
    if tasks.len() == 0 {
        None
    } else if tasks[0].task_id == id {
        Some(0)
    } else {
        match find_task_index(tasks.drop_first(), id) {
            Some(i) => Some(i + 1),
            None => None,
        }
    }
}

pub open spec fn exec_set_state(m: ExecutorModel, s: ExecutorState, at: TimePair) -> ExecutorModel {
    if m.state != s {
        ExecutorModel {
            history: m.history.push(
                ExecutorHistoryEntry { state: m.state, start_time: m.state_start, end_time: at },
            ),
            state: s,
            state_start: at,
            ..m
        }
    } else {
        m
    }
}

/// Preemption and resumption, which events of any executor can cause.
pub open spec fn exec_preempt_step(m: ExecutorModel, item: TraceItem) -> ExecutorModel {
    let x = executor_of(item.data);
    match m.state {
        ExecutorState::Scheduling | ExecutorState::Polling => {
            if item.data is ExecutorPollStart && x != m.executor_id && item.core_id == m.core_id {
                let prev = if m.state == ExecutorState::Scheduling {
                    PreemptedPrevState::Scheduling
                } else {
                    PreemptedPrevState::Polling
                };
                exec_set_state(
                    m,
                    ExecutorState::Preempted { by_executor_id: x, prev_state: prev },
                    item.time_pair,
                )
            } else {
                m
            }
        },
        ExecutorState::Preempted { by_executor_id, prev_state } => {
            if item.data is ExecutorIdle && x == by_executor_id {
                exec_set_state(m, resumed_state(prev_state), item.time_pair)
            } else {
                m
            }
        },
        ExecutorState::Idle => m,
    }
}

/// The task records once `item` has been seen: an event of this executor that names an
/// unknown task adds a record for it.
pub open spec fn tasks_with(m: ExecutorModel, item: TraceItem, names: Map<u64, String>) -> Seq<
    TaskModel,
> {
    match task_of(item.data) {
        Some(t) => if executor_of(item.data) == m.executor_id && find_task_index(m.tasks, t) is None {
            m.tasks.push(new_task(t, m.executor_id, m.core_id, item.time_pair, names))
        } else {
            m.tasks
        },
        None => m.tasks,
    }
}

/// The executor's own transition table, for its own events.
pub open spec fn exec_table(s: ExecutorState, k: TraceItemType) -> Option<ExecutorState> {
    match s {
        ExecutorState::Idle => if k is ExecutorPollStart {
            Some(ExecutorState::Scheduling)
        } else {
            None
        },
        ExecutorState::Scheduling => if k is TaskExecBegin {
            Some(ExecutorState::Polling)
        } else if k is ExecutorIdle {
            Some(ExecutorState::Idle)
        } else {
            None
        },
        ExecutorState::Polling => if k is TaskExecEnd {
            Some(ExecutorState::Scheduling)
        } else {
            None
        },
        _ => None,
    }
}

/// The record after `item`, with a history window of `max_age` and symbol table `names`:
/// the tasks see the event, the executor changes state, then stale history is evicted,
/// after every event.
pub open spec fn executor_step(
    m: ExecutorModel,
    item: TraceItem,
    max_age: ComputerTime,
    names: Map<u64, String>,
) -> ExecutorModel {
    let m1 = exec_preempt_step(m, item);
    let m2 = ExecutorModel {
        tasks: tasks_with(m1, item, names).map_values(|t: TaskModel| task_step(t, item, max_age)),
        ..m1
    };
    let m3 = exec_own_step(m2, item);
    ExecutorModel {
        history: m3.history.skip(
            stale_count(executor_end_times(m3.history), item.time_pair.pc, max_age) as int,
        ),
        ..m3
    }
}

/// The executor's own transition, for its own events only.
pub open spec fn exec_own_step(m: ExecutorModel, item: TraceItem) -> ExecutorModel {
    if executor_of(item.data) == m.executor_id {
        match exec_table(m.state, item.data) {
            Some(s) => exec_set_state(m, s, item.time_pair),
            None => m,
        }
    } else {
        m
    }
}

/// Host time from `start` to `end`, zero if it ran backwards.
pub open spec fn pc_span(start: TimePair, end: TimePair) -> int {
    sat_sub(end.pc.micros as int, start.pc.micros as int)
}

/// Host time recorded in history, over all states (`active_only == false`) or over the
/// busy ones.
pub open spec fn executor_history_time(h: Seq<ExecutorHistoryEntry>, active_only: bool) -> int
    decreases h.len(),
{
    if h.len() == 0 {
        0
    } else {
        executor_history_time(h.drop_last(), active_only) + if !active_only || is_active(
            h.last().state,
        ) {
            pc_span(h.last().start_time, h.last().end_time)
        } else {
            0
        }
    }
}

/// Device time spent in the current state until host moment `now`.
pub open spec fn executor_current_span(m: ExecutorModel, now: ComputerTime) -> int {
    sat_sub(extrapolated_uc(m.state_start, now), m.state_start.uc.micros as int)
}

/// Busy time over tracked time at host moment `now`: recorded history plus the ongoing
/// state, each sum saturating at the largest representable time.
pub open spec fn executor_utilization(m: ExecutorModel, now: ComputerTime) -> (int, int) {
    let cur = executor_current_span(m, now);
    (
        sat_add(
            0,
            executor_history_time(m.history, true) + if is_active(m.state) {
                cur
            } else {
                0
            },
        ),
        sat_add(0, executor_history_time(m.history, false) + cur),
    )
}

pub open spec fn executor_display_name(m: ExecutorModel) -> Seq<char> {
    match m.name {
        Some(n) => n,
        None => "Executor 0x"@ + hex(m.executor_id as nat),
    }
}

/// Tracks one executor and the tasks it runs.
pub struct ExecutorTraceInfo {
    executor_id: u32,
    executor_name: Option<String>,
    core_id: u32,
    created_at: TimePair,
    state: ExecutorState,
    state_start_time: TimePair,
    state_history: VecDeque<ExecutorHistoryEntry>,
    tasks: Vec<TaskTraceInfo>,
}

impl View for ExecutorTraceInfo {
    type V = ExecutorModel;

    closed spec fn view(&self) -> ExecutorModel {
        ExecutorModel {
            executor_id: self.executor_id,
            name: match self.executor_name {
                Some(n) => Some(n@),
                None => None,
            },
            core_id: self.core_id,
            created_at: self.created_at,
            state: self.state,
            state_start: self.state_start_time,
            history: self.state_history@,
            tasks: self.tasks@.map_values(|t: TaskTraceInfo| t@),
        }
    }
}

fn evict_executor_history(
    h: &mut VecDeque<ExecutorHistoryEntry>,
    now: ComputerTime,
    max_age: ComputerTime,
)
    ensures
        final(h)@ == old(h)@.skip(stale_count(executor_end_times(old(h)@), now, max_age) as int),
{
    let ghost orig = h@;
    let ghost mut k: int = 0;
    while h.len() > 0 && now.micros.saturating_sub(h[0].end_time.pc.micros) > max_age.micros
        invariant
            0 <= k <= orig.len(),
            h@ == orig.skip(k),
            stale_count(executor_end_times(orig), now, max_age) == k + stale_count(
                executor_end_times(h@),
                now,
                max_age,
            ),
        decreases h@.len(),
    {
        proof {
            assert(executor_end_times(h@)[0] == h@[0].end_time.pc);
            assert(executor_end_times(h@).drop_first() =~= executor_end_times(h@.drop_first()));
        }
        h.pop_front();
        proof {
            k = k + 1;
            assert(h@ =~= orig.skip(k));
        }
    }
    proof {
        if h@.len() > 0 {
            assert(executor_end_times(h@)[0] == h@[0].end_time.pc);
        }
    }
}

impl ExecutorTraceInfo {
    /// A record for an executor first seen at `created_at` on core `core_id`; its name is
    /// looked up in `names` by the executor id.
    pub fn new(executor_id: u32, core_id: u32, created_at: TimePair, names: &HashMap<u64, String>) -> (r:
        Self)
        ensures
            r@ == new_executor(executor_id, core_id, created_at, names@),
            executor_wf(r@),
    {
        let executor_name = match names.get(&(executor_id as u64)) {
            Some(name) => Some(name.clone()),
            None => None,
        };
        let r = ExecutorTraceInfo {
            executor_id,
            executor_name,
            core_id,
            created_at,
            state: ExecutorState::Idle,
            state_start_time: created_at,
            state_history: VecDeque::new(),
            tasks: Vec::new(),
        };
        assert(r@.history =~= Seq::<ExecutorHistoryEntry>::empty());
        assert(r@.tasks =~= Seq::<TaskModel>::empty());
        r
    }

    fn set_new_state(&mut self, new_state: ExecutorState, timestamp: TimePair)
        ensures
            final(self)@ == exec_set_state(old(self)@, new_state, timestamp),
    {
        if self.state != new_state {
            let hist_entry = ExecutorHistoryEntry {
                state: self.state,
                start_time: self.state_start_time,
                end_time: timestamp,
            };
            self.state_history.push_back(hist_entry);
            self.state = new_state;
            self.state_start_time = timestamp;
        }
    }

    pub fn get_executor_id(&self) -> (r: u32)
        ensures
            r == self@.executor_id,
    {
        self.executor_id
    }

    pub fn get_executor_name(&self) -> (r: Option<&String>)
        ensures
            match r {
                Some(n) => self@.name == Some(n@),
                None => self@.name is None,
            },
    {
        match &self.executor_name {
            Some(n) => Some(n),
            None => None,
        }
    }

    /// The resolved name, or `Executor 0x<ID>` in uppercase hex.
    pub fn get_executor_display_name(&self) -> (r: String)
        ensures
            r@ == executor_display_name(self@),
    {
        match &self.executor_name {
            Some(name) => name.clone(),
            None => {
                let mut s = String::new();
                push_str(&mut s, "Executor 0x");
                push_hex(&mut s, self.executor_id as u64);
                s
            },
        }
    }

    pub fn get_core_id(&self) -> (r: u32)
        ensures
            r == self@.core_id,
    {
        self.core_id
    }

    pub fn get_state(&self) -> (r: &ExecutorState)
        ensures
            *r == self@.state,
    {
        &self.state
    }

    pub fn get_state_start_time(&self) -> (r: TimePair)
        ensures
            r == self@.state_start,
    {
        self.state_start_time
    }

    /// The recorded states, oldest first.
    pub fn get_history(&self) -> (r: &VecDeque<ExecutorHistoryEntry>)
        ensures
            r@ == self@.history,
    {
        &self.state_history
    }

    pub fn get_tasks(&self) -> (r: &Vec<TaskTraceInfo>)
        ensures
            r@.map_values(|t: TaskTraceInfo| t@) == self@.tasks,
    {
        &self.tasks
    }

    /// The task records, in the order they were created.
    pub fn iter_tasks(&self) -> (r: std::slice::Iter<'_, TaskTraceInfo>)
        ensures
            vstd::std_specs::slice::into_iter_elts(r).map_values(|t: TaskTraceInfo| t@) == self@.tasks,
    {
        broadcast use vstd::std_specs::slice::axiom_spec_slice_iter;

        let r = self.tasks.as_slice().iter();
        proof {
            assert(vstd::std_specs::slice::into_iter_elts(r) =~= self.tasks@);
        }
        r
    }

    pub fn count_tasks(&self) -> (r: usize)
        ensures
            r == self@.tasks.len(),
    {
        self.tasks.len()
    }

    /// The first task record with id `task_id`.
    pub fn find_task_by_id(&self, task_id: u32) -> (r: Option<&TaskTraceInfo>)
        ensures
            match find_task_index(self@.tasks, task_id) {
                Some(i) => r matches Some(t) && t@ == self@.tasks[i],
                None => r is None,
            },
    {
        let ghost ts = self@.tasks;
        assert(ts.skip(0) =~= ts);
        let mut i: usize = 0;
        while i < self.tasks.len()
            invariant
                ts == self@.tasks,
                0 <= i <= ts.len(),
                find_task_index(ts, task_id) == match find_task_index(ts.skip(i as int), task_id) {
                    Some(j) => Some(j + i),
                    None => None,
                },
            decreases ts.len() - i,
        {
            proof {
                assert(ts.skip(i as int)[0] == ts[i as int]);
                assert(ts.skip(i as int).drop_first() =~= ts.skip(i + 1));
            }
            if self.tasks[i].get_task_id() == task_id {
                return Some(&self.tasks[i]);
            }
            i = i + 1;
        }
        None
    }

    /// Preemption and resumption, creation of an unknown task of this executor, then the
    /// event for every task record.
    fn update_tasks(
        &mut self,
        trace_item: &TraceItem,
        max_age: ComputerTime,
        names: &HashMap<u64, String>,
    )
        ensures
            final(self)@ == (ExecutorModel {
                tasks: tasks_with(exec_preempt_step(old(self)@, *trace_item), *trace_item, names@).map_values(
                    |t: TaskModel| task_step(t, *trace_item, max_age),
                ),
                ..exec_preempt_step(old(self)@, *trace_item)
            }),
    {
        let at = trace_item.time_pair;
        match self.state {
            ExecutorState::Polling | ExecutorState::Scheduling => {
                if let TraceItemType::ExecutorPollStart { executor_id } = trace_item.data {
                    if executor_id != self.executor_id && trace_item.core_id == self.core_id {
                        let prev_state = if self.state == ExecutorState::Scheduling {
                            PreemptedPrevState::Scheduling
                        } else {
                            PreemptedPrevState::Polling
                        };
                        self.set_new_state(
                            ExecutorState::Preempted { by_executor_id: executor_id, prev_state },
                            at,
                        );
                    }
                }
            },
            ExecutorState::Preempted { by_executor_id, prev_state } => {
                if let TraceItemType::ExecutorIdle { executor_id } = trace_item.data {
                    if executor_id == by_executor_id {
                        self.set_new_state(prev_state.into_state(), at);
                    }
                }
            },
            _ => {},
        }
        let ghost m1 = self@;
        if trace_item.data.get_executor_id() == self.executor_id {
            if let Some(task_id) = trace_item.data.get_task_id() {
                if self.find_task_by_id(task_id).is_none() {
                    let new_task_info = TaskTraceInfo::new(
                        task_id,
                        self.executor_id,
                        self.core_id,
                        at,
                        names,
                    );
                    self.tasks.push(new_task_info);
                    proof {
                        assert(self@.tasks =~= m1.tasks.push(new_task_info@));
                    }
                }
            }
        }
        let ghost before = self@.tasks;
        assert(before == tasks_with(m1, *trace_item, names@));
        let mut i: usize = 0;
        while i < self.tasks.len()
            invariant
                0 <= i <= before.len(),
                self.tasks@.len() == before.len(),
                forall|j: int|
                    0 <= j < i ==> (#[trigger] self.tasks@[j])@ == task_step(
                        before[j],
                        *trace_item,
                        max_age,
                    ),
                forall|j: int| i <= j < before.len() ==> (#[trigger] self.tasks@[j])@ == before[j],
                self.executor_id == m1.executor_id,
                self@.name == m1.name,
                self.core_id == m1.core_id,
                self.created_at == m1.created_at,
                self.state == m1.state,
                self.state_start_time == m1.state_start,
                self.state_history@ == m1.history,
            decreases before.len() - i,
        {
            self.tasks[i].update(trace_item, max_age);
            i = i + 1;
        }
        proof {
            assert(self@.tasks =~= before.map_values(|t: TaskModel| task_step(t, *trace_item, max_age)));
        }
    }

    /// Applies one event: first to the tasks (see `update_tasks`), then, for this
    /// executor's own events, the transition table, after which history older than
    /// `max_age` is dropped. `names` resolves the names of tasks seen for the first time.
    pub fn update(
        &mut self,
        trace_item: &TraceItem,
        max_age: ComputerTime,
        names: &HashMap<u64, String>,
    )
        ensures
            final(self)@ == executor_step(old(self)@, *trace_item, max_age, names@),
            executor_wf(old(self)@) ==> executor_wf(final(self)@),
    {
        proof {
            lemma_executor_step_wf(self@, *trace_item, max_age, names@);
        }
        self.update_tasks(trace_item, max_age, names);
        if trace_item.data.get_executor_id() == self.executor_id {
            let at = trace_item.time_pair;
            match self.state {
                ExecutorState::Idle => {
                    if let TraceItemType::ExecutorPollStart { .. } = trace_item.data {
                        self.set_new_state(ExecutorState::Scheduling, at);
                    }
                },
                ExecutorState::Scheduling => {
                    if let TraceItemType::TaskExecBegin { .. } = trace_item.data {
                        self.set_new_state(ExecutorState::Polling, at);
                    }
                    if let TraceItemType::ExecutorIdle { .. } = trace_item.data {
                        self.set_new_state(ExecutorState::Idle, at);
                    }
                },
                ExecutorState::Polling => {
                    if let TraceItemType::TaskExecEnd { .. } = trace_item.data {
                        self.set_new_state(ExecutorState::Scheduling, at);
                    }
                },
                _ => {},
            }
        }
        evict_executor_history(&mut self.state_history, trace_item.time_pair.pc, max_age);
    }

    fn extrapolate_current_state_duration(&self, now: ComputerTime) -> (r: EmbassyTime)
        ensures
            r.micros == extrapolated_uc(self@.state_start, now),
    {
        self.state_start_time.extrapolate_uc(now)
    }

    /// Busy (scheduling or polling) time and tracked time at host moment `now`: host-time
    /// durations of the recorded states plus the extrapolated ongoing state.
    pub fn calculate_cpu_utilization(&self, now: ComputerTime) -> (r: Utilization)
        ensures
            r.active_micros == executor_utilization(self@, now).0,
            r.total_micros == executor_utilization(self@, now).1,
            r.active_micros <= r.total_micros,
    {
        let ghost h = self@.history;
        let mut total: u64 = 0;
        let mut active: u64 = 0;
        let mut i: usize = 0;
        while i < self.state_history.len()
            invariant
                h == self@.history,
                0 <= i <= h.len(),
                total == sat_add(0, executor_history_time(h.take(i as int), false)),
                active == sat_add(0, executor_history_time(h.take(i as int), true)),
                executor_history_time(h.take(i as int), true) <= executor_history_time(
                    h.take(i as int),
                    false,
                ),
                0 <= executor_history_time(h.take(i as int), true),
            decreases h.len() - i,
        {
            proof {
                assert(h.take(i + 1).drop_last() =~= h.take(i as int));
            }
            let e = self.state_history[i];
            let d = e.end_time.pc.micros.saturating_sub(e.start_time.pc.micros);
            total = total.saturating_add(d);
            if e.state == ExecutorState::Scheduling || e.state == ExecutorState::Polling {
                active = active.saturating_add(d);
            }
            i = i + 1;
        }
        assert(h.take(i as int) =~= h);
        let estimated_now = self.extrapolate_current_state_duration(now);
        let current = estimated_now.saturating_sub(self.state_start_time.uc).micros;
        total = total.saturating_add(current);
        if self.state == ExecutorState::Scheduling || self.state == ExecutorState::Polling {
            active = active.saturating_add(current);
        }
        Utilization { active_micros: active, total_micros: total }
    }
}

/// Applying an event keeps an executor record well formed.
pub proof fn lemma_executor_step_wf(
    m: ExecutorModel,
    item: TraceItem,
    max_age: ComputerTime,
    names: Map<u64, String>,
)
    ensures
        executor_wf(m) ==> executor_wf(executor_step(m, item, max_age, names)),
{
    if executor_wf(m) {
        let m1 = exec_preempt_step(m, item);
        assert(m1.tasks == m.tasks);
        let ts = tasks_with(m1, item, names);
        if ts.len() > m.tasks.len() {
            let t = task_of(item.data)->0;
            lemma_find_task_none(m.tasks, t);
            assert(ts.last().task_id == t);
            assert forall|i: int, j: int| 0 <= i < j < ts.len() implies (#[trigger] ts[i]).task_id
                != (#[trigger] ts[j]).task_id by {
                if j < m.tasks.len() {
                    assert(ts[i] == m.tasks[i] && ts[j] == m.tasks[j]);
                } else {
                    assert(ts[i] == m.tasks[i]);
                }
            }
            assert forall|i: int| 0 <= i < ts.len() implies task_wf(#[trigger] ts[i]) by {
                if i < m.tasks.len() {
                    assert(ts[i] == m.tasks[i]);
                } else {
                    assert(ts[i].history =~= Seq::<crate::task::TaskHistoryEntry>::empty());
                }
            }
            assert forall|i: int| 0 <= i < ts.len() implies (#[trigger] ts[i]).executor_id
                == m.executor_id by {
                if i < m.tasks.len() {
                    assert(ts[i] == m.tasks[i]);
                }
            }
        }
        let ts2 = ts.map_values(|t: TaskModel| task_step(t, item, max_age));
        assert forall|i: int| 0 <= i < ts2.len() implies task_wf(#[trigger] ts2[i]) by {
            assert(task_wf(ts[i]));
            lemma_task_step_wf(ts[i], item, max_age);
        }
        assert forall|i: int, j: int| 0 <= i < j < ts2.len() implies (#[trigger] ts2[i]).task_id
            != (#[trigger] ts2[j]).task_id by {
            assert(ts2[i].task_id == ts[i].task_id);
            assert(ts2[j].task_id == ts[j].task_id);
        }
        assert forall|i: int| 0 <= i < ts2.len() implies (#[trigger] ts2[i]).executor_id
            == m.executor_id by {
            assert(ts2[i].executor_id == ts[i].executor_id);
        }
    }
}

proof fn lemma_find_task_none(tasks: Seq<TaskModel>, id: u32)
    requires
        find_task_index(tasks, id) is None,
    ensures
        forall|i: int| 0 <= i < tasks.len() ==> (#[trigger] tasks[i]).task_id != id,
    decreases tasks.len(),
{
    if tasks.len() > 0 {
        lemma_find_task_none(tasks.drop_first(), id);
        assert forall|i: int| 0 <= i < tasks.len() implies (#[trigger] tasks[i]).task_id != id by {
            if i > 0 {
                assert(tasks[i] == tasks.drop_first()[i - 1]);
            }
        }
    }
}

} // verus!

verus! {

/// After any event, an executor's history holds no entry that ended more than the window
/// before that event, provided events reach it in host-time order.
pub proof fn lemma_executor_history_within_window(
    m: ExecutorModel,
    item: TraceItem,
    max_age: ComputerTime,
    names: Map<u64, String>,
)
    requires
        ordered_ends(executor_end_times(m.history)),
        forall|i: int| 0 <= i < m.history.len() ==> (#[trigger] m.history[i]).end_time.pc.micros
            <= item.time_pair.pc.micros,
    ensures
        forall|i: int|
            0 <= i < executor_step(m, item, max_age, names).history.len() ==> !is_stale(
                (#[trigger] executor_step(m, item, max_age, names).history[i]).end_time.pc,
                item.time_pair.pc,
                max_age,
            ),
{
    let m1 = exec_preempt_step(m, item);
    let m2 = ExecutorModel {
        tasks: tasks_with(m1, item, names).map_values(|t: TaskModel| task_step(t, item, max_age)),
        ..m1
    };
    let m3 = exec_own_step(m2, item);
    let ends = executor_end_times(m3.history);
    assert(forall|i: int| 0 <= i < m1.history.len() ==> (#[trigger] m1.history[i]).end_time.pc.micros
        <= item.time_pair.pc.micros) by {
        assert forall|i: int| 0 <= i < m1.history.len() implies (#[trigger] m1.history[i]).end_time.pc.micros
            <= item.time_pair.pc.micros by {
            if i < m.history.len() {
                assert(m1.history[i] == m.history[i]);
            }
        }
    }
    assert(ordered_ends(executor_end_times(m1.history))) by {
        let e1 = executor_end_times(m1.history);
        assert forall|i: int, j: int| 0 <= i <= j < e1.len() implies e1[i].micros <= e1[j].micros by {
            if j < m.history.len() {
                assert(e1[i] == executor_end_times(m.history)[i]);
                assert(e1[j] == executor_end_times(m.history)[j]);
            } else {
                assert(e1[i] == m1.history[i].end_time.pc);
            }
        }
    }
    assert(ordered_ends(ends)) by {
        let e1 = executor_end_times(m1.history);
        assert forall|i: int, j: int| 0 <= i <= j < ends.len() implies ends[i].micros
            <= ends[j].micros by {
            if j < m1.history.len() {
                assert(ends[i] == e1[i] && ends[j] == e1[j]);
            } else {
                assert(ends[i] == m3.history[i].end_time.pc);
                if i < m1.history.len() {
                    assert(m3.history[i] == m1.history[i]);
                }
            }
        }
    }
    lemma_evicted_within_window(ends, item.time_pair.pc, max_age);
    let k = stale_count(ends, item.time_pair.pc, max_age);
    let h = executor_step(m, item, max_age, names).history;
    assert forall|i: int| 0 <= i < h.len() implies !is_stale(
        (#[trigger] h[i]).end_time.pc,
        item.time_pair.pc,
        max_age,
    ) by {
        assert(h[i] == m3.history[i + k]);
        assert(ends[i + k] == m3.history[i + k].end_time.pc);
    }
}

} // verus!

verus! {

/// An executor record that sees, on its own core and within one window in host-time
/// order, `ExecutorPollStart`, then `TaskExecBegin` and `TaskExecEnd` of one of its tasks,
/// goes `Idle`, `Scheduling`, `Polling`, `Scheduling`, recording the first three states.
pub proof fn lemma_executor_lifecycle(
    m: ExecutorModel,
    t: u32,
    t1: TimePair,
    t2: TimePair,
    t3: TimePair,
    max_age: ComputerTime,
    names: Map<u64, String>,
)
    requires
        m.state == ExecutorState::Idle,
        m.history.len() == 0,
        m.state_start.pc.micros <= t1.pc.micros <= t2.pc.micros <= t3.pc.micros,
        t3.pc.micros - t1.pc.micros <= max_age.micros,
    ensures
        ({
            let e = m.executor_id;
            let c = m.core_id;
            let m1 = executor_step(
                m,
                TraceItem {
                    time_pair: t1,
                    core_id: c,
                    data: TraceItemType::ExecutorPollStart { executor_id: e },
                },
                max_age,
                names,
            );
            let m2 = executor_step(
                m1,
                TraceItem {
                    time_pair: t2,
                    core_id: c,
                    data: TraceItemType::TaskExecBegin { executor_id: e, task_id: t },
                },
                max_age,
                names,
            );
            let m3 = executor_step(
                m2,
                TraceItem {
                    time_pair: t3,
                    core_id: c,
                    data: TraceItemType::TaskExecEnd { executor_id: e, task_id: t },
                },
                max_age,
                names,
            );
            &&& m1.state == ExecutorState::Scheduling
            &&& m2.state == ExecutorState::Polling
            &&& m3.state == ExecutorState::Scheduling
            &&& m3.history.map_values(|h: ExecutorHistoryEntry| h.state) =~= seq![
                ExecutorState::Idle,
                ExecutorState::Scheduling,
                ExecutorState::Polling,
            ]
        }),
{
    let e = m.executor_id;
    let c = m.core_id;
    let i1 = TraceItem {
        time_pair: t1,
        core_id: c,
        data: TraceItemType::ExecutorPollStart { executor_id: e },
    };
    let i2 = TraceItem {
        time_pair: t2,
        core_id: c,
        data: TraceItemType::TaskExecBegin { executor_id: e, task_id: t },
    };
    let i3 = TraceItem {
        time_pair: t3,
        core_id: c,
        data: TraceItemType::TaskExecEnd { executor_id: e, task_id: t },
    };
    let h1 = seq![ExecutorHistoryEntry { state: ExecutorState::Idle, start_time: m.state_start, end_time: t1 }];
    let m1 = executor_step(m, i1, max_age, names);
    assert(exec_own_step(exec_preempt_step(m, i1), i1).history =~= h1);
    assert(executor_end_times(h1) =~= seq![t1.pc]);
    assert(stale_count(executor_end_times(h1), t1.pc, max_age) == 0);
    assert(h1.skip(0) =~= h1);
    assert(m1.history == h1);
    let h2 = h1.push(ExecutorHistoryEntry { state: ExecutorState::Scheduling, start_time: t1, end_time: t2 });
    let m2 = executor_step(m1, i2, max_age, names);
    assert(exec_own_step(exec_preempt_step(m1, i2), i2).history =~= h2);
    assert(executor_end_times(h2) =~= seq![t1.pc, t2.pc]);
    assert(stale_count(executor_end_times(h2), t2.pc, max_age) == 0);
    assert(h2.skip(0) =~= h2);
    assert(m2.history == h2);
    let h3 = h2.push(ExecutorHistoryEntry { state: ExecutorState::Polling, start_time: t2, end_time: t3 });
    let m3 = executor_step(m2, i3, max_age, names);
    assert(exec_own_step(exec_preempt_step(m2, i3), i3).history =~= h3);
    assert(executor_end_times(h3) =~= seq![t1.pc, t2.pc, t3.pc]);
    assert(stale_count(executor_end_times(h3), t3.pc, max_age) == 0);
    assert(h3.skip(0) =~= h3);
    assert(m3.history == h3);
}

} // verus!
