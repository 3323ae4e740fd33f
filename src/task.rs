//! Per-task lifecycle tracking.
//!
//! A task moves `Spawned -> Waiting -> Running -> Idle -> Waiting -> ...`, may end from
//! `Running`, and is `Preempted` while a higher-priority executor on its core polls.
//! Every change of state appends the state that just ended to a history, which keeps
//! only what lies inside the configured host-time window.
use std::collections::{HashMap, VecDeque};
use vstd::prelude::*;

use crate::elf_file::{short_name, try_extract_short_name};
use crate::text::{hex, push_hex, push_str};
use crate::time::{extrapolated_uc, sat_add, sat_sub, ComputerTime, EmbassyTime, TimePair};
use crate::trace_data::{executor_of, task_of, TraceItem, TraceItemType};
use crate::window::{is_stale, lemma_evicted_within_window, ordered_ends, stale_count};

verus! {

broadcast use vstd::std_specs::hash::group_hash_axioms;

#[derive(Debug, Clone, Copy, PartialEq, Eq, Structural)]
pub enum TaskTraceState {
    Spawned,
    Waiting,
    Running,
    /// Interrupted by a higher-priority executor polling on the same core.
    Preempted { by_executor_id: u32 },
    Idle,
    Ended,
}

/// A state that has ended, with when it began and ended.
#[derive(Debug, Clone, Copy, PartialEq, Eq, Structural)]
pub struct TaskHistoryEntry {
    pub state: TaskTraceState,
    pub start_time: TimePair,
    pub end_time: TimePair,
}

/// Device time from `start` to `end`, zero if the device clock ran backwards.
pub open spec fn uc_span(start: TimePair, end: TimePair) -> int {
    sat_sub(end.uc.micros as int, start.uc.micros as int)
}

impl TaskHistoryEntry {
    /// Duration of this entry, by device timestamps.
    pub fn get_uc_duration(&self) -> (r: EmbassyTime)
        ensures
            r.micros == uc_span(self.start_time, self.end_time),
    {
        self.end_time.uc.saturating_sub(self.start_time.uc)
    }
}

/// What a task record holds, as plain values.
pub struct TaskModel {
    pub task_id: u32,
    pub name: Option<Seq<char>>,
    pub executor_id: u32,
    pub core_id: u32,
    pub created_at: TimePair,
    pub state: TaskTraceState,
    pub state_start: TimePair,
    pub history: Seq<TaskHistoryEntry>,
}

/// Host times at which the history entries ended.
pub open spec fn task_end_times(h: Seq<TaskHistoryEntry>) -> Seq<ComputerTime> {
    h.map_values(|e: TaskHistoryEntry| e.end_time.pc)
}

/// The record's invariant: the current state began when the last recorded one ended,
/// entries follow each other without gap, and no two neighbours record the same state.
pub open spec fn task_wf(m: TaskModel) -> bool {
    &&& m.history.len() > 0 ==> m.state_start == m.history.last().end_time
    &&& m.history.len() > 0 ==> m.history.last().state != m.state
    &&& forall|i: int|
        0 <= i < m.history.len() - 1 ==> (#[trigger] m.history[i]).end_time == m.history[i
            + 1].start_time && m.history[i].state != m.history[i + 1].state
}

/// The display name resolved for `id` from the symbol table `names`, if it holds one.
pub open spec fn resolved_task_name(names: Map<u64, String>, id: u32) -> Option<Seq<char>> {
    if names.contains_key(id as u64) {
        Some(short_name(names[id as u64]@))
    } else {
        None
    }
}

/// A record for a task first seen at `at`.
pub open spec fn new_task(
    task_id: u32,
    executor_id: u32,
    core_id: u32,
    at: TimePair,
    names: Map<u64, String>,
) -> TaskModel {
    TaskModel {
        task_id,
        name: resolved_task_name(names, task_id),
        executor_id,
        core_id,
        created_at: at,
        state: TaskTraceState::Spawned,
        state_start: at,
        history: Seq::empty(),
    }
}

/// Moves to `s` at `at`, recording the state that ends; nothing happens if `s` is the
/// current state.
pub open spec fn task_set_state(m: TaskModel, s: TaskTraceState, at: TimePair) -> TaskModel {
    if m.state != s {
        TaskModel {
            history: m.history.push(
                TaskHistoryEntry { state: m.state, start_time: m.state_start, end_time: at },
            ),
            state: s,
            state_start: at,
            ..m
        }
    } else {
        m
    }
}

/// Where an event of this very task moves it from state `s`, if anywhere.
pub open spec fn task_rules(s: TaskTraceState, k: TraceItemType) -> Option<TaskTraceState> {
    match s {
        TaskTraceState::Spawned => if k is TaskReadyBegin {
            Some(TaskTraceState::Waiting)
        } else {
            None
        },
        TaskTraceState::Waiting => if k is TaskExecBegin {
            Some(TaskTraceState::Running)
        } else {
            None
        },
        TaskTraceState::Running => if k is TaskExecEnd {
            Some(TaskTraceState::Idle)
        } else if k is TaskReadyBegin {
            Some(TaskTraceState::Waiting)
        } else if k is TaskEnd {
            Some(TaskTraceState::Ended)
        } else {
            None
        },
        TaskTraceState::Idle => if k is TaskReadyBegin {
            Some(TaskTraceState::Waiting)
        } else {
            None
        },
        _ => None,
    }
}

/// Whether `item` preempts a running task: another executor starts polling on its core.
pub open spec fn preempts_task(m: TaskModel, item: TraceItem) -> bool {
    &&& m.state == TaskTraceState::Running
    &&& item.data is ExecutorPollStart
    &&& item.core_id == m.core_id
    &&& executor_of(item.data) != m.executor_id
}

/// Whether `item` resumes a preempted task: its preempting executor goes idle.
pub open spec fn resumes_task(m: TaskModel, item: TraceItem) -> bool {
    &&& m.state is Preempted
    &&& item.data is ExecutorIdle
    &&& executor_of(item.data) == m.state->by_executor_id
}

/// Whether `item` is an event of this very task.
pub open spec fn targets_task(m: TaskModel, item: TraceItem) -> bool {
    executor_of(item.data) == m.executor_id && task_of(item.data) == Some(m.task_id)
}

/// The state change that `item` causes, if any: preemption and resumption apply whatever
/// task the event is about; otherwise only an event of this very task moves it.
pub open spec fn task_transition(m: TaskModel, item: TraceItem) -> TaskModel {
    if preempts_task(m, item) {
        task_set_state(
            m,
            TaskTraceState::Preempted { by_executor_id: executor_of(item.data) },
            item.time_pair,
        )
    } else if resumes_task(m, item) {
        task_set_state(m, TaskTraceState::Running, item.time_pair)
    } else if !targets_task(m, item) {
        m
    } else {
        match task_rules(m.state, item.data) {
            Some(s) => task_set_state(m, s, item.time_pair),
            None => m,
        }
    }
}

/// `m` without the history entries that ended more than `max_age` before `now`.
pub open spec fn task_evict(m: TaskModel, now: ComputerTime, max_age: ComputerTime) -> TaskModel {
    TaskModel {
        history: m.history.skip(stale_count(task_end_times(m.history), now, max_age) as int),
        ..m
    }
}

/// The record after `item`, with a history window of `max_age`: the state change, then
/// eviction of stale history, after every event.
pub open spec fn task_step(m: TaskModel, item: TraceItem, max_age: ComputerTime) -> TaskModel {
    task_evict(task_transition(m, item), item.time_pair.pc, max_age)
}

/// Device time spent in the current state until host moment `now`.
pub open spec fn task_current_span(m: TaskModel, now: ComputerTime) -> int {
    sat_sub(extrapolated_uc(m.state_start, now), m.state_start.uc.micros as int)
}

/// Device time recorded in history for state `s`.
pub open spec fn task_state_time(h: Seq<TaskHistoryEntry>, s: TaskTraceState) -> int
    decreases h.len(),
{
    if h.len() == 0 {
        0
    } else {
        task_state_time(h.drop_last(), s) + if h.last().state == s {
            uc_span(h.last().start_time, h.last().end_time)
        } else {
            0
        }
    }
}

/// Durations of the `Waiting` entries, oldest first.
pub open spec fn waiting_spans(h: Seq<TaskHistoryEntry>) -> Seq<int>
    decreases h.len(),
{
    if h.len() == 0 {
        Seq::empty()
    } else if h.last().state == TaskTraceState::Waiting {
        waiting_spans(h.drop_last()).push(uc_span(h.last().start_time, h.last().end_time))
    } else {
        waiting_spans(h.drop_last())
    }
}

/// Smallest element; the largest `u64` for none.
pub open spec fn seq_min(d: Seq<int>) -> int
    decreases d.len(),
{
    if d.len() == 0 {
        u64::MAX as int
    } else if d.last() < seq_min(d.drop_last()) {
        d.last()
    } else {
        seq_min(d.drop_last())
    }
}

/// Largest element; zero for none.
pub open spec fn seq_max(d: Seq<int>) -> int
    decreases d.len(),
{
    if d.len() == 0 {
        0
    } else if d.last() > seq_max(d.drop_last()) {
        d.last()
    } else {
        seq_max(d.drop_last())
    }
}

pub open spec fn seq_sum(d: Seq<int>) -> int
    decreases d.len(),
{
    if d.len() == 0 {
        0
    } else {
        seq_sum(d.drop_last()) + d.last()
    }
}

/// Minimum, mean, maximum and count of waiting times at host moment `now`: the recorded
/// waits, plus the ongoing one if the task waits now. The ongoing wait counts toward the
/// mean and the count only once it is longer than the shortest recorded wait; it raises
/// the maximum whenever it exceeds it.
pub open spec fn waiting_stats(m: TaskModel, now: ComputerTime) -> Option<(int, int, int, int)> {
    let d = waiting_spans(m.history);
    let cur = task_current_span(m, now);
    let waiting = m.state == TaskTraceState::Waiting;
    let counted = waiting && cur > seq_min(d);
    let sum = seq_sum(d) + if counted {
        cur
    } else {
        0
    };
    let count = d.len() + if counted {
        1int
    } else {
        0
    };
    let max = if waiting && cur > seq_max(d) {
        cur
    } else {
        seq_max(d)
    };
    if count == 0 {
        None
    } else {
        Some((seq_min(d), sum / count, max, count))
    }
}

/// Name shown for a task: its resolved name, else `Task 0x<ID>` in uppercase hex.
pub open spec fn task_display_name(m: TaskModel) -> Seq<char> {
    match m.name {
        Some(n) => n,
        None => "Task 0x"@ + hex(m.task_id as nat),
    }
}

/// Tracks one task of one executor.
pub struct TaskTraceInfo {
    task_id: u32,
    task_name: Option<String>,
    executor_id: u32,
    core_id: u32,
    created_at: TimePair,
    state: TaskTraceState,
    state_start_time: TimePair,
    state_history: VecDeque<TaskHistoryEntry>,
}

impl View for TaskTraceInfo {
    type V = TaskModel;

    closed spec fn view(&self) -> TaskModel {
        TaskModel {
            task_id: self.task_id,
            name: match self.task_name {
                Some(n) => Some(n@),
                None => None,
            },
            executor_id: self.executor_id,
            core_id: self.core_id,
            created_at: self.created_at,
            state: self.state,
            state_start: self.state_start_time,
            history: self.state_history@,
        }
    }
}

/// Drops, oldest first, the entries that ended more than `max_age` before `now`.
fn evict_task_history(h: &mut VecDeque<TaskHistoryEntry>, now: ComputerTime, max_age: ComputerTime)
    ensures
        final(h)@ == old(h)@.skip(stale_count(task_end_times(old(h)@), now, max_age) as int),
{
    let ghost orig = h@;
    let ghost mut k: int = 0;
    while h.len() > 0 && now.micros.saturating_sub(h[0].end_time.pc.micros) > max_age.micros
        invariant
            0 <= k <= orig.len(),
            h@ == orig.skip(k),
            stale_count(task_end_times(orig), now, max_age) == k + stale_count(
                task_end_times(h@),
                now,
                max_age,
            ),
        decreases h@.len(),
    {
        proof {
            assert(task_end_times(h@)[0] == h@[0].end_time.pc);
            assert(task_end_times(h@).drop_first() =~= task_end_times(h@.drop_first()));
        }
        h.pop_front();
        proof {
            k = k + 1;
            assert(h@ =~= orig.skip(k));
        }
    }
    proof {
        if h@.len() > 0 {
            assert(task_end_times(h@)[0] == h@[0].end_time.pc);
        }
    }
}

impl TaskTraceInfo {
    /// A record for a task first seen at `created_at`; its name is looked up in `names`
    /// (by the task id, which is the address of the task's future).
    pub fn new(
        task_id: u32,
        executor_id: u32,
        core_id: u32,
        created_at: TimePair,
        names: &HashMap<u64, String>,
    ) -> (r: Self)
        ensures
            r@ == new_task(task_id, executor_id, core_id, created_at, names@),
            task_wf(r@),
    {
        let task_name = match names.get(&(task_id as u64)) {
            Some(name) => Some(try_extract_short_name(name.as_str()).to_owned()),
            None => None,
        };
        let r = TaskTraceInfo {
            task_id,
            task_name,
            executor_id,
            core_id,
            created_at,
            state: TaskTraceState::Spawned,
            state_start_time: created_at,
            state_history: VecDeque::new(),
        };
        assert(r@.history =~= Seq::<TaskHistoryEntry>::empty());
        r
    }

    pub fn get_task_id(&self) -> (r: u32)
        ensures
            r == self@.task_id,
    {
        self.task_id
    }

    pub fn get_task_name(&self) -> (r: Option<&String>)
        ensures
            match r {
                Some(n) => self@.name == Some(n@),
                None => self@.name is None,
            },
    {
        match &self.task_name {
            Some(n) => Some(n),
            None => None,
        }
    }

    /// The resolved name, or `Task 0x<ID>` in uppercase hex.
    pub fn get_task_display_name(&self) -> (r: String)
        ensures
            r@ == task_display_name(self@),
    {
        match &self.task_name {
            Some(name) => name.clone(),
            None => {
                let mut s = String::new();
                push_str(&mut s, "Task 0x");
                push_hex(&mut s, self.task_id as u64);
                s
            },
        }
    }

    pub fn get_executor_id(&self) -> (r: u32)
        ensures
            r == self@.executor_id,
    {
        self.executor_id
    }

    pub fn get_core_id(&self) -> (r: u32)
        ensures
            r == self@.core_id,
    {
        self.core_id
    }

    pub fn get_state(&self) -> (r: &TaskTraceState)
        ensures
            *r == self@.state,
    {
        &self.state
    }

    pub fn get_created_at(&self) -> (r: TimePair)
        ensures
            r == self@.created_at,
    {
        self.created_at
    }

    pub fn get_state_start_time(&self) -> (r: TimePair)
        ensures
            r == self@.state_start,
    {
        self.state_start_time
    }

    /// The recorded states, oldest first.
    pub fn get_history(&self) -> (r: &VecDeque<TaskHistoryEntry>)
        ensures
            r@ == self@.history,
    {
        &self.state_history
    }

    fn set_new_state(&mut self, new_state: TaskTraceState, timestamp: TimePair)
        ensures
            final(self)@ == task_set_state(old(self)@, new_state, timestamp),
    {
        if self.state != new_state {
            let hist_entry = TaskHistoryEntry {
                state: self.state,
                start_time: self.state_start_time,
                end_time: timestamp,
            };
            self.state_history.push_back(hist_entry);
            self.state = new_state;
            self.state_start_time = timestamp;
        }
    }

    /// Applies one event; see `task_step`.
    pub fn update(&mut self, trace_item: &TraceItem, max_age: ComputerTime)
        ensures
            final(self)@ == task_step(old(self)@, *trace_item, max_age),
            task_wf(old(self)@) ==> task_wf(final(self)@),
    {
        proof {
            if task_wf(self@) {
                lemma_task_step_wf(self@, *trace_item, max_age);
            }
        }
        self.apply_transition(trace_item);
        evict_task_history(&mut self.state_history, trace_item.time_pair.pc, max_age);
    }

    /// The state change for one event; see `task_transition`.
    fn apply_transition(&mut self, trace_item: &TraceItem)
        ensures
            final(self)@ == task_transition(old(self)@, *trace_item),
    {
        if self.state == TaskTraceState::Running {
            if let TraceItemType::ExecutorPollStart { executor_id } = trace_item.data {
                if trace_item.core_id == self.core_id && executor_id != self.executor_id {
                    self.set_new_state(
                        TaskTraceState::Preempted { by_executor_id: executor_id },
                        trace_item.time_pair,
                    );
                    return ;
                }
            }
        }
        if let TaskTraceState::Preempted { by_executor_id } = self.state {
            if let TraceItemType::ExecutorIdle { executor_id } = trace_item.data {
                if executor_id == by_executor_id {
                    self.set_new_state(TaskTraceState::Running, trace_item.time_pair);
                    return ;
                }
            }
        }
        if trace_item.data.get_executor_id() != self.executor_id {
            return ;
        }
        match trace_item.data.get_task_id() {
            Some(tid) => {
                if tid != self.task_id {
                    return ;
                }
            },
            None => {
                return ;
            },
        }
        let at = trace_item.time_pair;
        match self.state {
            TaskTraceState::Spawned => {
                if let TraceItemType::TaskReadyBegin { .. } = trace_item.data {
                    self.set_new_state(TaskTraceState::Waiting, at);
                }
            },
            TaskTraceState::Waiting => {
                if let TraceItemType::TaskExecBegin { .. } = trace_item.data {
                    self.set_new_state(TaskTraceState::Running, at);
                }
            },
            TaskTraceState::Running => {
                match trace_item.data {
                    TraceItemType::TaskExecEnd { .. } => {
                        self.set_new_state(TaskTraceState::Idle, at);
                    },
                    TraceItemType::TaskReadyBegin { .. } => {
                        self.set_new_state(TaskTraceState::Waiting, at);
                    },
                    TraceItemType::TaskEnd { .. } => {
                        self.set_new_state(TaskTraceState::Ended, at);
                    },
                    _ => {},
                }
            },
            TaskTraceState::Idle => {
                if let TraceItemType::TaskReadyBegin { .. } = trace_item.data {
                    self.set_new_state(TaskTraceState::Waiting, at);
                }
            },
            TaskTraceState::Ended => {},
            TaskTraceState::Preempted { .. } => {},
        }
    }

    /// Device time now, projected from the start of the current state.
    fn extrapolate_current_state_duration(&self, now: ComputerTime) -> (r: EmbassyTime)
        ensures
            r.micros == extrapolated_uc(self@.state_start, now),
    {
        self.state_start_time.extrapolate_uc(now)
    }

    fn calc_current_state_duration(&self, now: ComputerTime) -> (r: EmbassyTime)
        ensures
            r.micros == task_current_span(self@, now),
    {
        let estimated_now = self.extrapolate_current_state_duration(now);
        estimated_now.saturating_sub(self.state_start_time.uc)
    }

    /// Device time from the start of the oldest recorded state (or from zero, with no
    /// history) until host moment `now`.
    pub fn calc_total_history_duration(&self, now: ComputerTime) -> (r: EmbassyTime)
        ensures
            r.micros == sat_sub(
                extrapolated_uc(self@.state_start, now),
                if self@.history.len() > 0 {
                    self@.history[0].start_time.uc.micros as int
                } else {
                    0
                },
            ),
    {
        let start_uc = if self.state_history.len() > 0 {
            self.state_history[0].start_time.uc
        } else {
            EmbassyTime::from_micros(0)
        };
        let estimated_now = self.extrapolate_current_state_duration(now);
        estimated_now.saturating_sub(start_uc)
    }

    /// Device time spent in `state` across the history, plus the ongoing part if the task
    /// is in `state` now; saturates at the largest representable time.
    pub fn calc_total_history_state_duration(&self, state: TaskTraceState, now: ComputerTime) -> (r:
        EmbassyTime)
        ensures
            r.micros == sat_add(
                0,
                task_state_time(self@.history, state) + if self@.state == state {
                    task_current_span(self@, now)
                } else {
                    0
                },
            ),
    {
        let ghost h = self@.history;
        let mut total = EmbassyTime::from_micros(0);
        let mut i: usize = 0;
        while i < self.state_history.len()
            invariant
                h == self@.history,
                0 <= i <= h.len(),
                total.micros == sat_add(0, task_state_time(h.take(i as int), state)),
            decreases h.len() - i,
        {
            proof {
                lemma_task_state_time_nonneg(h.take(i as int), state);
                assert(h.take(i + 1).drop_last() =~= h.take(i as int));
            }
            let e = self.state_history[i];
            if e.state == state {
                total = total.saturating_add(e.get_uc_duration());
            }
            i = i + 1;
        }
        assert(h.take(i as int) =~= h);
        proof {
            lemma_task_state_time_nonneg(h, state);
        }
        if self.state == state {
            total = total.saturating_add(self.calc_current_state_duration(now));
        }
        total
    }

    /// Minimum, mean, maximum and count of waiting times; `None` when there is none to
    /// count. See `waiting_stats`.
    pub fn calc_min_mean_max_count_waiting_time(&self, now: ComputerTime) -> (r: Option<
        (EmbassyTime, EmbassyTime, EmbassyTime, usize),
    >)
        requires
            task_wf(self@),
        ensures
            match waiting_stats(self@, now) {
                Some((mn, mean, mx, n)) => r matches Some((a, b, c, k)) && a.micros == mn
                    && b.micros == mean && c.micros == mx && k == n,
                None => r is None,
            },
    {
        let ghost h = self@.history;
        let mut min: u64 = u64::MAX;
        let mut max: u64 = 0;
        let mut sum: u128 = 0;
        let mut count: usize = 0;
        let mut i: usize = 0;
        while i < self.state_history.len()
            invariant
                h == self@.history,
                0 <= i <= h.len(),
                min == seq_min(waiting_spans(h.take(i as int))),
                max == seq_max(waiting_spans(h.take(i as int))),
                sum == seq_sum(waiting_spans(h.take(i as int))),
                count == waiting_spans(h.take(i as int)).len(),
                count <= i,
                sum <= count * (u64::MAX as int),
            decreases h.len() - i,
        {
            proof {
                assert(h.take(i + 1).drop_last() =~= h.take(i as int));
            }
            let e = self.state_history[i];
            proof {
                assert(h.take(i + 1).last() == e);
            }
            if e.state == TaskTraceState::Waiting {
                let d = e.get_uc_duration().micros;
                proof {
                    let ws = waiting_spans(h.take(i as int));
                    assert(waiting_spans(h.take(i + 1)) == ws.push(d as int));
                    assert(ws.push(d as int).drop_last() =~= ws);
                }
                if d < min {
                    min = d;
                }
                if d > max {
                    max = d;
                }
                proof {
                    assert(sum + d <= (count + 1) * (u64::MAX as int)) by (nonlinear_arith)
                        requires
                            sum <= count * (u64::MAX as int),
                            d <= u64::MAX,
                    ;
                    assert((count + 1) * (u64::MAX as int) <= u128::MAX) by (nonlinear_arith)
                        requires
                            count < usize::MAX,
                    ;
                }
                sum = sum + d as u128;
                count = count + 1;
            }
            i = i + 1;
        }
        assert(h.take(i as int) =~= h);
        let ghost d = waiting_spans(h);
        proof {
            lemma_waiting_spans_bounds(h);
            lemma_waiting_count(h);
        }
        if self.state == TaskTraceState::Waiting {
            let current = self.calc_current_state_duration(now).micros;
            if current > min {
                proof {
                    assert(sum + current <= (count + 1) * (u64::MAX as int)) by (nonlinear_arith)
                        requires
                            sum <= count * (u64::MAX as int),
                            current <= u64::MAX,
                    ;
                }
                sum = sum + current as u128;
                count = count + 1;
            }
            if current > max {
                max = current;
            }
        }
        if count == 0 {
            None
        } else {
            proof {
                let c = count as int;
                let s = sum as int;
                let m = max as int;
                assert(s <= c * m) by {
                    if self.state == TaskTraceState::Waiting && task_current_span(self@, now)
                        > seq_min(d) {
                        assert(seq_sum(d) <= d.len() * seq_max(d));
                        assert(s <= c * m) by (nonlinear_arith)
                            requires
                                s == seq_sum(d) + task_current_span(self@, now),
                                c == d.len() + 1,
                                seq_sum(d) <= d.len() * seq_max(d),
                                seq_max(d) <= m,
                                task_current_span(self@, now) <= m,
                                d.len() >= 0,
                        ;
                    } else {
                        assert(s <= c * m) by (nonlinear_arith)
                            requires
                                s == seq_sum(d),
                                c == d.len(),
                                seq_sum(d) <= d.len() * seq_max(d),
                                seq_max(d) <= m,
                                d.len() >= 0,
                        ;
                    }
                }
                assert(s / c <= m) by (nonlinear_arith)
                    requires
                        s <= c * m,
                        c > 0,
                ;
            }
            let mean = (sum / count as u128) as u64;
            Some(
                (
                    EmbassyTime::from_micros(min),
                    EmbassyTime::from_micros(mean),
                    EmbassyTime::from_micros(max),
                    count,
                ),
            )
        }
    }
}

proof fn lemma_task_state_time_nonneg(h: Seq<TaskHistoryEntry>, s: TaskTraceState)
    ensures
        task_state_time(h, s) >= 0,
    decreases h.len(),
{
    if h.len() > 0 {
        lemma_task_state_time_nonneg(h.drop_last(), s);
    }
}

proof fn lemma_waiting_spans_bounds(h: Seq<TaskHistoryEntry>)
    ensures
        waiting_spans(h).len() <= h.len(),
        0 <= seq_max(waiting_spans(h)) <= u64::MAX,
        0 <= seq_min(waiting_spans(h)) <= u64::MAX,
        0 <= seq_sum(waiting_spans(h)) <= waiting_spans(h).len() * seq_max(waiting_spans(h)),
    decreases h.len(),
{
    if h.len() > 0 {
        let t = h.drop_last();
        lemma_waiting_spans_bounds(t);
        let d = waiting_spans(t);
        if h.last().state == TaskTraceState::Waiting {
            let x = uc_span(h.last().start_time, h.last().end_time);
            let dd = d.push(x);
            assert(dd.drop_last() =~= d);
            let m = seq_max(dd);
            assert(seq_sum(d) <= d.len() * m) by (nonlinear_arith)
                requires
                    seq_sum(d) <= d.len() * seq_max(d),
                    seq_max(d) <= m,
                    d.len() >= 0,
            ;
            assert(seq_sum(dd) <= dd.len() * m) by (nonlinear_arith)
                requires
                    seq_sum(dd) == seq_sum(d) + x,
                    seq_sum(d) <= d.len() * m,
                    x <= m,
                    dd.len() == d.len() + 1,
            ;
        }
    }
}

/// No two neighbouring entries wait, so at most every other one does.
proof fn lemma_waiting_count(h: Seq<TaskHistoryEntry>)
    requires
        forall|i: int|
            0 <= i < h.len() - 1 ==> (#[trigger] h[i]).state != h[i + 1].state,
    ensures
        waiting_spans(h).len() * 2 <= h.len() + 1,
    decreases h.len(),
{
    if h.len() >= 2 {
        let t = h.drop_last();
        let u = t.drop_last();
        assert forall|i: int| 0 <= i < t.len() - 1 implies (#[trigger] t[i]).state != t[i
            + 1].state by {
            assert(t[i] == h[i] && t[i + 1] == h[i + 1]);
        }
        assert forall|i: int| 0 <= i < u.len() - 1 implies (#[trigger] u[i]).state != u[i
            + 1].state by {
            assert(u[i] == h[i] && u[i + 1] == h[i + 1]);
        }
        lemma_waiting_count(t);
        lemma_waiting_count(u);
        assert(h[h.len() - 2].state != h[h.len() - 1].state);
        assert(t.last() == h[h.len() - 2]);
        if h.last().state == TaskTraceState::Waiting {
            assert(t.last().state != TaskTraceState::Waiting);
            assert(waiting_spans(t) == waiting_spans(u));
            assert(waiting_spans(h).len() == waiting_spans(t).len() + 1);
        } else {
            assert(waiting_spans(h) == waiting_spans(t));
        }
    } else if h.len() == 1 {
        assert(waiting_spans(h.drop_last()).len() == 0);
        assert(waiting_spans(h).len() <= 1);
    }
}

/// Applying any event to a well-formed task record gives a well-formed record: in
/// particular the current state always begins where the last recorded state ended, and
/// recorded states follow one another without gap.
pub proof fn lemma_task_step_wf(m: TaskModel, item: TraceItem, max_age: ComputerTime)
    requires
        task_wf(m),
    ensures
        task_wf(task_step(m, item, max_age)),
        task_step(m, item, max_age).history.len() > 0 ==> task_step(m, item, max_age).state_start
            == task_step(m, item, max_age).history.last().end_time,
{
    assert forall|s: TaskTraceState, at: TimePair| task_wf(#[trigger] task_set_state(m, s, at)) by {
        let m2 = task_set_state(m, s, at);
        if m.state != s {
            assert forall|i: int| 0 <= i < m2.history.len() - 1 implies (#[trigger] m2.history[i]).end_time
                == m2.history[i + 1].start_time && m2.history[i].state != m2.history[i + 1].state by {
                if i < m.history.len() - 1 {
                    assert(m2.history[i] == m.history[i]);
                    assert(m2.history[i + 1] == m.history[i + 1]);
                }
            }
        }
    }
    let m2 = task_transition(m, item);
    assert(task_wf(m2));
    let k = stale_count(task_end_times(m2.history), item.time_pair.pc, max_age);
    crate::window::lemma_stale_count_bound(task_end_times(m2.history), item.time_pair.pc, max_age);
    let h2 = m2.history.skip(k as int);
    assert forall|i: int| 0 <= i < h2.len() - 1 implies (#[trigger] h2[i]).end_time
        == h2[i + 1].start_time && h2[i].state != h2[i + 1].state by {
        assert(h2[i] == m2.history[i + k]);
        assert(h2[i + 1] == m2.history[i + 1 + k]);
    }
    if h2.len() > 0 {
        assert(h2.last() == m2.history.last());
    }
}

/// A state change keeps the recorded entries and appends at most one, which ends at the
/// event.
proof fn lemma_task_transition_shape(m: TaskModel, item: TraceItem)
    ensures
        task_transition(m, item).history.len() == m.history.len() || (task_transition(
            m,
            item,
        ).history.len() == m.history.len() + 1 && task_transition(m, item).history.last().end_time
            == item.time_pair),
        task_transition(m, item).history.len() >= m.history.len(),
        forall|i: int|
            0 <= i < m.history.len() ==> (#[trigger] task_transition(m, item).history[i])
                == m.history[i],
{
}

} // verus!

verus! {

/// After any event, a task's history holds no entry that ended more than the window
/// before that event, provided events reach the task in host-time order.
pub proof fn lemma_task_history_within_window(m: TaskModel, item: TraceItem, max_age: ComputerTime)
    requires
        ordered_ends(task_end_times(m.history)),
        forall|i: int| 0 <= i < m.history.len() ==> (#[trigger] m.history[i]).end_time.pc.micros
            <= item.time_pair.pc.micros,
    ensures
        forall|i: int|
            0 <= i < task_step(m, item, max_age).history.len() ==> !is_stale(
                (#[trigger] task_step(m, item, max_age).history[i]).end_time.pc,
                item.time_pair.pc,
                max_age,
            ),
{
    lemma_task_transition_shape(m, item);
    let m2 = task_transition(m, item);
    let ends = task_end_times(m2.history);
    assert(ordered_ends(ends)) by {
        assert forall|i: int, j: int| 0 <= i <= j < ends.len() implies ends[i].micros
            <= ends[j].micros by {
            if j < m.history.len() {
                assert(ends[i] == task_end_times(m.history)[i]);
                assert(ends[j] == task_end_times(m.history)[j]);
            } else {
                assert(ends[j] == item.time_pair.pc);
                if i < m.history.len() {
                    assert(ends[i] == m.history[i].end_time.pc);
                }
            }
        }
    }
    lemma_evicted_within_window(ends, item.time_pair.pc, max_age);
    let k = stale_count(ends, item.time_pair.pc, max_age);
    let h = task_step(m, item, max_age).history;
    assert forall|i: int| 0 <= i < h.len() implies !is_stale(
        (#[trigger] h[i]).end_time.pc,
        item.time_pair.pc,
        max_age,
    ) by {
        assert(h[i] == m2.history[i + k]);
        assert(ends[i + k] == m2.history[i + k].end_time.pc);
    }
}

} // verus!

verus! {

/// While a task waits, an ongoing wait no longer than the shortest recorded one leaves
/// the count and the mean as the recorded waits alone give them, and the maximum rises
/// only if the ongoing wait exceeds it.
pub proof fn lemma_short_ongoing_wait(m: TaskModel, now: ComputerTime)
    requires
        m.state == TaskTraceState::Waiting,
        waiting_spans(m.history).len() > 0,
        task_current_span(m, now) <= seq_min(waiting_spans(m.history)),
    ensures
        ({
            let d = waiting_spans(m.history);
            let cur = task_current_span(m, now);
            waiting_stats(m, now) == Some(
                (
                    seq_min(d),
                    seq_sum(d) / (d.len() as int),
                    if cur > seq_max(d) {
                        cur
                    } else {
                        seq_max(d)
                    },
                    d.len() as int,
                ),
            )
        }),
{
}

} // verus!

verus! {

proof fn lemma_spans_between(d: Seq<int>)
    requires
        forall|i: int| 0 <= i < d.len() ==> 0 <= #[trigger] d[i] <= u64::MAX,
    ensures
        forall|i: int| 0 <= i < d.len() ==> seq_min(d) <= #[trigger] d[i] <= seq_max(d),
        seq_sum(d) >= d.len() * seq_min(d),
        seq_sum(d) <= d.len() * seq_max(d),
        d.len() > 0 ==> seq_min(d) <= seq_max(d),
    decreases d.len(),
{
    if d.len() > 0 {
        let p = d.drop_last();
        assert forall|i: int| 0 <= i < p.len() implies 0 <= #[trigger] p[i] <= u64::MAX by {
            assert(p[i] == d[i]);
        }
        lemma_spans_between(p);
        assert forall|i: int| 0 <= i < d.len() implies seq_min(d) <= #[trigger] d[i] <= seq_max(d) by {
            if i < p.len() {
                assert(d[i] == p[i]);
            }
        }
        let a = seq_min(d);
        let b = seq_max(d);
        assert(seq_min(p) >= a && seq_max(p) <= b);
        assert(seq_sum(p) >= p.len() * a) by (nonlinear_arith)
            requires
                seq_sum(p) >= p.len() * seq_min(p),
                seq_min(p) >= a,
                p.len() >= 0,
        ;
        assert(seq_sum(p) <= p.len() * b) by (nonlinear_arith)
            requires
                seq_sum(p) <= p.len() * seq_max(p),
                seq_max(p) <= b,
                p.len() >= 0,
        ;
        assert(d.last() == d[d.len() - 1]);
        assert(seq_sum(d) >= d.len() * a) by (nonlinear_arith)
            requires
                seq_sum(d) == seq_sum(p) + d.last(),
                seq_sum(p) >= p.len() * a,
                d.last() >= a,
                d.len() == p.len() + 1,
        ;
        assert(seq_sum(d) <= d.len() * b) by (nonlinear_arith)
            requires
                seq_sum(d) == seq_sum(p) + d.last(),
                seq_sum(p) <= p.len() * b,
                d.last() <= b,
                d.len() == p.len() + 1,
        ;
    }
}

proof fn lemma_waiting_spans_range(h: Seq<TaskHistoryEntry>)
    ensures
        forall|i: int|
            0 <= i < waiting_spans(h).len() ==> 0 <= #[trigger] waiting_spans(h)[i] <= u64::MAX,
    decreases h.len(),
{
    if h.len() > 0 {
        lemma_waiting_spans_range(h.drop_last());
        let p = waiting_spans(h.drop_last());
        assert forall|i: int| 0 <= i < waiting_spans(h).len() implies 0 <= #[trigger] waiting_spans(
            h,
        )[i] <= u64::MAX by {
            if i < p.len() {
                assert(waiting_spans(h)[i] == p[i]);
            }
        }
    }
}

/// Waiting statistics are ordered: the minimum is at most the mean, and the mean at most
/// the maximum.
pub proof fn lemma_waiting_stats_ordered(m: TaskModel, now: ComputerTime)
    ensures
        waiting_stats(m, now) matches Some((mn, mean, mx, n)) ==> n > 0 && mn <= mean <= mx,
{
    let d = waiting_spans(m.history);
    let cur = task_current_span(m, now);
    lemma_waiting_spans_range(m.history);
    lemma_spans_between(d);
    if let Some((mn, mean, mx, n)) = waiting_stats(m, now) {
        let counted = m.state == TaskTraceState::Waiting && cur > seq_min(d);
        assert(cur <= u64::MAX);
        assert(d.len() > 0);
        let s = seq_sum(d) + if counted { cur } else { 0 };
        if counted {
            assert(s >= n * mn && s <= n * mx) by (nonlinear_arith)
                requires
                    s == seq_sum(d) + cur,
                    n == d.len() + 1,
                    seq_sum(d) >= d.len() * mn,
                    seq_sum(d) <= d.len() * seq_max(d),
                    seq_max(d) <= mx,
                    cur >= mn,
                    cur <= mx,
                    d.len() >= 0,
            ;
        } else {
            assert(s >= n * mn && s <= n * mx) by (nonlinear_arith)
                requires
                    s == seq_sum(d),
                    n == d.len(),
                    seq_sum(d) >= d.len() * mn,
                    seq_sum(d) <= d.len() * seq_max(d),
                    seq_max(d) <= mx,
                    d.len() >= 0,
            ;
        }
        assert(mn <= s / n <= mx) by (nonlinear_arith)
            requires
                s >= n * mn,
                s <= n * mx,
                n > 0,
        ;
    }
}

} // verus!
