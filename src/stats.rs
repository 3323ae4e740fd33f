//! Utilization and latency summaries derived from the tracked records: per task, per
//! executor, per core (executors grouped by core, cores in ascending order) and overall.
use itertools::Itertools;
use vstd::prelude::*;

use crate::executor::{
    executor_display_name, executor_utilization, executor_wf, ExecutorModel, ExecutorTraceInfo,
};
use crate::task::{
    task_current_span, task_display_name, task_state_time, task_wf, waiting_stats, TaskModel,
    TaskTraceInfo, TaskTraceState,
};
use crate::time::{extrapolated_uc, sat_add, sat_sub, ComputerTime, EmbassyTime};

verus! {

/// Busy time over tracked time, in microseconds.
#[derive(Debug, Clone, Copy, PartialEq, Eq, Structural)]
pub struct Utilization {
    pub active_micros: u64,
    pub total_micros: u64,
}

/// Busy share in hundredths of a percent, rounded down: 0 when nothing was tracked,
/// at most 100 %.
pub open spec fn percent_hundredths(active: int, total: int) -> int {
    if total <= 0 || active <= 0 {
        0
    } else if active >= total {
        10000
    } else {
        active * 10000 / total
    }
}

impl Utilization {
    /// Busy share in hundredths of a percent (`0..=10000`).
    pub fn percent_hundredths(&self) -> (r: u32)
        ensures
            r == percent_hundredths(self.active_micros as int, self.total_micros as int),
            r <= 10000,
            self.total_micros == 0 ==> r == 0,
    {
        if self.total_micros == 0 {
            0
        } else if self.active_micros >= self.total_micros {
            10000
        } else {
            let r = (self.active_micros as u128 * 10000) / self.total_micros as u128;
            proof {
                let a = self.active_micros as int;
                let t = self.total_micros as int;
                assert(a * 10000 / t <= 10000) by (nonlinear_arith)
                    requires
                        0 <= a < t,
                ;
            }
            r as u32
        }
    }
}

/// Running time and tracked time of a task at host moment `now`.
pub open spec fn task_utilization(m: TaskModel, now: ComputerTime) -> (int, int) {
    (
        sat_add(
            0,
            task_state_time(m.history, TaskTraceState::Running) + if m.state
                == TaskTraceState::Running {
                task_current_span(m, now)
            } else {
                0
            },
        ),
        sat_sub(
            extrapolated_uc(m.state_start, now),
            if m.history.len() > 0 {
                m.history[0].start_time.uc.micros as int
            } else {
                0
            },
        ),
    )
}

#[derive(Debug, Clone)]
pub struct TaskStats {
    pub name: String,
    /// Running time over tracked time.
    pub cpu_utilization: Utilization,
    pub min_waiting_time: EmbassyTime,
    pub max_waiting_time: EmbassyTime,
    pub avg_waiting_time: EmbassyTime,
    pub count_waiting_time: usize,
}

/// `s` summarizes task `m` at host moment `now`; with no waiting time to count, the
/// waiting figures are zero.
pub open spec fn task_stats_match(s: TaskStats, m: TaskModel, now: ComputerTime) -> bool {
    &&& s.name@ == task_display_name(m)
    &&& s.cpu_utilization.active_micros == task_utilization(m, now).0
    &&& s.cpu_utilization.total_micros == task_utilization(m, now).1
    &&& match waiting_stats(m, now) {
        Some((mn, mean, mx, n)) => {
            &&& s.min_waiting_time.micros == mn
            &&& s.avg_waiting_time.micros == mean
            &&& s.max_waiting_time.micros == mx
            &&& s.count_waiting_time == n
        },
        None => {
            &&& s.min_waiting_time.micros == 0
            &&& s.avg_waiting_time.micros == 0
            &&& s.max_waiting_time.micros == 0
            &&& s.count_waiting_time == 0
        },
    }
}

impl TaskStats {
    pub fn from_task(task: &TaskTraceInfo, now: ComputerTime) -> (r: Self)
        requires
            task_wf(task@),
        ensures
            task_stats_match(r, task@, now),
    {
        let total = task.calc_total_history_duration(now);
        let running = task.calc_total_history_state_duration(TaskTraceState::Running, now);
        let zero = EmbassyTime::from_micros(0);
        let (min_waiting_time, avg_waiting_time, max_waiting_time, count_waiting_time) =
            match task.calc_min_mean_max_count_waiting_time(now) {
            Some(s) => s,
            None => (zero, zero, zero, 0),
        };
        TaskStats {
            name: task.get_task_display_name(),
            cpu_utilization: Utilization {
                active_micros: running.micros,
                total_micros: total.micros,
            },
            min_waiting_time,
            max_waiting_time,
            avg_waiting_time,
            count_waiting_time,
        }
    }

    pub fn from_task_list(tasks: &Vec<TaskTraceInfo>, now: ComputerTime) -> (r: Vec<Self>)
        requires
            forall|i: int| 0 <= i < tasks@.len() ==> task_wf(#[trigger] tasks@[i]@),
        ensures
            r@.len() == tasks@.len(),
            forall|i: int| 0 <= i < r@.len() ==> task_stats_match(#[trigger] r@[i], tasks@[i]@, now),
    {
        let mut r: Vec<TaskStats> = Vec::new();
        let mut i: usize = 0;
        while i < tasks.len()
            invariant
                0 <= i <= tasks@.len(),
                forall|j: int| 0 <= j < tasks@.len() ==> task_wf(#[trigger] tasks@[j]@),
                r@.len() == i,
                forall|j: int| 0 <= j < i ==> task_stats_match(#[trigger] r@[j], tasks@[j]@, now),
            decreases tasks@.len() - i,
        {
            r.push(TaskStats::from_task(&tasks[i], now));
            i = i + 1;
        }
        r
    }
}

#[derive(Debug, Clone)]
pub struct ExecutorStats {
    pub name: String,
    pub tasks: Vec<TaskStats>,
    /// Scheduling and polling time over tracked time.
    pub cpu_utilization: Utilization,
}

pub open spec fn executor_stats_match(s: ExecutorStats, m: ExecutorModel, now: ComputerTime) -> bool {
    &&& s.name@ == executor_display_name(m)
    &&& s.cpu_utilization.active_micros == executor_utilization(m, now).0
    &&& s.cpu_utilization.total_micros == executor_utilization(m, now).1
    &&& s.tasks@.len() == m.tasks.len()
    &&& forall|i: int|
        0 <= i < m.tasks.len() ==> task_stats_match(#[trigger] s.tasks@[i], m.tasks[i], now)
}

impl ExecutorStats {
    pub fn from_executor(executor: &ExecutorTraceInfo, now: ComputerTime) -> (r: Self)
        requires
            executor_wf(executor@),
        ensures
            executor_stats_match(r, executor@, now),
    {
        let tasks_ref = executor.get_tasks();
        proof {
            assert forall|i: int| 0 <= i < tasks_ref@.len() implies task_wf(
                #[trigger] tasks_ref@[i]@,
            ) by {
                assert(tasks_ref@[i]@ == executor@.tasks[i]);
            }
        }
        let tasks = TaskStats::from_task_list(tasks_ref, now);
        proof {
            assert forall|i: int| 0 <= i < executor@.tasks.len() implies task_stats_match(
                #[trigger] tasks@[i],
                executor@.tasks[i],
                now,
            ) by {
                assert(tasks_ref@[i]@ == executor@.tasks[i]);
            }
        }
        ExecutorStats {
            name: executor.get_executor_display_name(),
            tasks,
            cpu_utilization: executor.calculate_cpu_utilization(now),
        }
    }

    pub fn from_executor_list(executors: &Vec<&ExecutorTraceInfo>, now: ComputerTime) -> (r: Vec<
        Self,
    >)
        requires
            forall|i: int| 0 <= i < executors@.len() ==> executor_wf(#[trigger] executors@[i]@),
        ensures
            r@.len() == executors@.len(),
            forall|i: int|
                0 <= i < r@.len() ==> executor_stats_match(#[trigger] r@[i], executors@[i]@, now),
    {
        let mut r: Vec<ExecutorStats> = Vec::new();
        let mut i: usize = 0;
        while i < executors.len()
            invariant
                0 <= i <= executors@.len(),
                forall|j: int| 0 <= j < executors@.len() ==> executor_wf(#[trigger] executors@[j]@),
                r@.len() == i,
                forall|j: int|
                    0 <= j < i ==> executor_stats_match(#[trigger] r@[j], executors@[j]@, now),
            decreases executors@.len() - i,
        {
            r.push(ExecutorStats::from_executor(executors[i], now));
            i = i + 1;
        }
        r
    }
}

/// The executors of `execs` on core `c`, in order.
pub open spec fn on_core(execs: Seq<ExecutorModel>, c: u32) -> Seq<ExecutorModel>
    decreases execs.len(),
{
    if execs.len() == 0 {
        Seq::empty()
    } else if execs.last().core_id == c {
        on_core(execs.drop_last(), c).push(execs.last())
    } else {
        on_core(execs.drop_last(), c)
    }
}

/// Sum of the executors' busy shares, in hundredths of a percent.
pub open spec fn sum_percent(execs: Seq<ExecutorModel>, now: ComputerTime) -> int
    decreases execs.len(),
{
    if execs.len() == 0 {
        0
    } else {
        sum_percent(execs.drop_last(), now) + percent_hundredths(
            executor_utilization(execs.last(), now).0,
            executor_utilization(execs.last(), now).1,
        )
    }
}

#[derive(Debug, Clone)]
pub struct CoreStats {
    pub core_id: u32,
    pub executors: Vec<ExecutorStats>,
    /// Sum of the executors' busy shares, in hundredths of a percent (saturating).
    pub cpu_utilization_hundredths: u64,
}

/// `s` summarizes the executors `execs`, which share one core.
pub open spec fn core_stats_match(s: CoreStats, execs: Seq<ExecutorModel>, now: ComputerTime) -> bool {
    &&& s.core_id == if execs.len() > 0 {
        execs[0].core_id
    } else {
        0
    }
    &&& s.executors@.len() == execs.len()
    &&& forall|i: int|
        0 <= i < execs.len() ==> executor_stats_match(#[trigger] s.executors@[i], execs[i], now)
    &&& s.cpu_utilization_hundredths == sat_add(0, sum_percent(execs, now))
}

/// One summary per core that some executor runs on, in ascending core order, each over
/// that core's executors.
pub open spec fn cores_match(r: Seq<CoreStats>, execs: Seq<ExecutorModel>, now: ComputerTime) -> bool {
    &&& cores_ascending(r)
    &&& cores_cover(r, execs)
    &&& cores_summarized(r, execs, now)
}

pub open spec fn cores_ascending(r: Seq<CoreStats>) -> bool {
    forall|i: int, j: int| 0 <= i < j < r.len() ==> (#[trigger] r[i]).core_id < (#[trigger] r[j]).core_id
}

/// Every executor's core has a summary.
pub open spec fn cores_cover(r: Seq<CoreStats>, execs: Seq<ExecutorModel>) -> bool {
    forall|i: int| 0 <= i < execs.len() ==> has_core(r, (#[trigger] execs[i]).core_id)
}

pub open spec fn has_core(r: Seq<CoreStats>, c: u32) -> bool {
    exists|k: int| 0 <= k < r.len() && (#[trigger] r[k]).core_id == c
}

/// Each summary is over the executors of its core, of which there is at least one.
pub open spec fn cores_summarized(r: Seq<CoreStats>, execs: Seq<ExecutorModel>, now: ComputerTime) -> bool {
    forall|k: int|
        0 <= k < r.len() ==> on_core(execs, (#[trigger] r[k]).core_id).len() > 0 && core_stats_match(
            r[k],
            on_core(execs, r[k].core_id),
            now,
        )
}

proof fn lemma_on_core_all(execs: Seq<ExecutorModel>, c: u32)
    ensures
        forall|i: int| 0 <= i < on_core(execs, c).len() ==> (#[trigger] on_core(execs, c)[i]).core_id == c,
        on_core(execs, c).len() <= execs.len(),
        (exists|i: int| 0 <= i < execs.len() && (#[trigger] execs[i]).core_id == c) ==> on_core(
            execs,
            c,
        ).len() > 0,
    decreases execs.len(),
{
    if execs.len() > 0 {
        let t = execs.drop_last();
        lemma_on_core_all(t, c);
        if exists|i: int| 0 <= i < execs.len() && (#[trigger] execs[i]).core_id == c {
            let i = choose|i: int| 0 <= i < execs.len() && (#[trigger] execs[i]).core_id == c;
            if i < execs.len() - 1 {
                assert(t[i].core_id == c);
            }
        }
    }
}

proof fn lemma_sum_percent_nonneg(execs: Seq<ExecutorModel>, now: ComputerTime)
    ensures
        sum_percent(execs, now) >= 0,
    decreases execs.len(),
{
    if execs.len() > 0 {
        lemma_sum_percent_nonneg(execs.drop_last(), now);
        let (a, t) = executor_utilization(execs.last(), now);
        if t > 0 && a > 0 && a < t {
            assert(a * 10000 / t >= 0) by (nonlinear_arith)
                requires
                    a > 0,
                    t > 0,
            ;
        }
    }
}

impl CoreStats {
    /// Summary of executors that share one core; the core id is taken from the first.
    pub fn from_executor_list_on_core(executors: &Vec<&ExecutorTraceInfo>, now: ComputerTime) -> (r:
        Self)
        requires
            forall|i: int| 0 <= i < executors@.len() ==> executor_wf(#[trigger] executors@[i]@),
        ensures
            core_stats_match(r, executors@.map_values(|e: &ExecutorTraceInfo| e@), now),
    {
        let ghost ms = executors@.map_values(|e: &ExecutorTraceInfo| e@);
        let core_id = if executors.len() > 0 {
            executors[0].get_core_id()
        } else {
            0
        };
        let stats = ExecutorStats::from_executor_list(executors, now);
        let mut total: u64 = 0;
        let mut i: usize = 0;
        while i < stats.len()
            invariant
                0 <= i <= stats@.len(),
                stats@.len() == ms.len(),
                ms == executors@.map_values(|e: &ExecutorTraceInfo| e@),
                forall|j: int| 0 <= j < ms.len() ==> executor_stats_match(#[trigger] stats@[j], ms[j], now),
                total == sat_add(0, sum_percent(ms.take(i as int), now)),
            decreases stats@.len() - i,
        {
            proof {
                assert(ms.take(i + 1).drop_last() =~= ms.take(i as int));
                lemma_sum_percent_nonneg(ms.take(i as int), now);
                assert(executor_stats_match(stats@[i as int], ms[i as int], now));
            }
            total = total.saturating_add(stats[i].cpu_utilization.percent_hundredths() as u64);
            i = i + 1;
        }
        assert(ms.take(i as int) =~= ms);
        let r = CoreStats { core_id, executors: stats, cpu_utilization_hundredths: total };
        proof {
            assert forall|j: int| 0 <= j < ms.len() implies executor_stats_match(
                #[trigger] r.executors@[j],
                ms[j],
                now,
            ) by {}
        }
        r
    }

    /// Groups executors by core and summarizes each core, in ascending core order.
    pub fn from_executor_list(executors: &Vec<ExecutorTraceInfo>, now: ComputerTime) -> (r: Vec<Self>)
        requires
            forall|i: int| 0 <= i < executors@.len() ==> executor_wf(#[trigger] executors@[i]@),
        ensures
            cores_match(r@, executors@.map_values(|e: ExecutorTraceInfo| e@), now),
    {
        let ghost ms = executors@.map_values(|e: ExecutorTraceInfo| e@);
        let cores = sorted_core_ids(executors);
        proof {
            assert forall|c: u32| cores@.contains(c) <==> exists|i: int|
                0 <= i < ms.len() && (#[trigger] ms[i]).core_id == c by {
                if cores@.contains(c) {
                    let i = choose|i: int|
                        0 <= i < executors@.len() && (#[trigger] executors@[i]@).core_id == c;
                    assert(ms[i] == executors@[i]@);
                }
                if exists|i: int| 0 <= i < ms.len() && (#[trigger] ms[i]).core_id == c {
                    let i = choose|i: int| 0 <= i < ms.len() && (#[trigger] ms[i]).core_id == c;
                    assert(ms[i] == executors@[i]@);
                }
            }
        }
        let mut r: Vec<CoreStats> = Vec::new();
        let mut k: usize = 0;
        while k < cores.len()
            invariant
                0 <= k <= cores@.len(),
                ms == executors@.map_values(|e: ExecutorTraceInfo| e@),
                forall|i: int| 0 <= i < executors@.len() ==> executor_wf(#[trigger] executors@[i]@),
                forall|i: int, j: int| 0 <= i < j < cores@.len() ==> cores@[i] < cores@[j],
                forall|c: u32| cores@.contains(c) <==> exists|i: int|
                    0 <= i < ms.len() && (#[trigger] ms[i]).core_id == c,
                r@.len() == k,
                forall|j: int| 0 <= j < k ==> (#[trigger] r@[j]).core_id == cores@[j],
                forall|j: int|
                    0 <= j < k ==> on_core(ms, (#[trigger] r@[j]).core_id).len() > 0 && core_stats_match(
                        r@[j],
                        on_core(ms, r@[j].core_id),
                        now,
                    ),
            decreases cores@.len() - k,
        {
            let c = cores[k];
            proof {
                assert(cores@.contains(c));
                lemma_on_core_all(ms, c);
            }
            let mut group: Vec<&ExecutorTraceInfo> = Vec::new();
            let mut i: usize = 0;
            while i < executors.len()
                invariant
                    0 <= i <= executors@.len(),
                    ms == executors@.map_values(|e: ExecutorTraceInfo| e@),
                    forall|j: int| 0 <= j < executors@.len() ==> executor_wf(#[trigger] executors@[j]@),
                    group@.map_values(|e: &ExecutorTraceInfo| e@) == on_core(ms.take(i as int), c),
                    forall|j: int| 0 <= j < group@.len() ==> executor_wf(#[trigger] group@[j]@),
                decreases executors@.len() - i,
            {
                proof {
                    assert(ms.take(i + 1).drop_last() =~= ms.take(i as int));
                    assert(ms.take(i + 1).last() == executors@[i as int]@);
                }
                if executors[i].get_core_id() == c {
                    let ghost g0 = group@;
                    group.push(&executors[i]);
                    proof {
                        assert(group@.map_values(|e: &ExecutorTraceInfo| e@) =~= g0.map_values(
                            |e: &ExecutorTraceInfo| e@,
                        ).push(executors@[i as int]@));
                    }
                }
                i = i + 1;
            }
            assert(ms.take(i as int) =~= ms);
            let cs = CoreStats::from_executor_list_on_core(&group, now);
            proof {
                lemma_on_core_all(ms, c);
                let g = on_core(ms, c);
                assert(g.len() > 0);
                assert(g[0].core_id == c);
            }
            r.push(cs);
            k = k + 1;
        }
        proof {
            assert forall|i: int, j: int| 0 <= i < j < r@.len() implies (#[trigger] r@[i]).core_id
                < (#[trigger] r@[j]).core_id by {
                assert(r@[i].core_id == cores@[i]);
                assert(r@[j].core_id == cores@[j]);
            }
            assert forall|i: int| 0 <= i < ms.len() implies has_core(r@, (#[trigger] ms[i]).core_id) by {
                let c = ms[i].core_id;
                assert(cores@.contains(c));
                let k = choose|k: int| 0 <= k < cores@.len() && cores@[k] == c;
                assert(r@[k].core_id == c);
            }
            assert forall|k: int| 0 <= k < r@.len() implies on_core(ms, (#[trigger] r@[k]).core_id).len()
                > 0 && core_stats_match(r@[k], on_core(ms, r@[k].core_id), now) by {}
            assert(cores_ascending(r@));
            assert(cores_cover(r@, ms));
            assert(cores_summarized(r@, ms, now));
        }
        r
    }
}

/// Relies on `itertools::Itertools::sorted`: the same items, in ascending order.
#[verifier::external_body]
fn sort_ids(ids: Vec<u32>) -> (r: Vec<u32>)
    ensures
        r@.to_multiset() == ids@.to_multiset(),
        forall|i: int, j: int| 0 <= i < j < r@.len() ==> r@[i] <= r@[j],
{
    ids.into_iter().sorted().collect()
}

/// Core ids of the executors, each once, in order of first appearance.
fn distinct_core_ids(executors: &Vec<ExecutorTraceInfo>) -> (r: Vec<u32>)
    ensures
        r@.no_duplicates(),
        forall|c: u32|
            r@.contains(c) <==> exists|i: int|
                0 <= i < executors@.len() && (#[trigger] executors@[i]@).core_id == c,
{
    let mut r: Vec<u32> = Vec::new();
    let mut i: usize = 0;
    while i < executors.len()
        invariant
            0 <= i <= executors@.len(),
            r@.no_duplicates(),
            forall|c: u32|
                r@.contains(c) <==> exists|j: int|
                    0 <= j < i && (#[trigger] executors@[j]@).core_id == c,
        decreases executors@.len() - i,
    {
        let c = executors[i].get_core_id();
        let mut seen = false;
        let mut k: usize = 0;
        while k < r.len()
            invariant
                0 <= k <= r@.len(),
                seen <==> exists|x: int| 0 <= x < k && r@[x] == c,
            decreases r@.len() - k,
        {
            if r[k] == c {
                seen = true;
            }
            k = k + 1;
        }
        let ghost r0 = r@;
        if !seen {
            r.push(c);
        }
        proof {
            assert forall|d: u32| r@.contains(d) <==> exists|j: int|
                0 <= j < i + 1 && (#[trigger] executors@[j]@).core_id == d by {
                if r@.contains(d) {
                    let x = choose|x: int| 0 <= x < r@.len() && r@[x] == d;
                    if x < r0.len() {
                        assert(r0[x] == d);
                        assert(r0.contains(d));
                    }
                }
                if exists|j: int| 0 <= j < i + 1 && (#[trigger] executors@[j]@).core_id == d {
                    let j = choose|j: int| 0 <= j < i + 1 && (#[trigger] executors@[j]@).core_id == d;
                    if j < i {
                        assert(r0.contains(d));
                        let x = choose|x: int| 0 <= x < r0.len() && r0[x] == d;
                        assert(r@[x] == d);
                    } else if !seen {
                        assert(r@[r0.len() as int] == d);
                    } else {
                        let x = choose|x: int| 0 <= x < r0.len() && r0[x] == c;
                        assert(r@[x] == d);
                    }
                }
            }
            if !seen {
                assert forall|x: int, y: int| 0 <= x < r@.len() && 0 <= y < r@.len() && x != y implies r@[x]
                    != r@[y] by {
                    if x < r0.len() && y < r0.len() {
                    } else if x < r0.len() {
                        assert(r0[x] != c);
                    } else {
                        assert(r0[y] != c);
                    }
                }
            }
        }
        i = i + 1;
    }
    r
}

/// Distinct core ids of the executors, ascending.
fn sorted_core_ids(executors: &Vec<ExecutorTraceInfo>) -> (r: Vec<u32>)
    ensures
        forall|i: int, j: int| 0 <= i < j < r@.len() ==> r@[i] < r@[j],
        forall|c: u32|
            r@.contains(c) <==> exists|i: int|
                0 <= i < executors@.len() && (#[trigger] executors@[i]@).core_id == c,
{
    let ids = distinct_core_ids(executors);
    let ghost d = ids@;
    let r = sort_ids(ids);
    proof {
        broadcast use vstd::seq_lib::group_to_multiset_ensures;
        d.lemma_multiset_has_no_duplicates();
        assert forall|x: u32| r@.to_multiset().contains(x) implies r@.to_multiset().count(x)
            == 1 by {}
        r@.lemma_multiset_has_no_duplicates_conv();
        assert forall|c: u32| r@.contains(c) <==> exists|i: int|
            0 <= i < executors@.len() && (#[trigger] executors@[i]@).core_id == c by {
            assert(r@.contains(c) <==> r@.to_multiset().count(c) > 0);
            assert(d.contains(c) <==> d.to_multiset().count(c) > 0);
        }
        assert forall|i: int, j: int| 0 <= i < j < r@.len() implies r@[i] < r@[j] by {
            assert(r@[i] != r@[j]);
        }
    }
    r
}

#[derive(Debug, Clone)]
pub struct InstanceStats {
    pub core_stats: Vec<CoreStats>,
    pub tasks_count: usize,
    pub executor_count: usize,
}

/// Number of task records over all executors.
pub open spec fn total_tasks(execs: Seq<ExecutorModel>) -> int
    decreases execs.len(),
{
    if execs.len() == 0 {
        0
    } else {
        total_tasks(execs.drop_last()) + execs.last().tasks.len()
    }
}

pub open spec fn instance_stats_match(s: InstanceStats, execs: Seq<ExecutorModel>, now: ComputerTime) -> bool {
    &&& cores_match(s.core_stats@, execs, now)
    &&& s.tasks_count == if total_tasks(execs) <= usize::MAX {
        total_tasks(execs)
    } else {
        usize::MAX as int
    }
    &&& s.executor_count == execs.len()
}

proof fn lemma_total_tasks_nonneg(execs: Seq<ExecutorModel>)
    ensures
        total_tasks(execs) >= 0,
    decreases execs.len(),
{
    if execs.len() > 0 {
        lemma_total_tasks_nonneg(execs.drop_last());
    }
}

impl InstanceStats {
    /// Statistics at host moment `now`; an empty registry gives no cores and zero counts.
    pub fn from_executors(executors: &Vec<ExecutorTraceInfo>, now: ComputerTime) -> (r: Self)
        requires
            forall|i: int| 0 <= i < executors@.len() ==> executor_wf(#[trigger] executors@[i]@),
        ensures
            instance_stats_match(r, executors@.map_values(|e: ExecutorTraceInfo| e@), now),
    {
        let ghost ms = executors@.map_values(|e: ExecutorTraceInfo| e@);
        let core_stats = CoreStats::from_executor_list(executors, now);
        let mut tasks_count: usize = 0;
        let mut i: usize = 0;
        while i < executors.len()
            invariant
                0 <= i <= executors@.len(),
                ms == executors@.map_values(|e: ExecutorTraceInfo| e@),
                tasks_count == if total_tasks(ms.take(i as int)) <= usize::MAX {
                    total_tasks(ms.take(i as int))
                } else {
                    usize::MAX as int
                },
            decreases executors@.len() - i,
        {
            proof {
                assert(ms.take(i + 1).drop_last() =~= ms.take(i as int));
                lemma_total_tasks_nonneg(ms.take(i as int));
            }
            tasks_count = tasks_count.saturating_add(executors[i].count_tasks());
            i = i + 1;
        }
        assert(ms.take(i as int) =~= ms);
        InstanceStats { core_stats, tasks_count, executor_count: executors.len() }
    }
}

} // verus!
