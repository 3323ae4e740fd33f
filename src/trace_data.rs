//! Trace events: the typed form of one `[time, core, Event, executor, task?]` record,
//! its parser and its wire form.
use vstd::prelude::*;

use crate::text::{
    chars_eq, chars_of, decimal, find_char, find_first, is_digit, is_plain, is_white_space,
    join_fields, lacks, lemma_digits_plain, lemma_join_lacks, lemma_join_one, lemma_join_push, lemma_find_char_at, lemma_parse_decimal,
    lemma_split_join, lemma_trim_plain, parse_unsigned, parse_unsigned_chars, push_char,
    push_decimal, push_str, split_on, split_ranges, trim, trimmed_range,
};
use crate::time::{ComputerTime, EmbassyTime, TimePair};

verus! {

#[derive(Debug, Clone, Copy, PartialEq, Eq, Structural)]
pub enum TraceParseError {
    InvalidTimestamp,
    InvalidCoreId,
    InvalidExecutorId,
    InvalidFormat,
    InvalidTaskId,
    InvalidEventType,
    InvalidEventPayload,
}

#[derive(Debug, Clone, Copy, PartialEq, Eq, Structural)]
pub enum TraceItemType {
    ExecutorIdle { executor_id: u32 },
    ExecutorPollStart { executor_id: u32 },
    TaskNew { executor_id: u32, task_id: u32 },
    TaskEnd { executor_id: u32, task_id: u32 },
    TaskExecBegin { executor_id: u32, task_id: u32 },
    TaskExecEnd { executor_id: u32, task_id: u32 },
    TaskReadyBegin { executor_id: u32, task_id: u32 },
}

/// The executor that an event belongs to.
pub open spec fn executor_of(k: TraceItemType) -> u32 {
    match k {
        TraceItemType::ExecutorIdle { executor_id } => executor_id,
        TraceItemType::ExecutorPollStart { executor_id } => executor_id,
        TraceItemType::TaskNew { executor_id, .. } => executor_id,
        TraceItemType::TaskEnd { executor_id, .. } => executor_id,
        TraceItemType::TaskExecBegin { executor_id, .. } => executor_id,
        TraceItemType::TaskExecEnd { executor_id, .. } => executor_id,
        TraceItemType::TaskReadyBegin { executor_id, .. } => executor_id,
    }
}

/// The task that an event names, for the five task events.
pub open spec fn task_of(k: TraceItemType) -> Option<u32> {
    match k {
        TraceItemType::ExecutorIdle { .. } => None,
        TraceItemType::ExecutorPollStart { .. } => None,
        TraceItemType::TaskNew { task_id, .. } => Some(task_id),
        TraceItemType::TaskEnd { task_id, .. } => Some(task_id),
        TraceItemType::TaskExecBegin { task_id, .. } => Some(task_id),
        TraceItemType::TaskExecEnd { task_id, .. } => Some(task_id),
        TraceItemType::TaskReadyBegin { task_id, .. } => Some(task_id),
    }
}

/// The event's name on the wire.
pub open spec fn event_name(k: TraceItemType) -> Seq<char> {
    match k {
        TraceItemType::ExecutorIdle { .. } => "ExecutorIdle"@,
        TraceItemType::ExecutorPollStart { .. } => "ExecutorPollStart"@,
        TraceItemType::TaskNew { .. } => "TaskNew"@,
        TraceItemType::TaskEnd { .. } => "TaskEnd"@,
        TraceItemType::TaskExecBegin { .. } => "TaskExecBegin"@,
        TraceItemType::TaskExecEnd { .. } => "TaskExecEnd"@,
        TraceItemType::TaskReadyBegin { .. } => "TaskReadyBegin"@,
    }
}

/// The event that `name` denotes, given its executor and (optional) task id: the five
/// task events need a task id, the two executor events take none.
pub open spec fn event_from_name(name: Seq<char>, e: u32, t: Option<u32>) -> Result<
    TraceItemType,
    TraceParseError,
> {
    if name == "ExecutorIdle"@ || name == "ExecutorPollStart"@ {
        if t is Some {
            Err(TraceParseError::InvalidEventPayload)
        } else if name == "ExecutorIdle"@ {
            Ok(TraceItemType::ExecutorIdle { executor_id: e })
        } else {
            Ok(TraceItemType::ExecutorPollStart { executor_id: e })
        }
    } else if !(name == "TaskNew"@ || name == "TaskEnd"@ || name == "TaskExecBegin"@ || name
        == "TaskExecEnd"@ || name == "TaskReadyBegin"@) {
        Err(TraceParseError::InvalidEventType)
    } else if t is None {
        Err(TraceParseError::InvalidEventPayload)
    } else {
        let task_id = t->0;
        if name == "TaskNew"@ {
            Ok(TraceItemType::TaskNew { executor_id: e, task_id })
        } else if name == "TaskEnd"@ {
            Ok(TraceItemType::TaskEnd { executor_id: e, task_id })
        } else if name == "TaskExecBegin"@ {
            Ok(TraceItemType::TaskExecBegin { executor_id: e, task_id })
        } else if name == "TaskExecEnd"@ {
            Ok(TraceItemType::TaskExecEnd { executor_id: e, task_id })
        } else {
            Ok(TraceItemType::TaskReadyBegin { executor_id: e, task_id })
        }
    }
}

/// The event that the fields `<EventType>, <executor_id>, <task_id?>` describe; fields
/// past the third are ignored.
pub open spec fn event_from_parts(parts: Seq<Seq<char>>) -> Result<TraceItemType, TraceParseError> {
    if parts.len() < 2 {
        Err(TraceParseError::InvalidFormat)
    } else {
        match parse_unsigned(trim(parts[1]), u32::MAX as nat) {
            None => Err(TraceParseError::InvalidExecutorId),
            Some(e) => {
                if parts.len() > 2 && parse_unsigned(trim(parts[2]), u32::MAX as nat) is None {
                    Err(TraceParseError::InvalidTaskId)
                } else {
                    let t = if parts.len() > 2 {
                        Some(parse_unsigned(trim(parts[2]), u32::MAX as nat)->0 as u32)
                    } else {
                        None
                    };
                    event_from_name(trim(parts[0]), e as u32, t)
                }
            },
        }
    }
}

/// The trimmed comma-separated fields of `s`.
pub open spec fn trimmed_fields(s: Seq<char>) -> Seq<Seq<char>> {
    split_on(s, ',').map_values(|p: Seq<char>| trim(p))
}

/// What `TraceItem::parse_from_line` yields for `line` received at host time `pc`.
pub open spec fn parse_line(line: Seq<char>, pc: ComputerTime) -> Result<TraceItem, TraceParseError> {
    let open = find_char(line, '[');
    let close = find_char(line, ']');
    if open is None || close is None || close->0 < open->0 + 1 {
        Err(TraceParseError::InvalidFormat)
    } else {
        let parts = trimmed_fields(line.subrange(open->0 + 1, close->0));
        if parts.len() < 4 {
            Err(TraceParseError::InvalidFormat)
        } else {
            match parse_unsigned(parts[0], u64::MAX as nat) {
                None => Err(TraceParseError::InvalidTimestamp),
                Some(ts) => match parse_unsigned(parts[1], u32::MAX as nat) {
                    None => Err(TraceParseError::InvalidCoreId),
                    Some(core) => match event_from_parts(parts.skip(2)) {
                        Err(e) => Err(e),
                        Ok(data) => Ok(
                            TraceItem {
                                time_pair: TimePair {
                                    uc: EmbassyTime { micros: ts as u64 },
                                    pc,
                                },
                                core_id: core as u32,
                                data,
                            },
                        ),
                    },
                },
            }
        }
    }
}

/// The fields of an event on the wire: name, executor id and, for task events, task id.
pub open spec fn event_fields(k: TraceItemType) -> Seq<Seq<char>> {
    match task_of(k) {
        Some(t) => seq![
            event_name(k),
            decimal(executor_of(k) as nat),
            decimal(t as nat),
        ],
        None => seq![event_name(k), decimal(executor_of(k) as nat)],
    }
}

/// The wire form of an event emitted at device time `uc` on core `core`:
/// `[<uc>, <core>, <EventType>, <executor_id>, <task_id?>]`.
pub open spec fn line_of(uc: EmbassyTime, core: u32, k: TraceItemType) -> Seq<char> {
    seq!['['] + join_fields(seq![decimal(uc.micros as nat), decimal(core as nat)] + event_fields(k))
        + seq![']']
}

/// Every event name is plain text without commas or brackets, and names tell events apart.
proof fn lemma_event_name(k: TraceItemType)
    ensures
        is_plain(event_name(k)),
        lacks(event_name(k), ','),
        lacks(event_name(k), '['),
        lacks(event_name(k), ']'),
        task_of(k) is Some ==> forall|e: u32, t: u32|
            event_from_name(event_name(k), e, Some(t)) == Ok::<TraceItemType, TraceParseError>(with_ids(k, e, t)),
        task_of(k) is None ==> forall|e: u32|
            event_from_name(event_name(k), e, None) == Ok::<TraceItemType, TraceParseError>(with_ids(k, e, 0)),
{
    reveal_strlit("ExecutorIdle");
    reveal_strlit("ExecutorPollStart");
    reveal_strlit("TaskNew");
    reveal_strlit("TaskEnd");
    reveal_strlit("TaskExecBegin");
    reveal_strlit("TaskExecEnd");
    reveal_strlit("TaskReadyBegin");
    let n = event_name(k);
    assert(!is_white_space(n[0]));
    assert(!is_white_space(n[n.len() - 1]));
    assert(lacks(n, ','));
    assert(lacks(n, '['));
    assert(lacks(n, ']'));
    assert(n != "ExecutorIdle"@ ==> n[0] != 'E' || n.len() != 12);
    assert(n != "ExecutorPollStart"@ ==> n[0] != 'E' || n.len() != 17);
    assert(n != "TaskNew"@ ==> n[4] != 'N' || n.len() != 7);
    assert(n != "TaskEnd"@ ==> n[4] != 'E' || n.len() != 7);
    assert(n != "TaskExecBegin"@ ==> n.len() != 13);
    assert(n != "TaskExecEnd"@ ==> n.len() != 11);
    assert(n != "TaskReadyBegin"@ ==> n.len() != 14);
}

/// `k` with its executor id set to `e` and, for task events, its task id set to `t`.
pub open spec fn with_ids(k: TraceItemType, e: u32, t: u32) -> TraceItemType {
    match k {
        TraceItemType::ExecutorIdle { .. } => TraceItemType::ExecutorIdle { executor_id: e },
        TraceItemType::ExecutorPollStart { .. } => TraceItemType::ExecutorPollStart {
            executor_id: e,
        },
        TraceItemType::TaskNew { .. } => TraceItemType::TaskNew { executor_id: e, task_id: t },
        TraceItemType::TaskEnd { .. } => TraceItemType::TaskEnd { executor_id: e, task_id: t },
        TraceItemType::TaskExecBegin { .. } => TraceItemType::TaskExecBegin {
            executor_id: e,
            task_id: t,
        },
        TraceItemType::TaskExecEnd { .. } => TraceItemType::TaskExecEnd {
            executor_id: e,
            task_id: t,
        },
        TraceItemType::TaskReadyBegin { .. } => TraceItemType::TaskReadyBegin {
            executor_id: e,
            task_id: t,
        },
    }
}

/// Writing a record in its wire form, with any text around it that has no bracket before
/// it, and parsing the line back yields the same device time, core, event name, executor
/// id and task id.
pub proof fn lemma_line_round_trip(
    prefix: Seq<char>,
    uc: EmbassyTime,
    core: u32,
    k: TraceItemType,
    suffix: Seq<char>,
    pc: ComputerTime,
)
    requires
        lacks(prefix, '['),
        lacks(prefix, ']'),
    ensures
        parse_line(prefix + line_of(uc, core, k) + suffix, pc) == Ok::<TraceItem, TraceParseError>(
            TraceItem { time_pair: TimePair { uc, pc }, core_id: core, data: k },
        ),
{
    lemma_event_name(k);
    let a = decimal(uc.micros as nat);
    let b = decimal(core as nat);
    let e = decimal(executor_of(k) as nat);
    lemma_digits_plain(uc.micros as nat);
    lemma_digits_plain(core as nat);
    lemma_digits_plain(executor_of(k) as nat);
    assert(!is_digit(',') && !is_digit('[') && !is_digit(']'));
    let fs = seq![a, b] + event_fields(k);
    match task_of(k) {
        Some(t) => {
            lemma_digits_plain(t as nat);
            assert(fs =~= seq![a, b, event_name(k), e, decimal(t as nat)]);
        },
        None => {
            assert(fs =~= seq![a, b, event_name(k), e]);
        },
    }
    assert(forall|i: int| 0 <= i < fs.len() ==> is_plain(#[trigger] fs[i]) && lacks(fs[i], ','));
    assert(forall|i: int| 0 <= i < fs.len() ==> lacks(#[trigger] fs[i], '['));
    assert(forall|i: int| 0 <= i < fs.len() ==> lacks(#[trigger] fs[i], ']'));
    let j = join_fields(fs);
    lemma_split_join(fs);
    lemma_join_lacks(fs, '[');
    lemma_join_lacks(fs, ']');
    let l = line_of(uc, core, k);
    assert(l == seq!['['] + j + seq![']']);
    let line = prefix + l + suffix;
    let n = prefix.len() as int;
    let close = n + l.len() - 1;
    assert(line[n] == '[');
    assert forall|i: int| 0 <= i < n implies line[i] != '[' by {
        assert(line[i] == prefix[i]);
    }
    lemma_find_char_at(line, '[', n);
    assert(line[close] == ']');
    assert forall|i: int| 0 <= i < close implies line[i] != ']' by {
        if i < n {
            assert(line[i] == prefix[i]);
        } else if i > n {
            assert(line[i] == j[i - n - 1]);
        }
    }
    lemma_find_char_at(line, ']', close);
    assert(line.subrange(n + 1, close) =~= j);
    let parts = trimmed_fields(j);
    assert(parts =~= fs);
    lemma_parse_decimal(uc.micros as nat, u64::MAX as nat);
    lemma_parse_decimal(core as nat, u32::MAX as nat);
    lemma_parse_decimal(executor_of(k) as nat, u32::MAX as nat);
    let rest = parts.skip(2);
    lemma_trim_plain(rest[0]);
    lemma_trim_plain(rest[1]);
    match task_of(k) {
        Some(t) => {
            lemma_trim_plain(rest[2]);
            lemma_parse_decimal(t as nat, u32::MAX as nat);
            assert(with_ids(k, executor_of(k), t) == k);
        },
        None => {
            assert(with_ids(k, executor_of(k), 0) == k);
        },
    }
}

impl TraceItemType {
    pub fn get_executor_id(&self) -> (r: u32)
        ensures
            r == executor_of(*self),
    {
        match self {
            TraceItemType::ExecutorIdle { executor_id }
            | TraceItemType::ExecutorPollStart { executor_id }
            | TraceItemType::TaskNew { executor_id, .. }
            | TraceItemType::TaskEnd { executor_id, .. }
            | TraceItemType::TaskExecBegin { executor_id, .. }
            | TraceItemType::TaskExecEnd { executor_id, .. }
            | TraceItemType::TaskReadyBegin { executor_id, .. } => *executor_id,
        }
    }

    pub fn get_task_id(&self) -> (r: Option<u32>)
        ensures
            r == task_of(*self),
    {
        match self {
            TraceItemType::TaskNew { task_id, .. }
            | TraceItemType::TaskEnd { task_id, .. }
            | TraceItemType::TaskExecBegin { task_id, .. }
            | TraceItemType::TaskExecEnd { task_id, .. }
            | TraceItemType::TaskReadyBegin { task_id, .. } => Some(*task_id),
            _ => None,
        }
    }

    /// The event's name on the wire.
    pub fn name(&self) -> (r: &'static str)
        ensures
            r@ == event_name(*self),
    {
        match self {
            TraceItemType::ExecutorIdle { .. } => "ExecutorIdle",
            TraceItemType::ExecutorPollStart { .. } => "ExecutorPollStart",
            TraceItemType::TaskNew { .. } => "TaskNew",
            TraceItemType::TaskEnd { .. } => "TaskEnd",
            TraceItemType::TaskExecBegin { .. } => "TaskExecBegin",
            TraceItemType::TaskExecEnd { .. } => "TaskExecEnd",
            TraceItemType::TaskReadyBegin { .. } => "TaskReadyBegin",
        }
    }

    fn from_name(name: &Vec<char>, e: u32, t: Option<u32>) -> (r: Result<Self, TraceParseError>)
        ensures
            r == event_from_name(name@, e, t),
    {
        let is_idle = chars_eq(name, "ExecutorIdle");
        let is_poll_start = chars_eq(name, "ExecutorPollStart");
        if is_idle || is_poll_start {
            if t.is_some() {
                return Err(TraceParseError::InvalidEventPayload);
            }
            if is_idle {
                return Ok(TraceItemType::ExecutorIdle { executor_id: e });
            }
            return Ok(TraceItemType::ExecutorPollStart { executor_id: e });
        }
        let is_new = chars_eq(name, "TaskNew");
        let is_end = chars_eq(name, "TaskEnd");
        let is_begin = chars_eq(name, "TaskExecBegin");
        let is_exec_end = chars_eq(name, "TaskExecEnd");
        let is_ready = chars_eq(name, "TaskReadyBegin");
        if !(is_new || is_end || is_begin || is_exec_end || is_ready) {
            return Err(TraceParseError::InvalidEventType);
        }
        let task_id = match t {
            Some(task_id) => task_id,
            None => {
                return Err(TraceParseError::InvalidEventPayload);
            },
        };
        if is_new {
            Ok(TraceItemType::TaskNew { executor_id: e, task_id })
        } else if is_end {
            Ok(TraceItemType::TaskEnd { executor_id: e, task_id })
        } else if is_begin {
            Ok(TraceItemType::TaskExecBegin { executor_id: e, task_id })
        } else if is_exec_end {
            Ok(TraceItemType::TaskExecEnd { executor_id: e, task_id })
        } else {
            Ok(TraceItemType::TaskReadyBegin { executor_id: e, task_id })
        }
    }

    /// Reads the fields `<EventType>, <executor_id>, <task_id?>`, each trimmed first.
    fn from_pieces(parts: &Vec<Vec<char>>, first: usize) -> (r: Result<Self, TraceParseError>)
        requires
            first <= parts@.len(),
        ensures
            r == event_from_parts(parts@.skip(first as int).map_values(|p: Vec<char>| p@)),
    {
        let ghost ps = parts@.skip(first as int).map_values(|p: Vec<char>| p@);
        let n = parts.len() - first;
        if n < 2 {
            return Err(TraceParseError::InvalidFormat);
        }
        assert(ps[0] == parts@[first as int]@);
        assert(ps[1] == parts@[first + 1]@);
        let name_src = &parts[first];
        let name = trimmed_range(name_src, 0, name_src.len());
        assert(name_src@.subrange(0, name_src@.len() as int) =~= name_src@);
        let exec_src = &parts[first + 1];
        let exec_text = trimmed_range(exec_src, 0, exec_src.len());
        assert(exec_src@.subrange(0, exec_src@.len() as int) =~= exec_src@);
        let e = match parse_unsigned_chars(&exec_text, 0xffff_ffff) {
            Some(e) => e as u32,
            None => {
                return Err(TraceParseError::InvalidExecutorId);
            },
        };
        let t = if n > 2 {
            assert(ps[2] == parts@[first + 2]@);
            let task_src = &parts[first + 2];
            let task_text = trimmed_range(task_src, 0, task_src.len());
            assert(task_src@.subrange(0, task_src@.len() as int) =~= task_src@);
            match parse_unsigned_chars(&task_text, 0xffff_ffff) {
                Some(t) => Some(t as u32),
                None => {
                    return Err(TraceParseError::InvalidTaskId);
                },
            }
        } else {
            None
        };
        Self::from_name(&name, e, t)
    }

    /// Format: `<EventType>, <executor_id>, <task_id?>`.
    pub fn from_parts(parts: &[&str]) -> (r: Result<Self, TraceParseError>)
        ensures
            r == event_from_parts(parts@.map_values(|p: &str| p@)),
    {
        let mut pieces: Vec<Vec<char>> = Vec::new();
        let mut i: usize = 0;
        while i < parts.len()
            invariant
                0 <= i <= parts@.len(),
                pieces@.len() == i,
                forall|k: int| 0 <= k < i ==> (#[trigger] pieces@[k])@ == parts@[k]@,
            decreases parts@.len() - i,
        {
            pieces.push(chars_of(parts[i]));
            i = i + 1;
        }
        proof {
            assert(pieces@.skip(0).map_values(|p: Vec<char>| p@) =~= parts@.map_values(
                |p: &str| p@,
            ));
        }
        Self::from_pieces(&pieces, 0)
    }

    /// Format: `"<EventType>, <executor_id>, <task_id?>"`.
    pub fn from_str(s: &str) -> (r: Result<Self, TraceParseError>)
        ensures
            r == event_from_parts(split_on(s@, ',')),
    {
        let chars = chars_of(s);
        let ranges = split_ranges(&chars, 0, chars.len(), ',');
        assert(chars@.subrange(0, chars@.len() as int) =~= chars@);
        let mut pieces: Vec<Vec<char>> = Vec::new();
        let mut i: usize = 0;
        while i < ranges.len()
            invariant
                0 <= i <= ranges@.len(),
                chars@ == s@,
                ranges@.len() == split_on(chars@, ',').len(),
                forall|k: int|
                    0 <= k < ranges@.len() ==> {
                        &&& 0 <= (#[trigger] ranges@[k]).0 <= ranges@[k].1 <= chars@.len()
                        &&& chars@.subrange(ranges@[k].0 as int, ranges@[k].1 as int) == split_on(
                            chars@,
                            ',',
                        )[k]
                    },
                pieces@.len() == i,
                forall|k: int| 0 <= k < i ==> (#[trigger] pieces@[k])@ == split_on(chars@, ',')[k],
            decreases ranges@.len() - i,
        {
            let (a, b) = ranges[i];
            let mut piece: Vec<char> = Vec::new();
            let mut j = a;
            while j < b
                invariant
                    a <= j <= b <= chars@.len(),
                    piece@ == chars@.subrange(a as int, j as int),
                decreases b - j,
            {
                piece.push(chars[j]);
                j = j + 1;
            }
            pieces.push(piece);
            i = i + 1;
        }
        proof {
            assert(pieces@.skip(0).map_values(|p: Vec<char>| p@) =~= split_on(s@, ','));
        }
        Self::from_pieces(&pieces, 0)
    }
}

#[derive(Debug, Clone, Copy, PartialEq, Eq, Structural)]
pub struct TraceItem {
    /// When the device emitted the event, and when the host received it.
    pub time_pair: TimePair,
    pub core_id: u32,
    /// The event itself.
    pub data: TraceItemType,
}

impl TraceItem {
    pub fn new(time_pair: TimePair, core_id: u32, data: TraceItemType) -> (r: TraceItem)
        ensures
            r.time_pair == time_pair,
            r.core_id == core_id,
            r.data == data,
    {
        TraceItem { time_pair, core_id, data }
    }

    /// Format: `[<timestamp>, <core_id>, <EventType>, <executor_id>, <task_id?>]`, anywhere
    /// in the line; the host time of receipt is supplied by the caller.
    pub fn parse_from_line(line: &str, pc_timestamp: ComputerTime) -> (r: Result<
        Self,
        TraceParseError,
    >)
        ensures
            r == parse_line(line@, pc_timestamp),
    {
        let chars = chars_of(line);
        let open = find_first(&chars, '[');
        let close = find_first(&chars, ']');
        let o = match open {
            Some(o) => o,
            None => {
                return Err(TraceParseError::InvalidFormat);
            },
        };
        let end = match close {
            Some(c) => c,
            None => {
                return Err(TraceParseError::InvalidFormat);
            },
        };
        if end <= o {
            return Err(TraceParseError::InvalidFormat);
        }
        let start = o + 1;
        let ghost content = chars@.subrange(start as int, end as int);
        let ranges = split_ranges(&chars, start, end, ',');
        let mut parts: Vec<Vec<char>> = Vec::new();
        let mut i: usize = 0;
        while i < ranges.len()
            invariant
                0 <= i <= ranges@.len(),
                start <= end <= chars@.len(),
                content == chars@.subrange(start as int, end as int),
                ranges@.len() == split_on(content, ',').len(),
                forall|k: int|
                    0 <= k < ranges@.len() ==> {
                        &&& start <= (#[trigger] ranges@[k]).0 <= ranges@[k].1 <= end
                        &&& chars@.subrange(ranges@[k].0 as int, ranges@[k].1 as int) == split_on(
                            content,
                            ',',
                        )[k]
                    },
                parts@.len() == i,
                forall|k: int|
                    0 <= k < i ==> (#[trigger] parts@[k])@ == trim(split_on(content, ',')[k]),
            decreases ranges@.len() - i,
        {
            let (a, b) = ranges[i];
            parts.push(trimmed_range(&chars, a, b));
            i = i + 1;
        }
        let ghost fields = trimmed_fields(content);
        assert(parts@.map_values(|p: Vec<char>| p@) =~= fields);
        if parts.len() < 4 {
            return Err(TraceParseError::InvalidFormat);
        }
        assert(parts@[0]@ == fields[0]);
        assert(parts@[1]@ == fields[1]);
        let ts = match parse_unsigned_chars(&parts[0], 0xffff_ffff_ffff_ffff) {
            Some(ts) => ts,
            None => {
                return Err(TraceParseError::InvalidTimestamp);
            },
        };
        let core = match parse_unsigned_chars(&parts[1], 0xffff_ffff) {
            Some(c) => c as u32,
            None => {
                return Err(TraceParseError::InvalidCoreId);
            },
        };
        assert(parts@.skip(2).map_values(|p: Vec<char>| p@) =~= fields.skip(2));
        let data = TraceItemType::from_pieces(&parts, 2)?;
        let time_pair = TimePair::new(EmbassyTime::from_micros(ts), pc_timestamp);
        Ok(TraceItem::new(time_pair, core, data))
    }

    /// The record's wire form, `[<timestamp>, <core_id>, <EventType>, <executor_id>, <task_id?>]`.
    pub fn to_line(&self) -> (r: String)
        ensures
            r@ == line_of(self.time_pair.uc, self.core_id, self.data),
    {
        let mut s = String::new();
        push_char(&mut s, '[');
        push_decimal(&mut s, self.time_pair.uc.micros);
        push_char(&mut s, ',');
        push_char(&mut s, ' ');
        push_decimal(&mut s, self.core_id as u64);
        push_char(&mut s, ',');
        push_char(&mut s, ' ');
        push_str(&mut s, self.data.name());
        push_char(&mut s, ',');
        push_char(&mut s, ' ');
        push_decimal(&mut s, self.data.get_executor_id() as u64);
        match self.data.get_task_id() {
            Some(t) => {
                push_char(&mut s, ',');
                push_char(&mut s, ' ');
                push_decimal(&mut s, t as u64);
            },
            None => {},
        }
        push_char(&mut s, ']');
        proof {
            let a = decimal(self.time_pair.uc.micros as nat);
            let b = decimal(self.core_id as nat);
            let nm = event_name(self.data);
            let e = decimal(executor_of(self.data) as nat);
            lemma_join_one(a);
            lemma_join_push(seq![a], b);
            assert(seq![a].push(b) =~= seq![a, b]);
            lemma_join_push(seq![a, b], nm);
            assert(seq![a, b].push(nm) =~= seq![a, b, nm]);
            lemma_join_push(seq![a, b, nm], e);
            assert(seq![a, b, nm].push(e) =~= seq![a, b, nm, e]);
            match task_of(self.data) {
                Some(t) => {
                    let td = decimal(t as nat);
                    lemma_join_push(seq![a, b, nm, e], td);
                    assert(seq![a, b, nm, e].push(td) =~= seq![a, b] + event_fields(self.data));
                },
                None => {
                    assert(seq![a, b, nm, e] =~= seq![a, b] + event_fields(self.data));
                },
            }
            assert(s@ =~= line_of(self.time_pair.uc, self.core_id, self.data));
        }
        s
    }
}

} // verus!
