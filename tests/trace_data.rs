use embassy_visor::time::{ComputerTime, EmbassyTime, TimePair};
use embassy_visor::trace_data::{TraceItem, TraceItemType, TraceParseError};

#[test]
fn test_trace_item_parsing() {
    let pc_timestamp = ComputerTime::new_from_micros(22_000);

    let line = "[123456, 17, TaskNew, 1, 42]";
    let trace_item = TraceItem::parse_from_line(line, pc_timestamp.clone()).unwrap();

    assert_eq!(
        trace_item.time_pair.get_uc_timestamp(),
        EmbassyTime::from_micros(123456)
    );
    assert_eq!(trace_item.time_pair.get_pc_timestamp(), pc_timestamp);
    assert_eq!(trace_item.core_id, 17);
    match trace_item.data {
        TraceItemType::TaskNew {
            executor_id,
            task_id,
        } => {
            assert_eq!(executor_id, 1);
            assert_eq!(task_id, 42);
        }
        _ => panic!("Expected TaskNew variant"),
    }
}

#[test]
fn test_invalid_trace_item_parsing() {
    let pc_timestamp = ComputerTime::new_from_micros(22_000);

    let line = "[invalid_timestamp, 17, TaskNew, 1, 42]";
    let result = TraceItem::parse_from_line(line, pc_timestamp);
    assert!(matches!(result, Err(TraceParseError::InvalidTimestamp)));

    let line = "[12457, invalid_core_id, TaskNew, 1, 42]";
    let result = TraceItem::parse_from_line(line, pc_timestamp);
    assert!(matches!(result, Err(TraceParseError::InvalidCoreId)));

    let line = "[123456, 17, UnknownEvent, 1, 42]";
    let result = TraceItem::parse_from_line(line, pc_timestamp);
    assert!(matches!(result, Err(TraceParseError::InvalidEventType)));

    let line = "[123456, 17, TaskNew, invalid_executor_id, 42]";
    let result = TraceItem::parse_from_line(line, pc_timestamp);
    assert!(matches!(result, Err(TraceParseError::InvalidExecutorId)));

    let line = "[123456, 17, TaskNew, 1, invalid_task_id]";
    let result = TraceItem::parse_from_line(line, pc_timestamp);
    assert!(matches!(result, Err(TraceParseError::InvalidTaskId)));

    let line = "[123456, 17, TaskNew, 1]"; // missing task_id
    let result = TraceItem::parse_from_line(line, pc_timestamp);
    assert!(matches!(result, Err(TraceParseError::InvalidEventPayload)));
}

#[test]
fn test_trace_item_type_from_str() {
    let trace_type =
        TraceItemType::from_str("TaskExecBegin, 2, 99").expect("Failed to parse trace type");

    match trace_type {
        TraceItemType::TaskExecBegin {
            executor_id,
            task_id,
        } => {
            assert_eq!(executor_id, 2);
            assert_eq!(task_id, 99);
        }
        _ => panic!("Expected TaskExecBegin variant"),
    }
}

#[test]
fn parses_line_embedded_in_log_output() {
    let line = "INFO embassy executor tracer - [1000, 0, ExecutorPollStart, 536870912] - embassy executor tracer";
    let item = TraceItem::parse_from_line(line, ComputerTime::new_from_micros(5)).unwrap();
    assert_eq!(item.time_pair.get_uc_timestamp().as_micros(), 1000);
    assert_eq!(item.core_id, 0);
    assert_eq!(
        item.data,
        TraceItemType::ExecutorPollStart {
            executor_id: 536870912
        }
    );
}

#[test]
fn parses_plus_sign_and_tabs_like_std() {
    let item = TraceItem::parse_from_line("[+7,\t3 , ExecutorIdle ,\u{a0}9]", ComputerTime::new_from_micros(0)).unwrap();
    assert_eq!(item.time_pair.get_uc_timestamp().as_micros(), 7);
    assert_eq!(item.core_id, 3);
    assert_eq!(item.data, TraceItemType::ExecutorIdle { executor_id: 9 });
}

#[test]
fn malformed_lines_are_rejected() {
    let pc = ComputerTime::new_from_micros(0);
    assert_eq!(
        TraceItem::parse_from_line("not a trace line", pc),
        Err(TraceParseError::InvalidFormat)
    );
    assert_eq!(
        TraceItem::parse_from_line("[123, 4, TaskNew", pc),
        Err(TraceParseError::InvalidFormat)
    );
    assert_eq!(
        TraceItem::parse_from_line("[123, 4, TaskNew]", pc),
        Err(TraceParseError::InvalidFormat)
    );
    assert_eq!(
        TraceItem::parse_from_line("] [1, 2, ExecutorIdle, 3]", pc),
        Err(TraceParseError::InvalidFormat)
    );
    assert_eq!(
        TraceItem::parse_from_line("[]", pc),
        Err(TraceParseError::InvalidFormat)
    );
    assert_eq!(
        TraceItem::parse_from_line("[1, 2, TaskEnd, 0x10, 4]", pc),
        Err(TraceParseError::InvalidExecutorId)
    );
    assert_eq!(
        TraceItem::parse_from_line("[1, 2, TaskEnd, 3, -4]", pc),
        Err(TraceParseError::InvalidTaskId)
    );
    assert_eq!(
        TraceItem::parse_from_line("[1, 4294967296, ExecutorIdle, 3]", pc),
        Err(TraceParseError::InvalidCoreId)
    );
    assert_eq!(
        TraceItem::parse_from_line("[18446744073709551616, 1, ExecutorIdle, 3]", pc),
        Err(TraceParseError::InvalidTimestamp)
    );
}

#[test]
fn largest_values_parse() {
    let item = TraceItem::parse_from_line(
        "[18446744073709551615, 4294967295, TaskEnd, 4294967295, 4294967295]",
        ComputerTime::new_from_micros(0),
    )
    .unwrap();
    assert_eq!(item.time_pair.get_uc_timestamp().as_micros(), u64::MAX);
    assert_eq!(item.core_id, u32::MAX);
    assert_eq!(
        item.data,
        TraceItemType::TaskEnd {
            executor_id: u32::MAX,
            task_id: u32::MAX
        }
    );
}

#[test]
fn from_parts_reports_short_input() {
    assert_eq!(
        TraceItemType::from_parts(&["TaskNew"]),
        Err(TraceParseError::InvalidFormat)
    );
    assert_eq!(
        TraceItemType::from_parts(&[" ExecutorIdle ", " 5 "]),
        Ok(TraceItemType::ExecutorIdle { executor_id: 5 })
    );
    assert_eq!(
        TraceItemType::from_parts(&["TaskReadyBegin", "5"]),
        Err(TraceParseError::InvalidEventPayload)
    );
    assert_eq!(
        TraceItemType::from_str("ExecutorPollStart, 6, 7"),
        Err(TraceParseError::InvalidEventPayload)
    );
    assert_eq!(
        TraceItemType::from_parts(&["ExecutorIdle", "5", "7"]),
        Err(TraceParseError::InvalidEventPayload)
    );
    assert_eq!(
        TraceItemType::from_str("ExecutorPollStart, 6"),
        Ok(TraceItemType::ExecutorPollStart { executor_id: 6 })
    );
}

#[test]
fn ids_of_events() {
    let k = TraceItemType::TaskExecEnd {
        executor_id: 3,
        task_id: 8,
    };
    assert_eq!(k.get_executor_id(), 3);
    assert_eq!(k.get_task_id(), Some(8));
    let k = TraceItemType::ExecutorIdle { executor_id: 4 };
    assert_eq!(k.get_executor_id(), 4);
    assert_eq!(k.get_task_id(), None);
    assert_eq!(k.name(), "ExecutorIdle");
}

#[test]
fn line_round_trip() {
    let kinds = [
        TraceItemType::ExecutorIdle { executor_id: 1 },
        TraceItemType::ExecutorPollStart { executor_id: 2 },
        TraceItemType::TaskNew { executor_id: 1, task_id: 42 },
        TraceItemType::TaskEnd { executor_id: 0, task_id: 7 },
        TraceItemType::TaskExecBegin { executor_id: 10, task_id: 0 },
        TraceItemType::TaskExecEnd { executor_id: 99, task_id: 100 },
        TraceItemType::TaskReadyBegin { executor_id: u32::MAX, task_id: 12345 },
    ];
    for (i, kind) in kinds.iter().enumerate() {
        let tp = TimePair::new(
            EmbassyTime::from_micros(1000 * i as u64 + 3),
            ComputerTime::new_from_micros(1),
        );
        let item = TraceItem::new(tp, i as u32, *kind);
        let line = item.to_line();
        let pc = ComputerTime::new_from_micros(77);
        let back = TraceItem::parse_from_line(&line, pc).unwrap();
        assert_eq!(back.time_pair.get_uc_timestamp(), tp.get_uc_timestamp());
        assert_eq!(back.time_pair.get_pc_timestamp(), pc);
        assert_eq!(back.core_id, i as u32);
        assert_eq!(back.data, *kind);
    }
}

#[test]
fn wire_form_matches_firmware_format() {
    let item = TraceItem::new(
        TimePair::new(EmbassyTime::from_micros(123456), ComputerTime::new_from_micros(0)),
        17,
        TraceItemType::TaskNew {
            executor_id: 1,
            task_id: 42,
        },
    );
    assert_eq!(item.to_line(), "[123456, 17, TaskNew, 1, 42]");
    let item = TraceItem::new(
        TimePair::new(EmbassyTime::from_micros(0), ComputerTime::new_from_micros(0)),
        0,
        TraceItemType::ExecutorIdle { executor_id: 5 },
    );
    assert_eq!(item.to_line(), "[0, 0, ExecutorIdle, 5]");
}

#[test]
fn executor_events_take_no_task_id() {
    assert_eq!(
        TraceItem::parse_from_line("[1, 0, ExecutorIdle, 5, 7]", ComputerTime::new_from_micros(0)),
        Err(TraceParseError::InvalidEventPayload)
    );
    // a task id that does not parse is reported as such first
    assert_eq!(
        TraceItem::parse_from_line("[1, 0, ExecutorIdle, 5, x]", ComputerTime::new_from_micros(0)),
        Err(TraceParseError::InvalidTaskId)
    );
}
