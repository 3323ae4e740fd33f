use embassy_visor::cargo_build::{CargoBuildMessage, CargoBuildStatus, CargoBuildTracker};
use embassy_visor::elf_file::{get_addr_map, read_addr_map, try_extract_short_name, SymbolTableError};
use embassy_visor::output_lines::{is_build_finished_line, is_trace_line, route_line, LineRoute};

#[test]
fn short_name_cuts_at_pool_marker() {
    assert_eq!(try_extract_short_name("app::blinky::POOL::h123"), "app::blinky");
    assert_eq!(try_extract_short_name("app::blinky"), "app::blinky");
    assert_eq!(try_extract_short_name("::POOL"), "");
    assert_eq!(try_extract_short_name(""), "");
    assert_eq!(try_extract_short_name("a::POO"), "a::POO");
    assert_eq!(try_extract_short_name("a::POOL::b::POOL"), "a");
}

#[test]
fn address_map_demangles_and_skips() {
    let symbols = vec![
        (0x1000u64, Some(String::from("_ZN3foo3barE"))),
        (0u64, Some(String::from("zero_address"))),
        (0x2000u64, Some(String::new())),
        (0x3000u64, None),
        (0x4000u64, Some(String::from("plain_name"))),
        (0x4000u64, Some(String::from("alias_name"))),
    ];
    let map = get_addr_map(&symbols);
    assert_eq!(map.len(), 2);
    assert_eq!(map.get(&0x1000), Some(&String::from("foo::bar")));
    assert_eq!(map.get(&0x4000), Some(&String::from("alias_name")));
    assert!(map.get(&0).is_none());
}

#[test]
fn unreadable_object_file_is_rejected() {
    assert_eq!(
        read_addr_map(b"definitely not an object file").err(),
        Some(SymbolTableError::Unparsable)
    );
}

#[test]
fn build_tracker_reports_last_executable() {
    let mut tracker = CargoBuildTracker::new();
    assert!(tracker
        .handle_message(CargoBuildMessage::CompilerArtifact {
            package_id: String::from("dep"),
            executable: None,
        })
        .is_none());
    assert!(tracker
        .handle_message(CargoBuildMessage::CompilerArtifact {
            package_id: String::from("app"),
            executable: Some(String::from("/target/app")),
        })
        .is_none());
    assert!(tracker
        .handle_message(CargoBuildMessage::CompilerArtifact {
            package_id: String::from("lib"),
            executable: None,
        })
        .is_none());
    match tracker.handle_message(CargoBuildMessage::BuildFinished { success: true }) {
        Some(CargoBuildStatus::Success(Some(path))) => assert_eq!(path, "/target/app"),
        other => panic!("unexpected {:?}", other),
    }
}

#[test]
fn build_tracker_failure_and_abort() {
    let mut tracker = CargoBuildTracker::new();
    assert!(matches!(
        tracker.handle_message(CargoBuildMessage::BuildFinished { success: false }),
        Some(CargoBuildStatus::Failed)
    ));
    let mut tracker = CargoBuildTracker::new();
    assert!(matches!(
        tracker.handle_message(CargoBuildMessage::BuildFinished { success: true }),
        Some(CargoBuildStatus::Success(None))
    ));
    assert!(matches!(
        CargoBuildTracker::new().handle_closed(),
        CargoBuildStatus::Aborted
    ));
}

#[test]
fn output_lines_are_routed() {
    let done = r#"{"reason":"build-finished","success":true}"#;
    assert!(is_build_finished_line(done));
    assert!(!is_build_finished_line(r#"{"reason":"build-finished","success":false}"#));
    assert_eq!(route_line(done, false, false), LineRoute::Build { finished: true });
    assert_eq!(route_line("Compiling app", false, false), LineRoute::Build { finished: false });
    let trace = "embassy executor tracer - [1, 0, ExecutorIdle, 2] - embassy executor tracer";
    assert!(is_trace_line(trace));
    assert!(!is_trace_line("embassy executor tracer - [1, 0, ExecutorIdle, 2]"));
    assert_eq!(route_line(trace, true, false), LineRoute::Trace);
    assert_eq!(route_line("[INFO] hello", true, true), LineRoute::Log);
    assert_eq!(route_line("[INFO] hello", true, false), LineRoute::Console);
}
