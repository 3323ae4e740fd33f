//! Routing the lines that a `cargo run` prints: build output until the build finishes,
//! then trace records, and the firmware's own log lines.
use vstd::prelude::*;

use crate::text::{chars_of, find_chars, find_seq};

verus! {

pub open spec fn contains_text(s: Seq<char>, p: Seq<char>) -> bool {
    find_seq(s, p) is Some
}

/// Whether `line` contains `pattern`.
pub fn contains_str(line: &str, pattern: &str) -> (r: bool)
    ensures
        r == contains_text(line@, pattern@),
{
    let chars = chars_of(line);
    let p = chars_of(pattern);
    find_chars(&chars, &p).is_some()
}

/// The marker that ends a successful build in cargo's JSON messages.
pub open spec fn build_finished_marker() -> Seq<char> {
    "{\"reason\":\"build-finished\",\"success\":true}"@
}

/// Whether `line` reports that the build finished successfully.
pub fn is_build_finished_line(line: &str) -> (r: bool)
    ensures
        r == contains_text(line@, build_finished_marker()),
{
    contains_str(line, "{\"reason\":\"build-finished\",\"success\":true}")
}

/// Whether `line` carries a trace record: it holds both tracer markers.
pub open spec fn is_trace_text(line: Seq<char>) -> bool {
    contains_text(line, "embassy executor tracer - "@) && contains_text(
        line,
        " - embassy executor tracer"@,
    )
}

pub fn is_trace_line(line: &str) -> (r: bool)
    ensures
        r == is_trace_text(line@),
{
    contains_str(line, "embassy executor tracer - ") && contains_str(
        line,
        " - embassy executor tracer",
    )
}

/// Where an output line goes.
#[derive(Debug, Clone, Copy, PartialEq, Eq, Structural)]
pub enum LineRoute {
    /// Build output; `finished` if it ends the build.
    Build { finished: bool },
    /// A trace record, to parse.
    Trace,
    /// A firmware log line, once tracing has started.
    Log,
    /// A firmware line from before the first trace record, printed as is.
    Console,
}

/// Routes one output line, given whether the build has finished and whether a trace
/// line has been seen.
pub fn route_line(line: &str, build_finished: bool, trace_seen: bool) -> (r: LineRoute)
    ensures
        !build_finished ==> r == (LineRoute::Build {
            finished: contains_text(line@, build_finished_marker()),
        }),
        build_finished && is_trace_text(line@) ==> r == LineRoute::Trace,
        build_finished && !is_trace_text(line@) && trace_seen ==> r == LineRoute::Log,
        build_finished && !is_trace_text(line@) && !trace_seen ==> r == LineRoute::Console,
{
    if !build_finished {
        LineRoute::Build { finished: is_build_finished_line(line) }
    } else if is_trace_line(line) {
        LineRoute::Trace
    } else if trace_seen {
        LineRoute::Log
    } else {
        LineRoute::Console
    }
}

} // verus!
