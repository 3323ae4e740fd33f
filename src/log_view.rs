//! The scrolled, bounded list of firmware log lines shown under the statistics.
use std::collections::VecDeque;
use vstd::prelude::*;

use crate::time::sat_sub;

verus! {

/// Default number of log lines kept.
pub const DEFAULT_MAX_LOG_LINES: usize = 100;

/// `x` cut to 16 bits, as an `as u16` conversion does.
pub open spec fn low16(x: int) -> int {
    x % 65536
}

/// The scroll position after one step down with `len` lines: never past the last three.
pub open spec fn scrolled_down(scroll: int, len: int) -> int {
    let next = if scroll + 1 <= u16::MAX {
        scroll + 1
    } else {
        u16::MAX as int
    };
    let limit = low16(sat_sub(len, 3));
    if next < limit {
        next
    } else {
        limit
    }
}

pub struct LogModel {
    pub lines: Seq<Seq<char>>,
    pub scroll: u16,
    pub max_lines: usize,
}

/// What a new line does: it is appended; the view follows it if it was scrolled to the
/// end; the oldest lines go once more than `max_lines` are held.
pub open spec fn log_after_line(m: LogModel, line: Seq<char>) -> LogModel {
    let lines = m.lines.push(line);
    let scroll = if m.scroll > low16(sat_sub(lines.len() as int, 5)) {
        scrolled_down(m.scroll as int, lines.len() as int) as u16
    } else {
        m.scroll
    };
    let kept = if lines.len() > m.max_lines {
        lines.skip(lines.len() - m.max_lines)
    } else {
        lines
    };
    LogModel { lines: kept, scroll, max_lines: m.max_lines }
}

pub struct LogView {
    lines: VecDeque<String>,
    scroll: u16,
    max_lines: usize,
}

impl View for LogView {
    type V = LogModel;

    closed spec fn view(&self) -> LogModel {
        LogModel {
            lines: self.lines@.map_values(|s: String| s@),
            scroll: self.scroll,
            max_lines: self.max_lines,
        }
    }
}

fn to_u16(x: usize) -> (r: u16)
    ensures
        r == low16(x as int),
{
    (x % 65536) as u16
}

fn scroll_after_down(scroll: u16, len: usize) -> (r: u16)
    ensures
        r == scrolled_down(scroll as int, len as int),
{
    let next = scroll.saturating_add(1);
    let limit = to_u16(len.saturating_sub(3));
    if next < limit {
        next
    } else {
        limit
    }
}

impl LogView {
    /// An empty view that keeps at most `max_lines` lines.
    pub fn new(max_lines: usize) -> (r: Self)
        ensures
            r@.lines.len() == 0,
            r@.scroll == 0,
            r@.max_lines == max_lines,
    {
        let r = LogView { lines: VecDeque::new(), scroll: 0, max_lines };
        assert(r@.lines =~= Seq::<Seq<char>>::empty());
        r
    }

    pub fn get_scroll(&self) -> (r: u16)
        ensures
            r == self@.scroll,
    {
        self.scroll
    }

    pub fn get_lines(&self) -> (r: &VecDeque<String>)
        ensures
            r@.map_values(|s: String| s@) == self@.lines,
    {
        &self.lines
    }

    pub fn on_new_log_line(&mut self, new_line: String)
        ensures
            final(self)@ == log_after_line(old(self)@, new_line@),
    {
        let ghost old_lines = self@.lines;
        self.lines.push_back(new_line);
        let ghost pushed = self.lines@;
        assert(pushed.map_values(|s: String| s@) =~= old_lines.push(new_line@));
        let len = self.lines.len();
        if self.scroll > to_u16(len.saturating_sub(5)) {
            self.scroll = scroll_after_down(self.scroll, len);
        }
        let ghost scroll = self.scroll;
        let mut k: usize = 0;
        while self.lines.len() > self.max_lines
            invariant
                pushed.len() == len,
                self.lines@ == pushed.skip(k as int),
                k <= len,
                self.max_lines == old(self).max_lines,
                k == 0 || len - k >= self.max_lines,
                self.scroll == scroll,
            decreases self.lines@.len(),
        {
            self.lines.pop_front();
            k = k + 1;
            assert(self.lines@ =~= pushed.skip(k as int));
        }
        proof {
            if len > self.max_lines {
                assert(k == len - self.max_lines);
            } else {
                assert(k == 0);
                assert(pushed.skip(0) =~= pushed);
            }
            assert(self@.lines =~= log_after_line(old(self)@, new_line@).lines);
        }
    }

    /// One line up, stopping at the top.
    pub fn scroll_up(&mut self)
        ensures
            final(self)@ == (LogModel { scroll: sat_sub(old(self)@.scroll as int, 1) as u16, ..old(self)@ }),
    {
        self.scroll = self.scroll.saturating_sub(1);
    }

    /// One line down, stopping three lines before the end.
    pub fn scroll_down(&mut self)
        ensures
            final(self)@ == (LogModel {
                scroll: scrolled_down(old(self)@.scroll as int, old(self)@.lines.len() as int) as u16,
                ..old(self)@
            }),
    {
        self.scroll = scroll_after_down(self.scroll, self.lines.len());
    }
}

} // verus!
