//! Device-side and host-side clocks, both counted in microseconds.
use vstd::prelude::*;

verus! {

/// Microseconds per second.
pub const MICROS_PER_SEC: u64 = 1_000_000;

/// Saturating subtraction on naturals: clamps at zero.
pub open spec fn sat_sub(a: int, b: int) -> int {
    if a >= b { a - b } else { 0 }
}

/// Saturating addition into the range of `u64`.
pub open spec fn sat_add(a: int, b: int) -> int {
    if a + b <= u64::MAX { a + b } else { u64::MAX as int }
}

/// A duration since the observing host process started, in microseconds.
#[derive(Debug, Clone, Copy, PartialEq, Eq, PartialOrd, Ord, Structural)]
pub struct ComputerTime {
    pub micros: u64,
}

impl ComputerTime {
    pub fn new_from_micros(micros: u64) -> (r: ComputerTime)
        ensures
            r.micros == micros,
    {
        ComputerTime { micros }
    }

    /// A whole number of seconds; saturates at the largest representable time.
    pub fn from_s(secs: u64) -> (r: ComputerTime)
        ensures
            r.micros == sat_add(0, secs * MICROS_PER_SEC),
    {
        if secs <= u64::MAX / MICROS_PER_SEC {
            ComputerTime { micros: secs * MICROS_PER_SEC }
        } else {
            ComputerTime { micros: u64::MAX }
        }
    }

    pub fn as_micros(&self) -> (r: u64)
        ensures
            r == self.micros,
    {
        self.micros
    }

    pub fn as_millis(&self) -> (r: u128)
        ensures
            r == self.micros / 1000,
    {
        (self.micros / 1000) as u128
    }

    pub fn saturating_sub(&self, other: ComputerTime) -> (r: ComputerTime)
        ensures
            r.micros == sat_sub(self.micros as int, other.micros as int),
    {
        ComputerTime { micros: self.micros.saturating_sub(other.micros) }
    }

    /// Time elapsed from `self` until `now`, zero if `now` lies before `self`.
    pub fn diff_to_now(&self, now: ComputerTime) -> (r: u64)
        ensures
            r == sat_sub(now.micros as int, self.micros as int),
    {
        now.micros.saturating_sub(self.micros)
    }
}

/// A duration since the device booted, as stamped by the device, in microseconds.
#[derive(Debug, Clone, Copy, PartialEq, Eq, PartialOrd, Ord, Structural)]
pub struct EmbassyTime {
    pub micros: u64,
}

impl EmbassyTime {
    pub fn from_micros(us: u64) -> (r: EmbassyTime)
        ensures
            r.micros == us,
    {
        EmbassyTime { micros: us }
    }

    /// Milliseconds; saturates at the largest representable time.
    pub fn from_millis(ms: u64) -> (r: EmbassyTime)
        ensures
            r.micros == sat_add(0, ms * 1000),
    {
        if ms <= u64::MAX / 1000 {
            EmbassyTime { micros: ms * 1000 }
        } else {
            EmbassyTime { micros: u64::MAX }
        }
    }

    pub fn as_micros(&self) -> (r: u64)
        ensures
            r == self.micros,
    {
        self.micros
    }

    pub fn as_millis(&self) -> (r: u128)
        ensures
            r == self.micros / 1000,
    {
        (self.micros / 1000) as u128
    }

    pub fn saturating_sub(&self, other: EmbassyTime) -> (r: EmbassyTime)
        ensures
            r.micros == sat_sub(self.micros as int, other.micros as int),
    {
        EmbassyTime { micros: self.micros.saturating_sub(other.micros) }
    }

    pub fn saturating_add(&self, other: EmbassyTime) -> (r: EmbassyTime)
        ensures
            r.micros == sat_add(self.micros as int, other.micros as int),
    {
        EmbassyTime { micros: self.micros.saturating_add(other.micros) }
    }

    /// Advances the device time by a host-clock duration given in microseconds.
    pub fn saturating_add_micros(&self, micros: u64) -> (r: EmbassyTime)
        ensures
            r.micros == sat_add(self.micros as int, micros as int),
    {
        EmbassyTime { micros: self.micros.saturating_add(micros) }
    }
}

/// Two clock readings taken at nearly the same moment: when the device emitted an
/// event (`uc`) and when the host received it (`pc`).
#[derive(Debug, Clone, Copy, PartialEq, Eq, Structural)]
pub struct TimePair {
    pub uc: EmbassyTime,
    pub pc: ComputerTime,
}

impl TimePair {
    pub fn new(uc: EmbassyTime, pc: ComputerTime) -> (r: TimePair)
        ensures
            r.uc == uc,
            r.pc == pc,
    {
        TimePair { uc, pc }
    }

    pub fn get_uc_timestamp(&self) -> (r: EmbassyTime)
        ensures
            r == self.uc,
    {
        self.uc
    }

    pub fn get_pc_timestamp(&self) -> (r: ComputerTime)
        ensures
            r == self.pc,
    {
        self.pc
    }

    /// Projects the device clock to the host moment `now`, assuming both clocks advanced
    /// at the same rate since this sample was taken.
    pub fn extrapolate_uc(&self, now: ComputerTime) -> (r: EmbassyTime)
        ensures
            r.micros == extrapolated_uc(*self, now),
    {
        self.uc.saturating_add_micros(self.pc.diff_to_now(now))
    }
}

/// Device time at host moment `now`, projected from the sample `t`.
pub open spec fn extrapolated_uc(t: TimePair, now: ComputerTime) -> int {
    sat_add(t.uc.micros as int, sat_sub(now.micros as int, t.pc.micros as int))
}

} // verus!
