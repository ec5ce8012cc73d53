//! Limits after which keys are exchanged again.
use crate::time::Duration;
use vstd::prelude::*;

verus! {

/// The bytes and the time after which keys are exchanged again.
#[derive(Clone, Copy, Debug, PartialEq, Eq, Structural)]
pub struct Limits {
    pub rekey_write_limit: usize,
    pub rekey_read_limit: usize,
    pub rekey_time_limit: Duration,
}

/// One gigabyte in either direction and one hour, as
/// [RFC 4253](https://tools.ietf.org/html/rfc4253#section-9) recommends.
pub open spec fn recommended_limits() -> Limits {
    Limits {
        rekey_write_limit: 0x4000_0000,
        rekey_read_limit: 0x4000_0000,
        rekey_time_limit: Duration { nanos: 3_600_000_000_000 },
    }
}

impl Default for Limits {
    fn default() -> (limits: Limits)
        ensures
            limits == recommended_limits(),
    {
        Limits {
            rekey_write_limit: 0x4000_0000,
            rekey_read_limit: 0x4000_0000,
            rekey_time_limit: Duration::from_secs(3600),
        }
    }
}

impl Limits {
    /// Whether keys must be exchanged again after that many bytes were written
    /// and that much time passed.
    pub open spec fn reached(self, written: int, elapsed: int) -> bool {
        written >= self.rekey_write_limit || elapsed >= self.rekey_time_limit.nanos
    }

    /// Whether keys must be exchanged again after `written` bytes were written
    /// and `elapsed` passed since the last exchange.
    pub fn rekey_due(&self, written: usize, elapsed: Duration) -> (due: bool)
        ensures
            due == self.reached(written as int, elapsed.nanos as int),
    {
        written >= self.rekey_write_limit || elapsed.nanos >= self.rekey_time_limit.nanos
    }
}

} // verus!
