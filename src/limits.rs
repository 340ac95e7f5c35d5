//! Resource limits of a plugin call and the monitor that enforces them.

use std::time::{Duration, Instant};
use vstd::prelude::*;

verus! {

#[verifier::external_type_specification]
#[verifier::external_body]
pub struct ExInstant(Instant);

/// Relies on `Instant::now`: the current instant; nothing is known of it.
#[verifier::external_body]
pub(crate) fn instant_now() -> (r: Instant) {
    Instant::now()
}

/// Relies on `Instant::elapsed`: the time since `start`; nothing is known
/// of it.
#[verifier::external_body]
pub(crate) fn elapsed_since(start: &Instant) -> (r: Duration) {
    start.elapsed()
}

/// Relies on `Duration::as_nanos`: the whole nanoseconds of `d`, which
/// depend on `d` alone.
#[verifier::external_body]
pub(crate) fn nanos_of(d: Duration) -> (r: u128) {
    d.as_nanos()
}

/// A span of time in nanoseconds.
#[derive(Debug, Clone, Copy, PartialEq, Eq, PartialOrd, Ord, Hash, Structural)]
pub struct TimeSpan {
    /// Length in nanoseconds.
    pub nanos: u64,
}

/// Nanoseconds in a millisecond.
pub const NANOS_PER_MILLI: u64 = 1_000_000;

impl TimeSpan {
    /// The span of `ms` milliseconds, saturating at the largest span.
    pub fn from_millis(ms: u64) -> (t: TimeSpan)
        ensures
            t.nanos == if ms * NANOS_PER_MILLI <= u64::MAX { ms * NANOS_PER_MILLI } else { u64::MAX as int },
    {
        if ms <= u64::MAX / NANOS_PER_MILLI {
            TimeSpan { nanos: ms * NANOS_PER_MILLI }
        } else {
            TimeSpan { nanos: u64::MAX }
        }
    }

    /// The whole milliseconds of the span.
    pub fn as_millis(&self) -> (r: u64)
        ensures
            r == self.nanos / NANOS_PER_MILLI,
    {
        self.nanos / NANOS_PER_MILLI
    }

    /// `self` minus `other`, or the empty span when `other` is longer.
    pub fn saturating_sub(self, other: TimeSpan) -> (t: TimeSpan)
        ensures
            t.nanos == if self.nanos >= other.nanos { self.nanos - other.nanos } else { 0 },
    {
        TimeSpan { nanos: self.nanos.saturating_sub(other.nanos) }
    }
}

/// The limits of one plugin call.
#[derive(Debug, Clone, Copy, PartialEq, Eq, Structural)]
pub struct ExecutionLimits {
    /// Most bytes of linear memory.
    pub max_memory: u64,
    /// Longest wall time.
    pub max_time: TimeSpan,
    /// Most fuel units.
    pub max_fuel: u64,
    /// Most open file handles.
    pub max_file_handles: u32,
    /// Most open network connections.
    pub max_network_connections: u32,
}

impl Default for ExecutionLimits {
    fn default() -> (l: ExecutionLimits)
        ensures
            l == (ExecutionLimits {
                max_memory: 16777216,
                max_time: TimeSpan { nanos: 100000000 },
                max_fuel: 1000000,
                max_file_handles: 10,
                max_network_connections: 5,
            }),
    {
        ExecutionLimits {
            max_memory: 16 * 1024 * 1024,
            max_time: TimeSpan::from_millis(100),
            max_fuel: 1_000_000,
            max_file_handles: 10,
            max_network_connections: 5,
        }
    }
}

impl ExecutionLimits {
    /// Generous limits for development.
    pub fn development() -> (l: ExecutionLimits)
        ensures
            l == (ExecutionLimits {
                max_memory: 67108864,
                max_time: TimeSpan { nanos: 1000000000 },
                max_fuel: 10000000,
                max_file_handles: 50,
                max_network_connections: 20,
            }),
    {
        ExecutionLimits {
            max_memory: 64 * 1024 * 1024,
            max_time: TimeSpan::from_millis(1000),
            max_fuel: 10_000_000,
            max_file_handles: 50,
            max_network_connections: 20,
        }
    }

    /// Tight limits for production.
    pub fn production() -> (l: ExecutionLimits)
        ensures
            l == (ExecutionLimits {
                max_memory: 8388608,
                max_time: TimeSpan { nanos: 50000000 },
                max_fuel: 500000,
                max_file_handles: 5,
                max_network_connections: 2,
            }),
    {
        ExecutionLimits {
            max_memory: 8 * 1024 * 1024,
            max_time: TimeSpan::from_millis(50),
            max_fuel: 500_000,
            max_file_handles: 5,
            max_network_connections: 2,
        }
    }
}

/// A limit that a plugin call went past.
#[derive(Debug, Clone, Copy, PartialEq, Eq, Structural)]
pub enum LimitError {
    /// More memory in use than allowed.
    MemoryLimit {
        /// Bytes in use.
        used: u64,
        /// Bytes allowed.
        limit: u64,
    },
    /// The call ran out of wall time.
    Timeout {
        /// Time elapsed.
        duration: TimeSpan,
    },
    /// The call ran out of fuel.
    FuelExhausted,
    /// More file handles than allowed.
    FileHandleLimit {
        /// Handles that would be open.
        used: u32,
        /// Handles allowed.
        limit: u32,
    },
    /// More network connections than allowed.
    NetworkConnectionLimit {
        /// Connections that would be open.
        used: u32,
        /// Connections allowed.
        limit: u32,
    },
}

/// What a plugin call uses, against its limits.
#[derive(Debug)]
pub struct ResourceMonitor {
    /// When the call started.
    pub start_time: Instant,
    /// The limits.
    pub limits: ExecutionLimits,
    /// Bytes of memory in use.
    pub memory_usage: u64,
    /// Open file handles.
    pub file_handles: u32,
    /// Open network connections.
    pub network_connections: u32,
}

/// What a usage check reports after `elapsed` of wall time: the first
/// limit reached, checked in the order time, memory, handles, connections.
pub open spec fn usage_verdict(m: &ResourceMonitor, elapsed: TimeSpan) -> Result<(), LimitError> {
    if elapsed.nanos >= m.limits.max_time.nanos {
        Err(LimitError::Timeout { duration: elapsed })
    } else if m.memory_usage > m.limits.max_memory {
        Err(LimitError::MemoryLimit { used: m.memory_usage, limit: m.limits.max_memory })
    } else if m.file_handles > m.limits.max_file_handles {
        Err(LimitError::FileHandleLimit { used: m.file_handles, limit: m.limits.max_file_handles })
    } else if m.network_connections > m.limits.max_network_connections {
        Err(LimitError::NetworkConnectionLimit { used: m.network_connections, limit: m.limits.max_network_connections })
    } else {
        Ok(())
    }
}

impl ResourceMonitor {
    /// A monitor for a call starting now, with nothing in use.
    pub fn new(limits: ExecutionLimits) -> (m: ResourceMonitor)
        ensures
            m.limits == limits,
            m.memory_usage == 0,
            m.file_handles == 0,
            m.network_connections == 0,
    {
        ResourceMonitor { start_time: instant_now(), limits, memory_usage: 0, file_handles: 0, network_connections: 0 }
    }

    /// The verdict on the usage after `elapsed` of wall time: a timeout when
    /// it reaches the limit, else the first of memory, handles and
    /// connections over its limit, else `Ok`.
    pub fn check_usage(&self, elapsed: TimeSpan) -> (r: Result<(), LimitError>)
        ensures
            r == usage_verdict(self, elapsed),
    {
        if elapsed.nanos >= self.limits.max_time.nanos {
            return Err(LimitError::Timeout { duration: elapsed });
        }
        if self.memory_usage > self.limits.max_memory {
            return Err(LimitError::MemoryLimit { used: self.memory_usage, limit: self.limits.max_memory });
        }
        if self.file_handles > self.limits.max_file_handles {
            return Err(LimitError::FileHandleLimit { used: self.file_handles, limit: self.limits.max_file_handles });
        }
        if self.network_connections > self.limits.max_network_connections {
            return Err(LimitError::NetworkConnectionLimit {
                used: self.network_connections,
                limit: self.limits.max_network_connections,
            });
        }
        Ok(())
    }

    /// The verdict on the usage now; see `check_usage`.
    pub fn check_limits(&self) -> (r: Result<(), LimitError>)
        ensures
            exists|e: TimeSpan| r == usage_verdict(self, e),
            self.memory_usage > self.limits.max_memory ==> r is Err,
            self.file_handles > self.limits.max_file_handles ==> r is Err,
            self.network_connections > self.limits.max_network_connections ==> r is Err,
    {
        let elapsed = self.elapsed_time();
        self.check_usage(elapsed)
    }

    /// Records that `bytes` of memory are in use.
    pub fn update_memory_usage(&mut self, bytes: u64)
        ensures
            final(self).memory_usage == bytes,
            final(self).limits == old(self).limits,
            final(self).file_handles == old(self).file_handles,
            final(self).network_connections == old(self).network_connections,
    {
        self.memory_usage = bytes;
    }

    /// Opens a file handle; fails, changing nothing, when that would pass
    /// the limit.
    pub fn add_file_handle(&mut self) -> (r: Result<(), LimitError>)
        ensures
            final(self).limits == old(self).limits,
            final(self).memory_usage == old(self).memory_usage,
            final(self).network_connections == old(self).network_connections,
            old(self).file_handles + 1 > old(self).limits.max_file_handles ==> r == Err::<(), LimitError>(
                LimitError::FileHandleLimit {
                    used: if old(self).file_handles < u32::MAX { (old(self).file_handles + 1) as u32 } else { u32::MAX },
                    limit: old(self).limits.max_file_handles,
                },
            ) && final(self).file_handles == old(self).file_handles,
            old(self).file_handles + 1 <= old(self).limits.max_file_handles ==> r is Ok
                && final(self).file_handles == old(self).file_handles + 1,
    {
        if self.file_handles >= self.limits.max_file_handles {
            return Err(LimitError::FileHandleLimit {
                used: self.file_handles.saturating_add(1),
                limit: self.limits.max_file_handles,
            });
        }
        self.file_handles = self.file_handles + 1;
        Ok(())
    }

    /// Closes a file handle, if any is open.
    pub fn remove_file_handle(&mut self)
        ensures
            final(self).file_handles == if old(self).file_handles > 0 { old(self).file_handles - 1 } else { 0 },
            final(self).limits == old(self).limits,
            final(self).memory_usage == old(self).memory_usage,
            final(self).network_connections == old(self).network_connections,
    {
        if self.file_handles > 0 {
            self.file_handles = self.file_handles - 1;
        }
    }

    /// Opens a network connection; fails, changing nothing, when that would
    /// pass the limit.
    pub fn add_network_connection(&mut self) -> (r: Result<(), LimitError>)
        ensures
            final(self).limits == old(self).limits,
            final(self).memory_usage == old(self).memory_usage,
            final(self).file_handles == old(self).file_handles,
            old(self).network_connections + 1 > old(self).limits.max_network_connections ==> r == Err::<(), LimitError>(
                LimitError::NetworkConnectionLimit {
                    used: if old(self).network_connections < u32::MAX { (old(self).network_connections + 1) as u32 } else { u32::MAX },
                    limit: old(self).limits.max_network_connections,
                },
            ) && final(self).network_connections == old(self).network_connections,
            old(self).network_connections + 1 <= old(self).limits.max_network_connections ==> r is Ok
                && final(self).network_connections == old(self).network_connections + 1,
    {
        if self.network_connections >= self.limits.max_network_connections {
            return Err(LimitError::NetworkConnectionLimit {
                used: self.network_connections.saturating_add(1),
                limit: self.limits.max_network_connections,
            });
        }
        self.network_connections = self.network_connections + 1;
        Ok(())
    }

    /// Closes a network connection, if any is open.
    pub fn remove_network_connection(&mut self)
        ensures
            final(self).network_connections == if old(self).network_connections > 0 {
                old(self).network_connections - 1
            } else {
                0
            },
            final(self).limits == old(self).limits,
            final(self).memory_usage == old(self).memory_usage,
            final(self).file_handles == old(self).file_handles,
    {
        if self.network_connections > 0 {
            self.network_connections = self.network_connections - 1;
        }
    }

    /// Wall time since the call started, saturating at the largest span.
    pub fn elapsed_time(&self) -> (t: TimeSpan) {
        let n = nanos_of(elapsed_since(&self.start_time));
        TimeSpan { nanos: if n > u64::MAX as u128 { u64::MAX } else { n as u64 } }
    }

    /// The time left of the limit after `elapsed`, or none.
    pub fn remaining_after(&self, elapsed: TimeSpan) -> (t: TimeSpan)
        ensures
            t.nanos == if self.limits.max_time.nanos >= elapsed.nanos {
                self.limits.max_time.nanos - elapsed.nanos
            } else {
                0
            },
    {
        self.limits.max_time.saturating_sub(elapsed)
    }

    /// The time left of the limit now, never more than the limit.
    pub fn remaining_time(&self) -> (t: TimeSpan)
        ensures
            t.nanos <= self.limits.max_time.nanos,
    {
        let e = self.elapsed_time();
        self.remaining_after(e)
    }
}

} // verus!
