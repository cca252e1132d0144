//! Counters that show how the engine is doing.
use crate::session;
use vstd::prelude::*;

verus! {

/// How much of one kind of cryptographic work was done.
#[derive(Clone, Copy, Debug, PartialEq, Eq, Structural)]
pub struct CryptoPerfCounters {
    pub operations: u64,
    pub bytes: u64,
    /// How many operations were timed.
    pub samples: u64,
    /// How long those took.
    pub sampled_ns: u64,
}

impl CryptoPerfCounters {
    /// Counters that have counted nothing.
    pub open spec fn zero() -> CryptoPerfCounters {
        CryptoPerfCounters { operations: 0, bytes: 0, samples: 0, sampled_ns: 0 }
    }

    /// What was counted since `previous`.
    pub open spec fn since(self, previous: CryptoPerfCounters) -> CryptoPerfCounters {
        CryptoPerfCounters {
            operations: session::saturating_difference(self.operations, previous.operations),
            bytes: session::saturating_difference(self.bytes, previous.bytes),
            samples: session::saturating_difference(self.samples, previous.samples),
            sampled_ns: session::saturating_difference(self.sampled_ns, previous.sampled_ns),
        }
    }

    /// The counters once an operation on `bytes` bytes has started.
    pub open spec fn started(self, bytes: u64, timed: bool) -> CryptoPerfCounters {
        CryptoPerfCounters {
            operations: session::saturating_sum(self.operations, 1),
            bytes: session::saturating_sum(self.bytes, bytes),
            samples: if timed {
                session::saturating_sum(self.samples, 1)
            } else {
                self.samples
            },
            sampled_ns: self.sampled_ns,
        }
    }

    /// The counters once an operation that was timed has taken `elapsed_ns`.
    pub open spec fn timed(self, elapsed_ns: u64) -> CryptoPerfCounters {
        CryptoPerfCounters {
            sampled_ns: session::saturating_sum(self.sampled_ns, elapsed_ns),
            ..self
        }
    }

    /// What was counted since `previous`.
    pub fn delta(self, previous: CryptoPerfCounters) -> (counted: CryptoPerfCounters)
        ensures
            counted == self.since(previous),
    {
        CryptoPerfCounters {
            operations: self.operations.saturating_sub(previous.operations),
            bytes: self.bytes.saturating_sub(previous.bytes),
            samples: self.samples.saturating_sub(previous.samples),
            sampled_ns: self.sampled_ns.saturating_sub(previous.sampled_ns),
        }
    }

    fn start(self, bytes: u64, timed: bool) -> (counters: CryptoPerfCounters)
        ensures
            counters == self.started(bytes, timed),
    {
        CryptoPerfCounters {
            operations: self.operations.saturating_add(1),
            bytes: self.bytes.saturating_add(bytes),
            samples: if timed {
                self.samples.saturating_add(1)
            } else {
                self.samples
            },
            sampled_ns: self.sampled_ns,
        }
    }

    fn add_time(self, elapsed_ns: u64) -> (counters: CryptoPerfCounters)
        ensures
            counters == self.timed(elapsed_ns),
    {
        CryptoPerfCounters { sampled_ns: self.sampled_ns.saturating_add(elapsed_ns), ..self }
    }
}

impl Default for CryptoPerfCounters {
    fn default() -> (counters: CryptoPerfCounters)
        ensures
            counters == CryptoPerfCounters::zero(),
    {
        CryptoPerfCounters { operations: 0, bytes: 0, samples: 0, sampled_ns: 0 }
    }
}

/// How much cryptographic work was done, by cipher and by direction.
#[derive(Clone, Copy, Debug, PartialEq, Eq, Structural)]
pub struct CryptoPerfSnapshot {
    pub chacha: CryptoPerfCounters,
    pub srtp: CryptoPerfCounters,
    pub unwrap_crypto: CryptoPerfCounters,
    pub wrap_crypto: CryptoPerfCounters,
}

impl CryptoPerfSnapshot {
    /// What was counted since `previous`.
    pub open spec fn since(self, previous: CryptoPerfSnapshot) -> CryptoPerfSnapshot {
        CryptoPerfSnapshot {
            chacha: self.chacha.since(previous.chacha),
            srtp: self.srtp.since(previous.srtp),
            unwrap_crypto: self.unwrap_crypto.since(previous.unwrap_crypto),
            wrap_crypto: self.wrap_crypto.since(previous.wrap_crypto),
        }
    }

    /// What was counted since `previous`.
    pub fn delta(self, previous: CryptoPerfSnapshot) -> (counted: CryptoPerfSnapshot)
        ensures
            counted == self.since(previous),
    {
        CryptoPerfSnapshot {
            chacha: self.chacha.delta(previous.chacha),
            srtp: self.srtp.delta(previous.srtp),
            unwrap_crypto: self.unwrap_crypto.delta(previous.unwrap_crypto),
            wrap_crypto: self.wrap_crypto.delta(previous.wrap_crypto),
        }
    }
}

impl Default for CryptoPerfSnapshot {
    fn default() -> (snapshot: CryptoPerfSnapshot)
        ensures
            snapshot == (CryptoPerfSnapshot {
                chacha: CryptoPerfCounters::zero(),
                srtp: CryptoPerfCounters::zero(),
                unwrap_crypto: CryptoPerfCounters::zero(),
                wrap_crypto: CryptoPerfCounters::zero(),
            }),
    {
        CryptoPerfSnapshot {
            chacha: CryptoPerfCounters::default(),
            srtp: CryptoPerfCounters::default(),
            unwrap_crypto: CryptoPerfCounters::default(),
            wrap_crypto: CryptoPerfCounters::default(),
        }
    }
}

/// Counters that only grow add up: what was counted up to one moment and what was counted
/// from there to another is what was counted in all.
pub proof fn deltas_add_up(
    first: CryptoPerfCounters,
    second: CryptoPerfCounters,
    third: CryptoPerfCounters,
)
    requires
        first.operations <= second.operations <= third.operations,
        first.bytes <= second.bytes <= third.bytes,
        first.samples <= second.samples <= third.samples,
        first.sampled_ns <= second.sampled_ns <= third.sampled_ns,
    ensures
        second.since(first).operations + third.since(second).operations == third.since(
            first,
        ).operations,
        second.since(first).bytes + third.since(second).bytes == third.since(first).bytes,
        second.since(first).samples + third.since(second).samples == third.since(first).samples,
        second.since(first).sampled_ns + third.since(second).sampled_ns == third.since(
            first,
        ).sampled_ns,
{
}

/// Which cipher is at work.
#[derive(Clone, Copy, Debug, PartialEq, Eq, Structural)]
pub enum CryptoKind {
    Chacha,
    Srtp,
}

/// Which way it works.
#[derive(Clone, Copy, Debug, PartialEq, Eq, Structural)]
pub enum CryptoDirection {
    Unwrap,
    Wrap,
}

/// Counts cryptographic work, and times one operation in so many of each cipher.
#[derive(Clone, Copy, Debug)]
pub struct CryptoProfiler {
    pub enabled: bool,
    /// One operation in this many is timed.
    pub sample_interval: u64,
    /// How many operations each cipher has started, modulo two to the 64.
    pub chacha_cursor: u64,
    pub srtp_cursor: u64,
    pub counters: CryptoPerfSnapshot,
}

impl CryptoProfiler {
    /// How many operations the cipher has started.
    pub open spec fn cursor(self, kind: CryptoKind) -> u64 {
        match kind {
            CryptoKind::Chacha => self.chacha_cursor,
            CryptoKind::Srtp => self.srtp_cursor,
        }
    }

    /// The next operation of the cipher is to be timed.
    pub open spec fn times_next(self, kind: CryptoKind) -> bool {
        if self.sample_interval == 0 {
            self.cursor(kind) == 0
        } else {
            self.cursor(kind) % self.sample_interval == 0
        }
    }

    /// The profiler once an operation has started.
    pub open spec fn begun(
        self,
        kind: CryptoKind,
        direction: CryptoDirection,
        bytes: u64,
    ) -> CryptoProfiler {
        let timed = self.times_next(kind);
        CryptoProfiler {
            chacha_cursor: if kind == CryptoKind::Chacha {
                self.chacha_cursor.wrapping_add(1)
            } else {
                self.chacha_cursor
            },
            srtp_cursor: if kind == CryptoKind::Srtp {
                self.srtp_cursor.wrapping_add(1)
            } else {
                self.srtp_cursor
            },
            counters: CryptoPerfSnapshot {
                chacha: if kind == CryptoKind::Chacha {
                    self.counters.chacha.started(bytes, timed)
                } else {
                    self.counters.chacha
                },
                srtp: if kind == CryptoKind::Srtp {
                    self.counters.srtp.started(bytes, timed)
                } else {
                    self.counters.srtp
                },
                unwrap_crypto: if direction == CryptoDirection::Unwrap {
                    self.counters.unwrap_crypto.started(bytes, timed)
                } else {
                    self.counters.unwrap_crypto
                },
                wrap_crypto: if direction == CryptoDirection::Wrap {
                    self.counters.wrap_crypto.started(bytes, timed)
                } else {
                    self.counters.wrap_crypto
                },
            },
            ..self
        }
    }

    /// The profiler once an operation that was timed has taken `elapsed_ns`.
    pub open spec fn finished(
        self,
        kind: CryptoKind,
        direction: CryptoDirection,
        elapsed_ns: u64,
    ) -> CryptoProfiler {
        CryptoProfiler {
            counters: CryptoPerfSnapshot {
                chacha: if kind == CryptoKind::Chacha {
                    self.counters.chacha.timed(elapsed_ns)
                } else {
                    self.counters.chacha
                },
                srtp: if kind == CryptoKind::Srtp {
                    self.counters.srtp.timed(elapsed_ns)
                } else {
                    self.counters.srtp
                },
                unwrap_crypto: if direction == CryptoDirection::Unwrap {
                    self.counters.unwrap_crypto.timed(elapsed_ns)
                } else {
                    self.counters.unwrap_crypto
                },
                wrap_crypto: if direction == CryptoDirection::Wrap {
                    self.counters.wrap_crypto.timed(elapsed_ns)
                } else {
                    self.counters.wrap_crypto
                },
            },
            ..self
        }
    }

    /// A profiler that has counted nothing.
    pub fn new(enabled: bool, sample_interval: u64) -> (profiler: CryptoProfiler)
        ensures
            profiler.enabled == enabled,
            profiler.sample_interval == sample_interval,
            profiler.chacha_cursor == 0,
            profiler.srtp_cursor == 0,
            profiler.counters.chacha == CryptoPerfCounters::zero(),
            profiler.counters.srtp == CryptoPerfCounters::zero(),
            profiler.counters.unwrap_crypto == CryptoPerfCounters::zero(),
            profiler.counters.wrap_crypto == CryptoPerfCounters::zero(),
    {
        CryptoProfiler {
            enabled,
            sample_interval,
            chacha_cursor: 0,
            srtp_cursor: 0,
            counters: CryptoPerfSnapshot::default(),
        }
    }

    /// Counts an operation that starts. Says whether it is to be timed.
    pub fn begin(&mut self, kind: CryptoKind, direction: CryptoDirection, bytes: usize) -> (timed:
        bool)
        ensures
            timed == (old(self).enabled && old(self).times_next(kind)),
            *final(self) == if old(self).enabled {
                old(self).begun(kind, direction, bytes as u64)
            } else {
                *old(self)
            },
    {
        if !self.enabled {
            return false;
        }
        let cursor: u64 = match kind {
            CryptoKind::Chacha => self.chacha_cursor,
            CryptoKind::Srtp => self.srtp_cursor,
        };
        let timed = if self.sample_interval == 0 {
            cursor == 0
        } else {
            cursor % self.sample_interval == 0
        };
        match kind {
            CryptoKind::Chacha => {
                self.counters.chacha = self.counters.chacha.start(bytes as u64, timed);
                self.chacha_cursor = cursor.wrapping_add(1);
            },
            CryptoKind::Srtp => {
                self.counters.srtp = self.counters.srtp.start(bytes as u64, timed);
                self.srtp_cursor = cursor.wrapping_add(1);
            },
        }
        match direction {
            CryptoDirection::Unwrap => {
                self.counters.unwrap_crypto = self.counters.unwrap_crypto.start(
                    bytes as u64,
                    timed,
                );
            },
            CryptoDirection::Wrap => {
                self.counters.wrap_crypto = self.counters.wrap_crypto.start(bytes as u64, timed);
            },
        }
        timed
    }

    /// Takes note of how long an operation took, if it was timed: `started_ns` and `now_ns`
    /// are what the clock showed before and after it.
    pub fn finish(
        &mut self,
        kind: CryptoKind,
        direction: CryptoDirection,
        started_ns: Option<u64>,
        now_ns: u64,
    )
        ensures
            *final(self) == match started_ns {
                Some(started) => old(self).finished(
                    kind,
                    direction,
                    session::saturating_difference(now_ns, started),
                ),
                None => *old(self),
            },
    {
        if let Some(started) = started_ns {
            let elapsed: u64 = now_ns.saturating_sub(started);
            match kind {
                CryptoKind::Chacha => {
                    self.counters.chacha = self.counters.chacha.add_time(elapsed);
                },
                CryptoKind::Srtp => {
                    self.counters.srtp = self.counters.srtp.add_time(elapsed);
                },
            }
            match direction {
                CryptoDirection::Unwrap => {
                    self.counters.unwrap_crypto = self.counters.unwrap_crypto.add_time(elapsed);
                },
                CryptoDirection::Wrap => {
                    self.counters.wrap_crypto = self.counters.wrap_crypto.add_time(elapsed);
                },
            }
        }
    }
}

/// The processor time of one thread.
#[derive(Clone, Debug)]
pub struct ThreadCpuFrame {
    pub tid: u32,
    pub name: String,
    pub user_cpu_ns: u64,
    pub system_cpu_ns: u64,
}

/// What an observer of the data path is shown, once per interval.
#[derive(Clone, Debug)]
pub struct SyscallsFrame {
    pub timestamp_ms: u64,
    pub sample_window_ns: u64,
    pub process_cpu_ns: u64,
    pub process_user_cpu_ns: u64,
    pub process_system_cpu_ns: u64,
    pub dataplane_cpu_ns: u64,
    pub dataplane_tid: u32,
    pub threads: Vec<ThreadCpuFrame>,
    pub udp_rx_pps: u64,
    pub udp_rx_bps: u64,
    pub udp_rx_errors_s: u64,
    pub udp_tx_pps: u64,
    pub udp_tx_bps: u64,
    pub udp_tx_errors_s: u64,
    pub udp_tx_drops_s: u64,
    pub tun_rx_pps: u64,
    pub tun_rx_bps: u64,
    pub tun_rx_errors_s: u64,
    pub tun_tx_pps: u64,
    pub tun_tx_bps: u64,
    pub tun_tx_errors_s: u64,
    pub tun_tx_drops_s: u64,
    pub readiness_wakeups_s: u64,
    pub recv_syscalls_s: u64,
    pub send_syscalls_s: u64,
    pub rx_eagain_s: u64,
    pub tx_eagain_s: u64,
    pub partial_sendmmsg_s: u64,
    pub crypto_ops_s: u64,
    pub active_sessions: u64,
    pub free_udp_tx_slots: u64,
    pub free_tun_tx_slots: u64,
    pub recv_batch_max: u64,
    pub udp_rx_enobufs_s: u64,
    pub udp_tx_enobufs_s: u64,
    pub total_udp_rx_packets: u64,
    pub total_udp_tx_packets: u64,
    pub total_tun_rx_packets: u64,
    pub total_tun_tx_packets: u64,
    pub crypto_sample_interval: u64,
    pub chacha: CryptoPerfCounters,
    pub srtp: CryptoPerfCounters,
    pub unwrap_crypto: CryptoPerfCounters,
    pub wrap_crypto: CryptoPerfCounters,
    pub all_sample_interval: u64,
}

/// How large the tables of the engines are.
#[derive(Clone, Copy, Debug, PartialEq, Eq, Structural)]
pub struct Gauges {
    pub active_sessions: u64,
    pub engine_epochs: u64,
    pub stream_repairs: u64,
    pub stream_inventory: u64,
}

impl Gauges {
    /// Takes note of a session that was added.
    pub fn session_added(&mut self)
        ensures
            *final(self) == (Gauges {
                active_sessions: old(self).active_sessions.wrapping_add(1),
                ..*old(self)
            }),
    {
        self.active_sessions = self.active_sessions.wrapping_add(1);
    }

    /// Takes note of a session that was removed. The gauge does not go below zero.
    pub fn session_removed(&mut self)
        ensures
            *final(self) == (Gauges {
                active_sessions: session::saturating_difference(old(self).active_sessions, 1),
                ..*old(self)
            }),
    {
        self.active_sessions = self.active_sessions.saturating_sub(1);
    }
}

/// How many devices the engines have heard of.
pub fn epoch_snapshot_len(gauges: &Gauges) -> (len: usize)
    ensures
        len == gauges.engine_epochs as usize,
{
    gauges.engine_epochs as usize
}

/// Lets in one observer at a time.
#[derive(Clone, Copy, Debug, PartialEq, Eq, Structural)]
pub struct ObserverGate {
    pub taken: bool,
}

impl ObserverGate {
    /// Lets an observer in, unless another one is there.
    pub fn try_enter(&mut self) -> (entered: bool)
        ensures
            entered == !old(self).taken,
            final(self).taken,
    {
        let entered = !self.taken;
        self.taken = true;
        entered
    }

    /// Takes note that the observer has left.
    pub fn leave(&mut self)
        ensures
            !final(self).taken,
    {
        self.taken = false;
    }
}

/// What a session has carried while it was watched.
#[derive(Clone, Copy, Debug, PartialEq, Eq, Structural)]
pub struct StreamDebugMetrics {
    /// How often the metrics were started anew.
    pub generation: u64,
    /// Since when they count; zero where nobody watches.
    pub started_at: u64,
    pub up_bytes: u64,
    pub down_bytes: u64,
    pub up_packets: u64,
    pub down_packets: u64,
}

/// The metrics of a session at one moment.
#[derive(Clone, Copy, Debug, PartialEq, Eq, Structural)]
pub struct StreamDebugSnapshot {
    /// Whether somebody watches.
    pub active: bool,
    pub started_at: u64,
    pub up_bytes: u64,
    pub down_bytes: u64,
    pub up_packets: u64,
    pub down_packets: u64,
}

impl StreamDebugMetrics {
    /// Metrics that have counted nothing. They count from now on if somebody watches.
    pub open spec fn fresh(active: bool, now: u64) -> StreamDebugMetrics {
        StreamDebugMetrics {
            generation: 1,
            started_at: if active {
                now
            } else {
                0
            },
            up_bytes: 0,
            down_bytes: 0,
            up_packets: 0,
            down_packets: 0,
        }
    }

    /// Metrics that have counted nothing. They count from now on if somebody watches.
    pub fn new(active: bool, now: u64) -> (metrics: StreamDebugMetrics)
        ensures
            metrics == StreamDebugMetrics::fresh(active, now),
    {
        StreamDebugMetrics {
            generation: 1,
            started_at: if active {
                now
            } else {
                0
            },
            up_bytes: 0,
            down_bytes: 0,
            up_packets: 0,
            down_packets: 0,
        }
    }

    /// Starts anew.
    pub fn reset(&mut self, now: u64)
        ensures
            *final(self) == (StreamDebugMetrics {
                generation: old(self).generation.wrapping_add(1),
                started_at: now,
                up_bytes: 0,
                down_bytes: 0,
                up_packets: 0,
                down_packets: 0,
            }),
    {
        self.generation = self.generation.wrapping_add(1);
        self.started_at = now;
        self.up_bytes = 0;
        self.down_bytes = 0;
        self.up_packets = 0;
        self.down_packets = 0;
    }

    /// Takes note of what the session has carried, if somebody watches.
    pub fn publish(
        &mut self,
        active: bool,
        up_bytes: u64,
        down_bytes: u64,
        up_packets: u64,
        down_packets: u64,
    )
        ensures
            *final(self) == if active {
                (StreamDebugMetrics {
                    generation: old(self).generation,
                    started_at: old(self).started_at,
                    up_bytes,
                    down_bytes,
                    up_packets,
                    down_packets,
                })
            } else {
                *old(self)
            },
    {
        if active {
            self.up_bytes = up_bytes;
            self.down_bytes = down_bytes;
            self.up_packets = up_packets;
            self.down_packets = down_packets;
        }
    }

    /// The metrics at this moment. Where somebody watches and nobody did before, they count
    /// from now on.
    pub fn snapshot(&mut self, active: bool, now: u64) -> (snapshot: StreamDebugSnapshot)
        ensures
            *final(self) == (StreamDebugMetrics {
                started_at: if active && old(self).started_at == 0 {
                    now
                } else {
                    old(self).started_at
                },
                ..*old(self)
            }),
            snapshot == (StreamDebugSnapshot {
                active,
                started_at: final(self).started_at,
                up_bytes: old(self).up_bytes,
                down_bytes: old(self).down_bytes,
                up_packets: old(self).up_packets,
                down_packets: old(self).down_packets,
            }),
    {
        if active && self.started_at == 0 {
            self.started_at = now;
        }
        StreamDebugSnapshot {
            active,
            started_at: self.started_at,
            up_bytes: self.up_bytes,
            down_bytes: self.down_bytes,
            up_packets: self.up_packets,
            down_packets: self.down_packets,
        }
    }
}

} // verus!
