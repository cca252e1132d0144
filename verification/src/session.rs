//! Sessions, as the data path keeps them.
use crate::endpoint::{EndpointKey, IpAddress, PeerAddress};
use crate::epoch::IdentityView;
use crate::perf::StreamDebugMetrics;
use crate::replay::{ReplayState, ReplayView};
use crate::rtp::OutState;
use crate::wire::WrapKey;
use vstd::prelude::*;

verus! {

/// Whether small packets are sent twice.
#[derive(Clone, Copy, Debug, PartialEq, Eq, Structural)]
pub enum FecProfile {
    Safe,
    Off,
}

impl Default for FecProfile {
    fn default() -> (profile: FecProfile)
        ensures
            profile == FecProfile::Safe,
    {
        FecProfile::Safe
    }
}

/// The worker number of a session that has not been given one.
pub const NO_WORKER: u64 = 0xffff_ffff_ffff_ffff;

/// What a session carried since its metrics were last reset.
#[derive(Clone, Copy, Debug, PartialEq, Eq, Structural)]
pub struct HotDebug {
    pub generation: u64,
    pub up_bytes: u64,
    pub down_bytes: u64,
    pub up_packets: u64,
    pub down_packets: u64,
}

impl HotDebug {
    /// Metrics of `generation` that have counted nothing.
    pub open spec fn zero(generation: u64) -> HotDebug {
        HotDebug { generation, up_bytes: 0, down_bytes: 0, up_packets: 0, down_packets: 0 }
    }

    /// Metrics of `generation` that have counted nothing.
    pub fn new(generation: u64) -> (debug: HotDebug)
        ensures
            debug == HotDebug::zero(generation),
    {
        HotDebug { generation, up_bytes: 0, down_bytes: 0, up_packets: 0, down_packets: 0 }
    }

    /// Starts counting anew, for `generation`.
    pub fn reset(&mut self, generation: u64)
        ensures
            *final(self) == HotDebug::zero(generation),
    {
        *self = HotDebug::new(generation);
    }
}

/// A session on the data path.
pub struct HotSession {
    pub id: u64,
    pub peer: PeerAddress,
    pub local_ip: Option<IpAddress>,
    pub password: String,
    pub device_id: String,
    pub generation_id: u64,
    pub session_salt: String,
    pub key: WrapKey,
    pub output: OutState,
    pub replay: ReplayState,
    pub tunnel_ip: Option<[u8; 4]>,
    pub registration_id: Option<u64>,
    pub worker_id: u64,
    pub desired_stream_count: u16,
    pub last_inbound_ms: u64,
    pub up_total: u64,
    pub down_total: u64,
    pub reported_up: u64,
    pub reported_down: u64,
    pub is_srtp: bool,
    pub pending_tunnel: bool,
    pub data_frames: bool,
    pub created_at: u64,
    pub debug: HotDebug,
    /// The metrics that the control side starts with.
    pub stream_debug: StreamDebugMetrics,
    pub fec_profile: FecProfile,
}

/// What a [`HotSession`] says.
#[verifier::ext_equal]
pub struct SessionView {
    pub id: u64,
    pub peer: PeerAddress,
    pub local_ip: Option<IpAddress>,
    pub password: Seq<char>,
    pub device_id: Seq<char>,
    pub generation_id: u64,
    pub session_salt: Seq<char>,
    pub key: WrapKey,
    pub output: OutState,
    pub replay: ReplayView,
    pub tunnel_ip: Option<[u8; 4]>,
    pub registration_id: Option<u64>,
    pub worker_id: u64,
    pub desired_stream_count: u16,
    pub last_inbound_ms: u64,
    pub up_total: u64,
    pub down_total: u64,
    pub reported_up: u64,
    pub reported_down: u64,
    pub is_srtp: bool,
    pub pending_tunnel: bool,
    pub data_frames: bool,
    pub created_at: u64,
    pub debug: HotDebug,
    /// The metrics that the control side starts with.
    pub stream_debug: StreamDebugMetrics,
    pub fec_profile: FecProfile,
}

/// The traffic that a session has to report.
#[derive(Clone, Copy, Debug, PartialEq, Eq, Structural)]
pub struct CounterReport {
    pub session_id: u64,
    pub up_delta: u64,
    pub down_delta: u64,
    pub last_seen: u64,
    /// Whether the metrics in `debug` are to be published too.
    pub publish_debug: bool,
    pub debug: HotDebug,
}

/// `a + b`, or the largest number where that is too large.
pub open spec fn saturating_sum(a: u64, b: u64) -> u64 {
    if a + b > u64::MAX {
        u64::MAX
    } else {
        (a + b) as u64
    }
}

/// `a - b`, or zero where `b` is larger.
pub open spec fn saturating_difference(a: u64, b: u64) -> u64 {
    if a >= b {
        (a - b) as u64
    } else {
        0
    }
}

impl SessionView {
    /// The device and key of the session.
    pub open spec fn identity(self) -> IdentityView {
        IdentityView {
            device_id: self.device_id,
            generation_id: self.generation_id,
            session_salt: self.session_salt,
        }
    }

    /// The endpoint that the session is at.
    pub open spec fn endpoint(self) -> EndpointKey {
        EndpointKey { peer: self.peer, local_ip: self.local_ip }
    }

    /// The session has a tunnel address and a route to it.
    pub open spec fn routed(self) -> bool {
        self.tunnel_ip is Some && self.registration_id is Some
    }

    /// The session once `bytes` more went up.
    pub open spec fn carried_up(self, bytes: u64, debug_enabled: bool) -> SessionView {
        SessionView {
            up_total: saturating_sum(self.up_total, bytes),
            debug: if debug_enabled {
                HotDebug {
                    up_bytes: saturating_sum(self.debug.up_bytes, bytes),
                    up_packets: saturating_sum(self.debug.up_packets, 1),
                    ..self.debug
                }
            } else {
                self.debug
            },
            ..self
        }
    }

    /// The session once `bytes` more went down.
    pub open spec fn carried_down(self, bytes: u64, debug_enabled: bool) -> SessionView {
        SessionView {
            down_total: saturating_sum(self.down_total, bytes),
            debug: if debug_enabled {
                HotDebug {
                    down_bytes: saturating_sum(self.debug.down_bytes, bytes),
                    down_packets: saturating_sum(self.debug.down_packets, 1),
                    ..self.debug
                }
            } else {
                self.debug
            },
            ..self
        }
    }

    /// What the session has to report.
    pub open spec fn report(self, wall_now: u64, debug_enabled: bool) -> CounterReport {
        CounterReport {
            session_id: self.id,
            up_delta: saturating_difference(self.up_total, self.reported_up),
            down_delta: saturating_difference(self.down_total, self.reported_down),
            last_seen: wall_now,
            publish_debug: debug_enabled,
            debug: self.debug,
        }
    }

    /// The session once it has reported.
    pub open spec fn reported(self) -> SessionView {
        SessionView {
            reported_up: if self.up_total > self.reported_up {
                self.up_total
            } else {
                self.reported_up
            },
            reported_down: if self.down_total > self.reported_down {
                self.down_total
            } else {
                self.reported_down
            },
            ..self
        }
    }
}

/// Nothing that a session carried is reported twice, and what it carried since the last
/// report is.
pub proof fn reports_add_up(session: SessionView, wall_now: u64, debug_enabled: bool)
    requires
        session.reported_up <= session.up_total,
        session.reported_down <= session.down_total,
    ensures
        session.reported_up + session.report(wall_now, debug_enabled).up_delta
            == session.reported().reported_up,
        session.reported_down + session.report(wall_now, debug_enabled).down_delta
            == session.reported().reported_down,
        session.reported().report(wall_now, debug_enabled).up_delta == 0,
        session.reported().report(wall_now, debug_enabled).down_delta == 0,
{
}

impl View for HotSession {
    type V = SessionView;

    open spec fn view(&self) -> SessionView {
        SessionView {
            id: self.id,
            peer: self.peer,
            local_ip: self.local_ip,
            password: self.password@,
            device_id: self.device_id@,
            generation_id: self.generation_id,
            session_salt: self.session_salt@,
            key: self.key,
            output: self.output,
            replay: self.replay@,
            tunnel_ip: self.tunnel_ip,
            registration_id: self.registration_id,
            worker_id: self.worker_id,
            desired_stream_count: self.desired_stream_count,
            last_inbound_ms: self.last_inbound_ms,
            up_total: self.up_total,
            down_total: self.down_total,
            reported_up: self.reported_up,
            reported_down: self.reported_down,
            is_srtp: self.is_srtp,
            pending_tunnel: self.pending_tunnel,
            data_frames: self.data_frames,
            created_at: self.created_at,
            debug: self.debug,
            stream_debug: self.stream_debug,
            fec_profile: self.fec_profile,
        }
    }
}

/// What a new session is made of.
#[verifier::ext_equal]
pub struct SessionOrigin {
    pub id: u64,
    pub peer: PeerAddress,
    pub local_ip: Option<IpAddress>,
    pub password: Seq<char>,
    pub key: WrapKey,
    pub is_srtp: bool,
    pub identity: IdentityView,
    pub fec_profile: FecProfile,
    /// Whether somebody watches the streams.
    pub stream_debug_active: bool,
    /// Since when the metrics count in that case.
    pub cached_now: u64,
    pub monotonic_ms: u64,
    pub wall_now: u64,
}

/// A session that has just been made, with the given counters for its output.
pub open spec fn new_session(origin: SessionOrigin, output: OutState) -> SessionView {
    SessionView {
        id: origin.id,
        peer: origin.peer,
        local_ip: origin.local_ip,
        password: origin.password,
        device_id: origin.identity.device_id,
        generation_id: origin.identity.generation_id,
        session_salt: origin.identity.session_salt,
        key: origin.key,
        output,
        replay: ReplayView { highest: None, window: Set::empty() },
        tunnel_ip: None,
        registration_id: None,
        worker_id: NO_WORKER,
        desired_stream_count: 0,
        last_inbound_ms: origin.monotonic_ms,
        up_total: 0,
        down_total: 0,
        reported_up: 0,
        reported_down: 0,
        is_srtp: origin.is_srtp,
        pending_tunnel: false,
        data_frames: false,
        created_at: origin.wall_now,
        debug: HotDebug::zero(1),
        stream_debug: StreamDebugMetrics::fresh(origin.stream_debug_active, origin.cached_now),
        fec_profile: origin.fec_profile,
    }
}

impl HotSession {
    /// The parts that have an invariant satisfy it.
    pub open spec fn wf(&self) -> bool {
        self.replay.wf()
    }

    /// A new session.
    pub fn legacy(
        id: u64,
        peer: PeerAddress,
        local_ip: Option<IpAddress>,
        password: &str,
        key: WrapKey,
        output: OutState,
        is_srtp: bool,
        device_id: &str,
        generation_id: u64,
        session_salt: &str,
        fec_profile: FecProfile,
        stream_debug_active: bool,
        cached_now: u64,
        monotonic_ms: u64,
        wall_now: u64,
    ) -> (session: HotSession)
        ensures
            session.wf(),
            session@ == new_session(
                (SessionOrigin {
                    id,
                    peer,
                    local_ip,
                    password: password@,
                    key,
                    is_srtp,
                    identity: IdentityView {
                        device_id: device_id@,
                        generation_id,
                        session_salt: session_salt@,
                    },
                    fec_profile,
                    stream_debug_active,
                    cached_now,
                    monotonic_ms,
                    wall_now,
                }),
                output,
            ),
    {
        let stream_debug = StreamDebugMetrics::new(stream_debug_active, cached_now);
        HotSession {
            id,
            peer,
            local_ip,
            password: password.to_owned(),
            device_id: device_id.to_owned(),
            generation_id,
            session_salt: session_salt.to_owned(),
            key,
            output,
            replay: ReplayState::new(),
            tunnel_ip: None,
            registration_id: None,
            worker_id: NO_WORKER,
            desired_stream_count: 0,
            last_inbound_ms: monotonic_ms,
            up_total: 0,
            down_total: 0,
            reported_up: 0,
            reported_down: 0,
            is_srtp,
            pending_tunnel: false,
            data_frames: false,
            created_at: wall_now,
            debug: HotDebug::new(stream_debug.generation),
            stream_debug,
            fec_profile,
        }
    }

    /// Counts `bytes` more that went up.
    pub fn record_up(&mut self, bytes: u64, debug_enabled: bool)
        ensures
            final(self)@ == old(self)@.carried_up(bytes, debug_enabled),
            final(self).wf() == old(self).wf(),
    {
        self.up_total = self.up_total.saturating_add(bytes);
        self.record_debug_up(bytes, debug_enabled);
    }

    /// Counts `bytes` more that went down.
    pub fn record_down(&mut self, bytes: u64, debug_enabled: bool)
        ensures
            final(self)@ == old(self)@.carried_down(bytes, debug_enabled),
            final(self).wf() == old(self).wf(),
    {
        self.down_total = self.down_total.saturating_add(bytes);
        self.record_debug_down(bytes, debug_enabled);
    }

    fn record_debug_up(&mut self, bytes: u64, enabled: bool)
        ensures
            final(self)@ == (SessionView {
                debug: old(self)@.carried_up(bytes, enabled).debug,
                ..old(self)@
            }),
            final(self).wf() == old(self).wf(),
    {
        if enabled {
            self.debug.up_bytes = self.debug.up_bytes.saturating_add(bytes);
            self.debug.up_packets = self.debug.up_packets.saturating_add(1);
        }
    }

    fn record_debug_down(&mut self, bytes: u64, enabled: bool)
        ensures
            final(self)@ == (SessionView {
                debug: old(self)@.carried_down(bytes, enabled).debug,
                ..old(self)@
            }),
            final(self).wf() == old(self).wf(),
    {
        if enabled {
            self.debug.down_bytes = self.debug.down_bytes.saturating_add(bytes);
            self.debug.down_packets = self.debug.down_packets.saturating_add(1);
        }
    }

    /// Starts the debug metrics anew where `generation` is not the one they count for.
    pub fn sync_debug(&mut self, generation: u64)
        ensures
            final(self)@ == (SessionView {
                debug: if generation == old(self)@.debug.generation {
                    old(self)@.debug
                } else {
                    HotDebug::zero(generation)
                },
                ..old(self)@
            }),
            final(self).wf() == old(self).wf(),
    {
        if generation != self.debug.generation {
            self.debug.reset(generation);
        }
    }

    /// Takes what the session has to report.
    pub fn publish_counters(&mut self, wall_now: u64, debug_enabled: bool) -> (report:
        CounterReport)
        ensures
            report == old(self)@.report(wall_now, debug_enabled),
            final(self)@ == old(self)@.reported(),
            final(self).wf() == old(self).wf(),
    {
        let up_delta: u64 = self.up_total.saturating_sub(self.reported_up);
        let down_delta: u64 = self.down_total.saturating_sub(self.reported_down);
        if up_delta != 0 {
            self.reported_up = self.up_total;
        }
        if down_delta != 0 {
            self.reported_down = self.down_total;
        }
        CounterReport {
            session_id: self.id,
            up_delta,
            down_delta,
            last_seen: wall_now,
            publish_debug: debug_enabled,
            debug: self.debug,
        }
    }
}

/// Why an idle session is closed.
pub fn hot_session_idle_reason(is_authenticated: bool) -> (reason: &'static str)
    ensures
        reason@ == idle_reason(is_authenticated),
{
    if is_authenticated {
        "authenticated-idle-10h"
    } else {
        "setup-idle-15s"
    }
}

/// Why an idle session is closed.
pub open spec fn idle_reason(is_authenticated: bool) -> Seq<char> {
    if is_authenticated {
        "authenticated-idle-10h"@
    } else {
        "setup-idle-15s"@
    }
}

} // verus!
