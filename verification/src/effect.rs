//! What goes into the protocol engine and what comes out of it: commands, events for the
//! control side, and effects that its surroundings carry out.
use crate::bytes::copy_of;
use crate::endpoint::{IpAddress, PeerAddress};
use crate::perf::StreamDebugMetrics;
use crate::session;
use crate::session::{CounterReport, HotSession, SessionView};
use crate::stream::{ActionView, RepairLogView, StreamControlAction, StreamRepairLog};
use crate::text::same_text;
use crate::wire::WrapKey;
use vstd::prelude::*;

verus! {

/// A password and the key that it gives.
pub struct Credential {
    pub password: String,
    pub key: WrapKey,
}

/// What a [`Credential`] says.
#[verifier::ext_equal]
pub struct CredentialView {
    pub password: Seq<char>,
    pub key: WrapKey,
}

impl View for Credential {
    type V = CredentialView;

    open spec fn view(&self) -> CredentialView {
        CredentialView { password: self.password@, key: self.key }
    }
}

/// The passwords that are in force.
pub struct CredentialSet {
    pub entries: Vec<Credential>,
}

impl View for CredentialSet {
    type V = Seq<CredentialView>;

    open spec fn view(&self) -> Seq<CredentialView> {
        Seq::new(self.entries@.len(), |i: int| self.entries@[i]@)
    }
}

/// `password` is among the credentials.
pub open spec fn has_password(credentials: Seq<CredentialView>, password: Seq<char>) -> bool {
    exists|i: int| 0 <= i < credentials.len() && #[trigger] credentials[i].password == password
}

impl CredentialSet {
    /// Whether `password` is in force.
    pub fn contains_password(&self, password: &str) -> (found: bool)
        ensures
            found == has_password(self@, password@),
    {
        let mut i: usize = 0;
        while i < self.entries.len()
            invariant
                i <= self.entries@.len(),
                forall|j: int| 0 <= j < i ==> (#[trigger] self@[j]).password != password@,
            decreases self.entries.len() - i,
        {
            if same_text(self.entries[i].password.as_str(), password) {
                assert(self@[i as int].password == password@);
                return true;
            }
            i += 1;
        }
        false
    }

    /// The same passwords once more.
    pub fn copy(&self) -> (set: CredentialSet)
        ensures
            set@ == self@,
    {
        let mut entries: Vec<Credential> = Vec::new();
        let mut i: usize = 0;
        while i < self.entries.len()
            invariant
                i <= self.entries@.len(),
                entries@.len() == i,
                forall|j: int| 0 <= j < i ==> (#[trigger] entries@[j])@ == self.entries@[j]@,
            decreases self.entries.len() - i,
        {
            let entry = &self.entries[i];
            entries.push(Credential { password: entry.password.clone(), key: entry.key });
            i += 1;
        }
        let set = CredentialSet { entries };
        assert(set@ =~= self@);
        set
    }
}

/// What the sockets and the tunnel device have counted.
#[derive(Clone, Copy, Debug, PartialEq, Eq, Structural)]
pub struct IoCounters {
    pub udp_rx_packets: u64,
    pub udp_tx_packets: u64,
    pub tun_rx_packets: u64,
    pub tun_tx_packets: u64,
    pub udp_rx_errors: u64,
    pub udp_tx_errors: u64,
    pub tun_rx_errors: u64,
    pub tun_tx_errors: u64,
    pub udp_tx_drops: u64,
    pub tun_tx_drops: u64,
    pub partial_sendmmsg: u64,
    pub udp_rx_enobufs: u64,
    pub udp_tx_enobufs: u64,
}

impl IoCounters {
    /// Counters that have counted nothing.
    pub open spec fn zero() -> IoCounters {
        IoCounters {
            udp_rx_packets: 0,
            udp_tx_packets: 0,
            tun_rx_packets: 0,
            tun_tx_packets: 0,
            udp_rx_errors: 0,
            udp_tx_errors: 0,
            tun_rx_errors: 0,
            tun_tx_errors: 0,
            udp_tx_drops: 0,
            tun_tx_drops: 0,
            partial_sendmmsg: 0,
            udp_rx_enobufs: 0,
            udp_tx_enobufs: 0,
        }
    }

    /// The counters agree on everything that went wrong.
    pub open spec fn same_faults(self, other: IoCounters) -> bool {
        &&& self.udp_rx_errors == other.udp_rx_errors
        &&& self.udp_tx_errors == other.udp_tx_errors
        &&& self.tun_rx_errors == other.tun_rx_errors
        &&& self.tun_tx_errors == other.tun_tx_errors
        &&& self.udp_tx_drops == other.udp_tx_drops
        &&& self.tun_tx_drops == other.tun_tx_drops
        &&& self.partial_sendmmsg == other.partial_sendmmsg
        &&& self.udp_rx_enobufs == other.udp_rx_enobufs
        &&& self.udp_tx_enobufs == other.udp_tx_enobufs
    }

    /// Whether the counters agree on everything that went wrong.
    pub fn agrees_on_faults(&self, other: &IoCounters) -> (same: bool)
        ensures
            same == self.same_faults(*other),
    {
        self.udp_rx_errors == other.udp_rx_errors && self.udp_tx_errors == other.udp_tx_errors
            && self.tun_rx_errors == other.tun_rx_errors && self.tun_tx_errors
            == other.tun_tx_errors && self.udp_tx_drops == other.udp_tx_drops && self.tun_tx_drops
            == other.tun_tx_drops && self.partial_sendmmsg == other.partial_sendmmsg
            && self.udp_rx_enobufs == other.udp_rx_enobufs && self.udp_tx_enobufs
            == other.udp_tx_enobufs
    }
}

impl Default for IoCounters {
    fn default() -> (counters: IoCounters)
        ensures
            counters == IoCounters::zero(),
    {
        IoCounters {
            udp_rx_packets: 0,
            udp_tx_packets: 0,
            tun_rx_packets: 0,
            tun_tx_packets: 0,
            udp_rx_errors: 0,
            udp_tx_errors: 0,
            tun_rx_errors: 0,
            tun_tx_errors: 0,
            udp_tx_drops: 0,
            tun_tx_drops: 0,
            partial_sendmmsg: 0,
            udp_rx_enobufs: 0,
            udp_tx_enobufs: 0,
        }
    }
}

/// How much more went wrong between two readings of the counters.
#[derive(Clone, Copy, Debug, PartialEq, Eq, Structural)]
pub struct IoFaults {
    pub errors: u64,
    pub udp_drops: u64,
    pub tun_drops: u64,
}

impl IoCounters {
    /// How much more went wrong since `last`.
    pub open spec fn faults_since(self, last: IoCounters) -> IoFaults {
        IoFaults {
            errors: session::saturating_sum(
                session::saturating_sum(
                    session::saturating_sum(
                        session::saturating_difference(self.udp_rx_errors, last.udp_rx_errors),
                        session::saturating_difference(self.udp_tx_errors, last.udp_tx_errors),
                    ),
                    session::saturating_difference(self.tun_rx_errors, last.tun_rx_errors),
                ),
                session::saturating_difference(self.tun_tx_errors, last.tun_tx_errors),
            ),
            udp_drops: session::saturating_difference(self.udp_tx_drops, last.udp_tx_drops),
            tun_drops: session::saturating_difference(self.tun_tx_drops, last.tun_tx_drops),
        }
    }

    /// How much more went wrong since `last`, if anything did.
    pub fn new_faults(&self, last: &IoCounters) -> (faults: Option<IoFaults>)
        ensures
            faults == ({
                let more = self.faults_since(*last);
                if more.errors != 0 || more.udp_drops != 0 || more.tun_drops != 0 {
                    Some(more)
                } else {
                    None
                }
            }),
    {
        let errors: u64 = self.udp_rx_errors.saturating_sub(
            last.udp_rx_errors,
        ).saturating_add(self.udp_tx_errors.saturating_sub(last.udp_tx_errors)).saturating_add(
            self.tun_rx_errors.saturating_sub(last.tun_rx_errors),
        ).saturating_add(self.tun_tx_errors.saturating_sub(last.tun_tx_errors));
        let udp_drops: u64 = self.udp_tx_drops.saturating_sub(last.udp_tx_drops);
        let tun_drops: u64 = self.tun_tx_drops.saturating_sub(last.tun_tx_drops);
        if errors != 0 || udp_drops != 0 || tun_drops != 0 {
            Some(IoFaults { errors, udp_drops, tun_drops })
        } else {
            None
        }
    }
}

/// A session that has just been created, as the control side gets to know it.
pub struct SessionSeed {
    pub id: u64,
    pub address: PeerAddress,
    pub password: String,
    pub device_id: String,
    pub generation_id: u64,
    pub session_salt: String,
    pub is_srtp: bool,
    pub created_at: u64,
    pub stream_debug: StreamDebugMetrics,
}

/// What a [`SessionSeed`] says.
#[verifier::ext_equal]
pub struct SeedView {
    pub id: u64,
    pub address: PeerAddress,
    pub password: Seq<char>,
    pub device_id: Seq<char>,
    pub generation_id: u64,
    pub session_salt: Seq<char>,
    pub is_srtp: bool,
    pub created_at: u64,
    pub stream_debug: StreamDebugMetrics,
}

impl View for SessionSeed {
    type V = SeedView;

    open spec fn view(&self) -> SeedView {
        SeedView {
            id: self.id,
            address: self.address,
            password: self.password@,
            device_id: self.device_id@,
            generation_id: self.generation_id,
            session_salt: self.session_salt@,
            is_srtp: self.is_srtp,
            created_at: self.created_at,
            stream_debug: self.stream_debug,
        }
    }
}

/// What a session tells the control side when it is created.
pub open spec fn seed_of(session: SessionView) -> SeedView {
    SeedView {
        id: session.id,
        address: session.peer,
        password: session.password,
        device_id: session.device_id,
        generation_id: session.generation_id,
        session_salt: session.session_salt,
        is_srtp: session.is_srtp,
        created_at: session.created_at,
        stream_debug: session.stream_debug,
    }
}

/// An event for the control side.
pub enum ControlEvent {
    SessionCreated(SessionSeed),
    SessionClosed { address: PeerAddress, session_id: u64, reason: &'static str },
    Payload { address: PeerAddress, session_id: u64, payload: Vec<u8> },
    IngressBeforeTunnel { address: PeerAddress, session_id: u64, payload: Vec<u8> },
    StreamRepair { log: StreamRepairLog, selected_carriers: usize, sent_carriers: usize },
    IoCounters(IoCounters),
}

/// What a [`ControlEvent`] says.
#[verifier::ext_equal]
pub enum EventView {
    SessionCreated(SeedView),
    SessionClosed { address: PeerAddress, session_id: u64, reason: Seq<char> },
    Payload { address: PeerAddress, session_id: u64, payload: Seq<u8> },
    IngressBeforeTunnel { address: PeerAddress, session_id: u64, payload: Seq<u8> },
    StreamRepair { log: RepairLogView, selected_carriers: usize, sent_carriers: usize },
    IoCounters(IoCounters),
}

impl View for ControlEvent {
    type V = EventView;

    open spec fn view(&self) -> EventView {
        match *self {
            ControlEvent::SessionCreated(seed) => EventView::SessionCreated(seed@),
            ControlEvent::SessionClosed { address, session_id, reason } => EventView::SessionClosed {
                address,
                session_id,
                reason: reason@,
            },
            ControlEvent::Payload { address, session_id, payload } => EventView::Payload {
                address,
                session_id,
                payload: payload@,
            },
            ControlEvent::IngressBeforeTunnel { address, session_id, payload } =>
                EventView::IngressBeforeTunnel { address, session_id, payload: payload@ },
            ControlEvent::StreamRepair { log, selected_carriers, sent_carriers } =>
                EventView::StreamRepair { log: log@, selected_carriers, sent_carriers },
            ControlEvent::IoCounters(counters) => EventView::IoCounters(counters),
        }
    }
}

/// What the control side hears of a stream message: where it asked for a repair, over how
/// many of the sessions chosen it was sent.
pub fn repair_event(
    repair: Option<StreamRepairLog>,
    selected_carriers: usize,
    sent_carriers: usize,
) -> (event: Option<ControlEvent>)
    ensures
        match repair {
            Some(log) => event matches Some(told) && told@ == (EventView::StreamRepair {
                log: log@,
                selected_carriers,
                sent_carriers,
            }),
            None => event is None,
        },
{
    match repair {
        Some(log) => Some(ControlEvent::StreamRepair { log, selected_carriers, sent_carriers }),
        None => None,
    }
}

/// A change to what the control side knows of a session.
pub enum PublicUpdate {
    Counters(CounterReport),
    Tunnel { session_id: u64, ip: [u8; 4], desired_count: u16 },
    Epoch { session_id: u64, device_id: String, generation_id: u64, session_salt: String },
    HasTunnel { session_id: u64, has_tunnel: bool },
    Cancel { session_id: u64 },
}

/// What a [`PublicUpdate`] says.
#[verifier::ext_equal]
pub enum UpdateView {
    Counters(CounterReport),
    Tunnel { session_id: u64, ip: [u8; 4], desired_count: u16 },
    Epoch { session_id: u64, device_id: Seq<char>, generation_id: u64, session_salt: Seq<char> },
    HasTunnel { session_id: u64, has_tunnel: bool },
    Cancel { session_id: u64 },
}

impl View for PublicUpdate {
    type V = UpdateView;

    open spec fn view(&self) -> UpdateView {
        match *self {
            PublicUpdate::Counters(report) => UpdateView::Counters(report),
            PublicUpdate::Tunnel { session_id, ip, desired_count } => UpdateView::Tunnel {
                session_id,
                ip,
                desired_count,
            },
            PublicUpdate::Epoch { session_id, device_id, generation_id, session_salt } =>
                UpdateView::Epoch {
                    session_id,
                    device_id: device_id@,
                    generation_id,
                    session_salt: session_salt@,
                },
            PublicUpdate::HasTunnel { session_id, has_tunnel } => UpdateView::HasTunnel {
                session_id,
                has_tunnel,
            },
            PublicUpdate::Cancel { session_id } => UpdateView::Cancel { session_id },
        }
    }
}

/// A session that can take over a route.
#[derive(Clone, Copy, Debug, PartialEq, Eq, Structural)]
pub struct RouteFallback {
    pub slot: usize,
    pub session_id: u64,
    pub registration_id: u64,
    pub worker_id: u16,
}

/// A request to register a route.
#[derive(Clone, Copy, Debug)]
pub struct RouteRequest {
    pub ip: [u8; 4],
    pub session_id: u64,
    pub registration_id: u64,
    pub worker_id: u16,
    pub slot: usize,
    pub desired_count: u16,
    /// The address whose route the session had before.
    pub previous_ip: Option<[u8; 4]>,
}

/// A packet to be shown to an observer.
pub struct DpiNote {
    /// Whether the packet came from the client.
    pub inbound: bool,
    pub peer: PeerAddress,
    pub payload_type: u8,
    pub seq: u64,
    pub plain: Vec<u8>,
    pub wire_len: usize,
    pub device_id: String,
    pub generation_id: u64,
    pub session_salt: String,
}

/// What a [`DpiNote`] says.
#[verifier::ext_equal]
pub struct NoteView {
    pub inbound: bool,
    pub peer: PeerAddress,
    pub payload_type: u8,
    pub seq: u64,
    pub plain: Seq<u8>,
    pub wire_len: usize,
    pub device_id: Seq<char>,
    pub generation_id: u64,
    pub session_salt: Seq<char>,
}

impl View for DpiNote {
    type V = NoteView;

    open spec fn view(&self) -> NoteView {
        NoteView {
            inbound: self.inbound,
            peer: self.peer,
            payload_type: self.payload_type,
            seq: self.seq,
            plain: self.plain@,
            wire_len: self.wire_len,
            device_id: self.device_id@,
            generation_id: self.generation_id,
            session_salt: self.session_salt@,
        }
    }
}

/// Something that the engine's surroundings are to do.
pub enum Effect {
    /// Hand an event to the control side.
    Control(ControlEvent),
    /// Change what the control side knows of a session.
    Public(PublicUpdate),
    /// Have packets from this endpoint come to this engine.
    BindEndpoint { peer: PeerAddress, local_ip: Option<IpAddress> },
    /// Have packets for this tunnel address come to this engine.
    BindTunnel { ip: [u8; 4] },
    /// Hand a session to the engine of another shard.
    Migrate { target: usize, session: Box<HotSession>, payload: Vec<u8> },
    /// Wrap a payload for a session and send it.
    Send { slot: usize, payload: Vec<u8>, record_dpi: bool },
    /// Write a packet to the tunnel device, on behalf of a session.
    WriteTun { slot: usize, payload: Vec<u8> },
    /// Put a framed packet in order with its flow, then write what is ready.
    Reassemble { slot: usize, frame: Vec<u8> },
    /// Unregister a route, and let the fallback take it over if it was the active one.
    ReleaseRoute { ip: [u8; 4], registration_id: u64, fallback: Option<RouteFallback> },
    /// Unregister a route.
    DropRoute { ip: [u8; 4], registration_id: u64 },
    /// Register a route and report back.
    RegisterRoute(RouteRequest),
    /// Register a route.
    AdoptRoute { ip: [u8; 4], taker: RouteFallback },
    /// A session with a route has moved to another slot.
    UpdateRouteSlot { ip: [u8; 4], session_id: u64, registration_id: u64, slot: usize },
    /// Adjust the downlink queue to the paths that the tunnel address has.
    SyncDownlink { ip: [u8; 4] },
    /// Empty the downlink queue of the tunnel address.
    ClearDownlink { ip: [u8; 4] },
    /// Send a stream message over the carriers, and log the repair.
    StreamControl(StreamControlAction),
    /// Show a packet to an observer.
    RecordDpi(DpiNote),
    /// Log that a session could not be set up.
    ReportRejectedSetup { peer: PeerAddress, wire_len: usize },
    /// End the sessions of a device, now that the one that asked has its reply.
    EndDevice { device_id: String, requester_session_id: u64 },
    /// Publish the epochs that the engine knows.
    PublishEpochs,
    /// Report that memory was compacted.
    Compacted { request: u64 },
}

/// What an [`Effect`] says.
#[verifier::ext_equal]
pub enum EffectView {
    Control(EventView),
    Public(UpdateView),
    BindEndpoint { peer: PeerAddress, local_ip: Option<IpAddress> },
    BindTunnel { ip: [u8; 4] },
    Migrate { target: usize, session: SessionView, payload: Seq<u8> },
    Send { slot: usize, payload: Seq<u8>, record_dpi: bool },
    WriteTun { slot: usize, payload: Seq<u8> },
    Reassemble { slot: usize, frame: Seq<u8> },
    ReleaseRoute { ip: [u8; 4], registration_id: u64, fallback: Option<RouteFallback> },
    DropRoute { ip: [u8; 4], registration_id: u64 },
    RegisterRoute(RouteRequest),
    AdoptRoute { ip: [u8; 4], taker: RouteFallback },
    UpdateRouteSlot { ip: [u8; 4], session_id: u64, registration_id: u64, slot: usize },
    SyncDownlink { ip: [u8; 4] },
    ClearDownlink { ip: [u8; 4] },
    StreamControl(ActionView),
    RecordDpi(NoteView),
    ReportRejectedSetup { peer: PeerAddress, wire_len: usize },
    EndDevice { device_id: Seq<char>, requester_session_id: u64 },
    PublishEpochs,
    Compacted { request: u64 },
}

impl View for Effect {
    type V = EffectView;

    open spec fn view(&self) -> EffectView {
        match *self {
            Effect::Control(event) => EffectView::Control(event@),
            Effect::Public(update) => EffectView::Public(update@),
            Effect::BindEndpoint { peer, local_ip } => EffectView::BindEndpoint { peer, local_ip },
            Effect::BindTunnel { ip } => EffectView::BindTunnel { ip },
            Effect::Migrate { target, session, payload } => EffectView::Migrate {
                target,
                session: (*session)@,
                payload: payload@,
            },
            Effect::Send { slot, payload, record_dpi } => EffectView::Send {
                slot,
                payload: payload@,
                record_dpi,
            },
            Effect::WriteTun { slot, payload } => EffectView::WriteTun { slot, payload: payload@ },
            Effect::Reassemble { slot, frame } => EffectView::Reassemble { slot, frame: frame@ },
            Effect::ReleaseRoute { ip, registration_id, fallback } => EffectView::ReleaseRoute {
                ip,
                registration_id,
                fallback,
            },
            Effect::DropRoute { ip, registration_id } => EffectView::DropRoute {
                ip,
                registration_id,
            },
            Effect::RegisterRoute(request) => EffectView::RegisterRoute(request),
            Effect::AdoptRoute { ip, taker } => EffectView::AdoptRoute { ip, taker },
            Effect::UpdateRouteSlot { ip, session_id, registration_id, slot } =>
                EffectView::UpdateRouteSlot { ip, session_id, registration_id, slot },
            Effect::SyncDownlink { ip } => EffectView::SyncDownlink { ip },
            Effect::ClearDownlink { ip } => EffectView::ClearDownlink { ip },
            Effect::StreamControl(action) => EffectView::StreamControl(action@),
            Effect::RecordDpi(note) => EffectView::RecordDpi(note@),
            Effect::ReportRejectedSetup { peer, wire_len } => EffectView::ReportRejectedSetup {
                peer,
                wire_len,
            },
            Effect::EndDevice { device_id, requester_session_id } => EffectView::EndDevice {
                device_id: device_id@,
                requester_session_id,
            },
            Effect::PublishEpochs => EffectView::PublishEpochs,
            Effect::Compacted { request } => EffectView::Compacted { request },
        }
    }
}

/// What the effects say.
pub open spec fn effect_views(effects: Seq<Effect>) -> Seq<EffectView> {
    Seq::new(effects.len(), |i: int| effects[i]@)
}

/// A command to the protocol engine.
pub enum ProtocolCommand {
    AdoptSession { session: Box<HotSession>, initial_payload: Vec<u8> },
    SendPlain { session_id: u64, payload: Vec<u8> },
    BroadcastPlain { payload: Vec<u8> },
    ActivateTunnel {
        session_id: u64,
        ip: [u8; 4],
        registration_id: u64,
        worker_id: u16,
        desired_count: u16,
    },
    InjectTun { session_id: u64, payload: Vec<u8> },
    UpdateEpoch { session_id: u64, device_id: String, generation_id: u64, session_salt: String },
    SetDataFrames { session_id: u64, enabled: bool },
    SetAuthoritativeEpoch { device_id: String, generation_id: u64, session_salt: String },
    DisconnectDevice { device_id: String, requester_session_id: u64 },
    ReplaceCredentials(CredentialSet),
    DropSession { session_id: u64 },
    DropPassword { password: String },
    CompactMemory { request: u64 },
}

/// What a [`ProtocolCommand`] says.
#[verifier::ext_equal]
pub enum CommandView {
    AdoptSession { session: SessionView, initial_payload: Seq<u8> },
    SendPlain { session_id: u64, payload: Seq<u8> },
    BroadcastPlain { payload: Seq<u8> },
    ActivateTunnel {
        session_id: u64,
        ip: [u8; 4],
        registration_id: u64,
        worker_id: u16,
        desired_count: u16,
    },
    InjectTun { session_id: u64, payload: Seq<u8> },
    UpdateEpoch {
        session_id: u64,
        device_id: Seq<char>,
        generation_id: u64,
        session_salt: Seq<char>,
    },
    SetDataFrames { session_id: u64, enabled: bool },
    SetAuthoritativeEpoch { device_id: Seq<char>, generation_id: u64, session_salt: Seq<char> },
    DisconnectDevice { device_id: Seq<char>, requester_session_id: u64 },
    ReplaceCredentials(Seq<CredentialView>),
    DropSession { session_id: u64 },
    DropPassword { password: Seq<char> },
    CompactMemory { request: u64 },
}

impl View for ProtocolCommand {
    type V = CommandView;

    open spec fn view(&self) -> CommandView {
        match *self {
            ProtocolCommand::AdoptSession { session, initial_payload } =>
                CommandView::AdoptSession {
                    session: (*session)@,
                    initial_payload: initial_payload@,
                },
            ProtocolCommand::SendPlain { session_id, payload } => CommandView::SendPlain {
                session_id,
                payload: payload@,
            },
            ProtocolCommand::BroadcastPlain { payload } => CommandView::BroadcastPlain {
                payload: payload@,
            },
            ProtocolCommand::ActivateTunnel {
                session_id,
                ip,
                registration_id,
                worker_id,
                desired_count,
            } => CommandView::ActivateTunnel {
                session_id,
                ip,
                registration_id,
                worker_id,
                desired_count,
            },
            ProtocolCommand::InjectTun { session_id, payload } => CommandView::InjectTun {
                session_id,
                payload: payload@,
            },
            ProtocolCommand::UpdateEpoch { session_id, device_id, generation_id, session_salt } =>
                CommandView::UpdateEpoch {
                    session_id,
                    device_id: device_id@,
                    generation_id,
                    session_salt: session_salt@,
                },
            ProtocolCommand::SetDataFrames { session_id, enabled } => CommandView::SetDataFrames {
                session_id,
                enabled,
            },
            ProtocolCommand::SetAuthoritativeEpoch { device_id, generation_id, session_salt } =>
                CommandView::SetAuthoritativeEpoch {
                    device_id: device_id@,
                    generation_id,
                    session_salt: session_salt@,
                },
            ProtocolCommand::DisconnectDevice { device_id, requester_session_id } =>
                CommandView::DisconnectDevice { device_id: device_id@, requester_session_id },
            ProtocolCommand::ReplaceCredentials(set) => CommandView::ReplaceCredentials(set@),
            ProtocolCommand::DropSession { session_id } => CommandView::DropSession { session_id },
            ProtocolCommand::DropPassword { password } => CommandView::DropPassword {
                password: password@,
            },
            ProtocolCommand::CompactMemory { request } => CommandView::CompactMemory { request },
        }
    }
}

impl ProtocolCommand {
    /// A session that is handed over is in order.
    pub open spec fn wf(&self) -> bool {
        match *self {
            ProtocolCommand::AdoptSession { session, .. } => session.wf(),
            _ => true,
        }
    }

    /// The command is for one shard only.
    pub open spec fn for_one_shard(&self) -> bool {
        self is AdoptSession || self is CompactMemory
    }

    /// The same command once more.
    fn copy(&self) -> (command: ProtocolCommand)
        requires
            !self.for_one_shard(),
        ensures
            command@ == self@,
            command.wf(),
    {
        match self {
            ProtocolCommand::SendPlain { session_id, payload } => ProtocolCommand::SendPlain {
                session_id: *session_id,
                payload: copy_of(payload.as_slice()),
            },
            ProtocolCommand::BroadcastPlain { payload } => ProtocolCommand::BroadcastPlain {
                payload: copy_of(payload.as_slice()),
            },
            ProtocolCommand::ActivateTunnel {
                session_id,
                ip,
                registration_id,
                worker_id,
                desired_count,
            } => ProtocolCommand::ActivateTunnel {
                session_id: *session_id,
                ip: *ip,
                registration_id: *registration_id,
                worker_id: *worker_id,
                desired_count: *desired_count,
            },
            ProtocolCommand::InjectTun { session_id, payload } => ProtocolCommand::InjectTun {
                session_id: *session_id,
                payload: copy_of(payload.as_slice()),
            },
            ProtocolCommand::UpdateEpoch { session_id, device_id, generation_id, session_salt } =>
                ProtocolCommand::UpdateEpoch {
                    session_id: *session_id,
                    device_id: device_id.clone(),
                    generation_id: *generation_id,
                    session_salt: session_salt.clone(),
                },
            ProtocolCommand::SetDataFrames { session_id, enabled } =>
                ProtocolCommand::SetDataFrames { session_id: *session_id, enabled: *enabled },
            ProtocolCommand::SetAuthoritativeEpoch { device_id, generation_id, session_salt } =>
                ProtocolCommand::SetAuthoritativeEpoch {
                    device_id: device_id.clone(),
                    generation_id: *generation_id,
                    session_salt: session_salt.clone(),
                },
            ProtocolCommand::DisconnectDevice { device_id, requester_session_id } =>
                ProtocolCommand::DisconnectDevice {
                    device_id: device_id.clone(),
                    requester_session_id: *requester_session_id,
                },
            ProtocolCommand::ReplaceCredentials(set) => ProtocolCommand::ReplaceCredentials(
                set.copy(),
            ),
            ProtocolCommand::DropPassword { password } => ProtocolCommand::DropPassword {
                password: password.clone(),
            },
            ProtocolCommand::DropSession { session_id } => ProtocolCommand::DropSession {
                session_id: *session_id,
            },
            ProtocolCommand::CompactMemory { request } => ProtocolCommand::CompactMemory {
                request: *request,
            },
            ProtocolCommand::AdoptSession { .. } => {
                assert(false);
                ProtocolCommand::CompactMemory { request: 0 }
            },
        }
    }
}

/// The commands that go to the shards in place of `command`: one for each of them, unless
/// the command is for one shard only.
pub fn fanout_command(command: ProtocolCommand, shard_count: usize) -> (commands: Vec<
    ProtocolCommand,
>)
    requires
        command.wf(),
    ensures
        commands@.len() == if command.for_one_shard() || shard_count == 0 {
            1
        } else {
            shard_count as int
        },
        forall|i: int|
            0 <= i < commands@.len() ==> (#[trigger] commands@[i])@ == command@ && commands@[i].wf(),
{
    let single = match &command {
        ProtocolCommand::AdoptSession { .. } => true,
        ProtocolCommand::CompactMemory { .. } => true,
        _ => false,
    };
    let mut commands: Vec<ProtocolCommand> = Vec::new();
    if !single {
        let mut i: usize = 1;
        while i < shard_count
            invariant
                1 <= i,
                i <= shard_count || shard_count == 0,
                !command.for_one_shard(),
                commands@.len() == i - 1,
                shard_count == 0 ==> i == 1,
                forall|j: int|
                    0 <= j < commands@.len() ==> (#[trigger] commands@[j])@ == command@
                        && commands@[j].wf(),
            decreases shard_count - i,
        {
            commands.push(command.copy());
            i += 1;
        }
    }
    commands.push(command);
    commands
}

} // verus!
