//! The control side's desk: what comes in from the engines, and what follows from it.
use crate::effect::{
    CommandView, ControlEvent, EventView, IoCounters, IoFaults, ProtocolCommand,
};
use crate::endpoint::PeerAddress;
use crate::registry;
use crate::registry::{Directive, DirectiveView, PublicView, Registry, RegistryView};
use crate::stream::{RepairLogView, StreamRepairLog};
use vstd::prelude::*;

verus! {

/// Something to be written to the log.
pub enum LogLine {
    SessionCreated { is_srtp: bool, address: PeerAddress },
    SessionClosed { address: PeerAddress, reason: &'static str },
    StreamRepair { log: StreamRepairLog, selected_carriers: usize, sent_carriers: usize },
    IoFaults { faults: IoFaults, counters: IoCounters },
}

/// What a [`LogLine`] says.
#[verifier::ext_equal]
pub enum LogView {
    SessionCreated { is_srtp: bool, address: PeerAddress },
    SessionClosed { address: PeerAddress, reason: Seq<char> },
    StreamRepair { log: RepairLogView, selected_carriers: usize, sent_carriers: usize },
    IoFaults { faults: IoFaults, counters: IoCounters },
}

impl View for LogLine {
    type V = LogView;

    open spec fn view(&self) -> LogView {
        match *self {
            LogLine::SessionCreated { is_srtp, address } => LogView::SessionCreated {
                is_srtp,
                address,
            },
            LogLine::SessionClosed { address, reason } => LogView::SessionClosed {
                address,
                reason: reason@,
            },
            LogLine::StreamRepair { log, selected_carriers, sent_carriers } =>
                LogView::StreamRepair { log: log@, selected_carriers, sent_carriers },
            LogLine::IoFaults { faults, counters } => LogView::IoFaults { faults, counters },
        }
    }
}

/// A packet that has to be worked on by itself.
pub enum Job {
    /// A control packet.
    Payload { address: PeerAddress, session_id: u64, payload: Vec<u8> },
    /// A packet that came before its session had a tunnel.
    Ingress { address: PeerAddress, session_id: u64, payload: Vec<u8> },
}

/// What a [`Job`] says.
#[verifier::ext_equal]
pub enum JobView {
    Payload { address: PeerAddress, session_id: u64, payload: Seq<u8> },
    Ingress { address: PeerAddress, session_id: u64, payload: Seq<u8> },
}

impl View for Job {
    type V = JobView;

    open spec fn view(&self) -> JobView {
        match *self {
            Job::Payload { address, session_id, payload } => JobView::Payload {
                address,
                session_id,
                payload: payload@,
            },
            Job::Ingress { address, session_id, payload } => JobView::Ingress {
                address,
                session_id,
                payload: payload@,
            },
        }
    }
}

/// What follows from an event.
pub struct Consequence {
    pub directives: Vec<Directive>,
    pub line: Option<LogLine>,
    pub job: Option<Job>,
}

/// What a log line says, if there is one.
pub open spec fn line_view(line: Option<LogLine>) -> Option<LogView> {
    match line {
        Some(written) => Some(written@),
        None => None,
    }
}

/// What a job says, if there is one.
pub open spec fn job_view(job: Option<Job>) -> Option<JobView> {
    match job {
        Some(found) => Some(found@),
        None => None,
    }
}

/// What the control side keeps between events.
pub struct Desk {
    pub registry: Registry,
    /// What the sockets and the tunnel device had counted last.
    pub last_io: IoCounters,
}

/// What a [`Desk`] says.
#[verifier::ext_equal]
pub struct DeskView {
    pub registry: RegistryView,
    pub last_io: IoCounters,
}

impl View for Desk {
    type V = DeskView;

    open spec fn view(&self) -> DeskView {
        DeskView { registry: self.registry@, last_io: self.last_io }
    }
}

/// The desk once a session was reported, given whether there was room for it.
pub open spec fn after_creation(
    desk: DeskView,
    session: PublicView,
    wall_now: u64,
    accepted: bool,
) -> DeskView {
    let vacated = desk.registry.pruned(wall_now).without_one(session.id);
    DeskView {
        registry: if accepted {
            RegistryView {
                total_connections: vacated.total_connections.wrapping_add(1),
                ..vacated
            }.with(session)
        } else {
            vacated
        },
        ..desk
    }
}

/// What follows from an event: `after` is the desk then, and `directives`, `line` and `job`
/// are what is to be done, logged and worked on.
pub open spec fn follows(
    desk: DeskView,
    event: EventView,
    wall_now: u64,
    after: DeskView,
    directives: Seq<DirectiveView>,
    line: Option<LogView>,
    job: Option<JobView>,
) -> bool {
    match event {
        EventView::SessionCreated(seed) => {
            let session = PublicView::from_seed(seed);
            let pruned = desk.registry.pruned(wall_now);
            let accepted = pruned.without_one(seed.id).sessions.dom().len()
                < registry::PUBLIC_SESSION_LIMIT;
            &&& after == after_creation(desk, session, wall_now, accepted)
            &&& if pruned.sessions.contains_key(seed.id) {
                &&& directives.len() > 0
                &&& directives.last() == DirectiveView::Cancel { session_id: seed.id }
                &&& desk.registry.prune_directives(wall_now, directives.drop_last())
            } else {
                desk.registry.prune_directives(wall_now, directives)
            }
            &&& line == if accepted {
                Some(
                    LogView::SessionCreated { is_srtp: seed.is_srtp, address: seed.address },
                )
            } else {
                None
            }
            &&& job is None
        },
        EventView::SessionClosed { address, session_id, reason } => {
            let known = desk.registry.sessions.contains_key(session_id);
            &&& after == DeskView { registry: desk.registry.without_one(session_id), ..desk }
            &&& directives == if known {
                seq![DirectiveView::Cancel { session_id }]
            } else {
                Seq::empty()
            }
            &&& line == if known {
                Some(LogView::SessionClosed { address, reason })
            } else {
                None
            }
            &&& job is None
        },
        EventView::Payload { address, session_id, payload } => {
            &&& after == desk
            &&& directives == Seq::<DirectiveView>::empty()
            &&& line is None
            &&& job == Some(JobView::Payload { address, session_id, payload })
        },
        EventView::IngressBeforeTunnel { address, session_id, payload } => {
            &&& after == desk
            &&& directives == Seq::<DirectiveView>::empty()
            &&& line is None
            &&& job == Some(JobView::Ingress { address, session_id, payload })
        },
        EventView::StreamRepair { log, selected_carriers, sent_carriers } => {
            &&& after == desk
            &&& directives == Seq::<DirectiveView>::empty()
            &&& line == Some(LogView::StreamRepair { log, selected_carriers, sent_carriers })
            &&& job is None
        },
        EventView::IoCounters(counters) => {
            let faults = counters.faults_since(desk.last_io);
            &&& after == DeskView { last_io: counters, ..desk }
            &&& directives == Seq::<DirectiveView>::empty()
            &&& line == if faults.errors != 0 || faults.udp_drops != 0 || faults.tun_drops != 0 {
                Some(LogView::IoFaults { faults, counters })
            } else {
                None
            }
            &&& job is None
        },
    }
}

impl Desk {
    /// A desk that knows of no session.
    pub fn new() -> (desk: Desk)
        ensures
            desk.registry.wf(),
            desk@ == (DeskView {
                registry: RegistryView {
                    sessions: Map::<u64, PublicView>::empty(),
                    total_connections: 0,
                    up_total: 0,
                    down_total: 0,
                },
                last_io: IoCounters::zero(),
            }),
    {
        Desk { registry: Registry::new(), last_io: IoCounters::default() }
    }

    /// Takes note of an event, and says what follows from it.
    pub fn on_event(&mut self, event: ControlEvent, wall_now: u64) -> (consequence: Consequence)
        requires
            old(self).registry.wf(),
        ensures
            final(self).registry.wf(),
            follows(
                old(self)@,
                event@,
                wall_now,
                final(self)@,
                registry::directive_views(consequence.directives@),
                line_view(consequence.line),
                job_view(consequence.job),
            ),
    {
        let ghost before = self@;
        let nothing: Vec<Directive> = Vec::new();
        assert(registry::directive_views(nothing@) =~= Seq::<DirectiveView>::empty());
        match event {
            ControlEvent::SessionCreated(seed) => {
                let ghost told = seed@;
                let is_srtp = seed.is_srtp;
                let address = seed.address;
                let (directives, accepted) = self.registry.session_created(seed, wall_now);
                assert(self@ =~= after_creation(
                    before,
                    PublicView::from_seed(told),
                    wall_now,
                    accepted,
                ));
                let line = if accepted {
                    Some(LogLine::SessionCreated { is_srtp, address })
                } else {
                    None
                };
                assert(directives@.len() > 0 ==> registry::directive_views(directives@).last()
                    == directives@.last()@);
                Consequence { directives, line, job: None }
            },
            ControlEvent::SessionClosed { address, session_id, reason } => {
                let known = self.registry.session_closed(session_id);
                let mut directives = nothing;
                let mut line: Option<LogLine> = None;
                if known {
                    directives.push(Directive::Cancel { session_id });
                    line = Some(LogLine::SessionClosed { address, reason });
                    assert(registry::directive_views(directives@) =~= seq![
                        DirectiveView::Cancel { session_id },
                    ]);
                }
                Consequence { directives, line, job: None }
            },
            ControlEvent::Payload { address, session_id, payload } => Consequence {
                directives: nothing,
                line: None,
                job: Some(Job::Payload { address, session_id, payload }),
            },
            ControlEvent::IngressBeforeTunnel { address, session_id, payload } => Consequence {
                directives: nothing,
                line: None,
                job: Some(Job::Ingress { address, session_id, payload }),
            },
            ControlEvent::StreamRepair { log, selected_carriers, sent_carriers } => Consequence {
                directives: nothing,
                line: Some(LogLine::StreamRepair { log, selected_carriers, sent_carriers }),
                job: None,
            },
            ControlEvent::IoCounters(counters) => {
                let line = match counters.new_faults(&self.last_io) {
                    Some(faults) => Some(LogLine::IoFaults { faults, counters }),
                    None => None,
                };
                self.last_io = counters;
                Consequence { directives: nothing, line, job: None }
            },
        }
    }
}

/// What is to be done with a packet that came before its session had a tunnel, once it is
/// known whether the session has one now: it is written to the tunnel device, or else the
/// session is dropped.
pub fn after_tunnel_setup(session_id: u64, ready: bool, payload: Vec<u8>) -> (directive: Directive)
    ensures
        directive@ == if ready {
            DirectiveView::Order(CommandView::InjectTun { session_id, payload: payload@ })
        } else {
            DirectiveView::Drop { session_id }
        },
{
    if ready {
        Directive::Order(ProtocolCommand::InjectTun { session_id, payload })
    } else {
        Directive::Drop { session_id }
    }
}

} // verus!
