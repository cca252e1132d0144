//! Packets on their way to the workers and back.
use crate::class::PacketClass;
use crate::queue;
use crate::queue::{Lanes, LanesView};
use crate::scheduler;
use crate::scheduler::{
    register, unregister, FastPathScheduler, SchedulerView, WorkerChannels, WorkerView,
};
use std::collections::HashMap;
use std::sync::Arc;
use vstd::prelude::*;

verus! {

/// The workers, their queues, and the queues of what they bring back.
pub struct Dispatcher {
    workers: Arc<Vec<WorkerChannels>>,
    lanes: HashMap<u64, Lanes>,
    returns: Lanes,
}

/// What a [`Dispatcher`] says.
#[verifier::ext_equal]
pub struct DispatcherView {
    pub workers: Seq<WorkerView>,
    /// The queues of the workers, by the names of their channels.
    pub lanes: Map<u64, LanesView>,
    /// The queues of what comes back.
    pub returns: LanesView,
}

/// What the queues of the workers say.
pub open spec fn lane_views(lanes: Map<u64, Lanes>) -> Map<u64, LanesView> {
    lanes.map_values(|queues: Lanes| queues@)
}

impl View for Dispatcher {
    type V = DispatcherView;

    closed spec fn view(&self) -> DispatcherView {
        DispatcherView {
            workers: scheduler::worker_views((*self.workers)@),
            lanes: lane_views(self.lanes@),
            returns: self.returns@,
        }
    }
}

impl DispatcherView {
    /// The dispatcher once a packet was put into the queues of a channel, if there is one.
    pub open spec fn deposited(self, channel: u64, class: PacketClass, packet: Seq<u8>)
        -> DispatcherView {
        if self.lanes.contains_key(channel) {
            let lanes = self.lanes[channel];
            DispatcherView {
                lanes: self.lanes.insert(
                    channel,
                    lanes.with_lane(class, lanes.lane(class).forced(packet)),
                ),
                ..self
            }
        } else {
            self
        }
    }

    /// The worker whose turn it is.
    pub open spec fn chosen(self, scheduler: SchedulerView, class: PacketClass) -> Option<
        WorkerView,
    > {
        let ready = scheduler.refreshed(self.workers, class);
        match ready.ticket(ready.worker_count, class) {
            Some(ticket) => if ticket.start_slot < ready.workers.len() {
                Some(ready.workers[ticket.start_slot as int])
            } else {
                None
            },
            None => None,
        }
    }

    /// The worker whose turn it is has this channel.
    pub open spec fn chooses(self, scheduler: SchedulerView, class: PacketClass, channel: u64)
        -> bool {
        self.chosen(scheduler, class) matches Some(worker) && worker.channel == channel
    }

    /// The dispatcher once a packet was handed to the worker whose turn it is.
    pub open spec fn dispatched(
        self,
        scheduler: SchedulerView,
        class: PacketClass,
        packet: Seq<u8>,
    ) -> DispatcherView {
        match self.chosen(scheduler, class) {
            Some(worker) => self.deposited(worker.channel, class, packet),
            None => self,
        }
    }
}

impl Dispatcher {
    /// No two workers have the same number, and the queues of what comes back are valid.
    pub closed spec fn wf(&self) -> bool {
        scheduler::distinct_ids(self@.workers) && self@.returns.valid()
    }

    /// In a dispatcher that is in order no two workers have the same number, and the queues of
    /// what comes back are valid.
    pub proof fn workers_are_told_apart(&self)
        requires
            self.wf(),
        ensures
            scheduler::distinct_ids(self@.workers),
            self@.returns.valid(),
    {
    }

    /// A dispatcher without workers, with these queues for what comes back.
    pub fn new(back: Lanes) -> (dispatcher: Dispatcher)
        requires
            back@.valid(),
        ensures
            dispatcher.wf(),
            dispatcher@ == (DispatcherView {
                workers: Seq::<WorkerView>::empty(),
                lanes: Map::<u64, LanesView>::empty(),
                returns: back@,
            }),
    {
        broadcast use vstd::std_specs::hash::group_hash_axioms;

        let dispatcher = Dispatcher {
            workers: Arc::new(Vec::new()),
            lanes: HashMap::new(),
            returns: back,
        };
        assert(dispatcher@.workers =~= Seq::<WorkerView>::empty());
        assert(dispatcher@.lanes =~= Map::<u64, LanesView>::empty());
        dispatcher
    }

    /// Gives a channel its queues.
    pub fn open_channel(&mut self, channel: u64, lanes: Lanes)
        requires
            old(self).wf(),
        ensures
            final(self).wf(),
            final(self)@ == (DispatcherView {
                lanes: old(self)@.lanes.insert(channel, lanes@),
                ..old(self)@
            }),
    {
        broadcast use vstd::std_specs::hash::group_hash_axioms;

        let ghost before = self.lanes@;
        self.lanes.insert(channel, lanes);
        assert(lane_views(self.lanes@) =~= lane_views(before).insert(channel, lanes@));
    }

    /// Takes the queues of a channel away.
    pub fn close_channel(&mut self, channel: u64) -> (lanes: Option<Lanes>)
        requires
            old(self).wf(),
        ensures
            final(self).wf(),
            final(self)@ == (DispatcherView {
                lanes: old(self)@.lanes.remove(channel),
                ..old(self)@
            }),
            lanes is Some <==> old(self)@.lanes.contains_key(channel),
            lanes matches Some(found) ==> found@ == old(self)@.lanes[channel],
    {
        broadcast use vstd::std_specs::hash::group_hash_axioms;

        let ghost before = self.lanes@;
        let lanes = self.lanes.remove(&channel);
        assert(lane_views(self.lanes@) =~= lane_views(before).remove(channel));
        lanes
    }

    /// Registers a worker, in place of the one with the same number.
    pub fn register(&mut self, channels: WorkerChannels)
        requires
            old(self).wf(),
        ensures
            final(self).wf(),
            scheduler::registered(old(self)@.workers, channels@, final(self)@.workers),
            final(self)@ == (DispatcherView { workers: final(self)@.workers, ..old(self)@ }),
    {
        let updated = register(&self.workers, channels);
        self.workers = Arc::new(updated);
    }

    /// Takes one run of a worker out. Another run of it stays.
    pub fn unregister(&mut self, id: usize, incarnation_id: u64)
        requires
            old(self).wf(),
        ensures
            final(self).wf(),
            scheduler::unregistered(old(self)@.workers, id, incarnation_id, final(self)@.workers),
            final(self)@ == (DispatcherView { workers: final(self)@.workers, ..old(self)@ }),
    {
        let updated = unregister(&self.workers, id, incarnation_id);
        self.workers = Arc::new(updated);
    }

    /// How many workers there are.
    pub fn active_count(&self) -> (count: usize)
        ensures
            count == self@.workers.len(),
    {
        self.workers.len()
    }

    /// The workers, in the order in which they take turns.
    pub fn workers(&self) -> (workers: Arc<Vec<WorkerChannels>>)
        ensures
            scheduler::worker_views((*workers)@) == self@.workers,
    {
        self.workers.clone()
    }

    /// The worker with a number.
    pub fn worker(&self, id: usize) -> (worker: Option<WorkerChannels>)
        requires
            self.wf(),
        ensures
            match worker {
                Some(found) => found.id == id && self@.workers.contains(found@),
                None => forall|i: int|
                    0 <= i < self@.workers.len() ==> (#[trigger] self@.workers[i]).id != id,
            },
    {
        let mut i: usize = 0;
        while i < self.workers.len()
            invariant
                i <= self.workers@.len(),
                self@.workers == scheduler::worker_views((*self.workers)@),
                forall|j: int| 0 <= j < i ==> (#[trigger] self@.workers[j]).id != id,
            decreases self.workers@.len() - i,
        {
            if self.workers[i].id == id {
                let found = self.workers[i].copy();
                assert(found@ == self@.workers[i as int]);
                return Some(found);
            }
            i = i + 1;
        }
        None
    }

    /// Puts a packet that a worker brought back into the queue of its class. Where the queue
    /// is full, its oldest packet is lost.
    pub fn return_packet(&mut self, class: PacketClass, packet: Vec<u8>)
        requires
            old(self).wf(),
        ensures
            final(self).wf(),
            final(self)@ == (DispatcherView {
                returns: old(self)@.returns.with_lane(
                    class,
                    old(self)@.returns.lane(class).forced(packet@),
                ),
                ..old(self)@
            }),
    {
        proof {
            queue::queues_stay_valid(self@.returns.lane(class), packet@);
        }
        self.returns.return_packet(class, packet);
    }

    /// Takes packets that are brought back again. What was brought back before is lost.
    pub fn resume_returns(&mut self)
        requires
            old(self).wf(),
        ensures
            final(self).wf(),
            final(self)@ == (DispatcherView { returns: old(self)@.returns.resumed(), ..old(self)@ }),
    {
        self.returns.resume();
    }

    /// Whether a packet that was brought back and is more urgent than `class` is queued.
    pub fn more_urgent_return_waits(&self, class: PacketClass) -> (waiting: bool)
        ensures
            waiting == self@.returns.more_urgent_waits(class),
    {
        self.returns.higher_priority_waiting(class)
    }

    /// Takes the next packet that was brought back: the most urgent, and of those the oldest.
    pub fn next_return_packet(&mut self) -> (packet: Option<Vec<u8>>)
        requires
            old(self).wf(),
        ensures
            final(self).wf(),
            final(self)@ == (DispatcherView {
                returns: old(self)@.returns.after_delivery(),
                ..old(self)@
            }),
            match packet {
                Some(found) => old(self)@.returns.delivered() == Some(found@),
                None => old(self)@.returns.delivered() is None,
            },
    {
        proof {
            queue::queues_stay_valid(self@.returns.latency, Seq::empty());
            queue::queues_stay_valid(self@.returns.priority, Seq::empty());
            queue::queues_stay_valid(self@.returns.bulk, Seq::empty());
        }
        self.returns.next_return_packet()
    }

    /// Takes the next packet for a channel: the most urgent, and of those the oldest.
    pub fn next_for(&mut self, channel: u64) -> (packet: Option<Vec<u8>>)
        requires
            old(self).wf(),
        ensures
            final(self).wf(),
            match packet {
                Some(found) => old(self)@.lanes.contains_key(channel)
                    && old(self)@.lanes[channel].delivered() == Some(found@),
                None => old(self)@.lanes.contains_key(channel) ==> old(
                    self,
                )@.lanes[channel].delivered() is None,
            },
            final(self)@ == if old(self)@.lanes.contains_key(channel) {
                DispatcherView {
                    lanes: old(self)@.lanes.insert(
                        channel,
                        old(self)@.lanes[channel].after_delivery(),
                    ),
                    ..old(self)@
                }
            } else {
                old(self)@
            },
    {
        broadcast use vstd::std_specs::hash::group_hash_axioms;

        let ghost before = self.lanes@;
        match self.lanes.remove(&channel) {
            Some(mut lanes) => {
                let packet = lanes.next_return_packet();
                self.lanes.insert(channel, lanes);
                assert(lane_views(self.lanes@) =~= lane_views(before).insert(channel, lanes@));
                packet
            },
            None => None,
        }
    }

    /// Hands a packet to the worker whose turn it is. Where the worker's queue of the class is
    /// full, its oldest packet is lost; no other worker gets the packet.
    pub fn dispatch(&mut self, scheduler: &mut FastPathScheduler, class: PacketClass, packet: Vec<u8>)
        requires
            old(self).wf(),
            old(scheduler).wf(),
        ensures
            final(self).wf(),
            final(scheduler).wf(),
            final(self)@ == old(self)@.dispatched(old(scheduler)@, class, packet@),
            ({
                let ready = old(scheduler)@.refreshed(old(self)@.workers, class);
                final(scheduler)@ == ready.advanced(ready.worker_count, class)
            }),
    {
        broadcast use vstd::std_specs::hash::group_hash_axioms;

        let ghost ready = scheduler@.refreshed(self@.workers, class);
        let ghost before = self@;
        let ghost lanes_before = self.lanes@;
        let ticket = match scheduler.begin(&self.workers, class) {
            Some(ticket) => ticket,
            None => return ,
        };
        assert(scheduler@.workers == ready.workers);
        let channel: u64 = match scheduler.selected(ticket) {
            Some(worker) => worker.channel,
            None => return ,
        };
        if let Some(mut lanes) = self.lanes.remove(&channel) {
            let _ = lanes.deposit(class, packet);
            self.lanes.insert(channel, lanes);
            assert(lane_views(self.lanes@) =~= lane_views(lanes_before).insert(channel, lanes@));
        }
        assert(self@ =~= before.deposited(channel, class, packet@));
    }
}

/// A packet goes into one queue: that of its class at the worker whose turn it is. However
/// full that queue is, the queues of the other workers, the other queues of that worker and
/// the queues of what comes back stay as they are.
pub proof fn packets_go_to_the_chosen_worker(
    dispatcher: DispatcherView,
    scheduler: SchedulerView,
    class: PacketClass,
    packet: Seq<u8>,
    channel: u64,
    other: PacketClass,
)
    requires
        dispatcher.lanes.contains_key(channel),
    ensures
        ({
            let after = dispatcher.dispatched(scheduler, class, packet);
            &&& after.workers == dispatcher.workers
            &&& after.returns == dispatcher.returns
            &&& after.lanes.dom() == dispatcher.lanes.dom()
            &&& dispatcher.chooses(scheduler, class, channel) ==> {
                &&& after.lanes[channel].lane(class) == dispatcher.lanes[channel].lane(
                    class,
                ).forced(packet)
                &&& other != class ==> after.lanes[channel].lane(other)
                    == dispatcher.lanes[channel].lane(other)
            }
            &&& !dispatcher.chooses(scheduler, class, channel) ==> after.lanes[channel] == dispatcher.lanes[channel]
        }),
{
    let after = dispatcher.dispatched(scheduler, class, packet);
    assert(after.lanes.dom() =~= dispatcher.lanes.dom());
}

/// However many packets are handed out, no queue holds more than it may.
pub proof fn queues_stay_bounded(
    dispatcher: DispatcherView,
    scheduler: SchedulerView,
    class: PacketClass,
    packet: Seq<u8>,
    channel: u64,
    lane: PacketClass,
)
    requires
        dispatcher.lanes.contains_key(channel),
        dispatcher.lanes[channel].lane(lane).valid(),
    ensures
        ({
            let after = dispatcher.dispatched(scheduler, class, packet).lanes[channel].lane(lane);
            after.valid() && after.items.len() <= after.limit && after.limit
                == dispatcher.lanes[channel].lane(lane).limit
        }),
{
    packets_go_to_the_chosen_worker(dispatcher, scheduler, class, packet, channel, lane);
    queue::queues_stay_valid(dispatcher.lanes[channel].lane(lane), packet);
}

} // verus!
