//! Bounded queues of packets, which can be suspended and resumed.
use crate::class::PacketClass;
use crossbeam_queue::ArrayQueue;
use vstd::prelude::*;

verus! {

/// How many packets the three lanes back to the client hold.
pub const RETURN_LATENCY_CAPACITY: usize = 128;

pub const RETURN_PRIORITY_CAPACITY: usize = 384;

pub const RETURN_BULK_CAPACITY: usize = 512;

/// How large a queue may be: a place in it takes up no more than 64 bytes, and memory holds no
/// more than half of what can be addressed.
pub const QUEUE_CAPACITY_MAX: usize = usize::MAX / 128;

/// How many epochs there are before they are counted from zero again.
pub const EPOCH_MODULUS: u64 = 0x8000_0000_0000_0000;

/// A packet, and the epoch in which it was put into the queue.
#[derive(Debug)]
pub struct QueuedPacket {
    pub packet: Vec<u8>,
    pub epoch: u64,
}

/// What a [`QueuedPacket`] says.
#[verifier::ext_equal]
pub struct QueuedView {
    pub packet: Seq<u8>,
    pub epoch: u64,
}

impl View for QueuedPacket {
    type V = QueuedView;

    open spec fn view(&self) -> QueuedView {
        QueuedView { packet: self.packet@, epoch: self.epoch }
    }
}

/// The bounded queue of the `crossbeam-queue` crate. Here it is changed through exclusive
/// references only.
#[verifier::external_type_specification]
#[verifier::external_body]
#[verifier::reject_recursive_types(T)]
pub struct ExArrayQueue<T>(ArrayQueue<T>);

/// What a queue holds, the oldest first.
pub uninterp spec fn array_items(queue: ArrayQueue<QueuedPacket>) -> Seq<QueuedPacket>;

/// How much a queue can hold.
pub uninterp spec fn array_limit(queue: ArrayQueue<QueuedPacket>) -> usize;

/// `ArrayQueue::new`: an empty queue. It panics where the queue could hold nothing, and where
/// its places could not be addressed.
#[verifier::external_body]
fn array_new(capacity: usize) -> (queue: ArrayQueue<QueuedPacket>)
    requires
        0 < capacity <= QUEUE_CAPACITY_MAX,
    ensures
        array_items(queue) == Seq::<QueuedPacket>::empty(),
        array_limit(queue) == capacity,
{
    ArrayQueue::new(capacity)
}

/// `ArrayQueue::push`: puts a packet in, unless the queue is full.
#[verifier::external_body]
fn array_push(queue: &mut ArrayQueue<QueuedPacket>, item: QueuedPacket) -> (pushed: Result<
    (),
    QueuedPacket,
>)
    ensures
        array_limit(*final(queue)) == array_limit(*old(queue)),
        match pushed {
            Ok(_) => array_items(*old(queue)).len() < array_limit(*old(queue)) && array_items(
                *final(queue),
            ) == array_items(*old(queue)).push(item),
            Err(refused) => array_items(*old(queue)).len() >= array_limit(*old(queue)) && refused
                == item && array_items(*final(queue)) == array_items(*old(queue)),
        },
{
    queue.push(item)
}

/// `ArrayQueue::force_push`: puts a packet in. Where the queue is full, the oldest packet is
/// taken out first.
#[verifier::external_body]
fn array_force_push(queue: &mut ArrayQueue<QueuedPacket>, item: QueuedPacket) -> (oldest: Option<
    QueuedPacket,
>)
    ensures
        array_limit(*final(queue)) == array_limit(*old(queue)),
        match oldest {
            None => array_items(*old(queue)).len() < array_limit(*old(queue)) && array_items(
                *final(queue),
            ) == array_items(*old(queue)).push(item),
            Some(gone) => array_items(*old(queue)).len() >= array_limit(*old(queue))
                && array_items(*old(queue)).len() > 0 && gone == array_items(*old(queue))[0] && array_items(*final(queue)) == array_items(
                *old(queue),
            ).skip(1).push(item),
        },
{
    queue.force_push(item)
}

/// `ArrayQueue::pop`: takes the oldest packet out.
#[verifier::external_body]
fn array_pop(queue: &mut ArrayQueue<QueuedPacket>) -> (oldest: Option<QueuedPacket>)
    ensures
        array_limit(*final(queue)) == array_limit(*old(queue)),
        match oldest {
            None => array_items(*old(queue)).len() == 0 && array_items(*final(queue))
                == array_items(*old(queue)),
            Some(item) => array_items(*old(queue)).len() > 0 && item == array_items(
                *old(queue),
            )[0] && array_items(*final(queue)) == array_items(*old(queue)).skip(1),
        },
{
    queue.pop()
}

/// `ArrayQueue::len`: how many packets there are.
#[verifier::external_body]
fn array_len(queue: &ArrayQueue<QueuedPacket>) -> (len: usize)
    ensures
        len == array_items(*queue).len(),
{
    queue.len()
}

/// A bounded queue of packets between senders and one receiver.
pub struct PacketQueue {
    queue: ArrayQueue<QueuedPacket>,
    active: bool,
    epoch: u64,
    senders: usize,
    receiver_open: bool,
}

/// What a [`PacketQueue`] says.
#[verifier::ext_equal]
pub struct QueueView {
    /// What is queued, the oldest first.
    pub items: Seq<QueuedView>,
    pub limit: usize,
    /// Whether packets are taken.
    pub active: bool,
    /// How often the queue was resumed.
    pub epoch: u64,
    pub senders: usize,
    pub receiver_open: bool,
}

/// What packets say.
pub open spec fn queued_views(items: Seq<QueuedPacket>) -> Seq<QueuedView> {
    Seq::new(items.len(), |i: int| items[i]@)
}

impl View for PacketQueue {
    type V = QueueView;

    closed spec fn view(&self) -> QueueView {
        QueueView {
            items: queued_views(array_items(self.queue)),
            limit: array_limit(self.queue),
            active: self.active,
            epoch: self.epoch,
            senders: self.senders,
            receiver_open: self.receiver_open,
        }
    }
}

impl QueueView {
    /// The queue is not larger than it may be, and what is queued is of the current epoch.
    pub open spec fn valid(self) -> bool {
        &&& 0 < self.limit
        &&& self.items.len() <= self.limit
        &&& self.epoch < EPOCH_MODULUS
        &&& !self.active ==> self.items.len() == 0
        &&& forall|i: int|
            0 <= i < self.items.len() ==> (#[trigger] self.items[i]).epoch == self.epoch
    }

    /// Packets are taken.
    pub open spec fn takes(self) -> bool {
        self.receiver_open && self.active
    }

    /// The queue once a packet was put in.
    pub open spec fn with_packet(self, packet: Seq<u8>) -> QueueView {
        QueueView { items: self.items.push(QueuedView { packet, epoch: self.epoch }), ..self }
    }

    /// The queue without its oldest packet.
    pub open spec fn without_oldest(self) -> QueueView {
        QueueView { items: self.items.skip(1), ..self }
    }

    /// The queue once a packet was sent. Where it is full, the packet is not taken.
    pub open spec fn offered(self, packet: Seq<u8>) -> QueueView {
        if self.takes() && self.items.len() < self.limit {
            self.with_packet(packet)
        } else {
            self
        }
    }

    /// The queue once a packet was sent by force. Where it is full, the oldest packet is lost.
    pub open spec fn forced(self, packet: Seq<u8>) -> QueueView {
        if !self.takes() {
            self
        } else if self.items.len() < self.limit {
            self.with_packet(packet)
        } else {
            self.without_oldest().with_packet(packet)
        }
    }

    /// The queue without anything queued.
    pub open spec fn purged(self) -> QueueView {
        QueueView { items: Seq::empty(), ..self }
    }

    /// The oldest packet is of the current epoch.
    pub open spec fn delivers(self) -> bool {
        self.items.len() > 0 && self.active && self.items[0].epoch == self.epoch
    }

    /// The packet that the receiver gets: the oldest of the current epoch.
    pub open spec fn delivered(self) -> Option<Seq<u8>>
        decreases self.items.len(),
    {
        if self.items.len() == 0 {
            None
        } else if self.delivers() {
            Some(self.items[0].packet)
        } else {
            self.without_oldest().delivered()
        }
    }

    /// The queue once the receiver got a packet.
    pub open spec fn after_delivery(self) -> QueueView
        decreases self.items.len(),
    {
        if self.items.len() == 0 {
            self
        } else if self.delivers() {
            self.without_oldest()
        } else {
            self.without_oldest().after_delivery()
        }
    }

    /// The queue once it takes packets again, in a new epoch.
    pub open spec fn resumed(self) -> QueueView {
        QueueView {
            active: true,
            epoch: ((self.epoch + 1) % EPOCH_MODULUS as int) as u64,
            ..self.purged()
        }
    }

    /// The queue once it takes no more packets.
    pub open spec fn suspended(self) -> QueueView {
        QueueView { active: false, ..self.purged() }
    }
}

/// Whatever is done to a queue, it stays within its bounds and holds nothing of an earlier
/// epoch.
pub proof fn queues_stay_valid(queue: QueueView, packet: Seq<u8>)
    requires
        queue.valid(),
    ensures
        queue.offered(packet).valid(),
        queue.forced(packet).valid(),
        queue.purged().valid(),
        queue.resumed().valid(),
        queue.suspended().valid(),
        queue.after_delivery().valid(),
{
    if queue.items.len() > 0 {
        assert(queue.items[0].epoch == queue.epoch);
        assert(queue.delivers());
    }
}

/// Packets come out in the order in which they went in, none of them twice.
pub proof fn packets_come_out_in_order(queue: QueueView)
    requires
        queue.valid(),
    ensures
        queue.items.len() == 0 ==> queue.delivered() is None && queue.after_delivery() == queue,
        queue.items.len() > 0 ==> queue.delivered() == Some(queue.items[0].packet)
            && queue.after_delivery() == queue.without_oldest(),
{
    if queue.items.len() > 0 {
        assert(queue.items[0].epoch == queue.epoch);
    }
}

/// A packet that was sent before the queue was suspended or resumed never comes out after.
pub proof fn earlier_epochs_are_lost(queue: QueueView)
    ensures
        queue.resumed().delivered() is None,
        queue.suspended().delivered() is None,
{
}

/// A queue that takes packets always takes one by force: it is then the newest, and nothing
/// but the oldest is lost, and that only where the queue was full.
pub proof fn force_keeps_the_newest(queue: QueueView, packet: Seq<u8>)
    requires
        queue.valid(),
        queue.takes(),
    ensures
        queue.forced(packet).items.last().packet == packet,
        queue.items.len() < queue.limit ==> queue.forced(packet).items.drop_last() == queue.items,
        queue.items.len() == queue.limit ==> queue.forced(packet).items.drop_last()
            == queue.items.skip(1),
{
    if queue.items.len() < queue.limit {
        assert(queue.forced(packet).items.drop_last() =~= queue.items);
    } else {
        assert(queue.forced(packet).items.drop_last() =~= queue.items.skip(1));
    }
}

/// A queue for so many packets, with one sender.
pub fn packet_channel(capacity: usize, active: bool) -> (queue: PacketQueue)
    requires
        capacity <= QUEUE_CAPACITY_MAX,
    ensures
        queue@ == (QueueView {
            items: Seq::<QueuedView>::empty(),
            limit: if capacity == 0 {
                1
            } else {
                capacity
            },
            active,
            epoch: 0,
            senders: 1,
            receiver_open: true,
        }),
        queue@.valid(),
{
    let limit: usize = if capacity == 0 {
        1
    } else {
        capacity
    };
    let queue = PacketQueue {
        queue: array_new(limit),
        active,
        epoch: 0,
        senders: 1,
        receiver_open: true,
    };
    assert(queue@.items =~= Seq::<QueuedView>::empty());
    queue
}

impl PacketQueue {
    /// Takes note of one more sender.
    pub fn add_sender(&mut self)
        requires
            old(self)@.senders < usize::MAX,
        ensures
            final(self)@ == (QueueView {
                senders: (old(self)@.senders + 1) as usize,
                ..old(self)@
            }),
    {
        self.senders = self.senders + 1;
    }

    /// Takes note that a sender is gone. Says whether it was the last one.
    pub fn remove_sender(&mut self) -> (last: bool)
        requires
            old(self)@.senders > 0,
        ensures
            last == (old(self)@.senders == 1),
            final(self)@ == (QueueView {
                senders: (old(self)@.senders - 1) as usize,
                ..old(self)@
            }),
    {
        self.senders = self.senders - 1;
        self.senders == 0
    }

    /// Sends a packet. It comes back where the queue takes none or is full.
    pub fn try_send(&mut self, packet: Vec<u8>) -> (sent: Result<(), Vec<u8>>)
        ensures
            final(self)@ == old(self)@.offered(packet@),
            match sent {
                Ok(_) => old(self)@.takes() && old(self)@.items.len() < old(self)@.limit,
                Err(refused) => refused@ == packet@ && !(old(self)@.takes()
                    && old(self)@.items.len() < old(self)@.limit),
            },
    {
        let ghost before = self@;
        if !self.receiver_open || !self.active {
            return Err(packet);
        }
        let ghost items = array_items(self.queue);
        let item = QueuedPacket { packet, epoch: self.epoch };
        match array_push(&mut self.queue, item) {
            Ok(_) => {
                assert(self@ =~= before.with_packet(packet@)) by {
                    assert(queued_views(items.push(item)) =~= queued_views(items).push(item@));
                }
                Ok(())
            },
            Err(refused) => {
                assert(self@ =~= before);
                Err(refused.packet)
            },
        }
    }

    /// Sends a packet by force: where the queue is full, its oldest packet is lost. The packet
    /// comes back where the queue takes none.
    pub fn force_send(&mut self, packet: Vec<u8>) -> (sent: Result<(), Vec<u8>>)
        ensures
            final(self)@ == old(self)@.forced(packet@),
            match sent {
                Ok(_) => old(self)@.takes(),
                Err(refused) => refused@ == packet@ && !old(self)@.takes(),
            },
    {
        let ghost before = self@;
        if !self.receiver_open || !self.active {
            return Err(packet);
        }
        let ghost items = array_items(self.queue);
        let item = QueuedPacket { packet, epoch: self.epoch };
        let oldest = array_force_push(&mut self.queue, item);
        proof {
            if oldest is None {
                assert(queued_views(items.push(item)) =~= queued_views(items).push(item@));
                assert(self@ =~= before.with_packet(packet@));
            } else {
                assert(queued_views(items.skip(1).push(item)) =~= queued_views(items).skip(1).push(
                    item@,
                ));
                assert(self@ =~= before.without_oldest().with_packet(packet@));
            }
        }
        Ok(())
    }

    /// Sends a packet; where the queue is full, by force.
    pub fn deposit(&mut self, packet: Vec<u8>) -> (sent: Result<(), Vec<u8>>)
        ensures
            final(self)@ == old(self)@.forced(packet@),
            match sent {
                Ok(_) => old(self)@.takes(),
                Err(refused) => refused@ == packet@ && !old(self)@.takes(),
            },
    {
        match self.try_send(packet) {
            Ok(_) => Ok(()),
            Err(refused) => self.force_send(refused),
        }
    }

    /// Receives a packet of the current epoch, the oldest first.
    pub fn try_recv(&mut self) -> (packet: Option<Vec<u8>>)
        ensures
            match packet {
                Some(found) => old(self)@.delivered() == Some(found@),
                None => old(self)@.delivered() is None,
            },
            final(self)@ == old(self)@.after_delivery(),
    {
        let ghost before = self@;
        loop
            invariant
                before == old(self)@,
                before.delivered() == self@.delivered(),
                before.after_delivery() == self@.after_delivery(),
            decreases self@.items.len(),
        {
            let ghost now = self@;
            let ghost items = array_items(self.queue);
            match array_pop(&mut self.queue) {
                None => {
                    assert(self@ =~= now);
                    return None;
                },
                Some(item) => {
                    proof {
                        assert(queued_views(items.skip(1)) =~= queued_views(items).skip(1));
                        assert(self@ =~= now.without_oldest());
                        assert(now.items[0] == item@);
                    }
                    if self.active && item.epoch == self.epoch {
                        return Some(item.packet);
                    }
                },
            }
        }
    }

    /// Takes packets again, in a new epoch. What was queued is lost.
    pub fn resume(&mut self)
        requires
            old(self)@.valid(),
        ensures
            final(self)@ == old(self)@.resumed(),
            final(self)@.valid(),
    {
        let ghost before = self@;
        self.active = false;
        self.epoch = (self.epoch + 1) % EPOCH_MODULUS;
        self.purge();
        self.active = true;
        assert(self@ =~= before.resumed());
    }

    /// Takes no more packets. What was queued is lost.
    pub fn suspend(&mut self)
        ensures
            final(self)@ == old(self)@.suspended(),
    {
        let ghost before = self@;
        self.active = false;
        self.purge();
        assert(self@ =~= before.suspended());
    }

    /// Loses what is queued.
    pub fn purge(&mut self)
        ensures
            final(self)@ == old(self)@.purged(),
    {
        let ghost before = self@;
        let mut left = true;
        while left
            invariant
                self@.purged() == before.purged(),
                !left ==> self@.items.len() == 0,
            decreases self@.items.len(), left as int,
        {
            let ghost items = array_items(self.queue);
            let ghost now = self@;
            match array_pop(&mut self.queue) {
                None => {
                    left = false;
                    assert(self@ =~= now);
                },
                Some(_) => {
                    assert(self@ =~= now.without_oldest()) by {
                        assert(queued_views(items.skip(1)) =~= queued_views(items).skip(1));
                    }
                    assert(self@.purged() =~= now.purged());
                },
            }
        }
        assert(self@ =~= before.purged());
    }

    /// Takes note that the receiver is gone. What was queued is lost.
    pub fn close_receiver(&mut self)
        ensures
            final(self)@ == (QueueView { receiver_open: false, ..old(self)@.purged() }),
    {
        let ghost before = self@;
        self.receiver_open = false;
        self.purge();
        assert(self@ =~= (QueueView { receiver_open: false, ..before.purged() }));
    }

    /// Whether there are no senders left and nothing is queued.
    pub fn is_closed(&self) -> (closed: bool)
        ensures
            closed == (self@.senders == 0 && self@.items.len() == 0),
    {
        self.senders == 0 && array_len(&self.queue) == 0
    }

    /// Whether anything is queued.
    pub fn has_queued_packet(&self) -> (queued: bool)
        ensures
            queued == (self@.items.len() > 0),
    {
        array_len(&self.queue) != 0
    }

    /// How many senders there are.
    pub fn sender_count(&self) -> (count: usize)
        ensures
            count == self@.senders,
    {
        self.senders
    }

    /// How many packets are queued.
    pub fn len(&self) -> (len: usize)
        ensures
            len == self@.items.len(),
    {
        array_len(&self.queue)
    }
}

/// Three queues, one for each class of packets.
pub struct Lanes {
    pub latency: PacketQueue,
    pub priority: PacketQueue,
    pub bulk: PacketQueue,
}

/// What [`Lanes`] say.
#[verifier::ext_equal]
pub struct LanesView {
    pub latency: QueueView,
    pub priority: QueueView,
    pub bulk: QueueView,
}

impl View for Lanes {
    type V = LanesView;

    open spec fn view(&self) -> LanesView {
        LanesView { latency: self.latency@, priority: self.priority@, bulk: self.bulk@ }
    }
}

impl LanesView {
    /// All lanes are valid.
    pub open spec fn valid(self) -> bool {
        self.latency.valid() && self.priority.valid() && self.bulk.valid()
    }

    /// The lanes once they take packets again.
    pub open spec fn resumed(self) -> LanesView {
        LanesView {
            latency: self.latency.resumed(),
            priority: self.priority.resumed(),
            bulk: self.bulk.resumed(),
        }
    }

    /// The lane of a class.
    pub open spec fn lane(self, class: PacketClass) -> QueueView {
        match class {
            PacketClass::Small => self.latency,
            PacketClass::Medium => self.priority,
            PacketClass::Bulk => self.bulk,
        }
    }

    /// The lanes with another lane for a class.
    pub open spec fn with_lane(self, class: PacketClass, lane: QueueView) -> LanesView {
        match class {
            PacketClass::Small => LanesView { latency: lane, ..self },
            PacketClass::Medium => LanesView { priority: lane, ..self },
            PacketClass::Bulk => LanesView { bulk: lane, ..self },
        }
    }

    /// The packet that comes next: the most urgent, and of those the oldest.
    pub open spec fn delivered(self) -> Option<Seq<u8>> {
        if self.latency.delivered() is Some {
            self.latency.delivered()
        } else if self.priority.delivered() is Some {
            self.priority.delivered()
        } else {
            self.bulk.delivered()
        }
    }

    /// The lanes once the next packet was taken out.
    pub open spec fn after_delivery(self) -> LanesView {
        LanesView {
            latency: self.latency.after_delivery(),
            priority: if self.latency.delivered() is Some {
                self.priority
            } else {
                self.priority.after_delivery()
            },
            bulk: if self.latency.delivered() is Some || self.priority.delivered() is Some {
                self.bulk
            } else {
                self.bulk.after_delivery()
            },
        }
    }

    /// A packet that is more urgent than `class` is queued.
    pub open spec fn more_urgent_waits(self, class: PacketClass) -> bool {
        match class {
            PacketClass::Small => false,
            PacketClass::Medium => self.latency.items.len() > 0,
            PacketClass::Bulk => self.latency.items.len() > 0 || self.priority.items.len() > 0,
        }
    }
}

impl Lanes {
    /// Three queues with one sender each.
    pub fn new(latency: usize, priority: usize, bulk: usize, active: bool) -> (lanes: Lanes)
        requires
            latency <= QUEUE_CAPACITY_MAX,
            priority <= QUEUE_CAPACITY_MAX,
            bulk <= QUEUE_CAPACITY_MAX,
        ensures
            lanes@.valid(),
            forall|class: PacketClass|
                {
                    let lane = #[trigger] lanes@.lane(class);
                    let capacity = match class {
                        PacketClass::Small => latency,
                        PacketClass::Medium => priority,
                        PacketClass::Bulk => bulk,
                    };
                    lane == (QueueView {
                        items: Seq::<QueuedView>::empty(),
                        limit: if capacity == 0 {
                            1
                        } else {
                            capacity
                        },
                        active,
                        epoch: 0,
                        senders: 1,
                        receiver_open: true,
                    })
                },
    {
        Lanes {
            latency: packet_channel(latency, active),
            priority: packet_channel(priority, active),
            bulk: packet_channel(bulk, active),
        }
    }

    /// Puts a packet that comes back from the network into the lane of its class. Where the
    /// lane is full, its oldest packet is lost.
    pub fn return_packet(&mut self, class: PacketClass, packet: Vec<u8>)
        ensures
            final(self)@ == old(self)@.with_lane(class, old(self)@.lane(class).forced(packet@)),
    {
        let _ = match class {
            PacketClass::Small => self.latency.force_send(packet),
            PacketClass::Medium => self.priority.force_send(packet),
            PacketClass::Bulk => self.bulk.force_send(packet),
        };
    }

    /// Puts a packet into the lane of its class: first without force, and then, where the lane
    /// is full, by force. It comes back where the lane takes none.
    pub fn deposit(&mut self, class: PacketClass, packet: Vec<u8>) -> (sent: Result<(), Vec<u8>>)
        ensures
            final(self)@ == old(self)@.with_lane(class, old(self)@.lane(class).forced(packet@)),
            match sent {
                Ok(_) => old(self)@.lane(class).takes(),
                Err(refused) => refused@ == packet@ && !old(self)@.lane(class).takes(),
            },
    {
        match class {
            PacketClass::Small => self.latency.deposit(packet),
            PacketClass::Medium => self.priority.deposit(packet),
            PacketClass::Bulk => self.bulk.deposit(packet),
        }
    }

    /// Takes the next packet out: the most urgent, and of those the oldest.
    pub fn next_return_packet(&mut self) -> (packet: Option<Vec<u8>>)
        ensures
            match packet {
                Some(found) => old(self)@.delivered() == Some(found@),
                None => old(self)@.delivered() is None,
            },
            final(self)@ == old(self)@.after_delivery(),
    {
        if let Some(packet) = self.latency.try_recv() {
            return Some(packet);
        }
        if let Some(packet) = self.priority.try_recv() {
            return Some(packet);
        }
        self.bulk.try_recv()
    }

    /// Whether a packet that is more urgent than `class` is queued.
    pub fn higher_priority_waiting(&self, class: PacketClass) -> (waiting: bool)
        ensures
            waiting == self@.more_urgent_waits(class),
    {
        match class {
            PacketClass::Small => false,
            PacketClass::Medium => self.latency.has_queued_packet(),
            PacketClass::Bulk => self.latency.has_queued_packet()
                || self.priority.has_queued_packet(),
        }
    }

    /// Whether nothing is queued in any lane and nobody is left to send.
    pub fn all_closed(&self) -> (closed: bool)
        ensures
            closed == forall|class: PacketClass|
                (#[trigger] self@.lane(class)).senders == 0 && self@.lane(class).items.len() == 0,
    {
        let closed = self.latency.is_closed() && self.priority.is_closed() && self.bulk.is_closed();
        proof {
            assert(self@.lane(PacketClass::Small) == self@.latency);
            assert(self@.lane(PacketClass::Medium) == self@.priority);
            assert(self@.lane(PacketClass::Bulk) == self@.bulk);
        }
        closed
    }

    /// Takes packets again in all lanes. What was queued is lost.
    pub fn resume(&mut self)
        requires
            old(self)@.valid(),
        ensures
            final(self)@ == old(self)@.resumed(),
            final(self)@.valid(),
    {
        self.latency.resume();
        self.priority.resume();
        self.bulk.resume();
    }
}

/// Packets that are sent together: of one class, and not too many.
#[derive(Clone, Copy, Debug, PartialEq, Eq, Structural)]
pub struct SendBatch {
    pub class: PacketClass,
    pub limit: usize,
    pub taken: usize,
}

impl SendBatch {
    /// A batch that holds its first packet.
    pub fn new(class: PacketClass, limit: usize) -> (batch: SendBatch)
        ensures
            batch == (SendBatch { class, limit, taken: 1 }),
    {
        SendBatch { class, limit, taken: 1 }
    }

    /// Whether another packet is to be asked for: the batch has room, and nothing more urgent
    /// waits.
    pub fn wants_more(&self, urgent_waits: bool) -> (more: bool)
        ensures
            more == (self.taken < self.limit && !urgent_waits),
    {
        self.taken < self.limit && !urgent_waits
    }

    /// Takes a packet into the batch if it is of the same class.
    pub fn offer(&mut self, class: PacketClass) -> (joined: bool)
        requires
            old(self).taken < old(self).limit,
        ensures
            joined == (class == old(self).class),
            *final(self) == if joined {
                SendBatch { taken: (old(self).taken + 1) as usize, ..*old(self) }
            } else {
                *old(self)
            },
    {
        if class == self.class {
            self.taken = self.taken + 1;
            true
        } else {
            false
        }
    }
}

/// Packets come out of the lanes in the order of their urgency.
pub proof fn urgent_packets_come_first(lanes: LanesView)
    requires
        lanes.valid(),
    ensures
        lanes.latency.items.len() > 0 ==> lanes.delivered() == Some(lanes.latency.items[0].packet),
        lanes.latency.items.len() == 0 && lanes.priority.items.len() > 0 ==> lanes.delivered()
            == Some(lanes.priority.items[0].packet),
        lanes.latency.items.len() == 0 && lanes.priority.items.len() == 0
            && lanes.bulk.items.len() > 0 ==> lanes.delivered() == Some(
            lanes.bulk.items[0].packet,
        ),
{
    packets_come_out_in_order(lanes.latency);
    packets_come_out_in_order(lanes.priority);
    packets_come_out_in_order(lanes.bulk);
}

} // verus!
