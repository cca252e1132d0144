//! How packets find their workers, and how they queue.
use crate::class::PacketClass;
use crate::dispatcher::DispatcherView;
use crate::queue::{LanesView, QueueView, QueuedView};
use crate::scheduler;
use crate::scheduler::{DispatchTicket, RoundRobinCursor, SchedulerView, WorkerView};
use vstd::prelude::*;

verus! {

/// The queue for packets of a class.
pub open spec fn queue_for(lanes: LanesView, class: PacketClass) -> QueueView {
    match class {
        PacketClass::Small => lanes.latency,
        PacketClass::Medium => lanes.priority,
        PacketClass::Bulk => lanes.bulk,
    }
}

/// Whose turn it is with packets of a class.
pub open spec fn turn_with(scheduler: SchedulerView, class: PacketClass) -> RoundRobinCursor {
    match class {
        PacketClass::Small => scheduler.small,
        PacketClass::Medium => scheduler.medium,
        PacketClass::Bulk => scheduler.bulk,
    }
}

/// How many packets of a class a worker gets in one turn.
pub open spec fn packets_per_turn(class: PacketClass) -> nat {
    match class {
        PacketClass::Small => 4,
        PacketClass::Medium => 16,
        PacketClass::Bulk => 32,
    }
}

/// The scheduler counts the workers that it goes by, and the turn of each class is that of one
/// of them.
pub open spec fn keeps_count(scheduler: SchedulerView) -> bool {
    &&& scheduler.worker_count == scheduler.workers.len()
    &&& forall|class: PacketClass|
        {
            let turn = #[trigger] turn_with(scheduler, class);
            turn.current_worker < scheduler.worker_count || (turn.current_worker == 0
                && turn.remaining == 0)
        }
}

/// The worker at this place of this list has an open channel whose queue for the class takes
/// packets.
pub open spec fn takes_packets(
    dispatcher: DispatcherView,
    workers: Seq<WorkerView>,
    class: PacketClass,
) -> bool {
    forall|i: int|
        0 <= i < workers.len() ==> {
            let channel = (#[trigger] workers[i]).channel;
            let queue = queue_for(dispatcher.lanes[channel], class);
            &&& dispatcher.lanes.contains_key(channel)
            &&& queue.active
            &&& queue.receiver_open
            &&& 0 < queue.limit
            &&& queue.items.len() <= queue.limit
        }
}

/// Whatever its class, a packet becomes the newest in the queue of that class of the worker
/// whose turn it is, as soon as there is a worker and the queues take packets. A worker keeps
/// its turn until it has got all packets of it; only then does the scheduler look at the list
/// of workers again, and where their number has changed it starts with the first. Nothing else
/// is put into any queue, and nothing is lost but the oldest packet of that queue where it was
/// full.
pub proof fn every_packet_is_queued(
    dispatcher: DispatcherView,
    scheduler: SchedulerView,
    class: PacketClass,
    packet: Seq<u8>,
    channel: u64,
    other: PacketClass,
)
    requires
        0 < dispatcher.workers.len() <= usize::MAX,
        keeps_count(scheduler),
        takes_packets(dispatcher, dispatcher.workers, class),
        takes_packets(dispatcher, scheduler.workers, class),
        dispatcher.lanes.contains_key(channel),
    ensures
        ({
            let turn = turn_with(scheduler, class);
            let workers = if turn.remaining == 0 {
                dispatcher.workers
            } else {
                scheduler.workers
            };
            let place = if turn.remaining == 0 && scheduler.worker_count
                != dispatcher.workers.len() {
                0
            } else {
                turn.current_worker as int
            };
            let chosen = workers[place].channel;
            let after = dispatcher.dispatched(scheduler, class, packet);
            let was = queue_for(dispatcher.lanes[chosen], class);
            let is = queue_for(after.lanes[chosen], class);
            &&& 0 <= place < workers.len()
            &&& is.items.len() > 0
            &&& is.items.last() == (QueuedView { packet, epoch: was.epoch })
            &&& is.items.drop_last() == if was.items.len() < was.limit {
                was.items
            } else {
                was.items.skip(1)
            }
            &&& is.limit == was.limit && is.active && is.receiver_open && is.epoch == was.epoch
            &&& after.workers == dispatcher.workers
            &&& after.returns == dispatcher.returns
            &&& after.lanes.dom() == dispatcher.lanes.dom()
            &&& channel != chosen ==> after.lanes[channel] == dispatcher.lanes[channel]
            &&& other != class ==> queue_for(after.lanes[channel], other) == queue_for(
                dispatcher.lanes[channel],
                other,
            )
        }),
{
    let turn = turn_with(scheduler, class);
    let workers = if turn.remaining == 0 {
        dispatcher.workers
    } else {
        scheduler.workers
    };
    let place = if turn.remaining == 0 && scheduler.worker_count != dispatcher.workers.len() {
        0
    } else {
        turn.current_worker as int
    };
    assert(0 <= place < workers.len());
    let chosen = workers[place].channel;
    assert(dispatcher.chosen(scheduler, class) == Some(workers[place]));
    let after = dispatcher.dispatched(scheduler, class, packet);
    let was = queue_for(dispatcher.lanes[chosen], class);
    let is = queue_for(after.lanes[chosen], class);
    assert(dispatcher.lanes.contains_key(chosen));
    if was.items.len() < was.limit {
        assert(is.items.drop_last() =~= was.items);
    } else {
        assert(is.items.drop_last() =~= was.items.skip(1));
    }
    assert(after.lanes.dom() =~= dispatcher.lanes.dom());
}

/// Once a packet was handed to a worker, its class has one packet less left in the turn, or the
/// turn goes to the next worker, after the last one to the first; the turns of the other
/// classes go on as they were, unless the number of workers has changed.
pub proof fn turns_go_on(
    dispatcher: DispatcherView,
    scheduler: SchedulerView,
    class: PacketClass,
    other: PacketClass,
)
    requires
        0 < dispatcher.workers.len() <= usize::MAX,
        keeps_count(scheduler),
        turn_with(scheduler, class).remaining < packets_per_turn(class),
    ensures
        ({
            let ready = scheduler.refreshed(dispatcher.workers, class);
            let after = ready.advanced(ready.worker_count, class);
            let was = turn_with(scheduler, class);
            let is = turn_with(after, class);
            let fresh = was.remaining == 0;
            let recounted = fresh && scheduler.worker_count != dispatcher.workers.len();
            let place = if recounted {
                0
            } else {
                was.current_worker as int
            };
            let left = (if fresh {
                packets_per_turn(class) as int
            } else {
                was.remaining as int
            }) - 1;
            &&& keeps_count(after)
            &&& after.workers == if fresh {
                dispatcher.workers
            } else {
                scheduler.workers
            }
            &&& is.remaining == left
            &&& left > 0 ==> is.current_worker == place
            &&& left == 0 ==> is.current_worker == if place + 1 == after.workers.len() {
                0
            } else {
                place + 1
            }
            &&& other != class && !recounted ==> turn_with(after, other) == turn_with(
                scheduler,
                other,
            )
            &&& other != class && recounted ==> turn_with(after, other) == (RoundRobinCursor {
                current_worker: 0,
                remaining: 0,
            })
        }),
{
    let ready = scheduler.refreshed(dispatcher.workers, class);
    let after = ready.advanced(ready.worker_count, class);
    assert(turn_with(scheduler, PacketClass::Small) == scheduler.small);
    assert(turn_with(scheduler, PacketClass::Medium) == scheduler.medium);
    assert(turn_with(scheduler, PacketClass::Bulk) == scheduler.bulk);
    assert forall|one: PacketClass|
        {
            let turn = #[trigger] turn_with(after, one);
            turn.current_worker < after.worker_count || (turn.current_worker == 0
                && turn.remaining == 0)
        } by {
        let turn = turn_with(scheduler, one);
    }
}

/// Without workers a packet goes nowhere.
pub proof fn without_workers_nothing_is_queued(
    dispatcher: DispatcherView,
    scheduler: SchedulerView,
    class: PacketClass,
    packet: Seq<u8>,
)
    requires
        dispatcher.workers.len() == 0,
        turn_with(scheduler, class).remaining == 0,
    ensures
        dispatcher.dispatched(scheduler, class, packet) == dispatcher,
{
}

/// Packets of a class are handed out in turns of four, sixteen or thirty-two, whatever else
/// comes between: packet number `count` goes to worker `count / turn`, counted round and round.
pub proof fn packets_take_turns(
    scheduler: SchedulerView,
    worker_count: usize,
    classes: Seq<PacketClass>,
    class: PacketClass,
)
    requires
        worker_count > 0,
        scheduler.worker_count != worker_count || turn_with(scheduler, class) == (
        RoundRobinCursor { current_worker: 0, remaining: 0 }),
    ensures
        scheduler::advanced_all(scheduler, worker_count, classes).ticket(worker_count, class)
            == Some(
            DispatchTicket {
                start_slot: ((scheduler::count_of(classes, class) / packets_per_turn(class)) % (
                worker_count as nat)) as usize,
                class,
            },
        ),
{
    scheduler::chunks_go_round(scheduler, worker_count, classes, class);
}

/// A packet that is sent is the newest if there is room for it, and comes back otherwise; no
/// packet that waits is lost.
pub proof fn offered_packets_wait(queue: QueueView, packet: Seq<u8>)
    ensures
        queue.receiver_open && queue.active && queue.items.len() < queue.limit ==> queue.offered(
            packet,
        ) == (QueueView {
            items: queue.items.push(QueuedView { packet, epoch: queue.epoch }),
            ..queue
        }),
        !(queue.receiver_open && queue.active && queue.items.len() < queue.limit)
            ==> queue.offered(packet) == queue,
        !(queue.receiver_open && queue.active) ==> queue.forced(packet) == queue,
{
}

/// A queue that is suspended holds nothing and takes nothing. One that is resumed holds
/// nothing, takes packets, and tells them from those of before.
pub proof fn queues_start_anew(queue: QueueView, packet: Seq<u8>)
    requires
        queue.epoch < 0x8000_0000_0000_0000,
        0 < queue.limit,
    ensures
        queue.suspended().items.len() == 0,
        queue.suspended().offered(packet) == queue.suspended(),
        queue.suspended().forced(packet) == queue.suspended(),
        queue.suspended().delivered() is None,
        queue.resumed().items.len() == 0,
        queue.resumed().active,
        queue.resumed().epoch != queue.epoch,
        queue.resumed().epoch == if queue.epoch == 0x7fff_ffff_ffff_ffff {
            0
        } else {
            queue.epoch + 1
        },
        queue.resumed().limit == queue.limit,
        queue.resumed().senders == queue.senders,
        queue.resumed().receiver_open == queue.receiver_open,
        queue.receiver_open ==> queue.resumed().offered(packet).delivered() == Some(packet),
        queue.purged() == (QueueView { items: Seq::empty(), ..queue }),
{
    let offered = queue.resumed().offered(packet);
    if queue.receiver_open {
        assert(offered.items[0].packet == packet);
    }
}

/// Every packet of a queue is of the epoch that the queue is in, and the queue takes packets.
pub open spec fn in_use(queue: QueueView) -> bool {
    &&& queue.active
    &&& forall|i: int|
        0 <= i < queue.items.len() ==> (#[trigger] queue.items[i]).epoch == queue.epoch
}

/// Taking a packet takes the oldest of the most urgent and leaves all others where they are, in
/// their order.
pub proof fn packets_are_taken_one_by_one(lanes: LanesView)
    requires
        in_use(lanes.latency),
        in_use(lanes.priority),
        in_use(lanes.bulk),
    ensures
        lanes.latency.items.len() > 0 ==> {
            &&& lanes.delivered() == Some(lanes.latency.items[0].packet)
            &&& lanes.after_delivery() == (LanesView {
                latency: QueueView { items: lanes.latency.items.skip(1), ..lanes.latency },
                ..lanes
            })
        },
        lanes.latency.items.len() == 0 && lanes.priority.items.len() > 0 ==> {
            &&& lanes.delivered() == Some(lanes.priority.items[0].packet)
            &&& lanes.after_delivery() == (LanesView {
                priority: QueueView { items: lanes.priority.items.skip(1), ..lanes.priority },
                ..lanes
            })
        },
        lanes.latency.items.len() == 0 && lanes.priority.items.len() == 0
            && lanes.bulk.items.len() > 0 ==> {
            &&& lanes.delivered() == Some(lanes.bulk.items[0].packet)
            &&& lanes.after_delivery() == (LanesView {
                bulk: QueueView { items: lanes.bulk.items.skip(1), ..lanes.bulk },
                ..lanes
            })
        },
        lanes.latency.items.len() == 0 && lanes.priority.items.len() == 0
            && lanes.bulk.items.len() == 0 ==> lanes.delivered() is None
            && lanes.after_delivery() == lanes,
{
    if lanes.latency.items.len() > 0 {
        assert(lanes.latency.items[0].epoch == lanes.latency.epoch);
    }
    if lanes.priority.items.len() > 0 {
        assert(lanes.priority.items[0].epoch == lanes.priority.epoch);
    }
    if lanes.bulk.items.len() > 0 {
        assert(lanes.bulk.items[0].epoch == lanes.bulk.epoch);
    }
}

/// A packet of an earlier epoch never comes out: it is passed over, and so are all that stand
/// before the first packet of the epoch that the queue is in.
pub proof fn stale_packets_are_passed_over(queue: QueueView, first: nat)
    requires
        queue.active,
        first < queue.items.len(),
        forall|i: int| 0 <= i < first ==> (#[trigger] queue.items[i]).epoch != queue.epoch,
        queue.items[first as int].epoch == queue.epoch,
    ensures
        queue.delivered() == Some(queue.items[first as int].packet),
        queue.after_delivery() == (QueueView { items: queue.items.skip(first as int + 1), ..queue }),
    decreases first,
{
    if first > 0 {
        let rest = queue.without_oldest();
        assert(queue.items[0].epoch != queue.epoch);
        assert forall|i: int| 0 <= i < first - 1 implies (#[trigger] rest.items[i]).epoch
            != rest.epoch by {
            assert(queue.items[i + 1].epoch != queue.epoch);
        }
        stale_packets_are_passed_over(rest, (first - 1) as nat);
        assert(rest.items.skip(first as int) =~= queue.items.skip(first as int + 1));
    }
}

/// More urgent packets wait where a queue of a more urgent class is not empty.
pub proof fn urgency_is_seen(lanes: LanesView)
    ensures
        !lanes.more_urgent_waits(PacketClass::Small),
        lanes.more_urgent_waits(PacketClass::Medium) <==> lanes.latency.items.len() > 0,
        lanes.more_urgent_waits(PacketClass::Bulk) <==> lanes.latency.items.len() > 0
            || lanes.priority.items.len() > 0,
{
}

/// How many of the workers go through the relay of this one and have a smaller number.
pub open spec fn before_it(workers: Seq<WorkerView>, worker: WorkerView) -> nat
    decreases workers.len(),
{
    if workers.len() == 0 {
        0
    } else {
        before_it(workers.drop_last(), worker) + if workers.last().turn_path == worker.turn_path
            && workers.last().id < worker.id {
            1nat
        } else {
            0
        }
    }
}

proof fn lemma_before_it(workers: Seq<WorkerView>, worker: WorkerView, upto: nat)
    requires
        upto <= workers.len(),
    ensures
        scheduler::rank_upto(workers, worker, upto) == before_it(
            workers.take(upto as int),
            worker,
        ),
    decreases upto,
{
    if upto > 0 {
        lemma_before_it(workers, worker, (upto - 1) as nat);
        assert(workers.take(upto as int).drop_last() =~= workers.take(upto - 1));
        assert(workers.take(upto as int).last() == workers[upto - 1]);
    }
}

/// Workers are arranged so that relays alternate: each relay has its first worker, by number,
/// before any relay has its second, and so on; the relays come in the order of their names.
/// Workers of one relay come in the order of their numbers.
pub proof fn relays_alternate(
    workers: Seq<WorkerView>,
    arranged: Seq<WorkerView>,
    i: int,
    j: int,
)
    requires
        scheduler::interleaved(workers, arranged),
        scheduler::distinct_ids(workers),
        0 <= i < j < arranged.len(),
    ensures
        arranged.len() == workers.len(),
        before_it(workers, arranged[i]) <= before_it(workers, arranged[j]),
        before_it(workers, arranged[i]) == before_it(workers, arranged[j])
            ==> arranged[i].turn_path != arranged[j].turn_path && scheduler::text_less(
            arranged[i].turn_path,
            arranged[j].turn_path,
        ),
        arranged[i].turn_path == arranged[j].turn_path ==> arranged[i].id < arranged[j].id,
{
    scheduler::interleaving_keeps_workers(workers, arranged);
    assert(workers.take(workers.len() as int) =~= workers);
    lemma_before_it(workers, arranged[i], workers.len());
    lemma_before_it(workers, arranged[j], workers.len());
    assert(scheduler::turn_before(workers, arranged[i], arranged[j]));
    lemma_text_irreflexive(arranged[i].turn_path);
    if arranged[i].turn_path == arranged[j].turn_path {
        assert(arranged[i].id != arranged[j].id);
        if arranged[j].id < arranged[i].id {
            lemma_before_it_grows(workers, arranged[j], arranged[i]);
        }
    }
}

proof fn lemma_before_it_grows(workers: Seq<WorkerView>, low: WorkerView, high: WorkerView)
    requires
        low.turn_path == high.turn_path,
        low.id < high.id,
    ensures
        before_it(workers, low) <= before_it(workers, high),
    decreases workers.len(),
{
    if workers.len() > 0 {
        lemma_before_it_grows(workers.drop_last(), low, high);
    }
}

/// No name comes before itself.
proof fn lemma_text_irreflexive(name: Seq<char>)
    ensures
        !scheduler::text_less(name, name),
    decreases name.len(),
{
    if name.len() > 0 {
        lemma_text_irreflexive(name.skip(1));
    }
}

/// One name comes before another where it is the beginning of it, or has the smaller character
/// at the first place where they differ.
pub proof fn names_are_ordered(left: Seq<char>, right: Seq<char>, at: int)
    requires
        0 <= at <= left.len(),
        at <= right.len(),
        left.take(at) == right.take(at),
    ensures
        at == left.len() && at < right.len() ==> scheduler::text_less(left, right),
        at == right.len() ==> !scheduler::text_less(left, right),
        at < left.len() && at < right.len() && left[at] < right[at] ==> scheduler::text_less(
            left,
            right,
        ),
        at < left.len() && at < right.len() && left[at] > right[at] ==> !scheduler::text_less(
            left,
            right,
        ),
    decreases at,
{
    if at > 0 {
        assert(left[0] == left.take(at)[0] && right[0] == right.take(at)[0]);
        assert(left.skip(1).take(at - 1) =~= left.take(at).skip(1));
        assert(right.skip(1).take(at - 1) =~= right.take(at).skip(1));
        names_are_ordered(left.skip(1), right.skip(1), at - 1);
    }
}

/// All lanes start anew together.
pub proof fn lanes_start_anew(lanes: LanesView, class: PacketClass)
    ensures
        queue_for(lanes.resumed(), class) == queue_for(lanes, class).resumed(),
        lanes.resumed().delivered() is None,
{
}

} // verus!
