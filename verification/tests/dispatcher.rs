use csqtt::class::PacketClass;
use csqtt::dispatcher::Dispatcher;
use csqtt::queue::{
    packet_channel, Lanes, SendBatch, RETURN_BULK_CAPACITY, RETURN_LATENCY_CAPACITY,
    RETURN_PRIORITY_CAPACITY,
};
use csqtt::scheduler::{interleave_turn_paths, FastPathScheduler, WorkerChannels};
use std::collections::VecDeque;
use std::sync::Arc;

const CLIENT_WORKER_PACKET_CHUNK: usize = 32;

#[derive(Clone, Copy, Default)]
struct QueueCoverage {
    full_rejection: usize,
    forced_replacement: usize,
    inactive_rejection: usize,
    suspended: usize,
    resumed: usize,
    purged: usize,
}

impl QueueCoverage {
    fn complete(self) -> bool {
        self.full_rejection > 0
            && self.forced_replacement > 0
            && self.inactive_rejection > 0
            && self.suspended > 0
            && self.resumed > 0
            && self.purged > 0
    }
}

fn test_dispatcher() -> Dispatcher {
    Dispatcher::new(Lanes::new(8, 16, 64, true))
}

fn channels(id: usize) -> WorkerChannels {
    WorkerChannels {
        id,
        incarnation_id: id as u64 + 1,
        turn_path: String::from("test"),
        channel: id as u64,
    }
}

fn add_worker(dispatcher: &mut Dispatcher, id: usize, capacity: usize) {
    dispatcher.open_channel(id as u64, Lanes::new(capacity, capacity, capacity, true));
    dispatcher.register(channels(id));
}

fn tcp_packet(sequence: u32) -> Vec<u8> {
    tcp_packet_len(sequence, 1_200)
}

fn tcp_packet_len(sequence: u32, len: usize) -> Vec<u8> {
    let mut bytes = vec![0u8; len];
    bytes[0] = 0x45;
    bytes[2..4].copy_from_slice(&(len as u16).to_be_bytes());
    bytes[8] = 64;
    bytes[9] = 6;
    bytes[24..28].copy_from_slice(&sequence.to_be_bytes());
    bytes
}

fn packet_sequence(packet: &[u8]) -> u32 {
    u32::from_be_bytes(packet[24..28].try_into().unwrap())
}

#[test]
fn registered_workers_interleave_turn_paths() {
    let mut dispatcher = test_dispatcher();
    for (id, turn_path) in [
        (1, "turn-a"),
        (2, "turn-a"),
        (3, "turn-b"),
        (4, "turn-b"),
        (5, "turn-c"),
        (6, "turn-c"),
    ] {
        let mut worker = channels(id);
        worker.turn_path = String::from(turn_path);
        dispatcher.register(worker);
    }
    let workers = dispatcher.workers();
    let order: Vec<&str> = workers
        .iter()
        .map(|worker| worker.turn_path.as_str())
        .collect();
    assert_eq!(
        order,
        ["turn-a", "turn-b", "turn-c", "turn-a", "turn-b", "turn-c"]
    );
}

#[test]
fn interleaving_goes_by_path_and_then_by_number() {
    let mut workers = Vec::new();
    for (id, path) in [(7, "b"), (3, "a"), (1, "b"), (2, "b"), (9, "a")] {
        let mut worker = channels(id);
        worker.turn_path = String::from(path);
        workers.push(worker);
    }
    let arranged: Vec<usize> = interleave_turn_paths(&workers)
        .iter()
        .map(|worker| worker.id)
        .collect();
    assert_eq!(arranged, [3, 1, 9, 2, 7]);
    assert!(interleave_turn_paths(&Vec::new()).is_empty());
}

fn queue_trace_outcome(actions: &[(u8, u8)], replace_oldest: bool) -> (bool, QueueCoverage) {
    let capacity = 7;
    let mut queue = packet_channel(capacity, true);
    let mut model = VecDeque::new();
    let mut active = true;
    let mut coverage = QueueCoverage::default();
    for &(operation, value) in actions {
        match operation % 6 {
            0 => {
                let accepted = queue.try_send(vec![value]).is_ok();
                let expected = active && model.len() < capacity;
                if accepted != expected {
                    return (false, coverage);
                }
                if expected {
                    model.push_back(value);
                } else if active {
                    coverage.full_rejection += 1;
                } else {
                    coverage.inactive_rejection += 1;
                }
            }
            1 => {
                let accepted = queue.force_send(vec![value]).is_ok();
                if accepted != active {
                    return (false, coverage);
                }
                if active {
                    if model.len() == capacity {
                        coverage.forced_replacement += 1;
                        if replace_oldest {
                            model.pop_front();
                        } else {
                            model.pop_back();
                        }
                    }
                    model.push_back(value);
                } else {
                    coverage.inactive_rejection += 1;
                }
            }
            2 => {
                let actual = queue.try_recv().map(|packet| packet[0]);
                if actual != model.pop_front() {
                    return (false, coverage);
                }
            }
            3 => {
                queue.suspend();
                active = false;
                model.clear();
                coverage.suspended += 1;
            }
            4 => {
                queue.resume();
                active = true;
                model.clear();
                coverage.resumed += 1;
            }
            _ => {
                queue.purge();
                model.clear();
                coverage.purged += 1;
            }
        }
    }
    while let Some(expected) = model.pop_front() {
        if queue.try_recv().map(|packet| packet[0]) != Some(expected) {
            return (false, coverage);
        }
    }
    (queue.try_recv().is_none() && queue.len() == 0, coverage)
}

fn queue_trace_matches(actions: &[(u8, u8)], replace_oldest: bool) -> bool {
    queue_trace_outcome(actions, replace_oldest).0
}

fn mix64(mut value: u64) -> u64 {
    value = value.wrapping_add(0x9e37_79b9_7f4a_7c15);
    value = (value ^ (value >> 30)).wrapping_mul(0xbf58_476d_1ce4_e5b9);
    value = (value ^ (value >> 27)).wrapping_mul(0x94d0_49bb_1331_11eb);
    value ^ (value >> 31)
}

fn deterministic_queue_actions(seed: u64, length: usize) -> Vec<(u8, u8)> {
    let mut state = seed;
    let mut actions = Vec::with_capacity(length);
    let prefix = [
        (0, 1),
        (0, 2),
        (0, 3),
        (0, 4),
        (0, 5),
        (0, 6),
        (0, 7),
        (0, 8),
        (1, 9),
        (3, 0),
        (0, 10),
        (4, 0),
        (1, 11),
        (5, 0),
    ];
    actions.extend(prefix.into_iter().take(length));
    for _ in actions.len()..length {
        state = mix64(state);
        actions.push(((state % 6) as u8, (state >> 24) as u8));
    }
    actions
}

#[test]
fn fast_path_scheduler_assigns_exact_bulk_round_robin_chunks() {
    let mut scheduler = FastPathScheduler::new();
    let workers = 4;
    for chunk in 0..9 {
        for _ in 0..CLIENT_WORKER_PACKET_CHUNK {
            let ticket = scheduler.begin_for_class(workers, PacketClass::Bulk).unwrap();
            assert_eq!(ticket.start_slot, chunk % workers);
            assert_eq!(ticket.class, PacketClass::Bulk);
        }
    }
    assert!(scheduler.begin_for_class(0, PacketClass::Bulk).is_none());
    assert_eq!(
        scheduler
            .begin_for_class(workers, PacketClass::Bulk)
            .unwrap()
            .start_slot,
        1
    );
}

#[test]
fn fast_path_scheduler_balances_every_supported_stream_count() {
    for workers in [9, 27, 54, 81, 108, 126] {
        let mut scheduler = FastPathScheduler::new();
        let mut assigned = vec![0usize; workers];
        for _ in 0..(workers * CLIENT_WORKER_PACKET_CHUNK * 3) {
            let ticket = scheduler.begin_for_class(workers, PacketClass::Bulk).unwrap();
            assigned[ticket.start_slot] += 1;
        }
        assert!(assigned
            .iter()
            .all(|count| *count == CLIENT_WORKER_PACKET_CHUNK * 3));
    }
}

#[test]
fn fast_path_scheduler_keeps_round_robin_cursors_per_packet_class() {
    let mut scheduler = FastPathScheduler::new();
    for (class, chunk) in [
        (PacketClass::Small, 4),
        (PacketClass::Medium, 16),
        (PacketClass::Bulk, 32),
    ] {
        assert_eq!(class.stream_chunk(), chunk);
        for _ in 0..chunk {
            let ticket = scheduler.begin_for_class(2, class).unwrap();
            assert_eq!(ticket.start_slot, 0);
            assert_eq!(ticket.class, class);
        }
        assert_eq!(scheduler.begin_for_class(2, class).unwrap().start_slot, 1);
    }
}

#[test]
fn fast_path_scheduler_applies_worker_changes_only_at_a_chunk_boundary() {
    let mut scheduler = FastPathScheduler::new();
    let mut workers = Arc::new(vec![channels(0), channels(1)]);

    for _ in 0..5 {
        assert_eq!(
            scheduler.begin(&workers, PacketClass::Bulk).unwrap().start_slot,
            0
        );
        assert_eq!(scheduler.worker_total(), 2);
    }

    workers = Arc::new(vec![channels(0), channels(1), channels(2)]);

    for _ in 0..(CLIENT_WORKER_PACKET_CHUNK - 5) {
        assert_eq!(
            scheduler.begin(&workers, PacketClass::Bulk).unwrap().start_slot,
            0
        );
        assert_eq!(scheduler.worker_total(), 2);
    }

    assert_eq!(
        scheduler.begin(&workers, PacketClass::Bulk).unwrap().start_slot,
        0
    );
    assert_eq!(scheduler.worker_total(), 3);
}

#[test]
fn a_ticket_selects_the_worker_in_its_slot() {
    let mut scheduler = FastPathScheduler::new();
    let workers = Arc::new(vec![channels(5), channels(8)]);
    let ticket = scheduler.begin(&workers, PacketClass::Small).unwrap();
    assert_eq!(scheduler.selected(ticket).unwrap().id, 5);
    let mut fresh = FastPathScheduler::new();
    assert!(fresh.selected(ticket).is_none());
    assert!(fresh.begin(&Arc::new(Vec::new()), PacketClass::Small).is_none());
}

#[test]
fn client_dispatcher_routes_one_full_chunk_to_each_worker_before_advancing() {
    let mut dispatcher = test_dispatcher();
    for id in 0..3 {
        add_worker(&mut dispatcher, id, CLIENT_WORKER_PACKET_CHUNK);
    }
    let mut scheduler = FastPathScheduler::new();
    for sequence in 0..(CLIENT_WORKER_PACKET_CHUNK * 3) {
        dispatcher.dispatch(
            &mut scheduler,
            PacketClass::Bulk,
            tcp_packet(sequence as u32),
        );
    }
    for worker in 0..3usize {
        let mut lanes = dispatcher.close_channel(worker as u64).unwrap();
        assert_eq!(lanes.latency.len(), 0);
        assert_eq!(lanes.priority.len(), 0);
        assert_eq!(lanes.bulk.len(), CLIENT_WORKER_PACKET_CHUNK);
        for offset in 0..CLIENT_WORKER_PACKET_CHUNK {
            assert_eq!(
                packet_sequence(&lanes.bulk.try_recv().unwrap()),
                (worker * CLIENT_WORKER_PACKET_CHUNK + offset) as u32
            );
        }
    }
}

#[test]
fn saturated_selected_queue_never_redirects_a_chunk_to_another_worker() {
    let mut dispatcher = test_dispatcher();
    add_worker(&mut dispatcher, 0, 1);
    add_worker(&mut dispatcher, 1, 1);
    let mut scheduler = FastPathScheduler::new();

    dispatcher.dispatch(&mut scheduler, PacketClass::Bulk, tcp_packet(1));
    dispatcher.dispatch(&mut scheduler, PacketClass::Bulk, tcp_packet(2));

    let mut first = dispatcher.close_channel(0).unwrap();
    let mut second = dispatcher.close_channel(1).unwrap();
    assert_eq!(packet_sequence(&first.bulk.try_recv().unwrap()), 2);
    assert!(second.latency.try_recv().is_none());
    assert!(second.priority.try_recv().is_none());
    assert!(second.bulk.try_recv().is_none());
}

#[test]
fn direct_downlink_preserves_late_tcp_retransmit() {
    let mut dispatcher = test_dispatcher();
    dispatcher.return_packet(PacketClass::Bulk, tcp_packet(0));
    dispatcher.return_packet(PacketClass::Bulk, tcp_packet(2_320));
    assert_eq!(packet_sequence(&dispatcher.next_return_packet().unwrap()), 0);
    assert_eq!(
        packet_sequence(&dispatcher.next_return_packet().unwrap()),
        2_320
    );
    dispatcher.return_packet(PacketClass::Bulk, tcp_packet(1_160));
    assert_eq!(
        packet_sequence(&dispatcher.next_return_packet().unwrap()),
        1_160
    );
}

#[test]
fn direct_downlink_splits_latency_and_bulk_returns() {
    let mut lanes = Lanes::new(8, 16, 64, true);
    lanes.return_packet(PacketClass::Small, tcp_packet_len(7, 96));
    lanes.return_packet(PacketClass::Bulk, tcp_packet(8));
    assert_eq!(packet_sequence(&lanes.latency.try_recv().unwrap()), 7);
    assert_eq!(packet_sequence(&lanes.bulk.try_recv().unwrap()), 8);
}

#[test]
fn urgent_packets_come_out_first() {
    let mut dispatcher = Dispatcher::new(Lanes::new(
        RETURN_LATENCY_CAPACITY,
        RETURN_PRIORITY_CAPACITY,
        RETURN_BULK_CAPACITY,
        true,
    ));
    dispatcher.return_packet(PacketClass::Bulk, vec![1]);
    dispatcher.return_packet(PacketClass::Medium, vec![2]);
    dispatcher.return_packet(PacketClass::Small, vec![3]);
    dispatcher.return_packet(PacketClass::Small, vec![4]);
    assert_eq!(dispatcher.next_return_packet(), Some(vec![3]));
    assert_eq!(dispatcher.next_return_packet(), Some(vec![4]));
    assert_eq!(dispatcher.next_return_packet(), Some(vec![2]));
    assert_eq!(dispatcher.next_return_packet(), Some(vec![1]));
    assert_eq!(dispatcher.next_return_packet(), None);
}

#[test]
fn a_worker_takes_its_urgent_packets_first() {
    let mut dispatcher = test_dispatcher();
    add_worker(&mut dispatcher, 3, 4);
    let mut scheduler = FastPathScheduler::new();
    dispatcher.dispatch(&mut scheduler, PacketClass::Bulk, vec![1]);
    dispatcher.dispatch(&mut scheduler, PacketClass::Small, vec![2]);
    assert_eq!(dispatcher.next_for(3), Some(vec![2]));
    assert_eq!(dispatcher.next_for(3), Some(vec![1]));
    assert_eq!(dispatcher.next_for(3), None);
    assert_eq!(dispatcher.next_for(4), None);
}

#[test]
fn lanes_know_what_is_more_urgent() {
    let mut lanes = Lanes::new(1, 1, 1, true);
    assert!(!lanes.higher_priority_waiting(PacketClass::Bulk));
    lanes.return_packet(PacketClass::Medium, vec![1]);
    assert!(lanes.higher_priority_waiting(PacketClass::Bulk));
    assert!(!lanes.higher_priority_waiting(PacketClass::Medium));
    lanes.return_packet(PacketClass::Small, vec![1]);
    assert!(lanes.higher_priority_waiting(PacketClass::Medium));
    assert!(!lanes.higher_priority_waiting(PacketClass::Small));
    lanes.resume();
    assert!(!lanes.higher_priority_waiting(PacketClass::Bulk));
    assert!(!lanes.all_closed());
    assert!(lanes.latency.remove_sender());
    assert!(lanes.priority.remove_sender());
    assert!(!lanes.all_closed());
    assert!(lanes.bulk.remove_sender());
    assert!(lanes.all_closed());
}

#[test]
fn unregister_and_recover_one_worker_never_changes_its_siblings() {
    let mut dispatcher = test_dispatcher();
    for id in 0..9 {
        dispatcher.register(channels(id));
    }
    for cycle in 0..10_000 {
        let id = cycle % 9;
        dispatcher.unregister(id, id as u64 + 1);
        assert_eq!(dispatcher.active_count(), 8);
        for sibling in 0..9 {
            assert_eq!(dispatcher.worker(sibling).is_some(), sibling != id);
        }
        dispatcher.register(channels(id));
        assert_eq!(dispatcher.active_count(), 9);
    }
}

#[test]
fn stale_registration_drop_cannot_unregister_replacement() {
    let mut dispatcher = test_dispatcher();
    let mut old = channels(4);
    old.incarnation_id = 40;
    dispatcher.register(old);
    let mut replacement = channels(4);
    replacement.incarnation_id = 41;
    dispatcher.register(replacement);

    dispatcher.unregister(4, 40);

    assert_eq!(dispatcher.active_count(), 1);
    assert_eq!(dispatcher.worker(4).unwrap().incarnation_id, 41);
}

#[test]
fn overload_keeps_queues_and_packet_memory_strictly_bounded() {
    let mut dispatcher = test_dispatcher();
    for id in 0..9 {
        add_worker(&mut dispatcher, id, 1);
    }
    let mut scheduler = FastPathScheduler::new();
    for sequence in 0..100_000 {
        if sequence % 2 == 0 {
            dispatcher.dispatch(&mut scheduler, PacketClass::Small, vec![0u8; 100]);
        } else {
            dispatcher.dispatch(&mut scheduler, PacketClass::Bulk, vec![0u8; 1_000]);
        }
    }
    let mut queued = 0;
    for id in 0..9u64 {
        let mut lanes = dispatcher.close_channel(id).unwrap();
        queued += lanes.latency.len() + lanes.priority.len() + lanes.bulk.len();
        while lanes.next_return_packet().is_some() {}
        assert_eq!(lanes.latency.len() + lanes.priority.len() + lanes.bulk.len(), 0);
    }
    assert!(queued <= 18);
    assert!(queued > 0);
}

#[test]
fn saturated_queue_replaces_oldest_with_newest() {
    let mut queue = packet_channel(2, true);
    for value in 1..=3 {
        assert!(queue.force_send(vec![value]).is_ok());
    }
    assert_eq!(queue.try_recv().unwrap(), [2]);
    assert_eq!(queue.try_recv().unwrap(), [3]);
    assert!(queue.try_recv().is_none());
}

#[test]
fn queued_packets_remain_available_until_the_queue_is_purged() {
    let mut queue = packet_channel(2, true);
    assert!(queue.force_send(vec![1]).is_ok());
    assert!(queue.try_recv().is_some());
    assert_eq!(queue.len(), 0);
}

#[test]
fn suspend_and_resume_purge_previous_network_epoch() {
    let mut queue = packet_channel(3, true);
    assert!(queue.force_send(vec![1]).is_ok());
    queue.suspend();
    assert_eq!(queue.len(), 0);
    assert!(queue.force_send(vec![2]).is_err());
    queue.resume();
    assert!(queue.force_send(vec![3]).is_ok());
    assert!(queue.try_recv().is_some());
    assert!(queue.try_recv().is_none());
}

#[test]
fn queue_oracle_detects_keep_oldest_mutation() {
    let actions = [
        (1, 1),
        (1, 2),
        (1, 3),
        (1, 4),
        (1, 5),
        (1, 6),
        (1, 7),
        (1, 8),
        (2, 0),
    ];
    assert!(queue_trace_matches(&actions, true));
    assert!(!queue_trace_matches(&actions, false));
}

#[test]
fn deterministic_queue_fault_generator_is_reproducible_and_complete() {
    let first = deterministic_queue_actions(0x1234_5678_9abc_def0, 4_096);
    let second = deterministic_queue_actions(0x1234_5678_9abc_def0, 4_096);
    let different = deterministic_queue_actions(0x1234_5678_9abc_def1, 4_096);
    assert_eq!(first, second);
    assert_ne!(first, different);
    let mut covered = [false; 6];
    for &(operation, _) in &first {
        covered[usize::from(operation % 6)] = true;
    }
    assert!(covered.into_iter().all(|value| value));
    let (matches, coverage) = queue_trace_outcome(&first, true);
    assert!(matches);
    assert!(coverage.complete());
}

#[test]
fn queue_coverage_oracle_rejects_each_missing_state_transition() {
    let complete = QueueCoverage {
        full_rejection: 1,
        forced_replacement: 1,
        inactive_rejection: 1,
        suspended: 1,
        resumed: 1,
        purged: 1,
    };
    assert!(complete.complete());
    for index in 0..6 {
        let mut mutated = complete;
        match index {
            0 => mutated.full_rejection = 0,
            1 => mutated.forced_replacement = 0,
            2 => mutated.inactive_rejection = 0,
            3 => mutated.suspended = 0,
            4 => mutated.resumed = 0,
            _ => mutated.purged = 0,
        }
        assert!(!mutated.complete());
    }
}

#[test]
fn packet_queue_matches_bounded_reference_model() {
    for seed in 0..64 {
        let actions = deterministic_queue_actions(seed, 2_000);
        assert!(queue_trace_matches(&actions, true));
    }
}

#[test]
fn a_queue_ends_with_its_last_sender_or_its_receiver() {
    let mut queue = packet_channel(2, true);
    queue.add_sender();
    assert_eq!(queue.sender_count(), 2);
    assert!(!queue.remove_sender());
    assert!(queue.try_send(vec![9]).is_ok());
    assert!(queue.remove_sender());
    assert!(queue.has_queued_packet());
    assert!(!queue.is_closed());
    assert_eq!(queue.try_recv(), Some(vec![9]));
    assert!(queue.is_closed());

    let mut dropped = packet_channel(0, true);
    assert!(dropped.try_send(vec![1]).is_ok());
    assert_eq!(dropped.try_send(vec![2]), Err(vec![2]));
    assert!(dropped.deposit(vec![3]).is_ok());
    dropped.close_receiver();
    assert_eq!(dropped.len(), 0);
    assert_eq!(dropped.force_send(vec![4]), Err(vec![4]));
    assert_eq!(dropped.deposit(vec![5]), Err(vec![5]));
}

#[test]
fn a_queue_starts_as_it_was_asked_to() {
    let mut queue = packet_channel(2, false);
    assert_eq!(queue.try_send(vec![1]), Err(vec![1]));
    queue.resume();
    assert!(queue.try_send(vec![2]).is_ok());
    assert_eq!(queue.try_recv(), Some(vec![2]));
}

#[test]
fn batches_hold_one_class_and_give_way() {
    let mut batch = SendBatch::new(PacketClass::Medium, 3);
    assert!(batch.wants_more(false));
    assert!(!batch.wants_more(true));
    assert!(batch.offer(PacketClass::Medium));
    assert!(!batch.offer(PacketClass::Bulk));
    assert!(batch.wants_more(false));
    assert!(batch.offer(PacketClass::Medium));
    assert!(!batch.wants_more(false));
}

#[test]
fn returns_start_anew_with_another_device() {
    let mut dispatcher = Dispatcher::new(Lanes::new(2, 2, 2, false));
    dispatcher.return_packet(PacketClass::Small, vec![1]);
    assert_eq!(dispatcher.next_return_packet(), None);
    dispatcher.resume_returns();
    dispatcher.return_packet(PacketClass::Small, vec![2]);
    assert!(dispatcher.more_urgent_return_waits(PacketClass::Bulk));
    dispatcher.resume_returns();
    assert!(!dispatcher.more_urgent_return_waits(PacketClass::Bulk));
    assert_eq!(dispatcher.next_return_packet(), None);
}

#[test]
fn turns_of_a_class_do_not_depend_on_the_other_classes() {
    let classes = [PacketClass::Small, PacketClass::Medium, PacketClass::Bulk];
    let chunks = [4usize, 16, 32];
    let workers = 3usize;
    let mut scheduler = FastPathScheduler::new();
    let mut counts = [0usize; 3];
    let mut shares = [[0usize; 3]; 3];
    let mut state: u64 = 7;
    while counts[0] < workers * 4 * 5 || counts[1] < workers * 16 || counts[2] < workers * 32 {
        state = state.wrapping_mul(6_364_136_223_846_793_005).wrapping_add(1);
        let at = (state >> 33) as usize % 3;
        if counts[at] == workers * chunks[at] * if at == 0 { 5 } else { 1 } {
            continue;
        }
        let ticket = scheduler.begin_for_class(workers, classes[at]).unwrap();
        assert_eq!(ticket.class, classes[at]);
        assert_eq!(ticket.start_slot, counts[at] / chunks[at] % workers);
        shares[at][ticket.start_slot] += 1;
        counts[at] += 1;
    }
    assert_eq!(shares, [[20; 3], [16; 3], [32; 3]]);
}
