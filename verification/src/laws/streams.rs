//! How the streams of a device are watched over.
use crate::bytes;
use crate::control;
use crate::epoch::IdentityView;
use crate::stream;
use crate::stream::{ActionView, InventoryView, RepairLogView, RoundView, SourceView};
use vstd::prelude::*;

verus! {

/// A session runs a stream of a device and key: it has a route, and its worker is one of the
/// streams that it wants, of which there are 126 at most.
pub open spec fn runs(source: SourceView, identity: IdentityView) -> bool {
    &&& source.registered
    &&& 1 <= source.worker_id
    &&& source.worker_id <= source.desired_count
    &&& source.desired_count <= 126
    &&& source.identity == identity
}

/// The slots of the sessions that run a stream of a device and key, in their order.
pub open spec fn slots_running(sources: Seq<SourceView>, identity: IdentityView) -> Seq<usize>
    decreases sources.len(),
{
    if sources.len() == 0 {
        Seq::empty()
    } else {
        let before = slots_running(sources.drop_last(), identity);
        if runs(sources.last(), identity) {
            before.push(sources.last().slot)
        } else {
            before
        }
    }
}

/// Stock is taken of a device and key where a session runs a stream of it. The streams that are
/// up are those that some session runs.
pub proof fn streams_are_counted(
    sources: Seq<SourceView>,
    identity: IdentityView,
    worker: int,
)
    ensures
        stream::inventories(sources).contains_key(identity) <==> exists|i: int|
            0 <= i < sources.len() && runs(#[trigger] sources[i], identity),
        stream::inventories(sources).contains_key(identity) ==> (stream::inventories(
            sources,
        )[identity].present.contains(worker) <==> exists|i: int|
            0 <= i < sources.len() && runs(#[trigger] sources[i], identity)
                && sources[i].worker_id == worker),
{
    if stream::inventories(sources).contains_key(identity) {
        let i = choose|i: int|
            0 <= i < sources.len() && #[trigger] sources[i].streams() && sources[i].identity
                == identity;
        assert(runs(sources[i], identity));
    }
    if exists|i: int| 0 <= i < sources.len() && runs(#[trigger] sources[i], identity) {
        let i = choose|i: int| 0 <= i < sources.len() && runs(#[trigger] sources[i], identity);
        assert(sources[i].streams() && sources[i].identity == identity);
    }
    lemma_present(sources, identity, worker);
}

proof fn lemma_present(sources: Seq<SourceView>, identity: IdentityView, worker: int)
    ensures
        stream::inventory_of(sources, identity).present.contains(worker) <==> exists|i: int|
            0 <= i < sources.len() && runs(#[trigger] sources[i], identity)
                && sources[i].worker_id == worker,
    decreases sources.len(),
{
    if sources.len() > 0 {
        let rest = sources.drop_last();
        let last = sources.len() - 1;
        lemma_present(rest, identity, worker);
        assert(sources.last() == sources[last]);
        if stream::inventory_of(rest, identity).present.contains(worker) {
            let i = choose|i: int|
                0 <= i < rest.len() && runs(#[trigger] rest[i], identity) && rest[i].worker_id
                    == worker;
            assert(runs(sources[i], identity) && sources[i].worker_id == worker);
        }
        if exists|i: int|
            0 <= i < sources.len() && runs(#[trigger] sources[i], identity)
                && sources[i].worker_id == worker {
            let i = choose|i: int|
                0 <= i < sources.len() && runs(#[trigger] sources[i], identity)
                    && sources[i].worker_id == worker;
            if i < last {
                assert(runs(rest[i], identity) && rest[i].worker_id == worker);
            }
        }
    }
}

/// How many streams there should be, the latest session says: the one with the highest number,
/// and of several the last. Messages about the streams go over the first three sessions.
pub proof fn the_latest_session_decides(
    sources: Seq<SourceView>,
    identity: IdentityView,
    latest: int,
)
    requires
        0 <= latest < sources.len(),
        runs(sources[latest], identity),
        forall|i: int|
            0 <= i < sources.len() && runs(#[trigger] sources[i], identity)
                ==> sources[i].session_id < sources[latest].session_id || (sources[i].session_id
                == sources[latest].session_id && i <= latest),
    ensures
        ({
            let streams = stream::inventories(sources)[identity];
            let slots = slots_running(sources, identity);
            &&& stream::inventories(sources).contains_key(identity)
            &&& streams.desired_count == sources[latest].desired_count
            &&& streams.desired_session_id == sources[latest].session_id
            &&& streams.seen
            &&& streams.carriers == if slots.len() <= 3 {
                slots
            } else {
                slots.take(3)
            }
        }),
{
    assert(sources[latest].streams() && sources[latest].identity == identity);
    lemma_latest(sources, identity, latest);
    lemma_carriers(sources, identity);
}

proof fn lemma_latest(sources: Seq<SourceView>, identity: IdentityView, latest: int)
    requires
        0 <= latest < sources.len(),
        runs(sources[latest], identity),
        forall|i: int|
            0 <= i < sources.len() && runs(#[trigger] sources[i], identity)
                ==> sources[i].session_id < sources[latest].session_id || (sources[i].session_id
                == sources[latest].session_id && i <= latest),
    ensures
        ({
            let streams = stream::inventory_of(sources, identity);
            &&& streams.desired_count == sources[latest].desired_count
            &&& streams.desired_session_id == sources[latest].session_id
            &&& streams.seen
        }),
    decreases sources.len(),
{
    let rest = sources.drop_last();
    let last = sources.len() - 1;
    assert(sources.last() == sources[last]);
    if latest < last {
        assert(rest[latest] == sources[latest]);
        assert forall|i: int| 0 <= i < rest.len() && runs(
            #[trigger] rest[i],
            identity,
        ) implies rest[i].session_id < rest[latest].session_id || (rest[i].session_id
            == rest[latest].session_id && i <= latest) by {
            assert(runs(sources[i], identity));
        }
        lemma_latest(rest, identity, latest);
    } else {
        lemma_bound(rest, identity, sources[latest].session_id);
    }
}

proof fn lemma_bound(sources: Seq<SourceView>, identity: IdentityView, bound: u64)
    requires
        forall|i: int|
            0 <= i < sources.len() && runs(#[trigger] sources[i], identity)
                ==> sources[i].session_id <= bound,
    ensures
        stream::inventory_of(sources, identity).desired_session_id <= bound,
    decreases sources.len(),
{
    if sources.len() > 0 {
        let rest = sources.drop_last();
        assert forall|i: int| 0 <= i < rest.len() && runs(
            #[trigger] rest[i],
            identity,
        ) implies rest[i].session_id <= bound by {
            assert(runs(sources[i], identity));
        }
        lemma_bound(rest, identity, bound);
        assert(sources.last() == sources[sources.len() - 1]);
        if runs(sources.last(), identity) {
            assert(runs(sources[sources.len() - 1], identity));
        }
    }
}

proof fn lemma_carriers(sources: Seq<SourceView>, identity: IdentityView)
    ensures
        ({
            let slots = slots_running(sources, identity);
            stream::inventory_of(sources, identity).carriers == if slots.len() <= 3 {
                slots
            } else {
                slots.take(3)
            }
        }),
    decreases sources.len(),
{
    if sources.len() > 0 {
        let rest = sources.drop_last();
        lemma_carriers(rest, identity);
        let before = slots_running(rest, identity);
        let slots = slots_running(sources, identity);
        assert(sources.last().streams() && sources.last().identity == identity <==> runs(
            sources.last(),
            identity,
        ));
        if runs(sources.last(), identity) && before.len() >= 3 {
            assert(slots.take(3) =~= before.take(3));
            assert(before.take(3).len() == 3);
        }
        if before.len() == 3 {
            assert(before.take(3) =~= before);
        }
    } else {
        assert(slots_running(sources, identity) =~= Seq::<usize>::empty());
    }
}

/// The streams that are missing are those from 1 to the number wanted, 126 at most, that are not
/// up, in ascending order and each once.
pub proof fn missing_streams_are_listed(streams: InventoryView, worker: u16, i: int, j: int)
    ensures
        ({
            let wanted = if streams.desired_count > 126 {
                126
            } else {
                streams.desired_count as int
            };
            &&& streams.missing().contains(worker) <==> 1 <= worker <= wanted
                && !streams.present.contains(worker as int)
            &&& 0 <= i < j < streams.missing().len() ==> streams.missing()[i]
                < streams.missing()[j]
        }),
{
    stream::missing_workers_are_the_absent_ones(streams, streams.wanted(), worker);
    lemma_missing_ascends(streams, streams.wanted(), i, j);
}

proof fn lemma_missing_ascends(streams: InventoryView, upto: nat, i: int, j: int)
    requires
        upto <= 126,
    ensures
        0 <= i < j < streams.missing_upto(upto).len() ==> streams.missing_upto(upto)[i]
            < streams.missing_upto(upto)[j],
        0 <= j < streams.missing_upto(upto).len() ==> streams.missing_upto(upto)[j] <= upto,
        0 <= i < streams.missing_upto(upto).len() ==> streams.missing_upto(upto)[i] <= upto,
    decreases upto,
{
    if upto > 0 {
        lemma_missing_ascends(streams, (upto - 1) as nat, i, j);
    }
}

/// The number that `count` bytes stand for, the most significant first.
pub open spec fn number_at(data: Seq<u8>, at: int, count: nat) -> int
    decreases count,
{
    if count == 0 {
        0
    } else {
        number_at(data, at, (count - 1) as nat) * 256 + data[at + count - 1]
    }
}

/// A stream message holds, behind its mark, its number in eight bytes, the number of streams in
/// two, how many workers it lists, 255 at most, in one, and those workers in two bytes each.
pub proof fn messages_are_laid_out(
    mark: Seq<u8>,
    sequence: u64,
    desired_count: u16,
    workers: Seq<u16>,
    i: int,
)
    ensures
        ({
            let message = control::stream_message(mark, sequence, desired_count, workers);
            let at = mark.len() as int;
            let listed = if workers.len() <= 255 {
                workers.len() as int
            } else {
                255
            };
            &&& message.len() == at + 11 + 2 * listed
            &&& message.take(at) == mark
            &&& number_at(message, at, 8) == sequence
            &&& number_at(message, at + 8, 2) == desired_count
            &&& message[at + 10] == listed
            &&& 0 <= i < listed ==> number_at(message, at + 11 + 2 * i, 2) == workers[i]
        }),
{
    let message = control::stream_message(mark, sequence, desired_count, workers);
    let at = mark.len() as int;
    let listed = control::listed(workers.len()) as int;
    let shown = workers.subrange(0, listed);
    let tail = control::id_bytes(shown);
    let head = mark + bytes::u64_be(sequence) + bytes::u16_be(desired_count) + seq![listed as u8];
    assert(message == head + tail);
    assert(head.len() == at + 11);
    assert(message.take(at) =~= mark);
    let number = bytes::u64_be(sequence);
    assert forall|k: int| 0 <= k < 8 implies message[at + k] == number[k] by {
        assert(message[at + k] == head[at + k]);
    }
    let high = (sequence / 0x1_0000_0000) as u32;
    let low = (sequence % 0x1_0000_0000) as u32;
    assert(number =~= bytes::u32_be(high) + bytes::u32_be(low));
    lemma_four(message, at, high);
    lemma_four(message, at + 4, low);
    reveal_with_fuel(number_at, 9);
    assert(number_at(message, at, 8) == high * 0x1_0000_0000 + low);
    assert(message[at + 8] == bytes::u16_be(desired_count)[0]);
    assert(message[at + 9] == bytes::u16_be(desired_count)[1]);
    if 0 <= i < listed {
        assert((2 * i) / 2 == i && (2 * i) % 2 == 0 && (2 * i + 1) / 2 == i && (2 * i + 1) % 2
            == 1);
        assert(tail[2 * i] == bytes::u16_be(shown[i])[0]);
        assert(tail[2 * i + 1] == bytes::u16_be(shown[i])[1]);
        assert(message[at + 11 + 2 * i] == tail[2 * i]);
        assert(message[at + 12 + 2 * i] == tail[2 * i + 1]);
    }
}

/// Four bytes of a number stand for it.
proof fn lemma_four(data: Seq<u8>, at: int, value: u32)
    requires
        data[at] == bytes::u32_be(value)[0],
        data[at + 1] == bytes::u32_be(value)[1],
        data[at + 2] == bytes::u32_be(value)[2],
        data[at + 3] == bytes::u32_be(value)[3],
    ensures
        ((data[at] * 256 + data[at + 1]) * 256 + data[at + 2]) * 256 + data[at + 3] == value,
{
}

/// The number after another; after the highest comes 1.
pub open spec fn next_number(number: u64) -> int {
    if number == 0xffff_ffff_ffff_ffff {
        1
    } else {
        number + 1
    }
}

/// Streams that go missing, or others than before, start a new count: nothing is asked for now,
/// and nothing that came back is announced any more. The number of the request is the next.
pub proof fn new_losses_are_given_time(
    round: RoundView,
    missing: Seq<u16>,
    desired_count: u16,
    now_ms: u64,
)
    requires
        missing != round.last_missing,
    ensures
        ({
            let after = round.after_missing(missing, now_ms);
            &&& round.repair_message(missing, desired_count, now_ms) is None
            &&& after.sequence == next_number(round.sequence)
            &&& after.last_missing == missing
            &&& after.first_missing_ms == now_ms
            &&& after.last_sent_ms == 0
            &&& after.alive_ids.len() == 0
            &&& after.alive_sent == 0
            &&& after.alive_sent_ms == round.alive_sent_ms
            &&& after.alive_desired_count == round.alive_desired_count
            &&& after.last_seen_ms == round.last_seen_ms
        }),
{
}

/// Streams that are still missing are asked for after half a minute, and then every minute,
/// each time under the next number; else nothing is sent and nothing changes.
pub proof fn lasting_losses_are_repaired(
    round: RoundView,
    missing: Seq<u16>,
    desired_count: u16,
    now_ms: u64,
)
    requires
        missing == round.last_missing,
        round.first_missing_ms <= now_ms,
        round.last_sent_ms <= now_ms,
    ensures
        ({
            let due = now_ms - round.first_missing_ms >= 30_000 && (round.last_sent_ms == 0
                || now_ms - round.last_sent_ms >= 60_000);
            let number = if round.last_sent_ms == 0 {
                round.sequence as int
            } else {
                next_number(round.sequence)
            };
            let after = round.after_missing(missing, now_ms);
            &&& due ==> round.repair_message(missing, desired_count, now_ms) == Some(
                control::stream_message(
                    control::STREAM_REPAIR_PREFIX@,
                    number as u64,
                    desired_count,
                    missing,
                ),
            )
            &&& due ==> after == (RoundView {
                sequence: number as u64,
                last_sent_ms: now_ms,
                ..round
            })
            &&& !due ==> round.repair_message(missing, desired_count, now_ms) is None && after
                == round
        }),
{
}

/// A round starts with nothing missing, nothing sent and nothing to be announced.
pub proof fn rounds_start_from_nothing(now_ms: u64)
    ensures
        RoundView::fresh() == (RoundView {
            sequence: 0,
            last_missing: Seq::empty(),
            first_missing_ms: 0,
            last_sent_ms: 0,
            alive_ids: Seq::empty(),
            alive_desired_count: 0,
            alive_sent_ms: 0,
            alive_sent: 0,
            last_seen_ms: 0,
        }),
        RoundView::fresh().alive_message(now_ms) is None,
        !RoundView::fresh().is_active(),
{
}

/// Once nothing is missing any more, what was is to be announced as back, from now on.
pub proof fn recoveries_are_noted(round: RoundView, desired_count: u16, now_ms: u64)
    ensures
        round.last_missing.len() == 0 ==> round.recovering(desired_count, now_ms) == round,
        round.last_missing.len() > 0 ==> round.recovering(desired_count, now_ms) == (RoundView {
            last_missing: Seq::empty(),
            first_missing_ms: now_ms,
            last_sent_ms: 0,
            alive_ids: round.last_missing,
            alive_desired_count: desired_count,
            alive_sent_ms: 0,
            alive_sent: 0,
            ..round
        }),
{
}

/// What came back is announced twice, ten seconds apart or more, under the number of the
/// request.
pub proof fn recoveries_are_announced_twice(round: RoundView, now_ms: u64)
    requires
        round.alive_sent_ms <= now_ms,
    ensures
        ({
            let due = round.alive_ids.len() > 0 && round.alive_sent < 2 && (round.alive_sent_ms == 0
                || now_ms - round.alive_sent_ms >= 10_000);
            &&& due ==> round.alive_message(now_ms) == Some(
                control::stream_message(
                    control::STREAM_ALIVE_PREFIX@,
                    round.sequence,
                    round.alive_desired_count,
                    round.alive_ids,
                ),
            )
            &&& due ==> round.announcing(now_ms) == (RoundView {
                alive_sent: (round.alive_sent + 1) as u8,
                alive_sent_ms: now_ms,
                ..round
            })
            &&& !due ==> round.alive_message(now_ms) is None && round.announcing(now_ms) == round
        }),
{
}

/// The marks of the two messages: 0xff, and `CSQTT_STREAM_REPAIR_V1` or `CSQTT_STREAM_ALIVE_V1`.
pub proof fn messages_are_marked()
    ensures
        control::STREAM_REPAIR_PREFIX@ == seq![
            0xffu8,
            0x43u8,
            0x53u8,
            0x51u8,
            0x54u8,
            0x54u8,
            0x5fu8,
            0x53u8,
            0x54u8,
            0x52u8,
            0x45u8,
            0x41u8,
            0x4du8,
            0x5fu8,
            0x52u8,
            0x45u8,
            0x50u8,
            0x41u8,
            0x49u8,
            0x52u8,
            0x5fu8,
            0x56u8,
            0x31u8,
        ],
        control::STREAM_ALIVE_PREFIX@ == seq![
            0xffu8,
            0x43u8,
            0x53u8,
            0x51u8,
            0x54u8,
            0x54u8,
            0x5fu8,
            0x53u8,
            0x54u8,
            0x52u8,
            0x45u8,
            0x41u8,
            0x4du8,
            0x5fu8,
            0x41u8,
            0x4cu8,
            0x49u8,
            0x56u8,
            0x45u8,
            0x5fu8,
            0x56u8,
            0x31u8,
        ],
{
    assert(control::STREAM_REPAIR_PREFIX@ =~= seq![
        0xffu8,
        0x43u8,
        0x53u8,
        0x51u8,
        0x54u8,
        0x54u8,
        0x5fu8,
        0x53u8,
        0x54u8,
        0x52u8,
        0x45u8,
        0x41u8,
        0x4du8,
        0x5fu8,
        0x52u8,
        0x45u8,
        0x50u8,
        0x41u8,
        0x49u8,
        0x52u8,
        0x5fu8,
        0x56u8,
        0x31u8,
    ]);
    assert(control::STREAM_ALIVE_PREFIX@ =~= seq![
        0xffu8,
        0x43u8,
        0x53u8,
        0x51u8,
        0x54u8,
        0x54u8,
        0x5fu8,
        0x53u8,
        0x54u8,
        0x52u8,
        0x45u8,
        0x41u8,
        0x4du8,
        0x5fu8,
        0x41u8,
        0x4cu8,
        0x49u8,
        0x56u8,
        0x45u8,
        0x5fu8,
        0x56u8,
        0x31u8,
    ]);
}

/// When a round moves on, it takes note of what is missing now, or that nothing is. The
/// message that is due, if one is, goes over the carriers of the device; a request for a
/// repair is logged with what it asks for.
pub proof fn rounds_move_on(
    identity: IdentityView,
    round: RoundView,
    streams: InventoryView,
    now_ms: u64,
)
    ensures
        ({
            let seen = RoundView { last_seen_ms: now_ms, ..round };
            let missing = streams.missing();
            let back = seen.recovering(streams.desired_count, now_ms);
            let action = stream::round_action(identity, round, streams, now_ms);
            &&& missing.len() > 0 ==> {
                &&& stream::round_step(round, streams, now_ms) == seen.after_missing(
                    missing,
                    now_ms,
                )
                &&& seen.repair_message(missing, streams.desired_count, now_ms) is None
                    ==> action is None
                &&& seen.repair_message(missing, streams.desired_count, now_ms) matches Some(
                    payload,
                ) ==> action == Some(
                    ActionView {
                        carriers: streams.carriers,
                        payload,
                        repair: Some(
                            RepairLogView {
                                device_id: identity.device_id,
                                generation_id: identity.generation_id,
                                desired_count: streams.desired_count,
                                sequence: seen.after_missing(missing, now_ms).sequence,
                                missing,
                            },
                        ),
                    },
                )
            }
            &&& missing.len() == 0 ==> {
                &&& stream::round_step(round, streams, now_ms) == back.announcing(now_ms)
                &&& back.alive_message(now_ms) is None ==> action is None
                &&& back.alive_message(now_ms) matches Some(payload) ==> action == Some(
                    ActionView { carriers: streams.carriers, payload, repair: None },
                )
            }
        }),
{
}

/// Whatever is due for a device of the inventory is planned, and nothing else is.
pub proof fn due_messages_are_planned(
    keys: Seq<IdentityView>,
    inventory: Map<IdentityView, InventoryView>,
    repairs: Map<IdentityView, RoundView>,
    now_ms: u64,
    action: ActionView,
)
    ensures
        stream::planned_actions(keys, inventory, repairs, now_ms).contains(action) <==> exists|
            k: int,
        |
            0 <= k < keys.len() && stream::round_action(
                #[trigger] keys[k],
                if repairs.contains_key(keys[k]) {
                    repairs[keys[k]]
                } else {
                    RoundView::fresh()
                },
                inventory[keys[k]],
                now_ms,
            ) == Some(action),
        stream::planned_actions(keys, inventory, repairs, now_ms).len() <= keys.len(),
    decreases keys.len(),
{
    if keys.len() > 0 {
        let rest = keys.drop_last();
        let last = keys.len() - 1;
        due_messages_are_planned(rest, inventory, repairs, now_ms, action);
        let some = stream::planned_actions(rest, inventory, repairs, now_ms);
        let all = stream::planned_actions(keys, inventory, repairs, now_ms);
        assert(keys.last() == keys[last]);
        if some.contains(action) {
            let i = choose|i: int| 0 <= i < some.len() && some[i] == action;
            assert(all[i] == action);
            let k = choose|k: int|
                0 <= k < rest.len() && stream::round_action(
                    #[trigger] rest[k],
                    stream::round_of(repairs, rest[k]),
                    inventory[rest[k]],
                    now_ms,
                ) == Some(action);
            assert(keys[k] == rest[k]);
        }
        if all.contains(action) && !some.contains(action) {
            let i = choose|i: int| 0 <= i < all.len() && all[i] == action;
            if i < some.len() {
                assert(some[i] == action);
            }
            assert(stream::round_action(
                keys[last],
                stream::round_of(repairs, keys[last]),
                inventory[keys[last]],
                now_ms,
            ) == Some(action));
        }
        if exists|k: int|
            0 <= k < keys.len() && stream::round_action(
                #[trigger] keys[k],
                stream::round_of(repairs, keys[k]),
                inventory[keys[k]],
                now_ms,
            ) == Some(action) {
            let k = choose|k: int|
                0 <= k < keys.len() && stream::round_action(
                    #[trigger] keys[k],
                    stream::round_of(repairs, keys[k]),
                    inventory[keys[k]],
                    now_ms,
                ) == Some(action);
            if k < last {
                assert(rest[k] == keys[k]);
            } else {
                assert(all[all.len() - 1] == action);
            }
        }
    }
}

/// A round is forgotten once its device has had no session for a minute while something was
/// missing or to be announced.
pub proof fn rounds_are_kept_for_a_while(
    inventory: Map<IdentityView, InventoryView>,
    id: IdentityView,
    round: RoundView,
    now_ms: u64,
)
    ensures
        !stream::round_kept(inventory, id, round, now_ms) <==> !inventory.contains_key(id) && (
        round.last_missing.len() > 0 || (round.alive_ids.len() > 0 && round.alive_sent < 2))
            && now_ms >= round.last_seen_ms + 60_000,
{
}

} // verus!
