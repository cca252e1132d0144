//! What the control side knows of the sessions, and what it does as events come in.
use crate::admission;
use crate::credentials;
use crate::desk;
use crate::desk::{DeskView, JobView, LogView};
use crate::effect::{
    CommandView, EventView, IoCounters, ProtocolCommand, SeedView, UpdateView,
};
use crate::endpoint::PeerAddress;
use crate::laws::admission::{drop_order, is_farewell, stop_order};
use crate::model::{DatabaseView, PasswordView};
use crate::perf::StreamDebugMetrics;
use crate::registry;
use crate::registry::{DirectiveView, PublicView, RegistryView, UpdateOutcome};
use crate::session::{CounterReport, HotDebug};
use crate::stream::RepairLogView;
use vstd::prelude::*;
use vstd::utf8::*;

verus! {

/// A session is entered as it was announced: with its number, address, password, device and
/// key, seen when it was made, without a worker or a tunnel, and having carried nothing.
pub proof fn sessions_are_entered_as_announced(seed: SeedView)
    ensures
        PublicView::from_seed(seed) == (PublicView {
            id: seed.id,
            address: seed.address,
            password: seed.password,
            device_id: seed.device_id,
            generation_id: seed.generation_id,
            session_salt: seed.session_salt,
            worker_id: 0xffff_ffff_ffff_ffff,
            desired_stream_count: 0,
            tunnel_ip: None,
            last_seen: seed.created_at,
            up_bytes: 0,
            down_bytes: 0,
            created_at: seed.created_at,
            is_srtp: seed.is_srtp,
            handshake_done: true,
            has_tunnel: false,
            stream_debug: seed.stream_debug,
        }),
{
}

/// What a session reports is added to what it carried and to what all carried, as long as the
/// counters can hold it, and the session was seen when it says. No other session changes.
pub proof fn reports_are_added(
    registry: RegistryView,
    report: CounterReport,
    watched: bool,
    other: u64,
)
    requires
        forall|id: u64| #[trigger]
            registry.sessions.contains_key(id) ==> registry.sessions[id].id == id,
        registry.up_total + report.up_delta <= u64::MAX,
        registry.down_total + report.down_delta <= u64::MAX,
        registry.sessions[report.session_id].up_bytes + report.up_delta <= u64::MAX,
        registry.sessions[report.session_id].down_bytes + report.down_delta <= u64::MAX,
        other != report.session_id,
    ensures
        ({
            let id = report.session_id;
            let after = registry.updated(UpdateView::Counters(report), watched);
            let was = registry.sessions[id];
            let is = after.sessions[id];
            &&& after.up_total == registry.up_total + report.up_delta
            &&& after.down_total == registry.down_total + report.down_delta
            &&& after.total_connections == registry.total_connections
            &&& after.sessions.contains_key(id) <==> registry.sessions.contains_key(id)
            &&& registry.sessions.contains_key(id) ==> {
                &&& is.up_bytes == was.up_bytes + report.up_delta
                &&& is.down_bytes == was.down_bytes + report.down_delta
                &&& is.last_seen == report.last_seen
                &&& is == (PublicView {
                    up_bytes: is.up_bytes,
                    down_bytes: is.down_bytes,
                    last_seen: is.last_seen,
                    stream_debug: is.stream_debug,
                    ..was
                })
                &&& !(report.publish_debug && watched) ==> is.stream_debug == was.stream_debug
                &&& report.publish_debug && watched ==> {
                    &&& is.stream_debug.generation == was.stream_debug.generation
                    &&& is.stream_debug.started_at == was.stream_debug.started_at
                    &&& report.debug.generation == was.stream_debug.generation ==> {
                        &&& is.stream_debug.up_bytes == report.debug.up_bytes
                        &&& is.stream_debug.down_bytes == report.debug.down_bytes
                        &&& is.stream_debug.up_packets == report.debug.up_packets
                        &&& is.stream_debug.down_packets == report.debug.down_packets
                    }
                    &&& report.debug.generation != was.stream_debug.generation ==> {
                        &&& is.stream_debug.up_bytes == 0
                        &&& is.stream_debug.down_bytes == 0
                        &&& is.stream_debug.up_packets == 0
                        &&& is.stream_debug.down_packets == 0
                    }
                }
            }
            &&& after.sessions.contains_key(other) <==> registry.sessions.contains_key(other)
            &&& registry.sessions.contains_key(other) ==> after.sessions[other]
                == registry.sessions[other]
            &&& registry.outcome(UpdateView::Counters(report)) == if registry.sessions.contains_key(
                id,
            ) && report.debug.generation != was.stream_debug.generation {
                UpdateOutcome::Resync { session_id: id, generation: was.stream_debug.generation }
            } else {
                UpdateOutcome::Nothing
            }
        }),
{
}

/// Other changes that the engines make known are taken over: the tunnel of a session with the
/// number of streams, its device and key, whether it has a tunnel. When a session is called
/// off, what runs for it is to be stopped.
pub proof fn changes_are_taken_over(
    registry: RegistryView,
    session_id: u64,
    ip: [u8; 4],
    desired_count: u16,
    device_id: Seq<char>,
    generation_id: u64,
    session_salt: Seq<char>,
    has_tunnel: bool,
    watched: bool,
)
    requires
        forall|id: u64| #[trigger]
            registry.sessions.contains_key(id) ==> registry.sessions[id].id == id,
    ensures
        ({
            let tunnel = UpdateView::Tunnel { session_id, ip, desired_count };
            let key = UpdateView::Epoch { session_id, device_id, generation_id, session_salt };
            let state = UpdateView::HasTunnel { session_id, has_tunnel };
            let off = UpdateView::Cancel { session_id };
            let was = registry.sessions[session_id];
            &&& registry.sessions.contains_key(session_id) ==> {
                &&& registry.updated(tunnel, watched) == (RegistryView {
                    sessions: registry.sessions.insert(
                        session_id,
                        PublicView {
                            tunnel_ip: Some(ip),
                            desired_stream_count: desired_count as u64,
                            has_tunnel: true,
                            ..was
                        },
                    ),
                    ..registry
                })
                &&& registry.updated(key, watched) == (RegistryView {
                    sessions: registry.sessions.insert(
                        session_id,
                        PublicView { device_id, generation_id, session_salt, ..was },
                    ),
                    ..registry
                })
                &&& registry.updated(state, watched) == (RegistryView {
                    sessions: registry.sessions.insert(session_id, PublicView { has_tunnel, ..was }),
                    ..registry
                })
            }
            &&& !registry.sessions.contains_key(session_id) ==> {
                &&& registry.updated(tunnel, watched) == registry
                &&& registry.updated(key, watched) == registry
                &&& registry.updated(state, watched) == registry
            }
            &&& registry.updated(off, watched) == registry
            &&& registry.outcome(off) == (UpdateOutcome::Cancel { session_id })
            &&& registry.outcome(tunnel) == UpdateOutcome::Nothing
            &&& registry.outcome(key) == UpdateOutcome::Nothing
            &&& registry.outcome(state) == UpdateOutcome::Nothing
        }),
{
    let off = UpdateView::Cancel { session_id };
    if registry.sessions.contains_key(session_id) {
        assert(registry.sessions[session_id].id == session_id);
        assert(registry.updated(off, watched).sessions =~= registry.sessions);
    }
}

/// The session was not seen for too long: half a minute, or two minutes where it has a tunnel.
pub open spec fn unseen_for_long(session: PublicView, wall_now: u64) -> bool {
    if session.has_tunnel {
        wall_now >= session.last_seen + 120
    } else {
        wall_now >= session.last_seen + 30
    }
}

/// Pruning takes out the sessions that were not seen for too long. Where more than 3328 are left
/// it takes out as many as there are too many, of those without a tunnel, the ones seen least
/// recently first; no other session is touched.
pub proof fn pruning_is_fair(registry: RegistryView, wall_now: u64, id: u64, other: u64)
    requires
        registry.sessions.dom().finite(),
    ensures
        ({
            let after = registry.pruned(wall_now);
            let left = registry.sessions.dom().filter(
                |i: u64| !unseen_for_long(registry.sessions[i], wall_now),
            );
            let evicted = left.contains(id) && !after.sessions.contains_key(id);
            &&& after.sessions.contains_key(id) ==> left.contains(id) && after.sessions[id]
                == registry.sessions[id]
            &&& evicted ==> left.len() > 3328 && !registry.sessions[id].has_tunnel
            &&& evicted && after.sessions.contains_key(other)
                && !registry.sessions[other].has_tunnel ==> registry.sessions[id].last_seen
                <= registry.sessions[other].last_seen
            &&& left.len() <= 3328 ==> after.sessions.dom() == left
            &&& left.len() > 3328 ==> after.sessions.dom().len() >= 3328
            &&& after.sessions.dom().len() > 3328 && after.sessions.contains_key(id)
                ==> registry.sessions[id].has_tunnel
            &&& after.total_connections == registry.total_connections
            &&& after.up_total == registry.up_total
            &&& after.down_total == registry.down_total
        }),
{
    let rest = registry.without_stale(wall_now);
    let left = registry.sessions.dom().filter(
        |i: u64| !unseen_for_long(registry.sessions[i], wall_now),
    );
    assert forall|i: u64| registry.sessions.contains_key(i) implies registry.sessions[i].is_stale(
        wall_now,
    ) == unseen_for_long(registry.sessions[i], wall_now) by {}
    assert(rest.sessions.dom() =~= left);
    registry::pruning_bounds_the_registry(registry, wall_now, id);
    lemma_evicted(rest, rest.overflow(), id, other);
    if left.len() <= 3328 {
        assert(registry.pruned(wall_now) == rest);
    }
    if registry.pruned(wall_now).sessions.contains_key(id) {
        assert(rest.sessions.contains_key(id));
    }
}

proof fn lemma_evicted(registry: RegistryView, count: nat, id: u64, other: u64)
    requires
        registry.sessions.dom().finite(),
    ensures
        ({
            let after = registry.evicted(count);
            let gone = registry.sessions.contains_key(id) && !after.sessions.contains_key(id);
            &&& after.sessions.contains_key(id) ==> registry.sessions.contains_key(id)
                && after.sessions[id] == registry.sessions[id]
            &&& gone ==> count > 0 && !registry.sessions[id].has_tunnel
            &&& gone && after.sessions.contains_key(other) && !registry.sessions[other].has_tunnel
                ==> registry.sessions[id].last_seen <= registry.sessions[other].last_seen
            &&& after.sessions.dom().finite()
            &&& after.sessions.dom().len() + count >= registry.sessions.dom().len()
            &&& after.total_connections == registry.total_connections
            &&& after.up_total == registry.up_total
            &&& after.down_total == registry.down_total
            &&& after.sessions.contains_key(other) ==> registry.sessions.contains_key(other)
                && after.sessions[other] == registry.sessions[other]
        }),
    decreases count,
{
    if count > 0 && registry.has_inactive() {
        registry::lemma_some_oldest(registry);
        let first = registry.oldest_inactive();
        let rest = registry.without_one(first);
        assert(rest.sessions.dom() =~= registry.sessions.dom().remove(first));
        lemma_evicted(rest, (count - 1) as nat, id, other);
    }
}

/// When the registry is pruned, the engines drop what was not seen for too long; and what runs
/// for a session is stopped if and only if it was taken out. Nothing else is done.
pub proof fn pruned_sessions_are_seen_off(
    registry: RegistryView,
    wall_now: u64,
    directives: Seq<DirectiveView>,
    id: u64,
)
    requires
        registry.sessions.dom().finite(),
        registry.prune_directives(wall_now, directives),
    ensures
        directives.contains(stop_order(id)) <==> registry.sessions.contains_key(id)
            && !registry.pruned(wall_now).sessions.contains_key(id),
        directives.contains(drop_order(id)) <==> registry.sessions.contains_key(id)
            && unseen_for_long(registry.sessions[id], wall_now),
        forall|k: int| 0 <= k < directives.len() ==> is_farewell(#[trigger] directives[k]),
{
    let rest = registry.without_stale(wall_now);
    let stale = registry.ids_where(|session: PublicView| session.is_stale(wall_now));
    let evicted = rest.evictions(rest.overflow());
    let order = choose|order: Seq<u64>|
        {
            &&& #[trigger] registry::lists_ids(order, stale)
            &&& directives == registry::drop_directives(order) + registry::cancel_directives(
                evicted,
            )
        };
    lemma_drop_list(order, id);
    assert(rest.sessions.dom() =~= registry.sessions.dom().difference(stale));
    lemma_evictions(rest, rest.overflow(), id);
    pruning_is_fair(registry, wall_now, id, id);
    let first = registry::drop_directives(order);
    let second = registry::cancel_directives(evicted);
    assert(order.to_set().contains(id) <==> order.contains(id));
    assert(registry.sessions.contains_key(id) ==> registry.sessions[id].is_stale(wall_now)
        == unseen_for_long(registry.sessions[id], wall_now));
    assert(stale.contains(id) <==> registry.sessions.contains_key(id) && unseen_for_long(
        registry.sessions[id],
        wall_now,
    ));
    if directives.contains(drop_order(id)) {
        let k = choose|k: int| 0 <= k < directives.len() && directives[k] == drop_order(id);
        if k >= first.len() {
            assert(directives[k] == second[k - first.len()]);
        } else {
            assert(first[k] == drop_order(id));
            assert(first.contains(drop_order(id)));
        }
    }
    if order.contains(id) {
        let i = choose|i: int| 0 <= i < first.len() && first[i] == drop_order(id);
        let j = choose|j: int| 0 <= j < first.len() && first[j] == stop_order(id);
        assert(directives[i] == drop_order(id));
        assert(directives[j] == stop_order(id));
    }
    if directives.contains(stop_order(id)) {
        let k = choose|k: int| 0 <= k < directives.len() && directives[k] == stop_order(id);
        if k >= first.len() {
            assert(second[k - first.len()] == stop_order(evicted[k - first.len()]));
            assert(evicted.contains(id));
        } else {
            assert(first[k] == stop_order(id));
            assert(first.contains(stop_order(id)));
        }
    }
    if evicted.contains(id) {
        let k = choose|k: int| 0 <= k < evicted.len() && evicted[k] == id;
        assert(directives[first.len() + k] == second[k]);
        assert(directives.contains(stop_order(id)));
    }
    assert forall|k: int| 0 <= k < directives.len() implies is_farewell(
        #[trigger] directives[k],
    ) by {
        if k < first.len() {
            assert(directives[k] == first[k]);
        } else {
            assert(directives[k] == second[k - first.len()]);
        }
    }
}

proof fn lemma_drop_list(order: Seq<u64>, id: u64)
    ensures
        ({
            let all = registry::drop_directives(order);
            &&& all.contains(drop_order(id)) <==> order.contains(id)
            &&& all.contains(stop_order(id)) <==> order.contains(id)
            &&& all.len() == 2 * order.len()
            &&& forall|k: int| 0 <= k < all.len() ==> is_farewell(#[trigger] all[k])
        }),
    decreases order.len(),
{
    if order.len() > 0 {
        let rest = order.drop_last();
        let last = order.last();
        lemma_drop_list(rest, id);
        let some = registry::drop_directives(rest);
        let all = registry::drop_directives(order);
        assert(all[all.len() - 2] == drop_order(last));
        assert(all[all.len() - 1] == stop_order(last));
        assert(order[order.len() - 1] == last);
        if rest.contains(id) {
            let k = choose|k: int| 0 <= k < rest.len() && rest[k] == id;
            assert(order[k] == id);
            let i = choose|i: int| 0 <= i < some.len() && some[i] == drop_order(id);
            let j = choose|j: int| 0 <= j < some.len() && some[j] == stop_order(id);
            assert(all[i] == drop_order(id));
            assert(all[j] == stop_order(id));
        }
        if order.contains(id) && !rest.contains(id) {
            let k = choose|k: int| 0 <= k < order.len() && order[k] == id;
            if k < rest.len() {
                assert(rest[k] == id);
            }
        }
        if all.contains(drop_order(id)) {
            let i = choose|i: int| 0 <= i < all.len() && all[i] == drop_order(id);
            if i < some.len() {
                assert(some[i] == drop_order(id));
                assert(some.contains(drop_order(id)));
            }
        }
        if all.contains(stop_order(id)) {
            let j = choose|j: int| 0 <= j < all.len() && all[j] == stop_order(id);
            if j < some.len() {
                assert(some[j] == stop_order(id));
                assert(some.contains(stop_order(id)));
            }
        }
        assert forall|k: int| 0 <= k < all.len() implies is_farewell(#[trigger] all[k]) by {
            if k < some.len() {
                assert(all[k] == some[k]);
            }
        }
    }
}

/// The sessions that are evicted are those that are not there afterwards.
proof fn lemma_evictions(registry: RegistryView, count: nat, id: u64)
    requires
        registry.sessions.dom().finite(),
    ensures
        registry.evictions(count).contains(id) <==> registry.sessions.contains_key(id)
            && !registry.evicted(count).sessions.contains_key(id),
    decreases count,
{
    if count > 0 && registry.has_inactive() {
        registry::lemma_some_oldest(registry);
        let first = registry.oldest_inactive();
        let rest = registry.without_one(first);
        assert(rest.sessions.dom() =~= registry.sessions.dom().remove(first));
        lemma_evictions(rest, (count - 1) as nat, id);
        lemma_evicted(rest, (count - 1) as nat, id, first);
        let all = registry.evictions(count);
        let others = rest.evictions((count - 1) as nat);
        assert(all == seq![first] + others);
        if others.contains(id) {
            let k = choose|k: int| 0 <= k < others.len() && others[k] == id;
            assert(all[k + 1] == id);
        }
        if all.contains(id) && id != first {
            let k = choose|k: int| 0 <= k < all.len() && all[k] == id;
            assert(others[k - 1] == id);
        }
        assert(all[0] == first);
    }
}

/// What runs for the sessions that are dropped is stopped, and the engines are told where they
/// do not know yet; that is done once for each of them, and for no other.
pub proof fn dropped_sessions_are_stopped(
    set: Set<u64>,
    announced: bool,
    directives: Seq<DirectiveView>,
    id: u64,
)
    requires
        registry::drops_in_some_order(set, announced, Seq::empty(), directives),
    ensures
        directives.contains(stop_order(id)) <==> set.contains(id),
        directives.contains(drop_order(id)) <==> announced && set.contains(id),
        directives.len() == set.len() * if announced {
            2nat
        } else {
            1
        },
        forall|k: int| 0 <= k < directives.len() ==> is_farewell(#[trigger] directives[k]),
{
    let order = choose|order: Seq<u64>|
        {
            &&& #[trigger] registry::lists_ids(order, set)
            &&& directives == (if announced {
                registry::drop_directives(order)
            } else {
                registry::cancel_directives(order)
            }) + Seq::<DirectiveView>::empty()
        };
    order.unique_seq_to_set();
    assert(order.to_set().contains(id) <==> order.contains(id));
    if announced {
        lemma_drop_list(order, id);
        assert(directives =~= registry::drop_directives(order));
    } else {
        assert(directives =~= registry::cancel_directives(order));
        if order.contains(id) {
            let k = choose|k: int| 0 <= k < order.len() && order[k] == id;
            assert(directives[k] == stop_order(id));
        }
        if directives.contains(stop_order(id)) {
            let k = choose|k: int| 0 <= k < directives.len() && directives[k] == stop_order(id);
            assert(order[k] == id);
        }
        if directives.contains(drop_order(id)) {
            let k = choose|k: int| 0 <= k < directives.len() && directives[k] == drop_order(id);
            assert(directives[k] == stop_order(order[k]));
        }
    }
}

/// The sessions that are picked out go, and no others.
pub proof fn sessions_are_picked_out(
    registry: RegistryView,
    chosen: spec_fn(PublicView) -> bool,
    id: u64,
)
    ensures
        registry.ids_where(chosen).contains(id) <==> registry.sessions.contains_key(id) && chosen(
            registry.sessions[id],
        ),
        registry.without(chosen).sessions.contains_key(id) <==> registry.sessions.contains_key(id)
            && !chosen(registry.sessions[id]),
        registry.without(chosen).sessions.contains_key(id) ==> registry.without(
            chosen,
        ).sessions[id] == registry.sessions[id],
        registry.without(chosen) == (RegistryView {
            sessions: registry.without(chosen).sessions,
            ..registry
        }),
{
}

/// Every session with a tunnel is sent its configuration anew, once, and no other session is
/// sent anything.
pub proof fn configurations_are_broadcast(
    registry: RegistryView,
    dns: Seq<char>,
    commands: Seq<ProtocolCommand>,
    id: u64,
    k: int,
)
    requires
        forall|i: u64| #[trigger]
            registry.sessions.contains_key(i) ==> registry.sessions[i].id == i,
        admission::sends_in_some_order(
            registry.sessions,
            registry.ids_where(|session: PublicView| session.tunnel_ip is Some),
            dns,
            commands,
        ),
    ensures
        registry.sessions.contains_key(id) && registry.sessions[id].tunnel_ip is Some ==> exists|
            j: int,
        |
            0 <= j < commands.len() && (#[trigger] commands[j])@ == (CommandView::SendPlain {
                session_id: id,
                payload: encode_utf8(
                    admission::hot_configuration(registry.sessions[id].tunnel_ip->0, dns),
                ),
            }),
        0 <= k < commands.len() ==> (commands[k]@ matches CommandView::SendPlain {
            session_id,
            payload,
        } && registry.sessions.contains_key(session_id)
            && registry.sessions[session_id].tunnel_ip is Some),
        forall|i: int, j: int|
            0 <= i < j < commands.len() ==> (#[trigger] commands[i])@ != (#[trigger] commands[j])@,
{
    let set = registry.ids_where(|session: PublicView| session.tunnel_ip is Some);
    let order = choose|order: Seq<u64>|
        {
            &&& #[trigger] registry::lists_ids(order, set)
            &&& commands.len() == order.len()
            &&& forall|i: int|
                0 <= i < order.len() ==> (#[trigger] commands[i])@ == admission::hot_command(
                    registry.sessions[order[i]],
                    dns,
                )
        };
    assert forall|i: int| 0 <= i < order.len() implies set.contains(#[trigger] order[i]) by {
        assert(order.to_set().contains(order[i]));
    }
    if set.contains(id) {
        assert(order.to_set().contains(id));
        let j = choose|j: int| 0 <= j < order.len() && order[j] == id;
        assert(commands[j]@ == admission::hot_command(registry.sessions[id], dns));
    }
    if 0 <= k < commands.len() {
        assert(set.contains(order[k]));
    }
    assert forall|i: int, j: int| 0 <= i < j < commands.len() implies (#[trigger] commands[i])@
        != (#[trigger] commands[j])@ by {
        assert(set.contains(order[i]) && set.contains(order[j]));
        assert(order[i] != order[j]);
    }
}

/// A session that is announced is entered as soon as there is room, once the registry was
/// pruned and the session that had its number is gone; that is logged, and what ran for the
/// old one is stopped. Where there is no room it is not entered.
pub proof fn announced_sessions_are_entered(
    before: DeskView,
    seed: SeedView,
    wall_now: u64,
    after: DeskView,
    directives: Seq<DirectiveView>,
    line: Option<LogView>,
    job: Option<JobView>,
    other: u64,
)
    requires
        before.registry.sessions.dom().finite(),
        before.registry.total_connections < u64::MAX,
        desk::follows(
            before,
            EventView::SessionCreated(seed),
            wall_now,
            after,
            directives,
            line,
            job,
        ),
        other != seed.id,
    ensures
        ({
            let pruned = before.registry.pruned(wall_now);
            let others = pruned.sessions.dom().remove(seed.id).len();
            &&& job is None
            &&& after.last_io == before.last_io
            &&& others < 3328 ==> {
                &&& after.registry.sessions.contains_key(seed.id)
                &&& after.registry.sessions[seed.id] == PublicView::from_seed(seed)
                &&& after.registry.total_connections == before.registry.total_connections + 1
                &&& line == Some(
                    LogView::SessionCreated { is_srtp: seed.is_srtp, address: seed.address },
                )
            }
            &&& others >= 3328 ==> {
                &&& !after.registry.sessions.contains_key(seed.id)
                &&& after.registry.total_connections == before.registry.total_connections
                &&& line is None
            }
            &&& after.registry.sessions.contains_key(other) <==> pruned.sessions.contains_key(other)
            &&& after.registry.sessions.contains_key(other) ==> after.registry.sessions[other]
                == pruned.sessions[other]
            &&& pruned.sessions.contains_key(seed.id) ==> directives.len() > 0
                && directives.last() == stop_order(seed.id)
        }),
{
    let pruned = before.registry.pruned(wall_now);
    assert(pruned.without_one(seed.id).sessions.dom() =~= pruned.sessions.dom().remove(seed.id));
    pruning_is_fair(before.registry, wall_now, other, seed.id);
}

/// A session that is closed is taken out; where it was known, what runs for it is stopped and
/// that is logged, with the reason.
pub proof fn closed_sessions_are_taken_out(
    before: DeskView,
    address: PeerAddress,
    session_id: u64,
    reason: Seq<char>,
    wall_now: u64,
    after: DeskView,
    directives: Seq<DirectiveView>,
    line: Option<LogView>,
    job: Option<JobView>,
)
    requires
        desk::follows(
            before,
            EventView::SessionClosed { address, session_id, reason },
            wall_now,
            after,
            directives,
            line,
            job,
        ),
    ensures
        after == (DeskView {
            registry: RegistryView {
                sessions: before.registry.sessions.remove(session_id),
                ..before.registry
            },
            ..before
        }),
        before.registry.sessions.contains_key(session_id) ==> directives == seq![
            stop_order(session_id),
        ] && line == Some(LogView::SessionClosed { address, reason }),
        !before.registry.sessions.contains_key(session_id) ==> directives.len() == 0
            && line is None,
        job is None,
{
}

/// A packet for the control side is worked on, as it came, and nothing else follows from it.
pub proof fn packets_become_jobs(
    before: DeskView,
    address: PeerAddress,
    session_id: u64,
    payload: Seq<u8>,
    early: bool,
    wall_now: u64,
    after: DeskView,
    directives: Seq<DirectiveView>,
    line: Option<LogView>,
    job: Option<JobView>,
)
    requires
        desk::follows(
            before,
            if early {
                EventView::IngressBeforeTunnel { address, session_id, payload }
            } else {
                EventView::Payload { address, session_id, payload }
            },
            wall_now,
            after,
            directives,
            line,
            job,
        ),
    ensures
        job == Some(
            if early {
                JobView::Ingress { address, session_id, payload }
            } else {
                JobView::Payload { address, session_id, payload }
            },
        ),
        after == before,
        directives.len() == 0,
        line is None,
{
}

/// Repairs of streams are logged. What went wrong with packets is logged where more did than
/// before, and the counters are kept to compare with.
pub proof fn faults_are_logged(
    before: DeskView,
    log: RepairLogView,
    selected: usize,
    sent: usize,
    counters: IoCounters,
    wall_now: u64,
    after: DeskView,
    directives: Seq<DirectiveView>,
    line: Option<LogView>,
    job: Option<JobView>,
)
    ensures
        desk::follows(
            before,
            EventView::StreamRepair { log, selected_carriers: selected, sent_carriers: sent },
            wall_now,
            after,
            directives,
            line,
            job,
        ) ==> after == before && directives.len() == 0 && job is None && line == Some(
            LogView::StreamRepair { log, selected_carriers: selected, sent_carriers: sent },
        ),
        desk::follows(
            before,
            EventView::IoCounters(counters),
            wall_now,
            after,
            directives,
            line,
            job,
        ) ==> {
            let last = before.last_io;
            &&& after == (DeskView { last_io: counters, ..before })
            &&& directives.len() == 0
            &&& job is None
            &&& line is Some <==> counters.udp_rx_errors > last.udp_rx_errors
                || counters.udp_tx_errors > last.udp_tx_errors || counters.tun_rx_errors
                > last.tun_rx_errors || counters.tun_tx_errors > last.tun_tx_errors
                || counters.udp_tx_drops > last.udp_tx_drops || counters.tun_tx_drops
                > last.tun_tx_drops
            &&& line matches Some(written) ==> written is IoFaults
        },
{
}

/// How much more went wrong is the sum of how much each counter has grown.
pub proof fn faults_are_differences(counters: IoCounters, last: IoCounters)
    requires
        last.udp_rx_errors <= counters.udp_rx_errors,
        last.udp_tx_errors <= counters.udp_tx_errors,
        last.tun_rx_errors <= counters.tun_rx_errors,
        last.tun_tx_errors <= counters.tun_tx_errors,
        last.udp_tx_drops <= counters.udp_tx_drops,
        last.tun_tx_drops <= counters.tun_tx_drops,
        counters.udp_rx_errors + counters.udp_tx_errors + counters.tun_rx_errors
            + counters.tun_tx_errors <= u64::MAX,
    ensures
        ({
            let faults = counters.faults_since(last);
            &&& faults.errors == counters.udp_rx_errors - last.udp_rx_errors
                + counters.udp_tx_errors - last.udp_tx_errors + counters.tun_rx_errors
                - last.tun_rx_errors + counters.tun_tx_errors - last.tun_tx_errors
            &&& faults.udp_drops == counters.udp_tx_drops - last.udp_tx_drops
            &&& faults.tun_drops == counters.tun_tx_drops - last.tun_tx_drops
        }),
{
}

/// The engine tells the control side of its counters where any that counts faults differs.
pub proof fn faults_are_compared(left: IoCounters, right: IoCounters)
    ensures
        left.same_faults(right) <==> (
            left.udp_rx_errors,
            left.udp_tx_errors,
            left.tun_rx_errors,
            left.tun_tx_errors,
            left.udp_tx_drops,
            left.tun_tx_drops,
            left.partial_sendmmsg,
            left.udp_rx_enobufs,
            left.udp_tx_enobufs,
        ) == (
            right.udp_rx_errors,
            right.udp_tx_errors,
            right.tun_rx_errors,
            right.tun_tx_errors,
            right.udp_tx_drops,
            right.tun_tx_drops,
            right.partial_sendmmsg,
            right.udp_rx_enobufs,
            right.udp_tx_enobufs,
        ),
{
}

/// The passwords in force are the main one, first, where there is one, and those of the others
/// whose lifetime is not over and that were not deactivated, in the order of the list.
pub proof fn passwords_in_force_are_listed(
    db: DatabaseView,
    listed: Seq<Seq<char>>,
    i: int,
)
    requires
        0 <= i < listed.len(),
    ensures
        ({
            let force = credentials::in_force(db, listed);
            let entry = db.passwords[listed[i]];
            let others = if db.main_password.len() > 0 {
                1int
            } else {
                0int
            };
            &&& db.main_password.len() > 0 ==> force.len() > 0 && force[0] == db.main_password
            &&& force.skip(others) == listed.filter(
                |password: Seq<char>|
                    !(db.passwords[password].expired || db.passwords[password].is_deactivated),
            )
            &&& !(entry.expired || entry.is_deactivated) ==> force.contains(listed[i])
        }),
{
    let force = credentials::in_force(db, listed);
    let given = |password: Seq<char>| credentials::is_active(db.passwords[password]);
    let chosen = |password: Seq<char>|
        !(db.passwords[password].expired || db.passwords[password].is_deactivated);
    assert(given =~= chosen);
    let others = if db.main_password.len() > 0 {
        1int
    } else {
        0int
    };
    let active = listed.filter(chosen);
    assert(force.skip(others) =~= active);
    if chosen(listed[i]) {
        listed.lemma_filter_contains(chosen, i);
        let k = choose|k: int| 0 <= k < active.len() && active[k] == listed[i];
        assert(force[others + k] == listed[i]);
    }
}

} // verus!
