//! To whom traffic is credited.
use crate::model::DatabaseView;
use crate::registry;
use crate::registry::{PublicView, RegistryView};
use crate::traffic;
use crate::traffic::{Ledger, TrafficCounters, TrafficView};
use vstd::prelude::*;

verus! {

/// The sum of what the sessions listed count for.
pub open spec fn total(ids: Seq<u64>, counted: spec_fn(u64) -> int) -> int
    decreases ids.len(),
{
    if ids.len() == 0 {
        0
    } else {
        total(ids.drop_last(), counted) + counted(ids.last())
    }
}

/// What a session sent up, if it has a password.
pub open spec fn up_with(sessions: Map<u64, PublicView>, password: Seq<char>) -> spec_fn(
    u64,
) -> int {
    |id: u64|
        if sessions[id].password == password {
            sessions[id].up_bytes as int
        } else {
            0
        }
}

/// What a session got down, if it has a password.
pub open spec fn down_with(sessions: Map<u64, PublicView>, password: Seq<char>) -> spec_fn(
    u64,
) -> int {
    |id: u64|
        if sessions[id].password == password {
            sessions[id].down_bytes as int
        } else {
            0
        }
}

/// The device that the traffic of a session is credited to: that which its password is bound
/// to, or else, where it has the main password, its own.
pub open spec fn device_credited(db: DatabaseView, session: PublicView) -> Option<Seq<char>> {
    if db.passwords.contains_key(session.password) {
        Some(db.passwords[session.password].device_id)
    } else if session.password == db.main_password && session.device_id.len() > 0 {
        Some(session.device_id)
    } else {
        None
    }
}

/// What a session sent up, if that is credited to a device.
pub open spec fn up_on(
    db: DatabaseView,
    sessions: Map<u64, PublicView>,
    device_id: Seq<char>,
) -> spec_fn(u64) -> int {
    |id: u64|
        if device_credited(db, sessions[id]) == Some(device_id) {
            sessions[id].up_bytes as int
        } else {
            0
        }
}

/// What a session got down, if that is credited to a device.
pub open spec fn down_on(
    db: DatabaseView,
    sessions: Map<u64, PublicView>,
    device_id: Seq<char>,
) -> spec_fn(u64) -> int {
    |id: u64|
        if device_credited(db, sessions[id]) == Some(device_id) {
            sessions[id].down_bytes as int
        } else {
            0
        }
}

/// Counters can hold what the sessions carried.
pub open spec fn countable(sessions: Map<u64, PublicView>) -> bool {
    forall|id: u64| #[trigger]
        sessions.contains_key(id) ==> sessions[id].up_bytes <= i64::MAX && sessions[id].down_bytes
            <= i64::MAX
}

/// Where no counter overflows, a flush raises the counters of each password by what all the
/// sessions that have it carried, neither more nor less, and leaves the rest of its entry as
/// it was. Passwords that no session has stay as they were.
pub proof fn flushes_credit_passwords(
    before: Ledger,
    sessions: Map<u64, PublicView>,
    ids: Seq<u64>,
    after: Ledger,
    password: Seq<char>,
)
    requires
        ids.no_duplicates(),
        ids.to_set() == sessions.dom(),
        traffic::flushed(before, sessions, sessions.dom(), after),
        countable(sessions),
        before.db.passwords[password].up_bytes + total(ids, up_with(sessions, password))
            <= i64::MAX,
        before.db.passwords[password].down_bytes + total(ids, down_with(sessions, password))
            <= i64::MAX,
    ensures
        after.db.passwords.contains_key(password) <==> before.db.passwords.contains_key(password),
        before.db.passwords.contains_key(password) ==> {
            let was = before.db.passwords[password];
            let is = after.db.passwords[password];
            &&& is.up_bytes == was.up_bytes + total(ids, up_with(sessions, password))
            &&& is.down_bytes == was.down_bytes + total(ids, down_with(sessions, password))
            &&& is.device_id == was.device_id
            &&& is.is_deactivated == was.is_deactivated
            &&& is.expired == was.expired
        },
{
    let order = choose|order: Seq<u64>|
        {
            &&& #[trigger] registry::lists_ids(order, sessions.dom())
            &&& after == before.credited_all(sessions, order)
        };
    lemma_total_of_set(ids, order, up_with(sessions, password));
    lemma_total_of_set(ids, order, down_with(sessions, password));
    lemma_listed(sessions, order);
    lemma_password(before, sessions, order, password);
}

/// Where no counter overflows, a flush raises the counters of each device by what the sessions
/// carried whose password is bound to it, or that have the main password and are on it.
pub proof fn flushes_credit_devices(
    before: Ledger,
    sessions: Map<u64, PublicView>,
    ids: Seq<u64>,
    after: Ledger,
    device_id: Seq<char>,
)
    requires
        ids.no_duplicates(),
        ids.to_set() == sessions.dom(),
        traffic::flushed(before, sessions, sessions.dom(), after),
        countable(sessions),
        before.db.devices[device_id].up_bytes + total(ids, up_on(before.db, sessions, device_id))
            <= i64::MAX,
        before.db.devices[device_id].down_bytes + total(
            ids,
            down_on(before.db, sessions, device_id),
        ) <= i64::MAX,
    ensures
        after.db.devices.contains_key(device_id) <==> before.db.devices.contains_key(device_id),
        before.db.devices.contains_key(device_id) ==> {
            let was = before.db.devices[device_id];
            let is = after.db.devices[device_id];
            &&& is.up_bytes == was.up_bytes + total(ids, up_on(before.db, sessions, device_id))
            &&& is.down_bytes == was.down_bytes + total(
                ids,
                down_on(before.db, sessions, device_id),
            )
            &&& is.ip == was.ip
            &&& is.address == was.address
            &&& is.priv_key == was.priv_key
            &&& is.pub_key == was.pub_key
            &&& is.device_id == was.device_id
        },
{
    let order = choose|order: Seq<u64>|
        {
            &&& #[trigger] registry::lists_ids(order, sessions.dom())
            &&& after == before.credited_all(sessions, order)
        };
    lemma_total_of_set(ids, order, up_on(before.db, sessions, device_id));
    lemma_total_of_set(ids, order, down_on(before.db, sessions, device_id));
    lemma_listed(sessions, order);
    lemma_device(before, sessions, order, device_id);
}

/// Where no counter overflows, a flush raises the counters of the main password by what all
/// the sessions that have it carried, unless it is also listed among the other passwords.
pub proof fn flushes_credit_the_main_password(
    before: Ledger,
    sessions: Map<u64, PublicView>,
    ids: Seq<u64>,
    after: Ledger,
)
    requires
        ids.no_duplicates(),
        ids.to_set() == sessions.dom(),
        traffic::flushed(before, sessions, sessions.dom(), after),
        countable(sessions),
        !before.db.passwords.contains_key(before.db.main_password),
        before.db.main_up_bytes + total(ids, up_with(sessions, before.db.main_password))
            <= i64::MAX,
        before.db.main_down_bytes + total(ids, down_with(sessions, before.db.main_password))
            <= i64::MAX,
    ensures
        after.db.main_up_bytes == before.db.main_up_bytes + total(
            ids,
            up_with(sessions, before.db.main_password),
        ),
        after.db.main_down_bytes == before.db.main_down_bytes + total(
            ids,
            down_with(sessions, before.db.main_password),
        ),
        after.db.main_password == before.db.main_password,
        after.db.main_device_id == before.db.main_device_id,
{
    let password = before.db.main_password;
    let order = choose|order: Seq<u64>|
        {
            &&& #[trigger] registry::lists_ids(order, sessions.dom())
            &&& after == before.credited_all(sessions, order)
        };
    lemma_total_of_set(ids, order, up_with(sessions, password));
    lemma_total_of_set(ids, order, down_with(sessions, password));
    lemma_listed(sessions, order);
    lemma_main(before, sessions, order);
}

/// A flush says which counters it has changed, and what they are now: those of the passwords
/// and devices to which some session that carried anything is credited, and those of the main
/// password if such a session has it.
pub proof fn flushes_say_what_changed(
    db: DatabaseView,
    sessions: Map<u64, PublicView>,
    after: Ledger,
    name: Seq<char>,
)
    requires
        traffic::flushed(
            (Ledger { db, traffic: TrafficView::nothing() }),
            sessions,
            sessions.dom(),
            after,
        ),
    ensures
        after.traffic.passwords.contains_key(name) <==> db.passwords.contains_key(name) && exists|
            id: u64,
        |
            #![trigger sessions.contains_key(id)]
            sessions.contains_key(id) && sessions[id].password == name && (sessions[id].up_bytes
                > 0 || sessions[id].down_bytes > 0),
        after.traffic.passwords.contains_key(name) ==> after.traffic.passwords[name] == (
        TrafficCounters {
            up_bytes: after.db.passwords[name].up_bytes,
            down_bytes: after.db.passwords[name].down_bytes,
        }),
        after.traffic.devices.contains_key(name) <==> db.devices.contains_key(name) && exists|
            id: u64,
        |
            #![trigger sessions.contains_key(id)]
            sessions.contains_key(id) && device_credited(db, sessions[id]) == Some(name) && (
            sessions[id].up_bytes > 0 || sessions[id].down_bytes > 0),
        after.traffic.devices.contains_key(name) ==> after.traffic.devices[name] == (
        TrafficCounters {
            up_bytes: after.db.devices[name].up_bytes,
            down_bytes: after.db.devices[name].down_bytes,
        }),
        after.traffic.main is Some <==> !db.passwords.contains_key(db.main_password) && exists|
            id: u64,
        |
            #![trigger sessions.contains_key(id)]
            sessions.contains_key(id) && sessions[id].password == db.main_password && (
            sessions[id].up_bytes > 0 || sessions[id].down_bytes > 0),
        after.traffic.main matches Some(counters) ==> counters == (TrafficCounters {
            up_bytes: after.db.main_up_bytes,
            down_bytes: after.db.main_down_bytes,
        }),
{
    let before = Ledger { db, traffic: TrafficView::nothing() };
    let order = choose|order: Seq<u64>|
        {
            &&& #[trigger] registry::lists_ids(order, sessions.dom())
            &&& after == before.credited_all(sessions, order)
        };
    lemma_listed(sessions, order);
    lemma_changed(before, sessions, order, name);
    if after.traffic.passwords.contains_key(name) {
        let k = choose|k: int|
            0 <= k < order.len() && sessions[#[trigger] order[k]].password == name && (
            sessions[order[k]].up_bytes > 0 || sessions[order[k]].down_bytes > 0);
        assert(sessions.contains_key(order[k]));
    }
    if after.traffic.devices.contains_key(name) {
        let k = choose|k: int|
            0 <= k < order.len() && device_credited(db, sessions[#[trigger] order[k]]) == Some(name)
                && (sessions[order[k]].up_bytes > 0 || sessions[order[k]].down_bytes > 0);
        assert(sessions.contains_key(order[k]));
    }
    if after.traffic.main is Some {
        let k = choose|k: int|
            0 <= k < order.len() && sessions[#[trigger] order[k]].password == db.main_password && (
            sessions[order[k]].up_bytes > 0 || sessions[order[k]].down_bytes > 0);
        assert(sessions.contains_key(order[k]));
    }
    assert forall|id: u64| sessions.contains_key(id) implies exists|k: int|
        0 <= k < order.len() && #[trigger] order[k] == id by {
        assert(order.to_set().contains(id));
    }
}

/// The list of the sessions names sessions only.
proof fn lemma_listed(sessions: Map<u64, PublicView>, order: Seq<u64>)
    requires
        registry::lists_ids(order, sessions.dom()),
    ensures
        forall|k: int| 0 <= k < order.len() ==> sessions.contains_key(#[trigger] order[k]),
{
    assert forall|k: int| 0 <= k < order.len() implies sessions.contains_key(
        #[trigger] order[k],
    ) by {
        assert(order.to_set().contains(order[k]));
    }
}

/// A sum does not depend on the order.
proof fn lemma_total_of_set(left: Seq<u64>, right: Seq<u64>, counted: spec_fn(u64) -> int)
    requires
        left.no_duplicates(),
        right.no_duplicates(),
        left.to_set() == right.to_set(),
    ensures
        total(left, counted) == total(right, counted),
    decreases left.len(),
{
    if left.len() == 0 {
        if right.len() > 0 {
            assert(right.to_set().contains(right[0]));
            assert(left.to_set().contains(right[0]));
        }
    } else {
        let last = left.last();
        assert(left.to_set().contains(left[left.len() - 1]));
        assert(right.to_set().contains(last));
        let k = choose|k: int| 0 <= k < right.len() && right[k] == last;
        lemma_total_without(right, k, counted);
        let rest = right.remove(k);
        let some = left.drop_last();
        assert forall|i: int, j: int| 0 <= i < rest.len() && 0 <= j < rest.len() && i
            != j implies rest[i] != rest[j] by {
            let a = if i < k {
                i
            } else {
                i + 1
            };
            let b = if j < k {
                j
            } else {
                j + 1
            };
            assert(right[a] != right[b]);
        }
        assert forall|id: u64| some.to_set().contains(id) <==> rest.to_set().contains(id) by {
            if some.to_set().contains(id) {
                let i = choose|i: int| 0 <= i < some.len() && some[i] == id;
                assert(left[i] == id && left[i] != left[left.len() - 1]);
                assert(left.to_set().contains(id));
                let j = choose|j: int| 0 <= j < right.len() && right[j] == id;
                assert(rest[if j < k {
                    j
                } else {
                    j - 1
                }] == id);
            }
            if rest.to_set().contains(id) {
                let j = choose|j: int| 0 <= j < rest.len() && rest[j] == id;
                let b = if j < k {
                    j
                } else {
                    j + 1
                };
                assert(right[b] == id && right[b] != right[k]);
                assert(right.to_set().contains(id));
                let i = choose|i: int| 0 <= i < left.len() && left[i] == id;
                assert(some[i] == id);
            }
        }
        assert(some.to_set() =~= rest.to_set());
        lemma_total_of_set(some, rest, counted);
    }
}

/// A sum is what one summand gives and what the others do.
proof fn lemma_total_without(ids: Seq<u64>, k: int, counted: spec_fn(u64) -> int)
    requires
        0 <= k < ids.len(),
    ensures
        total(ids, counted) == total(ids.remove(k), counted) + counted(ids[k]),
    decreases ids.len(),
{
    let rest = ids.remove(k);
    if k == ids.len() - 1 {
        assert(rest =~= ids.drop_last());
    } else {
        lemma_total_without(ids.drop_last(), k, counted);
        assert(rest.drop_last() =~= ids.drop_last().remove(k));
        assert(rest.last() == ids.last());
    }
}

/// What crediting leaves as it was.
proof fn lemma_kept(before: Ledger, sessions: Map<u64, PublicView>, order: Seq<u64>)
    ensures
        ({
            let after = before.credited_all(sessions, order);
            &&& after.db.main_password == before.db.main_password
            &&& after.db.main_device_id == before.db.main_device_id
            &&& forall|name: Seq<char>| #[trigger]
                after.db.passwords.contains_key(name) <==> before.db.passwords.contains_key(name)
            &&& forall|name: Seq<char>| #[trigger]
                after.db.devices.contains_key(name) <==> before.db.devices.contains_key(name)
            &&& forall|name: Seq<char>|
                before.db.passwords.contains_key(name) ==> (
                #[trigger] after.db.passwords[name]).device_id
                    == before.db.passwords[name].device_id
        }),
    decreases order.len(),
{
    if order.len() > 0 {
        lemma_kept(before, sessions, order.drop_last());
    }
}

proof fn lemma_password(
    before: Ledger,
    sessions: Map<u64, PublicView>,
    order: Seq<u64>,
    password: Seq<char>,
)
    requires
        countable(sessions),
        forall|k: int| 0 <= k < order.len() ==> sessions.contains_key(#[trigger] order[k]),
        before.db.passwords[password].up_bytes + total(order, up_with(sessions, password))
            <= i64::MAX,
        before.db.passwords[password].down_bytes + total(order, down_with(sessions, password))
            <= i64::MAX,
    ensures
        ({
            let after = before.credited_all(sessions, order);
            let was = before.db.passwords[password];
            let is = after.db.passwords[password];
            &&& after.db.passwords.contains_key(password) <==> before.db.passwords.contains_key(
                password,
            )
            &&& total(order, up_with(sessions, password)) >= 0
            &&& total(order, down_with(sessions, password)) >= 0
            &&& before.db.passwords.contains_key(password) ==> {
                &&& is.up_bytes == was.up_bytes + total(order, up_with(sessions, password))
                &&& is.down_bytes == was.down_bytes + total(order, down_with(sessions, password))
                &&& is.device_id == was.device_id
                &&& is.is_deactivated == was.is_deactivated
                &&& is.expired == was.expired
            }
        }),
    decreases order.len(),
{
    if order.len() > 0 {
        let rest = order.drop_last();
        let session = sessions[order[order.len() - 1]];
        assert(sessions.contains_key(order[order.len() - 1]));
        assert forall|k: int| 0 <= k < rest.len() implies sessions.contains_key(
            #[trigger] rest[k],
        ) by {
            assert(rest[k] == order[k]);
        }
        lemma_kept(before, sessions, rest);
        lemma_password(before, sessions, rest, password);
    }
}

proof fn lemma_device(
    before: Ledger,
    sessions: Map<u64, PublicView>,
    order: Seq<u64>,
    device_id: Seq<char>,
)
    requires
        countable(sessions),
        forall|k: int| 0 <= k < order.len() ==> sessions.contains_key(#[trigger] order[k]),
        before.db.devices[device_id].up_bytes + total(order, up_on(before.db, sessions, device_id))
            <= i64::MAX,
        before.db.devices[device_id].down_bytes + total(
            order,
            down_on(before.db, sessions, device_id),
        ) <= i64::MAX,
    ensures
        ({
            let after = before.credited_all(sessions, order);
            let was = before.db.devices[device_id];
            let is = after.db.devices[device_id];
            &&& after.db.devices.contains_key(device_id) <==> before.db.devices.contains_key(
                device_id,
            )
            &&& total(order, up_on(before.db, sessions, device_id)) >= 0
            &&& total(order, down_on(before.db, sessions, device_id)) >= 0
            &&& before.db.devices.contains_key(device_id) ==> {
                &&& is.up_bytes == was.up_bytes + total(
                    order,
                    up_on(before.db, sessions, device_id),
                )
                &&& is.down_bytes == was.down_bytes + total(
                    order,
                    down_on(before.db, sessions, device_id),
                )
                &&& is.ip == was.ip
                &&& is.address == was.address
                &&& is.priv_key == was.priv_key
                &&& is.pub_key == was.pub_key
                &&& is.device_id == was.device_id
            }
        }),
    decreases order.len(),
{
    if order.len() > 0 {
        let rest = order.drop_last();
        let session = sessions[order[order.len() - 1]];
        assert(sessions.contains_key(order[order.len() - 1]));
        assert forall|k: int| 0 <= k < rest.len() implies sessions.contains_key(
            #[trigger] rest[k],
        ) by {
            assert(rest[k] == order[k]);
        }
        lemma_kept(before, sessions, rest);
        lemma_device(before, sessions, rest, device_id);
        let middle = before.credited_all(sessions, rest);
        assert(device_credited(middle.db, session) == device_credited(before.db, session));
    }
}

proof fn lemma_main(before: Ledger, sessions: Map<u64, PublicView>, order: Seq<u64>)
    requires
        countable(sessions),
        forall|k: int| 0 <= k < order.len() ==> sessions.contains_key(#[trigger] order[k]),
        !before.db.passwords.contains_key(before.db.main_password),
        before.db.main_up_bytes + total(order, up_with(sessions, before.db.main_password))
            <= i64::MAX,
        before.db.main_down_bytes + total(order, down_with(sessions, before.db.main_password))
            <= i64::MAX,
    ensures
        ({
            let after = before.credited_all(sessions, order);
            let up = total(order, up_with(sessions, before.db.main_password));
            let down = total(order, down_with(sessions, before.db.main_password));
            &&& up >= 0
            &&& down >= 0
            &&& after.db.main_up_bytes == before.db.main_up_bytes + up
            &&& after.db.main_down_bytes == before.db.main_down_bytes + down
            &&& after.db.main_password == before.db.main_password
            &&& after.db.main_device_id == before.db.main_device_id
        }),
    decreases order.len(),
{
    if order.len() > 0 {
        let rest = order.drop_last();
        assert(sessions.contains_key(order[order.len() - 1]));
        assert forall|k: int| 0 <= k < rest.len() implies sessions.contains_key(
            #[trigger] rest[k],
        ) by {
            assert(rest[k] == order[k]);
        }
        lemma_kept(before, sessions, rest);
        lemma_main(before, sessions, rest);
    }
}

proof fn lemma_changed(
    before: Ledger,
    sessions: Map<u64, PublicView>,
    order: Seq<u64>,
    name: Seq<char>,
)
    requires
        before.traffic == TrafficView::nothing(),
    ensures
        ({
            let after = before.credited_all(sessions, order);
            let db = before.db;
            &&& after.traffic.passwords.contains_key(name) <==> db.passwords.contains_key(name)
                && exists|k: int|
                0 <= k < order.len() && sessions[#[trigger] order[k]].password == name && (
                sessions[order[k]].up_bytes > 0 || sessions[order[k]].down_bytes > 0)
            &&& after.traffic.passwords.contains_key(name) ==> after.traffic.passwords[name] == (
            TrafficCounters {
                up_bytes: after.db.passwords[name].up_bytes,
                down_bytes: after.db.passwords[name].down_bytes,
            })
            &&& after.traffic.devices.contains_key(name) <==> db.devices.contains_key(name)
                && exists|k: int|
                0 <= k < order.len() && device_credited(db, sessions[#[trigger] order[k]]) == Some(
                    name,
                ) && (sessions[order[k]].up_bytes > 0 || sessions[order[k]].down_bytes > 0)
            &&& after.traffic.devices.contains_key(name) ==> after.traffic.devices[name] == (
            TrafficCounters {
                up_bytes: after.db.devices[name].up_bytes,
                down_bytes: after.db.devices[name].down_bytes,
            })
            &&& after.traffic.main is Some <==> !db.passwords.contains_key(db.main_password)
                && exists|k: int|
                0 <= k < order.len() && sessions[#[trigger] order[k]].password == db.main_password
                    && (sessions[order[k]].up_bytes > 0 || sessions[order[k]].down_bytes > 0)
            &&& after.traffic.main matches Some(counters) ==> counters == (TrafficCounters {
                up_bytes: after.db.main_up_bytes,
                down_bytes: after.db.main_down_bytes,
            })
        }),
    decreases order.len(),
{
    if order.len() > 0 {
        let rest = order.drop_last();
        let last = order.len() - 1;
        lemma_kept(before, sessions, rest);
        lemma_changed(before, sessions, rest, name);
        let middle = before.credited_all(sessions, rest);
        let session = sessions[order[last]];
        assert(order.last() == order[last]);
        assert(device_credited(middle.db, session) == device_credited(before.db, session));
        assert forall|k: int| 0 <= k < rest.len() implies #[trigger] rest[k] == order[k] by {}
        assert forall|k: int| 0 <= k < order.len() && k != last implies rest[k]
            == #[trigger] order[k] by {}
    }
}

/// What was credited is not credited again: every session starts from zero, and nothing else
/// of it or of the registry changes.
pub proof fn credited_sessions_start_from_zero(registry: RegistryView, id: u64)
    ensures
        ({
            let after = traffic::all_settled(registry);
            &&& after.sessions.dom() == registry.sessions.dom()
            &&& registry.sessions.contains_key(id) ==> after.sessions[id] == (PublicView {
                up_bytes: 0,
                down_bytes: 0,
                ..registry.sessions[id]
            })
            &&& after.total_connections == registry.total_connections
            &&& after.up_total == registry.up_total
            &&& after.down_total == registry.down_total
        }),
{
    assert(traffic::all_settled(registry).sessions.dom() =~= registry.sessions.dom());
}

/// Sums are exact as long as the counters can hold them, and stop at the ends otherwise.
pub proof fn sums_stop_at_the_ends(a: i64, b: i64)
    ensures
        i64::MIN <= a + b <= i64::MAX ==> traffic::clamped_sum(a, b) == a + b,
        a + b > i64::MAX ==> traffic::clamped_sum(a, b) == i64::MAX,
        a + b < i64::MIN ==> traffic::clamped_sum(a, b) == i64::MIN,
{
}

} // verus!
