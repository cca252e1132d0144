//! How the traffic of sessions is credited to passwords and devices.
use crate::model::{Database, DatabaseView, DeviceView, PasswordView};
use crate::registry;
use crate::registry::{PublicView, Registry, RegistryView, Session};
use crate::table::Table;
use crate::text::same_text;
use vstd::prelude::*;

verus! {

/// How much went up and down.
#[derive(Clone, Copy, Debug, PartialEq, Eq, Structural)]
pub struct TrafficCounters {
    pub up_bytes: i64,
    pub down_bytes: i64,
}

impl View for TrafficCounters {
    type V = TrafficCounters;

    open spec fn view(&self) -> TrafficCounters {
        *self
    }
}

/// The counters that a flush has changed.
pub struct TrafficSnapshot {
    pub passwords: Table<String, TrafficCounters>,
    pub devices: Table<String, TrafficCounters>,
    pub main: Option<TrafficCounters>,
}

/// What a [`TrafficSnapshot`] says.
#[verifier::ext_equal]
pub struct TrafficView {
    pub passwords: Map<Seq<char>, TrafficCounters>,
    pub devices: Map<Seq<char>, TrafficCounters>,
    pub main: Option<TrafficCounters>,
}

impl View for TrafficSnapshot {
    type V = TrafficView;

    open spec fn view(&self) -> TrafficView {
        TrafficView {
            passwords: self.passwords@,
            devices: self.devices@,
            main: self.main,
        }
    }
}

impl TrafficView {
    /// No counter was changed.
    pub open spec fn nothing() -> TrafficView {
        TrafficView { passwords: Map::empty(), devices: Map::empty(), main: None }
    }
}

impl TrafficSnapshot {
    /// The tables list each key once.
    pub open spec fn wf(&self) -> bool {
        self.passwords.wf() && self.devices.wf()
    }

    /// No counter was changed.
    pub fn new() -> (traffic: TrafficSnapshot)
        ensures
            traffic.wf(),
            traffic@ == TrafficView::nothing(),
    {
        let traffic = TrafficSnapshot {
            passwords: Table::new(),
            devices: Table::new(),
            main: None,
        };
        assert(traffic@ =~= TrafficView::nothing());
        traffic
    }
}

/// `a + b`, or the nearest number that can be held.
pub open spec fn clamped_sum(a: i64, b: i64) -> i64 {
    if a + b > i64::MAX {
        i64::MAX
    } else if a + b < i64::MIN {
        i64::MIN
    } else {
        (a + b) as i64
    }
}

fn clamped_add(a: i64, b: i64) -> (sum: i64)
    ensures
        sum == clamped_sum(a, b),
{
    let exact: i128 = a as i128 + b as i128;
    if exact > i64::MAX as i128 {
        i64::MAX
    } else if exact < i64::MIN as i128 {
        i64::MIN
    } else {
        exact as i64
    }
}

/// What was credited so far, and the counters that have changed.
#[verifier::ext_equal]
pub struct Ledger {
    pub db: DatabaseView,
    pub traffic: TrafficView,
}

impl Ledger {
    /// The ledger once traffic was credited to a device, if it is known.
    pub open spec fn with_device(self, device_id: Seq<char>, up: i64, down: i64) -> Ledger {
        let device = self.db.devices[device_id];
        let credited = DeviceView {
            up_bytes: clamped_sum(device.up_bytes, up),
            down_bytes: clamped_sum(device.down_bytes, down),
            ..device
        };
        if self.db.devices.contains_key(device_id) {
            Ledger {
                db: DatabaseView { devices: self.db.devices.insert(device_id, credited), ..self.db },
                traffic: TrafficView {
                    devices: self.traffic.devices.insert(
                        device_id,
                        TrafficCounters {
                            up_bytes: credited.up_bytes,
                            down_bytes: credited.down_bytes,
                        },
                    ),
                    ..self.traffic
                },
            }
        } else {
            self
        }
    }

    /// The ledger once traffic was credited to a password.
    pub open spec fn with_password(self, password: Seq<char>, up: i64, down: i64) -> Ledger {
        let entry = self.db.passwords[password];
        let credited = PasswordView {
            up_bytes: clamped_sum(entry.up_bytes, up),
            down_bytes: clamped_sum(entry.down_bytes, down),
            ..entry
        };
        Ledger {
            db: DatabaseView { passwords: self.db.passwords.insert(password, credited), ..self.db },
            traffic: TrafficView {
                passwords: self.traffic.passwords.insert(
                    password,
                    TrafficCounters {
                        up_bytes: credited.up_bytes,
                        down_bytes: credited.down_bytes,
                    },
                ),
                ..self.traffic
            },
        }
    }

    /// The ledger once traffic was credited to the main password.
    pub open spec fn with_main(self, up: i64, down: i64) -> Ledger {
        let up_bytes = clamped_sum(self.db.main_up_bytes, up);
        let down_bytes = clamped_sum(self.db.main_down_bytes, down);
        Ledger {
            db: DatabaseView { main_up_bytes: up_bytes, main_down_bytes: down_bytes, ..self.db },
            traffic: TrafficView {
                main: Some(TrafficCounters { up_bytes, down_bytes }),
                ..self.traffic
            },
        }
    }

    /// The ledger once the traffic of a session was credited: to its password and the device
    /// that the password is bound to, or else, if it has the main password, to that and to
    /// its own device.
    pub open spec fn credited(self, session: PublicView) -> Ledger {
        let up = session.up_bytes as i64;
        let down = session.down_bytes as i64;
        if session.up_bytes == 0 && session.down_bytes == 0 {
            self
        } else if self.db.passwords.contains_key(session.password) {
            self.with_password(session.password, up, down).with_device(
                self.db.passwords[session.password].device_id,
                up,
                down,
            )
        } else if session.password == self.db.main_password {
            if session.device_id.len() > 0 {
                self.with_main(up, down).with_device(session.device_id, up, down)
            } else {
                self.with_main(up, down)
            }
        } else {
            self
        }
    }

    /// The ledger once the traffic of some sessions was credited, in the given order.
    pub open spec fn credited_all(self, sessions: Map<u64, PublicView>, order: Seq<u64>) -> Ledger
        decreases order.len(),
    {
        if order.len() == 0 {
            self
        } else {
            self.credited_all(sessions, order.drop_last()).credited(sessions[order.last()])
        }
    }
}

/// A session whose traffic was credited.
pub open spec fn settled(session: PublicView) -> PublicView {
    PublicView { up_bytes: 0, down_bytes: 0, ..session }
}

/// The registry once the traffic of all sessions was credited.
pub open spec fn all_settled(registry: RegistryView) -> RegistryView {
    RegistryView {
        sessions: Map::new(
            |id: u64| registry.sessions.contains_key(id),
            |id: u64| settled(registry.sessions[id]),
        ),
        ..registry
    }
}

/// `after` is `before` once the traffic of `sessions` was credited. In which order that was
/// done is open; it matters only where a counter cannot hold the sum.
pub open spec fn flushed(
    before: Ledger,
    sessions: Map<u64, PublicView>,
    set: Set<u64>,
    after: Ledger,
) -> bool {
    exists|order: Seq<u64>|
        {
            &&& #[trigger] registry::lists_ids(order, set)
            &&& after == before.credited_all(sessions, order)
        }
}

/// Once the traffic of all sessions was credited, crediting it again changes nothing: no
/// traffic is credited twice.
pub proof fn traffic_is_credited_once(
    ledger: Ledger,
    registry: RegistryView,
    set: Set<u64>,
    after: Ledger,
)
    requires
        set == registry.sessions.dom(),
        flushed(ledger, all_settled(registry).sessions, set, after),
    ensures
        after == ledger,
{
    let sessions = all_settled(registry).sessions;
    let order = choose|order: Seq<u64>|
        {
            &&& #[trigger] registry::lists_ids(order, set)
            &&& after == ledger.credited_all(sessions, order)
        };
    assert forall|i: int| 0 <= i < order.len() implies sessions.contains_key(
        #[trigger] order[i],
    ) by {
        assert(order.to_set().contains(order[i]));
    }
    lemma_settled_unchanged(ledger, sessions, order);
}

proof fn lemma_settled_unchanged(ledger: Ledger, sessions: Map<u64, PublicView>, order: Seq<u64>)
    requires
        forall|id: u64| #[trigger]
            sessions.contains_key(id) ==> sessions[id].up_bytes == 0 && sessions[id].down_bytes
                == 0,
        forall|i: int| 0 <= i < order.len() ==> sessions.contains_key(#[trigger] order[i]),
    ensures
        ledger.credited_all(sessions, order) == ledger,
    decreases order.len(),
{
    if order.len() > 0 {
        let rest = order.drop_last();
        assert forall|i: int| 0 <= i < rest.len() implies sessions.contains_key(
            #[trigger] rest[i],
        ) by {
            assert(rest[i] == order[i]);
        }
        lemma_settled_unchanged(ledger, sessions, rest);
        assert(sessions.contains_key(order[order.len() - 1]));
    }
}

/// Credits traffic to a device, if it is known.
fn credit_device(
    db: &mut Database,
    traffic: &mut TrafficSnapshot,
    device_id: &String,
    up: i64,
    down: i64,
)
    requires
        old(db).wf(),
        old(traffic).wf(),
    ensures
        final(db).wf(),
        final(traffic).wf(),
        (Ledger { db: final(db)@, traffic: final(traffic)@ }) == (Ledger {
            db: old(db)@,
            traffic: old(traffic)@,
        }).with_device(device_id@, up, down),
{
    let ghost before = Ledger { db: db@, traffic: traffic@ };
    if let Some(at) = db.devices.find(device_id) {
        let device = db.devices.value_at_mut(at);
        device.up_bytes = clamped_add(device.up_bytes, up);
        device.down_bytes = clamped_add(device.down_bytes, down);
        let counters = TrafficCounters {
            up_bytes: device.up_bytes,
            down_bytes: device.down_bytes,
        };
        traffic.devices.insert(device_id.clone(), counters);
    }
    assert((Ledger { db: db@, traffic: traffic@ }) =~= before.with_device(device_id@, up, down));
}

/// Credits the traffic of a session.
fn credit_session(db: &mut Database, traffic: &mut TrafficSnapshot, session: &Session)
    requires
        old(db).wf(),
        old(traffic).wf(),
    ensures
        final(db).wf(),
        final(traffic).wf(),
        (Ledger { db: final(db)@, traffic: final(traffic)@ }) == (Ledger {
            db: old(db)@,
            traffic: old(traffic)@,
        }).credited(session@),
{
    let ghost before = Ledger { db: db@, traffic: traffic@ };
    if session.up_bytes == 0 && session.down_bytes == 0 {
        return ;
    }
    let up: i64 = session.up_bytes as i64;
    let down: i64 = session.down_bytes as i64;
    if let Some(at) = db.passwords.find(&session.password) {
        let entry = db.passwords.value_at_mut(at);
        entry.up_bytes = clamped_add(entry.up_bytes, up);
        entry.down_bytes = clamped_add(entry.down_bytes, down);
        let counters = TrafficCounters { up_bytes: entry.up_bytes, down_bytes: entry.down_bytes };
        let device_id = entry.device_id.clone();
        traffic.passwords.insert(session.password.clone(), counters);
        assert((Ledger { db: db@, traffic: traffic@ }) =~= before.with_password(
            session.password@,
            up,
            down,
        ));
        credit_device(db, traffic, &device_id, up, down);
    } else if same_text(session.password.as_str(), db.main_password.as_str()) {
        db.main_up_bytes = clamped_add(db.main_up_bytes, up);
        db.main_down_bytes = clamped_add(db.main_down_bytes, down);
        traffic.main = Some(
            TrafficCounters { up_bytes: db.main_up_bytes, down_bytes: db.main_down_bytes },
        );
        assert((Ledger { db: db@, traffic: traffic@ }) =~= before.with_main(up, down));
        if !session.device_id.as_str().is_empty() {
            credit_device(db, traffic, &session.device_id, up, down);
        }
    }
}

/// Credits the traffic of all sessions. Says which counters have changed.
pub fn flush_traffic(registry: &mut Registry, db: &mut Database) -> (traffic: TrafficSnapshot)
    requires
        old(registry).wf(),
        old(db).wf(),
    ensures
        final(registry).wf(),
        final(db).wf(),
        traffic.wf(),
        final(registry)@ == all_settled(old(registry)@),
        flushed(
            (Ledger { db: old(db)@, traffic: TrafficView::nothing() }),
            old(registry)@.sessions,
            old(registry)@.sessions.dom(),
            (Ledger { db: final(db)@, traffic: traffic@ }),
        ),
{
    let ghost before = registry@;
    let ghost start = Ledger { db: db@, traffic: TrafficView::nothing() };
    let mut traffic = TrafficSnapshot::new();
    let ids = registry.ids();
    let ghost order = ids@;
    let mut i: usize = 0;
    assert(order.take(0) =~= Seq::<u64>::empty());
    while i < ids.len()
        invariant
            i <= ids@.len(),
            order == ids@,
            registry::lists_ids(order, before.sessions.dom()),
            registry.wf(),
            db.wf(),
            traffic.wf(),
            (Ledger { db: db@, traffic: traffic@ }) == start.credited_all(
                before.sessions,
                order.take(i as int),
            ),
            registry@ == (RegistryView { sessions: registry@.sessions, ..before }),
            registry@.sessions.dom() == before.sessions.dom(),
            forall|j: int|
                0 <= j < i ==> registry@.sessions[#[trigger] order[j]] == settled(
                    before.sessions[order[j]],
                ),
            forall|j: int|
                i <= j < order.len() ==> registry@.sessions[#[trigger] order[j]]
                    == before.sessions[order[j]],
        decreases ids.len() - i,
    {
        let id: u64 = ids[i];
        let ghost now = registry@;
        let ghost next = order.take(i + 1);
        proof {
            assert(order[i as int] == id);
            assert(order.to_set().contains(id));
            assert(next.drop_last() =~= order.take(i as int));
            assert(next.last() == id);
        }
        if let Some(session) = registry.get(id) {
            credit_session(db, &mut traffic, &session);
            let mut cleared = session.copy();
            cleared.up_bytes = 0;
            cleared.down_bytes = 0;
            registry.put(cleared);
            assert(cleared@ =~= settled(before.sessions[id]));
        }
        i += 1;
        proof {
            assert(registry@.sessions =~= now.sessions.insert(id, settled(before.sessions[id])));
            assert(registry@.sessions.dom() =~= before.sessions.dom());
        }
    }
    proof {
        assert(order.take(i as int) =~= order);
        assert forall|id: u64| #[trigger] before.sessions.contains_key(
            id,
        ) implies registry@.sessions[id] == settled(before.sessions[id]) by {
            assert(order.to_set().contains(id));
            let j = choose|j: int| 0 <= j < order.len() && order[j] == id;
            assert(registry@.sessions[order[j]] == settled(before.sessions[order[j]]));
        }
        assert(registry@.sessions =~= all_settled(before).sessions);
        assert(registry@ =~= all_settled(before));
    }
    traffic
}

} // verus!
