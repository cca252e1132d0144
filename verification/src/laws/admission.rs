//! Who is let in, and what follows from it.
use crate::access;
use crate::access::CredentialAccess;
use crate::admission;
use crate::admission::{
    CheckView, ControlRequestView, OfferView, ResolvedAddress, TunnelError,
};
use crate::effect::{CommandView, EffectView, RouteRequest};
use crate::engine::EngineView;
use crate::epoch::{EpochView, IdentityView};
use crate::getconf;
use crate::getconf::{DenialView, RequestView};
use crate::laws::commands::activations_ask_for_the_route;
use crate::laws::delivery::{begins, disconnect_mark, getconf_mark};
use crate::model::{DatabaseView, DeviceView, PasswordView};
use crate::registry;
use crate::registry::{DirectiveView, PublicView, RegistryView};
use crate::text;
use vstd::prelude::*;
use vstd::utf8::*;

verus! {

/// A session is to go: the engines drop it, what runs for it is stopped, or that is logged.
pub open spec fn is_farewell(directive: DirectiveView) -> bool {
    match directive {
        DirectiveView::Order(CommandView::DropSession { session_id }) => true,
        DirectiveView::Cancel { session_id } => true,
        DirectiveView::LogPurged { device_id, address } => true,
        _ => false,
    }
}

/// The engines are to drop a session.
pub open spec fn drop_order(session_id: u64) -> DirectiveView {
    DirectiveView::Order(CommandView::DropSession { session_id })
}

/// What runs for a session is to be stopped.
pub open spec fn stop_order(session_id: u64) -> DirectiveView {
    DirectiveView::Cancel { session_id }
}

proof fn lemma_drops(order: Seq<u64>)
    ensures
        forall|k: int|
            0 <= k < registry::drop_directives(order).len() ==> is_farewell(
                #[trigger] registry::drop_directives(order)[k],
            ),
        forall|id: u64| #[trigger]
            order.contains(id) ==> registry::drop_directives(order).contains(
                drop_order(id),
            ) && registry::drop_directives(order).contains(
                stop_order(id),
            ),
        forall|id: u64|
            registry::drop_directives(order).contains(
                #[trigger] drop_order(id),
            ) ==> order.contains(id),
    decreases order.len(),
{
    if order.len() > 0 {
        let rest = order.drop_last();
        lemma_drops(rest);
        let some = registry::drop_directives(rest);
        let all = registry::drop_directives(order);
        let last = order.last();
        assert(all[all.len() - 2] == DirectiveView::Order(
            CommandView::DropSession { session_id: last },
        ));
        assert(all[all.len() - 1] == DirectiveView::Cancel { session_id: last });
        assert forall|k: int| 0 <= k < all.len() implies is_farewell(#[trigger] all[k]) by {
            if k < some.len() {
                assert(all[k] == some[k]);
            }
        }
        assert forall|id: u64| #[trigger] order.contains(id) implies all.contains(
            drop_order(id),
        ) && all.contains(stop_order(id)) by {
            if id != last {
                let k = choose|k: int| 0 <= k < order.len() && order[k] == id;
                assert(rest[k] == id);
                assert(rest.contains(id));
                let one = drop_order(id);
                let two = stop_order(id);
                let i = choose|i: int| 0 <= i < some.len() && some[i] == one;
                let j = choose|j: int| 0 <= j < some.len() && some[j] == two;
                assert(all[i] == one && all[j] == two);
            }
        }
        assert forall|id: u64|
            all.contains(
                #[trigger] drop_order(id),
            ) implies order.contains(id) by {
            let one = drop_order(id);
            let i = choose|i: int| 0 <= i < all.len() && all[i] == one;
            if i < some.len() {
                assert(some[i] == one);
                assert(some.contains(one));
                let k = choose|k: int| 0 <= k < rest.len() && rest[k] == id;
                assert(order[k] == id);
            } else {
                assert(order[order.len() - 1] == last);
            }
        }
    }
}

proof fn lemma_purges(
    order: Seq<u64>,
    sessions: Map<u64, PublicView>,
    device_id: Seq<char>,
)
    ensures
        forall|k: int|
            0 <= k < registry::purge_directives(order, sessions, device_id).len() ==> is_farewell(
                #[trigger] registry::purge_directives(order, sessions, device_id)[k],
            ),
        forall|id: u64| #[trigger]
            order.contains(id) ==> {
                let all = registry::purge_directives(order, sessions, device_id);
                &&& all.contains(
                    drop_order(id),
                )
                &&& all.contains(stop_order(id))
                &&& all.contains(
                    DirectiveView::LogPurged { device_id, address: sessions[id].address },
                )
            },
        forall|id: u64|
            registry::purge_directives(order, sessions, device_id).contains(
                #[trigger] drop_order(id),
            ) ==> order.contains(id),
    decreases order.len(),
{
    if order.len() > 0 {
        let rest = order.drop_last();
        lemma_purges(rest, sessions, device_id);
        let some = registry::purge_directives(rest, sessions, device_id);
        let all = registry::purge_directives(order, sessions, device_id);
        let last = order.last();
        assert(all[all.len() - 3] == DirectiveView::Order(
            CommandView::DropSession { session_id: last },
        ));
        assert(all[all.len() - 2] == DirectiveView::Cancel { session_id: last });
        assert(all[all.len() - 1] == DirectiveView::LogPurged {
            device_id,
            address: sessions[last].address,
        });
        assert forall|k: int| 0 <= k < all.len() implies is_farewell(#[trigger] all[k]) by {
            if k < some.len() {
                assert(all[k] == some[k]);
            }
        }
        assert forall|id: u64| #[trigger] order.contains(id) implies {
            &&& all.contains(drop_order(id))
            &&& all.contains(stop_order(id))
            &&& all.contains(
                DirectiveView::LogPurged { device_id, address: sessions[id].address },
            )
        } by {
            if id != last {
                let k = choose|k: int| 0 <= k < order.len() && order[k] == id;
                assert(rest[k] == id);
                assert(rest.contains(id));
                let one = drop_order(id);
                let two = stop_order(id);
                let three = DirectiveView::LogPurged { device_id, address: sessions[id].address };
                let i = choose|i: int| 0 <= i < some.len() && some[i] == one;
                let j = choose|j: int| 0 <= j < some.len() && some[j] == two;
                let l = choose|l: int| 0 <= l < some.len() && some[l] == three;
                assert(all[i] == one && all[j] == two && all[l] == three);
            }
        }
        assert forall|id: u64|
            all.contains(
                #[trigger] drop_order(id),
            ) implies order.contains(id) by {
            let one = drop_order(id);
            let i = choose|i: int| 0 <= i < all.len() && all[i] == one;
            if i < some.len() {
                assert(some[i] == one);
                assert(some.contains(one));
                let k = choose|k: int| 0 <= k < rest.len() && rest[k] == id;
                assert(order[k] == id);
            } else {
                assert(order[order.len() - 1] == last);
            }
        }
    }
}

/// A directive asks an engine for a tunnel.
pub open spec fn asks_for_tunnel(directive: DirectiveView) -> bool {
    match directive {
        DirectiveView::Order(CommandView::ActivateTunnel { .. }) => true,
        DirectiveView::Require(CommandView::ActivateTunnel { .. }) => true,
        _ => false,
    }
}

/// A directive has something sent to a client.
pub open spec fn sends(directive: DirectiveView) -> bool {
    match directive {
        DirectiveView::Order(CommandView::SendPlain { .. }) => true,
        DirectiveView::Require(CommandView::SendPlain { .. }) => true,
        _ => false,
    }
}

/// What is to be done for a request that was granted, in this order: the engines learn the
/// worker, the sessions that it takes the place of go, a database that changed is saved, the
/// engines learn the device, key and framing and that the key is in force, the tunnel is noted
/// and asked for where the device has an address, the client is answered, and the credentials
/// are worked out anew where the database changed.
pub open spec fn grant_list(
    session_id: u64,
    request: RequestView,
    farewells: Seq<DirectiveView>,
    changed: bool,
    tunnel_ip: Option<[u8; 4]>,
    registration_id: u64,
    response: Seq<char>,
) -> Seq<DirectiveView> {
    let first = seq![DirectiveView::NoteWorker { session_id, worker_id: request.worker_id }]
        + farewells;
    let saved = if changed {
        first.push(DirectiveView::SaveDatabase)
    } else {
        first
    };
    let keyed = saved.push(
        DirectiveView::Require(
            CommandView::UpdateEpoch {
                session_id,
                device_id: request.device_id,
                generation_id: request.generation_id,
                session_salt: request.session_salt,
            },
        ),
    ).push(
        DirectiveView::Require(
            CommandView::SetDataFrames { session_id, enabled: request.data_frames },
        ),
    ).push(
        DirectiveView::Require(
            CommandView::SetAuthoritativeEpoch {
                device_id: request.device_id,
                generation_id: request.generation_id,
                session_salt: request.session_salt,
            },
        ),
    );
    let routed = match tunnel_ip {
        Some(ip) => keyed.push(DirectiveView::NoteTunnel { session_id, ip }).push(
            DirectiveView::Require(
                CommandView::ActivateTunnel {
                    session_id,
                    ip,
                    registration_id,
                    worker_id: request.worker_id,
                    desired_count: request.desired_count,
                },
            ),
        ),
        None => keyed,
    };
    let answered = routed.push(
        DirectiveView::Require(
            CommandView::SendPlain { session_id, payload: encode_utf8(response) },
        ),
    );
    if changed {
        answered.push(DirectiveView::RefreshCredentials)
    } else {
        answered
    }
}

/// What is to be done for a request that was granted is listed as [`grant_list`] says, and what
/// stands for the sessions that it takes the place of are farewells: one for each of them, and
/// for no other session.
pub proof fn grants_are_carried_out(
    session_id: u64,
    request: RequestView,
    listed: Map<u64, PublicView>,
    superseded: Set<u64>,
    replaced: Set<u64>,
    changed: bool,
    tunnel_ip: Option<[u8; 4]>,
    registration_id: u64,
    response: Seq<char>,
    directives: Seq<DirectiveView>,
) -> (farewells: Seq<DirectiveView>)
    requires
        admission::purges_then(
            session_id,
            request,
            listed,
            superseded,
            replaced,
            admission::granted_directives(
                session_id,
                request,
                changed,
                tunnel_ip,
                registration_id,
                response,
            ),
            directives,
        ),
    ensures
        directives == grant_list(
            session_id,
            request,
            farewells,
            changed,
            tunnel_ip,
            registration_id,
            response,
        ),
        forall|k: int| 0 <= k < farewells.len() ==> is_farewell(#[trigger] farewells[k]),
        forall|id: u64|
            (superseded.contains(id) || replaced.contains(id)) <==> farewells.contains(
                #[trigger] drop_order(id),
            ),
        forall|id: u64|
            superseded.contains(id) || replaced.contains(id) ==> farewells.contains(
                #[trigger] stop_order(id),
            ),
        forall|id: u64| #[trigger]
            superseded.contains(id) ==> farewells.contains(
                DirectiveView::LogPurged {
                    device_id: request.device_id,
                    address: listed[id].address,
                },
            ),
{
    let rest = admission::granted_directives(
        session_id,
        request,
        changed,
        tunnel_ip,
        registration_id,
        response,
    );
    let (first, second) = choose|first: Seq<DirectiveView>, second: Seq<DirectiveView>|
        {
            &&& #[trigger] registry::purges_in_some_order(
                superseded,
                listed,
                request.device_id,
                first,
            )
            &&& #[trigger] registry::drops_in_some_order(replaced, true, Seq::empty(), second)
            &&& directives == seq![
                DirectiveView::NoteWorker { session_id, worker_id: request.worker_id },
            ] + first + second + rest
        };
    let one = choose|order: Seq<u64>|
        {
            &&& #[trigger] registry::lists_ids(order, superseded)
            &&& first == registry::purge_directives(order, listed, request.device_id)
        };
    let two = choose|order: Seq<u64>|
        {
            &&& #[trigger] registry::lists_ids(order, replaced)
            &&& second == registry::drop_directives(order) + Seq::<DirectiveView>::empty()
        };
    assert(second =~= registry::drop_directives(two));
    lemma_purges(one, listed, request.device_id);
    lemma_drops(two);
    let farewells = first + second;
    assert forall|id: u64| one.contains(id) <==> superseded.contains(id) by {
        assert(one.to_set().contains(id) <==> one.contains(id));
    }
    assert forall|id: u64| two.contains(id) <==> replaced.contains(id) by {
        assert(two.to_set().contains(id) <==> two.contains(id));
    }
    assert forall|directive: DirectiveView| #[trigger] farewells.contains(directive) <==> (
    first.contains(directive) || second.contains(directive)) by {
        if first.contains(directive) {
            let i = choose|i: int| 0 <= i < first.len() && first[i] == directive;
            assert(farewells[i] == directive);
        }
        if second.contains(directive) {
            let i = choose|i: int| 0 <= i < second.len() && second[i] == directive;
            assert(farewells[first.len() + i] == directive);
        }
        if farewells.contains(directive) {
            let i = choose|i: int| 0 <= i < farewells.len() && farewells[i] == directive;
            if i < first.len() {
                assert(first[i] == directive);
            } else {
                assert(second[i - first.len()] == directive);
            }
        }
    }
    assert forall|id: u64|
        (superseded.contains(id) || replaced.contains(id)) <==> farewells.contains(
            #[trigger] drop_order(id),
        ) by {
        let drop = drop_order(id);
        assert(one.contains(id) ==> first.contains(drop));
        assert(two.contains(id) ==> second.contains(drop));
    }
    assert forall|id: u64| superseded.contains(id) || replaced.contains(id) implies farewells.contains(
        #[trigger] stop_order(id),
    ) by {
        assert(one.contains(id) ==> first.contains(stop_order(id)));
        assert(two.contains(id) ==> second.contains(stop_order(id)));
    }
    assert forall|id: u64| #[trigger] superseded.contains(id) implies farewells.contains(
        DirectiveView::LogPurged { device_id: request.device_id, address: listed[id].address },
    ) by {
        assert(one.contains(id));
    }
    assert(directives =~= grant_list(
        session_id,
        request,
        farewells,
        changed,
        tunnel_ip,
        registration_id,
        response,
    ));
    farewells
}

/// Where a request is granted and its device has an address, exactly one directive asks for a
/// tunnel. It is required, and it is for the session that asked, with that address, under the
/// registration given, for the worker and the number of streams that the request names. It
/// stands before the one directive that answers the client, which is required too. An engine
/// that has the session asks for that route when it is told so.
pub proof fn grants_activate_the_tunnel(
    session_id: u64,
    request: RequestView,
    listed: Map<u64, PublicView>,
    superseded: Set<u64>,
    replaced: Set<u64>,
    changed: bool,
    ip: [u8; 4],
    registration_id: u64,
    response: Seq<char>,
    directives: Seq<DirectiveView>,
    engine: EngineView,
    after: EngineView,
) -> (at: (int, int))
    requires
        admission::purges_then(
            session_id,
            request,
            listed,
            superseded,
            replaced,
            admission::granted_directives(
                session_id,
                request,
                changed,
                Some(ip),
                registration_id,
                response,
            ),
            directives,
        ),
    ensures
        0 <= at.0 < at.1 < directives.len(),
        directives[at.0] == DirectiveView::Require(
            CommandView::ActivateTunnel {
                session_id,
                ip,
                registration_id,
                worker_id: request.worker_id,
                desired_count: request.desired_count,
            },
        ),
        directives[at.1] == DirectiveView::Require(
            CommandView::SendPlain { session_id, payload: encode_utf8(response) },
        ),
        forall|k: int|
            0 <= k < directives.len() && asks_for_tunnel(#[trigger] directives[k]) ==> k == at.0,
        forall|k: int|
            0 <= k < directives.len() && sends(#[trigger] directives[k]) ==> k == at.1,
        engine.by_id.contains_key(session_id) && engine.obeyed(
            directives[at.0]->Require_0,
            after,
        ) ==> after.effects.last() == EffectView::RegisterRoute(
            (RouteRequest {
                ip,
                session_id,
                registration_id,
                worker_id: request.worker_id,
                slot: engine.by_id[session_id],
                desired_count: request.desired_count,
                previous_ip: {
                    let session = engine.sessions[engine.by_id[session_id]];
                    if session.tunnel_ip is Some && session.registration_id is Some {
                        session.tunnel_ip
                    } else {
                        None
                    }
                },
            }),
        ),
{
    let farewells = grants_are_carried_out(
        session_id,
        request,
        listed,
        superseded,
        replaced,
        changed,
        Some(ip),
        registration_id,
        response,
        directives,
    );
    let saved = if changed {
        1int
    } else {
        0int
    };
    let at = 1 + farewells.len() + saved + 4;
    assert forall|k: int| 0 <= k < directives.len() implies (asks_for_tunnel(
        #[trigger] directives[k],
    ) ==> k == at) && (sends(directives[k]) ==> k == at + 1) by {
        if 1 <= k < 1 + farewells.len() {
            assert(directives[k] == farewells[k - 1]);
            assert(is_farewell(farewells[k - 1]));
        }
    }
    if engine.by_id.contains_key(session_id) && engine.obeyed(directives[at]->Require_0, after) {
        activations_ask_for_the_route(
            engine,
            session_id,
            ip,
            registration_id,
            request.worker_id,
            request.desired_count,
            after,
        );
    }
    (at, at + 1)
}

/// Where the device of a request that is granted has no address, no tunnel is asked for, and
/// the client is still answered, once.
pub proof fn grants_without_address_are_answered(
    session_id: u64,
    request: RequestView,
    listed: Map<u64, PublicView>,
    superseded: Set<u64>,
    replaced: Set<u64>,
    changed: bool,
    registration_id: u64,
    response: Seq<char>,
    directives: Seq<DirectiveView>,
) -> (at: int)
    requires
        admission::purges_then(
            session_id,
            request,
            listed,
            superseded,
            replaced,
            admission::granted_directives(
                session_id,
                request,
                changed,
                None,
                registration_id,
                response,
            ),
            directives,
        ),
    ensures
        0 <= at < directives.len(),
        directives[at] == DirectiveView::Require(
            CommandView::SendPlain { session_id, payload: encode_utf8(response) },
        ),
        forall|k: int| 0 <= k < directives.len() ==> !asks_for_tunnel(#[trigger] directives[k]),
        forall|k: int| 0 <= k < directives.len() && sends(#[trigger] directives[k]) ==> k == at,
{
    let farewells = grants_are_carried_out(
        session_id,
        request,
        listed,
        superseded,
        replaced,
        changed,
        None,
        registration_id,
        response,
        directives,
    );
    let saved = if changed {
        1int
    } else {
        0int
    };
    let at = 1 + farewells.len() + saved + 3;
    assert forall|k: int| 0 <= k < directives.len() implies !asks_for_tunnel(
        #[trigger] directives[k],
    ) && (sends(directives[k]) ==> k == at) by {
        if 1 <= k < 1 + farewells.len() {
            assert(directives[k] == farewells[k - 1]);
            assert(is_farewell(farewells[k - 1]));
        }
    }
    at
}

/// A request that is refused is answered with the refusal, and its session is dropped after
/// that, where the request is its own. A key that was looked up in vain is forgotten.
pub proof fn refusals_are_answered(
    session_id: u64,
    created_epoch: bool,
    own_request: bool,
    response: Seq<char>,
)
    ensures
        ({
            let directives = admission::refused_directives(
                session_id,
                created_epoch,
                own_request,
                response,
            );
            let answer = DirectiveView::Require(
                CommandView::SendPlain { session_id, payload: encode_utf8(response) },
            );
            &&& created_epoch && own_request ==> directives == seq![
                DirectiveView::ForgetEpoch,
                answer,
                DirectiveView::Drop { session_id },
            ]
            &&& created_epoch && !own_request ==> directives == seq![
                DirectiveView::ForgetEpoch,
                answer,
            ]
            &&& !created_epoch && own_request ==> directives == seq![
                answer,
                DirectiveView::Drop { session_id },
            ]
            &&& !created_epoch && !own_request ==> directives == seq![answer]
        }),
{
    let directives = admission::refused_directives(
        session_id,
        created_epoch,
        own_request,
        response,
    );
    let answer = DirectiveView::Require(
        CommandView::SendPlain { session_id, payload: encode_utf8(response) },
    );
    if created_epoch && own_request {
        assert(directives =~= seq![
            DirectiveView::ForgetEpoch,
            answer,
            DirectiveView::Drop { session_id },
        ]);
    } else if created_epoch {
        assert(directives =~= seq![DirectiveView::ForgetEpoch, answer]);
    } else if own_request {
        assert(directives =~= seq![answer, DirectiveView::Drop { session_id }]);
    } else {
        assert(directives =~= seq![answer]);
    }
}

/// The password is the main one.
pub open spec fn is_main(db: DatabaseView, password: Seq<char>) -> bool {
    db.main_password.len() > 0 && password == db.main_password
}

/// The main password gives access on any device until it is bound to one, and on that one
/// after.
pub proof fn the_main_password_gives_access(
    db: DatabaseView,
    password: Seq<char>,
    device_id: Seq<char>,
)
    requires
        is_main(db, password),
    ensures
        db.main_device_id.len() == 0 || db.main_device_id == device_id ==> access::credential_access(
            db,
            password,
            device_id,
        ) == Ok::<CredentialAccess, Seq<char>>(CredentialAccess::Main),
        db.main_device_id.len() > 0 && db.main_device_id != device_id ==> access::credential_access(
            db,
            password,
            device_id,
        ) == Err::<CredentialAccess, Seq<char>>("DENIED:device_mismatch"@),
{
}

/// Another password gives access while it is known, its lifetime is not over and it was not
/// deactivated: on any device until it is bound to one, and on that one after. The first
/// reason, in this order, is the one that is given.
pub proof fn other_passwords_give_access(
    db: DatabaseView,
    password: Seq<char>,
    device_id: Seq<char>,
)
    requires
        !is_main(db, password),
    ensures
        ({
            let outcome = access::credential_access(db, password, device_id);
            let entry = db.passwords[password];
            &&& !db.passwords.contains_key(password) ==> outcome == Err::<
                CredentialAccess,
                Seq<char>,
            >("DENIED:expired"@)
            &&& db.passwords.contains_key(password) && entry.expired ==> outcome == Err::<
                CredentialAccess,
                Seq<char>,
            >("DENIED:expired"@)
            &&& db.passwords.contains_key(password) && !entry.expired && entry.is_deactivated
                ==> outcome == Err::<CredentialAccess, Seq<char>>("DENIED:deactivated"@)
            &&& db.passwords.contains_key(password) && !entry.expired && !entry.is_deactivated
                && entry.device_id.len() == 0 ==> outcome == Ok::<CredentialAccess, Seq<char>>(
                CredentialAccess::Unbound,
            )
            &&& db.passwords.contains_key(password) && !entry.expired && !entry.is_deactivated
                && entry.device_id.len() > 0 && entry.device_id == device_id ==> outcome == Ok::<
                CredentialAccess,
                Seq<char>,
            >(CredentialAccess::Bound)
            &&& db.passwords.contains_key(password) && !entry.expired && !entry.is_deactivated
                && entry.device_id.len() > 0 && entry.device_id != device_id ==> outcome == Err::<
                CredentialAccess,
                Seq<char>,
            >("DENIED:device_mismatch"@)
        }),
{
}

/// A device that is known is controlled by whoever holds a password that is bound to it and
/// gives access, or the main password while that is bound to no other device.
pub proof fn devices_are_controlled_by_their_passwords(
    db: DatabaseView,
    password: Seq<char>,
    device_id: Seq<char>,
)
    ensures
        access::controls_device(db, password, device_id) <==> device_id.len() > 0
            && db.devices.contains_key(device_id) && match access::credential_access(
            db,
            password,
            device_id,
        ) {
            Ok(CredentialAccess::Main) => true,
            Ok(CredentialAccess::Bound) => true,
            _ => false,
        },
{
}

/// A session may end the sessions of a device if and only if it is of that device, names the
/// salt of its key, that key is in force, and its password controls the device.
pub proof fn disconnects_need_the_key_in_force(
    db: DatabaseView,
    password: Seq<char>,
    requester: IdentityView,
    device_id: Seq<char>,
    salt: Seq<char>,
    epoch: EpochView,
)
    ensures
        access::may_disconnect(db, password, requester, device_id, salt, epoch) <==> {
            &&& salt.len() > 0
            &&& requester.device_id == device_id
            &&& requester.session_salt == salt
            &&& epoch.generation_id == requester.generation_id
            &&& epoch.session_salt == salt
            &&& access::controls_device(db, password, device_id)
        },
{
    if epoch.generation_id == requester.generation_id && epoch.session_salt == salt {
        assert(epoch =~= EpochView {
            generation_id: requester.generation_id,
            session_salt: salt,
        });
    }
}

/// A grant binds a password that was bound to no device, and the main password likewise, and
/// enters a device that was not known, with what it is offered. Nothing else in the database
/// changes.
pub proof fn grants_bind_and_enroll(
    db: DatabaseView,
    granted: CredentialAccess,
    request: RequestView,
    offer: Option<OfferView>,
    other: Seq<char>,
)
    requires
        access::credential_access(db, request.password, request.device_id) == Ok::<
            CredentialAccess,
            Seq<char>,
        >(granted),
    ensures
        ({
            let after = admission::admitted_db(db, granted, request, offer);
            &&& after.main_password == db.main_password
            &&& after.main_up_bytes == db.main_up_bytes
            &&& after.main_down_bytes == db.main_down_bytes
            &&& after.main_device_id == if is_main(db, request.password)
                && db.main_device_id.len() == 0 {
                request.device_id
            } else {
                db.main_device_id
            }
            &&& after.passwords.dom() == db.passwords.dom()
            &&& db.passwords.contains_key(other) ==> after.passwords[other] == if other
                == request.password && !is_main(db, request.password)
                && db.passwords[other].device_id.len() == 0 {
                PasswordView { device_id: request.device_id, ..db.passwords[other] }
            } else {
                db.passwords[other]
            }
            &&& db.devices.contains_key(other) ==> after.devices.contains_key(other)
                && after.devices[other] == db.devices[other]
            &&& other != request.device_id && !db.devices.contains_key(other)
                ==> !after.devices.contains_key(other)
            &&& !db.devices.contains_key(request.device_id) ==> match offer {
                Some(made) => after.devices.contains_key(request.device_id)
                    && after.devices[request.device_id] == (DeviceView {
                    device_id: request.device_id,
                    ip: made.ip,
                    address: made.address,
                    priv_key: made.priv_key,
                    pub_key: made.pub_key,
                    up_bytes: 0,
                    down_bytes: 0,
                }),
                None => !after.devices.contains_key(request.device_id),
            }
        }),
{
    let after = admission::admitted_db(db, granted, request, offer);
    assert(after.passwords.dom() =~= db.passwords.dom());
}

/// Once a request is granted, the session that asked has the device, key, worker and number of
/// streams that it named. Other sessions of that device are gone where they hold another key,
/// or the same key and worker; all others are as they were.
pub proof fn grants_tidy_the_registry(
    registry: RegistryView,
    session_id: u64,
    request: RequestView,
    other: u64,
)
    requires
        forall|id: u64| #[trigger]
            registry.sessions.contains_key(id) ==> registry.sessions[id].id == id,
        other != session_id,
    ensures
        ({
            let after = admission::admitted_registry(registry, session_id, request);
            let was = registry.sessions[session_id];
            let its = registry.sessions[other];
            let same_key = its.generation_id == request.generation_id && its.session_salt
                == request.session_salt;
            &&& registry.sessions.contains_key(session_id) ==> {
                &&& after.sessions.contains_key(session_id)
                &&& after.sessions[session_id] == (PublicView {
                    device_id: request.device_id,
                    generation_id: request.generation_id,
                    session_salt: request.session_salt,
                    worker_id: request.worker_id as u64,
                    desired_stream_count: request.desired_count as u64,
                    ..was
                })
            }
            &&& after.sessions.contains_key(other) <==> registry.sessions.contains_key(other) && !(
            its.device_id == request.device_id && (!same_key || its.worker_id
                == request.worker_id))
            &&& after.sessions.contains_key(other) ==> after.sessions[other] == its
            &&& after.total_connections == registry.total_connections
            &&& after.up_total == registry.up_total
            &&& after.down_total == registry.down_total
        }),
{
    let identity = admission::requested_identity(request);
    let noted = admission::noted(registry, session_id, request);
    let its = registry.sessions[other];
    if registry.sessions.contains_key(other) {
        assert(noted.sessions[other] == its);
        if its.device_id == request.device_id && its.generation_id == request.generation_id
            && its.session_salt == request.session_salt {
            assert(its.identity() =~= identity);
        }
    }
}

/// The answer to a request that is granted names the address of the device, where the device
/// asks for names, the port that the client gave, and how the streams are framed.
pub proof fn answers_name_the_address(
    db: DatabaseView,
    request: RequestView,
    dns: Seq<char>,
)
    ensures
        ({
            let ending = if request.data_frames {
                "stream-v2"@
            } else {
                "stream-v1"@
            };
            let known = db.devices.contains_key(request.device_id);
            &&& known ==> admission::answer(db, request, dns) == "TUNCONF:"@
                + db.devices[request.device_id].ip + ":"@ + dns + ":"@ + request.client_port
                + ":"@ + ending
            &&& known ==> admission::granted_ip(db, request)
                == db.devices[request.device_id].address
            &&& !known ==> admission::answer(db, request, dns) == "NOCONF"@
            &&& !known ==> admission::granted_ip(db, request) is None
        }),
{
}

/// A request is worked on if and only if it is well formed and its password gives access to its
/// device. One that is not is refused for the first reason found; the session is dropped where
/// only access was denied and the session has no device yet, or those that the request names.
pub proof fn requests_are_checked(
    message: Seq<char>,
    session: PublicView,
    db: DatabaseView,
    current: Seq<char>,
    legacy: Seq<char>,
)
    ensures
        ({
            let outcome = admission::checked(message, session, db, current, legacy);
            match getconf::checked_request(
                getconf::getconf_text(message),
                session.password,
                current,
                legacy,
            ) {
                Err(denial) => outcome == (CheckView::Refused { denial, drop_session: false }),
                Ok(request) => match access::credential_access(
                    db,
                    request.password,
                    request.device_id,
                ) {
                    Ok(granted) => outcome == CheckView::Proceeds(request),
                    Err(reason) => {
                        &&& outcome matches CheckView::Refused { denial, drop_session }
                        &&& denial == (DenialView {
                            response: reason,
                            device_id: request.device_id,
                            generation_id: Some(request.generation_id),
                            worker_id: Some(request.worker_id),
                            desired_count: Some(request.desired_count),
                        })
                        &&& drop_session <==> session.device_id.len() == 0 || (
                        session.device_id == request.device_id && session.generation_id
                            == request.generation_id && session.session_salt
                            == request.session_salt)
                    },
                },
            }
        }),
{
    match getconf::checked_request(
        getconf::getconf_text(message),
        session.password,
        current,
        legacy,
    ) {
        Ok(request) => {
            let identity = admission::requested_identity(request);
            if session.device_id == request.device_id && session.generation_id
                == request.generation_id && session.session_salt == request.session_salt {
                assert(session.identity() =~= identity);
            }
        },
        Err(denial) => {},
    }
}

/// A control packet is read as what it asks for: a configuration, or a disconnect with the
/// device and the salt that it names. One that is no text is malformed, and any other packet
/// asks for nothing.
pub proof fn control_packets_are_read(payload: Seq<u8>)
    ensures
        ({
            let asked = admission::requested(payload);
            let getconf = begins(payload, getconf_mark());
            let disconnect = begins(payload, disconnect_mark());
            &&& !getconf && !disconnect ==> asked == ControlRequestView::Ignored
            &&& (getconf || disconnect) && !valid_utf8(payload) ==> asked
                == ControlRequestView::Malformed
            &&& getconf && valid_utf8(payload) ==> asked == ControlRequestView::Getconf(
                decode_utf8(payload),
            )
            &&& disconnect && valid_utf8(payload) ==> asked is Disconnect
        }),
{
    assert(crate::control::GETCONF_PREFIX@ =~= getconf_mark());
    assert(crate::control::DISCONNECT_PREFIX@ =~= disconnect_mark());
    assert(payload.take(8) =~= payload.subrange(0, 8));
    assert(payload.take(11) =~= payload.subrange(0, 11));
    if begins(payload, getconf_mark()) && begins(payload, disconnect_mark()) {
        assert(payload.take(8)[0] == getconf_mark()[0]);
        assert(payload.take(11)[0] == disconnect_mark()[0]);
    }
}

/// A request to disconnect names the device and the salt: what stands before and after the
/// first bar, without the white space at the ends.
pub proof fn disconnects_name_device_and_salt(device_id: Seq<char>, salt: Seq<char>)
    requires
        !device_id.contains('|'),
        device_id.len() > 0 ==> !text::is_white_space(device_id[0]) && !text::is_white_space(
            device_id.last(),
        ),
        salt.len() > 0 ==> !text::is_white_space(salt[0]) && !text::is_white_space(salt.last()),
    ensures
        admission::disconnect_fields("DISCONNECT:"@ + (device_id.push('|') + salt)) == (
            device_id,
            salt,
        ),
{
    let prefix = "DISCONNECT:"@;
    let body = device_id.push('|') + salt;
    let message = prefix + body;
    assert(message.subrange(0, prefix.len() as int) =~= prefix);
    assert(message.subrange(prefix.len() as int, message.len() as int) =~= body);
    assert(body[device_id.len() as int] == '|');
    assert(!text::is_white_space('|'));
    assert(body.last() == if salt.len() > 0 {
        salt.last()
    } else {
        '|'
    });
    assert(body[0] == if device_id.len() > 0 {
        device_id[0]
    } else {
        '|'
    });
    assert(text::trimmed(body) == body);
    text::lemma_first_field(device_id, salt, 2);
    assert(text::fields(salt, 1) =~= seq![salt]);
}

/// A request to disconnect has to name a device and a salt, of at most 128 bytes each.
pub proof fn disconnects_are_well_formed(device_id: Seq<char>, salt: Seq<char>)
    ensures
        ({
            let fault = admission::disconnect_fault(device_id, salt);
            let device_ok = 0 < device_id.len() && encode_utf8(device_id).len() <= 128;
            let salt_ok = 0 < salt.len() && encode_utf8(salt).len() <= 128;
            &&& fault is None <==> device_ok && salt_ok
            &&& !device_ok ==> fault == Some("DENIED:invalid_device"@)
            &&& device_ok && !salt_ok ==> fault == Some("DENIED:invalid_epoch"@)
        }),
{
}

/// The address for a tunnel is the one that the session has, or else the one that was looked
/// up for its device.
pub proof fn tunnels_have_an_address(session: PublicView, resolved: Option<ResolvedAddress>)
    ensures
        ({
            let outcome = admission::tunnel_address(session, resolved);
            &&& session.tunnel_ip matches Some(ip) ==> outcome == Ok::<[u8; 4], TunnelError>(ip)
            &&& session.tunnel_ip is None && resolved is None ==> outcome == Err::<
                [u8; 4],
                TunnelError,
            >(TunnelError::NoAddress)
            &&& session.tunnel_ip is None && (resolved matches Some(found) && found.address is None)
                ==> outcome == Err::<[u8; 4], TunnelError>(TunnelError::InvalidAddress)
            &&& session.tunnel_ip is None && (resolved matches Some(found) && found.address is Some)
                ==> outcome == Ok::<[u8; 4], TunnelError>(resolved->0.address->0)
        }),
{
}

/// A session wants as many streams as it said, where that is between its worker number and 126.
pub proof fn sessions_want_what_they_said(session: PublicView)
    ensures
        session.worker_id <= session.desired_stream_count && 1 <= session.desired_stream_count
            <= 126 ==> admission::streams_wanted(session) == session.desired_stream_count,
        !(session.worker_id <= session.desired_stream_count && 1 <= session.desired_stream_count
            <= 126) ==> admission::streams_wanted(session) == 0,
{
}

/// The configuration that is sent to connected clients names the address in the usual notation
/// and where to ask for names.
pub proof fn hot_configurations_name_the_address(ip: [u8; 4], dns: Seq<char>, session: PublicView)
    requires
        session.tunnel_ip == Some(ip),
    ensures
        admission::hot_configuration(ip, dns) == "TUNCONF:"@ + (text::decimal(ip@[0] as nat) + "."@
            + text::decimal(ip@[1] as nat) + "."@ + text::decimal(ip@[2] as nat) + "."@
            + text::decimal(ip@[3] as nat)) + ":"@ + dns + ":0:stream-v2"@,
        admission::hot_command(session, dns) == (CommandView::SendPlain {
            session_id: session.id,
            payload: encode_utf8(admission::hot_configuration(ip, dns)),
        }),
{
}

} // verus!
