//! How the control side answers what clients ask for.
use crate::access;
use crate::access::{
    device_control_authorized, disconnect_request_authorized, getconf_credential_access,
    CredentialAccess,
};
use crate::bytes;
use crate::bytes::{copy_of, starts_with};
use crate::control::{DISCONNECT_PREFIX, GETCONF_PREFIX};
use crate::effect::{CommandView, ProtocolCommand};
use crate::epoch::{DeviceEpochState, EpochView, IdentityView};
use crate::getconf;
use crate::getconf::{
    read_getconf, DenialView, GetconfDenial, GetconfRequest, RequestView, WireRevisions,
    MAX_IDENTITY_LEN, MAX_STREAM_WORKERS,
};
use crate::model::{ClientDevice, Database, DatabaseView, DeviceView, PasswordView};
use crate::registry;
use crate::registry::{
    session_epoch_identity, Directive, DirectiveView, PublicView, Registry, RegistryView, Session,
};
use crate::text;
use crate::text::{
    after_prefix, push_decimal, same_text, split_fields, text_begins_with, trimmed_field, utf8_text,
};
use vstd::prelude::*;
use vstd::string::*;
use vstd::utf8::*;

verus! {

/// A session whose request was refused may be dropped: it has no device yet, or it has the
/// one and the key that the request names.
pub open spec fn is_own_request(session: IdentityView, requested: IdentityView) -> bool {
    session.device_id.len() == 0 || session == requested
}

/// Whether a session whose request was refused is to be dropped.
pub fn rejected_session_is_request(
    session: &Session,
    device_id: &str,
    generation_id: u64,
    session_salt: &str,
) -> (own: bool)
    ensures
        own == is_own_request(
            session@.identity(),
            (IdentityView { device_id: device_id@, generation_id, session_salt: session_salt@ }),
        ),
{
    let same = same_text(session.device_id.as_str(), device_id) && session.generation_id
        == generation_id && same_text(session.session_salt.as_str(), session_salt);
    assert(same == (session@.identity() =~= (IdentityView {
        device_id: device_id@,
        generation_id,
        session_salt: session_salt@,
    })));
    session.device_id.as_str().is_empty() || same
}

/// The device and key that a request names.
pub open spec fn requested_identity(request: RequestView) -> IdentityView {
    IdentityView {
        device_id: request.device_id,
        generation_id: request.generation_id,
        session_salt: request.session_salt,
    }
}

/// How a configuration request fares before it is worked on.
pub enum GetconfCheck {
    /// It is refused, and the session is dropped where `drop_session`.
    Refused { denial: GetconfDenial, drop_session: bool },
    /// It is worked on.
    Proceeds(GetconfRequest),
}

/// What a [`GetconfCheck`] says.
#[verifier::ext_equal]
pub enum CheckView {
    Refused { denial: DenialView, drop_session: bool },
    Proceeds(RequestView),
}

impl View for GetconfCheck {
    type V = CheckView;

    open spec fn view(&self) -> CheckView {
        match *self {
            GetconfCheck::Refused { denial, drop_session } => CheckView::Refused {
                denial: denial@,
                drop_session,
            },
            GetconfCheck::Proceeds(request) => CheckView::Proceeds(request@),
        }
    }
}

/// How the request `text` of a session fares before it is worked on: it has to be well formed,
/// and its password has to give access to its device.
pub open spec fn checked(
    text: Seq<char>,
    session: PublicView,
    db: DatabaseView,
    current: Seq<char>,
    legacy: Seq<char>,
) -> CheckView {
    match getconf::checked_request(
        getconf::getconf_text(text),
        session.password,
        current,
        legacy,
    ) {
        Err(denial) => CheckView::Refused { denial, drop_session: false },
        Ok(request) => match access::credential_access(db, request.password, request.device_id) {
            Err(response) => CheckView::Refused {
                denial: DenialView {
                    response,
                    device_id: request.device_id,
                    generation_id: Some(request.generation_id),
                    worker_id: Some(request.worker_id),
                    desired_count: Some(request.desired_count),
                },
                drop_session: is_own_request(session.identity(), requested_identity(request)),
            },
            Ok(_) => CheckView::Proceeds(request),
        },
    }
}

/// Reads a configuration request and checks whether it is to be worked on.
pub fn check_getconf(
    text: &str,
    session: &Session,
    db: &Database,
    revisions: &WireRevisions,
) -> (outcome: GetconfCheck)
    requires
        db.wf(),
    ensures
        outcome@ == checked(text@, session@, db@, revisions.current@, revisions.legacy@),
{
    let request = match read_getconf(text, session.password.as_str(), revisions) {
        Ok(request) => request,
        Err(denial) => return GetconfCheck::Refused { denial, drop_session: false },
    };
    match getconf_credential_access(db, request.password.as_str(), request.device_id.as_str()) {
        Ok(_) => GetconfCheck::Proceeds(request),
        Err(response) => {
            let drop_session = rejected_session_is_request(
                session,
                request.device_id.as_str(),
                request.generation_id,
                request.session_salt.as_str(),
            );
            GetconfCheck::Refused {
                denial: GetconfDenial {
                    response,
                    device_id: request.device_id,
                    generation_id: Some(request.generation_id),
                    worker_id: Some(request.worker_id),
                    desired_count: Some(request.desired_count),
                },
                drop_session,
            }
        },
    }
}

/// An address and keys for a device that is not known yet.
pub struct DeviceOffer {
    /// The address, as text.
    pub ip: String,
    /// The address, where the text is one.
    pub address: Option<[u8; 4]>,
    pub priv_key: String,
    pub pub_key: String,
}

/// What a [`DeviceOffer`] says.
#[verifier::ext_equal]
pub struct OfferView {
    pub ip: Seq<char>,
    pub address: Option<[u8; 4]>,
    pub priv_key: Seq<char>,
    pub pub_key: Seq<char>,
}

impl View for DeviceOffer {
    type V = OfferView;

    open spec fn view(&self) -> OfferView {
        OfferView {
            ip: self.ip@,
            address: self.address,
            priv_key: self.priv_key@,
            pub_key: self.pub_key@,
        }
    }
}

/// What an offer says, if there is one.
pub open spec fn offer_view(offer: Option<DeviceOffer>) -> Option<OfferView> {
    match offer {
        Some(made) => Some(made@),
        None => None,
    }
}

/// The database once a password that gave access is bound to its device.
pub open spec fn bound(
    db: DatabaseView,
    granted: CredentialAccess,
    password: Seq<char>,
    device_id: Seq<char>,
) -> DatabaseView {
    match granted {
        CredentialAccess::Unbound => if db.passwords.contains_key(password) {
            DatabaseView {
                passwords: db.passwords.insert(
                    password,
                    PasswordView { device_id, ..db.passwords[password] },
                ),
                ..db
            }
        } else {
            db
        },
        CredentialAccess::Main => if db.main_device_id.len() == 0 {
            DatabaseView { main_device_id: device_id, ..db }
        } else {
            db
        },
        CredentialAccess::Bound => db,
    }
}

/// The database once a device is known: where it is not, it gets what is offered.
pub open spec fn enrolled(
    db: DatabaseView,
    device_id: Seq<char>,
    offer: Option<OfferView>,
) -> DatabaseView {
    match offer {
        Some(made) if !db.devices.contains_key(device_id) => DatabaseView {
            devices: db.devices.insert(
                device_id,
                DeviceView {
                    device_id,
                    ip: made.ip,
                    address: made.address,
                    priv_key: made.priv_key,
                    pub_key: made.pub_key,
                    up_bytes: 0,
                    down_bytes: 0,
                },
            ),
            ..db
        },
        _ => db,
    }
}

/// The database once a request with access was granted.
pub open spec fn admitted_db(
    db: DatabaseView,
    granted: CredentialAccess,
    request: RequestView,
    offer: Option<OfferView>,
) -> DatabaseView {
    enrolled(bound(db, granted, request.password, request.device_id), request.device_id, offer)
}

/// The registry once a session's request was granted: it has the device, key and worker that
/// the request names, and the sessions that it takes the place of are gone.
pub open spec fn admitted_registry(
    registry: RegistryView,
    session_id: u64,
    request: RequestView,
) -> RegistryView {
    let identity = requested_identity(request);
    noted(registry, session_id, request).without(
        |session: PublicView| registry::supersedes(session, identity, session_id),
    ).without(
        |session: PublicView|
            registry::replaces_worker(session, identity, request.worker_id as u64, session_id),
    )
}

/// The registry once a session has the device, key and worker that a request names.
pub open spec fn noted(
    registry: RegistryView,
    session_id: u64,
    request: RequestView,
) -> RegistryView {
    if registry.sessions.contains_key(session_id) {
        registry.with(
            PublicView {
                device_id: request.device_id,
                generation_id: request.generation_id,
                session_salt: request.session_salt,
                worker_id: request.worker_id as u64,
                desired_stream_count: request.desired_count as u64,
                ..registry.sessions[session_id]
            },
        )
    } else {
        registry
    }
}

/// The answer to a request that was granted, given the database after that.
pub open spec fn answer(
    db: DatabaseView,
    request: RequestView,
    dns: Seq<char>,
) -> Seq<char> {
    if db.devices.contains_key(request.device_id) {
        "TUNCONF:"@ + db.devices[request.device_id].ip + ":"@ + dns + ":"@ + request.client_port
            + ":"@ + if request.data_frames {
            "stream-v2"@
        } else {
            "stream-v1"@
        }
    } else {
        "NOCONF"@
    }
}

/// The tunnel address of a request that was granted, given the database after that.
pub open spec fn granted_ip(db: DatabaseView, request: RequestView) -> Option<[u8; 4]> {
    if db.devices.contains_key(request.device_id) {
        db.devices[request.device_id].address
    } else {
        None
    }
}

/// What is to be done once a request was granted: the database is saved where it changed, the
/// engines are told of the device, key and route, the client is answered, and the credentials
/// are worked out anew where the database changed.
pub open spec fn granted_directives(
    session_id: u64,
    request: RequestView,
    changed: bool,
    tunnel_ip: Option<[u8; 4]>,
    registration_id: u64,
    response: Seq<char>,
) -> Seq<DirectiveView> {
    let save = if changed {
        seq![DirectiveView::SaveDatabase]
    } else {
        Seq::empty()
    };
    let key = seq![
        DirectiveView::Require(
            CommandView::UpdateEpoch {
                session_id,
                device_id: request.device_id,
                generation_id: request.generation_id,
                session_salt: request.session_salt,
            },
        ),
        DirectiveView::Require(
            CommandView::SetDataFrames { session_id, enabled: request.data_frames },
        ),
        DirectiveView::Require(
            CommandView::SetAuthoritativeEpoch {
                device_id: request.device_id,
                generation_id: request.generation_id,
                session_salt: request.session_salt,
            },
        ),
    ];
    let route = match tunnel_ip {
        Some(ip) => seq![
            DirectiveView::NoteTunnel { session_id, ip },
            DirectiveView::Require(
                CommandView::ActivateTunnel {
                    session_id,
                    ip,
                    registration_id,
                    worker_id: request.worker_id,
                    desired_count: request.desired_count,
                },
            ),
        ],
        None => Seq::empty(),
    };
    let reply = seq![
        DirectiveView::Require(
            CommandView::SendPlain { session_id, payload: encode_utf8(response) },
        ),
    ];
    let refresh = if changed {
        seq![DirectiveView::RefreshCredentials]
    } else {
        Seq::empty()
    };
    save + key + route + reply + refresh
}

/// What is to be done once a request was refused: a key that was looked up in vain is
/// forgotten, the client is answered, and its session is dropped where that is its own
/// request.
pub open spec fn refused_directives(
    session_id: u64,
    created_epoch: bool,
    own_request: bool,
    response: Seq<char>,
) -> Seq<DirectiveView> {
    let forget = if created_epoch {
        seq![DirectiveView::ForgetEpoch]
    } else {
        Seq::empty()
    };
    let reply = seq![
        DirectiveView::Require(
            CommandView::SendPlain { session_id, payload: encode_utf8(response) },
        ),
    ];
    let gone = if own_request {
        seq![DirectiveView::Drop { session_id }]
    } else {
        Seq::empty()
    };
    forget + reply + gone
}

/// `directives` let the engines know the worker of a session, then drop the sessions that its
/// request takes the place of, in some order, and then do what `rest` says.
pub open spec fn purges_then(
    session_id: u64,
    request: RequestView,
    listed: Map<u64, PublicView>,
    superseded: Set<u64>,
    replaced: Set<u64>,
    rest: Seq<DirectiveView>,
    directives: Seq<DirectiveView>,
) -> bool {
    exists|first: Seq<DirectiveView>, second: Seq<DirectiveView>|
        {
            &&& #[trigger] registry::purges_in_some_order(
                superseded,
                listed,
                request.device_id,
                first,
            )
            &&& #[trigger] registry::drops_in_some_order(replaced, true, Seq::empty(), second)
            &&& directives == seq![
                DirectiveView::NoteWorker { session_id, worker_id: request.worker_id },
            ] + first + second + rest
        }
}

/// How a configuration request was answered.
pub struct Admission {
    pub response: String,
    /// Whether the request was granted.
    pub granted: bool,
    /// Whether the database changed.
    pub changed: bool,
    pub tunnel_ip: Option<[u8; 4]>,
    /// What is to be done, in this order.
    pub directives: Vec<Directive>,
}

/// Binds a password that gave access to its device, and makes the device known. Says whether
/// the database changed.
fn admit_device(
    db: &mut Database,
    granted: CredentialAccess,
    request: &GetconfRequest,
    offer: Option<DeviceOffer>,
) -> (changed: bool)
    requires
        old(db).wf(),
        request.device_id@.len() > 0,
        access::credential_access(old(db)@, request.password@, request.device_id@) == Ok::<
            CredentialAccess,
            Seq<char>,
        >(granted),
    ensures
        final(db).wf(),
        final(db)@ == admitted_db(old(db)@, granted, request@, offer_view(offer)),
        changed == (final(db)@ != old(db)@),
{
    let ghost before = db@;
    let mut changed = false;
    match granted {
        CredentialAccess::Unbound => {
            if let Some(at) = db.passwords.find(&request.password) {
                let entry = db.passwords.value_at_mut(at);
                entry.device_id = request.device_id.clone();
                changed = true;
            }
        },
        CredentialAccess::Main => {
            if db.main_device_id.as_str().is_empty() {
                db.main_device_id = request.device_id.clone();
                changed = true;
            }
        },
        CredentialAccess::Bound => {},
    }
    let ghost after = bound(before, granted, request.password@, request.device_id@);
    proof {
        assert(db@ =~= after);
        assert(changed ==> db@ != before) by {
            if changed {
                match granted {
                    CredentialAccess::Unbound => {
                        assert(db@.passwords[request.password@].device_id.len() > 0);
                        assert(before.passwords[request.password@].device_id.len() == 0);
                    },
                    _ => {
                        assert(db@.main_device_id.len() > 0);
                    },
                }
            }
        }
    }
    if !db.devices.contains_key(&request.device_id) {
        if let Some(made) = offer {
            db.devices.insert(
                request.device_id.clone(),
                ClientDevice {
                    device_id: request.device_id.clone(),
                    ip: made.ip,
                    address: made.address,
                    priv_key: made.priv_key,
                    pub_key: made.pub_key,
                    up_bytes: 0,
                    down_bytes: 0,
                },
            );
            changed = true;
            proof {
                assert(db@.devices.contains_key(request.device_id@));
                assert(!before.devices.contains_key(request.device_id@));
            }
        }
    }
    assert(db@ =~= admitted_db(before, granted, request@, offer_view(offer)));
    changed
}

/// Takes note of the device, key and worker of a session.
fn note_request(registry: &mut Registry, session_id: u64, request: &GetconfRequest)
    requires
        old(registry).wf(),
    ensures
        final(registry).wf(),
        final(registry)@ == noted(old(registry)@, session_id, request@),
{
    let found = registry.get(session_id);
    if let Some(known) = found {
        let mut session = known.copy();
        session.device_id = request.device_id.clone();
        session.generation_id = request.generation_id;
        session.session_salt = request.session_salt.clone();
        session.worker_id = request.worker_id as u64;
        session.desired_stream_count = request.desired_count as u64;
        registry.put(session);
    }
}

/// The answer to a request that was granted.
fn answer_text(db: &Database, request: &GetconfRequest, dns: &str) -> (answered: (
    String,
    Option<[u8; 4]>,
))
    requires
        db.wf(),
    ensures
        answered.0@ == answer(db@, request@, dns@),
        answered.1 == granted_ip(db@, request@),
{
    match db.devices.get(&request.device_id) {
        Some(device) => {
            let mut response = "TUNCONF:".to_owned();
            response.append(device.ip.as_str());
            response.append(":");
            response.append(dns);
            response.append(":");
            response.append(request.client_port.as_str());
            response.append(":");
            if request.data_frames {
                response.append("stream-v2");
            } else {
                response.append("stream-v1");
            }
            (response, device.address)
        },
        None => ("NOCONF".to_owned(), None),
    }
}

/// The bytes of a text.
fn text_bytes(text: &str) -> (bytes: Vec<u8>)
    ensures
        bytes@ == encode_utf8(text@),
{
    copy_of(text.as_bytes())
}

/// Puts together what is to be done once a request was granted.
fn list_granted(
    session_id: u64,
    request: &GetconfRequest,
    changed: bool,
    tunnel_ip: Option<[u8; 4]>,
    registration_id: u64,
    response: &str,
) -> (directives: Vec<Directive>)
    ensures
        registry::directive_views(directives@) == granted_directives(
            session_id,
            request@,
            changed,
            tunnel_ip,
            registration_id,
            response@,
        ),
{
    let mut directives: Vec<Directive> = Vec::new();
    if changed {
        directives.push(Directive::SaveDatabase);
    }
    directives.push(
        Directive::Require(
            ProtocolCommand::UpdateEpoch {
                session_id,
                device_id: request.device_id.clone(),
                generation_id: request.generation_id,
                session_salt: request.session_salt.clone(),
            },
        ),
    );
    directives.push(
        Directive::Require(
            ProtocolCommand::SetDataFrames { session_id, enabled: request.data_frames },
        ),
    );
    directives.push(
        Directive::Require(
            ProtocolCommand::SetAuthoritativeEpoch {
                device_id: request.device_id.clone(),
                generation_id: request.generation_id,
                session_salt: request.session_salt.clone(),
            },
        ),
    );
    if let Some(ip) = tunnel_ip {
        directives.push(Directive::NoteTunnel { session_id, ip });
        directives.push(
            Directive::Require(
                ProtocolCommand::ActivateTunnel {
                    session_id,
                    ip,
                    registration_id,
                    worker_id: request.worker_id,
                    desired_count: request.desired_count,
                },
            ),
        );
    }
    directives.push(
        Directive::Require(
            ProtocolCommand::SendPlain { session_id, payload: text_bytes(response) },
        ),
    );
    if changed {
        directives.push(Directive::RefreshCredentials);
    }
    assert(registry::directive_views(directives@) =~= granted_directives(
        session_id,
        request@,
        changed,
        tunnel_ip,
        registration_id,
        response@,
    ));
    directives
}

/// Puts together what is to be done once a request was refused.
fn list_refused(
    session_id: u64,
    created_epoch: bool,
    own_request: bool,
    response: &str,
) -> (directives: Vec<Directive>)
    ensures
        registry::directive_views(directives@) == refused_directives(
            session_id,
            created_epoch,
            own_request,
            response@,
        ),
{
    let mut directives: Vec<Directive> = Vec::new();
    if created_epoch {
        directives.push(Directive::ForgetEpoch);
    }
    directives.push(
        Directive::Require(
            ProtocolCommand::SendPlain { session_id, payload: text_bytes(response) },
        ),
    );
    if own_request {
        directives.push(Directive::Drop { session_id });
    }
    assert(registry::directive_views(directives@) =~= refused_directives(
        session_id,
        created_epoch,
        own_request,
        response@,
    ));
    directives
}

/// Works on a configuration request of a session: where its password still gives access to
/// its device, the key that it names is in force from now on.
///
/// `created_epoch` says whether the key of the device had to be looked up anew, `offer` what
/// the device gets where it is not known yet, `dns` what the client is told, and
/// `registration_id` a number that no route has had.
pub fn handle_getconf(
    request: &GetconfRequest,
    session: &Session,
    db: &mut Database,
    epoch: &mut DeviceEpochState,
    created_epoch: bool,
    registry: &mut Registry,
    offer: Option<DeviceOffer>,
    dns: &str,
    registration_id: u64,
) -> (admission: Admission)
    requires
        old(db).wf(),
        old(registry).wf(),
        request.device_id@.len() > 0,
    ensures
        final(db).wf(),
        final(registry).wf(),
        match access::credential_access(old(db)@, request.password@, request.device_id@) {
            Err(response) => {
                &&& admission.response@ == response
                &&& !admission.granted
                &&& !admission.changed
                &&& admission.tunnel_ip is None
                &&& final(db)@ == old(db)@
                &&& final(epoch)@ == old(epoch)@
                &&& final(registry)@ == old(registry)@
                &&& registry::directive_views(admission.directives@) == refused_directives(
                    session.id,
                    created_epoch,
                    is_own_request(session@.identity(), requested_identity(request@)),
                    response,
                )
            },
            Ok(granted) => {
                let identity = requested_identity(request@);
                let listed = noted(old(registry)@, session.id, request@);
                let chosen = |s: PublicView| registry::supersedes(s, identity, session.id);
                let same_worker = |s: PublicView|
                    registry::replaces_worker(s, identity, request.worker_id as u64, session.id);
                &&& admission.granted
                &&& final(db)@ == admitted_db(old(db)@, granted, request@, offer_view(offer))
                &&& admission.changed == (final(db)@ != old(db)@)
                &&& final(epoch)@ == (EpochView {
                    generation_id: request.generation_id,
                    session_salt: request.session_salt@,
                })
                &&& final(registry)@ == admitted_registry(old(registry)@, session.id, request@)
                &&& admission.response@ == answer(final(db)@, request@, dns@)
                &&& admission.tunnel_ip == granted_ip(final(db)@, request@)
                &&& purges_then(
                    session.id,
                    request@,
                    listed.sessions,
                    listed.ids_where(chosen),
                    listed.without(chosen).ids_where(same_worker),
                    granted_directives(
                        session.id,
                        request@,
                        admission.changed,
                        admission.tunnel_ip,
                        registration_id,
                        admission.response@,
                    ),
                    registry::directive_views(admission.directives@),
                )
            },
        },
{
    let session_id: u64 = session.id;
    let granted = match getconf_credential_access(
        db,
        request.password.as_str(),
        request.device_id.as_str(),
    ) {
        Ok(granted) => granted,
        Err(response) => {
            let own_request = rejected_session_is_request(
                session,
                request.device_id.as_str(),
                request.generation_id,
                request.session_salt.as_str(),
            );
            let directives = list_refused(session_id, created_epoch, own_request, response);
            return Admission {
                response: response.to_owned(),
                granted: false,
                changed: false,
                tunnel_ip: None,
                directives,
            };
        },
    };
    let _ = epoch.admit_key(request.generation_id, request.session_salt.as_str());
    note_request(registry, session_id, request);
    let mut superseded = registry.purge_stale_device_sessions(
        request.device_id.as_str(),
        request.generation_id,
        request.session_salt.as_str(),
        session_id,
    );
    let ghost first = registry::directive_views(superseded@);
    let mut replaced = registry.purge_replaced_worker_sessions(
        request.device_id.as_str(),
        request.generation_id,
        request.session_salt.as_str(),
        request.worker_id as u64,
        session_id,
    );
    let ghost second = registry::directive_views(replaced@);
    let changed = admit_device(db, granted, request, offer);
    let (response, tunnel_ip) = answer_text(db, request, dns);
    let mut rest = list_granted(
        session_id,
        request,
        changed,
        tunnel_ip,
        registration_id,
        response.as_str(),
    );
    let ghost last = registry::directive_views(rest@);
    let mut directives: Vec<Directive> = Vec::new();
    directives.push(Directive::NoteWorker { session_id, worker_id: request.worker_id });
    directives.append(&mut superseded);
    directives.append(&mut replaced);
    directives.append(&mut rest);
    proof {
        assert(registry::directive_views(directives@) =~= seq![
            DirectiveView::NoteWorker { session_id, worker_id: request.worker_id },
        ] + first + second + last);
    }
    Admission { response, granted: true, changed, tunnel_ip, directives }
}

/// A request that was granted leaves no session of its device with another key, and no other
/// session with its worker.
pub proof fn a_grant_leaves_one_session_per_worker(
    registry: RegistryView,
    session_id: u64,
    request: RequestView,
    id: u64,
)
    requires
        forall|other: u64| #[trigger]
            registry.sessions.contains_key(other) ==> registry.sessions[other].id == other,
    ensures
        ({
            let after = admitted_registry(registry, session_id, request).sessions;
            &&& after.contains_key(id) && id != session_id && after[id].device_id
                == request.device_id ==> after[id].identity() == requested_identity(request)
                && after[id].worker_id != request.worker_id
            &&& registry.sessions.contains_key(session_id) ==> after.contains_key(session_id)
            &&& registry.sessions.contains_key(id) && registry.sessions[id].device_id
                != request.device_id && id != session_id ==> after.contains_key(id) && after[id]
                == registry.sessions[id]
        }),
{
    let identity = requested_identity(request);
    let listed = noted(registry, session_id, request);
    let chosen = |s: PublicView| registry::supersedes(s, identity, session_id);
    let kept = listed.without(chosen);
    registry::purging_leaves_one_key(listed, identity, session_id, id);
    registry::purging_leaves_one_key(listed, identity, session_id, session_id);
    if kept.sessions.contains_key(id) && id != session_id {
        assert(kept.sessions[id] == listed.sessions[id]);
        assert(listed.sessions[id] == registry.sessions[id]);
    }
}

/// A request that was granted locks its password to its device: it is granted there again,
/// and on no other device.
pub proof fn a_grant_locks_the_password(
    db: DatabaseView,
    request: RequestView,
    offer: Option<OfferView>,
    other: Seq<char>,
)
    requires
        request.device_id.len() > 0,
        access::credential_access(db, request.password, request.device_id) is Ok,
        other != request.device_id,
    ensures
        ({
            let granted = access::credential_access(db, request.password, request.device_id)->Ok_0;
            let after = admitted_db(db, granted, request, offer);
            &&& access::credential_access(after, request.password, request.device_id) is Ok
            &&& access::credential_access(after, request.password, other) is Err
            &&& offer is Some || db.devices.contains_key(request.device_id)
                ==> access::controls_device(after, request.password, request.device_id)
        }),
{
}

/// A client whose request was granted may end the sessions of its device, unless it named no
/// salt or its device could not be made known.
pub proof fn a_grant_allows_to_disconnect(
    db: DatabaseView,
    request: RequestView,
    offer: Option<OfferView>,
)
    requires
        request.device_id.len() > 0,
        request.session_salt.len() > 0,
        access::credential_access(db, request.password, request.device_id) is Ok,
        offer is Some || db.devices.contains_key(request.device_id),
    ensures
        ({
            let granted = access::credential_access(db, request.password, request.device_id)->Ok_0;
            access::may_disconnect(
                admitted_db(db, granted, request, offer),
                request.password,
                requested_identity(request),
                request.device_id,
                request.session_salt,
                (EpochView {
                    generation_id: request.generation_id,
                    session_salt: request.session_salt,
                }),
            )
        }),
{
    a_grant_locks_the_password(db, request, offer, request.device_id.push('x'));
}

/// A word for the answer to a configuration request: the configuration itself is left out.
pub fn getconf_log_status(response: &str) -> (status: &str)
    ensures
        status@ == if text::begins_with(response@, "TUNCONF:"@) {
            "TUNCONF"@
        } else {
            response@
        },
{
    if text_begins_with(response, "TUNCONF:") {
        "TUNCONF"
    } else {
        response
    }
}

/// What a control packet asks for.
pub enum ControlRequest<'a> {
    /// A configuration.
    Getconf(&'a str),
    /// That the sessions of a device end.
    Disconnect { device_id: &'a str, salt: &'a str },
    /// Something that is not text.
    Malformed,
    /// Nothing.
    Ignored,
}

/// What a [`ControlRequest`] says.
#[verifier::ext_equal]
pub enum ControlRequestView {
    Getconf(Seq<char>),
    Disconnect { device_id: Seq<char>, salt: Seq<char> },
    Malformed,
    Ignored,
}

impl<'a> View for ControlRequest<'a> {
    type V = ControlRequestView;

    open spec fn view(&self) -> ControlRequestView {
        match *self {
            ControlRequest::Getconf(text) => ControlRequestView::Getconf(text@),
            ControlRequest::Disconnect { device_id, salt } => ControlRequestView::Disconnect {
                device_id: device_id@,
                salt: salt@,
            },
            ControlRequest::Malformed => ControlRequestView::Malformed,
            ControlRequest::Ignored => ControlRequestView::Ignored,
        }
    }
}

/// The device and salt that a request to disconnect names.
pub open spec fn disconnect_fields(text: Seq<char>) -> (Seq<char>, Seq<char>) {
    let prefix = "DISCONNECT:"@;
    let content = if text::begins_with(text, prefix) {
        text::trimmed(text.subrange(prefix.len() as int, text.len() as int))
    } else {
        text::trimmed(""@)
    };
    let parts = text::fields(content, 2);
    (
        text::field_or(parts, 0, text::trimmed(""@)),
        text::field_or(parts, 1, text::trimmed(""@)),
    )
}

/// What a control packet asks for.
pub open spec fn requested(payload: Seq<u8>) -> ControlRequestView {
    let getconf = bytes::has_prefix(payload, GETCONF_PREFIX@);
    let disconnect = bytes::has_prefix(payload, DISCONNECT_PREFIX@);
    if !getconf && !disconnect {
        ControlRequestView::Ignored
    } else if !valid_utf8(payload) {
        ControlRequestView::Malformed
    } else if getconf {
        ControlRequestView::Getconf(decode_utf8(payload))
    } else {
        let (device_id, salt) = disconnect_fields(decode_utf8(payload));
        ControlRequestView::Disconnect { device_id, salt }
    }
}

/// Reads a control packet.
pub fn read_control_payload(payload: &[u8]) -> (request: ControlRequest<'_>)
    ensures
        request@ == requested(payload@),
{
    let getconf = starts_with(payload, GETCONF_PREFIX.as_slice());
    if !getconf && !starts_with(payload, DISCONNECT_PREFIX.as_slice()) {
        return ControlRequest::Ignored;
    }
    let message = match utf8_text(payload) {
        Some(message) => message,
        None => return ControlRequest::Malformed,
    };
    proof {
        text::text_of_bytes(message@, payload@);
    }
    if getconf {
        return ControlRequest::Getconf(message);
    }
    let content = match after_prefix(message, "DISCONNECT:") {
        Some(rest) => rest.trim(),
        None => "".trim(),
    };
    let parts = split_fields(content, 2);
    let device_id = trimmed_field(&parts, 0, "".trim());
    let salt = trimmed_field(&parts, 1, "".trim());
    ControlRequest::Disconnect { device_id, salt }
}

/// A request to disconnect names a device and a salt that could be some session's.
pub open spec fn disconnect_fault(device_id: Seq<char>, salt: Seq<char>) -> Option<Seq<char>> {
    if device_id.len() == 0 || encode_utf8(device_id).len() > MAX_IDENTITY_LEN {
        Some("DENIED:invalid_device"@)
    } else if salt.len() == 0 || encode_utf8(salt).len() > MAX_IDENTITY_LEN {
        Some("DENIED:invalid_epoch"@)
    } else {
        None
    }
}

/// Checks a request to disconnect before the key of the device is looked up: the session has
/// to be of the device and hold the salt, and its password has to control the device. Without
/// a database nobody owns anything.
pub fn check_disconnect(
    db: Option<&Database>,
    session: &Session,
    device_id: &str,
    target_salt: &str,
) -> (outcome: Result<(), &'static str>)
    requires
        db matches Some(found) ==> found.wf(),
    ensures
        match disconnect_fault(device_id@, target_salt@) {
            Some(fault) => outcome matches Err(response) && response@ == fault,
            None => {
                let owner = db is Some && access::controls_device(
                    db->0@,
                    session.password@,
                    device_id@,
                ) && session.device_id@ == device_id@ && session.session_salt@ == target_salt@;
                match outcome {
                    Ok(()) => owner,
                    Err(response) => !owner && response@ == "DENIED:not_owner"@,
                }
            },
        },
{
    if device_id.is_empty() || device_id.as_bytes().len() > MAX_IDENTITY_LEN {
        return Err("DENIED:invalid_device");
    }
    if target_salt.is_empty() || target_salt.as_bytes().len() > MAX_IDENTITY_LEN {
        return Err("DENIED:invalid_epoch");
    }
    let owner = match db {
        Some(found) => device_control_authorized(found, session.password.as_str(), device_id)
            && same_text(session.device_id.as_str(), device_id) && same_text(
            session.session_salt.as_str(),
            target_salt,
        ),
        None => false,
    };
    if owner {
        Ok(())
    } else {
        Err("DENIED:not_owner")
    }
}

/// Decides a request to disconnect, now that the key of the device is held: `epoch` is that
/// key, if there is one, and `db` the database, if it could be had.
pub fn decide_disconnect(
    db: Option<&Database>,
    session: &Session,
    device_id: &str,
    target_salt: &str,
    epoch: Option<&DeviceEpochState>,
) -> (outcome: Result<ProtocolCommand, &'static str>)
    requires
        db matches Some(found) ==> found.wf(),
    ensures
        match outcome {
            Ok(command) => {
                &&& epoch is Some
                &&& db is Some
                &&& access::may_disconnect(
                    db->0@,
                    session.password@,
                    session@.identity(),
                    device_id@,
                    target_salt@,
                    epoch->0@,
                )
                &&& command@ == CommandView::DisconnectDevice {
                    device_id: device_id@,
                    requester_session_id: session.id,
                }
                &&& command.wf()
            },
            Err(response) => if epoch is None {
                response@ == "DENIED:not_owner"@
            } else if db is None {
                response@ == "DENIED:server_busy"@
            } else {
                &&& !access::may_disconnect(
                    db->0@,
                    session.password@,
                    session@.identity(),
                    device_id@,
                    target_salt@,
                    epoch->0@,
                )
                &&& response@ == "DENIED:not_owner"@
            },
        },
{
    let key = match epoch {
        Some(key) => key,
        None => return Err("DENIED:not_owner"),
    };
    let found = match db {
        Some(found) => found,
        None => return Err("DENIED:server_busy"),
    };
    let identity = session_epoch_identity(session);
    if !disconnect_request_authorized(
        found,
        session.password.as_str(),
        &identity,
        device_id,
        target_salt,
        key,
    ) {
        return Err("DENIED:not_owner");
    }
    Ok(
        ProtocolCommand::DisconnectDevice {
            device_id: device_id.to_owned(),
            requester_session_id: session.id,
        },
    )
}

/// Whoever may end the sessions of a device passes the check that comes before.
pub proof fn disconnects_are_checked_twice(
    db: DatabaseView,
    session: PublicView,
    device_id: Seq<char>,
    salt: Seq<char>,
    epoch: EpochView,
)
    requires
        access::may_disconnect(db, session.password, session.identity(), device_id, salt, epoch),
    ensures
        access::controls_device(db, session.password, device_id),
        session.device_id == device_id,
        session.session_salt == salt,
        salt.len() > 0,
        device_id.len() > 0,
{
}

/// Why a session cannot have a tunnel.
#[derive(Clone, Copy, Debug, PartialEq, Eq, Structural)]
pub enum TunnelError {
    /// Its device has no address.
    NoAddress,
    /// The address of its device is none.
    InvalidAddress,
    /// It has no worker number.
    NoWorker,
}

/// What was looked up for a device: its address, as far as the text is one.
#[derive(Clone, Copy, Debug)]
pub struct ResolvedAddress {
    pub address: Option<[u8; 4]>,
}

/// The address for a session's tunnel.
pub open spec fn tunnel_address(
    session: PublicView,
    resolved: Option<ResolvedAddress>,
) -> Result<[u8; 4], TunnelError> {
    match session.tunnel_ip {
        Some(ip) => Ok(ip),
        None => match resolved {
            None => Err(TunnelError::NoAddress),
            Some(found) => match found.address {
                None => Err(TunnelError::InvalidAddress),
                Some(ip) => Ok(ip),
            },
        },
    }
}

/// How many streams a session with a worker number wants.
pub open spec fn streams_wanted(session: PublicView) -> u16 {
    if 1 <= session.desired_stream_count <= MAX_STREAM_WORKERS && session.worker_id
        <= session.desired_stream_count {
        session.desired_stream_count as u16
    } else {
        0
    }
}

/// Plans a tunnel for a session that has none: the engines are to be told, and once they have
/// taken the command, [`Registry::note_tunnel`] is to follow.
pub fn ensure_control_tunnel(
    registry: &mut Registry,
    session_id: u64,
    resolved: Option<ResolvedAddress>,
    registration_id: u64,
) -> (outcome: Result<Option<ProtocolCommand>, TunnelError>)
    requires
        old(registry).wf(),
        old(registry)@.sessions.contains_key(session_id),
    ensures
        final(registry).wf(),
        ({
            let session = old(registry)@.sessions[session_id];
            if session.has_tunnel {
                outcome matches Ok(None) && final(registry)@ == old(registry)@
            } else {
                match tunnel_address(session, resolved) {
                    Err(error) => outcome == Err::<Option<ProtocolCommand>, TunnelError>(error)
                        && final(registry)@ == old(registry)@,
                    Ok(ip) => {
                        &&& final(registry)@ == old(registry)@.with(
                            (PublicView { tunnel_ip: Some(ip), ..session }),
                        )
                        &&& if 1 <= session.worker_id <= MAX_STREAM_WORKERS {
                            &&& outcome matches Ok(Some(command))
                            &&& command@ == CommandView::ActivateTunnel {
                                session_id,
                                ip,
                                registration_id,
                                worker_id: session.worker_id as u16,
                                desired_count: streams_wanted(session),
                            }
                        } else {
                            outcome == Err::<Option<ProtocolCommand>, TunnelError>(
                                TunnelError::NoWorker,
                            )
                        }
                    },
                }
            }
        }),
{
    let found = registry.get(session_id);
    let known = match found {
        Some(known) => known,
        None => return Err(TunnelError::NoAddress),
    };
    if known.has_tunnel {
        return Ok(None);
    }
    let ip: [u8; 4] = match known.tunnel_ip {
        Some(ip) => ip,
        None => match resolved {
            None => return Err(TunnelError::NoAddress),
            Some(looked_up) => match looked_up.address {
                None => return Err(TunnelError::InvalidAddress),
                Some(ip) => ip,
            },
        },
    };
    let mut session = known.copy();
    session.tunnel_ip = Some(ip);
    let worker_id: u64 = session.worker_id;
    let wanted: u64 = session.desired_stream_count;
    assert(session@ =~= (PublicView { tunnel_ip: Some(ip), ..known@ }));
    registry.put(session);
    if worker_id < 1 || worker_id > MAX_STREAM_WORKERS as u64 {
        return Err(TunnelError::NoWorker);
    }
    let desired_count: u16 = if 1 <= wanted && wanted <= MAX_STREAM_WORKERS as u64 && worker_id
        <= wanted {
        wanted as u16
    } else {
        0
    };
    Ok(
        Some(
            ProtocolCommand::ActivateTunnel {
                session_id,
                ip,
                registration_id,
                worker_id: worker_id as u16,
                desired_count,
            },
        ),
    )
}

/// An address in the usual notation.
pub open spec fn address_text(ip: [u8; 4]) -> Seq<char> {
    text::decimal(ip@[0] as nat) + "."@ + text::decimal(ip@[1] as nat) + "."@ + text::decimal(
        ip@[2] as nat,
    ) + "."@ + text::decimal(ip@[3] as nat)
}

/// The configuration that clients are sent when it changes while they are connected.
pub open spec fn hot_configuration(ip: [u8; 4], dns: Seq<char>) -> Seq<char> {
    "TUNCONF:"@ + address_text(ip) + ":"@ + dns + ":0:stream-v2"@
}

/// The configuration that clients are sent when it changes while they are connected.
pub fn hot_configuration_text(ip: [u8; 4], dns: &str) -> (configuration: String)
    ensures
        configuration@ == hot_configuration(ip, dns@),
{
    let mut configuration = "TUNCONF:".to_owned();
    push_decimal(&mut configuration, ip[0] as u64);
    configuration.append(".");
    push_decimal(&mut configuration, ip[1] as u64);
    configuration.append(".");
    push_decimal(&mut configuration, ip[2] as u64);
    configuration.append(".");
    push_decimal(&mut configuration, ip[3] as u64);
    configuration.append(":");
    configuration.append(dns);
    configuration.append(":0:stream-v2");
    assert(configuration@ =~= hot_configuration(ip, dns@));
    configuration
}

/// The command that sends a session its configuration anew.
pub open spec fn hot_command(session: PublicView, dns: Seq<char>) -> CommandView {
    CommandView::SendPlain {
        session_id: session.id,
        payload: encode_utf8(hot_configuration(session.tunnel_ip->0, dns)),
    }
}

/// `commands` send the sessions of `set` their configuration anew, in some order.
pub open spec fn sends_in_some_order(
    sessions: Map<u64, PublicView>,
    set: Set<u64>,
    dns: Seq<char>,
    commands: Seq<ProtocolCommand>,
) -> bool {
    exists|order: Seq<u64>|
        {
            &&& #[trigger] registry::lists_ids(order, set)
            &&& commands.len() == order.len()
            &&& forall|i: int|
                0 <= i < order.len() ==> (#[trigger] commands[i])@ == hot_command(
                    sessions[order[i]],
                    dns,
                )
        }
}

/// The commands that send all sessions with a tunnel their configuration anew.
pub fn broadcast_tunnel_configuration(registry: &Registry, dns: &str) -> (commands: Vec<
    ProtocolCommand,
>)
    requires
        registry.wf(),
    ensures
        sends_in_some_order(
            registry@.sessions,
            registry@.ids_where(|session: PublicView| session.tunnel_ip is Some),
            dns@,
            commands@,
        ),
{
    let ids = registry.ids();
    let ghost sessions = registry@.sessions;
    let ghost mut order: Seq<u64> = Seq::empty();
    let mut commands: Vec<ProtocolCommand> = Vec::new();
    let mut i: usize = 0;
    while i < ids.len()
        invariant
            i <= ids@.len(),
            registry.wf(),
            sessions == registry@.sessions,
            registry::lists_ids(ids@, sessions.dom()),
            order.no_duplicates(),
            forall|id: u64| #[trigger]
                order.contains(id) <==> ids@.take(i as int).contains(id)
                    && sessions[id].tunnel_ip is Some,
            commands@.len() == order.len(),
            forall|j: int|
                0 <= j < order.len() ==> (#[trigger] commands@[j])@ == hot_command(
                    sessions[order[j]],
                    dns@,
                ),
        decreases ids.len() - i,
    {
        let id: u64 = ids[i];
        let ghost now = ids@.take(i as int);
        let ghost before = order;
        proof {
            assert(ids@[i as int] == id);
            assert(ids@.to_set().contains(id));
            assert(!now.contains(id)) by {
                if now.contains(id) {
                    let j = choose|j: int| 0 <= j < now.len() && now[j] == id;
                    assert(ids@[j] == ids@[i as int]);
                }
            }
            assert(ids@.take(i + 1) =~= now.push(id));
            registry::lemma_push_contains(now, id);
            registry::lemma_push_contains(before, id);
            assert(!before.contains(id));
        }
        if let Some(session) = registry.get(id) {
            if let Some(ip) = session.tunnel_ip {
                let configuration = hot_configuration_text(ip, dns);
                commands.push(
                    ProtocolCommand::SendPlain {
                        session_id: session.id,
                        payload: text_bytes(configuration.as_str()),
                    },
                );
                proof {
                    order = before.push(id);
                }
            }
        }
        i += 1;
    }
    proof {
        assert(ids@.take(i as int) =~= ids@);
        let set = registry@.ids_where(|session: PublicView| session.tunnel_ip is Some);
        assert forall|id: u64| #[trigger] order.to_set().contains(id) <==> set.contains(id) by {
            assert(ids@.to_set().contains(id) <==> ids@.contains(id));
            assert(order.contains(id) <==> order.to_set().contains(id));
        }
        assert(order.to_set() =~= set);
        assert(registry::lists_ids(order, set));
    }
    commands
}

} // verus!
