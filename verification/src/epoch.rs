//! Device epochs: which session key of a device is the current one.
use crate::text::same_text;
use vstd::prelude::*;
use vstd::string::*;

verus! {

/// What the admission of a session key found.
#[derive(Clone, Copy, Debug, PartialEq, Eq, Structural)]
pub enum DeviceEpochDecision {
    /// The key is the one in force.
    Current,
    /// The key took the place of another.
    Replaced,
}

/// What a repeated configuration request means for the session it came on.
#[derive(Clone, Copy, Debug, PartialEq, Eq, Structural)]
pub enum GetconfReconnectAction {
    /// The request is for the session as it is.
    Process,
    /// The request starts the session anew.
    Replace,
}

/// The session key in force for a device: a generation and a salt.
#[derive(Clone, Debug)]
pub struct DeviceEpochState {
    pub generation_id: u64,
    pub session_salt: String,
}

/// A session key.
#[verifier::ext_equal]
pub struct EpochView {
    pub generation_id: u64,
    pub session_salt: Seq<char>,
}

impl View for DeviceEpochState {
    type V = EpochView;

    open spec fn view(&self) -> EpochView {
        EpochView { generation_id: self.generation_id, session_salt: self.session_salt@ }
    }
}

impl Default for DeviceEpochState {
    /// The key that no client has: generation zero and an empty salt.
    fn default() -> (state: DeviceEpochState)
        ensures
            state@ == (EpochView { generation_id: 0, session_salt: Seq::<char>::empty() }),
    {
        let state = DeviceEpochState { generation_id: 0, session_salt: String::new() };
        assert(state.session_salt@ =~= Seq::<char>::empty());
        state
    }
}

impl DeviceEpochState {
    /// The key of `generation_id` and `session_salt`.
    pub fn new(generation_id: u64, session_salt: String) -> (state: DeviceEpochState)
        ensures
            state@ == (EpochView { generation_id, session_salt: session_salt@ }),
    {
        DeviceEpochState { generation_id, session_salt }
    }

    /// Puts a key in force. Keys are not ordered: any key that differs takes the place of
    /// the one before.
    pub fn admit_key(&mut self, generation_id: u64, session_salt: &str) -> (decision:
        DeviceEpochDecision)
        ensures
            final(self)@ == (EpochView { generation_id, session_salt: session_salt@ }),
            decision == if old(self)@ == final(self)@ {
                DeviceEpochDecision::Current
            } else {
                DeviceEpochDecision::Replaced
            },
    {
        if generation_id != self.generation_id || !same_text(
            session_salt,
            self.session_salt.as_str(),
        ) {
            self.generation_id = generation_id;
            self.session_salt = session_salt.to_owned();
            DeviceEpochDecision::Replaced
        } else {
            DeviceEpochDecision::Current
        }
    }

    /// Whether the key in force is that of `generation_id` and `session_salt`.
    pub fn matches(&self, generation_id: u64, session_salt: &str) -> (matched: bool)
        ensures
            matched == (self@ == (EpochView { generation_id, session_salt: session_salt@ })),
    {
        self.generation_id == generation_id && same_text(self.session_salt.as_str(), session_salt)
    }
}

/// A session key and the device it belongs to.
#[derive(Clone, Debug)]
pub struct SessionEpochIdentity {
    pub device_id: String,
    pub generation_id: u64,
    pub session_salt: String,
}

/// What a [`SessionEpochIdentity`] says.
#[verifier::ext_equal]
pub struct IdentityView {
    pub device_id: Seq<char>,
    pub generation_id: u64,
    pub session_salt: Seq<char>,
}

impl View for SessionEpochIdentity {
    type V = IdentityView;

    open spec fn view(&self) -> IdentityView {
        IdentityView {
            device_id: self.device_id@,
            generation_id: self.generation_id,
            session_salt: self.session_salt@,
        }
    }
}

impl SessionEpochIdentity {
    /// The same identity once more.
    pub fn copy(&self) -> (identity: SessionEpochIdentity)
        ensures
            identity@ == self@,
    {
        SessionEpochIdentity {
            device_id: self.device_id.clone(),
            generation_id: self.generation_id,
            session_salt: self.session_salt.clone(),
        }
    }
}

impl crate::table::Key for SessionEpochIdentity {
    fn same(&self, other: &SessionEpochIdentity) -> (same: bool) {
        same_text(self.device_id.as_str(), other.device_id.as_str()) && self.generation_id
            == other.generation_id && same_text(
            self.session_salt.as_str(),
            other.session_salt.as_str(),
        )
    }
}

/// The session is of the device but holds another key than the one in force.
pub open spec fn retired_by_epoch(session: IdentityView, authoritative: IdentityView) -> bool {
    session.device_id == authoritative.device_id && session != authoritative
}

/// Whether a session of some device and key is retired by the key now in force.
pub fn session_is_retired_by_epoch(
    session_device_id: &str,
    session_generation_id: u64,
    session_salt: &str,
    authoritative_device_id: &str,
    authoritative_generation_id: u64,
    authoritative_salt: &str,
) -> (retired: bool)
    ensures
        retired == retired_by_epoch(
            (IdentityView {
                device_id: session_device_id@,
                generation_id: session_generation_id,
                session_salt: session_salt@,
            }),
            (IdentityView {
                device_id: authoritative_device_id@,
                generation_id: authoritative_generation_id,
                session_salt: authoritative_salt@,
            }),
        ),
{
    same_text(session_device_id, authoritative_device_id) && (session_generation_id
        != authoritative_generation_id || !same_text(session_salt, authoritative_salt))
}

/// Whether a disconnect ends a session: it is the one that asked, or it is of the device.
pub fn session_is_disconnected_device(
    session_id: u64,
    session_device_id: &str,
    requester_session_id: u64,
    target_device_id: &str,
) -> (ended: bool)
    ensures
        ended == (session_id == requester_session_id || session_device_id@ == target_device_id@),
{
    session_id == requester_session_id || same_text(session_device_id, target_device_id)
}

/// What a configuration request means for the session it came on: it is processed where it
/// names the session's own device and key, and otherwise starts a new session.
pub fn getconf_reconnect_action_hot(
    session_device_id: &str,
    session_generation_id: u64,
    session_salt: &str,
    incoming_device_id: &str,
    incoming_generation_id: u64,
    incoming_salt: &str,
) -> (action: GetconfReconnectAction)
    ensures
        action == if session_device_id@ == incoming_device_id@ && session_generation_id
            == incoming_generation_id && session_salt@ == incoming_salt@ {
            GetconfReconnectAction::Process
        } else {
            GetconfReconnectAction::Replace
        },
{
    if same_text(session_device_id, incoming_device_id) && session_generation_id
        == incoming_generation_id && same_text(session_salt, incoming_salt) {
        GetconfReconnectAction::Process
    } else {
        GetconfReconnectAction::Replace
    }
}

/// The key in force retires every session of its device but those that hold it, and no
/// session of another device.
pub proof fn one_key_per_device(session: IdentityView, authoritative: IdentityView)
    ensures
        !retired_by_epoch(authoritative, authoritative),
        session.device_id != authoritative.device_id ==> !retired_by_epoch(session, authoritative),
        session.device_id == authoritative.device_id && !retired_by_epoch(session, authoritative)
            ==> session == authoritative,
{
}

/// The offset basis of the 64-bit FNV-1a hash.
pub const FNV_OFFSET: u64 = 0xcbf2_9ce4_8422_2325;

/// The prime of the 64-bit FNV-1a hash.
pub const FNV_PRIME: u64 = 0x0000_0100_0000_01b3;

/// The 64-bit FNV-1a hash of `data`.
pub open spec fn fnv1a(data: Seq<u8>) -> u64
    decreases data.len(),
{
    if data.len() == 0 {
        FNV_OFFSET
    } else {
        (fnv1a(data.drop_last()) ^ (data.last() as u64)).wrapping_mul(FNV_PRIME)
    }
}

/// The shard that owns a device: the same for every worker of the device.
pub fn shard_for_device(device_id: &str, shard_count: usize) -> (shard: usize)
    ensures
        shard == (fnv1a(device_id.spec_bytes()) as usize) as int % (if shard_count == 0 {
            1
        } else {
            shard_count as int
        }),
        shard_count > 0 ==> shard < shard_count,
{
    let data = device_id.as_bytes();
    let mut value: u64 = FNV_OFFSET;
    let mut i: usize = 0;
    assert(data@.subrange(0, 0) =~= Seq::<u8>::empty());
    while i < data.len()
        invariant
            i <= data@.len(),
            value == fnv1a(data@.subrange(0, i as int)),
        decreases data.len() - i,
    {
        assert(data@.subrange(0, i + 1).drop_last() =~= data@.subrange(0, i as int));
        value = value ^ (data[i] as u64);
        value = value.wrapping_mul(FNV_PRIME);
        i += 1;
    }
    assert(data@.subrange(0, i as int) =~= data@);
    let count: usize = if shard_count == 0 {
        1
    } else {
        shard_count
    };
    (value as usize) % count
}

} // verus!
