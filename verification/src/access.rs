//! Who may use a password, and on which device.
use crate::epoch::{DeviceEpochState, EpochView, IdentityView, SessionEpochIdentity};
use crate::model::{Database, DatabaseView};
use crate::text::same_text;
use vstd::prelude::*;

verus! {

/// How a password gives access.
#[derive(Clone, Copy, Debug, PartialEq, Eq, Structural)]
pub enum CredentialAccess {
    /// It is the main password.
    Main,
    /// It is bound to the device that uses it.
    Bound,
    /// It is not bound to any device yet.
    Unbound,
}

/// The access that `password` gives on `device_id`, or the refusal.
pub open spec fn credential_access(
    db: DatabaseView,
    password: Seq<char>,
    device_id: Seq<char>,
) -> Result<CredentialAccess, Seq<char>> {
    let entry = db.passwords[password];
    if db.main_password.len() > 0 && password == db.main_password {
        if db.main_device_id.len() > 0 && db.main_device_id != device_id {
            Err("DENIED:device_mismatch"@)
        } else {
            Ok(CredentialAccess::Main)
        }
    } else if !db.passwords.contains_key(password) || entry.expired {
        Err("DENIED:expired"@)
    } else if entry.is_deactivated {
        Err("DENIED:deactivated"@)
    } else if entry.device_id.len() == 0 {
        Ok(CredentialAccess::Unbound)
    } else if entry.device_id != device_id {
        Err("DENIED:device_mismatch"@)
    } else {
        Ok(CredentialAccess::Bound)
    }
}

/// Whether whoever holds `password` may control the sessions of `device_id`: the device is
/// known, and the password is bound to it, or is the main password and bound to no other.
pub open spec fn controls_device(
    db: DatabaseView,
    password: Seq<char>,
    device_id: Seq<char>,
) -> bool {
    &&& device_id.len() > 0
    &&& db.devices.contains_key(device_id)
    &&& if db.main_password.len() > 0 && password == db.main_password {
        db.main_device_id.len() == 0 || db.main_device_id == device_id
    } else {
        let entry = db.passwords[password];
        &&& db.passwords.contains_key(password)
        &&& !entry.expired
        &&& !entry.is_deactivated
        &&& entry.device_id == device_id
    }
}

/// Whether the session of `requester` may end all sessions of `device_id`: it names its own
/// device and salt, its key is the one in force, and its password controls the device.
pub open spec fn may_disconnect(
    db: DatabaseView,
    password: Seq<char>,
    requester: IdentityView,
    device_id: Seq<char>,
    target_salt: Seq<char>,
    epoch: EpochView,
) -> bool {
    &&& target_salt.len() > 0
    &&& requester.device_id == device_id
    &&& requester.session_salt == target_salt
    &&& epoch == EpochView { generation_id: requester.generation_id, session_salt: target_salt }
    &&& controls_device(db, password, device_id)
}

/// The access that `password` gives on `device_id`, or the refusal to answer with.
pub fn getconf_credential_access(db: &Database, password: &str, device_id: &str) -> (access: Result<
    CredentialAccess,
    &'static str,
>)
    requires
        db.wf(),
    ensures
        match access {
            Ok(granted) => credential_access(db@, password@, device_id@) == Ok::<
                CredentialAccess,
                Seq<char>,
            >(granted),
            Err(refusal) => credential_access(db@, password@, device_id@) == Err::<
                CredentialAccess,
                Seq<char>,
            >(refusal@),
        },
{
    if !db.main_password.as_str().is_empty() && same_text(password, db.main_password.as_str()) {
        if !db.main_device_id.as_str().is_empty() && !same_text(
            db.main_device_id.as_str(),
            device_id,
        ) {
            return Err("DENIED:device_mismatch");
        }
        return Ok(CredentialAccess::Main);
    }
    let entry = match db.passwords.get(&password.to_owned()) {
        Some(entry) => entry,
        None => return Err("DENIED:expired"),
    };
    if entry.expired {
        return Err("DENIED:expired");
    }
    if entry.is_deactivated {
        return Err("DENIED:deactivated");
    }
    if entry.device_id.as_str().is_empty() {
        return Ok(CredentialAccess::Unbound);
    }
    if !same_text(entry.device_id.as_str(), device_id) {
        return Err("DENIED:device_mismatch");
    }
    Ok(CredentialAccess::Bound)
}

/// Whether whoever holds `password` may control the sessions of `device_id`.
pub fn device_control_authorized(db: &Database, password: &str, device_id: &str) -> (authorized:
    bool)
    requires
        db.wf(),
    ensures
        authorized == controls_device(db@, password@, device_id@),
{
    if device_id.is_empty() {
        return false;
    }
    let known = db.devices.contains_key(&device_id.to_owned());
    if !db.main_password.as_str().is_empty() && same_text(password, db.main_password.as_str()) {
        if !db.main_device_id.as_str().is_empty() && !same_text(
            db.main_device_id.as_str(),
            device_id,
        ) {
            return false;
        }
        return known;
    }
    match db.passwords.get(&password.to_owned()) {
        Some(entry) => {
            let bound = !entry.device_id.as_str().is_empty() && same_text(
                entry.device_id.as_str(),
                device_id,
            );
            !entry.expired && !entry.is_deactivated && bound && known
        },
        None => false,
    }
}

/// Whether the session of `requester` may end all sessions of `device_id`.
pub fn disconnect_request_authorized(
    db: &Database,
    password: &str,
    requester: &SessionEpochIdentity,
    device_id: &str,
    target_salt: &str,
    epoch: &DeviceEpochState,
) -> (authorized: bool)
    requires
        db.wf(),
    ensures
        authorized == may_disconnect(
            db@,
            password@,
            requester@,
            device_id@,
            target_salt@,
            epoch@,
        ),
{
    !target_salt.is_empty() && same_text(requester.device_id.as_str(), device_id) && same_text(
        requester.session_salt.as_str(),
        target_salt,
    ) && epoch.matches(requester.generation_id, target_salt) && device_control_authorized(
        db,
        password,
        device_id,
    )
}

/// A password that is bound to a device gives access on no other device.
pub proof fn bound_passwords_stay_on_their_device(
    db: DatabaseView,
    password: Seq<char>,
    device_id: Seq<char>,
)
    requires
        db.main_password.len() == 0 || password != db.main_password,
        db.passwords.contains_key(password),
        db.passwords[password].device_id.len() > 0,
        db.passwords[password].device_id != device_id,
    ensures
        credential_access(db, password, device_id) is Err,
        !controls_device(db, password, device_id),
{
}

/// Binding one password to a device leaves what every other password gives as it was, so
/// one device may hold many passwords.
pub proof fn binding_leaves_other_passwords_alone(
    db: DatabaseView,
    password: Seq<char>,
    bound_to: Seq<char>,
    other: Seq<char>,
    device_id: Seq<char>,
)
    requires
        other != password,
    ensures
        ({
            let entry = db.passwords[password];
            let bound = DatabaseView {
                passwords: db.passwords.insert(
                    password,
                    crate::model::PasswordView { device_id: bound_to, ..entry },
                ),
                ..db
            };
            credential_access(bound, other, device_id) == credential_access(db, other, device_id)
        }),
{
}

} // verus!
