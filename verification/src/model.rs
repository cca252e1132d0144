//! The database that the control side reads and updates.
use crate::table::Table;
use vstd::prelude::*;

verus! {

/// A password that clients may use, besides the main one.
#[derive(Clone)]
pub struct PasswordEntry {
    /// The device that the password is bound to; empty where it is bound to none.
    pub device_id: String,
    pub is_deactivated: bool,
    /// Whether the password's lifetime was over when the database was read.
    pub expired: bool,
    pub up_bytes: i64,
    pub down_bytes: i64,
}

/// What a [`PasswordEntry`] says.
#[verifier::ext_equal]
pub struct PasswordView {
    pub device_id: Seq<char>,
    pub is_deactivated: bool,
    pub expired: bool,
    pub up_bytes: i64,
    pub down_bytes: i64,
}

impl View for PasswordEntry {
    type V = PasswordView;

    open spec fn view(&self) -> PasswordView {
        PasswordView {
            device_id: self.device_id@,
            is_deactivated: self.is_deactivated,
            expired: self.expired,
            up_bytes: self.up_bytes,
            down_bytes: self.down_bytes,
        }
    }
}

impl Default for PasswordEntry {
    /// An active password that is bound to no device.
    fn default() -> (entry: PasswordEntry)
        ensures
            entry@ == (PasswordView {
                device_id: Seq::<char>::empty(),
                is_deactivated: false,
                expired: false,
                up_bytes: 0,
                down_bytes: 0,
            }),
    {
        let entry = PasswordEntry {
            device_id: String::new(),
            is_deactivated: false,
            expired: false,
            up_bytes: 0,
            down_bytes: 0,
        };
        assert(entry.device_id@ =~= Seq::<char>::empty());
        entry
    }
}

impl PasswordEntry {
    /// The same entry once more.
    pub fn copy(&self) -> (entry: PasswordEntry)
        ensures
            entry@ == self@,
    {
        PasswordEntry {
            device_id: self.device_id.clone(),
            is_deactivated: self.is_deactivated,
            expired: self.expired,
            up_bytes: self.up_bytes,
            down_bytes: self.down_bytes,
        }
    }
}

/// A device that clients run on.
#[derive(Clone)]
pub struct ClientDevice {
    pub device_id: String,
    /// The tunnel address, as text.
    pub ip: String,
    /// The address that `ip` stands for, where it is an IPv4 address.
    pub address: Option<[u8; 4]>,
    pub priv_key: String,
    pub pub_key: String,
    pub up_bytes: i64,
    pub down_bytes: i64,
}

/// What a [`ClientDevice`] says.
#[verifier::ext_equal]
pub struct DeviceView {
    pub device_id: Seq<char>,
    pub ip: Seq<char>,
    pub address: Option<[u8; 4]>,
    pub priv_key: Seq<char>,
    pub pub_key: Seq<char>,
    pub up_bytes: i64,
    pub down_bytes: i64,
}

impl View for ClientDevice {
    type V = DeviceView;

    open spec fn view(&self) -> DeviceView {
        DeviceView {
            device_id: self.device_id@,
            ip: self.ip@,
            address: self.address,
            priv_key: self.priv_key@,
            pub_key: self.pub_key@,
            up_bytes: self.up_bytes,
            down_bytes: self.down_bytes,
        }
    }
}

impl Default for ClientDevice {
    /// A device without address and keys.
    fn default() -> (device: ClientDevice)
        ensures
            device@ == (DeviceView {
                device_id: Seq::<char>::empty(),
                ip: Seq::<char>::empty(),
                address: None,
                priv_key: Seq::<char>::empty(),
                pub_key: Seq::<char>::empty(),
                up_bytes: 0,
                down_bytes: 0,
            }),
    {
        let device = ClientDevice {
            device_id: String::new(),
            ip: String::new(),
            address: None,
            priv_key: String::new(),
            pub_key: String::new(),
            up_bytes: 0,
            down_bytes: 0,
        };
        assert(device.device_id@ =~= Seq::<char>::empty());
        device
    }
}

impl ClientDevice {
    /// The same device once more.
    pub fn copy(&self) -> (device: ClientDevice)
        ensures
            device@ == self@,
    {
        ClientDevice {
            device_id: self.device_id.clone(),
            ip: self.ip.clone(),
            address: self.address,
            priv_key: self.priv_key.clone(),
            pub_key: self.pub_key.clone(),
            up_bytes: self.up_bytes,
            down_bytes: self.down_bytes,
        }
    }
}

/// Passwords, devices and their traffic.
pub struct Database {
    /// The password of the server's owner; empty where none is set.
    pub main_password: String,
    /// The device that the main password is bound to; empty where it is bound to none.
    pub main_device_id: String,
    pub main_up_bytes: i64,
    pub main_down_bytes: i64,
    pub passwords: Table<String, PasswordEntry>,
    pub devices: Table<String, ClientDevice>,
}

/// What a [`Database`] says.
#[verifier::ext_equal]
pub struct DatabaseView {
    pub main_password: Seq<char>,
    pub main_device_id: Seq<char>,
    pub main_up_bytes: i64,
    pub main_down_bytes: i64,
    pub passwords: Map<Seq<char>, PasswordView>,
    pub devices: Map<Seq<char>, DeviceView>,
}

impl View for Database {
    type V = DatabaseView;

    open spec fn view(&self) -> DatabaseView {
        DatabaseView {
            main_password: self.main_password@,
            main_device_id: self.main_device_id@,
            main_up_bytes: self.main_up_bytes,
            main_down_bytes: self.main_down_bytes,
            passwords: self.passwords@,
            devices: self.devices@,
        }
    }
}

impl Database {
    /// Passwords and devices are listed once each.
    pub open spec fn wf(&self) -> bool {
        self.passwords.wf() && self.devices.wf()
    }
}

impl Default for Database {
    /// A database without any password or device.
    fn default() -> (db: Database)
        ensures
            db.wf(),
            db@ == (DatabaseView {
                main_password: Seq::<char>::empty(),
                main_device_id: Seq::<char>::empty(),
                main_up_bytes: 0,
                main_down_bytes: 0,
                passwords: Map::<Seq<char>, PasswordView>::empty(),
                devices: Map::<Seq<char>, DeviceView>::empty(),
            }),
    {
        let db = Database {
            main_password: String::new(),
            main_device_id: String::new(),
            main_up_bytes: 0,
            main_down_bytes: 0,
            passwords: Table::new(),
            devices: Table::new(),
        };
        assert(db.main_password@ =~= Seq::<char>::empty());
        db
    }
}

} // verus!
