//! The records the monitor exchanges with its user interface and stores:
//! printers, registered app printers, USB and Bluetooth devices, network
//! and system summaries.

use vstd::prelude::*;

verus! {

/// A printer as listed to the user: either a queue of the operating system
/// (`source == "os"`) or a printer registered by the app (`source == "app"`).
#[derive(Clone, Debug, PartialEq, Eq)]
pub struct PrinterInfo {
    pub name: String,
    pub queue_name: String,
    pub is_default: bool,
    pub status: String,
    /// `"os"` or `"app"`.
    pub source: String,
    /// `"os"`, `"network"` or `"usb_direct"` (and the other app modes).
    pub connection_type: String,
    /// `IP:9100` or the device path, for app printers.
    pub address: Option<String>,
}

/// A row of the `custom_printers` table: a printer registered by the app.
#[derive(Clone, Debug, PartialEq, Eq)]
pub struct CustomPrinter {
    pub alias: String,
    /// `"network"`, `"usb_app"`, `"usb_system"` or `"usb_direct"`.
    pub connection_type: String,
    pub address: String,
}

#[derive(Clone, Debug, PartialEq, Eq)]
pub struct UsbDevice {
    pub display_name: String,
    pub port: String,
}

#[derive(Clone, Debug, PartialEq, Eq)]
pub struct BluetoothDevice {
    pub name: String,
    pub address: String,
    pub is_connected: bool,
}

#[derive(Clone, Debug, PartialEq, Eq)]
pub struct NetworkConfig {
    pub ip: String,
    pub mask: String,
    pub gateway: String,
}

#[derive(Clone, Debug, PartialEq, Eq)]
pub struct SystemInfo {
    pub local_ip: String,
    pub port: u16,
    pub is_dev: bool,
    pub printers: Vec<PrinterInfo>,
    pub serial_ports: Vec<String>,
    pub autostart_enabled: bool,
}

/// A PDF found in the output directory.
#[derive(Clone, Debug, PartialEq, Eq)]
pub struct PrintedFile {
    pub name: String,
    pub path: String,
    pub size_kb: u64,
    /// Modification time, milliseconds since the Unix epoch.
    pub modified: u64,
}

/// The texts of a list of strings.
pub open spec fn texts(v: Seq<String>) -> Seq<Seq<char>> {
    v.map_values(|s: String| s@)
}

pub fn copy_opt_string(s: &Option<String>) -> (r: Option<String>)
    ensures
        r == *s,
{
    match s {
        Some(t) => Some(t.clone()),
        None => None,
    }
}

impl PrinterInfo {
    /// A field-by-field copy.
    pub fn duplicate(&self) -> (r: PrinterInfo)
        ensures
            r == *self,
    {
        PrinterInfo {
            name: self.name.clone(),
            queue_name: self.queue_name.clone(),
            is_default: self.is_default,
            status: self.status.clone(),
            source: self.source.clone(),
            connection_type: self.connection_type.clone(),
            address: copy_opt_string(&self.address),
        }
    }
}

impl UsbDevice {
    /// A field-by-field copy.
    pub fn duplicate(&self) -> (r: UsbDevice)
        ensures
            r == *self,
    {
        UsbDevice { display_name: self.display_name.clone(), port: self.port.clone() }
    }
}

impl CustomPrinter {
    /// A field-by-field copy.
    pub fn duplicate(&self) -> (r: CustomPrinter)
        ensures
            r == *self,
    {
        CustomPrinter {
            alias: self.alias.clone(),
            connection_type: self.connection_type.clone(),
            address: self.address.clone(),
        }
    }
}

} // verus!
