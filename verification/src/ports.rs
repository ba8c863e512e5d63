//! Description of enumerated serial ports.

use vstd::prelude::*;

verus! {

/// The transport class of an enumerated serial port.
#[derive(Clone, Copy, Debug, PartialEq, Eq, Structural)]
pub enum PortKind {
    Usb,
    Bluetooth,
    Pci,
    Unknown,
}

/// A description of one enumerated serial port. Vendor metadata is only
/// available for USB ports; every other class carries none.
#[derive(Debug)]
pub struct PortInfo {
    pub name: String,
    pub port_type: PortKind,
    pub manufacturer: Option<String>,
    pub product: Option<String>,
    pub serial_number: Option<String>,
}

/// The label under which a transport class is shown and sent to the front
/// end.
pub fn kind_label(kind: PortKind) -> (s: String)
    ensures
        kind == PortKind::Usb ==> s@ == "USB"@,
        kind == PortKind::Bluetooth ==> s@ == "Bluetooth"@,
        kind == PortKind::Pci ==> s@ == "PCI"@,
        kind == PortKind::Unknown ==> s@ == "Unknown"@,
{
    match kind {
        PortKind::Usb => "USB".to_owned(),
        PortKind::Bluetooth => "Bluetooth".to_owned(),
        PortKind::Pci => "PCI".to_owned(),
        PortKind::Unknown => "Unknown".to_owned(),
    }
}

/// Builds the description of one enumerated port from its name, transport
/// class and raw vendor metadata: the metadata is kept for a USB port and
/// dropped for every other class.
pub fn describe_port(
    name: String,
    kind: PortKind,
    manufacturer: Option<String>,
    product: Option<String>,
    serial_number: Option<String>,
) -> (p: PortInfo)
    ensures
        p.name == name,
        p.port_type == kind,
        kind == PortKind::Usb ==> p.manufacturer == manufacturer,
        kind == PortKind::Usb ==> p.product == product,
        kind == PortKind::Usb ==> p.serial_number == serial_number,
        kind != PortKind::Usb ==> p.manufacturer is None,
        kind != PortKind::Usb ==> p.product is None,
        kind != PortKind::Usb ==> p.serial_number is None,
{
    match kind {
        PortKind::Usb => PortInfo { name, port_type: kind, manufacturer, product, serial_number },
        _ => PortInfo {
            name,
            port_type: kind,
            manufacturer: None,
            product: None,
            serial_number: None,
        },
    }
}

} // verus!
