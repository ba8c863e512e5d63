use faultycat_tools::ports::describe_port;
use faultycat_tools::ports::PortKind;

#[test]
fn usb_port_keeps_vendor_metadata() {
    let p = describe_port(
        String::from("/dev/ttyACM0"),
        PortKind::Usb,
        Some(String::from("FaultyCo")),
        Some(String::from("FaultyCat")),
        Some(String::from("CAT-0042")),
    );
    assert_eq!(p.name, "/dev/ttyACM0");
    assert_eq!(p.port_type, PortKind::Usb);
    assert_eq!(p.manufacturer.as_deref(), Some("FaultyCo"));
    assert_eq!(p.product.as_deref(), Some("FaultyCat"));
    assert_eq!(p.serial_number.as_deref(), Some("CAT-0042"));
}

#[test]
fn bluetooth_port_carries_no_metadata() {
    let p = describe_port(
        String::from("/dev/rfcomm0"),
        PortKind::Bluetooth,
        Some(String::from("ignored")),
        None,
        None,
    );
    assert_eq!(p.name, "/dev/rfcomm0");
    assert_eq!(p.port_type, PortKind::Bluetooth);
    assert!(p.manufacturer.is_none());
    assert!(p.product.is_none());
    assert!(p.serial_number.is_none());
}

#[test]
fn pci_port_carries_no_metadata() {
    let p = describe_port(String::from("/dev/ttyS0"), PortKind::Pci, None, None, None);
    assert_eq!(p.port_type, PortKind::Pci);
    assert!(p.manufacturer.is_none());
}

#[test]
fn unknown_port_carries_no_metadata() {
    let p = describe_port(
        String::from("COM3"),
        PortKind::Unknown,
        None,
        Some(String::from("ignored")),
        Some(String::from("ignored")),
    );
    assert_eq!(p.name, "COM3");
    assert_eq!(p.port_type, PortKind::Unknown);
    assert!(p.product.is_none());
    assert!(p.serial_number.is_none());
}
