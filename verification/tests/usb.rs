use adb_sync::driver::AndroidDeviceInfo;
use adb_sync::error::{RustADBError, SyncError};
use adb_sync::message::MessageCommand;
use adb_sync::text::{chars_of, decimal, string_of};
use adb_sync::usb::{
    detect_android_device, find_adb_interface, find_bulk_endpoint, is_adb_device, is_adb_interface,
    AdbInterface, EndpointDescriptor, InterfaceDescriptor,
};

fn endpoint(address: u8, is_bulk: bool, is_input: bool) -> EndpointDescriptor {
    EndpointDescriptor { address, is_bulk, is_input }
}

fn interface(number: u8, class: u8, sub: u8, protocol: u8, endpoints: Vec<EndpointDescriptor>) -> InterfaceDescriptor {
    InterfaceDescriptor { number, class_code: class, sub_class_code: sub, protocol_code: protocol, endpoints }
}

fn found(vendor_id: u16, product_id: u16) -> AndroidDeviceInfo {
    AndroidDeviceInfo { vendor_id, product_id, manufacturer: None, product: Some("Pixel".to_string()) }
}

#[test]
fn adb_is_class_ff_subclass_42_protocol_1() {
    assert!(is_adb_interface(&interface(0, 0xff, 0x42, 0x01, vec![])));
    assert!(!is_adb_interface(&interface(0, 0xfe, 0x42, 0x01, vec![])));
    assert!(!is_adb_interface(&interface(0, 0xff, 0x43, 0x01, vec![])));
    assert!(!is_adb_interface(&interface(0, 0xff, 0x42, 0x03, vec![])));
    assert!(!is_adb_interface(&interface(0, 0x08, 0x06, 0x50, vec![])));
}

#[test]
fn a_device_with_an_adb_interface_is_an_adb_device() {
    let storage = interface(0, 0x08, 0x06, 0x50, vec![]);
    let adb = interface(1, 0xff, 0x42, 0x01, vec![]);
    assert!(is_adb_device(&vec![storage.clone(), adb]));
    assert!(!is_adb_device(&vec![storage]));
    assert!(!is_adb_device(&vec![]));
}

#[test]
fn the_adb_interface_and_its_bulk_endpoints() {
    let storage = interface(0, 0x08, 0x06, 0x50, vec![endpoint(0x81, true, true), endpoint(0x01, true, false)]);
    let half = interface(1, 0xff, 0x42, 0x01, vec![endpoint(0x82, true, true)]);
    let adb = interface(
        2,
        0xff,
        0x42,
        0x01,
        vec![
            endpoint(0x83, false, true),
            endpoint(0x03, true, false),
            endpoint(0x84, true, true),
            endpoint(0x85, true, true),
            endpoint(0x04, true, false),
        ],
    );
    let second = interface(3, 0xff, 0x42, 0x01, vec![endpoint(0x86, true, true), endpoint(0x06, true, false)]);
    assert_eq!(
        find_adb_interface(&vec![storage.clone(), half.clone(), adb.clone(), second]),
        Some(AdbInterface { number: 2, read_endpoint: 0x84, write_endpoint: 0x03 })
    );
    assert_eq!(find_adb_interface(&vec![storage, half]), None);
    assert_eq!(find_adb_interface(&vec![]), None);
    assert_eq!(find_bulk_endpoint(&adb.endpoints, true), Some(0x84));
    assert_eq!(find_bulk_endpoint(&adb.endpoints, false), Some(0x03));
    assert_eq!(find_bulk_endpoint(&vec![endpoint(1, false, false)], false), None);
}

#[test]
fn the_only_device_is_picked() {
    assert_eq!(detect_android_device(vec![found(0x18d1, 0x4ee7)]), Ok(found(0x18d1, 0x4ee7)));
}

#[test]
fn no_device_and_several_devices_are_errors() {
    assert_eq!(detect_android_device(vec![]), Err(SyncError::DeviceNotFound));
    assert_eq!(
        detect_android_device(vec![found(1, 2), found(3, 4), found(1, 2)]),
        Err(SyncError::MultipleDevices(vec![(1, 2), (3, 4), (1, 2)]))
    );
}

#[test]
fn errors_in_words() {
    assert_eq!(SyncError::InvalidLocalPath("Local path cannot be empty".to_string()).message(), "Local path cannot be empty");
    assert_eq!(SyncError::InvalidRemotePath("Remote path cannot be empty".to_string()).message(), "Remote path cannot be empty");
    assert_eq!(
        SyncError::DeviceNotFound.message(),
        "No Android device detected over USB. Ensure USB debugging is enabled."
    );
    assert_eq!(
        SyncError::MultipleDevices(vec![(6353, 20199), (1, 65535)]).message(),
        "Multiple Android devices detected ([(6353, 20199), (1, 65535)]). Connect only one device."
    );
    assert_eq!(
        SyncError::MultipleDevices(vec![(6353, 20199), (1, 65535)]).message(),
        format!("Multiple Android devices detected ({:?}). Connect only one device.", vec![(6353, 20199), (1, 65535)])
    );
    assert_eq!(
        SyncError::MultipleDevices(vec![]).message(),
        "Multiple Android devices detected ([]). Connect only one device."
    );
    assert_eq!(SyncError::Usb("Access denied".to_string()).message(), "USB error: Access denied");
    assert_eq!(SyncError::from(RustADBError::Timeout), SyncError::Adb(RustADBError::Timeout));
    assert_eq!(SyncError::Io("gone".to_string()).message(), "File system error: gone");
    assert_eq!(
        SyncError::Adb(RustADBError::StreamRefused).message(),
        "ADB error: The device refused to open the stream"
    );
}

#[test]
fn device_errors_in_words() {
    assert_eq!(RustADBError::InvalidHeader.message(), "Invalid packet header");
    assert_eq!(RustADBError::BadChecksum.message(), "Payload does not match its checksum");
    assert_eq!(
        RustADBError::AuthTimeout.message(),
        "Timed out waiting for the device during authentication"
    );
    assert_eq!(RustADBError::Timeout.message(), "Timed out waiting for the device");
    assert_eq!(
        RustADBError::UnexpectedCommand { received: MessageCommand::Open, expected: MessageCommand::Okay }
            .message(),
        "Wrong response received: OPEN (expected OKAY)"
    );
    assert_eq!(RustADBError::StreamRefused.message(), "The device refused to open the stream");
    assert_eq!(
        RustADBError::ADBRequestFailed("No such file".to_string()).message(),
        "ADB request failed - No such file"
    );
    assert_eq!(RustADBError::ConversionError.message(), "Cannot convert the data");
    assert_eq!(RustADBError::UsbError("pipe".to_string()).message(), "USB error: pipe");
    assert_eq!(RustADBError::IOError("eof".to_string()).message(), "I/O error: eof");
}

#[test]
fn numbers_in_decimal() {
    assert_eq!(decimal(0), "0");
    assert_eq!(decimal(7), "7");
    assert_eq!(decimal(10), "10");
    assert_eq!(decimal(1234567890), "1234567890");
    assert_eq!(decimal(u32::MAX), "4294967295");
    for n in [9u32, 99, 100, 101, 65535, 1_000_000] {
        assert_eq!(decimal(n), n.to_string());
    }
}

#[test]
fn texts_are_taken_apart_and_put_together() {
    assert_eq!(chars_of("a\u{e9}z"), vec!['a', '\u{e9}', 'z']);
    assert_eq!(chars_of(""), Vec::<char>::new());
    assert_eq!(string_of(&vec!['o', 'k']), "ok");
    assert_eq!(string_of(&chars_of("/sdcard/\u{1f600}")), "/sdcard/\u{1f600}");
}
