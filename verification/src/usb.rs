//! Finding the ADB interface among the interfaces of a USB device, and the
//! one Android device among those on the bus.

use crate::driver::AndroidDeviceInfo;
use crate::error::{SyncError, SyncErrorView};
use vstd::prelude::*;

verus! {

/// Interface class of ADB: vendor specific.
pub const ADB_CLASS: u8 = 0xff;

/// Interface subclass of ADB.
pub const ADB_SUBCLASS: u8 = 0x42;

/// Interface protocol of ADB.
pub const ADB_PROTOCOL: u8 = 0x01;

/// An endpoint of an interface, as its descriptor states it.
#[derive(Clone, Copy, Debug, PartialEq, Eq, Structural)]
pub struct EndpointDescriptor {
    pub address: u8,
    /// Whether the endpoint does bulk transfers.
    pub is_bulk: bool,
    /// Whether the endpoint carries data from the device to the host.
    pub is_input: bool,
}

/// An interface of a device, as its descriptor states it.
#[derive(Debug, Clone, PartialEq, Eq)]
pub struct InterfaceDescriptor {
    pub number: u8,
    pub class_code: u8,
    pub sub_class_code: u8,
    pub protocol_code: u8,
    pub endpoints: Vec<EndpointDescriptor>,
}

/// The ADB interface of a device: its number and its two bulk endpoints.
#[derive(Clone, Copy, Debug, PartialEq, Eq, Structural)]
pub struct AdbInterface {
    pub number: u8,
    pub read_endpoint: u8,
    pub write_endpoint: u8,
}

/// Whether class, subclass and protocol are those of ADB.
pub open spec fn speaks_adb(interface: InterfaceDescriptor) -> bool {
    interface.class_code == ADB_CLASS && interface.sub_class_code == ADB_SUBCLASS
        && interface.protocol_code == ADB_PROTOCOL
}

/// Whether `k` is the place of the first bulk endpoint of the direction given.
pub open spec fn first_bulk(endpoints: Seq<EndpointDescriptor>, input: bool, k: int) -> bool {
    &&& 0 <= k < endpoints.len()
    &&& endpoints[k].is_bulk && endpoints[k].is_input == input
    &&& forall|j: int|
        0 <= j < k ==> !((#[trigger] endpoints[j]).is_bulk && endpoints[j].is_input == input)
}

/// Whether an interface has no bulk endpoint of the direction given.
pub open spec fn no_bulk(endpoints: Seq<EndpointDescriptor>, input: bool) -> bool {
    forall|j: int|
        0 <= j < endpoints.len() ==> !((#[trigger] endpoints[j]).is_bulk && endpoints[j].is_input
            == input)
}

/// Whether an interface can carry ADB: it speaks ADB and has a bulk endpoint
/// in each direction.
pub open spec fn usable(interface: InterfaceDescriptor) -> bool {
    speaks_adb(interface) && !no_bulk(interface.endpoints@, true) && !no_bulk(
        interface.endpoints@,
        false,
    )
}

/// Decides [`speaks_adb`].
pub fn is_adb_interface(interface: &InterfaceDescriptor) -> (b: bool)
    ensures
        b == speaks_adb(*interface),
{
    interface.class_code == ADB_CLASS && interface.sub_class_code == ADB_SUBCLASS
        && interface.protocol_code == ADB_PROTOCOL
}

/// Decides whether a device is an ADB device: one of its interfaces speaks
/// ADB.
pub fn is_adb_device(interfaces: &Vec<InterfaceDescriptor>) -> (b: bool)
    ensures
        b == exists|k: int| 0 <= k < interfaces@.len() && speaks_adb(#[trigger] interfaces@[k]),
{
    let mut i: usize = 0;
    while i < interfaces.len()
        invariant
            i <= interfaces@.len(),
            forall|k: int| 0 <= k < i ==> !speaks_adb(#[trigger] interfaces@[k]),
        decreases interfaces@.len() - i,
    {
        if is_adb_interface(&interfaces[i]) {
            return true;
        }
        i = i + 1;
    }
    false
}

/// The address of the first bulk endpoint of the direction given.
pub fn find_bulk_endpoint(endpoints: &Vec<EndpointDescriptor>, input: bool) -> (r: Option<u8>)
    ensures
        match r {
            Some(address) => exists|k: int|
                first_bulk(endpoints@, input, k) && endpoints@[k].address == address,
            None => no_bulk(endpoints@, input),
        },
{
    let mut i: usize = 0;
    while i < endpoints.len()
        invariant
            i <= endpoints@.len(),
            forall|j: int|
                0 <= j < i ==> !((#[trigger] endpoints@[j]).is_bulk && endpoints@[j].is_input
                    == input),
        decreases endpoints@.len() - i,
    {
        if endpoints[i].is_bulk && endpoints[i].is_input == input {
            assert(first_bulk(endpoints@, input, i as int));
            return Some(endpoints[i].address);
        }
        i = i + 1;
    }
    None
}

/// Finds the ADB interface of a device: the first interface that speaks ADB
/// and has a bulk endpoint in each direction, with the first such endpoint
/// of each direction.
pub fn find_adb_interface(interfaces: &Vec<InterfaceDescriptor>) -> (r: Option<AdbInterface>)
    ensures
        match r {
            Some(found) => exists|k: int, i: int, o: int|
                0 <= k < interfaces@.len() && usable(#[trigger] interfaces@[k]) && (forall|j: int|
                    0 <= j < k ==> !usable(#[trigger] interfaces@[j])) && found.number
                    == interfaces@[k].number && #[trigger] first_bulk(interfaces@[k].endpoints@, true, i)
                    && interfaces@[k].endpoints@[i].address == found.read_endpoint
                    && #[trigger] first_bulk(interfaces@[k].endpoints@, false, o)
                    && interfaces@[k].endpoints@[o].address == found.write_endpoint,
            None => forall|k: int| 0 <= k < interfaces@.len() ==> !usable(#[trigger] interfaces@[k]),
        },
{
    let mut at: usize = 0;
    while at < interfaces.len()
        invariant
            at <= interfaces@.len(),
            forall|j: int| 0 <= j < at ==> !usable(#[trigger] interfaces@[j]),
        decreases interfaces@.len() - at,
    {
        let interface = &interfaces[at];
        if is_adb_interface(interface) {
            let read = find_bulk_endpoint(&interface.endpoints, true);
            let write = find_bulk_endpoint(&interface.endpoints, false);
            match (read, write) {
                (Some(read_endpoint), Some(write_endpoint)) => {
                    proof {
                        let i = choose|i: int|
                            first_bulk(interface.endpoints@, true, i)
                                && interface.endpoints@[i].address == read_endpoint;
                        let o = choose|o: int|
                            first_bulk(interface.endpoints@, false, o)
                                && interface.endpoints@[o].address == write_endpoint;
                        assert(first_bulk(interfaces@[at as int].endpoints@, true, i));
                        assert(first_bulk(interfaces@[at as int].endpoints@, false, o));
                        assert(usable(interfaces@[at as int]));
                    }
                    return Some(
                        AdbInterface { number: interface.number, read_endpoint, write_endpoint },
                    );
                },
                _ => {},
            }
        }
        at = at + 1;
    }
    None
}

/// The vendor and product identifiers of the devices of a list.
pub open spec fn identifiers(candidates: Seq<AndroidDeviceInfo>) -> Seq<(u16, u16)> {
    candidates.map_values(|info: AndroidDeviceInfo| (info.vendor_id, info.product_id))
}

/// Picks the Android device among those found on the bus: the only one that
/// is there. None is `DeviceNotFound`; several are `MultipleDevices`, with
/// the identifiers of each.
pub fn detect_android_device(candidates: Vec<AndroidDeviceInfo>) -> (r: Result<
    AndroidDeviceInfo,
    SyncError,
>)
    ensures
        match r {
            Ok(info) => candidates@.len() == 1 && info == candidates@[0],
            Err(e) => candidates@.len() != 1 && e@ == (if candidates@.len() == 0 {
                SyncErrorView::DeviceNotFound
            } else {
                SyncErrorView::MultipleDevices(identifiers(candidates@))
            }),
        },
{
    let mut matches = candidates;
    if matches.len() == 0 {
        Err(SyncError::DeviceNotFound)
    } else if matches.len() == 1 {
        Ok(matches.remove(0))
    } else {
        let mut pairs: Vec<(u16, u16)> = Vec::new();
        let mut i: usize = 0;
        while i < matches.len()
            invariant
                i <= matches@.len(),
                pairs@ == identifiers(matches@).take(i as int),
            decreases matches@.len() - i,
        {
            pairs.push((matches[i].vendor_id, matches[i].product_id));
            i = i + 1;
            assert(pairs@ =~= identifiers(matches@).take(i as int));
        }
        assert(identifiers(matches@).take(i as int) =~= identifiers(matches@));
        Err(SyncError::MultipleDevices(pairs))
    }
}

} // verus!
