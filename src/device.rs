//! Finding the transceiver among the devices and serial ports that the
//! system lists.
use vstd::prelude::*;

verus! {

/// A serial port as the system lists it: its name, and the USB vendor and
/// product id where it is a USB port.
pub struct PortEntry {
    pub port_name: String,
    pub usb_id: Option<(u16, u16)>,
}

/// Port `k` of `ports` is a USB port with ids `(vid, pid)`.
pub open spec fn port_matches(ports: Seq<PortEntry>, k: int, vid: u16, pid: u16) -> bool {
    ports[k].usb_id == Some((vid, pid))
}

/// The position of the first USB port with ids `(vid, pid)`, if any.
pub fn select_port(ports: &Vec<PortEntry>, vid: u16, pid: u16) -> (r: Option<usize>)
    ensures
        match r {
            Some(i) => i < ports@.len() && port_matches(ports@, i as int, vid, pid) && forall|
                k: int,
            |
                0 <= k < i ==> !port_matches(ports@, k, vid, pid),
            None => forall|k: int| 0 <= k < ports@.len() ==> !port_matches(ports@, k, vid, pid),
        },
{
    let mut i: usize = 0;
    while i < ports.len()
        invariant
            i <= ports@.len(),
            forall|k: int| 0 <= k < i ==> !port_matches(ports@, k, vid, pid),
        decreases ports@.len() - i,
    {
        match ports[i].usb_id {
            Some((v, p)) => {
                if v == vid && p == pid {
                    return Some(i);
                }
            },
            None => {},
        }
        i = i + 1;
    }
    None
}

/// Whether the USB devices listed by `(vendor id, product id)` include the
/// transceiver `(vid, pid)`.
pub fn device_listed(devices: &Vec<(u16, u16)>, vid: u16, pid: u16) -> (r: bool)
    ensures
        r == exists|k: int| 0 <= k < devices@.len() && devices@[k] == (vid, pid),
{
    let mut i: usize = 0;
    while i < devices.len()
        invariant
            i <= devices@.len(),
            forall|k: int| 0 <= k < i ==> devices@[k] != (vid, pid),
        decreases devices@.len() - i,
    {
        let (v, p) = devices[i];
        if v == vid && p == pid {
            return true;
        }
        i = i + 1;
    }
    false
}

} // verus!
