use vstd::prelude::*;

verus! {

/// A USB vendor and product id pair.
#[derive(Clone, Copy, PartialEq, Eq, Structural, Debug)]
pub struct DeviceDescriptor {
    pub vid: u16,
    pub pid: u16,
}

/// A serial port as the system lists it: its name and, for a USB port, the
/// ids of the device behind it.
pub struct PortEntry {
    pub name: String,
    pub usb: Option<DeviceDescriptor>,
}

/// The keyboards that speak Focus: Model100, Atreus and Model01.
pub open spec fn known_devices() -> Seq<DeviceDescriptor> {
    seq![
        DeviceDescriptor { vid: 0x3496, pid: 0x0006 },
        DeviceDescriptor { vid: 0x1209, pid: 0x2303 },
        DeviceDescriptor { vid: 0x1209, pid: 0x2301 },
    ]
}

/// The ids of the keyboards that speak Focus.
pub fn supported_devices() -> (r: Vec<DeviceDescriptor>)
    ensures
        r@ == known_devices(),
{
    let r = vec![
        DeviceDescriptor { vid: 0x3496, pid: 0x0006 },
        DeviceDescriptor { vid: 0x1209, pid: 0x2303 },
        DeviceDescriptor { vid: 0x1209, pid: 0x2301 },
    ];
    assert(r@ =~= known_devices());
    r
}

/// The port leads to a device of the table.
pub open spec fn is_supported(port: PortEntry, table: Seq<DeviceDescriptor>) -> bool {
    match port.usb {
        Some(d) => table.contains(d),
        None => false,
    }
}

fn in_table(d: DeviceDescriptor, table: &Vec<DeviceDescriptor>) -> (r: bool)
    ensures
        r == table@.contains(d),
{
    let mut i: usize = 0;
    while i < table.len()
        invariant
            i <= table@.len(),
            forall|j: int| 0 <= j < i ==> table@[j] != d,
        decreases table@.len() - i,
    {
        if table[i] == d {
            return true;
        }
        i = i + 1;
    }
    false
}

/// The device to talk to: the one named by `explicit` if there is one, else
/// the first port in `ports` that leads to a device of `supported`.
pub fn find_device(explicit: Option<String>, ports: &Vec<PortEntry>, supported: &Vec<DeviceDescriptor>) -> (r:
    Option<String>)
    ensures
        explicit is Some ==> r == explicit,
        explicit is None ==> (r is None <==> forall|i: int|
            0 <= i < ports@.len() ==> !is_supported(#[trigger] ports@[i], supported@)),
        explicit is None && r is Some ==> exists|i: int|
            0 <= i < ports@.len() && is_supported(#[trigger] ports@[i], supported@) && r->0@
                == ports@[i].name@ && forall|j: int|
                0 <= j < i ==> !is_supported(#[trigger] ports@[j], supported@),
{
    if let Some(name) = explicit {
        return Some(name);
    }
    let mut i: usize = 0;
    while i < ports.len()
        invariant
            explicit is None,
            i <= ports@.len(),
            forall|j: int| 0 <= j < i ==> !is_supported(#[trigger] ports@[j], supported@),
        decreases ports@.len() - i,
    {
        let port = &ports[i];
        match port.usb {
            Some(d) => {
                if in_table(d, supported) {
                    assert(is_supported(ports@[i as int], supported@));
                    return Some(port.name.clone());
                }
            },
            None => {},
        }
        i = i + 1;
    }
    None
}

} // verus!
