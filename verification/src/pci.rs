//! PCI identity: the device-information record, the canonical `BB:DD.F`
//! address, the network-device table built from a system enumeration, and
//! the correlator that maps an interface's bus-info string (with its sysfs
//! fallbacks) to a device of that table.

use vstd::prelude::*;

use std::collections::HashMap;

use crate::catalog::{device_key, PciDb};
use crate::strutil::{
    find_char, idx_of, parse_hex_u8, spec_dec, spec_hex2, spec_lines, spec_parse_uint, split_lines,
    clone_opt_string, starts_with_seq, starts_with_str, str_eq, strip_all, strip_prefix_all, u8_hex2,
    u64_dec,
};

verus! {

broadcast use vstd::std_specs::hash::group_hash_axioms;

/// Everything the system knows of one PCI device, resolved once and then
/// only read.
#[derive(Debug)]
pub struct PciDeviceInfo {
    pub vendor_id: u16,
    pub device_id: u16,
    pub vendor_name: Option<String>,
    pub device_name: Option<String>,
    pub subsystem_vendor: Option<u16>,
    pub subsystem_device: Option<u16>,
    pub class: Option<u8>,
    pub subclass: Option<u8>,
    pub revision: Option<u8>,
    pub bus: Option<u8>,
    pub device: Option<u8>,
    pub function: Option<u8>,
    pub driver: Option<String>,
    pub numa_node: Option<i32>,
    pub irq: Option<u32>,
}

impl Default for PciDeviceInfo {
    /// The all-unknown record: zero identifiers, no optional field present.
    fn default() -> (r: Self)
        ensures
            r.vendor_id == 0 && r.device_id == 0,
            r.vendor_name is None && r.device_name is None,
            r.subsystem_vendor is None && r.subsystem_device is None,
            r.class is None && r.subclass is None && r.revision is None,
            r.bus is None && r.device is None && r.function is None,
            r.driver is None && r.numa_node is None && r.irq is None,
    {
        PciDeviceInfo {
            vendor_id: 0,
            device_id: 0,
            vendor_name: None,
            device_name: None,
            subsystem_vendor: None,
            subsystem_device: None,
            class: None,
            subclass: None,
            revision: None,
            bus: None,
            device: None,
            function: None,
            driver: None,
            numa_node: None,
            irq: None,
        }
    }
}

impl PciDeviceInfo {
    /// An exact copy, usable in contracts (a derived clone says nothing).
    pub fn duplicate(&self) -> (r: Self)
        ensures
            r == *self,
    {
        PciDeviceInfo {
            vendor_id: self.vendor_id,
            device_id: self.device_id,
            vendor_name: clone_opt_string(&self.vendor_name),
            device_name: clone_opt_string(&self.device_name),
            subsystem_vendor: self.subsystem_vendor,
            subsystem_device: self.subsystem_device,
            class: self.class,
            subclass: self.subclass,
            revision: self.revision,
            bus: self.bus,
            device: self.device,
            function: self.function,
            driver: clone_opt_string(&self.driver),
            numa_node: self.numa_node,
            irq: self.irq,
        }
    }

    /// Describes the class/subclass pair in words.
    pub fn format_class(&self) -> (r: String)
        ensures
            r@ == spec_format_class(self.class, self.subclass),
    {
        match (self.class, self.subclass) {
            (Some(class), Some(subclass)) => {
                if class == 0x02 && subclass == 0x00 {
                    String::from_str("Ethernet controller")
                } else if class == 0x02 && subclass == 0x80 {
                    String::from_str("Network controller")
                } else if class == 0x0d && subclass == 0x11 {
                    String::from_str("802.1a controller")
                } else if class == 0x0d && subclass == 0x20 {
                    String::from_str("802.11b controller")
                } else if class == 0x0d && subclass == 0x80 {
                    String::from_str("Wireless controller")
                } else {
                    let r = String::from_str("Class ").concat(u8_hex2(class).as_str()).concat(
                        ":",
                    ).concat(u8_hex2(subclass).as_str());
                    proof {
                        reveal_strlit(":");
                        assert(r@ =~= spec_format_class(self.class, self.subclass));
                    }
                    r
                }
            },
            _ => String::from_str("Unknown"),
        }
    }

    /// The canonical address `BB:DD.F` of the device, if its location is
    /// known: two hexadecimal digits each for bus and device, the function
    /// in decimal.
    pub fn pci_address(&self) -> (r: Option<String>)
        ensures
            match (self.bus, self.device, self.function) {
                (Some(b), Some(d), Some(f)) => r is Some && r->0@ == spec_pci_addr(b, d, f),
                _ => r is None,
            },
    {
        match (self.bus, self.device, self.function) {
            (Some(b), Some(d), Some(f)) => {
                proof {
                    reveal_strlit(":");
                    reveal_strlit(".");
                }
                let r = u8_hex2(b).concat(":").concat(u8_hex2(d).as_str()).concat(".").concat(
                    u64_dec(f as u64).as_str(),
                );
                proof {
                    assert(r@ =~= spec_pci_addr(b, d, f));
                }
                Some(r)
            },
            _ => None,
        }
    }
}

/// The words for a class/subclass pair.
pub open spec fn spec_format_class(class: Option<u8>, subclass: Option<u8>) -> Seq<char> {
    match (class, subclass) {
        (Some(c), Some(s)) => {
            if c == 0x02 && s == 0x00 {
                "Ethernet controller"@
            } else if c == 0x02 && s == 0x80 {
                "Network controller"@
            } else if c == 0x0d && s == 0x11 {
                "802.1a controller"@
            } else if c == 0x0d && s == 0x20 {
                "802.11b controller"@
            } else if c == 0x0d && s == 0x80 {
                "Wireless controller"@
            } else {
                "Class "@ + spec_hex2(c as nat) + seq![':'] + spec_hex2(s as nat)
            }
        },
        _ => "Unknown"@,
    }
}

/// The canonical address text `BB:DD.F`.
pub open spec fn spec_pci_addr(b: u8, d: u8, f: u8) -> Seq<char> {
    spec_hex2(b as nat) + seq![':'] + spec_hex2(d as nat) + seq!['.'] + spec_dec(f as nat)
}

/// The table key of a canonical address.  Two addresses share the key
/// exactly when bus, device and function all agree, so a key lookup is an
/// exact canonical-address match.
pub open spec fn addr_key(b: u8, d: u8, f: u8) -> u32 {
    (b as int * 0x10000 + d as int * 0x100 + f as int) as u32
}

/// Index of the last occurrence of `c`, or -1 when `c` does not occur.
pub open spec fn last_idx_of(s: Seq<char>, c: char) -> int
    decreases s.len(),
{
    if s.len() == 0 {
        -1
    } else if s.last() == c {
        s.len() - 1
    } else {
        last_idx_of(s.drop_last(), c)
    }
}

/// `last_idx_of` is what a backwards scan finds.
pub proof fn lemma_last_idx_of_is(s: Seq<char>, c: char, p: int)
    requires
        -1 <= p < s.len(),
        forall|j: int| p < j < s.len() ==> s[j] != c,
        p == -1 || s[p] == c,
    ensures
        last_idx_of(s, c) == p,
    decreases s.len(),
{
    if s.len() == 0 {
    } else if s.last() == c {
    } else {
        lemma_last_idx_of_is(s.drop_last(), c, p);
    }
}

/// Position of the last occurrence of `c` in `s`, if any.
pub fn rfind_char(s: &str, c: char) -> (r: Option<usize>)
    ensures
        match r {
            Some(p) => p == last_idx_of(s@, c) && p < s@.len() && s@[p as int] == c,
            None => last_idx_of(s@, c) == -1,
        },
{
    let n = s.unicode_len();
    let mut i: usize = n;
    while i > 0
        invariant
            i <= n,
            n == s@.len(),
            forall|j: int| i <= j < n ==> s@[j] != c,
        decreases i,
    {
        if s.get_char(i - 1) == c {
            proof {
                lemma_last_idx_of_is(s@, c, i - 1);
            }
            return Some(i - 1);
        }
        i = i - 1;
    }
    proof {
        lemma_last_idx_of_is(s@, c, -1);
    }
    None
}

/// What parsing a bus-info string yields: the last two colon-separated
/// segments are read as `bus` and `dev.func`, all three fields hexadecimal
/// 8-bit values, and the device/function segment must hold exactly one dot.
pub open spec fn spec_parse_pci(s: Seq<char>) -> Option<(u8, u8, u8)> {
    let j = last_idx_of(s, ':');
    if j < 0 {
        None
    } else {
        let second_last = s.subrange(last_idx_of(s.take(j), ':') + 1, j);
        let lastp = s.skip(j + 1);
        let k = last_idx_of(lastp, '.');
        if k < 0 || idx_of(lastp, '.') != k {
            None
        } else {
            match (
                spec_parse_uint(second_last, 16, u8::MAX as nat),
                spec_parse_uint(lastp.take(k), 16, u8::MAX as nat),
                spec_parse_uint(lastp.skip(k + 1), 16, u8::MAX as nat),
            ) {
                (Some(b), Some(d), Some(f)) => Some((b as u8, d as u8, f as u8)),
                _ => None,
            }
        }
    }
}

/// Parses a bus-info string into (bus, device, function).
pub fn parse_pci_address(s: &str) -> (r: Option<(u8, u8, u8)>)
    ensures
        r == spec_parse_pci(s@),
{
    let n = s.unicode_len();
    let j = match rfind_char(s, ':') {
        Some(j) => j,
        None => {
            return None;
        },
    };
    let head = s.substring_char(0, j);
    proof {
        assert(head@ =~= s@.take(j as int));
    }
    let i: usize = match rfind_char(head, ':') {
        Some(i) => i + 1,
        None => 0,
    };
    let second_last = s.substring_char(i, j);
    proof {
        assert(second_last@ =~= s@.subrange(last_idx_of(s@.take(j as int), ':') + 1, j as int));
    }
    let lastp = s.substring_char(j + 1, n);
    proof {
        assert(lastp@ =~= s@.skip(j + 1));
    }
    let m = lastp.unicode_len();
    let k = match rfind_char(lastp, '.') {
        Some(k) => k,
        None => {
            return None;
        },
    };
    match find_char(lastp, '.') {
        Some(k0) => {
            if k0 != k {
                return None;
            }
        },
        None => {
            return None;
        },
    }
    let bus = match parse_hex_u8(second_last) {
        Some(b) => b,
        None => {
            return None;
        },
    };
    let df0 = lastp.substring_char(0, k);
    let df1 = lastp.substring_char(k + 1, m);
    proof {
        assert(df0@ =~= lastp@.take(k as int));
        assert(df1@ =~= lastp@.skip(k + 1));
    }
    let dev = match parse_hex_u8(df0) {
        Some(d) => d,
        None => {
            return None;
        },
    };
    let func = match parse_hex_u8(df1) {
        Some(f) => f,
        None => {
            return None;
        },
    };
    Some((bus, dev, func))
}

/// The stripped value of the first device-metadata line carrying the PCI
/// slot name key, if any line does.
pub open spec fn first_slot_value(ls: Seq<Seq<char>>) -> Option<Seq<char>>
    decreases ls.len(),
{
    if ls.len() == 0 {
        None
    } else if starts_with_seq(ls[0], "PCI_SLOT_NAME="@) {
        Some(strip_all(ls[0], "PCI_SLOT_NAME="@))
    } else {
        first_slot_value(ls.drop_first())
    }
}

/// What an interface's sysfs data can say about the device, as text the
/// caller read: the per-interface metadata file (`KEY=VALUE` lines) and the
/// target of the device symlink.  A `None` field means that source could not
/// be read.
pub struct SysfsNetDevice {
    pub uevent: Option<String>,
    pub device_link: Option<String>,
}

/// The metadata text as a character sequence, if it was readable.
pub open spec fn uevent_model(d: &SysfsNetDevice) -> Option<Seq<char>> {
    match d.uevent {
        Some(s) => Some(s@),
        None => None,
    }
}

/// The symlink target as a character sequence, if it was readable.
pub open spec fn link_model(d: &SysfsNetDevice) -> Option<Seq<char>> {
    match d.device_link {
        Some(s) => Some(s@),
        None => None,
    }
}

/// Final path segment of a symlink target; an empty segment or a relative
/// marker names no file.
pub open spec fn spec_link_file_name(t: Seq<char>) -> Option<Seq<char>> {
    let seg = t.skip(last_idx_of(t, '/') + 1);
    if seg.len() == 0 || seg == "."@ || seg == ".."@ {
        None
    } else {
        Some(seg)
    }
}

/// The address the device symlink yields: its target's file name parsed as
/// a bus-info string.
pub open spec fn spec_link_pci(link: Option<Seq<char>>) -> Option<(u8, u8, u8)> {
    match link {
        Some(t) => match spec_link_file_name(t) {
            Some(seg) => spec_parse_pci(seg),
            None => None,
        },
        None => None,
    }
}

/// The address the sysfs sources yield: the first PCI slot-name line of the
/// metadata file decides if one exists (even when its value does not
/// parse); otherwise the device symlink is tried.
pub open spec fn spec_sysfs_pci(uevent: Option<Seq<char>>, link: Option<Seq<char>>) -> Option<
    (u8, u8, u8),
> {
    match uevent {
        Some(u) => match first_slot_value(spec_lines(u)) {
            Some(v) => spec_parse_pci(v),
            None => spec_link_pci(link),
        },
        None => spec_link_pci(link),
    }
}

/// Derives a PCI address from an interface's sysfs data.
pub fn extract_pci_from_sysfs(dev: &SysfsNetDevice) -> (r: Option<(u8, u8, u8)>)
    ensures
        r == spec_sysfs_pci(uevent_model(dev), link_model(dev)),
{
    match &dev.uevent {
        Some(u) => {
            let lines = split_lines(u.as_str());
            let ghost all = spec_lines(u@);
            let mut i: usize = 0;
            proof {
                assert(all.skip(0) =~= all);
            }
            while i < lines.len()
                invariant
                    i <= lines@.len(),
                    lines@.len() == all.len(),
                    uevent_model(dev) == Some(u@),
                    link_model(dev) == (match dev.device_link {
                        Some(s) => Some(s@),
                        None => None,
                    }),
                    all == spec_lines(u@),
                    forall|k: int| 0 <= k < all.len() ==> lines@[k]@ == all[k],
                    first_slot_value(all) == first_slot_value(all.skip(i as int)),
                decreases lines@.len() - i,
            {
                proof {
                    assert(all.skip(i as int)[0] == all[i as int]);
                    assert(all.skip(i as int).drop_first() =~= all.skip(i + 1));
                }
                let line = lines[i].as_str();
                if starts_with_str(line, "PCI_SLOT_NAME=") {
                    let rest = strip_prefix_all(line, "PCI_SLOT_NAME=");
                    proof {
                        assert(line@ == all[i as int]);
                        assert(starts_with_seq(all.skip(i as int)[0], "PCI_SLOT_NAME="@));
                        assert(first_slot_value(all.skip(i as int)) == Some(
                            strip_all(all[i as int], "PCI_SLOT_NAME="@),
                        ));
                        assert(rest@ == strip_all(all[i as int], "PCI_SLOT_NAME="@));
                    }
                    return parse_pci_address(rest.as_str());
                }
                i = i + 1;
            }
            proof {
                assert(all.skip(all.len() as int).len() == 0);
            }
            link_pci(&dev.device_link)
        },
        None => link_pci(&dev.device_link),
    }
}

/// Derives a PCI address from a device symlink target.
fn link_pci(link: &Option<String>) -> (r: Option<(u8, u8, u8)>)
    ensures
        r == spec_link_pci(
            match link {
                Some(s) => Some(s@),
                None => None,
            },
        ),
{
    let t = match link {
        Some(t) => t,
        None => {
            return None;
        },
    };
    let n = t.as_str().unicode_len();
    let start = match rfind_char(t.as_str(), '/') {
        Some(p) => p + 1,
        None => 0,
    };
    let seg = t.as_str().substring_char(start, n);
    proof {
        assert(seg@ =~= t@.skip(last_idx_of(t@, '/') + 1));
    }
    if seg.unicode_len() == 0 || str_eq(seg, ".") || str_eq(seg, "..") {
        return None;
    }
    parse_pci_address(seg)
}

/// One device of the system's PCI enumeration, as plain values; a `None`
/// field means that query failed for this device.
#[derive(Clone, Copy, Debug)]
pub struct RawPciDevice {
    pub vendor_id: u16,
    pub device_id: u16,
    pub class: Option<u8>,
    pub subclass: Option<u8>,
    pub revision: Option<u8>,
    pub location: Option<(u8, u8, u8)>,
    pub subsystem_vendor: Option<u16>,
    pub subsystem_device: Option<u16>,
}

/// Whether an enumerated device belongs in the table: its class and
/// subclass are known and the class is network or wireless.
pub open spec fn raw_eligible(d: RawPciDevice) -> bool {
    &&& d.class is Some
    &&& d.subclass is Some
    &&& (d.class->0 == 0x02 || d.class->0 == 0x0d)
}

/// How a table entry under `key` describes a raw device: the identifiers
/// and location carried over, the names resolved through the catalog maps
/// exactly where the catalog has them, and nothing else filled in.
pub open spec fn raw_key(d: RawPciDevice) -> u32
    recommends
        d.location is Some,
{
    let loc = d.location->0;
    addr_key(loc.0, loc.1, loc.2)
}

pub open spec fn entry_matches(
    d: RawPciDevice,
    vdb: Map<u16, Seq<char>>,
    ddb: Map<u32, Seq<char>>,
    key: u32,
    info: PciDeviceInfo,
) -> bool {
    let loc = d.location->0;
    &&& raw_eligible(d)
    &&& d.location is Some
    &&& key == addr_key(loc.0, loc.1, loc.2)
    &&& info.vendor_id == d.vendor_id
    &&& info.device_id == d.device_id
    &&& info.class == d.class
    &&& info.subclass == d.subclass
    &&& info.revision == d.revision
    &&& info.bus == Some(loc.0)
    &&& info.device == Some(loc.1)
    &&& info.function == Some(loc.2)
    &&& info.subsystem_vendor == d.subsystem_vendor
    &&& info.subsystem_device == d.subsystem_device
    &&& (match info.vendor_name {
        Some(s) => vdb.contains_key(d.vendor_id) && s@ == vdb[d.vendor_id],
        None => !vdb.contains_key(d.vendor_id),
    })
    &&& (match info.device_name {
        Some(s) => ddb.contains_key(device_key(d.vendor_id, d.device_id)) && s@ == ddb[device_key(
            d.vendor_id,
            d.device_id,
        )],
        None => !ddb.contains_key(device_key(d.vendor_id, d.device_id)),
    })
    &&& info.driver is None
    &&& info.numa_node is None
    &&& info.irq is None
}

/// Builds the address-keyed table of network-class PCI devices from a
/// system enumeration, resolving names through the hardware catalog.  Every
/// key in the table describes one of the enumerated devices, and every
/// eligible device with a known location has its key in the table.
pub fn get_pci_devices(raw: &Vec<RawPciDevice>, db: &PciDb) -> (r: HashMap<u32, PciDeviceInfo>)
    ensures
        forall|k: u32| #[trigger]
            r@.contains_key(k) ==> exists|j: int|
                0 <= j < raw@.len() && entry_matches(
                    raw@[j],
                    db.vendors_model(),
                    db.devices_model(),
                    k,
                    r@[k],
                ),
        forall|j: int|
            0 <= j < raw@.len() && raw_eligible(#[trigger] raw@[j]) && raw@[j].location is Some
                ==> r@.contains_key(raw_key(raw@[j])),
{
    let mut m: HashMap<u32, PciDeviceInfo> = HashMap::new();
    let mut i: usize = 0;
    while i < raw.len()
        invariant
            i <= raw@.len(),
            forall|k: u32| #[trigger]
                m@.contains_key(k) ==> exists|j: int|
                    0 <= j < i && entry_matches(
                        raw@[j],
                        db.vendors_model(),
                        db.devices_model(),
                        k,
                        m@[k],
                    ),
            forall|j: int|
                0 <= j < i && raw_eligible(#[trigger] raw@[j]) && raw@[j].location is Some
                    ==> m@.contains_key(raw_key(raw@[j])),
        decreases raw@.len() - i,
    {
        let d = raw[i];
        let eligible = match (d.class, d.subclass) {
            (Some(c), Some(_sc)) => c == 0x02 || c == 0x0d,
            _ => false,
        };
        if eligible {
            if let Some((b, dev, f)) = d.location {
                let info = PciDeviceInfo {
                    vendor_id: d.vendor_id,
                    device_id: d.device_id,
                    vendor_name: db.get_vendor(d.vendor_id),
                    device_name: db.get_device(d.vendor_id, d.device_id),
                    subsystem_vendor: d.subsystem_vendor,
                    subsystem_device: d.subsystem_device,
                    class: d.class,
                    subclass: d.subclass,
                    revision: d.revision,
                    bus: Some(b),
                    device: Some(dev),
                    function: Some(f),
                    driver: None,
                    numa_node: None,
                    irq: None,
                };
                let key: u32 = (b as u32) * 0x10000 + (dev as u32) * 0x100 + (f as u32);
                m.insert(key, info);
                proof {
                    assert(key == addr_key(b, dev, f));
                    assert(entry_matches(
                        raw@[i as int],
                        db.vendors_model(),
                        db.devices_model(),
                        key,
                        m@[key],
                    ));
                }
            }
        }
        i = i + 1;
    }
    m
}

/// The canonical key an interface's bus-info string derives: any leading
/// `pci@` prefix is stripped and the rest parsed; where that parse fails —
/// the empty string included — the sysfs sources are consulted before
/// giving up.
pub open spec fn spec_correlate_key(
    bus: Seq<char>,
    uevent: Option<Seq<char>>,
    link: Option<Seq<char>>,
) -> Option<(u8, u8, u8)> {
    match spec_parse_pci(strip_all(bus, "pci@"@)) {
        Some(t) => Some(t),
        None => spec_sysfs_pci(uevent, link),
    }
}

/// What the correlator attaches: the table entry under the derived key, and
/// nothing when no key could be derived or the table has no such device.
pub open spec fn spec_correlate(
    bus: Seq<char>,
    uevent: Option<Seq<char>>,
    link: Option<Seq<char>>,
    table: Map<u32, PciDeviceInfo>,
) -> Option<PciDeviceInfo> {
    match spec_correlate_key(bus, uevent, link) {
        Some((b, d, f)) => if table.contains_key(addr_key(b, d, f)) {
            Some(table[addr_key(b, d, f)])
        } else {
            None
        },
        None => None,
    }
}

/// Correlates an interface with a PCI device: derives a canonical address
/// from the bus-info string (with the sysfs fallbacks) and looks it up in
/// the device table.
pub fn find_pci_info_for_interface(
    bus_info: &str,
    sysfs: &SysfsNetDevice,
    pci_devices: &HashMap<u32, PciDeviceInfo>,
) -> (r: Option<PciDeviceInfo>)
    ensures
        r == spec_correlate(bus_info@, uevent_model(sysfs), link_model(sysfs), pci_devices@),
{
    let clean = strip_prefix_all(bus_info, "pci@");
    let key3 = match parse_pci_address(clean.as_str()) {
        Some(t) => Some(t),
        None => extract_pci_from_sysfs(sysfs),
    };
    match key3 {
        Some((b, d, f)) => {
            let key: u32 = (b as u32) * 0x10000 + (d as u32) * 0x100 + (f as u32);
            proof {
                assert(key == addr_key(b, d, f));
            }
            match pci_devices.get(&key) {
                Some(info) => Some(info.duplicate()),
                None => None,
            }
        },
        None => None,
    }
}

/// The correlator never attaches two different devices for one canonical
/// address key: whenever two interfaces' inputs derive the same key, the
/// same single table entry (or none) is attached to both.
pub proof fn lemma_correlator_at_most_one_device(
    table: Map<u32, PciDeviceInfo>,
    bus1: Seq<char>,
    ue1: Option<Seq<char>>,
    ln1: Option<Seq<char>>,
    bus2: Seq<char>,
    ue2: Option<Seq<char>>,
    ln2: Option<Seq<char>>,
)
    requires
        spec_correlate_key(bus1, ue1, ln1) == spec_correlate_key(bus2, ue2, ln2),
    ensures
        spec_correlate(bus1, ue1, ln1, table) == spec_correlate(bus2, ue2, ln2, table),
{
}

/// An interface whose bus-info string is unparsable — no canonical address
/// can be derived from it or from the sysfs fallbacks — gets no PCI
/// correlation rather than an error.
pub proof fn lemma_unparsable_bus_info_no_correlation(
    table: Map<u32, PciDeviceInfo>,
    bus: Seq<char>,
    ue: Option<Seq<char>>,
    ln: Option<Seq<char>>,
)
    requires
        spec_correlate_key(bus, ue, ln) is None,
    ensures
        spec_correlate(bus, ue, ln, table) is None,
{
}

} // verus!
