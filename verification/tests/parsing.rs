use std::collections::HashMap;

use ifshow::catalog::PciDb;
use ifshow::netaddr::{classify_ipv6, format_ipv4, format_ipv6, ipv4_prefix_len, ipv6_prefix_len,
    scope_name, Ipv6Scope};
use ifshow::pci::{
    extract_pci_from_sysfs, find_pci_info_for_interface, get_pci_devices, parse_pci_address,
    PciDeviceInfo, RawPciDevice, SysfsNetDevice,
};
use ifshow::stats::get_stats;

#[test]
fn prefix_len_is_popcount() {
    assert_eq!(ipv4_prefix_len(0xffffff00), 24);
    assert_eq!(ipv4_prefix_len(0), 0);
    assert_eq!(ipv4_prefix_len(0xffffffff), 32);
    assert_eq!(ipv4_prefix_len(0xfffffe00), 23);
    // A non-contiguous mask still counts its set bits.
    assert_eq!(ipv4_prefix_len(0xff0000ff), 16);
}

#[test]
fn ipv6_prefix_len_is_popcount_of_mask_bytes() {
    let mut mask = [0u8; 16];
    for i in 0..8 {
        mask[i] = 0xff;
    }
    assert_eq!(ipv6_prefix_len(&mask), 64);
    assert_eq!(ipv6_prefix_len(&[0u8; 16]), 0);
    assert_eq!(ipv6_prefix_len(&[0xffu8; 16]), 128);
}

#[test]
fn ipv6_scope_rules_in_order() {
    let mut loopback = [0u8; 16];
    loopback[15] = 1;
    assert_eq!(classify_ipv6(&loopback), Ipv6Scope::Host);
    assert_eq!(scope_name(classify_ipv6(&loopback)), "host");

    let mut link_local = [0u8; 16];
    link_local[0] = 0xfe;
    link_local[1] = 0x80;
    assert_eq!(scope_name(classify_ipv6(&link_local)), "link");

    let mut site = [0u8; 16];
    site[0] = 0xfe;
    site[1] = 0xc0;
    assert_eq!(scope_name(classify_ipv6(&site)), "site");

    let mut mcast = [0u8; 16];
    mcast[0] = 0xff;
    mcast[1] = 0x02;
    assert_eq!(scope_name(classify_ipv6(&mcast)), "multicast");

    let mut global = [0u8; 16];
    global[0] = 0x20;
    global[1] = 0x01;
    assert_eq!(scope_name(classify_ipv6(&global)), "global");

    // Rule order is load-bearing: loopback is host, never global.
    assert_ne!(classify_ipv6(&loopback), Ipv6Scope::Global);
}

#[test]
fn ipv4_formatting() {
    assert_eq!(format_ipv4(0x0a000005), "10.0.0.5");
    assert_eq!(format_ipv4(0xffffff00), "255.255.255.0");
    assert_eq!(format_ipv4(0), "0.0.0.0");
}

#[test]
fn ipv6_formatting_compresses_zero_runs() {
    let mut a = [0u8; 16];
    assert_eq!(format_ipv6(&a), "::");
    a[15] = 1;
    assert_eq!(format_ipv6(&a), "::1");

    let mut b = [0u8; 16];
    b[0] = 0x20;
    b[1] = 0x01;
    b[2] = 0x0d;
    b[3] = 0xb8;
    b[15] = 1;
    assert_eq!(format_ipv6(&b), "2001:db8::1");

    // The leftmost longest run wins on a tie of shorter runs.
    let mut c = [0u8; 16];
    c[1] = 1; // groups: 1,0,0,1,0,0,0,1
    c[7] = 1;
    c[15] = 1;
    assert_eq!(format_ipv6(&c), "1:0:0:1::1");

    // A single zero group is not compressed.
    let mut d = [0u8; 16];
    for i in 0..8 {
        d[2 * i + 1] = if i == 4 { 0 } else { 1 };
    }
    assert_eq!(format_ipv6(&d), "1:1:1:1:0:1:1:1");
}

#[test]
fn ipv6_formatting_v4_mapped() {
    let mut a = [0u8; 16];
    a[10] = 0xff;
    a[11] = 0xff;
    a[12] = 192;
    a[13] = 0;
    a[14] = 2;
    a[15] = 1;
    assert_eq!(format_ipv6(&a), "::ffff:192.0.2.1");
}

const SAMPLE_DB: &str = "\
# PCI vendors and devices
8086  Intel Corporation
\t100e  82540EM Gigabit Ethernet Controller
\t\t8086 001e  PRO/1000 MT Desktop Adapter
10de  NVIDIA Corporation
";

#[test]
fn catalog_parses_vendors_and_devices() {
    let mut db = PciDb::new();
    db.parse(SAMPLE_DB);
    assert_eq!(db.get_vendor(0x8086).as_deref(), Some("Intel Corporation"));
    assert_eq!(
        db.get_device(0x8086, 0x100e).as_deref(),
        Some("82540EM Gigabit Ethernet Controller")
    );
    assert_eq!(db.get_vendor(0x10de).as_deref(), Some("NVIDIA Corporation"));
    assert_eq!(db.get_vendor(0x1234), None);
    // The doubly indented subsystem line is ignored.
    assert_eq!(db.get_device(0x8086, 0x001e), None);
}

#[test]
fn catalog_parse_is_idempotent() {
    let mut once = PciDb::new();
    once.parse(SAMPLE_DB);
    let mut twice = PciDb::new();
    twice.parse(SAMPLE_DB);
    twice.parse(SAMPLE_DB);
    for vid in [0x8086u16, 0x10de, 0x1234] {
        assert_eq!(once.get_vendor(vid), twice.get_vendor(vid));
    }
    for (vid, did) in [(0x8086u16, 0x100eu16), (0x8086, 0x001e), (0x10de, 0x0001)] {
        assert_eq!(once.get_device(vid, did), twice.get_device(vid, did));
    }
}

#[test]
fn catalog_device_line_before_any_vendor_is_ignored() {
    let mut db = PciDb::new();
    db.parse("\t100e  Orphan Device\n8086  Intel Corporation\n");
    assert_eq!(db.get_device(0x8086, 0x100e), None);
    assert_eq!(db.get_vendor(0x8086).as_deref(), Some("Intel Corporation"));
}

#[test]
fn pci_address_parsing() {
    assert_eq!(parse_pci_address("0000:03:00.0"), Some((0x03, 0x00, 0)));
    assert_eq!(parse_pci_address("03:00.1"), Some((0x03, 0x00, 1)));
    assert_eq!(parse_pci_address("garbage"), None);
    assert_eq!(parse_pci_address("00.0"), None);
    assert_eq!(parse_pci_address("0000:zz:00.0"), None);
    assert_eq!(parse_pci_address("0000:03:00.0.1"), None);
}

fn sample_table() -> HashMap<u32, PciDeviceInfo> {
    let raw = vec![
        RawPciDevice {
            vendor_id: 0x8086,
            device_id: 0x100e,
            class: Some(0x02),
            subclass: Some(0x00),
            revision: Some(0x03),
            location: Some((0x03, 0x00, 0)),
            subsystem_vendor: None,
            subsystem_device: None,
        },
        // A display controller is not kept.
        RawPciDevice {
            vendor_id: 0x10de,
            device_id: 0x2206,
            class: Some(0x03),
            subclass: Some(0x00),
            revision: None,
            location: Some((0x01, 0x00, 0)),
            subsystem_vendor: None,
            subsystem_device: None,
        },
    ];
    let mut db = PciDb::new();
    db.parse(SAMPLE_DB);
    get_pci_devices(&raw, &db)
}

fn no_sysfs() -> SysfsNetDevice {
    SysfsNetDevice { uevent: None, device_link: None }
}

#[test]
fn pci_table_keeps_network_class_only() {
    let table = sample_table();
    assert_eq!(table.len(), 1);
    let info = table.values().next().unwrap();
    assert_eq!(info.vendor_id, 0x8086);
    assert_eq!(info.vendor_name.as_deref(), Some("Intel Corporation"));
    assert_eq!(
        info.device_name.as_deref(),
        Some("82540EM Gigabit Ethernet Controller")
    );
    assert_eq!(info.pci_address().as_deref(), Some("03:00.0"));
    assert_eq!(info.format_class(), "Ethernet controller");
}

#[test]
fn correlator_finds_device_by_bus_info() {
    let table = sample_table();
    let found = find_pci_info_for_interface("0000:03:00.0", &no_sysfs(), &table);
    assert_eq!(found.as_ref().map(|i| i.vendor_id), Some(0x8086));
    let prefixed = find_pci_info_for_interface("pci@0000:03:00.0", &no_sysfs(), &table);
    assert_eq!(prefixed.as_ref().map(|i| i.vendor_id), Some(0x8086));
}

#[test]
fn correlator_same_key_never_two_devices() {
    let table = sample_table();
    let a = find_pci_info_for_interface("0000:03:00.0", &no_sysfs(), &table);
    let b = find_pci_info_for_interface("pci@0000:03:00.0", &no_sysfs(), &table);
    let a = a.unwrap();
    let b = b.unwrap();
    assert_eq!(a.vendor_id, b.vendor_id);
    assert_eq!(a.device_id, b.device_id);
    assert_eq!(a.pci_address(), b.pci_address());
}

#[test]
fn correlator_unparsable_bus_info_yields_none() {
    let table = sample_table();
    assert!(find_pci_info_for_interface("usb@1:2", &no_sysfs(), &table).is_none());
    assert!(find_pci_info_for_interface("", &no_sysfs(), &table).is_none());
}

#[test]
fn correlator_falls_back_to_sysfs() {
    let table = sample_table();
    let sysfs = SysfsNetDevice {
        uevent: Some("DRIVER=e1000\nPCI_SLOT_NAME=0000:03:00.0\n".to_string()),
        device_link: None,
    };
    let found = find_pci_info_for_interface("not-a-pci-string", &sysfs, &table);
    assert_eq!(found.map(|i| i.vendor_id), Some(0x8086));

    let link_only = SysfsNetDevice {
        uevent: None,
        device_link: Some("../../../devices/pci0000:00/0000:03:00.0".to_string()),
    };
    assert_eq!(extract_pci_from_sysfs(&link_only), Some((0x03, 0x00, 0)));
}

#[test]
fn correlator_empty_bus_info_still_consults_sysfs() {
    let table = sample_table();
    // An empty bus-info string is a failed parse like any other: the
    // metadata file decides.
    let sysfs = SysfsNetDevice {
        uevent: Some("PCI_SLOT_NAME=0000:03:00.0\n".to_string()),
        device_link: None,
    };
    let found = find_pci_info_for_interface("", &sysfs, &table);
    assert_eq!(found.map(|i| i.vendor_id), Some(0x8086));
    // And so does the device symlink when the metadata file is unreadable.
    let link_only = SysfsNetDevice {
        uevent: None,
        device_link: Some("../../../devices/pci0000:00/0000:03:00.0".to_string()),
    };
    let found = find_pci_info_for_interface("", &link_only, &table);
    assert_eq!(found.map(|i| i.device_id), Some(0x100e));
}

const SAMPLE_DEV: &str = "\
Inter-|   Receive                                                |  Transmit
 face |bytes    packets errs drop fifo frame compressed multicast|bytes    packets errs drop fifo colls carrier compressed
    lo: 1111565     777    0    0    0     0          0         0  1111565     777    0    0    0     0       0          0
  eth0: 514425531  389justwrong
  eth1: 514425531  389000    0    0    0     0          0     2941 12000000   98765    0    0    0     0       0          0
";

#[test]
fn stats_reads_the_documented_columns() {
    let s = get_stats(SAMPLE_DEV, "eth1");
    assert_eq!(s.rx_bytes, 514425531);
    assert_eq!(s.rx_packets, 389000);
    assert_eq!(s.tx_bytes, 12000000);
    assert_eq!(s.tx_packets, 98765);
    let lo = get_stats(SAMPLE_DEV, "lo");
    assert_eq!(lo.rx_bytes, 1111565);
    assert_eq!(lo.tx_packets, 777);
}

#[test]
fn stats_missing_interface_or_short_line_gives_zeros() {
    let missing = get_stats(SAMPLE_DEV, "wlan0");
    assert_eq!(missing.rx_bytes, 0);
    assert_eq!(missing.tx_bytes, 0);
    // eth0's line has too few columns: zeros, not a crash.
    let short = get_stats(SAMPLE_DEV, "eth0");
    assert_eq!(short.rx_bytes, 0);
    // The header lines are never matched.
    let header = get_stats("face\nface\nface: 1 2 3 4 5 6 7 8 9 10 11 12\n", "face");
    assert_eq!(header.rx_bytes, 1);
}
