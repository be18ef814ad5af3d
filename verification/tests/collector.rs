use std::collections::HashMap;

use ifshow::features::{
    active_features, channels_summary, legacy_media_description, media_description,
    media_from_config_output, rings_summary, ChannelAttr, Duplex, FeatureBit, LinkModeAttr,
    RingAttr,
};
use ifshow::flags::{flags_str, is_running, is_up, Platform};
use ifshow::nic::LinuxNic;
use ifshow::catalog::PciDb;
use ifshow::pci::{get_pci_devices, RawPciDevice, SysfsNetDevice};
use ifshow::record::{
    encode_ifreq_name, first_altname, format_mac_bytes, gather, normalize_metric,
    nul_terminated_prefix, RawInterfaceData,
};
use ifshow::stats::Stats;

#[test]
fn ifreq_name_field_layout() {
    let b = encode_ifreq_name(b"eth0");
    assert_eq!(b.len(), 16);
    assert_eq!(&b[0..4], b"eth0");
    assert!(b[4..].iter().all(|&x| x == 0));
    // At most 15 usable bytes; the sixteenth is always the terminator.
    let long = encode_ifreq_name(b"averylonginterfacename");
    assert_eq!(&long[0..15], b"averylonginterf");
    assert_eq!(long[15], 0);
}

#[test]
fn nul_terminated_field_extraction() {
    let field = [b'e', b'1', b'0', b'0', b'0', 0, 0x7f, 0];
    assert_eq!(nul_terminated_prefix(&field), b"e1000");
    assert_eq!(nul_terminated_prefix(&[0u8; 4]), b"");
    assert_eq!(nul_terminated_prefix(b"abc"), b"abc");
}

#[test]
fn mac_formatting() {
    assert_eq!(
        format_mac_bytes(&[0x00, 0x1b, 0x21, 0xAB, 0xcd, 0xef]),
        "00:1b:21:ab:cd:ef"
    );
    assert_eq!(format_mac_bytes(&[]), "");
    assert_eq!(format_mac_bytes(&[0x0a]), "0a");
}

#[test]
fn flag_words_decode_per_platform() {
    assert_eq!(
        flags_str(Platform::Linux, 0x1 | 0x2 | 0x40 | 0x1000),
        "UP BROADCAST RUNNING MULTICAST"
    );
    assert_eq!(
        flags_str(Platform::Bsd, 0x1 | 0x2 | 0x40 | 0x8000),
        "UP BROADCAST RUNNING MULTICAST"
    );
    // The same bit means different things on the two platforms.
    assert_eq!(flags_str(Platform::Linux, 0x10), "PTP");
    assert_eq!(flags_str(Platform::Bsd, 0x10), "POINTOPOINT");
    assert_eq!(flags_str(Platform::Linux, 0), "");
    assert!(is_up(0x1));
    assert!(!is_up(0x2));
    assert!(is_running(0x41));
    assert!(!is_running(0x1));
}

#[test]
fn media_description_speed_and_sentinels() {
    let attrs = vec![
        LinkModeAttr::Other,
        LinkModeAttr::Speed(1000),
        LinkModeAttr::DuplexMode(Duplex::Full),
    ];
    assert_eq!(media_description(Some(&attrs)), "TP 1000Mb/s full");
    for sentinel in [0u32, 0xFFFF, 0xFFFFFFFF] {
        let attrs = vec![LinkModeAttr::Speed(sentinel)];
        assert_eq!(media_description(Some(&attrs)), "TP (unknown speed)");
    }
    let half = vec![LinkModeAttr::Speed(100), LinkModeAttr::DuplexMode(Duplex::Half)];
    assert_eq!(media_description(Some(&half)), "TP 100Mb/s half");
    assert_eq!(media_description(None), "unknown");
}

#[test]
fn legacy_settings_media_fallback() {
    assert_eq!(legacy_media_description(0, 100, Duplex::Half), "TP 100Mb/s half");
    assert_eq!(legacy_media_description(3, 10000, Duplex::Full), "FIBRE 10000Mb/s full");
    assert_eq!(legacy_media_description(4, 0, Duplex::Unknown), "BNC (unknown speed)");
    assert_eq!(legacy_media_description(9, 10, Duplex::Full), "unknown port 10Mb/s full");
}

#[test]
fn config_output_media_fallback() {
    let out = "Active: on
	Current: autoselect
  Current: 1000baseT full-duplex
";
    assert_eq!(
        media_from_config_output(out).as_deref(),
        Some("1000baseT full-duplex")
    );
    assert_eq!(media_from_config_output("Active: on
Current: autoselect
"), None);
    assert_eq!(media_from_config_output(""), None);
    assert_eq!(media_from_config_output("Current:
"), None);
}

#[test]
fn gather_media_chain_prefers_earlier_sources() {
    let nic = LinuxNic { name: "em0".to_string(), netns: None };
    let table = HashMap::new();
    let sysfs = SysfsNetDevice { uevent: None, device_link: None };

    let mut raw = empty_raw();
    raw.legacy_settings = Some((0, 100, Duplex::Full));
    raw.media_config = Some("Current: 1000baseT
".to_string());
    let rec = gather(&nic, &raw, Platform::Bsd, &table, &sysfs);
    assert_eq!(rec.media, "TP 100Mb/s full");

    let mut raw = empty_raw();
    raw.media_config = Some("Current: 1000baseT
".to_string());
    let rec = gather(&nic, &raw, Platform::Bsd, &table, &sysfs);
    assert_eq!(rec.media, "1000baseT");

    let mut raw = empty_raw();
    raw.media_config = Some("Current: autoselect
".to_string());
    let rec = gather(&nic, &raw, Platform::Bsd, &table, &sysfs);
    assert_eq!(rec.media, "unknown");
}

#[test]
fn ring_and_channel_folds() {
    let rings = vec![RingAttr::Other, RingAttr::Rx(256), RingAttr::Tx(512)];
    assert_eq!(rings_summary(&rings), (256, 512));
    assert_eq!(rings_summary(&Vec::new()), (0, 0));
    let channels = vec![
        ChannelAttr::RxCount(2),
        ChannelAttr::CombinedCount(8),
        ChannelAttr::Other,
    ];
    assert_eq!(channels_summary(&channels), (2, 0, 0, 8));
}

#[test]
fn active_features_are_canonicalized() {
    let bits = vec![
        FeatureBit { name: "rx-gro".to_string(), active: true },
        FeatureBit { name: "tx-tcp-segmentation".to_string(), active: true },
        FeatureBit { name: "rx-lro".to_string(), active: false },
        FeatureBit { name: "foo-bar".to_string(), active: true },
    ];
    let names = active_features(&bits);
    assert_eq!(names, ["gro", "tso", "foo-bar"]);
}

#[test]
fn metric_zero_means_default() {
    assert_eq!(normalize_metric(Some(0)), 1);
    assert_eq!(normalize_metric(Some(7)), 7);
    assert_eq!(normalize_metric(None), 0);
}

#[test]
fn altname_picks_first_nonempty() {
    let names = vec![String::new(), "enp3s0".to_string(), "other".to_string()];
    assert_eq!(first_altname(&names).as_deref(), Some("enp3s0"));
    assert_eq!(first_altname(&vec![String::new()]), None);
    assert_eq!(first_altname(&Vec::new()), None);
}

fn empty_raw() -> RawInterfaceData {
    RawInterfaceData {
        flags: None,
        mac_bytes: None,
        ipv4: Vec::new(),
        ipv6: Vec::new(),
        driver_info: None,
        link: None,
        mtu: None,
        metric: None,
        link_mode: None,
        legacy_settings: None,
        media_config: None,
        rings: None,
        channels: None,
        features: None,
        altnames: Vec::new(),
        stats: None,
    }
}

#[test]
fn gather_assembles_and_normalizes() {
    let nic = LinuxNic { name: "eth0".to_string(), netns: Some("blue".to_string()) };
    let mut raw = empty_raw();
    raw.flags = Some(0x1 | 0x40 | 0x1000);
    raw.mac_bytes = Some(vec![0x52, 0x54, 0x00, 0x12, 0x34, 0x56]);
    raw.ipv4 = vec![
        (0x0a000005, Some(0xffffff00)),
        (0xc0a80101, None),
    ];
    let mut ll = [0u8; 16];
    ll[0] = 0xfe;
    ll[1] = 0x80;
    ll[15] = 1;
    let mut mask64 = [0u8; 16];
    for i in 0..8 {
        mask64[i] = 0xff;
    }
    raw.ipv6 = vec![(ll, Some(mask64)), (ll, None)];
    raw.mtu = Some(1500);
    raw.metric = Some(0);
    raw.link_mode = Some(vec![
        LinkModeAttr::Speed(1000),
        LinkModeAttr::DuplexMode(Duplex::Full),
    ]);
    raw.features = Some(vec![FeatureBit { name: "rx-gro".to_string(), active: true }]);
    raw.altnames = vec!["enp0s3".to_string()];
    raw.stats = Some(Stats { rx_bytes: 1, rx_packets: 2, tx_bytes: 3, tx_packets: 4 });

    let table = HashMap::new();
    let sysfs = SysfsNetDevice { uevent: None, device_link: None };
    let rec = gather(&nic, &raw, Platform::Linux, &table, &sysfs);

    assert_eq!(rec.name, "eth0");
    assert_eq!(rec.netns.as_deref(), Some("blue"));
    assert!(rec.is_up);
    // No attribute-protocol link answer: the RUNNING bit decides.
    assert!(rec.link_detected);
    assert_eq!(rec.mac.as_deref(), Some("52:54:00:12:34:56"));
    assert_eq!(rec.flags_str, "UP RUNNING MULTICAST");
    assert_eq!(
        rec.ipv4,
        vec![
            ("10.0.0.5".to_string(), "255.255.255.0".to_string(), 24),
            ("192.168.1.1".to_string(), String::new(), 0),
        ]
    );
    assert_eq!(rec.ipv6.len(), 2);
    assert_eq!(rec.ipv6[0].0, "fe80::1");
    assert_eq!(rec.ipv6[0].1, 64);
    assert_eq!(rec.ipv6[0].2, "link");
    // A record without a netmask has prefix zero.
    assert_eq!(rec.ipv6[1].1, 0);
    assert_eq!(rec.mtu, 1500);
    // The zero metric is normalized to one.
    assert_eq!(rec.metric, 1);
    assert_eq!(rec.media, "TP 1000Mb/s full");
    assert_eq!(rec.features, ["gro"]);
    assert_eq!(rec.altname.as_deref(), Some("enp0s3"));
    assert_eq!(rec.stats.map(|s| s.rx_bytes), Some(1));
    assert!(rec.pci_info.is_none());
    assert!(rec.rings.is_none());
}

#[test]
fn gather_correlates_through_sysfs_without_driver_identity() {
    let raw_dev = RawPciDevice {
        vendor_id: 0x8086,
        device_id: 0x100e,
        class: Some(0x02),
        subclass: Some(0x00),
        revision: None,
        location: Some((0x03, 0x00, 0)),
        subsystem_vendor: None,
        subsystem_device: None,
    };
    let table = get_pci_devices(&vec![raw_dev], &PciDb::new());

    let nic = LinuxNic { name: "eth0".to_string(), netns: None };
    let raw = empty_raw();
    let sysfs = SysfsNetDevice {
        uevent: Some("PCI_SLOT_NAME=0000:03:00.0\n".to_string()),
        device_link: None,
    };
    // No driver identity at all: the bus-info string is empty, yet the
    // metadata file still yields the device.
    let rec = gather(&nic, &raw, Platform::Linux, &table, &sysfs);
    assert_eq!(rec.pci_info.map(|i| i.vendor_id), Some(0x8086));
}

#[test]
fn gather_with_all_queries_failed() {
    let nic = LinuxNic { name: "gone0".to_string(), netns: None };
    let raw = empty_raw();
    let table = HashMap::new();
    let sysfs = SysfsNetDevice { uevent: None, device_link: None };
    let rec = gather(&nic, &raw, Platform::Bsd, &table, &sysfs);
    assert!(!rec.is_up);
    assert!(!rec.link_detected);
    assert!(rec.mac.is_none());
    assert_eq!(rec.flags_str, "");
    assert_eq!(rec.mtu, 0);
    assert_eq!(rec.metric, 0);
    assert_eq!(rec.media, "unknown");
    assert!(rec.features.is_empty());
    assert!(rec.stats.is_none());
}
