use ifshow::features::canonicalize_feature;
use ifshow::filter::{CollectedInterface, Matcher};
use ifshow::pci::PciDeviceInfo;

fn base_record(name: &str, up: bool) -> CollectedInterface {
    CollectedInterface {
        name: name.to_string(),
        netns: None,
        is_up: up,
        link_detected: false,
        mac: None,
        ipv4: Vec::new(),
        ipv6: Vec::new(),
        flags_str: String::new(),
        driver_info: None,
        pci_info: None,
        altname: None,
        mtu: 0,
        metric: 0,
        media: "unknown".to_string(),
        stats: None,
        rings: None,
        channels: None,
        features: Vec::new(),
    }
}

fn base_matcher() -> Matcher {
    Matcher {
        keywords: Vec::new(),
        ipv4: false,
        ipv6: false,
        running: false,
        ignore_case: false,
        drivers: Vec::new(),
        all: false,
    }
}

fn eth0_with_ipv4() -> CollectedInterface {
    let mut rec = base_record("eth0", true);
    rec.ipv4 = vec![("10.0.0.5".to_string(), "255.255.255.0".to_string(), 24)];
    rec
}

#[test]
fn ipv4_required_accepts_record_with_ipv4() {
    let rec = eth0_with_ipv4();
    let mut m = base_matcher();
    m.ipv4 = true;
    assert!(m.matches(&rec));
}

#[test]
fn ipv6_required_rejects_record_without_ipv6() {
    let rec = eth0_with_ipv4();
    let mut m = base_matcher();
    m.ipv6 = true;
    assert!(!m.matches(&rec));
}

#[test]
fn down_interface_hidden_without_all() {
    let rec = base_record("wlan0", false);
    let m = base_matcher();
    assert!(!m.matches(&rec));
}

#[test]
fn explicit_name_bypasses_up_filter() {
    let rec = base_record("wlan0", false);
    let mut m = base_matcher();
    m.keywords = vec!["wlan0".to_string()];
    assert!(m.matches(&rec));
}

#[test]
fn feature_synonym_table_applies() {
    assert_eq!(canonicalize_feature("rx-gro"), "gro");
    assert_eq!(canonicalize_feature("foo-bar"), "foo-bar");
    assert_eq!(canonicalize_feature("tx-tcp-segmentation"), "tso");
}

#[test]
fn running_required_rejects_record_without_link() {
    let rec = eth0_with_ipv4();
    let mut m = base_matcher();
    m.running = true;
    assert!(!m.matches(&rec));
}

#[test]
fn keyword_matches_ipv4_address_substring() {
    let rec = eth0_with_ipv4();
    let mut m = base_matcher();
    m.keywords = vec!["10.0.0".to_string()];
    assert!(m.matches(&rec));
}

#[test]
fn keyword_case_folding() {
    let mut rec = base_record("eth0", true);
    rec.driver_info = Some(("E1000E".to_string(), "3.2".to_string(), "0000:00:1f.6".to_string()));
    let mut m = base_matcher();
    m.keywords = vec!["e1000e".to_string()];
    assert!(!m.matches(&rec));
    m.ignore_case = true;
    assert!(m.matches(&rec));
}

#[test]
fn driver_filter_is_case_insensitive_substring() {
    let mut rec = base_record("eth0", true);
    rec.driver_info = Some(("E1000E".to_string(), "3.2".to_string(), String::new()));
    let mut m = base_matcher();
    m.drivers = vec!["e1000".to_string()];
    assert!(m.matches(&rec));
    m.drivers = vec!["virtio".to_string()];
    assert!(!m.matches(&rec));
}

#[test]
fn driver_filter_rejects_record_without_driver() {
    let rec = base_record("eth0", true);
    let mut m = base_matcher();
    m.drivers = vec!["e1000".to_string()];
    assert!(!m.matches(&rec));
}

#[test]
fn keyword_matches_pci_identity() {
    let mut rec = base_record("eth0", true);
    let mut pci = PciDeviceInfo::default();
    pci.vendor_name = Some("Intel Corporation".to_string());
    pci.bus = Some(0x03);
    pci.device = Some(0x00);
    pci.function = Some(0);
    rec.pci_info = Some(pci);
    let mut m = base_matcher();
    m.keywords = vec!["Intel".to_string()];
    assert!(m.matches(&rec));
    m.keywords = vec!["03:00.0".to_string()];
    assert!(m.matches(&rec));
    m.keywords = vec!["no-such-thing".to_string()];
    assert!(!m.matches(&rec));
}

#[test]
fn explicit_name_does_not_bypass_address_requirements() {
    let rec = base_record("wlan0", false);
    let mut m = base_matcher();
    m.keywords = vec!["wlan0".to_string()];
    m.ipv4 = true;
    assert!(!m.matches(&rec));
}

#[test]
fn media_info_marker() {
    let rec = base_record("eth0", true);
    assert!(!rec.has_media_info());
    let mut rec2 = base_record("eth0", true);
    rec2.media = "TP 1000Mb/s full".to_string();
    assert!(rec2.has_media_info());
}
