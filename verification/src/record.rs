//! The attribute collector's assembly step: byte-layout helpers for the
//! fixed-size ioctl request structures, MAC formatting, the per-field
//! normalizations, and `gather`, which builds one interface record from the
//! raw values the per-interface queries returned.

use vstd::prelude::*;

use std::collections::HashMap;

use crate::features::{
    active_features, canon_actives, channel_count, channels_summary, legacy_media_description,
    lm_duplex, lm_speed, media_description, media_from_config_output, media_unknown,
    port_name_spec, ring_rx, ring_tx, rings_summary, spec_current_media, spec_decode_port,
    spec_media_text, spec_media_text_port, ChannelAttr, Duplex, FeatureBit, LinkModeAttr,
    RingAttr,
};
use crate::strutil::spec_lines;
use crate::flags::{flag_parts, flags_str, is_running, is_up, join_space, Platform, IFF_RUNNING,
    IFF_UP};
use crate::netaddr::{
    count_bits_bytes, count_bits_u32, format_ipv4, format_ipv6, ipv4_prefix_len, ipv6_prefix_len,
    classify_ipv6, scope_name, scope_name_spec, scope_of, spec_ipv4_str, spec_ipv6_str,
};
use crate::nic::LinuxNic;
use crate::pci::{
    find_pci_info_for_interface, link_model, spec_correlate, uevent_model, PciDeviceInfo,
    SysfsNetDevice,
};
use crate::stats::Stats;
use crate::strutil::{clone_opt_string, spec_hex2, u8_hex2};
use crate::filter::CollectedInterface;

verus! {

/// The interface-name field of the fixed-size request structure: exactly 16
/// bytes, the first at most 15 bytes of the name followed by zero padding —
/// the kernel's binary layout, byte for byte.
pub fn encode_ifreq_name(name: &[u8]) -> (r: Vec<u8>)
    ensures
        r@.len() == 16,
        forall|i: int| 0 <= i < 15 && i < name@.len() ==> r@[i] == name@[i],
        forall|i: int|
            0 <= i < 16 && (i >= name@.len() || i >= 15) ==> r@[i] == 0,
{
    let mut out: Vec<u8> = Vec::new();
    let len = if name.len() < 15 {
        name.len()
    } else {
        15
    };
    let mut i: usize = 0;
    while i < len
        invariant
            i <= len,
            len <= 15,
            len <= name@.len(),
            out@.len() == i,
            forall|j: int| 0 <= j < i ==> out@[j] == name@[j],
        decreases len - i,
    {
        out.push(name[i]);
        i = i + 1;
    }
    while i < 16
        invariant
            len <= i <= 16,
            len <= 15,
            out@.len() == i,
            forall|j: int| 0 <= j < len ==> out@[j] == name@[j],
            forall|j: int| len <= j < i ==> out@[j] == 0,
        decreases 16 - i,
    {
        out.push(0);
        i = i + 1;
    }
    out
}

/// Index of the first zero byte, or the length when none occurs.
pub open spec fn first_nul(s: Seq<u8>) -> nat
    decreases s.len(),
{
    if s.len() == 0 {
        0
    } else if s[0] == 0 {
        0
    } else {
        1 + first_nul(s.drop_first())
    }
}

proof fn lemma_first_nul_is(s: Seq<u8>, p: int)
    requires
        0 <= p <= s.len(),
        forall|j: int| 0 <= j < p ==> s[j] != 0,
        p == s.len() || s[p] == 0,
    ensures
        first_nul(s) == p,
    decreases p,
{
    if p > 0 {
        lemma_first_nul_is(s.drop_first(), p - 1);
    }
}

/// The bytes of a NUL-padded fixed-size text field up to its first zero
/// byte, which is how the driver-information strings are read out of the
/// request structure.
pub fn nul_terminated_prefix(b: &[u8]) -> (r: Vec<u8>)
    ensures
        r@ == b@.take(first_nul(b@) as int),
{
    let mut i: usize = 0;
    let mut out: Vec<u8> = Vec::new();
    while i < b.len()
        invariant
            i <= b@.len(),
            out@ =~= b@.take(i as int),
            forall|j: int| 0 <= j < i ==> b@[j] != 0,
        decreases b@.len() - i,
    {
        if b[i] == 0 {
            proof {
                lemma_first_nul_is(b@, i as int);
            }
            return out;
        }
        out.push(b[i]);
        i = i + 1;
    }
    proof {
        lemma_first_nul_is(b@, b@.len() as int);
        assert(b@.take(b@.len() as int) =~= b@);
    }
    out
}

/// Bytes as colon-separated lowercase two-digit hexadecimal octets; no
/// bytes give the empty string.
pub open spec fn spec_mac_join(s: Seq<u8>) -> Seq<char>
    decreases s.len(),
{
    if s.len() == 0 {
        Seq::empty()
    } else if s.len() == 1 {
        spec_hex2(s[0] as nat)
    } else {
        spec_mac_join(s.drop_last()) + seq![':'] + spec_hex2(s.last() as nat)
    }
}

/// Formats a hardware address: lowercase colon-separated two-digit
/// hexadecimal octets.
pub fn format_mac_bytes(b: &[u8]) -> (r: String)
    ensures
        r@ == spec_mac_join(b@),
{
    proof {
        reveal_strlit(":");
    }
    let mut out = String::new();
    let mut i: usize = 0;
    while i < b.len()
        invariant
            i <= b@.len(),
            out@ == spec_mac_join(b@.take(i as int)),
        decreases b@.len() - i,
    {
        proof {
            assert(b@.take(i + 1).drop_last() =~= b@.take(i as int));
            assert(b@.take(i + 1).last() == b@[i as int]);
        }
        if i > 0 {
            out.append(":");
            proof {
                reveal_strlit(":");
                assert(":"@ =~= seq![':']);
            }
        }
        let h = u8_hex2(b[i]);
        out.append(h.as_str());
        proof {
            assert(out@ =~= spec_mac_join(b@.take(i + 1)));
        }
        i = i + 1;
    }
    proof {
        assert(b@.take(b@.len() as int) =~= b@);
    }
    out
}

/// The documented metric quirk: a metric the query reported as zero means
/// the stack's default and is normalized to one; a failed query yields zero.
pub fn normalize_metric(raw: Option<i32>) -> (r: i32)
    ensures
        match raw {
            Some(v) => r == (if v == 0 {
                1int
            } else {
                v as int
            }),
            None => r == 0,
        },
{
    match raw {
        Some(v) => if v == 0 {
            1
        } else {
            v
        },
        None => 0,
    }
}

/// The first nonempty name of the list, if any.
pub open spec fn spec_first_altname(s: Seq<String>) -> Option<Seq<char>>
    decreases s.len(),
{
    if s.len() == 0 {
        None
    } else if s[0]@.len() > 0 {
        Some(s[0]@)
    } else {
        spec_first_altname(s.drop_first())
    }
}

/// Picks the first nonempty alternate name the link listing reported.
pub fn first_altname(names: &Vec<String>) -> (r: Option<String>)
    ensures
        match r {
            Some(a) => spec_first_altname(names@) == Some(a@),
            None => spec_first_altname(names@) is None,
        },
{
    let mut i: usize = 0;
    proof {
        assert(names@.skip(0) =~= names@);
    }
    while i < names.len()
        invariant
            i <= names@.len(),
            spec_first_altname(names@) == spec_first_altname(names@.skip(i as int)),
        decreases names@.len() - i,
    {
        proof {
            assert(names@.skip(i as int)[0] == names@[i as int]);
            assert(names@.skip(i as int).drop_first() =~= names@.skip(i + 1));
        }
        if !names[i].as_str().is_empty() {
            return Some(names[i].clone());
        }
        i = i + 1;
    }
    proof {
        assert(names@.skip(names@.len() as int).len() == 0);
    }
    None
}

/// Builds the record's IPv6 entries from raw address records: formatted
/// address, prefix length from the mask's population count (zero without a
/// mask), and the scope keyword of the ordered classification rules.
pub fn get_inet6_addr(records: &Vec<([u8; 16], Option<[u8; 16]>)>) -> (r: Vec<(String, u32, String)>)
    ensures
        r@.len() == records@.len(),
        forall|k: int|
            0 <= k < records@.len() ==> {
                let (a, m) = #[trigger] records@[k];
                &&& r@[k].0@ == spec_ipv6_str(a@)
                &&& r@[k].1 == (match m {
                    Some(mv) => count_bits_bytes(mv@),
                    None => 0nat,
                })
                &&& r@[k].2@ == scope_name_spec(scope_of(a@))
            },
{
    let mut out: Vec<(String, u32, String)> = Vec::new();
    let mut i: usize = 0;
    while i < records.len()
        invariant
            i <= records@.len(),
            out@.len() == i,
            forall|k: int|
                0 <= k < i ==> {
                    let (a, m) = #[trigger] records@[k];
                    &&& out@[k].0@ == spec_ipv6_str(a@)
                    &&& out@[k].1 == (match m {
                        Some(mv) => count_bits_bytes(mv@),
                        None => 0nat,
                    })
                    &&& out@[k].2@ == scope_name_spec(scope_of(a@))
                },
        decreases records@.len() - i,
    {
        let (a, m) = &records[i];
        let addr_s = format_ipv6(a);
        let prefix: u32 = match m {
            Some(mv) => ipv6_prefix_len(mv),
            None => 0,
        };
        let scope = scope_name(classify_ipv6(a)).to_owned();
        out.push((addr_s, prefix, scope));
        i = i + 1;
    }
    out
}

/// Everything the per-interface queries returned, as plain values.  A
/// `None` means that query failed or is unavailable on the platform; no
/// field's failure keeps another from being used.
pub struct RawInterfaceData {
    /// The live flag word of the interface, from the address enumeration.
    pub flags: Option<u16>,
    /// Hardware-address bytes (six from the fixed request offset, or
    /// whatever a link-layer address record held).
    pub mac_bytes: Option<Vec<u8>>,
    /// Per live IPv4 address record: address and optional netmask, each as
    /// one 32-bit value, highest octet first.
    pub ipv4: Vec<(u32, Option<u32>)>,
    /// Per live IPv6 address record: address and optional netmask bytes.
    pub ipv6: Vec<([u8; 16], Option<[u8; 16]>)>,
    /// The (driver, version, bus-info) triple, from the driver-information
    /// query or the platform's hardware registry.
    pub driver_info: Option<(String, String, String)>,
    /// The attribute-protocol link answer, where available.
    pub link: Option<bool>,
    pub mtu: Option<i32>,
    pub metric: Option<i32>,
    /// The attribute-protocol link-mode answer.
    pub link_mode: Option<Vec<LinkModeAttr>>,
    /// The legacy settings answer: port-type code, speed and duplex.
    pub legacy_settings: Option<(u8, u32, Duplex)>,
    /// Text output of the system network-configuration utility, for the
    /// last rung of the media fallback chain.
    pub media_config: Option<String>,
    /// The attribute-protocol ring-size answer.
    pub rings: Option<Vec<RingAttr>>,
    /// The attribute-protocol channel-count answer.
    pub channels: Option<Vec<ChannelAttr>>,
    /// The attribute-protocol feature-bit answer.
    pub features: Option<Vec<FeatureBit>>,
    /// Alternate names from the link listing, in reported order.
    pub altnames: Vec<String>,
    /// Counters read from the counter table.
    pub stats: Option<Stats>,
}

/// The up flag a raw flag word yields.
pub open spec fn spec_is_up(flags: Option<u16>) -> bool {
    match flags {
        Some(f) => f & IFF_UP != 0,
        None => false,
    }
}

/// Link detection: the attribute-protocol answer where available, else the
/// RUNNING bit of the flag word, else no link.
pub open spec fn spec_link_detected(link: Option<bool>, flags: Option<u16>) -> bool {
    match link {
        Some(b) => b,
        None => match flags {
            Some(f) => f & IFF_RUNNING != 0,
            None => false,
        },
    }
}

/// Builds the full interface record from one interface's raw query results:
/// every field is normalized and formatted exactly as its contract below
/// states, and the PCI identity is attached through the correlator.
#[verifier::rlimit(30)]
pub fn gather(
    nic: &LinuxNic,
    raw: &RawInterfaceData,
    platform: Platform,
    pci_devices: &HashMap<u32, PciDeviceInfo>,
    sysfs: &SysfsNetDevice,
) -> (r: CollectedInterface)
    ensures
        r.name@ == nic.name@,
        r.netns == nic.netns,
        r.is_up == spec_is_up(raw.flags),
        r.link_detected == spec_link_detected(raw.link, raw.flags),
        // An absent or empty hardware address means "no MAC", not an error.
        match raw.mac_bytes {
            Some(b) => if b@.len() > 0 {
                r.mac is Some && r.mac->0@ == spec_mac_join(b@)
            } else {
                r.mac is None
            },
            None => r.mac is None,
        },
        r.flags_str@ == (match raw.flags {
            Some(f) => join_space(flag_parts(platform, f, 16)),
            None => Seq::<char>::empty(),
        }),
        // Each IPv4 record: dotted-quad address, dotted-quad mask and its
        // population count as prefix; without a mask, an empty mask string
        // and prefix zero.
        r.ipv4@.len() == raw.ipv4@.len(),
        forall|k: int|
            0 <= k < raw.ipv4@.len() ==> {
                let (a, m) = #[trigger] raw.ipv4@[k];
                &&& r.ipv4@[k].0@ == spec_ipv4_str(a)
                &&& (match m {
                    Some(mv) => r.ipv4@[k].1@ == spec_ipv4_str(mv) && r.ipv4@[k].2
                        == count_bits_u32(mv, 32),
                    None => r.ipv4@[k].1@.len() == 0 && r.ipv4@[k].2 == 0,
                })
            },
        // Each IPv6 record: formatted address, prefix from the mask's
        // population count (zero without a mask), and the scope keyword of
        // the ordered classification rules.
        r.ipv6@.len() == raw.ipv6@.len(),
        forall|k: int|
            0 <= k < raw.ipv6@.len() ==> {
                let (a, m) = #[trigger] raw.ipv6@[k];
                &&& r.ipv6@[k].0@ == spec_ipv6_str(a@)
                &&& r.ipv6@[k].1 == (match m {
                    Some(mv) => count_bits_bytes(mv@),
                    None => 0nat,
                })
                &&& r.ipv6@[k].2@ == scope_name_spec(scope_of(a@))
            },
        r.driver_info == raw.driver_info,
        // The correlator works on the driver-reported bus-info string (empty
        // without a driver identity) with the sysfs fallbacks.
        r.pci_info == spec_correlate(
            match raw.driver_info {
                Some(t) => t.2@,
                None => Seq::<char>::empty(),
            },
            uevent_model(sysfs),
            link_model(sysfs),
            pci_devices@,
        ),
        match r.altname {
            Some(a) => spec_first_altname(raw.altnames@) == Some(a@),
            None => spec_first_altname(raw.altnames@) is None,
        },
        r.mtu == (match raw.mtu {
            Some(v) => v as int,
            None => 0,
        }),
        r.metric == (match raw.metric {
            Some(v) => if v == 0 {
                1int
            } else {
                v as int
            },
            None => 0,
        }),
        // The media fallback chain: the attribute-protocol link-mode answer
        // first, then the legacy settings answer, then the configuration
        // utility's text; when every source failed, the literal `unknown`.
        r.media@ == (match raw.link_mode {
            Some(a) => spec_media_text(lm_speed(a@), lm_duplex(a@)),
            None => match raw.legacy_settings {
                Some((p, s, d)) => spec_media_text_port(port_name_spec(spec_decode_port(p)), s, d),
                None => match raw.media_config {
                    Some(t) => match spec_current_media(spec_lines(t@)) {
                        Some(v) => v,
                        None => media_unknown(),
                    },
                    None => media_unknown(),
                },
            },
        }),
        r.stats == raw.stats,
        r.rings == (match raw.rings {
            Some(a) => Some((ring_rx(a@), ring_tx(a@))),
            None => None::<(u32, u32)>,
        }),
        r.channels == (match raw.channels {
            Some(a) => Some(
                (channel_count(a@, 0), channel_count(a@, 1), channel_count(a@, 2), channel_count(
                    a@,
                    3,
                )),
            ),
            None => None::<(u32, u32, u32, u32)>,
        }),
        r.features@.len() == (match raw.features {
            Some(b) => canon_actives(b@).len(),
            None => 0nat,
        }),
        match raw.features {
            Some(b) => forall|k: int|
                0 <= k < r.features@.len() ==> r.features@[k]@ == canon_actives(b@)[k],
            None => true,
        },
{
    let is_up_v = match raw.flags {
        Some(f) => is_up(f),
        None => false,
    };
    let link_detected = match raw.link {
        Some(b) => b,
        None => match raw.flags {
            Some(f) => is_running(f),
            None => false,
        },
    };
    let mac = match &raw.mac_bytes {
        Some(b) => {
            if b.len() > 0 {
                Some(format_mac_bytes(b.as_slice()))
            } else {
                None
            }
        },
        None => None,
    };
    let flags_text = match raw.flags {
        Some(f) => flags_str(platform, f),
        None => String::new(),
    };
    let mut ipv4: Vec<(String, String, i32)> = Vec::new();
    let mut i: usize = 0;
    while i < raw.ipv4.len()
        invariant
            i <= raw.ipv4@.len(),
            ipv4@.len() == i,
            forall|k: int|
                0 <= k < i ==> {
                    let (a, m) = #[trigger] raw.ipv4@[k];
                    &&& ipv4@[k].0@ == spec_ipv4_str(a)
                    &&& (match m {
                        Some(mv) => ipv4@[k].1@ == spec_ipv4_str(mv) && ipv4@[k].2
                            == count_bits_u32(mv, 32),
                        None => ipv4@[k].1@.len() == 0 && ipv4@[k].2 == 0,
                    })
                },
        decreases raw.ipv4@.len() - i,
    {
        let (a, m) = raw.ipv4[i];
        let addr_s = format_ipv4(a);
        let entry = match m {
            Some(mv) => {
                let prefix = ipv4_prefix_len(mv);
                (addr_s, format_ipv4(mv), prefix as i32)
            },
            None => (addr_s, String::new(), 0),
        };
        ipv4.push(entry);
        i = i + 1;
    }
    let ipv6 = get_inet6_addr(&raw.ipv6);
    let driver_info = match &raw.driver_info {
        Some((d, v, b)) => Some((d.clone(), v.clone(), b.clone())),
        None => None,
    };
    let pci_info = match &driver_info {
        Some((_, _, bus)) => find_pci_info_for_interface(bus.as_str(), sysfs, pci_devices),
        None => find_pci_info_for_interface("", sysfs, pci_devices),
    };
    proof {
        reveal_strlit("");
        assert(""@ =~= Seq::<char>::empty());
    }
    let altname = first_altname(&raw.altnames);
    let mtu = match raw.mtu {
        Some(v) => v,
        None => 0,
    };
    let metric = normalize_metric(raw.metric);
    let media = match &raw.link_mode {
        Some(a) => media_description(Some(a)),
        None => match raw.legacy_settings {
            Some((p, s, d)) => legacy_media_description(p, s, d),
            None => match &raw.media_config {
                Some(t) => match media_from_config_output(t.as_str()) {
                    Some(v) => v,
                    None => media_description(None),
                },
                None => media_description(None),
            },
        },
    };
    let rings = match &raw.rings {
        Some(a) => Some(rings_summary(a)),
        None => None,
    };
    let channels = match &raw.channels {
        Some(a) => Some(channels_summary(a)),
        None => None,
    };
    let features = match &raw.features {
        Some(b) => active_features(b),
        None => Vec::new(),
    };
    let stats = match raw.stats {
        Some(s) => Some(s),
        None => None,
    };
    CollectedInterface {
        name: nic.name.clone(),
        netns: clone_opt_string(&nic.netns),
        is_up: is_up_v,
        link_detected,
        mac,
        ipv4,
        ipv6,
        flags_str: flags_text,
        driver_info,
        pci_info,
        altname,
        mtu,
        metric,
        media,
        stats,
        rings,
        channels,
        features,
    }
}

} // verus!
