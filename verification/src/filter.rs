//! The filter engine: a pure predicate over a fully collected interface
//! record, configured with keywords, address/link requirements, a driver
//! filter, case folding and the show-all switch.

use vstd::prelude::*;

use crate::features::media_unknown;
use crate::pci::{spec_pci_addr, PciDeviceInfo};
use crate::stats::Stats;
use crate::strutil::{contains_seq, contains_sub, lower_of, lowercase, str_eq};

verus! {

/// Everything the collector and correlator learned about one interface.
/// Ring sizes, channel counts and feature names are filled only on the
/// namespace-aware platform; elsewhere they stay absent or empty.
pub struct CollectedInterface {
    pub name: String,
    pub netns: Option<String>,
    pub is_up: bool,
    pub link_detected: bool,
    pub mac: Option<String>,
    /// (address, netmask, prefix length)
    pub ipv4: Vec<(String, String, i32)>,
    /// (address, prefix length, scope class)
    pub ipv6: Vec<(String, u32, String)>,
    pub flags_str: String,
    /// (driver, version, bus-info)
    pub driver_info: Option<(String, String, String)>,
    pub pci_info: Option<PciDeviceInfo>,
    pub altname: Option<String>,
    pub mtu: i32,
    pub metric: i32,
    pub media: String,
    pub stats: Option<Stats>,
    /// (rx, tx) ring sizes
    pub rings: Option<(u32, u32)>,
    /// (rx, tx, other, combined) channel counts
    pub channels: Option<(u32, u32, u32, u32)>,
    pub features: Vec<String>,
}

impl CollectedInterface {
    /// Whether the media string means "no media info" rather than a value.
    pub fn has_media_info(&self) -> (r: bool)
        ensures
            r == (self.media@ != media_unknown()),
    {
        !str_eq(self.media.as_str(), "unknown")
    }
}

/// The filter configuration: explicit keywords, address and link
/// requirements, case folding, the driver filter, and the show-all switch.
pub struct Matcher {
    pub keywords: Vec<String>,
    pub ipv4: bool,
    pub ipv6: bool,
    pub running: bool,
    pub ignore_case: bool,
    pub drivers: Vec<String>,
    pub all: bool,
}

/// A case-ruled substring test: with case folding requested, both sides are
/// lowercase-folded first.
pub open spec fn match_in(ic: bool, hay: Seq<char>, k: Seq<char>) -> bool {
    if ic {
        contains_seq(lower_of(hay), lower_of(k))
    } else {
        contains_seq(hay, k)
    }
}

/// The driver identity triple's character sequences.
pub open spec fn driver_triple(info: &CollectedInterface) -> (Seq<char>, Seq<char>, Seq<char>)
    recommends
        info.driver_info is Some,
{
    let t = info.driver_info->0;
    (t.0@, t.1@, t.2@)
}

/// Whether one keyword hits the record: it substring-matches the interface
/// name, the decoded flags, the media string, the MAC, any IPv4 or IPv6
/// address, any of driver/version/bus-info, or the PCI address, vendor name
/// or device name.
pub open spec fn spec_check_match(ic: bool, info: &CollectedInterface, k: Seq<char>) -> bool {
    ||| match_in(ic, info.name@, k)
    ||| match_in(ic, info.flags_str@, k)
    ||| match_in(ic, info.media@, k)
    ||| (info.mac is Some && match_in(ic, info.mac->0@, k))
    ||| (exists|i: int| 0 <= i < info.ipv4@.len() && match_in(ic, (#[trigger] info.ipv4@[i]).0@, k))
    ||| (exists|i: int| 0 <= i < info.ipv6@.len() && match_in(ic, (#[trigger] info.ipv6@[i]).0@, k))
    ||| (info.driver_info is Some && (match_in(ic, driver_triple(info).0, k) || match_in(
        ic,
        driver_triple(info).1,
        k,
    ) || match_in(ic, driver_triple(info).2, k)))
    ||| (info.pci_info is Some && spec_pci_hit(ic, info.pci_info->0, k))
}

/// Whether a keyword hits the PCI identity: its canonical address (when the
/// location is known) or a resolved vendor or device name.
pub open spec fn spec_pci_hit(ic: bool, p: PciDeviceInfo, k: Seq<char>) -> bool {
    ||| (p.bus is Some && p.device is Some && p.function is Some && match_in(
        ic,
        spec_pci_addr(p.bus->0, p.device->0, p.function->0),
        k,
    ))
    ||| (p.vendor_name is Some && match_in(ic, p.vendor_name->0@, k))
    ||| (p.device_name is Some && match_in(ic, p.device_name->0@, k))
}

/// Whether one of the keywords is exactly the record's name; an explicitly
/// named interface is shown even when it is down.
pub open spec fn spec_explicit_name(keywords: Seq<String>, name: Seq<char>) -> bool {
    exists|i: int| 0 <= i < keywords.len() && (#[trigger] keywords[i])@ == name
}

/// The whole filter: a record passes when every applicable check passes —
/// link required implies link detected, IPv4/IPv6 required imply at least
/// one such address, the record is up or shown by `all` or named
/// explicitly, some configured driver substring (case-folded) occurs in the
/// driver name if a driver filter is set, and some keyword hits the record
/// if keywords are given.
pub open spec fn spec_matches(m: &Matcher, info: &CollectedInterface) -> bool {
    &&& (m.running ==> info.link_detected)
    &&& (m.ipv4 ==> info.ipv4@.len() > 0)
    &&& (m.ipv6 ==> info.ipv6@.len() > 0)
    &&& (m.all || info.is_up || spec_explicit_name(m.keywords@, info.name@))
    &&& (m.drivers@.len() > 0 ==> info.driver_info is Some && exists|i: int|
        0 <= i < m.drivers@.len() && contains_seq(
            lower_of(driver_triple(info).0),
            lower_of((#[trigger] m.drivers@[i])@),
        ))
    &&& (m.keywords@.len() > 0 ==> exists|i: int|
        0 <= i < m.keywords@.len() && spec_check_match(
            m.ignore_case,
            info,
            (#[trigger] m.keywords@[i])@,
        ))
}

/// One field tested against one keyword under the case rule.
fn match_field(ic: bool, hay: &str, k: &str) -> (r: bool)
    ensures
        r == match_in(ic, hay@, k@),
{
    if ic {
        let h = lowercase(hay);
        let kl = lowercase(k);
        contains_sub(h.as_str(), kl.as_str())
    } else {
        contains_sub(hay, k)
    }
}

impl Matcher {
    /// Whether one keyword hits the record anywhere.
    fn check_match(&self, keyword: &str, info: &CollectedInterface) -> (r: bool)
        ensures
            r == spec_check_match(self.ignore_case, info, keyword@),
    {
        let ic = self.ignore_case;
        if match_field(ic, info.name.as_str(), keyword) {
            return true;
        }
        if match_field(ic, info.flags_str.as_str(), keyword) {
            return true;
        }
        if match_field(ic, info.media.as_str(), keyword) {
            return true;
        }
        if let Some(mac) = &info.mac {
            if match_field(ic, mac.as_str(), keyword) {
                return true;
            }
        }
        let mut i: usize = 0;
        while i < info.ipv4.len()
            invariant
                i <= info.ipv4@.len(),
                ic == self.ignore_case,
                forall|j: int| 0 <= j < i ==> !match_in(ic, (#[trigger] info.ipv4@[j]).0@, keyword@),
            decreases info.ipv4@.len() - i,
        {
            if match_field(ic, info.ipv4[i].0.as_str(), keyword) {
                return true;
            }
            i = i + 1;
        }
        let mut i: usize = 0;
        while i < info.ipv6.len()
            invariant
                i <= info.ipv6@.len(),
                ic == self.ignore_case,
                forall|j: int| 0 <= j < i ==> !match_in(ic, (#[trigger] info.ipv6@[j]).0@, keyword@),
            decreases info.ipv6@.len() - i,
        {
            if match_field(ic, info.ipv6[i].0.as_str(), keyword) {
                return true;
            }
            i = i + 1;
        }
        if let Some((drv, ver, bus)) = &info.driver_info {
            if match_field(ic, drv.as_str(), keyword) {
                return true;
            }
            if match_field(ic, ver.as_str(), keyword) {
                return true;
            }
            if match_field(ic, bus.as_str(), keyword) {
                return true;
            }
        }
        if let Some(pci) = &info.pci_info {
            if let Some(addr) = pci.pci_address() {
                if match_field(ic, addr.as_str(), keyword) {
                    return true;
                }
            }
            if let Some(vendor) = &pci.vendor_name {
                if match_field(ic, vendor.as_str(), keyword) {
                    return true;
                }
            }
            if let Some(device) = &pci.device_name {
                if match_field(ic, device.as_str(), keyword) {
                    return true;
                }
            }
        }
        false
    }

    /// Evaluates the whole filter over a collected record.
    pub fn matches(&self, info: &CollectedInterface) -> (r: bool)
        ensures
            r == spec_matches(self, info),
    {
        // Link requirement.
        if self.running && !info.link_detected {
            return false;
        }
        // Address requirements.
        if self.ipv4 && info.ipv4.len() == 0 {
            return false;
        }
        if self.ipv6 && info.ipv6.len() == 0 {
            return false;
        }
        // Visibility: up, shown by `all`, or named explicitly.
        let mut explicit = false;
        let mut i: usize = 0;
        while i < self.keywords.len()
            invariant
                i <= self.keywords@.len(),
                explicit == (exists|j: int|
                    0 <= j < i && (#[trigger] self.keywords@[j])@ == info.name@),
            decreases self.keywords@.len() - i,
        {
            if str_eq(self.keywords[i].as_str(), info.name.as_str()) {
                explicit = true;
            }
            i = i + 1;
        }
        if !self.all && !info.is_up && !explicit {
            return false;
        }
        // Driver filter.
        if self.drivers.len() > 0 {
            let mut matched = false;
            match &info.driver_info {
                Some((drv, _ver, _bus)) => {
                    let drv_l = lowercase(drv.as_str());
                    let mut i: usize = 0;
                    while i < self.drivers.len()
                        invariant
                            i <= self.drivers@.len(),
                            drv_l@ == lower_of(driver_triple(info).0),
                            info.driver_info is Some,
                            matched == (exists|j: int|
                                0 <= j < i && contains_seq(
                                    lower_of(driver_triple(info).0),
                                    lower_of((#[trigger] self.drivers@[j])@),
                                )),
                        decreases self.drivers@.len() - i,
                    {
                        let dl = lowercase(self.drivers[i].as_str());
                        if contains_sub(drv_l.as_str(), dl.as_str()) {
                            matched = true;
                        }
                        i = i + 1;
                    }
                },
                None => {},
            }
            if !matched {
                return false;
            }
        }
        // Keyword search.
        if self.keywords.len() > 0 {
            let mut any = false;
            let mut i: usize = 0;
            while i < self.keywords.len()
                invariant
                    i <= self.keywords@.len(),
                    any == (exists|j: int|
                        0 <= j < i && spec_check_match(
                            self.ignore_case,
                            info,
                            (#[trigger] self.keywords@[j])@,
                        )),
                decreases self.keywords@.len() - i,
            {
                if self.check_match(self.keywords[i].as_str(), info) {
                    any = true;
                }
                i = i + 1;
            }
            if !any {
                return false;
            }
        }
        true
    }
}

} // verus!
