//! Decoding of the attribute-protocol responses: link-mode (media/speed)
//! summaries, ring and channel counts, and offload-feature names with their
//! fixed synonym table.

use vstd::prelude::*;

use crate::strutil::{
    spec_dec, spec_lines, spec_trim, split_lines, starts_with_seq, starts_with_str, str_eq,
    trim_str, u32_dec,
};

verus! {

/// Duplex class reported by the link-mode query.
#[derive(Clone, Copy, PartialEq, Eq, Structural, Debug)]
pub enum Duplex {
    Full,
    Half,
    Unknown,
}

/// A link-mode attribute of interest; everything else is `Other` and is
/// ignored.
pub enum LinkModeAttr {
    Speed(u32),
    DuplexMode(Duplex),
    Other,
}

/// A ring-size attribute of interest.
pub enum RingAttr {
    Rx(u32),
    Tx(u32),
    Other,
}

/// A channel-count attribute of interest.
pub enum ChannelAttr {
    RxCount(u32),
    TxCount(u32),
    OtherCount(u32),
    CombinedCount(u32),
    Other,
}

/// One offload-feature bit of the feature query: its driver name and
/// whether it is active.
pub struct FeatureBit {
    pub name: String,
    pub active: bool,
}

/// The fixed synonym table for offload-feature names; a name without a
/// mapping passes through unchanged.
pub open spec fn canon_feature(n: Seq<char>) -> Seq<char> {
    if n == "tx-tcp-segmentation"@ {
        "tso"@
    } else if n == "tx-generic-segmentation"@ {
        "gso"@
    } else if n == "rx-gro"@ {
        "gro"@
    } else if n == "rx-lro"@ {
        "lro"@
    } else if n == "rx-checksum"@ {
        "rx-csum"@
    } else if n == "tx-checksum-ip-generic"@ {
        "tx-csum"@
    } else if n == "tx-checksum-ipv4"@ {
        "tx-csum-ipv4"@
    } else if n == "tx-checksum-ipv6"@ {
        "tx-csum-ipv6"@
    } else if n == "tx-scatter-gather"@ {
        "sg"@
    } else if n == "tx-scatter-gather-fraglist"@ {
        "sg-frag"@
    } else if n == "tx-vlan-hw-insert"@ {
        "tx-vlan"@
    } else if n == "rx-vlan-hw-parse"@ {
        "rx-vlan"@
    } else if n == "highdma"@ {
        "highdma"@
    } else if n == "rx-hashing"@ {
        "rxhash"@
    } else if n == "rx-ntuple-filter"@ {
        "ntuple"@
    } else {
        n
    }
}

/// Canonicalizes one feature name through the synonym table.
pub fn canonicalize_feature(name: &str) -> (r: String)
    ensures
        r@ == canon_feature(name@),
{
    if str_eq(name, "tx-tcp-segmentation") {
        String::from_str("tso")
    } else if str_eq(name, "tx-generic-segmentation") {
        String::from_str("gso")
    } else if str_eq(name, "rx-gro") {
        String::from_str("gro")
    } else if str_eq(name, "rx-lro") {
        String::from_str("lro")
    } else if str_eq(name, "rx-checksum") {
        String::from_str("rx-csum")
    } else if str_eq(name, "tx-checksum-ip-generic") {
        String::from_str("tx-csum")
    } else if str_eq(name, "tx-checksum-ipv4") {
        String::from_str("tx-csum-ipv4")
    } else if str_eq(name, "tx-checksum-ipv6") {
        String::from_str("tx-csum-ipv6")
    } else if str_eq(name, "tx-scatter-gather") {
        String::from_str("sg")
    } else if str_eq(name, "tx-scatter-gather-fraglist") {
        String::from_str("sg-frag")
    } else if str_eq(name, "tx-vlan-hw-insert") {
        String::from_str("tx-vlan")
    } else if str_eq(name, "rx-vlan-hw-parse") {
        String::from_str("rx-vlan")
    } else if str_eq(name, "highdma") {
        String::from_str("highdma")
    } else if str_eq(name, "rx-hashing") {
        String::from_str("rxhash")
    } else if str_eq(name, "rx-ntuple-filter") {
        String::from_str("ntuple")
    } else {
        name.to_owned()
    }
}

/// Canonical names of the active feature bits, in their reported order.
pub open spec fn canon_actives(s: Seq<FeatureBit>) -> Seq<Seq<char>>
    decreases s.len(),
{
    if s.len() == 0 {
        Seq::empty()
    } else {
        canon_actives(s.drop_last()) + (if s.last().active {
            seq![canon_feature(s.last().name@)]
        } else {
            Seq::empty()
        })
    }
}

/// Filters the active feature bits and canonicalizes their names.
pub fn active_features(bits: &Vec<FeatureBit>) -> (r: Vec<String>)
    ensures
        r@.len() == canon_actives(bits@).len(),
        forall|k: int| 0 <= k < r@.len() ==> r@[k]@ == canon_actives(bits@)[k],
{
    let mut out: Vec<String> = Vec::new();
    let mut i: usize = 0;
    while i < bits.len()
        invariant
            i <= bits@.len(),
            out@.len() == canon_actives(bits@.take(i as int)).len(),
            forall|k: int|
                0 <= k < out@.len() ==> out@[k]@ == canon_actives(bits@.take(i as int))[k],
        decreases bits@.len() - i,
    {
        proof {
            assert(bits@.take(i + 1).drop_last() =~= bits@.take(i as int));
            assert(bits@.take(i + 1).last() == bits@[i as int]);
        }
        if bits[i].active {
            let c = canonicalize_feature(bits[i].name.as_str());
            out.push(c);
        }
        i = i + 1;
    }
    proof {
        assert(bits@.take(bits@.len() as int) =~= bits@);
    }
    out
}

/// The speed the link-mode attributes report: the last speed attribute
/// wins; without one the speed is zero.
pub open spec fn lm_speed(attrs: Seq<LinkModeAttr>) -> u32
    decreases attrs.len(),
{
    if attrs.len() == 0 {
        0
    } else {
        match attrs.last() {
            LinkModeAttr::Speed(s) => s,
            _ => lm_speed(attrs.drop_last()),
        }
    }
}

/// The duplex class the link-mode attributes report: the last duplex
/// attribute wins; without one it is unknown.
pub open spec fn lm_duplex(attrs: Seq<LinkModeAttr>) -> Duplex
    decreases attrs.len(),
{
    if attrs.len() == 0 {
        Duplex::Unknown
    } else {
        match attrs.last() {
            LinkModeAttr::DuplexMode(d) => d,
            _ => lm_duplex(attrs.drop_last()),
        }
    }
}

/// Keyword for a duplex class.
pub open spec fn duplex_name_spec(d: Duplex) -> Seq<char> {
    match d {
        Duplex::Full => "full"@,
        Duplex::Half => "half"@,
        Duplex::Unknown => "unknown"@,
    }
}

/// A speed value the hardware uses as a sentinel for "no real speed".
pub open spec fn is_speed_sentinel(speed: u32) -> bool {
    speed == 0 || speed == 0xFFFFu32 || speed == 0xFFFFFFFFu32
}

/// Port type of the legacy settings query.
#[derive(Clone, Copy, PartialEq, Eq, Structural, Debug)]
pub enum PortKind {
    Tp,
    Aui,
    Mii,
    Fibre,
    Bnc,
    Unknown,
}

/// The port type a legacy settings code means.
pub open spec fn spec_decode_port(code: u8) -> PortKind {
    if code == 0 {
        PortKind::Tp
    } else if code == 1 {
        PortKind::Aui
    } else if code == 2 {
        PortKind::Mii
    } else if code == 3 {
        PortKind::Fibre
    } else if code == 4 {
        PortKind::Bnc
    } else {
        PortKind::Unknown
    }
}

/// Decodes the port-type code of the legacy settings query.
pub fn decode_port(code: u8) -> (r: PortKind)
    ensures
        r == spec_decode_port(code),
{
    if code == 0 {
        PortKind::Tp
    } else if code == 1 {
        PortKind::Aui
    } else if code == 2 {
        PortKind::Mii
    } else if code == 3 {
        PortKind::Fibre
    } else if code == 4 {
        PortKind::Bnc
    } else {
        PortKind::Unknown
    }
}

/// Name of a port type.
pub open spec fn port_name_spec(p: PortKind) -> Seq<char> {
    match p {
        PortKind::Tp => "TP"@,
        PortKind::Aui => "AUI"@,
        PortKind::Mii => "MII"@,
        PortKind::Fibre => "FIBRE"@,
        PortKind::Bnc => "BNC"@,
        PortKind::Unknown => "unknown port"@,
    }
}

fn port_name(p: PortKind) -> (r: &'static str)
    ensures
        r@ == port_name_spec(p),
{
    match p {
        PortKind::Tp => "TP",
        PortKind::Aui => "AUI",
        PortKind::Mii => "MII",
        PortKind::Fibre => "FIBRE",
        PortKind::Bnc => "BNC",
        PortKind::Unknown => "unknown port",
    }
}

/// Media description over a port name: sentinel speeds give an
/// unknown-speed text, a real speed gives the speed in Mb/s and the duplex
/// keyword.
pub open spec fn spec_media_text_port(port: Seq<char>, speed: u32, d: Duplex) -> Seq<char> {
    if is_speed_sentinel(speed) {
        port + " (unknown speed)"@
    } else {
        port + " "@ + spec_dec(speed as nat) + "Mb/s "@ + duplex_name_spec(d)
    }
}

/// Media description derived from a link-mode answer, which always reports
/// over twisted pair.
pub open spec fn spec_media_text(speed: u32, d: Duplex) -> Seq<char> {
    spec_media_text_port("TP"@, speed, d)
}

/// Builds the media text for a port name, speed and duplex class.
fn describe_media(port: &str, speed: u32, duplex: Duplex) -> (r: String)
    ensures
        r@ == spec_media_text_port(port@, speed, duplex),
{
    if speed == 0 || speed == 0xFFFFu32 || speed == 0xFFFFFFFFu32 {
        let r = port.to_owned().concat(" (unknown speed)");
        proof {
            assert(r@ =~= spec_media_text_port(port@, speed, duplex));
        }
        r
    } else {
        let r = port.to_owned().concat(" ").concat(u32_dec(speed).as_str()).concat(
            "Mb/s ",
        ).concat(duplex_name(duplex));
        proof {
            assert(r@ =~= spec_media_text_port(port@, speed, duplex));
        }
        r
    }
}

/// The second rung of the media fallback chain: what the legacy settings
/// query's port-type code, speed and duplex decode to.
pub fn legacy_media_description(port_code: u8, speed: u32, duplex: Duplex) -> (r: String)
    ensures
        r@ == spec_media_text_port(port_name_spec(spec_decode_port(port_code)), speed, duplex),
{
    describe_media(port_name(decode_port(port_code)), speed, duplex)
}

/// The last rung of the media fallback chain: the value of the first
/// `Current:` line of the system network-configuration utility's output,
/// where the literal value `autoselect` (and an empty value) means no real
/// media information and is passed over.
pub open spec fn spec_current_media(ls: Seq<Seq<char>>) -> Option<Seq<char>>
    decreases ls.len(),
{
    if ls.len() == 0 {
        None
    } else {
        let t = spec_trim(ls[0]);
        if starts_with_seq(t, "Current:"@) {
            let v = spec_trim(t.skip(8));
            if v.len() == 0 || v == "autoselect"@ {
                spec_current_media(ls.drop_first())
            } else {
                Some(v)
            }
        } else {
            spec_current_media(ls.drop_first())
        }
    }
}

/// Scans a network-configuration utility's text output for a usable
/// `Current:` media value.
pub fn media_from_config_output(text: &str) -> (r: Option<String>)
    ensures
        match r {
            Some(v) => spec_current_media(spec_lines(text@)) == Some(v@),
            None => spec_current_media(spec_lines(text@)) is None,
        },
{
    let lines = split_lines(text);
    let ghost all = spec_lines(text@);
    let mut i: usize = 0;
    proof {
        assert(all.skip(0) =~= all);
    }
    while i < lines.len()
        invariant
            i <= lines@.len(),
            lines@.len() == all.len(),
            all == spec_lines(text@),
            forall|k: int| 0 <= k < all.len() ==> lines@[k]@ == all[k],
            spec_current_media(all) == spec_current_media(all.skip(i as int)),
        decreases lines@.len() - i,
    {
        proof {
            assert(all.skip(i as int)[0] == all[i as int]);
            assert(all.skip(i as int).drop_first() =~= all.skip(i + 1));
        }
        let t = trim_str(lines[i].as_str());
        proof {
            reveal_strlit("Current:");
        }
        if starts_with_str(t.as_str(), "Current:") {
            let n = t.as_str().unicode_len();
            let rest = t.as_str().substring_char(8, n);
            proof {
                assert(rest@ =~= spec_trim(all[i as int]).skip(8));
            }
            let v = trim_str(rest);
            if !v.as_str().is_empty() && !str_eq(v.as_str(), "autoselect") {
                return Some(v);
            }
        }
        i = i + 1;
    }
    proof {
        assert(all.skip(all.len() as int).len() == 0);
    }
    None
}

/// What the media string is when every source of media information failed.
pub open spec fn media_unknown() -> Seq<char> {
    "unknown"@
}

/// Keyword for a duplex class.
fn duplex_name(d: Duplex) -> (r: &'static str)
    ensures
        r@ == duplex_name_spec(d),
{
    match d {
        Duplex::Full => "full",
        Duplex::Half => "half",
        Duplex::Unknown => "unknown",
    }
}

/// Builds the media description from a link-mode answer; `None` means the
/// query gave no answer, for which the description is the literal `unknown`,
/// to be read as "no media info".
pub fn media_description(attrs: Option<&Vec<LinkModeAttr>>) -> (r: String)
    ensures
        match attrs {
            Some(a) => r@ == spec_media_text(lm_speed(a@), lm_duplex(a@)),
            None => r@ == media_unknown(),
        },
{
    let a = match attrs {
        Some(a) => a,
        None => {
            return String::from_str("unknown");
        },
    };
    let mut speed: u32 = 0;
    let mut duplex = Duplex::Unknown;
    let mut i: usize = 0;
    while i < a.len()
        invariant
            i <= a@.len(),
            speed == lm_speed(a@.take(i as int)),
            duplex == lm_duplex(a@.take(i as int)),
        decreases a@.len() - i,
    {
        proof {
            assert(a@.take(i + 1).drop_last() =~= a@.take(i as int));
            assert(a@.take(i + 1).last() == a@[i as int]);
        }
        match &a[i] {
            LinkModeAttr::Speed(s) => {
                speed = *s;
            },
            LinkModeAttr::DuplexMode(d) => {
                duplex = *d;
            },
            LinkModeAttr::Other => {},
        }
        i = i + 1;
    }
    proof {
        assert(a@.take(a@.len() as int) =~= a@);
    }
    describe_media("TP", speed, duplex)
}

/// The receive ring size: the last `Rx` attribute wins, default zero.
pub open spec fn ring_rx(attrs: Seq<RingAttr>) -> u32
    decreases attrs.len(),
{
    if attrs.len() == 0 {
        0
    } else {
        match attrs.last() {
            RingAttr::Rx(v) => v,
            _ => ring_rx(attrs.drop_last()),
        }
    }
}

/// The transmit ring size: the last `Tx` attribute wins, default zero.
pub open spec fn ring_tx(attrs: Seq<RingAttr>) -> u32
    decreases attrs.len(),
{
    if attrs.len() == 0 {
        0
    } else {
        match attrs.last() {
            RingAttr::Tx(v) => v,
            _ => ring_tx(attrs.drop_last()),
        }
    }
}

/// Folds a ring-parameter answer into (rx, tx) ring sizes; attributes the
/// device does not report stay zero.
pub fn rings_summary(attrs: &Vec<RingAttr>) -> (r: (u32, u32))
    ensures
        r.0 == ring_rx(attrs@),
        r.1 == ring_tx(attrs@),
{
    let mut rx: u32 = 0;
    let mut tx: u32 = 0;
    let mut i: usize = 0;
    while i < attrs.len()
        invariant
            i <= attrs@.len(),
            rx == ring_rx(attrs@.take(i as int)),
            tx == ring_tx(attrs@.take(i as int)),
        decreases attrs@.len() - i,
    {
        proof {
            assert(attrs@.take(i + 1).drop_last() =~= attrs@.take(i as int));
            assert(attrs@.take(i + 1).last() == attrs@[i as int]);
        }
        match &attrs[i] {
            RingAttr::Rx(v) => {
                rx = *v;
            },
            RingAttr::Tx(v) => {
                tx = *v;
            },
            RingAttr::Other => {},
        }
        i = i + 1;
    }
    proof {
        assert(attrs@.take(attrs@.len() as int) =~= attrs@);
    }
    (rx, tx)
}

/// Channel count of one kind: the last attribute of that kind wins,
/// default zero.
pub open spec fn channel_count(attrs: Seq<ChannelAttr>, kind: int) -> u32
    decreases attrs.len(),
{
    if attrs.len() == 0 {
        0
    } else {
        match attrs.last() {
            ChannelAttr::RxCount(v) => if kind == 0 {
                v
            } else {
                channel_count(attrs.drop_last(), kind)
            },
            ChannelAttr::TxCount(v) => if kind == 1 {
                v
            } else {
                channel_count(attrs.drop_last(), kind)
            },
            ChannelAttr::OtherCount(v) => if kind == 2 {
                v
            } else {
                channel_count(attrs.drop_last(), kind)
            },
            ChannelAttr::CombinedCount(v) => if kind == 3 {
                v
            } else {
                channel_count(attrs.drop_last(), kind)
            },
            ChannelAttr::Other => channel_count(attrs.drop_last(), kind),
        }
    }
}

/// Folds a channel-parameter answer into (rx, tx, other, combined) queue
/// counts; attributes the device does not report stay zero.
pub fn channels_summary(attrs: &Vec<ChannelAttr>) -> (r: (u32, u32, u32, u32))
    ensures
        r.0 == channel_count(attrs@, 0),
        r.1 == channel_count(attrs@, 1),
        r.2 == channel_count(attrs@, 2),
        r.3 == channel_count(attrs@, 3),
{
    let mut rx: u32 = 0;
    let mut tx: u32 = 0;
    let mut other: u32 = 0;
    let mut combined: u32 = 0;
    let mut i: usize = 0;
    while i < attrs.len()
        invariant
            i <= attrs@.len(),
            rx == channel_count(attrs@.take(i as int), 0),
            tx == channel_count(attrs@.take(i as int), 1),
            other == channel_count(attrs@.take(i as int), 2),
            combined == channel_count(attrs@.take(i as int), 3),
        decreases attrs@.len() - i,
    {
        proof {
            assert(attrs@.take(i + 1).drop_last() =~= attrs@.take(i as int));
            assert(attrs@.take(i + 1).last() == attrs@[i as int]);
        }
        match &attrs[i] {
            ChannelAttr::RxCount(v) => {
                rx = *v;
            },
            ChannelAttr::TxCount(v) => {
                tx = *v;
            },
            ChannelAttr::OtherCount(v) => {
                other = *v;
            },
            ChannelAttr::CombinedCount(v) => {
                combined = *v;
            },
            ChannelAttr::Other => {},
        }
        i = i + 1;
    }
    proof {
        assert(attrs@.take(attrs@.len() as int) =~= attrs@);
    }
    (rx, tx, other, combined)
}

} // verus!
