//! Addressing logic: netmask prefix lengths, IPv6 scope classification, and
//! the textual forms of IPv4 and IPv6 addresses.

use vstd::prelude::*;

use crate::strutil::{hex_char, spec_dec, spec_hex, u16_hex, u32_dec, u64_dec};

verus! {

/// Number of set bits among the lowest `n` bit positions of `m`.
pub open spec fn count_bits_u32(m: u32, n: int) -> nat
    decreases n,
{
    if n <= 0 {
        0
    } else {
        count_bits_u32(m, n - 1) + (if m >> (n - 1) & 1u32 == 1u32 {
            1nat
        } else {
            0nat
        })
    }
}

/// Population count of an IPv4 netmask, which is the prefix length the
/// address enumeration reports for that mask.
pub fn ipv4_prefix_len(mask: u32) -> (r: u32)
    ensures
        r == count_bits_u32(mask, 32),
        r <= 32,
{
    let mut i: u32 = 0;
    let mut count: u32 = 0;
    while i < 32
        invariant
            i <= 32,
            count == count_bits_u32(mask, i as int),
            count <= i,
        decreases 32 - i,
    {
        if (mask >> i) & 1u32 == 1u32 {
            count = count + 1;
        }
        i = i + 1;
    }
    count
}

/// Total number of set bits in a byte sequence.
pub open spec fn count_bits_bytes(s: Seq<u8>) -> nat
    decreases s.len(),
{
    if s.len() == 0 {
        0
    } else {
        count_bits_bytes(s.drop_last()) + count_bits_u32(s.last() as u32, 8)
    }
}

/// Set bits of one byte.
fn bits_of_byte(b: u8) -> (r: u32)
    ensures
        r == count_bits_u32(b as u32, 8),
        r <= 8,
{
    let v = b as u32;
    let mut i: u32 = 0;
    let mut count: u32 = 0;
    while i < 8
        invariant
            i <= 8,
            v == b as u32,
            count == count_bits_u32(v, i as int),
            count <= i,
        decreases 8 - i,
    {
        if (v >> i) & 1u32 == 1u32 {
            count = count + 1;
        }
        i = i + 1;
    }
    count
}

/// Population count of an IPv6 netmask's 128 bits, which is the prefix
/// length the address enumeration reports for that mask.
pub fn ipv6_prefix_len(mask: &[u8; 16]) -> (r: u32)
    ensures
        r == count_bits_bytes(mask@),
        r <= 128,
{
    let mut i: usize = 0;
    let mut count: u32 = 0;
    while i < 16
        invariant
            i <= 16,
            count == count_bits_bytes(mask@.take(i as int)),
            count <= 8 * i,
        decreases 16 - i,
    {
        proof {
            assert(mask@.take(i + 1).drop_last() =~= mask@.take(i as int));
        }
        count = count + bits_of_byte(mask[i]);
        i = i + 1;
    }
    proof {
        assert(mask@.take(16) =~= mask@);
    }
    count
}

/// Reachability class of an IPv6 address.
#[derive(Clone, Copy, PartialEq, Eq, Structural, Debug)]
pub enum Ipv6Scope {
    Host,
    Link,
    Site,
    Multicast,
    Global,
}

/// The loopback address `::1`.
pub open spec fn is_loopback_v6(s: Seq<u8>) -> bool {
    &&& (forall|i: int| 0 <= i < 15 ==> #[trigger] s[i] == 0)
    &&& s[15] == 1
}

/// A link-local unicast address: the ten-bit prefix `fe80::/10`.
pub open spec fn is_link_local_v6(s: Seq<u8>) -> bool {
    s[0] == 0xfe && s[1] & 0xc0 == 0x80
}

/// The site shape: first byte `0xfe` and the top two bits of the second
/// byte both set.
pub open spec fn is_site_v6(s: Seq<u8>) -> bool {
    s[0] == 0xfe && s[1] & 0xc0 == 0xc0
}

/// A multicast address: the prefix `ff00::/8`.
pub open spec fn is_multicast_v6(s: Seq<u8>) -> bool {
    s[0] == 0xff
}

/// Scope classification by the ordered rules: loopback, then link-local,
/// then site, then multicast; everything else is global.  The first matching
/// rule wins.
pub open spec fn scope_of(s: Seq<u8>) -> Ipv6Scope {
    if is_loopback_v6(s) {
        Ipv6Scope::Host
    } else if is_link_local_v6(s) {
        Ipv6Scope::Link
    } else if is_site_v6(s) {
        Ipv6Scope::Site
    } else if is_multicast_v6(s) {
        Ipv6Scope::Multicast
    } else {
        Ipv6Scope::Global
    }
}

/// Classifies an IPv6 address into its scope.
pub fn classify_ipv6(addr: &[u8; 16]) -> (r: Ipv6Scope)
    ensures
        r == scope_of(addr@),
{
    let mut all_zero = true;
    let mut i: usize = 0;
    while i < 15
        invariant
            i <= 15,
            all_zero == (forall|j: int| 0 <= j < i ==> #[trigger] addr@[j] == 0),
        decreases 15 - i,
    {
        if addr[i] != 0 {
            all_zero = false;
        }
        i = i + 1;
    }
    if all_zero && addr[15] == 1 {
        Ipv6Scope::Host
    } else if addr[0] == 0xfe && addr[1] & 0xc0 == 0x80 {
        Ipv6Scope::Link
    } else if addr[0] == 0xfe && addr[1] & 0xc0 == 0xc0 {
        Ipv6Scope::Site
    } else if addr[0] == 0xff {
        Ipv6Scope::Multicast
    } else {
        Ipv6Scope::Global
    }
}

/// The scope keyword the records carry.
pub open spec fn scope_name_spec(sc: Ipv6Scope) -> Seq<char> {
    match sc {
        Ipv6Scope::Host => "host"@,
        Ipv6Scope::Link => "link"@,
        Ipv6Scope::Site => "site"@,
        Ipv6Scope::Multicast => "multicast"@,
        Ipv6Scope::Global => "global"@,
    }
}

/// Name of a scope class, one of `host`, `link`, `site`, `multicast`,
/// `global`.
pub fn scope_name(sc: Ipv6Scope) -> (r: &'static str)
    ensures
        r@ == scope_name_spec(sc),
{
    match sc {
        Ipv6Scope::Host => "host",
        Ipv6Scope::Link => "link",
        Ipv6Scope::Site => "site",
        Ipv6Scope::Multicast => "multicast",
        Ipv6Scope::Global => "global",
    }
}

/// The classification is total over the five documented shapes and the rule
/// order is load-bearing: a loopback address is classified as host and never
/// as global, and a multicast address — which none of the earlier rules can
/// match — is always classified as multicast.
pub proof fn lemma_scope_rules(s: Seq<u8>)
    requires
        s.len() == 16,
    ensures
        scope_of(s) == Ipv6Scope::Host <==> is_loopback_v6(s),
        scope_of(s) == Ipv6Scope::Link <==> !is_loopback_v6(s) && is_link_local_v6(s),
        scope_of(s) == Ipv6Scope::Site <==> !is_loopback_v6(s) && !is_link_local_v6(s)
            && is_site_v6(s),
        is_multicast_v6(s) ==> scope_of(s) == Ipv6Scope::Multicast,
        scope_of(s) == Ipv6Scope::Global <==> !is_loopback_v6(s) && !is_link_local_v6(s)
            && !is_site_v6(s) && !is_multicast_v6(s),
        is_loopback_v6(s) ==> scope_of(s) != Ipv6Scope::Global,
{
    if is_multicast_v6(s) {
        assert(s[0] == 0xff);
        assert(!is_loopback_v6(s));
        assert(!is_link_local_v6(s));
        assert(!is_site_v6(s));
    }
}

/// Dotted-quad form of an IPv4 address given as one 32-bit value, highest
/// octet first.
pub open spec fn spec_ipv4_str(a: u32) -> Seq<char> {
    spec_dec((a / 0x1000000) as nat) + seq!['.'] + spec_dec(((a / 0x10000) % 256) as nat)
        + seq!['.'] + spec_dec(((a / 256) % 256) as nat) + seq!['.'] + spec_dec((a % 256) as nat)
}

/// Formats an IPv4 address (or netmask) as a dotted quad.
pub fn format_ipv4(a: u32) -> (r: String)
    ensures
        r@ == spec_ipv4_str(a),
{
    proof {
        reveal_strlit(".");
    }
    let o0 = a / 0x1000000;
    let o1 = (a / 0x10000) % 256;
    let o2 = (a / 256) % 256;
    let o3 = a % 256;
    let r = u32_dec(o0).concat(".").concat(u32_dec(o1).as_str()).concat(".").concat(
        u32_dec(o2).as_str(),
    ).concat(".").concat(u32_dec(o3).as_str());
    proof {
        assert(r@ =~= spec_ipv4_str(a));
    }
    r
}

/// The eight 16-bit groups of an IPv6 address, high byte first within each
/// group.
pub open spec fn group_of(s: Seq<u8>, i: int) -> u16
    recommends
        0 <= i < 8,
        s.len() == 16,
{
    ((s[2 * i] as int) * 256 + s[2 * i + 1] as int) as u16
}

/// Length of the run of zero groups starting at position `i`.
pub open spec fn zero_run_len(g: Seq<u16>, i: int) -> nat
    decreases g.len() - i,
{
    if i < 0 || i >= g.len() || g[i] != 0 {
        0
    } else {
        1 + zero_run_len(g, i + 1)
    }
}

/// Start and length of the leftmost longest run of zero groups at positions
/// `i` and beyond.
pub open spec fn best_zero_run(g: Seq<u16>, i: int) -> (int, nat)
    decreases g.len() - i,
{
    if i < 0 || i >= g.len() {
        (i, 0)
    } else {
        let cur = zero_run_len(g, i);
        let rest = best_zero_run(g, i + 1);
        if cur >= rest.1 {
            (i, cur)
        } else {
            rest
        }
    }
}

/// Hexadecimal groups joined with `:`; an empty group list gives the empty
/// string.
pub open spec fn spec_groups_str(g: Seq<u16>) -> Seq<char>
    decreases g.len(),
{
    if g.len() == 0 {
        Seq::<char>::empty()
    } else if g.len() == 1 {
        spec_hex(g[0] as nat)
    } else {
        spec_groups_str(g.drop_last()) + seq![':'] + spec_hex(g.last() as nat)
    }
}

/// Whether the address is an IPv4-mapped one (`::ffff:a.b.c.d`), which is
/// printed with its trailing four bytes in dotted-quad form.
pub open spec fn is_v4_mapped(g: Seq<u16>) -> bool {
    (forall|i: int| 0 <= i < 5 ==> #[trigger] g[i] == 0) && g[5] == 0xffff
}

/// The textual form of an IPv6 address: groups in lowercase hexadecimal
/// without leading zeros, joined with `:`; the leftmost longest run of at
/// least two zero groups is compressed to `::`; an IPv4-mapped address shows
/// its last four bytes as a dotted quad.
pub open spec fn spec_ipv6_str(s: Seq<u8>) -> Seq<char> {
    let g = Seq::new(8, |i: int| group_of(s, i));
    if is_v4_mapped(g) {
        "::ffff:"@ + spec_dec(s[12] as nat) + seq!['.'] + spec_dec(s[13] as nat) + seq!['.']
            + spec_dec(s[14] as nat) + seq!['.'] + spec_dec(s[15] as nat)
    } else {
        let br = best_zero_run(g, 0);
        if br.1 >= 2 {
            spec_groups_str(g.take(br.0)) + seq![':'] + seq![':'] + spec_groups_str(
                g.skip(br.0 + br.1),
            )
        } else {
            spec_groups_str(g)
        }
    }
}

/// Run of zero groups starting at `i`.
fn zero_run_at(g: &Vec<u16>, i: usize) -> (r: usize)
    requires
        i <= g@.len(),
    ensures
        r == zero_run_len(g@, i as int),
        i + r <= g@.len(),
    decreases g@.len() - i,
{
    if i >= g.len() || g[i] != 0 {
        0
    } else {
        1 + zero_run_at(g, i + 1)
    }
}

/// Leftmost longest zero run at positions `i` and beyond.
fn best_zero_run_at(g: &Vec<u16>, i: usize) -> (r: (usize, usize))
    requires
        i <= g@.len(),
    ensures
        r.0 == best_zero_run(g@, i as int).0,
        r.1 == best_zero_run(g@, i as int).1,
        i <= r.0,
        r.0 + r.1 <= g@.len(),
    decreases g@.len() - i,
{
    if i >= g.len() {
        (i, 0)
    } else {
        let cur = zero_run_at(g, i);
        let rest = best_zero_run_at(g, i + 1);
        if cur >= rest.1 {
            (i, cur)
        } else {
            rest
        }
    }
}

/// Hexadecimal groups joined with `:`.
fn groups_str(g: &Vec<u16>, from: usize, to: usize) -> (r: String)
    requires
        from <= to <= g@.len(),
    ensures
        r@ == spec_groups_str(g@.subrange(from as int, to as int)),
    decreases to - from,
{
    proof {
        reveal_strlit(":");
    }
    if from == to {
        proof {
            assert(g@.subrange(from as int, to as int) =~= Seq::<u16>::empty());
        }
        String::new()
    } else if from + 1 == to {
        proof {
            assert(g@.subrange(from as int, to as int) =~= seq![g@[from as int]]);
        }
        u16_hex(g[from])
    } else {
        let init = groups_str(g, from, to - 1);
        let r = init.concat(":").concat(u16_hex(g[to - 1]).as_str());
        proof {
            let whole = g@.subrange(from as int, to as int);
            assert(whole.drop_last() =~= g@.subrange(from as int, to as int - 1));
            assert(whole.last() == g@[to as int - 1]);
            assert(r@ =~= spec_groups_str(whole));
        }
        r
    }
}

/// Formats an IPv6 address from its sixteen bytes.
pub fn format_ipv6(s: &[u8; 16]) -> (r: String)
    ensures
        r@ == spec_ipv6_str(s@),
{
    let mut g: Vec<u16> = Vec::new();
    let mut i: usize = 0;
    while i < 8
        invariant
            i <= 8,
            g@.len() == i,
            forall|j: int| 0 <= j < i ==> g@[j] == group_of(s@, j),
        decreases 8 - i,
    {
        g.push((s[2 * i] as u16) * 256 + (s[2 * i + 1] as u16));
        i = i + 1;
    }
    proof {
        assert(g@ =~= Seq::new(8, |i: int| group_of(s@, i)));
    }
    let v4m = g[0] == 0 && g[1] == 0 && g[2] == 0 && g[3] == 0 && g[4] == 0 && g[5] == 0xffff;
    proof {
        assert(v4m == is_v4_mapped(g@)) by {
            if g@[0] == 0 && g@[1] == 0 && g@[2] == 0 && g@[3] == 0 && g@[4] == 0 {
                assert(forall|i: int| 0 <= i < 5 ==> #[trigger] g@[i] == 0);
            }
        }
    }
    if v4m {
        proof {
            reveal_strlit("::ffff:");
            reveal_strlit(".");
        }
        let r = String::from_str("::ffff:").concat(u64_dec(s[12] as u64).as_str()).concat(
            ".",
        ).concat(u64_dec(s[13] as u64).as_str()).concat(".").concat(
            u64_dec(s[14] as u64).as_str(),
        ).concat(".").concat(u64_dec(s[15] as u64).as_str());
        proof {
            assert(r@ =~= spec_ipv6_str(s@));
        }
        r
    } else {
        let (bs, bl) = best_zero_run_at(&g, 0);
        if bl >= 2 {
            proof {
                reveal_strlit("::");
            }
            let head = groups_str(&g, 0, bs);
            let tail = groups_str(&g, bs + bl, 8);
            let r = head.concat("::").concat(tail.as_str());
            proof {
                assert(g@.subrange(0, bs as int) =~= g@.take(bs as int));
                assert(g@.subrange(bs as int + bl as int, 8) =~= g@.skip(bs as int + bl as int));
                assert("::"@ =~= seq![':'] + seq![':']);
                assert(r@ =~= spec_ipv6_str(s@));
            }
            r
        } else {
            let r = groups_str(&g, 0, 8);
            proof {
                assert(g@.subrange(0, 8) =~= g@);
                assert(r@ =~= spec_ipv6_str(s@));
            }
            r
        }
    }
}

} // verus!
