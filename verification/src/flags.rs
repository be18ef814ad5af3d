//! Interface-flag decoding.  The two supported platforms assign different
//! meanings to several bits beyond the common ones, so each has its own bit
//! table; the caller selects the table through [`Platform`].

use vstd::prelude::*;

verus! {

/// The two operating-system families the collector knows: the
/// namespace-aware one and the BSD-style one.
#[derive(Clone, Copy, PartialEq, Eq, Structural, Debug)]
pub enum Platform {
    Linux,
    Bsd,
}

/// The UP bit, common to both platforms.
pub const IFF_UP: u16 = 0x1;

/// The RUNNING bit, common to both platforms.
pub const IFF_RUNNING: u16 = 0x40;

/// Whether the UP bit is set in an interface's flag word.
pub fn is_up(flags: u16) -> (r: bool)
    ensures
        r == (flags & IFF_UP != 0),
{
    flags & IFF_UP != 0
}

/// Whether the RUNNING bit is set in an interface's flag word.
pub fn is_running(flags: u16) -> (r: bool)
    ensures
        r == (flags & IFF_RUNNING != 0),
{
    flags & IFF_RUNNING != 0
}

/// Name of flag bit `i` on the namespace-aware platform.
pub open spec fn linux_flag_name(i: int) -> Seq<char> {
    if i == 0 {
        "UP"@
    } else if i == 1 {
        "BROADCAST"@
    } else if i == 2 {
        "DEBUG"@
    } else if i == 3 {
        "LOOPBACK"@
    } else if i == 4 {
        "PTP"@
    } else if i == 5 {
        "NOTRAILERS"@
    } else if i == 6 {
        "RUNNING"@
    } else if i == 7 {
        "NOARP"@
    } else if i == 8 {
        "PROMISC"@
    } else if i == 9 {
        "ALLMULTI"@
    } else if i == 10 {
        "MASTER"@
    } else if i == 11 {
        "SLAVE"@
    } else if i == 12 {
        "MULTICAST"@
    } else if i == 13 {
        "PORTSEL"@
    } else if i == 14 {
        "AUTOMEDIA"@
    } else {
        "DYNAMIC"@
    }
}

/// Name of flag bit `i` on the BSD-style platform.
pub open spec fn bsd_flag_name(i: int) -> Seq<char> {
    if i == 0 {
        "UP"@
    } else if i == 1 {
        "BROADCAST"@
    } else if i == 2 {
        "DEBUG"@
    } else if i == 3 {
        "LOOPBACK"@
    } else if i == 4 {
        "POINTOPOINT"@
    } else if i == 5 {
        "SMART"@
    } else if i == 6 {
        "RUNNING"@
    } else if i == 7 {
        "NOARP"@
    } else if i == 8 {
        "PROMISC"@
    } else if i == 9 {
        "ALLMULTI"@
    } else if i == 10 {
        "OACTIVE"@
    } else if i == 11 {
        "SIMPLEX"@
    } else if i == 12 {
        "LINK0"@
    } else if i == 13 {
        "LINK1"@
    } else if i == 14 {
        "LINK2"@
    } else {
        "MULTICAST"@
    }
}

/// Name of flag bit `i` on platform `p`.
pub open spec fn flag_name_spec(p: Platform, i: int) -> Seq<char> {
    match p {
        Platform::Linux => linux_flag_name(i),
        Platform::Bsd => bsd_flag_name(i),
    }
}

/// Names of the flag bits set among the lowest `n` bits, in bit order.
pub open spec fn flag_parts(p: Platform, flags: u16, n: int) -> Seq<Seq<char>>
    decreases n,
{
    if n <= 0 {
        Seq::empty()
    } else {
        flag_parts(p, flags, n - 1) + (if flags >> (n - 1) & 1u16 == 1u16 {
            seq![flag_name_spec(p, n - 1)]
        } else {
            Seq::empty()
        })
    }
}

/// Parts joined with a single space, with no leading or trailing space.
pub open spec fn join_space(parts: Seq<Seq<char>>) -> Seq<char>
    decreases parts.len(),
{
    if parts.len() == 0 {
        Seq::empty()
    } else if parts.len() == 1 {
        parts[0]
    } else {
        join_space(parts.drop_last()) + seq![' '] + parts.last()
    }
}

/// Name of flag bit `i` on platform `p`.
fn flag_name(p: Platform, i: usize) -> (r: &'static str)
    requires
        i < 16,
    ensures
        r@ == flag_name_spec(p, i as int),
{
    match p {
        Platform::Linux => {
            if i == 0 {
                "UP"
            } else if i == 1 {
                "BROADCAST"
            } else if i == 2 {
                "DEBUG"
            } else if i == 3 {
                "LOOPBACK"
            } else if i == 4 {
                "PTP"
            } else if i == 5 {
                "NOTRAILERS"
            } else if i == 6 {
                "RUNNING"
            } else if i == 7 {
                "NOARP"
            } else if i == 8 {
                "PROMISC"
            } else if i == 9 {
                "ALLMULTI"
            } else if i == 10 {
                "MASTER"
            } else if i == 11 {
                "SLAVE"
            } else if i == 12 {
                "MULTICAST"
            } else if i == 13 {
                "PORTSEL"
            } else if i == 14 {
                "AUTOMEDIA"
            } else {
                "DYNAMIC"
            }
        },
        Platform::Bsd => {
            if i == 0 {
                "UP"
            } else if i == 1 {
                "BROADCAST"
            } else if i == 2 {
                "DEBUG"
            } else if i == 3 {
                "LOOPBACK"
            } else if i == 4 {
                "POINTOPOINT"
            } else if i == 5 {
                "SMART"
            } else if i == 6 {
                "RUNNING"
            } else if i == 7 {
                "NOARP"
            } else if i == 8 {
                "PROMISC"
            } else if i == 9 {
                "ALLMULTI"
            } else if i == 10 {
                "OACTIVE"
            } else if i == 11 {
                "SIMPLEX"
            } else if i == 12 {
                "LINK0"
            } else if i == 13 {
                "LINK1"
            } else if i == 14 {
                "LINK2"
            } else {
                "MULTICAST"
            }
        },
    }
}

/// Joining one more part appends a space first exactly when something was
/// already joined.
proof fn lemma_join_space_step(parts: Seq<Seq<char>>, i: int)
    requires
        0 <= i < parts.len(),
    ensures
        i == 0 ==> join_space(parts.take(1)) == parts[0],
        i > 0 ==> join_space(parts.take(i + 1)) == join_space(parts.take(i)) + seq![' ']
            + parts[i],
{
    assert(parts.take(i + 1).drop_last() =~= parts.take(i));
    if i == 0 {
        assert(parts.take(1).len() == 1);
        assert(parts.take(1)[0] == parts[0]);
    } else {
        assert(parts.take(i + 1).last() == parts[i]);
    }
}

/// Decodes an interface flag word into the space-joined names of its set
/// bits, in bit order, using the platform's own bit table.
pub fn flags_str(p: Platform, flags: u16) -> (r: String)
    ensures
        r@ == join_space(flag_parts(p, flags, 16)),
{
    let ghost all = flag_parts(p, flags, 16);
    let mut parts: Vec<&'static str> = Vec::new();
    let mut i: usize = 0;
    while i < 16
        invariant
            i <= 16,
            parts@.len() == flag_parts(p, flags, i as int).len(),
            forall|k: int|
                0 <= k < parts@.len() ==> parts@[k]@ == flag_parts(p, flags, i as int)[k],
        decreases 16 - i,
    {
        if (flags >> (i as u16)) & 1u16 == 1u16 {
            parts.push(flag_name(p, i));
        }
        proof {
            assert(flag_parts(p, flags, i + 1) == flag_parts(p, flags, i as int) + (if flags >> (
            i as u16) & 1u16 == 1u16 {
                seq![flag_name_spec(p, i as int)]
            } else {
                Seq::<Seq<char>>::empty()
            }));
        }
        i = i + 1;
    }
    proof {
        assert(forall|k: int| 0 <= k < parts@.len() ==> parts@[k]@ == all[k]);
        assert(parts@.len() == all.len());
    }
    let mut out = String::new();
    let mut k: usize = 0;
    while k < parts.len()
        invariant
            k <= parts@.len(),
            parts@.len() == all.len(),
            forall|j: int| 0 <= j < parts@.len() ==> parts@[j]@ == all[j],
            out@ == join_space(all.take(k as int)),
        decreases parts@.len() - k,
    {
        proof {
            lemma_join_space_step(all, k as int);
        }
        if k > 0 {
            out.append(" ");
            proof {
                reveal_strlit(" ");
                assert(" "@ =~= seq![' ']);
            }
        }
        out.append(parts[k]);
        proof {
            assert(out@ =~= join_space(all.take(k + 1)));
        }
        k = k + 1;
    }
    proof {
        assert(all.take(all.len() as int) =~= all);
    }
    out
}

} // verus!
