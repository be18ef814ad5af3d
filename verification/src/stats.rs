//! Hardware counters read from the process-wide counter table: an
//! interface-keyed text file of whitespace-delimited columns, where the
//! relevant fields are the 2nd/3rd (receive bytes/packets) and 10th/11th
//! (transmit bytes/packets) columns after the interface name token.

use vstd::prelude::*;

use crate::strutil::{
    parse_dec_u64, spec_lines, spec_parse_uint, split_lines, split_whitespace_tokens, split_ws,
    str_eq, trim_colons, trim_end_colons,
};

verus! {

/// Receive and transmit totals of one interface; a zero means the counter
/// was unavailable as much as that it really is zero.
#[derive(Clone, Copy, Debug, PartialEq, Eq, Structural)]
pub struct Stats {
    pub rx_bytes: u64,
    pub rx_packets: u64,
    pub tx_bytes: u64,
    pub tx_packets: u64,
}

/// The all-zero counters.
pub open spec fn zero_stats() -> Stats {
    Stats { rx_bytes: 0, rx_packets: 0, tx_bytes: 0, tx_packets: 0 }
}

impl Default for Stats {
    /// All counters zero.
    fn default() -> (r: Self)
        ensures
            r == zero_stats(),
    {
        Stats { rx_bytes: 0, rx_packets: 0, tx_bytes: 0, tx_packets: 0 }
    }
}

/// Value of one counter column: its decimal value, or zero where the column
/// does not parse.
pub open spec fn col_val(tokens: Seq<Seq<char>>, idx: int) -> u64
    recommends
        0 <= idx < tokens.len(),
{
    match spec_parse_uint(tokens[idx], 10, u64::MAX as nat) {
        Some(v) => v as u64,
        None => 0,
    }
}

/// Whether a table line belongs to the named interface: its first token,
/// with trailing colons removed, is exactly the interface name.
pub open spec fn line_matches(l: Seq<char>, name: Seq<char>) -> bool {
    let t = split_ws(l);
    t.len() > 0 && trim_end_colons(t[0]) == name
}

/// Counters of the first matching line; a matching line with fewer than 11
/// columns, or no matching line at all, gives zero counters.
pub open spec fn scan_stats(ls: Seq<Seq<char>>, name: Seq<char>) -> Stats
    decreases ls.len(),
{
    if ls.len() == 0 {
        zero_stats()
    } else if line_matches(ls[0], name) {
        let t = split_ws(ls[0]);
        if t.len() < 11 {
            zero_stats()
        } else {
            Stats {
                rx_bytes: col_val(t, 1),
                rx_packets: col_val(t, 2),
                tx_bytes: col_val(t, 9),
                tx_packets: col_val(t, 10),
            }
        }
    } else {
        scan_stats(ls.drop_first(), name)
    }
}

/// The counters the table text holds for an interface: the first two lines
/// are headers and are skipped; the first matching line after them decides.
pub open spec fn spec_get_stats(content: Seq<char>, name: Seq<char>) -> Stats {
    let ls = spec_lines(content);
    if ls.len() < 2 {
        zero_stats()
    } else {
        scan_stats(ls.skip(2), name)
    }
}

/// Reads an interface's counters out of the counter-table text.
pub fn get_stats(content: &str, ifname: &str) -> (r: Stats)
    ensures
        r == spec_get_stats(content@, ifname@),
{
    let lines = split_lines(content);
    let ghost all = spec_lines(content@);
    if lines.len() < 2 {
        return Stats::default();
    }
    let mut i: usize = 2;
    while i < lines.len()
        invariant
            2 <= i <= lines@.len(),
            lines@.len() == all.len(),
            all == spec_lines(content@),
            all.len() >= 2,
            forall|k: int| 0 <= k < all.len() ==> lines@[k]@ == all[k],
            scan_stats(all.skip(2), ifname@) == scan_stats(all.skip(i as int), ifname@),
        decreases lines@.len() - i,
    {
        proof {
            assert(all.skip(i as int)[0] == all[i as int]);
            assert(all.skip(i as int).drop_first() =~= all.skip(i + 1));
        }
        let line = lines[i].as_str();
        let tokens = split_whitespace_tokens(line);
        let ghost t = split_ws(all[i as int]);
        if tokens.len() > 0 {
            let head = trim_colons(tokens[0].as_str());
            if str_eq(head.as_str(), ifname) {
                proof {
                    assert(t.len() == tokens@.len());
                    assert(tokens@[0]@ == t[0]);
                    assert(line_matches(all[i as int], ifname@));
                    assert(scan_stats(all.skip(i as int), ifname@) == (if t.len() < 11 {
                        zero_stats()
                    } else {
                        Stats {
                            rx_bytes: col_val(t, 1),
                            rx_packets: col_val(t, 2),
                            tx_bytes: col_val(t, 9),
                            tx_packets: col_val(t, 10),
                        }
                    }));
                }
                if tokens.len() < 11 {
                    return Stats::default();
                }
                let rx_bytes = match parse_dec_u64(tokens[1].as_str()) {
                    Some(v) => v,
                    None => 0,
                };
                let rx_packets = match parse_dec_u64(tokens[2].as_str()) {
                    Some(v) => v,
                    None => 0,
                };
                let tx_bytes = match parse_dec_u64(tokens[9].as_str()) {
                    Some(v) => v,
                    None => 0,
                };
                let tx_packets = match parse_dec_u64(tokens[10].as_str()) {
                    Some(v) => v,
                    None => 0,
                };
                return Stats { rx_bytes, rx_packets, tx_bytes, tx_packets };
            }
        }
        i = i + 1;
    }
    proof {
        assert(all.skip(all.len() as int).len() == 0);
    }
    Stats::default()
}

} // verus!
