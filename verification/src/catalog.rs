//! The hardware catalog: a parser for the PCI vendor/device identifier text
//! database.  A non-indented `HEXID name` line defines a vendor and becomes
//! the current vendor; a single-tab-indented `HEXID name` line under it
//! defines a device of that vendor; comment lines, blank lines and deeper
//! indentation are skipped.

use vstd::prelude::*;

use std::collections::HashMap;

use crate::strutil::{
    find_char, idx_of, is_blank, is_blank_seq, parse_hex_u16, spec_parse_uint, spec_trim,
    split_lines, spec_lines, trim_str,
};

verus! {

broadcast use vstd::std_specs::hash::group_hash_axioms;

/// Parser state: the vendor map, the device map (keyed by vendor and device
/// identifier combined into one value), and the current vendor.
pub type CatalogState = (Map<u16, Seq<char>>, Map<u32, Seq<char>>, Option<u16>);

/// The combined key under which a device name is filed.
pub open spec fn device_key(vendor: u16, device: u16) -> u32 {
    (vendor as int * 0x10000 + device as int) as u32
}

/// What one line of the database does to the parser state.
pub open spec fn line_step(st: CatalogState, l: Seq<char>) -> CatalogState {
    if l.len() > 0 && l[0] == '#' {
        st
    } else if is_blank_seq(l) {
        st
    } else if l[0] != '\t' {
        // A vendor line: `HEXID name`, separated by the first space.
        let i = idx_of(l, ' ') as int;
        if i < l.len() {
            match spec_parse_uint(l.take(i), 16, u16::MAX as nat) {
                Some(id) => (
                    st.0.insert(id as u16, spec_trim(l.skip(i + 1))),
                    st.1,
                    Some(id as u16),
                ),
                None => st,
            }
        } else {
            st
        }
    } else if l.len() >= 2 && l[1] == '\t' {
        // Deeper indentation: a subsystem record, ignored.
        st
    } else {
        // A device line under the current vendor; without one it is ignored.
        match st.2 {
            Some(vid) => {
                let rest = l.drop_first();
                let i = idx_of(rest, ' ') as int;
                if i < rest.len() {
                    match spec_parse_uint(rest.take(i), 16, u16::MAX as nat) {
                        Some(did) => (
                            st.0,
                            st.1.insert(device_key(vid, did as u16), spec_trim(rest.skip(i + 1))),
                            st.2,
                        ),
                        None => st,
                    }
                } else {
                    st
                }
            },
            None => st,
        }
    }
}

/// The parser state after all lines, first line first.
pub open spec fn parse_lines(ls: Seq<Seq<char>>, st: CatalogState) -> CatalogState
    decreases ls.len(),
{
    if ls.len() == 0 {
        st
    } else {
        parse_lines(ls.drop_first(), line_step(st, ls[0]))
    }
}

/// The catalog maps that parsing a database text adds onto existing maps;
/// each parse starts without a current vendor.
pub open spec fn catalog_parse(
    text: Seq<char>,
    vendors: Map<u16, Seq<char>>,
    devices: Map<u32, Seq<char>>,
) -> CatalogState {
    parse_lines(spec_lines(text), (vendors, devices, None))
}

proof fn lemma_parse_lines_push(ls: Seq<Seq<char>>, x: Seq<char>, st: CatalogState)
    ensures
        parse_lines(ls.push(x), st) == line_step(parse_lines(ls, st), x),
    decreases ls.len(),
{
    if ls.len() == 0 {
        assert(ls.push(x)[0] == x);
        assert(ls.push(x).drop_first() =~= Seq::<Seq<char>>::empty());
        assert(parse_lines(ls.push(x), st) == parse_lines(
            ls.push(x).drop_first(),
            line_step(st, x),
        ));
        assert(parse_lines(ls, st) == st);
    } else {
        assert(ls.push(x)[0] == ls[0]);
        assert(ls.push(x).drop_first() =~= ls.drop_first().push(x));
        assert(parse_lines(ls.push(x), st) == parse_lines(
            ls.drop_first().push(x),
            line_step(st, ls[0]),
        ));
        lemma_parse_lines_push(ls.drop_first(), x, line_step(st, ls[0]));
        assert(parse_lines(ls, st) == parse_lines(ls.drop_first(), line_step(st, ls[0])));
    }
}

/// Parsing on top of existing maps only lays the parsed bindings over them:
/// the result is the existing maps overridden by what parsing the same lines
/// from empty maps yields, and the final current vendor does not depend on
/// the maps at all.
proof fn lemma_parse_lines_union(ls: Seq<Seq<char>>, st: CatalogState)
    ensures
        parse_lines(ls, st).0 == st.0.union_prefer_right(
            parse_lines(ls, (Map::empty(), Map::empty(), st.2)).0,
        ),
        parse_lines(ls, st).1 == st.1.union_prefer_right(
            parse_lines(ls, (Map::empty(), Map::empty(), st.2)).1,
        ),
        parse_lines(ls, st).2 == parse_lines(ls, (Map::empty(), Map::empty(), st.2)).2,
    decreases ls.len(),
{
    let e: CatalogState = (Map::empty(), Map::empty(), st.2);
    if ls.len() == 0 {
        assert(st.0.union_prefer_right(Map::<u16, Seq<char>>::empty()) =~= st.0);
        assert(st.1.union_prefer_right(Map::<u32, Seq<char>>::empty()) =~= st.1);
    } else {
        let l = ls[0];
        let rest = ls.drop_first();
        let st1 = line_step(st, l);
        let e1 = line_step(e, l);
        assert(st1.2 == e1.2);
        lemma_parse_lines_union(rest, st1);
        lemma_parse_lines_union(rest, e1);
        let y0 = parse_lines(rest, (Map::<u16, Seq<char>>::empty(), Map::<u32, Seq<char>>::empty(), st1.2)).0;
        let y1 = parse_lines(rest, (Map::<u16, Seq<char>>::empty(), Map::<u32, Seq<char>>::empty(), st1.2)).1;
        assert(st1.0.union_prefer_right(y0) =~= st.0.union_prefer_right(
            e1.0.union_prefer_right(y0),
        ));
        assert(st1.1.union_prefer_right(y1) =~= st.1.union_prefer_right(
            e1.1.union_prefer_right(y1),
        ));
    }
}

/// Parsing is idempotent: parsing a text into the maps that parsing that
/// same text already produced changes nothing.
pub proof fn lemma_catalog_parse_idempotent(text: Seq<char>)
    ensures
        ({
            let first = catalog_parse(text, Map::empty(), Map::empty());
            let again = catalog_parse(text, first.0, first.1);
            again.0 == first.0 && again.1 == first.1
        }),
{
    let first = catalog_parse(text, Map::empty(), Map::empty());
    lemma_parse_lines_union(spec_lines(text), (first.0, first.1, None));
    assert(first.0.union_prefer_right(first.0) =~= first.0);
    assert(first.1.union_prefer_right(first.1) =~= first.1);
}

/// A device line met before any vendor line is ignored: while no current
/// vendor is set, a tab-indented line changes nothing.
pub proof fn lemma_device_line_without_vendor(st: CatalogState, l: Seq<char>)
    requires
        st.2 is None,
        l.len() > 0,
        l[0] == '\t',
    ensures
        line_step(st, l) == st,
{
}

/// The hardware catalog: vendor and device names keyed by their numeric
/// identifiers.  It is filled by [`PciDb::parse`] from database text the
/// caller read from the first readable well-known path, and only looked up
/// afterwards; without any readable database it stays empty and identifiers
/// go unresolved.
pub struct PciDb {
    vendors: HashMap<u16, String>,
    devices: HashMap<u32, String>,
}

impl PciDb {
    /// Vendor names by vendor identifier.
    pub closed spec fn vendors_model(&self) -> Map<u16, Seq<char>> {
        self.vendors@.map_values(|v: String| v@)
    }

    /// Device names by combined vendor/device key.
    pub closed spec fn devices_model(&self) -> Map<u32, Seq<char>> {
        self.devices@.map_values(|v: String| v@)
    }

    /// An empty catalog.
    pub fn new() -> (db: Self)
        ensures
            db.vendors_model() == Map::<u16, Seq<char>>::empty(),
            db.devices_model() == Map::<u32, Seq<char>>::empty(),
    {
        let db = PciDb { vendors: HashMap::new(), devices: HashMap::new() };
        proof {
            assert(db.vendors_model() =~= Map::<u16, Seq<char>>::empty());
            assert(db.devices_model() =~= Map::<u32, Seq<char>>::empty());
        }
        db
    }

    /// Parses database text into the catalog, laying its bindings over
    /// whatever the catalog already held.
    pub fn parse(&mut self, content: &str)
        ensures
            ({
                let st = catalog_parse(
                    content@,
                    old(self).vendors_model(),
                    old(self).devices_model(),
                );
                final(self).vendors_model() == st.0 && final(self).devices_model() == st.1
            }),
    {
        let lines = split_lines(content);
        let ghost all = spec_lines(content@);
        let ghost st0: CatalogState = (self.vendors_model(), self.devices_model(), None);
        let mut cur: Option<u16> = None;
        let mut i: usize = 0;
        proof {
            assert(all.take(0) =~= Seq::<Seq<char>>::empty());
        }
        while i < lines.len()
            invariant
                i <= lines@.len(),
                lines@.len() == all.len(),
                forall|k: int| 0 <= k < all.len() ==> lines@[k]@ == all[k],
                parse_lines(all.take(i as int), st0).0 == self.vendors_model(),
                parse_lines(all.take(i as int), st0).1 == self.devices_model(),
                parse_lines(all.take(i as int), st0).2 == cur,
            decreases lines@.len() - i,
        {
            let ghost pre = parse_lines(all.take(i as int), st0);
            proof {
                assert(all.take(i + 1) =~= all.take(i as int).push(all[i as int]));
                lemma_parse_lines_push(all.take(i as int), all[i as int], st0);
            }
            let line = lines[i].as_str();
            let ghost l = all[i as int];
            let n = line.unicode_len();
            if n > 0 && line.get_char(0) == '#' {
                // Comment line.
            } else if is_blank(line) {
                // Blank line.
            } else if line.get_char(0) != '\t' {
                match find_char(line, ' ') {
                    Some(p) => {
                        proof {
                            assert(line@.subrange(0, p as int) =~= l.take(p as int));
                        }
                        match parse_hex_u16(line.substring_char(0, p)) {
                            Some(id) => {
                                let name = trim_str(line.substring_char(p + 1, n));
                                proof {
                                    assert(line@.subrange(p + 1, n as int) =~= l.skip(p + 1));
                                }
                                let ghost mv = self.vendors_model();
                                self.vendors.insert(id, name);
                                cur = Some(id);
                                proof {
                                    assert(self.vendors_model() =~= mv.insert(
                                        id,
                                        spec_trim(l.skip(p + 1)),
                                    ));
                                }
                            },
                            None => {},
                        }
                    },
                    None => {},
                }
            } else if n >= 2 && line.get_char(1) == '\t' {
                // Subsystem record: ignored.
            } else {
                match cur {
                    Some(vid) => {
                        let rest = line.substring_char(1, n);
                        proof {
                            assert(rest@ =~= l.drop_first());
                        }
                        let m = rest.unicode_len();
                        match find_char(rest, ' ') {
                            Some(p) => {
                                proof {
                                    assert(rest@.subrange(0, p as int) =~= l.drop_first().take(
                                        p as int,
                                    ));
                                }
                                match parse_hex_u16(rest.substring_char(0, p)) {
                                    Some(did) => {
                                        let name = trim_str(rest.substring_char(p + 1, m));
                                        proof {
                                            assert(rest@.subrange(p + 1, m as int)
                                                =~= l.drop_first().skip(p + 1));
                                        }
                                        let key: u32 = (vid as u32) * 0x10000 + (did as u32);
                                        let ghost md = self.devices_model();
                                        self.devices.insert(key, name);
                                        proof {
                                            assert(self.devices_model() =~= md.insert(
                                                device_key(vid, did),
                                                spec_trim(l.drop_first().skip(p + 1)),
                                            ));
                                        }
                                    },
                                    None => {},
                                }
                            },
                            None => {},
                        }
                    },
                    None => {},
                }
            }
            i = i + 1;
        }
        proof {
            assert(all.take(all.len() as int) =~= all);
        }
    }

    /// The resolved name of a vendor, if the catalog has it.
    pub fn get_vendor(&self, id: u16) -> (r: Option<String>)
        ensures
            match r {
                Some(s) => self.vendors_model().contains_key(id) && s@ == self.vendors_model()[id],
                None => !self.vendors_model().contains_key(id),
            },
    {
        match self.vendors.get(&id) {
            Some(s) => Some(s.clone()),
            None => None,
        }
    }

    /// The resolved name of a device of a vendor, if the catalog has it.
    pub fn get_device(&self, vendor: u16, device: u16) -> (r: Option<String>)
        ensures
            match r {
                Some(s) => self.devices_model().contains_key(device_key(vendor, device)) && s@
                    == self.devices_model()[device_key(vendor, device)],
                None => !self.devices_model().contains_key(device_key(vendor, device)),
            },
    {
        let key: u32 = (vendor as u32) * 0x10000 + (device as u32);
        match self.devices.get(&key) {
            Some(s) => Some(s.clone()),
            None => None,
        }
    }
}

} // verus!
