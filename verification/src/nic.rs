//! Interface enumeration: the namespace-tagged interface handle, the
//! deduplicated and name-ordered interface list, and the protocol of the
//! privileged namespace scan with its proved restore obligation.

use vstd::prelude::*;

use crate::strutil::{clone_opt_string, str_eq};

verus! {

broadcast use vstd::seq_lib::group_seq_properties;

/// An interface handle: its name and the network namespace it was seen in.
/// `None` means the namespace that was active when the process started (or
/// no namespace concept at all).  Two handles are the same interface exactly
/// when name and namespace both match.
#[derive(Debug)]
pub struct LinuxNic {
    pub name: String,
    pub netns: Option<String>,
}

/// The identity of a handle: its name and namespace as character sequences.
pub open spec fn handle_model(n: LinuxNic) -> (Seq<char>, Option<Seq<char>>) {
    (
        n.name@,
        match n.netns {
            Some(s) => Some(s@),
            None => None,
        },
    )
}

/// The identities of a handle sequence.
pub open spec fn models_of(s: Seq<LinuxNic>) -> Seq<(Seq<char>, Option<Seq<char>>)> {
    s.map_values(|n: LinuxNic| handle_model(n))
}

/// Whether some handle of the sequence has this identity.
pub open spec fn contains_model(s: Seq<LinuxNic>, m: (Seq<char>, Option<Seq<char>>)) -> bool {
    exists|t: int| 0 <= t < s.len() && handle_model(#[trigger] s[t]) == m
}

impl LinuxNic {
    /// An exact copy.
    pub fn duplicate(&self) -> (r: Self)
        ensures
            r == *self,
    {
        LinuxNic { name: self.name.clone(), netns: clone_opt_string(&self.netns) }
    }
}

/// Whether two handles name the same interface: equal name and equal
/// namespace tag.
pub fn same_handle(a: &LinuxNic, b: &LinuxNic) -> (r: bool)
    ensures
        r == (handle_model(*a) == handle_model(*b)),
{
    if !str_eq(a.name.as_str(), b.name.as_str()) {
        return false;
    }
    match (&a.netns, &b.netns) {
        (None, None) => true,
        (Some(x), Some(y)) => str_eq(x.as_str(), y.as_str()),
        _ => false,
    }
}

/// Of each identity, the handle where it first occurs, in encounter order.
pub open spec fn spec_dedup(s: Seq<LinuxNic>) -> Seq<LinuxNic>
    decreases s.len(),
{
    if s.len() == 0 {
        s
    } else {
        let front = spec_dedup(s.drop_last());
        if contains_model(s.drop_last(), handle_model(s.last())) {
            front
        } else {
            front.push(s.last())
        }
    }
}

/// Deduplication keeps exactly the identities of its input.
proof fn lemma_dedup_contains(s: Seq<LinuxNic>, m: (Seq<char>, Option<Seq<char>>))
    ensures
        contains_model(spec_dedup(s), m) == contains_model(s, m),
    decreases s.len(),
{
    if s.len() > 0 {
        let sp = s.drop_last();
        let x = s.last();
        let mx = handle_model(x);
        let front = spec_dedup(sp);
        lemma_dedup_contains(sp, m);
        if contains_model(sp, m) {
            let t = choose|t: int| 0 <= t < sp.len() && handle_model(#[trigger] sp[t]) == m;
            assert(handle_model(s[t]) == m);
        }
        if contains_model(s, m) && m != mx {
            let t = choose|t: int| 0 <= t < s.len() && handle_model(#[trigger] s[t]) == m;
            assert(t < sp.len() && handle_model(sp[t]) == m);
        }
        if !contains_model(sp, mx) {
            // The last handle is appended: indexing through the push.
            assert(front.push(x)[front.len() as int] == x);
            if contains_model(front.push(x), m) {
                let t = choose|t: int|
                    0 <= t < front.push(x).len() && handle_model(#[trigger] front.push(x)[t]) == m;
                if t < front.len() {
                    assert(handle_model(front[t]) == m);
                } else {
                    assert(handle_model(s[s.len() - 1]) == m);
                }
            }
            if m == mx {
                assert(handle_model(s[s.len() - 1]) == m);
            }
            if contains_model(front, m) {
                let t = choose|t: int|
                    0 <= t < front.len() && handle_model(#[trigger] front[t]) == m;
                assert(handle_model(front.push(x)[t]) == m);
            }
        }
    }
}

/// Keeps the first occurrence of each interface identity, in encounter
/// order.
pub fn dedup_handles(v: &Vec<LinuxNic>) -> (r: Vec<LinuxNic>)
    ensures
        r@ == spec_dedup(v@),
        models_of(r@).no_duplicates(),
        forall|k: int| 0 <= k < r@.len() ==> models_of(v@).contains(#[trigger] models_of(r@)[k]),
        forall|j: int| 0 <= j < v@.len() ==> models_of(r@).contains(#[trigger] models_of(v@)[j]),
{
    let mut out: Vec<LinuxNic> = Vec::new();
    let mut i: usize = 0;
    proof {
        assert(v@.take(0) =~= Seq::<LinuxNic>::empty());
    }
    while i < v.len()
        invariant
            i <= v@.len(),
            out@ == spec_dedup(v@.take(i as int)),
            models_of(out@).no_duplicates(),
            forall|k: int|
                0 <= k < out@.len() ==> models_of(v@).contains(#[trigger] models_of(out@)[k]),
            forall|j: int|
                0 <= j < i ==> models_of(out@).contains(#[trigger] models_of(v@)[j]),
        decreases v@.len() - i,
    {
        let mut seen = false;
        let mut k: usize = 0;
        while k < out.len()
            invariant
                k <= out@.len(),
                i < v@.len(),
                seen == (exists|t: int|
                    0 <= t < k && models_of(out@)[t] == handle_model(v@[i as int])),
            decreases out@.len() - k,
        {
            proof {
                assert(models_of(out@)[k as int] == handle_model(out@[k as int]));
            }
            if same_handle(&out[k], &v[i]) {
                seen = true;
            }
            k = k + 1;
        }
        proof {
            let m = handle_model(v@[i as int]);
            assert(v@.take(i + 1).drop_last() =~= v@.take(i as int));
            assert(v@.take(i + 1).last() == v@[i as int]);
            lemma_dedup_contains(v@.take(i as int), m);
            // The scan over `out` decides exactly whether the identity was
            // already encountered.
            assert(seen == contains_model(v@.take(i as int), m)) by {
                if seen {
                    let t = choose|t: int|
                        0 <= t < out@.len() && models_of(out@)[t] == m;
                    assert(handle_model(out@[t]) == m);
                    assert(contains_model(out@, m));
                } else {
                    if contains_model(out@, m) {
                        let t = choose|t: int|
                            0 <= t < out@.len() && handle_model(#[trigger] out@[t]) == m;
                        assert(models_of(out@)[t] == m);
                    }
                }
            }
        }
        if !seen {
            let ghost pre = out@;
            out.push(v[i].duplicate());
            proof {
                assert(out@ == spec_dedup(v@.take(i + 1)));
                assert(models_of(out@) =~= models_of(pre).push(handle_model(v@[i as int])));
                assert(models_of(out@)[out@.len() - 1] == handle_model(v@[i as int]));
                assert(models_of(v@)[i as int] == handle_model(v@[i as int]));
                assert(models_of(v@).contains(models_of(out@)[out@.len() - 1]));
                assert(models_of(out@).contains(models_of(v@)[i as int]));
            }
        } else {
            proof {
                assert(out@ == spec_dedup(v@.take(i + 1)));
                assert(models_of(v@)[i as int] == handle_model(v@[i as int]));
                assert(models_of(out@).contains(handle_model(v@[i as int])));
            }
        }
        i = i + 1;
    }
    proof {
        assert(v@.take(v@.len() as int) =~= v@);
    }
    out
}

/// Lexicographic order on character sequences, which is how interface names
/// are ordered.
pub open spec fn seq_lex_le(x: Seq<char>, y: Seq<char>) -> bool
    decreases x.len(),
{
    if x.len() == 0 {
        true
    } else if y.len() == 0 {
        false
    } else if (x[0] as u32) == (y[0] as u32) {
        seq_lex_le(x.drop_first(), y.drop_first())
    } else {
        (x[0] as u32) < (y[0] as u32)
    }
}

/// The order is total: one direction always holds.
pub proof fn lemma_lex_total(x: Seq<char>, y: Seq<char>)
    ensures
        seq_lex_le(x, y) || seq_lex_le(y, x),
    decreases x.len(),
{
    if x.len() > 0 && y.len() > 0 && (x[0] as u32) == (y[0] as u32) {
        lemma_lex_total(x.drop_first(), y.drop_first());
    }
}

/// The order is transitive.
pub proof fn lemma_lex_trans(x: Seq<char>, y: Seq<char>, z: Seq<char>)
    requires
        seq_lex_le(x, y),
        seq_lex_le(y, z),
    ensures
        seq_lex_le(x, z),
    decreases x.len(),
{
    if x.len() > 0 && y.len() > 0 && z.len() > 0 && (x[0] as u32) == (y[0] as u32) && (y[0] as u32)
        == (z[0] as u32) {
        lemma_lex_trans(x.drop_first(), y.drop_first(), z.drop_first());
    }
}

/// Lexicographic comparison of two names.
pub fn str_le(a: &str, b: &str) -> (r: bool)
    ensures
        r == seq_lex_le(a@, b@),
{
    let n = a.unicode_len();
    let m = b.unicode_len();
    let mut i: usize = 0;
    while i < n && i < m
        invariant
            i <= n,
            i <= m,
            n == a@.len(),
            m == b@.len(),
            seq_lex_le(a@, b@) == seq_lex_le(a@.skip(i as int), b@.skip(i as int)),
        decreases n - i,
    {
        let ca = a.get_char(i);
        let cb = b.get_char(i);
        if (ca as u32) != (cb as u32) {
            return (ca as u32) < (cb as u32);
        }
        proof {
            assert(a@.skip(i as int).drop_first() =~= a@.skip(i + 1));
            assert(b@.skip(i as int).drop_first() =~= b@.skip(i + 1));
        }
        i = i + 1;
    }
    proof {
        if i == n {
            assert(a@.skip(i as int).len() == 0);
        } else {
            assert(b@.skip(i as int).len() == 0);
            assert(a@.skip(i as int).len() > 0);
        }
    }
    n <= m
}

/// Whether a handle sequence is ordered by name.
pub open spec fn sorted_by_name(s: Seq<LinuxNic>) -> bool {
    forall|i: int, j: int| 0 <= i < j < s.len() ==> seq_lex_le(s[i].name@, s[j].name@)
}

/// Sorts handles by name; the interface identities are exactly preserved,
/// as a multiset.  Insertion behind equal names keeps their arrival order,
/// which the tests pin down; the contract states order and preservation.
#[verifier::rlimit(60)]
pub fn sort_handles(v: Vec<LinuxNic>) -> (r: Vec<LinuxNic>)
    ensures
        r@.len() == v@.len(),
        sorted_by_name(r@),
        models_of(r@).to_multiset() == models_of(v@).to_multiset(),
{
    broadcast use vstd::seq_lib::group_to_multiset_ensures;

    let mut out: Vec<LinuxNic> = Vec::new();
    let mut i: usize = 0;
    proof {
        assert(models_of(v@.take(0)) =~= Seq::<(Seq<char>, Option<Seq<char>>)>::empty());
        assert(models_of(out@) =~= Seq::<(Seq<char>, Option<Seq<char>>)>::empty());
    }
    while i < v.len()
        invariant
            i <= v@.len(),
            out@.len() == i,
            sorted_by_name(out@),
            models_of(out@).to_multiset() == models_of(v@.take(i as int)).to_multiset(),
        decreases v@.len() - i,
    {
        let x = v[i].duplicate();
        let mut p: usize = 0;
        while p < out.len() && str_le(out[p].name.as_str(), x.name.as_str())
            invariant
                p <= out@.len(),
                x == v@[i as int],
                sorted_by_name(out@),
                forall|t: int| 0 <= t < p ==> seq_lex_le(#[trigger] out@[t].name@, x.name@),
            decreases out@.len() - p,
        {
            p = p + 1;
        }
        proof {
            if p < out@.len() {
                lemma_lex_total(out@[p as int].name@, x.name@);
                assert forall|t: int| p <= t < out@.len() implies seq_lex_le(
                    x.name@,
                    #[trigger] out@[t].name@,
                ) by {
                    if t > p {
                        lemma_lex_trans(x.name@, out@[p as int].name@, out@[t].name@);
                    }
                }
            }
        }
        let ghost pre = out@;
        out.insert(p, x);
        proof {
            assert(out@.remove(p as int) =~= pre);
            assert(models_of(out@).remove(p as int) =~= models_of(pre));
            assert(models_of(out@).to_multiset().remove(models_of(out@)[p as int])
                =~= models_of(pre).to_multiset());
            assert(models_of(out@)[p as int] == handle_model(v@[i as int]));
            assert(models_of(out@).to_multiset().contains(models_of(out@)[p as int])) by {
                assert(models_of(out@).contains(models_of(out@)[p as int]));
            }
            assert(models_of(out@).to_multiset() =~= models_of(pre).to_multiset().insert(
                handle_model(v@[i as int]),
            ));
            assert(v@.take(i + 1).drop_last() =~= v@.take(i as int));
            assert(models_of(v@.take(i + 1)) =~= models_of(v@.take(i as int)).push(
                handle_model(v@[i as int]),
            ));
            assert(sorted_by_name(out@)) by {
                assert forall|a: int, b: int| 0 <= a < b < out@.len() implies seq_lex_le(
                    out@[a].name@,
                    out@[b].name@,
                ) by {
                    if b < p {
                    } else if a > p {
                        assert(out@[a] == pre[a - 1] && out@[b] == pre[b - 1]);
                    } else if a == p {
                        assert(out@[b] == pre[b - 1]);
                    } else if b == p {
                        assert(out@[a] == pre[a]);
                    } else {
                        // a < p < b
                        assert(out@[a] == pre[a] && out@[b] == pre[b - 1]);
                    }
                }
            }
        }
        i = i + 1;
    }
    proof {
        assert(v@.take(v@.len() as int) =~= v@);
    }
    out
}

/// Whether an identity was seen inside one of the scanned namespaces.
pub open spec fn ns_input_has(
    nss: Seq<(String, Vec<String>)>,
    m: (Seq<char>, Option<Seq<char>>),
) -> bool {
    exists|a: int, b: int|
        0 <= a < nss.len() && 0 <= b < nss[a].1@.len() && m == (
            (#[trigger] nss[a].1@[b])@,
            Some(nss[a].0@),
        )
}

/// Whether an identity is among the raw sights handed to the enumerator:
/// a name seen without switching, or a name seen inside a namespace.
pub open spec fn input_has(
    root: Seq<String>,
    nss: Seq<(String, Vec<String>)>,
    m: (Seq<char>, Option<Seq<char>>),
) -> bool {
    ||| (m.1 is None && exists|j: int| 0 <= j < root.len() && (#[trigger] root[j])@ == m.0)
    ||| ns_input_has(nss, m)
}

/// Builds the enumerator's result from the raw sights: interfaces seen
/// without switching (tagged with no namespace) and, per successfully
/// scanned namespace, the interfaces seen inside it.  The list is
/// deduplicated by identity — never two handles with the same (name,
/// namespace) pair — ordered by name, and holds exactly the identities that
/// were sighted: nothing is invented and nothing is lost.
pub fn get_if_list(root: &Vec<String>, namespaces: &Vec<(String, Vec<String>)>) -> (r: Vec<
    LinuxNic,
>)
    ensures
        models_of(r@).no_duplicates(),
        sorted_by_name(r@),
        forall|k: int|
            0 <= k < r@.len() ==> input_has(root@, namespaces@, #[trigger] models_of(r@)[k]),
        forall|j: int|
            0 <= j < root@.len() ==> models_of(r@).contains(
                ((#[trigger] root@[j])@, None::<Seq<char>>),
            ),
        forall|a: int, b: int|
            0 <= a < namespaces@.len() && 0 <= b < namespaces@[a].1@.len() ==> models_of(
                r@,
            ).contains(((#[trigger] namespaces@[a].1@[b])@, Some(namespaces@[a].0@))),
{
    broadcast use vstd::seq_lib::group_to_multiset_ensures;

    let mut raw: Vec<LinuxNic> = Vec::new();
    let mut i: usize = 0;
    while i < root.len()
        invariant
            i <= root@.len(),
            raw@.len() == i,
            forall|t: int| 0 <= t < i ==> handle_model(#[trigger] raw@[t]) == ((root@[t])@, None::<
                Seq<char>,
            >),
        decreases root@.len() - i,
    {
        raw.push(LinuxNic { name: root[i].clone(), netns: None });
        i = i + 1;
    }
    let mut j: usize = 0;
    while j < namespaces.len()
        invariant
            j <= namespaces@.len(),
            raw@.len() >= root@.len(),
            forall|t: int|
                0 <= t < root@.len() ==> handle_model(#[trigger] raw@[t]) == ((root@[t])@, None::<
                    Seq<char>,
                >),
            forall|t: int|
                root@.len() <= t < raw@.len() ==> ns_input_has(
                    namespaces@,
                    handle_model(#[trigger] raw@[t]),
                ),
            forall|a: int, b: int|
                0 <= a < j && 0 <= b < namespaces@[a].1@.len() ==> contains_model(
                    raw@,
                    ((#[trigger] namespaces@[a].1@[b])@, Some(namespaces@[a].0@)),
                ),
        decreases namespaces@.len() - j,
    {
        let ns_name = &namespaces[j].0;
        let names = &namespaces[j].1;
        let mut k: usize = 0;
        while k < names.len()
            invariant
                k <= names@.len(),
                names == &namespaces@[j as int].1,
                j < namespaces@.len(),
                ns_name == &namespaces@[j as int].0,
                raw@.len() >= root@.len(),
                forall|t: int|
                    0 <= t < root@.len() ==> handle_model(#[trigger] raw@[t]) == ((root@[t])@,
                    None::<Seq<char>>),
                forall|t: int|
                    root@.len() <= t < raw@.len() ==> ns_input_has(
                        namespaces@,
                        handle_model(#[trigger] raw@[t]),
                    ),
                forall|a: int, b: int|
                    0 <= a < j && 0 <= b < namespaces@[a].1@.len() ==> contains_model(
                        raw@,
                        ((#[trigger] namespaces@[a].1@[b])@, Some(namespaces@[a].0@)),
                    ),
                forall|b: int|
                    0 <= b < k ==> contains_model(
                        raw@,
                        ((#[trigger] names@[b])@, Some(ns_name@)),
                    ),
            decreases names@.len() - k,
        {
            let ghost pre = raw@;
            raw.push(LinuxNic { name: names[k].clone(), netns: Some(ns_name.clone()) });
            proof {
                let m = ((names@[k as int])@, Some(ns_name@));
                assert(handle_model(raw@[raw@.len() - 1]) == m);
                assert(ns_input_has(namespaces@, m)) by {
                    assert(0 <= j < namespaces@.len() && 0 <= k < namespaces@[j as int].1@.len()
                        && m == ((namespaces@[j as int].1@[k as int])@, Some(
                        namespaces@[j as int].0@,
                    )));
                }
                assert forall|mm: (Seq<char>, Option<Seq<char>>)|
                    contains_model(pre, mm) implies contains_model(raw@, mm) by {
                    let t = choose|t: int|
                        0 <= t < pre.len() && handle_model(#[trigger] pre[t]) == mm;
                    assert(handle_model(raw@[t]) == mm);
                }
                assert(contains_model(raw@, m));
            }
            k = k + 1;
        }
        j = j + 1;
    }
    let deduped = dedup_handles(&raw);
    let ghost rm = models_of(raw@);
    let ghost dm = models_of(deduped@);
    let sorted = sort_handles(deduped);
    let ghost sm = models_of(sorted@);
    proof {
        dm.lemma_multiset_has_no_duplicates();
        assert(forall|x: (Seq<char>, Option<Seq<char>>)|
            sm.to_multiset().contains(x) ==> sm.to_multiset().count(x) == 1);
        sm.lemma_multiset_has_no_duplicates_conv();
        // The sort keeps exactly the deduplicated identities.
        assert forall|m: (Seq<char>, Option<Seq<char>>)| #[trigger]
            sm.contains(m) == dm.contains(m) by {
            assert(sm.contains(m) <==> sm.to_multiset().count(m) > 0);
            assert(dm.contains(m) <==> dm.to_multiset().count(m) > 0);
        }
        // Nothing is invented: every surviving identity was sighted.
        assert forall|k: int| 0 <= k < sorted@.len() implies input_has(
            root@,
            namespaces@,
            #[trigger] sm[k],
        ) by {
            let m = sm[k];
            assert(sm.contains(m));
            let kd = choose|kd: int| 0 <= kd < dm.len() && dm[kd] == m;
            assert(rm.contains(dm[kd]));
            let t = choose|t: int| 0 <= t < rm.len() && rm[t] == m;
            assert(handle_model(raw@[t]) == m);
            if t < root@.len() {
                assert((root@[t])@ == m.0 && m.1 is None);
            } else {
                assert(ns_input_has(namespaces@, m));
            }
        }
        // Nothing is lost: every sighted identity survives.
        assert forall|j2: int| 0 <= j2 < root@.len() implies sm.contains(
            ((#[trigger] root@[j2])@, None::<Seq<char>>),
        ) by {
            let m = ((root@[j2])@, None::<Seq<char>>);
            assert(handle_model(raw@[j2]) == m);
            assert(rm[j2] == m);
            assert(dm.contains(rm[j2]));
        }
        assert forall|a: int, b: int|
            0 <= a < namespaces@.len() && 0 <= b < namespaces@[a].1@.len() implies sm.contains(
            ((#[trigger] namespaces@[a].1@[b])@, Some(namespaces@[a].0@)),
        ) by {
            let m = ((namespaces@[a].1@[b])@, Some(namespaces@[a].0@));
            assert(contains_model(raw@, m));
            let t = choose|t: int| 0 <= t < raw@.len() && handle_model(#[trigger] raw@[t]) == m;
            assert(rm[t] == m);
            assert(dm.contains(rm[t]));
        }
    }
    sorted
}

/// Where the namespace scan stands for the namespace it is visiting.
#[derive(Clone, Copy, PartialEq, Eq, Structural, Debug)]
pub enum ScanStage {
    /// Between namespaces: the process is in its original namespace.
    Ready,
    /// A switch succeeded: the process observes the visited namespace.
    Inside,
    /// Enumeration inside the namespace ended, in success or failure; the
    /// switch back is owed before anything else may happen.
    NeedRestore,
}

/// What the scan asks its driver to do next.
#[derive(Clone, Copy, PartialEq, Eq, Structural, Debug)]
pub enum NsAction {
    /// Open the namespace with this index and switch into it.
    Switch(usize),
    /// Enumerate interfaces inside the namespace now observed.
    Collect,
    /// Switch back to the originally captured namespace handle.
    Restore,
    /// Every namespace was visited; the scan is over.
    Done,
}

/// What the driver reports back.
#[derive(Clone, Copy, PartialEq, Eq, Structural, Debug)]
pub enum NsEvent {
    /// Whether opening and switching into the namespace worked.
    SwitchOutcome(bool),
    /// Whether enumerating inside the namespace worked.
    CollectOutcome(bool),
    /// The switch back to the original namespace was performed.
    Restored,
}

/// The decision core of the privileged namespace scan.  The driver asks
/// [`NsScan::next_action`] what to do, performs it, and reports the outcome
/// through [`NsScan::apply`].  The protocol forces the switch back after
/// every successful switch — also when enumeration inside the namespace
/// fails — so the process never stays in a namespace it visited.
pub struct NsScan {
    /// How many namespaces there are to visit.
    pub total: usize,
    /// Index of the next namespace to visit.
    pub next: usize,
    /// Stage within the current visit.
    pub stage: ScanStage,
    /// Whether the process currently observes its original namespace; the
    /// scan keeps this in step with the actions it hands out.
    pub in_original: bool,
}

impl NsScan {
    /// The protocol invariant: the scan is between namespaces exactly when
    /// the process observes its original namespace.
    pub open spec fn wf(&self) -> bool {
        &&& self.next <= self.total
        &&& (self.stage is Ready <==> self.in_original)
        &&& (self.stage is Ready || self.next < self.total)
    }

    /// Begins a scan over `total` namespaces, in the original namespace.
    pub fn start(total: usize) -> (r: Self)
        ensures
            r.wf(),
            r.in_original,
            r.next == 0,
            r.total == total,
    {
        NsScan { total, next: 0, stage: ScanStage::Ready, in_original: true }
    }

    /// What to do next.
    pub fn next_action(&self) -> (r: NsAction)
        requires
            self.wf(),
        ensures
            r == spec_next_action(*self),
    {
        match self.stage {
            ScanStage::Ready => {
                if self.next < self.total {
                    NsAction::Switch(self.next)
                } else {
                    NsAction::Done
                }
            },
            ScanStage::Inside => NsAction::Collect,
            ScanStage::NeedRestore => NsAction::Restore,
        }
    }

    /// Advances the protocol on the outcome of the action last handed out.
    pub fn apply(&mut self, ev: NsEvent)
        requires
            old(self).wf(),
            match ev {
                NsEvent::SwitchOutcome(_) => old(self).stage is Ready && old(self).next
                    < old(self).total,
                NsEvent::CollectOutcome(_) => old(self).stage is Inside,
                NsEvent::Restored => old(self).stage is NeedRestore,
            },
        ensures
            final(self).wf(),
            final(self).total == old(self).total,
            match ev {
                // A failed switch skips the namespace; a successful one
                // leaves the original namespace.
                NsEvent::SwitchOutcome(ok) => if ok {
                    final(self).stage is Inside && !final(self).in_original && final(self).next
                        == old(self).next
                } else {
                    final(self).stage is Ready && final(self).in_original && final(self).next
                        == old(self).next + 1
                },
                // Enumeration ends the visit either way: the restore is owed.
                NsEvent::CollectOutcome(_) => final(self).stage is NeedRestore
                    && !final(self).in_original && final(self).next == old(self).next,
                // The switch back closes the visit.
                NsEvent::Restored => final(self).stage is Ready && final(self).in_original
                    && final(self).next == old(self).next + 1,
            },
    {
        match ev {
            NsEvent::SwitchOutcome(ok) => {
                if ok {
                    self.stage = ScanStage::Inside;
                    self.in_original = false;
                } else {
                    self.next = self.next + 1;
                }
            },
            NsEvent::CollectOutcome(_) => {
                self.stage = ScanStage::NeedRestore;
            },
            NsEvent::Restored => {
                self.stage = ScanStage::Ready;
                self.in_original = true;
                self.next = self.next + 1;
            },
        }
    }
}

/// The action a well-formed scan state calls for.
pub open spec fn spec_next_action(s: NsScan) -> NsAction {
    match s.stage {
        ScanStage::Ready => if s.next < s.total {
            NsAction::Switch(s.next as usize)
        } else {
            NsAction::Done
        },
        ScanStage::Inside => NsAction::Collect,
        ScanStage::NeedRestore => NsAction::Restore,
    }
}

/// When the scan says it is done — and the protocol only ever says so in a
/// well-formed state — the process observes its original namespace again,
/// whatever mixture of failed switches and failed enumerations the run saw.
pub proof fn lemma_scan_done_restored(s: NsScan)
    requires
        s.wf(),
        spec_next_action(s) is Done,
    ensures
        s.in_original,
{
}

} // verus!
