//! Verified string helpers shared by the parsers and the filter engine:
//! whitespace and digit classification, integer parsing and formatting,
//! string equality, substring search, and lowercase folding.

use vstd::prelude::*;

verus! {

/// The characters with the Unicode `White_Space` property, which is the set
/// `char::is_whitespace` accepts and the set whitespace splitting and
/// trimming are defined over.
pub open spec fn is_space_char(c: char) -> bool {
    ||| c == '\u{0009}'
    ||| c == '\u{000A}'
    ||| c == '\u{000B}'
    ||| c == '\u{000C}'
    ||| c == '\u{000D}'
    ||| c == '\u{0020}'
    ||| c == '\u{0085}'
    ||| c == '\u{00A0}'
    ||| c == '\u{1680}'
    ||| ('\u{2000}' <= c && c <= '\u{200A}')
    ||| c == '\u{2028}'
    ||| c == '\u{2029}'
    ||| c == '\u{202F}'
    ||| c == '\u{205F}'
    ||| c == '\u{3000}'
}

/// Whitespace test matching `is_space_char`.
pub fn is_space(c: char) -> (r: bool)
    ensures
        r == is_space_char(c),
{
    c == '\u{0009}' || c == '\u{000A}' || c == '\u{000B}' || c == '\u{000C}' || c == '\u{000D}'
        || c == '\u{0020}' || c == '\u{0085}' || c == '\u{00A0}' || c == '\u{1680}' || ('\u{2000}'
        <= c && c <= '\u{200A}') || c == '\u{2028}' || c == '\u{2029}' || c == '\u{202F}' || c
        == '\u{205F}' || c == '\u{3000}'
}

/// Numeric value of a digit character in bases up to 16; characters that are
/// no such digit get a value of 16, which no base in use admits.
pub open spec fn digit_val(c: char) -> nat {
    if '0' <= c && c <= '9' {
        (c as nat - '0' as nat) as nat
    } else if 'a' <= c && c <= 'f' {
        (c as nat - 'a' as nat + 10) as nat
    } else if 'A' <= c && c <= 'F' {
        (c as nat - 'A' as nat + 10) as nat
    } else {
        16
    }
}

/// Whether `c` is a digit of base `radix`.
pub open spec fn is_digit_radix(c: char, radix: nat) -> bool {
    digit_val(c) < radix
}

/// Value of a digit string in base `radix`, most significant digit first.
pub open spec fn val_radix(s: Seq<char>, radix: nat) -> nat
    decreases s.len(),
{
    if s.len() == 0 {
        0
    } else {
        val_radix(s.drop_last(), radix) * radix + digit_val(s.last())
    }
}

/// The digit part of an integer literal: everything after an optional
/// leading `+`.
pub open spec fn strip_plus(s: Seq<char>) -> Seq<char> {
    if s.len() > 0 && s[0] == '+' {
        s.drop_first()
    } else {
        s
    }
}

/// The unsigned-integer grammar of `from_str_radix`: an optional leading
/// `+`, then at least one digit of the base; the value must fit below `max`.
pub open spec fn spec_parse_uint(s: Seq<char>, radix: nat, max: nat) -> Option<nat> {
    let t = strip_plus(s);
    if t.len() > 0 && (forall|i: int| 0 <= i < t.len() ==> is_digit_radix(#[trigger] t[i], radix))
        && val_radix(t, radix) <= max {
        Some(val_radix(t, radix))
    } else {
        None
    }
}

/// A longer digit string is worth at least as much as its prefix.
proof fn lemma_val_radix_prefix_le(s: Seq<char>, i: int, radix: nat)
    requires
        0 <= i <= s.len(),
        radix >= 1,
    ensures
        val_radix(s.take(i), radix) <= val_radix(s, radix),
    decreases s.len() - i,
{
    if i < s.len() {
        assert(s.take(i + 1).drop_last() =~= s.take(i));
        assert(val_radix(s.take(i + 1), radix) == val_radix(s.take(i), radix) * radix + digit_val(
            s.take(i + 1).last(),
        ));
        assert(val_radix(s.take(i), radix) * radix >= val_radix(s.take(i), radix) * 1) by (
        nonlinear_arith)
            requires
                radix >= 1,
        ;
        lemma_val_radix_prefix_le(s, i + 1, radix);
    } else {
        assert(s.take(i) =~= s);
    }
}

/// Digit value of a character, as `digit_val` gives it, or 16 where the
/// character is no digit.
fn digit_of(c: char) -> (r: u8)
    ensures
        r == digit_val(c),
{
    if '0' <= c && c <= '9' {
        (c as u8) - ('0' as u8)
    } else if 'a' <= c && c <= 'f' {
        (c as u8) - ('a' as u8) + 10
    } else if 'A' <= c && c <= 'F' {
        (c as u8) - ('A' as u8) + 10
    } else {
        16
    }
}

/// Parses `s` as a base-`radix` integer no greater than `max`, exactly where
/// the standard integer parser in that base succeeds with such a value.
fn parse_uint(s: &str, radix: u8, max: u64) -> (r: Option<u64>)
    requires
        2 <= radix <= 16,
        max >= 16,
    ensures
        match r {
            Some(v) => spec_parse_uint(s@, radix as nat, max as nat) == Some(v as nat),
            None => spec_parse_uint(s@, radix as nat, max as nat) is None,
        },
{
    let n = s.unicode_len();
    let start: usize = if n > 0 && s.get_char(0) == '+' {
        1
    } else {
        0
    };
    let ghost t = strip_plus(s@);
    proof {
        assert(t =~= s@.skip(start as int));
    }
    if n == start {
        return None;
    }
    let mut i: usize = start;
    let mut acc: u64 = 0;
    while i < n
        invariant
            start <= i <= n,
            n == s@.len(),
            t =~= s@.skip(start as int),
            t == strip_plus(s@),
            max >= 16,
            2 <= radix <= 16,
            acc == val_radix(s@.subrange(start as int, i as int), radix as nat),
            acc <= max,
            forall|j: int|
                start <= j < i ==> is_digit_radix(#[trigger] s@[j], radix as nat),
        decreases n - i,
    {
        let c = s.get_char(i);
        let d = digit_of(c);
        if d >= radix {
            proof {
                assert(0 <= i - start < t.len());
                assert(t[i - start] == s@[i as int]);
                assert(digit_val(t[i - start]) >= radix);
                assert(!is_digit_radix(t[i - start], radix as nat));
                assert(spec_parse_uint(s@, radix as nat, max as nat) is None);
            }
            return None;
        }
        proof {
            assert(s@.subrange(start as int, i + 1).drop_last() =~= s@.subrange(
                start as int,
                i as int,
            ));
            assert(s@.subrange(start as int, i + 1).last() == s@[i as int]);
            assert(s@.subrange(start as int, i + 1) =~= t.take(i + 1 - start));
        }
        if acc > max / (radix as u64) {
            // The value read so far already exceeds `max`; the full string can
            // only be worth more.
            proof {
                vstd::arithmetic::div_mod::lemma_fundamental_div_mod(max as int, radix as int);
                vstd::arithmetic::div_mod::lemma_mod_bound(max as int, radix as int);
                assert(acc * radix > max) by (nonlinear_arith)
                    requires
                        acc > max / (radix as u64),
                        radix >= 2,
                        max == (radix as int) * ((max as int) / (radix as int)) + (max as int) % (
                        radix as int),
                        0 <= (max as int) % (radix as int) < (radix as int),
                ;
                assert(val_radix(t.take(i + 1 - start), radix as nat) == acc * radix + d);
                lemma_val_radix_prefix_le(t, i + 1 - start, radix as nat);
            }
            return None;
        }
        proof {
            vstd::arithmetic::div_mod::lemma_fundamental_div_mod(max as int, radix as int);
            vstd::arithmetic::div_mod::lemma_mod_bound(max as int, radix as int);
            assert(acc * radix <= max) by (nonlinear_arith)
                requires
                    acc <= max / (radix as u64),
                    radix >= 2,
                    max == (radix as int) * ((max as int) / (radix as int)) + (max as int) % (
                    radix as int),
                    0 <= (max as int) % (radix as int) < (radix as int),
            ;
        }
        let next = acc * (radix as u64);
        if next > max - (d as u64) {
            proof {
                assert(val_radix(t.take(i + 1 - start), radix as nat) == acc * radix + d);
                lemma_val_radix_prefix_le(t, i + 1 - start, radix as nat);
            }
            return None;
        }
        acc = next + (d as u64);
        i = i + 1;
    }
    proof {
        assert(s@.subrange(start as int, n as int) =~= t);
    }
    Some(acc)
}

/// Parses a 16-bit hexadecimal identifier, as the hardware catalog's lines
/// carry them.
pub fn parse_hex_u16(s: &str) -> (r: Option<u16>)
    ensures
        match r {
            Some(v) => spec_parse_uint(s@, 16, u16::MAX as nat) == Some(v as nat),
            None => spec_parse_uint(s@, 16, u16::MAX as nat) is None,
        },
{
    match parse_uint(s, 16, 0xffff) {
        Some(v) => Some(v as u16),
        None => None,
    }
}

/// Parses an 8-bit hexadecimal field of a PCI bus address.
pub fn parse_hex_u8(s: &str) -> (r: Option<u8>)
    ensures
        match r {
            Some(v) => spec_parse_uint(s@, 16, u8::MAX as nat) == Some(v as nat),
            None => spec_parse_uint(s@, 16, u8::MAX as nat) is None,
        },
{
    match parse_uint(s, 16, 0xff) {
        Some(v) => Some(v as u8),
        None => None,
    }
}

/// Parses a decimal counter column; the counter table treats an unparsable
/// column as zero.
pub fn parse_dec_u64(s: &str) -> (r: Option<u64>)
    ensures
        match r {
            Some(v) => spec_parse_uint(s@, 10, u64::MAX as nat) == Some(v as nat),
            None => spec_parse_uint(s@, 10, u64::MAX as nat) is None,
        },
{
    parse_uint(s, 10, u64::MAX)
}

/// The lowercase hexadecimal digit for a value below 16.
pub open spec fn hex_char(v: nat) -> char
    recommends
        v < 16,
{
    if v == 0 {
        '0'
    } else if v == 1 {
        '1'
    } else if v == 2 {
        '2'
    } else if v == 3 {
        '3'
    } else if v == 4 {
        '4'
    } else if v == 5 {
        '5'
    } else if v == 6 {
        '6'
    } else if v == 7 {
        '7'
    } else if v == 8 {
        '8'
    } else if v == 9 {
        '9'
    } else if v == 10 {
        'a'
    } else if v == 11 {
        'b'
    } else if v == 12 {
        'c'
    } else if v == 13 {
        'd'
    } else if v == 14 {
        'e'
    } else {
        'f'
    }
}

/// The one-character string for a digit value below 16.
pub fn hex_char_str(v: u8) -> (r: &'static str)
    requires
        v < 16,
    ensures
        r@ =~= seq![hex_char(v as nat)],
{
    proof {
        reveal_strlit("0");
        reveal_strlit("1");
        reveal_strlit("2");
        reveal_strlit("3");
        reveal_strlit("4");
        reveal_strlit("5");
        reveal_strlit("6");
        reveal_strlit("7");
        reveal_strlit("8");
        reveal_strlit("9");
        reveal_strlit("a");
        reveal_strlit("b");
        reveal_strlit("c");
        reveal_strlit("d");
        reveal_strlit("e");
        reveal_strlit("f");
    }
    if v == 0 {
        "0"
    } else if v == 1 {
        "1"
    } else if v == 2 {
        "2"
    } else if v == 3 {
        "3"
    } else if v == 4 {
        "4"
    } else if v == 5 {
        "5"
    } else if v == 6 {
        "6"
    } else if v == 7 {
        "7"
    } else if v == 8 {
        "8"
    } else if v == 9 {
        "9"
    } else if v == 10 {
        "a"
    } else if v == 11 {
        "b"
    } else if v == 12 {
        "c"
    } else if v == 13 {
        "d"
    } else if v == 14 {
        "e"
    } else {
        "f"
    }
}

/// Two lowercase hexadecimal digits of a byte, high digit first.
pub open spec fn spec_hex2(v: nat) -> Seq<char>
    recommends
        v < 256,
{
    seq![hex_char(v / 16), hex_char(v % 16)]
}

/// Formats a byte as exactly two lowercase hexadecimal digits.
pub fn u8_hex2(v: u8) -> (r: String)
    ensures
        r@ == spec_hex2(v as nat),
{
    let hi = v / 16;
    let lo = v % 16;
    let s = String::from_str(hex_char_str(hi));
    let r = s.concat(hex_char_str(lo));
    proof {
        assert(r@ =~= spec_hex2(v as nat));
    }
    r
}

/// Four lowercase hexadecimal digits of a 16-bit value, high digit first.
pub open spec fn spec_hex4(v: nat) -> Seq<char>
    recommends
        v < 0x10000,
{
    spec_hex2(v / 256) + spec_hex2(v % 256)
}

/// Formats a 16-bit value as exactly four lowercase hexadecimal digits.
pub fn u16_hex4(v: u16) -> (r: String)
    ensures
        r@ == spec_hex4(v as nat),
{
    let s = u8_hex2((v / 256) as u8);
    let t = u8_hex2((v % 256) as u8);
    let r = s.concat(t.as_str());
    proof {
        assert(r@ =~= spec_hex4(v as nat));
    }
    r
}

/// Decimal digits of a value, most significant first, with no leading zeros
/// except for the value zero itself.
pub open spec fn spec_dec(v: nat) -> Seq<char>
    decreases v,
{
    if v < 10 {
        seq![hex_char(v)]
    } else {
        spec_dec(v / 10).push(hex_char(v % 10))
    }
}

/// Formats a value in decimal.
pub fn u64_dec(v: u64) -> (r: String)
    ensures
        r@ == spec_dec(v as nat),
    decreases v,
{
    if v < 10 {
        String::from_str(hex_char_str(v as u8))
    } else {
        let s = u64_dec(v / 10);
        let r = s.concat(hex_char_str((v % 10) as u8));
        proof {
            assert(r@ =~= spec_dec(v as nat));
        }
        r
    }
}

/// Lowercase hexadecimal digits of a value, most significant first, with no
/// leading zeros except for the value zero itself.
pub open spec fn spec_hex(v: nat) -> Seq<char>
    decreases v,
{
    if v < 16 {
        seq![hex_char(v)]
    } else {
        spec_hex(v / 16).push(hex_char(v % 16))
    }
}

/// Formats a 16-bit value in lowercase hexadecimal without leading zeros.
pub fn u16_hex(v: u16) -> (r: String)
    ensures
        r@ == spec_hex(v as nat),
    decreases v,
{
    if v < 16 {
        String::from_str(hex_char_str(v as u8))
    } else {
        let s = u16_hex(v / 16);
        let r = s.concat(hex_char_str((v % 16) as u8));
        proof {
            assert(r@ =~= spec_hex(v as nat));
        }
        r
    }
}

/// Formats a 32-bit value in decimal.
pub fn u32_dec(v: u32) -> (r: String)
    ensures
        r@ == spec_dec(v as nat),
{
    u64_dec(v as u64)
}

/// Character-for-character string equality, which is the equality of the
/// string views.
pub fn str_eq(a: &str, b: &str) -> (r: bool)
    ensures
        r == (a@ == b@),
{
    let n = a.unicode_len();
    if n != b.unicode_len() {
        return false;
    }
    let mut i: usize = 0;
    while i < n
        invariant
            i <= n,
            n == a@.len(),
            n == b@.len(),
            forall|j: int| 0 <= j < i ==> a@[j] == b@[j],
        decreases n - i,
    {
        if a.get_char(i) != b.get_char(i) {
            return false;
        }
        i = i + 1;
    }
    proof {
        assert(a@ =~= b@);
    }
    true
}

/// Whether `needle` occurs contiguously inside `hay`; the empty sequence
/// occurs in everything.
pub open spec fn contains_seq(hay: Seq<char>, needle: Seq<char>) -> bool {
    exists|i: int|
        0 <= i && i + needle.len() <= hay.len() && #[trigger] hay.subrange(i, i + needle.len())
            == needle
}

/// Substring search: true exactly when `needle` occurs inside `hay`.
pub fn contains_sub(hay: &str, needle: &str) -> (r: bool)
    ensures
        r == contains_seq(hay@, needle@),
{
    let n = hay.unicode_len();
    let m = needle.unicode_len();
    if m > n {
        return false;
    }
    let mut i: usize = 0;
    while i <= n - m
        invariant
            m <= n,
            n == hay@.len(),
            m == needle@.len(),
            i <= n - m + 1,
            forall|k: int|
                0 <= k < i ==> #[trigger] hay@.subrange(k, k + needle@.len()) != needle@,
        decreases n - m + 1 - i,
    {
        let mut j: usize = 0;
        let mut ok = true;
        while j < m
            invariant
                j <= m,
                i + m <= n,
                n == hay@.len(),
                m == needle@.len(),
                ok == (forall|l: int| 0 <= l < j ==> hay@[i + l] == #[trigger] needle@[l]),
            decreases m - j,
        {
            if hay.get_char(i + j) != needle.get_char(j) {
                ok = false;
            }
            j = j + 1;
        }
        if ok {
            proof {
                assert(hay@.subrange(i as int, i + needle@.len()) =~= needle@);
            }
            return true;
        }
        i = i + 1;
    }
    proof {
        assert forall|k: int|
            0 <= k && k + needle@.len() <= hay@.len() implies #[trigger] hay@.subrange(
            k,
            k + needle@.len(),
        ) != needle@ by {
            assert(k < i);
        }
    }
    false
}

/// Clones an optional string field, value for value.
pub fn clone_opt_string(s: &Option<String>) -> (r: Option<String>)
    ensures
        r == *s,
{
    match s {
        Some(v) => Some(v.clone()),
        None => None,
    }
}

/// Whether every character of the line is whitespace, which is when
/// trimming it leaves nothing.
pub open spec fn is_blank_seq(s: Seq<char>) -> bool {
    forall|i: int| 0 <= i < s.len() ==> is_space_char(#[trigger] s[i])
}

/// Blank test: true exactly when the line holds only whitespace.
pub fn is_blank(s: &str) -> (r: bool)
    ensures
        r == is_blank_seq(s@),
{
    let n = s.unicode_len();
    let mut i: usize = 0;
    while i < n
        invariant
            i <= n,
            n == s@.len(),
            forall|j: int| 0 <= j < i ==> is_space_char(#[trigger] s@[j]),
        decreases n - i,
    {
        if !is_space(s.get_char(i)) {
            return false;
        }
        i = i + 1;
    }
    true
}

/// The sequence without its leading whitespace.
pub open spec fn trim_start_sp(s: Seq<char>) -> Seq<char>
    decreases s.len(),
{
    if s.len() > 0 && is_space_char(s[0]) {
        trim_start_sp(s.drop_first())
    } else {
        s
    }
}

/// The sequence without its trailing whitespace.
pub open spec fn trim_end_sp(s: Seq<char>) -> Seq<char>
    decreases s.len(),
{
    if s.len() > 0 && is_space_char(s.last()) {
        trim_end_sp(s.drop_last())
    } else {
        s
    }
}

/// The sequence without leading and trailing whitespace.
pub open spec fn spec_trim(s: Seq<char>) -> Seq<char> {
    trim_end_sp(trim_start_sp(s))
}

proof fn lemma_trim_start_skip(s: Seq<char>, lo: int)
    requires
        0 <= lo <= s.len(),
        forall|j: int| 0 <= j < lo ==> is_space_char(#[trigger] s[j]),
        lo == s.len() || !is_space_char(s[lo]),
    ensures
        trim_start_sp(s) == s.skip(lo),
    decreases lo,
{
    if lo == 0 {
        assert(s.skip(0) =~= s);
    } else {
        assert(is_space_char(s[0]));
        lemma_trim_start_skip(s.drop_first(), lo - 1);
        assert(s.drop_first().skip(lo - 1) =~= s.skip(lo));
    }
}

proof fn lemma_trim_end_take(s: Seq<char>, hi: int)
    requires
        0 <= hi <= s.len(),
        forall|j: int| hi <= j < s.len() ==> is_space_char(#[trigger] s[j]),
        hi == 0 || !is_space_char(s[hi - 1]),
    ensures
        trim_end_sp(s) == s.take(hi),
    decreases s.len() - hi,
{
    if hi == s.len() {
        assert(s.take(hi) =~= s);
    } else {
        assert(is_space_char(s.last()));
        lemma_trim_end_take(s.drop_last(), hi);
        assert(s.drop_last().take(hi) =~= s.take(hi));
    }
}

/// Removes leading and trailing whitespace.
pub fn trim_str(s: &str) -> (r: String)
    ensures
        r@ == spec_trim(s@),
{
    let n = s.unicode_len();
    let mut lo: usize = 0;
    while lo < n && is_space(s.get_char(lo))
        invariant
            lo <= n,
            n == s@.len(),
            forall|j: int| 0 <= j < lo ==> is_space_char(#[trigger] s@[j]),
        decreases n - lo,
    {
        lo = lo + 1;
    }
    let mut hi: usize = n;
    while hi > lo && is_space(s.get_char(hi - 1))
        invariant
            lo <= hi <= n,
            n == s@.len(),
            forall|j: int| hi <= j < n ==> is_space_char(#[trigger] s@[j]),
        decreases hi,
    {
        hi = hi - 1;
    }
    let r = s.substring_char(lo, hi).to_owned();
    proof {
        lemma_trim_start_skip(s@, lo as int);
        let t = s@.skip(lo as int);
        lemma_trim_end_take(t, hi - lo);
        assert(s@.subrange(lo as int, hi as int) =~= t.take(hi - lo));
    }
    r
}

/// Index of the first occurrence of `c`, or the length when `c` does not
/// occur.
pub open spec fn idx_of(s: Seq<char>, c: char) -> nat
    decreases s.len(),
{
    if s.len() == 0 {
        0
    } else if s[0] == c {
        0
    } else {
        1 + idx_of(s.drop_first(), c)
    }
}

/// `idx_of` is what an index-by-index scan finds.
pub proof fn lemma_idx_of_is(s: Seq<char>, c: char, p: int)
    requires
        0 <= p <= s.len(),
        forall|j: int| 0 <= j < p ==> s[j] != c,
        p == s.len() || s[p] == c,
    ensures
        idx_of(s, c) == p,
    decreases p,
{
    if p == 0 {
    } else {
        lemma_idx_of_is(s.drop_first(), c, p - 1);
    }
}

/// Position of the first occurrence of `c` in `s`, if any.
pub fn find_char(s: &str, c: char) -> (r: Option<usize>)
    ensures
        match r {
            Some(p) => p == idx_of(s@, c) && p < s@.len() && s@[p as int] == c,
            None => idx_of(s@, c) == s@.len(),
        },
{
    let n = s.unicode_len();
    let mut i: usize = 0;
    while i < n
        invariant
            i <= n,
            n == s@.len(),
            forall|j: int| 0 <= j < i ==> s@[j] != c,
        decreases n - i,
    {
        if s.get_char(i) == c {
            proof {
                lemma_idx_of_is(s@, c, i as int);
            }
            return Some(i);
        }
        i = i + 1;
    }
    proof {
        lemma_idx_of_is(s@, c, n as int);
    }
    None
}

/// Whether `p` is a prefix of `s`.
pub open spec fn starts_with_seq(s: Seq<char>, p: Seq<char>) -> bool {
    p.len() <= s.len() && s.take(p.len() as int) == p
}

/// Prefix test.
pub fn starts_with_str(s: &str, p: &str) -> (r: bool)
    ensures
        r == starts_with_seq(s@, p@),
{
    let n = s.unicode_len();
    let m = p.unicode_len();
    if m > n {
        return false;
    }
    let mut i: usize = 0;
    while i < m
        invariant
            i <= m <= n,
            n == s@.len(),
            m == p@.len(),
            forall|j: int| 0 <= j < i ==> s@[j] == p@[j],
        decreases m - i,
    {
        if s.get_char(i) != p.get_char(i) {
            proof {
                assert(s@.take(p@.len() as int)[i as int] != p@[i as int]);
            }
            return false;
        }
        i = i + 1;
    }
    proof {
        assert(s@.take(p@.len() as int) =~= p@);
    }
    true
}

/// The sequence with every successive copy of the prefix `p` removed from
/// its front, as repeated prefix trimming leaves it.
pub open spec fn strip_all(s: Seq<char>, p: Seq<char>) -> Seq<char>
    decreases s.len(),
{
    if p.len() > 0 && starts_with_seq(s, p) {
        strip_all(s.skip(p.len() as int), p)
    } else {
        s
    }
}

/// Whether `p` occurs at offset `off` of `s`.
fn starts_at(s: &str, off: usize, p: &str) -> (r: bool)
    requires
        off <= s@.len(),
    ensures
        r == starts_with_seq(s@.skip(off as int), p@),
{
    let n = s.unicode_len();
    let m = p.unicode_len();
    if m > n - off {
        return false;
    }
    let mut i: usize = 0;
    while i < m
        invariant
            i <= m,
            off + m <= n,
            n == s@.len(),
            m == p@.len(),
            forall|j: int| 0 <= j < i ==> s@[off + j] == p@[j],
        decreases m - i,
    {
        if s.get_char(off + i) != p.get_char(i) {
            proof {
                assert(s@.skip(off as int).take(p@.len() as int)[i as int] != p@[i as int]);
            }
            return false;
        }
        i = i + 1;
    }
    proof {
        assert(s@.skip(off as int).take(p@.len() as int) =~= p@);
    }
    true
}

/// Removes every successive copy of the prefix `p` from the front of `s`.
pub fn strip_prefix_all(s: &str, p: &str) -> (r: String)
    ensures
        r@ == strip_all(s@, p@),
{
    let n = s.unicode_len();
    let m = p.unicode_len();
    if m == 0 {
        return s.to_owned();
    }
    let mut off: usize = 0;
    proof {
        assert(s@.skip(0) =~= s@);
    }
    while starts_at(s, off, p)
        invariant
            off <= n,
            n == s@.len(),
            m == p@.len(),
            m > 0,
            strip_all(s@, p@) == strip_all(s@.skip(off as int), p@),
        decreases n - off,
    {
        proof {
            assert(s@.skip(off as int).skip(m as int) =~= s@.skip(off + m));
        }
        off = off + m;
    }
    let r = s.substring_char(off, n).to_owned();
    proof {
        assert(s@.subrange(off as int, n as int) =~= s@.skip(off as int));
    }
    r
}

/// A line of the text, accumulated character by character: a newline ends
/// the line being collected (dropping one carriage return just before it);
/// a nonempty final line needs no newline.
pub open spec fn spec_lines_from(s: Seq<char>, cur: Seq<char>) -> Seq<Seq<char>>
    decreases s.len(),
{
    if s.len() == 0 {
        if cur.len() > 0 {
            seq![cur]
        } else {
            Seq::empty()
        }
    } else if s[0] == '\n' {
        seq![strip_cr_end(cur)] + spec_lines_from(s.drop_first(), Seq::empty())
    } else {
        spec_lines_from(s.drop_first(), cur.push(s[0]))
    }
}

/// A carriage return directly before the newline is not part of the line.
pub open spec fn strip_cr_end(l: Seq<char>) -> Seq<char> {
    if l.len() > 0 && l.last() == '\r' {
        l.drop_last()
    } else {
        l
    }
}

/// The lines of a text, as the standard line iterator yields them.
pub open spec fn spec_lines(s: Seq<char>) -> Seq<Seq<char>> {
    spec_lines_from(s, Seq::empty())
}

/// Splits a text into lines.
pub fn split_lines(s: &str) -> (r: Vec<String>)
    ensures
        r@.len() == spec_lines(s@).len(),
        forall|k: int| 0 <= k < r@.len() ==> r@[k]@ == spec_lines(s@)[k],
{
    let n = s.unicode_len();
    let mut out: Vec<String> = Vec::new();
    let mut start: usize = 0;
    let mut pos: usize = 0;
    proof {
        assert(s@.skip(0) =~= s@);
        assert(s@.subrange(0, 0) =~= Seq::<char>::empty());
        assert(Seq::new(out@.len() as nat, |k: int| out@[k]@) =~= Seq::<Seq<char>>::empty());
        assert(Seq::<Seq<char>>::empty() + spec_lines_from(s@, Seq::empty()) =~= spec_lines_from(
            s@,
            Seq::empty(),
        ));
    }
    while pos < n
        invariant
            start <= pos <= n,
            n == s@.len(),
            forall|j: int| start <= j < pos ==> s@[j] != '\n',
            spec_lines(s@) == Seq::new(out@.len() as nat, |k: int| out@[k]@) + spec_lines_from(
                s@.skip(pos as int),
                s@.subrange(start as int, pos as int),
            ),
        decreases n - pos,
    {
        let ghost pre = Seq::new(out@.len() as nat, |k: int| out@[k]@);
        let ghost cur = s@.subrange(start as int, pos as int);
        proof {
            assert(s@.skip(pos as int)[0] == s@[pos as int]);
            assert(s@.skip(pos as int).drop_first() =~= s@.skip(pos + 1));
        }
        if s.get_char(pos) == '\n' {
            let mut end = pos;
            if pos > start && s.get_char(pos - 1) == '\r' {
                end = pos - 1;
            }
            let line = s.substring_char(start, end).to_owned();
            proof {
                assert(s@.subrange(start as int, end as int) =~= strip_cr_end(cur));
            }
            out.push(line);
            proof {
                assert(Seq::new(out@.len() as nat, |k: int| out@[k]@) =~= pre + seq![
                    strip_cr_end(cur),
                ]);
                assert(pre + (seq![strip_cr_end(cur)] + spec_lines_from(
                    s@.skip(pos + 1),
                    Seq::empty(),
                )) =~= (pre + seq![strip_cr_end(cur)]) + spec_lines_from(
                    s@.skip(pos + 1),
                    Seq::empty(),
                ));
                assert(s@.subrange(pos + 1, pos + 1) =~= Seq::<char>::empty());
            }
            start = pos + 1;
        } else {
            proof {
                assert(cur.push(s@[pos as int]) =~= s@.subrange(start as int, pos + 1));
            }
        }
        pos = pos + 1;
    }
    if start < n {
        let line = s.substring_char(start, n).to_owned();
        proof {
            assert(s@.skip(n as int).len() == 0);
            assert(s@.subrange(start as int, n as int).len() > 0);
        }
        out.push(line);
        proof {
            assert(Seq::new(out@.len() as nat, |k: int| out@[k]@) =~= spec_lines(s@));
        }
    } else {
        proof {
            assert(s@.skip(n as int).len() == 0);
            assert(s@.subrange(start as int, n as int).len() == 0);
            assert(Seq::new(out@.len() as nat, |k: int| out@[k]@) =~= spec_lines(s@));
        }
    }
    let ghost models = Seq::new(out@.len() as nat, |k: int| out@[k]@);
    proof {
        assert(forall|k: int| 0 <= k < out@.len() ==> out@[k]@ == models[k]);
    }
    out
}

/// Whitespace-separated tokens, accumulated character by character: a
/// whitespace character ends the token being collected, and empty tokens
/// are never kept.
pub open spec fn split_ws_from(s: Seq<char>, cur: Seq<char>) -> Seq<Seq<char>>
    decreases s.len(),
{
    if s.len() == 0 {
        if cur.len() > 0 {
            seq![cur]
        } else {
            Seq::empty()
        }
    } else if is_space_char(s[0]) {
        (if cur.len() > 0 {
            seq![cur]
        } else {
            Seq::<Seq<char>>::empty()
        }) + split_ws_from(s.drop_first(), Seq::empty())
    } else {
        split_ws_from(s.drop_first(), cur.push(s[0]))
    }
}

/// The whitespace-separated tokens of a text.
pub open spec fn split_ws(s: Seq<char>) -> Seq<Seq<char>> {
    split_ws_from(s, Seq::empty())
}

/// Splits a text into its whitespace-separated tokens.
pub fn split_whitespace_tokens(s: &str) -> (r: Vec<String>)
    ensures
        r@.len() == split_ws(s@).len(),
        forall|k: int| 0 <= k < r@.len() ==> r@[k]@ == split_ws(s@)[k],
{
    let n = s.unicode_len();
    let mut out: Vec<String> = Vec::new();
    let mut start: usize = 0;
    let mut pos: usize = 0;
    proof {
        assert(s@.skip(0) =~= s@);
        assert(s@.subrange(0, 0) =~= Seq::<char>::empty());
        assert(Seq::new(out@.len() as nat, |k: int| out@[k]@) =~= Seq::<Seq<char>>::empty());
        assert(Seq::<Seq<char>>::empty() + split_ws_from(s@, Seq::empty()) =~= split_ws_from(
            s@,
            Seq::empty(),
        ));
    }
    while pos < n
        invariant
            start <= pos <= n,
            n == s@.len(),
            forall|j: int| start <= j < pos ==> !is_space_char(#[trigger] s@[j]),
            split_ws(s@) == Seq::new(out@.len() as nat, |k: int| out@[k]@) + split_ws_from(
                s@.skip(pos as int),
                s@.subrange(start as int, pos as int),
            ),
        decreases n - pos,
    {
        let ghost pre = Seq::new(out@.len() as nat, |k: int| out@[k]@);
        let ghost cur = s@.subrange(start as int, pos as int);
        proof {
            assert(s@.skip(pos as int)[0] == s@[pos as int]);
            assert(s@.skip(pos as int).drop_first() =~= s@.skip(pos + 1));
        }
        if is_space(s.get_char(pos)) {
            if pos > start {
                let tok = s.substring_char(start, pos).to_owned();
                out.push(tok);
                proof {
                    assert(Seq::new(out@.len() as nat, |k: int| out@[k]@) =~= pre + seq![cur]);
                    assert(pre + (seq![cur] + split_ws_from(s@.skip(pos + 1), Seq::empty())) =~= (
                    pre + seq![cur]) + split_ws_from(s@.skip(pos + 1), Seq::empty()));
                }
            } else {
                proof {
                    assert(Seq::<Seq<char>>::empty() + split_ws_from(
                        s@.skip(pos + 1),
                        Seq::empty(),
                    ) =~= split_ws_from(s@.skip(pos + 1), Seq::empty()));
                }
            }
            proof {
                assert(s@.subrange(pos + 1, pos + 1) =~= Seq::<char>::empty());
            }
            start = pos + 1;
        } else {
            proof {
                assert(cur.push(s@[pos as int]) =~= s@.subrange(start as int, pos + 1));
            }
        }
        pos = pos + 1;
    }
    if start < n {
        let tok = s.substring_char(start, n).to_owned();
        proof {
            assert(s@.skip(n as int).len() == 0);
            assert(s@.subrange(start as int, n as int).len() > 0);
        }
        out.push(tok);
        proof {
            assert(Seq::new(out@.len() as nat, |k: int| out@[k]@) =~= split_ws(s@));
        }
    } else {
        proof {
            assert(s@.skip(n as int).len() == 0);
            assert(s@.subrange(start as int, n as int).len() == 0);
            assert(Seq::new(out@.len() as nat, |k: int| out@[k]@) =~= split_ws(s@));
        }
    }
    let ghost models = Seq::new(out@.len() as nat, |k: int| out@[k]@);
    proof {
        assert(forall|k: int| 0 <= k < out@.len() ==> out@[k]@ == models[k]);
    }
    out
}

/// The sequence without its trailing colons, as repeated suffix trimming
/// leaves it.
pub open spec fn trim_end_colons(s: Seq<char>) -> Seq<char>
    decreases s.len(),
{
    if s.len() > 0 && s.last() == ':' {
        trim_end_colons(s.drop_last())
    } else {
        s
    }
}

proof fn lemma_trim_end_colons_take(s: Seq<char>, hi: int)
    requires
        0 <= hi <= s.len(),
        forall|j: int| hi <= j < s.len() ==> s[j] == ':',
        hi == 0 || s[hi - 1] != ':',
    ensures
        trim_end_colons(s) == s.take(hi),
    decreases s.len() - hi,
{
    if hi == s.len() {
        assert(s.take(hi) =~= s);
    } else {
        lemma_trim_end_colons_take(s.drop_last(), hi);
        assert(s.drop_last().take(hi) =~= s.take(hi));
    }
}

/// Removes all trailing colons.
pub fn trim_colons(s: &str) -> (r: String)
    ensures
        r@ == trim_end_colons(s@),
{
    let n = s.unicode_len();
    let mut hi: usize = n;
    while hi > 0 && s.get_char(hi - 1) == ':'
        invariant
            hi <= n,
            n == s@.len(),
            forall|j: int| hi <= j < n ==> s@[j] == ':',
        decreases hi,
    {
        hi = hi - 1;
    }
    let r = s.substring_char(0, hi).to_owned();
    proof {
        lemma_trim_end_colons_take(s@, hi as int);
        assert(s@.subrange(0, hi as int) =~= s@.take(hi as int));
    }
    r
}

/// What `str::to_lowercase` returns: the Unicode lowercase mapping of a
/// character sequence, which depends on the characters alone.
pub uninterp spec fn lower_of(s: Seq<char>) -> Seq<char>;

/// Relies on `str::to_lowercase`: the result is a function of the input
/// characters alone, and an empty input gives an empty result.
#[verifier::external_body]
pub fn lowercase(s: &str) -> (r: String)
    ensures
        r@ == lower_of(s@),
        s@.len() == 0 ==> r@.len() == 0,
{
    s.to_lowercase()
}

} // verus!
