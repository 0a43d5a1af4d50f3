//! Verified text utilities for the wire protocol: character search, prefix
//! tests, whitespace and null trimming, and decimal / dotted-quad formatting
//! and parsing.

use vstd::prelude::*;

verus! {

/// Character-for-character string equality. Verified directly so that the
/// library never leans on an unspecified `PartialEq` impl.
pub fn str_eq(a: &str, b: &str) -> (r: bool)
    ensures
        r == (a@ == b@),
{
    let la = a.unicode_len();
    let lb = b.unicode_len();
    if la != lb {
        assert(a@ != b@) by {
            assert(a@.len() != b@.len());
        }
        return false;
    }
    let mut i: usize = 0;
    while i < la
        invariant
            i <= la,
            la == a@.len(),
            la == b@.len(),
            forall|j: int| 0 <= j < i ==> a@[j] == b@[j],
        decreases la - i,
    {
        if a.get_char(i) != b.get_char(i) {
            return false;
        }
        i = i + 1;
    }
    proof {
        assert(a@ =~= b@);
    }
    true
}

/// The first occurrence of `c` in `s` at index `from` or later, if any.
pub open spec fn spec_find(s: Seq<char>, from: int, c: char) -> Option<int>
    decreases s.len() - from,
{
    if from < 0 || from >= s.len() {
        None
    } else if s[from] == c {
        Some(from)
    } else {
        spec_find(s, from + 1, c)
    }
}

/// What `spec_find` returns, spelled out: the found index carries `c`, and
/// nothing between `from` and it does; `None` means no occurrence from `from`
/// on.
pub proof fn lemma_find_characterizes(s: Seq<char>, from: int, c: char)
    requires
        0 <= from <= s.len(),
    ensures
        match spec_find(s, from, c) {
            Some(i) => from <= i < s.len() && s[i] == c && forall|j: int|
                from <= j < i ==> s[j] != c,
            None => forall|j: int| from <= j < s.len() ==> s[j] != c,
        },
    decreases s.len() - from,
{
    if from < s.len() && s[from] != c {
        lemma_find_characterizes(s, from + 1, c);
    }
}

/// Conversely, a position whose prefix is clean pins `spec_find` down.
pub proof fn lemma_find_is(s: Seq<char>, from: int, c: char, i: int)
    requires
        0 <= from <= i < s.len(),
        s[i] == c,
        forall|j: int| from <= j < i ==> s[j] != c,
    ensures
        spec_find(s, from, c) == Some(i),
{
    lemma_find_characterizes(s, from, c);
    match spec_find(s, from, c) {
        Some(k) => {
            if k < i {
                assert(s[k] != c);
            } else if k > i {
                assert(s[i] != c);
            }
        },
        None => {
            assert(s[i] == c);
        },
    }
}

/// Finds the first occurrence of `c` in `s` at character index `from` or
/// later.
pub fn find_char(s: &str, from: usize, c: char) -> (r: Option<usize>)
    requires
        from <= s@.len(),
    ensures
        match r {
            Some(i) => Some(i as int) == spec_find(s@, from as int, c),
            None => spec_find(s@, from as int, c) is None,
        },
{
    let len = s.unicode_len();
    let mut i: usize = from;
    while i < len
        invariant
            from <= i <= len,
            len == s@.len(),
            spec_find(s@, from as int, c) == spec_find(s@, i as int, c),
        decreases len - i,
    {
        if s.get_char(i) == c {
            return Some(i);
        }
        i = i + 1;
    }
    None
}

/// Whether `pat` occurs in `s` starting at index `from`.
pub open spec fn spec_has_at(s: Seq<char>, from: int, pat: Seq<char>) -> bool {
    &&& 0 <= from
    &&& from + pat.len() <= s.len()
    &&& s.subrange(from, from + pat.len()) == pat
}

/// Tests whether `pat` occurs in `s` starting at character index `from`.
pub fn has_at(s: &str, from: usize, pat: &str) -> (r: bool)
    ensures
        r == spec_has_at(s@, from as int, pat@),
{
    let slen = s.unicode_len();
    let plen = pat.unicode_len();
    if from > slen || plen > slen - from {
        assert(!spec_has_at(s@, from as int, pat@));
        return false;
    }
    let mut i: usize = 0;
    while i < plen
        invariant
            i <= plen,
            slen == s@.len(),
            plen == pat@.len(),
            from + plen <= slen,
            forall|j: int| 0 <= j < i ==> s@[from + j] == pat@[j],
        decreases plen - i,
    {
        if s.get_char(from + i) != pat.get_char(i) {
            assert(s@.subrange(from as int, from + pat@.len())[i as int] != pat@[i as int]);
            return false;
        }
        i = i + 1;
    }
    proof {
        assert(s@.subrange(from as int, from + pat@.len()) =~= pat@);
    }
    true
}

/// Whitespace as trimmed from the edges of a service name: the Unicode
/// white-space code points (the set `str::trim` removes).
pub open spec fn spec_is_ws(c: char) -> bool {
    let v = c as int;
    ||| 0x09 <= v <= 0x0D
    ||| v == 0x20
    ||| v == 0x85
    ||| v == 0xA0
    ||| v == 0x1680
    ||| 0x2000 <= v <= 0x200A
    ||| v == 0x2028
    ||| v == 0x2029
    ||| v == 0x202F
    ||| v == 0x205F
    ||| v == 0x3000
}

/// Tests whether `c` is whitespace.
pub fn is_ws(c: char) -> (r: bool)
    ensures
        r == spec_is_ws(c),
{
    let v = c as u32;
    (0x09 <= v && v <= 0x0D) || v == 0x20 || v == 0x85 || v == 0xA0 || v == 0x1680 || (0x2000
        <= v && v <= 0x200A) || v == 0x2028 || v == 0x2029 || v == 0x202F || v == 0x205F || v
        == 0x3000
}

/// `s` with leading whitespace removed.
pub open spec fn spec_trim_start(s: Seq<char>) -> Seq<char>
    decreases s.len(),
{
    if s.len() > 0 && spec_is_ws(s[0]) {
        spec_trim_start(s.subrange(1, s.len() as int))
    } else {
        s
    }
}

/// `s` with trailing whitespace removed.
pub open spec fn spec_trim_end(s: Seq<char>) -> Seq<char>
    decreases s.len(),
{
    if s.len() > 0 && spec_is_ws(s[s.len() - 1]) {
        spec_trim_end(s.subrange(0, s.len() - 1))
    } else {
        s
    }
}

/// `s` with whitespace removed from both edges.
pub open spec fn spec_trim(s: Seq<char>) -> Seq<char> {
    spec_trim_start(spec_trim_end(s))
}

/// Dropping leading whitespace one character at a time reaches the same
/// result as dropping it all at once.
proof fn lemma_trim_start_step(s: Seq<char>, k: int)
    requires
        0 <= k <= s.len(),
        forall|j: int| 0 <= j < k ==> spec_is_ws(s[j]),
    ensures
        spec_trim_start(s) == spec_trim_start(s.subrange(k, s.len() as int)),
    decreases k,
{
    if k > 0 {
        assert(spec_is_ws(s[0]));
        assert(spec_trim_start(s) == spec_trim_start(s.subrange(1, s.len() as int)));
        let t = s.subrange(1, s.len() as int);
        lemma_trim_start_step(t, k - 1);
        assert(t.subrange(k - 1, t.len() as int) =~= s.subrange(k, s.len() as int));
    } else {
        assert(s.subrange(0, s.len() as int) =~= s);
    }
}

/// Symmetrically, dropping trailing whitespace one character at a time
/// reaches the same result as dropping it all at once.
proof fn lemma_trim_end_step(s: Seq<char>, k: int)
    requires
        0 <= k <= s.len(),
        forall|j: int| k <= j < s.len() ==> spec_is_ws(s[j]),
    ensures
        spec_trim_end(s) == spec_trim_end(s.subrange(0, k)),
    decreases s.len() - k,
{
    if k < s.len() {
        assert(spec_is_ws(s[s.len() - 1]));
        assert(spec_trim_end(s) == spec_trim_end(s.subrange(0, s.len() - 1)));
        let t = s.subrange(0, s.len() - 1);
        lemma_trim_end_step(t, k);
        assert(t.subrange(0, k) =~= s.subrange(0, k));
    } else {
        assert(s.subrange(0, s.len() as int) =~= s);
    }
}

/// Copies `s` with whitespace removed from both edges.
pub fn trim(s: &str) -> (r: &str)
    ensures
        r@ == spec_trim(s@),
{
    let len = s.unicode_len();
    let mut lo: usize = 0;
    let mut hi: usize = len;
    proof {
        assert(s@.subrange(0, len as int) =~= s@);
    }
    // Shrink from the right past trailing whitespace.
    while hi > 0 && is_ws(s.get_char(hi - 1))
        invariant
            hi <= len,
            len == s@.len(),
            spec_trim_end(s@) == spec_trim_end(s@.subrange(0, hi as int)),
        decreases hi,
    {
        proof {
            let t = s@.subrange(0, hi as int);
            assert(t[t.len() - 1] == s@[hi - 1]);
            assert(spec_trim_end(t) == spec_trim_end(t.subrange(0, hi - 1)));
            assert(t.subrange(0, hi - 1) =~= s@.subrange(0, hi - 1));
        }
        hi = hi - 1;
    }
    proof {
        let t = s@.subrange(0, hi as int);
        if hi > 0 {
            assert(t[t.len() - 1] == s@[hi - 1]);
        }
        assert(spec_trim_end(t) == t);
        assert(spec_trim_end(s@) == t);
    }
    // Shrink from the left past leading whitespace.
    while lo < hi && is_ws(s.get_char(lo))
        invariant
            lo <= hi <= len,
            len == s@.len(),
            spec_trim_end(s@) == s@.subrange(0, hi as int),
            spec_trim_start(s@.subrange(0, hi as int)) == spec_trim_start(
                s@.subrange(lo as int, hi as int),
            ),
        decreases hi - lo,
    {
        proof {
            let t = s@.subrange(lo as int, hi as int);
            assert(t[0] == s@[lo as int]);
            assert(spec_trim_start(t) == spec_trim_start(t.subrange(1, t.len() as int)));
            assert(t.subrange(1, t.len() as int) =~= s@.subrange(lo + 1, hi as int));
        }
        lo = lo + 1;
    }
    proof {
        let t = s@.subrange(lo as int, hi as int);
        if lo < hi {
            assert(!spec_is_ws(t[0]));
            assert(spec_trim_start(t) == t);
        } else {
            assert(t =~= Seq::<char>::empty());
            assert(spec_trim_start(t) == t);
        }
        assert(spec_trim(s@) == t);
    }
    s.substring_char(lo, hi)
}

/// The character for decimal digit `d`.
pub open spec fn spec_digit(d: int) -> char {
    if d == 0 {
        '0'
    } else if d == 1 {
        '1'
    } else if d == 2 {
        '2'
    } else if d == 3 {
        '3'
    } else if d == 4 {
        '4'
    } else if d == 5 {
        '5'
    } else if d == 6 {
        '6'
    } else if d == 7 {
        '7'
    } else if d == 8 {
        '8'
    } else {
        '9'
    }
}

/// The canonical decimal numeral of `n` (no sign, no leading zero except for
/// zero itself).
pub open spec fn spec_dec(n: int) -> Seq<char>
    decreases n,
{
    if n < 10 {
        seq![spec_digit(n)]
    } else {
        spec_dec(n / 10).push(spec_digit(n % 10))
    }
}

/// The dotted-quad text of the IPv4 address `ip`.
pub open spec fn spec_ipv4(ip: u32) -> Seq<char> {
    spec_dec(ip as int / 0x1000000) + seq!['.'] + spec_dec((ip as int / 0x10000) % 256)
        + seq!['.'] + spec_dec((ip as int / 0x100) % 256) + seq!['.'] + spec_dec(ip as int % 256)
}

/// The one-character string for decimal digit `d`.
fn digit_str(d: u64) -> (r: &'static str)
    requires
        d < 10,
    ensures
        r@ == seq![spec_digit(d as int)],
{
    if d == 0 {
        proof {
            reveal_strlit("0");
            assert("0"@ =~= seq![spec_digit(0)]);
        }
        "0"
    } else if d == 1 {
        proof {
            reveal_strlit("1");
            assert("1"@ =~= seq![spec_digit(1)]);
        }
        "1"
    } else if d == 2 {
        proof {
            reveal_strlit("2");
            assert("2"@ =~= seq![spec_digit(2)]);
        }
        "2"
    } else if d == 3 {
        proof {
            reveal_strlit("3");
            assert("3"@ =~= seq![spec_digit(3)]);
        }
        "3"
    } else if d == 4 {
        proof {
            reveal_strlit("4");
            assert("4"@ =~= seq![spec_digit(4)]);
        }
        "4"
    } else if d == 5 {
        proof {
            reveal_strlit("5");
            assert("5"@ =~= seq![spec_digit(5)]);
        }
        "5"
    } else if d == 6 {
        proof {
            reveal_strlit("6");
            assert("6"@ =~= seq![spec_digit(6)]);
        }
        "6"
    } else if d == 7 {
        proof {
            reveal_strlit("7");
            assert("7"@ =~= seq![spec_digit(7)]);
        }
        "7"
    } else if d == 8 {
        proof {
            reveal_strlit("8");
            assert("8"@ =~= seq![spec_digit(8)]);
        }
        "8"
    } else {
        proof {
            reveal_strlit("9");
            assert("9"@ =~= seq![spec_digit(9)]);
        }
        "9"
    }
}

/// Renders `n` as its canonical decimal numeral.
pub fn dec_string(n: u64) -> (r: String)
    ensures
        r@ == spec_dec(n as int),
    decreases n,
{
    if n < 10 {
        String::from_str(digit_str(n))
    } else {
        let mut s = dec_string(n / 10);
        s.append(digit_str(n % 10));
        proof {
            assert(spec_dec((n / 10) as int).push(spec_digit((n % 10) as int)) =~= spec_dec(
                (n / 10) as int,
            ) + seq![spec_digit((n % 10) as int)]);
        }
        s
    }
}

/// Renders `ip` as dotted-quad text.
pub fn ipv4_string(ip: u32) -> (r: String)
    ensures
        r@ == spec_ipv4(ip),
{
    let a = ip / 0x100_0000;
    let b = (ip / 0x1_0000) % 256;
    let c = (ip / 0x100) % 256;
    let d = ip % 256;
    proof {
        reveal_strlit(".");
    }
    let mut s = dec_string(a as u64);
    s.append(".");
    s.append(dec_string(b as u64).as_str());
    s.append(".");
    s.append(dec_string(c as u64).as_str());
    s.append(".");
    s.append(dec_string(d as u64).as_str());
    proof {
        assert("."@ =~= seq!['.']);
        assert(s@ =~= spec_ipv4(ip));
    }
    s
}

/// Whether `c` is a decimal digit.
pub open spec fn spec_is_digit(c: char) -> bool {
    48 <= c as int <= 57
}

/// The numeric value of digit character `c`.
pub open spec fn spec_digit_val(c: char) -> int {
    c as int - 48
}

/// Whether `s` is one or more decimal digits.
pub open spec fn spec_all_digits(s: Seq<char>) -> bool {
    s.len() > 0 && forall|i: int| 0 <= i < s.len() ==> spec_is_digit(#[trigger] s[i])
}

/// The numeric value of the digit string `s`, most significant digit first.
pub open spec fn spec_dec_value(s: Seq<char>) -> int
    decreases s.len(),
{
    if s.len() == 0 {
        0
    } else {
        spec_dec_value(s.drop_last()) * 10 + spec_digit_val(s.last())
    }
}

/// What parsing a decimal port number yields: the value of an all-digit
/// string when it fits in 16 bits, nothing otherwise.
pub open spec fn spec_parse_u16(s: Seq<char>) -> Option<u16> {
    if spec_all_digits(s) && spec_dec_value(s) <= 0xFFFF {
        Some(spec_dec_value(s) as u16)
    } else {
        None
    }
}

/// Prefix values of a digit string are non-negative and never exceed the
/// whole string's value.
proof fn lemma_dec_value_mono(s: Seq<char>, i: int)
    requires
        0 <= i <= s.len(),
        forall|k: int| 0 <= k < s.len() ==> spec_is_digit(#[trigger] s[k]),
    ensures
        0 <= spec_dec_value(s.subrange(0, i)) <= spec_dec_value(s),
    decreases s.len() - i,
{
    if i == s.len() {
        assert(s.subrange(0, i) =~= s);
        lemma_dec_value_nonneg(s);
    } else {
        lemma_dec_value_mono(s, i + 1);
        let t = s.subrange(0, i + 1);
        assert(t.drop_last() =~= s.subrange(0, i));
        assert(spec_dec_value(t) == spec_dec_value(s.subrange(0, i)) * 10 + spec_digit_val(
            t.last(),
        ));
        lemma_dec_value_nonneg(s.subrange(0, i));
    }
}

/// A digit string's value is non-negative.
proof fn lemma_dec_value_nonneg(s: Seq<char>)
    requires
        forall|k: int| 0 <= k < s.len() ==> spec_is_digit(#[trigger] s[k]),
    ensures
        spec_dec_value(s) >= 0,
    decreases s.len(),
{
    if s.len() > 0 {
        lemma_dec_value_nonneg(s.drop_last());
    }
}

/// Parses the character range `[from, to)` of `s` as a decimal 16-bit
/// number.
pub fn parse_u16(s: &str, from: usize, to: usize) -> (r: Option<u16>)
    requires
        from <= to <= s@.len(),
    ensures
        r == spec_parse_u16(s@.subrange(from as int, to as int)),
{
    let ghost t = s@.subrange(from as int, to as int);
    if from == to {
        return None;
    }
    let mut acc: u32 = 0;
    let mut i: usize = from;
    while i < to
        invariant
            from <= i <= to <= s@.len(),
            t == s@.subrange(from as int, to as int),
            acc <= 0xFFFF,
            acc == spec_dec_value(t.subrange(0, i - from)),
            forall|k: int| 0 <= k < i - from ==> spec_is_digit(#[trigger] t[k]),
        decreases to - i,
    {
        let c = s.get_char(i);
        let v = c as u32;
        proof {
            assert(t[i - from] == s@[i as int]);
            assert(t.subrange(0, i - from + 1).drop_last() =~= t.subrange(0, i - from));
            assert(t.subrange(0, i - from + 1).last() == t[i - from]);
        }
        if v < 48 || v > 57 {
            assert(!spec_is_digit(t[i - from]));
            return None;
        }
        acc = acc * 10 + (v - 48);
        if acc > 0xFFFF {
            proof {
                assert(acc == spec_dec_value(t.subrange(0, i - from + 1)));
                if spec_all_digits(t) {
                    lemma_dec_value_mono(t, i - from + 1);
                    assert(spec_dec_value(t) > 0xFFFF);
                }
            }
            return None;
        }
        i = i + 1;
    }
    proof {
        assert(t.subrange(0, to - from) =~= t);
    }
    Some(acc as u16)
}

/// A canonical decimal numeral is all digits and reads back to the number it
/// renders.
pub proof fn lemma_dec_numeral_value(n: int)
    requires
        n >= 0,
    ensures
        spec_all_digits(spec_dec(n)),
        spec_dec_value(spec_dec(n)) == n,
    decreases n,
{
    if n < 10 {
        let s = spec_dec(n);
        assert(s.drop_last() =~= Seq::<char>::empty());
        assert(spec_dec_value(Seq::<char>::empty()) == 0);
    } else {
        lemma_dec_numeral_value(n / 10);
        let head = spec_dec(n / 10);
        let s = spec_dec(n);
        assert(s.drop_last() =~= head);
        assert(s.last() == spec_digit(n % 10));
        assert(spec_digit_val(spec_digit(n % 10)) == n % 10);
        vstd::arithmetic::div_mod::lemma_fundamental_div_mod(n, 10);
        assert(spec_dec_value(s) == (n / 10) * 10 + n % 10);
        assert forall|i: int| 0 <= i < s.len() implies spec_is_digit(#[trigger] s[i]) by {
            if i < s.len() - 1 {
                assert(s[i] == head[i]);
            }
        }
    }
}

/// Rendering a port number and parsing it back yields the same port: the
/// decimal writer and the decimal reader agree.
pub proof fn lemma_port_round_trip(n: u16)
    ensures
        spec_parse_u16(spec_dec(n as int)) == Some(n),
{
    lemma_dec_numeral_value(n as int);
}

/// What parsing one dotted-quad component yields: the value of an all-digit
/// string when it is at most 255, nothing otherwise.
pub open spec fn spec_octet(s: Seq<char>) -> Option<u32> {
    if spec_all_digits(s) && spec_dec_value(s) <= 255 {
        Some(spec_dec_value(s) as u32)
    } else {
        None
    }
}

/// What parsing a dotted-quad IPv4 address yields: exactly four components
/// separated by dots, each a decimal value at most 255.
pub open spec fn spec_parse_ipv4(s: Seq<char>) -> Option<u32> {
    match spec_find(s, 0, '.') {
        Some(d1) => match spec_find(s, d1 + 1, '.') {
            Some(d2) => match spec_find(s, d2 + 1, '.') {
                Some(d3) => {
                    if spec_find(s, d3 + 1, '.') is Some {
                        None
                    } else {
                        match (
                            spec_octet(s.subrange(0, d1)),
                            spec_octet(s.subrange(d1 + 1, d2)),
                            spec_octet(s.subrange(d2 + 1, d3)),
                            spec_octet(s.subrange(d3 + 1, s.len() as int)),
                        ) {
                            (Some(a), Some(b), Some(c), Some(d)) => Some(
                                (a as int * 0x1000000 + b as int * 0x10000 + c as int * 0x100
                                    + d as int) as u32,
                            ),
                            _ => None,
                        }
                    }
                },
                None => None,
            },
            None => None,
        },
        None => None,
    }
}

/// Rendering an address and parsing it back yields the same address: the
/// dotted-quad writer and the dotted-quad reader agree.
pub proof fn lemma_ipv4_round_trip(ip: u32)
    ensures
        spec_parse_ipv4(spec_ipv4(ip)) == Some(ip),
{
    let n = ip as int;
    let a = n / 0x1000000;
    let b = (n / 0x10000) % 256;
    let c = (n / 0x100) % 256;
    let d = n % 256;

    // The four components recompose to the address, and each fits a byte.
    vstd::arithmetic::div_mod::lemma_fundamental_div_mod(n, 0x100);
    vstd::arithmetic::div_mod::lemma_mod_bound(n, 0x100);
    let q1 = n / 0x100;
    vstd::arithmetic::div_mod::lemma_fundamental_div_mod(q1, 0x100);
    vstd::arithmetic::div_mod::lemma_mod_bound(q1, 0x100);
    vstd::arithmetic::div_mod::lemma_div_denominator(n, 0x100, 0x100);
    let q2 = n / 0x10000;
    assert(q2 == q1 / 0x100);
    vstd::arithmetic::div_mod::lemma_fundamental_div_mod(q2, 0x100);
    vstd::arithmetic::div_mod::lemma_mod_bound(q2, 0x100);
    vstd::arithmetic::div_mod::lemma_div_denominator(n, 0x10000, 0x100);
    assert(n / 0x1000000 == q2 / 0x100);
    assert(n == 0x1000000 * a + 0x10000 * b + 0x100 * c + d);
    vstd::arithmetic::div_mod::lemma_fundamental_div_mod(n, 0x1000000);
    vstd::arithmetic::div_mod::lemma_mod_bound(n, 0x1000000);
    assert(0 <= a <= 255);
    assert(0 <= b <= 255 && 0 <= c <= 255 && 0 <= d <= 255);

    let sa = spec_dec(a);
    let sb = spec_dec(b);
    let sc = spec_dec(c);
    let sd = spec_dec(d);
    lemma_dec_numeral_value(a);
    lemma_dec_numeral_value(b);
    lemma_dec_numeral_value(c);
    lemma_dec_numeral_value(d);

    let s = spec_ipv4(ip);
    let la = sa.len() as int;
    let lb = sb.len() as int;
    let lc = sc.len() as int;
    let d1 = la;
    let d2 = la + 1 + lb;
    let d3 = la + 1 + lb + 1 + lc;
    assert(s == sa + seq!['.'] + sb + seq!['.'] + sc + seq!['.'] + sd);

    // Where each character of the rendering comes from.
    assert(forall|j: int| 0 <= j < la ==> s[j] == sa[j]);
    assert(s[d1] == '.');
    assert(forall|j: int| d1 < j < d2 ==> s[j] == sb[j - d1 - 1]);
    assert(s[d2] == '.');
    assert(forall|j: int| d2 < j < d3 ==> s[j] == sc[j - d2 - 1]);
    assert(s[d3] == '.');
    assert(forall|j: int| d3 < j < s.len() ==> s[j] == sd[j - d3 - 1]);

    // A digit is never a dot, so the dots above are the only ones.
    assert(forall|j: int| 0 <= j < d1 ==> s[j] != '.');
    assert(forall|j: int| d1 < j < d2 ==> s[j] != '.');
    assert(forall|j: int| d2 < j < d3 ==> s[j] != '.');
    assert(forall|j: int| d3 < j < s.len() ==> s[j] != '.');
    lemma_find_is(s, 0, '.', d1);
    lemma_find_is(s, d1 + 1, '.', d2);
    lemma_find_is(s, d2 + 1, '.', d3);
    lemma_find_characterizes(s, d3 + 1, '.');
    assert(spec_find(s, d3 + 1, '.') is None);

    // The separators cut the rendering back into the four numerals.
    assert(s.subrange(0, d1) =~= sa);
    assert(s.subrange(d1 + 1, d2) =~= sb);
    assert(s.subrange(d2 + 1, d3) =~= sc);
    assert(s.subrange(d3 + 1, s.len() as int) =~= sd);
    assert(spec_octet(sa) == Some(a as u32));
    assert(spec_octet(sb) == Some(b as u32));
    assert(spec_octet(sc) == Some(c as u32));
    assert(spec_octet(sd) == Some(d as u32));
}

/// Every character of a dotted-quad rendering is a digit or a dot.
pub proof fn lemma_ipv4_chars(ip: u32)
    ensures
        forall|j: int|
            0 <= j < spec_ipv4(ip).len() ==> spec_is_digit(#[trigger] spec_ipv4(ip)[j])
                || spec_ipv4(ip)[j] == '.',
{
    let n = ip as int;
    vstd::arithmetic::div_mod::lemma_div_pos_is_pos(n, 0x1000000);
    vstd::arithmetic::div_mod::lemma_div_pos_is_pos(n, 0x10000);
    vstd::arithmetic::div_mod::lemma_div_pos_is_pos(n, 0x100);
    vstd::arithmetic::div_mod::lemma_mod_bound(n / 0x10000, 0x100);
    vstd::arithmetic::div_mod::lemma_mod_bound(n / 0x100, 0x100);
    vstd::arithmetic::div_mod::lemma_mod_bound(n, 0x100);
    let sa = spec_dec(n / 0x1000000);
    let sb = spec_dec((n / 0x10000) % 256);
    let sc = spec_dec((n / 0x100) % 256);
    let sd = spec_dec(n % 256);
    lemma_dec_numeral_value(n / 0x1000000);
    lemma_dec_numeral_value((n / 0x10000) % 256);
    lemma_dec_numeral_value((n / 0x100) % 256);
    lemma_dec_numeral_value(n % 256);
    let s = spec_ipv4(ip);
    let la = sa.len() as int;
    let lb = sb.len() as int;
    let lc = sc.len() as int;
    assert forall|j: int|
        0 <= j < s.len() implies spec_is_digit(#[trigger] s[j]) || s[j] == '.' by {
        if j < la {
            assert(s[j] == sa[j]);
        } else if j == la {
            assert(s[j] == '.');
        } else if j < la + 1 + lb {
            assert(s[j] == sb[j - la - 1]);
        } else if j == la + 1 + lb {
            assert(s[j] == '.');
        } else if j < la + 1 + lb + 1 + lc {
            assert(s[j] == sc[j - la - 1 - lb - 1]);
        } else if j == la + 1 + lb + 1 + lc {
            assert(s[j] == '.');
        } else {
            assert(s[j] == sd[j - la - 1 - lb - 1 - lc - 1]);
        }
    }
}

/// Parses the character range `[from, to)` of `s` as one dotted-quad
/// component.
fn parse_octet(s: &str, from: usize, to: usize) -> (r: Option<u32>)
    requires
        from <= to <= s@.len(),
    ensures
        r == spec_octet(s@.subrange(from as int, to as int)),
{
    match parse_u16(s, from, to) {
        Some(v) => {
            proof {
                let t = s@.subrange(from as int, to as int);
                assert(spec_all_digits(t));
                lemma_dec_value_nonneg(t);
            }
            if v <= 255 {
                Some(v as u32)
            } else {
                None
            }
        },
        None => None,
    }
}

/// Parses `s` as a dotted-quad IPv4 address.
pub fn parse_ipv4(s: &str) -> (r: Option<u32>)
    ensures
        r == spec_parse_ipv4(s@),
{
    let len = s.unicode_len();
    let d1 = match find_char(s, 0, '.') {
        Some(i) => i,
        None => {
            return None;
        },
    };
    proof {
        lemma_find_characterizes(s@, 0, '.');
    }
    let d2 = match find_char(s, d1 + 1, '.') {
        Some(i) => i,
        None => {
            return None;
        },
    };
    proof {
        lemma_find_characterizes(s@, d1 + 1, '.');
    }
    let d3 = match find_char(s, d2 + 1, '.') {
        Some(i) => i,
        None => {
            return None;
        },
    };
    proof {
        lemma_find_characterizes(s@, d2 + 1, '.');
    }
    if find_char(s, d3 + 1, '.').is_some() {
        return None;
    }
    let a = match parse_octet(s, 0, d1) {
        Some(v) => v,
        None => {
            return None;
        },
    };
    let b = match parse_octet(s, d1 + 1, d2) {
        Some(v) => v,
        None => {
            return None;
        },
    };
    let c = match parse_octet(s, d2 + 1, d3) {
        Some(v) => v,
        None => {
            return None;
        },
    };
    let d = match parse_octet(s, d3 + 1, len) {
        Some(v) => v,
        None => {
            return None;
        },
    };
    proof {
        lemma_dec_value_nonneg(s@.subrange(0, d1 as int));
        lemma_dec_value_nonneg(s@.subrange(d1 as int + 1, d2 as int));
        lemma_dec_value_nonneg(s@.subrange(d2 as int + 1, d3 as int));
        lemma_dec_value_nonneg(s@.subrange(d3 as int + 1, s@.len() as int));
        assert(a <= 255 && b <= 255 && c <= 255 && d <= 255);
    }
    Some(a * 0x100_0000 + b * 0x1_0000 + c * 0x100 + d)
}

/// `s` with trailing null characters removed, as the fixed-size request frame
/// is unpadded.
pub open spec fn spec_trim_nulls(s: Seq<char>) -> Seq<char>
    decreases s.len(),
{
    if s.len() > 0 && s[s.len() - 1] == '\0' {
        spec_trim_nulls(s.subrange(0, s.len() - 1))
    } else {
        s
    }
}

/// Copies `s` with trailing null characters removed.
pub fn trim_nulls(s: &str) -> (r: &str)
    ensures
        r@ == spec_trim_nulls(s@),
{
    let len = s.unicode_len();
    let mut hi: usize = len;
    proof {
        assert(s@.subrange(0, len as int) =~= s@);
    }
    while hi > 0 && s.get_char(hi - 1) == '\0'
        invariant
            hi <= len,
            len == s@.len(),
            spec_trim_nulls(s@) == spec_trim_nulls(s@.subrange(0, hi as int)),
        decreases hi,
    {
        proof {
            let t = s@.subrange(0, hi as int);
            assert(t[t.len() - 1] == s@[hi - 1]);
            assert(spec_trim_nulls(t) == spec_trim_nulls(t.subrange(0, hi - 1)));
            assert(t.subrange(0, hi - 1) =~= s@.subrange(0, hi - 1));
        }
        hi = hi - 1;
    }
    proof {
        let t = s@.subrange(0, hi as int);
        if hi > 0 {
            assert(t[t.len() - 1] == s@[hi - 1]);
        }
        assert(spec_trim_nulls(t) == t);
        assert(spec_trim_nulls(s@) == t);
    }
    s.substring_char(0, hi)
}

} // verus!
