//! Decimal text for ports and dotted-quad text for addresses.
//!
//! The wire protocol carries transport endpoints as `"a.b.c.d:port"`
//! strings. Formatting and parsing are verified against a common
//! mathematical description, so that parsing inverts formatting.

use vstd::prelude::*;
use vstd::string::StrSliceExecFns;
use vstd::string::StringExecFns;

use crate::Addr;

verus! {

/// The digit character for a value below ten.
pub open spec fn digit_char(d: nat) -> char {
    if d == 0 {
        '0'
    } else if d == 1 {
        '1'
    } else if d == 2 {
        '2'
    } else if d == 3 {
        '3'
    } else if d == 4 {
        '4'
    } else if d == 5 {
        '5'
    } else if d == 6 {
        '6'
    } else if d == 7 {
        '7'
    } else if d == 8 {
        '8'
    } else {
        '9'
    }
}

/// The value of a digit character, or ten for any other character.
pub open spec fn digit_val(c: char) -> nat {
    if c == '0' {
        0
    } else if c == '1' {
        1
    } else if c == '2' {
        2
    } else if c == '3' {
        3
    } else if c == '4' {
        4
    } else if c == '5' {
        5
    } else if c == '6' {
        6
    } else if c == '7' {
        7
    } else if c == '8' {
        8
    } else if c == '9' {
        9
    } else {
        10
    }
}

pub open spec fn is_digit(c: char) -> bool {
    digit_val(c) < 10
}

/// The decimal text of a number, most significant digit first,
/// without leading zeros.
pub open spec fn dec_text(n: nat) -> Seq<char>
    decreases n,
{
    if n < 10 {
        seq![digit_char(n)]
    } else {
        dec_text(n / 10).push(digit_char(n % 10))
    }
}

/// The number read from a digit string, most significant digit first.
pub open spec fn dec_val(s: Seq<char>) -> nat
    decreases s.len(),
{
    if s.len() == 0 {
        0
    } else {
        dec_val(s.drop_last()) * 10 + digit_val(s.last())
    }
}

pub open spec fn all_digits(s: Seq<char>) -> bool {
    forall|i: int| 0 <= i < s.len() ==> is_digit(#[trigger] s[i])
}

/// A digit string that some number formats to: non-empty, digits only,
/// and no leading zero unless the string is exactly "0".
pub open spec fn is_canonical_dec(s: Seq<char>) -> bool {
    &&& s.len() > 0
    &&& all_digits(s)
    &&& (s.len() == 1 || s[0] != '0')
}

pub proof fn lemma_dec_text_digits(n: nat)
    ensures
        all_digits(dec_text(n)),
        dec_text(n).len() > 0,
        dec_text(n)[0] != '0' || n < 10,
        n < 10 ==> dec_text(n) == seq![digit_char(n)],
    decreases n,
{
    if n >= 10 {
        lemma_dec_text_digits(n / 10);
        assert forall|i: int| 0 <= i < dec_text(n).len() implies is_digit(#[trigger] dec_text(n)[i]) by {
            if i < dec_text(n / 10).len() {
                assert(dec_text(n)[i] == dec_text(n / 10)[i]);
            }
        }
    }
}

pub proof fn lemma_dec_text_canonical(n: nat)
    ensures
        is_canonical_dec(dec_text(n)),
        dec_val(dec_text(n)) == n,
    decreases n,
{
    lemma_dec_text_digits(n);
    if n < 10 {
        let s = dec_text(n);
        assert(s == seq![digit_char(n)]);
        assert(s.last() == digit_char(n));
        assert(s.drop_last() =~= Seq::<char>::empty());
        assert(dec_val(s.drop_last()) == 0);
        assert(digit_val(digit_char(n)) == n);
    } else {
        lemma_dec_text_canonical(n / 10);
        let s = dec_text(n);
        assert(s == dec_text(n / 10).push(digit_char(n % 10)));
        assert(s.drop_last() =~= dec_text(n / 10));
        assert(s.last() == digit_char(n % 10));
        assert(digit_val(digit_char(n % 10)) == n % 10);
        assert(dec_val(s) == dec_val(dec_text(n / 10)) * 10 + n % 10);
        if n / 10 >= 10 {
            assert(s[0] == dec_text(n / 10)[0]);
        }
    }
}

/// Ten to the `k`.
pub open spec fn pow10(k: nat) -> nat
    decreases k,
{
    if k == 0 {
        1
    } else {
        10 * pow10((k - 1) as nat)
    }
}

/// A canonical digit string of length `k` denotes at least `10^(k-1)`,
/// so five digits are enough for every port number.
pub proof fn lemma_dec_val_length_bound(s: Seq<char>)
    requires
        is_canonical_dec(s),
        s.len() >= 6,
    ensures
        dec_val(s) > 65535,
    decreases s.len(),
{
    assert(s.drop_last().len() == s.len() - 1);
    assert(all_digits(s.drop_last())) by {
        assert forall|i: int| 0 <= i < s.drop_last().len() implies is_digit(
            #[trigger] s.drop_last()[i],
        ) by {
            assert(s.drop_last()[i] == s[i]);
        }
    }
    assert(s.drop_last()[0] == s[0]);
    if s.len() == 6 {
        lemma_dec_val_min_by_len(s.drop_last());
        assert(pow10(5) == 100000) by {
            assert(pow10(0) == 1);
            assert(pow10(1) == 10);
            assert(pow10(2) == 100);
            assert(pow10(3) == 1000);
            assert(pow10(4) == 10000);
        }
    } else {
        lemma_dec_val_length_bound(s.drop_last());
    }
}

/// A digit string of length `k` without a leading zero denotes
/// at least `10^(k-1)`.
proof fn lemma_dec_val_min_by_len(s: Seq<char>)
    requires
        s.len() > 0,
        all_digits(s),
        s[0] != '0',
    ensures
        dec_val(s) >= pow10((s.len() - 1) as nat),
    decreases s.len(),
{
    if s.len() == 1 {
        assert(is_digit(s[0]));
        assert(digit_val(s[0]) >= 1);
        assert(s.drop_last() =~= Seq::<char>::empty());
        assert(s.last() == s[0]);
    } else {
        let front = s.drop_last();
        assert(all_digits(front)) by {
            assert forall|i: int| 0 <= i < front.len() implies is_digit(#[trigger] front[i]) by {
                assert(front[i] == s[i]);
            }
        }
        assert(front[0] == s[0]);
        lemma_dec_val_min_by_len(front);
        let q = pow10((front.len() - 1) as nat);
        assert(pow10((s.len() - 1) as nat) == 10 * q);
        assert(dec_val(s) == dec_val(front) * 10 + digit_val(s.last()));
        assert(dec_val(front) * 10 >= q * 10) by (nonlinear_arith)
            requires
                dec_val(front) >= q,
        ;
    }
}

/// Splits a character sequence at the first occurrence of `c`,
/// which is consumed.
pub open spec fn split_once_at(s: Seq<char>, c: char) -> Option<(Seq<char>, Seq<char>)>
    decreases s.len(),
{
    if s.len() == 0 {
        None
    } else if s[0] == c {
        Some((Seq::<char>::empty(), s.drop_first()))
    } else {
        match split_once_at(s.drop_first(), c) {
            None => None,
            Some((a, b)) => Some((seq![s[0]] + a, b)),
        }
    }
}

pub proof fn lemma_split_once_found(s: Seq<char>, c: char, i: int)
    requires
        0 <= i < s.len(),
        s[i] == c,
        forall|j: int| 0 <= j < i ==> s[j] != c,
    ensures
        split_once_at(s, c) == Some((s.subrange(0, i), s.subrange(i + 1, s.len() as int))),
    decreases s.len(),
{
    if i == 0 {
        assert(s.subrange(0, 0) =~= Seq::<char>::empty());
        assert(s.subrange(1, s.len() as int) =~= s.drop_first());
    } else {
        let t = s.drop_first();
        assert(t[i - 1] == c);
        assert forall|j: int| 0 <= j < i - 1 implies t[j] != c by {
            assert(t[j] == s[j + 1]);
        }
        lemma_split_once_found(t, c, i - 1);
        assert(seq![s[0]] + t.subrange(0, i - 1) =~= s.subrange(0, i));
        assert(t.subrange(i, t.len() as int) =~= s.subrange(i + 1, s.len() as int));
    }
}

pub proof fn lemma_split_once_missing(s: Seq<char>, c: char)
    requires
        forall|j: int| 0 <= j < s.len() ==> s[j] != c,
    ensures
        split_once_at(s, c) is None,
    decreases s.len(),
{
    if s.len() > 0 {
        let t = s.drop_first();
        assert forall|j: int| 0 <= j < t.len() implies t[j] != c by {
            assert(t[j] == s[j + 1]);
        }
        lemma_split_once_missing(t, c);
    }
}

/// The first octet of an address, reading big-endian.
pub open spec fn octet1(ip: u32) -> nat {
    (ip as nat / 16777216) % 256
}

pub open spec fn octet2(ip: u32) -> nat {
    (ip as nat / 65536) % 256
}

pub open spec fn octet3(ip: u32) -> nat {
    (ip as nat / 256) % 256
}

pub open spec fn octet4(ip: u32) -> nat {
    ip as nat % 256
}

/// The text form `"a.b.c.d:port"` of an endpoint.
pub open spec fn addr_text(a: Addr) -> Seq<char> {
    dec_text(octet1(a.ip)) + seq!['.'] + dec_text(octet2(a.ip)) + seq!['.'] + dec_text(
        octet3(a.ip),
    ) + seq!['.'] + dec_text(octet4(a.ip)) + seq![':'] + dec_text(a.port as nat)
}

/// The endpoint a text denotes: four dot-separated octets, a colon and
/// a port, each a canonical decimal within range.
pub open spec fn addr_of_text(s: Seq<char>) -> Option<Addr> {
    match split_once_at(s, '.') {
        None => None,
        Some((s1, r1)) => match split_once_at(r1, '.') {
            None => None,
            Some((s2, r2)) => match split_once_at(r2, '.') {
                None => None,
                Some((s3, r3)) => match split_once_at(r3, ':') {
                    None => None,
                    Some((s4, sp)) => {
                        if is_canonical_dec(s1) && is_canonical_dec(s2) && is_canonical_dec(s3)
                            && is_canonical_dec(s4) && is_canonical_dec(sp) && dec_val(s1) <= 255
                            && dec_val(s2) <= 255 && dec_val(s3) <= 255 && dec_val(s4) <= 255
                            && dec_val(sp) <= 65535 {
                            Some(
                                Addr {
                                    ip: (dec_val(s1) * 16777216 + dec_val(s2) * 65536 + dec_val(s3)
                                        * 256 + dec_val(s4)) as u32,
                                    port: dec_val(sp) as u16,
                                },
                            )
                        } else {
                            None
                        }
                    },
                },
            },
        },
    }
}

/// Splitting a formatted piece back off: the piece holds no separator.
proof fn lemma_split_after_digits(piece: Seq<char>, c: char, rest: Seq<char>)
    requires
        all_digits(piece),
        piece.len() > 0,
        !is_digit(c),
    ensures
        split_once_at(piece + seq![c] + rest, c) == Some((piece, rest)),
{
    let s = piece + seq![c] + rest;
    let i = piece.len() as int;
    assert(s[i] == c);
    assert forall|j: int| 0 <= j < i implies s[j] != c by {
        assert(s[j] == piece[j]);
        assert(is_digit(piece[j]));
    }
    lemma_split_once_found(s, c, i);
    assert(s.subrange(0, i) =~= piece);
    assert(s.subrange(i + 1, s.len() as int) =~= rest);
}

/// Parsing inverts formatting: the text of an endpoint denotes it.
pub proof fn lemma_addr_text_round_trip(a: Addr)
    ensures
        addr_of_text(addr_text(a)) == Some(a),
{
    let o1 = octet1(a.ip);
    let o2 = octet2(a.ip);
    let o3 = octet3(a.ip);
    let o4 = octet4(a.ip);
    let p = a.port as nat;
    lemma_dec_text_canonical(o1);
    lemma_dec_text_canonical(o2);
    lemma_dec_text_canonical(o3);
    lemma_dec_text_canonical(o4);
    lemma_dec_text_canonical(p);
    lemma_dec_text_digits(o1);
    lemma_dec_text_digits(o2);
    lemma_dec_text_digits(o3);
    lemma_dec_text_digits(o4);
    lemma_dec_text_digits(p);
    let r1 = dec_text(o2) + seq!['.'] + dec_text(o3) + seq!['.'] + dec_text(o4) + seq![':']
        + dec_text(p);
    let r2 = dec_text(o3) + seq!['.'] + dec_text(o4) + seq![':'] + dec_text(p);
    let r3 = dec_text(o4) + seq![':'] + dec_text(p);
    assert(addr_text(a) =~= dec_text(o1) + seq!['.'] + r1);
    lemma_split_after_digits(dec_text(o1), '.', r1);
    assert(r1 =~= dec_text(o2) + seq!['.'] + r2);
    lemma_split_after_digits(dec_text(o2), '.', r2);
    assert(r2 =~= dec_text(o3) + seq!['.'] + r3);
    lemma_split_after_digits(dec_text(o3), '.', r3);
    assert(r3 =~= dec_text(o4) + seq![':'] + dec_text(p));
    lemma_split_after_digits(dec_text(o4), ':', dec_text(p));
    assert(o1 * 16777216 + o2 * 65536 + o3 * 256 + o4 == a.ip as nat) by {
        lemma_octets_recompose(a.ip);
    }
}

proof fn lemma_octets_recompose(ip: u32)
    ensures
        octet1(ip) * 16777216 + octet2(ip) * 65536 + octet3(ip) * 256 + octet4(ip) == ip as nat,
{
    let n = ip as nat;
    assert((n / 16777216) % 256 == n / 16777216) by (nonlinear_arith)
        requires
            n < 4294967296,
    ;
    assert((n / 16777216) * 16777216 + (n / 65536) % 256 * 65536 + (n / 256) % 256 * 256 + n % 256
        == n) by (nonlinear_arith)
        requires
            n < 4294967296,
    ;
}

/// The digit text for one value below ten.
fn digit_str(d: u32) -> (r: &'static str)
    requires
        d < 10,
    ensures
        r@ == seq![digit_char(d as nat)],
{
    proof {
        reveal_strlit("0");
        reveal_strlit("1");
        reveal_strlit("2");
        reveal_strlit("3");
        reveal_strlit("4");
        reveal_strlit("5");
        reveal_strlit("6");
        reveal_strlit("7");
        reveal_strlit("8");
        reveal_strlit("9");
    }
    match d {
        0 => "0",
        1 => "1",
        2 => "2",
        3 => "3",
        4 => "4",
        5 => "5",
        6 => "6",
        7 => "7",
        8 => "8",
        _ => "9",
    }
}

/// Formats a number in decimal.
pub fn dec_string(n: u64) -> (r: String)
    ensures
        r@ == dec_text(n as nat),
    decreases n,
{
    if n < 10 {
        digit_str((n % 10) as u32).to_owned()
    } else {
        let mut s = dec_string(n / 10);
        s.append(digit_str((n % 10) as u32));
        assert(s@ =~= dec_text(n as nat));
        s
    }
}

/// Formats an endpoint as `"a.b.c.d:port"`.
pub fn addr_to_string(a: &Addr) -> (r: String)
    ensures
        r@ == addr_text(*a),
{
    let o1 = a.ip / 16777216;
    let o2 = (a.ip / 65536) % 256;
    let o3 = (a.ip / 256) % 256;
    let o4 = a.ip % 256;
    proof {
        let n = a.ip as nat;
        assert((n / 16777216) % 256 == n / 16777216) by (nonlinear_arith)
            requires
                n < 4294967296,
        ;
    }
    let mut s = dec_string(o1 as u64);
    s.append(".");
    let t2 = dec_string(o2 as u64);
    s.append(t2.as_str());
    s.append(".");
    let t3 = dec_string(o3 as u64);
    s.append(t3.as_str());
    s.append(".");
    let t4 = dec_string(o4 as u64);
    s.append(t4.as_str());
    s.append(":");
    let tp = dec_string(a.port as u64);
    s.append(tp.as_str());
    proof {
        reveal_strlit(".");
        reveal_strlit(":");
        assert(s@ =~= addr_text(*a));
    }
    s
}

/// Splits a string at the first occurrence of `c`, which is dropped.
fn split_once_str<'a>(s: &'a str, c: char) -> (r: Option<(&'a str, &'a str)>)
    ensures
        match r {
            Some((x, y)) => split_once_at(s@, c) == Some((x@, y@)),
            None => split_once_at(s@, c) is None,
        },
{
    let n = s.unicode_len();
    let mut i: usize = 0;
    while i < n
        invariant
            n == s@.len(),
            0 <= i <= n,
            forall|j: int| 0 <= j < i ==> s@[j] != c,
        decreases n - i,
    {
        if s.get_char(i) == c {
            let x = s.substring_char(0, i);
            let y = s.substring_char(i + 1, n);
            proof {
                lemma_split_once_found(s@, c, i as int);
            }
            return Some((x, y));
        }
        i = i + 1;
    }
    proof {
        lemma_split_once_missing(s@, c);
    }
    None
}

/// The value of one digit character, or ten for any other character.
fn digit_of_char(c: char) -> (r: u32)
    ensures
        r as nat == digit_val(c),
{
    if c == '0' {
        0
    } else if c == '1' {
        1
    } else if c == '2' {
        2
    } else if c == '3' {
        3
    } else if c == '4' {
        4
    } else if c == '5' {
        5
    } else if c == '6' {
        6
    } else if c == '7' {
        7
    } else if c == '8' {
        8
    } else if c == '9' {
        9
    } else {
        10
    }
}

/// Reads a canonical decimal of at most five digits.
fn parse_dec(s: &str) -> (r: Option<u32>)
    ensures
        match r {
            Some(v) => is_canonical_dec(s@) && v as nat == dec_val(s@) && v <= 99999,
            None => !(is_canonical_dec(s@) && dec_val(s@) <= 65535),
        },
{
    let n = s.unicode_len();
    if n == 0 || n > 5 {
        if n > 5 {
            proof {
                if is_canonical_dec(s@) {
                    lemma_dec_val_length_bound(s@);
                }
            }
        }
        return None;
    }
    if n > 1 && s.get_char(0) == '0' {
        return None;
    }
    let mut v: u32 = 0;
    let mut i: usize = 0;
    while i < n
        invariant
            n == s@.len(),
            0 < n <= 5,
            0 <= i <= n,
            v as nat == dec_val(s@.subrange(0, i as int)),
            v <= 99999,
            forall|j: int| 0 <= j < i ==> is_digit(#[trigger] s@[j]),
        decreases n - i,
    {
        let d = digit_of_char(s.get_char(i));
        if d >= 10 {
            return None;
        }
        proof {
            assert(s@.subrange(0, i + 1).drop_last() =~= s@.subrange(0, i as int));
            vstd::arithmetic::div_mod::lemma_div_pos_is_pos(0, 1);
        }
        assert(dec_val(s@.subrange(0, i as int)) < 10000) by {
            if i >= 1 {
                lemma_dec_val_small(s@.subrange(0, i as int));
            }
        }
        v = v * 10 + d;
        i = i + 1;
    }
    proof {
        assert(s@.subrange(0, n as int) =~= s@);
    }
    Some(v)
}

/// A digit string of length at most four denotes less than ten thousand.
proof fn lemma_dec_val_small(s: Seq<char>)
    requires
        all_digits(s),
        s.len() <= 4,
    ensures
        dec_val(s) < 10000,
    decreases s.len(),
{
    if s.len() > 0 {
        assert(all_digits(s.drop_last())) by {
            assert forall|i: int| 0 <= i < s.drop_last().len() implies is_digit(
                #[trigger] s.drop_last()[i],
            ) by {
                assert(s.drop_last()[i] == s[i]);
            }
        }
        lemma_dec_val_small_aux(s.drop_last());
        assert(digit_val(s.last()) <= 9);
    }
}

proof fn lemma_dec_val_small_aux(s: Seq<char>)
    requires
        all_digits(s),
        s.len() <= 3,
    ensures
        dec_val(s) <= 999,
    decreases s.len(),
{
    if s.len() > 0 {
        assert(all_digits(s.drop_last())) by {
            assert forall|i: int| 0 <= i < s.drop_last().len() implies is_digit(
                #[trigger] s.drop_last()[i],
            ) by {
                assert(s.drop_last()[i] == s[i]);
            }
        }
        lemma_dec_val_small_aux2(s.drop_last());
        assert(digit_val(s.last()) <= 9);
    }
}

proof fn lemma_dec_val_small_aux2(s: Seq<char>)
    requires
        all_digits(s),
        s.len() <= 2,
    ensures
        dec_val(s) <= 99,
    decreases s.len(),
{
    if s.len() > 0 {
        let f = s.drop_last();
        assert(all_digits(f)) by {
            assert forall|i: int| 0 <= i < f.len() implies is_digit(#[trigger] f[i]) by {
                assert(f[i] == s[i]);
            }
        }
        if f.len() > 0 {
            assert(f.drop_last() =~= Seq::<char>::empty());
            assert(dec_val(f.drop_last()) == 0);
            assert(f.last() == f[0]);
            assert(is_digit(f[0]));
            assert(digit_val(f.last()) <= 9);
            assert(dec_val(f) == dec_val(f.drop_last()) * 10 + digit_val(f.last()));
        }
        if f.len() == 0 {
            assert(dec_val(f) == 0);
        }
        assert(is_digit(s.last())) by {
            assert(s.last() == s[s.len() - 1]);
        }
        assert(digit_val(s.last()) <= 9);
        assert(dec_val(s) == dec_val(f) * 10 + digit_val(s.last()));
    }
}

/// Reads an endpoint from `"a.b.c.d:port"` text.
pub fn parse_addr(s: &str) -> (r: Option<Addr>)
    ensures
        r == addr_of_text(s@),
{
    let p1 = split_once_str(s, '.');
    match p1 {
        None => None,
        Some((s1, r1)) => {
            let p2 = split_once_str(r1, '.');
            match p2 {
                None => None,
                Some((s2, r2)) => {
                    let p3 = split_once_str(r2, '.');
                    match p3 {
                        None => None,
                        Some((s3, r3)) => {
                            let p4 = split_once_str(r3, ':');
                            match p4 {
                                None => None,
                                Some((s4, sp)) => parse_addr_parts(s1, s2, s3, s4, sp),
                            }
                        },
                    }
                },
            }
        },
    }
}

/// Checks ranges and assembles the endpoint from its five fields.
fn parse_addr_parts(s1: &str, s2: &str, s3: &str, s4: &str, sp: &str) -> (r: Option<Addr>)
    ensures
        r == (if is_canonical_dec(s1@) && is_canonical_dec(s2@) && is_canonical_dec(s3@)
            && is_canonical_dec(s4@) && is_canonical_dec(sp@) && dec_val(s1@) <= 255 && dec_val(s2@)
            <= 255 && dec_val(s3@) <= 255 && dec_val(s4@) <= 255 && dec_val(sp@) <= 65535 {
            Some(
                Addr {
                    ip: (dec_val(s1@) * 16777216 + dec_val(s2@) * 65536 + dec_val(s3@) * 256
                        + dec_val(s4@)) as u32,
                    port: dec_val(sp@) as u16,
                },
            )
        } else {
            None
        }),
{
    let v1 = parse_dec(s1);
    let v2 = parse_dec(s2);
    let v3 = parse_dec(s3);
    let v4 = parse_dec(s4);
    let vp = parse_dec(sp);
    match (v1, v2, v3, v4, vp) {
        (Some(o1), Some(o2), Some(o3), Some(o4), Some(p)) => {
            if o1 <= 255 && o2 <= 255 && o3 <= 255 && o4 <= 255 && p <= 65535 {
                Some(Addr { ip: o1 * 16777216 + o2 * 65536 + o3 * 256 + o4, port: p as u16 })
            } else {
                None
            }
        },
        _ => None,
    }
}

} // verus!
