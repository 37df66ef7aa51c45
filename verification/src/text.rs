//! Text helpers: decimal and hexadecimal rendering and parsing, and string comparison.

use vstd::prelude::*;
use vstd::utf8::is_ascii_chars;

verus! {

/// `String::push` appends one character to the end of the string.
pub assume_specification[ std::string::String::push ](s: &mut std::string::String, ch: char)
    ensures
        final(s)@ == old(s)@.push(ch),
;

/// The character of the decimal digit `d`.
pub open spec fn digit_char(d: nat) -> char
    recommends
        d < 10,
{
    (d + 48) as char
}

/// The character of the lower-case hexadecimal digit `d`.
pub open spec fn hex_char(d: nat) -> char
    recommends
        d < 16,
{
    if d < 10 {
        (d + 48) as char
    } else {
        (d + 87) as char
    }
}

/// The decimal rendering of `n`, without leading zeros.
pub open spec fn decimal(n: nat) -> Seq<char>
    decreases n,
{
    if n < 10 {
        seq![digit_char(n)]
    } else {
        decimal(n / 10).push(digit_char(n % 10))
    }
}

/// The decimal rendering of `n`, with a minus sign when negative.
pub open spec fn signed_decimal(n: int) -> Seq<char> {
    if n < 0 {
        seq!['-'] + decimal((-n) as nat)
    } else {
        decimal(n as nat)
    }
}

/// Two lower-case hexadecimal digits of a byte.
pub open spec fn hex2(b: u8) -> Seq<char> {
    seq![hex_char((b / 16) as nat), hex_char((b % 16) as nat)]
}

/// Appends the decimal rendering of `n` to `s`.
pub fn push_decimal(s: &mut String, n: u64)
    ensures
        final(s)@ == old(s)@ + decimal(n as nat),
    decreases n,
{
    if n >= 10 {
        push_decimal(s, n / 10);
    }
    let d: u8 = (n % 10) as u8;
    let c: char = (48u8 + d) as char;
    s.push(c);
    proof {
        assert(c == digit_char((n % 10) as nat));
    }
}

/// Appends the signed decimal rendering of `n` to `s`.
pub fn push_signed_decimal(s: &mut String, n: i32)
    ensures
        final(s)@ == old(s)@ + signed_decimal(n as int),
{
    if n < 0 {
        s.push('-');
        let m: u64 = (-(n as i64)) as u64;
        push_decimal(s, m);
    } else {
        push_decimal(s, n as u64);
    }
}

/// Appends two lower-case hexadecimal digits of `b` to `s`.
pub fn push_hex2(s: &mut String, b: u8)
    ensures
        final(s)@ == old(s)@ + hex2(b),
{
    let hi: u8 = b / 16;
    let lo: u8 = b % 16;
    let c1: char = if hi < 10 { (48u8 + hi) as char } else { (87u8 + hi) as char };
    let c2: char = if lo < 10 { (48u8 + lo) as char } else { (87u8 + lo) as char };
    s.push(c1);
    s.push(c2);
    assert(final(s)@ =~= old(s)@ + hex2(b));
}

/// Whether two strings hold the same characters.
pub fn str_eq(a: &str, b: &str) -> (res: bool)
    ensures
        res == (a@ == b@),
{
    let n = a.unicode_len();
    if n != b.unicode_len() {
        return false;
    }
    let mut i: usize = 0;
    while i < n
        invariant
            n == a@.len(),
            n == b@.len(),
            i <= n,
            forall|j: int| 0 <= j < i ==> a@[j] == b@[j],
        decreases n - i,
    {
        if a.get_char(i) != b.get_char(i) {
            return false;
        }
        i = i + 1;
    }
    assert(a@ =~= b@);
    true
}

/// The bytes of an ASCII character sequence.
pub open spec fn ascii_bytes(cs: Seq<char>) -> Seq<u8> {
    cs.map_values(|c: char| c as u8)
}

/// The value of a hexadecimal digit byte (either case).
pub open spec fn hex_digit_value(b: u8) -> Option<u8> {
    if 48 <= b <= 57 {
        Some((b - 48) as u8)
    } else if 97 <= b <= 102 {
        Some((b - 87) as u8)
    } else if 65 <= b <= 70 {
        Some((b - 55) as u8)
    } else {
        None
    }
}

/// A two-byte unsigned hexadecimal number: two digits, or `+` and one digit.
pub open spec fn hex_pair_value(a: u8, b: u8) -> Option<u8> {
    if a == 43 {
        hex_digit_value(b)
    } else {
        match (hex_digit_value(a), hex_digit_value(b)) {
            (Some(x), Some(y)) => Some((16 * x + y) as u8),
            _ => None,
        }
    }
}

/// The color that a `#RRGGBB` byte string names.
pub open spec fn hex_color_bytes(b: Seq<u8>) -> Option<(u8, u8, u8)> {
    if b.len() == 7 && b[0] == 35 {
        match (hex_pair_value(b[1], b[2]), hex_pair_value(b[3], b[4]), hex_pair_value(b[5], b[6])) {
            (Some(r), Some(g), Some(bl)) => Some((r, g, bl)),
            _ => None,
        }
    } else {
        None
    }
}

/// The color that a `#RRGGBB` string names; strings with characters
/// outside ASCII name none.
pub open spec fn hex_color_spec(cs: Seq<char>) -> Option<(u8, u8, u8)> {
    if is_ascii_chars(cs) {
        hex_color_bytes(ascii_bytes(cs))
    } else {
        None
    }
}

/// The characters `#RRGGBB` (lower-case hexadecimal) of a color.
pub open spec fn hex_color_text(c: (u8, u8, u8)) -> Seq<char> {
    seq!['#'] + hex2(c.0) + hex2(c.1) + hex2(c.2)
}

/// A byte's two hexadecimal digits read back give the byte.
proof fn lemma_hex2_value(b: u8)
    ensures
        '\0' <= hex2(b)[0] <= '\u{7f}',
        '\0' <= hex2(b)[1] <= '\u{7f}',
        hex_pair_value(hex2(b)[0] as u8, hex2(b)[1] as u8) == Some(b),
{
    let hi = (b / 16) as nat;
    let lo = (b % 16) as nat;
    assert(hi < 16 && lo < 16);
    assert(b == 16 * hi + lo);
    assert(hex_digit_value(hex_char(hi) as u8) == Some(hi as u8));
    assert(hex_digit_value(hex_char(lo) as u8) == Some(lo as u8));
}

/// The `#RRGGBB` text of a color names that color.
pub proof fn lemma_hex_color_round_trip(c: (u8, u8, u8))
    ensures
        hex_color_spec(hex_color_text(c)) == Some(c),
{
    let t = hex_color_text(c);
    lemma_hex2_value(c.0);
    lemma_hex2_value(c.1);
    lemma_hex2_value(c.2);
    assert(t.len() == 7);
    assert(t[1] == hex2(c.0)[0] && t[2] == hex2(c.0)[1]);
    assert(t[3] == hex2(c.1)[0] && t[4] == hex2(c.1)[1]);
    assert(t[5] == hex2(c.2)[0] && t[6] == hex2(c.2)[1]);
    assert(is_ascii_chars(t));
    let bs = ascii_bytes(t);
    assert(bs[0] == 35);
}

/// The value of one hexadecimal digit byte.
pub fn hex_digit(b: u8) -> (res: Option<u8>)
    ensures
        res == hex_digit_value(b),
{
    if 48 <= b && b <= 57 {
        Some(b - 48)
    } else if 97 <= b && b <= 102 {
        Some(b - 87)
    } else if 65 <= b && b <= 70 {
        Some(b - 55)
    } else {
        None
    }
}

/// The value of a two-byte unsigned hexadecimal number.
pub fn hex_pair(a: u8, b: u8) -> (res: Option<u8>)
    ensures
        res == hex_pair_value(a, b),
{
    if a == 43 {
        hex_digit(b)
    } else {
        match (hex_digit(a), hex_digit(b)) {
            (Some(x), Some(y)) => Some(16 * x + y),
            _ => None,
        }
    }
}

/// Parses a `#RRGGBB` color.
pub fn parse_hex_color(s: &str) -> (res: Option<[u8; 3]>)
    ensures
        match res {
            Some(c) => hex_color_spec(s@) == Some((c[0], c[1], c[2])),
            None => hex_color_spec(s@) is None,
        },
{
    if !s.is_ascii() {
        return None;
    }
    let b = s.as_bytes();
    proof {
        vstd::utf8::is_ascii_chars_encode_utf8(s@);
        assert(b@ =~= ascii_bytes(s@));
    }
    if b.len() != 7 || b[0] != 35 {
        return None;
    }
    let r = hex_pair(b[1], b[2]);
    let g = hex_pair(b[3], b[4]);
    let bl = hex_pair(b[5], b[6]);
    match (r, g, bl) {
        (Some(r), Some(g), Some(bl)) => Some([r, g, bl]),
        _ => None,
    }
}

/// The `#RRGGBB` text of a color, in lower-case hexadecimal.
pub fn hex_color_string(c: [u8; 3]) -> (res: String)
    ensures
        res@ == hex_color_text((c[0], c[1], c[2])),
{
    let mut s = String::new();
    s.push('#');
    push_hex2(&mut s, c[0]);
    push_hex2(&mut s, c[1]);
    push_hex2(&mut s, c[2]);
    assert(s@ =~= hex_color_text((c[0], c[1], c[2])));
    s
}

/// The value of a sequence of decimal digit bytes.
pub open spec fn digits_value(ds: Seq<u8>) -> int
    decreases ds.len(),
{
    if ds.len() == 0 {
        0
    } else {
        digits_value(ds.drop_last()) * 10 + (ds.last() - 48)
    }
}

/// Whether every byte is a decimal digit.
pub open spec fn all_digits(ds: Seq<u8>) -> bool {
    forall|i: int| 0 <= i < ds.len() ==> 48 <= #[trigger] ds[i] <= 57
}

/// A signed decimal `i64`: an optional `+` or `-`, then at least one
/// digit, and a value in range.
pub open spec fn i64_bytes_value(b: Seq<u8>) -> Option<i64> {
    if b.len() == 0 {
        None
    } else {
        let neg = b[0] == 45;
        let ds = if b[0] == 45 || b[0] == 43 { b.skip(1) } else { b };
        if ds.len() == 0 || !all_digits(ds) {
            None
        } else if neg {
            if -digits_value(ds) >= i64::MIN {
                Some((-digits_value(ds)) as i64)
            } else {
                None
            }
        } else {
            if digits_value(ds) <= i64::MAX {
                Some(digits_value(ds) as i64)
            } else {
                None
            }
        }
    }
}

/// The `i64` a string spells in decimal; strings with characters outside
/// ASCII spell none.
pub open spec fn i64_text_value(cs: Seq<char>) -> Option<i64> {
    if is_ascii_chars(cs) {
        i64_bytes_value(ascii_bytes(cs))
    } else {
        None
    }
}

proof fn lemma_digits_value_nonneg(ds: Seq<u8>)
    requires
        all_digits(ds),
    ensures
        digits_value(ds) >= 0,
    decreases ds.len(),
{
    if ds.len() > 0 {
        assert(all_digits(ds.drop_last()));
        lemma_digits_value_nonneg(ds.drop_last());
    }
}

/// Parses a signed decimal `i64`.
pub fn parse_i64(s: &str) -> (res: Option<i64>)
    ensures
        res == i64_text_value(s@),
{
    if !s.is_ascii() {
        return None;
    }
    let b = s.as_bytes();
    proof {
        vstd::utf8::is_ascii_chars_encode_utf8(s@);
        assert(b@ =~= ascii_bytes(s@));
    }
    let n = b.len();
    if n == 0 {
        return None;
    }
    let neg = b[0] == 45;
    let start: usize = if b[0] == 45 || b[0] == 43 { 1 } else { 0 };
    if start == n {
        return None;
    }
    let ghost ds = b@.skip(start as int);
    let cap: u128 = 9223372036854775809u128;
    let mut acc: u128 = 0;
    let mut i: usize = start;
    while i < n
        invariant
            is_ascii_chars(s@),
            b@ == ascii_bytes(s@),
            n == b@.len(),
            n > 0,
            start == (if b@[0] == 45 || b@[0] == 43 { 1usize } else { 0usize }),
            start < n,
            acc <= cap,
            cap == 9223372036854775809u128,
            start <= i <= n,
            ds == b@.skip(start as int),
            all_digits(ds.take(i - start)),
            acc == if digits_value(ds.take(i - start)) < cap {
                digits_value(ds.take(i - start))
            } else {
                cap as int
            },
        decreases n - i,
    {
        let d = b[i];
        if d < 48 || d > 57 {
            proof {
                assert(ds[i - start] == d);
                assert(!all_digits(ds));
            }
            return None;
        }
        proof {
            let t = ds.take(i - start + 1);
            assert(t.drop_last() =~= ds.take(i - start));
            assert(t.last() == d);
            lemma_digits_value_nonneg(ds.take(i - start));
            assert(all_digits(t));
        }
        let next: u128 = acc * 10 + (d - 48) as u128;
        acc = if next < cap { next } else { cap };
        i = i + 1;
    }
    proof {
        assert(ds.take(n - start) =~= ds);
        assert(b@.skip(0) =~= b@);
        lemma_digits_value_nonneg(ds);
    }
    if neg {
        if acc <= 9223372036854775808u128 {
            Some((0i128 - acc as i128) as i64)
        } else {
            None
        }
    } else {
        if acc <= 9223372036854775807u128 {
            Some(acc as i64)
        } else {
            None
        }
    }
}

} // verus!
