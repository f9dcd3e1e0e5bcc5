//! Hexadecimal text.
use crate::text::{chars_of, push_char};
use vstd::prelude::*;

verus! {

/// Whether the character is a hexadecimal digit, in either case.
pub open spec fn is_hex(c: char) -> bool {
    '0' <= c && c <= '9' || 'a' <= c && c <= 'f' || 'A' <= c && c <= 'F'
}

/// The value of a hexadecimal digit.
pub open spec fn hex_value(c: char) -> int {
    if c <= '9' {
        c as int - '0' as int
    } else if c <= 'F' {
        c as int - 'A' as int + 10
    } else {
        c as int - 'a' as int + 10
    }
}

/// The digit for a value below 16, in lower case.
pub open spec fn hex_digit(v: int) -> char {
    if v < 10 {
        ('0' as int + v) as char
    } else {
        ('a' as int + v - 10) as char
    }
}

/// A text without the prefix "0x" or "0X".
pub open spec fn without_0x(s: Seq<char>) -> Seq<char> {
    if s.len() >= 2 && s[0] == '0' && (s[1] == 'x' || s[1] == 'X') {
        s.skip(2)
    } else {
        s
    }
}

/// Whether a text consists of so many hexadecimal digits.
pub open spec fn hex_of_len(s: Seq<char>, n: int) -> bool {
    s.len() == n && forall|i: int| 0 <= i < n ==> is_hex(#[trigger] s[i])
}

/// The byte that the two digits at a place stand for.
pub open spec fn hex_byte(s: Seq<char>, i: int) -> u8 {
    (16 * hex_value(s[i]) + hex_value(s[i + 1])) as u8
}

/// The `n` bytes that the digits from a place on stand for.
pub open spec fn hex_bytes(s: Seq<char>, at: int, n: nat) -> Seq<u8> {
    Seq::new(n, |i: int| hex_byte(s, at + 2 * i))
}

/// The digits of bytes, two for each, in lower case.
pub open spec fn hex_text(b: Seq<u8>) -> Seq<char> {
    Seq::new(
        2 * b.len(),
        |i: int|
            if i % 2 == 0 {
                hex_digit(b[i / 2] as int / 16)
            } else {
                hex_digit(b[i / 2] as int % 16)
            },
    )
}

pub(crate) fn is_hex_char(c: char) -> (r: bool)
    ensures
        r == is_hex(c),
{
    ('0' <= c && c <= '9') || ('a' <= c && c <= 'f') || ('A' <= c && c <= 'F')
}

fn value_of(c: char) -> (r: u8)
    requires
        is_hex(c),
    ensures
        r == hex_value(c),
        r < 16,
{
    let n: u32 = c as u32;
    if c <= '9' {
        (n - 48) as u8
    } else if c <= 'F' {
        (n - 55) as u8
    } else {
        (n - 87) as u8
    }
}

/// The byte that the two digits at a place stand for.
pub(crate) fn byte_at(v: &Vec<char>, i: usize) -> (r: u8)
    requires
        i + 1 < v@.len(),
        is_hex(v@[i as int]),
        is_hex(v@[i + 1]),
    ensures
        r == hex_byte(v@, i as int),
{
    let all: usize = v.len();
    assert(i + 1 < all);
    16 * value_of(v[i]) + value_of(v[i + 1])
}

/// The characters of a text without the prefix "0x" or "0X".
pub(crate) fn digits_of(s: &str) -> (r: Vec<char>)
    ensures
        r@ == without_0x(s@),
{
    let v = chars_of(s);
    if v.len() >= 2 && v[0] == '0' && (v[1] == 'x' || v[1] == 'X') {
        let mut r: Vec<char> = Vec::new();
        let mut i: usize = 2;
        while i < v.len()
            invariant
                2 <= i <= v@.len(),
                r@ == v@.subrange(2, i as int),
            decreases v@.len() - i,
        {
            r.push(v[i]);
            assert(r@ =~= v@.subrange(2, i + 1));
            i = i + 1;
        }
        assert(r@ =~= s@.skip(2));
        r
    } else {
        v
    }
}

/// Whether there are so many characters, all hexadecimal digits.
pub(crate) fn all_hex(v: &Vec<char>, n: usize) -> (r: bool)
    ensures
        r == hex_of_len(v@, n as int),
{
    if v.len() != n {
        return false;
    }
    let mut i: usize = 0;
    while i < n
        invariant
            i <= n == v@.len(),
            forall|j: int| 0 <= j < i ==> is_hex(#[trigger] v@[j]),
        decreases n - i,
    {
        if !is_hex_char(v[i]) {
            return false;
        }
        i = i + 1;
    }
    true
}

fn digit_for(v: u8) -> (c: char)
    requires
        v < 16,
    ensures
        c == hex_digit(v as int),
{
    if v < 10 {
        (48 + v) as char
    } else {
        (87 + v) as char
    }
}

/// Appends the digits of bytes, two for each, in lower case.
pub(crate) fn push_hex(s: &mut String, b: &[u8])
    ensures
        final(s)@ == old(s)@ + hex_text(b@),
{
    let ghost start = s@;
    let mut i: usize = 0;
    assert(s@ =~= start + hex_text(b@.take(0)));
    while i < b.len()
        invariant
            i <= b@.len(),
            s@ == start + hex_text(b@.take(i as int)),
        decreases b@.len() - i,
    {
        push_char(s, digit_for(b[i] / 16));
        push_char(s, digit_for(b[i] % 16));
        proof {
            let was = hex_text(b@.take(i as int));
            let now = hex_text(b@.take(i + 1));
            assert(now =~= was.push(hex_digit(b@[i as int] as int / 16)).push(
                hex_digit(b@[i as int] as int % 16),
            ));
            assert(s@ =~= start + now);
        }
        i = i + 1;
    }
    assert(b@.take(i as int) =~= b@);
}

/// The digits of bytes are read back as the bytes.
pub proof fn law_hex_round_trip(b: Seq<u8>)
    ensures
        hex_of_len(hex_text(b), 2 * b.len() as int),
        hex_bytes(hex_text(b), 0, b.len()) == b,
        without_0x(hex_text(b)) == hex_text(b),
{
    let t = hex_text(b);
    assert forall|i: int| 0 <= i < t.len() implies is_hex(#[trigger] t[i]) by {
        let x = b[i / 2] as int;
        assert(0 <= x / 16 < 16 && 0 <= x % 16 < 16);
    }
    assert forall|i: int| 0 <= i < b.len() implies hex_byte(t, 2 * i) == b[i] by {
        let x = b[i] as int;
        assert((2 * i) / 2 == i && (2 * i) % 2 == 0);
        assert((2 * i + 1) / 2 == i && (2 * i + 1) % 2 == 1);
        assert(0 <= x / 16 < 16 && 0 <= x % 16 < 16);
        assert(hex_value(hex_digit(x / 16)) == x / 16);
        assert(hex_value(hex_digit(x % 16)) == x % 16);
    }
    assert(hex_bytes(t, 0, b.len()) =~= b);
    if t.len() >= 2 {
        assert(is_hex(t[1]));
    }
}

} // verus!
