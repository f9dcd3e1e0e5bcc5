//! Text helpers: characters, case, decimal numbers and searching.
use vstd::prelude::*;

verus! {

// ── What the helpers compute, mathematically ─────────────────────────────

/// The lower-case form that `str::to_lowercase` gives of a string.
pub uninterp spec fn lowercase(s: Seq<char>) -> Seq<char>;

/// A character with ASCII capitals made small.
pub open spec fn small(c: char) -> char {
    if 'A' <= c && c <= 'Z' {
        (c as u32 + 32) as char
    } else {
        c
    }
}

/// A character with ASCII small letters made capital.
pub open spec fn capital(c: char) -> char {
    if 'a' <= c && c <= 'z' {
        (c as u32 - 32) as char
    } else {
        c
    }
}

/// A text with ASCII capitals made small.
pub open spec fn ascii_lower(s: Seq<char>) -> Seq<char> {
    s.map_values(|c: char| small(c))
}

/// A text with ASCII small letters made capital.
pub open spec fn ascii_upper(s: Seq<char>) -> Seq<char> {
    s.map_values(|c: char| capital(c))
}

/// Whether a character is one of `0` to `9`.
pub open spec fn is_digit(c: char) -> bool {
    '0' <= c && c <= '9'
}

/// Whether every character is a digit.
pub open spec fn all_digits(s: Seq<char>) -> bool {
    forall|i: int| 0 <= i < s.len() ==> is_digit(#[trigger] s[i])
}

/// The number that a run of digits stands for.
pub open spec fn digits_value(s: Seq<char>) -> nat
    decreases s.len(),
{
    if s.len() == 0 {
        0
    } else {
        digits_value(s.drop_last()) * 10 + (s.last() as nat - '0' as nat) as nat
    }
}

/// A text without one leading plus sign.
pub open spec fn unsigned_part(s: Seq<char>) -> Seq<char> {
    if s.len() > 0 && s[0] == '+' {
        s.drop_first()
    } else {
        s
    }
}

/// The number that a text in base 10 stands for: digits, with an optional plus sign before them,
/// not above `max`.
pub open spec fn decimal(s: Seq<char>, max: nat) -> Option<nat> {
    let d = unsigned_part(s);
    if d.len() > 0 && all_digits(d) && digits_value(d) <= max {
        Some(digits_value(d))
    } else {
        None
    }
}

/// The digits of a number in base 10, without leading zeros.
pub open spec fn decimal_text(n: nat) -> Seq<char>
    decreases n,
{
    if n < 10 {
        seq![(n + '0' as nat) as char]
    } else {
        decimal_text(n / 10).push((n % 10 + '0' as nat) as char)
    }
}

/// The base-10 text of a signed number.
pub open spec fn signed_text(n: int) -> Seq<char> {
    if n < 0 {
        seq!['-'] + decimal_text((-n) as nat)
    } else {
        decimal_text(n as nat)
    }
}

/// Whether `part` stands in `s` at position `i`.
pub open spec fn occurs_at(s: Seq<char>, part: Seq<char>, i: int) -> bool {
    0 <= i && i + part.len() <= s.len() && s.subrange(i, i + part.len()) == part
}

/// Whether `part` stands somewhere in `s`.
pub open spec fn occurs(s: Seq<char>, part: Seq<char>) -> bool {
    exists|i: int| occurs_at(s, part, i)
}

/// The first place from `i` on where `part` stands in `s`.
pub open spec fn first_from(s: Seq<char>, part: Seq<char>, i: int) -> Option<int>
    decreases s.len() - i + 1,
{
    if i > s.len() {
        None
    } else if occurs_at(s, part, i) {
        Some(i)
    } else {
        first_from(s, part, i + 1)
    }
}

/// The first place where `part` stands in `s`.
pub open spec fn first_at(s: Seq<char>, part: Seq<char>) -> Option<int> {
    first_from(s, part, 0)
}

/// The text before the first `c`; all of it where there is none.
pub open spec fn before_first(s: Seq<char>, c: char) -> Seq<char> {
    if s.contains(c) {
        s.subrange(0, s.index_of_first(c)->0)
    } else {
        s
    }
}

/// Whether a character is white space, as Unicode has it.
pub open spec fn white_space(c: char) -> bool {
    let n = c as u32;
    ||| 0x09 <= n <= 0x0d
    ||| n == 0x20
    ||| n == 0x85
    ||| n == 0xa0
    ||| n == 0x1680
    ||| 0x2000 <= n <= 0x200a
    ||| n == 0x2028
    ||| n == 0x2029
    ||| n == 0x202f
    ||| n == 0x205f
    ||| n == 0x3000
}

/// How many bytes a character takes in UTF-8.
pub open spec fn char_bytes(c: char) -> nat {
    let n = c as u32;
    if n < 0x80 {
        1
    } else if n < 0x800 {
        2
    } else if n < 0x1_0000 {
        3
    } else {
        4
    }
}

/// How many bytes a text takes in UTF-8.
pub open spec fn byte_count(s: Seq<char>) -> nat
    decreases s.len(),
{
    if s.len() == 0 {
        0
    } else {
        byte_count(s.drop_last()) + char_bytes(s.last())
    }
}

/// The text without the white space that it starts with.
pub open spec fn without_lead(s: Seq<char>) -> Seq<char>
    decreases s.len(),
{
    if s.len() > 0 && white_space(s[0]) {
        without_lead(s.skip(1))
    } else {
        s
    }
}

/// The text without the white space that it ends with.
pub open spec fn without_tail(s: Seq<char>) -> Seq<char>
    decreases s.len(),
{
    if s.len() > 0 && white_space(s.last()) {
        without_tail(s.drop_last())
    } else {
        s
    }
}

/// The text without white space at either end.
pub open spec fn trimmed(s: Seq<char>) -> Seq<char> {
    without_tail(without_lead(s))
}

// ── The helpers ──────────────────────────────────────────────────────────

/// Compares two strings with the `==` of `str` from std: equal exactly when they hold the same
/// characters in the same order.
#[verifier::external_body]
pub(crate) fn str_eq(a: &str, b: &str) -> (r: bool)
    ensures
        r == (a@ == b@),
{
    a == b
}

/// Calls `str::to_lowercase` of std. Its result is a function of the characters alone and is named
/// `lowercase`; what Unicode maps each character to is not stated.
#[verifier::external_body]
pub(crate) fn to_lowercase(s: &str) -> (r: String)
    ensures
        r@ == lowercase(s@),
{
    s.to_lowercase()
}

/// Calls `String::push` of std, which appends one character to the end.
#[verifier::external_body]
pub(crate) fn push_char(s: &mut String, c: char)
    ensures
        final(s)@ == old(s)@.push(c),
{
    s.push(c);
}

/// Appends a string to the end.
pub(crate) fn push_text(s: &mut String, t: &str)
    ensures
        final(s)@ == old(s)@ + t@,
{
    s.append(t);
}

/// The characters of a string.
pub(crate) fn chars_of(s: &str) -> (v: Vec<char>)
    ensures
        v@ == s@,
{
    let mut v: Vec<char> = Vec::new();
    for c in it: s.chars()
        invariant
            it.seq() == s@,
            v@ == s@.take(it.index()),
    {
        v.push(c);
    }
    assert(v@ =~= s@);
    v
}

/// The characters from `from` up to `to`, as a string.
pub(crate) fn text_of(v: &Vec<char>, from: usize, to: usize) -> (s: String)
    requires
        from <= to <= v@.len(),
    ensures
        s@ == v@.subrange(from as int, to as int),
{
    let mut s = String::new();
    let mut i: usize = from;
    while i < to
        invariant
            from <= i <= to <= v@.len(),
            s@ == v@.subrange(from as int, i as int),
        decreases to - i,
    {
        push_char(&mut s, v[i]);
        assert(s@ =~= v@.subrange(from as int, i + 1));
        i = i + 1;
    }
    s
}

/// Whether `part` stands in `s` at position `i`.
pub(crate) fn is_at(s: &Vec<char>, part: &Vec<char>, i: usize) -> (r: bool)
    ensures
        r == occurs_at(s@, part@, i as int),
{
    let n: usize = s.len();
    if i > n || part.len() > n - i {
        return false;
    }
    let mut k: usize = 0;
    while k < part.len()
        invariant
            k <= part@.len(),
            i + part@.len() <= n == s@.len(),
            forall|j: int| 0 <= j < k ==> s@[i + j] == part@[j],
        decreases part@.len() - k,
    {
        if s[i + k] != part[k] {
            assert(s@.subrange(i as int, i + part@.len())[k as int] != part@[k as int]);
            return false;
        }
        k = k + 1;
    }
    assert(s@.subrange(i as int, i + part@.len()) =~= part@);
    true
}

/// The first position where `part` stands in `s`.
pub(crate) fn find_text(s: &Vec<char>, part: &Vec<char>) -> (r: Option<usize>)
    ensures
        match r {
            Some(i) => occurs_at(s@, part@, i as int) && forall|j: int|
                0 <= j < i ==> !occurs_at(s@, part@, j),
            None => !occurs(s@, part@),
        },
        first_at(s@, part@) == (match r {
            Some(i) => Some(i as int),
            None => None,
        }),
{
    let mut i: usize = 0;
    while i < s.len()
        invariant
            i <= s@.len(),
            forall|j: int| 0 <= j < i ==> !occurs_at(s@, part@, j),
            first_at(s@, part@) == first_from(s@, part@, i as int),
        decreases s@.len() - i,
    {
        if is_at(s, part, i) {
            return Some(i);
        }
        i = i + 1;
    }
    proof {
        reveal_with_fuel(first_from, 2);
    }
    if is_at(s, part, i) {
        Some(i)
    } else {
        None
    }
}

/// Whether `part` stands somewhere in `s`.
pub fn contains_text(s: &str, part: &str) -> (r: bool)
    ensures
        r == occurs(s@, part@),
{
    let v = chars_of(s);
    let p = chars_of(part);
    find_text(&v, &p).is_some()
}

/// Whether `s` starts with `part`.
pub fn starts_with(s: &str, part: &str) -> (r: bool)
    ensures
        r == part@.is_prefix_of(s@),
{
    let v = chars_of(s);
    let p = chars_of(part);
    let r = is_at(&v, &p, 0);
    proof {
        if part@.is_prefix_of(s@) {
            assert(s@.subrange(0, part@.len() as int) =~= part@);
        }
    }
    r
}

/// Whether the text holds the character.
pub fn contains_char(s: &str, c: char) -> (r: bool)
    ensures
        r == s@.contains(c),
{
    let v = chars_of(s);
    let mut i: usize = 0;
    while i < v.len()
        invariant
            i <= v@.len(),
            v@ == s@,
            forall|j: int| 0 <= j < i ==> v@[j] != c,
        decreases v@.len() - i,
    {
        if v[i] == c {
            assert(s@[i as int] == c);
            return true;
        }
        i = i + 1;
    }
    false
}

/// Whether the text ends with the character.
pub fn ends_with_char(s: &str, c: char) -> (r: bool)
    ensures
        r == (s@.len() > 0 && s@.last() == c),
{
    let v = chars_of(s);
    v.len() > 0 && v[v.len() - 1] == c
}

/// Whether a character is white space, as Unicode has it.
fn is_white(c: char) -> (r: bool)
    ensures
        r == white_space(c),
{
    let n: u32 = c as u32;
    (0x09 <= n && n <= 0x0d) || n == 0x20 || n == 0x85 || n == 0xa0 || n == 0x1680 || (0x2000 <= n && n
        <= 0x200a) || n == 0x2028 || n == 0x2029 || n == 0x202f || n == 0x205f || n == 0x3000
}

/// How many bytes a character takes in UTF-8.
pub(crate) fn bytes_of_char(c: char) -> (r: usize)
    ensures
        r == char_bytes(c),
{
    let n: u32 = c as u32;
    if n < 0x80 {
        1
    } else if n < 0x800 {
        2
    } else if n < 0x1_0000 {
        3
    } else {
        4
    }
}

/// How many characters of white space a text starts with.
pub(crate) fn lead_len(cs: &Vec<char>) -> (r: usize)
    ensures
        r <= cs@.len(),
        cs@.skip(r as int) == without_lead(cs@),
{
    let mut from: usize = 0;
    assert(cs@.skip(0) =~= cs@);
    while from < cs.len() && is_white(cs[from])
        invariant
            from <= cs@.len(),
            without_lead(cs@.skip(from as int)) == without_lead(cs@),
        decreases cs@.len() - from,
    {
        assert(cs@.skip(from as int).skip(1) =~= cs@.skip(from + 1));
        from = from + 1;
    }
    from
}

/// The text without white space at either end.
pub fn trim(s: &str) -> (r: String)
    ensures
        r@ == trimmed(s@),
{
    let cs = chars_of(s);
    let from: usize = lead_len(&cs);
    let mut to: usize = cs.len();
    let ghost body = without_lead(s@);
    assert(cs@.subrange(from as int, to as int) =~= body);
    while from < to && is_white(cs[to - 1])
        invariant
            from <= to,
            to <= cs@.len(),
            without_tail(cs@.subrange(from as int, to as int)) == without_tail(body),
        decreases to - from,
    {
        assert(cs@.subrange(from as int, to as int).drop_last() =~= cs@.subrange(
            from as int,
            to - 1,
        ));
        to = to - 1;
    }
    text_of(&cs, from, to)
}

/// The text before the first `c`; all of it where there is none.
pub fn text_before(s: &str, c: char) -> (r: String)
    ensures
        r@ == before_first(s@, c),
{
    let v = chars_of(s);
    let mut i: usize = 0;
    while i < v.len()
        invariant
            i <= v@.len(),
            v@ == s@,
            forall|j: int| 0 <= j < i ==> v@[j] != c,
        decreases v@.len() - i,
    {
        if v[i] == c {
            proof {
                s@.index_of_first_ensures(c);
                assert(s@.contains(c));
                assert(s@.index_of_first(c) == Some(i as int));
            }
            return text_of(&v, 0, i);
        }
        i = i + 1;
    }
    let r = text_of(&v, 0, i);
    assert(r@ =~= s@);
    r
}

fn lower_char(c: char) -> (r: char)
    ensures
        r == small(c),
{
    if 'A' <= c && c <= 'Z' {
        (((c as u32) + 32) as u8) as char
    } else {
        c
    }
}

fn upper_char(c: char) -> (r: char)
    ensures
        r == capital(c),
{
    if 'a' <= c && c <= 'z' {
        (((c as u32) - 32) as u8) as char
    } else {
        c
    }
}

/// The text with ASCII capitals made small.
pub fn to_ascii_lowercase(s: &str) -> (r: String)
    ensures
        r@ == ascii_lower(s@),
{
    let v = chars_of(s);
    let mut r = String::new();
    let mut i: usize = 0;
    while i < v.len()
        invariant
            i <= v@.len(),
            r@ == ascii_lower(v@).take(i as int),
        decreases v@.len() - i,
    {
        push_char(&mut r, lower_char(v[i]));
        assert(r@ =~= ascii_lower(v@).take(i + 1));
        i = i + 1;
    }
    assert(r@ =~= ascii_lower(v@));
    r
}

/// The text with ASCII small letters made capital.
pub fn to_ascii_uppercase(s: &str) -> (r: String)
    ensures
        r@ == ascii_upper(s@),
{
    let v = chars_of(s);
    let mut r = String::new();
    let mut i: usize = 0;
    while i < v.len()
        invariant
            i <= v@.len(),
            r@ == ascii_upper(v@).take(i as int),
        decreases v@.len() - i,
    {
        push_char(&mut r, upper_char(v[i]));
        assert(r@ =~= ascii_upper(v@).take(i + 1));
        i = i + 1;
    }
    assert(r@ =~= ascii_upper(v@));
    r
}

/// Whether two texts are the same up to the case of ASCII letters.
pub fn eq_ignore_ascii_case(a: &str, b: &str) -> (r: bool)
    ensures
        r == (ascii_lower(a@) == ascii_lower(b@)),
{
    let x = to_ascii_lowercase(a);
    let y = to_ascii_lowercase(b);
    str_eq(x.as_str(), y.as_str())
}

/// The number that a text in base 10 stands for, where it fits 64 bits.
pub fn parse_u64(s: &str) -> (r: Option<u64>)
    ensures
        match r {
            Some(n) => decimal(s@, u64::MAX as nat) == Some(n as nat),
            None => decimal(s@, u64::MAX as nat) is None,
        },
{
    let v = chars_of(s);
    let mut i: usize = 0;
    if v.len() > 0 && v[0] == '+' {
        i = 1;
    }
    let ghost d = unsigned_part(s@);
    let ghost from = i as int;
    assert(d =~= v@.subrange(from, v@.len() as int));
    if i == v.len() {
        return None;
    }
    let mut n: u64 = 0;
    while i < v.len()
        invariant
            0 <= from <= i <= v@.len(),
            v@ == s@,
            d == unsigned_part(s@),
            d == v@.subrange(from, v@.len() as int),
            all_digits(d.take(i - from)),
            n == digits_value(d.take(i - from)),
        decreases v@.len() - i,
    {
        let c = v[i];
        let ghost k = i - from;
        assert(c == d[k]);
        assert(d.take(k + 1).drop_last() =~= d.take(k));
        if !('0' <= c && c <= '9') {
            assert(!is_digit(d[k]));
            return None;
        }
        let x: u64 = (c as u64) - ('0' as u64);
        proof {
            assert(digits_value(d.take(k + 1)) == digits_value(d.take(k)) * 10 + x);
            lemma_prefix_value(d, k + 1);
            assert forall|j: int| 0 <= j < k + 1 implies is_digit(#[trigger] d.take(k + 1)[j]) by {
                if j < k {
                    assert(d.take(k)[j] == d[j]);
                }
            }
        }
        match n.checked_mul(10) {
            None => {
                return None;
            },
            Some(m) => match m.checked_add(x) {
                None => {
                    return None;
                },
                Some(t) => {
                    n = t;
                },
            },
        }
        i = i + 1;
    }
    assert(d.take(i - from) =~= d);
    Some(n)
}

/// More digits never stand for less.
proof fn lemma_prefix_value(d: Seq<char>, k: int)
    requires
        0 <= k <= d.len(),
        all_digits(d.take(k)) || k == 0,
    ensures
        all_digits(d) ==> digits_value(d.take(k)) <= digits_value(d),
    decreases d.len() - k,
{
    if k < d.len() && all_digits(d) {
        assert forall|j: int| 0 <= j < k + 1 implies is_digit(#[trigger] d.take(k + 1)[j]) by {
            assert(is_digit(d[j]));
        }
        lemma_prefix_value(d, k + 1);
        assert(d.take(k + 1).drop_last() =~= d.take(k));
        assert(is_digit(d[k]));
    } else {
        assert(k == d.len() ==> d.take(k) =~= d);
    }
}

/// The number that a text in base 10 stands for, where it fits 32 bits.
pub fn parse_u32(s: &str) -> (r: Option<u32>)
    ensures
        match r {
            Some(n) => decimal(s@, u32::MAX as nat) == Some(n as nat),
            None => decimal(s@, u32::MAX as nat) is None,
        },
{
    match parse_u64(s) {
        Some(n) => if n <= 0xffff_ffff {
            Some(n as u32)
        } else {
            None
        },
        None => None,
    }
}

/// Appends the base-10 digits of a number.
pub(crate) fn push_decimal(s: &mut String, n: u64)
    ensures
        final(s)@ == old(s)@ + decimal_text(n as nat),
    decreases n,
{
    if n >= 10 {
        push_decimal(s, n / 10);
    }
    let d: u8 = (n % 10) as u8 + 48;
    push_char(s, d as char);
    assert(s@ =~= old(s)@ + decimal_text(n as nat));
}

/// The base-10 text of a number.
pub fn decimal_string(n: u64) -> (s: String)
    ensures
        s@ == decimal_text(n as nat),
{
    let mut s = String::new();
    push_decimal(&mut s, n);
    assert(s@ =~= decimal_text(n as nat));
    s
}

/// Appends the base-10 text of a signed number.
pub(crate) fn push_signed(s: &mut String, n: i64)
    ensures
        final(s)@ == old(s)@ + signed_text(n as int),
{
    if n < 0 {
        push_char(s, '-');
        let m: u64 = (0i128 - n as i128) as u64;
        push_decimal(s, m);
        assert(s@ =~= old(s)@ + signed_text(n as int));
    } else {
        push_decimal(s, n as u64);
    }
}

// ── Wide numbers ─────────────────────────────────────────────────────────

/// The number that a signed text in base 10 stands for: digits, with an optional sign before them,
/// where it fits 128 bits.
pub open spec fn signed_decimal(s: Seq<char>) -> Option<int> {
    if s.len() > 0 && s[0] == '-' {
        let d = s.drop_first();
        if d.len() > 0 && all_digits(d) && digits_value(d) <= i128::MAX as nat + 1 {
            Some(-(digits_value(d) as int))
        } else {
            None
        }
    } else {
        match decimal(s, i128::MAX as nat) {
            Some(n) => Some(n as int),
            None => None,
        }
    }
}

/// The number that the digits from a place on stand for, where it fits 128 bits.
fn parse_digits(v: &Vec<char>, from: usize) -> (r: Option<u128>)
    requires
        from <= v@.len(),
    ensures
        ({
            let d = v@.skip(from as int);
            match r {
                Some(n) => d.len() > 0 && all_digits(d) && digits_value(d) == n,
                None => d.len() == 0 || !all_digits(d) || digits_value(d) > u128::MAX,
            }
        }),
{
    let ghost d = v@.skip(from as int);
    if from == v.len() {
        return None;
    }
    let mut i: usize = from;
    let mut n: u128 = 0;
    while i < v.len()
        invariant
            from <= i <= v@.len(),
            d == v@.skip(from as int),
            all_digits(d.take(i - from)),
            n == digits_value(d.take(i - from)),
        decreases v@.len() - i,
    {
        let c = v[i];
        let ghost k = i - from;
        assert(c == d[k]);
        assert(d.take(k + 1).drop_last() =~= d.take(k));
        if !('0' <= c && c <= '9') {
            assert(!is_digit(d[k]));
            return None;
        }
        let x: u128 = (c as u128) - ('0' as u128);
        proof {
            assert(digits_value(d.take(k + 1)) == digits_value(d.take(k)) * 10 + x);
            lemma_prefix_value(d, k + 1);
            assert forall|j: int| 0 <= j < k + 1 implies is_digit(#[trigger] d.take(k + 1)[j]) by {
                if j < k {
                    assert(d.take(k)[j] == d[j]);
                }
            }
        }
        match n.checked_mul(10) {
            None => {
                return None;
            },
            Some(m) => match m.checked_add(x) {
                None => {
                    return None;
                },
                Some(t) => {
                    n = t;
                },
            },
        }
        i = i + 1;
    }
    assert(d.take(i - from) =~= d);
    Some(n)
}

/// The number that a signed text in base 10 stands for, where it fits 128 bits.
pub fn parse_i128(s: &str) -> (r: Option<i128>)
    ensures
        match r {
            Some(n) => signed_decimal(s@) == Some(n as int),
            None => signed_decimal(s@) is None,
        },
{
    let v = chars_of(s);
    if v.len() > 0 && v[0] == '-' {
        assert(v@.skip(1) =~= s@.drop_first());
        match parse_digits(&v, 1) {
            Some(n) => if n <= 0x7fff_ffff_ffff_ffff_ffff_ffff_ffff_ffff {
                Some(-(n as i128))
            } else if n == 0x8000_0000_0000_0000_0000_0000_0000_0000 {
                Some(i128::MIN)
            } else {
                None
            },
            None => None,
        }
    } else {
        let from: usize = if v.len() > 0 && v[0] == '+' {
            1
        } else {
            0
        };
        assert(v@.skip(from as int) =~= unsigned_part(s@));
        match parse_digits(&v, from) {
            Some(n) => if n <= 0x7fff_ffff_ffff_ffff_ffff_ffff_ffff_ffff {
                Some(n as i128)
            } else {
                None
            },
            None => None,
        }
    }
}

/// Appends the base-10 digits of a wide number.
pub(crate) fn push_wide(s: &mut String, n: u128)
    ensures
        final(s)@ == old(s)@ + decimal_text(n as nat),
    decreases n,
{
    if n >= 10 {
        push_wide(s, n / 10);
    }
    let d: u8 = (n % 10) as u8 + 48;
    push_char(s, d as char);
    assert(s@ =~= old(s)@ + decimal_text(n as nat));
}

/// The base-10 text of a wide number.
pub fn wide_string(n: u128) -> (s: String)
    ensures
        s@ == decimal_text(n as nat),
{
    let mut s = String::new();
    push_wide(&mut s, n);
    assert(s@ =~= decimal_text(n as nat));
    s
}

/// The base-10 text of a wide signed number.
pub fn signed_string(n: i128) -> (s: String)
    ensures
        s@ == signed_text(n as int),
{
    let mut s = String::new();
    if n < 0 {
        push_char(&mut s, '-');
        let m: u128 = if n == i128::MIN {
            0x8000_0000_0000_0000_0000_0000_0000_0000
        } else {
            (-n) as u128
        };
        push_wide(&mut s, m);
    } else {
        push_wide(&mut s, n as u128);
    }
    assert(s@ =~= signed_text(n as int));
    s
}

/// The digits of a number stand for the number.
pub proof fn lemma_digits_of(n: nat)
    ensures
        decimal_text(n).len() > 0,
        all_digits(decimal_text(n)),
        digits_value(decimal_text(n)) == n,
    decreases n,
{
    let t = decimal_text(n);
    if n < 10 {
        let c = (n + '0' as nat) as char;
        assert(t =~= seq![c]);
        assert(t.drop_last() =~= Seq::<char>::empty());
        assert(digits_value(Seq::<char>::empty()) == 0);
    } else {
        lemma_digits_of(n / 10);
        let c = (n % 10 + '0' as nat) as char;
        let h = decimal_text(n / 10);
        assert(t =~= h.push(c));
        assert(t.drop_last() =~= h);
        assert forall|i: int| 0 <= i < t.len() implies is_digit(#[trigger] t[i]) by {
            if i < h.len() {
                assert(t[i] == h[i]);
            }
        }
    }
}

/// The text of a number is read back as the number.
pub proof fn law_signed_round_trip(n: i128)
    ensures
        signed_decimal(signed_text(n as int)) == Some(n as int),
{
    if n < 0 {
        lemma_digits_of((-n) as nat);
        let t = signed_text(n as int);
        assert(t.drop_first() =~= decimal_text((-n) as nat));
    } else {
        lemma_digits_of(n as nat);
        let t = decimal_text(n as nat);
        assert(is_digit(t[0]));
        assert(unsigned_part(t) =~= t);
    }
}

// ── Lines ────────────────────────────────────────────────────────────────

/// A line without the carriage return before its end.
pub open spec fn without_cr(s: Seq<char>) -> Seq<char> {
    if s.len() > 0 && s.last() == '\r' {
        s.drop_last()
    } else {
        s
    }
}

/// The lines of a text. A line ends at a newline, which is not part of it; the last line need not
/// end in one.
pub open spec fn lines(s: Seq<char>) -> Seq<Seq<char>>
    decreases s.len(),
{
    if s.len() == 0 {
        Seq::empty()
    } else if s.contains('\n') {
        let i = s.index_of_first('\n')->0;
        if 0 <= i < s.len() {
            seq![without_cr(s.subrange(0, i))] + lines(s.subrange(i + 1, s.len() as int))
        } else {
            Seq::empty()
        }
    } else {
        seq![s]
    }
}

/// The lines of a text.
pub fn lines_of(s: &str) -> (r: Vec<String>)
    ensures
        crate::json::texts(r@) == lines(s@),
{
    let v = chars_of(s);
    let n: usize = v.len();
    let mut r: Vec<String> = Vec::new();
    let mut start: usize = 0;
    let mut i: usize = 0;
    assert(v@.subrange(0, n as int) =~= s@);
    assert(crate::json::texts(r@) + lines(s@) =~= lines(s@));
    while i < n
        invariant
            start <= i <= n == v@.len(),
            forall|j: int| start <= j < i ==> v@[j] != '\n',
            crate::json::texts(r@) + lines(v@.subrange(start as int, n as int)) == lines(s@),
        decreases n - i,
    {
        if v[i] == '\n' {
            let end: usize = if i > start && v[i - 1] == '\r' {
                i - 1
            } else {
                i
            };
            let line = text_of(&v, start, end);
            proof {
                let rest = v@.subrange(start as int, n as int);
                let k = i - start;
                assert(rest[k] == '\n');
                rest.index_of_first_ensures('\n');
                assert(rest.contains('\n'));
                assert(rest.index_of_first('\n') == Some(k));
                assert(rest.subrange(0, k) =~= v@.subrange(start as int, i as int));
                assert(without_cr(rest.subrange(0, k)) =~= line@);
                assert(rest.subrange(k + 1, rest.len() as int) =~= v@.subrange(i + 1, n as int));
            }
            let ghost seen = crate::json::texts(r@);
            r.push(line);
            proof {
                assert(crate::json::texts(r@) =~= seen.push(line@));
                let tail = lines(v@.subrange(i + 1, n as int));
                assert(seen.push(line@) + tail =~= seen + (seq![line@] + tail));
            }
            start = i + 1;
        }
        i = i + 1;
    }
    if start < n {
        let line = text_of(&v, start, n);
        let ghost seen = crate::json::texts(r@);
        r.push(line);
        proof {
            let rest = v@.subrange(start as int, n as int);
            assert(!rest.contains('\n')) by {
                if rest.contains('\n') {
                    let j = rest.index_of('\n');
                    assert(v@[start + j] == '\n');
                }
            }
            assert(crate::json::texts(r@) =~= seen + seq![line@]);
        }
    } else {
        assert(v@.subrange(start as int, n as int).len() == 0);
        assert(crate::json::texts(r@) =~= lines(s@));
    }
    r
}

// ── Order ────────────────────────────────────────────────────────────────

/// Whether `a` stands before `b` in the dictionary order of characters, or is the same.
pub open spec fn not_after(a: Seq<char>, b: Seq<char>) -> bool
    decreases a.len(),
{
    if a.len() == 0 {
        true
    } else if b.len() == 0 {
        false
    } else if a[0] == b[0] {
        not_after(a.drop_first(), b.drop_first())
    } else {
        a[0] < b[0]
    }
}

/// Whether the texts stand in dictionary order.
pub open spec fn in_order(s: Seq<Seq<char>>) -> bool {
    forall|i: int, j: int| 0 <= i < j < s.len() ==> not_after(#[trigger] s[i], #[trigger] s[j])
}

/// Dictionary order is transitive.
proof fn lemma_order_transitive(a: Seq<char>, b: Seq<char>, c: Seq<char>)
    requires
        not_after(a, b),
        not_after(b, c),
    ensures
        not_after(a, c),
    decreases a.len(),
{
    if a.len() > 0 && b.len() > 0 && c.len() > 0 && a[0] == b[0] && b[0] == c[0] {
        lemma_order_transitive(a.drop_first(), b.drop_first(), c.drop_first());
    }
}

/// Dictionary order is total.
proof fn lemma_order_total(a: Seq<char>, b: Seq<char>)
    ensures
        not_after(a, b) || not_after(b, a),
    decreases a.len(),
{
    if a.len() > 0 && b.len() > 0 && a[0] == b[0] {
        lemma_order_total(a.drop_first(), b.drop_first());
    }
}

/// Texts that start with the same characters stand in the order of the rest.
proof fn lemma_order_skip(a: Seq<char>, b: Seq<char>, k: int)
    requires
        0 <= k <= a.len(),
        k <= b.len(),
        forall|j: int| 0 <= j < k ==> a[j] == b[j],
    ensures
        not_after(a, b) == not_after(a.skip(k), b.skip(k)),
    decreases k,
{
    if k > 0 {
        lemma_order_skip(a, b, k - 1);
        let x = a.skip(k - 1);
        let y = b.skip(k - 1);
        assert(x.drop_first() =~= a.skip(k));
        assert(y.drop_first() =~= b.skip(k));
        assert(x[0] == a[k - 1] && y[0] == b[k - 1]);
    } else {
        assert(a.skip(0) =~= a);
        assert(b.skip(0) =~= b);
    }
}

/// Whether `a` stands before `b` in dictionary order, or is the same.
pub fn is_not_after(a: &str, b: &str) -> (r: bool)
    ensures
        r == not_after(a@, b@),
{
    let x = chars_of(a);
    let y = chars_of(b);
    let mut k: usize = 0;
    while k < x.len() && k < y.len() && x[k] == y[k]
        invariant
            k <= x@.len(),
            k <= y@.len(),
            forall|j: int| 0 <= j < k ==> x@[j] == y@[j],
        decreases x@.len() - k,
    {
        k = k + 1;
    }
    proof {
        lemma_order_skip(x@, y@, k as int);
        if k < x@.len() {
            assert(x@.skip(k as int)[0] == x@[k as int]);
        }
        if k < y@.len() {
            assert(y@.skip(k as int)[0] == y@[k as int]);
        }
    }
    if k == x.len() {
        true
    } else if k == y.len() {
        false
    } else {
        x[k] < y[k]
    }
}

/// Puts a text at its place in a list in dictionary order. Gives back the place.
pub(crate) fn insert_in_order(v: &mut Vec<String>, s: String) -> (p: usize)
    requires
        in_order(crate::json::texts(old(v)@)),
    ensures
        in_order(crate::json::texts(final(v)@)),
        p <= old(v)@.len(),
        final(v)@ == old(v)@.insert(p as int, s),
{
    let ghost t = crate::json::texts(v@);
    let mut p: usize = 0;
    while p < v.len() && is_not_after(v[p].as_str(), s.as_str())
        invariant
            p <= v@.len(),
            t == crate::json::texts(v@),
            forall|i: int| 0 <= i < p ==> not_after(#[trigger] t[i], s@),
        decreases v@.len() - p,
    {
        assert(t[p as int] == v@[p as int]@);
        p = p + 1;
    }
    proof {
        if p < v@.len() {
            assert(t[p as int] == v@[p as int]@);
            lemma_order_total(t[p as int], s@);
        }
        assert forall|i: int| p <= i < t.len() implies not_after(s@, #[trigger] t[i]) by {
            if i > p {
                lemma_order_transitive(s@, t[p as int], t[i]);
            }
        }
    }
    v.insert(p, s);
    proof {
        assert(crate::json::texts(v@) =~= t.insert(p as int, s@));
    }
    p
}

} // verus!
