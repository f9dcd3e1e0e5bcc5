//! A reader that walks MessagePack data without building a tree.
//!
//! Lengths and numbers are decoded by `rmp`. A reader stands on the bytes that are still to be read;
//! what each step finds there, and where it leaves the reader, is a function of those bytes.
use crate::text::str_eq;
use vstd::prelude::*;
use vstd::slice::slice_subrange;

verus! {

/// Why a step failed.
#[derive(Debug, Clone, Copy, PartialEq, Eq, Structural)]
pub enum MsgpackError {
    /// The value is of another type, or its text is not valid.
    Mismatch,
    /// The data ends inside the value.
    CutShort,
    /// A map lacks the key that was looked for.
    KeyNotFound,
}

/// The bytes that are still to be read.
pub struct Reader<'a> {
    pub rest: &'a [u8],
}

impl<'a> View for Reader<'a> {
    type V = Seq<u8>;

    open spec fn view(&self) -> Seq<u8> {
        self.rest@
    }
}

/// A number that may be a float: the bits of one, or an integer.
#[derive(Debug, Clone, Copy, PartialEq, Eq, Structural)]
pub enum Fraction {
    Double(u64),
    Single(u32),
    Whole(i64),
}

impl View for Fraction {
    type V = Fraction;

    open spec fn view(&self) -> Fraction {
        *self
    }
}

impl Fraction {
    /// Whether the number is above zero. The bits of a float that is run from one to those of
    /// infinity; above them stand what is not a number and everything with a minus sign.
    pub open spec fn positive(self) -> bool {
        match self {
            Fraction::Double(b) => 1 <= b <= 0x7ff0_0000_0000_0000,
            Fraction::Single(b) => 1 <= b <= 0x7f80_0000,
            Fraction::Whole(v) => v > 0,
        }
    }

    /// Whether the number is above zero.
    pub fn is_positive(&self) -> (r: bool)
        ensures
            r == self.positive(),
    {
        match *self {
            Fraction::Double(b) => 1 <= b && b <= 0x7ff0_0000_0000_0000,
            Fraction::Single(b) => 1 <= b && b <= 0x7f80_0000,
            Fraction::Whole(v) => v > 0,
        }
    }
}

// ── What stands in the data, mathematically ──────────────────────────────

/// What a step finds: a value and the bytes behind it; a value that does not fit, and the bytes that
/// the reader is left on; or data that ends too soon.
pub enum Out<T> {
    Good(T, Seq<u8>),
    Bad(Seq<u8>),
    Cut,
}

/// The big-endian number in the first `k` bytes.
pub open spec fn be(s: Seq<u8>, k: int) -> nat
    decreases k,
{
    if k <= 0 {
        0
    } else {
        be(s, k - 1) * 256 + s[k - 1] as nat
    }
}

/// A number of `k` bytes behind a marker.
pub open spec fn number(s: Seq<u8>, k: int) -> Out<nat> {
    if s.len() < 1 + k {
        Out::Cut
    } else {
        Out::Good(be(s.skip(1), k), s.skip(1 + k))
    }
}

/// A length in a marker of its own, or in the two or four bytes behind one.
pub open spec fn length(s: Seq<u8>, lo: u8, hi: u8, m8: Option<u8>, m16: u8, m32: u8) -> Out<nat> {
    if s.len() == 0 {
        Out::Cut
    } else if lo <= s[0] <= hi {
        Out::Good((s[0] - lo) as nat, s.skip(1))
    } else if Some(s[0]) == m8 {
        number(s, 1)
    } else if s[0] == m16 {
        number(s, 2)
    } else if s[0] == m32 {
        number(s, 4)
    } else {
        Out::Bad(s.skip(1))
    }
}

/// The number of entries of a map.
pub open spec fn map_length(s: Seq<u8>) -> Out<nat> {
    length(s, 0x80, 0x8f, None, 0xde, 0xdf)
}

/// The number of items of an array.
pub open spec fn array_length(s: Seq<u8>) -> Out<nat> {
    length(s, 0x90, 0x9f, None, 0xdc, 0xdd)
}

/// The number of bytes of a string.
pub open spec fn text_length(s: Seq<u8>) -> Out<nat> {
    length(s, 0xa0, 0xbf, Some(0xd9), 0xda, 0xdb)
}

/// A string.
pub open spec fn text(s: Seq<u8>) -> Out<Seq<char>> {
    match text_length(s) {
        Out::Good(n, t) => if n <= t.len() && vstd::utf8::valid_utf8(t.take(n as int)) {
            Out::Good(vstd::utf8::decode_utf8(t.take(n as int)), t.skip(n as int))
        } else {
            Out::Bad(t)
        },
        Out::Bad(t) => Out::Bad(t),
        Out::Cut => Out::Cut,
    }
}

/// The signed reading of a number of `bits` bits.
pub open spec fn signed(n: nat, half: nat) -> int {
    if n < half {
        n as int
    } else {
        n - 2 * half
    }
}

/// A number read as signed.
pub open spec fn signed_out(o: Out<nat>, half: nat) -> Out<i64> {
    match o {
        Out::Good(n, t) => Out::Good(signed(n, half) as i64, t),
        Out::Bad(t) => Out::Bad(t),
        Out::Cut => Out::Cut,
    }
}

/// An integer. Unsigned numbers of 64 bits are read as signed.
pub open spec fn int_value(s: Seq<u8>) -> Out<i64> {
    if s.len() == 0 {
        Out::Cut
    } else if s[0] <= 0x7f {
        Out::Good(s[0] as i64, s.skip(1))
    } else if s[0] >= 0xe0 {
        Out::Good((s[0] - 256) as i64, s.skip(1))
    } else if s[0] == 0xcc {
        signed_out(number(s, 1), 0x1_0000)
    } else if s[0] == 0xcd {
        signed_out(number(s, 2), 0x1_0000_0000)
    } else if s[0] == 0xce {
        signed_out(number(s, 4), 0x1_0000_0000_0000)
    } else if s[0] == 0xcf {
        signed_out(number(s, 8), 0x8000_0000_0000_0000)
    } else if s[0] == 0xd0 {
        signed_out(number(s, 1), 0x80)
    } else if s[0] == 0xd1 {
        signed_out(number(s, 2), 0x8000)
    } else if s[0] == 0xd2 {
        signed_out(number(s, 4), 0x8000_0000)
    } else if s[0] == 0xd3 {
        signed_out(number(s, 8), 0x8000_0000_0000_0000)
    } else {
        Out::Bad(s.skip(1))
    }
}

/// What stands behind a marker.
#[derive(Debug, Clone, Copy, PartialEq, Eq, Structural)]
pub enum Shape {
    /// So many bytes.
    Fixed(u64),
    /// A length of so many bytes, and behind it that many bytes and so many more.
    Sized(u64, u64),
    /// So many values.
    Values(u64),
    /// A length of so many bytes, and behind it that many times so many values.
    SizedValues(u64, u64),
    /// The marker is not in use.
    Unused,
}

/// What stands behind each marker.
pub open spec fn shape(b: u8) -> Shape {
    if b <= 0x7f || b >= 0xe0 || b == 0xc0 || b == 0xc2 || b == 0xc3 {
        Shape::Fixed(0)
    } else if b <= 0x8f {
        Shape::Values((2 * (b - 0x80)) as u64)
    } else if b <= 0x9f {
        Shape::Values((b - 0x90) as u64)
    } else if b <= 0xbf {
        Shape::Fixed((b - 0xa0) as u64)
    } else if b == 0xc1 {
        Shape::Unused
    } else if b == 0xc4 || b == 0xd9 {
        Shape::Sized(1, 0)
    } else if b == 0xc5 || b == 0xda {
        Shape::Sized(2, 0)
    } else if b == 0xc6 || b == 0xdb {
        Shape::Sized(4, 0)
    } else if b == 0xc7 {
        Shape::Sized(1, 1)
    } else if b == 0xc8 {
        Shape::Sized(2, 1)
    } else if b == 0xc9 {
        Shape::Sized(4, 1)
    } else if b == 0xcc || b == 0xd0 {
        Shape::Fixed(1)
    } else if b == 0xcd || b == 0xd1 || b == 0xd4 {
        Shape::Fixed(2)
    } else if b == 0xd5 {
        Shape::Fixed(3)
    } else if b == 0xce || b == 0xd2 || b == 0xca {
        Shape::Fixed(4)
    } else if b == 0xd6 {
        Shape::Fixed(5)
    } else if b == 0xcf || b == 0xd3 || b == 0xcb {
        Shape::Fixed(8)
    } else if b == 0xd7 {
        Shape::Fixed(9)
    } else if b == 0xd8 {
        Shape::Fixed(17)
    } else if b == 0xdc {
        Shape::SizedValues(2, 1)
    } else if b == 0xdd {
        Shape::SizedValues(4, 1)
    } else if b == 0xde {
        Shape::SizedValues(2, 2)
    } else {
        Shape::SizedValues(4, 2)
    }
}

/// The data behind so many bytes.
pub open spec fn past(t: Seq<u8>, n: int) -> Out<()> {
    if n <= t.len() {
        Out::Good((), t.skip(n))
    } else {
        Out::Cut
    }
}

/// The data behind one value of any kind.
pub open spec fn skipped(s: Seq<u8>) -> Out<()>
    decreases s.len(), 0int,
{
    if s.len() == 0 {
        Out::Cut
    } else {
        let t = s.skip(1);
        match shape(s[0]) {
            Shape::Fixed(n) => past(t, n as int),
            Shape::Sized(k, e) => if k > t.len() {
                Out::Cut
            } else {
                past(t.skip(k as int), be(t, k as int) + e)
            },
            Shape::Values(n) => skipped_n(t, n as nat),
            Shape::SizedValues(k, per) => if k > t.len() {
                Out::Cut
            } else {
                skipped_n(t.skip(k as int), be(t, k as int) * per as nat)
            },
            Shape::Unused => Out::Bad(t),
        }
    }
}

/// The data behind so many values.
pub open spec fn skipped_n(s: Seq<u8>, n: nat) -> Out<()>
    decreases s.len(), n + 1,
{
    if n == 0 {
        Out::Good((), s)
    } else {
        match skipped(s) {
            Out::Good(_, t) => if t.len() < s.len() {
                skipped_n(t, (n - 1) as nat)
            } else {
                Out::Cut
            },
            Out::Bad(t) => Out::Bad(t),
            Out::Cut => Out::Cut,
        }
    }
}

/// The value of a key among the next `n` entries of a map: the data from the value on.
pub open spec fn seek(s: Seq<u8>, n: nat, key: Seq<char>) -> Option<Seq<u8>>
    decreases n,
{
    if n == 0 {
        None
    } else {
        match text(s) {
            Out::Good(k, t) => if k == key {
                Some(t)
            } else {
                match skipped(t) {
                    Out::Good(_, u) => seek(u, (n - 1) as nat, key),
                    _ => None,
                }
            },
            _ => None,
        }
    }
}

/// The value of a key of the map that stands first.
pub open spec fn seek_map(s: Seq<u8>, key: Seq<char>) -> Option<Seq<u8>> {
    match map_length(s) {
        Out::Good(n, t) => seek(t, n, key),
        _ => None,
    }
}

// ── Decoding by rmp ──────────────────────────────────────────────────────

/// What `rmp` made of the bytes.
pub enum Decoded<'a> {
    Good(u32, &'a [u8]),
    Mismatch,
    Cut,
}

impl<'a> Decoded<'a> {
    /// Whether this is what the bytes hold.
    pub open spec fn is(self, o: Out<nat>) -> bool {
        match self {
            Decoded::Good(n, t) => o == Out::Good(n as nat, t@),
            Decoded::Mismatch => o is Bad,
            Decoded::Cut => o is Cut,
        }
    }
}

/// Calls `rmp::decode::read_marker` and `Marker::to_u8`. The marker of a value is its first byte, and
/// the rest is what follows.
#[verifier::external_body]
fn marker<'a>(s: &'a [u8]) -> (r: Option<(u8, &'a [u8])>)
    ensures
        match r {
            Some((b, t)) => s@.len() > 0 && b == s@[0] && t@ == s@.skip(1),
            None => s@.len() == 0,
        },
{
    let mut cur = s;
    let m = rmp::decode::read_marker(&mut cur).ok()?;
    Some((m.to_u8(), cur))
}

/// Calls `RmpRead::read_data_u8`, which reads one byte.
#[verifier::external_body]
fn data_u8<'a>(s: &'a [u8]) -> (r: Option<(u8, &'a [u8])>)
    ensures
        match r {
            Some((n, t)) => s@.len() >= 1 && n == be(s@, 1) && t@ == s@.skip(1),
            None => s@.len() < 1,
        },
{
    let mut cur = s;
    let n = rmp::decode::RmpRead::read_data_u8(&mut cur).ok()?;
    Some((n, cur))
}

/// Calls `RmpRead::read_data_u16`, which reads two bytes, the high one first.
#[verifier::external_body]
fn data_u16<'a>(s: &'a [u8]) -> (r: Option<(u16, &'a [u8])>)
    ensures
        match r {
            Some((n, t)) => s@.len() >= 2 && n == be(s@, 2) && t@ == s@.skip(2),
            None => s@.len() < 2,
        },
{
    let mut cur = s;
    let n = rmp::decode::RmpRead::read_data_u16(&mut cur).ok()?;
    Some((n, cur))
}

/// Calls `RmpRead::read_data_u32`, which reads four bytes, the highest first.
#[verifier::external_body]
fn data_u32<'a>(s: &'a [u8]) -> (r: Option<(u32, &'a [u8])>)
    ensures
        match r {
            Some((n, t)) => s@.len() >= 4 && n == be(s@, 4) && t@ == s@.skip(4),
            None => s@.len() < 4,
        },
{
    let mut cur = s;
    let n = rmp::decode::RmpRead::read_data_u32(&mut cur).ok()?;
    Some((n, cur))
}

/// Calls `RmpRead::read_data_u64`, which reads eight bytes, the highest first.
#[verifier::external_body]
fn data_u64<'a>(s: &'a [u8]) -> (r: Option<(u64, &'a [u8])>)
    ensures
        match r {
            Some((n, t)) => s@.len() >= 8 && n == be(s@, 8) && t@ == s@.skip(8),
            None => s@.len() < 8,
        },
{
    let mut cur = s;
    let n = rmp::decode::RmpRead::read_data_u64(&mut cur).ok()?;
    Some((n, cur))
}

/// Calls `rmp::decode::read_map_len`. A map starts with a marker that holds the number of its
/// entries, or with one of two markers and the number behind it in two or four bytes.
#[verifier::external_body]
fn decode_map_len<'a>(s: &'a [u8]) -> (r: Decoded<'a>)
    ensures
        r.is(map_length(s@)),
{
    let mut cur = s;
    match rmp::decode::read_map_len(&mut cur) {
        Ok(n) => Decoded::Good(n, cur),
        Err(rmp::decode::ValueReadError::TypeMismatch(_)) => Decoded::Mismatch,
        Err(_) => Decoded::Cut,
    }
}

/// Calls `rmp::decode::read_array_len`. An array starts like a map, with markers of its own.
#[verifier::external_body]
fn decode_array_len<'a>(s: &'a [u8]) -> (r: Decoded<'a>)
    ensures
        r.is(array_length(s@)),
{
    let mut cur = s;
    match rmp::decode::read_array_len(&mut cur) {
        Ok(n) => Decoded::Good(n, cur),
        Err(rmp::decode::ValueReadError::TypeMismatch(_)) => Decoded::Mismatch,
        Err(_) => Decoded::Cut,
    }
}

/// Calls `rmp::decode::read_str_len`. A string starts with a marker that holds the number of its
/// bytes, or with one of three markers and the number behind it in one, two or four bytes.
#[verifier::external_body]
fn decode_str_len<'a>(s: &'a [u8]) -> (r: Decoded<'a>)
    ensures
        r.is(text_length(s@)),
{
    let mut cur = s;
    match rmp::decode::read_str_len(&mut cur) {
        Ok(n) => Decoded::Good(n, cur),
        Err(rmp::decode::ValueReadError::TypeMismatch(_)) => Decoded::Mismatch,
        Err(_) => Decoded::Cut,
    }
}

/// Calls `std::str::from_utf8`, which gives the text that the bytes encode, where they are valid
/// UTF-8.
#[verifier::external_body]
fn utf8<'a>(s: &'a [u8]) -> (r: Option<&'a str>)
    ensures
        match r {
            Some(t) => vstd::utf8::valid_utf8(s@) && t@ == vstd::utf8::decode_utf8(s@),
            None => !vstd::utf8::valid_utf8(s@),
        },
{
    std::str::from_utf8(s).ok()
}

// ── The reader ───────────────────────────────────────────────────────────

/// Whether the outcome of a step, and where it left the reader, are what the bytes hold.
pub open spec fn reads<T>(o: Out<T>, r: Result<T, MsgpackError>, rest: Seq<u8>) -> bool {
    match o {
        Out::Good(v, t) => r == Ok::<T, MsgpackError>(v) && rest == t,
        Out::Bad(t) => r == Err::<T, MsgpackError>(MsgpackError::Mismatch) && rest == t,
        Out::Cut => r == Err::<T, MsgpackError>(MsgpackError::CutShort),
    }
}

impl<'a> Reader<'a> {
    pub fn new(data: &'a [u8]) -> (r: Reader<'a>)
        ensures
            r@ == data@,
    {
        Reader { rest: data }
    }

    /// The marker of the next value.
    pub fn peek_marker(&self) -> (r: Option<u8>)
        ensures
            r == (if self@.len() > 0 {
                Some(self@[0])
            } else {
                None
            }),
    {
        match marker(self.rest) {
            Some((b, _)) => Some(b),
            None => None,
        }
    }

    fn advance(&mut self, n: usize)
        requires
            n <= old(self)@.len(),
        ensures
            final(self)@ == old(self)@.skip(n as int),
    {
        let ghost before = self@;
        self.rest = slice_subrange(self.rest, n, self.rest.len());
        assert(self@ =~= before.skip(n as int));
    }

    /// Passes all that is left.
    pub fn end(&mut self)
        ensures
            final(self)@ == Seq::<u8>::empty(),
    {
        let n: usize = self.rest.len();
        self.advance(n);
        assert(self@ =~= Seq::<u8>::empty());
    }

    /// Reads the number of entries of a map.
    pub fn read_map_len(&mut self) -> (r: Result<u32, MsgpackError>)
        ensures
            match map_length(old(self)@) {
                Out::Good(n, t) => r is Ok && r->Ok_0 == n && final(self)@ == t,
                Out::Bad(t) => r == Err::<u32, MsgpackError>(MsgpackError::Mismatch) && final(self)@ == t,
                Out::Cut => r == Err::<u32, MsgpackError>(MsgpackError::CutShort),
            },
    {
        match decode_map_len(self.rest) {
            Decoded::Good(n, t) => {
                self.rest = t;
                Ok(n)
            },
            Decoded::Mismatch => {
                self.advance(1);
                Err(MsgpackError::Mismatch)
            },
            Decoded::Cut => Err(MsgpackError::CutShort),
        }
    }

    /// Reads the number of items of an array.
    pub fn read_array_len(&mut self) -> (r: Result<u32, MsgpackError>)
        ensures
            match array_length(old(self)@) {
                Out::Good(n, t) => r is Ok && r->Ok_0 == n && final(self)@ == t,
                Out::Bad(t) => r == Err::<u32, MsgpackError>(MsgpackError::Mismatch) && final(self)@ == t,
                Out::Cut => r == Err::<u32, MsgpackError>(MsgpackError::CutShort),
            },
    {
        match decode_array_len(self.rest) {
            Decoded::Good(n, t) => {
                self.rest = t;
                Ok(n)
            },
            Decoded::Mismatch => {
                self.advance(1);
                Err(MsgpackError::Mismatch)
            },
            Decoded::Cut => Err(MsgpackError::CutShort),
        }
    }

    /// Read a msgpack string, returning a borrowed &str (zero-copy).
    pub fn read_str_ref(&mut self) -> (r: Result<&'a str, MsgpackError>)
        ensures
            match text(old(self)@) {
                Out::Good(s, t) => r is Ok && r->Ok_0@ == s && final(self)@ == t,
                Out::Bad(t) => r == Err::<&'a str, MsgpackError>(MsgpackError::Mismatch) && final(self)@ == t,
                Out::Cut => r == Err::<&'a str, MsgpackError>(MsgpackError::CutShort),
            },
    {
        match decode_str_len(self.rest) {
            Decoded::Good(n, t) => {
                self.rest = t;
                let k: usize = n as usize;
                if k > self.rest.len() {
                    return Err(MsgpackError::Mismatch);
                }
                let bytes = slice_subrange(self.rest, 0, k);
                assert(bytes@ =~= t@.take(k as int));
                match utf8(bytes) {
                    Some(s) => {
                        self.advance(k);
                        Ok(s)
                    },
                    None => Err(MsgpackError::Mismatch),
                }
            },
            Decoded::Mismatch => {
                self.advance(1);
                Err(MsgpackError::Mismatch)
            },
            Decoded::Cut => Err(MsgpackError::CutShort),
        }
    }

    /// Read a msgpack string into an owned String.
    pub fn read_str(&mut self) -> (r: Result<String, MsgpackError>)
        ensures
            match text(old(self)@) {
                Out::Good(s, t) => r is Ok && r->Ok_0@ == s && final(self)@ == t,
                Out::Bad(t) => r == Err::<String, MsgpackError>(MsgpackError::Mismatch) && final(self)@ == t,
                Out::Cut => r == Err::<String, MsgpackError>(MsgpackError::CutShort),
            },
    {
        match self.read_str_ref() {
            Ok(s) => Ok(s.to_owned()),
            Err(e) => Err(e),
        }
    }

    /// Reads an integer.
    pub fn read_int(&mut self) -> (r: Result<i64, MsgpackError>)
        ensures
            reads(int_value(old(self)@), r, final(self)@),
    {
        let ghost s = self@;
        let (b, t): (u8, &'a [u8]) = match marker(self.rest) {
            Some(p) => p,
            None => {
                return Err(MsgpackError::CutShort);
            },
        };
        proof {
            assert(forall|k: int| 0 <= k <= t@.len() ==> #[trigger] t@.skip(k) =~= s.skip(1 + k));
        }
        if b <= 0x7f {
            self.rest = t;
            Ok(b as i64)
        } else if b >= 0xe0 {
            self.rest = t;
            Ok(b as i64 - 256)
        } else if b == 0xcc || b == 0xd0 {
            match data_u8(t) {
                Some((n, u)) => {
                    assert(be(t@, 1) == n);
                    self.rest = u;
                    if b == 0xd0 && n >= 0x80 {
                        Ok(n as i64 - 0x100)
                    } else {
                        Ok(n as i64)
                    }
                },
                None => Err(MsgpackError::CutShort),
            }
        } else if b == 0xcd || b == 0xd1 {
            match data_u16(t) {
                Some((n, u)) => {
                    self.rest = u;
                    if b == 0xd1 && n >= 0x8000 {
                        Ok(n as i64 - 0x1_0000)
                    } else {
                        Ok(n as i64)
                    }
                },
                None => Err(MsgpackError::CutShort),
            }
        } else if b == 0xce || b == 0xd2 {
            match data_u32(t) {
                Some((n, u)) => {
                    self.rest = u;
                    if b == 0xd2 && n >= 0x8000_0000 {
                        Ok(n as i64 - 0x1_0000_0000)
                    } else {
                        Ok(n as i64)
                    }
                },
                None => Err(MsgpackError::CutShort),
            }
        } else if b == 0xcf || b == 0xd3 {
            match data_u64(t) {
                Some((n, u)) => {
                    self.rest = u;
                    if n >= 0x8000_0000_0000_0000 {
                        Ok((n as i128 - 0x1_0000_0000_0000_0000) as i64)
                    } else {
                        Ok(n as i64)
                    }
                },
                None => Err(MsgpackError::CutShort),
            }
        } else {
            self.rest = t;
            Err(MsgpackError::Mismatch)
        }
    }
}

/// A float, or an integer of at most 32 bits in its place. A negative number in its marker does not
/// count as one.
pub open spec fn float_value(s: Seq<u8>) -> Out<Fraction> {
    if s.len() == 0 {
        Out::Cut
    } else if s[0] == 0xcb {
        match number(s, 8) {
            Out::Good(n, t) => Out::Good(Fraction::Double(n as u64), t),
            _ => Out::Cut,
        }
    } else if s[0] == 0xca {
        match number(s, 4) {
            Out::Good(n, t) => Out::Good(Fraction::Single(n as u32), t),
            _ => Out::Cut,
        }
    } else if s[0] >= 0xe0 || s[0] == 0xcf || s[0] == 0xd3 {
        Out::Bad(s.skip(1))
    } else {
        match int_value(s) {
            Out::Good(v, t) => Out::Good(Fraction::Whole(v), t),
            Out::Bad(t) => Out::Bad(t),
            Out::Cut => Out::Cut,
        }
    }
}

impl<'a> Reader<'a> {
    /// Reads a float.
    pub fn read_float(&mut self) -> (r: Result<Fraction, MsgpackError>)
        ensures
            reads(float_value(old(self)@), r, final(self)@),
    {
        let ghost s = self@;
        let (b, t): (u8, &'a [u8]) = match marker(self.rest) {
            Some(p) => p,
            None => {
                return Err(MsgpackError::CutShort);
            },
        };
        proof {
            assert(forall|k: int| 0 <= k <= t@.len() ==> #[trigger] t@.skip(k) =~= s.skip(1 + k));
        }
        if b == 0xcb {
            match data_u64(t) {
                Some((n, u)) => {
                    self.rest = u;
                    Ok(Fraction::Double(n))
                },
                None => Err(MsgpackError::CutShort),
            }
        } else if b == 0xca {
            match data_u32(t) {
                Some((n, u)) => {
                    self.rest = u;
                    Ok(Fraction::Single(n))
                },
                None => Err(MsgpackError::CutShort),
            }
        } else if b >= 0xe0 || b == 0xcf || b == 0xd3 {
            self.rest = t;
            Err(MsgpackError::Mismatch)
        } else {
            match self.read_int() {
                Ok(v) => Ok(Fraction::Whole(v)),
                Err(e) => Err(e),
            }
        }
    }
}

// ── Skipping ─────────────────────────────────────────────────────────────

/// Skipping a value moves forward, and leaves the reader on the end of what it stood on.
pub proof fn law_skip_moves_forward(s: Seq<u8>)
    ensures
        skipped(s) matches Out::Good(_, t) ==> t.len() < s.len() && t == s.skip(s.len() - t.len()),
    decreases s.len(), 0int,
{
    if s.len() > 0 {
        let t = s.skip(1);
        match shape(s[0]) {
            Shape::Fixed(n) => {
                if n <= t.len() {
                    assert(t.skip(n as int) =~= s.skip(1 + n));
                }
            },
            Shape::Sized(k, e) => {
                if k <= t.len() {
                    let u = t.skip(k as int);
                    let n = be(t, k as int) + e;
                    if n <= u.len() {
                        assert(u.skip(n as int) =~= s.skip(1 + k + n));
                    }
                }
            },
            Shape::Values(n) => {
                lemma_skips_move_forward(t, n as nat);
                if let Out::Good(_, u) = skipped_n(t, n as nat) {
                    assert(t.skip(t.len() - u.len()) =~= s.skip(s.len() - u.len()));
                }
            },
            Shape::SizedValues(k, per) => {
                if k <= t.len() {
                    let v = t.skip(k as int);
                    let n = be(t, k as int) * per as nat;
                    lemma_skips_move_forward(v, n);
                    if let Out::Good(_, u) = skipped_n(v, n) {
                        assert(v.skip(v.len() - u.len()) =~= s.skip(s.len() - u.len()));
                    }
                }
            },
            Shape::Unused => {},
        }
    }
}

proof fn lemma_skips_move_forward(s: Seq<u8>, n: nat)
    ensures
        skipped_n(s, n) matches Out::Good(_, t) ==> t.len() <= s.len() && t == s.skip(
            s.len() - t.len(),
        ),
    decreases s.len(), n + 1,
{
    if n == 0 {
        assert(s.skip(0) =~= s);
    } else {
        law_skip_moves_forward(s);
        if let Out::Good(_, t) = skipped(s) {
            lemma_skips_move_forward(t, (n - 1) as nat);
            if let Out::Good(_, u) = skipped_n(t, (n - 1) as nat) {
                assert(t.skip(t.len() - u.len()) =~= s.skip(s.len() - u.len()));
            }
        }
    }
}

fn shape_of(b: u8) -> (r: Shape)
    ensures
        r == shape(b),
{
    if b <= 0x7f || b >= 0xe0 || b == 0xc0 || b == 0xc2 || b == 0xc3 {
        Shape::Fixed(0)
    } else if b <= 0x8f {
        Shape::Values(2 * ((b - 0x80) as u64))
    } else if b <= 0x9f {
        Shape::Values((b - 0x90) as u64)
    } else if b <= 0xbf {
        Shape::Fixed((b - 0xa0) as u64)
    } else if b == 0xc1 {
        Shape::Unused
    } else if b == 0xc4 || b == 0xd9 {
        Shape::Sized(1, 0)
    } else if b == 0xc5 || b == 0xda {
        Shape::Sized(2, 0)
    } else if b == 0xc6 || b == 0xdb {
        Shape::Sized(4, 0)
    } else if b == 0xc7 {
        Shape::Sized(1, 1)
    } else if b == 0xc8 {
        Shape::Sized(2, 1)
    } else if b == 0xc9 {
        Shape::Sized(4, 1)
    } else if b == 0xcc || b == 0xd0 {
        Shape::Fixed(1)
    } else if b == 0xcd || b == 0xd1 || b == 0xd4 {
        Shape::Fixed(2)
    } else if b == 0xd5 {
        Shape::Fixed(3)
    } else if b == 0xce || b == 0xd2 || b == 0xca {
        Shape::Fixed(4)
    } else if b == 0xd6 {
        Shape::Fixed(5)
    } else if b == 0xcf || b == 0xd3 || b == 0xcb {
        Shape::Fixed(8)
    } else if b == 0xd7 {
        Shape::Fixed(9)
    } else if b == 0xd8 {
        Shape::Fixed(17)
    } else if b == 0xdc {
        Shape::SizedValues(2, 1)
    } else if b == 0xdd {
        Shape::SizedValues(4, 1)
    } else if b == 0xde {
        Shape::SizedValues(2, 2)
    } else {
        Shape::SizedValues(4, 2)
    }
}

impl<'a> Reader<'a> {
    /// A length of one, two or four bytes.
    fn read_length(&mut self, k: u64) -> (r: Option<u64>)
        requires
            k == 1 || k == 2 || k == 4,
        ensures
            match r {
                Some(n) => k <= old(self)@.len() && n == be(old(self)@, k as int) && n < 0x1_0000_0000
                    && final(self)@ == old(self)@.skip(k as int),
                None => k > old(self)@.len(),
            },
    {
        if k == 1 {
            match data_u8(self.rest) {
                Some((n, t)) => {
                    self.rest = t;
                    Some(n as u64)
                },
                None => None,
            }
        } else if k == 2 {
            match data_u16(self.rest) {
                Some((n, t)) => {
                    self.rest = t;
                    Some(n as u64)
                },
                None => None,
            }
        } else {
            match data_u32(self.rest) {
                Some((n, t)) => {
                    self.rest = t;
                    Some(n as u64)
                },
                None => None,
            }
        }
    }

    fn skip_bytes(&mut self, n: u64) -> (r: Result<(), MsgpackError>)
        ensures
            reads(past(old(self)@, n as int), r, final(self)@),
    {
        if n <= self.rest.len() as u64 {
            self.advance(n as usize);
            Ok(())
        } else {
            Err(MsgpackError::CutShort)
        }
    }

    /// Skip a single msgpack value without allocating.
    pub fn skip_value(&mut self) -> (r: Result<(), MsgpackError>)
        ensures
            reads(skipped(old(self)@), r, final(self)@),
            r is Ok ==> final(self)@.len() < old(self)@.len(),
        decreases old(self)@.len(), 0int,
    {
        proof {
            law_skip_moves_forward(self@);
        }
        let (b, t): (u8, &'a [u8]) = match marker(self.rest) {
            Some(p) => p,
            None => {
                return Err(MsgpackError::CutShort);
            },
        };
        self.rest = t;
        match shape_of(b) {
            Shape::Fixed(n) => self.skip_bytes(n),
            Shape::Sized(k, e) => match self.read_length(k) {
                Some(n) => self.skip_bytes(n + e),
                None => Err(MsgpackError::CutShort),
            },
            Shape::Values(n) => self.skip_values(n),
            Shape::SizedValues(k, per) => match self.read_length(k) {
                Some(n) => {
                    assert(n * per <= 2 * 0x1_0000_0000) by (nonlinear_arith)
                        requires
                            n < 0x1_0000_0000,
                            per == 1 || per == 2,
                    ;
                    self.skip_values(n * per)
                },
                None => Err(MsgpackError::CutShort),
            },
            Shape::Unused => Err(MsgpackError::Mismatch),
        }
    }

    /// Skips so many values.
    pub fn skip_values(&mut self, n: u64) -> (r: Result<(), MsgpackError>)
        ensures
            reads(skipped_n(old(self)@, n as nat), r, final(self)@),
            r is Ok ==> final(self)@.len() <= old(self)@.len(),
        decreases old(self)@.len(), 1int,
    {
        let ghost s = self@;
        let mut i: u64 = 0;
        while i < n
            invariant
                i <= n,
                s == old(self)@,
                self@.len() <= s.len(),
                skipped_n(s, n as nat) == skipped_n(self@, (n - i) as nat),
            decreases n - i,
        {
            match self.skip_value() {
                Ok(()) => {},
                Err(e) => {
                    return Err(e);
                },
            }
            i = i + 1;
        }
        Ok(())
    }

    /// Capture raw bytes of a single msgpack value.
    pub fn capture_subtree(&mut self) -> (r: Result<&'a [u8], MsgpackError>)
        ensures
            match skipped(old(self)@) {
                Out::Good(_, t) => r is Ok && final(self)@ == t && r->Ok_0@ + t == old(self)@,
                Out::Bad(t) => r == Err::<&'a [u8], MsgpackError>(MsgpackError::Mismatch) && final(self)@
                    == t,
                Out::Cut => r == Err::<&'a [u8], MsgpackError>(MsgpackError::CutShort),
            },
    {
        let before = self.rest;
        proof {
            law_skip_moves_forward(self@);
        }
        match self.skip_value() {
            Ok(()) => {
                let n: usize = before.len() - self.rest.len();
                let part = slice_subrange(before, 0, n);
                assert(part@ + self@ =~= before@);
                Ok(part)
            },
            Err(e) => Err(e),
        }
    }

    /// Seek to the value of `target` key inside a map. Leaves cursor positioned at the value.
    pub fn map_seek(&mut self, target: &str) -> (r: Result<(), MsgpackError>)
        ensures
            match seek_map(old(self)@, target@) {
                Some(t) => r is Ok && final(self)@ == t,
                None => r is Err,
            },
    {
        let ghost s = self@;
        let n: u32 = match self.read_map_len() {
            Ok(n) => n,
            Err(e) => {
                return Err(e);
            },
        };
        let mut i: u32 = 0;
        while i < n
            invariant
                i <= n,
                s == old(self)@,
                seek_map(s, target@) == seek(self@, (n - i) as nat, target@),
            decreases n - i,
        {
            let key = match self.read_str_ref() {
                Ok(k) => k,
                Err(e) => {
                    return Err(e);
                },
            };
            if str_eq(key, target) {
                return Ok(());
            }
            match self.skip_value() {
                Ok(()) => {},
                Err(e) => {
                    return Err(e);
                },
            }
            i = i + 1;
        }
        Err(MsgpackError::KeyNotFound)
    }
}

} // verus!
