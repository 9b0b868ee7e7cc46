//! Little-endian numbers and strings, read from a position in a byte buffer.

use crate::text::{cat2, cat3, dec, decimal, utf8_fault, utf8_text};
use byteorder::{LittleEndian, ReadBytesExt};
use vstd::prelude::*;
use vstd::slice::slice_subrange;
use vstd::utf8::*;

verus! {

/// Two bytes as a little-endian number.
pub open spec fn le16(b: Seq<u8>) -> int {
    b[0] + 0x100 * b[1]
}

/// Four bytes as a little-endian number.
pub open spec fn le32(b: Seq<u8>) -> int {
    b[0] + 0x100 * b[1] + 0x1_0000 * b[2] + 0x100_0000 * b[3]
}

/// Eight bytes as a little-endian number.
pub open spec fn le64(b: Seq<u8>) -> int {
    le32(b) + 0x1_0000_0000 * le32(b.skip(4))
}

/// The signed number that an unsigned one below `modulus` stands for in two's
/// complement.
pub open spec fn twos_complement(v: int, modulus: int) -> int {
    if v < modulus / 2 {
        v
    } else {
        v - modulus
    }
}

/// What is said when bytes run out.
pub open spec fn short_read() -> Seq<char> {
    "failed to fill whole buffer"@
}

/// Why no string can be read at a position, or where the string ends. A string
/// is a 64-bit length and that many bytes of UTF-8.
pub open spec fn string_end(data: Seq<u8>, pos: int) -> Result<int, Seq<char>> {
    let n = le64(data.skip(pos));
    let body = data.subrange(pos + 8, pos + 8 + n);
    if pos + 8 > data.len() {
        Err("string length: "@ + short_read())
    } else if n > 1_048_576 {
        Err("string length "@ + dec(n) + " exceeds 1 MiB safety limit"@)
    } else if pos + 8 + n > data.len() {
        Err("string body ("@ + dec(n) + " bytes): "@ + short_read())
    } else if !valid_utf8(body) {
        Err("invalid UTF-8: "@ + utf8_fault(body))
    } else {
        Ok(pos + 8 + n)
    }
}

/// The string that starts at a position.
pub open spec fn string_at(data: Seq<u8>, pos: int) -> Seq<char> {
    decode_utf8(data.subrange(pos + 8, pos + 8 + le64(data.skip(pos))))
}

/// Calls `byteorder::ReadBytesExt::read_u8`: the first byte, if there is one.
#[verifier::external_body]
fn first_u8(bytes: &[u8]) -> (r: Option<u8>)
    ensures
        r is Some <==> bytes@.len() >= 1,
        r matches Some(v) ==> v == bytes@[0],
{
    let mut rest: &[u8] = bytes;
    rest.read_u8().ok()
}

/// Calls `byteorder::ReadBytesExt::read_i8`: the first byte, if there is one,
/// as a signed number.
#[verifier::external_body]
fn first_i8(bytes: &[u8]) -> (r: Option<i8>)
    ensures
        r is Some <==> bytes@.len() >= 1,
        r matches Some(v) ==> v == twos_complement(bytes@[0] as int, 0x100),
{
    let mut rest: &[u8] = bytes;
    rest.read_i8().ok()
}

/// Calls `byteorder::ReadBytesExt::read_u16` for little-endian bytes: the
/// number in the first two bytes, if there are two.
#[verifier::external_body]
fn first_u16(bytes: &[u8]) -> (r: Option<u16>)
    ensures
        r is Some <==> bytes@.len() >= 2,
        r matches Some(v) ==> v == le16(bytes@),
{
    let mut rest: &[u8] = bytes;
    rest.read_u16::<LittleEndian>().ok()
}

/// Calls `byteorder::ReadBytesExt::read_i16` for little-endian bytes: the
/// signed number in the first two bytes, if there are two.
#[verifier::external_body]
fn first_i16(bytes: &[u8]) -> (r: Option<i16>)
    ensures
        r is Some <==> bytes@.len() >= 2,
        r matches Some(v) ==> v == twos_complement(le16(bytes@), 0x1_0000),
{
    let mut rest: &[u8] = bytes;
    rest.read_i16::<LittleEndian>().ok()
}

/// Calls `byteorder::ReadBytesExt::read_u32` for little-endian bytes: the
/// number in the first four bytes, if there are four.
#[verifier::external_body]
fn first_u32(bytes: &[u8]) -> (r: Option<u32>)
    ensures
        r is Some <==> bytes@.len() >= 4,
        r matches Some(v) ==> v == le32(bytes@),
{
    let mut rest: &[u8] = bytes;
    rest.read_u32::<LittleEndian>().ok()
}

/// Calls `byteorder::ReadBytesExt::read_i32` for little-endian bytes: the
/// signed number in the first four bytes, if there are four.
#[verifier::external_body]
fn first_i32(bytes: &[u8]) -> (r: Option<i32>)
    ensures
        r is Some <==> bytes@.len() >= 4,
        r matches Some(v) ==> v == twos_complement(le32(bytes@), 0x1_0000_0000),
{
    let mut rest: &[u8] = bytes;
    rest.read_i32::<LittleEndian>().ok()
}

/// Calls `byteorder::ReadBytesExt::read_u64` for little-endian bytes: the
/// number in the first eight bytes, if there are eight.
#[verifier::external_body]
fn first_u64(bytes: &[u8]) -> (r: Option<u64>)
    ensures
        r is Some <==> bytes@.len() >= 8,
        r matches Some(v) ==> v == le64(bytes@),
{
    let mut rest: &[u8] = bytes;
    rest.read_u64::<LittleEndian>().ok()
}

/// Calls `byteorder::ReadBytesExt::read_i64` for little-endian bytes: the
/// signed number in the first eight bytes, if there are eight.
#[verifier::external_body]
fn first_i64(bytes: &[u8]) -> (r: Option<i64>)
    ensures
        r is Some <==> bytes@.len() >= 8,
        r matches Some(v) ==> v == twos_complement(le64(bytes@), 0x1_0000_0000_0000_0000),
{
    let mut rest: &[u8] = bytes;
    rest.read_i64::<LittleEndian>().ok()
}

/// A position in a byte buffer.
pub struct ByteCursor<'a> {
    pub data: &'a [u8],
    pub pos: usize,
}

impl<'a> ByteCursor<'a> {
    /// The position lies in the buffer or at its end.
    pub open spec fn wf(&self) -> bool {
        self.pos <= self.data@.len()
    }

    /// A read of `width` bytes: the position moves behind them, or stays where
    /// it is when there are too few.
    pub open spec fn advanced(self, after: Self, width: int, read: bool) -> bool {
        &&& after.data == self.data
        &&& read <==> self.pos + width <= self.data@.len()
        &&& after.pos == if read { self.pos + width } else { self.pos as int }
    }

    /// The bytes from the position on.
    fn rest(&self) -> (r: &'a [u8])
        requires
            self.wf(),
        ensures
            r@ == self.data@.skip(self.pos as int),
            self.data@.len() <= usize::MAX,
    {
        let r = slice_subrange(self.data, self.pos, self.data.len());
        proof {
            assert(r@ =~= self.data@.skip(self.pos as int));
        }
        r
    }

    /// How many bytes are left.
    pub fn remaining(&self) -> (n: usize)
        requires
            self.wf(),
        ensures
            n == self.data@.len() - self.pos,
            self.data@.len() <= usize::MAX,
    {
        self.data.len() - self.pos
    }

    /// Reads an unsigned byte.
    pub fn take_u8(&mut self) -> (r: Option<u8>)
        requires
            old(self).wf(),
        ensures
            final(self).wf(),
            old(self).advanced(*final(self), 1, r is Some),
            r matches Some(v) ==> v == old(self).data@[old(self).pos as int],
    {
        let r = first_u8(self.rest());
        if r.is_some() {
            self.pos = self.pos + 1;
        }
        r
    }

    /// Reads a signed byte.
    pub fn take_i8(&mut self) -> (r: Option<i8>)
        requires
            old(self).wf(),
        ensures
            final(self).wf(),
            old(self).advanced(*final(self), 1, r is Some),
            r matches Some(v) ==> v == twos_complement(
                old(self).data@[old(self).pos as int] as int,
                0x100,
            ),
    {
        let r = first_i8(self.rest());
        if r.is_some() {
            self.pos = self.pos + 1;
        }
        r
    }

    /// Reads an unsigned 16-bit number.
    pub fn take_u16(&mut self) -> (r: Option<u16>)
        requires
            old(self).wf(),
        ensures
            final(self).wf(),
            old(self).advanced(*final(self), 2, r is Some),
            r matches Some(v) ==> v == le16(old(self).data@.skip(old(self).pos as int)),
    {
        let r = first_u16(self.rest());
        if r.is_some() {
            self.pos = self.pos + 2;
        }
        r
    }

    /// Reads a signed 16-bit number.
    pub fn take_i16(&mut self) -> (r: Option<i16>)
        requires
            old(self).wf(),
        ensures
            final(self).wf(),
            old(self).advanced(*final(self), 2, r is Some),
            r matches Some(v) ==> v == twos_complement(
                le16(old(self).data@.skip(old(self).pos as int)),
                0x1_0000,
            ),
    {
        let r = first_i16(self.rest());
        if r.is_some() {
            self.pos = self.pos + 2;
        }
        r
    }

    /// Reads an unsigned 32-bit number.
    pub fn take_u32(&mut self) -> (r: Option<u32>)
        requires
            old(self).wf(),
        ensures
            final(self).wf(),
            old(self).advanced(*final(self), 4, r is Some),
            r matches Some(v) ==> v == le32(old(self).data@.skip(old(self).pos as int)),
    {
        let r = first_u32(self.rest());
        if r.is_some() {
            self.pos = self.pos + 4;
        }
        r
    }

    /// Reads a signed 32-bit number.
    pub fn take_i32(&mut self) -> (r: Option<i32>)
        requires
            old(self).wf(),
        ensures
            final(self).wf(),
            old(self).advanced(*final(self), 4, r is Some),
            r matches Some(v) ==> v == twos_complement(
                le32(old(self).data@.skip(old(self).pos as int)),
                0x1_0000_0000,
            ),
    {
        let r = first_i32(self.rest());
        if r.is_some() {
            self.pos = self.pos + 4;
        }
        r
    }

    /// Reads an unsigned 64-bit number.
    pub fn take_u64(&mut self) -> (r: Option<u64>)
        requires
            old(self).wf(),
        ensures
            final(self).wf(),
            old(self).advanced(*final(self), 8, r is Some),
            r matches Some(v) ==> v == le64(old(self).data@.skip(old(self).pos as int)),
    {
        let r = first_u64(self.rest());
        if r.is_some() {
            self.pos = self.pos + 8;
        }
        r
    }

    /// Reads a signed 64-bit number.
    pub fn take_i64(&mut self) -> (r: Option<i64>)
        requires
            old(self).wf(),
        ensures
            final(self).wf(),
            old(self).advanced(*final(self), 8, r is Some),
            r matches Some(v) ==> v == twos_complement(
                le64(old(self).data@.skip(old(self).pos as int)),
                0x1_0000_0000_0000_0000,
            ),
    {
        let r = first_i64(self.rest());
        if r.is_some() {
            self.pos = self.pos + 8;
        }
        r
    }
}

/// Copies a range of bytes.
pub(crate) fn copy_range(data: &[u8], start: usize, end: usize) -> (r: Vec<u8>)
    requires
        start <= end <= data@.len(),
    ensures
        r@ == data@.subrange(start as int, end as int),
{
    let mut r: Vec<u8> = Vec::new();
    let mut i: usize = start;
    while i < end
        invariant
            start <= i <= end <= data@.len(),
            r@ =~= data@.subrange(start as int, i as int),
        decreases end - i,
    {
        r.push(data[i]);
        i = i + 1;
    }
    r
}

/// Reads a string: a 64-bit length and that many bytes of UTF-8.
pub fn read_gguf_string(cur: &mut ByteCursor<'_>) -> (r: Result<String, String>)
    requires
        old(cur).wf(),
    ensures
        final(cur).wf(),
        final(cur).data == old(cur).data,
        match r {
            Ok(s) => string_end(old(cur).data@, old(cur).pos as int) == Ok::<int, Seq<char>>(
                final(cur).pos as int,
            ) && s@ == string_at(old(cur).data@, old(cur).pos as int),
            Err(e) => string_end(old(cur).data@, old(cur).pos as int) == Err::<int, Seq<char>>(e@),
        },
{
    let len: u64 = match cur.take_u64() {
        Some(n) => n,
        None => {
            return Err(cat2("string length: ", "failed to fill whole buffer"));
        },
    };
    if len > 1_048_576 {
        let number = decimal(len);
        return Err(cat3("string length ", number.as_str(), " exceeds 1 MiB safety limit"));
    }
    let size: usize = len as usize;
    if size > cur.remaining() {
        let number = decimal(len);
        let start = cat3("string body (", number.as_str(), " bytes): ");
        return Err(cat2(start.as_str(), "failed to fill whole buffer"));
    }
    let body = copy_range(cur.data, cur.pos, cur.pos + size);
    match utf8_text(body) {
        Ok(s) => {
            cur.pos = cur.pos + size;
            Ok(s)
        },
        Err(e) => Err(cat2("invalid UTF-8: ", e.as_str())),
    }
}

} // verus!
