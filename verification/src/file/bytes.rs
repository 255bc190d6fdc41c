//! Little-endian reads from a byte buffer, and a cursor over one.

use crate::file::axml::AxmlError;
use byteorder::{ByteOrder, LittleEndian};
use vstd::prelude::*;
use vstd::slice::slice_subrange;

verus! {

/// Whether the `len` bytes that start at `pos` all lie inside `data`.
pub open spec fn in_bounds(data: Seq<u8>, pos: int, len: int) -> bool {
    0 <= pos && 0 <= len && pos + len <= data.len()
}

/// The 16-bit number whose two bytes stand at `pos`, least significant first.
pub open spec fn u16_at(data: Seq<u8>, pos: int) -> u16 {
    (data[pos] as int + 0x100 * (data[pos + 1] as int)) as u16
}

/// The 32-bit number whose four bytes stand at `pos`, least significant first.
pub open spec fn u32_at(data: Seq<u8>, pos: int) -> u32 {
    (data[pos] as int + 0x100 * (data[pos + 1] as int) + 0x1_0000 * (data[pos + 2] as int)
        + 0x100_0000 * (data[pos + 3] as int)) as u32
}

/// Reading one 32-bit word at `pos`: the word, or `IoError` where fewer than
/// four bytes are left.
pub open spec fn word_at(data: Seq<u8>, pos: int) -> Result<u32, AxmlError> {
    if in_bounds(data, pos, 4) {
        Ok(u32_at(data, pos))
    } else {
        Err(AxmlError::IoError)
    }
}

/// Reading one 16-bit value at `pos`, in the manner of [`word_at`].
pub open spec fn half_at(data: Seq<u8>, pos: int) -> Result<u16, AxmlError> {
    if in_bounds(data, pos, 2) {
        Ok(u16_at(data, pos))
    } else {
        Err(AxmlError::IoError)
    }
}

/// `byteorder::LittleEndian::read_u16`: the first two bytes of `buf` taken as
/// a little-endian number. The outside function panics on a shorter slice.
#[verifier::external_body]
fn le_u16(buf: &[u8]) -> (value: u16)
    requires
        buf@.len() >= 2,
    ensures
        value == u16_at(buf@, 0),
{
    LittleEndian::read_u16(buf)
}

/// `byteorder::LittleEndian::read_u32`: the first four bytes of `buf` taken as
/// a little-endian number. The outside function panics on a shorter slice.
#[verifier::external_body]
fn le_u32(buf: &[u8]) -> (value: u32)
    requires
        buf@.len() >= 4,
    ensures
        value == u32_at(buf@, 0),
{
    LittleEndian::read_u32(buf)
}

/// The `count` consecutive 32-bit words that start at `pos`.
pub open spec fn words(data: Seq<u8>, pos: int, count: int) -> Seq<u32> {
    Seq::new(count as nat, |i: int| u32_at(data, pos + 4 * i))
}

/// Reading `count` consecutive words at `pos`: the words and the position
/// behind them, or `IoError` where the input ends before the last of them.
pub open spec fn words_at(data: Seq<u8>, pos: int, count: int) -> Result<
    (Seq<u32>, int),
    AxmlError,
> {
    if in_bounds(data, pos, 4 * count) {
        Ok((words(data, pos, count), pos + 4 * count))
    } else {
        Err(AxmlError::IoError)
    }
}

/// Whether the outcome `r` of an executable parser is the outcome `s` that
/// the format prescribes: the same value and end position, or the same error.
pub open spec fn agrees<T>(
    r: Result<(T, usize), AxmlError>,
    s: Result<(T, int), AxmlError>,
) -> bool {
    match s {
        Ok((value, end)) => r matches Ok((v, e)) && v == value && e == end,
        Err(error) => r matches Err(e) && e == error,
    }
}

/// As [`agrees`], for a value that is compared through its view.
pub open spec fn agrees_view<T: View>(
    r: Result<(T, usize), AxmlError>,
    s: Result<(T::V, int), AxmlError>,
) -> bool {
    match s {
        Ok((value, end)) => r matches Ok((v, e)) && v@ == value && e == end,
        Err(error) => r matches Err(e) && e == error,
    }
}

/// Tests whether the `len` bytes that start at `pos` all lie inside `data`.
pub fn has_bytes(data: &[u8], pos: usize, len: usize) -> (b: bool)
    ensures
        b == in_bounds(data@, pos as int, len as int),
        b ==> pos + len <= usize::MAX,
{
    pos <= data.len() && len <= data.len() - pos
}

/// The 16-bit value at `pos`, where two bytes are known to be there.
pub(crate) fn get_u16(data: &[u8], pos: usize) -> (value: u16)
    requires
        in_bounds(data@, pos as int, 2),
    ensures
        value == u16_at(data@, pos as int),
{
    assert(data@.len() == data.len());
    le_u16(slice_subrange(data, pos, pos + 2))
}

/// The 32-bit word at `pos`, where four bytes are known to be there.
pub(crate) fn get_u32(data: &[u8], pos: usize) -> (value: u32)
    requires
        in_bounds(data@, pos as int, 4),
    ensures
        value == u32_at(data@, pos as int),
{
    assert(data@.len() == data.len());
    le_u32(slice_subrange(data, pos, pos + 4))
}

/// Reads the 16-bit value at `pos`.
pub fn read_u16_at(data: &[u8], pos: usize) -> (r: Result<u16, AxmlError>)
    ensures
        r == half_at(data@, pos as int),
{
    if !has_bytes(data, pos, 2) {
        return Err(AxmlError::IoError);
    }
    Ok(get_u16(data, pos))
}

/// Reads the 32-bit word at `pos`.
pub fn read_u32_at(data: &[u8], pos: usize) -> (r: Result<u32, AxmlError>)
    ensures
        r == word_at(data@, pos as int),
{
    if !has_bytes(data, pos, 4) {
        return Err(AxmlError::IoError);
    }
    Ok(get_u32(data, pos))
}

/// Reads `count` consecutive 32-bit words starting at `pos`.
pub fn read_words_at(data: &[u8], pos: usize, count: usize) -> (r: Result<
    (Vec<u32>, usize),
    AxmlError,
>)
    ensures
        agrees_view(r, words_at(data@, pos as int, count as int)),
{
    if pos > data.len() || count > (data.len() - pos) / 4 {
        return Err(AxmlError::IoError);
    }
    let mut out: Vec<u32> = Vec::new();
    let mut i: usize = 0;
    let mut at: usize = pos;
    while i < count
        invariant
            i <= count,
            at == pos + 4 * i,
            pos + 4 * count <= data.len(),
            out@ == words(data@, pos as int, i as int),
        decreases count - i,
    {
        out.push(get_u32(data, at));
        i = i + 1;
        at = at + 4;
    }
    Ok((out, at))
}

/// A read position in an owned byte buffer.
///
/// A read that fails leaves the position where it was.
pub struct ByteCursor {
    data: Vec<u8>,
    pos: usize,
}

impl ByteCursor {
    /// All bytes of the buffer, whether already read or not.
    pub closed spec fn bytes(&self) -> Seq<u8> {
        self.data@
    }

    /// The index in [`Self::bytes`] of the next byte to read.
    pub closed spec fn offset(&self) -> int {
        self.pos as int
    }

    /// What a read with the prescribed outcome `s` does: the bytes stay, and
    /// the position moves to the end of what was read, or stays on an error.
    pub open spec fn reads<T>(
        before: Self,
        after: Self,
        r: Result<T, AxmlError>,
        s: Result<(T, int), AxmlError>,
    ) -> bool {
        &&& after.bytes() == before.bytes()
        &&& match s {
            Ok((value, end)) => r matches Ok(v) && v == value && after.offset() == end,
            Err(error) => r matches Err(e) && e == error && after.offset() == before.offset(),
        }
    }

    /// As [`Self::reads`], for a value that is compared through its view.
    pub open spec fn reads_view<T: View>(
        before: Self,
        after: Self,
        r: Result<T, AxmlError>,
        s: Result<(T::V, int), AxmlError>,
    ) -> bool {
        &&& after.bytes() == before.bytes()
        &&& match s {
            Ok((value, end)) => r matches Ok(v) && v@ == value && after.offset() == end,
            Err(error) => r matches Err(e) && e == error && after.offset() == before.offset(),
        }
    }

    /// A cursor at the start of `data`.
    pub fn new(data: Vec<u8>) -> (cursor: Self)
        ensures
            cursor.bytes() == data@,
            cursor.offset() == 0,
    {
        ByteCursor { data, pos: 0 }
    }

    /// The index of the next byte to read.
    pub fn position(&self) -> (pos: usize)
        ensures
            pos == self.offset(),
    {
        self.pos
    }

    /// Moves the cursor to `pos`, which may lie behind the end of the buffer:
    /// every read there fails.
    pub fn set_position(&mut self, pos: usize)
        ensures
            final(self).bytes() == old(self).bytes(),
            final(self).offset() == pos,
    {
        self.pos = pos;
    }

    /// The whole buffer.
    pub fn as_slice(&self) -> (data: &[u8])
        ensures
            data@ == self.bytes(),
    {
        self.data.as_slice()
    }
}

} // verus!
