//! The string pool: the one chunk that holds every text of a document.

use crate::file::axml::AxmlError;
use crate::file::bytes::{
    agrees_view, get_u16, get_u32, has_bytes, in_bounds, read_words_at, u16_at, u32_at, words,
    ByteCursor,
};
use crate::file::text::{
    lemma_utf16_round_trip, lemma_utf8_round_trip, string_from_utf16, string_from_utf8,
    utf16_decode, utf16_encode, utf8_decode,
};
use vstd::prelude::*;
use vstd::slice::{slice_subrange, slice_to_vec};
use vstd::utf8::encode_utf8;

verus! {

/// A filler word that may stand before the string pool any number of times.
pub const CHUNK_NULL: u32 = 0x0000_0000;

/// Tag of the string pool.
pub const CHUNK_STRINGPOOL_TYPE: u32 = 0x001C_0001;

/// The bit of a pool's flags that is set where its strings are UTF-8.
pub const UTF8_FLAG: u32 = 0x100;

/// Bytes that the tag and the six header words of a string pool take.
pub const STRINGPOOL_HEADER_SIZE: u32 = 28;

/// The string pool as it was read: its header, its offset tables, and the
/// bytes of its strings, which are decoded only when a string is asked for.
#[derive(Debug, PartialEq, Eq)]
pub struct StringBlock {
    /// Size of the whole chunk in bytes, tag included.
    pub chunk_size: u32,
    /// Number of strings.
    pub string_count: u32,
    /// Number of style entries.
    pub style_offset_count: u32,
    /// Encoding and sorting bits.
    pub flags: u32,
    /// Where the string data begins, counted from the chunk's tag.
    pub strings_offset: u32,
    /// Where the string data ends and the style data begins, counted from the
    /// chunk's tag: the chunk's size where the pool has no style data.
    pub styles_offset: u32,
    /// For each string, where it begins in `char_buffer`.
    pub string_offsets: Vec<u32>,
    /// For each style entry, where it begins in the style data.
    pub style_offsets: Vec<u32>,
    /// The style data, word by word.
    pub styles: Vec<u32>,
    /// The string data.
    pub char_buffer: Vec<u8>,
}

/// The mathematical value of a [`StringBlock`].
pub struct StringBlockView {
    pub chunk_size: u32,
    pub string_count: u32,
    pub style_offset_count: u32,
    pub flags: u32,
    pub strings_offset: u32,
    pub styles_offset: u32,
    pub string_offsets: Seq<u32>,
    pub style_offsets: Seq<u32>,
    pub styles: Seq<u32>,
    pub char_buffer: Seq<u8>,
}

impl View for StringBlock {
    type V = StringBlockView;

    open spec fn view(&self) -> StringBlockView {
        StringBlockView {
            chunk_size: self.chunk_size,
            string_count: self.string_count,
            style_offset_count: self.style_offset_count,
            flags: self.flags,
            strings_offset: self.strings_offset,
            styles_offset: self.styles_offset,
            string_offsets: self.string_offsets@,
            style_offsets: self.style_offsets@,
            styles: self.styles@,
            char_buffer: self.char_buffer@,
        }
    }
}

/// Where the string pool's tag stands, looking from `pos` past any number of
/// null words. Another word in its place is `InvalidStringBlockHeader`.
pub open spec fn pool_tag_at(data: Seq<u8>, pos: int) -> Result<int, AxmlError>
    decreases data.len() - pos,
{
    if !in_bounds(data, pos, 4) {
        Err(AxmlError::IoError)
    } else if u32_at(data, pos) == CHUNK_NULL {
        pool_tag_at(data, pos + 4)
    } else if u32_at(data, pos) == CHUNK_STRINGPOOL_TYPE {
        Ok(pos)
    } else {
        Err(AxmlError::InvalidStringBlockHeader)
    }
}

/// Where the string data ends: at the style data, or at the end of the chunk
/// where the header gives 0 for the style data.
pub open spec fn strings_end(chunk_size: u32, styles_offset: u32) -> u32 {
    if styles_offset == 0 {
        chunk_size
    } else {
        styles_offset
    }
}

/// Whether the parts of a pool lie one behind the other inside the chunk:
/// the header and the two offset tables, the string data, the style data,
/// the latter two in whole words.
pub open spec fn layout_ok(
    chunk_size: u32,
    string_count: u32,
    style_offset_count: u32,
    strings_offset: u32,
    styles_offset: u32,
) -> bool {
    &&& STRINGPOOL_HEADER_SIZE + 4 * (string_count + style_offset_count) <= strings_offset
    &&& strings_offset <= styles_offset
    &&& styles_offset <= chunk_size
    &&& (styles_offset - strings_offset) % 4 == 0
    &&& (chunk_size - styles_offset) % 4 == 0
}

/// The string pool whose tag stands at `start`.
///
/// Input that ends inside the header or the offset tables is `IoError`. A
/// layout that is not [`layout_ok`] is `InvalidStringBlockSize`. Input that
/// ends before the chunk does is `IoError`. The pool ends where its declared
/// size says.
pub open spec fn pool_body_at(data: Seq<u8>, start: int) -> Result<
    (StringBlockView, int),
    AxmlError,
> {
    if !in_bounds(data, start, STRINGPOOL_HEADER_SIZE as int) {
        Err(AxmlError::IoError)
    } else {
        let chunk_size = u32_at(data, start + 4);
        let string_count = u32_at(data, start + 8);
        let style_offset_count = u32_at(data, start + 12);
        let flags = u32_at(data, start + 16);
        let strings_offset = u32_at(data, start + 20);
        let styles_offset = strings_end(chunk_size, u32_at(data, start + 24));
        let tables = start + STRINGPOOL_HEADER_SIZE;
        if !in_bounds(data, tables, 4 * (string_count + style_offset_count)) {
            Err(AxmlError::IoError)
        } else if !layout_ok(
            chunk_size,
            string_count,
            style_offset_count,
            strings_offset,
            styles_offset,
        ) {
            Err(AxmlError::InvalidStringBlockSize)
        } else if !in_bounds(data, start, chunk_size as int) {
            Err(AxmlError::IoError)
        } else {
            Ok(
                (
                    StringBlockView {
                        chunk_size,
                        string_count,
                        style_offset_count,
                        flags,
                        strings_offset,
                        styles_offset,
                        string_offsets: words(data, tables, string_count as int),
                        style_offsets: words(
                            data,
                            tables + 4 * string_count,
                            style_offset_count as int,
                        ),
                        styles: words(
                            data,
                            start + styles_offset,
                            (chunk_size - styles_offset) / 4,
                        ),
                        char_buffer: data.subrange(start + strings_offset, start + styles_offset),
                    },
                    start + chunk_size,
                ),
            )
        }
    }
}

/// The string pool at `pos`: null words, the tag, and the pool behind it.
pub open spec fn pool_at(data: Seq<u8>, pos: int) -> Result<(StringBlockView, int), AxmlError> {
    match pool_tag_at(data, pos) {
        Ok(start) => pool_body_at(data, start),
        Err(error) => Err(error),
    }
}

/// The pool's tag is found at or behind `pos`, a whole number of words away.
pub proof fn lemma_pool_tag_is_ahead(data: Seq<u8>, pos: int)
    ensures
        pool_tag_at(data, pos) matches Ok(start) ==> {
            &&& pos <= start
            &&& (start - pos) % 4 == 0
            &&& in_bounds(data, start, 4)
            &&& u32_at(data, start) == CHUNK_STRINGPOOL_TYPE
        },
    decreases data.len() - pos,
{
    if in_bounds(data, pos, 4) && u32_at(data, pos) == CHUNK_NULL {
        lemma_pool_tag_is_ahead(data, pos + 4);
    }
}

/// A pool that was read is consistent: it has as many offsets as it counts
/// strings and style entries, its parts lie in order inside the chunk, its
/// string data and its style data fill what the header gives them, and it
/// ends inside the input.
pub proof fn lemma_pool_is_consistent(data: Seq<u8>, pos: int)
    ensures
        pool_at(data, pos) matches Ok((pool, end)) ==> {
            &&& pool.string_offsets.len() == pool.string_count
            &&& pool.style_offsets.len() == pool.style_offset_count
            &&& layout_ok(
                pool.chunk_size,
                pool.string_count,
                pool.style_offset_count,
                pool.strings_offset,
                pool.styles_offset,
            )
            &&& pool.char_buffer.len() == pool.styles_offset - pool.strings_offset
            &&& 4 * pool.styles.len() == pool.chunk_size - pool.styles_offset
            &&& pos + pool.chunk_size <= end <= data.len()
        },
{
    lemma_pool_tag_is_ahead(data, pos);
}

/// A pool whose string data does not take whole words is rejected: where the
/// pool's tag is found at `start` with the header and the offset tables
/// behind it, and the string data would end at a distance from its beginning
/// that is no multiple of four, the outcome is `InvalidStringBlockSize`, and
/// so no pool.
pub proof fn lemma_unaligned_string_data_is_rejected(data: Seq<u8>, pos: int, start: int)
    requires
        pool_tag_at(data, pos) == Ok::<int, AxmlError>(start),
        in_bounds(data, start, STRINGPOOL_HEADER_SIZE as int),
        in_bounds(
            data,
            start + STRINGPOOL_HEADER_SIZE,
            4 * (u32_at(data, start + 8) + u32_at(data, start + 12)),
        ),
        (strings_end(u32_at(data, start + 4), u32_at(data, start + 24)) - u32_at(data, start + 20))
            % 4 != 0,
    ensures
        pool_at(data, pos) == Err::<(StringBlockView, int), AxmlError>(
            AxmlError::InvalidStringBlockSize,
        ),
{
}

/// Whether the flags of a pool say that its strings are UTF-8; they are
/// UTF-16 otherwise.
pub open spec fn is_utf8(flags: u32) -> bool {
    (flags / UTF8_FLAG) % 2 == 1
}

/// The length that stands in front of a UTF-16 string at `pos`, in code
/// units, and where the code units begin. A first value of `0x8000` or more
/// carries the upper bits of a length that goes on in the next value.
pub open spec fn utf16_length_at(buffer: Seq<u8>, pos: int) -> Result<(int, int), AxmlError> {
    if !in_bounds(buffer, pos, 2) {
        Err(AxmlError::InvalidStringBlockSize)
    } else if u16_at(buffer, pos) < 0x8000 {
        Ok((u16_at(buffer, pos) as int, pos + 2))
    } else if !in_bounds(buffer, pos, 4) {
        Err(AxmlError::InvalidStringBlockSize)
    } else {
        Ok(((u16_at(buffer, pos) - 0x8000) * 0x1_0000 + u16_at(buffer, pos + 2), pos + 4))
    }
}

/// One of the two lengths that stand in front of a UTF-8 string, and where
/// what follows it begins. A first byte of `0x80` or more carries the upper
/// bits of a length that goes on in the next byte.
pub open spec fn utf8_length_at(buffer: Seq<u8>, pos: int) -> Result<(int, int), AxmlError> {
    if !in_bounds(buffer, pos, 1) {
        Err(AxmlError::InvalidStringBlockSize)
    } else if buffer[pos] < 0x80 {
        Ok((buffer[pos] as int, pos + 1))
    } else if !in_bounds(buffer, pos, 2) {
        Err(AxmlError::InvalidStringBlockSize)
    } else {
        Ok(((buffer[pos] - 0x80) * 0x100 + buffer[pos + 1], pos + 2))
    }
}

/// The `count` consecutive 16-bit values that start at `pos`.
pub open spec fn units(buffer: Seq<u8>, pos: int, count: int) -> Seq<u16> {
    Seq::new(count as nat, |i: int| u16_at(buffer, pos + 2 * i))
}

/// The UTF-16 string at `pos` of the string data: its length in code units,
/// then the code units. A string that does not lie inside the buffer is
/// `InvalidStringBlockSize`; code units that spell no text are
/// `InvalidStringData`.
pub open spec fn utf16_string_at(buffer: Seq<u8>, pos: int) -> Result<Seq<char>, AxmlError> {
    match utf16_length_at(buffer, pos) {
        Ok((length, start)) => if !in_bounds(buffer, start, 2 * length) {
            Err(AxmlError::InvalidStringBlockSize)
        } else {
            match utf16_decode(units(buffer, start, length)) {
                Some(chars) => Ok(chars),
                None => Err(AxmlError::InvalidStringData),
            }
        },
        Err(error) => Err(error),
    }
}

/// The UTF-8 string at `pos` of the string data: its length in characters,
/// which is skipped, its length in bytes, then the bytes. A string that does
/// not lie inside the buffer is `InvalidStringBlockSize`; bytes that are not
/// valid UTF-8 are `InvalidStringData`.
pub open spec fn utf8_string_at(buffer: Seq<u8>, pos: int) -> Result<Seq<char>, AxmlError> {
    match utf8_length_at(buffer, pos) {
        Ok((_, next)) => match utf8_length_at(buffer, next) {
            Ok((length, start)) => if !in_bounds(buffer, start, length) {
                Err(AxmlError::InvalidStringBlockSize)
            } else {
                match utf8_decode(buffer.subrange(start, start + length)) {
                    Some(chars) => Ok(chars),
                    None => Err(AxmlError::InvalidStringData),
                }
            },
            Err(error) => Err(error),
        },
        Err(error) => Err(error),
    }
}

/// The string with the given index: `InvalidStringIndex` where the pool has
/// no such string, else what stands at the string's offset in the string
/// data, read in the pool's encoding.
pub open spec fn string_at(pool: StringBlockView, index: u32) -> Result<Seq<char>, AxmlError> {
    if index >= pool.string_offsets.len() {
        Err(AxmlError::InvalidStringIndex)
    } else if is_utf8(pool.flags) {
        utf8_string_at(pool.char_buffer, pool.string_offsets[index as int] as int)
    } else {
        utf16_string_at(pool.char_buffer, pool.string_offsets[index as int] as int)
    }
}

/// Whether the string data holds `chars` at `pos` as a UTF-16 string: a
/// length in code units, and behind it that many code units, which spell
/// `chars`.
pub open spec fn holds_utf16(buffer: Seq<u8>, pos: int, chars: Seq<char>) -> bool {
    &&& utf16_length_at(buffer, pos) matches Ok((length, start))
    &&& in_bounds(buffer, start, 2 * length)
    &&& units(buffer, start, length) == utf16_encode(chars)
}

/// Whether the string data holds `chars` at `pos` as a UTF-8 string: a
/// length in characters, a length in bytes, and behind them that many bytes,
/// which spell `chars`.
pub open spec fn holds_utf8(buffer: Seq<u8>, pos: int, chars: Seq<char>) -> bool {
    &&& utf8_length_at(buffer, pos) matches Ok((_, next))
    &&& utf8_length_at(buffer, next) matches Ok((length, start))
    &&& in_bounds(buffer, start, length)
    &&& buffer.subrange(start, start + length) == encode_utf8(chars)
}

/// Whether the pool holds `chars` as the string with the given index, in
/// the pool's encoding.
pub open spec fn holds_string(pool: StringBlockView, index: u32, chars: Seq<char>) -> bool {
    &&& index < pool.string_offsets.len()
    &&& if is_utf8(pool.flags) {
        holds_utf8(pool.char_buffer, pool.string_offsets[index as int] as int, chars)
    } else {
        holds_utf16(pool.char_buffer, pool.string_offsets[index as int] as int, chars)
    }
}

/// A string that a pool holds is the string that the pool gives: whatever
/// text was stored under an index, in either encoding, asking for that index
/// yields this text.
pub proof fn lemma_stored_string_is_read_back(pool: StringBlockView, index: u32, chars: Seq<char>)
    requires
        holds_string(pool, index, chars),
    ensures
        string_at(pool, index) == Ok::<Seq<char>, AxmlError>(chars),
{
    lemma_utf16_round_trip(chars);
    lemma_utf8_round_trip(chars);
}

/// Reads the length in front of a UTF-16 string.
fn parse_utf16_length(buffer: &[u8], pos: usize) -> (r: Result<(usize, usize), AxmlError>)
    ensures
        match utf16_length_at(buffer@, pos as int) {
            Ok((length, start)) => r matches Ok((l, s)) && l == length && s == start,
            Err(error) => r matches Err(e) && e == error,
        },
{
    if !has_bytes(buffer, pos, 2) {
        return Err(AxmlError::InvalidStringBlockSize);
    }
    let first = get_u16(buffer, pos);
    if first < 0x8000 {
        return Ok((first as usize, pos + 2));
    }
    if !has_bytes(buffer, pos, 4) {
        return Err(AxmlError::InvalidStringBlockSize);
    }
    let second = get_u16(buffer, pos + 2);
    let length: u32 = (first - 0x8000) as u32 * 0x1_0000 + second as u32;
    Ok((length as usize, pos + 4))
}

/// Reads one of the lengths in front of a UTF-8 string.
fn parse_utf8_length(buffer: &[u8], pos: usize) -> (r: Result<(usize, usize), AxmlError>)
    ensures
        match utf8_length_at(buffer@, pos as int) {
            Ok((length, start)) => r matches Ok((l, s)) && l == length && s == start,
            Err(error) => r matches Err(e) && e == error,
        },
{
    if !has_bytes(buffer, pos, 1) {
        return Err(AxmlError::InvalidStringBlockSize);
    }
    let first = buffer[pos];
    if first < 0x80 {
        return Ok((first as usize, pos + 1));
    }
    if !has_bytes(buffer, pos, 2) {
        return Err(AxmlError::InvalidStringBlockSize);
    }
    let length: u16 = (first - 0x80) as u16 * 0x100 + buffer[pos + 1] as u16;
    Ok((length as usize, pos + 2))
}

/// Reads the UTF-16 string at `pos` of the string data.
fn parse_utf16_string(buffer: &[u8], pos: usize) -> (r: Result<String, AxmlError>)
    ensures
        match utf16_string_at(buffer@, pos as int) {
            Ok(chars) => r matches Ok(s) && s@ == chars,
            Err(error) => r matches Err(e) && e == error,
        },
{
    let (length, start) = parse_utf16_length(buffer, pos)?;
    if start > buffer.len() || length > (buffer.len() - start) / 2 {
        return Err(AxmlError::InvalidStringBlockSize);
    }
    let mut code_units: Vec<u16> = Vec::new();
    let mut i: usize = 0;
    let mut at: usize = start;
    while i < length
        invariant
            i <= length,
            at == start + 2 * i,
            start + 2 * length <= buffer.len(),
            code_units@ == units(buffer@, start as int, i as int),
        decreases length - i,
    {
        code_units.push(get_u16(buffer, at));
        i = i + 1;
        at = at + 2;
    }
    match string_from_utf16(code_units.as_slice()) {
        Some(s) => Ok(s),
        None => Err(AxmlError::InvalidStringData),
    }
}

/// Reads the UTF-8 string at `pos` of the string data.
fn parse_utf8_string(buffer: &[u8], pos: usize) -> (r: Result<String, AxmlError>)
    ensures
        match utf8_string_at(buffer@, pos as int) {
            Ok(chars) => r matches Ok(s) && s@ == chars,
            Err(error) => r matches Err(e) && e == error,
        },
{
    let (_, next) = parse_utf8_length(buffer, pos)?;
    let (length, start) = parse_utf8_length(buffer, next)?;
    if !has_bytes(buffer, start, length) {
        return Err(AxmlError::InvalidStringBlockSize);
    }
    let bytes = slice_to_vec(slice_subrange(buffer, start, start + length));
    match string_from_utf8(bytes) {
        Some(s) => Ok(s),
        None => Err(AxmlError::InvalidStringData),
    }
}

/// Finds the string pool's tag, looking from `pos` past null words.
fn find_pool_tag(data: &[u8], pos: usize) -> (r: Result<usize, AxmlError>)
    ensures
        match pool_tag_at(data@, pos as int) {
            Ok(start) => r matches Ok(s) && s == start && in_bounds(data@, start, 4),
            Err(error) => r matches Err(e) && e == error,
        },
{
    let mut at: usize = pos;
    loop
        invariant
            pool_tag_at(data@, pos as int) == pool_tag_at(data@, at as int),
        decreases data@.len() - at,
    {
        if !has_bytes(data, at, 4) {
            return Err(AxmlError::IoError);
        }
        let tag = get_u32(data, at);
        if tag == CHUNK_STRINGPOOL_TYPE {
            return Ok(at);
        } else if tag != CHUNK_NULL {
            return Err(AxmlError::InvalidStringBlockHeader);
        }
        at = at + 4;
    }
}

/// Reads the string pool at `pos`.
pub fn parse_pool(data: &[u8], pos: usize) -> (r: Result<(StringBlock, usize), AxmlError>)
    ensures
        agrees_view(r, pool_at(data@, pos as int)),
{
    let start = find_pool_tag(data, pos)?;
    if !has_bytes(data, start, STRINGPOOL_HEADER_SIZE as usize) {
        return Err(AxmlError::IoError);
    }
    let chunk_size = get_u32(data, start + 4);
    let string_count = get_u32(data, start + 8);
    let style_offset_count = get_u32(data, start + 12);
    let flags = get_u32(data, start + 16);
    let strings_offset = get_u32(data, start + 20);
    let mut styles_offset = get_u32(data, start + 24);

    let tables = start + STRINGPOOL_HEADER_SIZE as usize;
    let (string_offsets, next) = read_words_at(data, tables, string_count as usize)?;
    let (style_offsets, _) = read_words_at(data, next, style_offset_count as usize)?;

    if styles_offset == 0 {
        styles_offset = chunk_size;
    }
    let tables_size: u64 = STRINGPOOL_HEADER_SIZE as u64 + 4 * (string_count as u64
        + style_offset_count as u64);
    if tables_size > strings_offset as u64 || strings_offset > styles_offset || styles_offset
        > chunk_size {
        return Err(AxmlError::InvalidStringBlockSize);
    }
    if (styles_offset - strings_offset) % 4 != 0 || (chunk_size - styles_offset) % 4 != 0 {
        return Err(AxmlError::InvalidStringBlockSize);
    }
    if !has_bytes(data, start, chunk_size as usize) {
        return Err(AxmlError::IoError);
    }
    let char_buffer = slice_to_vec(
        slice_subrange(data, start + strings_offset as usize, start + styles_offset as usize),
    );
    let (styles, _) = read_words_at(
        data,
        start + styles_offset as usize,
        ((chunk_size - styles_offset) / 4) as usize,
    )?;
    Ok(
        (
            StringBlock {
                chunk_size,
                string_count,
                style_offset_count,
                flags,
                strings_offset,
                styles_offset,
                string_offsets,
                style_offsets,
                styles,
                char_buffer,
            },
            start + chunk_size as usize,
        ),
    )
}

impl StringBlock {
    /// Reads the string pool from `buffer`: any null words, the pool's tag,
    /// its header and offset tables, its string data and its style data.
    pub fn read(buffer: &mut ByteCursor) -> (r: Result<StringBlock, AxmlError>)
        ensures
            ByteCursor::reads_view(
                *old(buffer),
                *final(buffer),
                r,
                pool_at(old(buffer).bytes(), old(buffer).offset()),
            ),
    {
        let (pool, end) = parse_pool(buffer.as_slice(), buffer.position())?;
        buffer.set_position(end);
        Ok(pool)
    }

    /// Number of strings that can be asked for.
    pub fn len(&self) -> (n: usize)
        ensures
            n == self@.string_offsets.len(),
    {
        self.string_offsets.len()
    }

    /// Whether the pool's strings are UTF-8; they are UTF-16 otherwise.
    pub fn is_utf8(&self) -> (b: bool)
        ensures
            b == is_utf8(self@.flags),
    {
        (self.flags / UTF8_FLAG) % 2 == 1
    }

    /// Decodes the string with the given index. Nothing is kept: a second
    /// call decodes again.
    pub fn get(&self, index: u32) -> (r: Result<String, AxmlError>)
        ensures
            match string_at(self@, index) {
                Ok(chars) => r matches Ok(s) && s@ == chars,
                Err(error) => r matches Err(e) && e == error,
            },
    {
        if index as usize >= self.string_offsets.len() {
            return Err(AxmlError::InvalidStringIndex);
        }
        let offset = self.string_offsets[index as usize] as usize;
        if self.is_utf8() {
            parse_utf8_string(self.char_buffer.as_slice(), offset)
        } else {
            parse_utf16_string(self.char_buffer.as_slice(), offset)
        }
    }
}

} // verus!
