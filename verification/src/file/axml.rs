//! The binary XML document and the errors its decoding can report.

use crate::file::bytes::{agrees_view, get_u32, has_bytes, in_bounds, u32_at, ByteCursor};
use crate::file::chunk::{
    chunks_at, lemma_stream_ends_with_the_input, parse_chunks, CHUNK_AXML_FILE,
};
use crate::file::document::{build_document, document_of};
use crate::file::tree::{element_view, Element, ElementView};
use crate::file::string_pool::{parse_pool, pool_at, StringBlock, StringBlockView};
use vstd::prelude::*;

verus! {

/// Why a byte stream could not be decoded.
#[derive(Debug, Clone, Copy, PartialEq, Eq, Structural)]
pub enum AxmlError {
    /// The input ended before a value was complete.
    IoError,
    /// The stream does not begin with the binary XML file tag.
    InvalidStartElement,
    /// The chunk that should be the string pool carries another tag.
    InvalidStringBlockHeader,
    /// The sizes and offsets declared by the string pool contradict each other
    /// or the data that is present.
    InvalidStringBlockSize,
    /// A resource identifier chunk declares a size that is too small or not a
    /// multiple of four.
    InvalidChunkSize,
    /// A chunk carries an unknown tag, or the stream ends while an element is
    /// still open or before any element was seen.
    InvalidTag,
    /// A string index lies outside the string pool.
    InvalidStringIndex,
    /// An end chunk does not match what is open, or a chunk appears where the
    /// document structure has no place for it.
    StructuralMismatch,
    /// The bytes of a pool string are not valid text in the pool's encoding.
    InvalidStringData,
}

/// A decoded document: the string pool, the root element with everything
/// inside it, and the resource identifiers as they were read.
#[derive(Debug, PartialEq, Eq)]
pub struct Axml {
    /// The string pool that every string index of the document points into.
    pub string_block: StringBlock,
    /// The root element.
    pub root: Element,
    /// The resource identifiers, in the order of the file.
    pub resource_ids: Vec<u32>,
}

/// The mathematical value of an [`Axml`].
pub struct AxmlView {
    pub string_block: StringBlockView,
    pub root: ElementView,
    pub resource_ids: Seq<u32>,
}

impl View for Axml {
    type V = AxmlView;

    open spec fn view(&self) -> AxmlView {
        AxmlView {
            string_block: self.string_block@,
            root: element_view(self.root),
            resource_ids: self.resource_ids@,
        }
    }
}

/// Where the string pool is looked for in a file that begins at `pos`:
/// behind the file tag and one padding word. Another first word is
/// `InvalidStartElement`.
pub open spec fn file_header_at(data: Seq<u8>, pos: int) -> Result<int, AxmlError> {
    if !in_bounds(data, pos, 4) {
        Err(AxmlError::IoError)
    } else if u32_at(data, pos) != CHUNK_AXML_FILE {
        Err(AxmlError::InvalidStartElement)
    } else if !in_bounds(data, pos, 8) {
        Err(AxmlError::IoError)
    } else {
        Ok(pos + 8)
    }
}

/// The document that the bytes from `pos` to the end of `data` encode: the
/// file header, the string pool, the chunks up to the end of the input, and
/// the tree that the chunks describe. The first error on this way is the
/// outcome.
pub open spec fn decode_at(data: Seq<u8>, pos: int) -> Result<(AxmlView, int), AxmlError> {
    match file_header_at(data, pos) {
        Ok(pool_pos) => match pool_at(data, pool_pos) {
            Ok((pool, chunks_pos)) => match chunks_at(data, chunks_pos) {
                Ok((chunks, end)) => match document_of(pool, chunks) {
                    Ok(document) => Ok((document, end)),
                    Err(error) => Err(error),
                },
                Err(error) => Err(error),
            },
            Err(error) => Err(error),
        },
        Err(error) => Err(error),
    }
}

/// Decoding is a function of the input: whatever two calls of [`Axml::read`]
/// return for cursors that hold the same bytes and stand at the same
/// position, they are either documents of equal value or the same error, and
/// both cursors end at the same position.
pub proof fn lemma_read_is_deterministic(
    first_before: ByteCursor,
    first_after: ByteCursor,
    first: Result<Axml, AxmlError>,
    second_before: ByteCursor,
    second_after: ByteCursor,
    second: Result<Axml, AxmlError>,
)
    requires
        first_before.bytes() == second_before.bytes(),
        first_before.offset() == second_before.offset(),
        ByteCursor::reads_view(
            first_before,
            first_after,
            first,
            decode_at(first_before.bytes(), first_before.offset()),
        ),
        ByteCursor::reads_view(
            second_before,
            second_after,
            second,
            decode_at(second_before.bytes(), second_before.offset()),
        ),
    ensures
        match (first, second) {
            (Ok(a), Ok(b)) => a@ == b@,
            (Err(a), Err(b)) => a == b,
            _ => false,
        },
        first_after.bytes() == second_after.bytes(),
        first_after.offset() == second_after.offset(),
{
}

/// A document takes the whole input: where decoding succeeds, it ends at the
/// end of the input.
pub proof fn lemma_document_ends_with_the_input(data: Seq<u8>, pos: int)
    ensures
        decode_at(data, pos) matches Ok((_, end)) ==> end == data.len(),
{
    if let Ok(pool_pos) = file_header_at(data, pos) {
        if let Ok((_, chunks_pos)) = pool_at(data, pool_pos) {
            lemma_stream_ends_with_the_input(data, chunks_pos);
        }
    }
}

/// Reads the file header at `pos`.
fn parse_file_header(data: &[u8], pos: usize) -> (r: Result<usize, AxmlError>)
    ensures
        match file_header_at(data@, pos as int) {
            Ok(end) => r matches Ok(e) && e == end,
            Err(error) => r matches Err(e) && e == error,
        },
{
    if !has_bytes(data, pos, 4) {
        return Err(AxmlError::IoError);
    }
    if get_u32(data, pos) != CHUNK_AXML_FILE {
        return Err(AxmlError::InvalidStartElement);
    }
    if !has_bytes(data, pos, 8) {
        return Err(AxmlError::IoError);
    }
    Ok(pos + 8)
}

/// Decodes the document that begins at `pos` and fills the rest of `data`.
pub fn parse_document(data: &[u8], pos: usize) -> (r: Result<(Axml, usize), AxmlError>)
    ensures
        agrees_view(r, decode_at(data@, pos as int)),
{
    let pool_pos = parse_file_header(data, pos)?;
    let (pool, chunks_pos) = parse_pool(data, pool_pos)?;
    let (chunks, end) = parse_chunks(data, chunks_pos)?;
    let document = build_document(pool, chunks)?;
    Ok((document, end))
}

impl Axml {
    /// Decodes a document from `buffer`, which must hold nothing behind it.
    ///
    /// On success the cursor stands at the end of the input. On an error no
    /// document is returned and the cursor stays where it was.
    pub fn read(buffer: &mut ByteCursor) -> (r: Result<Axml, AxmlError>)
        ensures
            ByteCursor::reads_view(
                *old(buffer),
                *final(buffer),
                r,
                decode_at(old(buffer).bytes(), old(buffer).offset()),
            ),
    {
        let (document, end) = parse_document(buffer.as_slice(), buffer.position())?;
        buffer.set_position(end);
        Ok(document)
    }
}

} // verus!
