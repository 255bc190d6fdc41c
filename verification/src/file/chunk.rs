//! The chunks that follow the string pool, and how they are read.

use crate::file::axml::AxmlError;
use crate::file::bytes::{
    agrees, agrees_view, get_u32, has_bytes, in_bounds, read_words_at, u32_at, words_at,
    ByteCursor,
};
use vstd::prelude::*;

verus! {

/// Number of 32-bit words in one flattened attribute record.
pub const ATTRIBUTE_LENGHT: u32 = 5;

/// Tag of the chunk that wraps the whole file.
pub const CHUNK_AXML_FILE: u32 = 0x0008_0003;

/// Tag of the resource identifier table.
pub const CHUNK_RESSOURCEIDS: u32 = 0x0008_0180;

/// Tag of a namespace start.
pub const CHUNK_XML_START_NAMESPACE: u32 = 0x0010_0100;

/// Tag of a namespace end.
pub const CHUNK_XML_END_NAMESPACE: u32 = 0x0010_0101;

/// Tag of an element start.
pub const CHUNK_XML_START_TAG: u32 = 0x0010_0102;

/// Tag of an element end.
pub const CHUNK_XML_END_TAG: u32 = 0x0010_0103;

/// Tag of a text chunk.
pub const CHUNK_XML_TEXT: u32 = 0x0010_0104;

/// What every namespace, element and text chunk begins with.
#[derive(Debug, Clone, Copy, PartialEq, Eq, Structural)]
pub struct Header {
    /// Size of the chunk in bytes, as the chunk declares it.
    pub size: u32,
    /// Line of the source file that the chunk came from.
    pub line: u32,
}

/// The name of an element, as an element start or end carries it.
#[derive(Debug, Clone, Copy, PartialEq, Eq, Structural)]
pub struct Tag {
    pub header: Header,
    /// String index of the namespace URI, or `0xFFFF_FFFF`.
    pub namespace_uri: u32,
    /// String index of the element name.
    pub name: u32,
}

/// The attribute block of an element start.
#[derive(Debug, PartialEq, Eq)]
pub struct Attribute {
    /// Which attribute is the element's id: a position counted from 1, or 0.
    pub id_attribute: u16,
    /// Which attribute is the element's class: a position counted from 1, or 0.
    pub class_attribute: u16,
    /// Which attribute is the element's style: a position counted from 1, or 0.
    pub style_attribute: u16,
    /// The attribute records, five words each, one behind the other.
    pub attributes: Vec<u32>,
}

/// A namespace binding, as a namespace start or end carries it.
#[derive(Debug, Clone, Copy, PartialEq, Eq, Structural)]
pub struct Namespace {
    pub header: Header,
    /// String index of the prefix.
    pub prefix: u32,
    /// String index of the URI.
    pub uri: u32,
}

/// Character data between elements.
#[derive(Debug, Clone, Copy, PartialEq, Eq, Structural)]
pub struct Text {
    pub header: Header,
    /// String index of the text.
    pub name: u32,
    /// First reserved word, kept as read.
    pub unknown1: u32,
    /// Second reserved word, kept as read.
    pub unknown2: u32,
}

/// One record of the chunk stream.
#[derive(Debug, PartialEq, Eq)]
pub enum Chunk {
    StartTag(Tag, Attribute),
    EndTag(Tag),
    StartNamespace(Namespace),
    EndNamespace(Namespace),
    Text(Text),
    Resources(Vec<u32>),
}

/// The mathematical value of an [`Attribute`].
pub struct AttributeView {
    pub id_attribute: u16,
    pub class_attribute: u16,
    pub style_attribute: u16,
    pub attributes: Seq<u32>,
}

/// The mathematical value of a [`Chunk`].
pub enum ChunkView {
    StartTag(Tag, AttributeView),
    EndTag(Tag),
    StartNamespace(Namespace),
    EndNamespace(Namespace),
    Text(Text),
    Resources(Seq<u32>),
}

impl View for Attribute {
    type V = AttributeView;

    open spec fn view(&self) -> AttributeView {
        AttributeView {
            id_attribute: self.id_attribute,
            class_attribute: self.class_attribute,
            style_attribute: self.style_attribute,
            attributes: self.attributes@,
        }
    }
}

impl View for Chunk {
    type V = ChunkView;

    open spec fn view(&self) -> ChunkView {
        match *self {
            Chunk::StartTag(tag, attribute) => ChunkView::StartTag(tag, attribute@),
            Chunk::EndTag(tag) => ChunkView::EndTag(tag),
            Chunk::StartNamespace(namespace) => ChunkView::StartNamespace(namespace),
            Chunk::EndNamespace(namespace) => ChunkView::EndNamespace(namespace),
            Chunk::Text(text) => ChunkView::Text(text),
            Chunk::Resources(ids) => ChunkView::Resources(ids@),
        }
    }
}

/// The values of a sequence of chunks, in the same order.
pub open spec fn chunk_views(chunks: Seq<Chunk>) -> Seq<ChunkView> {
    Seq::new(chunks.len(), |i: int| chunks[i]@)
}

/// The upper half of a word.
pub open spec fn high_half(word: u32) -> u16 {
    (word / 0x1_0000) as u16
}

/// The lower half of a word.
pub open spec fn low_half(word: u32) -> u16 {
    (word % 0x1_0000) as u16
}

/// The header at `pos`: size, line, and a padding word that is skipped.
pub open spec fn header_at(data: Seq<u8>, pos: int) -> Result<(Header, int), AxmlError> {
    if in_bounds(data, pos, 12) {
        Ok((Header { size: u32_at(data, pos), line: u32_at(data, pos + 4) }, pos + 12))
    } else {
        Err(AxmlError::IoError)
    }
}

/// The body of a namespace chunk at `pos`: header, prefix, URI.
pub open spec fn namespace_at(data: Seq<u8>, pos: int) -> Result<(Namespace, int), AxmlError> {
    if in_bounds(data, pos, 20) {
        Ok(
            (
                Namespace {
                    header: header_at(data, pos)->Ok_0.0,
                    prefix: u32_at(data, pos + 12),
                    uri: u32_at(data, pos + 16),
                },
                pos + 20,
            ),
        )
    } else {
        Err(AxmlError::IoError)
    }
}

/// The name of an element at `pos`: header, namespace URI, name.
pub open spec fn tag_at(data: Seq<u8>, pos: int) -> Result<(Tag, int), AxmlError> {
    if in_bounds(data, pos, 20) {
        Ok(
            (
                Tag {
                    header: header_at(data, pos)->Ok_0.0,
                    namespace_uri: u32_at(data, pos + 12),
                    name: u32_at(data, pos + 16),
                },
                pos + 20,
            ),
        )
    } else {
        Err(AxmlError::IoError)
    }
}

/// The body of a text chunk at `pos`: header, string index, two reserved words.
pub open spec fn text_at(data: Seq<u8>, pos: int) -> Result<(Text, int), AxmlError> {
    if in_bounds(data, pos, 24) {
        Ok(
            (
                Text {
                    header: header_at(data, pos)->Ok_0.0,
                    name: u32_at(data, pos + 12),
                    unknown1: u32_at(data, pos + 16),
                    unknown2: u32_at(data, pos + 20),
                },
                pos + 24,
            ),
        )
    } else {
        Err(AxmlError::IoError)
    }
}

/// The attribute block at `pos`, behind an element's name: a flags word that
/// is skipped, a word with the id position above the attribute count, a word
/// with the style position above the class position, then five words for each
/// attribute.
pub open spec fn attribute_at(data: Seq<u8>, pos: int) -> Result<(AttributeView, int), AxmlError> {
    if in_bounds(data, pos, 12) {
        let counts = u32_at(data, pos + 4);
        let class_and_style = u32_at(data, pos + 8);
        let length = low_half(counts) as int * ATTRIBUTE_LENGHT as int;
        match words_at(data, pos + 12, length) {
            Ok((attributes, end)) => Ok(
                (
                    AttributeView {
                        id_attribute: high_half(counts),
                        class_attribute: low_half(class_and_style),
                        style_attribute: high_half(class_and_style),
                        attributes,
                    },
                    end,
                ),
            ),
            Err(error) => Err(error),
        }
    } else {
        Err(AxmlError::IoError)
    }
}

/// The body of an element start at `pos`: the name, then the attribute block.
pub open spec fn start_tag_at(data: Seq<u8>, pos: int) -> Result<(ChunkView, int), AxmlError> {
    match tag_at(data, pos) {
        Ok((tag, next)) => match attribute_at(data, next) {
            Ok((attribute, end)) => Ok((ChunkView::StartTag(tag, attribute), end)),
            Err(error) => Err(error),
        },
        Err(error) => Err(error),
    }
}

/// Whether a resource identifier chunk may declare `size` bytes: at least its
/// own eight, and whole words.
pub open spec fn resources_size_ok(size: u32) -> bool {
    size >= 8 && size % 4 == 0
}

/// The body of a resource identifier chunk at `pos`: the chunk's size, which
/// counts the tag and itself, then the identifiers that fill the rest.
pub open spec fn resources_at(data: Seq<u8>, pos: int) -> Result<(Seq<u32>, int), AxmlError> {
    if !in_bounds(data, pos, 4) {
        Err(AxmlError::IoError)
    } else if !resources_size_ok(u32_at(data, pos)) {
        Err(AxmlError::InvalidChunkSize)
    } else {
        words_at(data, pos + 4, u32_at(data, pos) / 4 - 2)
    }
}

/// The chunk at `pos`: a tag, then the body that the tag announces. An
/// unknown tag is `InvalidTag`; input that ends inside the chunk is `IoError`.
pub open spec fn chunk_at(data: Seq<u8>, pos: int) -> Result<(ChunkView, int), AxmlError> {
    if !in_bounds(data, pos, 4) {
        Err(AxmlError::IoError)
    } else {
        let tag = u32_at(data, pos);
        let body = pos + 4;
        if tag == CHUNK_RESSOURCEIDS {
            match resources_at(data, body) {
                Ok((ids, end)) => Ok((ChunkView::Resources(ids), end)),
                Err(error) => Err(error),
            }
        } else if tag == CHUNK_XML_START_NAMESPACE {
            match namespace_at(data, body) {
                Ok((namespace, end)) => Ok((ChunkView::StartNamespace(namespace), end)),
                Err(error) => Err(error),
            }
        } else if tag == CHUNK_XML_END_NAMESPACE {
            match namespace_at(data, body) {
                Ok((namespace, end)) => Ok((ChunkView::EndNamespace(namespace), end)),
                Err(error) => Err(error),
            }
        } else if tag == CHUNK_XML_START_TAG {
            start_tag_at(data, body)
        } else if tag == CHUNK_XML_END_TAG {
            match tag_at(data, body) {
                Ok((tag, end)) => Ok((ChunkView::EndTag(tag), end)),
                Err(error) => Err(error),
            }
        } else if tag == CHUNK_XML_TEXT {
            match text_at(data, body) {
                Ok((text, end)) => Ok((ChunkView::Text(text), end)),
                Err(error) => Err(error),
            }
        } else {
            Err(AxmlError::InvalidTag)
        }
    }
}

/// A chunk that was read ends behind its tag and inside the input.
pub proof fn lemma_chunk_advances(data: Seq<u8>, pos: int)
    ensures
        chunk_at(data, pos) matches Ok((_, end)) ==> pos + 4 <= end <= data.len(),
{
}

/// An element start never comes with fewer attributes than it declares:
/// where the chunk at `pos` carries the tag of an element start, either the
/// whole chunk is read, with five words for each declared attribute, or, the
/// input ending before the last of them, the outcome is `IoError`.
pub proof fn lemma_start_tag_is_whole_or_fails(data: Seq<u8>, pos: int)
    requires
        in_bounds(data, pos, 4),
        u32_at(data, pos) == CHUNK_XML_START_TAG,
    ensures
        match chunk_at(data, pos) {
            Ok((chunk, end)) => {
                &&& chunk matches ChunkView::StartTag(_, attribute)
                &&& attribute.attributes.len() == 5 * low_half(u32_at(data, pos + 28))
                &&& end == pos + 36 + 20 * low_half(u32_at(data, pos + 28))
            },
            Err(error) => {
                &&& error == AxmlError::IoError
                &&& !in_bounds(data, pos, 36) || !in_bounds(
                    data,
                    pos,
                    36 + 20 * low_half(u32_at(data, pos + 28)),
                )
            },
        },
{
}

/// A stream that ends inside the attributes of an element start fails with
/// `IoError`: where the fixed part of an element start stands at `pos` and
/// the input ends before the last attribute word, reading the stream from
/// `pos` is `IoError`.
pub proof fn lemma_truncated_attributes_fail(data: Seq<u8>, pos: int)
    requires
        in_bounds(data, pos, 36),
        u32_at(data, pos) == CHUNK_XML_START_TAG,
        !in_bounds(data, pos, 36 + 20 * low_half(u32_at(data, pos + 28))),
    ensures
        chunk_at(data, pos) == Err::<(ChunkView, int), AxmlError>(AxmlError::IoError),
        chunks_at(data, pos) == Err::<(Seq<ChunkView>, int), AxmlError>(AxmlError::IoError),
{
}

/// All chunks from `pos` to the end of the input. Input that ends exactly
/// where a chunk would begin ends the stream; any error of a chunk is the
/// error of the stream.
pub open spec fn chunks_at(data: Seq<u8>, pos: int) -> Result<(Seq<ChunkView>, int), AxmlError>
    decreases data.len() - pos,
{
    if pos == data.len() {
        Ok((Seq::empty(), pos))
    } else {
        match chunk_at(data, pos) {
            Ok((chunk, next)) => {
                proof {
                    lemma_chunk_advances(data, pos);
                }
                match chunks_at(data, next) {
                    Ok((rest, end)) => Ok((seq![chunk] + rest, end)),
                    Err(error) => Err(error),
                }
            },
            Err(error) => Err(error),
        }
    }
}

/// A stream that is read is read to the end: nothing of the input is left
/// behind its last chunk.
pub proof fn lemma_stream_ends_with_the_input(data: Seq<u8>, pos: int)
    ensures
        chunks_at(data, pos) matches Ok((_, end)) ==> end == data.len(),
    decreases data.len() - pos,
{
    if pos != data.len() {
        if let Ok((_, next)) = chunk_at(data, pos) {
            lemma_chunk_advances(data, pos);
            lemma_stream_ends_with_the_input(data, next);
        }
    }
}

/// Reads the header at `pos`.
pub fn parse_header(data: &[u8], pos: usize) -> (r: Result<(Header, usize), AxmlError>)
    ensures
        agrees(r, header_at(data@, pos as int)),
{
    if !has_bytes(data, pos, 12) {
        return Err(AxmlError::IoError);
    }
    Ok((Header { size: get_u32(data, pos), line: get_u32(data, pos + 4) }, pos + 12))
}

/// Reads a header from `buffer`: size, line, and a padding word.
pub fn read_header(buffer: &mut ByteCursor) -> (r: Result<Header, AxmlError>)
    ensures
        ByteCursor::reads(
            *old(buffer),
            *final(buffer),
            r,
            header_at(old(buffer).bytes(), old(buffer).offset()),
        ),
{
    let (header, end) = parse_header(buffer.as_slice(), buffer.position())?;
    buffer.set_position(end);
    Ok(header)
}

/// Reads the body of a namespace chunk at `pos`.
fn parse_namespace(data: &[u8], pos: usize) -> (r: Result<(Namespace, usize), AxmlError>)
    ensures
        agrees(r, namespace_at(data@, pos as int)),
{
    if !has_bytes(data, pos, 20) {
        return Err(AxmlError::IoError);
    }
    let (header, _) = parse_header(data, pos)?;
    Ok(
        (
            Namespace { header, prefix: get_u32(data, pos + 12), uri: get_u32(data, pos + 16) },
            pos + 20,
        ),
    )
}

/// Reads the name of an element at `pos`.
fn parse_tag(data: &[u8], pos: usize) -> (r: Result<(Tag, usize), AxmlError>)
    ensures
        agrees(r, tag_at(data@, pos as int)),
{
    if !has_bytes(data, pos, 20) {
        return Err(AxmlError::IoError);
    }
    let (header, _) = parse_header(data, pos)?;
    Ok(
        (
            Tag { header, namespace_uri: get_u32(data, pos + 12), name: get_u32(data, pos + 16) },
            pos + 20,
        ),
    )
}

/// Reads the body of a text chunk at `pos`.
fn parse_text(data: &[u8], pos: usize) -> (r: Result<(Text, usize), AxmlError>)
    ensures
        agrees(r, text_at(data@, pos as int)),
{
    if !has_bytes(data, pos, 24) {
        return Err(AxmlError::IoError);
    }
    let (header, _) = parse_header(data, pos)?;
    Ok(
        (
            Text {
                header,
                name: get_u32(data, pos + 12),
                unknown1: get_u32(data, pos + 16),
                unknown2: get_u32(data, pos + 20),
            },
            pos + 24,
        ),
    )
}

/// Reads the attribute block of an element start at `pos`.
fn parse_attribute(data: &[u8], pos: usize) -> (r: Result<(Attribute, usize), AxmlError>)
    ensures
        agrees_view(r, attribute_at(data@, pos as int)),
{
    if !has_bytes(data, pos, 12) {
        return Err(AxmlError::IoError);
    }
    let counts = get_u32(data, pos + 4);
    let class_and_style = get_u32(data, pos + 8);
    let id_attribute = (counts / 0x1_0000) as u16;
    let attribute_count = (counts % 0x1_0000) as u16;
    let class_attribute = (class_and_style % 0x1_0000) as u16;
    let style_attribute = (class_and_style / 0x1_0000) as u16;
    let length: u32 = attribute_count as u32 * ATTRIBUTE_LENGHT;
    let (attributes, end) = read_words_at(data, pos + 12, length as usize)?;
    Ok((Attribute { id_attribute, class_attribute, style_attribute, attributes }, end))
}

/// Reads the body of a resource identifier chunk at `pos`.
fn parse_resources(data: &[u8], pos: usize) -> (r: Result<(Vec<u32>, usize), AxmlError>)
    ensures
        agrees_view(r, resources_at(data@, pos as int)),
{
    if !has_bytes(data, pos, 4) {
        return Err(AxmlError::IoError);
    }
    let chunk_size = get_u32(data, pos);
    if chunk_size < 8 || chunk_size % 4 != 0 {
        return Err(AxmlError::InvalidChunkSize);
    }
    read_words_at(data, pos + 4, (chunk_size / 4 - 2) as usize)
}

/// Reads the chunk at `pos`.
pub fn parse_chunk(data: &[u8], pos: usize) -> (r: Result<(Chunk, usize), AxmlError>)
    ensures
        agrees_view(r, chunk_at(data@, pos as int)),
{
    if !has_bytes(data, pos, 4) {
        return Err(AxmlError::IoError);
    }
    let tag = get_u32(data, pos);
    let body = pos + 4;
    if tag == CHUNK_RESSOURCEIDS {
        let (ids, end) = parse_resources(data, body)?;
        Ok((Chunk::Resources(ids), end))
    } else if tag == CHUNK_XML_START_NAMESPACE {
        let (namespace, end) = parse_namespace(data, body)?;
        Ok((Chunk::StartNamespace(namespace), end))
    } else if tag == CHUNK_XML_END_NAMESPACE {
        let (namespace, end) = parse_namespace(data, body)?;
        Ok((Chunk::EndNamespace(namespace), end))
    } else if tag == CHUNK_XML_START_TAG {
        let (tag, next) = parse_tag(data, body)?;
        let (attribute, end) = parse_attribute(data, next)?;
        Ok((Chunk::StartTag(tag, attribute), end))
    } else if tag == CHUNK_XML_END_TAG {
        let (tag, end) = parse_tag(data, body)?;
        Ok((Chunk::EndTag(tag), end))
    } else if tag == CHUNK_XML_TEXT {
        let (text, end) = parse_text(data, body)?;
        Ok((Chunk::Text(text), end))
    } else {
        Err(AxmlError::InvalidTag)
    }
}

/// The outcome `rest` of reading the remaining chunks, behind the chunks
/// `done` that were read before them.
spec fn after_chunks(
    done: Seq<ChunkView>,
    rest: Result<(Seq<ChunkView>, int), AxmlError>,
) -> Result<(Seq<ChunkView>, int), AxmlError> {
    match rest {
        Ok((chunks, end)) => Ok((done + chunks, end)),
        Err(error) => Err(error),
    }
}

/// Reading the stream from `pos` is reading one chunk and then the stream
/// from where that chunk ends.
proof fn lemma_chunks_step(data: Seq<u8>, pos: int, done: Seq<ChunkView>)
    requires
        pos != data.len(),
    ensures
        after_chunks(done, chunks_at(data, pos)) == match chunk_at(data, pos) {
            Ok((chunk, next)) => after_chunks(done.push(chunk), chunks_at(data, next)),
            Err(error) => Err(error),
        },
{
    match chunk_at(data, pos) {
        Ok((chunk, next)) => {
            match chunks_at(data, next) {
                Ok((rest, end)) => {
                    assert(done + (seq![chunk] + rest) =~= done.push(chunk) + rest);
                },
                Err(_) => {},
            }
        },
        Err(_) => {},
    }
}

/// Reads all chunks from `pos` to the end of the input.
pub fn parse_chunks(data: &[u8], pos: usize) -> (r: Result<(Vec<Chunk>, usize), AxmlError>)
    ensures
        match chunks_at(data@, pos as int) {
            Ok((chunks, end)) => r matches Ok((v, e)) && chunk_views(v@) == chunks && e == end,
            Err(error) => r matches Err(e) && e == error,
        },
{
    let mut chunks: Vec<Chunk> = Vec::new();
    let mut at: usize = pos;
    while at != data.len()
        invariant
            chunks_at(data@, pos as int) == after_chunks(
                chunk_views(chunks@),
                chunks_at(data@, at as int),
            ),
        decreases data@.len() - at,
    {
        proof {
            lemma_chunks_step(data@, at as int, chunk_views(chunks@));
            lemma_chunk_advances(data@, at as int);
        }
        let ghost before = chunk_views(chunks@);
        let (chunk, next) = parse_chunk(data, at)?;
        chunks.push(chunk);
        assert(chunk_views(chunks@) =~= before.push(chunk@));
        at = next;
    }
    Ok((chunks, at))
}

/// Reads all chunks from `buffer` up to the end of the input. Input that
/// ends exactly behind a chunk ends the stream.
pub fn read_chunks(buffer: &mut ByteCursor) -> (r: Result<Vec<Chunk>, AxmlError>)
    ensures
        final(buffer).bytes() == old(buffer).bytes(),
        match chunks_at(old(buffer).bytes(), old(buffer).offset()) {
            Ok((chunks, end)) => r matches Ok(v) && chunk_views(v@) == chunks
                && final(buffer).offset() == end,
            Err(error) => r matches Err(e) && e == error && final(buffer).offset() == old(
                buffer,
            ).offset(),
        },
{
    let (chunks, end) = parse_chunks(buffer.as_slice(), buffer.position())?;
    buffer.set_position(end);
    Ok(chunks)
}

} // verus!
