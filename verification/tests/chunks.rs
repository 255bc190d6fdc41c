use androrust::file::axml::AxmlError;
use androrust::file::bytes::ByteCursor;
use androrust::file::chunk::{
    parse_chunk, parse_chunks, read_chunks, Attribute, Chunk, Header, Namespace, Tag, Text,
};

fn push_word(out: &mut Vec<u8>, word: u32) {
    out.extend_from_slice(&word.to_le_bytes());
}

fn words(values: &[u32]) -> Vec<u8> {
    let mut out = Vec::new();
    for v in values {
        push_word(&mut out, *v);
    }
    out
}

const NONE: u32 = 0xFFFF_FFFF;

fn start_namespace(line: u32, prefix: u32, uri: u32) -> Vec<u8> {
    words(&[0x0010_0100, 24, line, NONE, prefix, uri])
}

fn end_namespace(line: u32, prefix: u32, uri: u32) -> Vec<u8> {
    words(&[0x0010_0101, 24, line, NONE, prefix, uri])
}

fn start_tag(
    line: u32,
    namespace: u32,
    name: u32,
    ids: (u16, u16, u16),
    attributes: &[[u32; 5]],
) -> Vec<u8> {
    let mut out = words(&[
        0x0010_0102,
        36 + 20 * attributes.len() as u32,
        line,
        NONE,
        namespace,
        name,
        0x0014_0014,
        ((ids.0 as u32) << 16) | attributes.len() as u32,
        ((ids.2 as u32) << 16) | ids.1 as u32,
    ]);
    for a in attributes {
        out.extend_from_slice(&words(a));
    }
    out
}

fn end_tag(line: u32, namespace: u32, name: u32) -> Vec<u8> {
    words(&[0x0010_0103, 24, line, NONE, namespace, name])
}

fn text(line: u32, name: u32) -> Vec<u8> {
    words(&[0x0010_0104, 28, line, NONE, name, 8, 0])
}

fn resources(ids: &[u32]) -> Vec<u8> {
    let mut out = words(&[0x0008_0180, 8 + 4 * ids.len() as u32]);
    out.extend_from_slice(&words(ids));
    out
}

fn read_all(bytes: Vec<u8>) -> Result<Vec<Chunk>, AxmlError> {
    read_chunks(&mut ByteCursor::new(bytes))
}

#[test]
fn no_input_is_no_chunks() {
    let mut cursor = ByteCursor::new(Vec::new());
    assert_eq!(read_chunks(&mut cursor), Ok(vec![]));
    assert_eq!(cursor.position(), 0);
}

#[test]
fn input_that_ends_behind_a_chunk_ends_the_stream() {
    let bytes = end_tag(3, NONE, 1);
    let mut cursor = ByteCursor::new(bytes);
    let chunks = read_chunks(&mut cursor).unwrap();
    assert_eq!(cursor.position(), 24);
    assert_eq!(
        chunks,
        vec![Chunk::EndTag(Tag {
            header: Header { size: 24, line: 3 },
            namespace_uri: NONE,
            name: 1,
        })]
    );
}

#[test]
fn input_that_ends_inside_a_tag_is_an_io_error() {
    for extra in 1..4usize {
        let mut bytes = end_tag(3, NONE, 1);
        bytes.extend_from_slice(&vec![0u8; extra]);
        let mut cursor = ByteCursor::new(bytes);
        assert_eq!(read_chunks(&mut cursor), Err(AxmlError::IoError));
        assert_eq!(cursor.position(), 0);
    }
}

#[test]
fn resource_chunk_of_size_seven_is_rejected() {
    let mut bytes = words(&[0x0008_0180, 7]);
    bytes.extend_from_slice(&[0u8; 16]);
    assert_eq!(read_all(bytes.clone()), Err(AxmlError::InvalidChunkSize));
    assert_eq!(parse_chunk(&bytes, 0).err(), Some(AxmlError::InvalidChunkSize));
}

#[test]
fn resource_chunk_sizes_are_checked() {
    for size in [0u32, 1, 4, 6, 7, 9, 10, 11, 13, 0xFFFF_FFFF, 0xFFFF_FFFE] {
        let mut bytes = words(&[0x0008_0180, size]);
        bytes.extend_from_slice(&[0u8; 16]);
        assert_eq!(read_all(bytes), Err(AxmlError::InvalidChunkSize), "size {}", size);
    }
}

#[test]
fn resource_chunk_of_size_eight_holds_nothing() {
    assert_eq!(read_all(words(&[0x0008_0180, 8])), Ok(vec![Chunk::Resources(vec![])]));
}

#[test]
fn resource_identifiers_are_kept_in_order() {
    let bytes = resources(&[0x0101_0003, 0x0101_0001, 0x7F04_0000]);
    assert_eq!(bytes.len(), 20);
    assert_eq!(
        read_all(bytes),
        Ok(vec![Chunk::Resources(vec![0x0101_0003, 0x0101_0001, 0x7F04_0000])])
    );
}

#[test]
fn resource_chunk_that_is_cut_short_is_an_io_error() {
    let whole = resources(&[1, 2, 3]);
    for keep in 1..whole.len() {
        assert_eq!(read_all(whole[..keep].to_vec()), Err(AxmlError::IoError), "kept {}", keep);
    }
    assert_eq!(read_all(words(&[0x0008_0180, 0xFFFF_FFFC, 1, 2])), Err(AxmlError::IoError));
}

#[test]
fn namespace_chunks_carry_prefix_and_uri() {
    let mut bytes = start_namespace(2, 5, 6);
    bytes.extend_from_slice(&end_namespace(9, 5, 6));
    assert_eq!(
        read_all(bytes),
        Ok(vec![
            Chunk::StartNamespace(Namespace {
                header: Header { size: 24, line: 2 },
                prefix: 5,
                uri: 6,
            }),
            Chunk::EndNamespace(Namespace {
                header: Header { size: 24, line: 9 },
                prefix: 5,
                uri: 6,
            }),
        ])
    );
}

#[test]
fn element_start_without_attributes() {
    let bytes = start_tag(4, NONE, 2, (0, 0, 0), &[]);
    assert_eq!(bytes.len(), 36);
    assert_eq!(
        read_all(bytes),
        Ok(vec![Chunk::StartTag(
            Tag { header: Header { size: 36, line: 4 }, namespace_uri: NONE, name: 2 },
            Attribute {
                id_attribute: 0,
                class_attribute: 0,
                style_attribute: 0,
                attributes: vec![],
            },
        )])
    );
}

#[test]
fn element_start_keeps_its_attribute_words() {
    let bytes = start_tag(
        4,
        1,
        2,
        (0, 0, 0),
        &[[1, 3, NONE, 0x1000_0008, 42], [NONE, 4, 5, 0x0300_0008, 5]],
    );
    assert_eq!(
        read_all(bytes),
        Ok(vec![Chunk::StartTag(
            Tag { header: Header { size: 76, line: 4 }, namespace_uri: 1, name: 2 },
            Attribute {
                id_attribute: 0,
                class_attribute: 0,
                style_attribute: 0,
                attributes: vec![1, 3, NONE, 0x1000_0008, 42, NONE, 4, 5, 0x0300_0008, 5],
            },
        )])
    );
}

#[test]
fn element_start_keeps_its_positions_as_written() {
    let attribute = [NONE, 1, NONE, 0x1000_0008, 0];
    let bytes = start_tag(1, NONE, 0, (2, 3, 1), &[attribute, attribute, attribute]);
    match &read_all(bytes).unwrap()[0] {
        Chunk::StartTag(_, a) => {
            assert_eq!(a.id_attribute, 2);
            assert_eq!(a.class_attribute, 3);
            assert_eq!(a.style_attribute, 1);
            assert_eq!(a.attributes.len(), 15);
        }
        other => panic!("not an element start: {:?}", other),
    }
    let bytes = start_tag(1, NONE, 0, (0xFFFF, 7, 0xFFFE), &[]);
    match &read_all(bytes).unwrap()[0] {
        Chunk::StartTag(_, a) => {
            assert_eq!(a.id_attribute, 0xFFFF);
            assert_eq!(a.class_attribute, 7);
            assert_eq!(a.style_attribute, 0xFFFE);
        }
        other => panic!("not an element start: {:?}", other),
    }
}

#[test]
fn element_start_cut_inside_its_attributes_is_an_io_error() {
    let attribute = [NONE, 1, NONE, 0x1000_0008, 0];
    let whole = start_tag(1, NONE, 0, (0, 0, 0), &[attribute, attribute]);
    assert_eq!(whole.len(), 76);
    for keep in 36..whole.len() {
        let mut cursor = ByteCursor::new(whole[..keep].to_vec());
        assert_eq!(read_chunks(&mut cursor), Err(AxmlError::IoError), "kept {}", keep);
        assert_eq!(cursor.position(), 0);
    }
    assert!(read_all(whole).is_ok());
}

#[test]
fn element_start_with_the_highest_attribute_count_needs_them_all() {
    let mut bytes = words(&[0x0010_0102, 36, 1, NONE, NONE, 0, 0x0014_0014, 0xFFFF, 0]);
    bytes.extend_from_slice(&vec![0u8; 20 * 0xFFFF - 1]);
    assert_eq!(read_all(bytes.clone()), Err(AxmlError::IoError));
    bytes.push(0);
    match &read_all(bytes).unwrap()[0] {
        Chunk::StartTag(_, a) => assert_eq!(a.attributes.len(), 5 * 0xFFFF),
        other => panic!("not an element start: {:?}", other),
    }
}

#[test]
fn every_chunk_that_is_cut_short_is_an_io_error() {
    for whole in [
        start_namespace(1, 2, 3),
        end_namespace(1, 2, 3),
        start_tag(1, 2, 3, (0, 0, 0), &[]),
        end_tag(1, 2, 3),
        text(1, 2),
    ] {
        for keep in 1..whole.len() {
            assert_eq!(read_all(whole[..keep].to_vec()), Err(AxmlError::IoError), "kept {}", keep);
        }
        assert_eq!(read_all(whole).map(|chunks| chunks.len()), Ok(1));
    }
}

#[test]
fn text_chunk_keeps_its_reserved_words() {
    let bytes = words(&[0x0010_0104, 28, 12, NONE, 9, 0xAAAA_AAAA, 0xBBBB_BBBB]);
    assert_eq!(
        read_all(bytes),
        Ok(vec![Chunk::Text(Text {
            header: Header { size: 28, line: 12 },
            name: 9,
            unknown1: 0xAAAA_AAAA,
            unknown2: 0xBBBB_BBBB,
        })])
    );
}

#[test]
fn unknown_tag_is_rejected() {
    for tag in [0u32, 0x0010_0105, 0x0010_00FF, 0x001C_0001, 0x0008_0003, NONE] {
        let mut bytes = words(&[tag, 8]);
        bytes.extend_from_slice(&[0u8; 32]);
        assert_eq!(read_all(bytes), Err(AxmlError::InvalidTag), "tag {:#x}", tag);
    }
}

#[test]
fn unknown_tag_behind_good_chunks_is_rejected() {
    let mut bytes = start_tag(1, NONE, 0, (0, 0, 0), &[]);
    bytes.extend_from_slice(&end_tag(1, NONE, 0));
    bytes.extend_from_slice(&words(&[0x0010_0199]));
    let mut cursor = ByteCursor::new(bytes);
    assert_eq!(read_chunks(&mut cursor), Err(AxmlError::InvalidTag));
    assert_eq!(cursor.position(), 0);
}

#[test]
fn header_size_is_kept_and_not_followed() {
    let bytes = words(&[0x0010_0103, 9999, 3, 0, 7, 8, 0x0010_0103, 0, 4, 0, 7, 8]);
    assert_eq!(
        read_all(bytes),
        Ok(vec![
            Chunk::EndTag(Tag {
                header: Header { size: 9999, line: 3 },
                namespace_uri: 7,
                name: 8,
            }),
            Chunk::EndTag(Tag { header: Header { size: 0, line: 4 }, namespace_uri: 7, name: 8 }),
        ])
    );
}

#[test]
fn chunks_come_in_the_order_of_the_input() {
    let mut bytes = resources(&[7]);
    bytes.extend_from_slice(&start_namespace(1, 0, 1));
    bytes.extend_from_slice(&start_tag(2, 1, 2, (0, 0, 0), &[]));
    bytes.extend_from_slice(&text(3, 3));
    bytes.extend_from_slice(&end_tag(4, 1, 2));
    bytes.extend_from_slice(&end_namespace(5, 0, 1));
    let total = bytes.len();
    let (chunks, end) = parse_chunks(&bytes, 0).unwrap();
    assert_eq!(end, total);
    let kinds: Vec<u8> = chunks
        .iter()
        .map(|c| match c {
            Chunk::Resources(_) => 0,
            Chunk::StartNamespace(_) => 1,
            Chunk::StartTag(_, _) => 2,
            Chunk::Text(_) => 3,
            Chunk::EndTag(_) => 4,
            Chunk::EndNamespace(_) => 5,
        })
        .collect();
    assert_eq!(kinds, vec![0, 1, 2, 3, 4, 5]);
}

#[test]
fn parse_chunk_gives_the_end_of_the_chunk() {
    let mut bytes = vec![0xEE; 2];
    bytes.extend_from_slice(&text(1, 2));
    bytes.extend_from_slice(&end_tag(1, 2, 3));
    let (chunk, end) = parse_chunk(&bytes, 2).unwrap();
    assert_eq!(end, 30);
    assert!(matches!(chunk, Chunk::Text(_)));
    let (chunk, end) = parse_chunk(&bytes, 30).unwrap();
    assert_eq!(end, 54);
    assert!(matches!(chunk, Chunk::EndTag(_)));
    assert_eq!(parse_chunk(&bytes, 54).err(), Some(AxmlError::IoError));
}

#[test]
fn chunks_are_read_from_the_cursor_position() {
    let mut bytes = vec![0xEE; 5];
    bytes.extend_from_slice(&end_tag(1, 2, 3));
    let mut cursor = ByteCursor::new(bytes);
    cursor.set_position(5);
    assert_eq!(read_chunks(&mut cursor).map(|c| c.len()), Ok(1));
    assert_eq!(cursor.position(), 29);
    cursor.set_position(100);
    assert_eq!(read_chunks(&mut cursor), Err(AxmlError::IoError));
    assert_eq!(cursor.position(), 100);
}
