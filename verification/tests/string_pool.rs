use androrust::file::axml::AxmlError;
use androrust::file::bytes::ByteCursor;
use androrust::file::string_pool::{parse_pool, StringBlock};
use androrust::file::text::{decode_utf16, string_from_utf16};

fn push_word(out: &mut Vec<u8>, word: u32) {
    out.extend_from_slice(&word.to_le_bytes());
}

fn push_half(out: &mut Vec<u8>, half: u16) {
    out.extend_from_slice(&half.to_le_bytes());
}

/// The entries of a pool and where each begins.
fn utf16_data(strings: &[&str]) -> (Vec<u32>, Vec<u8>) {
    let mut offsets = Vec::new();
    let mut data = Vec::new();
    for s in strings {
        offsets.push(data.len() as u32);
        let units: Vec<u16> = s.encode_utf16().collect();
        if units.len() < 0x8000 {
            push_half(&mut data, units.len() as u16);
        } else {
            push_half(&mut data, 0x8000 | (units.len() >> 16) as u16);
            push_half(&mut data, units.len() as u16);
        }
        for u in units {
            push_half(&mut data, u);
        }
        push_half(&mut data, 0);
    }
    while data.len() % 4 != 0 {
        data.push(0);
    }
    (offsets, data)
}

fn utf8_data(strings: &[&str]) -> (Vec<u32>, Vec<u8>) {
    let mut offsets = Vec::new();
    let mut data = Vec::new();
    for s in strings {
        offsets.push(data.len() as u32);
        for length in [s.chars().count(), s.len()] {
            if length < 0x80 {
                data.push(length as u8);
            } else {
                data.push(0x80 | (length >> 8) as u8);
                data.push(length as u8);
            }
        }
        data.extend_from_slice(s.as_bytes());
        data.push(0);
    }
    while data.len() % 4 != 0 {
        data.push(0);
    }
    (offsets, data)
}

/// A pool chunk with the given flags, string offsets, string data and style words.
fn pool_chunk(flags: u32, offsets: &[u32], data: &[u8], styles: &[u32]) -> Vec<u8> {
    let strings_offset = 28 + 4 * offsets.len() as u32;
    let styles_offset = strings_offset + data.len() as u32;
    let chunk_size = styles_offset + 4 * styles.len() as u32;
    let mut out = Vec::new();
    push_word(&mut out, 0x001C_0001);
    push_word(&mut out, chunk_size);
    push_word(&mut out, offsets.len() as u32);
    push_word(&mut out, 0);
    push_word(&mut out, flags);
    push_word(&mut out, strings_offset);
    push_word(&mut out, if styles.is_empty() { 0 } else { styles_offset });
    for offset in offsets {
        push_word(&mut out, *offset);
    }
    out.extend_from_slice(data);
    for style in styles {
        push_word(&mut out, *style);
    }
    out
}

fn utf16_pool(strings: &[&str]) -> Vec<u8> {
    let (offsets, data) = utf16_data(strings);
    pool_chunk(0, &offsets, &data, &[])
}

fn utf8_pool(strings: &[&str]) -> Vec<u8> {
    let (offsets, data) = utf8_data(strings);
    pool_chunk(0x100, &offsets, &data, &[])
}

fn read_pool(bytes: Vec<u8>) -> Result<StringBlock, AxmlError> {
    StringBlock::read(&mut ByteCursor::new(bytes))
}

/// A raw pool header followed by `rest`.
fn raw_pool(
    chunk_size: u32,
    string_count: u32,
    style_count: u32,
    strings_offset: u32,
    styles_offset: u32,
    rest: &[u8],
) -> Vec<u8> {
    let mut out = Vec::new();
    push_word(&mut out, 0x001C_0001);
    push_word(&mut out, chunk_size);
    push_word(&mut out, string_count);
    push_word(&mut out, style_count);
    push_word(&mut out, 0);
    push_word(&mut out, strings_offset);
    push_word(&mut out, styles_offset);
    out.extend_from_slice(rest);
    out
}

#[test]
fn every_string_of_a_utf16_pool_reads_back() {
    let strings =
        ["manifest", "", "android", "http://schemas.android.com/apk/res/android", "é€"];
    let pool = read_pool(utf16_pool(&strings)).unwrap();
    assert_eq!(pool.len(), strings.len());
    assert!(!pool.is_utf8());
    for (i, s) in strings.iter().enumerate() {
        assert_eq!(pool.get(i as u32), Ok(s.to_string()));
    }
}

#[test]
fn every_string_of_a_utf8_pool_reads_back() {
    let strings = ["manifest", "", "android", "übergrößenträger", "日本語", "😀"];
    let pool = read_pool(utf8_pool(&strings)).unwrap();
    assert_eq!(pool.len(), strings.len());
    assert!(pool.is_utf8());
    for (i, s) in strings.iter().enumerate() {
        assert_eq!(pool.get(i as u32), Ok(s.to_string()));
    }
}

#[test]
fn pools_of_many_sizes_read_back() {
    for n in 0..20usize {
        let owned: Vec<String> =
            (0..n).map(|i| format!("string-{}-{}", i, "x".repeat(i))).collect();
        let strings: Vec<&str> = owned.iter().map(|s| s.as_str()).collect();
        for bytes in [utf16_pool(&strings), utf8_pool(&strings)] {
            let pool = read_pool(bytes).unwrap();
            assert_eq!(pool.len(), n);
            for (i, s) in strings.iter().enumerate() {
                assert_eq!(pool.get(i as u32), Ok(s.to_string()));
            }
            assert_eq!(pool.get(n as u32), Err(AxmlError::InvalidStringIndex));
        }
    }
}

#[test]
fn a_string_is_decoded_anew_each_time() {
    let pool = read_pool(utf16_pool(&["one", "two"])).unwrap();
    assert_eq!(pool.get(1), Ok("two".to_string()));
    assert_eq!(pool.get(1), Ok("two".to_string()));
    assert_eq!(pool.get(0), Ok("one".to_string()));
}

#[test]
fn surrogate_pair_makes_one_character() {
    let (offsets, data) = utf16_data(&["a😀b"]);
    assert_eq!(&data[..12], &[4, 0, 0x61, 0, 0x3D, 0xD8, 0x00, 0xDE, 0x62, 0, 0, 0]);
    let pool = read_pool(pool_chunk(0, &offsets, &data, &[])).unwrap();
    let s = pool.get(0).unwrap();
    assert_eq!(s.chars().collect::<Vec<char>>(), vec!['a', '\u{1F600}', 'b']);
}

#[test]
fn utf16_code_units_decode_to_characters() {
    assert_eq!(decode_utf16(&[]), Some(vec![]));
    assert_eq!(decode_utf16(&[0x41, 0xE9, 0x20AC]), Some(vec!['A', 'é', '€']));
    assert_eq!(
        decode_utf16(&[0xD7FF, 0xE000, 0xFFFF]),
        Some(vec!['\u{D7FF}', '\u{E000}', '\u{FFFF}'])
    );
    assert_eq!(decode_utf16(&[0xD800, 0xDC00]), Some(vec!['\u{10000}']));
    assert_eq!(decode_utf16(&[0xDBFF, 0xDFFF]), Some(vec!['\u{10FFFF}']));
    assert_eq!(decode_utf16(&[0xD83D, 0xDE00, 0x41]), Some(vec!['\u{1F600}', 'A']));
}

#[test]
fn lone_surrogates_decode_to_nothing() {
    assert_eq!(decode_utf16(&[0xD800]), None);
    assert_eq!(decode_utf16(&[0xDC00]), None);
    assert_eq!(decode_utf16(&[0x41, 0xD800, 0x41]), None);
    assert_eq!(decode_utf16(&[0xDC00, 0xD800]), None);
    assert_eq!(decode_utf16(&[0xD800, 0xD800, 0xDC00]), None);
    assert_eq!(string_from_utf16(&[0x41, 0xDFFF]), None);
}

#[test]
fn utf16_decoding_agrees_with_std() {
    let samples: [&[u16]; 6] = [
        &[0x68, 0x69],
        &[0xD834, 0xDD1E, 0x6d, 0x75, 0x73, 0xDD1E, 0x69, 0x63],
        &[0xD834, 0xDD1E, 0x6d, 0x75, 0x73, 0x69, 0x63],
        &[0xDBFF],
        &[0xFFFE, 0xFEFF],
        &[],
    ];
    for units in samples {
        assert_eq!(string_from_utf16(units), String::from_utf16(units).ok());
    }
}

#[test]
fn string_with_a_lone_surrogate_is_invalid_data() {
    let mut data = Vec::new();
    push_half(&mut data, 1);
    push_half(&mut data, 0xD800);
    push_half(&mut data, 0);
    push_half(&mut data, 0);
    let pool = read_pool(pool_chunk(0, &[0], &data, &[])).unwrap();
    assert_eq!(pool.get(0), Err(AxmlError::InvalidStringData));
}

#[test]
fn string_with_invalid_utf8_is_invalid_data() {
    let data = [1u8, 2, 0xC3, 0x28, 0, 0, 0, 0];
    let pool = read_pool(pool_chunk(0x100, &[0], &data, &[])).unwrap();
    assert_eq!(pool.get(0), Err(AxmlError::InvalidStringData));
    let data = [1u8, 1, 0xFF, 0];
    let pool = read_pool(pool_chunk(0x100, &[0], &data, &[])).unwrap();
    assert_eq!(pool.get(0), Err(AxmlError::InvalidStringData));
}

#[test]
fn utf8_string_ignores_its_character_count() {
    let data = [77u8, 2, b'o', b'k', 0, 0, 0, 0];
    let pool = read_pool(pool_chunk(0x100, &[0], &data, &[])).unwrap();
    assert_eq!(pool.get(0), Ok("ok".to_string()));
}

#[test]
fn long_utf16_string_has_a_two_part_length() {
    let long = "a".repeat(0x8000 + 5);
    let (offsets, data) = utf16_data(&[&long, "z"]);
    assert_eq!(&data[..4], &[0x00, 0x80, 0x05, 0x80]);
    let pool = read_pool(pool_chunk(0, &offsets, &data, &[])).unwrap();
    assert_eq!(pool.get(0), Ok(long));
    assert_eq!(pool.get(1), Ok("z".to_string()));
}

#[test]
fn long_utf8_string_has_two_part_lengths() {
    let long = "é".repeat(200);
    let (offsets, data) = utf8_data(&[&long, "z"]);
    assert_eq!(&data[..4], &[0x80, 200, 0x81, 0x90]);
    let pool = read_pool(pool_chunk(0x100, &offsets, &data, &[])).unwrap();
    assert_eq!(pool.get(0), Ok(long));
    assert_eq!(pool.get(1), Ok("z".to_string()));
}

#[test]
fn string_index_outside_the_pool_is_rejected() {
    let pool = read_pool(utf16_pool(&["only"])).unwrap();
    assert_eq!(pool.get(1), Err(AxmlError::InvalidStringIndex));
    assert_eq!(pool.get(0xFFFF_FFFF), Err(AxmlError::InvalidStringIndex));
    let empty = read_pool(utf16_pool(&[])).unwrap();
    assert_eq!(empty.get(0), Err(AxmlError::InvalidStringIndex));
}

#[test]
fn string_that_leaves_the_buffer_is_a_size_error() {
    let mut data = Vec::new();
    push_half(&mut data, 3);
    push_half(&mut data, 0x61);
    let pool = read_pool(pool_chunk(0, &[0, 4, 3, 2], &data, &[])).unwrap();
    assert_eq!(pool.get(0), Err(AxmlError::InvalidStringBlockSize));
    assert_eq!(pool.get(1), Err(AxmlError::InvalidStringBlockSize));
    assert_eq!(pool.get(2), Err(AxmlError::InvalidStringBlockSize));
    assert_eq!(pool.get(3), Err(AxmlError::InvalidStringBlockSize));
}

#[test]
fn utf8_string_that_leaves_the_buffer_is_a_size_error() {
    let data = [1u8, 9, b'a', 0];
    let pool = read_pool(pool_chunk(0x100, &[0, 3, 4, 9], &data, &[])).unwrap();
    assert_eq!(pool.get(0), Err(AxmlError::InvalidStringBlockSize));
    assert_eq!(pool.get(1), Err(AxmlError::InvalidStringBlockSize));
    assert_eq!(pool.get(2), Err(AxmlError::InvalidStringBlockSize));
    assert_eq!(pool.get(3), Err(AxmlError::InvalidStringBlockSize));
}

#[test]
fn two_part_length_that_is_cut_short_is_a_size_error() {
    let data = [0x00u8, 0x80, 0x01, 0x00];
    let pool = read_pool(pool_chunk(0, &[0, 2], &data, &[])).unwrap();
    assert_eq!(pool.get(0), Err(AxmlError::InvalidStringBlockSize));
    assert_eq!(pool.get(1), Err(AxmlError::InvalidStringBlockSize));
    let data = [0u8, 0, 0x01, 0x80];
    let pool = read_pool(pool_chunk(0x100, &[2, 0], &data, &[])).unwrap();
    assert_eq!(pool.get(0), Err(AxmlError::InvalidStringBlockSize));
    assert_eq!(pool.get(1), Ok(String::new()));
    let data = [0x01u8, 0x01, 0x61, 0x80];
    let pool = read_pool(pool_chunk(0x100, &[3], &data, &[])).unwrap();
    assert_eq!(pool.get(0), Err(AxmlError::InvalidStringBlockSize));
}

#[test]
fn pool_fields_are_kept_as_read() {
    let (offsets, data) = utf16_data(&["ab", "c"]);
    assert_eq!(offsets, vec![0, 8]);
    let bytes = pool_chunk(0x1, &offsets, &data, &[0xFFFF_FFFF, 7]);
    let size = bytes.len() as u32;
    let pool = read_pool(bytes).unwrap();
    assert_eq!(
        pool,
        StringBlock {
            chunk_size: size,
            string_count: 2,
            style_offset_count: 0,
            flags: 1,
            strings_offset: 36,
            styles_offset: 36 + data.len() as u32,
            string_offsets: vec![0, 8],
            style_offsets: vec![],
            styles: vec![0xFFFF_FFFF, 7],
            char_buffer: data,
        }
    );
}

#[test]
fn pool_without_styles_ends_its_strings_at_the_chunk_end() {
    let bytes = utf16_pool(&["ab"]);
    let size = bytes.len() as u32;
    let pool = read_pool(bytes).unwrap();
    assert_eq!(pool.styles_offset, size);
    assert_eq!(pool.chunk_size, size);
    assert_eq!(pool.styles, Vec::<u32>::new());
    assert_eq!(pool.char_buffer, vec![2, 0, 0x61, 0, 0x62, 0, 0, 0]);
}

#[test]
fn style_offsets_are_read_behind_the_string_offsets() {
    let mut rest = Vec::new();
    push_word(&mut rest, 0);
    push_word(&mut rest, 0x11);
    push_word(&mut rest, 0x22);
    rest.extend_from_slice(&[1, 0, 0x61, 0]);
    push_word(&mut rest, 0x33);
    let bytes = raw_pool(48, 1, 2, 40, 44, &rest);
    let mut cursor = ByteCursor::new(bytes);
    let pool = StringBlock::read(&mut cursor).unwrap();
    assert_eq!(cursor.position(), 48);
    assert_eq!(pool.string_offsets, vec![0]);
    assert_eq!(pool.style_offsets, vec![0x11, 0x22]);
    assert_eq!(pool.styles, vec![0x33]);
    assert_eq!(pool.get(0), Ok("a".to_string()));
}

#[test]
fn null_words_before_the_pool_are_skipped() {
    let mut bytes = vec![0u8; 12];
    bytes.extend_from_slice(&utf16_pool(&["x"]));
    let total = bytes.len();
    bytes.extend_from_slice(&[0xAA; 5]);
    let mut cursor = ByteCursor::new(bytes);
    let pool = StringBlock::read(&mut cursor).unwrap();
    assert_eq!(cursor.position(), total);
    assert_eq!(pool.get(0), Ok("x".to_string()));
    assert_eq!(pool.strings_offset, 32);
}

#[test]
fn only_null_words_are_an_io_error() {
    assert_eq!(read_pool(vec![0u8; 16]), Err(AxmlError::IoError));
    assert_eq!(read_pool(vec![]), Err(AxmlError::IoError));
    assert_eq!(read_pool(vec![0u8; 3]), Err(AxmlError::IoError));
}

#[test]
fn another_tag_in_place_of_the_pool_is_rejected() {
    let mut bytes = vec![0u8; 8];
    push_word(&mut bytes, 0x0008_0180);
    bytes.extend_from_slice(&[0u8; 64]);
    let mut cursor = ByteCursor::new(bytes);
    assert_eq!(StringBlock::read(&mut cursor), Err(AxmlError::InvalidStringBlockHeader));
    assert_eq!(cursor.position(), 0);
    let mut bytes = Vec::new();
    push_word(&mut bytes, 0x001C_0002);
    assert_eq!(read_pool(bytes), Err(AxmlError::InvalidStringBlockHeader));
}

#[test]
fn string_data_that_is_not_whole_words_is_rejected() {
    for odd in [1u32, 2, 3, 5, 6, 7] {
        let rest = vec![0u8; 64];
        assert_eq!(
            read_pool(raw_pool(28 + odd, 0, 0, 28, 0, &rest)),
            Err(AxmlError::InvalidStringBlockSize)
        );
        assert_eq!(
            read_pool(raw_pool(64, 0, 0, 28, 28 + odd, &rest)),
            Err(AxmlError::InvalidStringBlockSize)
        );
        assert_eq!(
            parse_pool(&raw_pool(64, 0, 0, 28, 28 + odd, &rest), 0).err(),
            Some(AxmlError::InvalidStringBlockSize)
        );
    }
    let rest = vec![0u8; 64];
    assert!(read_pool(raw_pool(36, 0, 0, 28, 32, &rest)).is_ok());
}

#[test]
fn style_data_that_is_not_whole_words_is_rejected() {
    let rest = vec![0u8; 64];
    assert_eq!(
        read_pool(raw_pool(35, 0, 0, 28, 32, &rest)),
        Err(AxmlError::InvalidStringBlockSize)
    );
}

#[test]
fn pool_parts_out_of_order_are_rejected() {
    let rest = vec![0u8; 64];
    assert_eq!(read_pool(raw_pool(64, 1, 0, 28, 0, &rest)), Err(AxmlError::InvalidStringBlockSize));
    assert_eq!(read_pool(raw_pool(64, 0, 1, 28, 0, &rest)), Err(AxmlError::InvalidStringBlockSize));
    assert_eq!(
        read_pool(raw_pool(64, 0, 0, 40, 36, &rest)),
        Err(AxmlError::InvalidStringBlockSize)
    );
    assert_eq!(
        read_pool(raw_pool(40, 0, 0, 28, 44, &rest)),
        Err(AxmlError::InvalidStringBlockSize)
    );
    assert_eq!(read_pool(raw_pool(24, 0, 0, 28, 0, &rest)), Err(AxmlError::InvalidStringBlockSize));
    assert_eq!(read_pool(raw_pool(0, 0, 0, 0, 0, &rest)), Err(AxmlError::InvalidStringBlockSize));
    assert!(read_pool(raw_pool(28, 0, 0, 28, 0, &rest)).is_ok());
    assert!(read_pool(raw_pool(64, 1, 0, 32, 0, &rest)).is_ok());
}

#[test]
fn pool_that_is_cut_short_is_an_io_error() {
    let whole = utf16_pool(&["manifest", "application"]);
    for keep in 0..whole.len() {
        let mut cursor = ByteCursor::new(whole[..keep].to_vec());
        assert_eq!(StringBlock::read(&mut cursor), Err(AxmlError::IoError), "kept {}", keep);
        assert_eq!(cursor.position(), 0);
    }
    assert!(read_pool(whole).is_ok());
}

#[test]
fn pool_with_more_strings_than_input_is_an_io_error() {
    let rest = vec![0u8; 64];
    assert_eq!(read_pool(raw_pool(64, 0xFFFF_FFFF, 0, 28, 0, &rest)), Err(AxmlError::IoError));
    assert_eq!(read_pool(raw_pool(64, 16, 1, 28, 0, &rest)), Err(AxmlError::IoError));
    assert_eq!(
        read_pool(raw_pool(64, 0x4000_0000, 0x4000_0000, 28, 0, &rest)),
        Err(AxmlError::IoError)
    );
}

#[test]
fn gap_before_the_string_data_is_skipped() {
    let mut rest = Vec::new();
    push_word(&mut rest, 0);
    push_word(&mut rest, 0xDEAD_BEEF);
    rest.extend_from_slice(&[1, 0, 0x71, 0]);
    let pool = read_pool(raw_pool(40, 1, 0, 36, 0, &rest)).unwrap();
    assert_eq!(pool.char_buffer, vec![1, 0, 0x71, 0]);
    assert_eq!(pool.get(0), Ok("q".to_string()));
}

#[test]
fn parse_pool_gives_the_end_of_the_chunk() {
    let mut bytes = vec![0xEE, 0xEE, 0xEE];
    let pool = utf8_pool(&["a", "b"]);
    bytes.extend_from_slice(&pool);
    bytes.extend_from_slice(&[1, 2, 3]);
    let (block, end) = parse_pool(&bytes, 3).unwrap();
    assert_eq!(end, 3 + pool.len());
    assert_eq!(block.get(1), Ok("b".to_string()));
}
