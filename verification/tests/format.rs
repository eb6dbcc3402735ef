use caption_compiler::container::{
    compile_captions, padding_behind_directory, write_container,
};
use caption_compiler::entry::CaptionEntry;
use caption_compiler::error::CaptionError;
use caption_compiler::header::{Header, Version, DEFAULT_BLOCK_SIZE, VCCD};
use caption_compiler::keys::{hash_key, has_english_marker, starts_with};
use caption_compiler::packer::{
    all_captions_fit, pack, pad_zeros, Caption, Packed, MAX_CAPTIONS,
};
use caption_compiler::reader::{describe, read_captions, StoredCaption};
use caption_compiler::source::{
    decode_text, find_tokens, parse_document, select_captions, SourcePair, SourceValue,
};
use caption_compiler::compile::compile_document;
use caption_compiler::text::{caption_fits, encode_caption};
use caption_compiler::wire::{read_i32, read_u16, read_u32, write_i32, write_u16, write_u32};

fn caption(key: &str, text: &str) -> Caption {
    Caption { key: key.to_string(), text: text.to_string() }
}

fn token(key: &str, text: &str) -> SourcePair {
    SourcePair { key: key.to_string(), values: vec![SourceValue::Text(text.to_string())] }
}

fn document(tokens: Vec<SourcePair>) -> SourceValue {
    SourceValue::Section(vec![
        SourcePair {
            key: "Language".to_string(),
            values: vec![SourceValue::Text("English".to_string())],
        },
        SourcePair { key: "Tokens".to_string(), values: vec![SourceValue::Section(tokens)] },
    ])
}

#[test]
fn integers_are_stored_low_byte_first() {
    let mut out: Vec<u8> = Vec::new();
    write_u16(&mut out, 0x1234);
    write_u32(&mut out, 0x89ab_cdef);
    write_i32(&mut out, -2);
    write_i32(&mut out, 1145258838);
    assert_eq!(
        out,
        vec![0x34, 0x12, 0xef, 0xcd, 0xab, 0x89, 0xfe, 0xff, 0xff, 0xff, 86, 67, 67, 68]
    );
    assert_eq!(read_u16(&out, 0), 0x1234);
    assert_eq!(read_u32(&out, 2), 0x89ab_cdef);
    assert_eq!(read_i32(&out, 6), -2);
    assert_eq!(read_i32(&out, 10), 1145258838);
    assert_eq!(read_i32(&[0, 0, 0, 0x80], 0), i32::MIN);
    assert_eq!(read_i32(&[0xff, 0xff, 0xff, 0x7f], 0), i32::MAX);
}

#[test]
fn header_is_decoded_field_by_field() {
    let bytes = [
        86, 67, 67, 68, 1, 0, 0, 0, 2, 0, 0, 0, 0, 0x20, 0, 0, 3, 0, 0, 0, 0, 2, 0, 0, 0xaa,
    ];
    assert_eq!(
        Header::from_reader(&bytes),
        Ok(Header {
            vccd: VCCD::Default,
            version: Version::Default,
            block_count: 2,
            block_size: 8192,
            dir_size: 3,
            data_offset: 512,
        })
    );
}

#[test]
fn header_errors_come_in_order() {
    assert_eq!(Header::from_reader(&[0; 23]), Err(CaptionError::TruncatedInput));
    assert_eq!(Header::from_reader(&[0; 24]), Err(CaptionError::InvalidMagic));
    let mut bytes = [0u8; 24];
    bytes[..4].copy_from_slice(&[86, 67, 67, 68]);
    assert_eq!(Header::from_reader(&bytes), Err(CaptionError::InvalidVersion));
    bytes[4] = 1;
    assert!(Header::from_reader(&bytes).is_ok());
}

#[test]
fn header_is_encoded_and_read_back() {
    let header = Header {
        vccd: VCCD::Default,
        version: Version::Default,
        block_count: 7,
        block_size: 8192,
        dir_size: -1,
        data_offset: i32::MAX,
    };
    let bytes = header.to_bytes();
    assert_eq!(
        bytes,
        vec![
            86, 67, 67, 68, 1, 0, 0, 0, 7, 0, 0, 0, 0, 0x20, 0, 0, 0xff, 0xff, 0xff, 0xff, 0xff,
            0xff, 0xff, 0x7f,
        ]
    );
    assert_eq!(Header::from_reader(&bytes), Ok(header));
    assert_eq!(VCCD::Default.value(), 1145258838);
    assert_eq!(Version::Default.value(), 1);
}

#[test]
fn default_header_has_the_default_block_size() {
    let header = Header::default();
    assert_eq!(header.block_size, 8192);
    assert_eq!(header.block_size, i32::from(DEFAULT_BLOCK_SIZE));
    assert_eq!(header.block_count, 0);
    assert_eq!(header.dir_size, 0);
    assert_eq!(header.data_offset, 0);
}

#[test]
fn entry_is_encoded_and_read_back() {
    let entry = CaptionEntry { crc32: 0x3610_a686, block: 3, offset: 0x0102, length: 12 };
    let bytes = entry.to_bytes();
    assert_eq!(bytes, vec![0x86, 0xa6, 0x10, 0x36, 3, 0, 0, 0, 2, 1, 12, 0]);
    assert_eq!(CaptionEntry::from_reader(&bytes), Ok(entry));
    assert_eq!(CaptionEntry::from_reader(&bytes[..11]), Err(CaptionError::TruncatedInput));
    assert_eq!(
        CaptionEntry::from_reader(&[0xff; 12]),
        Ok(CaptionEntry { crc32: u32::MAX, block: -1, offset: u16::MAX, length: u16::MAX })
    );
    let mut longer = vec![0u8; 5];
    entry.write_to(&mut longer);
    assert_eq!(CaptionEntry::read_at(&longer, 5), entry);
    assert_eq!(
        CaptionEntry::default(),
        CaptionEntry { crc32: 0, block: 0, offset: 0, length: 0 }
    );
}

#[test]
fn text_is_encoded_as_terminated_utf16() {
    assert_eq!(encode_caption(""), vec![0, 0]);
    assert_eq!(encode_caption("Hi"), vec![b'H', 0, b'i', 0, 0, 0]);
    assert_eq!(encode_caption("Я"), vec![0x2f, 0x04, 0, 0]);
    assert_eq!(encode_caption("\u{ffff}"), vec![0xff, 0xff, 0, 0]);
    assert_eq!(encode_caption("\u{10000}"), vec![0x00, 0xd8, 0x00, 0xdc, 0, 0]);
    assert_eq!(encode_caption("😀"), vec![0x3d, 0xd8, 0x00, 0xde, 0, 0]);
    assert_eq!(encode_caption("\u{10ffff}"), vec![0xff, 0xdb, 0xff, 0xdf, 0, 0]);
    let text = "Привет, мир 🌍";
    let mut expected: Vec<u8> = Vec::new();
    for unit in text.encode_utf16() {
        expected.extend_from_slice(&unit.to_le_bytes());
    }
    expected.extend_from_slice(&[0, 0]);
    assert_eq!(encode_caption(text), expected);
}

#[test]
fn key_hash_is_the_checksum_of_the_lowercase_key() {
    assert_eq!(hash_key("hello"), 0x3610_a686);
    assert_eq!(hash_key("Hello"), 0x3610_a686);
    assert_eq!(hash_key("HELLO"), 0x3610_a686);
    assert_eq!(hash_key(""), 0);
    assert_eq!(hash_key("ПРИВЕТ"), hash_key("привет"));
    assert_ne!(hash_key("hello"), hash_key("hallo"));
}

#[test]
fn english_marker_is_found_whatever_its_case() {
    assert!(has_english_marker("[english]Hello"));
    assert!(has_english_marker("[English]Hello"));
    assert!(has_english_marker("[ENGLISH]"));
    assert!(!has_english_marker("[english"));
    assert!(!has_english_marker("Hello[english]"));
    assert!(!has_english_marker(" [english]Hello"));
    assert!(!has_english_marker(""));
    assert!(starts_with("abc", ""));
    assert!(starts_with("abc", "ab"));
    assert!(starts_with("abc", "abc"));
    assert!(!starts_with("abc", "abcd"));
    assert!(!starts_with("abc", "b"));
    assert!(!starts_with("", "a"));
}

#[test]
fn zeros_are_appended() {
    let mut out: Vec<u8> = vec![7];
    pad_zeros(&mut out, 3);
    assert_eq!(out, vec![7, 0, 0, 0]);
    pad_zeros(&mut out, 0);
    assert_eq!(out, vec![7, 0, 0, 0]);
}

#[test]
fn captions_are_packed_without_crossing_a_block() {
    let captions = vec![caption("One", "abc"), caption("Two", "de"), caption("Three", "fgh")];
    let packed = pack(&captions, 16).unwrap();
    assert_eq!(
        packed.entries,
        vec![
            CaptionEntry { crc32: hash_key("one"), block: 0, offset: 0, length: 8 },
            CaptionEntry { crc32: hash_key("two"), block: 0, offset: 8, length: 6 },
            CaptionEntry { crc32: hash_key("three"), block: 1, offset: 0, length: 8 },
        ]
    );
    assert_eq!(packed.block_count, 2);
    assert_eq!(packed.padding, 8);
    assert_eq!(
        packed.payload,
        vec![
            b'a', 0, b'b', 0, b'c', 0, 0, 0, b'd', 0, b'e', 0, 0, 0, 0, 0, b'f', 0, b'g', 0, b'h',
            0, 0, 0, 0, 0, 0, 0, 0, 0, 0, 0,
        ]
    );
    for entry in &packed.entries {
        assert!(u32::from(entry.offset) + u32::from(entry.length) <= 16);
    }
}

#[test]
fn caption_of_exactly_one_block_has_the_block_to_itself() {
    let captions = vec![caption("a", "x"), caption("b", "1234567"), caption("c", "y")];
    let packed = pack(&captions, 16).unwrap();
    assert_eq!(
        packed.entries,
        vec![
            CaptionEntry { crc32: hash_key("a"), block: 0, offset: 0, length: 4 },
            CaptionEntry { crc32: hash_key("b"), block: 1, offset: 0, length: 16 },
            CaptionEntry { crc32: hash_key("c"), block: 2, offset: 0, length: 4 },
        ]
    );
    assert_eq!(packed.block_count, 3);
    assert_eq!(packed.padding, 12);
    assert_eq!(packed.payload.len(), 48);
    assert_eq!(&packed.payload[16..32], &encode_caption("1234567")[..]);

    let alone = pack(&vec![caption("b", "1234567")], 16).unwrap();
    assert_eq!(alone.block_count, 1);
    assert_eq!(alone.padding, 0);
    assert_eq!(alone.payload, encode_caption("1234567"));
}

#[test]
fn caption_longer_than_a_block_is_refused() {
    let captions = vec![caption("a", "x"), caption("b", "12345678")];
    assert!(!all_captions_fit(&captions, 16));
    assert!(all_captions_fit(&captions, 18));
    assert!(all_captions_fit(&vec![], 0));
    assert_eq!(pack(&captions, 16).err(), Some(CaptionError::CaptionTooLarge));
    assert_eq!(compile_captions(&captions, 16), Err(CaptionError::CaptionTooLarge));
    assert!(compile_captions(&captions, 18).is_ok());
    assert_eq!(pack(&vec![caption("a", "")], 1).err(), Some(CaptionError::CaptionTooLarge));
    assert_eq!(pack(&vec![], 0).unwrap().block_count, 1);
    assert_eq!(pack(&vec![], 0).unwrap().payload, Vec::<u8>::new());
    assert_eq!(pack(&vec![], 16).unwrap().padding, 16);
    assert_eq!(pack(&vec![], 16).unwrap().payload, vec![0u8; 16]);

    let exact = vec![caption("Long", &"a".repeat(4095))];
    let container = compile_captions(&exact, DEFAULT_BLOCK_SIZE).unwrap();
    let header = Header::from_reader(&container).unwrap();
    assert_eq!((header.block_count, header.dir_size), (1, 1));
    let over = vec![caption("Long", &"a".repeat(4096))];
    assert_eq!(compile_captions(&over, DEFAULT_BLOCK_SIZE), Err(CaptionError::CaptionTooLarge));
}

#[test]
fn container_is_laid_out_byte_for_byte() {
    let container = compile_captions(&vec![caption("Hello", "Hi")], 8192).unwrap();
    let mut expected: Vec<u8> = vec![
        86, 67, 67, 68, 1, 0, 0, 0, 1, 0, 0, 0, 0, 0x20, 0, 0, 1, 0, 0, 0, 0, 2, 0, 0,
    ];
    expected.extend_from_slice(&[0x86, 0xa6, 0x10, 0x36, 0, 0, 0, 0, 0, 0, 6, 0]);
    expected.resize(512, 0);
    expected.extend_from_slice(&[b'H', 0, b'i', 0, 0, 0]);
    expected.resize(512 + 8192, 0);
    assert_eq!(container, expected);
}

#[test]
fn directory_that_ends_on_a_boundary_gets_a_whole_boundary_of_padding() {
    let mut captions: Vec<Caption> = Vec::new();
    for number in 0..126 {
        captions.push(caption(&format!("key{}", number), "x"));
    }
    let container = compile_captions(&captions, 8192).unwrap();
    let header = Header::from_reader(&container).unwrap();
    assert_eq!(header.dir_size, 126);
    assert_eq!(header.data_offset, 2048);
    assert_eq!(header.block_count, 1);
    assert_eq!(container.len(), 2048 + 8192);
    assert!(container[24 + 12 * 126..2048].iter().all(|byte| *byte == 0));

    captions.pop();
    let container = compile_captions(&captions, 8192).unwrap();
    assert_eq!(Header::from_reader(&container).unwrap().data_offset, 1536);

    assert_eq!(padding_behind_directory(0), 488);
    assert_eq!(padding_behind_directory(1), 476);
    assert_eq!(padding_behind_directory(125), 12);
    assert_eq!(padding_behind_directory(126), 512);
    assert_eq!(padding_behind_directory(127), 500);
    assert_eq!(padding_behind_directory(128), 488);
    assert_eq!(padding_behind_directory(126 + 128 * 1000), 512);
    for count in [0usize, 7, 126, 4096, 178_956_925] {
        assert_eq!(padding_behind_directory(count), 512 - (24 + 12 * count) % 512);
    }
}

#[test]
fn written_container_holds_what_was_packed() {
    let packed = Packed {
        entries: vec![CaptionEntry { crc32: 1, block: 2, offset: 3, length: 4 }],
        payload: vec![9, 8, 7],
        block_count: 5,
        padding: 0,
    };
    let container = write_container(packed, 3).unwrap();
    assert_eq!(
        Header::from_reader(&container),
        Ok(Header {
            vccd: VCCD::Default,
            version: Version::Default,
            block_count: 5,
            block_size: 3,
            dir_size: 1,
            data_offset: 512,
        })
    );
    assert_eq!(
        CaptionEntry::read_at(&container, 24),
        CaptionEntry { crc32: 1, block: 2, offset: 3, length: 4 }
    );
    assert_eq!(&container[512..], &[9, 8, 7]);
    assert!(MAX_CAPTIONS == 178_956_925);
}

#[test]
fn compiled_captions_are_read_back() {
    let captions = vec![
        caption("Greeting", "Hello, world"),
        caption("FAREWELL", "Пока 😀"),
        caption("empty", ""),
    ];
    let container = compile_captions(&captions, 64).unwrap();
    let stored = read_captions(&container).unwrap();
    assert_eq!(stored.len(), 3);
    for (caption, stored) in captions.iter().zip(stored.iter()) {
        assert_eq!(stored.entry.crc32, hash_key(&caption.key));
        assert_eq!(stored.bytes, encode_caption(&caption.text));
        assert_eq!(usize::from(stored.entry.length), stored.bytes.len());
        assert!(u32::from(stored.entry.offset) + u32::from(stored.entry.length) <= 64);
    }
    let described = describe(&container).unwrap();
    assert_eq!(described.len(), 3);
    assert_eq!(described[0].text, "Hello, world\0");
    assert_eq!(described[1].text, "Пока 😀\0");
    assert_eq!(described[2].text, "\0");
    assert_eq!(described[1].entry, stored[1].entry);
    assert_eq!(described[1].entry.crc32, hash_key("farewell"));
}

#[test]
fn container_of_too_many_entries_is_refused() {
    let packed = Packed {
        entries: vec![CaptionEntry { crc32: 0, block: 0, offset: 0, length: 0 }; MAX_CAPTIONS + 1],
        payload: vec![],
        block_count: 1,
        padding: 0,
    };
    assert_eq!(write_container(packed, 8192), Err(CaptionError::TooManyCaptions));
}

#[test]
fn describe_reads_a_leading_byte_order_mark_as_text() {
    let container = compile_captions(&vec![caption("a", "\u{feff}abc")], 64).unwrap();
    let stored = read_captions(&container).unwrap();
    assert_eq!(stored[0].bytes, vec![0xff, 0xfe, b'a', 0, b'b', 0, b'c', 0, 0, 0]);
    assert_eq!(describe(&container).unwrap()[0].text, "\u{feff}abc\0");

    for text in ["\u{fffe}abc", "\u{bbef}\u{bf}abc", "\u{feff}"] {
        let container = compile_captions(&vec![caption("a", text)], 64).unwrap();
        assert_eq!(describe(&container).unwrap()[0].text, format!("{}\0", text));
    }
}

#[test]
fn describe_replaces_malformed_text() {
    let packed = Packed {
        entries: vec![CaptionEntry { crc32: 0, block: 0, offset: 0, length: 4 }],
        payload: vec![0x00, 0xd8, b'a', 0x00],
        block_count: 1,
        padding: 0,
    };
    let container = write_container(packed, 4).unwrap();
    let described = describe(&container).unwrap();
    assert_eq!(described[0].text, "\u{fffd}a");
}

#[test]
fn describe_fails_when_the_directory_claims_more_than_there_is() {
    let container = compile_captions(&vec![caption("a", "x"), caption("b", "y")], 16).unwrap();
    assert_eq!(describe(&container).unwrap().len(), 2);

    // the header announces more entries than the 528 bytes can hold
    let mut claimed = container.clone();
    claimed[16] = 43;
    assert_eq!(describe(&claimed), Err(CaptionError::TruncatedInput));
    assert_eq!(read_captions(&claimed), Err(CaptionError::TruncatedInput));
    // entries that are announced in excess are read from the padding and
    // from the payload: all of these happen to have texts without bytes
    claimed[16] = 42;
    let excess = describe(&claimed).unwrap();
    assert_eq!(excess.len(), 42);
    assert_eq!(excess[39].entry, CaptionEntry { crc32: 0, block: 0, offset: 0, length: 0 });
    assert_eq!(excess[40].entry, CaptionEntry { crc32: 0, block: 0, offset: 120, length: 0 });
    assert_eq!(excess[40].text, "");

    // the directory is cut short
    assert_eq!(describe(&container[..24 + 12 + 11]), Err(CaptionError::TruncatedInput));
    // the payload is cut short
    assert_eq!(describe(&container[..512 + 7]), Err(CaptionError::TruncatedInput));
    assert_eq!(describe(&container[..512 + 8]).unwrap().len(), 2);
    // the header is cut short
    assert_eq!(describe(&container[..23]), Err(CaptionError::TruncatedInput));
}

#[test]
fn describe_checks_the_header_first() {
    let container = compile_captions(&vec![caption("a", "x")], 16).unwrap();
    let mut bad_magic = container.clone();
    bad_magic[3] = 0;
    bad_magic[4] = 9;
    assert_eq!(describe(&bad_magic), Err(CaptionError::InvalidMagic));
    let mut bad_version = container.clone();
    bad_version[4] = 9;
    assert_eq!(describe(&bad_version), Err(CaptionError::InvalidVersion));
}

#[test]
fn describe_reads_nothing_from_a_negative_directory_size() {
    let mut container = compile_captions(&vec![caption("a", "x")], 16).unwrap();
    container[16..20].copy_from_slice(&[0xff, 0xff, 0xff, 0xff]);
    assert_eq!(describe(&container), Ok(vec![]));
}

#[test]
fn describe_reads_a_text_without_bytes_wherever_it_begins() {
    let mut container = compile_captions(&vec![caption("a", "x")], 16).unwrap();
    assert_eq!(container.len(), 528);
    // length 0, at the end and far behind it
    container[34..36].copy_from_slice(&[0, 0]);
    for block in [1i32, 2, 1000, i32::MAX] {
        container[28..32].copy_from_slice(&block.to_le_bytes());
        assert_eq!(
            read_captions(&container),
            Ok(vec![StoredCaption {
                entry: CaptionEntry { crc32: hash_key("a"), block, offset: 0, length: 0 },
                bytes: vec![],
            }])
        );
        assert_eq!(describe(&container).unwrap()[0].text, "");
    }
    // before the start there is nothing to begin at
    container[28..32].copy_from_slice(&(-33i32).to_le_bytes());
    assert_eq!(describe(&container), Err(CaptionError::TruncatedInput));
    // one byte is one byte too many behind the end
    container[28..32].copy_from_slice(&1i32.to_le_bytes());
    container[34..36].copy_from_slice(&[1, 0]);
    assert_eq!(describe(&container), Err(CaptionError::TruncatedInput));
}

#[test]
fn describe_refuses_text_that_lies_before_the_container() {
    let mut container = compile_captions(&vec![caption("a", "x")], 16).unwrap();
    // block -1000 of 16 bytes: position 512 - 16000
    container[28..32].copy_from_slice(&(-1000i32).to_le_bytes());
    assert_eq!(describe(&container), Err(CaptionError::TruncatedInput));
    // block -32 of 16 bytes: position 0, where the header lies
    container[28..32].copy_from_slice(&(-32i32).to_le_bytes());
    assert_eq!(
        read_captions(&container),
        Ok(vec![StoredCaption {
            entry: CaptionEntry { crc32: hash_key("a"), block: -32, offset: 0, length: 4 },
            bytes: vec![86, 67, 67, 68],
        }])
    );
}

#[test]
fn source_bytes_are_decoded_as_utf16() {
    assert_eq!(decode_text(&[]), Ok(String::new()));
    assert_eq!(decode_text(&[b'a', 0, 0x2f, 0x04]), Ok("aЯ".to_string()));
    assert_eq!(decode_text(&[0xff, 0xfe, b'a', 0]), Ok("a".to_string()));
    assert_eq!(decode_text(&[0x3d, 0xd8, 0x00, 0xde]), Ok("😀".to_string()));
    assert_eq!(decode_text(&[0x00, 0xd8, b'a', 0]), Ok("\u{fffd}a".to_string()));
    assert_eq!(decode_text(&[b'a', 0, b'b']), Ok("a\u{fffd}".to_string()));
}

#[test]
fn document_is_parsed_into_values() {
    assert_eq!(parse_document("\"lang\" \"English\""), Ok(SourceValue::Text("English".to_string())));
    assert_eq!(
        parse_document("lang { b \"two\" a \"one\" b { c \"d\\n\" } } // end"),
        Ok(SourceValue::Section(vec![
            token("a", "one"),
            SourcePair {
                key: "b".to_string(),
                values: vec![
                    SourceValue::Text("two".to_string()),
                    SourceValue::Section(vec![token("c", "d\n")]),
                ],
            },
        ]))
    );
    assert_eq!(parse_document("lang {}"), Ok(SourceValue::Section(vec![])));
    assert_eq!(parse_document(""), Err(CaptionError::InvalidSource));
    assert_eq!(parse_document("lang {"), Err(CaptionError::InvalidSource));
    assert_eq!(parse_document("\"lang\" \"English"), Err(CaptionError::InvalidSource));
}

#[test]
fn tokens_are_found_in_the_document() {
    let tokens = vec![token("Hello", "Hi")];
    let found = document(vec![token("Hello", "Hi")]);
    assert_eq!(find_tokens(&found), Ok(&tokens));
    assert_eq!(
        find_tokens(&SourceValue::Text("x".to_string())),
        Err(CaptionError::MissingTokensSection)
    );
    assert_eq!(
        find_tokens(&SourceValue::Section(vec![token("tokens", "x")])),
        Err(CaptionError::MissingTokensSection)
    );
    assert_eq!(
        find_tokens(&SourceValue::Section(vec![token("Tokens", "x")])),
        Err(CaptionError::MissingTokensSection)
    );
    assert_eq!(
        find_tokens(&SourceValue::Section(vec![SourcePair {
            key: "Tokens".to_string(),
            values: vec![],
        }])),
        Err(CaptionError::MissingTokensSection)
    );
}

#[test]
fn captions_are_selected_from_tokens() {
    let tokens = vec![
        token("Hello", "Hi"),
        token("[english]Hello", "Hi"),
        SourcePair { key: "[English]Section".to_string(), values: vec![] },
        token("Bye", "Ciao"),
    ];
    assert_eq!(
        select_captions(&tokens, 10),
        Ok(vec![caption("Hello", "Hi"), caption("Bye", "Ciao")])
    );
    assert_eq!(select_captions(&tokens, 9), Err(CaptionError::CaptionTooLarge));

    let malformed = vec![
        token("Hello", "Hi"),
        SourcePair { key: "Bye".to_string(), values: vec![SourceValue::Section(vec![])] },
    ];
    assert_eq!(select_captions(&malformed, 8192), Err(CaptionError::MalformedSourceValue));
    let without_value = vec![SourcePair { key: "Bye".to_string(), values: vec![] }];
    assert_eq!(select_captions(&without_value, 8192), Err(CaptionError::MalformedSourceValue));
}

#[test]
fn first_token_that_cannot_be_compiled_decides_the_error() {
    let section = || SourcePair { key: "b".to_string(), values: vec![SourceValue::Section(vec![])] };
    let long_first = vec![token("a", "too long"), section()];
    assert_eq!(select_captions(&long_first, 8), Err(CaptionError::CaptionTooLarge));
    assert_eq!(compile_document(&document(long_first), 8), Err(CaptionError::CaptionTooLarge));
    let long_last = vec![section(), token("c", "too long")];
    assert_eq!(select_captions(&long_last, 8), Err(CaptionError::MalformedSourceValue));
    assert_eq!(
        compile_document(&document(long_last), 8),
        Err(CaptionError::MalformedSourceValue)
    );
    let marked = vec![token("[english]a", "too long"), token("b", "ok")];
    assert_eq!(select_captions(&marked, 8), Ok(vec![caption("b", "ok")]));
}

#[test]
fn text_is_measured_as_it_is_stored() {
    assert!(caption_fits("", 2));
    assert!(!caption_fits("", 1));
    assert!(!caption_fits("", 0));
    assert!(caption_fits("abc", 8));
    assert!(!caption_fits("abc", 7));
    assert!(caption_fits("😀", 6));
    assert!(!caption_fits("😀", 5));
    assert!(caption_fits(&"a".repeat(4095), 8192));
    assert!(!caption_fits(&"a".repeat(4096), 8192));
    assert!(caption_fits(&"a".repeat(32766), u16::MAX));
    assert!(!caption_fits(&"a".repeat(32767), u16::MAX));
    for text in ["", "a", "Привет", "😀😀", "a😀b"] {
        let stored = encode_caption(text).len();
        assert!(caption_fits(text, stored as u16));
        assert!(!caption_fits(text, stored as u16 - 1));
    }
}

#[test]
fn document_compiles_to_one_entry_for_each_localized_token() {
    let source = document(vec![token("Hello", "Hello"), token("[english]Hello", "Hello")]);
    let container = compile_document(&source, 8192).unwrap();
    assert_eq!(Header::from_reader(&container).unwrap().dir_size, 1);
    assert_eq!(container, compile_captions(&vec![caption("Hello", "Hello")], 8192).unwrap());

    let oversize = document(vec![token("Hello", "Hello")]);
    assert_eq!(compile_document(&oversize, 11), Err(CaptionError::CaptionTooLarge));
    assert!(compile_document(&oversize, 12).is_ok());
    assert_eq!(
        compile_document(&SourceValue::Section(vec![]), 8192),
        Err(CaptionError::MissingTokensSection)
    );
}
