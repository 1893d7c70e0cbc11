use filesend::messages::{
    dir_message, file_message, read_payload, text_message, FileMeta, Incoming, PayloadError, TextMeta,
};
use filesend::wire::{encode_frame, encode_header, parse_header, DataType, FrameHeader};

fn strings(items: &[&str]) -> Vec<String> {
    items.iter().map(|s| s.to_string()).collect()
}

#[test]
fn data_type_tags() {
    assert_eq!(DataType::File.to_u8(), 0);
    assert_eq!(DataType::Directory.to_u8(), 1);
    assert_eq!(DataType::TextBuffer.to_u8(), 2);
    assert_eq!(DataType::from_u8(0), Some(DataType::File));
    assert_eq!(DataType::from_u8(1), Some(DataType::Directory));
    assert_eq!(DataType::from_u8(2), Some(DataType::TextBuffer));
    assert_eq!(DataType::from_u8(3), None);
    assert_eq!(DataType::from_u8(255), None);
}

#[test]
fn data_type_tag_roundtrip() {
    for d in [DataType::File, DataType::Directory, DataType::TextBuffer] {
        assert_eq!(DataType::from_u8(d.to_u8()), Some(d));
    }
    for v in 0u8..=255 {
        if let Some(d) = DataType::from_u8(v) {
            assert_eq!(d.to_u8(), v);
        }
    }
}

#[test]
fn header_is_big_endian() {
    let h = FrameHeader { msg_size: 0x0102_0304_0506_0708, msg_type: 2 };
    let bytes = encode_header(h);
    assert_eq!(bytes, vec![1, 2, 3, 4, 5, 6, 7, 8, 2]);
    assert_eq!(parse_header(&bytes), Some(h));
}

#[test]
fn header_needs_nine_bytes() {
    assert_eq!(parse_header(&[0u8; 8]), None);
    assert_eq!(parse_header(&[]), None);
    assert_eq!(
        parse_header(&[0, 0, 0, 0, 0, 0, 1, 0, 7, 42]),
        Some(FrameHeader { msg_size: 256, msg_type: 7 })
    );
}

#[test]
fn header_roundtrip_all_ones() {
    let h = FrameHeader { msg_size: u64::MAX, msg_type: 255 };
    assert_eq!(parse_header(&encode_header(h)), Some(h));
}

#[test]
fn frame_layout() {
    let frame = encode_frame(DataType::Directory, &[9, 9]);
    assert_eq!(frame, vec![0, 0, 0, 0, 0, 0, 0, 2, 1, 9, 9]);
    let header = parse_header(&frame).unwrap();
    assert_eq!(header.msg_size, 2);
    assert_eq!(DataType::from_u8(header.msg_type), Some(DataType::Directory));
    assert_eq!(&frame[9..], &[9, 9]);
}

#[test]
fn empty_frame() {
    let frame = encode_frame(DataType::TextBuffer, &[]);
    assert_eq!(frame, vec![0, 0, 0, 0, 0, 0, 0, 0, 2]);
}

#[test]
fn file_meta_bytes_small() {
    let meta = FileMeta { file_relative_path: strings(&["a", "bc"]), file_size: 5 };
    let mut buf = Vec::new();
    let n = meta.pack(&mut buf);
    assert_eq!(buf, vec![0x92, 0xa1, 0x61, 0xa2, 0x62, 0x63, 0x05]);
    assert_eq!(n, 7);
}

#[test]
fn file_meta_size_encodings() {
    let cases: [(u64, Vec<u8>); 5] = [
        (127, vec![0x7f]),
        (200, vec![0xcc, 200]),
        (300, vec![0xcd, 0x01, 0x2c]),
        (70_000, vec![0xce, 0x00, 0x01, 0x11, 0x70]),
        (1 << 40, vec![0xcf, 0, 0, 1, 0, 0, 0, 0, 0]),
    ];
    for (size, tail) in cases {
        let meta = FileMeta { file_relative_path: Vec::new(), file_size: size };
        let mut buf = Vec::new();
        meta.pack(&mut buf);
        let mut expected = vec![0x90];
        expected.extend(tail);
        assert_eq!(buf, expected);
    }
}

#[test]
fn file_meta_appends() {
    let meta = FileMeta { file_relative_path: strings(&["x"]), file_size: 0 };
    let mut buf = vec![7u8];
    let n = meta.pack(&mut buf);
    assert_eq!(buf, vec![7, 0x91, 0xa1, 0x78, 0x00]);
    assert_eq!(n, 4);
}

#[test]
fn file_meta_roundtrip() {
    let meta = FileMeta {
        file_relative_path: strings(&["photos", "été", "a long file name that is more than thirty-one bytes.jpg"]),
        file_size: 123_456_789,
    };
    let mut buf = Vec::new();
    let n = meta.pack(&mut buf);
    let (read, back) = FileMeta::unpack(&buf).unwrap();
    assert_eq!(read, n);
    assert_eq!(back.file_relative_path, meta.file_relative_path);
    assert_eq!(back.file_size, meta.file_size);
}

#[test]
fn file_meta_many_components() {
    let parts: Vec<String> = (0..20).map(|i| format!("d{}", i)).collect();
    let meta = FileMeta { file_relative_path: parts.clone(), file_size: 1 };
    let mut buf = Vec::new();
    meta.pack(&mut buf);
    assert_eq!(&buf[..3], &[0xdc, 0x00, 20]);
    let (_, back) = FileMeta::unpack(&buf).unwrap();
    assert_eq!(back.file_relative_path, parts);
}

#[test]
fn file_meta_ignores_trailing_bytes() {
    let meta = FileMeta { file_relative_path: strings(&["f"]), file_size: 3 };
    let mut buf = Vec::new();
    let n = meta.pack(&mut buf);
    buf.extend_from_slice(&[1, 2, 3]);
    let (read, back) = FileMeta::unpack(&buf).unwrap();
    assert_eq!(read, n);
    assert_eq!(back.file_size, 3);
}

#[test]
fn file_meta_malformed() {
    assert!(matches!(FileMeta::unpack(&[0xc0]), Err(PayloadError::Malformed)));
    assert!(matches!(FileMeta::unpack(&[]), Err(PayloadError::Malformed)));
    // an array, then a string where the size should be
    assert!(matches!(FileMeta::unpack(&[0x90, 0xa1, 0x61]), Err(PayloadError::Malformed)));
    // an array that announces more items than follow
    assert!(matches!(FileMeta::unpack(&[0x92, 0xa1, 0x61]), Err(PayloadError::Malformed)));
    // a string that is not UTF-8
    assert!(matches!(FileMeta::unpack(&[0x91, 0xa1, 0xff, 0x00]), Err(PayloadError::Malformed)));
}

#[test]
fn text_meta_bytes() {
    let mut buf = Vec::new();
    let n = TextMeta { data: "hi".to_string() }.pack(&mut buf);
    assert_eq!(buf, vec![0xa2, 0x68, 0x69]);
    assert_eq!(n, 3);
    let mut buf = Vec::new();
    TextMeta { data: "é".to_string() }.pack(&mut buf);
    assert_eq!(buf, vec![0xa2, 0xc3, 0xa9]);
    let long = "x".repeat(40);
    let mut buf = Vec::new();
    TextMeta { data: long.clone() }.pack(&mut buf);
    assert_eq!(&buf[..2], &[0xd9, 40]);
    assert_eq!(buf.len(), 42);
    let longer = "y".repeat(300);
    let mut buf = Vec::new();
    TextMeta { data: longer }.pack(&mut buf);
    assert_eq!(&buf[..3], &[0xda, 0x01, 0x2c]);
}

#[test]
fn text_meta_roundtrip() {
    for text in ["", "clipboard text", "ünïcødé ✓", &"z".repeat(1000)] {
        let mut buf = Vec::new();
        let n = TextMeta { data: text.to_string() }.pack(&mut buf);
        let (read, back) = TextMeta::unpack(&buf).unwrap();
        assert_eq!(read, n);
        assert_eq!(back.data, text);
    }
}

#[test]
fn text_meta_malformed() {
    assert!(matches!(TextMeta::unpack(&[]), Err(PayloadError::Malformed)));
    assert!(matches!(TextMeta::unpack(&[0x05]), Err(PayloadError::Malformed)));
    assert!(matches!(TextMeta::unpack(&[0xa3, 0x61]), Err(PayloadError::Malformed)));
}

#[test]
fn dir_message_bytes() {
    let frame = dir_message(strings(&["d"]));
    assert_eq!(frame, vec![0, 0, 0, 0, 0, 0, 0, 4, 1, 0x91, 0xa1, 0x64, 0x00]);
}

#[test]
fn file_message_bytes() {
    let frame = file_message(strings(&["dir", "f.txt"]), 1500);
    let header = parse_header(&frame).unwrap();
    assert_eq!(DataType::from_u8(header.msg_type), Some(DataType::File));
    assert_eq!(header.msg_size as usize, frame.len() - 9);
    let (n, meta) = FileMeta::unpack(&frame[9..]).unwrap();
    assert_eq!(n, frame.len() - 9);
    assert_eq!(meta.file_relative_path, strings(&["dir", "f.txt"]));
    assert_eq!(meta.file_size, 1500);
}

#[test]
fn text_message_bytes() {
    let frame = text_message("x".to_string());
    assert_eq!(frame, vec![0, 0, 0, 0, 0, 0, 0, 2, 2, 0xa1, 0x78]);
    let header = parse_header(&frame).unwrap();
    let (_, text) = TextMeta::unpack(&frame[9..9 + header.msg_size as usize]).unwrap();
    assert_eq!(text.data, "x");
}

#[test]
fn payloads_read_back_by_kind() {
    let frame = dir_message(strings(&["top", "sub"]));
    let header = parse_header(&frame).unwrap();
    let kind = DataType::from_u8(header.msg_type).unwrap();
    match read_payload(kind, &frame[9..]).unwrap() {
        Incoming::Directory(meta) => {
            assert_eq!(meta.file_relative_path, strings(&["top", "sub"]));
            assert_eq!(meta.file_size, 0);
        }
        _ => panic!("expected a directory"),
    }
    let frame = text_message("copied".to_string());
    match read_payload(DataType::TextBuffer, &frame[9..]).unwrap() {
        Incoming::Text(t) => assert_eq!(t.data, "copied"),
        _ => panic!("expected a text"),
    }
    let frame = file_message(strings(&["f"]), 77);
    match read_payload(DataType::File, &frame[9..]).unwrap() {
        Incoming::File(meta) => assert_eq!(meta.file_size, 77),
        _ => panic!("expected a file"),
    }
}

#[test]
fn payload_of_wrong_kind_is_refused() {
    let frame = text_message("copied".to_string());
    assert!(matches!(read_payload(DataType::File, &frame[9..]), Err(PayloadError::Malformed)));
    let frame = dir_message(strings(&["d"]));
    assert!(matches!(read_payload(DataType::TextBuffer, &frame[9..]), Err(PayloadError::Malformed)));
}

#[test]
fn text_meta_reads_every_header_form() {
    // fixstr
    let (n, t) = TextMeta::unpack(&[0xa2, 0x6f, 0x6b]).unwrap();
    assert_eq!((n, t.data.as_str()), (3, "ok"));
    // str8, str16 and str32 announcing the same two bytes
    let (n, t) = TextMeta::unpack(&[0xd9, 0x02, 0x6f, 0x6b]).unwrap();
    assert_eq!((n, t.data.as_str()), (4, "ok"));
    let (n, t) = TextMeta::unpack(&[0xda, 0x00, 0x02, 0x6f, 0x6b]).unwrap();
    assert_eq!((n, t.data.as_str()), (5, "ok"));
    let (n, t) = TextMeta::unpack(&[0xdb, 0x00, 0x00, 0x00, 0x02, 0x6f, 0x6b, 0xff]).unwrap();
    assert_eq!((n, t.data.as_str()), (7, "ok"));
    // a header cut short
    assert!(matches!(TextMeta::unpack(&[0xda, 0x00]), Err(PayloadError::Malformed)));
    // an encoded surrogate is not UTF-8
    assert!(matches!(TextMeta::unpack(&[0xa3, 0xed, 0xa0, 0x80]), Err(PayloadError::Malformed)));
}

#[test]
fn file_meta_reads_every_size_form() {
    let cases: [(&[u8], u64); 5] = [
        (&[0x7f], 127),
        (&[0xcc, 0xff], 255),
        (&[0xcd, 0x01, 0x00], 256),
        (&[0xce, 0x00, 0x01, 0x00, 0x00], 65536),
        (&[0xcf, 0, 0, 0, 1, 0, 0, 0, 0], 1 << 32),
    ];
    for (size_bytes, size) in cases {
        let mut buf = vec![0x91, 0xa1, 0x61];
        buf.extend_from_slice(size_bytes);
        let (n, m) = FileMeta::unpack(&buf).unwrap();
        assert_eq!(n, buf.len());
        assert_eq!(m.file_relative_path, strings(&["a"]));
        assert_eq!(m.file_size, size);
    }
    // array16 header with one item, size 0
    let (n, m) = FileMeta::unpack(&[0xdc, 0x00, 0x01, 0xa1, 0x62, 0x00]).unwrap();
    assert_eq!(n, 6);
    assert_eq!(m.file_relative_path, strings(&["b"]));
    // a size cut short
    assert!(matches!(FileMeta::unpack(&[0x90, 0xcd, 0x01]), Err(PayloadError::Malformed)));
    // a negative integer is no size
    assert!(matches!(FileMeta::unpack(&[0x90, 0xff]), Err(PayloadError::Malformed)));
}
