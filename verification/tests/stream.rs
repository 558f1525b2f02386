use rsz::rsz::content::{read_string, SliceStream};
use rsz::rsz::{Error, Failure};

#[test]
fn seek_within_and_past_the_end() {
    let data = [1u8, 2, 3, 4];
    let mut stream = SliceStream::from(&data[..]);
    assert_eq!(stream.seek(4), Ok(()));
    assert_eq!(stream.position(), 4);
    assert!(!stream.eof());
    assert_eq!(stream.seek(5), Err(Error::UnexpectedEof { position: 5, length: 4 }));
    // The position is taken even though it lies past the end.
    assert_eq!(stream.position(), 5);
    assert!(stream.eof());
}

#[test]
fn skip_moves_forward() {
    let data = [0u8; 8];
    let mut stream = SliceStream::from(&data[..]);
    assert_eq!(stream.skip(3), Ok(()));
    assert_eq!(stream.skip(2), Ok(()));
    assert_eq!(stream.position(), 5);
    assert_eq!(stream.skip(4), Err(Error::UnexpectedEof { position: 9, length: 8 }));
}

#[test]
fn align_lands_on_next_multiple() {
    let data = [0u8; 16];
    let mut stream = SliceStream::from(&data[..]);
    stream.seek(5).unwrap();
    assert_eq!(stream.align(4), Ok(()));
    assert_eq!(stream.position(), 8);
    // Already aligned: the position is kept.
    assert_eq!(stream.align(8), Ok(()));
    assert_eq!(stream.position(), 8);
    stream.seek(9).unwrap();
    assert_eq!(stream.align(16), Ok(()));
    assert_eq!(stream.position(), 16);
}

#[test]
fn align_past_the_end() {
    let data = [0u8; 6];
    let mut stream = SliceStream::from(&data[..]);
    stream.seek(5).unwrap();
    assert_eq!(
        stream.align(4),
        Err(Failure::Error(Error::UnexpectedEof { position: 8, length: 6 }))
    );
    assert_eq!(stream.position(), 8);
}

#[test]
fn align_on_zero_aborts() {
    let data = [0u8; 6];
    let mut stream = SliceStream::from(&data[..]);
    stream.seek(1).unwrap();
    assert_eq!(stream.align(0), Err(Failure::Panic));
}

#[test]
fn reads_are_little_endian_and_advance_by_width() {
    let data = [0x34u8, 0x12, 0x78, 0x56, 0x34, 0x12, 1, 0, 0, 0, 0, 0, 0, 0x80];
    let mut stream = SliceStream::from(&data[..]);
    assert_eq!(stream.next_u16("u16"), Ok(0x1234));
    assert_eq!(stream.position(), 2);
    assert_eq!(stream.next_u32("u32"), Ok(0x12345678));
    assert_eq!(stream.position(), 6);
    assert_eq!(stream.next_u64("u64"), Ok(0x8000_0000_0000_0001));
    assert_eq!(stream.position(), 14);
}

#[test]
fn short_read_is_an_invalid_section() {
    let data = [1u8, 2, 3];
    let mut stream = SliceStream::from(&data[..]);
    stream.seek(1).unwrap();
    assert_eq!(
        stream.next_u32("u32"),
        Err(Failure::Error(Error::InvalidSection { section: "u32", length: 4 }))
    );
    // Nothing is consumed.
    assert_eq!(stream.position(), 1);
    assert_eq!(stream.take(2, "x").map(|b| b.to_vec()), Ok(vec![2, 3]));
}

#[test]
fn reading_past_the_end_aborts() {
    let data = [1u8, 2, 3];
    let mut stream = SliceStream::from(&data[..]);
    let _ = stream.seek(4);
    assert_eq!(stream.next_u8("u8"), Err(Failure::Panic));
}

#[test]
fn relative_stream_reads_the_rest() {
    let data = [9u8, 9, 0x01, 0x02, 0x03, 0x04];
    let mut stream = SliceStream::from(&data[..]);
    stream.seek(2).unwrap();
    let mut relative = stream.as_relative();
    assert_eq!(relative.position(), 0);
    assert_eq!(relative.global_offset(), 2);
    assert_eq!(relative.len(), 4);
    assert_eq!(relative.next_u16("u16"), Ok(0x0201));
    assert_eq!(relative.position_absolute(), 4);
    // The original stream is where it was.
    assert_eq!(stream.position(), 2);
    assert_eq!(stream.next_u16("u16"), Ok(0x0201));
}

fn utf16(s: &str) -> Vec<u8> {
    s.encode_utf16().flat_map(|u| u.to_le_bytes()).collect()
}

#[test]
fn string_ends_at_first_zero_unit() {
    let mut data = utf16("Path");
    data.extend_from_slice(&[0, 0, b'x', 0, 0, 0]);
    let mut stream = SliceStream::from(&data[..]);
    assert_eq!(read_string(&mut stream), Ok("Path".to_owned()));
    assert_eq!(stream.position(), 10);
}

#[test]
fn string_decodes_surrogates() {
    let mut data = utf16("a\u{1F600}é");
    data.extend_from_slice(&[0, 0]);
    let mut stream = SliceStream::from(&data[..]);
    assert_eq!(read_string(&mut stream), Ok("a\u{1F600}é".to_owned()));

    // An unpaired high surrogate becomes U+FFFD; the unit after it is kept.
    let data = [0x00u8, 0xD8, b'b', 0, 0, 0];
    let mut stream = SliceStream::from(&data[..]);
    assert_eq!(read_string(&mut stream), Ok("\u{FFFD}b".to_owned()));
}

#[test]
fn unterminated_string_is_an_invalid_section() {
    let data = utf16("ab");
    let mut stream = SliceStream::from(&data[..]);
    assert_eq!(
        read_string(&mut stream),
        Err(Failure::Error(Error::InvalidSection { section: "u16", length: 2 }))
    );
    assert_eq!(stream.position(), 4);
}
