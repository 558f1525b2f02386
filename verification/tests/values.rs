use rsz::layout::{FieldKind, FieldLayout};
use rsz::rsz::content::{ParseField, SliceStream};
use rsz::{Content, Error, Field, Object, Value, Values};
use std::rc::Rc;

fn layout(kind: FieldKind, align: usize, is_array: bool) -> FieldLayout<'static> {
    FieldLayout {
        align,
        size: 0,
        is_array,
        name: "field",
        is_native: false,
        original_type_name: "",
        kind,
    }
}

fn parse(data: &[u8], f: FieldLayout<'static>, content: &Content) -> (Result<Field, Error>, usize) {
    let mut stream = SliceStream::from(data);
    let r = f.parse(&mut stream, content);
    (r, stream.position())
}

#[test]
fn boolean_is_any_nonzero_byte() {
    let (r, p) = parse(&[0], layout(FieldKind::Boolean, 1, false), &Content::default());
    assert_eq!(r.unwrap().value, Value::Boolean(false));
    assert_eq!(p, 1);
    let (r, _) = parse(&[7], layout(FieldKind::Boolean, 1, false), &Content::default());
    assert_eq!(r.unwrap().value, Value::Boolean(true));
}

#[test]
fn field_takes_its_name() {
    let (r, _) = parse(&[5], layout(FieldKind::U8, 1, false), &Content::default());
    assert_eq!(r.unwrap(), Field { name: "field".to_owned(), value: Value::U8(5) });
}

#[test]
fn integers_after_alignment() {
    let data = [0xEE, 0xEE, 0xEE, 0xEE, 0xFE, 0xFF, 0xFF, 0xFF, 0xFF, 0xFF, 0xFF, 0xFF];
    let mut stream = SliceStream::from(&data[..]);
    stream.seek(1).unwrap();
    let v = layout(FieldKind::S64, 4, false).parse(&mut stream, &Content::default());
    assert_eq!(v.unwrap().value, Value::S64(-2));
    assert_eq!(stream.position(), 12);

    let mut stream = SliceStream::from(&data[..]);
    stream.seek(4).unwrap();
    let v = layout(FieldKind::U32, 4, false).parse(&mut stream, &Content::default());
    assert_eq!(v.unwrap().value, Value::U32(0xFFFF_FFFE));
}

#[test]
fn vectors_and_matrices_are_not_implemented() {
    let data = [0u8; 68];
    for kind in [FieldKind::Vec3, FieldKind::Mat4] {
        let mut stream = SliceStream::from(&data[..]);
        stream.seek(1).unwrap();
        let r = layout(kind, 4, false).parse(&mut stream, &Content::default());
        assert_eq!(r, Err(Error::UnimplementedFieldType(kind)));
        // Only the alignment moved the stream.
        assert_eq!(stream.position(), 4);
        let r = layout(kind, 4, false).parse_value(&mut stream, &Content::default());
        assert_eq!(r, Err(Error::UnimplementedFieldType(kind)));
        assert_eq!(stream.position(), 4);
    }
}

#[test]
fn data_and_unsigned_kinds() {
    let data = [1u8, 2, 3, 4, 5, 6, 7, 8];
    let (r, p) = parse(&data, layout(FieldKind::Data, 1, false), &Content::default());
    assert_eq!((r.unwrap().value, p), (Value::Data(1), 1));
    let (r, p) = parse(&data, layout(FieldKind::U16, 2, false), &Content::default());
    assert_eq!((r.unwrap().value, p), (Value::U16(0x0201), 2));
    let (r, p) = parse(&data, layout(FieldKind::U64, 8, false), &Content::default());
    assert_eq!((r.unwrap().value, p), (Value::U64(0x0807060504030201), 8));
    let (r, p) = parse(&data, layout(FieldKind::S32, 4, false), &Content::default());
    assert_eq!((r.unwrap().value, p), (Value::S32(0x04030201), 4));
}

#[test]
fn bound_string_ignores_its_length() {
    let mut data = vec![1u8, 0, 0, 0];
    data.extend("Hi".encode_utf16().flat_map(|u| u.to_le_bytes()));
    data.extend_from_slice(&[0, 0]);
    let (r, p) = parse(&data, layout(FieldKind::String, 4, false), &Content::default());
    assert_eq!(r.unwrap().value, Value::String("Hi".to_owned()));
    assert_eq!(p, 10);
}

#[test]
fn user_data_is_an_interned_string() {
    let mut content = Content::default();
    content.interned_strings.insert(3, "a/b.user".to_owned());
    let (r, p) = parse(&[3, 0, 0, 0], layout(FieldKind::UserData, 4, false), &content);
    assert_eq!(r.unwrap().value, Value::String("a/b.user".to_owned()));
    assert_eq!(p, 4);
}

#[test]
fn instance_reference_takes_absolute_index() {
    let mut content = Content::default();
    let target = Rc::new(Object { name: "T".to_owned(), fields: vec![] });
    content.instances.push(Rc::new(Object { name: "null".to_owned(), fields: vec![] }));
    content.instances.push(target.clone());
    let (r, _) = parse(&(-1i32).to_le_bytes(), layout(FieldKind::InstanceRef, 4, false), &content);
    assert_eq!(r.unwrap().value, Value::Object(target));
    let (r, p) = parse(&2i32.to_le_bytes(), layout(FieldKind::InstanceRef, 4, false), &content);
    assert_eq!(r, Err(Error::ObjectNotFound(2)));
    assert_eq!(p, 4);
}

#[test]
fn unimplemented_kind_is_reported_after_alignment() {
    let data = [0u8; 8];
    let mut stream = SliceStream::from(&data[..]);
    stream.seek(1).unwrap();
    let r = layout(FieldKind::Quaternion, 4, false).parse(&mut stream, &Content::default());
    assert_eq!(r, Err(Error::UnimplementedFieldType(FieldKind::Quaternion)));
    assert_eq!(stream.position(), 4);
}

#[test]
fn short_value_is_an_invalid_section() {
    let (r, p) = parse(&[1, 2], layout(FieldKind::U32, 1, false), &Content::default());
    assert_eq!(r, Err(Error::InvalidSection { section: "u32", length: 4 }));
    assert_eq!(p, 0);
    let (r, _) = parse(&[1, 2], layout(FieldKind::F32, 1, false), &Content::default());
    assert_eq!(r, Err(Error::InvalidSection { section: "f32", length: 4 }));
    let (r, _) = parse(&[0; 15], layout(FieldKind::Guid, 1, false), &Content::default());
    assert_eq!(r, Err(Error::InvalidSection { section: "[u8; 16]", length: 16 }));
}

#[test]
fn array_elements_after_count() {
    // Count 3 at 4, then the inner alignment of 8, then three u16 values.
    let mut data = vec![0u8; 4];
    data.extend_from_slice(&3i32.to_le_bytes());
    data.extend_from_slice(&[1, 0, 2, 0, 3, 0]);
    let mut stream = SliceStream::from(&data[..]);
    stream.seek(1).unwrap();
    let r = layout(FieldKind::U16, 8, true).parse(&mut stream, &Content::default());
    assert_eq!(
        r.unwrap().value,
        Value::Array(Values(vec![Value::U16(1), Value::U16(2), Value::U16(3)]))
    );
    assert_eq!(stream.position(), 14);
}

#[test]
fn empty_array_skips_inner_alignment() {
    for count in [0i32, -5] {
        let mut data = count.to_le_bytes().to_vec();
        data.push(0);
        let mut stream = SliceStream::from(&data[..]);
        let r = layout(FieldKind::U64, 8, true).parse(&mut stream, &Content::default());
        assert_eq!(r.unwrap().value, Value::Array(Values(vec![])));
        assert_eq!(stream.position(), 4);
    }
}

#[test]
fn array_with_missing_elements() {
    let mut data = 2i32.to_le_bytes().to_vec();
    data.extend_from_slice(&[1, 0, 0, 0]);
    let (r, p) = parse(&data, layout(FieldKind::U32, 4, true), &Content::default());
    assert_eq!(r, Err(Error::InvalidSection { section: "u32", length: 4 }));
    assert_eq!(p, 8);
}

#[test]
fn parse_value_does_not_align() {
    let data = [0u8, 5, 0, 0, 0];
    let mut stream = SliceStream::from(&data[..]);
    stream.seek(1).unwrap();
    let v = layout(FieldKind::U32, 4, false).parse_value(&mut stream, &Content::default());
    assert_eq!(v, Ok(Value::U32(5)));
    assert_eq!(stream.position(), 5);
}

#[test]
fn clones_keep_values_and_share_objects() {
    let inner = Rc::new(Object { name: "I".to_owned(), fields: vec![] });
    let v = Value::Array(Values(vec![Value::Object(inner.clone()), Value::String("s".to_owned())]));
    let c = v.clone();
    assert_eq!(c, v);
    match (&c, &v) {
        (Value::Array(a), Value::Array(b)) => match (&a[0], &b[0]) {
            (Value::Object(x), Value::Object(y)) => assert!(Rc::ptr_eq(x, y)),
            _ => unreachable!(),
        },
        _ => unreachable!(),
    }
    let o = Object { name: "O".to_owned(), fields: vec![Field { name: "f".to_owned(), value: v }] };
    assert_eq!(o.clone(), o);
}

#[test]
fn try_as_selects_the_variant() {
    assert_eq!(Value::U32(5).try_as_u32(), Some(5));
    assert_eq!(Value::U32(5).try_as_s32(), None);
    assert_eq!(Value::String("a".to_owned()).try_as_string_ref(), Some(&"a".to_owned()));
    assert_eq!(Value::Boolean(true).try_as_array_ref(), None);
    assert_eq!(
        Value::Array(Values(vec![Value::U8(1)])).try_as_array(),
        Some(Values(vec![Value::U8(1)]))
    );
}
