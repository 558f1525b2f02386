use rsz::hex::deserialize_hex_map;
use rsz::layout::{FieldKind, FieldLayout, Layout, LayoutMap};
use rsz::rsz::content::SliceStream;
use rsz::rsz::{Failure, Rsz};
use rsz::{Content, Error, Field, User, Value};
use std::rc::Rc;

fn push_u32(out: &mut Vec<u8>, x: u32) {
    out.extend_from_slice(&x.to_le_bytes());
}

fn push_u64(out: &mut Vec<u8>, x: u64) {
    out.extend_from_slice(&x.to_le_bytes());
}

/// A content section with instance slots of the given types, root references, interned
/// strings (each record followed by its string) and field data.
fn content(types: &[u64], roots: &[i32], interned: &[(u32, &str)], fields: &[u8]) -> Vec<u8> {
    let intern_offset = 48 + 4 * roots.len() as u64;
    let mut strings: Vec<u8> = Vec::new();
    for (index, s) in interned {
        let at = intern_offset + strings.len() as u64;
        push_u32(&mut strings, *index);
        push_u32(&mut strings, 0);
        push_u64(&mut strings, at + 16);
        strings.extend(s.encode_utf16().flat_map(|u| u.to_le_bytes()));
        strings.extend_from_slice(&[0, 0]);
    }
    let instance_offset = intern_offset + strings.len() as u64;
    let data_offset = instance_offset + 12 * types.len() as u64;
    let mut out: Vec<u8> = Vec::new();
    push_u32(&mut out, 0x5A5352);
    push_u32(&mut out, 16);
    push_u32(&mut out, roots.len() as u32);
    push_u32(&mut out, types.len() as u32);
    push_u32(&mut out, interned.len() as u32);
    push_u32(&mut out, 0);
    push_u64(&mut out, instance_offset);
    push_u64(&mut out, data_offset);
    push_u64(&mut out, intern_offset);
    for r in roots {
        push_u32(&mut out, *r as u32);
    }
    out.extend_from_slice(&strings);
    for t in types {
        push_u64(&mut out, *t);
        push_u32(&mut out, 0);
    }
    out.extend_from_slice(fields);
    out
}

/// A USER document around a content section.
fn user(content: &[u8]) -> Vec<u8> {
    let mut doc: Vec<u8> = Vec::new();
    push_u32(&mut doc, 0x525355);
    push_u32(&mut doc, 0);
    push_u32(&mut doc, 0);
    push_u32(&mut doc, 0);
    push_u64(&mut doc, 40);
    push_u64(&mut doc, 40);
    push_u64(&mut doc, 40);
    doc.extend_from_slice(content);
    doc
}

fn field(name: &'static str, kind: FieldKind) -> FieldLayout<'static> {
    FieldLayout { align: 4, size: 4, is_array: false, name, is_native: false, original_type_name: "", kind }
}

fn layouts() -> LayoutMap<'static> {
    LayoutMap::new(
        deserialize_hex_map(vec![
            ("0", Layout { fields: vec![], name: "", crc: 0 }),
            ("10", Layout { fields: vec![field("_Value", FieldKind::U32)], name: "Number", crc: 0 }),
            (
                "20",
                Layout {
                    fields: vec![field("_Target", FieldKind::InstanceRef), field("_Path", FieldKind::UserData)],
                    name: "Holder",
                    crc: 0x1234,
                },
            ),
        ])
        .unwrap(),
    )
}

#[test]
fn layout_map_lookup() {
    let l = layouts();
    assert_eq!(l.get_layout(0x20).unwrap().name, "Holder");
    assert_eq!(l.get_layout(0x20).unwrap().crc, 0x1234);
    assert!(l.get_layout(0x21).is_none());
}

#[test]
fn content_with_references_and_interned_strings() {
    // Slots: null, a number, an interned path, a holder that refers to the number.
    let mut fields = Vec::new();
    push_u32(&mut fields, 42); // Number._Value
    push_u32(&mut fields, 1); // Holder._Target
    push_u32(&mut fields, 2); // Holder._Path: the string of slot 2
    let data = content(&[0, 0x10, 0x10, 0x20], &[3, -1], &[(2, "x/y.txt")], &fields);
    let l = layouts();
    let mut stream = SliceStream::from(&data[..]);
    let c = Content::parse(&mut stream, &l).unwrap();
    assert_eq!(stream.position(), data.len());

    assert_eq!(c.instances.len(), 4);
    assert_eq!(c.instances[2].name, "Number");
    assert_eq!(
        c.instances[2].fields,
        vec![Field { name: "Path".to_owned(), value: Value::String("x/y.txt".to_owned()) }]
    );
    assert_eq!(c.instances[3].fields[0].value, Value::Object(c.instances[1].clone()));
    assert_eq!(c.instances[3].fields[1].value, Value::String("x/y.txt".to_owned()));
    // Roots are instances, selected by the absolute value of their index.
    assert_eq!(c.root_objects.len(), 2);
    assert!(Rc::ptr_eq(&c.root_objects[0], &c.instances[3]));
    assert!(Rc::ptr_eq(&c.root_objects[1], &c.instances[1]));
    assert_eq!(c.interned_strings.get(&2).map(|s| s.as_str()), Some("x/y.txt"));
}

#[test]
fn content_magic_mismatch() {
    let mut data = content(&[0], &[], &[], &[]);
    data[0] = 0;
    let mut stream = SliceStream::from(&data[..]);
    assert_eq!(
        Content::parse(&mut stream, &layouts()).map(|_| ()),
        Err(Error::MagicMismatch { expected: 0x5A5352, actual: 0x5A5300 })
    );
    assert_eq!(stream.position(), 48);
}

#[test]
fn unknown_layout_id() {
    let data = content(&[0, 0x99], &[], &[], &[]);
    let mut stream = SliceStream::from(&data[..]);
    assert_eq!(Content::parse(&mut stream, &layouts()).map(|_| ()), Err(Error::UnknownLayoutId(0x99)));
}

#[test]
fn offset_past_the_end() {
    let mut data = content(&[0], &[], &[], &[]);
    data[24..32].copy_from_slice(&1000u64.to_le_bytes());
    let len = data.len();
    let mut stream = SliceStream::from(&data[..]);
    assert_eq!(
        Content::parse(&mut stream, &layouts()).map(|_| ()),
        Err(Error::UnexpectedEof { position: 1000, length: len })
    );
}

#[test]
fn reference_to_a_later_instance_is_not_found() {
    let mut fields = Vec::new();
    push_u32(&mut fields, 2); // Holder._Target: slot 2 is parsed after slot 1
    push_u32(&mut fields, 0);
    push_u32(&mut fields, 7);
    let data = content(&[0, 0x20, 0x10], &[], &[(0, "p")], &fields);
    let mut stream = SliceStream::from(&data[..]);
    assert_eq!(Content::parse(&mut stream, &layouts()).map(|_| ()), Err(Error::ObjectNotFound(2)));
}

#[test]
fn user_document_and_dispatch() {
    let mut fields = Vec::new();
    push_u32(&mut fields, 7);
    let doc = user(&content(&[0, 0x10], &[1], &[], &fields));
    let l = layouts();
    let mut stream = SliceStream::from(&doc[..]);
    let u = User::parse(&mut stream, &l).unwrap();
    // The stream stays at the content section; the content was read from a stream of its own.
    assert_eq!(stream.position(), 40);
    assert_eq!(u.content.root_objects[0].fields[0].value, Value::U32(7));

    match Rsz::read_from(&doc, &l) {
        Ok(Rsz::User(u)) => assert_eq!(u.content.root_objects[0].name, "Number"),
        Err(e) => panic!("{e:?}"),
    }
}

#[test]
fn unrecognized_and_mismatched_magic() {
    let mut doc = user(&content(&[0], &[], &[], &[]));
    doc[0] = 0x11;
    assert!(matches!(Rsz::read_from(&doc, &layouts()), Err(Error::UnrecognizedMagic(0x525311))));
    let mut stream = SliceStream::from(&doc[..]);
    assert!(matches!(
        User::parse(&mut stream, &layouts()),
        Err(Error::MagicMismatch { expected: 0x525355, actual: 0x525311 })
    ));
    assert!(matches!(
        Rsz::read_from(&[1, 2], &layouts()),
        Err(Error::InvalidSection { section: "u32", length: 4 })
    ));
}

#[test]
fn root_past_the_instances_aborts() {
    let doc = user(&content(&[0], &[5], &[], &[]));
    assert!(matches!(Rsz::read(&doc, &layouts()), Err(Failure::Panic)));
}

#[test]
fn missing_interned_string_aborts() {
    let mut fields = Vec::new();
    push_u32(&mut fields, 0);
    push_u32(&mut fields, 9);
    let doc = user(&content(&[0, 0x20], &[], &[], &fields));
    assert!(matches!(Rsz::read(&doc, &layouts()), Err(Failure::Panic)));
}
