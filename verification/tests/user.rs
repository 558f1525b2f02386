use rsz::hex::deserialize_hex_map;
use rsz::layout::{FieldKind, FieldLayout, Layout, LayoutMap};
use rsz::rsz::content::SliceStream;
use rsz::{Field, Object, User, Value, Values};
use std::rc::Rc;
use uuid::Uuid;

const NAME_GUID: &str = "56bff7fd-6ef8-4038-9ce7-006a0fdc88a1";
const EXPLAIN_GUID: &str = "abb148ea-836c-4a2a-9cb8-5b74ab3c845c";

fn field(name: &'static str, kind: FieldKind, is_array: bool) -> FieldLayout<'static> {
    FieldLayout {
        align: 4,
        size: 4,
        is_array,
        name,
        is_native: false,
        original_type_name: "",
        kind,
    }
}

fn layout(name: &'static str, fields: Vec<FieldLayout<'static>>) -> Layout<'static> {
    Layout { fields, name, crc: 0 }
}

/// The layouts of an accessory data file, keyed by hexadecimal type IDs.
fn accessory_layouts() -> LayoutMap<'static> {
    let value = |name| layout(name, vec![field("_Value", FieldKind::S32, false)]);
    let entries = vec![
        ("0", layout("", vec![])),
        (
            "1a",
            layout(
                "app.user_data.AccessoryData",
                vec![field("_Values", FieldKind::InstanceRef, true)],
            ),
        ),
        (
            "2B",
            layout(
                "app.user_data.AccessoryData.cData",
                vec![
                    field("_Index", FieldKind::S32, false),
                    field("_AccessoryId", FieldKind::InstanceRef, false),
                    field("_Name", FieldKind::Guid, false),
                    field("_Explain", FieldKind::Guid, false),
                    field("_AccessoryType", FieldKind::InstanceRef, false),
                    field("_SortId", FieldKind::U32, false),
                    field("_Rare", FieldKind::InstanceRef, false),
                    field("_IconColor", FieldKind::S32, false),
                    field("_Price", FieldKind::U32, false),
                    field("_SlotLevelAcc", FieldKind::InstanceRef, false),
                    field("_Skill", FieldKind::InstanceRef, true),
                    field("_SkillLevel", FieldKind::U32, true),
                ],
            ),
        ),
        ("3", value("app.EquipDef.ACCESSORY_ID_Serializable")),
        ("4", value("app.EquipDef.ACCESSORY_TYPE_Serializable")),
        ("5", value("app.ItemDef.RARE_Serializable")),
        ("6", value("app.EquipDef.SlotLevel_Serializable")),
        ("7", value("app.HunterDef.Skill_Serializable")),
    ];
    LayoutMap::new(deserialize_hex_map(entries).unwrap())
}

fn push_u32(out: &mut Vec<u8>, x: u32) {
    out.extend_from_slice(&x.to_le_bytes());
}

fn push_u64(out: &mut Vec<u8>, x: u64) {
    out.extend_from_slice(&x.to_le_bytes());
}

/// A USER document holding one accessory, in the layout of `accessory_layouts`.
fn accessory_document() -> Vec<u8> {
    // Instance slots: null, five single-value objects, two skills, the entry, the root.
    let types: [u64; 9] = [0, 0x3, 0x4, 0x5, 0x6, 0x7, 0x7, 0x2b, 0x1a];
    let mut fields: Vec<u8> = Vec::new();
    for v in [130724024_i32, -1638455296, 16, 1, 1, 0] {
        push_u32(&mut fields, v as u32);
    }
    push_u32(&mut fields, 0); // _Index
    push_u32(&mut fields, 1); // _AccessoryId
    fields.extend_from_slice(&Uuid::parse_str(NAME_GUID).unwrap().to_bytes_le());
    fields.extend_from_slice(&Uuid::parse_str(EXPLAIN_GUID).unwrap().to_bytes_le());
    push_u32(&mut fields, 2); // _AccessoryType
    push_u32(&mut fields, 101); // _SortId
    push_u32(&mut fields, 3); // _Rare
    push_u32(&mut fields, 4); // _IconColor
    push_u32(&mut fields, 150); // _Price
    push_u32(&mut fields, 4); // _SlotLevelAcc
    push_u32(&mut fields, 2); // _Skill
    push_u32(&mut fields, 5);
    push_u32(&mut fields, 6);
    push_u32(&mut fields, 2); // _SkillLevel
    push_u32(&mut fields, 1);
    push_u32(&mut fields, 0);
    push_u32(&mut fields, 1); // root: _Values
    push_u32(&mut fields, 7);

    let instance_offset: u64 = 48 + 4;
    let data_offset: u64 = instance_offset + 12 * types.len() as u64;
    let mut content: Vec<u8> = Vec::new();
    push_u32(&mut content, 0x5A5352);
    push_u32(&mut content, 16);
    push_u32(&mut content, 1);
    push_u32(&mut content, types.len() as u32);
    push_u32(&mut content, 0);
    push_u32(&mut content, 0);
    push_u64(&mut content, instance_offset);
    push_u64(&mut content, data_offset);
    push_u64(&mut content, instance_offset);
    push_u32(&mut content, 8); // the root reference
    for t in types {
        push_u64(&mut content, t);
        push_u32(&mut content, 0);
    }
    content.extend_from_slice(&fields);

    let mut doc: Vec<u8> = Vec::new();
    push_u32(&mut doc, 0x525355);
    push_u32(&mut doc, types.len() as u32);
    push_u32(&mut doc, 0);
    push_u32(&mut doc, 0);
    push_u64(&mut doc, 40);
    push_u64(&mut doc, 40);
    push_u64(&mut doc, 40);
    doc.extend_from_slice(&content);
    doc
}

fn single(name: &str, value: i32) -> Value {
    Value::Object(Rc::new(Object {
        name: name.to_owned(),
        fields: vec![Field { name: "_Value".to_owned(), value: Value::S32(value) }],
    }))
}

#[test]
fn test_user() {
    let layouts = accessory_layouts();
    let input = accessory_document();
    let doc = User::parse(&mut SliceStream::from(&input[..]), &layouts).unwrap();

    assert_eq!(doc.content.root_objects.len(), 1);

    let root = doc.content.root_objects[0].clone();
    assert!(matches!(root.name.as_ref(), "app.user_data.AccessoryData"));
    assert_eq!(root.fields.len(), 1);

    let field = root.fields[0].clone();
    assert!(matches!(field.name.as_ref(), "_Values"));
    assert!(matches!(field.value, Value::Array(_)));

    let first = field.value.try_as_array().unwrap();
    let first = first[0].clone();
    assert!(matches!(first, Value::Object(ref v) if v.name == "app.user_data.AccessoryData.cData" && v.fields.len() == 12));

    let guid = |s: &str| Value::Guid(*Uuid::parse_str(s).unwrap().as_bytes());
    let expected = vec![
        Field { name: "_Index".to_owned(), value: Value::S32(0) },
        Field {
            name: "_AccessoryId".to_owned(),
            value: single("app.EquipDef.ACCESSORY_ID_Serializable", 130724024),
        },
        Field { name: "_Name".to_owned(), value: guid(NAME_GUID) },
        Field { name: "_Explain".to_owned(), value: guid(EXPLAIN_GUID) },
        Field {
            name: "_AccessoryType".to_owned(),
            value: single("app.EquipDef.ACCESSORY_TYPE_Serializable", -1638455296),
        },
        Field { name: "_SortId".to_owned(), value: Value::U32(101) },
        Field { name: "_Rare".to_owned(), value: single("app.ItemDef.RARE_Serializable", 16) },
        Field { name: "_IconColor".to_owned(), value: Value::S32(4) },
        Field { name: "_Price".to_owned(), value: Value::U32(150) },
        Field {
            name: "_SlotLevelAcc".to_owned(),
            value: single("app.EquipDef.SlotLevel_Serializable", 1),
        },
        Field {
            name: "_Skill".to_owned(),
            value: Value::Array(Values(vec![
                single("app.HunterDef.Skill_Serializable", 1),
                single("app.HunterDef.Skill_Serializable", 0),
            ])),
        },
        Field {
            name: "_SkillLevel".to_owned(),
            value: Value::Array(Values(vec![Value::U32(1), Value::U32(0)])),
        },
    ];

    for (index, field) in first.try_as_object().unwrap().fields.iter().enumerate() {
        assert_eq!(field, &expected[index]);
    }
}
