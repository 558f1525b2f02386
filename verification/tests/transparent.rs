use rsz::transparent::{as_transparent_collection, as_transparent_object, as_transparent_value, first_only};
use rsz::{Field, Object, Value, Values};
use std::rc::Rc;

fn object(fields: Vec<Field>) -> Object {
    Object { name: "O".to_owned(), fields }
}

fn field(value: Value) -> Field {
    Field { name: "f".to_owned(), value }
}

#[test]
fn first_only_needs_exactly_one() {
    assert_eq!(first_only(&Vec::<u8>::new()), None);
    assert_eq!(first_only(&vec![4u8]), Some(&4));
    assert_eq!(first_only(&vec![4u8, 5]), None);
}

#[test]
fn single_array_field_is_a_transparent_collection() {
    let o = object(vec![field(Value::Array(Values(vec![Value::U8(1)])))]);
    assert_eq!(as_transparent_collection(&o), Some(&Values(vec![Value::U8(1)])));
    assert_eq!(as_transparent_object(&o), Some(&o.fields[0].value));

    let o = object(vec![field(Value::U8(1))]);
    assert_eq!(as_transparent_collection(&o), None);
    assert_eq!(as_transparent_object(&o), Some(&Value::U8(1)));

    let o = object(vec![field(Value::U8(1)), field(Value::U8(2))]);
    assert_eq!(as_transparent_collection(&o), None);
    assert_eq!(as_transparent_object(&o), None);
}

#[test]
fn single_field_object_value_is_transparent() {
    let inner = Rc::new(object(vec![field(Value::S32(3))]));
    let v = Value::Object(inner.clone());
    assert!(matches!(as_transparent_value(&v), Some(o) if Rc::ptr_eq(&o, &inner)));
    let v = Value::Object(Rc::new(object(vec![])));
    assert!(as_transparent_value(&v).is_none());
    assert!(as_transparent_value(&Value::S32(3)).is_none());
}
