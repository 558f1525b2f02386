//! The shapes of parsed content that are written out transparently, in place of the object or
//! collection that wraps them.
use crate::rsz::content::{Object, Value, Values};
use std::rc::Rc;
use vstd::prelude::*;

verus! {

/// The only element of `v`, when it holds exactly one.
pub fn first_only<T>(v: &Vec<T>) -> (r: Option<&T>)
    ensures
        match r {
            Some(x) => v@.len() == 1 && *x == v@[0],
            None => v@.len() != 1,
        },
{
    if v.len() == 1 {
        Some(&v[0])
    } else {
        None
    }
}

/// The elements of an object whose only field is an array.
pub fn as_transparent_collection(item: &Object) -> (r: Option<&Values>)
    ensures
        match r {
            Some(vs) => item.fields@.len() == 1 && item.fields@[0].value == Value::Array(*vs),
            None => !(item.fields@.len() == 1 && item.fields@[0].value is Array),
        },
{
    match first_only(&item.fields) {
        Some(field) => match &field.value {
            Value::Array(inner) => Some(inner),
            _ => None,
        },
        None => None,
    }
}

/// The value of the only field of an object.
pub fn as_transparent_object(item: &Object) -> (r: Option<&Value>)
    ensures
        match r {
            Some(v) => item.fields@.len() == 1 && *v == item.fields@[0].value,
            None => item.fields@.len() != 1,
        },
{
    match first_only(&item.fields) {
        Some(field) => Some(&field.value),
        None => None,
    }
}

/// The object held by a value, when the value is an object with exactly one field.
pub fn as_transparent_value(value: &Value) -> (r: Option<Rc<Object>>)
    ensures
        match r {
            Some(o) => value == &Value::Object(o) && o.fields@.len() == 1,
            None => !(value matches Value::Object(o) && o.fields@.len() == 1),
        },
{
    match value {
        Value::Object(inner) => if inner.fields.len() == 1 {
            Some(inner.clone())
        } else {
            None
        },
        _ => None,
    }
}

} // verus!
