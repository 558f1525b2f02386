use super::stream::{spec_align, spec_read_u16, spec_read_u32, spec_read_u64, spec_read_u8, spec_seek, spec_take};
use super::{abs_index, agrees, agrees_by, count, lemma_repeat_stops, lift, lower, map_done, repeat, then, unsigned_abs, Error, Failure, Outcome};
use crate::layout::{FieldKind, FieldLayout, Layout, LayoutMap, TypeId};
use crate::types::mat4::{Mat4, Mat4Element};
use crate::types::vec3::Vec3;
use std::collections::HashMap;
use std::rc::Rc;
use vstd::bytes::*;
use vstd::prelude::*;
use vstd::slice::slice_subrange;

pub use super::stream::SliceStream;

verus! {

broadcast use vstd::std_specs::hash::group_hash_axioms;

/// A magic 4-byte value that identifies a section.
pub type Magic = u32;

/// A collection of objects, shared between the places that refer to them.
#[derive(Debug)]
pub struct Objects(Vec<Rc<Object>>);

/// An object: a named type with its parsed fields.
#[derive(Debug, PartialEq)]
pub struct Object {
    pub name: String,
    pub fields: Vec<Field>,
}

/// A named value within an [`Object`].
#[derive(Debug, PartialEq)]
pub struct Field {
    pub name: String,
    pub value: Value,
}

/// The elements of an array field.
#[derive(Debug, PartialEq)]
pub struct Values(pub Vec<Value>);

/// A value parsed from a field. Floating point values are held as their IEEE 754 bit patterns.
#[derive(Debug, PartialEq)]
pub enum Value {
    /// An array of [Value] objects.
    Array(Values),
    /// A simple boolean value.
    Boolean(bool),
    /// A 16-bit floating point number (the bits of a binary16).
    F16(u16),
    /// A 32-bit floating point number (the bits of a binary32).
    F32(u32),
    /// A 64-bit floating point number (the bits of a binary64).
    F64(u64),
    /// A UUID, as its 16 bytes in big-endian (RFC 4122) order.
    Guid([u8; 16]),
    /// An [Object] instance.
    Object(Rc<Object>),
    /// An 8-bit signed integer.
    S8(i8),
    /// A 16-bit signed integer.
    S16(i16),
    /// A 32-bit signed integer.
    S32(i32),
    /// A 64-bit signed integer.
    S64(i64),
    /// A string value.
    String(String),
    /// An 8-bit unsigned integer.
    U8(u8),
    /// A 16-bit unsigned integer.
    U16(u16),
    /// A 32-bit unsigned integer.
    U32(u32),
    /// A 64-bit unsigned integer.
    U64(u64),
    /// A 3-dimensional vector.
    Vec3(Vec3),
    /// A 4x4 matrix value.
    Mat4(Mat4),
    /// A value backed by a `u8` whose meaning is not known.
    Data(u8),
}

/// The mathematical model of a [`Value`].
pub enum ValueV {
    Array(Seq<ValueV>),
    Boolean(bool),
    F16(u16),
    F32(u32),
    F64(u64),
    Guid(Seq<u8>),
    Object(ObjectV),
    S8(i8),
    S16(i16),
    S32(i32),
    S64(i64),
    String(Seq<char>),
    U8(u8),
    U16(u16),
    U32(u32),
    U64(u64),
    Vec3(Vec3),
    Mat4(Seq<Mat4Element>),
    Data(u8),
}

/// The mathematical model of an [`Object`].
pub struct ObjectV {
    pub name: Seq<char>,
    pub fields: Seq<FieldV>,
}

/// The mathematical model of a [`Field`].
pub struct FieldV {
    pub name: Seq<char>,
    pub value: ValueV,
}

pub open spec fn value_view(v: Value) -> ValueV
    decreases v,
{
    match v {
        Value::Array(vs) => ValueV::Array(values_view(vs.0@)),
        Value::Boolean(b) => ValueV::Boolean(b),
        Value::F16(x) => ValueV::F16(x),
        Value::F32(x) => ValueV::F32(x),
        Value::F64(x) => ValueV::F64(x),
        Value::Guid(g) => ValueV::Guid(g@),
        Value::Object(o) => ValueV::Object(object_view(*o)),
        Value::S8(x) => ValueV::S8(x),
        Value::S16(x) => ValueV::S16(x),
        Value::S32(x) => ValueV::S32(x),
        Value::S64(x) => ValueV::S64(x),
        Value::String(s) => ValueV::String(s@),
        Value::U8(x) => ValueV::U8(x),
        Value::U16(x) => ValueV::U16(x),
        Value::U32(x) => ValueV::U32(x),
        Value::U64(x) => ValueV::U64(x),
        Value::Vec3(x) => ValueV::Vec3(x),
        Value::Mat4(m) => ValueV::Mat4(m.0@),
        Value::Data(x) => ValueV::Data(x),
    }
}

pub open spec fn values_view(s: Seq<Value>) -> Seq<ValueV>
    decreases s,
{
    if s.len() == 0 {
        Seq::empty()
    } else {
        values_view(s.drop_last()).push(value_view(s.last()))
    }
}

pub open spec fn object_view(o: Object) -> ObjectV
    decreases o,
{
    ObjectV { name: o.name@, fields: fields_view(o.fields@) }
}

pub open spec fn fields_view(s: Seq<Field>) -> Seq<FieldV>
    decreases s,
{
    if s.len() == 0 {
        Seq::empty()
    } else {
        fields_view(s.drop_last()).push(FieldV { name: s.last().name@, value: value_view(s.last().value) })
    }
}

impl Value {
    /// The content of a `Array` value.
    pub fn try_as_array(self) -> (r: Option<Values>)
        ensures
            match r {
                Some(x) => self == Value::Array(x),
                None => !(self is Array),
            },
    {
        match self {
            Value::Array(x) => Some(x),
            _ => None,
        }
    }

    /// A reference to the content of a `Array` value.
    pub fn try_as_array_ref(&self) -> (r: Option<&Values>)
        ensures
            match r {
                Some(x) => *self == Value::Array(*x),
                None => !(*self is Array),
            },
    {
        match self {
            Value::Array(x) => Some(x),
            _ => None,
        }
    }

    /// The content of a `Boolean` value.
    pub fn try_as_boolean(self) -> (r: Option<bool>)
        ensures
            match r {
                Some(x) => self == Value::Boolean(x),
                None => !(self is Boolean),
            },
    {
        match self {
            Value::Boolean(x) => Some(x),
            _ => None,
        }
    }

    /// A reference to the content of a `Boolean` value.
    pub fn try_as_boolean_ref(&self) -> (r: Option<&bool>)
        ensures
            match r {
                Some(x) => *self == Value::Boolean(*x),
                None => !(*self is Boolean),
            },
    {
        match self {
            Value::Boolean(x) => Some(x),
            _ => None,
        }
    }

    /// The content of a `F16` value.
    pub fn try_as_f16(self) -> (r: Option<u16>)
        ensures
            match r {
                Some(x) => self == Value::F16(x),
                None => !(self is F16),
            },
    {
        match self {
            Value::F16(x) => Some(x),
            _ => None,
        }
    }

    /// A reference to the content of a `F16` value.
    pub fn try_as_f16_ref(&self) -> (r: Option<&u16>)
        ensures
            match r {
                Some(x) => *self == Value::F16(*x),
                None => !(*self is F16),
            },
    {
        match self {
            Value::F16(x) => Some(x),
            _ => None,
        }
    }

    /// The content of a `F32` value.
    pub fn try_as_f32(self) -> (r: Option<u32>)
        ensures
            match r {
                Some(x) => self == Value::F32(x),
                None => !(self is F32),
            },
    {
        match self {
            Value::F32(x) => Some(x),
            _ => None,
        }
    }

    /// A reference to the content of a `F32` value.
    pub fn try_as_f32_ref(&self) -> (r: Option<&u32>)
        ensures
            match r {
                Some(x) => *self == Value::F32(*x),
                None => !(*self is F32),
            },
    {
        match self {
            Value::F32(x) => Some(x),
            _ => None,
        }
    }

    /// The content of a `F64` value.
    pub fn try_as_f64(self) -> (r: Option<u64>)
        ensures
            match r {
                Some(x) => self == Value::F64(x),
                None => !(self is F64),
            },
    {
        match self {
            Value::F64(x) => Some(x),
            _ => None,
        }
    }

    /// A reference to the content of a `F64` value.
    pub fn try_as_f64_ref(&self) -> (r: Option<&u64>)
        ensures
            match r {
                Some(x) => *self == Value::F64(*x),
                None => !(*self is F64),
            },
    {
        match self {
            Value::F64(x) => Some(x),
            _ => None,
        }
    }

    /// The content of a `Guid` value.
    pub fn try_as_guid(self) -> (r: Option<[u8; 16]>)
        ensures
            match r {
                Some(x) => self == Value::Guid(x),
                None => !(self is Guid),
            },
    {
        match self {
            Value::Guid(x) => Some(x),
            _ => None,
        }
    }

    /// A reference to the content of a `Guid` value.
    pub fn try_as_guid_ref(&self) -> (r: Option<&[u8; 16]>)
        ensures
            match r {
                Some(x) => *self == Value::Guid(*x),
                None => !(*self is Guid),
            },
    {
        match self {
            Value::Guid(x) => Some(x),
            _ => None,
        }
    }

    /// The content of a `Object` value.
    pub fn try_as_object(self) -> (r: Option<Rc<Object>>)
        ensures
            match r {
                Some(x) => self == Value::Object(x),
                None => !(self is Object),
            },
    {
        match self {
            Value::Object(x) => Some(x),
            _ => None,
        }
    }

    /// A reference to the content of a `Object` value.
    pub fn try_as_object_ref(&self) -> (r: Option<&Rc<Object>>)
        ensures
            match r {
                Some(x) => *self == Value::Object(*x),
                None => !(*self is Object),
            },
    {
        match self {
            Value::Object(x) => Some(x),
            _ => None,
        }
    }

    /// The content of a `S8` value.
    pub fn try_as_s8(self) -> (r: Option<i8>)
        ensures
            match r {
                Some(x) => self == Value::S8(x),
                None => !(self is S8),
            },
    {
        match self {
            Value::S8(x) => Some(x),
            _ => None,
        }
    }

    /// A reference to the content of a `S8` value.
    pub fn try_as_s8_ref(&self) -> (r: Option<&i8>)
        ensures
            match r {
                Some(x) => *self == Value::S8(*x),
                None => !(*self is S8),
            },
    {
        match self {
            Value::S8(x) => Some(x),
            _ => None,
        }
    }

    /// The content of a `S16` value.
    pub fn try_as_s16(self) -> (r: Option<i16>)
        ensures
            match r {
                Some(x) => self == Value::S16(x),
                None => !(self is S16),
            },
    {
        match self {
            Value::S16(x) => Some(x),
            _ => None,
        }
    }

    /// A reference to the content of a `S16` value.
    pub fn try_as_s16_ref(&self) -> (r: Option<&i16>)
        ensures
            match r {
                Some(x) => *self == Value::S16(*x),
                None => !(*self is S16),
            },
    {
        match self {
            Value::S16(x) => Some(x),
            _ => None,
        }
    }

    /// The content of a `S32` value.
    pub fn try_as_s32(self) -> (r: Option<i32>)
        ensures
            match r {
                Some(x) => self == Value::S32(x),
                None => !(self is S32),
            },
    {
        match self {
            Value::S32(x) => Some(x),
            _ => None,
        }
    }

    /// A reference to the content of a `S32` value.
    pub fn try_as_s32_ref(&self) -> (r: Option<&i32>)
        ensures
            match r {
                Some(x) => *self == Value::S32(*x),
                None => !(*self is S32),
            },
    {
        match self {
            Value::S32(x) => Some(x),
            _ => None,
        }
    }

    /// The content of a `S64` value.
    pub fn try_as_s64(self) -> (r: Option<i64>)
        ensures
            match r {
                Some(x) => self == Value::S64(x),
                None => !(self is S64),
            },
    {
        match self {
            Value::S64(x) => Some(x),
            _ => None,
        }
    }

    /// A reference to the content of a `S64` value.
    pub fn try_as_s64_ref(&self) -> (r: Option<&i64>)
        ensures
            match r {
                Some(x) => *self == Value::S64(*x),
                None => !(*self is S64),
            },
    {
        match self {
            Value::S64(x) => Some(x),
            _ => None,
        }
    }

    /// The content of a `String` value.
    pub fn try_as_string(self) -> (r: Option<String>)
        ensures
            match r {
                Some(x) => self == Value::String(x),
                None => !(self is String),
            },
    {
        match self {
            Value::String(x) => Some(x),
            _ => None,
        }
    }

    /// A reference to the content of a `String` value.
    pub fn try_as_string_ref(&self) -> (r: Option<&String>)
        ensures
            match r {
                Some(x) => *self == Value::String(*x),
                None => !(*self is String),
            },
    {
        match self {
            Value::String(x) => Some(x),
            _ => None,
        }
    }

    /// The content of a `U8` value.
    pub fn try_as_u8(self) -> (r: Option<u8>)
        ensures
            match r {
                Some(x) => self == Value::U8(x),
                None => !(self is U8),
            },
    {
        match self {
            Value::U8(x) => Some(x),
            _ => None,
        }
    }

    /// A reference to the content of a `U8` value.
    pub fn try_as_u8_ref(&self) -> (r: Option<&u8>)
        ensures
            match r {
                Some(x) => *self == Value::U8(*x),
                None => !(*self is U8),
            },
    {
        match self {
            Value::U8(x) => Some(x),
            _ => None,
        }
    }

    /// The content of a `U16` value.
    pub fn try_as_u16(self) -> (r: Option<u16>)
        ensures
            match r {
                Some(x) => self == Value::U16(x),
                None => !(self is U16),
            },
    {
        match self {
            Value::U16(x) => Some(x),
            _ => None,
        }
    }

    /// A reference to the content of a `U16` value.
    pub fn try_as_u16_ref(&self) -> (r: Option<&u16>)
        ensures
            match r {
                Some(x) => *self == Value::U16(*x),
                None => !(*self is U16),
            },
    {
        match self {
            Value::U16(x) => Some(x),
            _ => None,
        }
    }

    /// The content of a `U32` value.
    pub fn try_as_u32(self) -> (r: Option<u32>)
        ensures
            match r {
                Some(x) => self == Value::U32(x),
                None => !(self is U32),
            },
    {
        match self {
            Value::U32(x) => Some(x),
            _ => None,
        }
    }

    /// A reference to the content of a `U32` value.
    pub fn try_as_u32_ref(&self) -> (r: Option<&u32>)
        ensures
            match r {
                Some(x) => *self == Value::U32(*x),
                None => !(*self is U32),
            },
    {
        match self {
            Value::U32(x) => Some(x),
            _ => None,
        }
    }

    /// The content of a `U64` value.
    pub fn try_as_u64(self) -> (r: Option<u64>)
        ensures
            match r {
                Some(x) => self == Value::U64(x),
                None => !(self is U64),
            },
    {
        match self {
            Value::U64(x) => Some(x),
            _ => None,
        }
    }

    /// A reference to the content of a `U64` value.
    pub fn try_as_u64_ref(&self) -> (r: Option<&u64>)
        ensures
            match r {
                Some(x) => *self == Value::U64(*x),
                None => !(*self is U64),
            },
    {
        match self {
            Value::U64(x) => Some(x),
            _ => None,
        }
    }

    /// The content of a `Vec3` value.
    pub fn try_as_vec3(self) -> (r: Option<Vec3>)
        ensures
            match r {
                Some(x) => self == Value::Vec3(x),
                None => !(self is Vec3),
            },
    {
        match self {
            Value::Vec3(x) => Some(x),
            _ => None,
        }
    }

    /// A reference to the content of a `Vec3` value.
    pub fn try_as_vec3_ref(&self) -> (r: Option<&Vec3>)
        ensures
            match r {
                Some(x) => *self == Value::Vec3(*x),
                None => !(*self is Vec3),
            },
    {
        match self {
            Value::Vec3(x) => Some(x),
            _ => None,
        }
    }

    /// The content of a `Mat4` value.
    pub fn try_as_mat4(self) -> (r: Option<Mat4>)
        ensures
            match r {
                Some(x) => self == Value::Mat4(x),
                None => !(self is Mat4),
            },
    {
        match self {
            Value::Mat4(x) => Some(x),
            _ => None,
        }
    }

    /// A reference to the content of a `Mat4` value.
    pub fn try_as_mat4_ref(&self) -> (r: Option<&Mat4>)
        ensures
            match r {
                Some(x) => *self == Value::Mat4(*x),
                None => !(*self is Mat4),
            },
    {
        match self {
            Value::Mat4(x) => Some(x),
            _ => None,
        }
    }

    /// The content of a `Data` value.
    pub fn try_as_data(self) -> (r: Option<u8>)
        ensures
            match r {
                Some(x) => self == Value::Data(x),
                None => !(self is Data),
            },
    {
        match self {
            Value::Data(x) => Some(x),
            _ => None,
        }
    }

    /// A reference to the content of a `Data` value.
    pub fn try_as_data_ref(&self) -> (r: Option<&u8>)
        ensures
            match r {
                Some(x) => *self == Value::Data(*x),
                None => !(*self is Data),
            },
    {
        match self {
            Value::Data(x) => Some(x),
            _ => None,
        }
    }
}

/// A copy of a value; objects stay shared.
pub fn clone_value(v: &Value) -> (r: Value)
    ensures
        r@ == v@,
    decreases v,
{
    match v {
        Value::Array(vs) => Value::Array(Values(clone_values(&vs.0))),
        Value::Boolean(x) => Value::Boolean(*x),
        Value::F16(x) => Value::F16(*x),
        Value::F32(x) => Value::F32(*x),
        Value::F64(x) => Value::F64(*x),
        Value::Guid(g) => Value::Guid(*g),
        Value::Object(o) => Value::Object(o.clone()),
        Value::S8(x) => Value::S8(*x),
        Value::S16(x) => Value::S16(*x),
        Value::S32(x) => Value::S32(*x),
        Value::S64(x) => Value::S64(*x),
        Value::String(s) => Value::String(s.clone()),
        Value::U8(x) => Value::U8(*x),
        Value::U16(x) => Value::U16(*x),
        Value::U32(x) => Value::U32(*x),
        Value::U64(x) => Value::U64(*x),
        Value::Vec3(x) => Value::Vec3(*x),
        Value::Mat4(m) => Value::Mat4(*m),
        Value::Data(x) => Value::Data(*x),
    }
}

/// Copies of the values of `s`, in order.
pub fn clone_values(s: &Vec<Value>) -> (r: Vec<Value>)
    ensures
        values_view(r@) == values_view(s@),
    decreases s,
{
    let mut r: Vec<Value> = Vec::new();
    let mut i: usize = 0;
    assert(values_view(r@) =~= values_view(s@.take(0)));
    while i < s.len()
        invariant
            i <= s@.len(),
            values_view(r@) == values_view(s@.take(i as int)),
        decreases s@.len() - i,
    {
        assert(decreases_to!(s => s@[i as int]));
        let c = clone_value(&s[i]);
        proof {
            lemma_values_view_push(r@, c);
            lemma_values_view_push(s@.take(i as int), s@[i as int]);
            assert(s@.take(i + 1) =~= s@.take(i as int).push(s@[i as int]));
        }
        r.push(c);
        i = i + 1;
    }
    assert(s@.take(s@.len() as int) =~= s@);
    r
}

/// Copies of the fields of `s`, in order.
pub fn clone_fields(s: &Vec<Field>) -> (r: Vec<Field>)
    ensures
        fields_view(r@) == fields_view(s@),
{
    let mut r: Vec<Field> = Vec::new();
    let mut i: usize = 0;
    assert(fields_view(r@) =~= fields_view(s@.take(0)));
    while i < s.len()
        invariant
            i <= s@.len(),
            fields_view(r@) == fields_view(s@.take(i as int)),
        decreases s@.len() - i,
    {
        let f = Field { name: s[i].name.clone(), value: clone_value(&s[i].value) };
        proof {
            lemma_fields_view_push(r@, f);
            lemma_fields_view_push(s@.take(i as int), s@[i as int]);
            assert(s@.take(i + 1) =~= s@.take(i as int).push(s@[i as int]));
        }
        r.push(f);
        i = i + 1;
    }
    assert(s@.take(s@.len() as int) =~= s@);
    r
}

impl Clone for Value {
    fn clone(&self) -> (r: Value)
        ensures
            r@ == self@,
    {
        clone_value(self)
    }
}

impl Clone for Values {
    fn clone(&self) -> (r: Values)
        ensures
            r@ == self@,
    {
        Values(clone_values(&self.0))
    }
}

impl Clone for Field {
    fn clone(&self) -> (r: Field)
        ensures
            r@ == self@,
    {
        Field { name: self.name.clone(), value: clone_value(&self.value) }
    }
}

impl Clone for Object {
    fn clone(&self) -> (r: Object)
        ensures
            r@ == self@,
    {
        Object { name: self.name.clone(), fields: clone_fields(&self.fields) }
    }
}

impl View for Value {
    type V = ValueV;

    open spec fn view(&self) -> ValueV {
        value_view(*self)
    }
}

impl View for Object {
    type V = ObjectV;

    open spec fn view(&self) -> ObjectV {
        object_view(*self)
    }
}

impl View for Field {
    type V = FieldV;

    open spec fn view(&self) -> FieldV {
        FieldV { name: self.name@, value: self.value@ }
    }
}


impl View for Objects {
    type V = Seq<ObjectV>;

    closed spec fn view(&self) -> Seq<ObjectV> {
        self.0@.map_values(|o: Rc<Object>| object_view(*o))
    }
}

impl View for Values {
    type V = Seq<ValueV>;

    open spec fn view(&self) -> Seq<ValueV> {
        values_view(self.0@)
    }
}

impl Default for Objects {
    fn default() -> (r: Objects)
        ensures
            r@ == Seq::<ObjectV>::empty(),
    {
        let r = Objects(Vec::new());
        assert(r@ =~= Seq::<ObjectV>::empty());
        r
    }
}

impl Objects {
    /// The shared objects held, in order.
    pub closed spec fn items(&self) -> Seq<Rc<Object>> {
        self.0@
    }

    /// Appends an object.
    pub fn push(&mut self, object: Rc<Object>)
        ensures
            final(self)@ == old(self)@.push(object_view(*object)),
    {
        self.0.push(object);
        assert(self@ =~= old(self)@.push(object_view(*object)));
    }
}

impl std::ops::Deref for Objects {
    type Target = Vec<Rc<Object>>;

    fn deref(&self) -> (r: &Vec<Rc<Object>>)
        ensures
            r@ == self.items(),
            r@.map_values(|o: Rc<Object>| object_view(*o)) == self@,
    {
        &self.0
    }
}

impl std::ops::Deref for Values {
    type Target = Vec<Value>;

    fn deref(&self) -> (r: &Vec<Value>)
        ensures
            *r == self.0,
    {
        &self.0
    }
}

/// The data content of an RSZ document.
#[derive(Debug)]
pub struct Content {
    /// A collection of all object instances contained in the document.
    pub instances: Objects,
    /// Interned strings from the RSZ document, by the instance slot they occupy.
    pub interned_strings: HashMap<u32, String>,
    /// A collection of root objects contained in the document.
    pub root_objects: Objects,
}

/// The mathematical model of a [`Content`].
pub struct ContentV {
    pub instances: Seq<ObjectV>,
    pub interned: Map<u32, Seq<char>>,
    pub roots: Seq<ObjectV>,
}

impl View for Content {
    type V = ContentV;

    open spec fn view(&self) -> ContentV {
        ContentV {
            instances: self.instances@,
            interned: self.interned_strings@.map_values(|s: String| s@),
            roots: self.root_objects@,
        }
    }
}

impl Default for Content {
    fn default() -> (r: Content)
        ensures
            r@ == (ContentV {
                instances: Seq::empty(),
                interned: Map::empty(),
                roots: Seq::empty(),
            }),
    {
        let r = Content {
            instances: Objects(Vec::new()),
            interned_strings: HashMap::new(),
            root_objects: Objects(Vec::new()),
        };
        assert(r@.instances =~= Seq::empty());
        assert(r@.interned =~= Map::empty());
        assert(r@.roots =~= Seq::empty());
        r
    }
}

/// The 16 bytes of a UUID in big-endian order, from its encoding with the first three groups
/// little-endian.
pub open spec fn spec_guid_from_le(b: Seq<u8>) -> Seq<u8> {
    seq![
        b[3], b[2], b[1], b[0], b[5], b[4], b[7], b[6],
        b[8], b[9], b[10], b[11], b[12], b[13], b[14], b[15],
    ]
}

/// `uuid::Uuid::from_slice_le`, taken back to its bytes with `Uuid::into_bytes`. The uuid crate
/// returns a UUID exactly when the slice holds 16 bytes, and builds it by reversing the byte
/// order of the first three groups (4, 2 and 2 bytes) and keeping the last 8 bytes.
#[verifier::external_body]
fn guid_from_slice_le(b: &[u8]) -> (r: Option<[u8; 16]>)
    ensures
        r is Some <==> b@.len() == 16,
        r matches Some(g) ==> g@ == spec_guid_from_le(b@),
{
    match uuid::Uuid::from_slice_le(b) {
        Ok(u) => Some(u.into_bytes()),
        Err(_) => None,
    }
}

/// The string that UTF-16 code units decode to, with U+FFFD in place of each unit that is an
/// unpaired surrogate: a unit outside the surrogate range is the character of that code point,
/// a high surrogate followed by a low surrogate is the supplementary character they encode, and
/// any other surrogate is a replacement character.
pub open spec fn spec_utf16_lossy(units: Seq<u16>) -> Seq<char>
    decreases units.len(),
{
    if units.len() == 0 {
        Seq::empty()
    } else {
        let u = units[0];
        if u < 0xD800 || u > 0xDFFF {
            seq![u as char].add(spec_utf16_lossy(units.skip(1)))
        } else if u <= 0xDBFF && units.len() > 1 && 0xDC00 <= units[1] <= 0xDFFF {
            seq![(0x10000 + (u - 0xD800) * 0x400 + (units[1] - 0xDC00)) as char].add(
                spec_utf16_lossy(units.skip(2)),
            )
        } else {
            seq!['\u{FFFD}'].add(spec_utf16_lossy(units.skip(1)))
        }
    }
}

/// `String::from_utf16_lossy`: decodes UTF-16, putting U+FFFD in place of each unpaired
/// surrogate, as `char::decode_utf16` reads the units.
#[verifier::external_body]
fn string_from_utf16_lossy(units: &[u16]) -> (r: String)
    ensures
        r@ == spec_utf16_lossy(units@),
{
    String::from_utf16_lossy(units)
}

/// The UTF-16 code units read from position `p` of `d` up to (not including) the first zero
/// unit, which is consumed.
pub open spec fn spec_utf16_units(d: Seq<u8>, p: int) -> Outcome<Seq<u16>>
    decreases d.len() - p,
{
    if p > d.len() {
        Outcome::Panic
    } else if d.len() - p < 2 {
        Outcome::Fail(Error::InvalidSection { section: "u16", length: 2 }, p)
    } else {
        let unit = spec_u16_from_le_bytes(d.subrange(p, p + 2));
        if unit == 0 {
            Outcome::Done(Seq::empty(), p + 2)
        } else {
            match spec_utf16_units(d, p + 2) {
                Outcome::Done(rest, q) => Outcome::Done(seq![unit].add(rest), q),
                Outcome::Fail(e, q) => Outcome::Fail(e, q),
                Outcome::Panic => Outcome::Panic,
            }
        }
    }
}

/// A string read from position `p` of `d`, terminated by a zero code unit.
pub open spec fn spec_read_string(d: Seq<u8>, p: int) -> Outcome<Seq<char>> {
    map_done(spec_utf16_units(d, p), |u: Seq<u16>| spec_utf16_lossy(u))
}

/// A string read from position `p` of `d`, after a signed 32-bit length that does not bound it.
pub open spec fn spec_read_bound_string(d: Seq<u8>, p: int) -> Outcome<Seq<char>> {
    match spec_read_u32(d, p, "i32") {
        Outcome::Done(_, q) => spec_read_string(d, q),
        Outcome::Fail(e, q) => Outcome::Fail(e, q),
        Outcome::Panic => Outcome::Panic,
    }
}

/// Code units before a zero unit, prepended to an outcome.
pub open spec fn prepend_units(acc: Seq<u16>, o: Outcome<Seq<u16>>) -> Outcome<Seq<u16>> {
    match o {
        Outcome::Done(rest, q) => Outcome::Done(acc.add(rest), q),
        Outcome::Fail(e, q) => Outcome::Fail(e, q),
        Outcome::Panic => Outcome::Panic,
    }
}

/// Reads a string from the stream, terminating on the first `null` code unit.
pub fn read_string(data: &mut SliceStream) -> (r: Result<String, Failure>)
    ensures
        final(data)@.data == old(data)@.data,
        final(data)@.global_offset == old(data)@.global_offset,
        agrees(spec_read_string(old(data)@.data, old(data)@.position), r, final(data)@.position),
{
    let ghost d = data@.data;
    let ghost p0 = data@.position;
    if data.eof() {
        return Err(Failure::Panic);
    }
    let mut units: Vec<u16> = Vec::new();
    proof {
        match spec_utf16_units(d, p0) {
            Outcome::Done(rest, q) => {
                assert(units@.add(rest) =~= rest);
            },
            _ => {},
        }
    }
    loop
        invariant
            d == old(data)@.data,
            p0 == old(data)@.position,
            data@.data == d,
            data@.global_offset == old(data)@.global_offset,
            data@.position <= d.len(),
            spec_utf16_units(d, p0) == prepend_units(units@, spec_utf16_units(d, data@.position)),
        decreases d.len() - data@.position,
    {
        let ghost p = data@.position;
        let unit = match data.next_u16("u16") {
            Ok(u) => u,
            Err(e) => {
                assert(units@.add(Seq::empty()) =~= units@);
                return Err(e);
            },
        };
        if unit == 0 {
            assert(units@.add(Seq::empty()) =~= units@);
            let s = string_from_utf16_lossy(units.as_slice());
            return Ok(s);
        }
        proof {
            match spec_utf16_units(d, p + 2) {
                Outcome::Done(rest, q) => {
                    assert(units@.push(unit).add(rest) =~= units@.add(seq![unit].add(rest)));
                },
                _ => {},
            }
        }
        units.push(unit);
    }
}

/// Reads a signed 32-bit length followed by a character sequence from the stream. A `null`
/// code unit terminates the string, even if `len` units have not been read.
pub fn read_bound_string(data: &mut SliceStream) -> (r: Result<String, Failure>)
    ensures
        final(data)@.data == old(data)@.data,
        final(data)@.global_offset == old(data)@.global_offset,
        agrees(spec_read_bound_string(old(data)@.data, old(data)@.position), r, final(data)@.position),
{
    match data.next_u32("i32") {
        Ok(_) => read_string(data),
        Err(e) => Err(e),
    }
}


/// The value of the field described by `f`, read at position `p` of `d`, where `part` is the
/// content parsed so far.
pub open spec fn spec_parse_value(f: FieldLayout, d: Seq<u8>, p: int, part: ContentV) -> Outcome<ValueV> {
    match f.kind {
        FieldKind::Boolean => map_done(spec_read_u8(d, p, "u8"), |x: u8| ValueV::Boolean(x != 0)),
        FieldKind::F16 => map_done(spec_read_u16(d, p, "half::binary16::f16"), |x: u16| ValueV::F16(x)),
        FieldKind::F32 => map_done(spec_read_u32(d, p, "f32"), |x: u32| ValueV::F32(x)),
        FieldKind::F64 => map_done(spec_read_u64(d, p, "f64"), |x: u64| ValueV::F64(x)),
        FieldKind::Guid => map_done(
            spec_take(d, p, 16, "[u8; 16]"),
            |s: Seq<u8>| ValueV::Guid(spec_guid_from_le(s)),
        ),
        FieldKind::InstanceRef => match spec_read_u32(d, p, "i32") {
            Outcome::Done(t, q) => {
                let i = abs_index(t as i32);
                if i < part.instances.len() {
                    Outcome::Done(ValueV::Object(part.instances[i]), q)
                } else {
                    Outcome::Fail(Error::ObjectNotFound(i as usize), q)
                }
            },
            Outcome::Fail(e, q) => Outcome::Fail(e, q),
            Outcome::Panic => Outcome::Panic,
        },
        FieldKind::S8 => map_done(spec_read_u8(d, p, "i8"), |x: u8| ValueV::S8(x as i8)),
        FieldKind::S16 => map_done(spec_read_u16(d, p, "i16"), |x: u16| ValueV::S16(x as i16)),
        FieldKind::S32 => map_done(spec_read_u32(d, p, "i32"), |x: u32| ValueV::S32(x as i32)),
        FieldKind::S64 => map_done(spec_read_u64(d, p, "i64"), |x: u64| ValueV::S64(x as i64)),
        FieldKind::String => map_done(spec_read_bound_string(d, p), |s: Seq<char>| ValueV::String(s)),
        FieldKind::U8 => map_done(spec_read_u8(d, p, "u8"), |x: u8| ValueV::U8(x)),
        FieldKind::U16 => map_done(spec_read_u16(d, p, "u16"), |x: u16| ValueV::U16(x)),
        FieldKind::U32 => map_done(spec_read_u32(d, p, "u32"), |x: u32| ValueV::U32(x)),
        FieldKind::U64 => map_done(spec_read_u64(d, p, "u64"), |x: u64| ValueV::U64(x)),
        FieldKind::Data => map_done(spec_read_u8(d, p, "u8"), |x: u8| ValueV::Data(x)),
        FieldKind::UserData => match spec_read_u32(d, p, "u32") {
            Outcome::Done(i, q) => {
                if part.interned.contains_key(i) {
                    Outcome::Done(ValueV::String(part.interned[i]), q)
                } else {
                    Outcome::Panic
                }
            },
            Outcome::Fail(e, q) => Outcome::Fail(e, q),
            Outcome::Panic => Outcome::Panic,
        },
        other => Outcome::Fail(Error::UnimplementedFieldType(other), p),
    }
}

impl<'a> FieldLayout<'a> {
    /// Parses the value of the field described by this layout at the current position of the
    /// stream, without any alignment. The stream is advanced by the width of the value.
    pub fn read_value(&self, data: &mut SliceStream, partial_content: &Content) -> (r: Result<Value, Failure>)
        ensures
            final(data)@.data == old(data)@.data,
            final(data)@.global_offset == old(data)@.global_offset,
            agrees(
                spec_parse_value(*self, old(data)@.data, old(data)@.position, partial_content@),
                r,
                final(data)@.position,
            ),
    {
        match self.kind {
            FieldKind::Boolean => match data.next_u8("u8") {
                Ok(x) => Ok(Value::Boolean(x != 0)),
                Err(e) => Err(e),
            },
            FieldKind::F16 => match data.next_u16("half::binary16::f16") {
                Ok(x) => Ok(Value::F16(x)),
                Err(e) => Err(e),
            },
            FieldKind::F32 => match data.next_u32("f32") {
                Ok(x) => Ok(Value::F32(x)),
                Err(e) => Err(e),
            },
            FieldKind::F64 => match data.next_u64("f64") {
                Ok(x) => Ok(Value::F64(x)),
                Err(e) => Err(e),
            },
            FieldKind::Guid => match data.take(16, "[u8; 16]") {
                Ok(b) => match guid_from_slice_le(b) {
                    Some(g) => Ok(Value::Guid(g)),
                    None => vstd::pervasive::unreached(),
                },
                Err(e) => Err(e),
            },
            FieldKind::InstanceRef => match data.next_u32("i32") {
                Ok(t) => {
                    let i = unsigned_abs(t as i32);
                    if i < partial_content.instances.0.len() {
                        let target = &partial_content.instances.0[i];
                        Ok(Value::Object(target.clone()))
                    } else {
                        Err(Failure::Error(Error::ObjectNotFound(i)))
                    }
                },
                Err(e) => Err(e),
            },
            FieldKind::S8 => match data.next_u8("i8") {
                Ok(x) => Ok(Value::S8(x as i8)),
                Err(e) => Err(e),
            },
            FieldKind::S16 => match data.next_u16("i16") {
                Ok(x) => Ok(Value::S16(x as i16)),
                Err(e) => Err(e),
            },
            FieldKind::S32 => match data.next_u32("i32") {
                Ok(x) => Ok(Value::S32(x as i32)),
                Err(e) => Err(e),
            },
            FieldKind::S64 => match data.next_u64("i64") {
                Ok(x) => Ok(Value::S64(x as i64)),
                Err(e) => Err(e),
            },
            FieldKind::String => match read_bound_string(data) {
                Ok(s) => Ok(Value::String(s)),
                Err(e) => Err(e),
            },
            FieldKind::U8 => match data.next_u8("u8") {
                Ok(x) => Ok(Value::U8(x)),
                Err(e) => Err(e),
            },
            FieldKind::U16 => match data.next_u16("u16") {
                Ok(x) => Ok(Value::U16(x)),
                Err(e) => Err(e),
            },
            FieldKind::U32 => match data.next_u32("u32") {
                Ok(x) => Ok(Value::U32(x)),
                Err(e) => Err(e),
            },
            FieldKind::U64 => match data.next_u64("u64") {
                Ok(x) => Ok(Value::U64(x)),
                Err(e) => Err(e),
            },
            FieldKind::Data => match data.next_u8("u8") {
                Ok(x) => Ok(Value::Data(x)),
                Err(e) => Err(e),
            },
            FieldKind::UserData => match data.next_u32("u32") {
                Ok(i) => match partial_content.interned_strings.get(&i) {
                    Some(s) => Ok(Value::String(s.clone())),
                    None => Err(Failure::Panic),
                },
                Err(e) => Err(e),
            },
            other => Err(Failure::Error(Error::UnimplementedFieldType(other))),
        }
    }
}


/// One element of an array field: the element read is appended to the elements so far.
pub open spec fn values_step(f: FieldLayout, d: Seq<u8>, part: ContentV) -> spec_fn(Seq<ValueV>, int) -> Outcome<Seq<ValueV>> {
    |acc: Seq<ValueV>, q: int| map_done(spec_parse_value(f, d, q, part), |v: ValueV| acc.push(v))
}

/// The value of the field described by `f`, at position `p` of `d`, with its alignment and,
/// for an array, its element count.
pub open spec fn spec_field_value(f: FieldLayout, d: Seq<u8>, p: int, part: ContentV) -> Outcome<ValueV> {
    if f.is_array {
        match spec_align(d, p, 4) {
            Outcome::Done(_, p1) => match spec_read_u32(d, p1, "i32") {
                Outcome::Done(n, p2) => if (n as i32) > 0 {
                    match spec_align(d, p2, f.align as int) {
                        Outcome::Done(_, p3) => map_done(
                            repeat(values_step(f, d, part), Seq::empty(), p3, count(n as i32)),
                            |vs: Seq<ValueV>| ValueV::Array(vs),
                        ),
                        Outcome::Fail(e, q) => Outcome::Fail(e, q),
                        Outcome::Panic => Outcome::Panic,
                    }
                } else {
                    Outcome::Done(ValueV::Array(Seq::empty()), p2)
                },
                Outcome::Fail(e, q) => Outcome::Fail(e, q),
                Outcome::Panic => Outcome::Panic,
            },
            Outcome::Fail(e, q) => Outcome::Fail(e, q),
            Outcome::Panic => Outcome::Panic,
        }
    } else {
        match spec_align(d, p, f.align as int) {
            Outcome::Done(_, p1) => spec_parse_value(f, d, p1, part),
            Outcome::Fail(e, q) => Outcome::Fail(e, q),
            Outcome::Panic => Outcome::Panic,
        }
    }
}

/// The field described by `f`, parsed at position `p` of `d`.
pub open spec fn spec_parse_field(f: FieldLayout, d: Seq<u8>, p: int, part: ContentV) -> Outcome<FieldV> {
    map_done(spec_field_value(f, d, p, part), |v: ValueV| FieldV { name: f.name@, value: v })
}

pub proof fn lemma_values_view_push(s: Seq<Value>, v: Value)
    ensures
        values_view(s.push(v)) == values_view(s).push(value_view(v)),
{
    assert(s.push(v).drop_last() =~= s);
}

pub proof fn lemma_fields_view_push(s: Seq<Field>, f: Field)
    ensures
        fields_view(s.push(f)) == fields_view(s).push(FieldV { name: f.name@, value: value_view(f.value) }),
{
    assert(s.push(f).drop_last() =~= s);
}

impl<'a> FieldLayout<'a> {
    /// Reads the elements of an array field, once its count is known and the stream aligned.
    fn read_elements(&self, data: &mut SliceStream, partial_content: &Content, n: i32) -> (r: Result<Vec<Value>, Failure>)
        ensures
            final(data)@.data == old(data)@.data,
            final(data)@.global_offset == old(data)@.global_offset,
            match r {
                Ok(vs) => repeat(values_step(*self, old(data)@.data, partial_content@), Seq::empty(), old(data)@.position, count(n))
                    == Outcome::Done(values_view(vs@), final(data)@.position as int),
                Err(Failure::Error(e)) => repeat(values_step(*self, old(data)@.data, partial_content@), Seq::empty(), old(data)@.position, count(n))
                    == Outcome::Fail::<Seq<ValueV>>(e, final(data)@.position as int),
                Err(Failure::Panic) => repeat(values_step(*self, old(data)@.data, partial_content@), Seq::empty(), old(data)@.position, count(n)) is Panic,
            },
    {
        let ghost d = data@.data;
        let ghost p0 = data@.position;
        let ghost part = partial_content@;
        let ghost step = values_step(*self, d, part);
        let mut elements: Vec<Value> = Vec::new();
        let mut i: i32 = 0;
        assert(values_view(elements@) =~= Seq::empty());
        while i < n
            invariant
                d == old(data)@.data,
                p0 == old(data)@.position,
                part == partial_content@,
                step == values_step(*self, d, part),
                data@.data == d,
                data@.global_offset == old(data)@.global_offset,
                0 <= i,
                i < n ==> i < count(n),
                i >= n ==> i as nat == count(n),
                repeat(step, Seq::empty(), p0, i as nat) == Outcome::Done(values_view(elements@), data@.position as int),
            decreases n - i,
        {
            let ghost acc = values_view(elements@);
            let ghost q = data@.position;
            match self.read_value(data, partial_content) {
                Ok(v) => {
                    proof {
                        lemma_values_view_push(elements@, v);
                    }
                    elements.push(v);
                },
                Err(e) => {
                    proof {
                        lemma_repeat_stops(step, Seq::empty(), p0, (i + 1) as nat, count(n));
                    }
                    return Err(e);
                },
            }
            i = i + 1;
        }
        Ok(elements)
    }

    /// Parses the field described by this layout, with its alignment and, for an array, its
    /// element count.
    pub(crate) fn read_field(&self, data: &mut SliceStream, partial_content: &Content) -> (r: Result<Field, Failure>)
        ensures
            final(data)@.data == old(data)@.data,
            final(data)@.global_offset == old(data)@.global_offset,
            agrees(
                spec_parse_field(*self, old(data)@.data, old(data)@.position, partial_content@),
                r,
                final(data)@.position,
            ),
    {
        let value = if self.is_array {
            // Arrays always align to 4.
            match data.align(4) {
                Ok(()) => {},
                Err(e) => return Err(e),
            }
            let n = match data.next_u32("i32") {
                Ok(n) => n as i32,
                Err(e) => return Err(e),
            };
            if n > 0 {
                // Only align on the inner type's alignment if there are elements.
                match data.align(self.align) {
                    Ok(()) => {},
                    Err(e) => return Err(e),
                }
                match self.read_elements(data, partial_content, n) {
                    Ok(elements) => Value::Array(Values(elements)),
                    Err(e) => return Err(e),
                }
            } else {
                let elements: Vec<Value> = Vec::new();
                assert(values_view(elements@) =~= Seq::empty());
                Value::Array(Values(elements))
            }
        } else {
            match data.align(self.align) {
                Ok(()) => {},
                Err(e) => return Err(e),
            }
            match self.read_value(data, partial_content) {
                Ok(v) => v,
                Err(e) => return Err(e),
            }
        };
        Ok(Field { name: self.name.to_owned(), value })
    }
}


/// Parsing a field described by a layout, at the current position of a stream.
pub trait ParseField {
    /// The field parsed at position `p` of `d`, with `part` the content parsed so far.
    spec fn field_outcome(&self, d: Seq<u8>, p: int, part: ContentV) -> Outcome<FieldV>;

    /// The field's value alone, read at position `p` of `d`.
    spec fn value_outcome(&self, d: Seq<u8>, p: int, part: ContentV) -> Outcome<ValueV>;

    /// The main entrypoint for parsing a field: handles arrays and alignment, and advances the
    /// stream by the width of the field.
    fn parse(&self, data: &mut SliceStream, partial_content: &Content) -> (r: Result<Field, Error>)
        requires
            !(self.field_outcome(old(data)@.data, old(data)@.position, partial_content@) is Panic),
        ensures
            final(data)@.data == old(data)@.data,
            final(data)@.global_offset == old(data)@.global_offset,
            agrees(
                self.field_outcome(old(data)@.data, old(data)@.position, partial_content@),
                lift(r),
                final(data)@.position,
            ),
    ;

    /// Parses the field's underlying value only, with no alignment and no array handling.
    fn parse_value(&self, data: &mut SliceStream, partial_content: &Content) -> (r: Result<Value, Error>)
        requires
            !(self.value_outcome(old(data)@.data, old(data)@.position, partial_content@) is Panic),
        ensures
            final(data)@.data == old(data)@.data,
            final(data)@.global_offset == old(data)@.global_offset,
            agrees(
                self.value_outcome(old(data)@.data, old(data)@.position, partial_content@),
                lift(r),
                final(data)@.position,
            ),
    ;
}

impl<'a> ParseField for FieldLayout<'a> {
    /// The stream is aligned on the field's alignment (for an array, on 4 before its signed
    /// 32-bit element count, then on the field's alignment if the count is positive).
    open spec fn field_outcome(&self, d: Seq<u8>, p: int, part: ContentV) -> Outcome<FieldV> {
        spec_parse_field(*self, d, p, part)
    }

    open spec fn value_outcome(&self, d: Seq<u8>, p: int, part: ContentV) -> Outcome<ValueV> {
        spec_parse_value(*self, d, p, part)
    }

    fn parse(&self, data: &mut SliceStream, partial_content: &Content) -> (r: Result<Field, Error>) {
        lower(self.read_field(data, partial_content))
    }

    fn parse_value(&self, data: &mut SliceStream, partial_content: &Content) -> (r: Result<Value, Error>) {
        lower(self.read_value(data, partial_content))
    }
}

/// The RSZ header from a `Content` section.
#[derive(Debug, Clone, Copy, PartialEq, Eq)]
pub struct Header {
    /// The magic 4-byte sequence that identifies the section.
    pub magic: Magic,
    /// The version number.
    pub version: u32,
    /// The number of roots in the object graph.
    pub object_count: i32,
    /// The number of instances defined in the entire object graph.
    pub instance_count: i32,
    /// The number of interned strings defined in the section.
    pub intern_count: i32,
    /// An unknown 4-byte sequence. Doesn't appear to be needed.
    pub _reserved: u32,
    /// The position in the section where instances begin.
    pub instance_offset: u64,
    /// The position in the section where field data begins.
    pub data_offset: u64,
    /// The position in the section where interned strings begin.
    pub intern_offset: u64,
}

impl Header {
    /// The header encoded by 48 little-endian bytes.
    pub open spec fn spec_from_le(s: Seq<u8>) -> Header {
        Header {
            magic: spec_u32_from_le_bytes(s.subrange(0, 4)),
            version: spec_u32_from_le_bytes(s.subrange(4, 8)),
            object_count: spec_u32_from_le_bytes(s.subrange(8, 12)) as i32,
            instance_count: spec_u32_from_le_bytes(s.subrange(12, 16)) as i32,
            intern_count: spec_u32_from_le_bytes(s.subrange(16, 20)) as i32,
            _reserved: spec_u32_from_le_bytes(s.subrange(20, 24)),
            instance_offset: spec_u64_from_le_bytes(s.subrange(24, 32)),
            data_offset: spec_u64_from_le_bytes(s.subrange(32, 40)),
            intern_offset: spec_u64_from_le_bytes(s.subrange(40, 48)),
        }
    }

    /// Decodes a header from 48 little-endian bytes.
    pub fn from_le_bytes(b: &[u8]) -> (r: Header)
        requires
            b@.len() == 48,
        ensures
            r == Header::spec_from_le(b@),
    {
        Header {
            magic: u32_from_le_bytes(slice_subrange(b, 0, 4)),
            version: u32_from_le_bytes(slice_subrange(b, 4, 8)),
            object_count: u32_from_le_bytes(slice_subrange(b, 8, 12)) as i32,
            instance_count: u32_from_le_bytes(slice_subrange(b, 12, 16)) as i32,
            intern_count: u32_from_le_bytes(slice_subrange(b, 16, 20)) as i32,
            _reserved: u32_from_le_bytes(slice_subrange(b, 20, 24)),
            instance_offset: u64_from_le_bytes(slice_subrange(b, 24, 32)),
            data_offset: u64_from_le_bytes(slice_subrange(b, 32, 40)),
            intern_offset: u64_from_le_bytes(slice_subrange(b, 40, 48)),
        }
    }
}

/// A reference to a root object, by its index among the instances.
#[derive(Debug, Clone, Copy, PartialEq, Eq)]
pub struct ObjectReference {
    pub index: i32,
}

/// One root reference appended to the references read so far.
pub open spec fn roots_step(d: Seq<u8>) -> spec_fn(Seq<i32>, int) -> Outcome<Seq<i32>> {
    |acc: Seq<i32>, q: int|
        map_done(spec_read_u32(d, q, "rsz::rsz::content::ObjectReference"), |x: u32| acc.push(x as i32))
}

/// One interned string: its slot index and offset are read at position `q`, and the string at
/// that offset is recorded under the index. Reading goes on after the string.
pub open spec fn interned_step(d: Seq<u8>) -> spec_fn(Map<u32, Seq<char>>, int) -> Outcome<Map<u32, Seq<char>>> {
    |acc: Map<u32, Seq<char>>, q: int|
        then(
            spec_take(d, q, 16, "rsz::rsz::content::InternedString"),
            |b: Seq<u8>, q1: int|
                then(
                    spec_seek(d, spec_u64_from_le_bytes(b.subrange(8, 16)) as usize),
                    |u: (), q2: int|
                        map_done(
                            spec_read_string(d, q2),
                            |s: Seq<char>| acc.insert(spec_u32_from_le_bytes(b.subrange(0, 4)), s),
                        ),
                ),
        )
}

/// One instance record: its type ID (8 bytes) is appended; its CRC is skipped.
pub open spec fn instances_step(d: Seq<u8>) -> spec_fn(Seq<usize>, int) -> Outcome<Seq<usize>> {
    |acc: Seq<usize>, q: int|
        map_done(
            spec_take(d, q, 12, "rsz::rsz::content::Instance"),
            |b: Seq<u8>| acc.push(spec_u64_from_le_bytes(b.subrange(0, 8)) as usize),
        )
}

/// One field of an object appended to the fields parsed so far.
pub open spec fn fields_step(fs: Seq<FieldLayout>, d: Seq<u8>, part: ContentV) -> spec_fn(Seq<FieldV>, int) -> Outcome<Seq<FieldV>> {
    |acc: Seq<FieldV>, q: int|
        map_done(spec_parse_field(fs[acc.len() as int], d, q, part), |f: FieldV| acc.push(f))
}

/// The object that stands in an instance slot that holds an interned string.
pub open spec fn path_object(name: Seq<char>, path: Seq<char>) -> ObjectV {
    ObjectV { name, fields: seq![FieldV { name: "Path"@, value: ValueV::String(path) }] }
}

/// One object appended to the objects parsed so far. Its type is the type ID of its slot; a
/// slot that holds an interned string becomes an object with a single `Path` field, and any
/// other slot is parsed field by field with the objects before it as the partial content.
pub open spec fn objects_step<'a>(
    d: Seq<u8>,
    ids: Seq<usize>,
    interned: Map<u32, Seq<char>>,
    layouts: Map<TypeId, Layout<'a>>,
) -> spec_fn(Seq<ObjectV>, int) -> Outcome<Seq<ObjectV>> {
    |acc: Seq<ObjectV>, q: int|
        {
            let id = ids[acc.len() as int];
            if !layouts.contains_key(id) {
                Outcome::Fail(Error::UnknownLayoutId(id), q)
            } else if interned.contains_key(acc.len() as u32) {
                Outcome::Done(
                    acc.push(path_object(layouts[id].name@, interned[acc.len() as u32])),
                    q,
                )
            } else {
                map_done(
                    repeat(
                        fields_step(
                            layouts[id].fields@,
                            d,
                            ContentV { instances: acc, interned, roots: Seq::empty() },
                        ),
                        Seq::empty(),
                        q,
                        layouts[id].fields@.len(),
                    ),
                    |fs: Seq<FieldV>| acc.push(ObjectV { name: layouts[id].name@, fields: fs }),
                )
            }
        }
}

/// The root objects: each reference selects the instance at the absolute value of its index;
/// a reference past the instances aborts.
pub open spec fn spec_resolve_roots(
    roots: Seq<i32>,
    objs: Seq<ObjectV>,
    interned: Map<u32, Seq<char>>,
    p: int,
) -> Outcome<ContentV> {
    if forall|i: int| 0 <= i < roots.len() ==> abs_index(#[trigger] roots[i]) < objs.len() {
        Outcome::Done(
            ContentV {
                instances: objs,
                interned,
                roots: Seq::new(roots.len(), |i: int| objs[abs_index(roots[i])]),
            },
            p,
        )
    } else {
        Outcome::Panic
    }
}

/// The magic value of a content section.
pub open spec fn content_magic() -> u32 {
    0x5A5352
}

/// A content section parsed at position `p` of `d` with the layouts `layouts`.
pub open spec fn spec_content<'a>(d: Seq<u8>, p: int, layouts: Map<TypeId, Layout<'a>>) -> Outcome<ContentV> {
    then(
        spec_take(d, p, 48, "rsz::rsz::content::Header"),
        |b: Seq<u8>, p1: int|
            {
                let h = Header::spec_from_le(b);
                if h.magic != content_magic() {
                    Outcome::Fail(Error::MagicMismatch { expected: content_magic(), actual: h.magic }, p1)
                } else {
                    then(
                        repeat(roots_step(d), Seq::empty(), p1, count(h.object_count)),
                        |roots: Seq<i32>, p2: int|
                            then(
                                spec_seek(d, h.intern_offset as usize),
                                |u: (), p3: int|
                                    then(
                                        repeat(interned_step(d), Map::empty(), p3, count(h.intern_count)),
                                        |interned: Map<u32, Seq<char>>, p4: int|
                                            then(
                                                spec_seek(d, h.instance_offset as usize),
                                                |u: (), p5: int|
                                                    then(
                                                        repeat(instances_step(d), Seq::empty(), p5, count(h.instance_count)),
                                                        |ids: Seq<usize>, p6: int|
                                                            then(
                                                                spec_seek(d, h.data_offset as usize),
                                                                |u: (), p7: int|
                                                                    then(
                                                                        repeat(
                                                                            objects_step(d, ids, interned, layouts),
                                                                            Seq::empty(),
                                                                            p7,
                                                                            ids.len(),
                                                                        ),
                                                                        |objs: Seq<ObjectV>, p8: int|
                                                                            spec_resolve_roots(roots, objs, interned, p8),
                                                                    ),
                                                            ),
                                                    ),
                                            ),
                                    ),
                            ),
                    )
                }
            },
    )
}


/// The model of a map of interned strings.
pub open spec fn interned_view(m: HashMap<u32, String>) -> Map<u32, Seq<char>> {
    m@.map_values(|s: String| s@)
}

fn read_roots(data: &mut SliceStream, n: i32) -> (r: Result<Vec<i32>, Failure>)
    ensures
        final(data)@.data == old(data)@.data,
        final(data)@.global_offset == old(data)@.global_offset,
        agrees(repeat(roots_step(old(data)@.data), Seq::empty(), old(data)@.position, count(n)), r, final(data)@.position),
{
    let ghost d = data@.data;
    let ghost p0 = data@.position;
    let mut roots: Vec<i32> = Vec::new();
    let mut i: i32 = 0;
    assert(roots@ =~= Seq::<i32>::empty());
    while i < n
        invariant
            d == old(data)@.data,
            p0 == old(data)@.position,
            data@.data == d,
            data@.global_offset == old(data)@.global_offset,
            0 <= i,
            i < n ==> i < count(n),
            i >= n ==> i as nat == count(n),
            repeat(roots_step(d), Seq::empty(), p0, i as nat) == Outcome::Done(roots@, data@.position as int),
        decreases n - i,
    {
        match data.next_u32("rsz::rsz::content::ObjectReference") {
            Ok(x) => roots.push(x as i32),
            Err(e) => {
                proof {
                    lemma_repeat_stops(roots_step(d), Seq::empty(), p0, (i + 1) as nat, count(n));
                }
                return Err(e);
            },
        }
        i = i + 1;
    }
    Ok(roots)
}

fn read_interned(data: &mut SliceStream, n: i32) -> (r: Result<HashMap<u32, String>, Failure>)
    ensures
        final(data)@.data == old(data)@.data,
        final(data)@.global_offset == old(data)@.global_offset,
        agrees_by(
            repeat(interned_step(old(data)@.data), Map::empty(), old(data)@.position, count(n)),
            r,
            |m: HashMap<u32, String>| interned_view(m),
            final(data)@.position,
        ),
{
    let ghost d = data@.data;
    let ghost p0 = data@.position;
    let mut strings: HashMap<u32, String> = HashMap::new();
    let mut i: i32 = 0;
    assert(interned_view(strings) =~= Map::empty());
    while i < n
        invariant
            d == old(data)@.data,
            p0 == old(data)@.position,
            data@.data == d,
            data@.global_offset == old(data)@.global_offset,
            0 <= i,
            i < n ==> i < count(n),
            i >= n ==> i as nat == count(n),
            repeat(interned_step(d), Map::empty(), p0, i as nat)
                == Outcome::Done(interned_view(strings), data@.position as int),
        decreases n - i,
    {
        let ghost acc = interned_view(strings);
        let b = match data.take(16, "rsz::rsz::content::InternedString") {
            Ok(b) => b,
            Err(e) => {
                proof {
                    lemma_repeat_stops(interned_step(d), Map::empty(), p0, (i + 1) as nat, count(n));
                }
                return Err(e);
            },
        };
        let index = u32_from_le_bytes(slice_subrange(b, 0, 4));
        let offset = u64_from_le_bytes(slice_subrange(b, 8, 16));
        match data.seek(offset as usize) {
            Ok(()) => {},
            Err(e) => {
                proof {
                    lemma_repeat_stops(interned_step(d), Map::empty(), p0, (i + 1) as nat, count(n));
                }
                return Err(Failure::Error(e));
            },
        }
        let value = match read_string(data) {
            Ok(s) => s,
            Err(e) => {
                proof {
                    lemma_repeat_stops(interned_step(d), Map::empty(), p0, (i + 1) as nat, count(n));
                }
                return Err(e);
            },
        };
        let ghost sv = value@;
        strings.insert(index, value);
        assert(interned_view(strings) =~= acc.insert(index, sv));
        i = i + 1;
    }
    Ok(strings)
}

fn read_instances(data: &mut SliceStream, n: i32) -> (r: Result<Vec<usize>, Failure>)
    ensures
        final(data)@.data == old(data)@.data,
        final(data)@.global_offset == old(data)@.global_offset,
        agrees(repeat(instances_step(old(data)@.data), Seq::empty(), old(data)@.position, count(n)), r, final(data)@.position),
{
    let ghost d = data@.data;
    let ghost p0 = data@.position;
    let mut ids: Vec<usize> = Vec::new();
    let mut i: i32 = 0;
    assert(ids@ =~= Seq::<usize>::empty());
    while i < n
        invariant
            d == old(data)@.data,
            p0 == old(data)@.position,
            data@.data == d,
            data@.global_offset == old(data)@.global_offset,
            0 <= i,
            i < n ==> i < count(n),
            i >= n ==> i as nat == count(n),
            repeat(instances_step(d), Seq::empty(), p0, i as nat) == Outcome::Done(ids@, data@.position as int),
        decreases n - i,
    {
        match data.take(12, "rsz::rsz::content::Instance") {
            Ok(b) => {
                let id = u64_from_le_bytes(slice_subrange(b, 0, 8));
                ids.push(id as usize);
            },
            Err(e) => {
                proof {
                    lemma_repeat_stops(instances_step(d), Seq::empty(), p0, (i + 1) as nat, count(n));
                }
                return Err(e);
            },
        }
        i = i + 1;
    }
    Ok(ids)
}


/// Parses the fields of an object of layout `layout`, with `partial_content` as the content
/// parsed so far.
fn read_fields(layout: &Layout, data: &mut SliceStream, partial_content: &Content) -> (r: Result<Vec<Field>, Failure>)
    ensures
        final(data)@.data == old(data)@.data,
        final(data)@.global_offset == old(data)@.global_offset,
        agrees_by(
            repeat(
                fields_step(layout.fields@, old(data)@.data, partial_content@),
                Seq::empty(),
                old(data)@.position,
                layout.fields@.len(),
            ),
            r,
            |fs: Vec<Field>| fields_view(fs@),
            final(data)@.position,
        ),
{
    let ghost d = data@.data;
    let ghost p0 = data@.position;
    let ghost step = fields_step(layout.fields@, d, partial_content@);
    let mut fields: Vec<Field> = Vec::new();
    let mut j: usize = 0;
    assert(fields_view(fields@) =~= Seq::empty());
    while j < layout.fields.len()
        invariant
            d == old(data)@.data,
            p0 == old(data)@.position,
            step == fields_step(layout.fields@, d, partial_content@),
            data@.data == d,
            data@.global_offset == old(data)@.global_offset,
            j <= layout.fields@.len(),
            fields@.len() == j,
            repeat(step, Seq::empty(), p0, j as nat) == Outcome::Done(fields_view(fields@), data@.position as int),
        decreases layout.fields@.len() - j,
    {
        proof {
            assert(fields_view(fields@).len() == j) by {
                lemma_fields_view_len(fields@);
            }
        }
        match layout.fields[j].read_field(data, partial_content) {
            Ok(f) => {
                proof {
                    lemma_fields_view_push(fields@, f);
                }
                fields.push(f);
            },
            Err(e) => {
                proof {
                    lemma_repeat_stops(step, Seq::empty(), p0, (j + 1) as nat, layout.fields@.len());
                }
                return Err(e);
            },
        }
        j = j + 1;
    }
    Ok(fields)
}

pub proof fn lemma_fields_view_len(s: Seq<Field>)
    ensures
        fields_view(s).len() == s.len(),
    decreases s.len(),
{
    if s.len() > 0 {
        lemma_fields_view_len(s.drop_last());
    }
}

/// Parses the object in each instance slot, appending them to `content.instances`.
fn read_objects(
    data: &mut SliceStream,
    content: &mut Content,
    ids: &Vec<usize>,
    layout: &LayoutMap,
) -> (r: Result<(), Failure>)
    requires
        old(content)@.instances == Seq::<ObjectV>::empty(),
        old(content)@.roots == Seq::<ObjectV>::empty(),
    ensures
        final(data)@.data == old(data)@.data,
        final(data)@.global_offset == old(data)@.global_offset,
        final(content)@.interned == old(content)@.interned,
        final(content)@.roots == Seq::<ObjectV>::empty(),
        agrees_by(
            repeat(
                objects_step(old(data)@.data, ids@, old(content)@.interned, layout@),
                Seq::empty(),
                old(data)@.position,
                ids@.len(),
            ),
            r,
            |u: ()| final(content)@.instances,
            final(data)@.position,
        ),
{
    let ghost d = data@.data;
    let ghost p0 = data@.position;
    let ghost interned = content@.interned;
    let ghost step = objects_step(d, ids@, interned, layout@);
    let mut i: usize = 0;
    while i < ids.len()
        invariant
            d == old(data)@.data,
            p0 == old(data)@.position,
            interned == old(content)@.interned,
            step == objects_step(d, ids@, interned, layout@),
            data@.data == d,
            data@.global_offset == old(data)@.global_offset,
            content@.interned == interned,
            content@.roots == Seq::<ObjectV>::empty(),
            i <= ids@.len(),
            content@.instances.len() == i,
            repeat(step, Seq::empty(), p0, i as nat) == Outcome::Done(content@.instances, data@.position as int),
        decreases ids@.len() - i,
    {
        let ghost acc = content@.instances;
        let id = ids[i];
        let l = match layout.get_layout(id) {
            Some(l) => l,
            None => {
                proof {
                    lemma_repeat_stops(step, Seq::empty(), p0, (i + 1) as nat, ids@.len());
                }
                return Err(Failure::Error(Error::UnknownLayoutId(id)));
            },
        };
        let object = match content.interned_strings.get(&(i as u32)) {
            Some(path) => {
                let fields = vec![Field { name: "Path".to_owned(), value: Value::String(path.clone()) }];
                proof {
                    lemma_fields_view_push(Seq::empty(), fields@[0]);
                    assert(fields@ =~= Seq::<Field>::empty().push(fields@[0]));
                }
                Object { name: l.name.to_owned(), fields }
            },
            None => {
                match read_fields(l, data, content) {
                    Ok(fields) => Object { name: l.name.to_owned(), fields },
                    Err(e) => {
                        proof {
                            lemma_repeat_stops(step, Seq::empty(), p0, (i + 1) as nat, ids@.len());
                        }
                        return Err(e);
                    },
                }
            },
        };
        let ghost ov = object_view(object);
        let rc = Rc::new(object);
        content.instances.0.push(rc);
        assert(content@.instances =~= acc.push(ov));
        i = i + 1;
    }
    Ok(())
}

/// Selects the root objects among the instances: the absolute value of each reference's index.
fn resolve_roots(content: &mut Content, roots: &Vec<i32>) -> (r: Result<(), Failure>)
    requires
        old(content)@.roots == Seq::<ObjectV>::empty(),
    ensures
        agrees_by(
            spec_resolve_roots(roots@, old(content)@.instances, old(content)@.interned, 0),
            r,
            |u: ()| final(content)@,
            0,
        ),
{
    let ghost objs = content@.instances;
    let ghost interned = content@.interned;
    let mut k: usize = 0;
    while k < roots.len()
        invariant
            objs == old(content)@.instances,
            interned == old(content)@.interned,
            content@.instances == objs,
            content@.interned == interned,
            k <= roots@.len(),
            forall|i: int| 0 <= i < k ==> abs_index(#[trigger] roots@[i]) < objs.len(),
            content@.roots =~= Seq::new(k as nat, |i: int| objs[abs_index(roots@[i])]),
        decreases roots@.len() - k,
    {
        let index = unsigned_abs(roots[k]);
        if index >= content.instances.0.len() {
            return Err(Failure::Panic);
        }
        let ghost before = content@.roots;
        let target = content.instances.0[index].clone();
        content.root_objects.0.push(target);
        assert(content@.roots =~= before.push(objs[abs_index(roots@[k as int])]));
        k = k + 1;
    }
    Ok(())
}


impl Content {
    /// The magic value of a content section.
    pub const MAGIC: Magic = 0x5A5352;

    /// Parses a content section; `Failure::Panic` where the section cannot be parsed without
    /// aborting.
    pub fn read(data: &mut SliceStream, layout: &LayoutMap) -> (r: Result<Content, Failure>)
        ensures
            final(data)@.data == old(data)@.data,
            final(data)@.global_offset == old(data)@.global_offset,
            agrees(spec_content(old(data)@.data, old(data)@.position, layout@), r, final(data)@.position),
    {
        let ghost d = data@.data;
        let b = match data.take(48, "rsz::rsz::content::Header") {
            Ok(b) => b,
            Err(e) => return Err(e),
        };
        let header = Header::from_le_bytes(b);
        if header.magic != Content::MAGIC {
            return Err(Failure::Error(Error::MagicMismatch { expected: Content::MAGIC, actual: header.magic }));
        }
        // Roots
        let roots = match read_roots(data, header.object_count) {
            Ok(r) => r,
            Err(e) => return Err(e),
        };
        // Interned strings
        match data.seek(header.intern_offset as usize) {
            Ok(()) => {},
            Err(e) => return Err(Failure::Error(e)),
        }
        let interned_strings = match read_interned(data, header.intern_count) {
            Ok(m) => m,
            Err(e) => return Err(e),
        };
        // Instances
        match data.seek(header.instance_offset as usize) {
            Ok(()) => {},
            Err(e) => return Err(Failure::Error(e)),
        }
        let ids = match read_instances(data, header.instance_count) {
            Ok(ids) => ids,
            Err(e) => return Err(e),
        };
        // Objects
        match data.seek(header.data_offset as usize) {
            Ok(()) => {},
            Err(e) => return Err(Failure::Error(e)),
        }
        let mut content = Content {
            instances: Objects(Vec::new()),
            interned_strings,
            root_objects: Objects(Vec::new()),
        };
        assert(content@.instances =~= Seq::<ObjectV>::empty());
        assert(content@.roots =~= Seq::<ObjectV>::empty());
        match read_objects(data, &mut content, &ids, layout) {
            Ok(()) => {},
            Err(e) => return Err(e),
        }
        match resolve_roots(&mut content, &roots) {
            Ok(()) => Ok(content),
            Err(e) => Err(e),
        }
    }

    /// Parse a content section out of an RSZ document: its header, the references to its root
    /// objects, its interned strings, its instance records, then one object per instance.
    pub fn parse(data: &mut SliceStream, layout: &LayoutMap) -> (r: Result<Content, Error>)
        requires
            !(spec_content(old(data)@.data, old(data)@.position, layout@) is Panic),
        ensures
            final(data)@.data == old(data)@.data,
            final(data)@.global_offset == old(data)@.global_offset,
            agrees(spec_content(old(data)@.data, old(data)@.position, layout@), lift(r), final(data)@.position),
    {
        lower(Content::read(data, layout))
    }
}

} // verus!
