use std::collections::HashMap;
use vstd::prelude::*;

verus! {

broadcast use vstd::std_specs::hash::group_hash_axioms;

/// Identifies a type layout.
pub type TypeId = usize;

/// Layout maps are usually loaded from RSZ JSON files, and contain a mapping of type IDs to their
/// definitions. These are required in order to properly understand the contents of an RSZ file.
#[derive(Debug)]
pub struct LayoutMap<'a>(HashMap<TypeId, Layout<'a>>);

impl<'a> View for LayoutMap<'a> {
    type V = Map<TypeId, Layout<'a>>;

    closed spec fn view(&self) -> Map<TypeId, Layout<'a>> {
        self.0@
    }
}

impl<'a> LayoutMap<'a> {
    /// Creates a new instance of `LayoutMap`. This is useful if you intend to parse the RSZ file
    /// yourself.
    pub fn new(inner: HashMap<TypeId, Layout<'a>>) -> (r: Self)
        ensures
            r@ == inner@,
    {
        LayoutMap(inner)
    }

    /// Retrieves a type layout by ID.
    pub fn get_layout(&self, id: TypeId) -> (r: Option<&Layout<'a>>)
        ensures
            match r {
                Some(l) => self@.contains_key(id) && *l == self@[id],
                None => !self@.contains_key(id),
            },
    {
        self.0.get(&id)
    }
}

/// Each entry in a layout file defines a type layout that can be encoded in an RSZ file.
#[derive(Debug)]
pub struct Layout<'a> {
    /// If the property defined by this layout contains any fields, this will be a collection of
    /// layout information for those fields.
    pub fields: Vec<FieldLayout<'a>>,
    /// The in-engine property name.
    pub name: &'a str,
    /// A CRC value for correctness checking.
    pub crc: usize,
}

/// Defines a field contained within a property layout.
#[derive(Debug)]
pub struct FieldLayout<'a> {
    /// The field's byte alignment.
    pub align: usize,
    /// The number of bytes the field occupies in the file.
    pub size: usize,
    /// Indicates that this field is an array of values.
    pub is_array: bool,
    /// The display name of the field.
    pub name: &'a str,
    /// The purpose of the field is not known.
    pub is_native: bool,
    /// The in-engine name of the field's type.
    pub original_type_name: &'a str,
    /// The type contained in the field. For arrays, this is the type of each element.
    pub kind: FieldKind,
}

/// Represents a type within the type system.
///
/// Implementation of some types is on an as-needed basis, so many things are not currently
/// supported. Types that are not implemented yet are commented to indicate that.
#[derive(Debug, Copy, Clone, PartialEq, Eq)]
pub enum FieldKind {
    /// A boolean, stored as one byte.
    Boolean,
    /// A 16-bit float
    F16,
    /// A 32-bit float
    F32,
    /// A 64-bit float
    F64,
    /// A UUID
    Guid,
    /// An index that references one of the instances contained in the document.
    InstanceRef,
    /// An 8-bit signed integer
    S8,
    /// A 16-bit signed integer
    S16,
    /// A 32-bit signed integer
    S32,
    /// A 64-bit signed integer
    S64,
    /// A string
    String,
    /// An 8-bit unsigned integer
    U8,
    /// A 16-bit unsigned integer
    U16,
    /// A 32-bit unsigned integer
    U32,
    /// A 64-bit unsigned integer
    U64,
    /// Currently unknown.
    Data,
    /// An index referencing an interned string from the userdata section of the document.
    UserData,
    // --- All items below this line are not fully supported ---
    /// Not implemented.
    AABB,
    /// Not implemented.
    Capsule,
    /// Not implemented.
    Color,
    /// Not implemented.
    Cylinder,
    /// Not implemented.
    DateTime,
    /// Not implemented.
    Float2,
    /// Not implemented.
    Float3,
    /// Not implemented.
    Float4,
    /// Not implemented.
    Frustum,
    /// Not implemented.
    GameObjectRef,
    /// Not implemented.
    Half4,
    /// Not implemented.
    Int2,
    /// Not implemented.
    Int3,
    /// Not implemented.
    Int4,
    /// Not implemented.
    KeyFrame,
    /// Not implemented.
    Mat4,
    /// Not implemented.
    OBB,
    /// Not implemented.
    Plane,
    /// Not implemented.
    Point,
    /// Not implemented.
    Position,
    /// Not implemented.
    Quaternion,
    /// Not implemented.
    Range,
    /// Not implemented.
    RangeI,
    /// Not implemented.
    Rect,
    /// Not implemented.
    Resource,
    /// Not implemented.
    RuntimeType,
    /// Not implemented.
    Size,
    /// Not implemented.
    Sphere,
    /// Not implemented.
    Struct,
    /// Not implemented.
    Uint2,
    /// Not implemented.
    Vec2,
    /// Not implemented.
    Vec3,
    /// Not implemented.
    Vec4,
    /// Not implemented.
    C8,
    /// Not implemented.
    Uint3,
    /// Not implemented.
    Triangle,
}

} // verus!
