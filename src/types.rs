//! The storage shape of a field: scalars, fixed-size arrays, vectors and references to other
//! objects by name.
use vstd::prelude::*;

use crate::raw::{BaseType, RawEnum, RawObject, RawType};
use crate::text::{is_prefix_of, starts_with, str_eq};

verus! {

/// The element type of an array or a vector; never itself a container.
#[derive(Clone, Debug, PartialEq, Eq)]
pub enum ElementType {
    UInt8,
    UInt16,
    UInt32,
    UInt64,
    Int8,
    Int16,
    Int32,
    Int64,
    Bool,
    Float16,
    Float32,
    Float64,
    String,
    /// Fully-qualified name of the referenced object.
    Object(String),
}

/// The mathematical form of an [`ElementType`].
pub enum ElementTypeV {
    UInt8,
    UInt16,
    UInt32,
    UInt64,
    Int8,
    Int16,
    Int32,
    Int64,
    Bool,
    Float16,
    Float32,
    Float64,
    String,
    Object(Seq<char>),
}

impl View for ElementType {
    type V = ElementTypeV;

    open spec fn view(&self) -> ElementTypeV {
        match self {
            ElementType::UInt8 => ElementTypeV::UInt8,
            ElementType::UInt16 => ElementTypeV::UInt16,
            ElementType::UInt32 => ElementTypeV::UInt32,
            ElementType::UInt64 => ElementTypeV::UInt64,
            ElementType::Int8 => ElementTypeV::Int8,
            ElementType::Int16 => ElementTypeV::Int16,
            ElementType::Int32 => ElementTypeV::Int32,
            ElementType::Int64 => ElementTypeV::Int64,
            ElementType::Bool => ElementTypeV::Bool,
            ElementType::Float16 => ElementTypeV::Float16,
            ElementType::Float32 => ElementTypeV::Float32,
            ElementType::Float64 => ElementTypeV::Float64,
            ElementType::String => ElementTypeV::String,
            ElementType::Object(n) => ElementTypeV::Object(n@),
        }
    }
}

/// The type of a field.
#[derive(Clone, Debug, PartialEq, Eq)]
pub enum Type {
    UInt8,
    UInt16,
    UInt32,
    UInt64,
    Int8,
    Int16,
    Int32,
    Int64,
    Bool,
    Float16,
    Float32,
    Float64,
    String,
    /// A fixed-size array.
    Array { elem_type: ElementType, length: usize },
    /// A dynamically sized vector.
    Vector { elem_type: ElementType },
    /// Fully-qualified name of the referenced object.
    Object(String),
}

/// The mathematical form of a [`Type`].
pub enum TypeV {
    UInt8,
    UInt16,
    UInt32,
    UInt64,
    Int8,
    Int16,
    Int32,
    Int64,
    Bool,
    Float16,
    Float32,
    Float64,
    String,
    Array { elem_type: ElementTypeV, length: usize },
    Vector { elem_type: ElementTypeV },
    Object(Seq<char>),
}

impl View for Type {
    type V = TypeV;

    open spec fn view(&self) -> TypeV {
        match self {
            Type::UInt8 => TypeV::UInt8,
            Type::UInt16 => TypeV::UInt16,
            Type::UInt32 => TypeV::UInt32,
            Type::UInt64 => TypeV::UInt64,
            Type::Int8 => TypeV::Int8,
            Type::Int16 => TypeV::Int16,
            Type::Int32 => TypeV::Int32,
            Type::Int64 => TypeV::Int64,
            Type::Bool => TypeV::Bool,
            Type::Float16 => TypeV::Float16,
            Type::Float32 => TypeV::Float32,
            Type::Float64 => TypeV::Float64,
            Type::String => TypeV::String,
            Type::Array { elem_type, length } => TypeV::Array { elem_type: elem_type@, length: *length },
            Type::Vector { elem_type } => TypeV::Vector { elem_type: elem_type@ },
            Type::Object(n) => TypeV::Object(n@),
        }
    }
}

/// The type that holds a single element of type `e`.
pub open spec fn elem_to_type(e: ElementTypeV) -> TypeV {
    match e {
        ElementTypeV::UInt8 => TypeV::UInt8,
        ElementTypeV::UInt16 => TypeV::UInt16,
        ElementTypeV::UInt32 => TypeV::UInt32,
        ElementTypeV::UInt64 => TypeV::UInt64,
        ElementTypeV::Int8 => TypeV::Int8,
        ElementTypeV::Int16 => TypeV::Int16,
        ElementTypeV::Int32 => TypeV::Int32,
        ElementTypeV::Int64 => TypeV::Int64,
        ElementTypeV::Bool => TypeV::Bool,
        ElementTypeV::Float16 => TypeV::Float16,
        ElementTypeV::Float32 => TypeV::Float32,
        ElementTypeV::Float64 => TypeV::Float64,
        ElementTypeV::String => TypeV::String,
        ElementTypeV::Object(n) => TypeV::Object(n),
    }
}

/// The type that holds a single element of type `e`.
pub open spec fn type_of_element(e: ElementType) -> Type {
    match e {
        ElementType::UInt8 => Type::UInt8,
        ElementType::UInt16 => Type::UInt16,
        ElementType::UInt32 => Type::UInt32,
        ElementType::UInt64 => Type::UInt64,
        ElementType::Int8 => Type::Int8,
        ElementType::Int16 => Type::Int16,
        ElementType::Int32 => Type::Int32,
        ElementType::Int64 => Type::Int64,
        ElementType::Bool => Type::Bool,
        ElementType::Float16 => Type::Float16,
        ElementType::Float32 => Type::Float32,
        ElementType::Float64 => Type::Float64,
        ElementType::String => Type::String,
        ElementType::Object(n) => Type::Object(n),
    }
}

impl From<ElementType> for Type {
    fn from(typ: ElementType) -> (r: Type)
        ensures
            r == type_of_element(typ),
    {
        match typ {
            ElementType::UInt8 => Type::UInt8,
            ElementType::UInt16 => Type::UInt16,
            ElementType::UInt32 => Type::UInt32,
            ElementType::UInt64 => Type::UInt64,
            ElementType::Int8 => Type::Int8,
            ElementType::Int16 => Type::Int16,
            ElementType::Int32 => Type::Int32,
            ElementType::Int64 => Type::Int64,
            ElementType::Bool => Type::Bool,
            ElementType::Float16 => Type::Float16,
            ElementType::Float32 => Type::Float32,
            ElementType::Float64 => Type::Float64,
            ElementType::String => Type::String,
            ElementType::Object(fqname) => Type::Object(fqname),
        }
    }
}

impl vstd::std_specs::convert::FromSpecImpl<ElementType> for Type {
    open spec fn obeys_from_spec() -> bool {
        true
    }

    open spec fn from_spec(v: ElementType) -> Type {
        type_of_element(v)
    }
}

/// The scalar that a primitive base-type tag stands for; `None` for the other tags.
pub open spec fn scalar_elem(b: BaseType) -> Option<ElementTypeV> {
    match b {
        BaseType::Bool => Some(ElementTypeV::Bool),
        BaseType::Byte => Some(ElementTypeV::Int8),
        BaseType::UByte => Some(ElementTypeV::UInt8),
        BaseType::Short => Some(ElementTypeV::Int16),
        BaseType::UShort => Some(ElementTypeV::UInt16),
        BaseType::Int => Some(ElementTypeV::Int32),
        BaseType::UInt => Some(ElementTypeV::UInt32),
        BaseType::Long => Some(ElementTypeV::Int64),
        BaseType::ULong => Some(ElementTypeV::UInt64),
        BaseType::Float => Some(ElementTypeV::Float32),
        BaseType::Double => Some(ElementTypeV::Float64),
        BaseType::String => Some(ElementTypeV::String),
        _ => None,
    }
}

/// The name space of the synthetic objects that wrap a bare scalar.
pub open spec fn wrapper_prefix() -> Seq<char> {
    "fbs.scalars."@
}

/// What a reference to the object named `name` resolves to: the scalar that a synthetic wrapper
/// stands for (only the 32-bit float wrapper is known), else the object itself by name.
pub open spec fn flatten_spec(name: Seq<char>) -> Option<ElementTypeV> {
    if is_prefix_of(wrapper_prefix(), name) {
        if name == "fbs.scalars.Float32"@ {
            Some(ElementTypeV::Float32)
        } else {
            None
        }
    } else {
        Some(ElementTypeV::Object(name))
    }
}

/// The raw object at `index`, if there is one.
pub open spec fn object_at(objs: Seq<RawObject>, index: i32) -> Option<RawObject> {
    if 0 <= index < objs.len() {
        Some(objs[index as int])
    } else {
        None
    }
}

/// The raw enum at `index`, if there is one.
pub open spec fn enum_at(enums: Seq<RawEnum>, index: i32) -> Option<RawEnum> {
    if 0 <= index < enums.len() {
        Some(enums[index as int])
    } else {
        None
    }
}

/// The element type for the tag `inner`, where an object reference is read from `outer`.
pub open spec fn elem_spec(objs: Seq<RawObject>, outer: RawType, inner: BaseType) -> Option<
    ElementTypeV,
> {
    if inner == BaseType::Obj {
        match object_at(objs, outer.index) {
            Some(o) => flatten_spec(o.name@),
            None => None,
        }
    } else {
        scalar_elem(inner)
    }
}

/// The type that the raw type `t` resolves to; `None` where it cannot be represented.
pub open spec fn type_spec(enums: Seq<RawEnum>, objs: Seq<RawObject>, t: RawType) -> Option<TypeV> {
    match t.base_type {
        BaseType::Obj => match elem_spec(objs, t, BaseType::Obj) {
            Some(e) => Some(elem_to_type(e)),
            None => None,
        },
        BaseType::Union => match enum_at(enums, t.index) {
            Some(u) => Some(TypeV::Object(u.name@)),
            None => None,
        },
        BaseType::Array => match elem_spec(objs, t, t.element) {
            Some(e) => Some(TypeV::Array { elem_type: e, length: t.fixed_length as usize }),
            None => None,
        },
        BaseType::Vector => match elem_spec(objs, t, t.element) {
            Some(e) => Some(TypeV::Vector { elem_type: e }),
            None => None,
        },
        _ => match scalar_elem(t.base_type) {
            Some(e) => Some(elem_to_type(e)),
            None => None,
        },
    }
}

/// Turns a reference to a synthetic scalar wrapper into the scalar it wraps; any other object
/// stays a reference by name. `None` for an unknown wrapper.
pub fn flatten_scalar_wrappers(obj: &RawObject) -> (r: Option<ElementType>)
    ensures
        match flatten_spec(obj.name@) {
            Some(e) => r matches Some(x) && x@ == e,
            None => r is None,
        },
{
    let name = obj.name.as_str();
    if starts_with(name, "fbs.scalars.") {
        if str_eq(name, "fbs.scalars.Float32") {
            Some(ElementType::Float32)
        } else {
            None
        }
    } else {
        Some(ElementType::Object(obj.name.clone()))
    }
}

impl ElementType {
    /// Resolves the element tag `inner_type` of the container type `outer_type`; containers and
    /// unions cannot be elements.
    pub fn from_raw_base_type(
        enums: &Vec<RawEnum>,
        objs: &Vec<RawObject>,
        outer_type: RawType,
        inner_type: BaseType,
    ) -> (r: Option<ElementType>)
        ensures
            match elem_spec(objs@, outer_type, inner_type) {
                Some(e) => r matches Some(x) && x@ == e,
                None => r is None,
            },
    {
        match inner_type {
            BaseType::Bool => Some(ElementType::Bool),
            BaseType::Byte => Some(ElementType::Int8),
            BaseType::UByte => Some(ElementType::UInt8),
            BaseType::Short => Some(ElementType::Int16),
            BaseType::UShort => Some(ElementType::UInt16),
            BaseType::Int => Some(ElementType::Int32),
            BaseType::UInt => Some(ElementType::UInt32),
            BaseType::Long => Some(ElementType::Int64),
            BaseType::ULong => Some(ElementType::UInt64),
            BaseType::Float => Some(ElementType::Float32),
            BaseType::Double => Some(ElementType::Float64),
            BaseType::String => Some(ElementType::String),
            BaseType::Obj => {
                if 0 <= outer_type.index && (outer_type.index as usize) < objs.len() {
                    flatten_scalar_wrappers(&objs[outer_type.index as usize])
                } else {
                    None
                }
            },
            _ => None,
        }
    }
}

impl Type {
    /// Resolves a raw field type.
    pub fn from_raw_type(enums: &Vec<RawEnum>, objs: &Vec<RawObject>, field_type: RawType) -> (r:
        Option<Type>)
        ensures
            match type_spec(enums@, objs@, field_type) {
                Some(t) => r matches Some(x) && x@ == t,
                None => r is None,
            },
    {
        match field_type.base_type {
            BaseType::Bool => Some(Type::Bool),
            BaseType::Byte => Some(Type::Int8),
            BaseType::UByte => Some(Type::UInt8),
            BaseType::Short => Some(Type::Int16),
            BaseType::UShort => Some(Type::UInt16),
            BaseType::Int => Some(Type::Int32),
            BaseType::UInt => Some(Type::UInt32),
            BaseType::Long => Some(Type::Int64),
            BaseType::ULong => Some(Type::UInt64),
            BaseType::Float => Some(Type::Float32),
            BaseType::Double => Some(Type::Float64),
            BaseType::String => Some(Type::String),
            BaseType::Obj => match ElementType::from_raw_base_type(
                enums,
                objs,
                field_type,
                BaseType::Obj,
            ) {
                Some(e) => Some(Type::from(e)),
                None => None,
            },
            BaseType::Union => {
                if 0 <= field_type.index && (field_type.index as usize) < enums.len() {
                    Some(Type::Object(enums[field_type.index as usize].name.clone()))
                } else {
                    None
                }
            },
            BaseType::Array => match ElementType::from_raw_base_type(
                enums,
                objs,
                field_type,
                field_type.element,
            ) {
                Some(e) => Some(Type::Array { elem_type: e, length: field_type.fixed_length as usize }),
                None => None,
            },
            BaseType::Vector => match ElementType::from_raw_base_type(
                enums,
                objs,
                field_type,
                field_type.element,
            ) {
                Some(e) => Some(Type::Vector { elem_type: e }),
                None => None,
            },
            _ => None,
        }
    }
}

/// A vector whose elements reference the synthetic 32-bit float wrapper is a vector of 32-bit
/// floats: the wrapper never shows in the resolved type.
pub proof fn lemma_float_wrapper_flattened(enums: Seq<RawEnum>, objs: Seq<RawObject>, t: RawType)
    requires
        t.base_type == BaseType::Vector,
        t.element == BaseType::Obj,
        object_at(objs, t.index) matches Some(o) && o.name@ == "fbs.scalars.Float32"@,
    ensures
        type_spec(enums, objs, t) == Some(TypeV::Vector { elem_type: ElementTypeV::Float32 }),
{
    reveal_strlit("fbs.scalars.");
    reveal_strlit("fbs.scalars.Float32");
    let name = "fbs.scalars.Float32"@;
    assert(name.subrange(0, wrapper_prefix().len() as int) =~= wrapper_prefix());
}

} // verus!
