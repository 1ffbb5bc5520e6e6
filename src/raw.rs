//! Raw reflection records of a compiled schema, as the schema reader hands them over.
use vstd::prelude::*;

verus! {

/// The base-type tag of a raw field type.
#[derive(Clone, Copy, Debug, PartialEq, Eq, Structural)]
pub enum BaseType {
    NoType,
    UType,
    Bool,
    Byte,
    UByte,
    Short,
    UShort,
    Int,
    UInt,
    Long,
    ULong,
    Float,
    Double,
    String,
    Vector,
    Obj,
    Union,
    Array,
    Vector64,
}

/// The type of a raw field or enum value.
#[derive(Clone, Copy, Debug, PartialEq, Eq, Structural)]
pub struct RawType {
    /// The tag of the type itself.
    pub base_type: BaseType,
    /// The tag of the elements, for arrays and vectors.
    pub element: BaseType,
    /// Index of the referenced object (for `Obj`) or enum (for `Union`) in the schema.
    pub index: i32,
    /// Length of a fixed-size array.
    pub fixed_length: u16,
}

/// A raw attribute: a key with an optional value.
#[derive(Clone, Debug)]
pub struct RawKeyValue {
    pub key: String,
    pub value: Option<String>,
}

/// A raw member of a struct or table.
#[derive(Clone, Debug)]
pub struct RawField {
    pub name: String,
    pub typ: RawType,
    pub required: bool,
    pub deprecated: bool,
    pub documentation: Option<Vec<String>>,
    pub attributes: Option<Vec<RawKeyValue>>,
}

/// A raw struct (fixed layout) or table.
#[derive(Clone, Debug)]
pub struct RawObject {
    /// Fully-qualified name.
    pub name: String,
    pub fields: Vec<RawField>,
    /// Whether this is a fixed-layout struct (as opposed to a table).
    pub is_struct: bool,
    pub declaration_file: Option<String>,
    pub documentation: Option<Vec<String>>,
    pub attributes: Option<Vec<RawKeyValue>>,
}

/// A raw value of an enum or union.
#[derive(Clone, Debug)]
pub struct RawEnumVal {
    pub name: String,
    /// The payload type; absent for plain labels.
    pub union_type: Option<RawType>,
    pub documentation: Option<Vec<String>>,
    pub attributes: Option<Vec<RawKeyValue>>,
}

/// A raw enum or union.
#[derive(Clone, Debug)]
pub struct RawEnum {
    /// Fully-qualified name.
    pub name: String,
    pub values: Vec<RawEnumVal>,
    /// `UType` for unions, a scalar tag for enums.
    pub underlying_type: RawType,
    pub declaration_file: Option<String>,
    pub documentation: Option<Vec<String>>,
    pub attributes: Option<Vec<RawKeyValue>>,
}

/// A whole raw schema.
#[derive(Clone, Debug)]
pub struct RawSchema {
    pub objects: Vec<RawObject>,
    pub enums: Vec<RawEnum>,
}

} // verus!
