//! Why the resolution of a schema failed.
use vstd::prelude::*;

verus! {

/// A defect of the schema; every one aborts the resolution.
#[derive(Clone, Debug, PartialEq, Eq)]
pub enum SchemaError {
    /// A mandatory attribute is absent, or present without a value.
    MissingRequiredAttribute { owner: String, name: String },
    /// An attribute's value does not parse into the requested type.
    InvalidAttributeValue { owner: String, name: String, value: String },
    /// No object has this fully-qualified name.
    UnknownReference { fqname: String },
    /// A declaration without a declaration file, or with a type that cannot stand there.
    MalformedDeclaration { fqname: String },
    /// A package that belongs to none of the known kinds.
    UnknownPackageClassification { pkg_name: String },
}

} // verus!
