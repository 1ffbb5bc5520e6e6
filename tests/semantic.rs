use re_types_builder::attrs::Attributes;
use re_types_builder::docs::Docs;
use re_types_builder::error::SchemaError;
use re_types_builder::objects::{Object, ObjectField, ObjectKind, ObjectSpecifics};
use re_types_builder::raw::{
    BaseType, RawEnum, RawEnumVal, RawField, RawKeyValue, RawObject, RawSchema, RawType,
};
use re_types_builder::registry::Objects;
use re_types_builder::text::split_qualified;
use re_types_builder::types::{flatten_scalar_wrappers, ElementType, Type};

fn ty(base_type: BaseType) -> RawType {
    RawType { base_type, element: BaseType::NoType, index: 0, fixed_length: 0 }
}

fn kv(key: &str, value: &str) -> RawKeyValue {
    RawKeyValue { key: key.to_string(), value: Some(value.to_string()) }
}

fn order(n: u32) -> Option<Vec<RawKeyValue>> {
    Some(vec![kv("order", &n.to_string())])
}

fn field(name: &str, typ: RawType, attrs: Option<Vec<RawKeyValue>>) -> RawField {
    RawField {
        name: name.to_string(),
        typ,
        required: false,
        deprecated: false,
        documentation: None,
        attributes: attrs,
    }
}

fn object(name: &str, is_struct: bool, fields: Vec<RawField>, attrs: Option<Vec<RawKeyValue>>) -> RawObject {
    RawObject {
        name: name.to_string(),
        fields,
        is_struct,
        declaration_file: Some("//rerun/test.fbs".to_string()),
        documentation: None,
        attributes: attrs,
    }
}

fn value(name: &str, union_type: Option<RawType>) -> RawEnumVal {
    RawEnumVal { name: name.to_string(), union_type, documentation: None, attributes: None }
}

fn raw_enum(name: &str, underlying: RawType, values: Vec<RawEnumVal>, attrs: Option<Vec<RawKeyValue>>) -> RawEnum {
    RawEnum {
        name: name.to_string(),
        values,
        underlying_type: underlying,
        declaration_file: Some("//rerun/test.fbs".to_string()),
        documentation: None,
        attributes: attrs,
    }
}

fn point2d() -> RawObject {
    object(
        "rerun.components.Point2D",
        true,
        vec![field("y", ty(BaseType::Float), order(1)), field("x", ty(BaseType::Float), order(0))],
        order(3),
    )
}

fn tagged<'a>(docs: &'a Docs, tag: &str) -> Option<&'a Vec<String>> {
    docs.tagged_docs.iter().find(|(t, _)| t == tag).map(|(_, lines)| lines)
}

#[test]
fn docs_split_general_and_tagged() {
    let docs = Docs::from_raw_docs(&Some(vec![
        "general line".to_string(),
        "\\py python-only line".to_string(),
    ]));
    assert_eq!(docs.doc, vec!["general line".to_string()]);
    assert_eq!(docs.tagged_docs.len(), 1);
    assert_eq!(tagged(&docs, "py"), Some(&vec![" python-only line".to_string()]));
}

#[test]
fn docs_tags_collect_in_order_and_trim() {
    let docs = Docs::from_raw_docs(&Some(vec![
        "  \\py first  ".to_string(),
        " plain ".to_string(),
        "\\rs only rust".to_string(),
        "\\py second".to_string(),
        "\\cpp".to_string(),
    ]));
    assert_eq!(docs.doc, vec![" plain ".to_string()]);
    assert_eq!(tagged(&docs, "py"), Some(&vec![" first".to_string(), " second".to_string()]));
    assert_eq!(tagged(&docs, "rs"), Some(&vec![" only rust".to_string()]));
    assert_eq!(tagged(&docs, "cpp"), Some(&vec![String::new()]));
    assert_eq!(docs.tagged_docs.len(), 3);
}

#[test]
fn docs_absent_are_empty() {
    let docs = Docs::from_raw_docs(&None);
    assert!(docs.doc.is_empty());
    assert!(docs.tagged_docs.is_empty());
}

#[test]
fn vector_of_float_wrapper_is_flattened() {
    let objs = vec![object("fbs.scalars.Float32", true, vec![field("v", ty(BaseType::Float), None)], None)];
    let t = RawType { base_type: BaseType::Vector, element: BaseType::Obj, index: 0, fixed_length: 0 };
    assert_eq!(Type::from_raw_type(&vec![], &objs, t), Some(Type::Vector { elem_type: ElementType::Float32 }));
}

#[test]
fn unknown_wrapper_is_rejected() {
    let w = object("fbs.scalars.Float64", true, vec![], None);
    assert_eq!(flatten_scalar_wrappers(&w), None);
    let o = object("rerun.datatypes.Vec2D", true, vec![], None);
    assert_eq!(flatten_scalar_wrappers(&o), Some(ElementType::Object("rerun.datatypes.Vec2D".to_string())));
}

#[test]
fn raw_types_resolve() {
    let enums = vec![raw_enum("rerun.components.Shape", ty(BaseType::UType), vec![], order(0))];
    let objs = vec![object("rerun.datatypes.Vec3D", true, vec![], order(0))];
    let cases = [
        (BaseType::Bool, Type::Bool),
        (BaseType::Byte, Type::Int8),
        (BaseType::UByte, Type::UInt8),
        (BaseType::Short, Type::Int16),
        (BaseType::UShort, Type::UInt16),
        (BaseType::Int, Type::Int32),
        (BaseType::UInt, Type::UInt32),
        (BaseType::Long, Type::Int64),
        (BaseType::ULong, Type::UInt64),
        (BaseType::Float, Type::Float32),
        (BaseType::Double, Type::Float64),
        (BaseType::String, Type::String),
    ];
    for (b, t) in cases {
        assert_eq!(Type::from_raw_type(&enums, &objs, ty(b)), Some(t));
    }
    assert_eq!(
        Type::from_raw_type(&enums, &objs, ty(BaseType::Obj)),
        Some(Type::Object("rerun.datatypes.Vec3D".to_string()))
    );
    assert_eq!(
        Type::from_raw_type(&enums, &objs, ty(BaseType::Union)),
        Some(Type::Object("rerun.components.Shape".to_string()))
    );
    let arr = RawType { base_type: BaseType::Array, element: BaseType::UByte, index: 0, fixed_length: 4 };
    assert_eq!(
        Type::from_raw_type(&enums, &objs, arr),
        Some(Type::Array { elem_type: ElementType::UInt8, length: 4 })
    );
    let nested = RawType { base_type: BaseType::Vector, element: BaseType::Vector, index: 0, fixed_length: 0 };
    assert_eq!(Type::from_raw_type(&enums, &objs, nested), None);
    assert_eq!(Type::from_raw_type(&enums, &objs, ty(BaseType::UType)), None);
    assert_eq!(Type::from_raw_type(&enums, &objs, ty(BaseType::Vector64)), None);
    let dangling = RawType { base_type: BaseType::Obj, element: BaseType::NoType, index: 7, fixed_length: 0 };
    assert_eq!(Type::from_raw_type(&enums, &objs, dangling), None);
}

#[test]
fn element_types_resolve() {
    let objs = vec![object("rerun.datatypes.Vec3D", true, vec![], None)];
    let outer = RawType { base_type: BaseType::Vector, element: BaseType::Obj, index: 0, fixed_length: 0 };
    assert_eq!(
        ElementType::from_raw_base_type(&vec![], &objs, outer, BaseType::Obj),
        Some(ElementType::Object("rerun.datatypes.Vec3D".to_string()))
    );
    assert_eq!(ElementType::from_raw_base_type(&vec![], &objs, outer, BaseType::Long), Some(ElementType::Int64));
    assert_eq!(ElementType::from_raw_base_type(&vec![], &objs, outer, BaseType::Union), None);
    assert_eq!(ElementType::from_raw_base_type(&vec![], &objs, outer, BaseType::Array), None);
}

#[test]
fn missing_order_fails_resolution() {
    let schema = RawSchema {
        objects: vec![object("rerun.components.NoOrder", true, vec![field("x", ty(BaseType::Float), order(0))], None)],
        enums: vec![],
    };
    match Objects::from_raw_schema(&schema) {
        Err(SchemaError::MissingRequiredAttribute { owner, name }) => {
            assert_eq!(owner, "rerun.components.NoOrder");
            assert_eq!(name, "order");
        }
        other => panic!("unexpected: {:?}", other.map(|_| ())),
    }
}

#[test]
fn missing_field_order_fails_resolution() {
    let raw = object("rerun.components.P", true, vec![field("x", ty(BaseType::Float), None)], order(0));
    match Object::from_raw_object(&vec![], &vec![], &raw) {
        Err(SchemaError::MissingRequiredAttribute { owner, name }) => {
            assert_eq!(owner, "rerun.components.P.x");
            assert_eq!(name, "order");
        }
        other => panic!("unexpected: {:?}", other.map(|_| ())),
    }
}

#[test]
fn invalid_order_is_reported() {
    let raw = object("rerun.components.P", true, vec![], Some(vec![kv("order", "first")]));
    let schema = RawSchema { objects: vec![raw], enums: vec![] };
    match Objects::from_raw_schema(&schema) {
        Err(SchemaError::InvalidAttributeValue { owner, name, value }) => {
            assert_eq!(owner, "rerun.components.P");
            assert_eq!(name, "order");
            assert_eq!(value, "first");
        }
        other => panic!("unexpected: {:?}", other.map(|_| ())),
    }
}

#[test]
fn unknown_lookup_fails() {
    let schema = RawSchema { objects: vec![point2d()], enums: vec![] };
    let objects = Objects::from_raw_schema(&schema).unwrap();
    assert_eq!(
        objects.get("rerun.components.DoesNotExist").err(),
        Some(SchemaError::UnknownReference { fqname: "rerun.components.DoesNotExist".to_string() })
    );
}

#[test]
fn end_to_end_point2d() {
    let schema = RawSchema { objects: vec![point2d()], enums: vec![] };
    let objects = Objects::from_raw_schema(&schema).unwrap();
    let p = objects.get("rerun.components.Point2D").unwrap();
    assert_eq!(p.kind, ObjectKind::Component);
    assert_eq!(p.order(), Ok(3));
    assert_eq!(p.pkg_name, "rerun.components");
    assert_eq!(p.name, "Point2D");
    assert_eq!(p.filepath, "//rerun/test.fbs");
    assert!(p.is_struct());
    assert!(!p.is_enum());
    assert!(!p.is_union());
    let names: Vec<&str> = p.fields.iter().map(|f| f.name.as_str()).collect();
    assert_eq!(names, vec!["x", "y"]);
    assert_eq!(p.fields[0].typ, Type::Float32);
    assert_eq!(p.fields[0].fqname, "rerun.components.Point2D.x");
    assert_eq!(p.fields[0].pkg_name, "rerun.components.Point2D");
    assert!(p.fields[0].required);
    assert!(!p.fields[0].deprecated);
    assert_eq!(p.fields[1].order(), Ok(1));
}

#[test]
fn union_and_enum_are_told_apart() {
    let objs = vec![
        object("rerun.datatypes.Angle", true, vec![], order(0)),
        object("rerun.datatypes.Rotation", true, vec![], order(1)),
    ];
    let union = raw_enum(
        "rerun.datatypes.Transform",
        ty(BaseType::UType),
        vec![
            value("NONE", Some(ty(BaseType::NoType))),
            value("Angle", Some(RawType { base_type: BaseType::Obj, element: BaseType::NoType, index: 0, fixed_length: 0 })),
            value("Rotation", Some(RawType { base_type: BaseType::Obj, element: BaseType::NoType, index: 1, fixed_length: 0 })),
        ],
        order(2),
    );
    let enm = raw_enum(
        "rerun.datatypes.Mode",
        ty(BaseType::UByte),
        vec![value("A", Some(ty(BaseType::UByte))), value("B", Some(ty(BaseType::UByte))), value("Pad", None)],
        order(3),
    );
    let enums = vec![union.clone(), enm.clone()];
    let u = Object::from_raw_enum(&enums, &objs, &union).unwrap();
    assert!(u.is_union());
    assert!(!u.is_enum());
    assert!(!u.is_struct());
    assert_eq!(u.fields.len(), 2);
    assert_eq!(u.fields[0].typ, Type::Object("rerun.datatypes.Angle".to_string()));
    assert_eq!(u.fields[1].fqname, "rerun.datatypes.Transform.Rotation");
    assert!(u.fields.iter().all(|f| f.required && !f.deprecated));
    let e = Object::from_raw_enum(&enums, &objs, &enm).unwrap();
    assert!(e.is_enum());
    assert!(!e.is_union());
    assert!(matches!(e.specifics, ObjectSpecifics::Union { utype: Some(ElementType::UInt8) }));
    assert_eq!(e.fields.len(), 2);
}

#[test]
fn ordered_by_kind_and_order() {
    let schema = RawSchema {
        objects: vec![
            object("rerun.components.C2", true, vec![], order(2)),
            object("rerun.components.C0", true, vec![], order(0)),
            object("rerun.datatypes.D5", true, vec![], order(5)),
            object("rerun.components.C1", true, vec![], order(1)),
            object("rerun.archetypes.A9", false, vec![], order(9)),
            object("fbs.scalars.Float32", true, vec![field("v", ty(BaseType::Float), None)], None),
        ],
        enums: vec![],
    };
    let objects = Objects::from_raw_schema(&schema).unwrap();
    assert_eq!(objects.objects().len(), 5);
    let comps: Vec<&str> = objects.ordered_components().iter().map(|o| o.name.as_str()).collect();
    assert_eq!(comps, vec!["C0", "C1", "C2"]);
    let dts: Vec<&str> = objects.ordered_datatypes().iter().map(|o| o.name.as_str()).collect();
    assert_eq!(dts, vec!["D5"]);
    let archs: Vec<&str> = objects.ordered_archetypes().iter().map(|o| o.name.as_str()).collect();
    assert_eq!(archs, vec!["A9"]);
    let all: Vec<&str> = objects.ordered_objects(None).iter().map(|o| o.name.as_str()).collect();
    assert_eq!(all, vec!["C0", "C1", "C2", "D5", "A9"]);
    assert!(objects.get("fbs.scalars.Float32").is_err());
}

#[test]
fn equal_orders_keep_declaration_order() {
    let raw = object(
        "rerun.datatypes.T",
        false,
        vec![
            field("b", ty(BaseType::Int), order(1)),
            field("a", ty(BaseType::Int), order(1)),
            field("tag", ty(BaseType::UType), None),
            field("c", ty(BaseType::Int), order(0)),
        ],
        order(0),
    );
    let o = Object::from_raw_object(&vec![], &vec![], &raw).unwrap();
    let names: Vec<&str> = o.fields.iter().map(|f| f.name.as_str()).collect();
    assert_eq!(names, vec!["c", "b", "a"]);
    assert!(!o.fields[0].required);
}

#[test]
fn get_round_trips_every_object() {
    let schema = RawSchema {
        objects: vec![point2d(), object("rerun.datatypes.Vec2D", true, vec![], order(0))],
        enums: vec![raw_enum("rerun.components.Kind", ty(BaseType::Int), vec![], order(4))],
    };
    let objects = Objects::from_raw_schema(&schema).unwrap();
    assert_eq!(objects.objects().len(), 3);
    for o in objects.objects() {
        assert_eq!(objects.get(&o.fqname).unwrap().fqname, o.fqname);
    }
}

#[test]
fn missing_declaration_file_is_malformed() {
    let mut raw = point2d();
    raw.declaration_file = None;
    assert_eq!(
        Object::from_raw_object(&vec![], &vec![], &raw).err(),
        Some(SchemaError::MalformedDeclaration { fqname: "rerun.components.Point2D".to_string() })
    );
}

#[test]
fn unsupported_field_type_is_malformed() {
    let raw = object("rerun.components.P", true, vec![field("v", ty(BaseType::Vector64), order(0))], order(0));
    assert_eq!(
        Object::from_raw_object(&vec![], &vec![], &raw).err(),
        Some(SchemaError::MalformedDeclaration { fqname: "rerun.components.P.v".to_string() })
    );
    let f = &raw.fields[0];
    assert_eq!(
        ObjectField::from_raw_object_field(&vec![], &vec![], &raw, f).err(),
        Some(SchemaError::MalformedDeclaration { fqname: "rerun.components.P.v".to_string() })
    );
}

#[test]
fn unknown_package_is_rejected() {
    let raw = object("other.things.P", true, vec![], order(0));
    assert_eq!(
        Object::from_raw_object(&vec![], &vec![], &raw).err(),
        Some(SchemaError::UnknownPackageClassification { pkg_name: "other.things".to_string() })
    );
    assert_eq!(ObjectKind::from_pkg_name("rerun.datatypes"), Ok(ObjectKind::Datatype));
    assert_eq!(ObjectKind::from_pkg_name("rerun.components.extra"), Ok(ObjectKind::Component));
    assert_eq!(ObjectKind::from_pkg_name("rerun.archetypes"), Ok(ObjectKind::Archetype));
    assert!(ObjectKind::from_pkg_name("rerun").is_err());
}

#[test]
fn enum_value_fields() {
    let enm = raw_enum("rerun.components.Mode", ty(BaseType::UByte), vec![], order(0));
    let v = value("Fast", Some(ty(BaseType::UByte)));
    let f = ObjectField::from_raw_enum_value(&vec![], &vec![], &enm, &v).unwrap();
    assert_eq!(f.fqname, "rerun.components.Mode.Fast");
    assert_eq!(f.name, "Fast");
    assert_eq!(f.typ, Type::UInt8);
    assert!(f.required);
    let none = value("Nothing", None);
    assert_eq!(
        ObjectField::from_raw_enum_value(&vec![], &vec![], &enm, &none).err(),
        Some(SchemaError::MalformedDeclaration { fqname: "rerun.components.Mode.Nothing".to_string() })
    );
}

#[test]
fn attribute_accessors_parse_on_demand() {
    let attrs = Attributes::from_raw_attrs(&Some(vec![
        kv("order", "+7"),
        kv("big", "4294967296"),
        kv("max", "4294967295"),
        kv("flag", "true"),
        RawKeyValue { key: "bare".to_string(), value: None },
        kv("lang", "rust"),
        kv("lang", "python"),
    ]));
    assert_eq!(attrs.get::<u32>("o", "order"), Ok(7));
    assert_eq!(attrs.get::<u32>("o", "max"), Ok(4294967295));
    assert_eq!(
        attrs.get::<u32>("o", "big"),
        Err(SchemaError::InvalidAttributeValue {
            owner: "o".to_string(),
            name: "big".to_string(),
            value: "4294967296".to_string(),
        })
    );
    assert_eq!(attrs.get::<bool>("o", "flag"), Ok(true));
    assert!(attrs.get::<bool>("o", "lang").is_err());
    assert_eq!(attrs.get::<String>("o", "lang"), Ok("python".to_string()));
    assert_eq!(attrs.try_get::<u32>("o", "absent"), Ok(None));
    assert_eq!(attrs.try_get::<u32>("o", "bare"), Ok(None));
    assert_eq!(
        attrs.get::<u32>("o", "bare"),
        Err(SchemaError::MissingRequiredAttribute { owner: "o".to_string(), name: "bare".to_string() })
    );
    assert!(attrs.try_get::<u32>("o", "flag").is_err());
    assert_eq!(attrs.try_get::<u32>("o", "order"), Ok(Some(7)));
    assert!(attrs.get::<u32>("o", "").is_err());
}

#[test]
fn object_attribute_accessors() {
    let raw = object("rerun.components.P", true, vec![field("x", ty(BaseType::Float), Some(vec![kv("order", "0"), kv("note", "n")]))], Some(vec![kv("order", "1"), kv("attr.rust.derive", "Copy")]));
    let o = Object::from_raw_object(&vec![], &vec![], &raw).unwrap();
    assert_eq!(o.get_attr::<String>("attr.rust.derive"), Ok("Copy".to_string()));
    assert_eq!(o.try_get_attr::<String>("missing"), Ok(None));
    assert_eq!(o.get_attr::<u32>("order"), Ok(1));
    assert_eq!(o.fields[0].get_attr::<String>("note"), Ok("n".to_string()));
    assert_eq!(o.fields[0].try_get_attr::<u32>("order"), Ok(Some(0)));
}

#[test]
fn qualified_names_split_on_last_dot() {
    assert_eq!(split_qualified("rerun.components.Point2D"), ("rerun.components".to_string(), "Point2D".to_string()));
    assert_eq!(split_qualified("Bare"), (String::new(), "Bare".to_string()));
}

#[test]
fn element_type_converts_to_type() {
    assert_eq!(Type::from(ElementType::Float16), Type::Float16);
    assert_eq!(Type::from(ElementType::UInt64), Type::UInt64);
    assert_eq!(
        Type::from(ElementType::Object("rerun.datatypes.Vec2D".to_string())),
        Type::Object("rerun.datatypes.Vec2D".to_string())
    );
}

#[test]
fn default_attributes_are_empty() {
    let attrs = Attributes::default();
    assert_eq!(attrs.try_get::<String>("o", "order"), Ok(None));
    assert_eq!(attrs.text("order"), None);
}
