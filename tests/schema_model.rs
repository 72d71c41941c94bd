use lcu_schema::help::{seq_first, DataType, Field, Info, StringMap, Type, Value};
use lcu_schema::openapi::{Param, ParamOptions, ParamStyle};
use lcu_schema::json::Json;
use lcu_schema::openapi::{
    AdditionalProperties, EnumKey, EnumVariant, IntegerFormat, NumberFormat, SchemaObject,
    StringSchema, TypedSchema,
};
use lcu_schema::order::{serialize_strings_sorted, sort_enum_variants};
use lcu_schema::error::ParseError;

fn dt(ty: &str, elem: &str) -> DataType {
    DataType { ty: ty.to_string(), element_type: elem.to_string() }
}

fn info(name: &str) -> Info {
    Info { name: name.to_string(), description: String::new() }
}

#[test]
fn enum_key_partial_ord() {
    let a = EnumKey::Null;
    let b = EnumKey::string("A");
    let c = EnumKey::string("B");
    assert!(a < b);
    assert!(b < c);
    assert!(a < c);
}

#[test]
fn should_sort_by_key_when_all_keys_are_not_none() {
    let mut items = vec![
        EnumVariant { name: Some("Y".to_string()), key: EnumKey::string("C"), description: None },
        EnumVariant { name: None, key: EnumKey::string("B"), description: None },
        EnumVariant { name: Some("Z".to_string()), key: EnumKey::string("A"), description: None },
    ];
    sort_enum_variants(&mut items);
    assert_eq!(items[0].key, EnumKey::string("A"));
    assert_eq!(items[1].key, EnumKey::string("B"));
    assert_eq!(items[2].key, EnumKey::string("C"));
}

#[test]
fn should_sort_by_name_when_some_keys_are_none() {
    let mut items = vec![
        EnumVariant { name: None, key: EnumKey::string("A"), description: None },
        EnumVariant { name: Some("A".to_string()), key: EnumKey::Null, description: None },
        EnumVariant { name: Some("B".to_string()), key: EnumKey::string("B"), description: None },
    ];
    sort_enum_variants(&mut items);
    assert_eq!(items[0].name, None);
    assert_eq!(items[1].name, Some("A".to_string()));
    assert_eq!(items[2].name, Some("B".to_string()));
}

#[test]
fn should_fold_enum_and_description_and_preserve_order() {
    let s = |x: &str| Json::String(x.to_string());
    let ty_schema = Json::Object(vec![
        ("type".to_string(), s("string")),
        ("enum".to_string(), Json::Array(vec![s("B"), s("A"), s("C")])),
        ("x-enum-description".to_string(), Json::Array(vec![s("B-Desc"), s("A-Desc"), s("C-Desc")])),
    ]);
    let ty_schema = StringSchema::from_json(&ty_schema).unwrap();
    println!("ty_schema: {:#?}", ty_schema);
    let expected = StringSchema(vec![
        EnumVariant {
            name: Some("B".to_string()),
            key: EnumKey::String("B".to_string()),
            description: Some("B-Desc".to_string()),
        },
        EnumVariant {
            name: Some("A".to_string()),
            key: EnumKey::String("A".to_string()),
            description: Some("A-Desc".to_string()),
        },
        EnumVariant {
            name: Some("C".to_string()),
            key: EnumKey::String("C".to_string()),
            description: Some("C-Desc".to_string()),
        },
    ]);
    assert_eq!(ty_schema, expected);
}

#[test]
fn enum_values_of_other_kinds() {
    let j = Json::Object(vec![(
        "enum".to_string(),
        Json::Array(vec![Json::Bool(true), Json::Number("7".to_string()), Json::Null]),
    )]);
    let got = StringSchema::from_json(&j).unwrap();
    assert_eq!(got.0[0].name, Some("true".to_string()));
    assert_eq!(got.0[1].key, EnumKey::Number("7".to_string()));
    assert_eq!(got.0[2], EnumVariant::none());
    let bad = Json::Object(vec![("enum".to_string(), Json::Array(vec![Json::Array(vec![])]))]);
    assert_eq!(StringSchema::from_json(&bad), Err(ParseError::UnsupportedEnumValue));
}

#[test]
fn test_serialize_strings_sorted() {
    let strings = vec!["banana".to_string(), "apple".to_string()];
    let sorted = serialize_strings_sorted(&strings);
    let serialized = serde_json::to_string(&sorted).unwrap();
    assert_eq!(serialized, r#"["apple","banana"]"#);
}

#[test]
fn mixed_key_kinds_sort_bool_number_string() {
    let mut items = vec![
        EnumVariant { name: None, key: EnumKey::string("a"), description: None },
        EnumVariant { name: None, key: EnumKey::Number("10".to_string()), description: None },
        EnumVariant { name: None, key: EnumKey::Bool(true), description: None },
        EnumVariant { name: None, key: EnumKey::Number("2".to_string()), description: None },
        EnumVariant { name: None, key: EnumKey::Bool(false), description: None },
    ];
    sort_enum_variants(&mut items);
    let keys: Vec<EnumKey> = items.into_iter().map(|v| v.key).collect();
    assert_eq!(
        keys,
        vec![
            EnumKey::Bool(false),
            EnumKey::Bool(true),
            EnumKey::Number("10".to_string()),
            EnumKey::Number("2".to_string()),
            EnumKey::string("a"),
        ]
    );
}

#[test]
fn array_of_string_resolves_to_array_of_string() {
    let s = SchemaObject::try_from_data_type(&dt("array", "string")).unwrap();
    match s.ty {
        TypedSchema::Array(a) => match a.items.ty {
            TypedSchema::String(v) => assert!(v.0.is_empty()),
            other => panic!("unexpected items {:?}", other),
        },
        other => panic!("unexpected {:?}", other),
    }
}

#[test]
fn generic_object_resolves_to_unconstrained_object() {
    let s = SchemaObject::try_from_data_type(&dt("object", "")).unwrap();
    match s.ty {
        TypedSchema::Object(o) => {
            assert!(o.properties.is_empty());
            assert!(matches!(o.additional_properties, AdditionalProperties::Bool(true)));
        },
        other => panic!("unexpected {:?}", other),
    }
}

#[test]
fn unknown_name_resolves_to_reference() {
    let s = SchemaObject::try_from_data_type(&dt("Foo", "")).unwrap();
    match s.ty {
        TypedSchema::Ref(r) => assert_eq!(r.ref_, "#/components/schemas/Foo"),
        other => panic!("unexpected {:?}", other),
    }
    let r = SchemaObject::component_ref("/#/components/schemas/Bar");
    match r.ty {
        TypedSchema::Ref(r) => assert_eq!(r.ref_, "#/components/schemas/Bar"),
        other => panic!("unexpected {:?}", other),
    }
}

#[test]
fn map_and_numeric_formats() {
    let s = SchemaObject::try_from_data_type(&dt("map", "int64")).unwrap();
    match s.ty {
        TypedSchema::Object(o) => match o.additional_properties {
            AdditionalProperties::Schema(inner) => match inner.ty {
                TypedSchema::Integer(i) => assert_eq!(i.format, Some(IntegerFormat::Int64)),
                other => panic!("unexpected {:?}", other),
            },
            other => panic!("unexpected {:?}", other),
        },
        other => panic!("unexpected {:?}", other),
    }
    let d = SchemaObject::try_from_data_type(&dt("double", "")).unwrap();
    assert!(matches!(d.ty, TypedSchema::Number(ref n) if n.format == Some(NumberFormat::Double)));
    assert_eq!(
        SchemaObject::try_from_data_type(&dt("vector", "array")).unwrap_err(),
        ParseError::VectorTypesShouldBeParsed
    );
    assert_eq!(IntegerFormat::from_str("int9"), Err(ParseError::FormatIsNotAnInteger));
    assert_eq!(NumberFormat::from_str("real"), Err(ParseError::FormatIsNotANumber));
    assert!(matches!(SchemaObject::try_parse_item_type("object"), Err(ParseError::ObjectTypesShouldBeParsed)));
}

#[test]
fn object_type_keeps_first_field_and_lists_required() {
    let f = |name: &str, opt: bool, ty: &str| Field { info: info(name), offset: 0, is_optional: opt, ty: dt(ty, "") };
    let ty = Type {
        values: vec![],
        fields: vec![f("a", false, "string"), f("b", true, "bool"), f("a", true, "int32")],
        info: info("T"),
        namespace: String::new(),
        size: 0,
        tags: vec![],
    };
    let s = SchemaObject::try_from_type(&ty).unwrap();
    match s.ty {
        TypedSchema::Object(o) => {
            assert_eq!(o.properties.len(), 2);
            assert_eq!(o.properties[0].0, "a");
            assert!(matches!(o.properties[0].1.ty, TypedSchema::String(_)));
            assert_eq!(o.required, vec!["a".to_string()]);
            assert!(matches!(o.additional_properties, AdditionalProperties::Bool(false)));
        },
        other => panic!("unexpected {:?}", other),
    }
}

#[test]
fn enum_type_sorts_its_values() {
    let v = |name: &str, val: Json| Value { name: name.to_string(), description: String::new(), value: val };
    let ty = Type {
        values: vec![
            v("C", Json::String("C".to_string())),
            v("B", Json::String("B".to_string())),
            v("A", Json::String("A".to_string())),
        ],
        fields: vec![],
        info: info("E"),
        namespace: String::new(),
        size: 0,
        tags: vec![],
    };
    let s = SchemaObject::try_from_type(&ty).unwrap();
    match s.ty {
        TypedSchema::String(v) => {
            let keys: Vec<EnumKey> = v.0.into_iter().map(|x| x.key).collect();
            assert_eq!(keys, vec![EnumKey::string("A"), EnumKey::string("B"), EnumKey::string("C")]);
        },
        other => panic!("unexpected {:?}", other),
    }
    let empty = Type { values: vec![], fields: vec![], info: info("P"), namespace: String::new(), size: 0, tags: vec![] };
    assert_eq!(SchemaObject::try_from_type(&empty).unwrap_err(), ParseError::PrivateApiTypeNotSupported);
}

#[test]
fn wire_forms() {
    let named = EnumVariant { name: Some("Shown".to_string()), key: EnumKey::Number("3".to_string()), description: None };
    assert!(matches!(named.wire_value(), Json::String(ref s) if s == "Shown"));
    let bare = EnumVariant { name: None, key: EnumKey::Number("3".to_string()), description: None };
    assert!(matches!(bare.wire_value(), Json::Number(ref s) if s == "3"));
    let opts = || ParamOptions::of(SchemaObject::string(), true);
    match Param::from_wire("q".to_string(), "QUERY", None, opts(), false).unwrap() {
        Param::Query { param, .. } => assert_eq!(param.style, ParamStyle::Form),
        other => panic!("unexpected {:?}", other),
    }
    match Param::from_wire("h".to_string(), "Header", Some(ParamStyle::Label), opts(), false).unwrap() {
        Param::Header(p) => assert_eq!(p.style, ParamStyle::Label),
        other => panic!("unexpected {:?}", other),
    }
    assert!(Param::from_wire("x".to_string(), "body", None, opts(), false).is_err());
    let m = StringMap::from_entries(&vec![("a".to_string(), "x".to_string()), ("b".to_string(), String::new())]);
    assert_eq!(m.values, vec![("a".to_string(), "x".to_string())]);
    assert_eq!(m.empty, vec!["b".to_string()]);
    let listing = Json::Array(vec![Json::Bool(true)]);
    assert!(matches!(seq_first(&listing), Ok(Json::Bool(true))));
    assert!(seq_first(&Json::Array(vec![])).is_err());
}

#[test]
fn equal_names_keep_their_order() {
    let mut items = vec![
        EnumVariant { name: Some("B".to_string()), key: EnumKey::Null, description: Some("first".to_string()) },
        EnumVariant { name: Some("A".to_string()), key: EnumKey::Null, description: None },
        EnumVariant { name: Some("B".to_string()), key: EnumKey::Null, description: Some("second".to_string()) },
    ];
    sort_enum_variants(&mut items);
    assert_eq!(items[0].name, Some("A".to_string()));
    assert_eq!(items[1].description, Some("first".to_string()));
    assert_eq!(items[2].description, Some("second".to_string()));
}
