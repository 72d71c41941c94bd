use std::cmp::Ordering;
use lcu_schema::catalog::{is_lcu_or_ingame_library, Plugin, RiotAPILibrary};
use lcu_schema::codec::{
    deserialize_bool_coerced, deserialize_console_url, deserialize_option_string,
    option_string_is_none_or_empty,
};
use lcu_schema::console::complete_from_console;
use lcu_schema::document::build_openapi;
use lcu_schema::error::ParseError;
use lcu_schema::help::{Argument, DataType, Endpoint, ExtendedHelp, HttpMethod, Info, StringMap};
use lcu_schema::json::Json;
use lcu_schema::openapi::{OpenApiInfo, OpenApiSpec, Operation, Param, PathItem, Tag, TypedSchema};
use lcu_schema::table::{apply_endpoint_patches, endpoint_patch_table, EndpointPatch};

fn dt(ty: &str, elem: &str) -> DataType {
    DataType { ty: ty.to_string(), element_type: elem.to_string() }
}

fn arg(name: &str, ty: &str, optional: bool) -> Argument {
    Argument { info: Info { name: name.to_string(), description: String::new() }, is_optional: optional, ty: dt(ty, "") }
}

fn endpoint(name: &str, path: Option<&str>, method: Option<HttpMethod>, args: Vec<Argument>, params: Vec<&str>) -> Endpoint {
    Endpoint {
        info: Info { name: name.to_string(), description: "does things".to_string() },
        namespace: String::new(),
        help: String::new(),
        arguments: args,
        tags: vec![],
        method,
        path: path.map(|p| p.to_string()),
        path_params: params.into_iter().map(|p| p.to_string()).collect(),
        return_ty: dt("string", ""),
        is_async: false,
        is_thread_safe: false,
        is_override: false,
        is_silent_override: false,
    }
}

fn empty_spec() -> OpenApiSpec {
    OpenApiSpec::from(OpenApiInfo { title: "t".to_string(), version: "1".to_string(), description: None })
}

fn param_name(p: &Param) -> (&'static str, String) {
    match p {
        Param::Query { param, .. } => ("query", param.name.clone()),
        Param::Path(s) => ("path", s.name.clone()),
        Param::Header(s) => ("header", s.name.clone()),
        Param::Cookie(s) => ("cookie", s.name.clone()),
        Param::Ref(r) => ("ref", r.clone()),
    }
}

#[test]
fn get_with_two_arguments_has_two_query_parameters() {
    let ep = endpoint(
        "GetThing",
        Some("/lol-thing/v1/{id}"),
        Some(HttpMethod::Get),
        vec![arg("id", "uint64", false), arg("a", "string", false), arg("b", "bool", true)],
        vec!["id"],
    );
    let op = ep.operation(&empty_spec()).unwrap();
    let names: Vec<(&str, String)> = op.parameters.iter().map(param_name).collect();
    assert_eq!(
        names,
        vec![("path", "id".to_string()), ("query", "a".to_string()), ("query", "b".to_string())]
    );
    assert!(op.request_body.is_none());
    assert_eq!(op.tags, vec!["Plugin lol-thing".to_string()]);
    assert_eq!(op.operation_id, Some("GetThing".to_string()));
    assert_eq!(op.responses[0].0, "2XX");
}

#[test]
fn post_with_one_argument_has_a_body() {
    let ep = endpoint("PostThing", Some("/thing"), Some(HttpMethod::Post), vec![arg("body", "Thing", false)], vec![]);
    let op = ep.operation(&empty_spec()).unwrap();
    assert!(op.parameters.is_empty());
    let body = op.request_body.unwrap();
    assert_eq!(body.content[0].0, "application/json");
    assert!(matches!(body.content[0].1.schema.ty, TypedSchema::Ref(_)));
    assert_eq!(op.tags, vec!["thing".to_string()]);
}

#[test]
fn get_with_one_object_argument_flattens_it() {
    let mut spec = empty_spec();
    let help = ExtendedHelp {
        types: vec![lcu_schema::help::Type {
            values: vec![],
            fields: vec![
                lcu_schema::help::Field {
                    info: Info { name: "x".to_string(), description: String::new() },
                    offset: 0,
                    is_optional: false,
                    ty: dt("string", ""),
                },
                lcu_schema::help::Field {
                    info: Info { name: "y".to_string(), description: String::new() },
                    offset: 0,
                    is_optional: false,
                    ty: dt("int32", ""),
                },
            ],
            info: Info { name: "Query".to_string(), description: String::new() },
            namespace: String::new(),
            size: 0,
            tags: vec![],
        }],
        endpoints: vec![],
        events: vec![],
    };
    spec.resolve_components(&help).unwrap();
    let ep = endpoint("GetQ", Some("/q"), Some(HttpMethod::Get), vec![arg("q", "Query", true)], vec![]);
    let op = ep.operation(&spec).unwrap();
    let names: Vec<(&str, String)> = op.parameters.iter().map(param_name).collect();
    assert_eq!(names, vec![("query", "x".to_string()), ("query", "y".to_string())]);
    let missing = endpoint("GetM", Some("/m"), Some(HttpMethod::Get), vec![arg("q", "Missing", true)], vec![]);
    assert!(matches!(missing.operation(&spec), Err(ParseError::InvalidData)));
}

#[test]
fn endpoint_without_path_is_an_error() {
    let ep = endpoint("GetNothing", None, Some(HttpMethod::Get), vec![], vec![]);
    assert!(matches!(ep.operation(&empty_spec()), Err(ParseError::EndpointPathCannotBeNone)));
}

#[test]
fn static_assets_and_declared_tags() {
    let mut ep = endpoint("GetAsset", Some("/{plugin}/assets/x"), Some(HttpMethod::Get), vec![], vec![]);
    ep.tags = vec!["Plugins".to_string(), "extra".to_string(), "extra".to_string()];
    let op = ep.operation(&empty_spec()).unwrap();
    assert_eq!(op.tags, vec!["Plugin Static Assets".to_string(), "extra".to_string()]);
}

fn op_with_tags(tags: &[&str]) -> Operation {
    let ep = endpoint("GetX", Some("/x"), Some(HttpMethod::Get), vec![], vec![]);
    let mut op = ep.operation(&empty_spec()).unwrap();
    op.tags = tags.iter().map(|t| t.to_string()).collect();
    op
}

#[test]
fn tag_resolution_drops_unique_tags_and_keeps_plugin_tags() {
    let mut spec = empty_spec();
    let mut a = PathItem::new();
    a.get = Some(op_with_tags(&["Lonely"]));
    a.post = Some(op_with_tags(&["Shared", "Plugin lol-x"]));
    let mut b = PathItem::new();
    b.get = Some(op_with_tags(&["$Shared"]));
    b.put = Some(op_with_tags(&["Shared"]));
    let mut c = PathItem::new();
    c.get = Some(op_with_tags(&["Plugin only-once"]));
    spec.paths = vec![("/alpha/v1".to_string(), a), ("/beta".to_string(), b), ("".to_string(), c)];
    spec.paths.push(("nothing".to_string(), {
        let mut d = PathItem::new();
        d.get = Some(op_with_tags(&[]));
        d
    }));
    spec.resolve_tags();
    let tags_of = |i: usize| -> Vec<String> {
        let item = &spec.paths[i].1;
        let mut out = vec![];
        for op in [&item.get, &item.post, &item.put] {
            if let Some(op) = op {
                out.push(op.tags.clone());
            }
        }
        out.concat()
    };
    assert_eq!(tags_of(0), vec!["alpha".to_string(), "shared".to_string(), "Plugin lol-x".to_string()]);
    assert_eq!(tags_of(1), vec!["beta".to_string(), "shared".to_string()]);
    assert_eq!(tags_of(2), vec!["Plugin only-once".to_string()]);
    assert_eq!(tags_of(3), vec!["other".to_string()]);
    let names: Vec<String> = spec.tags.iter().map(|t| t.name.clone()).collect();
    assert_eq!(
        names,
        vec![
            "alpha".to_string(),
            "beta".to_string(),
            "shared".to_string(),
            "other".to_string(),
            "Plugin only-once".to_string(),
            "Plugin lol-x".to_string(),
        ]
    );
}

#[test]
fn tag_order() {
    let t = |s: &str| Tag::from(s.to_string());
    assert_eq!(t("a").partial_cmp(&t("Plugin x")), Some(Ordering::Less));
    assert_eq!(t("Plugin lol-a").partial_cmp(&t("Plugin z")), Some(Ordering::Greater));
    assert_eq!(t("other").partial_cmp(&t("zzz")), Some(Ordering::Greater));
    assert_eq!(t("other").partial_cmp(&t("other")), None);
    assert_eq!(t("b").partial_cmp(&t("a")), Some(Ordering::Greater));
}

fn raw(name: &str) -> Json {
    let s = |x: &str| Json::String(x.to_string());
    Json::Object(vec![("name".to_string(), s(name)), ("method".to_string(), s("get")), ("path".to_string(), s(&format!("/{}", name.to_lowercase())))])
}

#[test]
fn test_apply_endpoint_patches_macro() -> Result<(), ParseError> {
    let mut jsons = vec![raw("Help"), raw("Subscribe")];
    let s = |x: &str| Json::String(x.to_string());
    let patches = vec![
        EndpointPatch { name: "Help".to_string(), fields: vec![("method".to_string(), s("post")), ("path".to_string(), s("/Help"))] },
        EndpointPatch {
            name: "Subscribe".to_string(),
            fields: vec![("method".to_string(), s("post")), ("path".to_string(), s("/Subscribe"))],
        },
    ];
    apply_endpoint_patches(&mut jsons, &patches)?;
    let field = |j: &Json, k: &str| j.get(k).and_then(|v| v.as_str()).map(|v| v.to_string());
    assert_eq!(field(&jsons[0], "method"), Some("post".to_string()));
    assert_eq!(field(&jsons[0], "path"), Some("/Help".to_string()));
    assert_eq!(field(&jsons[1], "method"), Some("post".to_string()));
    assert_eq!(field(&jsons[1], "path"), Some("/Subscribe".to_string()));
    Ok(())
}

#[test]
fn patch_table_needs_every_named_endpoint() {
    let table = endpoint_patch_table();
    assert_eq!(table.len(), 15);
    let mut jsons = vec![raw("Help")];
    assert_eq!(apply_endpoint_patches(&mut jsons, &table), Err(ParseError::InvalidData));
    let mut nameless = vec![Json::Object(vec![])];
    let only = vec![EndpointPatch { name: "Help".to_string(), fields: vec![] }];
    assert_eq!(apply_endpoint_patches(&mut nameless, &only), Err(ParseError::InvalidData));
}

#[test]
fn test_deserialize_option_string() {
    assert_eq!(deserialize_option_string(None), Ok(None));
    assert_eq!(deserialize_option_string(Some(&Json::Null)), Ok(None));
    assert_eq!(deserialize_option_string(Some(&Json::String("".to_string()))), Ok(None));
    assert_eq!(deserialize_option_string(Some(&Json::String("null".to_string()))), Ok(None));
    assert_eq!(deserialize_option_string(Some(&Json::String("hello".to_string()))), Ok(Some("hello".to_string())));
    assert!(deserialize_option_string(Some(&Json::Bool(true))).is_err());
}

#[test]
fn lenient_readings() {
    assert!(option_string_is_none_or_empty(&None));
    assert!(option_string_is_none_or_empty(&Some(String::new())));
    assert!(!option_string_is_none_or_empty(&Some("x".to_string())));
    assert_eq!(deserialize_console_url(""), None);
    assert_eq!(deserialize_console_url("lol-x/v1"), Some("/lol-x/v1".to_string()));
    assert_eq!(deserialize_console_url("/a"), Some("/a".to_string()));
    let st = |x: &str| Json::String(x.to_string());
    assert_eq!(deserialize_bool_coerced(&st("  YES ")), Ok(true));
    assert_eq!(deserialize_bool_coerced(&st("Off")), Ok(false));
    assert_eq!(deserialize_bool_coerced(&st("")), Ok(false));
    assert!(deserialize_bool_coerced(&st("maybe")).is_err());
    assert_eq!(deserialize_bool_coerced(&Json::Number("0".to_string())), Ok(false));
    assert_eq!(deserialize_bool_coerced(&Json::Number("-3".to_string())), Ok(true));
    assert_eq!(deserialize_bool_coerced(&Json::Number("1.5".to_string())), Ok(false));
    assert_eq!(deserialize_bool_coerced(&Json::Bool(true)), Ok(true));
    assert!(deserialize_bool_coerced(&Json::Null).is_err());
}

#[test]
fn console_detail_completes_an_endpoint() {
    let mut ep = endpoint("DeleteLolThing", None, None, vec![], vec![]);
    complete_from_console(&mut ep, None, Some("/lol-thing/v1/{id}/{+path}".to_string()));
    assert_eq!(ep.method, Some(HttpMethod::Delete));
    assert_eq!(ep.path, Some("/lol-thing/v1/{id}/{+path}".to_string()));
    assert_eq!(ep.path_params, vec!["id".to_string(), "+path".to_string()]);
    let mut other = endpoint("Weird", None, None, vec![], vec![]);
    complete_from_console(&mut other, Some(HttpMethod::Put), None);
    assert_eq!(other.method, Some(HttpMethod::Put));
    assert!(other.path_params.is_empty());
    assert_eq!(HttpMethod::from_str("Nope"), Err(ParseError::UnknownHttpMethod));
    assert_eq!(HttpMethod::from_verb(&Json::String("pAtCh".to_string())), Ok(HttpMethod::Patch));
    assert_eq!(HttpMethod::from_verb(&Json::Null), Ok(HttpMethod::Get));
    assert!(HttpMethod::Get.is_get());
}

#[test]
fn build_document_end_to_end() {
    let help = ExtendedHelp {
        types: vec![],
        endpoints: vec![
            endpoint("GetA", Some("/a/1"), Some(HttpMethod::Get), vec![], vec![]),
            endpoint("PostA", Some("/a/1"), Some(HttpMethod::Post), vec![arg("x", "string", false)], vec![]),
        ],
        events: vec![],
    };
    let mut broken = ExtendedHelp { types: vec![], endpoints: vec![endpoint("NoPath", None, Some(HttpMethod::Get), vec![], vec![])], events: vec![] };
    let info = || OpenApiInfo { title: "t".to_string(), version: "1".to_string(), description: None };
    assert!(matches!(build_openapi(info(), &broken), Err(ParseError::EndpointPathCannotBeNone)));
    broken.endpoints.clear();
    assert!(build_openapi(info(), &broken).unwrap().paths.is_empty());
    let spec = build_openapi(OpenApiInfo { title: "t".to_string(), version: "1".to_string(), description: None }, &help).unwrap();
    assert_eq!(spec.openapi, "3.0.0");
    assert_eq!(spec.paths.len(), 1);
    assert!(spec.paths[0].1.get.is_some() && spec.paths[0].1.post.is_some());
    assert_eq!(spec.tags.len(), 1);
    assert_eq!(spec.tags[0].name, "a");
}

#[test]
fn string_map_and_catalog() {
    let m = StringMap { values: vec![("a".to_string(), "x".to_string())], empty: vec!["b".to_string()] };
    assert_eq!(m.get("a"), Some(&"x".to_string()));
    assert_eq!(m.get("b"), None);
    assert!(m.contains_key("b") && !m.contains_key("c"));
    assert_eq!(m.keys(), vec!["a".to_string(), "b".to_string()]);
    let lib = RiotAPILibrary { owner: "o".to_string(), repo: "r".to_string(), language: "rust".to_string(), tags: Some(vec!["ingame".to_string()]) };
    assert!(is_lcu_or_ingame_library(&lib));
    let none = RiotAPILibrary { tags: None, ..lib.clone() };
    assert!(!is_lcu_or_ingame_library(&none));
    let p = Plugin::new("get", "/x", "t", op_with_tags(&["t"]));
    assert_eq!((p.method(), p.path(), p.tag()), ("get".to_string(), "/x".to_string(), "t".to_string()));
    assert_eq!(p.operation().tags, vec!["t".to_string()]);
    assert!(DataType::string().ty == "string" && dt("object", "").is_generic_object());
}

#[test]
fn it_works() {}

#[test]
fn null_method_means_get() {
    let ep = endpoint("Anything", Some("/x"), None, vec![arg("q", "string", false)], vec![]);
    let op = ep.operation(&empty_spec()).unwrap();
    let names: Vec<(&str, String)> = op.parameters.iter().map(param_name).collect();
    assert_eq!(names, vec![("query", "q".to_string())]);
    assert!(op.request_body.is_none());
    let help = ExtendedHelp { types: vec![], endpoints: vec![ep], events: vec![] };
    let spec = build_openapi(OpenApiInfo { title: "t".to_string(), version: "1".to_string(), description: None }, &help).unwrap();
    assert!(spec.paths[0].1.get.is_some());
}

#[test]
fn only_a_leading_dollar_goes() {
    let mut spec = empty_spec();
    let mut a = PathItem::new();
    a.get = Some(op_with_tags(&["$Core", "a$b", "Plugin $x"]));
    let mut b = PathItem::new();
    b.get = Some(op_with_tags(&["$Core", "a$b"]));
    spec.paths = vec![("/one".to_string(), a), ("/two".to_string(), b)];
    spec.resolve_tags();
    let tags = spec.paths[0].1.get.as_ref().unwrap().tags.clone();
    assert_eq!(tags, vec!["core".to_string(), "a$b".to_string(), "Plugin $x".to_string()]);
    assert!(spec.tags.iter().all(|t| t.description.is_none() && t.external_docs.is_none()));
}

#[test]
fn parameter_styles() {
    let ep = endpoint("GetP", Some("/p/{id}"), Some(HttpMethod::Get), vec![arg("id", "string", false), arg("a", "string", false), arg("b", "string", false)], vec!["id"]);
    let op = ep.operation(&empty_spec()).unwrap();
    match &op.parameters[0] {
        Param::Path(s) => assert_eq!(s.style, lcu_schema::openapi::ParamStyle::Simple),
        other => panic!("unexpected {:?}", other),
    }
    match &op.parameters[1] {
        Param::Query { param, allow_reserved } => {
            assert_eq!(param.style, lcu_schema::openapi::ParamStyle::Form);
            assert!(!allow_reserved);
        },
        other => panic!("unexpected {:?}", other),
    }
    assert!(op.responses[0].1.description.is_none());
}

#[test]
fn placeholders_do_not_cross_newlines() {
    let mut ep = endpoint("GetX", None, None, vec![], vec![]);
    complete_from_console(&mut ep, None, Some("/x/{a\nb}/{c}/{{d}}".to_string()));
    assert_eq!(ep.path_params, vec!["c".to_string(), "{d".to_string()]);
}
