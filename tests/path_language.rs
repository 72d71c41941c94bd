use lcu_schema::error::{ParseError, SyntaxError};
use lcu_schema::json::Json;
use lcu_schema::patch::{DotPathIterator, DotPathStr, DotToken, Wildcard};

fn s(x: &str) -> Json {
    Json::String(x.to_string())
}

fn n(x: &str) -> Json {
    Json::Number(x.to_string())
}

fn obj(pairs: Vec<(&str, Json)>) -> Json {
    Json::Object(pairs.into_iter().map(|(k, v)| (k.to_string(), v)).collect())
}

fn arr(items: Vec<Json>) -> Json {
    Json::Array(items)
}

fn show(j: &Json) -> String {
    format!("{:?}", j)
}

fn sample() -> Json {
    obj(vec![
        (
            "a",
            obj(vec![
                ("b", arr(vec![obj(vec![("c", n("1")), ("d", n("2"))]), obj(vec![("d", n("2"))])])),
                ("e", n("3")),
            ]),
        ),
        ("f", arr(vec![obj(vec![("g", n("4"))]), obj(vec![("h", n("5"))])])),
    ])
}

#[test]
fn test_dot_path() -> Result<(), SyntaxError> {
    let path = DotPathStr("a.1.*.d");
    let tokens = path.tokenize()?;
    assert_eq!(tokens.len(), 4);
    assert_eq!(tokens[0], DotToken::Property("a".to_string()));
    assert_eq!(tokens[1], DotToken::Index(1));
    assert_eq!(tokens[2], DotToken::Wildcard(Wildcard::Once));
    assert_eq!(tokens[3], DotToken::Property("d".to_string()));
    Ok(())
}

#[test]
fn test_dot_path_iterator() -> Result<(), SyntaxError> {
    let path = DotPathStr("a.1.**.d");
    let mut iter = DotPathIterator::try_from(&path)?;
    assert_eq!(iter.next(), Some(DotToken::Property("a".to_string())));
    assert_eq!(iter.next(), Some(DotToken::Index(1)));
    assert_eq!(iter.next(), Some(DotToken::Wildcard(Wildcard::UntilNext)));
    assert_eq!(iter.next(), Some(DotToken::Property("d".to_string())));
    assert_eq!(iter.next(), None);
    Ok(())
}

#[test]
fn test_dot_path_display() -> Result<(), SyntaxError> {
    let path = DotPathStr("a.1.*.d");
    let iter = DotPathIterator::try_from(&path)?;
    let display = iter.to_string();
    assert_eq!(display, "a.1.*.d");
    Ok(())
}

#[test]
fn test_patch() {
    let mut json = sample();
    let path = DotPathStr("a.b.*.d");
    let value = n("200");
    json.patch_mut(path, Some(value)).unwrap();
    let expected = obj(vec![
        (
            "a",
            obj(vec![
                ("b", arr(vec![obj(vec![("c", n("1")), ("d", n("200"))]), obj(vec![("d", n("200"))])])),
                ("e", n("3")),
            ]),
        ),
        ("f", arr(vec![obj(vec![("g", n("4"))]), obj(vec![("h", n("5"))])])),
    ]);
    assert_eq!(show(&json), show(&expected));
}

#[test]
fn test_dot_path_patch_create_new() -> Result<(), ParseError> {
    let mut json = sample();
    let path = DotPathStr("a.b.*.x");
    let value = n("200");
    let result = json.patch_mut(path, Some(value))?;
    let expected = obj(vec![
        (
            "a",
            obj(vec![
                (
                    "b",
                    arr(vec![
                        obj(vec![("c", n("1")), ("d", n("2")), ("x", n("200"))]),
                        obj(vec![("d", n("2")), ("x", n("200"))]),
                    ]),
                ),
                ("e", n("3")),
            ]),
        ),
        ("f", arr(vec![obj(vec![("g", n("4"))]), obj(vec![("h", n("5"))])])),
    ]);
    assert_eq!(show(&json), show(&expected));
    Ok(result)
}

#[test]
fn test_get() {
    let json = sample();
    let path = DotPathStr("a.b.0.d");
    let values = json.navigate(path, false).unwrap();
    println!("Values: {:?}", values);
    assert_eq!(values.len(), 1);
    assert_eq!(show(&values[0]), show(&n("2")));
}

fn wilds_sample() -> Json {
    obj(vec![
        (
            "a",
            obj(vec![(
                "org",
                obj(vec![(
                    "groups",
                    arr(vec![
                        obj(vec![("info", obj(vec![("name", s("Org Group 0"))]))]),
                        obj(vec![("info", obj(vec![("name", s("Org Group 1"))]))]),
                    ]),
                )]),
            )]),
        ),
        (
            "b",
            obj(vec![(
                "com",
                obj(vec![(
                    "channels",
                    arr(vec![
                        obj(vec![
                            ("group", obj(vec![("info", obj(vec![("name", s("Com Channel 0 Group Name"))]))])),
                            ("info", obj(vec![("name", s("Com Channel 0"))])),
                        ]),
                        obj(vec![("info", obj(vec![("name", s("Com Group 1"))]))]),
                    ]),
                )]),
            )]),
        ),
    ])
}

#[test]
fn test_wilds() {
    let json = wilds_sample();
    let path = DotPathStr("**.name");
    let values = json.navigate(path, true).unwrap();
    assert_eq!(values.len(), 5);
    assert_eq!(show(&values[0]), show(&s("Org Group 0")));
    assert_eq!(show(&values[1]), show(&s("Org Group 1")));
    assert_eq!(show(&values[2]), show(&s("Com Channel 0 Group Name")));
    assert_eq!(show(&values[3]), show(&s("Com Channel 0")));
    assert_eq!(show(&values[4]), show(&s("Com Group 1")));
}

#[test]
fn tokenize_then_render_gives_back_the_path() {
    for p in ["a.1.*.d", "a.b.**.name", "x", "0.1.2", "**.k"] {
        let path = DotPathStr(p);
        let it = DotPathIterator::try_from(&path).unwrap();
        assert_eq!(it.to_string(), p);
    }
}

#[test]
fn quoted_segment_is_a_literal_property() {
    let tokens = DotPathStr("\"5\".x").tokenize().unwrap();
    assert_eq!(tokens[0], DotToken::Property("5".to_string()));
    assert_eq!(tokens[1], DotToken::Property("x".to_string()));
    let tokens = DotPathStr("+7.007").tokenize().unwrap();
    assert_eq!(tokens[0], DotToken::Index(7));
    assert_eq!(tokens[1], DotToken::Index(7));
    let tokens = DotPathStr("99999999999999999999999").tokenize().unwrap();
    assert_eq!(tokens[0], DotToken::Property("99999999999999999999999".to_string()));
}

#[test]
fn token_helpers() {
    let t = DotToken::Index(3);
    assert_eq!(t.as_index(), Some(&3));
    assert_eq!(DotToken::Property("p".to_string()).as_index(), None);
    let rest = vec![DotToken::Wildcard(Wildcard::UntilNext), DotToken::Property("x".to_string())];
    assert_eq!(DotToken::Index(12).prepend_to(&rest), "12.**.x");
}

#[test]
fn patch_twice_is_patch_once() {
    let mut once = sample();
    once.patch_mut(DotPathStr("a.b.1.z.w"), Some(s("v"))).unwrap();
    let mut twice = sample();
    twice.patch_mut(DotPathStr("a.b.1.z.w"), Some(s("v"))).unwrap();
    twice.patch_mut(DotPathStr("a.b.1.z.w"), Some(s("v"))).unwrap();
    assert_eq!(show(&once), show(&twice));
}

#[test]
fn patch_extends_array_with_nulls_and_removes() {
    let mut j = obj(vec![("l", arr(vec![n("1")]))]);
    j.patch_mut(DotPathStr("l.3"), Some(n("9"))).unwrap();
    assert_eq!(show(&j), show(&obj(vec![("l", arr(vec![n("1"), Json::Null, Json::Null, n("9")]))])));
    j.patch_mut(DotPathStr("l.0"), None).unwrap();
    assert_eq!(show(&j), show(&obj(vec![("l", arr(vec![Json::Null, Json::Null, n("9")]))])));
    j.patch_mut(DotPathStr("l"), None).unwrap();
    assert_eq!(show(&j), show(&obj(vec![])));
}

#[test]
fn patch_errors_leave_the_value_alone() {
    let mut j = sample();
    let before = show(&j);
    assert_eq!(j.patch_mut(DotPathStr("a.e.x"), Some(n("1"))), Err(ParseError::PathTraversal));
    assert_eq!(j.patch_mut(DotPathStr("a.b.9.d"), Some(n("1"))), Err(ParseError::PathTraversal));
    assert_eq!(j.patch_mut(DotPathStr("a.e.*"), Some(n("1"))), Err(ParseError::PathTraversal));
    assert_eq!(j.patch_mut(DotPathStr("a.**"), Some(n("1"))), Err(ParseError::PathTraversal));
    assert_eq!(show(&j), before);
}

#[test]
fn until_next_patch_touches_what_navigate_reads() {
    let mut j = wilds_sample();
    let read = j.navigate(DotPathStr("**.name"), false).unwrap();
    assert_eq!(read.len(), 5);
    j.patch_mut(DotPathStr("**.name"), Some(s("X"))).unwrap();
    let after = j.navigate(DotPathStr("**.name"), false).unwrap();
    assert_eq!(after.len(), 5);
    for v in &after {
        assert_eq!(show(v), show(&s("X")));
    }
}

#[test]
fn navigate_misses_are_errors_outside_wildcards() {
    let j = sample();
    assert!(matches!(j.navigate(DotPathStr("a.zz"), false), Err(ParseError::PathTraversal)));
    assert_eq!(j.navigate(DotPathStr("a.zz"), true).unwrap().len(), 0);
    let all = j.navigate(DotPathStr("f.*.g"), false).unwrap();
    assert_eq!(all.len(), 1);
    assert_eq!(show(&all[0]), show(&n("4")));
    let leaves = j.navigate(DotPathStr("f.**"), false).unwrap();
    assert_eq!(leaves.len(), 2);
}
