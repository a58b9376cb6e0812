use agent_engine::json::Json;

#[test]
fn json_is_held_compact() {
    assert_eq!(Json::parse(" { \"b\" : [1, 2.5] , \"a\":null } ").unwrap().text, "{\"a\":null,\"b\":[1,2.5]}");
    assert!(Json::parse("{").is_none());
    assert!(Json::parse("").is_none());
}

#[test]
fn strings_are_read_back() {
    for s in ["", "plain", "q\"uote", "back\\slash", "line\nfeed\ttab", "日本\u{0}\u{7f}", "{}"] {
        let v = Json::string(s);
        assert_eq!(v.as_str().unwrap(), s);
        assert_eq!(Json::parse(&v.text).unwrap().text, v.text);
    }
    assert!(Json::number(3).as_str().is_none());
}

#[test]
fn objects_give_their_fields_back() {
    let o = Json::object3("a", Json::string("x"), "b", Json::number(7), "c", Json::null());
    assert_eq!(o.text, "{\"a\":\"x\",\"b\":7,\"c\":null}");
    assert_eq!(o.get("a").unwrap().text, "\"x\"");
    assert_eq!(o.str_member("a").unwrap(), "x");
    assert_eq!(o.u64_member("b"), Some(7));
    assert_eq!(o.get("c").unwrap().text, "null");
    assert!(o.get("d").is_none());
    assert_eq!(o.index("d").text, "null");
    assert!(o.str_member("b").is_none());
    assert!(o.u64_member("a").is_none());
}

#[test]
fn the_last_of_equal_keys_counts() {
    let fields = vec![("k".to_string(), Json::number(1)), ("k".to_string(), Json::number(2))];
    assert_eq!(Json::object(&fields).text, "{\"k\":2}");
}

#[test]
fn arrays_give_their_items() {
    let a = Json::array(&vec![Json::bool(true), Json::bool(false), Json::string("x")]);
    assert_eq!(a.text, "[true,false,\"x\"]");
    let items: Vec<String> = a.as_array().unwrap().into_iter().map(|i| i.text).collect();
    assert_eq!(items, vec!["true", "false", "\"x\""]);
    assert!(Json::null().as_array().is_none());
}

#[test]
fn text_that_is_no_json_counts_as_null() {
    let broken = Json { text: "oops".to_string() };
    assert_eq!(Json::array(&vec![broken.clone()]).text, "[null]");
    assert_eq!(Json::object1("k", broken).text, "{\"k\":null}");
}

#[test]
fn deep_nesting_is_refused() {
    let deep = format!("{}{}", "[".repeat(127), "]".repeat(127));
    assert!(Json::parse(&deep).is_some());
    let o = Json::object1("k", Json { text: deep.clone() });
    assert!(Json::parse(&o.text).is_none() || o.get("k").unwrap().text == deep);
    let deeper = format!("{}{}", "[".repeat(200), "]".repeat(200));
    assert!(Json::parse(&deeper).is_none());
}

#[test]
fn numbers_are_unsigned_integers_only() {
    assert_eq!(Json::parse("18446744073709551615").unwrap().as_u64(), Some(u64::MAX));
    assert_eq!(Json::parse("-1").unwrap().as_u64(), None);
    assert_eq!(Json::parse("1.5").unwrap().as_u64(), None);
}
