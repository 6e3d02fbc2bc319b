use kv_fetch::listing::parse_key_listing;

#[test]
fn plain_listing_yields_names_in_order() {
    let body = r#"{"result":[{"name":"alpha-1"},{"name":"beta-2"},{"name":"alpha-3"}]}"#;
    let entries = parse_key_listing(body).expect("a well-formed listing decodes");
    let names: Vec<&str> = entries.iter().map(|e| e.name.as_str()).collect();
    assert_eq!(names, vec!["alpha-1", "beta-2", "alpha-3"]);
    assert!(entries.iter().all(|e| e.metadata.is_none()));
}

#[test]
fn whitespace_between_tokens_is_ignored() {
    let body = " {\n\t\"result\" :\r\n [ { \"name\" : \"k1\" } , { \"name\" : \"k2\" } ] } ";
    let entries = parse_key_listing(body).expect("whitespace does not matter");
    assert_eq!(entries.len(), 2);
    assert_eq!(entries[0].name, "k1");
    assert_eq!(entries[1].name, "k2");
}

#[test]
fn empty_result_array_yields_no_entries() {
    let entries = parse_key_listing(r#"{"result":[]}"#).expect("an empty listing decodes");
    assert!(entries.is_empty());
    let entries = parse_key_listing(r#"{"result":[ ]}"#).expect("an empty listing decodes");
    assert!(entries.is_empty());
}

#[test]
fn metadata_is_kept_as_raw_text() {
    let body = r#"{"result":[{"name":"k1","metadata":{"a":[1,2,{"b":"]"}],"c":null}}]}"#;
    let entries = parse_key_listing(body).expect("metadata of any shape is skipped");
    assert_eq!(entries[0].name, "k1");
    assert_eq!(
        entries[0].metadata.as_deref(),
        Some(r#"{"a":[1,2,{"b":"]"}],"c":null}"#)
    );
}

#[test]
fn metadata_before_name_is_accepted() {
    let body = r#"{"result":[{"metadata":7,"name":"k1"}]}"#;
    let entries = parse_key_listing(body).expect("member order does not matter");
    assert_eq!(entries[0].name, "k1");
    assert_eq!(entries[0].metadata.as_deref(), Some("7"));
}

#[test]
fn unknown_members_are_skipped() {
    let body = r#"{"success":true,"errors":[],"messages":[],"result":[{"name":"k1","expiration":170,"extra":"x"}],"result_info":{"count":1,"cursor":""}}"#;
    let entries = parse_key_listing(body).expect("unknown members are skipped");
    assert_eq!(entries.len(), 1);
    assert_eq!(entries[0].name, "k1");
}

#[test]
fn body_without_result_member_is_refused() {
    assert!(parse_key_listing(r#"{"success":true}"#).is_none());
    assert!(parse_key_listing(r#"{}"#).is_none());
}

#[test]
fn body_that_is_not_an_object_is_refused() {
    assert!(parse_key_listing("").is_none());
    assert!(parse_key_listing("   ").is_none());
    assert!(parse_key_listing("[]").is_none());
    assert!(parse_key_listing("not json at all").is_none());
    assert!(parse_key_listing(r#""result""#).is_none());
}

#[test]
fn truncated_bodies_are_refused() {
    assert!(parse_key_listing(r#"{"result":[{"name":"k1"}"#).is_none());
    assert!(parse_key_listing(r#"{"result":[{"name":"k1"#).is_none());
    assert!(parse_key_listing(r#"{"result":["#).is_none());
    assert!(parse_key_listing(r#"{"result""#).is_none());
}

#[test]
fn trailing_content_is_refused() {
    assert!(parse_key_listing(r#"{"result":[]} extra"#).is_none());
    assert!(parse_key_listing(r#"{"result":[]}{"result":[]}"#).is_none());
}

#[test]
fn trailing_commas_are_refused() {
    assert!(parse_key_listing(r#"{"result":[{"name":"k1"},]}"#).is_none());
    assert!(parse_key_listing(r#"{"result":[{"name":"k1",}]}"#).is_none());
    assert!(parse_key_listing(r#"{"result":[],}"#).is_none());
}

#[test]
fn entry_without_name_is_refused() {
    assert!(parse_key_listing(r#"{"result":[{}]}"#).is_none());
    assert!(parse_key_listing(r#"{"result":[{"metadata":1}]}"#).is_none());
    assert!(parse_key_listing(r#"{"result":[7]}"#).is_none());
}

#[test]
fn repeated_members_are_refused() {
    assert!(parse_key_listing(r#"{"result":[],"result":[]}"#).is_none());
    assert!(parse_key_listing(r#"{"result":[{"name":"a","name":"b"}]}"#).is_none());
    assert!(parse_key_listing(r#"{"result":[{"name":"a","metadata":1,"metadata":2}]}"#).is_none());
}

#[test]
fn name_with_escape_is_refused() {
    assert!(parse_key_listing(r#"{"result":[{"name":"a\"b"}]}"#).is_none());
    assert!(parse_key_listing("{\"result\":[{\"name\":\"a\\u0041b\"}]}").is_none());
}

#[test]
fn escapes_in_skipped_values_are_handled() {
    let body = r#"{"note":"a \"quoted\" brace }","result":[{"name":"k1","metadata":"\\}"}]}"#;
    let entries = parse_key_listing(body).expect("escaped quotes do not end a skipped string");
    assert_eq!(entries.len(), 1);
    assert_eq!(entries[0].name, "k1");
    assert_eq!(entries[0].metadata.as_deref(), Some(r#""\\}""#));
}
