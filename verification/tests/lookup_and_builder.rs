use sourcemap::vlq::{parse_vlq_segment, vlq_encode};
use sourcemap::{SharedSourceMap, SourceMap, SourceMapBuilder, ThreadSafeSourceMap, Token, Tokens};

#[test]
fn test_sourcemap_lookup_token() {
    let input = r#"{
        "version": 3,
        "sources": ["coolstuff.js"],
        "sourceRoot": "x",
        "names": ["x","alert"],
        "mappings": "AAAA,GAAIA,GAAI,EACR,IAAIA,GAAK,EAAG,CACVC,MAAM"
    }"#;
    let sm = SourceMap::from_json_string(input).unwrap();
    let lookup_table = sm.generate_lookup_table();
    assert_eq!(
        sm.lookup_source_view_token(&lookup_table, 0, 0).unwrap().to_tuple(),
        (Some(&"coolstuff.js".to_string()), 0, 0, None)
    );
    assert_eq!(
        sm.lookup_source_view_token(&lookup_table, 0, 3).unwrap().to_tuple(),
        (Some(&"coolstuff.js".to_string()), 0, 4, Some(&"x".to_string()))
    );
    assert_eq!(
        sm.lookup_source_view_token(&lookup_table, 0, 24).unwrap().to_tuple(),
        (Some(&"coolstuff.js".to_string()), 2, 8, None)
    );

    // Lines continue out to infinity
    assert_eq!(
        sm.lookup_source_view_token(&lookup_table, 0, 1000).unwrap().to_tuple(),
        (Some(&"coolstuff.js".to_string()), 2, 8, None)
    );

    assert!(sm.lookup_source_view_token(&lookup_table, 1000, 0).is_none());
}

#[test]
fn test_sourcemap_source_view_token() {
    let mut tokens = Tokens::new();
    tokens.push(Token::new(1, 1, 1, 1, Some(0), Some(0)));
    let sm = SourceMap::new(
        None,
        vec!["foo".into()],
        None,
        vec!["foo.js".into()],
        vec![],
        tokens,
        None,
    );
    let view_tokens = sm.get_source_view_tokens();
    assert_eq!(
        view_tokens[0].to_tuple(),
        (Some(&"foo.js".to_string()), 1, 1, Some(&"foo".to_string()))
    );
    assert_eq!(view_tokens.len(), 1);
}

#[test]
fn test_mut_sourcemap() {
    let mut sm = SourceMap::default();
    sm.set_file("index.js");
    sm.set_sources(vec!["foo.js"]);
    sm.set_source_contents(vec![Some("foo")]);

    assert_eq!(sm.get_file().map(|s| s.as_str()), Some("index.js"));
    assert_eq!(sm.get_source(0).map(|s| s.as_str()), Some("foo.js"));
    assert_eq!(sm.get_source_content(0).map(|s| s.as_str()), Some("foo"));
}

#[test]
fn test_sourcemap_builder() {
    let mut builder = SourceMapBuilder::default();
    builder.set_source_and_content("baz.js", "");
    builder.add_name("x");
    builder.set_file("file");

    let sm = builder.into_sourcemap();
    assert_eq!(sm.get_source(0).map(|s| s.as_str()), Some("baz.js"));
    assert_eq!(sm.get_name(0).map(|s| s.as_str()), Some("x"));
    assert_eq!(sm.get_file().map(|s| s.as_str()), Some("file"));

    let expected = r#"{"version":3,"file":"file","names":["x"],"sources":["baz.js"],"sourcesContent":[""],"mappings":""}"#;
    assert_eq!(expected, sm.to_json_string());
}

#[test]
fn test_builder_interns_names_and_sources() {
    let mut builder = SourceMapBuilder::new();
    let a = builder.add_name("alpha");
    let b = builder.add_name("beta");
    let a_again = builder.add_name("alpha");
    assert_eq!(a, 0);
    assert_eq!(b, 1);
    assert_eq!(a_again, 0);

    let s = builder.add_source_and_content("s.js", "text");
    let s_again = builder.add_source_and_content("s.js", "ignored");
    let t = builder.add_source_and_content("t.js", "other");
    assert_eq!(s, 0);
    assert_eq!(s_again, 0);
    assert_eq!(t, 1);

    builder.add_token(0, 0, 0, 0, Some(s), Some(a));
    builder.add_token(0, 4, 0, 2, Some(t), None);
    let sm = builder.into_sourcemap();
    assert_eq!(sm.get_names(), &vec!["alpha".to_string(), "beta".to_string()]);
    assert_eq!(sm.get_sources(), &vec!["s.js".to_string(), "t.js".to_string()]);
    assert_eq!(sm.get_source_content(0).map(|s| s.as_str()), Some("text"));
    assert_eq!(sm.get_tokens().len(), 2);
}

#[test]
fn test_lookup_first_of_equal_run_wins() {
    // two tokens at the same generated position: the first recorded one wins
    let mut tokens = Tokens::new();
    tokens.push(Token::new(0, 4, 1, 1, Some(0), Some(0)));
    tokens.push(Token::new(0, 4, 2, 2, Some(0), Some(1)));
    tokens.push(Token::new(0, 9, 3, 3, Some(0), None));
    let sm = SourceMap::new(
        None,
        vec!["a".into(), "b".into()],
        None,
        vec!["x.js".into()],
        vec![],
        tokens,
        None,
    );
    let table = sm.generate_lookup_table();
    let hit = sm.lookup_token(&table, 0, 4).unwrap();
    assert_eq!(hit, Token::new(0, 4, 1, 1, Some(0), Some(0)));
    // a column below every token on the line has no mapping
    assert!(sm.lookup_token(&table, 0, 3).is_none());
}

#[test]
fn test_lookup_empty_line_between_tokens() {
    // line 1 has no tokens; its lookups find nothing
    let mut tokens = Tokens::new();
    tokens.push(Token::new(0, 0, 0, 0, None, None));
    tokens.push(Token::new(2, 2, 0, 0, None, None));
    let sm = SourceMap::new(None, vec![], None, vec![], vec![], tokens, None);
    let table = sm.generate_lookup_table();
    assert_eq!(table.len(), 3);
    assert!(sm.lookup_token(&table, 1, 50).is_none());
    assert_eq!(sm.lookup_token(&table, 2, 2), Some(Token::new(2, 2, 0, 0, None, None)));
}

#[test]
fn test_vlq_round_trip_values() {
    let values: Vec<i64> = vec![
        0,
        1,
        -1,
        15,
        -16,
        16,
        12345,
        -54321,
        2147483647,
        -2147483648,
        4294967295,
        -4294967295,
    ];
    for &v in values.iter() {
        let mut bytes: Vec<u8> = Vec::new();
        vlq_encode(&mut bytes, v);
        assert!(1 <= bytes.len() && bytes.len() <= 7);
        let (vals, pos) = parse_vlq_segment(&bytes, 0).unwrap();
        assert_eq!(vals, vec![v]);
        assert_eq!(pos, bytes.len());
    }
}

#[test]
fn test_thread_safe_round_trip() {
    let input = r#"{
        "version": 3,
        "file": "out.js",
        "sources": ["in.js"],
        "names": ["n"],
        "mappings": "AAAAA",
        "debugId": "abc-123"
    }"#;
    let shared = ThreadSafeSourceMap::from_json_string(input).unwrap();
    assert_eq!(shared.get_file().map(|s| s.as_str()), Some("out.js"));
    assert_eq!(shared.get_debug_id(), Some("abc-123"));
    assert_eq!(shared.get_source(0).map(|s| s.as_str()), Some("in.js"));
    assert_eq!(shared.get_name(0).map(|s| s.as_str()), Some("n"));
    assert_eq!(shared.get_token(0), Some(Token::new(0, 0, 0, 0, Some(0), Some(0))));

    let copy = shared.to_sourcemap();
    assert_eq!(copy.get_tokens(), shared.get_tokens());
    assert_eq!(copy.to_json_string(), shared.to_json_string());

    let handle = SharedSourceMap::new(copy);
    let second = handle.clone();
    assert_eq!(second.get().get_tokens(), shared.get_tokens());
    assert!(handle.get().to_data_url().starts_with("data:application/json"));
}
