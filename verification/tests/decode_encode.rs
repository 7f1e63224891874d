use sourcemap::encode::encode_vlq_diff;
use sourcemap::{Error, SourceMap, Token, Tokens};

#[test]
fn test_decode_sourcemap() {
    let input = r#"{
        "version": 3,
        "sources": ["coolstuff.js"],
        "sourceRoot": "x",
        "names": ["x","alert"],
        "mappings": "AAAA,GAAIA,GAAI,EACR,IAAIA,GAAK,EAAG,CACVC,MAAM",
        "x_google_ignoreList": [0]
    }"#;
    let sm = SourceMap::from_json_string(input).unwrap();
    assert_eq!(sm.get_source_root(), Some("x"));
    assert_eq!(sm.get_x_google_ignore_list(), Some(&[0][..]));
    let view_tokens = sm.get_source_view_tokens();
    let mut iter = view_tokens.iter().filter(|token| token.get_name_id().is_some());
    assert_eq!(
        iter.next().unwrap().to_tuple(),
        (Some(&"coolstuff.js".to_string()), 0, 4, Some(&"x".to_string()))
    );
    assert_eq!(
        iter.next().unwrap().to_tuple(),
        (Some(&"coolstuff.js".to_string()), 1, 4, Some(&"x".to_string()))
    );
    assert_eq!(
        iter.next().unwrap().to_tuple(),
        (Some(&"coolstuff.js".to_string()), 2, 2, Some(&"alert".to_string()))
    );
    assert!(iter.next().is_none());
}

#[test]
fn test_decode_sourcemap_optional_filed() {
    let input = r#"{
        "version": 3,
        "names": [],
        "sources": [],
        "sourcesContent": [null],
        "mappings": ""
    }"#;
    SourceMap::from_json_string(input).expect("should success");
}

#[test]
fn test_decode_mapping_bad_segment_size() {
    let input = r#"{
        "version": 3,
        "names": [],
        "sources": [],
        "sourcesContent": [],
        "mappings": "AA"
    }"#;

    let err = SourceMap::from_json_string(input).unwrap_err();
    assert!(matches!(err, Error::BadSegmentSize(2)));
}

#[test]
fn test_decode_mapping_vlq_leftover() {
    let input = r#"{
        "version": 3,
        "names": [],
        "sources": [],
        "sourcesContent": [],
        "mappings": "g"
    }"#;

    let err = SourceMap::from_json_string(input).unwrap_err();
    assert!(matches!(err, Error::VlqLeftover));
}

#[test]
fn test_encode() {
    let input = r#"{
        "version": 3,
        "sources": ["coolstuff.js"],
        "sourceRoot": "x",
        "names": ["x","alert"],
        "mappings": "AAAA,GAAIA,GAAI,EACR,IAAIA,GAAK,EAAG,CACVC,MAAM",
        "x_google_ignoreList": [0]
    }"#;
    let sm = SourceMap::from_json_string(input).unwrap();
    let sm2 = SourceMap::from_json_string(&sm.to_json_string()).unwrap();

    for (tok1, tok2) in sm.get_tokens().iter().zip(sm2.get_tokens().iter()) {
        assert_eq!(tok1, tok2);
    }

    // spellchecker:off
    let input = r#"{
        "version": 3,
        "file": "index.js",
        "names": [
            "text",
            "text"
        ],
        "sources": [
            "../../hmr.js",
            "../../main.js",
            "../../index.html"
        ],
        "sourcesContent": [
            "export const foo = 'hello'\n\ntext('.hmr', foo)\n\nfunction text(el, text) {\n  document.querySelector(el).textContent = text\n}\n\nimport.meta.hot?.accept((mod) => {\n  if (mod) {\n    text('.hmr', mod.foo)\n  }\n})\n",
            "import './hmr.js'\n\ntext('.app', 'hello')\n\nfunction text(el, text) {\n  document.querySelector(el).textContent = text\n}\n",
            "<h1>HMR Full Bundle Mode</h1>\n\n<div class=\"app\"></div>\n<div class=\"hmr\"></div>\n\n<script type=\"module\" src=\"./main.js\"></script>\n"
        ],
        "mappings": ";;;;;;;;;;;;;;;;;;;;;;;;;;;;;;;;;;;;;;;;;;;;;;;;;;;;;;;;;;;;;;;;;;;;;;;;;;;;;;;;;;;;;;;;;;;;;;;;;;;;;;;;;;;;;;;;;;;;;;;;;;;;;;;;;;;;;;;;;;;;;;;;;;;;;;;;;;;;;;;;;;;;;;;;;;;;;;;;;;;;;;;;;;;;;;;;;;;;;;;;;;;;;;;;;;;;;;;;;;;;;;;;;;;;;;;;;;;;;;;;;;;;;;;;;;;;;;;;;;;;;;;;;;;;;;;;;;;;;;;;;;;;;;;;;;;;;;;;;;;;;;;;;;;;;;;;;;;;;;;;;;;;;;;;;;;;;;;;;;;;;;;;;;;;;;;;;;;;;;;;;;;;;;;;;;;;;;;;;;;;;;;;;;;;;;;;;;;;;;;;;;;;;;;;;;;;;;;;;;;;;;;;;;;;;;;;;;;;;;;;;;;;;;;;;;;;;;;;;;;;;;;;;;;;;;;;;;;;;;;;;;;;;;;;;;;;;;;;;;;;;;;;;;;;;;;;;;;;;;;;;;;;;;;;;;;;;;;;;;;;;;;;;;;;;;;;;;;;;;;;;;;;;;;;;;;;;;;;;;;;;;;;;;;;;;;;;;;;;;;;;;;;;;;;;;;;;;;;;;;;;;;;;;;;;;;;;;;;;;;;;;;;;;;;;;;;;;;;;;;;;;;;;;;;;;;;;;;;;;;;;;;;;;;;;;;;;;;;;;;;;;;;;;;;;;;;;;;;;;;;;;;;;;;;;;;;;;;;;;;;;;;;;;;;;;;;;;;;;;;;;;;;;;;;;;;;;;;;;;;;;;;;;;;;;;;;;;;;;;;;;;;;;;;;;;;;;;;;;;;;;;;;;;;;;;;;;;;;;;;;;;;;;;;;;;;;;;;;;;;;;;;;;;;;;;;;;;;;;;;;;;;;;;;;;;;;;;;;;;;;;;;;;;;;;;;;;;;;;;;;;;;;;;;;;;;;;;;;;;;;;;;;;;;;;;;;;;;;;;;;;;;;;;;;;;;;;;;;;;;;;;;;;;;;;;;;;;;;;;;;;;;;;;;;;;;;;;;;;;;;;;;;;;;;;;;;;;;;;;;;;;;;;;;;;;;;;;;;;;;;;;;;;;;;;;;;;;;;;;;;;;;;;;;;;;;;;;;;;;;;;;;;;;;;;;;;;;;;;;;;;;;;;;;;;;;;;;;;;;;;;;;;;;;;;;;;;;;;;;;;;;;;;;;;;;;;;;;;;;;;;;;;;;;;;;;;;;;;;;;;;;;;;;;;;;;;;;;;;;;;;;;;;;;;;;;;;;;;;;;;;;;;;;;;;;;;;;;;;;;;;;;;;;;;;;;;;;;;;;;;;;;;;;;;;;;;;;;;;;;;;;;;;;AAAA,MAAa,MAAM;AAEnBA,OAAK,QAAQ,IAAI;AAEjB,SAASA,OAAK,IAAI,QAAM;AACtB,UAAS,cAAc,GAAG,CAAC,cAAcA;;SAG1B,QAAQ,QAAQ;AAC/B,KAAI,KAAK;AACP,SAAK,QAAQ,IAAI,IAAI;;EAEvB;;;;;;;ACVF,KAAK,QAAQ,QAAQ;AAErB,SAAS,KAAK,IAAI,QAAM;AACtB,UAAS,cAAc,GAAG,CAAC,cAAcC"
    }"#;
    // spellchecker:on
    let sm = SourceMap::from_json_string(input).unwrap();
    let sm2 = SourceMap::from_json_string(&sm.to_json_string()).unwrap();

    for (tok1, tok2) in sm.get_tokens().iter().zip(sm2.get_tokens().iter()) {
        assert_eq!(tok1, tok2);
    }
}

#[test]
fn test_encode_escape_string() {
    // '\0' should be escaped.
    let mut sm = SourceMap::new(
        None,
        vec!["name_length_greater_than_16_\0".into()],
        None,
        vec!["\0".into()],
        vec![Some("emoji-👀-\0".into())],
        Tokens::new(),
        None,
    );
    sm.set_x_google_ignore_list(vec![0]);
    sm.set_debug_id("56431d54-c0a6-451d-8ea2-ba5de5d8ca2e");
    assert_eq!(
        sm.to_json_string(),
        r#"{"version":3,"names":["name_length_greater_than_16_\u0000"],"sources":["\u0000"],"sourcesContent":["emoji-👀-\u0000"],"x_google_ignoreList":[0],"mappings":"","debugId":"56431d54-c0a6-451d-8ea2-ba5de5d8ca2e"}"#
    );
}

#[test]
fn test_vlq_encode_diff() {
    // With maximum values, the diff encoding pushes at most 7 bytes.
    const FIXTURES: &[(u32, u32, &str)] = &[
        (0,           0, "A"),
        (1,           0, "C"),
        (2,           0, "E"),
        (15,          0, "e"),
        (16,          0, "gB"),
        (511,         0, "+f"),
        (512,         0, "ggB"),
        (16_383,      0, "+/f"),
        (16_384,      0, "gggB"),
        (524_287,     0, "+//f"),
        (524_288,     0, "ggggB"),
        (16_777_215,  0, "+///f"),
        (16_777_216,  0, "gggggB"),
        (536_870_911, 0, "+////f"),
        (536_870_912, 0, "ggggggB"),
        (u32::MAX,    0, "+/////H"), // 7 bytes

        (0, 1,           "D"),
        (0, 2,           "F"),
        (0, 15,          "f"),
        (0, 16,          "hB"),
        (0, 511,         "/f"),
        (0, 512,         "hgB"),
        (0, 16_383,      "//f"),
        (0, 16_384,      "hggB"),
        (0, 524_287,     "///f"),
        (0, 524_288,     "hgggB"),
        (0, 16_777_215,  "////f"),
        (0, 16_777_216,  "hggggB"),
        (0, 536_870_911, "/////f"),
        (0, 536_870_912, "hgggggB"),
        (0, u32::MAX,    "//////H"), // 7 bytes
    ];

    for (a, b, res) in FIXTURES.iter().copied() {
        let mut out: Vec<u8> = Vec::new();
        encode_vlq_diff(&mut out, a, b);
        assert!(out.len() <= 7);
        assert_eq!(String::from_utf8(out).unwrap().as_str(), res);
    }
}

#[test]
fn test_decode_unsupported_version() {
    let input = r#"{
        "version": 2,
        "names": [],
        "sources": [],
        "mappings": ""
    }"#;
    let err = SourceMap::from_json_string(input).unwrap_err();
    assert!(matches!(err, Error::UnsupportedVersion));
}

#[test]
fn test_decode_invalid_json() {
    let err = SourceMap::from_json_string("{ not json").unwrap_err();
    assert!(matches!(err, Error::InvalidJson));
}

#[test]
fn test_decode_bad_name_reference() {
    // one 5-value segment, but the name table is empty
    let input = r#"{
        "version": 3,
        "names": [],
        "sources": ["a.js"],
        "mappings": "AAAAA"
    }"#;
    let err = SourceMap::from_json_string(input).unwrap_err();
    assert!(matches!(err, Error::BadNameReference(0)));
}

#[test]
fn test_decode_bad_source_reference_in_mapping() {
    // a 4-value segment against an empty source table
    let input = r#"{
        "version": 3,
        "names": [],
        "sources": [],
        "mappings": "AAAA"
    }"#;
    let err = SourceMap::from_json_string(input).unwrap_err();
    assert!(matches!(err, Error::BadSourceReference(0)));
}

#[test]
fn test_decode_vlq_overflow() {
    // fourteen continuation groups push the accumulated shift past the limit
    let input = r#"{
        "version": 3,
        "names": [],
        "sources": [],
        "mappings": "gggggggggggggg"
    }"#;
    let err = SourceMap::from_json_string(input).unwrap_err();
    assert!(matches!(err, Error::VlqOverflow));
}

#[test]
fn test_decode_vlq_no_values_unreachable_by_commas() {
    // bare separators make no segments at all
    let input = r#"{
        "version": 3,
        "names": [],
        "sources": [],
        "mappings": ",,;;,,"
    }"#;
    let sm = SourceMap::from_json_string(input).unwrap();
    assert_eq!(sm.get_tokens().len(), 0);
}

#[test]
fn test_ignore_list_one_past_end_rejected() {
    // an ignore-list entry equal to sources.length is out of range
    let input = r#"{
        "version": 3,
        "names": [],
        "sources": ["a.js"],
        "mappings": "",
        "x_google_ignoreList": [1]
    }"#;
    let err = SourceMap::from_json_string(input).unwrap_err();
    assert!(matches!(err, Error::BadSourceReference(1)));
}

#[test]
fn test_ignore_list_legacy_alias() {
    let input = r#"{
        "version": 3,
        "names": [],
        "sources": ["a.js"],
        "mappings": "",
        "ignoreList": [0]
    }"#;
    let sm = SourceMap::from_json_string(input).unwrap();
    assert_eq!(sm.get_x_google_ignore_list(), Some(&[0][..]));
}

#[test]
fn test_round_trip_tokens_after_reencode() {
    // decode, re-encode, decode: the token streams agree
    let input = r#"{
        "version": 3,
        "sources": ["coolstuff.js"],
        "names": ["x","alert"],
        "mappings": "AAAA,GAAIA,GAAI,EACR,IAAIA,GAAK,EAAG,CACVC,MAAM"
    }"#;
    let sm = SourceMap::from_json_string(input).unwrap();
    let sm2 = SourceMap::from_json(sm.to_json()).unwrap();
    assert_eq!(sm.get_tokens(), sm2.get_tokens());
}

#[test]
fn test_reencode_elides_exact_duplicate_tokens() {
    // two identical segments decode to two tokens; re-encoding writes the
    // second one out only once
    let input = r#"{
        "version": 3,
        "sources": [],
        "names": [],
        "mappings": "A,A"
    }"#;
    let sm = SourceMap::from_json_string(input).unwrap();
    assert_eq!(sm.get_tokens().len(), 2);
    let sm2 = SourceMap::from_json(sm.to_json()).unwrap();
    assert_eq!(sm2.get_tokens().len(), 1);
    assert_eq!(sm.get_tokens()[0], sm2.get_tokens()[0]);
}

#[test]
fn test_to_data_url() {
    let sm = SourceMap::new(
        None,
        vec![],
        None,
        vec![],
        vec![],
        Tokens::new(),
        None,
    );
    let url = sm.to_data_url();
    assert!(url.starts_with("data:application/json;charset=utf-8;base64,"));
    // the payload is base64, not the raw JSON text
    assert!(!url.contains("version"));
    assert_eq!(
        url,
        format!(
            "data:application/json;charset=utf-8;base64,{}",
            "eyJ2ZXJzaW9uIjozLCJuYW1lcyI6W10sInNvdXJjZXMiOltdLCJzb3VyY2VzQ29udGVudCI6W10sIm1hcHBpbmdzIjoiIn0="
        )
    );
}

#[test]
fn test_token_accessors() {
    let t = Token::new(1, 2, 3, 4, Some(5), None);
    assert_eq!(t.get_dst_line(), 1);
    assert_eq!(t.get_dst_col(), 2);
    assert_eq!(t.get_src_line(), 3);
    assert_eq!(t.get_src_col(), 4);
    assert_eq!(t.get_source_id(), Some(5));
    assert_eq!(t.get_name_id(), None);
}
