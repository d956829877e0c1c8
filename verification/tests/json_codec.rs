use rethink_wire::json::{encode_json, Json};
use rethink_wire::parse::parse_json;

fn enc(j: &Json) -> Vec<u8> {
    encode_json(j)
}

#[test]
fn encodes_scalars() {
    assert_eq!(enc(&Json::Null), b"null".to_vec());
    assert_eq!(enc(&Json::Bool(true)), b"true".to_vec());
    assert_eq!(enc(&Json::Bool(false)), b"false".to_vec());
    assert_eq!(enc(&Json::I64(0)), b"0".to_vec());
    assert_eq!(enc(&Json::I64(42)), b"42".to_vec());
    assert_eq!(enc(&Json::I64(-7)), b"-7".to_vec());
    assert_eq!(
        enc(&Json::I64(i64::MIN)),
        b"-9223372036854775808".to_vec()
    );
    assert_eq!(enc(&Json::I64(i64::MAX)), b"9223372036854775807".to_vec());
}

#[test]
fn encodes_strings_with_escapes() {
    assert_eq!(enc(&Json::Str(b"abc".to_vec())), b"\"abc\"".to_vec());
    assert_eq!(
        enc(&Json::Str(b"a\"b\\c".to_vec())),
        b"\"a\\\"b\\\\c\"".to_vec()
    );
    assert_eq!(
        enc(&Json::Str(b"line\nbreak\ttab".to_vec())),
        b"\"line\\nbreak\\ttab\"".to_vec()
    );
    assert_eq!(enc(&Json::Str(vec![0x01])), b"\"\\u0001\"".to_vec());
}

#[test]
fn encodes_compound_values_compactly() {
    let v = Json::Obj(vec![
        (b"a".to_vec(), Json::Arr(vec![Json::I64(1), Json::I64(2)])),
        (b"b".to_vec(), Json::Str(b"x".to_vec())),
    ]);
    assert_eq!(enc(&v), b"{\"a\":[1,2],\"b\":\"x\"}".to_vec());
    assert_eq!(enc(&Json::Arr(vec![])), b"[]".to_vec());
    assert_eq!(enc(&Json::Obj(vec![])), b"{}".to_vec());
}

#[test]
fn parses_scalars() {
    assert_eq!(parse_json(b"null"), Some(Json::Null));
    assert_eq!(parse_json(b"true"), Some(Json::Bool(true)));
    assert_eq!(parse_json(b"false"), Some(Json::Bool(false)));
    assert_eq!(parse_json(b"42"), Some(Json::I64(42)));
    assert_eq!(parse_json(b"-7"), Some(Json::I64(-7)));
    assert_eq!(parse_json(b"0"), Some(Json::I64(0)));
    assert_eq!(parse_json(b"-0"), Some(Json::I64(0)));
    assert_eq!(
        parse_json(b"-9223372036854775808"),
        Some(Json::I64(i64::MIN))
    );
    assert_eq!(
        parse_json(b"9223372036854775807"),
        Some(Json::I64(i64::MAX))
    );
}

#[test]
fn parses_strings_and_escapes() {
    assert_eq!(parse_json(b"\"abc\""), Some(Json::Str(b"abc".to_vec())));
    assert_eq!(
        parse_json(b"\"a\\\"b\\\\c\\n\\t\\r\\b\\f\\/\""),
        Some(Json::Str(b"a\"b\\c\n\t\r\x08\x0c/".to_vec()))
    );
    assert_eq!(parse_json(b"\"\""), Some(Json::Str(Vec::new())));
}

#[test]
fn parses_compound_values_with_whitespace() {
    let v = parse_json(b" { \"a\" : [ 1 , 2 ] , \"b\" : \"x\" } ");
    assert_eq!(
        v,
        Some(Json::Obj(vec![
            (b"a".to_vec(), Json::Arr(vec![Json::I64(1), Json::I64(2)])),
            (b"b".to_vec(), Json::Str(b"x".to_vec())),
        ]))
    );
    assert_eq!(parse_json(b"[]"), Some(Json::Arr(vec![])));
    assert_eq!(parse_json(b"{}"), Some(Json::Obj(vec![])));
    assert_eq!(parse_json(b" [ ] "), Some(Json::Arr(vec![])));
}

#[test]
fn rejects_malformed_texts() {
    assert_eq!(parse_json(b""), None);
    assert_eq!(parse_json(b"tru"), None);
    assert_eq!(parse_json(b"nulll"), None);
    assert_eq!(parse_json(b"01"), None);
    assert_eq!(parse_json(b"01.5"), None);
    assert_eq!(parse_json(b"-"), None);
    assert_eq!(parse_json(b"+1"), None);
    assert_eq!(parse_json(b"1."), None);
    assert_eq!(parse_json(b"1e"), None);
    assert_eq!(parse_json(b"1e+"), None);
    assert_eq!(parse_json(b"\"unterminated"), None);
    assert_eq!(parse_json(b"\"\\uzz11\""), None);
    assert_eq!(parse_json(b"\"\\u004\""), None);
    assert_eq!(parse_json(b"\"\\ud800\""), None);
    assert_eq!(parse_json(b"\"\\udc00\""), None);
    assert_eq!(parse_json(b"\"\\ud800\\u0041\""), None);
    assert_eq!(parse_json(b"\"ctrl\x01char\""), None);
    assert_eq!(parse_json(b"[1,2"), None);
    assert_eq!(parse_json(b"[1,]"), None);
    assert_eq!(parse_json(b"{\"a\"1}"), None);
    assert_eq!(parse_json(b"{\"a\":1,}"), None);
    assert_eq!(parse_json(b"42 junk"), None);
    assert_eq!(parse_json(b"[1 2]"), None);
}

#[test]
fn numbers_beyond_64_bit_integers_are_carried_as_text() {
    assert_eq!(parse_json(b"1.5"), Some(Json::Num(b"1.5".to_vec())));
    assert_eq!(parse_json(b"-0.25e+10"), Some(Json::Num(b"-0.25e+10".to_vec())));
    assert_eq!(parse_json(b"1E3"), Some(Json::Num(b"1E3".to_vec())));
    assert_eq!(
        parse_json(b"9223372036854775808"),
        Some(Json::Num(b"9223372036854775808".to_vec()))
    );
    assert_eq!(
        parse_json(b"-9223372036854775809"),
        Some(Json::Num(b"-9223372036854775809".to_vec()))
    );
    assert_eq!(enc(&Json::Num(b"1.5".to_vec())), b"1.5".to_vec());
    assert_eq!(
        parse_json(b"{\"a\": 1.5}"),
        Some(Json::Obj(vec![(b"a".to_vec(), Json::Num(b"1.5".to_vec()))]))
    );
}

#[test]
fn unicode_escapes_decode_to_utf8() {
    assert_eq!(parse_json(b"\"\\u0041\""), Some(Json::Str(b"A".to_vec())));
    assert_eq!(parse_json(b"\"\\u004A\""), Some(Json::Str(b"J".to_vec())));
    assert_eq!(
        parse_json(b"\"\\u00e9\""),
        Some(Json::Str(vec![0xc3, 0xa9]))
    );
    assert_eq!(
        parse_json(b"\"\\u2713\""),
        Some(Json::Str(vec![0xe2, 0x9c, 0x93]))
    );
    assert_eq!(
        parse_json(b"\"\\ud83d\\ude00\""),
        Some(Json::Str(vec![0xf0, 0x9f, 0x98, 0x80]))
    );
    assert_eq!(parse_json(b"\"\\u0001\""), Some(Json::Str(vec![0x01])));
}

#[test]
fn round_trips_through_the_codec() {
    let samples = vec![
        Json::Null,
        Json::Bool(false),
        Json::I64(-123456789),
        Json::Str(b"with \"quotes\" and \\ slashes\n".to_vec()),
        Json::Str(vec![0x01, 0x1f, 0x00]),
        Json::Arr(vec![
            Json::I64(1),
            Json::Arr(vec![Json::Str(b"deep".to_vec())]),
            Json::Obj(vec![(b"k".to_vec(), Json::Null)]),
        ]),
        Json::Obj(vec![
            (b"a".to_vec(), Json::I64(0)),
            (b"a".to_vec(), Json::I64(1)),
        ]),
    ];
    for v in samples {
        assert_eq!(parse_json(&encode_json(&v)), Some(v));
    }
}
