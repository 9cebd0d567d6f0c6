use filler_server::json::{find_in, Json, Number};
use filler_server::notation::{parse_json, print_json, MAX_JSON_TEXT};
use filler_server::text::str_equal;

fn whole(n: u64) -> Json {
    Json::Number(Number { positive: true, mantissa: n, exponent: 0 })
}

fn text(s: &str) -> Json {
    Json::String(s.to_string())
}

fn object(members: Vec<(&str, Json)>) -> Json {
    Json::Object(members.into_iter().map(|(key, value)| (key.to_string(), value)).collect())
}

#[test]
fn str_equal_compares_text() {
    assert!(str_equal("", ""));
    assert!(str_equal("red", "red"));
    assert!(!str_equal("red", "reD"));
    assert!(!str_equal("red", "re"));
    assert!(!str_equal("re", "red"));
    assert!(str_equal("grün", "grün"));
    assert!(!str_equal("grün", "grun"));
}

#[test]
fn accessors_tell_the_variants_apart() {
    let values = vec![
        Json::Null,
        Json::Boolean(true),
        whole(3),
        text("red"),
        Json::Array(vec![Json::Null]),
        object(vec![("x", whole(1))]),
    ];
    for (i, value) in values.iter().enumerate() {
        assert_eq!(value.get_null().is_some(), i == 0);
        assert_eq!(value.get_bool().is_some(), i == 1);
        assert_eq!(value.get_number().is_some(), i == 2);
        assert_eq!(value.get_string().is_some(), i == 3);
        assert_eq!(value.get_array().is_some(), i == 4);
        assert_eq!(value.get_object().is_some(), i == 5);
    }
    assert_eq!(values[1].get_bool(), Some(true));
    assert_eq!(values[2].get_number(), Some(Number { positive: true, mantissa: 3, exponent: 0 }));
    assert_eq!(values[3].get_string(), Some("red"));
    assert_eq!(values[4].get_array().unwrap(), &vec![Json::Null]);
    assert_eq!(values[5].get_object().unwrap(), &vec![("x".to_string(), whole(1))]);
}

#[test]
fn get_takes_the_first_member_of_a_key() {
    let value = object(vec![("x", whole(1)), ("y", whole(2)), ("x", whole(3))]);
    assert_eq!(value.get("x"), Some(&whole(1)));
    assert_eq!(value.get("y"), Some(&whole(2)));
    assert_eq!(value.get("z"), None);
    assert_eq!(value.get("X"), None);
    assert_eq!(whole(1).get("x"), None);
    assert_eq!(Json::Array(vec![]).get("x"), None);
    let members = vec![("a".to_string(), Json::Null), ("b".to_string(), Json::Boolean(false))];
    assert_eq!(find_in(&members, "b"), Some(&Json::Boolean(false)));
    assert_eq!(find_in(&members, "c"), None);
    assert_eq!(find_in(&Vec::new(), "a"), None);
}

#[test]
fn number_from_index_is_whole() {
    assert_eq!(Number::from_index(0), Number { positive: true, mantissa: 0, exponent: 0 });
    assert_eq!(Number::from_index(7), Number { positive: true, mantissa: 7, exponent: 0 });
    assert_eq!(Number::from_index(7).to_index(), Some(7));
    assert_eq!(Number::from_index(usize::MAX).to_index(), Some(usize::MAX));
}

#[test]
fn number_to_index_takes_whole_numbers() {
    let n = |positive, mantissa, exponent| Number { positive, mantissa, exponent };
    assert_eq!(n(true, 0, 0).to_index(), Some(0));
    assert_eq!(n(true, 6, 0).to_index(), Some(6));
    assert_eq!(n(true, 3, 2).to_index(), Some(300));
    assert_eq!(n(true, 70, -1).to_index(), Some(7));
    assert_eq!(n(true, 12000, -3).to_index(), Some(12));
    assert_eq!(n(true, 10_000_000_000_000_000_000, -19).to_index(), Some(1));
    assert_eq!(n(true, u64::MAX, 0).to_index(), Some(u64::MAX as usize));
    // Zero is whole however it is written.
    assert_eq!(n(true, 0, 300).to_index(), Some(0));
    assert_eq!(n(true, 0, -300).to_index(), Some(0));
    assert_eq!(n(false, 0, 0).to_index(), Some(0));
    assert_eq!(n(true, 0, i16::MIN).to_index(), Some(0));
}

#[test]
fn number_to_index_refuses_fractions() {
    let n = |positive, mantissa, exponent| Number { positive, mantissa, exponent };
    assert_eq!(n(true, 15, -1).to_index(), None);
    assert_eq!(n(true, 75, -1).to_index(), None);
    assert_eq!(n(true, 1999, -3).to_index(), None);
    assert_eq!(n(true, 7, -1).to_index(), None);
    assert_eq!(n(true, 7, -300).to_index(), None);
    assert_eq!(n(true, 70, -2).to_index(), None);
    assert_eq!(n(true, 12000, -4).to_index(), None);
    assert_eq!(n(true, u64::MAX, -19).to_index(), None);
    assert_eq!(n(true, 1, i16::MIN).to_index(), None);
}

#[test]
fn number_to_index_refuses_negative_numbers() {
    let n = |positive, mantissa, exponent| Number { positive, mantissa, exponent };
    assert_eq!(n(false, 1, 0).to_index(), None);
    assert_eq!(n(false, 3, 0).to_index(), None);
    assert_eq!(n(false, 15, -1).to_index(), None);
    assert_eq!(n(false, 10, -1).to_index(), None);
    assert_eq!(n(false, 5, 40).to_index(), None);
}

#[test]
fn number_to_index_refuses_what_no_index_can_hold() {
    let n = |positive, mantissa, exponent| Number { positive, mantissa, exponent };
    assert_eq!(n(true, 1, 30).to_index(), None);
    assert_eq!(n(true, 1, i16::MAX).to_index(), None);
    assert_eq!(n(true, u64::MAX, 1).to_index(), None);
    assert_eq!(n(true, u64::MAX / 10 + 1, 1).to_index(), None);
    assert_eq!(n(true, u64::MAX / 10, 1).to_index(), Some((u64::MAX / 10 * 10) as usize));
}

#[test]
fn parse_json_reads_every_kind_of_value() {
    assert_eq!(parse_json("null"), Some(Json::Null));
    assert_eq!(parse_json("true"), Some(Json::Boolean(true)));
    assert_eq!(parse_json("false"), Some(Json::Boolean(false)));
    assert_eq!(parse_json("12"), Some(whole(12)));
    assert_eq!(
        parse_json("-1.5"),
        Some(Json::Number(Number { positive: false, mantissa: 15, exponent: -1 }))
    );
    assert_eq!(parse_json("\"red\""), Some(text("red")));
    assert_eq!(
        parse_json("\"a text of more than thirty bytes, to be sure\""),
        Some(text("a text of more than thirty bytes, to be sure"))
    );
    assert_eq!(parse_json("[]"), Some(Json::Array(vec![])));
    assert_eq!(
        parse_json("[1, [true, null], \"x\"]"),
        Some(Json::Array(vec![
            whole(1),
            Json::Array(vec![Json::Boolean(true), Json::Null]),
            text("x"),
        ]))
    );
    assert_eq!(
        parse_json("{\"b\": {\"x\": 1}, \"a\": [2]}"),
        Some(object(vec![("b", object(vec![("x", whole(1))])), ("a", Json::Array(vec![whole(2)]))]))
    );
}

#[test]
fn parse_json_refuses_what_is_no_json() {
    assert_eq!(parse_json(""), None);
    assert_eq!(parse_json("{"), None);
    assert_eq!(parse_json("[1,]"), None);
    assert_eq!(parse_json("nul"), None);
    assert_eq!(parse_json("{\"a\" 1}"), None);
    assert_eq!(parse_json("1 2"), None);
}

#[test]
fn parse_json_reads_no_text_beyond_the_longest() {
    let zeros = |n: usize| format!("0.{}", "0".repeat(n));
    assert_eq!(zeros(MAX_JSON_TEXT - 2).len(), MAX_JSON_TEXT);
    assert_eq!(
        parse_json(&zeros(MAX_JSON_TEXT - 2)).unwrap().get_number().unwrap().to_index(),
        Some(0)
    );
    assert_eq!(parse_json(&zeros(MAX_JSON_TEXT - 1)), None);
    assert_eq!(parse_json(&zeros(32769)), None);
    assert_eq!(parse_json(&zeros(100_000)), None);
    let array = |len: usize| format!("[{}]", " ".repeat(len - 2));
    assert_eq!(parse_json(&array(MAX_JSON_TEXT)), Some(Json::Array(vec![])));
    assert_eq!(parse_json(&array(MAX_JSON_TEXT + 1)), None);
    // The length counts in bytes.
    let text = |len: usize| format!("\"{}\"", "ü".repeat(len));
    assert_eq!(text(16382).len(), 32766);
    assert!(parse_json(&text(16382)).is_some());
    assert_eq!(parse_json(&text(16383)), None);
}

#[test]
fn print_json_writes_every_kind_of_value() {
    assert_eq!(print_json(&Json::Null), "null");
    assert_eq!(print_json(&Json::Boolean(true)), "true");
    assert_eq!(print_json(&whole(12)), "12");
    assert_eq!(print_json(&Json::Number(Number { positive: false, mantissa: 15, exponent: -1 })), "-1.5");
    assert_eq!(print_json(&text("red")), "\"red\"");
    assert_eq!(print_json(&text("a \"b\"\n")), "\"a \\\"b\\\"\\n\"");
    assert_eq!(print_json(&Json::Array(vec![whole(1), Json::Null])), "[1,null]");
    assert_eq!(
        print_json(&object(vec![("x", whole(0)), ("y", whole(6))])),
        "{\"x\":0,\"y\":6}"
    );
}

#[test]
fn print_then_parse_gives_the_value_back() {
    let value = object(vec![
        ("field", Json::Array(vec![Json::Array(vec![text("red"), text("blue")])])),
        ("leftTerritory", Json::Array(vec![object(vec![("x", whole(0)), ("y", whole(6))])])),
        ("isLeftTurn", Json::Boolean(true)),
    ]);
    assert_eq!(parse_json(&print_json(&value)), Some(value));
}
