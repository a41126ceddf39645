use wirerope_core::codec::decode_envelope;
use wirerope_core::codec::encode_envelope;
use wirerope_core::envelope::RespRet;
use wirerope_core::error::DError;
use wirerope_core::util::collect_strings;
use wirerope_core::util::convert_version_to_int32;
use wirerope_core::util::cur_timestamp;
use wirerope_core::util::value_to_vec_string;

#[test]
fn plain_success_envelope_renders_compactly() {
    assert_eq!(encode_envelope(0, "", None), "{\"code\":0,\"msg\":\"\"}");
    assert_eq!(encode_envelope(0, "suc", None), "{\"code\":0,\"msg\":\"suc\"}");
}

#[test]
fn absent_payload_is_omitted_not_null() {
    let s = encode_envelope(1004, "[NotFound]row not found!", None);
    assert!(!s.contains("data"));
    assert!(!s.contains("null"));
    assert_eq!(s, "{\"code\":1004,\"msg\":\"[NotFound]row not found!\"}");
}

#[test]
fn present_payload_is_spliced_verbatim() {
    let s = encode_envelope(0, "", Some("{\"a\":1}"));
    assert_eq!(s, "{\"code\":0,\"msg\":\"\",\"data\":{\"a\":1}}");
    let t = encode_envelope(0, "", Some("[1,2,3]"));
    assert_eq!(t, "{\"code\":0,\"msg\":\"\",\"data\":[1,2,3]}");
}

#[test]
fn negative_codes_render_with_a_sign() {
    assert_eq!(encode_envelope(-12, "x", None), "{\"code\":-12,\"msg\":\"x\"}");
    assert_eq!(
        encode_envelope(-2147483648, "", None),
        "{\"code\":-2147483648,\"msg\":\"\"}"
    );
}

#[test]
fn message_escaping_covers_quotes_backslashes_and_controls() {
    let s = encode_envelope(0, "a\"b\\c", None);
    assert_eq!(s, "{\"code\":0,\"msg\":\"a\\\"b\\\\c\"}");
    let t = encode_envelope(0, "line1\nline2\t.", None);
    assert_eq!(t, "{\"code\":0,\"msg\":\"line1\\u000aline2\\u0009.\"}");
}

#[test]
fn rendered_envelopes_are_valid_json_for_the_reference_parser() {
    let s = encode_envelope(7, "odd \"msg\" with \\ and \n", Some("[true,false]"));
    let v: serde_json::Value = serde_json::from_str(&s).unwrap();
    assert_eq!(v["code"], serde_json::Value::from(7));
    assert_eq!(v["msg"], serde_json::Value::from("odd \"msg\" with \\ and \n"));
    assert_eq!(v["data"][0], serde_json::Value::from(true));
    let bare = encode_envelope(0, "", None);
    let w: serde_json::Value = serde_json::from_str(&bare).unwrap();
    assert!(w.get("data").is_none());
}

#[test]
fn envelopes_round_trip_through_the_codec() {
    let cases: Vec<(i32, &str, Option<&str>)> = vec![
        (0, "", None),
        (0, "suc", None),
        (1004, "[NotFound]row not found!", None),
        (-5, "odd \"quoted\" \\ and \n msg", None),
        (0, "", Some("{\"a\":1}")),
        (9999, "unknown error", Some("[]")),
        (2147483647, "edge", Some("\"str\"")),
        (-2147483648, "edge", None),
    ];
    for (code, msg, data) in cases {
        let s = encode_envelope(code, msg, data);
        let (c, m, d) = decode_envelope(&s).unwrap();
        assert_eq!(c, code);
        assert_eq!(m, msg);
        assert_eq!(d.as_deref(), data);
    }
}

#[test]
fn decoder_refuses_what_the_renderer_cannot_produce() {
    assert!(decode_envelope("").is_none());
    assert!(decode_envelope("xyz").is_none());
    assert!(decode_envelope("{\"code\":01,\"msg\":\"\"}").is_none());
    assert!(decode_envelope("{\"code\":-0,\"msg\":\"\"}").is_none());
    assert!(decode_envelope("{\"code\":7,\"msg\":\"unterminated}").is_none());
    assert!(decode_envelope("{\"code\":7,\"msg\":\"\"").is_none());
    assert!(decode_envelope("{\"code\":7,\"msg\":\"\"}x").is_none());
    assert!(decode_envelope("{\"code\":7,\"msg\":\"a\nb\"}").is_none());
    assert!(decode_envelope("{\"code\":7,\"msg\":\"\",\"data\":[1]").is_none());
    assert!(decode_envelope("{\"code\":,\"msg\":\"\"}").is_none());
}

#[test]
fn error_bodies_render_through_the_codec() {
    let r = DError::Db("broken".to_string()).resp_err();
    assert_eq!(r.to_json(), "{\"code\":101,\"msg\":\"[db error], broken\"}");
    let b = RespRet::with_msg("ok");
    assert_eq!(b.to_json(), "{\"code\":0,\"msg\":\"ok\"}");
}

#[test]
fn version_strings_pack_into_ten_bit_fields() {
    assert_eq!(convert_version_to_int32("1.2.3"), Ok(1048576 + 2048 + 3));
    assert_eq!(convert_version_to_int32("0.0.0"), Ok(0));
    assert_eq!(convert_version_to_int32("10.20.30"), Ok(10 * 1048576 + 20 * 1024 + 30));
    assert_eq!(convert_version_to_int32("1023.1023.1023"), Ok(1023 * 1048576 + 1023 * 1024 + 1023));
    assert_eq!(convert_version_to_int32("01.2.3"), Ok(1048576 + 2048 + 3));
}

#[test]
fn version_failures_name_their_cause() {
    assert_eq!(convert_version_to_int32("a.2.3"), Err("Invalid version string format"));
    assert_eq!(convert_version_to_int32("1..3"), Err("Invalid version string format"));
    assert_eq!(convert_version_to_int32(""), Err("Invalid version string format"));
    assert_eq!(
        convert_version_to_int32("2147483648.0.0"),
        Err("Invalid version string format")
    );
    assert_eq!(convert_version_to_int32("1.2"), Err("Received invalid version string"));
    assert_eq!(convert_version_to_int32("1.2.3.4"), Err("Received invalid version string"));
    assert_eq!(
        convert_version_to_int32("1024.0.0"),
        Err("Version string invalid, some parts are bigger than 1023")
    );
}

#[test]
fn json_string_arrays_become_plain_strings() {
    let v = serde_json::Value::Array(vec![
        serde_json::Value::String("a".to_string()),
        serde_json::Value::String("b".to_string()),
    ]);
    assert_eq!(value_to_vec_string(&v), Ok(vec!["a".to_string(), "b".to_string()]));

    let empty = serde_json::Value::Array(vec![]);
    assert_eq!(value_to_vec_string(&empty), Ok(vec![]));

    let mixed = serde_json::Value::Array(vec![
        serde_json::Value::String("a".to_string()),
        serde_json::Value::Bool(true),
    ]);
    assert_eq!(value_to_vec_string(&mixed), Err("Element is not a string"));

    assert_eq!(value_to_vec_string(&serde_json::Value::Null), Err("Value is not an array"));
}

#[test]
fn collected_strings_keep_their_order() {
    let ok = collect_strings(vec![Some("x".to_string()), Some("y".to_string())]);
    assert_eq!(ok, Ok(vec!["x".to_string(), "y".to_string()]));
    let bad = collect_strings(vec![Some("x".to_string()), None]);
    assert_eq!(bad, Err("Element is not a string"));
}

#[test]
fn the_clock_reads_a_recent_time() {
    let a = cur_timestamp();
    let b = cur_timestamp();
    assert!(a > 1_600_000_000_000_000);
    assert!(b >= a);
}
