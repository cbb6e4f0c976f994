use teperunner_worker::codec::{decode_command, encode_command, encode_response, DecodeError};
use teperunner_worker::schema::{EventData, EventResponse};

#[test]
fn decode_simple_command() {
    let r = decode_command("{\"id\":\"abc\",\"jar_path\":\"/tmp/job.jar\"}");
    let cmd = r.expect("well-formed command must decode");
    assert_eq!(cmd.id, "abc");
    assert_eq!(cmd.jar_path, "/tmp/job.jar");
}

#[test]
fn decode_reversed_member_order() {
    let r = decode_command("{\"jar_path\":\"/opt/a.jar\",\"id\":\"k-1\"}");
    let cmd = r.expect("member order must not matter");
    assert_eq!(cmd.id, "k-1");
    assert_eq!(cmd.jar_path, "/opt/a.jar");
}

#[test]
fn decode_with_whitespace() {
    let r = decode_command(" \t{ \"id\" : \"a\" ,\n \"jar_path\" :\r \"b\" } \n");
    let cmd = r.expect("insignificant whitespace must be accepted");
    assert_eq!(cmd.id, "a");
    assert_eq!(cmd.jar_path, "b");
}

#[test]
fn decode_short_escapes() {
    let r = decode_command("{\"id\":\"a\\\"b\\\\c\\/d\\ne\\tf\\rg\\bh\\fi\",\"jar_path\":\"x\"}");
    let cmd = r.expect("short escapes must decode");
    assert_eq!(cmd.id, "a\"b\\c/d\ne\tf\rg\u{8}h\u{c}i");
}

#[test]
fn decode_unicode_escapes() {
    let r = decode_command("{\"id\":\"\\u0041\\u00e9\\u0000\",\"jar_path\":\"x\"}");
    let cmd = r.expect("basic-plane escapes must decode");
    assert_eq!(cmd.id, "A\u{e9}\u{0}");
}

#[test]
fn decode_rejects_surrogate_escape() {
    let r = decode_command("{\"id\":\"\\ud800\",\"jar_path\":\"x\"}");
    assert_eq!(r.unwrap_err(), DecodeError::Malformed);
}

#[test]
fn decode_rejects_missing_jar_path() {
    let r = decode_command("{\"id\":\"abc\"}");
    assert_eq!(r.unwrap_err(), DecodeError::Malformed);
}

#[test]
fn decode_rejects_missing_id() {
    let r = decode_command("{\"jar_path\":\"/tmp/a.jar\"}");
    assert_eq!(r.unwrap_err(), DecodeError::Malformed);
}

#[test]
fn decode_rejects_wrong_value_type() {
    let r = decode_command("{\"id\":\"abc\",\"jar_path\":42}");
    assert_eq!(r.unwrap_err(), DecodeError::Malformed);
}

#[test]
fn decode_rejects_duplicate_keys() {
    let r = decode_command("{\"id\":\"a\",\"id\":\"b\"}");
    assert_eq!(r.unwrap_err(), DecodeError::Malformed);
}

#[test]
fn decode_rejects_unknown_member() {
    let r = decode_command("{\"id\":\"a\",\"jar_path\":\"b\",\"extra\":\"c\"}");
    assert_eq!(r.unwrap_err(), DecodeError::Malformed);
}

#[test]
fn decode_rejects_trailing_garbage() {
    let r = decode_command("{\"id\":\"a\",\"jar_path\":\"b\"}x");
    assert_eq!(r.unwrap_err(), DecodeError::Malformed);
}

#[test]
fn decode_rejects_empty_and_non_object() {
    assert!(decode_command("").is_err());
    assert!(decode_command("   ").is_err());
    assert!(decode_command("null").is_err());
    assert!(decode_command("[\"id\",\"jar_path\"]").is_err());
    assert!(decode_command("{\"id\":\"a\",\"jar_path\":\"b\"").is_err());
}

#[test]
fn decode_rejects_raw_control_character() {
    let r = decode_command("{\"id\":\"a\nb\",\"jar_path\":\"c\"}");
    assert_eq!(r.unwrap_err(), DecodeError::Malformed);
}

#[test]
fn encode_command_exact() {
    let cmd = EventData { id: "abc".to_string(), jar_path: "/tmp/job.jar".to_string() };
    let s = encode_command(&cmd);
    assert_eq!(s, "{\"id\":\"abc\",\"jar_path\":\"/tmp/job.jar\"}");
}

#[test]
fn encode_then_decode_round_trip() {
    let cmd = EventData {
        id: "we\"ird\\id\nwith\u{1}controls".to_string(),
        jar_path: "/tmp/\u{e9}t\u{e9}.jar".to_string(),
    };
    let s = encode_command(&cmd);
    let back = decode_command(&s).expect("every encoded command must decode");
    assert_eq!(back.id, cmd.id);
    assert_eq!(back.jar_path, cmd.jar_path);
}

#[test]
fn encode_response_exact() {
    let resp = EventResponse {
        id: "r-1".to_string(),
        status: "success".to_string(),
        content: "done".to_string(),
        is_error: false,
    };
    let s = encode_response(&resp);
    assert_eq!(
        s,
        "{\"id\":\"r-1\",\"status\":\"success\",\"content\":\"done\",\"is_error\":false}"
    );
}

#[test]
fn encode_response_escapes_and_true_literal() {
    let resp = EventResponse {
        id: "r".to_string(),
        status: "failure".to_string(),
        content: "say \"hi\"\\\n".to_string(),
        is_error: true,
    };
    let s = encode_response(&resp);
    assert_eq!(
        s,
        "{\"id\":\"r\",\"status\":\"failure\",\"content\":\"say \\\"hi\\\"\\\\\\u000a\",\"is_error\":true}"
    );
}

#[test]
fn encoded_response_is_valid_json_for_serde() {
    let resp = EventResponse {
        id: "id-9".to_string(),
        status: "success".to_string(),
        content: "quote \" slash \\ newline \n tab \t done".to_string(),
        is_error: false,
    };
    let s = encode_response(&resp);
    let v: serde_json::Value = serde_json::from_str(&s).expect("output must be valid JSON");
    assert_eq!(v.get("id").unwrap().as_str().unwrap(), resp.id);
    assert_eq!(v.get("status").unwrap().as_str().unwrap(), resp.status);
    assert_eq!(v.get("content").unwrap().as_str().unwrap(), resp.content);
    assert_eq!(v.get("is_error").unwrap().as_bool().unwrap(), resp.is_error);
}

#[test]
fn serde_written_command_decodes() {
    let mut obj = serde_json::Map::new();
    obj.insert(
        "id".to_string(),
        serde_json::Value::String("x \"y\" \n \u{e9}".to_string()),
    );
    obj.insert(
        "jar_path".to_string(),
        serde_json::Value::String("/tmp/\\weird\\path.jar".to_string()),
    );
    let payload = serde_json::to_string(&serde_json::Value::Object(obj)).unwrap();
    let cmd = decode_command(&payload).expect("serde-written command must decode");
    assert_eq!(cmd.id, "x \"y\" \n \u{e9}");
    assert_eq!(cmd.jar_path, "/tmp/\\weird\\path.jar");
}
