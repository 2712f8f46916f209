use small_talk::dto::command::{Command, CommandTypes, StoreReply};
use small_talk::dto::header::Header;
use small_talk::models::User;
use small_talk::payload::Payload;
use small_talk::protocol::{HeaderSend, Protocol, RequestType, StatusType};

fn guest_header() -> Header {
    Header {
        request_id: 42,
        status: StatusType::Okay,
        success: true,
        user: -7,
        user_name: "guest".to_string(),
        channel: "/".to_string(),
    }
}

fn message_payload() -> Payload {
    let mut payload = Payload::new();
    payload.insert("command", "/message".to_string());
    payload.insert("input", "teste123".to_string());
    payload
}

#[test]
fn header_text_lists_fields_in_order() {
    assert_eq!(
        guest_header().to_string(),
        "{ \"request_id\": 42, \"status\": \"Okay\", \"success\": true, \"user\": -7, \"user_name\": \"guest\" }"
    );
}

#[test]
fn header_text_of_extreme_numbers() {
    let mut h = guest_header();
    h.request_id = u64::MAX;
    h.user = i32::MIN;
    h.success = false;
    h.status = StatusType::MissingArg;
    assert_eq!(
        h.to_string(),
        "{ \"request_id\": 18446744073709551615, \"status\": \"MissingArg\", \"success\": false, \"user\": -2147483648, \"user_name\": \"guest\" }"
    );
    h.request_id = 0;
    h.user = 0;
    assert!(h.to_string().starts_with("{ \"request_id\": 0, "));
    assert!(h.to_string().contains("\"user\": 0, "));
}

#[test]
fn status_and_request_type_names() {
    assert_eq!(StatusType::Okay.to_string(), "Okay");
    assert_eq!(StatusType::Error.to_string(), "Error");
    assert_eq!(StatusType::MissingArg.to_string(), "MissingArg");
    assert_eq!(RequestType::Receive.to_string(), "RECEIVE");
    assert_eq!(RequestType::Send.to_string(), "SEND");
    assert!(RequestType::Send == RequestType::Send);
    assert!(RequestType::Receive == RequestType::Receive);
    assert!(!(RequestType::Send == RequestType::Receive));
}

#[test]
fn payload_renders_as_compact_json() {
    assert_eq!(message_payload().to_string(), "{\"command\":\"/message\",\"input\":\"teste123\"}");
    assert_eq!(Payload::new().to_string(), "{}");
}

#[test]
fn payload_escapes_line_breaks_and_quotes() {
    let mut p = Payload::new();
    p.insert("message", "a\r\nb \"c\"".to_string());
    let text = p.to_string();
    assert_eq!(text, "{\"message\":\"a\\r\\nb \\\"c\\\"\"}");
    assert!(!text.contains('\n'));
}

#[test]
fn payload_insert_replaces_existing_key_in_place() {
    let mut p = Payload::new();
    p.insert("a", "1".to_string());
    p.insert("b", "2".to_string());
    p.insert("a", "3".to_string());
    assert_eq!(p.fields().len(), 2);
    assert_eq!(p.get("a"), Some(&"3".to_string()));
    assert_eq!(p.get("b"), Some(&"2".to_string()));
    assert_eq!(p.get("c"), None);
    assert!(p.contains_key("b"));
    assert!(!p.contains_key("channel"));
    assert_eq!(p.to_string(), "{\"a\":\"3\",\"b\":\"2\"}");
}

#[test]
fn build_makes_a_send_request_on_the_root_channel() {
    let user = User { id: 123, nickname: "guest".to_string(), last_nickname: "".to_string(), active: true };
    let r = Protocol::build(user, message_payload(), 99);
    assert!(r.req_type == RequestType::Send);
    assert_eq!(r.header.user, 123);
    assert_eq!(r.header.user_name, "guest");
    assert_eq!(r.header.channel, "/");
    assert_eq!(r.header.request_id, 99);
    assert!(r.header.success);
    assert_eq!(r.header.status, StatusType::Okay);
    assert_eq!(
        r.to_string(),
        "SEND\r\n{ \"request_id\": 99, \"status\": \"Okay\", \"success\": true, \"user\": 123, \"user_name\": \"guest\" }\r\nPayload: {\"command\":\"/message\",\"input\":\"teste123\"}"
    );
}

#[test]
fn wire_text_reads_back_as_header_and_payload() {
    let user = User { id: 5, nickname: "zé".to_string(), last_nickname: "".to_string(), active: true };
    let r = Protocol::build(user, message_payload(), 7);
    let wire = r.to_string();
    let (header, payload) = Protocol::read_sections(wire.as_bytes()).unwrap();
    assert_eq!(header, r.header.to_string());
    assert_eq!(payload, " {\"command\":\"/message\",\"input\":\"teste123\"}");
}

#[test]
fn read_sections_needs_three_lines() {
    assert!(Protocol::read_sections(b"").is_none());
    assert!(Protocol::read_sections(b"RECEIVE\r\n{}").is_none());
    assert!(Protocol::read_sections(b"\r\n\r\nA\n\nB\r\n").is_none());
    let (h, p) = Protocol::read_sections(b"\n\rA\r\n\r\nB\nPayload:C\nD").unwrap();
    assert_eq!(h, "B");
    assert_eq!(p, "C");
}

#[test]
fn read_sections_removes_every_marker_and_decodes_lossily() {
    let (h, p) = Protocol::read_sections(b"X\r\nh\xffi\r\nPayload:a Payload:bPayloadPayload:").unwrap();
    assert_eq!(h, "h\u{fffd}i");
    assert_eq!(p, "a bPayload");
}

#[test]
fn send_marker_is_recognised() {
    assert!(Protocol::is_send_request(b"SEND\r\nx"));
    assert!(Protocol::is_send_request(b"SEND"));
    assert!(!Protocol::is_send_request(b"SEN"));
    assert!(!Protocol::is_send_request(b"RECEIVE\r\n"));
    assert!(!Protocol::is_send_request(b" SEND"));
}

#[test]
fn answer_to_a_message_goes_to_the_channel() {
    let mut h = guest_header();
    h.channel = "lobby".to_string();
    let cmd = Command { command: CommandTypes::Message, input: "hello".to_string() };
    let r: HeaderSend = Protocol::answer(h, cmd, StoreReply::Nothing);
    assert!(r.req_type == RequestType::Send);
    assert_eq!(r.payload.to_string(), "{\"message\":\"hello\",\"channel\":\"lobby\"}");
    assert_eq!(r.header.user_name, "guest");
}

#[test]
fn answer_to_other_commands_goes_back() {
    let cmd = Command { command: CommandTypes::Join, input: "x".to_string() };
    let r = Protocol::answer(guest_header(), cmd, StoreReply::Nothing);
    assert!(r.req_type == RequestType::Receive);
    assert_eq!(r.payload.to_string(), "{\"status\":\"not_implemented\"}");
}

#[test]
fn payload_escapes_control_characters() {
    let mut p = Payload::new();
    p.insert("k\\", "\u{1}\u{8}\t\u{c}\u{1f} \u{7f}é\\".to_string());
    assert_eq!(p.to_string(), "{\"k\\\\\":\"\\u0001\\b\\t\\f\\u001f \u{7f}é\\\\\"}");
}

#[test]
fn any_first_line_reads_back() {
    let (h, p) = Protocol::read_sections("whatever\r\nHEAD\r\nPayload: {}".as_bytes()).unwrap();
    assert_eq!(h, "HEAD");
    assert_eq!(p, " {}");
}
