use small_talk::dto::command::{Command, CommandTypes, StoreReply, StoreRequest};
use small_talk::dto::header::Header;
use small_talk::models::User;
use small_talk::protocol::StatusType;

fn header() -> Header {
    Header {
        request_id: 1,
        status: StatusType::Okay,
        success: true,
        user: 9,
        user_name: "old".to_string(),
        channel: "general".to_string(),
    }
}

fn user(id: i32, nick: &str) -> User {
    User { id, nickname: nick.to_string(), last_nickname: "".to_string(), active: true }
}

const ALL: [CommandTypes; 6] = [
    CommandTypes::Register,
    CommandTypes::Login,
    CommandTypes::Join,
    CommandTypes::Message,
    CommandTypes::Whisper,
    CommandTypes::Exit,
];

#[test]
fn command_names() {
    assert_eq!(CommandTypes::Register.as_str(), "/register");
    assert_eq!(CommandTypes::Login.as_str(), "/login");
    assert_eq!(CommandTypes::Join.as_str(), "/join");
    assert_eq!(CommandTypes::Message.as_str(), "/message");
    assert_eq!(CommandTypes::Whisper.as_str(), "/whisper");
    assert_eq!(CommandTypes::Exit.as_str(), "/exit");
}

#[test]
fn command_names_read_back() {
    for c in ALL {
        match CommandTypes::from_name(c.as_str()) {
            Ok(d) => assert_eq!(d, c),
            Err(_) => panic!("name not read back"),
        }
    }
}

#[test]
fn unknown_command_is_refused_with_its_text() {
    for bad in ["register", "/Register", "", "/message ", "/msg"] {
        match CommandTypes::from_name(bad) {
            Ok(_) => panic!("accepted {bad}"),
            Err(e) => assert_eq!(e.name, bad),
        }
    }
}

#[test]
fn store_requests() {
    let c = Command { command: CommandTypes::Register, input: "ana".to_string() };
    assert!(matches!(c.store_request(), StoreRequest::Register(n) if n == "ana"));
    let c = Command { command: CommandTypes::Login, input: "bob".to_string() };
    assert!(matches!(c.store_request(), StoreRequest::FindUser(n) if n == "bob"));
    let c = Command { command: CommandTypes::Message, input: "hi".to_string() };
    assert!(matches!(c.store_request(), StoreRequest::Nothing));
}

#[test]
fn register_takes_the_new_user() {
    let mut h = header();
    let c = Command { command: CommandTypes::Register, input: "ana".to_string() };
    let p = c.handle_command(&mut h, StoreReply::Stored(user(4, "ana")));
    assert_eq!(p.to_string(), "{\"status\":\"success\"}");
    assert_eq!(h.user, 4);
    assert_eq!(h.user_name, "ana");
    assert!(h.success);
    assert_eq!(h.status, StatusType::Okay);
}

#[test]
fn login_success() {
    let mut h = header();
    let c = Command { command: CommandTypes::Login, input: "bob".to_string() };
    let p = c.handle_command(&mut h, StoreReply::Stored(user(8, "bob")));
    assert_eq!(p.to_string(), "{\"status\":\"success\",\"user_name\":\"bob\"}");
    assert_eq!(h.user, 8);
    assert_eq!(h.user_name, "bob");
}

#[test]
fn login_failure_marks_the_header() {
    let mut h = header();
    let c = Command { command: CommandTypes::Login, input: "nobody".to_string() };
    let p = c.handle_command(&mut h, StoreReply::Missing("Record not found".to_string()));
    assert_eq!(p.to_string(), "{\"status\":\"error\",\"message\":\"Record not found\"}");
    assert_eq!(h.user, 0);
    assert_eq!(h.user_name, "");
    assert!(!h.success);
    assert_eq!(h.status, StatusType::Error);
    assert_eq!(h.channel, "general");
}

#[test]
fn message_echoes_input_and_channel() {
    let mut h = header();
    let c = Command { command: CommandTypes::Message, input: "teste123".to_string() };
    let p = c.handle_command(&mut h, StoreReply::Nothing);
    assert_eq!(p.to_string(), "{\"message\":\"teste123\",\"channel\":\"general\"}");
    assert_eq!(h.user, 9);
    assert_eq!(h.user_name, "old");
}

#[test]
fn unimplemented_commands() {
    for c in [CommandTypes::Join, CommandTypes::Whisper, CommandTypes::Exit] {
        let mut h = header();
        let cmd = Command { command: c, input: "x".to_string() };
        let p = cmd.handle_command(&mut h, StoreReply::Nothing);
        assert_eq!(p.to_string(), "{\"status\":\"not_implemented\"}");
        assert_eq!(h.user, 9);
    }
}
