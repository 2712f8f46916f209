use small_talk::components::app::{App, InputMode, Key, KeyOutcome};
use small_talk::json::Json;

#[test]
fn new_app_is_empty() {
    let a = App::new();
    assert_eq!(a.input(), "");
    assert_eq!(a.character_index(), 0);
    assert_eq!(a.input_mode(), InputMode::Normal);
    assert!(a.messages().is_empty());
}

#[test]
fn typing_inserts_at_the_cursor() {
    let mut a = App::new();
    a.enter_char('a');
    a.enter_char('c');
    a.move_cursor_left();
    a.enter_char('b');
    assert_eq!(a.input(), "abc");
    assert_eq!(a.character_index(), 2);
}

#[test]
fn cursor_stays_within_the_line() {
    let mut a = App::new();
    a.move_cursor_left();
    assert_eq!(a.character_index(), 0);
    a.enter_char('x');
    a.move_cursor_right();
    a.move_cursor_right();
    assert_eq!(a.character_index(), 1);
    assert_eq!(a.clamp_cursor(7), 1);
    assert_eq!(a.clamp_cursor(0), 0);
}

#[test]
fn backspace_erases_before_the_cursor() {
    let mut a = App::new();
    for c in "hello".chars() {
        a.enter_char(c);
    }
    a.move_cursor_left();
    a.delete_char();
    assert_eq!(a.input(), "helo");
    assert_eq!(a.character_index(), 3);
    a.reset_cursor();
    a.delete_char();
    assert_eq!(a.input(), "helo");
    assert_eq!(a.character_index(), 0);
}

#[test]
fn erasing_undoes_typing() {
    let mut a = App::new();
    for c in "ab".chars() {
        a.enter_char(c);
    }
    a.move_cursor_left();
    a.enter_char('é');
    a.delete_char();
    assert_eq!(a.input(), "ab");
    assert_eq!(a.character_index(), 1);
}

#[test]
fn byte_index_counts_utf8_bytes() {
    let mut a = App::new();
    for c in "aé€😀".chars() {
        a.enter_char(c);
    }
    assert_eq!(a.byte_index(), 10);
    a.move_cursor_left();
    assert_eq!(a.byte_index(), 6);
    a.move_cursor_left();
    assert_eq!(a.byte_index(), 3);
    a.move_cursor_left();
    assert_eq!(a.byte_index(), 1);
    a.move_cursor_left();
    assert_eq!(a.byte_index(), 0);
    assert!(a.has_room('x'));
    assert!(a.has_room('😀'));
}

#[test]
fn submitting_keeps_the_message_and_clears_the_line() {
    let mut a = App::new();
    for c in "hi".chars() {
        a.enter_char(c);
    }
    let sent = a.submit_message();
    assert_eq!(sent, "hi");
    assert_eq!(a.input(), "");
    assert_eq!(a.character_index(), 0);
    assert_eq!(a.messages(), &vec!["hi".to_string()]);
}

#[test]
fn keys_in_normal_and_editing_mode() {
    let mut a = App::new();
    assert!(matches!(a.handle_key(Key::Char('x'), true), KeyOutcome::Continue));
    assert_eq!(a.input(), "");
    assert!(matches!(a.handle_key(Key::Char('e'), true), KeyOutcome::Continue));
    assert_eq!(a.input_mode(), InputMode::Editing);
    a.handle_key(Key::Char('o'), true);
    a.handle_key(Key::Char('k'), false);
    a.handle_key(Key::Char('k'), true);
    a.handle_key(Key::Left, true);
    a.handle_key(Key::Backspace, true);
    a.handle_key(Key::Right, true);
    assert_eq!(a.input(), "k");
    match a.handle_key(Key::Enter, true) {
        KeyOutcome::Submit(m) => assert_eq!(m, "k"),
        _ => panic!("expected a submission"),
    }
    a.handle_key(Key::Esc, true);
    assert_eq!(a.input_mode(), InputMode::Normal);
    assert!(matches!(a.handle_key(Key::Char('q'), true), KeyOutcome::Quit));
    assert_eq!(a.messages().len(), 1);
}

#[test]
fn json_array_strings_become_messages() {
    let v = Json::Array(vec![
        Json::Text("one".to_string()),
        Json::Number("2".to_string()),
        Json::Null,
        Json::Text("three".to_string()),
    ]);
    assert_eq!(App::parse_json_to_messages(&v), vec!["one".to_string(), "three".to_string()]);
    assert!(App::parse_json_to_messages(&Json::Text("x".to_string())).is_empty());
    assert!(App::parse_json_to_messages(&Json::Object(vec![])).is_empty());
}

#[test]
fn build_request_mocks_user_and_payload() {
    let (user, payload) = App::build_request("guest".to_string(), "/message".to_string(), "teste123".to_string());
    assert_eq!(user.id, 123);
    assert_eq!(user.nickname, "guest");
    assert_eq!(user.last_nickname, "");
    assert!(user.active);
    assert_eq!(payload.to_string(), "{\"command\":\"/message\",\"input\":\"teste123\"}");
}
