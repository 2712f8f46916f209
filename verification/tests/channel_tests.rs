use small_talk::channel_manager::ChannelManager;
use small_talk::dispatch;
use small_talk::dto::command::{Command, CommandTypes, StoreReply};
use small_talk::dto::header::Header;
use small_talk::protocol::{Protocol, StatusType};

fn header(channel: &str) -> Header {
    Header {
        request_id: 1,
        status: StatusType::Okay,
        success: true,
        user: 1,
        user_name: "u".to_string(),
        channel: channel.to_string(),
    }
}

#[test]
fn unknown_channel_has_no_subscribers() {
    let m = ChannelManager::new();
    assert!(m.send_to_channel("general").is_empty());
}

#[test]
fn subscribers_are_kept_in_order_per_channel() {
    let mut m = ChannelManager::new();
    m.subscribe("a".to_string(), 1);
    m.subscribe("b".to_string(), 2);
    m.subscribe("a".to_string(), 3);
    m.subscribe("a".to_string(), 1);
    assert_eq!(m.send_to_channel("a"), vec![1, 3, 1]);
    assert_eq!(m.send_to_channel("b"), vec![2]);
    assert!(m.send_to_channel("c").is_empty());
}

#[test]
fn a_message_reaches_the_whole_channel_and_its_sender() {
    let mut m = ChannelManager::new();
    m.subscribe("lobby".to_string(), 10);
    m.subscribe("other".to_string(), 11);
    let cmd = Command { command: CommandTypes::Message, input: "hi".to_string() };
    let r = Protocol::answer(header("lobby"), cmd, StoreReply::Nothing);
    let to = dispatch(&mut m, 12, &r);
    assert_eq!(to, vec![10, 12]);
    assert_eq!(m.send_to_channel("other"), vec![11]);
}

#[test]
fn other_answers_go_back_only() {
    let mut m = ChannelManager::new();
    m.subscribe("lobby".to_string(), 10);
    let cmd = Command { command: CommandTypes::Join, input: "".to_string() };
    let r = Protocol::answer(header("lobby"), cmd, StoreReply::Nothing);
    let to = dispatch(&mut m, 12, &r);
    assert_eq!(to, vec![12]);
    assert_eq!(m.send_to_channel("lobby"), vec![10, 12]);
}
