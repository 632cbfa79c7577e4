use restrictions_server::chat::add_to_msg_history;
use restrictions_server::chat::can_clip_text;
use restrictions_server::chat::make_message_tung;
use restrictions_server::chat::message_to_serde;
use restrictions_server::chat::read_msg_history;
use restrictions_server::chat::restart_notice;
use restrictions_server::chat::try_read_msg_history;
use restrictions_server::chat::sent_global_messages;
use restrictions_server::chat::user_message;
use restrictions_server::chat::write_msg_history;
use restrictions_server::chat::Message;
use restrictions_server::chat::MessageType;
use restrictions_server::chat::User;

fn msg(text: &str, by: &str, t: MessageType, time: u64) -> Message {
    Message { text: text.to_string(), by: by.to_string(), message_type: t, time }
}

#[test]
fn message_json_text() {
    let m = msg("hi \"you\"\n", "1.2.3.4", MessageType::User, 5);
    assert_eq!(message_to_serde(&m), "[\"hi \\\"you\\\"\\n\",\"1.2.3.4\",0,5]");
    let s = msg("x", "", MessageType::System, 18446744073709551615);
    assert_eq!(message_to_serde(&s), "[\"x\",\"\",1,18446744073709551615]");
}

#[test]
fn message_frames() {
    let msgs = vec![msg("a", "b", MessageType::User, 1), msg("c", "", MessageType::System, 2)];
    assert_eq!(make_message_tung(&msgs), "[\"Messages\",[\"a\",\"b\",0,1],[\"c\",\"\",1,2]]");
    assert_eq!(make_message_tung(&Vec::new()), "[\"Messages\"]");
}

#[test]
fn recording_a_message_adds_it_to_both_lists() {
    let mut msgs = vec![msg("old", "", MessageType::System, 1)];
    let mut unsaved = Vec::new();
    add_to_msg_history(&msg("new", "ip", MessageType::User, 2), &mut msgs, &mut unsaved);
    assert_eq!(msgs.len(), 2);
    assert_eq!(unsaved.len(), 1);
    assert_eq!(msgs[1].text, "new");
    assert_eq!(unsaved[0].by, "ip");
}

#[test]
fn global_messages_are_recorded_and_framed() {
    let mut msgs = Vec::new();
    let mut unsaved = Vec::new();
    let frame = sent_global_messages(restart_notice(42), &mut msgs, &mut unsaved);
    assert_eq!(frame, "[\"Messages\",[\"Server (re)started!\",\"\",1,42]]");
    assert_eq!(msgs.len(), 1);
    assert_eq!(unsaved.len(), 1);
}

#[test]
fn writing_history_empties_the_unsaved_list() {
    let mut unsaved = vec![msg("a", "b", MessageType::User, 1), msg("c", "", MessageType::System, 2)];
    let text = write_msg_history(&mut unsaved);
    assert_eq!(text, "[\"a\",\"b\",0,1]\n[\"c\",\"\",1,2]\n");
    assert!(unsaved.is_empty());
    assert_eq!(write_msg_history(&mut unsaved), "");
}

#[test]
fn history_written_in_rounds_is_the_same_text() {
    let all = vec![msg("a", "b", MessageType::User, 1), msg("c", "", MessageType::System, 2)];
    let mut once = vec![msg("a", "b", MessageType::User, 1), msg("c", "", MessageType::System, 2)];
    let mut first = vec![msg("a", "b", MessageType::User, 1)];
    let mut second = vec![msg("c", "", MessageType::System, 2)];
    let whole = write_msg_history(&mut once);
    let rounds = write_msg_history(&mut first) + &write_msg_history(&mut second);
    assert_eq!(whole, rounds);
    assert_eq!(all.len(), 2);
}

#[test]
fn history_reads_back_what_was_written() {
    let mut unsaved = vec![msg("hé \"q\"", "1.1.1.1", MessageType::User, 10), msg("s", "", MessageType::System, 11)];
    let text = write_msg_history(&mut unsaved);
    let back = read_msg_history(&text);
    assert_eq!(back.len(), 2);
    assert_eq!(back[0].text, "hé \"q\"");
    assert_eq!(back[0].by, "1.1.1.1");
    assert_eq!(back[0].message_type, MessageType::User);
    assert_eq!(back[0].time, 10);
    assert_eq!(back[1].message_type, MessageType::System);
}

#[test]
fn history_passes_over_lines_that_are_not_arrays() {
    let back = read_msg_history("not json\n{\"a\":1}\n[\"t\",\"b\",7,3]\n\n");
    assert_eq!(back.len(), 1);
    assert_eq!(back[0].message_type, MessageType::System);
    assert_eq!(back[0].time, 3);
}

#[test]
fn history_with_a_malformed_array_is_refused() {
    assert!(try_read_msg_history("[\"t\",\"b\",0]\n").is_none());
    assert!(try_read_msg_history("[\"t\",\"b\",-1,3]\n").is_none());
    assert!(try_read_msg_history("[1,\"b\",0,3]\n").is_none());
    assert!(try_read_msg_history("[\"t\",\"b\",0,3.5]\n").is_none());
}

#[test]
fn history_keeps_the_last_lines_only() {
    let mut text = String::new();
    for i in 0..4100u64 {
        text.push_str(&format!("[\"m\",\"\",0,{}]\n", i));
    }
    let back = read_msg_history(&text);
    assert_eq!(back.len(), 3999);
    assert_eq!(back[0].time, 101);
    assert_eq!(back[3998].time, 4099);
}

#[test]
fn spam_window_holds_users_back() {
    let mut u = User::new(());
    assert_eq!(u.anti_spam_message_timer(), 0);
    assert!(u.accept_message_at(1000, 5));
    assert_eq!(u.anti_spam_message_timer(), 3000);
    assert!(u.accept_message_at(1000, 5));
    assert_eq!(u.anti_spam_message_timer(), 5000);
    assert!(!u.accept_message_at(1000, 5));
    assert_eq!(u.anti_spam_message_timer(), 5000);
    assert!(u.accept_message_at(3000, 10));
    assert_eq!(u.anti_spam_message_timer(), 7000);
}

#[test]
fn spam_window_shrinks_with_fewer_users() {
    let mut u = User::new(7u8);
    assert!(u.accept_message_at(100, 1));
    assert_eq!(u.anti_spam_message_timer(), 500);
    assert!(u.accept_message_at(600, 0));
    assert_eq!(u.anti_spam_message_timer(), 600);
    assert_eq!(*u.network(), 7);
    *u.network_mut() = 9;
    assert_eq!(*u.network(), 9);
}

#[test]
fn taken_message_is_held_between_one_and_two_windows() {
    let mut u = User::new(());
    let now = 50_000;
    assert!(u.accept_message_at(now, 3));
    let w = 2000 * 3 / 5;
    assert_eq!(u.anti_spam_message_timer(), now + w);
    assert!(u.accept_message_at(now, 3));
    assert_eq!(u.anti_spam_message_timer(), now + 2 * w);
}

#[test]
fn user_messages_are_clipped() {
    let long = "a".repeat(400);
    assert!(can_clip_text(&long));
    let m = user_message(long, "ip".to_string(), 9);
    assert_eq!(m.text.len(), 300);
    assert_eq!(m.by, "ip");
    assert_eq!(m.message_type, MessageType::User);
    assert_eq!(m.time, 9);
    let short = "hello".to_string();
    assert_eq!(user_message(short, String::new(), 1).text, "hello");
}

#[test]
fn clipping_inside_a_character_is_refused() {
    let text = format!("{}é", "a".repeat(299));
    assert!(!can_clip_text(&text));
    let text = format!("{}é", "a".repeat(298));
    assert!(can_clip_text(&text));
    assert_eq!(user_message(text, String::new(), 0).text.len(), 300);
}

#[test]
fn checked_history_read_gives_the_messages() {
    let back = try_read_msg_history("[\"t\",\"b\",0,3]\nnoise\n").unwrap();
    assert_eq!(back.len(), 1);
    assert_eq!(back[0].text, "t");
    assert!(try_read_msg_history("[]\n").is_none());
    assert!(try_read_msg_history("[1,2,3,4]\n").is_none());
}

#[test]
fn control_characters_are_escaped_in_history_lines() {
    let m = msg("a\u{1}b\u{1f}\t\r\u{8}\u{c}\\", "", MessageType::User, 0);
    assert_eq!(message_to_serde(&m), "[\"a\\u0001b\\u001f\\t\\r\\b\\f\\\\\",\"\",0,0]");
}

#[test]
fn a_long_history_reads_back_its_last_messages() {
    let mut unsaved: Vec<Message> = (0..4001u64).map(|i| msg("m", "x", MessageType::User, i)).collect();
    let text = write_msg_history(&mut unsaved);
    let back = read_msg_history(&text);
    assert_eq!(back.len(), 3999);
    assert_eq!(back[0].time, 2);
    assert_eq!(back[3998].time, 4000);
}
