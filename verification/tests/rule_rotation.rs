use restrictions_server::rules::apply_rules;
use restrictions_server::rules::current_rules_json;
use restrictions_server::rules::replacement_notice;
use restrictions_server::rules::rotate_rules;
use restrictions_server::rules::rotate_rules_with;
use restrictions_server::rules::Rule;
use restrictions_server::rules::RuleChange;
use restrictions_server::chat::MessageType;
use restrictions_server::chat::restart_notice;
use restrictions_server::chat::User;
use restrictions_server::chat::write_msg_history;
use restrictions_server::rules::receive_message;
use restrictions_server::rules::rotation_turn;

fn rule(name: &str) -> Rule<u8> {
    Rule { name: name.to_string(), desc: format!("{} rule", name), _starttime: 0, _endtime: 0, process: 0 }
}

fn names(rules: &Vec<Rule<u8>>) -> Vec<String> {
    rules.iter().map(|r| r.name.clone()).collect()
}

#[test]
fn first_rotation_brings_a_rule_into_force() {
    let mut rules = Vec::new();
    let mut pool = vec![rule("a"), rule("b"), rule("c")];
    let (change, wait) = rotate_rules_with(&mut rules, &mut pool, 0, 1000, 1);
    assert!(matches!(change, RuleChange::Added));
    assert!(wait);
    assert_eq!(names(&rules), vec!["b"]);
    assert_eq!(rules[0]._starttime, 1000);
    assert_eq!(rules[0]._endtime, 61000);
    assert_eq!(names(&pool), vec!["a", "c"]);
}

#[test]
fn later_rotations_replace_the_rule_in_force() {
    let mut rules = vec![rule("a")];
    let mut pool = vec![rule("b"), rule("c")];
    let (change, wait) = rotate_rules_with(&mut rules, &mut pool, 2, 5, 1);
    match change {
        RuleChange::Replaced { old_name, new_name } => {
            assert_eq!(old_name, "a");
            assert_eq!(new_name, "c");
        }
        _ => panic!("expected a replacement"),
    }
    assert!(wait);
    assert_eq!(names(&rules), vec!["c"]);
    assert_eq!(names(&pool), vec!["b", "a"]);
}

#[test]
fn rotation_without_users_keeps_one_rule() {
    let mut rules = vec![rule("a")];
    let mut pool = vec![rule("b")];
    let (change, _) = rotate_rules_with(&mut rules, &mut pool, 0, 5, 0);
    assert!(matches!(change, RuleChange::Replaced { .. }));
    assert_eq!(names(&rules), vec!["b"]);
    let mut rules = vec![rule("a"), rule("b")];
    let mut pool = vec![rule("c")];
    let (change, wait) = rotate_rules_with(&mut rules, &mut pool, 0, 5, 0);
    assert!(matches!(change, RuleChange::Unchanged));
    assert!(wait);
    assert_eq!(names(&rules), vec!["a", "b"]);
    assert_eq!(names(&pool), vec!["c"]);
}

#[test]
fn random_rotation_conserves_the_rules() {
    for _ in 0..20 {
        let mut rules = vec![rule("a")];
        let mut pool = vec![rule("b"), rule("c"), rule("d")];
        let (_, wait) = rotate_rules(&mut rules, &mut pool, 1, 100);
        assert!(wait);
        assert_eq!(rules.len(), 1);
        assert_eq!(pool.len(), 3);
        let mut all = names(&rules);
        all.extend(names(&pool));
        all.sort();
        assert_eq!(all, vec!["a", "b", "c", "d"]);
        assert_ne!(rules[0].name, "a");
        assert_eq!(rules[0]._endtime, 60100);
    }
}

#[test]
fn rules_frame_text() {
    let mut r = rule("quiet");
    r._starttime = 1;
    r._endtime = 60001;
    assert_eq!(current_rules_json(&vec![r]), "[\"Rules\",[\"quiet\",\"quiet rule\",1,60001]]");
    assert_eq!(current_rules_json::<u8>(&Vec::new()), "[\"Rules\"]");
}

#[test]
fn replacement_notice_text() {
    let m = replacement_notice(&"a".to_string(), &"b".to_string(), 3);
    assert_eq!(m.text, "a has been replaced by b");
    assert_eq!(m.by, "");
    assert_eq!(m.message_type, MessageType::System);
    assert_eq!(m.time, 3);
}

type Process = fn(restrictions_server::chat::Message, &restrictions_server::chat::User<()>, &Vec<restrictions_server::chat::Message>) -> restrictions_server::chat::Message;

fn shout(mut m: restrictions_server::chat::Message, _u: &restrictions_server::chat::User<()>, _h: &Vec<restrictions_server::chat::Message>) -> restrictions_server::chat::Message {
    m.text = m.text.to_uppercase();
    m
}

fn count_history(mut m: restrictions_server::chat::Message, _u: &restrictions_server::chat::User<()>, h: &Vec<restrictions_server::chat::Message>) -> restrictions_server::chat::Message {
    m.text = format!("{} ({})", m.text, h.len());
    m
}

#[test]
fn rules_process_messages_in_order() {
    let rules: Vec<Rule<Process>> = vec![
        Rule { name: "shout".to_string(), desc: String::new(), _starttime: 0, _endtime: 0, process: shout },
        Rule { name: "count".to_string(), desc: String::new(), _starttime: 0, _endtime: 0, process: count_history },
    ];
    let user = restrictions_server::chat::User::new(());
    let history = vec![restrictions_server::chat::restart_notice(1)];
    let m = restrictions_server::chat::user_message("hi".to_string(), "ip".to_string(), 2);
    let out = apply_rules(&rules, m, &user, &history);
    assert_eq!(out.text, "HI (1)");
    let none: Vec<Rule<Process>> = Vec::new();
    let m = restrictions_server::chat::user_message("hi".to_string(), "ip".to_string(), 2);
    assert_eq!(apply_rules(&none, m, &user, &history).text, "hi");
}

#[test]
fn a_run_of_rotations_keeps_one_rule_and_replaces_other_rules() {
    let mut rules: Vec<Rule<u8>> = Vec::new();
    let mut pool = vec![rule("a"), rule("b"), rule("c"), rule("d")];
    for step in 0..40u64 {
        let (change, wait) = rotate_rules(&mut rules, &mut pool, (step % 3) as usize, step * 1000);
        assert!(wait);
        assert!(rules.len() <= 1);
        if let RuleChange::Replaced { old_name, new_name } = change {
            assert_ne!(old_name, new_name);
        }
        let mut all = names(&rules);
        all.extend(names(&pool));
        all.sort();
        assert_eq!(all, vec!["a", "b", "c", "d"]);
    }
}

#[test]
fn a_received_message_is_clipped_processed_and_recorded() {
    let rules: Vec<Rule<Process>> = vec![Rule { name: "shout".to_string(), desc: String::new(), _starttime: 0, _endtime: 0, process: shout }];
    let mut user = User::new(());
    let mut msgs = vec![restart_notice(1)];
    let mut unsaved = Vec::new();
    let frame = receive_message(&mut user, "hi".to_string(), "ip".to_string(), 1000, 5, &rules, &mut msgs, &mut unsaved);
    assert_eq!(frame, Some("[\"Messages\",[\"HI\",\"ip\",0,1000]]".to_string()));
    assert_eq!(user.anti_spam_message_timer(), 3000);
    assert_eq!(msgs.len(), 2);
    assert_eq!(unsaved.len(), 1);
    assert!(receive_message(&mut user, "a".to_string(), "ip".to_string(), 1000, 5, &rules, &mut msgs, &mut unsaved).is_some());
    assert!(user.is_held_back(1000, 5));
    assert!(receive_message(&mut user, "b".to_string(), "ip".to_string(), 1000, 5, &rules, &mut msgs, &mut unsaved).is_none());
    assert_eq!(msgs.len(), 3);
}

#[test]
fn a_rotation_turn_frames_records_and_writes() {
    let mut rules = vec![rule("a")];
    let mut pool = vec![rule("b")];
    let mut msgs = Vec::new();
    let mut unsaved = Vec::new();
    let turn = rotation_turn(&mut rules, &mut pool, 1, 7, &mut msgs, &mut unsaved);
    assert!(turn.wait);
    assert!(matches!(turn.change, RuleChange::Replaced { .. }));
    assert_eq!(turn.rules_frame, Some("[\"Rules\",[\"b\",\"b rule\",7,60007]]".to_string()));
    assert_eq!(turn.notice_frame, Some("[\"Messages\",[\"a has been replaced by b\",\"\",1,7]]".to_string()));
    assert_eq!(turn.history, "[\"a has been replaced by b\",\"\",1,7]\n");
    assert_eq!(msgs.len(), 1);
    assert!(unsaved.is_empty());
    assert_eq!(write_msg_history(&mut unsaved), "");
    let mut rules = vec![rule("a"), rule("b")];
    let mut pool = vec![rule("c")];
    let turn = rotation_turn(&mut rules, &mut pool, 0, 7, &mut msgs, &mut unsaved);
    assert!(matches!(turn.change, RuleChange::Unchanged));
    assert_eq!(turn.rules_frame, None);
    assert_eq!(turn.notice_frame, None);
}
