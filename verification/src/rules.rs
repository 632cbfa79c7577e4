//! The chat's rules: which are in force, their frame, and the periodic rotation
//! that swaps the rule in force for one from the pool.
use vstd::prelude::*;
use vstd::string::StringExecFns;

use crate::chat::Message;
use crate::chat::MessageType;
use crate::chat::User;
use crate::chat::history_text;
use crate::chat::is_user_message;
use crate::chat::message_views;
use crate::chat::messages_frame;
use crate::chat::sent_global_messages;
use crate::chat::spam_window;
use crate::chat::text_can_be_clipped;
use crate::chat::timer_after_accept;
use crate::chat::user_message;
use crate::chat::write_msg_history;
use crate::chat::MessageView;
use crate::chat::MESSAGE_SPAM_TIME;
use crate::chat::RULE_MAX;
use crate::chat::RULE_TIME;
use crate::json::json_array;
use crate::json::json_array_text;
use crate::json::json_number;
use crate::json::json_string;
use crate::json::json_string_text;
use crate::json::string_views;
use crate::text::decimal;

verus! {

/// A chat rule: its name, its description, when it came into force and when it
/// ends (milliseconds), and how it changes a message (`process`).
pub struct Rule<P> {
    pub name: String,
    pub desc: String,
    pub _starttime: u64,
    pub _endtime: u64,
    pub process: P,
}

/// How long a rule that comes into force stays in force, in milliseconds.
pub open spec fn rule_duration() -> nat {
    (1000 * (RULE_TIME * RULE_MAX as u64)) as nat
}

/// The JSON text of a rule: `[name, desc, start, end]`.
pub open spec fn rule_json<P>(r: Rule<P>) -> Seq<char> {
    json_array(
        seq![
            json_string_text(r.name@),
            json_string_text(r.desc@),
            decimal(r._starttime as nat),
            decimal(r._endtime as nat),
        ],
    )
}

/// The frame that tells the users the rules in force: `["Rules", r1, r2, ...]`.
pub open spec fn rules_frame<P>(rules: Seq<Rule<P>>) -> Seq<char> {
    json_array(
        seq![json_string_text(seq!['R', 'u', 'l', 'e', 's'])] + rules.map_values(
            |r: Rule<P>| rule_json(r),
        ),
    )
}

/// The JSON text of a rule.
fn rule_to_json<P>(r: &Rule<P>) -> (res: String)
    ensures
        res@ == rule_json(*r),
{
    let mut items: Vec<String> = Vec::new();
    items.push(json_string(r.name.as_str()));
    items.push(json_string(r.desc.as_str()));
    items.push(json_number(r._starttime));
    items.push(json_number(r._endtime));
    assert(string_views(items@) =~= seq![
        json_string_text(r.name@),
        json_string_text(r.desc@),
        decimal(r._starttime as nat),
        decimal(r._endtime as nat),
    ]);
    json_array_text(&items)
}

/// The frame that tells the users the rules in force (its text).
pub fn current_rules_json<P>(rules: &Vec<Rule<P>>) -> (res: String)
    ensures
        res@ == rules_frame(rules@),
{
    let mut items: Vec<String> = Vec::new();
    let tag = "Rules";
    proof {
        reveal_strlit("Rules");
    }
    assert(tag@ =~= seq!['R', 'u', 'l', 'e', 's']);
    items.push(json_string(tag));
    let ghost head = seq![json_string_text(seq!['R', 'u', 'l', 'e', 's'])];
    let ghost all = rules@.map_values(|r: Rule<P>| rule_json(r));
    let mut i: usize = 0;
    assert(all.take(0) =~= Seq::<Seq<char>>::empty());
    while i < rules.len()
        invariant
            i <= rules@.len(),
            all == rules@.map_values(|r: Rule<P>| rule_json(r)),
            string_views(items@) == head + all.take(i as int),
        decreases rules@.len() - i,
    {
        let ghost old_items = string_views(items@);
        let item = rule_to_json(&rules[i]);
        items.push(item);
        assert(string_views(items@) =~= old_items.push(item@));
        assert(all.take(i + 1) =~= all.take(i as int).push(all[i as int]));
        i = i + 1;
    }
    assert(all.take(i as int) =~= all);
    json_array_text(&items)
}

/// What a rotation changed.
#[derive(Debug)]
pub enum RuleChange {
    /// Nothing: the rules stay as they were.
    Unchanged,
    /// A rule came into force beside the others.
    Added,
    /// A rule came into force and the oldest rule in force went back to the pool.
    Replaced { old_name: String, new_name: String },
}

/// `r` coming into force at `now`.
pub open spec fn activated<P>(r: Rule<P>, now: u64) -> Rule<P> {
    Rule { _starttime: now, _endtime: (now + rule_duration()) as u64, ..r }
}

/// A rotation takes place while users are connected, or while at most `RULE_MAX`
/// rules are in force.
pub open spec fn rotation_runs(in_force: nat, user_count: nat) -> bool {
    user_count > 0 || in_force <= RULE_MAX
}

/// One step of the rotation at `now` that picks the pool's rule at `pick`: where it
/// runs, that rule comes into force at the end of the rules, and where more than
/// `RULE_MAX` rules are then in force the first goes back to the end of the pool. The
/// step asks to wait a rule period where the count of rules it counted (those in
/// force before, plus the new one where it ran) reaches `RULE_MAX`.
pub open spec fn rotation_result<P>(
    rules: Seq<Rule<P>>,
    pool: Seq<Rule<P>>,
    user_count: nat,
    now: u64,
    pick: int,
    new_rules: Seq<Rule<P>>,
    new_pool: Seq<Rule<P>>,
    change: RuleChange,
    wait: bool,
) -> bool {
    if !rotation_runs(rules.len(), user_count) {
        &&& new_rules == rules
        &&& new_pool == pool
        &&& change is Unchanged
        &&& wait == (rules.len() >= RULE_MAX)
    } else {
        let picked = activated(pool[pick], now);
        let grown = rules.push(picked);
        let rest = pool.remove(pick);
        &&& 0 <= pick < pool.len()
        &&& wait == (grown.len() >= RULE_MAX)
        &&& if grown.len() > RULE_MAX {
            &&& new_rules == grown.drop_first()
            &&& new_pool == rest.push(grown[0])
            &&& change matches RuleChange::Replaced { old_name, new_name }
            &&& old_name@ == grown[0].name@
            &&& new_name@ == picked.name@
        } else {
            &&& new_rules == grown
            &&& new_pool == rest
            &&& change is Added
        }
    }
}

/// One step of the rotation at `now`, with the pool's rule at `pick`; gives what
/// changed and whether to wait a rule period before the next step.
pub fn rotate_rules_with<P>(
    rules: &mut Vec<Rule<P>>,
    pool: &mut Vec<Rule<P>>,
    user_count: usize,
    now: u64,
    pick: usize,
) -> (res: (RuleChange, bool))
    requires
        now + rule_duration() <= u64::MAX,
        rotation_runs(old(rules)@.len(), user_count as nat) ==> pick < old(pool)@.len(),
    ensures
        rotation_result(
            old(rules)@,
            old(pool)@,
            user_count as nat,
            now,
            pick as int,
            final(rules)@,
            final(pool)@,
            res.0,
            res.1,
        ),
{
    let mut count = rules.len();
    if user_count > 0 || count <= RULE_MAX {
        let mut picked = pool.remove(pick);
        picked._starttime = now;
        picked._endtime = now + 1000 * (RULE_TIME * RULE_MAX as u64);
        let new_name = picked.name.clone();
        rules.push(picked);
        count = rules.len();
        if count > RULE_MAX {
            let retired = rules.remove(0);
            let old_name = retired.name.clone();
            pool.push(retired);
            (RuleChange::Replaced { old_name, new_name }, count >= RULE_MAX)
        } else {
            (RuleChange::Added, count >= RULE_MAX)
        }
    } else {
        (RuleChange::Unchanged, count >= RULE_MAX)
    }
}

/// A random index below `len`, from `fastrand::usize(..len)`.
#[verifier::external_body]
fn random_index(len: usize) -> (i: usize)
    requires
        len > 0,
    ensures
        i < len,
{
    fastrand::usize(..len)
}

/// One step of the rotation at `now`, with a rule of the pool picked at random.
pub fn rotate_rules<P>(
    rules: &mut Vec<Rule<P>>,
    pool: &mut Vec<Rule<P>>,
    user_count: usize,
    now: u64,
) -> (res: (RuleChange, bool))
    requires
        now + rule_duration() <= u64::MAX,
        rotation_runs(old(rules)@.len(), user_count as nat) ==> old(pool)@.len() > 0,
    ensures
        exists|pick: int|
            rotation_result(
                old(rules)@,
                old(pool)@,
                user_count as nat,
                now,
                pick,
                final(rules)@,
                final(pool)@,
                res.0,
                res.1,
            ),
{
    let pick = if user_count > 0 || rules.len() <= RULE_MAX {
        random_index(pool.len())
    } else {
        0
    };
    rotate_rules_with(rules, pool, user_count, now, pick)
}

/// The message that announces a rotation: "<old> has been replaced by <new>".
pub fn replacement_notice(old_name: &String, new_name: &String, now: u64) -> (m: Message)
    ensures
        m.text@ == old_name@ + " has been replaced by "@ + new_name@,
        m.by@ == Seq::<char>::empty(),
        m.message_type == MessageType::System,
        m.time == now,
{
    let text = old_name.clone().concat(" has been replaced by ").concat(new_name.as_str());
    Message { text: text, by: String::new(), message_type: MessageType::System, time: now }
}


/// `res` is what passing `msg` through the rules' `process`, in order, can give, with
/// sender `user` and history `msgs`.
pub open spec fn rules_applied<N, P>(
    rules: Seq<Rule<P>>,
    msg: Message,
    user: &User<N>,
    msgs: &Vec<Message>,
    res: Message,
) -> bool where P: Fn(Message, &User<N>, &Vec<Message>) -> Message {
    exists|steps: Seq<Message>|
        {
            &&& steps.len() == rules.len() + 1
            &&& steps[0] == msg
            &&& steps.last() == res
            &&& forall|i: int|
                0 <= i < rules.len() ==> call_ensures(
                    #[trigger] rules[i].process,
                    (steps[i], user, msgs),
                    steps[i + 1],
                )
        }
}

/// Passes `msg` through the rules in force, in order, each rule's `process` taking the
/// message as the rule before it left it, with its sender and the history.
pub fn apply_rules<N, P>(rules: &Vec<Rule<P>>, msg: Message, user: &User<N>, msgs: &Vec<Message>) -> (res: Message)
    where
        P: Fn(Message, &User<N>, &Vec<Message>) -> Message,
    requires
        forall|i: int, m: Message|
            0 <= i < rules@.len() ==> #[trigger] call_requires(rules@[i].process, (m, user, msgs)),
    ensures
        rules_applied(rules@, msg, user, msgs, res),
{
    let mut cur = msg;
    let ghost mut steps: Seq<Message> = seq![msg];
    let mut i: usize = 0;
    while i < rules.len()
        invariant
            i <= rules@.len(),
            steps.len() == i + 1,
            steps[0] == msg,
            steps.last() == cur,
            forall|j: int, m: Message|
                0 <= j < rules@.len() ==> #[trigger] call_requires(rules@[j].process, (m, user, msgs)),
            forall|j: int|
                0 <= j < i ==> call_ensures(
                    #[trigger] rules@[j].process,
                    (steps[j], user, msgs),
                    steps[j + 1],
                ),
        decreases rules@.len() - i,
    {
        let next = (rules[i].process)(cur, user, msgs);
        proof {
            steps = steps.push(next);
        }
        cur = next;
        i = i + 1;
    }
    assert(steps.len() == rules@.len() + 1 && steps[0] == msg && steps.last() == cur);
    cur
}


/// Handles a text that a user at address `by` sends at `now` with `user_count` users
/// connected: the text is dropped (`None`) while the user is held back beyond one
/// interval; otherwise the user is held back one interval more, the text clipped to
/// `MAX_TEXT_BYTES` bytes is passed through the rules in force, the message is
/// recorded, and the frame that sends it to every user comes back.
pub fn receive_message<N, P>(
    user: &mut User<N>,
    text: String,
    by: String,
    now: u64,
    user_count: usize,
    rules: &Vec<Rule<P>>,
    msgs: &mut Vec<Message>,
    unsaved: &mut Vec<Message>,
) -> (frame: Option<String>)
    where
        P: Fn(Message, &User<N>, &Vec<Message>) -> Message,
    requires
        now + 2 * MESSAGE_SPAM_TIME <= u64::MAX,
        old(user).timer() <= now + spam_window(user_count as nat) ==> text_can_be_clipped(text@),
        forall|i: int, m: Message, u: User<N>, h: Vec<Message>|
            0 <= i < rules@.len() ==> #[trigger] call_requires(rules@[i].process, (m, &u, &h)),
    ensures
        final(user).connection() == old(user).connection(),
        old(user).timer() > now + spam_window(user_count as nat) ==> {
            &&& frame is None
            &&& final(user).timer() == old(user).timer()
            &&& final(msgs)@ == old(msgs)@
            &&& final(unsaved)@ == old(unsaved)@
        },
        old(user).timer() <= now + spam_window(user_count as nat) ==> {
            &&& final(user).timer() == timer_after_accept(
                old(user).timer() as nat,
                now as nat,
                user_count as nat,
            )
            &&& exists|clipped: Message, m: Message|
                {
                    &&& is_user_message(text@, by, now, clipped)
                    &&& rules_applied(rules@, clipped, &*final(user), &*old(msgs), m)
                    &&& final(msgs)@ == old(msgs)@.push(m)
                    &&& final(unsaved)@ == old(unsaved)@.push(m)
                    &&& frame matches Some(f) && f@ == messages_frame(seq![m@])
                }
        },
{
    if !user.accept_message_at(now, user_count) {
        return None;
    }
    let clipped = user_message(text, by, now);
    let ghost c = clipped;
    let msg = apply_rules(rules, clipped, &*user, &*msgs);
    let ghost m = msg;
    let frame = sent_global_messages(msg, msgs, unsaved);
    assert(is_user_message(text@, by, now, c));
    Some(frame)
}

/// What one turn of the rule rotation did and what it asks the server to send,
/// write and wait.
pub struct RotationTurn {
    /// What the rotation changed.
    pub change: RuleChange,
    /// Whether to wait a rule period before the next turn.
    pub wait: bool,
    /// The frame of the rules in force, where they changed.
    pub rules_frame: Option<String>,
    /// The frame of the message announcing a replacement, where there was one.
    pub notice_frame: Option<String>,
    /// The text to append to the history file.
    pub history: String,
}

/// The message announcing that `old_name` has been replaced by `new_name` at `now`.
pub open spec fn replacement_view(old_name: Seq<char>, new_name: Seq<char>, now: u64) -> MessageView {
    MessageView {
        text: old_name + " has been replaced by "@ + new_name,
        by: Seq::<char>::empty(),
        message_type: MessageType::System,
        time: now,
    }
}

/// One turn of the rule rotation at `now` with `user_count` users: a rotation step
/// with a rule of the pool picked at random; where the rules changed, the frame of
/// the rules in force; where a rule was replaced, the announcement is recorded and
/// its frame given; and at the end of every turn the unsaved messages (the
/// announcement among them) are taken for the history file.
pub fn rotation_turn<P>(
    rules: &mut Vec<Rule<P>>,
    pool: &mut Vec<Rule<P>>,
    user_count: usize,
    now: u64,
    msgs: &mut Vec<Message>,
    unsaved: &mut Vec<Message>,
) -> (turn: RotationTurn)
    requires
        now + rule_duration() <= u64::MAX,
        rotation_runs(old(rules)@.len(), user_count as nat) ==> old(pool)@.len() > 0,
    ensures
        exists|pick: int|
            rotation_result(
                old(rules)@,
                old(pool)@,
                user_count as nat,
                now,
                pick,
                final(rules)@,
                final(pool)@,
                turn.change,
                turn.wait,
            ),
        turn.change is Unchanged <==> turn.rules_frame is None,
        turn.rules_frame matches Some(f) ==> f@ == rules_frame(final(rules)@),
        final(unsaved)@ == Seq::<Message>::empty(),
        match turn.change {
            RuleChange::Replaced { old_name, new_name } => {
                let notice = replacement_view(old_name@, new_name@, now);
                &&& message_views(final(msgs)@) == message_views(old(msgs)@).push(notice)
                &&& turn.notice_frame matches Some(f) && f@ == messages_frame(seq![notice])
                &&& turn.history@ == history_text(message_views(old(unsaved)@).push(notice))
            },
            _ => {
                &&& final(msgs)@ == old(msgs)@
                &&& turn.notice_frame is None
                &&& turn.history@ == history_text(message_views(old(unsaved)@))
            },
        },
{
    let ghost rules0 = old(rules)@;
    let ghost pool0 = old(pool)@;
    let (change, wait) = rotate_rules(rules, pool, user_count, now);
    let ghost pick = choose|p: int|
        rotation_result(rules0, pool0, user_count as nat, now, p, rules@, pool@, change, wait);
    assert(rotation_result(rules0, pool0, user_count as nat, now, pick, rules@, pool@, change, wait));
    let mut rules_frame: Option<String> = None;
    let mut notice_frame: Option<String> = None;
    match &change {
        RuleChange::Unchanged => {},
        RuleChange::Added => {
            rules_frame = Some(current_rules_json(rules));
        },
        RuleChange::Replaced { old_name, new_name } => {
            rules_frame = Some(current_rules_json(rules));
            let notice = replacement_notice(old_name, new_name, now);
            let ghost nv = notice@;
            assert(nv == replacement_view(old_name@, new_name@, now));
            let ghost before = old(msgs)@;
            let ghost before_unsaved = old(unsaved)@;
            notice_frame = Some(sent_global_messages(notice, msgs, unsaved));
            assert(message_views(msgs@) =~= message_views(before).push(nv));
            assert(message_views(unsaved@) =~= message_views(before_unsaved).push(nv));
        },
    }
    let history = write_msg_history(unsaved);
    let turn = RotationTurn { change, wait, rules_frame, notice_frame, history };
    assert(rotation_result(rules0, pool0, user_count as nat, now, pick, rules@, pool@, turn.change, turn.wait));
    turn
}

} // verus!
