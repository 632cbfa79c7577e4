//! The chat experiment: its users, messages, message history and the JSON frames
//! that it sends.
use vstd::prelude::*;

use crate::json::field_views;
use crate::json::json_array;
use crate::json::json_array_fields;
use crate::json::json_array_text;
use crate::json::json_number;
use crate::json::json_string;
use crate::json::json_string_text;
use crate::json::parse_json_array;
use crate::json::string_views;
use crate::json::JsonField;
use crate::json::JsonFieldView;
use crate::text::decimal;
use crate::text::split_on;
use vstd::utf8::encode_utf8;
use vstd::utf8::is_char_boundary;

verus! {

/// How long a rule stays in force, in seconds.
pub const RULE_TIME: u64 = 60;

/// How many rules are in force at once.
pub const RULE_MAX: usize = 1;

/// How many lines of the history file are read back.
pub const MAX_MSGS: usize = 4000;

/// The anti-spam interval between messages, in milliseconds, with five or more users.
pub const MESSAGE_SPAM_TIME: u64 = 2000;

/// Who wrote a message: a user, or the server itself.
#[derive(Debug, PartialEq, Eq, Structural, Clone, Copy)]
pub enum MessageType {
    User,
    System,
}

/// The number that stands for a message type in JSON.
pub open spec fn type_number(t: MessageType) -> u8 {
    match t {
        MessageType::User => 0,
        MessageType::System => 1,
    }
}

/// A chat message: its text, who sent it (an address, or empty for the server),
/// its type and its time in milliseconds.
#[derive(Debug, Clone)]
pub struct Message {
    pub text: String,
    pub by: String,
    pub message_type: MessageType,
    pub time: u64,
}

/// A message as mathematical values.
pub struct MessageView {
    pub text: Seq<char>,
    pub by: Seq<char>,
    pub message_type: MessageType,
    pub time: u64,
}

impl View for Message {
    type V = MessageView;

    open spec fn view(&self) -> MessageView {
        MessageView {
            text: self.text@,
            by: self.by@,
            message_type: self.message_type,
            time: self.time,
        }
    }
}

/// The views of a vector of messages.
pub open spec fn message_views(v: Seq<Message>) -> Seq<MessageView> {
    v.map_values(|m: Message| m@)
}

impl Message {
    /// A copy of this message.
    pub fn duplicate(&self) -> (m: Message)
        ensures
            m == *self,
    {
        Message {
            text: self.text.clone(),
            by: self.by.clone(),
            message_type: self.message_type,
            time: self.time,
        }
    }
}

/// The JSON text of a message: `[text, by, type, time]`.
pub open spec fn message_json(m: MessageView) -> Seq<char> {
    json_array(
        seq![
            json_string_text(m.text),
            json_string_text(m.by),
            decimal(type_number(m.message_type) as nat),
            decimal(m.time as nat),
        ],
    )
}

/// The JSON text of a message: `[text, by, type, time]`.
pub fn message_to_serde(msg: &Message) -> (res: String)
    ensures
        res@ == message_json(msg@),
{
    let kind: u64 = match msg.message_type {
        MessageType::User => 0,
        MessageType::System => 1,
    };
    let mut items: Vec<String> = Vec::new();
    items.push(json_string(msg.text.as_str()));
    items.push(json_string(msg.by.as_str()));
    items.push(json_number(kind));
    items.push(json_number(msg.time));
    let res = json_array_text(&items);
    assert(string_views(items@) =~= seq![
        json_string_text(msg@.text),
        json_string_text(msg@.by),
        decimal(type_number(msg@.message_type) as nat),
        decimal(msg@.time as nat),
    ]);
    res
}

/// The frame that carries messages to the users: `["Messages", m1, m2, ...]`.
pub open spec fn messages_frame(msgs: Seq<MessageView>) -> Seq<char> {
    json_array(
        seq![json_string_text(seq!['M', 'e', 's', 's', 'a', 'g', 'e', 's'])] + msgs.map_values(
            |m: MessageView| message_json(m),
        ),
    )
}

/// The frame that carries `msgs` to the users (its text; the connection sends it as
/// a text message).
pub fn make_message_tung(msgs: &Vec<Message>) -> (res: String)
    ensures
        res@ == messages_frame(message_views(msgs@)),
{
    let mut items: Vec<String> = Vec::new();
    let tag = "Messages";
    proof {
        reveal_strlit("Messages");
    }
    assert(tag@ =~= seq!['M', 'e', 's', 's', 'a', 'g', 'e', 's']);
    items.push(json_string(tag));
    let ghost head = seq![json_string_text(seq!['M', 'e', 's', 's', 'a', 'g', 'e', 's'])];
    let ghost all = message_views(msgs@).map_values(|m: MessageView| message_json(m));
    let mut i: usize = 0;
    assert(all.take(0) =~= Seq::<Seq<char>>::empty());
    while i < msgs.len()
        invariant
            i <= msgs@.len(),
            all == message_views(msgs@).map_values(|m: MessageView| message_json(m)),
            string_views(items@) == head + all.take(i as int),
        decreases msgs@.len() - i,
    {
        let ghost old_items = string_views(items@);
        let item = message_to_serde(&msgs[i]);
        assert(item@ == all[i as int]);
        items.push(item);
        assert(string_views(items@) =~= old_items.push(item@));
        assert(all.take(i + 1) =~= all.take(i as int).push(all[i as int]));
        assert(string_views(items@) =~= head + all.take(i + 1));
        i = i + 1;
    }
    assert(all.take(i as int) =~= all);
    json_array_text(&items)
}

/// Records a message: it joins the history and the messages not yet written to disk.
pub fn add_to_msg_history(msg: &Message, msgs: &mut Vec<Message>, unsaved: &mut Vec<Message>)
    ensures
        final(msgs)@ == old(msgs)@.push(*msg),
        final(unsaved)@ == old(unsaved)@.push(*msg),
{
    msgs.push(msg.duplicate());
    unsaved.push(msg.duplicate());
}

/// Records a message from the server and gives the frame that sends it to every user.
pub fn sent_global_messages(msg: Message, msgs: &mut Vec<Message>, unsaved: &mut Vec<Message>) -> (frame: String)
    ensures
        final(msgs)@ == old(msgs)@.push(msg),
        final(unsaved)@ == old(unsaved)@.push(msg),
        frame@ == messages_frame(seq![msg@]),
{
    add_to_msg_history(&msg, msgs, unsaved);
    let ghost m = msg;
    let mut one: Vec<Message> = Vec::new();
    one.push(msg);
    assert(message_views(one@) =~= seq![m@]);
    make_message_tung(&one)
}

/// The text that the history file gains for `msgs`: each message's JSON on a line of its own.
pub open spec fn history_text(msgs: Seq<MessageView>) -> Seq<char>
    decreases msgs.len(),
{
    if msgs.len() == 0 {
        seq![]
    } else {
        history_text(msgs.drop_last()) + message_json(msgs.last()).push('\n')
    }
}

/// Takes the messages not yet written to disk and gives the text to append to the
/// history file; afterwards none are left unwritten.
pub fn write_msg_history(unsaved: &mut Vec<Message>) -> (res: String)
    ensures
        res@ == history_text(message_views(old(unsaved)@)),
        final(unsaved)@ == Seq::<Message>::empty(),
{
    let mut out: Vec<char> = Vec::new();
    let ghost all = message_views(unsaved@);
    let mut i: usize = 0;
    assert(all.take(0) =~= Seq::<MessageView>::empty());
    while i < unsaved.len()
        invariant
            i <= unsaved@.len(),
            all == message_views(unsaved@),
            out@ == history_text(all.take(i as int)),
        decreases unsaved@.len() - i,
    {
        let line = message_to_serde(&unsaved[i]);
        let chars = crate::text::chars_of(line.as_str());
        let ghost before = out@;
        let mut j: usize = 0;
        while j < chars.len()
            invariant
                j <= chars@.len(),
                out@ == before + chars@.take(j as int),
            decreases chars@.len() - j,
        {
            out.push(chars[j]);
            assert(chars@.take(j + 1) =~= chars@.take(j as int).push(chars@[j as int]));
            j = j + 1;
        }
        out.push('\n');
        assert(chars@.take(j as int) =~= chars@);
        assert(all.take(i + 1).drop_last() =~= all.take(i as int));
        assert(out@ =~= history_text(all.take(i + 1)));
        i = i + 1;
    }
    assert(all.take(i as int) =~= all);
    unsaved.clear();
    crate::text::string_from_chars(out.as_slice())
}


/// The lines of the history file that are read back: the last `MAX_MSGS` of its
/// newline-separated pieces.
pub open spec fn kept_history_lines(data: Seq<char>) -> Seq<Seq<char>> {
    let lines = split_on(data, '\n');
    if lines.len() > MAX_MSGS {
        lines.skip(lines.len() - MAX_MSGS)
    } else {
        lines
    }
}

/// The message that a JSON array of the history holds: a text, a sender, a type
/// number (0 for a user, any other for the server) and a time; `None` where the array
/// is not of that shape.
pub open spec fn message_of_fields(f: Seq<JsonFieldView>) -> Option<MessageView> {
    if f.len() < 4 {
        None
    } else {
        match (f[0], f[1], f[2], f[3]) {
            (
                JsonFieldView::Text(text),
                JsonFieldView::Text(by),
                JsonFieldView::Number(Some(kind)),
                JsonFieldView::Number(Some(time)),
            ) => Some(
                MessageView {
                    text: text,
                    by: by,
                    message_type: if kind == 0 {
                        MessageType::User
                    } else {
                        MessageType::System
                    },
                    time: time,
                },
            ),
            _ => None,
        }
    }
}

/// The messages that history lines hold, in order: a line that is not a JSON array
/// is passed over, and an array that is not a message leaves no history (`None`).
pub open spec fn history_of(lines: Seq<Seq<char>>) -> Option<Seq<MessageView>>
    decreases lines.len(),
{
    if lines.len() == 0 {
        Some(seq![])
    } else {
        match history_of(lines.drop_last()) {
            None => None,
            Some(msgs) => match json_array_fields(lines.last()) {
                None => Some(msgs),
                Some(fields) => match message_of_fields(fields) {
                    None => None,
                    Some(m) => Some(msgs.push(m)),
                },
            },
        }
    }
}

/// The message that the fields of a history line hold.
fn message_from_fields(fields: &Vec<JsonField>) -> (res: Option<Message>)
    ensures
        match message_of_fields(field_views(fields@)) {
            None => res is None,
            Some(m) => res matches Some(r) && r@ == m,
        },
{
    if fields.len() < 4 {
        return None;
    }
    let text = match &fields[0] {
        JsonField::Text(s) => s.clone(),
        _ => {
            return None;
        },
    };
    let by = match &fields[1] {
        JsonField::Text(s) => s.clone(),
        _ => {
            return None;
        },
    };
    let kind = match &fields[2] {
        JsonField::Number(Some(n)) => *n,
        _ => {
            return None;
        },
    };
    let time = match &fields[3] {
        JsonField::Number(Some(n)) => *n,
        _ => {
            return None;
        },
    };
    let message_type = if kind == 0 {
        MessageType::User
    } else {
        MessageType::System
    };
    Some(Message { text: text, by: by, message_type: message_type, time: time })
}

/// The messages that the history file's text holds (see `history_of`); `None` where
/// a line holds a JSON array that is not a message.
fn parse_history(data: &str) -> (res: Option<Vec<Message>>)
    ensures
        match history_of(kept_history_lines(data@)) {
            None => res is None,
            Some(msgs) => res matches Some(v) && message_views(v@) == msgs,
        },
{
    let chars = crate::text::chars_of(data);
    let pieces = crate::text::split_chars(&chars, '\n');
    let start: usize = if pieces.len() > MAX_MSGS {
        pieces.len() - MAX_MSGS
    } else {
        0
    };
    let ghost kept = crate::text::views(pieces@).skip(start as int);
    assert(kept == kept_history_lines(data@));
    let mut out: Vec<Message> = Vec::new();
    let mut i: usize = start;
    assert(kept.take(0) =~= Seq::<Seq<char>>::empty());
    while i < pieces.len()
        invariant
            start <= i <= pieces@.len(),
            kept == crate::text::views(pieces@).skip(start as int),
            kept == kept_history_lines(data@),
            history_of(kept.take(i - start)) == Some(message_views(out@)),
        decreases pieces@.len() - i,
    {
        let line = crate::text::string_from_chars(pieces[i].as_slice());
        assert(kept.take(i + 1 - start).drop_last() =~= kept.take(i - start));
        assert(kept.take(i + 1 - start).last() == line@);
        match parse_json_array(line.as_str()) {
            None => {},
            Some(fields) => {
                match message_from_fields(&fields) {
                    None => {
                        proof {
                            lemma_history_none_stays(kept, (i + 1 - start) as int);
                        }
                        return None;
                    },
                    Some(m) => {
                        let ghost before = message_views(out@);
                        out.push(m);
                        assert(message_views(out@) =~= before.push(m@));
                    },
                }
            },
        }
        i = i + 1;
    }
    assert(kept.take(i - start) =~= kept);
    Some(out)
}

/// The messages that the history file's text holds (see `history_of`), for a text in
/// which every kept line that is a JSON array holds a message.
pub fn read_msg_history(data: &str) -> (res: Vec<Message>)
    requires
        history_of(kept_history_lines(data@)) is Some,
    ensures
        Some(message_views(res@)) == history_of(kept_history_lines(data@)),
{
    match parse_history(data) {
        Some(v) => v,
        None => Vec::new(),
    }
}

/// The messages that the history file's text holds, read where every kept line that
/// is a JSON array holds a message; `None` otherwise.
pub fn try_read_msg_history(data: &str) -> (res: Option<Vec<Message>>)
    ensures
        match history_of(kept_history_lines(data@)) {
            None => res is None,
            Some(msgs) => res matches Some(v) && message_views(v@) == msgs,
        },
{
    if parse_history(data).is_some() {
        Some(read_msg_history(data))
    } else {
        None
    }
}

/// Once a prefix of the lines leaves no history, no longer prefix does.
proof fn lemma_history_none_stays(lines: Seq<Seq<char>>, n: int)
    requires
        0 <= n <= lines.len(),
        history_of(lines.take(n)) is None,
    ensures
        history_of(lines) is None,
    decreases lines.len() - n,
{
    if n < lines.len() {
        assert(lines.take(n + 1).drop_last() =~= lines.take(n));
        lemma_history_none_stays(lines, n + 1);
    } else {
        assert(lines.take(n) =~= lines);
    }
}


/// The longest message text that is kept, in bytes.
pub const MAX_TEXT_BYTES: usize = 300;

/// A connected chat user: its connection and the time (in milliseconds) until which
/// it is held back from sending.
pub struct User<N> {
    networking: N,
    anti_spam_message_timer: u64,
}

/// The interval that a message holds its sender back, in milliseconds:
/// `MESSAGE_SPAM_TIME` shared out by the number of users, counting at most five.
pub open spec fn spam_window(user_count: nat) -> nat {
    let counted: nat = if user_count < 5 {
        user_count
    } else {
        5
    };
    (MESSAGE_SPAM_TIME * counted / 5) as nat
}

/// Where a taken message leaves its sender's timer: one interval later, counted
/// from the timer where it lies ahead of now, and from now otherwise.
pub open spec fn timer_after_accept(timer: nat, now: nat, user_count: nat) -> nat {
    if timer > now {
        timer + spam_window(user_count)
    } else {
        now + spam_window(user_count)
    }
}

impl<N> User<N> {
    /// The user's connection.
    pub closed spec fn connection(&self) -> N {
        self.networking
    }

    /// The time until which the user is held back.
    pub closed spec fn timer(&self) -> u64 {
        self.anti_spam_message_timer
    }

    /// A new user on `networking`, not held back.
    pub fn new(networking: N) -> (u: User<N>)
        ensures
            u.connection() == networking,
            u.timer() == 0,
    {
        User { networking: networking, anti_spam_message_timer: 0 }
    }

    /// The user's connection.
    pub fn network(&self) -> (n: &N)
        ensures
            *n == self.connection(),
    {
        &self.networking
    }

    /// The user's connection, to use it.
    pub fn network_mut(&mut self) -> (n: &mut N)
        ensures
            *n == old(self).connection(),
            final(self).connection() == *final(n),
            final(self).timer() == old(self).timer(),
    {
        &mut self.networking
    }

    /// The time until which the user is held back.
    pub fn anti_spam_message_timer(&self) -> (t: u64)
        ensures
            t == self.timer(),
    {
        self.anti_spam_message_timer
    }

    /// Whether a message that the user sends at `now`, with `user_count` users
    /// connected, would be dropped: the user is held back beyond one interval from now.
    pub fn is_held_back(&self, now: u64, user_count: usize) -> (res: bool)
        requires
            now + MESSAGE_SPAM_TIME <= u64::MAX,
        ensures
            res == (self.timer() > now + spam_window(user_count as nat)),
    {
        let counted: u64 = if user_count < 5 {
            user_count as u64
        } else {
            5
        };
        let window = MESSAGE_SPAM_TIME * counted / 5;
        self.anti_spam_message_timer > now + window
    }

    /// Decides whether a message that the user sends at `now`, with `user_count`
    /// users connected, is taken: it is dropped while the user is held back beyond
    /// one interval from now; a taken message holds the user back one interval more,
    /// counted from now where the user was not held back.
    pub fn accept_message_at(&mut self, now: u64, user_count: usize) -> (accepted: bool)
        requires
            now + 2 * MESSAGE_SPAM_TIME <= u64::MAX,
        ensures
            accepted == (old(self).timer() <= now + spam_window(user_count as nat)),
            accepted ==> final(self).timer() == timer_after_accept(
                old(self).timer() as nat,
                now as nat,
                user_count as nat,
            ),
            !accepted ==> final(self).timer() == old(self).timer(),
            final(self).connection() == old(self).connection(),
    {
        let counted: u64 = if user_count < 5 {
            user_count as u64
        } else {
            5
        };
        let window = MESSAGE_SPAM_TIME * counted / 5;
        assert(window == spam_window(user_count as nat));
        if self.anti_spam_message_timer > now + window {
            false
        } else {
            if self.anti_spam_message_timer > now {
                self.anti_spam_message_timer = self.anti_spam_message_timer + window;
            } else {
                self.anti_spam_message_timer = now + window;
            }
            true
        }
    }
}

/// A message taken from a user keeps at most `MAX_TEXT_BYTES` bytes of its text;
/// where the text is longer, that many bytes must end on a character boundary.
pub open spec fn text_can_be_clipped(text: Seq<char>) -> bool {
    encode_utf8(text).len() <= MAX_TEXT_BYTES || is_char_boundary(
        encode_utf8(text),
        MAX_TEXT_BYTES as int,
    )
}

/// Whether `text` can be clipped to `MAX_TEXT_BYTES` bytes.
pub fn can_clip_text(text: &String) -> (res: bool)
    ensures
        res == text_can_be_clipped(text@),
{
    let chars = crate::text::chars_of(text.as_str());
    crate::text::utf8_len_at_most(&chars, MAX_TEXT_BYTES) || text.as_str().is_char_boundary(
        MAX_TEXT_BYTES,
    )
}

/// Shortens `s` to `new_len` bytes with `String::truncate`, which keeps a string
/// of at most `new_len` bytes as it is and otherwise keeps its first `new_len`
/// bytes; it panics where those do not end on a character boundary.
#[verifier::external_body]
fn truncate_string(s: &mut String, new_len: usize)
    requires
        encode_utf8(old(s)@).len() <= new_len || is_char_boundary(
            encode_utf8(old(s)@),
            new_len as int,
        ),
    ensures
        encode_utf8(old(s)@).len() <= new_len ==> final(s)@ == old(s)@,
        encode_utf8(old(s)@).len() > new_len ==> encode_utf8(final(s)@) == encode_utf8(
            old(s)@,
        ).take(new_len as int) && final(s)@ == old(s)@.take(final(s)@.len() as int),
{
    s.truncate(new_len)
}

/// `m` is the message that a user at address `by` sends at `now` with `text`: the
/// text clipped to `MAX_TEXT_BYTES` bytes (kept whole where it is no longer).
pub open spec fn is_user_message(text: Seq<char>, by: String, now: u64, m: Message) -> bool {
    &&& m.by == by
    &&& m.message_type == MessageType::User
    &&& m.time == now
    &&& encode_utf8(text).len() <= MAX_TEXT_BYTES ==> m.text@ == text
    &&& encode_utf8(text).len() > MAX_TEXT_BYTES ==> encode_utf8(m.text@) == encode_utf8(
        text,
    ).take(MAX_TEXT_BYTES as int) && m.text@ == text.take(m.text@.len() as int)
}

/// The message that a user at address `by` sends at `now`: its text clipped to
/// `MAX_TEXT_BYTES` bytes.
pub fn user_message(text: String, by: String, now: u64) -> (m: Message)
    requires
        text_can_be_clipped(text@),
    ensures
        is_user_message(text@, by, now, m),
{
    let mut text = text;
    truncate_string(&mut text, MAX_TEXT_BYTES);
    Message { text: text, by: by, message_type: MessageType::User, time: now }
}

/// The message that the server sends when it starts: "Server (re)started!".
pub fn restart_notice(now: u64) -> (m: Message)
    ensures
        m.text@ == "Server (re)started!"@,
        m.by@ == Seq::<char>::empty(),
        m.message_type == MessageType::System,
        m.time == now,
{
    Message {
        text: "Server (re)started!".to_owned(),
        by: String::new(),
        message_type: MessageType::System,
        time: now,
    }
}

} // verus!
