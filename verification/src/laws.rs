//! Properties that hold across the library's operations.
use vstd::prelude::*;

use crate::chat::history_of;
use crate::chat::history_text;
use crate::chat::kept_history_lines;
use crate::chat::message_json;
use crate::chat::message_views;
use crate::chat::spam_window;
use crate::chat::timer_after_accept;
use crate::chat::Message;
use crate::chat::MessageView;
use crate::chat::MAX_MSGS;
use crate::chat::MESSAGE_SPAM_TIME;
use crate::rules::rotation_result;
use crate::rules::rotation_runs;
use crate::rules::Rule;
use crate::rules::RuleChange;
use crate::chat::RULE_MAX;
use crate::chat::message_of_fields;
use crate::chat::type_number;
use crate::chat::MessageType;
use crate::json::join_commas;
use crate::json::json_array;
use crate::json::json_array_fields;
use crate::json::json_string_text;
use crate::json::JsonFieldView;
use crate::text::decimal;
use crate::text::split_from;
use crate::text::split_on;
use crate::http::apply_header;
use crate::routes::reply_header_text;
use crate::chat::messages_frame;

verus! {

broadcast use vstd::multiset::group_multiset_axioms;

/// The interval that a message holds its sender back never exceeds
/// `MESSAGE_SPAM_TIME`, grows with the number of users, and is `MESSAGE_SPAM_TIME`
/// from five users on.
pub proof fn law_spam_window_bounds(a: nat, b: nat)
    ensures
        spam_window(a) <= MESSAGE_SPAM_TIME,
        a <= b ==> spam_window(a) <= spam_window(b),
        a >= 5 ==> spam_window(a) == MESSAGE_SPAM_TIME,
{
}

/// A taken message holds its sender back at least one interval and at most two
/// intervals from now.
pub proof fn law_taken_message_holds_back(timer: nat, now: nat, user_count: nat)
    requires
        timer <= now + spam_window(user_count),
    ensures
        now + spam_window(user_count) <= timer_after_accept(timer, now, user_count),
        timer_after_accept(timer, now, user_count) <= now + 2 * spam_window(user_count),
{
}

/// Writing the unsaved messages in two rounds appends the same text to the history
/// file as writing them all in one.
pub proof fn law_history_written_in_rounds(a: Seq<MessageView>, b: Seq<MessageView>)
    ensures
        history_text(a + b) == history_text(a) + history_text(b),
    decreases b.len(),
{
    if b.len() == 0 {
        assert(a + b =~= a);
        assert(history_text(a) + history_text(b) =~= history_text(a));
    } else {
        assert((a + b).drop_last() =~= a + b.drop_last());
        law_history_written_in_rounds(a, b.drop_last());
        assert(history_text(a + b) =~= history_text(a) + history_text(b));
    }
}

/// A recorded message is written to the history file, on a line of its own after the
/// messages recorded before it, by the next write.
pub proof fn law_recorded_message_is_written(unsaved: Seq<Message>, msg: Message)
    ensures
        history_text(message_views(unsaved.push(msg))) == history_text(message_views(unsaved))
            + message_json(msg@).push('\n'),
{
    assert(message_views(unsaved.push(msg)).drop_last() =~= message_views(unsaved));
}

/// The history read back holds at most `MAX_MSGS` messages.
pub proof fn law_history_read_back_is_bounded(data: Seq<char>)
    ensures
        history_of(kept_history_lines(data)) matches Some(msgs) ==> msgs.len() <= MAX_MSGS,
{
    lemma_history_len(kept_history_lines(data));
}

proof fn lemma_history_len(lines: Seq<Seq<char>>)
    ensures
        history_of(lines) matches Some(msgs) ==> msgs.len() <= lines.len(),
    decreases lines.len(),
{
    if lines.len() > 0 {
        lemma_history_len(lines.drop_last());
    }
}

/// The names of a sequence of rules.
pub open spec fn rule_names<P>(rules: Seq<Rule<P>>) -> Seq<Seq<char>> {
    rules.map_values(|r: Rule<P>| r.name@)
}

/// A rotation never brings more than `RULE_MAX` rules into force.
pub proof fn law_rules_in_force_bounded<P>(
    rules: Seq<Rule<P>>,
    pool: Seq<Rule<P>>,
    user_count: nat,
    now: u64,
    pick: int,
    new_rules: Seq<Rule<P>>,
    new_pool: Seq<Rule<P>>,
    change: RuleChange,
    wait: bool,
)
    requires
        rotation_result(rules, pool, user_count, now, pick, new_rules, new_pool, change, wait),
        rules.len() <= RULE_MAX,
    ensures
        new_rules.len() <= RULE_MAX,
{
}

/// With one rule in force at a time, every rotation step is followed by a wait of a
/// rule period.
pub proof fn law_rotation_always_waits<P>(
    rules: Seq<Rule<P>>,
    pool: Seq<Rule<P>>,
    user_count: nat,
    now: u64,
    pick: int,
    new_rules: Seq<Rule<P>>,
    new_pool: Seq<Rule<P>>,
    change: RuleChange,
    wait: bool,
)
    requires
        rotation_result(rules, pool, user_count, now, pick, new_rules, new_pool, change, wait),
    ensures
        wait,
{
}

/// A rotation moves rules between those in force and the pool, and loses or makes
/// none: the names of all rules, counted with repetition, stay the same.
pub proof fn law_rules_conserved<P>(
    rules: Seq<Rule<P>>,
    pool: Seq<Rule<P>>,
    user_count: nat,
    now: u64,
    pick: int,
    new_rules: Seq<Rule<P>>,
    new_pool: Seq<Rule<P>>,
    change: RuleChange,
    wait: bool,
)
    requires
        rotation_result(rules, pool, user_count, now, pick, new_rules, new_pool, change, wait),
    ensures
        (rule_names(new_rules) + rule_names(new_pool)).to_multiset() == (rule_names(rules)
            + rule_names(pool)).to_multiset(),
{
    vstd::seq_lib::lemma_multiset_commutative(rule_names(new_rules), rule_names(new_pool));
    vstd::seq_lib::lemma_multiset_commutative(rule_names(rules), rule_names(pool));
    if rotation_runs(rules.len(), user_count) {
        let picked = crate::rules::activated(pool[pick], now);
        let grown = rules.push(picked);
        let rest = pool.remove(pick);
        let n = pool[pick].name@;
        assert(rule_names(grown) =~= rule_names(rules).push(n));
        assert(rule_names(rest) =~= rule_names(pool).remove(pick));
        vstd::seq_lib::to_multiset_build(rule_names(rules), n);
        vstd::seq_lib::to_multiset_remove(rule_names(pool), pick);
        assert(rule_names(pool).to_multiset().count(n) > 0) by {
            vstd::seq_lib::to_multiset_contains(rule_names(pool), n);
            assert(rule_names(pool)[pick] == n);
        }
        if grown.len() > RULE_MAX {
            let first = grown[0].name@;
            assert(rule_names(new_rules) =~= rule_names(grown).remove(0));
            assert(rule_names(new_pool) =~= rule_names(rest).push(first));
            vstd::seq_lib::to_multiset_remove(rule_names(grown), 0);
            vstd::seq_lib::to_multiset_build(rule_names(rest), first);
            assert(rule_names(grown).to_multiset().count(first) > 0) by {
                vstd::seq_lib::to_multiset_contains(rule_names(grown), first);
                assert(rule_names(grown)[0] == first);
            }
        }
        assert((rule_names(new_rules) + rule_names(new_pool)).to_multiset() =~= (rule_names(
            rules,
        ) + rule_names(pool)).to_multiset());
    }
}


/// A rule without its times in force.
pub open spec fn untimed<P>(r: Rule<P>) -> Rule<P> {
    Rule { _starttime: 0, _endtime: 0, ..r }
}

/// Rules without their times in force.
pub open spec fn untimed_rules<P>(rules: Seq<Rule<P>>) -> Seq<Rule<P>> {
    rules.map_values(|r: Rule<P>| untimed(r))
}

/// The rules after a step, all together: where the step runs, those before it with
/// the picked pool rule's times set to now and now plus a rule period; otherwise
/// those before it.
pub open spec fn rules_after_step<P>(
    rules: Seq<Rule<P>>,
    pool: Seq<Rule<P>>,
    user_count: nat,
    now: u64,
    pick: int,
) -> Seq<Rule<P>> {
    if rotation_runs(rules.len(), user_count) {
        rules + pool.update(pick, crate::rules::activated(pool[pick], now))
    } else {
        rules + pool
    }
}

/// A rotation step only moves rules between those in force and the pool and sets the
/// times of the rule it brings into force: counted with repetition, the rules after
/// the step are those before it with that one rule's times changed.
pub proof fn law_rotation_moves_rules<P>(
    rules: Seq<Rule<P>>,
    pool: Seq<Rule<P>>,
    user_count: nat,
    now: u64,
    pick: int,
    new_rules: Seq<Rule<P>>,
    new_pool: Seq<Rule<P>>,
    change: RuleChange,
    wait: bool,
)
    requires
        rotation_result(rules, pool, user_count, now, pick, new_rules, new_pool, change, wait),
    ensures
        (new_rules + new_pool).to_multiset() == rules_after_step(
            rules,
            pool,
            user_count,
            now,
            pick,
        ).to_multiset(),
{
    vstd::seq_lib::lemma_multiset_commutative(new_rules, new_pool);
    if rotation_runs(rules.len(), user_count) {
        let picked = crate::rules::activated(pool[pick], now);
        let grown = rules.push(picked);
        let rest = pool.remove(pick);
        let updated = pool.update(pick, picked);
        vstd::seq_lib::lemma_multiset_commutative(rules, updated);
        assert(updated.remove(pick) =~= rest);
        vstd::seq_lib::to_multiset_remove(updated, pick);
        vstd::seq_lib::to_multiset_build(rules, picked);
        assert(updated.to_multiset().count(picked) > 0) by {
            vstd::seq_lib::to_multiset_contains(updated, picked);
            assert(updated[pick] == picked);
        }
        if grown.len() > RULE_MAX {
            let first = grown[0];
            assert(new_rules =~= grown.remove(0));
            vstd::seq_lib::to_multiset_remove(grown, 0);
            vstd::seq_lib::to_multiset_build(rest, first);
            assert(grown.to_multiset().count(first) > 0) by {
                vstd::seq_lib::to_multiset_contains(grown, first);
            }
        }
        assert((new_rules + new_pool).to_multiset() =~= (rules + updated).to_multiset());
    }
}

/// A rotation step keeps the rules, counted with repetition, apart from their times.
proof fn lemma_untimed_conserved<P>(
    rules: Seq<Rule<P>>,
    pool: Seq<Rule<P>>,
    user_count: nat,
    now: u64,
    pick: int,
    new_rules: Seq<Rule<P>>,
    new_pool: Seq<Rule<P>>,
    change: RuleChange,
    wait: bool,
)
    requires
        rotation_result(rules, pool, user_count, now, pick, new_rules, new_pool, change, wait),
    ensures
        (untimed_rules(new_rules) + untimed_rules(new_pool)).to_multiset() == (untimed_rules(
            rules,
        ) + untimed_rules(pool)).to_multiset(),
{
    vstd::seq_lib::lemma_multiset_commutative(untimed_rules(new_rules), untimed_rules(new_pool));
    vstd::seq_lib::lemma_multiset_commutative(untimed_rules(rules), untimed_rules(pool));
    if rotation_runs(rules.len(), user_count) {
        let picked = crate::rules::activated(pool[pick], now);
        let grown = rules.push(picked);
        let rest = pool.remove(pick);
        let n = untimed(pool[pick]);
        assert(untimed(picked) == n);
        assert(untimed_rules(grown) =~= untimed_rules(rules).push(n));
        assert(untimed_rules(rest) =~= untimed_rules(pool).remove(pick));
        vstd::seq_lib::to_multiset_build(untimed_rules(rules), n);
        vstd::seq_lib::to_multiset_remove(untimed_rules(pool), pick);
        assert(untimed_rules(pool).to_multiset().count(n) > 0) by {
            vstd::seq_lib::to_multiset_contains(untimed_rules(pool), n);
            assert(untimed_rules(pool)[pick] == n);
        }
        if grown.len() > RULE_MAX {
            let first = untimed(grown[0]);
            assert(untimed_rules(new_rules) =~= untimed_rules(grown).remove(0));
            assert(untimed_rules(new_pool) =~= untimed_rules(rest).push(first));
            vstd::seq_lib::to_multiset_remove(untimed_rules(grown), 0);
            vstd::seq_lib::to_multiset_build(untimed_rules(rest), first);
            assert(untimed_rules(grown).to_multiset().count(first) > 0) by {
                vstd::seq_lib::to_multiset_contains(untimed_rules(grown), first);
                assert(untimed_rules(grown)[0] == first);
            }
        }
        assert((untimed_rules(new_rules) + untimed_rules(new_pool)).to_multiset()
            =~= (untimed_rules(rules) + untimed_rules(pool)).to_multiset());
    }
}

/// `s` holds no newline.
pub open spec fn no_newline(s: Seq<char>) -> bool {
    forall|i: int| 0 <= i < s.len() ==> s[i] != '\n'
}

/// The fields that serde_json reads back from a message's JSON array.
pub open spec fn message_fields(m: MessageView) -> Seq<JsonFieldView> {
    seq![
        JsonFieldView::Text(m.text),
        JsonFieldView::Text(m.by),
        JsonFieldView::Number(Some(type_number(m.message_type) as u64)),
        JsonFieldView::Number(Some(m.time)),
    ]
}

proof fn lemma_split_from_nonempty(s: Seq<char>, sep: char, cur: Seq<char>)
    ensures
        split_from(s, sep, cur).len() >= 1,
    decreases s.len(),
{
    if s.len() > 0 {
        if s[0] == sep {
            lemma_split_from_nonempty(s.drop_first(), sep, seq![]);
        } else {
            lemma_split_from_nonempty(s.drop_first(), sep, cur.push(s[0]));
        }
    }
}

/// Splitting a concatenation: the pieces of the first part, its last piece continued
/// by the second part.
proof fn lemma_split_from_concat(x: Seq<char>, z: Seq<char>, sep: char, cur: Seq<char>)
    ensures
        split_from(x + z, sep, cur) == split_from(x, sep, cur).drop_last() + split_from(
            z,
            sep,
            split_from(x, sep, cur).last(),
        ),
    decreases x.len(),
{
    lemma_split_from_nonempty(x, sep, cur);
    if x.len() == 0 {
        assert(x + z =~= z);
        assert(split_from(x, sep, cur).drop_last() =~= Seq::<Seq<char>>::empty());
        assert(split_from(x, sep, cur).drop_last() + split_from(z, sep, cur) =~= split_from(
            z,
            sep,
            cur,
        ));
    } else {
        assert((x + z)[0] == x[0]);
        assert((x + z).drop_first() =~= x.drop_first() + z);
        if x[0] == sep {
            lemma_split_from_concat(x.drop_first(), z, sep, seq![]);
            lemma_split_from_nonempty(x.drop_first(), sep, seq![]);
            let rest = split_from(x.drop_first(), sep, seq![]);
            assert((seq![cur] + rest).drop_last() =~= seq![cur] + rest.drop_last());
            assert((seq![cur] + rest).last() == rest.last());
            assert(seq![cur] + (rest.drop_last() + split_from(z, sep, rest.last())) =~= (seq![cur]
                + rest.drop_last()) + split_from(z, sep, rest.last()));
        } else {
            lemma_split_from_concat(x.drop_first(), z, sep, cur.push(x[0]));
        }
    }
}

/// A newline-free piece followed by a newline splits into that piece and an empty one.
proof fn lemma_split_line(y: Seq<char>)
    requires
        no_newline(y),
    ensures
        split_from(y.push('\n'), '\n', seq![]) == seq![y, Seq::<char>::empty()],
{
    lemma_split_no_sep(y, seq!['\n'], seq![]);
    assert(y.push('\n') =~= y + seq!['\n']);
    assert(Seq::<char>::empty() + y =~= y);
    assert(seq!['\n'].drop_first() =~= Seq::<char>::empty());
    assert(split_from(seq!['\n'], '\n', y) == seq![y] + split_from(
        Seq::<char>::empty(),
        '\n',
        seq![],
    ));
    assert(seq![y] + seq![Seq::<char>::empty()] =~= seq![y, Seq::<char>::empty()]);
}

proof fn lemma_split_no_sep(y: Seq<char>, rest: Seq<char>, cur: Seq<char>)
    requires
        no_newline(y),
    ensures
        split_from(y + rest, '\n', cur) == split_from(rest, '\n', cur + y),
    decreases y.len(),
{
    if y.len() == 0 {
        assert(y + rest =~= rest);
        assert(cur + y =~= cur);
    } else {
        assert((y + rest)[0] == y[0]);
        assert((y + rest).drop_first() =~= y.drop_first() + rest);
        lemma_split_no_sep(y.drop_first(), rest, cur.push(y[0]));
        assert(cur.push(y[0]) + y.drop_first() =~= cur + y);
    }
}

proof fn lemma_decimal_no_newline(n: nat)
    ensures
        no_newline(decimal(n)),
    decreases n,
{
    if n >= 10 {
        lemma_decimal_no_newline(n / 10);
    }
}

proof fn lemma_join_no_newline(items: Seq<Seq<char>>)
    requires
        forall|i: int| 0 <= i < items.len() ==> no_newline(#[trigger] items[i]),
    ensures
        no_newline(join_commas(items)),
    decreases items.len(),
{
    if items.len() > 1 {
        lemma_join_no_newline(items.drop_last());
    }
}

/// The history file's lines for `ms` are their JSON texts, then an empty piece.
proof fn lemma_history_pieces(ms: Seq<MessageView>)
    requires
        forall|i: int| 0 <= i < ms.len() ==> no_newline(message_json(#[trigger] ms[i])),
    ensures
        split_on(history_text(ms), '\n') == ms.map_values(|m: MessageView| message_json(m)).push(
            Seq::<char>::empty(),
        ),
    decreases ms.len(),
{
    if ms.len() == 0 {
        assert(split_on(history_text(ms), '\n') =~= seq![Seq::<char>::empty()]);
        assert(ms.map_values(|m: MessageView| message_json(m)).push(Seq::<char>::empty())
            =~= seq![Seq::<char>::empty()]);
    } else {
        let front = ms.drop_last();
        let j = message_json(ms.last());
        assert forall|i: int| 0 <= i < front.len() implies no_newline(
            message_json(#[trigger] front[i]),
        ) by {
            assert(front[i] == ms[i]);
        }
        lemma_history_pieces(front);
        assert(no_newline(message_json(ms[ms.len() - 1])));
        lemma_split_from_concat(history_text(front), j.push('\n'), '\n', seq![]);
        lemma_split_line(j);
        let p = front.map_values(|m: MessageView| message_json(m)).push(Seq::<char>::empty());
        assert(p.drop_last() =~= front.map_values(|m: MessageView| message_json(m)));
        assert(p.last() == Seq::<char>::empty());
        assert(split_on(history_text(ms), '\n') =~= ms.map_values(
            |m: MessageView| message_json(m),
        ).push(Seq::<char>::empty()));
    }
}

proof fn lemma_history_of_messages(ms: Seq<MessageView>)
    requires
        forall|i: int|
            0 <= i < ms.len() ==> json_array_fields(message_json(#[trigger] ms[i])) == Some(
                message_fields(ms[i]),
            ),
    ensures
        history_of(ms.map_values(|m: MessageView| message_json(m))) == Some(ms),
    decreases ms.len(),
{
    let lines = ms.map_values(|m: MessageView| message_json(m));
    if ms.len() == 0 {
        assert(lines =~= Seq::<Seq<char>>::empty());
    } else {
        let front = ms.drop_last();
        let m = ms.last();
        assert forall|i: int| 0 <= i < front.len() implies json_array_fields(
            message_json(#[trigger] front[i]),
        ) == Some(message_fields(front[i])) by {
            assert(front[i] == ms[i]);
        }
        lemma_history_of_messages(front);
        assert(lines.drop_last() =~= front.map_values(|m: MessageView| message_json(m)));
        assert(json_array_fields(message_json(ms[ms.len() - 1])) == Some(message_fields(m)));
        let back = message_of_fields(message_fields(m));
        assert(back == Some(m)) by {
            match m.message_type {
                MessageType::User => {},
                MessageType::System => {},
            }
        }
        assert(front.push(m) =~= ms);
    }
}

proof fn lemma_escaped_no_newline(s: Seq<char>)
    ensures
        no_newline(crate::json::json_escaped(s)),
    decreases s.len(),
{
    if s.len() > 0 {
        lemma_escaped_no_newline(s.drop_last());
        let a = crate::json::json_escaped(s.drop_last());
        let b = crate::json::json_escaped_char(s.last());
        assert(no_newline(b));
        assert(crate::json::json_escaped(s) == a + b);
        assert forall|k: int| 0 <= k < (a + b).len() implies (a + b)[k] != '\n' by {
            if k < a.len() {
                assert((a + b)[k] == a[k]);
            } else {
                assert((a + b)[k] == b[k - a.len()]);
            }
        }
    }
}

/// serde_json's text of a string holds no newline: it escapes control characters.
pub proof fn law_json_string_has_no_newline(s: Seq<char>)
    ensures
        no_newline(json_string_text(s)),
{
    lemma_escaped_no_newline(s);
    let e = crate::json::json_escaped(s);
    let t = json_string_text(s);
    assert forall|k: int| 0 <= k < t.len() implies t[k] != '\n' by {
        if k == 0 {
        } else if k < e.len() + 1 {
            assert(t[k] == e[k - 1]);
        } else {
        }
    }
}

/// A message's history line holds no newline, so each message takes one line of the
/// history file.
pub proof fn law_history_line_has_no_newline(m: MessageView)
    ensures
        no_newline(message_json(m)),
{
    let items = seq![
        json_string_text(m.text),
        json_string_text(m.by),
        decimal(type_number(m.message_type) as nat),
        decimal(m.time as nat),
    ];
    lemma_decimal_no_newline(type_number(m.message_type) as nat);
    lemma_decimal_no_newline(m.time as nat);
    law_json_string_has_no_newline(m.text);
    law_json_string_has_no_newline(m.by);
    assert forall|k: int| 0 <= k < items.len() implies no_newline(#[trigger] items[k]) by {
        if k == 0 {
        } else if k == 1 {
        } else if k == 2 {
        } else {
        }
    }
    lemma_join_no_newline(items);
    let t = json_array(items);
    assert forall|k: int| 0 <= k < t.len() implies t[k] != '\n' by {
        let inner = join_commas(items);
        if k == 0 {
        } else if k < inner.len() + 1 {
            assert(t[k] == inner[k - 1]);
        } else {
        }
    }
}

/// The messages that a history of `n` written messages reads back: the last
/// `MAX_MSGS - 1` of them (the empty piece after the final newline takes one of the
/// `MAX_MSGS` kept pieces), or all of them where there are fewer.
pub open spec fn read_back_window(ms: Seq<MessageView>) -> Seq<MessageView> {
    if ms.len() + 1 > MAX_MSGS {
        ms.skip(ms.len() + 1 - MAX_MSGS)
    } else {
        ms
    }
}

/// The history file's text for any number of messages reads back as its last
/// `MAX_MSGS - 1` messages (all of them where there are fewer), in order and field
/// by field, where serde_json reads each message's JSON array back as its fields and
/// reads nothing from an empty line.
pub proof fn law_history_reads_back(ms: Seq<MessageView>)
    requires
        json_array_fields(Seq::<char>::empty()) is None,
        forall|i: int|
            0 <= i < ms.len() ==> json_array_fields(message_json(#[trigger] ms[i])) == Some(
                message_fields(ms[i]),
            ),
    ensures
        history_of(kept_history_lines(history_text(ms))) == Some(read_back_window(ms)),
{
    assert forall|i: int| 0 <= i < ms.len() implies no_newline(message_json(#[trigger] ms[i])) by {
        law_history_line_has_no_newline(ms[i]);
    }
    lemma_history_pieces(ms);
    let kept = read_back_window(ms);
    let lines = ms.map_values(|m: MessageView| message_json(m));
    let kept_lines = kept.map_values(|m: MessageView| message_json(m));
    if ms.len() + 1 > MAX_MSGS {
        let d = ms.len() + 1 - MAX_MSGS;
        assert(lines.push(Seq::<char>::empty()).skip(d) =~= kept_lines.push(Seq::<char>::empty()));
    } else {
        assert(kept_lines =~= lines);
    }
    assert(kept_history_lines(history_text(ms)) == kept_lines.push(Seq::<char>::empty()));
    assert forall|i: int|
        0 <= i < kept.len() implies json_array_fields(message_json(#[trigger] kept[i])) == Some(
        message_fields(kept[i]),
    ) by {
        if ms.len() + 1 > MAX_MSGS {
            let d = ms.len() + 1 - MAX_MSGS;
            assert(kept[i] == ms[i + d]);
        }
    }
    lemma_history_of_messages(kept);
    assert(kept_lines.push(Seq::<char>::empty()).drop_last() =~= kept_lines);
}


/// The names of the rules in force and of the pool, in that order.
pub open spec fn all_rule_names<P>(rules: Seq<Rule<P>>, pool: Seq<Rule<P>>) -> Seq<Seq<char>> {
    rule_names(rules) + rule_names(pool)
}

/// A run of the rotation loop: the rules in force and the pool before each step
/// (`rules[i]`, `pools[i]`) and after the last, where step `i` runs with
/// `users[i]` users at `nows[i]`, picks `picks[i]` and gives `changes[i]`, `waits[i]`.
pub open spec fn is_rotation_run<P>(
    rules: Seq<Seq<Rule<P>>>,
    pools: Seq<Seq<Rule<P>>>,
    users: Seq<nat>,
    nows: Seq<u64>,
    picks: Seq<int>,
    changes: Seq<RuleChange>,
    waits: Seq<bool>,
) -> bool {
    &&& rules.len() == users.len() + 1
    &&& pools.len() == users.len() + 1
    &&& nows.len() == users.len()
    &&& picks.len() == users.len()
    &&& changes.len() == users.len()
    &&& waits.len() == users.len()
    &&& forall|i: int|
        0 <= i < users.len() ==> #[trigger] rotation_result(
            rules[i],
            pools[i],
            users[i],
            nows[i],
            picks[i],
            rules[i + 1],
            pools[i + 1],
            changes[i],
            waits[i],
        )
}

proof fn lemma_run_state<P>(
    rules: Seq<Seq<Rule<P>>>,
    pools: Seq<Seq<Rule<P>>>,
    users: Seq<nat>,
    nows: Seq<u64>,
    picks: Seq<int>,
    changes: Seq<RuleChange>,
    waits: Seq<bool>,
    k: int,
)
    requires
        is_rotation_run(rules, pools, users, nows, picks, changes, waits),
        rules[0].len() <= RULE_MAX,
        0 <= k <= users.len(),
    ensures
        rules[k].len() <= RULE_MAX,
        all_rule_names(rules[k], pools[k]).to_multiset() == all_rule_names(
            rules[0],
            pools[0],
        ).to_multiset(),
        (untimed_rules(rules[k]) + untimed_rules(pools[k])).to_multiset() == (untimed_rules(
            rules[0],
        ) + untimed_rules(pools[0])).to_multiset(),
    decreases k,
{
    if k > 0 {
        lemma_run_state(rules, pools, users, nows, picks, changes, waits, k - 1);
        let j = k - 1;
        assert(rotation_result(
            rules[j],
            pools[j],
            users[j],
            nows[j],
            picks[j],
            rules[j + 1],
            pools[j + 1],
            changes[j],
            waits[j],
        ));
        law_rules_in_force_bounded(
            rules[j],
            pools[j],
            users[j],
            nows[j],
            picks[j],
            rules[j + 1],
            pools[j + 1],
            changes[j],
            waits[j],
        );
        law_rules_conserved(
            rules[j],
            pools[j],
            users[j],
            nows[j],
            picks[j],
            rules[j + 1],
            pools[j + 1],
            changes[j],
            waits[j],
        );
        lemma_untimed_conserved(
            rules[j],
            pools[j],
            users[j],
            nows[j],
            picks[j],
            rules[j + 1],
            pools[j + 1],
            changes[j],
            waits[j],
        );
    }
}

/// Over a whole run of the rotation loop that starts with at most `RULE_MAX` rules in
/// force, at most `RULE_MAX` rules are ever in force, and rules only move between
/// those in force and the pool: all rules, counted with repetition and apart from
/// their times in force, stay those of the start, and so do their names.
pub proof fn law_rotation_run_keeps_rules<P>(
    rules: Seq<Seq<Rule<P>>>,
    pools: Seq<Seq<Rule<P>>>,
    users: Seq<nat>,
    nows: Seq<u64>,
    picks: Seq<int>,
    changes: Seq<RuleChange>,
    waits: Seq<bool>,
)
    requires
        is_rotation_run(rules, pools, users, nows, picks, changes, waits),
        rules[0].len() <= RULE_MAX,
    ensures
        forall|k: int|
            0 <= k <= users.len() ==> (#[trigger] rules[k]).len() <= RULE_MAX && all_rule_names(
                rules[k],
                pools[k],
            ).to_multiset() == all_rule_names(rules[0], pools[0]).to_multiset() && (untimed_rules(
                rules[k],
            ) + untimed_rules(pools[k])).to_multiset() == (untimed_rules(rules[0])
                + untimed_rules(pools[0])).to_multiset(),
{
    assert forall|k: int| 0 <= k <= users.len() implies (#[trigger] rules[k]).len() <= RULE_MAX
        && all_rule_names(rules[k], pools[k]).to_multiset() == all_rule_names(
        rules[0],
        pools[0],
    ).to_multiset() && (untimed_rules(rules[k]) + untimed_rules(pools[k])).to_multiset() == (
    untimed_rules(rules[0]) + untimed_rules(pools[0])).to_multiset() by {
        lemma_run_state(rules, pools, users, nows, picks, changes, waits, k);
    }
}

/// Names counted alike have no repetition alike.
proof fn lemma_same_multiset_no_duplicates(a: Seq<Seq<char>>, b: Seq<Seq<char>>)
    requires
        a.to_multiset() == b.to_multiset(),
        a.no_duplicates(),
    ensures
        b.no_duplicates(),
{
    a.lemma_multiset_has_no_duplicates();
    b.lemma_multiset_has_no_duplicates_conv();
}

/// With distinct rule names, a replacement names two different rules.
proof fn lemma_step_replaces_other<P>(
    rules: Seq<Rule<P>>,
    pool: Seq<Rule<P>>,
    user_count: nat,
    now: u64,
    pick: int,
    new_rules: Seq<Rule<P>>,
    new_pool: Seq<Rule<P>>,
    change: RuleChange,
    wait: bool,
)
    requires
        rotation_result(rules, pool, user_count, now, pick, new_rules, new_pool, change, wait),
        all_rule_names(rules, pool).no_duplicates(),
    ensures
        change matches RuleChange::Replaced { old_name, new_name } ==> old_name@ != new_name@,
{
    if change is Replaced {
        let names = all_rule_names(rules, pool);
        assert(rules.len() >= 1);
        assert(names[0] == rules[0].name@);
        assert(names[rules.len() + pick] == pool[pick].name@);
    }
}

proof fn lemma_run_distinct<P>(
    rules: Seq<Seq<Rule<P>>>,
    pools: Seq<Seq<Rule<P>>>,
    users: Seq<nat>,
    nows: Seq<u64>,
    picks: Seq<int>,
    changes: Seq<RuleChange>,
    waits: Seq<bool>,
    k: int,
)
    requires
        is_rotation_run(rules, pools, users, nows, picks, changes, waits),
        all_rule_names(rules[0], pools[0]).no_duplicates(),
        0 <= k <= users.len(),
    ensures
        all_rule_names(rules[k], pools[k]).no_duplicates(),
    decreases k,
{
    if k > 0 {
        lemma_run_distinct(rules, pools, users, nows, picks, changes, waits, k - 1);
        let j = k - 1;
        assert(rotation_result(
            rules[j],
            pools[j],
            users[j],
            nows[j],
            picks[j],
            rules[j + 1],
            pools[j + 1],
            changes[j],
            waits[j],
        ));
        law_rules_conserved(
            rules[j],
            pools[j],
            users[j],
            nows[j],
            picks[j],
            rules[j + 1],
            pools[j + 1],
            changes[j],
            waits[j],
        );
        lemma_same_multiset_no_duplicates(
            all_rule_names(rules[j], pools[j]),
            all_rule_names(rules[k], pools[k]),
        );
    }
}

/// Over a whole run of the rotation loop that starts with distinct rule names, every
/// replacement it announces names two different rules.
pub proof fn law_rotation_run_replaces_other_rule<P>(
    rules: Seq<Seq<Rule<P>>>,
    pools: Seq<Seq<Rule<P>>>,
    users: Seq<nat>,
    nows: Seq<u64>,
    picks: Seq<int>,
    changes: Seq<RuleChange>,
    waits: Seq<bool>,
)
    requires
        is_rotation_run(rules, pools, users, nows, picks, changes, waits),
        all_rule_names(rules[0], pools[0]).no_duplicates(),
    ensures
        forall|k: int|
            0 <= k < users.len() ==> ((#[trigger] changes[k]) matches RuleChange::Replaced {
                old_name,
                new_name,
            } ==> old_name@ != new_name@),
{
    assert forall|k: int| 0 <= k < users.len() implies ((#[trigger] changes[k]) matches RuleChange::Replaced {
        old_name,
        new_name,
    } ==> old_name@ != new_name@) by {
        lemma_run_distinct(rules, pools, users, nows, picks, changes, waits, k);
        assert(rotation_result(
            rules[k],
            pools[k],
            users[k],
            nows[k],
            picks[k],
            rules[k + 1],
            pools[k + 1],
            changes[k],
            waits[k],
        ));
        lemma_step_replaces_other(
            rules[k],
            pools[k],
            users[k],
            nows[k],
            picks[k],
            rules[k + 1],
            pools[k + 1],
            changes[k],
            waits[k],
        );
    }
}


/// `s` holds no occurrence of `c`.
pub open spec fn lacks(s: Seq<char>, c: char) -> bool {
    forall|i: int| 0 <= i < s.len() ==> s[i] != c
}

proof fn lemma_split_word(y: Seq<char>, rest: Seq<char>, sep: char, cur: Seq<char>)
    requires
        lacks(y, sep),
    ensures
        split_from(y + rest, sep, cur) == split_from(rest, sep, cur + y),
    decreases y.len(),
{
    if y.len() == 0 {
        assert(y + rest =~= rest);
        assert(cur + y =~= cur);
    } else {
        assert((y + rest)[0] == y[0]);
        assert((y + rest).drop_first() =~= y.drop_first() + rest);
        lemma_split_word(y.drop_first(), rest, sep, cur.push(y[0]));
        assert(cur.push(y[0]) + y.drop_first() =~= cur + y);
    }
}

/// Splitting at `sep` a text that starts with a word without `sep` and then `sep`: the
/// first piece is that word, and the others are the pieces of what follows.
proof fn lemma_split_first_word(y: Seq<char>, rest: Seq<char>, sep: char)
    requires
        lacks(y, sep),
    ensures
        split_on(y + seq![sep] + rest, sep) == seq![y] + split_on(rest, sep),
{
    assert(y + seq![sep] + rest =~= y + (seq![sep] + rest));
    lemma_split_word(y, seq![sep] + rest, sep, seq![]);
    assert(Seq::<char>::empty() + y =~= y);
    assert((seq![sep] + rest)[0] == sep);
    assert((seq![sep] + rest).drop_first() =~= rest);
}

proof fn lemma_split_nonempty(s: Seq<char>, sep: char)
    ensures
        split_on(s, sep).len() >= 1,
{
    lemma_split_from_nonempty(s, sep, seq![]);
}

/// A header line `name: value more words`, where the name and the value are words
/// without spaces and the value is not empty, sets the field `name` to `value`, the
/// word right after the name, whatever follows it; and so does `name: value`.
pub proof fn law_header_value_is_the_word_after_the_name(
    map: Map<Seq<char>, Seq<char>>,
    name: Seq<char>,
    value: Seq<char>,
    rest: Seq<char>,
)
    requires
        lacks(name, ' '),
        lacks(value, ' '),
        value.len() > 0,
    ensures
        apply_header(map, name + seq![':', ' '] + value + seq![' '] + rest) == map.insert(
            name,
            value,
        ),
        apply_header(map, name + seq![':', ' '] + value) == map.insert(name, value),
{
    let key = name.push(':');
    assert(lacks(key, ' '));
    let line1 = name + seq![':', ' '] + value + seq![' '] + rest;
    assert(line1 =~= key + seq![' '] + (value + seq![' '] + rest));
    lemma_split_first_word(key, value + seq![' '] + rest, ' ');
    lemma_split_first_word(value, rest, ' ');
    lemma_split_nonempty(rest, ' ');
    let w1 = split_on(line1, ' ');
    assert(w1 == seq![key] + (seq![value] + split_on(rest, ' ')));
    assert(w1[0] == key);
    assert(w1[1] == value);
    assert(key.drop_last() =~= name);
    let line2 = name + seq![':', ' '] + value;
    assert(line2 =~= key + seq![' '] + value);
    lemma_split_first_word(key, value, ' ');
    lemma_split_word(value, seq![], ' ', seq![]);
    assert(value + Seq::<char>::empty() =~= value);
    assert(Seq::<char>::empty() + value =~= value);
    let w2 = split_on(line2, ' ');
    assert(split_on(value, ' ') == seq![value]);
    assert(w2 == seq![key] + seq![value]);
    assert(w2[0] == key);
    assert(w2[1] == value);
}

/// The anti-spam interval: `MESSAGE_SPAM_TIME` shared out by the number of users,
/// counting at most five; and where the sender's timer lies ahead of now, a taken
/// message moves it exactly one interval on from where it was, otherwise to one
/// interval after now.
pub proof fn law_taken_message_moves_timer_one_window(timer: nat, now: nat, user_count: nat)
    ensures
        user_count <= 5 ==> spam_window(user_count) == 2000 * user_count / 5,
        user_count >= 5 ==> spam_window(user_count) == 2000,
        timer > now ==> timer_after_accept(timer, now, user_count) == timer + spam_window(
            user_count,
        ),
        timer <= now ==> timer_after_accept(timer, now, user_count) == now + spam_window(
            user_count,
        ),
{
}


/// `c` is a decimal digit.
pub open spec fn is_digit(c: char) -> bool {
    '0' <= c && c <= '9'
}

/// The number that a string of decimal digits reads as.
pub open spec fn digits_value(d: Seq<char>) -> nat
    decreases d.len(),
{
    if d.len() == 0 {
        0
    } else {
        digits_value(d.drop_last()) * 10 + ((d.last() as u32) - 48) as nat
    }
}

proof fn lemma_decimal_reads_back(n: nat)
    ensures
        decimal(n).len() > 0,
        forall|i: int| 0 <= i < decimal(n).len() ==> is_digit(#[trigger] decimal(n)[i]),
        digits_value(decimal(n)) == n,
    decreases n,
{
    let d = crate::text::digit_char(n % 10);
    assert((48 + n % 10) as char as u32 == 48 + n % 10) by {
        vstd::utf8::char_u32_cast((48 + n % 10) as char, (48 + n % 10) as u32);
    }
    if n >= 10 {
        lemma_decimal_reads_back(n / 10);
        let s = decimal(n / 10);
        assert(decimal(n) == s.push(d));
        assert(decimal(n).drop_last() =~= s);
        assert(decimal(n).last() == d);
        assert(((d as u32) - 48) as nat == n % 10);
        assert(digits_value(decimal(n)) == digits_value(s) * 10 + n % 10);
        assert(n == (n / 10) * 10 + n % 10) by (nonlinear_arith);
    } else {
        assert(decimal(n) == seq![d]);
        assert(seq![d].drop_last() =~= Seq::<char>::empty());
        assert(((d as u32) - 48) as nat == n % 10);
        assert(digits_value(seq![d]) == digits_value(Seq::<char>::empty()) * 10 + n % 10);
    }
}

/// A file reply's header starts with its status line and `Content-Length: `, then the
/// length as decimal digits that read back as exactly the file's length, and then a
/// line break.
pub proof fn law_reply_header_states_the_length(name: Seq<char>, length: nat)
    ensures
        exists|digits: Seq<char>, rest: Seq<char>|
            {
                &&& reply_header_text(name, length) == "HTTP/1 200 OK\r\nContent-Length: "@
                    + digits + rest
                &&& digits.len() > 0
                &&& forall|i: int| 0 <= i < digits.len() ==> is_digit(#[trigger] digits[i])
                &&& digits_value(digits) == length
                &&& rest.len() >= 2
                &&& rest[0] == '\r'
                &&& rest[1] == '\n'
            },
{
    lemma_decimal_reads_back(length);
    reveal_strlit("\r\nContent-Type: image/png\r\n\r\n");
    reveal_strlit("\r\n\r\n");
    let rest = if crate::routes::is_png_name(name) {
        "\r\nContent-Type: image/png\r\n\r\n"@
    } else {
        "\r\n\r\n"@
    };
    assert(reply_header_text(name, length) == "HTTP/1 200 OK\r\nContent-Length: "@ + decimal(
        length,
    ) + rest);
}

/// The frame of messages grows one item at a time: the frame of `msgs` followed by
/// `m` is the frame of `msgs` with `m`'s JSON added after a comma as its last item,
/// and the frame of no messages is the array holding just the tag.
pub proof fn law_messages_frame_appends(msgs: Seq<MessageView>, m: MessageView)
    ensures
        messages_frame(msgs.push(m)) == messages_frame(msgs).drop_last() + seq![','] + message_json(
            m,
        ) + seq![']'],
        messages_frame(Seq::<MessageView>::empty()) == seq!['['] + json_string_text(
            seq!['M', 'e', 's', 's', 'a', 'g', 'e', 's'],
        ) + seq![']'],
{
    let head = seq![json_string_text(seq!['M', 'e', 's', 's', 'a', 'g', 'e', 's'])];
    let items = head + msgs.map_values(|x: MessageView| message_json(x));
    let items2 = head + msgs.push(m).map_values(|x: MessageView| message_json(x));
    assert(items2 =~= items.push(message_json(m)));
    assert(items2.drop_last() =~= items);
    assert(items.len() >= 1);
    assert(join_commas(items2) == join_commas(items) + seq![','] + message_json(m));
    let f = messages_frame(msgs);
    assert(f == seq!['['] + join_commas(items) + seq![']']);
    assert(f.drop_last() =~= seq!['['] + join_commas(items));
    assert(messages_frame(msgs.push(m)) =~= f.drop_last() + seq![','] + message_json(m) + seq![']']);
    let e = Seq::<MessageView>::empty().map_values(|x: MessageView| message_json(x));
    assert(head + e =~= head);
    assert(join_commas(head) == head[0]);
}

} // verus!
