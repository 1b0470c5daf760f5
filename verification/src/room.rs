//! The chat room: who is online, who has left, and the log of messages.

use vstd::prelude::*;
use vstd::string::*;
use crate::text::{
    decimal, lemma_text_lt_irreflexive, lemma_text_lt_total, lemma_text_lt_transitive, precedes,
    push_decimal, same_text, text_lt,
};

verus! {

/// A chat message: who sent what, and when, in milliseconds since the epoch.
#[derive(Debug)]
pub struct Message {
    pub timestamp: u128,
    pub sender: String,
    pub content: String,
}

/// What a message holds.
pub struct MessageView {
    pub timestamp: u128,
    pub sender: Seq<char>,
    pub content: Seq<char>,
}

impl View for Message {
    type V = MessageView;

    open spec fn view(&self) -> MessageView {
        MessageView { timestamp: self.timestamp, sender: self.sender@, content: self.content@ }
    }
}

impl Clone for Message {
    fn clone(&self) -> (copy: Message)
        ensures
            copy == *self,
    {
        Message {
            timestamp: self.timestamp,
            sender: self.sender.clone(),
            content: self.content.clone(),
        }
    }
}

impl PartialEq for Message {
    fn eq(&self, other: &Message) -> (r: bool) {
        self.timestamp == other.timestamp && self.sender == other.sender && self.content
            == other.content
    }
}

impl vstd::std_specs::cmp::PartialEqSpecImpl for Message {
    open spec fn obeys_eq_spec() -> bool {
        true
    }

    open spec fn eq_spec(&self, other: &Message) -> bool {
        self@ == other@
    }
}

impl Eq for Message {

}

/// The text of a message as a JSON object with the members `timestamp`,
/// `sender` and `content`, the two strings as they are.
pub open spec fn message_json(m: MessageView) -> Seq<char> {
    "{\"timestamp\":"@ + decimal(m.timestamp as nat) + ",\"sender\":\""@ + m.sender
        + "\",\"content\":\""@ + m.content + "\"}"@
}

impl Message {
    /// The message as a JSON object.
    pub fn to_string(&self) -> (json: String)
        ensures
            json@ == message_json(self@),
    {
        let mut json = String::from_str("{\"timestamp\":");
        push_decimal(&mut json, self.timestamp);
        json.append(",\"sender\":\"");
        json.append(self.sender.as_str());
        json.append("\",\"content\":\"");
        json.append(self.content.as_str());
        json.append("\"}");
        json
    }
}

/// What each of the strings holds.
pub open spec fn texts(v: Seq<String>) -> Seq<Seq<char>> {
    v.map_values(|s: String| s@)
}

/// Whether each text comes strictly before the next, and so before all
/// that follow it: sorted, with nothing twice.
pub open spec fn ascending(s: Seq<Seq<char>>) -> bool {
    forall|i: int, j: int| 0 <= i < j < s.len() ==> text_lt(#[trigger] s[i], #[trigger] s[j])
}

/// A set of texts has one ascending list: two ascending lists with the
/// same texts are the same list.
pub proof fn lemma_ascending_is_unique(a: Seq<Seq<char>>, b: Seq<Seq<char>>)
    requires
        ascending(a),
        ascending(b),
        a.to_set() == b.to_set(),
    ensures
        a == b,
    decreases a.len(),
{
    if a.len() == 0 {
        if b.len() > 0 {
            assert(b.contains(b[0]));
            assert(a.to_set().contains(b[0]));
        }
        assert(a =~= b);
    } else {
        assert(a.contains(a.last()));
        assert(b.to_set().contains(a.last()));
        let j = choose|j: int| 0 <= j < b.len() && b[j] == a.last();
        assert(b.contains(b.last()));
        assert(a.to_set().contains(b.last()));
        let i = choose|i: int| 0 <= i < a.len() && a[i] == b.last();
        lemma_text_lt_irreflexive(a.last());
        if j < b.len() - 1 {
            assert(text_lt(b[j], b[b.len() - 1]));
            if i < a.len() - 1 {
                assert(text_lt(a[i], a[a.len() - 1]));
                lemma_text_lt_transitive(a.last(), b.last(), a.last());
            }
        }
        assert(a.last() == b.last());
        let x = a.drop_last();
        let y = b.drop_last();
        assert forall|n: Seq<char>| x.to_set().contains(n) == y.to_set().contains(n) by {
            if x.contains(n) {
                let k = choose|k: int| 0 <= k < x.len() && x[k] == n;
                assert(a[k] == n);
                assert(text_lt(a[k], a[a.len() - 1]));
                assert(a.contains(n));
                assert(b.to_set().contains(n));
                let m = choose|m: int| 0 <= m < b.len() && b[m] == n;
                if m == b.len() - 1 {
                    lemma_text_lt_irreflexive(n);
                }
                assert(y[m] == n);
            }
            if y.contains(n) {
                let k = choose|k: int| 0 <= k < y.len() && y[k] == n;
                assert(b[k] == n);
                assert(text_lt(b[k], b[b.len() - 1]));
                assert(b.contains(n));
                assert(a.to_set().contains(n));
                let m = choose|m: int| 0 <= m < a.len() && a[m] == n;
                if m == a.len() - 1 {
                    lemma_text_lt_irreflexive(n);
                }
                assert(x[m] == n);
            }
        }
        assert(x.to_set() =~= y.to_set());
        assert forall|p: int, q: int| 0 <= p < q < x.len() implies text_lt(
            #[trigger] x[p],
            #[trigger] x[q],
        ) by {
            assert(text_lt(a[p], a[q]));
        }
        assert forall|p: int, q: int| 0 <= p < q < y.len() implies text_lt(
            #[trigger] y[p],
            #[trigger] y[q],
        ) by {
            assert(text_lt(b[p], b[q]));
        }
        lemma_ascending_is_unique(x, y);
        assert(a =~= x.push(a.last()));
        assert(b =~= y.push(b.last()));
    }
}

/// Who is online and who has left.
pub struct Users {
    pub online: Set<Seq<char>>,
    pub offline: Set<Seq<char>>,
}

/// A call that changes where a user stands.
pub enum UserCall {
    /// `add_user` with this name.
    Add(Seq<char>),
    /// `remove_user` with this name.
    Remove(Seq<char>),
}

impl UserCall {
    /// The name that the call mentions.
    pub open spec fn name(self) -> Seq<char> {
        match self {
            UserCall::Add(name) => name,
            UserCall::Remove(name) => name,
        }
    }
}

impl Users {
    /// Nobody online, nobody offline.
    pub open spec fn none() -> Users {
        Users { online: Set::empty(), offline: Set::empty() }
    }

    /// The users after `name` has entered: online, and no longer offline.
    pub open spec fn add(self, name: Seq<char>) -> Users {
        Users { online: self.online.insert(name), offline: self.offline.remove(name) }
    }

    /// The users after `name` has left: offline, and no longer online.
    pub open spec fn remove(self, name: Seq<char>) -> Users {
        Users { online: self.online.remove(name), offline: self.offline.insert(name) }
    }

    /// The users after one call.
    pub open spec fn after(self, call: UserCall) -> Users {
        match call {
            UserCall::Add(name) => self.add(name),
            UserCall::Remove(name) => self.remove(name),
        }
    }

    /// The users after a sequence of calls, made in order.
    pub open spec fn after_all(self, calls: Seq<UserCall>) -> Users
        decreases calls.len(),
    {
        if calls.len() == 0 {
            self
        } else {
            self.after_all(calls.drop_last()).after(calls.last())
        }
    }

    /// Whether nobody is online and offline at once.
    pub open spec fn consistent(self) -> bool {
        self.online.disjoint(self.offline)
    }
}

/// Whether none of `calls` mentions `name`.
pub open spec fn unmentioned(calls: Seq<UserCall>, name: Seq<char>) -> bool {
    forall|i: int| 0 <= i < calls.len() ==> (#[trigger] calls[i]).name() != name
}

/// Whether the call at `last` mentions `name` and none after it does.
pub open spec fn last_mention(calls: Seq<UserCall>, name: Seq<char>, last: int) -> bool {
    &&& 0 <= last < calls.len()
    &&& calls[last].name() == name
    &&& forall|i: int| last < i < calls.len() ==> (#[trigger] calls[i]).name() != name
}

/// A name that no call has mentioned is neither online nor offline.
pub proof fn lemma_unmentioned_user_is_nowhere(calls: Seq<UserCall>, name: Seq<char>)
    requires
        unmentioned(calls, name),
    ensures
        !Users::none().after_all(calls).online.contains(name),
        !Users::none().after_all(calls).offline.contains(name),
    decreases calls.len(),
{
    if calls.len() > 0 {
        let rest = calls.drop_last();
        assert forall|i: int| 0 <= i < rest.len() implies (#[trigger] rest[i]).name() != name by {
            assert(rest[i] == calls[i]);
        }
        lemma_unmentioned_user_is_nowhere(rest, name);
        assert(calls.last() == calls[calls.len() - 1]);
    }
}

/// After any sequence of calls, a name stands where the last call that
/// mentions it has put it: online after `add_user`, offline after
/// `remove_user`, and never in both.
pub proof fn lemma_user_stands_by_last_call(calls: Seq<UserCall>, name: Seq<char>, last: int)
    requires
        last_mention(calls, name, last),
    ensures
        Users::none().after_all(calls).online.contains(name) <==> calls[last] is Add,
        Users::none().after_all(calls).offline.contains(name) <==> calls[last] is Remove,
        Users::none().after_all(calls).online.contains(name) != Users::none().after_all(
            calls,
        ).offline.contains(name),
    decreases calls.len(),
{
    let rest = calls.drop_last();
    if last < calls.len() - 1 {
        assert(calls.last() == calls[calls.len() - 1]);
        assert(rest[last] == calls[last]);
        assert forall|i: int| last < i < rest.len() implies (#[trigger] rest[i]).name() != name by {
            assert(rest[i] == calls[i]);
        }
        lemma_user_stands_by_last_call(rest, name, last);
    }
}

/// After any sequence of calls, nobody is online and offline at once.
pub proof fn lemma_users_stay_consistent(calls: Seq<UserCall>)
    ensures
        Users::none().after_all(calls).consistent(),
    decreases calls.len(),
{
    if calls.len() > 0 {
        lemma_users_stay_consistent(calls.drop_last());
    }
}

/// The position in `names` of the first name that does not come before
/// `name`.
fn lower_bound(names: &Vec<String>, name: &str) -> (at: usize)
    requires
        ascending(texts(names@)),
    ensures
        at <= names.len(),
        forall|i: int| 0 <= i < at ==> text_lt(#[trigger] texts(names@)[i], name@),
        forall|i: int|
            at <= i < names.len() ==> #[trigger] texts(names@)[i] == name@ || text_lt(
                name@,
                texts(names@)[i],
            ),
        forall|i: int| at < i < names.len() ==> #[trigger] texts(names@)[i] != name@,
{
    let mut at: usize = 0;
    while at < names.len() && precedes(names[at].as_str(), name)
        invariant
            at <= names.len(),
            forall|i: int| 0 <= i < at ==> text_lt(#[trigger] texts(names@)[i], name@),
        decreases names.len() - at,
    {
        at += 1;
    }
    proof {
        let s = texts(names@);
        assert forall|i: int| at <= i < names.len() implies (#[trigger] s[i] == name@ || text_lt(
            name@,
            s[i],
        )) && (at < i ==> s[i] != name@) by {
            lemma_text_lt_total(s[i], name@);
            if at < i {
                assert(text_lt(s[at as int], s[i]));
                if text_lt(s[i], name@) {
                    lemma_text_lt_transitive(s[at as int], s[i], name@);
                }
                if s[i] == name@ {
                    assert(text_lt(s[at as int], name@));
                }
            }
        }
    }
    at
}

/// Puts `name` among `names`, unless it is there already.
fn insert_name(names: &mut Vec<String>, name: &str)
    requires
        ascending(texts(old(names)@)),
    ensures
        ascending(texts(final(names)@)),
        texts(final(names)@).to_set() == texts(old(names)@).to_set().insert(name@),
{
    let at = lower_bound(names, name);
    let ghost before = texts(names@);
    if at < names.len() && same_text(names[at].as_str(), name) {
        assert(before[at as int] == name@);
        assert(before.contains(name@));
        assert(before.to_set() =~= before.to_set().insert(name@));
    } else {
        names.insert(at, String::from_str(name));
        proof {
            let after = texts(names@);
            assert(after =~= before.insert(at as int, name@));
            assert forall|i: int, j: int| 0 <= i < j < after.len() implies text_lt(
                #[trigger] after[i],
                #[trigger] after[j],
            ) by {
                if j < at {
                    assert(text_lt(before[i], before[j]));
                } else if j == at {
                    assert(text_lt(before[i], name@));
                } else if i < at {
                    assert(text_lt(before[i], name@));
                    assert(before[j - 1] == name@ || text_lt(name@, before[j - 1]));
                    assert(before[j - 1] != name@);
                    lemma_text_lt_transitive(before[i], name@, before[j - 1]);
                } else if i == at {
                    assert(before[j - 1] == name@ || text_lt(name@, before[j - 1]));
                    assert(before[j - 1] != name@);
                } else {
                    assert(text_lt(before[i - 1], before[j - 1]));
                }
            }
            assert forall|n: Seq<char>| after.to_set().contains(n) == before.to_set().insert(
                name@,
            ).contains(n) by {
                if after.contains(n) {
                    let k = choose|k: int| 0 <= k < after.len() && after[k] == n;
                    if k < at {
                        assert(before[k] == n);
                    } else if k > at {
                        assert(before[k - 1] == n);
                    }
                }
                if before.contains(n) {
                    let k = choose|k: int| 0 <= k < before.len() && before[k] == n;
                    if k < at {
                        assert(after[k] == n);
                    } else {
                        assert(after[k + 1] == n);
                    }
                }
                if n == name@ {
                    assert(after[at as int] == n);
                }
            }
            assert(after.to_set() =~= before.to_set().insert(name@));
        }
    }
}

/// Takes `name` from among `names`, if it is there.
fn remove_name(names: &mut Vec<String>, name: &str)
    requires
        ascending(texts(old(names)@)),
    ensures
        ascending(texts(final(names)@)),
        texts(final(names)@).to_set() == texts(old(names)@).to_set().remove(name@),
{
    let at = lower_bound(names, name);
    let ghost before = texts(names@);
    if at < names.len() && same_text(names[at].as_str(), name) {
        names.remove(at);
        proof {
            let after = texts(names@);
            assert(after =~= before.remove(at as int));
            assert forall|i: int, j: int| 0 <= i < j < after.len() implies text_lt(
                #[trigger] after[i],
                #[trigger] after[j],
            ) by {
                let a = if i < at { i } else { i + 1 };
                let b = if j < at { j } else { j + 1 };
                assert(text_lt(before[a], before[b]));
            }
            assert forall|n: Seq<char>| after.to_set().contains(n) == before.to_set().remove(
                name@,
            ).contains(n) by {
                if after.contains(n) {
                    let k = choose|k: int| 0 <= k < after.len() && after[k] == n;
                    let a = if k < at { k } else { k + 1 };
                    assert(before[a] == n);
                    if n == name@ {
                        if a < at {
                            assert(text_lt(before[a], name@));
                        } else {
                            assert(before[a] != name@);
                        }
                        lemma_text_lt_irreflexive(n);
                    }
                }
                if before.contains(n) && n != name@ {
                    let k = choose|k: int| 0 <= k < before.len() && before[k] == n;
                    if k < at {
                        assert(after[k] == n);
                    } else {
                        assert(after[k - 1] == n);
                    }
                }
            }
            assert(after.to_set() =~= before.to_set().remove(name@));
        }
    } else {
        proof {
            if before.contains(name@) {
                let k = choose|k: int| 0 <= k < before.len() && before[k] == name@;
                if k < at {
                    assert(text_lt(before[k], name@));
                    lemma_text_lt_irreflexive(name@);
                }
            }
            assert(before.to_set() =~= before.to_set().remove(name@));
        }
    }
}

/// A copy of `names`.
fn copy_names(names: &Vec<String>) -> (copy: Vec<String>)
    ensures
        copy@ == names@,
{
    let mut copy: Vec<String> = Vec::new();
    let mut i: usize = 0;
    while i < names.len()
        invariant
            i <= names.len(),
            copy@ == names@.take(i as int),
        decreases names.len() - i,
    {
        copy.push(names[i].clone());
        i += 1;
    }
    assert(names@.take(names.len() as int) == names@);
    copy
}

/// What each of the messages holds.
pub open spec fn views(v: Seq<Message>) -> Seq<MessageView> {
    v.map_values(|m: Message| m@)
}

/// Whether no message stands before one with an earlier timestamp.
pub open spec fn in_time_order(s: Seq<MessageView>) -> bool {
    forall|i: int, j: int|
        0 <= i < j < s.len() ==> (#[trigger] s[i]).timestamp <= (#[trigger] s[j]).timestamp
}

/// The first position at or after `from` whose message is later than
/// `time`, or the length of `s` where none is.
pub open spec fn slot_from(s: Seq<MessageView>, time: u128, from: int) -> int
    decreases s.len() - from,
{
    if from >= s.len() {
        s.len() as int
    } else if s[from].timestamp > time {
        from
    } else {
        slot_from(s, time, from + 1)
    }
}

/// Where a message of `time` goes: behind the messages that are no later,
/// before the first later one.
pub open spec fn slot(s: Seq<MessageView>, time: u128) -> int {
    slot_from(s, time, 0)
}

/// The messages of `log` by ascending timestamp, those with equal
/// timestamps in the order of the log.
pub open spec fn by_time(log: Seq<MessageView>) -> Seq<MessageView>
    decreases log.len(),
{
    if log.len() == 0 {
        Seq::empty()
    } else {
        let rest = by_time(log.drop_last());
        rest.insert(slot(rest, log.last().timestamp), log.last())
    }
}

/// What `slot_from` returns lies between `from` and the end of `s`, behind
/// the messages that are no later than `time` and on the first later one.
proof fn lemma_slot_from(s: Seq<MessageView>, time: u128, from: int)
    requires
        0 <= from <= s.len(),
    ensures
        from <= slot_from(s, time, from) <= s.len(),
        forall|i: int| from <= i < slot_from(s, time, from) ==> (#[trigger] s[i]).timestamp <= time,
        slot_from(s, time, from) < s.len() ==> s[slot_from(s, time, from)].timestamp > time,
    decreases s.len() - from,
{
    if from < s.len() && s[from].timestamp <= time {
        lemma_slot_from(s, time, from + 1);
    }
}

/// `slot_from` is the one position with no later message between `from`
/// and it, and a later message on it.
proof fn lemma_slot_is(s: Seq<MessageView>, time: u128, from: int, at: int)
    requires
        0 <= from <= at <= s.len(),
        forall|i: int| from <= i < at ==> (#[trigger] s[i]).timestamp <= time,
        at < s.len() ==> s[at].timestamp > time,
    ensures
        slot_from(s, time, from) == at,
    decreases at - from,
{
    if from < at {
        lemma_slot_is(s, time, from + 1, at);
    }
}

/// A message put at its slot leaves the messages in the order of their
/// timestamps, and adds that one message.
proof fn lemma_insert_in_time_order(s: Seq<MessageView>, m: MessageView)
    requires
        in_time_order(s),
    ensures
        in_time_order(s.insert(slot(s, m.timestamp), m)),
        s.insert(slot(s, m.timestamp), m).to_multiset() == s.to_multiset().insert(m),
{
    let at = slot(s, m.timestamp);
    lemma_slot_from(s, m.timestamp, 0);
    let t = s.insert(at, m);
    assert forall|i: int, j: int| 0 <= i < j < t.len() implies (#[trigger] t[i]).timestamp <= (
    #[trigger] t[j]).timestamp by {
        if j < at {
            assert(t[i] == s[i] && t[j] == s[j]);
        } else if j == at {
            assert(t[i] == s[i]);
        } else if i < at {
            assert(t[i] == s[i] && t[j] == s[j - 1]);
        } else if i == at {
            assert(t[j] == s[j - 1]);
            if at < j - 1 {
                assert(s[at].timestamp <= s[j - 1].timestamp);
            }
        } else {
            assert(t[i] == s[i - 1] && t[j] == s[j - 1]);
        }
    }
    assert(t.remove(at) =~= s);
    t.to_multiset_ensures();
    assert(t[at] == m);
    assert(t.contains(m));
    assert(t.to_multiset().remove(m).insert(m) =~= t.to_multiset());
}

/// `by_time` puts the messages in the order of their timestamps, whatever
/// the order in which they were appended, and neither loses nor adds one.
pub proof fn lemma_by_time(log: Seq<MessageView>)
    ensures
        in_time_order(by_time(log)),
        by_time(log).to_multiset() == log.to_multiset(),
        by_time(log).len() == log.len(),
    decreases log.len(),
{
    if log.len() == 0 {
        assert(log =~= Seq::empty());
    } else {
        let rest = log.drop_last();
        lemma_by_time(rest);
        lemma_insert_in_time_order(by_time(rest), log.last());
        rest.to_multiset_ensures();
        assert(rest.push(log.last()) =~= log);
        lemma_slot_from(by_time(rest), log.last().timestamp, 0);
    }
}

/// The messages of `s` with the timestamp `time`, in their order.
pub open spec fn sent_at(s: Seq<MessageView>, time: u128) -> Seq<MessageView> {
    s.filter(|m: MessageView| m.timestamp == time)
}

/// A message appended is the last of its timestamp, and changes nothing
/// for the others.
proof fn lemma_sent_at_push(s: Seq<MessageView>, m: MessageView, time: u128)
    ensures
        sent_at(s.push(m), time) == if m.timestamp == time {
            sent_at(s, time).push(m)
        } else {
            sent_at(s, time)
        },
{
    reveal(Seq::filter);
    assert(s.push(m).drop_last() =~= s);
}

/// Where no message has the timestamp `time`, none was sent at `time`.
proof fn lemma_sent_at_other_times(s: Seq<MessageView>, time: u128)
    requires
        forall|i: int| 0 <= i < s.len() ==> (#[trigger] s[i]).timestamp != time,
    ensures
        sent_at(s, time) == Seq::<MessageView>::empty(),
    decreases s.len(),
{
    reveal(Seq::filter);
    if s.len() > 0 {
        let rest = s.drop_last();
        assert forall|i: int| 0 <= i < rest.len() implies (#[trigger] rest[i]).timestamp
            != time by {
            assert(rest[i] == s[i]);
        }
        lemma_sent_at_other_times(rest, time);
        assert(s.last() == s[s.len() - 1]);
    }
}

/// `by_time` leaves the messages of one timestamp in the order in which
/// they were appended.
pub proof fn lemma_by_time_keeps_ties(log: Seq<MessageView>, time: u128)
    ensures
        sent_at(by_time(log), time) == sent_at(log, time),
    decreases log.len(),
{
    if log.len() == 0 {
        assert(by_time(log) =~= log);
    } else {
        let rest = log.drop_last();
        let last = log.last();
        let sorted = by_time(rest);
        let at = slot(sorted, last.timestamp);
        lemma_by_time_keeps_ties(rest, time);
        lemma_by_time(rest);
        lemma_slot_from(sorted, last.timestamp, 0);
        let head = sorted.subrange(0, at);
        let tail = sorted.subrange(at, sorted.len() as int);
        assert(sorted =~= head + tail);
        Seq::filter_distributes_over_add(head, tail, |m: MessageView| m.timestamp == time);
        Seq::filter_distributes_over_add(
            head.push(last),
            tail,
            |m: MessageView| m.timestamp == time,
        );
        lemma_sent_at_push(head, last, time);
        lemma_sent_at_push(rest, last, time);
        assert(rest.push(last) =~= log);
        if last.timestamp == time {
            assert forall|i: int| 0 <= i < tail.len() implies (#[trigger] tail[i]).timestamp
                != time by {
                assert(tail[i] == sorted[at + i]);
                if i > 0 {
                    assert(sorted[at].timestamp <= sorted[at + i].timestamp);
                }
            }
            lemma_sent_at_other_times(tail, time);
            assert(sent_at(head, time).push(last) + Seq::<MessageView>::empty() =~= sent_at(
                head,
                time,
            ).push(last));
            assert(sent_at(head, time) + Seq::<MessageView>::empty() =~= sent_at(head, time));
        }
    }
}

/// A chat room: the users who are online, those who have left, and the
/// messages in the order in which they arrived.
///
/// Nobody is online and offline at once.
pub struct ChatRoom {
    online: Vec<String>,
    offline: Vec<String>,
    messages: Vec<Message>,
}

impl ChatRoom {
    #[verifier::type_invariant]
    spec fn well_formed(self) -> bool {
        &&& ascending(texts(self.online@))
        &&& ascending(texts(self.offline@))
        &&& texts(self.online@).to_set().disjoint(texts(self.offline@).to_set())
    }

    /// Who is online and who has left.
    pub closed spec fn users(&self) -> Users {
        Users {
            online: texts(self.online@).to_set(),
            offline: texts(self.offline@).to_set(),
        }
    }

    /// The messages, in the order in which they were added.
    pub closed spec fn log(&self) -> Seq<MessageView> {
        views(self.messages@)
    }

    /// An empty room.
    pub fn new() -> (room: ChatRoom)
        ensures
            room.users() == Users::none(),
            room.log() == Seq::<MessageView>::empty(),
    {
        let room = ChatRoom { online: Vec::new(), offline: Vec::new(), messages: Vec::new() };
        assert(texts(room.online@).to_set() =~= Set::empty());
        assert(texts(room.offline@).to_set() =~= Set::empty());
        assert(views(room.messages@) =~= Seq::empty());
        room
    }

    /// Marks `username` as online, and no longer as having left.
    pub fn add_user(&mut self, username: &str)
        ensures
            final(self).users() == old(self).users().add(username@),
            final(self).users().consistent(),
            final(self).log() == old(self).log(),
    {
        proof {
            use_type_invariant(&*self);
        }
        // The two lists are taken out while they change, so that the room is
        // well formed at every step.
        let mut online: Vec<String> = Vec::new();
        let mut offline: Vec<String> = Vec::new();
        assert(texts(online@).to_set() =~= Set::empty());
        core::mem::swap(&mut self.online, &mut online);
        core::mem::swap(&mut self.offline, &mut offline);
        remove_name(&mut offline, username);
        insert_name(&mut online, username);
        core::mem::swap(&mut self.offline, &mut offline);
        core::mem::swap(&mut self.online, &mut online);
    }

    /// Marks `username` as having left, and no longer as online.
    pub fn remove_user(&mut self, username: &str)
        ensures
            final(self).users() == old(self).users().remove(username@),
            final(self).users().consistent(),
            final(self).log() == old(self).log(),
    {
        proof {
            use_type_invariant(&*self);
        }
        // As in `add_user`, the two lists are taken out while they change.
        let mut online: Vec<String> = Vec::new();
        let mut offline: Vec<String> = Vec::new();
        assert(texts(online@).to_set() =~= Set::empty());
        core::mem::swap(&mut self.online, &mut online);
        core::mem::swap(&mut self.offline, &mut offline);
        remove_name(&mut online, username);
        insert_name(&mut offline, username);
        core::mem::swap(&mut self.offline, &mut offline);
        core::mem::swap(&mut self.online, &mut online);
    }

    /// The users who are online, sorted and each once.
    pub fn get_active_users(&self) -> (users: Vec<String>)
        ensures
            ascending(texts(users@)),
            texts(users@).to_set() == self.users().online,
    {
        proof {
            use_type_invariant(self);
        }
        copy_names(&self.online)
    }

    /// The users who have left, sorted and each once.
    pub fn get_offline_users(&self) -> (users: Vec<String>)
        ensures
            ascending(texts(users@)),
            texts(users@).to_set() == self.users().offline,
    {
        proof {
            use_type_invariant(self);
        }
        copy_names(&self.offline)
    }

    /// Appends `message` to the log.
    pub fn add_message(&mut self, message: Message)
        ensures
            final(self).log() == old(self).log().push(message@),
            final(self).users() == old(self).users(),
    {
        proof {
            use_type_invariant(&*self);
        }
        let mut messages: Vec<Message> = Vec::new();
        core::mem::swap(&mut self.messages, &mut messages);
        messages.push(message);
        core::mem::swap(&mut self.messages, &mut messages);
        assert(views(self.messages@) =~= views(old(self).messages@).push(message@));
    }

    /// The messages by ascending timestamp, whatever the order in which
    /// they were added; those with equal timestamps in the order of the log.
    pub fn get_messages(&self) -> (messages: Vec<Message>)
        ensures
            views(messages@) == by_time(self.log()),
            in_time_order(views(messages@)),
            views(messages@).to_multiset() == self.log().to_multiset(),
    {
        let mut sorted: Vec<Message> = Vec::new();
        let mut i: usize = 0;
        assert(views(sorted@) =~= by_time(views(self.messages@).take(0)));
        while i < self.messages.len()
            invariant
                i <= self.messages.len(),
                views(sorted@) == by_time(views(self.messages@).take(i as int)),
            decreases self.messages.len() - i,
        {
            let message = self.messages[i].clone();
            let ghost before = views(sorted@);
            proof {
                lemma_by_time(views(self.messages@).take(i as int));
            }
            let mut at: usize = sorted.len();
            while at > 0 && sorted[at - 1].timestamp > message.timestamp
                invariant
                    at <= sorted.len(),
                    before == views(sorted@),
                    forall|k: int| at <= k < sorted.len() ==> (#[trigger] before[k]).timestamp
                        > message.timestamp,
                decreases at,
            {
                at -= 1;
            }
            proof {
                assert forall|k: int| 0 <= k < at implies (#[trigger] before[k]).timestamp
                    <= message.timestamp by {
                    if k < at - 1 {
                        assert(before[k].timestamp <= before[at - 1].timestamp);
                    }
                }
                lemma_slot_is(before, message.timestamp, 0, at as int);
            }
            sorted.insert(at, message);
            proof {
                let log = views(self.messages@);
                assert(log.take(i + 1).drop_last() =~= log.take(i as int));
                assert(log.take(i + 1).last() == message@);
                assert(views(sorted@) =~= before.insert(at as int, message@));
            }
            i += 1;
        }
        proof {
            assert(views(self.messages@).take(i as int) =~= views(self.messages@));
            lemma_by_time(self.log());
        }
        sorted
    }
}

} // verus!
