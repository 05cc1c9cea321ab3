//! What holds of the relay over every sequence of joins, passes and reads.
use vstd::prelude::*;
use crate::message::{announcement_text, chat_text, trim_end_of};
use crate::model::{
    apply, delivered_messages, fan_out, join, lemma_fan_out_well_formed, lemma_join_well_formed,
    lemma_push_contains, lemma_survivors, run, RelayEvent, RelayState,
};
use crate::session::{feed, on_line, Phase};

verus! {

/// Every sequence of joins and fan-out passes keeps the registry well formed:
/// in particular no sink is ever registered twice.
pub proof fn lemma_run_well_formed(s: RelayState, events: Seq<RelayEvent>)
    requires
        s.well_formed(),
    ensures
        run(s, events).well_formed(),
    decreases events.len(),
{
    if events.len() > 0 {
        lemma_run_well_formed(s, events.drop_last());
        let t = run(s, events.drop_last());
        match events.last() {
            RelayEvent::Join => {
                if t.can_join() {
                    lemma_join_well_formed(t);
                }
            },
            RelayEvent::Deliver { message, accepted } => {
                lemma_fan_out_well_formed(t, message, accepted);
            },
        }
    }
}

/// A fan-out pass puts the message exactly once into the inbox of every member
/// whose write succeeded, and into no other inbox.
pub proof fn lemma_fan_out_delivers_once(s: RelayState, message: Seq<char>, accepted: Set<u64>)
    requires
        s.well_formed(),
    ensures
        forall|id: u64| #[trigger] s.members.contains(id) && accepted.contains(id) ==> {
            let t = fan_out(s, message, accepted);
            &&& t.members.contains(id)
            &&& t.inbox[id] == s.inbox[id].push(message)
        },
        forall|id: u64| #[trigger] s.inbox.contains_key(id) && !(s.members.contains(id) && accepted.contains(id))
            ==> fan_out(s, message, accepted).inbox[id] == s.inbox[id],
        fan_out(s, message, accepted).inbox.dom() == s.inbox.dom(),
{
    lemma_survivors(s.members, accepted);
    assert forall|id: u64| #[trigger] s.members.contains(id) && accepted.contains(id)
        implies s.inbox.contains_key(id) by {
        let j = choose|j: int| 0 <= j < s.members.len() && s.members[j] == id;
    }
    assert(fan_out(s, message, accepted).inbox.dom() =~= s.inbox.dom());
}

/// The lines of one connection are submitted in the order they were read: the
/// first names the client and is announced, and each later line is relayed
/// under that name, one message per line.
pub proof fn lemma_lines_submitted_in_order(lines: Seq<Seq<char>>)
    requires
        lines.len() > 0,
    ensures
        feed(Phase::AwaitingName, lines).0 == Phase::Active(trim_end_of(lines[0])),
        feed(Phase::AwaitingName, lines).1 == seq![announcement_text(trim_end_of(lines[0]))]
            + lines.skip(1).map_values(|l: Seq<char>| chat_text(trim_end_of(lines[0]), l)),
    decreases lines.len(),
{
    let name = trim_end_of(lines[0]);
    let f = |l: Seq<char>| chat_text(name, l);
    if lines.len() == 1 {
        assert(lines.drop_last().len() == 0);
        assert(lines.last() == lines[0]);
        assert(lines.skip(1).map_values(f) =~= Seq::<Seq<char>>::empty());
        assert(seq![announcement_text(name)] + Seq::<Seq<char>>::empty() =~= seq![announcement_text(name)]);
    } else {
        let init = lines.drop_last();
        assert(init[0] == lines[0]);
        lemma_lines_submitted_in_order(init);
        let prev = feed(Phase::AwaitingName, init).1;
        assert(prev.push(chat_text(name, lines.last())) =~= seq![announcement_text(name)]
            + lines.skip(1).map_values(f)) by {
            assert(lines.skip(1).map_values(f) =~= init.skip(1).map_values(f).push(f(lines.last())));
        }
    }
}

/// A member that takes every write keeps its place, and its inbox grows by
/// exactly the messages fanned out, in the order they were fanned out.
pub proof fn lemma_member_receives_in_order(s: RelayState, events: Seq<RelayEvent>, id: u64)
    requires
        s.well_formed(),
        s.members.contains(id),
        forall|k: int| 0 <= k < events.len() ==> (#[trigger] events[k] matches RelayEvent::Deliver { accepted, .. }
            ==> accepted.contains(id)),
    ensures
        run(s, events).members.contains(id),
        run(s, events).inbox[id] == s.inbox[id] + delivered_messages(events),
    decreases events.len(),
{
    if events.len() == 0 {
        assert(s.inbox[id] + Seq::<Seq<char>>::empty() =~= s.inbox[id]);
    } else {
        let init = events.drop_last();
        assert forall|k: int| 0 <= k < init.len() implies (#[trigger] init[k] matches RelayEvent::Deliver { accepted, .. }
            ==> accepted.contains(id)) by {
            assert(init[k] == events[k]);
        }
        lemma_member_receives_in_order(s, init, id);
        lemma_run_well_formed(s, init);
        let t = run(s, init);
        assert(events.last() == events[events.len() - 1]);
        match events.last() {
            RelayEvent::Join => {
                if t.can_join() {
                    lemma_push_contains(t.members, t.next_id);
                    assert(t.inbox.contains_key(id)) by {
                        let j = choose|j: int| 0 <= j < t.members.len() && t.members[j] == id;
                    }
                }
            },
            RelayEvent::Deliver { message, accepted } => {
                lemma_fan_out_delivers_once(t, message, accepted);
                assert(s.inbox[id] + delivered_messages(init).push(message)
                    =~= (s.inbox[id] + delivered_messages(init)).push(message));
            },
        }
    }
}

/// A sink that joins receives none of the messages fanned out before it
/// joined, and, while it takes every write, each one fanned out after, in
/// order.
pub proof fn lemma_joiner_sees_only_later(s: RelayState, events: Seq<RelayEvent>)
    requires
        s.well_formed(),
        s.can_join(),
        forall|k: int| 0 <= k < events.len() ==> (#[trigger] events[k] matches RelayEvent::Deliver { accepted, .. }
            ==> accepted.contains(s.next_id)),
    ensures
        run(join(s), events).members.contains(s.next_id),
        run(join(s), events).inbox[s.next_id] == delivered_messages(events),
{
    lemma_join_well_formed(s);
    lemma_push_contains(s.members, s.next_id);
    lemma_member_receives_in_order(join(s), events, s.next_id);
    assert(Seq::<Seq<char>>::empty() + delivered_messages(events) =~= delivered_messages(events));
}

/// A sink whose write fails is dropped by that pass, and from then on no join
/// or pass brings it back or sends it anything.
pub proof fn lemma_failed_sink_stays_pruned(
    s: RelayState,
    message: Seq<char>,
    accepted: Set<u64>,
    id: u64,
    later: Seq<RelayEvent>,
)
    requires
        s.well_formed(),
        s.members.contains(id),
        !accepted.contains(id),
    ensures
        !fan_out(s, message, accepted).members.contains(id),
        !run(fan_out(s, message, accepted), later).members.contains(id),
        run(fan_out(s, message, accepted), later).inbox[id] == s.inbox[id],
{
    lemma_survivors(s.members, accepted);
    lemma_fan_out_delivers_once(s, message, accepted);
    lemma_fan_out_well_formed(s, message, accepted);
    assert(s.inbox.contains_key(id)) by {
        let j = choose|j: int| 0 <= j < s.members.len() && s.members[j] == id;
    }
    lemma_absent_stays_absent(fan_out(s, message, accepted), later, id);
}

/// A sink that is not registered, but was once, stays out of the registry and
/// its inbox stays as it is.
proof fn lemma_absent_stays_absent(s: RelayState, events: Seq<RelayEvent>, id: u64)
    requires
        s.well_formed(),
        s.inbox.contains_key(id),
        !s.members.contains(id),
    ensures
        !run(s, events).members.contains(id),
        run(s, events).inbox.contains_key(id),
        run(s, events).inbox[id] == s.inbox[id],
    decreases events.len(),
{
    if events.len() > 0 {
        let init = events.drop_last();
        lemma_absent_stays_absent(s, init, id);
        lemma_run_well_formed(s, init);
        let t = run(s, init);
        match events.last() {
            RelayEvent::Join => {
                if t.can_join() {
                    lemma_push_contains(t.members, t.next_id);
                }
            },
            RelayEvent::Deliver { message, accepted } => {
                lemma_survivors(t.members, accepted);
                lemma_fan_out_delivers_once(t, message, accepted);
            },
        }
    }
}

/// A failed write on one sink does not disturb another: a member that took the
/// write stays and receives the message, and a client that connects afterward
/// is registered as on any other pass.
pub proof fn lemma_failure_is_isolated(s: RelayState, message: Seq<char>, accepted: Set<u64>, a: u64, b: u64)
    requires
        s.well_formed(),
        s.members.contains(a),
        !accepted.contains(a),
        s.members.contains(b),
        accepted.contains(b),
    ensures
        !fan_out(s, message, accepted).members.contains(a),
        fan_out(s, message, accepted).members.contains(b),
        fan_out(s, message, accepted).inbox[b] == s.inbox[b].push(message),
        s.can_join() ==> apply(fan_out(s, message, accepted), RelayEvent::Join)
            == join(fan_out(s, message, accepted)),
        s.can_join() ==> join(fan_out(s, message, accepted)).members.contains(s.next_id),
{
    lemma_survivors(s.members, accepted);
    lemma_fan_out_delivers_once(s, message, accepted);
    let t = fan_out(s, message, accepted);
    if s.can_join() {
        lemma_push_contains(t.members, t.next_id);
    }
}

/// A pass over an empty registry changes nothing.
pub proof fn lemma_empty_fan_out(s: RelayState, message: Seq<char>, accepted: Set<u64>)
    requires
        s.members.len() == 0,
    ensures
        fan_out(s, message, accepted) == s,
{
    let t = fan_out(s, message, accepted);
    assert(t.inbox =~= s.inbox);
    assert(t.members =~= s.members);
}

} // verus!
