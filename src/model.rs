//! The relay as a mathematical object: who is registered, and what each sink
//! has been sent.
use vstd::prelude::*;

verus! {

/// The broadcaster's state: the registered sink ids in registration order, the
/// messages successfully written to every sink that was ever registered, and
/// the id that the next registration will take.
pub ghost struct RelayState {
    pub members: Seq<u64>,
    pub inbox: Map<u64, Seq<Seq<char>>>,
    pub next_id: u64,
}

/// One step of the relay: a sink joins, or a message is fanned out and the
/// sinks in `accepted` took the write.
pub ghost enum RelayEvent {
    Join,
    Deliver { message: Seq<char>, accepted: Set<u64> },
}

impl RelayState {
    /// The registry holds each sink at most once; every member has an inbox;
    /// every id handed out so far lies below `next_id`.
    pub open spec fn well_formed(self) -> bool {
        &&& self.members.no_duplicates()
        &&& forall|i: int| 0 <= i < self.members.len() ==> self.inbox.contains_key(#[trigger] self.members[i])
        &&& forall|id: u64| #[trigger] self.inbox.contains_key(id) ==> id < self.next_id
    }

    /// Whether another id can still be handed out.
    pub open spec fn can_join(self) -> bool {
        self.next_id < u64::MAX
    }
}

/// The state before any sink has joined.
pub open spec fn empty_relay() -> RelayState {
    RelayState { members: Seq::empty(), inbox: Map::empty(), next_id: 0 }
}

/// A new sink joins under the next id, with an empty inbox.
pub open spec fn join(s: RelayState) -> RelayState
    recommends
        s.can_join(),
{
    RelayState {
        members: s.members.push(s.next_id),
        inbox: s.inbox.insert(s.next_id, Seq::empty()),
        next_id: (s.next_id + 1) as u64,
    }
}

/// The members that stay registered after a pass: those that took the write,
/// in their order.
pub open spec fn survivors(members: Seq<u64>, accepted: Set<u64>) -> Seq<u64>
    decreases members.len(),
{
    if members.len() == 0 {
        members
    } else {
        let rest = survivors(members.drop_last(), accepted);
        if accepted.contains(members.last()) {
            rest.push(members.last())
        } else {
            rest
        }
    }
}

/// One fan-out pass of `message`: each member that took the write has the
/// message appended to its inbox and stays; each other member is dropped.
pub open spec fn fan_out(s: RelayState, message: Seq<char>, accepted: Set<u64>) -> RelayState {
    RelayState {
        members: survivors(s.members, accepted),
        inbox: Map::new(
            |id: u64| s.inbox.contains_key(id),
            |id: u64|
                if s.members.contains(id) && accepted.contains(id) {
                    s.inbox[id].push(message)
                } else {
                    s.inbox[id]
                },
        ),
        next_id: s.next_id,
    }
}

/// The effect of one event; a join when the ids are exhausted changes nothing.
pub open spec fn apply(s: RelayState, e: RelayEvent) -> RelayState {
    match e {
        RelayEvent::Join => if s.can_join() { join(s) } else { s },
        RelayEvent::Deliver { message, accepted } => fan_out(s, message, accepted),
    }
}

/// The effect of a sequence of events, in order.
pub open spec fn run(s: RelayState, events: Seq<RelayEvent>) -> RelayState
    decreases events.len(),
{
    if events.len() == 0 {
        s
    } else {
        apply(run(s, events.drop_last()), events.last())
    }
}

/// The messages fanned out by a sequence of events, in order.
pub open spec fn delivered_messages(events: Seq<RelayEvent>) -> Seq<Seq<char>>
    decreases events.len(),
{
    if events.len() == 0 {
        Seq::empty()
    } else {
        let rest = delivered_messages(events.drop_last());
        match events.last() {
            RelayEvent::Join => rest,
            RelayEvent::Deliver { message, .. } => rest.push(message),
        }
    }
}

/// The ids of the members whose write succeeded, given one outcome per member
/// in registry order.
pub open spec fn accepted_ids(members: Seq<u64>, delivered: Seq<bool>) -> Set<u64> {
    Set::new(|id: u64| exists|i: int| 0 <= i < members.len() && i < delivered.len() && members[i] == id && delivered[i])
}

/// What stays of a pass's members is exactly the accepted ones, in order and
/// without repetition.
pub proof fn lemma_survivors(members: Seq<u64>, accepted: Set<u64>)
    requires
        members.no_duplicates(),
    ensures
        survivors(members, accepted).no_duplicates(),
        forall|id: u64| #[trigger] survivors(members, accepted).contains(id) <==> (members.contains(id) && accepted.contains(id)),
    decreases members.len(),
{
    if members.len() > 0 {
        let init = members.drop_last();
        assert(init.no_duplicates());
        lemma_survivors(init, accepted);
        assert forall|id: u64| init.contains(id) || id == members.last() <==> #[trigger] members.contains(id) by {
            if members.contains(id) {
                let i = choose|i: int| 0 <= i < members.len() && members[i] == id;
                if i < members.len() - 1 {
                    assert(init[i] == id);
                }
            }
            if init.contains(id) {
                let i = choose|i: int| 0 <= i < init.len() && init[i] == id;
                assert(members[i] == id);
            }
            if id == members.last() {
                assert(members[members.len() - 1] == id);
            }
        }
        assert(!init.contains(members.last())) by {
            if init.contains(members.last()) {
                let i = choose|i: int| 0 <= i < init.len() && init[i] == members.last();
                assert(members[i] == members[members.len() - 1]);
            }
        }
        let rest = survivors(init, accepted);
        if accepted.contains(members.last()) {
            lemma_push_contains(rest, members.last());
        }
    }
}

/// Appending `x` adds exactly `x` to what a sequence contains, and keeps it free
/// of repetition when `x` was absent.
pub proof fn lemma_push_contains(s: Seq<u64>, x: u64)
    ensures
        forall|id: u64| #[trigger] s.push(x).contains(id) <==> (s.contains(id) || id == x),
        s.no_duplicates() && !s.contains(x) ==> s.push(x).no_duplicates(),
{
    let t = s.push(x);
    assert forall|id: u64| #[trigger] t.contains(id) <==> (s.contains(id) || id == x) by {
        if t.contains(id) {
            let i = choose|i: int| 0 <= i < t.len() && t[i] == id;
            if i < s.len() {
                assert(s[i] == id);
            }
        }
        if s.contains(id) {
            let i = choose|i: int| 0 <= i < s.len() && s[i] == id;
            assert(t[i] == id);
        }
        if id == x {
            assert(t[s.len() as int] == id);
        }
    }
    if s.no_duplicates() && !s.contains(x) {
        assert forall|i: int, j: int| 0 <= i < t.len() && 0 <= j < t.len() && i != j implies t[i] != t[j] by {
            if i < s.len() && j < s.len() {
                assert(s[i] == t[i] && s[j] == t[j]);
            } else if i < s.len() {
                assert(s[i] == t[i]);
            } else if j < s.len() {
                assert(s[j] == t[j]);
            }
        }
    }
}

/// The items at the positions whose outcome is `true`, in order.
pub open spec fn kept<T>(xs: Seq<T>, delivered: Seq<bool>) -> Seq<T>
    decreases xs.len(),
{
    if xs.len() == 0 {
        xs
    } else {
        let rest = kept(xs.drop_last(), delivered.take(xs.len() - 1));
        if delivered[xs.len() - 1] {
            rest.push(xs.last())
        } else {
            rest
        }
    }
}

/// `survivors` reads `accepted` only at the members themselves.
pub proof fn lemma_survivors_local(members: Seq<u64>, a: Set<u64>, b: Set<u64>)
    requires
        forall|i: int| 0 <= i < members.len() ==> (a.contains(#[trigger] members[i]) <==> b.contains(members[i])),
    ensures
        survivors(members, a) == survivors(members, b),
    decreases members.len(),
{
    if members.len() > 0 {
        let init = members.drop_last();
        assert forall|i: int| 0 <= i < init.len() implies (a.contains(#[trigger] init[i]) <==> b.contains(init[i])) by {
            assert(init[i] == members[i]);
        }
        lemma_survivors_local(init, a, b);
        assert(members.last() == members[members.len() - 1]);
    }
}

/// Keeping the members whose write succeeded is the survivors of the set of
/// ids whose write succeeded, when no id repeats.
pub proof fn lemma_kept_members(members: Seq<u64>, delivered: Seq<bool>)
    requires
        members.no_duplicates(),
        delivered.len() == members.len(),
    ensures
        kept(members, delivered) == survivors(members, accepted_ids(members, delivered)),
    decreases members.len(),
{
    if members.len() > 0 {
        let n = members.len() - 1;
        let init = members.drop_last();
        let d = delivered.take(n as int);
        assert(init.no_duplicates());
        lemma_kept_members(init, d);
        let a = accepted_ids(init, d);
        let b = accepted_ids(members, delivered);
        assert forall|i: int| 0 <= i < init.len() implies (a.contains(#[trigger] init[i]) <==> b.contains(init[i])) by {
            if a.contains(init[i]) {
                let k = choose|k: int| 0 <= k < init.len() && k < d.len() && init[k] == init[i] && d[k];
                assert(members[k] == init[i] && delivered[k]);
            }
            if b.contains(init[i]) {
                let k = choose|k: int| 0 <= k < members.len() && k < delivered.len() && members[k] == init[i] && delivered[k];
                assert(members[i] == init[i]);
                assert(k == i);
                assert(init[k] == init[i] && d[k]);
            }
        }
        lemma_survivors_local(init, a, b);
        assert(b.contains(members.last()) <==> delivered[n as int]) by {
            if b.contains(members.last()) {
                let k = choose|k: int| 0 <= k < members.len() && k < delivered.len() && members[k] == members.last() && delivered[k];
                assert(members[k] == members[n as int]);
            }
        }
    }
}

/// A fan-out pass keeps the relay well formed.
pub proof fn lemma_fan_out_well_formed(s: RelayState, message: Seq<char>, accepted: Set<u64>)
    requires
        s.well_formed(),
    ensures
        fan_out(s, message, accepted).well_formed(),
{
    lemma_survivors(s.members, accepted);
    let t = fan_out(s, message, accepted);
    assert forall|i: int| 0 <= i < t.members.len() implies t.inbox.contains_key(#[trigger] t.members[i]) by {
        assert(t.members.contains(t.members[i]));
        let j = choose|j: int| 0 <= j < s.members.len() && s.members[j] == t.members[i];
    }
}

/// A join keeps the relay well formed.
pub proof fn lemma_join_well_formed(s: RelayState)
    requires
        s.well_formed(),
        s.can_join(),
    ensures
        join(s).well_formed(),
{
    assert(!s.members.contains(s.next_id)) by {
        if s.members.contains(s.next_id) {
            let j = choose|j: int| 0 <= j < s.members.len() && s.members[j] == s.next_id;
        }
    }
    lemma_push_contains(s.members, s.next_id);
    let t = join(s);
    assert forall|i: int| 0 <= i < t.members.len() implies t.inbox.contains_key(#[trigger] t.members[i]) by {
        if i < s.members.len() {
            assert(t.members[i] == s.members[i]);
        }
    }
}

} // verus!
