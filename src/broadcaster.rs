//! The broadcaster: the registry of output sinks and its fan-out pass.
//!
//! The broadcaster owns every registered sink. A fan-out pass is run by the
//! caller while it holds the broadcaster exclusively: it writes the message to
//! `sink(0)`, ..., `sink(len() - 1)` in turn and hands the outcomes to
//! `complete_pass`, which drops every sink whose write failed.
use vstd::prelude::*;
use crate::model::{
    accepted_ids, empty_relay, fan_out, join, kept, lemma_fan_out_well_formed,
    lemma_join_well_formed, lemma_kept_members, RelayState,
};

verus! {

/// The registry of live output sinks, each under an id of its own.
pub struct Broadcaster<S> {
    ids: Vec<u64>,
    sinks: Vec<S>,
    next_id: u64,
    inbox: Ghost<Map<u64, Seq<Seq<char>>>>,
}

impl<S> View for Broadcaster<S> {
    type V = RelayState;

    closed spec fn view(&self) -> RelayState {
        RelayState { members: self.ids@, inbox: self.inbox@, next_id: self.next_id }
    }
}

impl<S> Broadcaster<S> {
    /// The registry is well formed, and holds one sink for each id.
    pub closed spec fn inv(&self) -> bool {
        &&& self@.well_formed()
        &&& self.ids.len() == self.sinks.len()
    }

    /// The registered sinks, in registration order, aligned with
    /// `self@.members`.
    pub closed spec fn sinks(&self) -> Seq<S> {
        self.sinks@
    }

    /// An empty registry.
    pub fn new() -> (r: Self)
        ensures
            r.inv(),
            r@ == empty_relay(),
            r.sinks().len() == 0,
    {
        Broadcaster { ids: Vec::new(), sinks: Vec::new(), next_id: 0, inbox: Ghost(Map::empty()) }
    }

    /// Registers `sink` under a fresh id and returns that id; `None`, with the
    /// registry unchanged, once every id has been handed out.
    pub fn register(&mut self, sink: S) -> (r: Option<u64>)
        requires
            old(self).inv(),
        ensures
            final(self).inv(),
            old(self)@.can_join() ==> r == Some(old(self)@.next_id) && final(self)@ == join(old(self)@)
                && final(self).sinks() == old(self).sinks().push(sink),
            !old(self)@.can_join() ==> r is None && final(self)@ == old(self)@
                && final(self).sinks() == old(self).sinks(),
            final(self)@.well_formed(),
    {
        if self.next_id == u64::MAX {
            return None;
        }
        let id = self.next_id;
        proof {
            lemma_join_well_formed(self@);
        }
        self.ids.push(id);
        self.sinks.push(sink);
        self.next_id = id + 1;
        self.inbox = Ghost(self.inbox@.insert(id, Seq::empty()));
        proof {
            assert(self@ == join(old(self)@));
        }
        Some(id)
    }

    /// How many sinks are registered.
    pub fn len(&self) -> (r: usize)
        ensures
            r == self@.members.len(),
    {
        self.ids.len()
    }

    /// Whether no sink is registered.
    pub fn is_empty(&self) -> (r: bool)
        ensures
            r == (self@.members.len() == 0),
    {
        self.ids.len() == 0
    }

    /// The id of the `i`-th registered sink.
    pub fn id_at(&self, i: usize) -> (r: u64)
        requires
            i < self@.members.len(),
        ensures
            r == self@.members[i as int],
    {
        self.ids[i]
    }

    /// The `i`-th registered sink, to be written by the pass.
    pub fn sink(&self, i: usize) -> (r: &S)
        requires
            self.inv(),
            i < self@.members.len(),
        ensures
            *r == self.sinks()[i as int],
    {
        &self.sinks[i]
    }

    /// Ends the fan-out pass of `message`: `delivered[i]` tells whether the write
    /// to the `i`-th sink succeeded. Those sinks stay, in their order, and have
    /// received the message; the others are dropped from the registry.
    pub fn complete_pass(&mut self, message: &str, delivered: &Vec<bool>)
        requires
            old(self).inv(),
            delivered@.len() == old(self)@.members.len(),
        ensures
            final(self).inv(),
            final(self)@ == fan_out(old(self)@, message@, accepted_ids(old(self)@.members, delivered@)),
            final(self)@.members == kept(old(self)@.members, delivered@),
            final(self).sinks() == kept(old(self).sinks(), delivered@),
            final(self)@.well_formed(),
    {
        let ghost old_ids = self.ids@;
        let ghost old_sinks = self.sinks@;
        let ghost d = delivered@;
        let mut i: usize = 0;
        let mut j: usize = 0;
        while j < delivered.len()
            invariant
                d == delivered@,
                self.next_id == old(self).next_id,
                self.inbox == old(self).inbox,
                d.len() == old_ids.len(),
                old_ids.len() == old_sinks.len(),
                i <= j <= d.len(),
                self.ids@ == kept(old_ids.take(j as int), d.take(j as int)) + old_ids.skip(j as int),
                self.sinks@ == kept(old_sinks.take(j as int), d.take(j as int)) + old_sinks.skip(j as int),
                kept(old_ids.take(j as int), d.take(j as int)).len() == i,
                kept(old_sinks.take(j as int), d.take(j as int)).len() == i,
            decreases d.len() - j,
        {
            let ghost ki = kept(old_ids.take(j as int), d.take(j as int));
            let ghost ks = kept(old_sinks.take(j as int), d.take(j as int));
            proof {
                assert(old_ids.take(j + 1).drop_last() == old_ids.take(j as int));
                assert(old_sinks.take(j + 1).drop_last() == old_sinks.take(j as int));
                assert(d.take(j + 1).take(j as int) == d.take(j as int));
                assert(self.ids@[i as int] == old_ids[j as int]);
                assert(self.sinks@[i as int] == old_sinks[j as int]);
            }
            if delivered[j] {
                i = i + 1;
                proof {
                    assert(self.ids@ == ki.push(old_ids[j as int]) + old_ids.skip(j + 1));
                    assert(self.sinks@ == ks.push(old_sinks[j as int]) + old_sinks.skip(j + 1));
                }
            } else {
                self.ids.remove(i);
                self.sinks.remove(i);
                proof {
                    assert(self.ids@ == ki + old_ids.skip(j + 1));
                    assert(self.sinks@ == ks + old_sinks.skip(j + 1));
                }
            }
            j = j + 1;
        }
        proof {
            assert(old_ids.take(d.len() as int) == old_ids);
            assert(old_sinks.take(d.len() as int) == old_sinks);
            assert(d.take(d.len() as int) == d);
            assert(self.ids@ == kept(old_ids, d));
            assert(self.sinks@ == kept(old_sinks, d));
            lemma_kept_members(old_ids, d);
            lemma_fan_out_well_formed(old(self)@, message@, accepted_ids(old_ids, d));
        }
        self.inbox = Ghost(fan_out(old(self)@, message@, accepted_ids(old_ids, d)).inbox);
    }
}

} // verus!
