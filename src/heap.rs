use vstd::prelude::*;

use crate::agent::Agent;
use crate::global::HeapAddress;

verus! {

/// Most slots the arena will hold; the address `usize::MAX` stays free to mark
/// unconnected ports.
pub const HEAP_CAPACITY: usize = usize::MAX - 1;

/// `r` is the lowest address with no live agent in `h`.
pub open spec fn is_lowest_free(h: Map<nat, Agent>, r: nat) -> bool {
    &&& !h.contains_key(r)
    &&& forall|a: nat| a < r ==> h.contains_key(a)
}

pub open spec fn lowest_free(h: Map<nat, Agent>) -> nat {
    choose|r: nat| is_lowest_free(h, r)
}

pub proof fn lemma_lowest_free_unique(h: Map<nat, Agent>, r: nat)
    requires
        is_lowest_free(h, r),
    ensures
        lowest_free(h) == r,
{
    let c = lowest_free(h);
    assert(is_lowest_free(h, c));
    if c < r {
        assert(h.contains_key(c));
    } else if r < c {
        assert(h.contains_key(r));
    }
}

/// The arena that owns every agent. A freed slot is reused by the next
/// allocation (the lowest free address first), and freed slots at the end
/// are trimmed.
pub struct Heap {
    slots: Vec<Option<Agent>>,
}

impl View for Heap {
    type V = Map<nat, Agent>;

    /// The live agents, by address.
    closed spec fn view(&self) -> Map<nat, Agent> {
        Map::new(
            |a: nat| a < self.slots@.len() && self.slots@[a as int] is Some,
            |a: nat| self.slots@[a as int]->0,
        )
    }
}

impl Heap {
    /// The slots are trimmed: the last one, if any, holds an agent.
    pub closed spec fn wf(&self) -> bool {
        &&& self.slots@.len() <= HEAP_CAPACITY
        &&& (self.slots@.len() > 0 ==> self.slots@.last() is Some)
    }

    /// Number of slots, live or free.
    pub closed spec fn spec_full_len(&self) -> nat {
        self.slots@.len()
    }

    pub proof fn lemma_live_below_full_len(&self, a: nat)
        requires
            self@.contains_key(a),
        ensures
            a < self.spec_full_len(),
    {
    }

    pub proof fn lemma_full_len_bounded(&self)
        requires
            self.wf(),
        ensures
            self.spec_full_len() <= HEAP_CAPACITY,
    {
    }

    pub fn new() -> (r: Self)
        ensures
            r.wf(),
            r@ == Map::<nat, Agent>::empty(),
    {
        let r = Heap { slots: Vec::new() };
        assert(r@ =~= Map::<nat, Agent>::empty());
        r
    }

    pub fn full_len(&self) -> (r: usize)
        ensures
            r == self.spec_full_len(),
    {
        self.slots.len()
    }

    /// Whether no agent is live.
    pub fn is_empty(&self) -> (r: bool)
        requires
            self.wf(),
        ensures
            r == (self@.dom() == Set::<nat>::empty()),
    {
        if self.slots.len() == 0 {
            assert(self@.dom() =~= Set::<nat>::empty());
            true
        } else {
            let ghost last = (self.slots.len() - 1) as nat;
            assert(self@.contains_key(last));
            assert(self@.dom().contains(last));
            false
        }
    }

    pub fn contains(&self, addr: HeapAddress) -> (r: bool)
        ensures
            r == self@.contains_key(addr as nat),
    {
        addr < self.slots.len() && self.slots[addr].is_some()
    }

    pub fn get(&self, addr: HeapAddress) -> (r: Agent)
        requires
            self@.contains_key(addr as nat),
        ensures
            r == self@[addr as nat],
    {
        self.slots[addr].unwrap()
    }

    /// Replaces the live agent at `addr`.
    pub fn set(&mut self, addr: HeapAddress, agent: Agent)
        requires
            old(self).wf(),
            old(self)@.contains_key(addr as nat),
        ensures
            final(self).wf(),
            final(self)@ == old(self)@.insert(addr as nat, agent),
    {
        self.slots.set(addr, Some(agent));
        assert(self@ =~= old(self)@.insert(addr as nat, agent));
    }

    /// Stores `agent` at the lowest free address, growing the arena only when
    /// every slot is live; `None`, with nothing changed, when that address
    /// would reach the capacity.
    pub fn push(&mut self, agent: Agent) -> (r: Option<HeapAddress>)
        requires
            old(self).wf(),
        ensures
            final(self).wf(),
            match r {
                Some(a) => {
                    &&& is_lowest_free(old(self)@, a as nat)
                    &&& a < HEAP_CAPACITY
                    &&& final(self)@ == old(self)@.insert(a as nat, agent)
                },
                None => {
                    &&& is_lowest_free(old(self)@, HEAP_CAPACITY as nat)
                    &&& final(self)@ == old(self)@
                },
            },
    {
        let mut i: usize = 0;
        while i < self.slots.len()
            invariant
                i <= self.slots@.len(),
                self.slots@ == old(self).slots@,
                self.wf(),
                forall|a: nat| a < i ==> old(self)@.contains_key(a),
            decreases self.slots@.len() - i,
        {
            if self.slots[i].is_none() {
                self.slots.set(i, Some(agent));
                assert(self.slots@.last() is Some);
                assert(self@ =~= old(self)@.insert(i as nat, agent));
                return Some(i);
            }
            i = i + 1;
        }
        if i >= HEAP_CAPACITY {
            return None;
        }
        self.slots.push(Some(agent));
        assert(self@ =~= old(self)@.insert(i as nat, agent));
        Some(i)
    }

    /// Frees the slot at `addr`, then trims the free slots at the end.
    pub fn remove(&mut self, addr: HeapAddress)
        requires
            old(self).wf(),
            old(self)@.contains_key(addr as nat),
        ensures
            final(self).wf(),
            final(self)@ == old(self)@.remove(addr as nat),
            final(self).spec_full_len() <= old(self).spec_full_len(),
    {
        self.slots.set(addr, None);
        assert(self@ =~= old(self)@.remove(addr as nat));
        while self.slots.len() > 0 && self.slots[self.slots.len() - 1].is_none()
            invariant
                self@ == old(self)@.remove(addr as nat),
                self.slots@.len() <= old(self).slots@.len(),
            decreases self.slots@.len(),
        {
            let ghost before = self@;
            self.slots.pop();
            assert(self@ =~= before);
        }
    }
}

} // verus!
