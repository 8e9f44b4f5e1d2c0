use vstd::prelude::*;

verus! {

/// Identifier of an entity (a chunk, a node, a track, a car, a sound, ...).
pub type Ent = u64;

/// Hands out entity identifiers, each one larger than every one handed out before.
pub struct EntitySpawner {
    next: Ent,
}

impl EntitySpawner {
    /// The identifier that the next call of `spawn` returns.
    pub closed spec fn next_id(&self) -> nat {
        self.next as nat
    }

    /// The identifier that the next call of `spawn` returns.
    pub fn peek(&self) -> (id: Ent)
        ensures
            id == self.next_id(),
    {
        self.next
    }

    pub fn spawn(&mut self) -> (id: Ent)
        requires
            old(self).next_id() < u64::MAX,
        ensures
            id == old(self).next_id(),
            final(self).next_id() == old(self).next_id() + 1,
    {
        let id = self.next;
        self.next = self.next + 1;
        id
    }
}

impl Default for EntitySpawner {
    fn default() -> (s: Self)
        ensures
            s.next_id() == 0,
    {
        EntitySpawner { next: 0 }
    }
}

} // verus!
