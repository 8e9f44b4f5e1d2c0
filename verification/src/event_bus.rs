use vstd::prelude::*;
use vstd::std_specs::iter::IteratorSpec;
use vstd::std_specs::slice::into_iter_elts;

use crate::entity::Ent;
use crate::sounds::SoundKind;
use crate::terrain::ChunkIndex;

verus! {

/// What happened in the game during a frame, for the systems that react to it.
#[derive(Debug, Clone, Copy, PartialEq, Eq, Structural)]
pub enum TrainEvent {
    ChunkUpdate(Ent),
    Sound(SoundKind),
    CarReparent(Ent),
    NewConsist(Ent),
    RegenerateTrees(ChunkIndex),
    RedrawTile(ChunkIndex),
    KillSound(Ent),
    ToggleDebug,
    ToggleDetail,
    Other,
}

/// Remembers which font the user picked during a frame.
pub struct FontSelection {
    font_id: Option<Ent>,
}

impl FontSelection {
    /// The font picked so far, if any.
    pub closed spec fn picked(&self) -> Option<Ent> {
        self.font_id
    }

    pub fn new() -> (s: Self)
        ensures
            s.picked() == None::<Ent>,
    {
        FontSelection { font_id: None }
    }

    pub fn clicked(&mut self, font_id: Ent)
        ensures
            final(self).picked() == Some(font_id),
    {
        self.font_id = Some(font_id);
    }

    pub fn new_font_id(&self) -> (f: Option<Ent>)
        ensures
            f == self.picked(),
    {
        self.font_id
    }
}

/// A queue of events gathered during one frame, handed out in the order they came.
pub struct EventBus<T> {
    events: Vec<T>,
}

impl<T> View for EventBus<T> {
    type V = Seq<T>;

    open spec fn view(&self) -> Seq<T> {
        self.spec_events()
    }
}

impl<T> EventBus<T> {
    /// The events, oldest first.
    pub closed spec fn spec_events(&self) -> Seq<T> {
        self.events@
    }

    pub fn new() -> (bus: Self)
        ensures
            bus@ == Seq::<T>::empty(),
    {
        EventBus { events: Vec::new() }
    }

    pub fn enqueue(&mut self, event: T)
        ensures
            final(self)@ == old(self)@.push(event),
    {
        self.events.push(event);
    }

    pub fn iter(&self) -> (it: std::slice::Iter<'_, T>)
        ensures
            into_iter_elts(it) == self@,
            IteratorSpec::decrease(&it) is Some,
            IteratorSpec::initial_value_relation(&it, &it),
    {
        self.events.as_slice().iter()
    }

    pub fn clear(&mut self)
        ensures
            final(self)@ == Seq::<T>::empty(),
    {
        self.events.clear();
    }

    /// The event at position `i`, counting from the oldest.
    pub fn get(&self, i: usize) -> (e: &T)
        requires
            i < self@.len(),
        ensures
            *e == self@[i as int],
    {
        &self.events[i]
    }

    pub fn len(&self) -> (n: usize)
        ensures
            n == self@.len(),
    {
        self.events.len()
    }
}


/// Events leave the bus in the order in which they were queued: queuing `e`
/// after the events `queued` puts `e` last and leaves the earlier ones where
/// they were, and the count grows by one.
pub proof fn law_enqueue_keeps_order<T>(queued: Seq<T>, e: T)
    ensures
        queued.push(e).len() == queued.len() + 1,
        queued.push(e)[queued.len() as int] == e,
        forall|i: int| 0 <= i < queued.len() ==> #[trigger] queued.push(e)[i] == queued[i],
{
}

/// A cleared bus holds exactly the events queued after the clear, in order.
pub proof fn law_clear_then_enqueue<T>(a: T, b: T)
    ensures
        Seq::<T>::empty().push(a).push(b) == seq![a, b],
{
    assert(Seq::<T>::empty().push(a).push(b) =~= seq![a, b]);
}

} // verus!
