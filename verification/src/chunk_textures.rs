use vstd::prelude::*;

use std::collections::BTreeMap;
use std::collections::BTreeSet;

use crate::entity::Ent;
use crate::event_bus::{EventBus, TrainEvent};
use crate::terrain::ChunkIndex;
use crate::world::World;

verus! {

/// One step of bringing the chunk textures up to date after a frame.
#[derive(Debug, Clone, Copy, PartialEq, Eq, Structural)]
pub enum TextureStep {
    /// Redraw the texture of the chunk at this grid position.
    Redraw(ChunkIndex),
    /// Give chunk `id` a texture of its own.
    Create(Ent),
}

/// The steps that the events of a frame ask for, in the events' order: a redraw
/// for each `RedrawTile`, and a new texture for each `ChunkUpdate` of a chunk
/// that exists, has no texture (`textured` holds those that have one) and was
/// not given one by an earlier step.
pub open spec fn texture_plan(chunks: Set<Ent>, textured: Set<Ent>, events: Seq<TrainEvent>) -> Seq<TextureStep>
    decreases events.len(),
{
    if events.len() == 0 {
        Seq::empty()
    } else {
        let prev = texture_plan(chunks, textured, events.drop_last());
        match events.last() {
            TrainEvent::RedrawTile(index) => prev.push(TextureStep::Redraw(index)),
            TrainEvent::ChunkUpdate(id) => if chunks.contains(id) && !textured.contains(id) && !prev.contains(
                TextureStep::Create(id),
            ) {
                prev.push(TextureStep::Create(id))
            } else {
                prev
            },
            _ => prev,
        }
    }
}

/// The texture steps for the events of a frame; `textured` maps each chunk that
/// has a texture already to it.
pub fn chunk_texture_steps<T, H>(
    world: &World<T>,
    events: &EventBus<TrainEvent>,
    textured: &BTreeMap<Ent, H>,
) -> (steps: Vec<TextureStep>)
    ensures
        steps@ == texture_plan(world@.chunks.dom(), textured@.dom(), events@),
{
    let chunks = world.chunks();
    let mut steps: Vec<TextureStep> = Vec::new();
    let mut created: BTreeSet<Ent> = BTreeSet::new();
    let n = events.len();
    let mut i: usize = 0;
    while i < n
        invariant
            n == events@.len(),
            i <= n,
            forall|id: Ent| #[trigger] chunks@.contains_key(id) == world@.chunks.contains_key(id),
            steps@ == texture_plan(world@.chunks.dom(), textured@.dom(), events@.take(i as int)),
            forall|id: Ent| #[trigger] created@.contains(id) == steps@.contains(TextureStep::Create(id)),
        decreases n - i,
    {
        let event = *events.get(i);
        assert(events@.take(i + 1).drop_last() =~= events@.take(i as int));
        assert(events@.take(i + 1).last() == event);
        let ghost prev = steps@;
        match event {
            TrainEvent::RedrawTile(index) => {
                steps.push(TextureStep::Redraw(index));
                assert forall|id: Ent| #[trigger] created@.contains(id) == steps@.contains(TextureStep::Create(id)) by {
                    if prev.contains(TextureStep::Create(id)) {
                        let j = choose|j: int| 0 <= j < prev.len() && prev[j] == TextureStep::Create(id);
                        assert(steps@[j] == prev[j]);
                    }
                    if steps@.contains(TextureStep::Create(id)) {
                        let j = choose|j: int| 0 <= j < steps@.len() && steps@[j] == TextureStep::Create(id);
                        assert(j < prev.len());
                        assert(prev[j] == steps@[j]);
                    }
                }
            },
            TrainEvent::ChunkUpdate(id) => {
                let fresh = chunks.contains_key(&id) && !textured.contains_key(&id) && !created.contains(&id);
                if fresh {
                    steps.push(TextureStep::Create(id));
                    created.insert(id);
                    assert(steps@[prev.len() as int] == TextureStep::Create(id));
                    assert forall|d: Ent| #[trigger] created@.contains(d) == steps@.contains(TextureStep::Create(d)) by {
                        if prev.contains(TextureStep::Create(d)) {
                            let j = choose|j: int| 0 <= j < prev.len() && prev[j] == TextureStep::Create(d);
                            assert(steps@[j] == prev[j]);
                        }
                        if steps@.contains(TextureStep::Create(d)) && d != id {
                            let j = choose|j: int| 0 <= j < steps@.len() && steps@[j] == TextureStep::Create(d);
                            assert(j < prev.len());
                            assert(prev[j] == steps@[j]);
                        }
                    }
                }
            },
            _ => {},
        }
        i = i + 1;
    }
    assert(events@.take(n as int) =~= events@);
    steps
}

/// The texture steps of a frame follow its events one by one: no events ask for
/// nothing; a `RedrawTile` event adds a redraw of that same position, whatever
/// came before it; a `ChunkUpdate` event adds the creation of a texture for that
/// chunk exactly when the chunk exists, has no texture and was not given one
/// earlier in the frame; any other event adds nothing.
pub proof fn law_texture_steps_follow_events(
    chunks: Set<Ent>,
    textured: Set<Ent>,
    events: Seq<TrainEvent>,
    e: TrainEvent,
)
    ensures
        texture_plan(chunks, textured, Seq::empty()) == Seq::<TextureStep>::empty(),
        e matches TrainEvent::RedrawTile(index) ==> texture_plan(chunks, textured, events.push(e)) == texture_plan(
            chunks,
            textured,
            events,
        ).push(TextureStep::Redraw(index)),
        e matches TrainEvent::ChunkUpdate(id) ==> {
            let before = texture_plan(chunks, textured, events);
            &&& chunks.contains(id) && !textured.contains(id) && !before.contains(TextureStep::Create(id))
                ==> texture_plan(chunks, textured, events.push(e)) == before.push(TextureStep::Create(id))
            &&& !(chunks.contains(id) && !textured.contains(id) && !before.contains(TextureStep::Create(id)))
                ==> texture_plan(chunks, textured, events.push(e)) == before
        },
        !(e is RedrawTile) && !(e is ChunkUpdate) ==> texture_plan(chunks, textured, events.push(e))
            == texture_plan(chunks, textured, events),
{
    assert(events.push(e).drop_last() =~= events);
    assert(events.push(e).last() == e);
}

/// No chunk is given two textures, nor one that it has already.
pub proof fn law_texture_created_once(chunks: Set<Ent>, textured: Set<Ent>, events: Seq<TrainEvent>)
    ensures
        forall|i: int, j: int|
            0 <= i < j < texture_plan(chunks, textured, events).len() && texture_plan(chunks, textured, events)[i]
                is Create ==> #[trigger] texture_plan(chunks, textured, events)[i] != #[trigger] texture_plan(
                chunks,
                textured,
                events,
            )[j],
        forall|id: Ent|
            #[trigger] texture_plan(chunks, textured, events).contains(TextureStep::Create(id)) ==> chunks.contains(
                id,
            ) && !textured.contains(id),
    decreases events.len(),
{
    if events.len() > 0 {
        law_texture_created_once(chunks, textured, events.drop_last());
        let prev = texture_plan(chunks, textured, events.drop_last());
        let p = texture_plan(chunks, textured, events);
        assert forall|id: Ent| #[trigger] p.contains(TextureStep::Create(id)) implies chunks.contains(id)
            && !textured.contains(id) by {
            let j = choose|j: int| 0 <= j < p.len() && p[j] == TextureStep::Create(id);
            if j < prev.len() {
                assert(prev[j] == p[j]);
                assert(prev.contains(TextureStep::Create(id)));
            } else {
                match events.last() {
                    TrainEvent::ChunkUpdate(c) => {
                        assert(p == prev.push(TextureStep::Create(c)));
                        assert(c == id);
                    },
                    TrainEvent::RedrawTile(index) => {
                        assert(p[j] == TextureStep::Redraw(index));
                    },
                    _ => {},
                }
            }
        }
        assert forall|i: int, j: int|
            0 <= i < j < p.len() && p[i] is Create implies #[trigger] p[i] != #[trigger] p[j] by {
            if j >= prev.len() {
                assert(prev[i] == p[i]);
            } else {
                assert(prev[i] == p[i]);
                assert(prev[j] == p[j]);
            }
        }
    }
}

} // verus!
