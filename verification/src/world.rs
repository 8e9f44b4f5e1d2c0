use vstd::prelude::*;

use std::collections::BTreeMap;

use crate::entity::{Ent, EntitySpawner};
use crate::event_bus::{EventBus, TrainEvent};
use crate::terrain::{ChunkIndex, ChunkKey, ChunkView, TerrainChunk};

verus! {

/// The terrain chunks, filed both by identifier and by grid position, and the
/// spawner that hands out the identifiers.
pub(crate) struct ChunkStore<T> {
    pub(crate) spawner: EntitySpawner,
    pub(crate) chunks: BTreeMap<Ent, TerrainChunk<T>>,
    pub(crate) chunk_map: BTreeMap<ChunkKey, Ent>,
}

impl<T> ChunkStore<T> {
    /// The two filings of the chunks agree: every grid position that is filed
    /// files a chunk that exists and lies at that position, and every chunk
    /// identifier was handed out by the spawner already.
    pub(crate) open spec fn chunks_wf(&self) -> bool {
        &&& forall|k: ChunkKey|
            #[trigger] self.chunk_map@.contains_key(k) ==> {
                &&& self.chunks@.contains_key(self.chunk_map@[k])
                &&& self.chunks@[self.chunk_map@[k]]@.index.spec_key() == k
            }
        &&& forall|id: Ent| #[trigger] self.chunks@.contains_key(id) ==> id < self.spawner.next_id()
    }

    /// The terrain by grid position: what the chunk filed at each position holds.
    pub(crate) open spec fn terrain(&self) -> Map<ChunkKey, ChunkView<T>> {
        Map::new(
            |k: ChunkKey| self.chunk_map@.contains_key(k),
            |k: ChunkKey| self.chunks@[self.chunk_map@[k]]@,
        )
    }

    /// What each chunk holds, by identifier.
    pub(crate) open spec fn chunk_views(&self) -> Map<Ent, ChunkView<T>> {
        Map::new(|id: Ent| self.chunks@.contains_key(id), |id: Ent| self.chunks@[id]@)
    }

    pub(crate) fn new() -> (s: Self)
        ensures
            s.chunks_wf(),
            s.chunk_map@ == Map::<ChunkKey, Ent>::empty(),
            s.chunks@ == Map::<Ent, TerrainChunk<T>>::empty(),
            s.spawner.next_id() == 0,
    {
        ChunkStore { spawner: EntitySpawner::default(), chunks: BTreeMap::new(), chunk_map: BTreeMap::new() }
    }
}

/// The library's part of the game world, as mathematical values: the frame
/// counter, the switches, the next entity identifier, and the terrain chunks by
/// grid position (`ids`) and by identifier (`chunks`).
pub struct WorldView<T> {
    pub ticks: u64,
    pub current_font_id: Option<Ent>,
    pub show_detail: bool,
    pub followed_car: Option<Ent>,
    pub next_id: nat,
    pub ids: Map<ChunkKey, Ent>,
    pub chunks: Map<Ent, ChunkView<T>>,
}

impl<T> WorldView<T> {
    /// What the chunk filed at each grid position holds.
    pub open spec fn terrain(self) -> Map<ChunkKey, ChunkView<T>> {
        Map::new(|k: ChunkKey| self.ids.contains_key(k), |k: ChunkKey| self.chunks[self.ids[k]])
    }

    /// Every filed grid position files a chunk that exists and lies there, and
    /// every chunk identifier was handed out already. Every world is consistent.
    pub open spec fn consistent(self) -> bool {
        &&& forall|k: ChunkKey|
            #[trigger] self.ids.contains_key(k) ==> {
                &&& self.chunks.contains_key(self.ids[k])
                &&& self.chunks[self.ids[k]].index.spec_key() == k
            }
        &&& forall|id: Ent| #[trigger] self.chunks.contains_key(id) ==> id < self.next_id
    }

    /// The fields that the terrain operations leave alone are equal in both views.
    pub open spec fn same_settings(self, other: WorldView<T>) -> bool {
        &&& self.ticks == other.ticks
        &&& self.current_font_id == other.current_font_id
        &&& self.show_detail == other.show_detail
        &&& self.followed_car == other.followed_car
    }
}

/// The game state that the library keeps: the frame counter, a few switches,
/// the entity spawner and the terrain chunks. `T` is what a tree of a chunk is.
pub struct World<T> {
    pub(crate) ticks: u64,
    pub(crate) current_font_id: Option<Ent>,
    pub(crate) show_detail: bool,
    pub(crate) followed_car: Option<Ent>,
    pub(crate) store: ChunkStore<T>,
}

impl<T> View for World<T> {
    type V = WorldView<T>;

    closed spec fn view(&self) -> WorldView<T> {
        WorldView {
            ticks: self.ticks,
            current_font_id: self.current_font_id,
            show_detail: self.show_detail,
            followed_car: self.followed_car,
            next_id: self.store.spawner.next_id(),
            ids: self.store.chunk_map@,
            chunks: self.store.chunk_views(),
        }
    }
}

impl<T> World<T> {
    #[verifier::type_invariant]
    pub(crate) open spec fn inv(self) -> bool {
        self.store.chunks_wf()
    }

    /// The view of a world, in terms of its parts; the store's terrain is the
    /// view's.
    pub(crate) proof fn lemma_view(&self)
        ensures
            self@.ticks == self.ticks,
            self@.current_font_id == self.current_font_id,
            self@.show_detail == self.show_detail,
            self@.followed_car == self.followed_car,
            self@.next_id == self.store.spawner.next_id(),
            self@.ids == self.store.chunk_map@,
            self@.chunks == self.store.chunk_views(),
            self.store.chunks_wf() ==> self@.consistent() && self@.terrain() == self.store.terrain(),
    {
        if self.store.chunks_wf() {
            assert(self@.terrain() =~= self.store.terrain());
        }
    }

    /// A world with no chunks, the given font and the default settings.
    pub fn new(font_id: Ent) -> (w: Self)
        ensures
            w@.consistent(),
            w@ == (WorldView::<T> {
                ticks: 0,
                current_font_id: Some(font_id),
                show_detail: false,
                followed_car: None,
                next_id: 0,
                ids: Map::empty(),
                chunks: Map::empty(),
            }),
    {
        let w = World {
            ticks: 0,
            current_font_id: Some(font_id),
            show_detail: false,
            followed_car: None,
            store: ChunkStore::new(),
        };
        proof {
            w.lemma_view();
            assert(w@.chunks =~= Map::<Ent, ChunkView<T>>::empty());
        }
        w
    }

    /// Counts one more frame; says whether it is a frame on which the leading cars
    /// of the trains puff smoke (every fifth frame).
    pub fn advance_tick(&mut self) -> (smoke_tick: bool)
        requires
            old(self)@.ticks < u64::MAX,
        ensures
            final(self)@ == (WorldView { ticks: (old(self)@.ticks + 1) as u64, ..old(self)@ }),
            smoke_tick == (final(self)@.ticks % 5 == 0),
    {
        proof {
            self.lemma_view();
            use_type_invariant(&*self);
        }
        self.ticks = self.ticks + 1;
        proof { self.lemma_view(); }
        self.ticks % 5 == 0
    }

    pub fn ticks(&self) -> (t: u64)
        ensures
            t == self@.ticks,
    {
        proof { self.lemma_view(); }
        self.ticks
    }

    pub fn current_font_id(&self) -> (f: Option<Ent>)
        ensures
            f == self@.current_font_id,
    {
        proof { self.lemma_view(); }
        self.current_font_id
    }

    pub fn set_current_font_id(&mut self, font_id: Option<Ent>)
        ensures
            final(self)@ == (WorldView { current_font_id: font_id, ..old(self)@ }),
    {
        proof {
            self.lemma_view();
            use_type_invariant(&*self);
        }
        self.current_font_id = font_id;
        proof { self.lemma_view(); }
    }

    pub fn show_detail(&self) -> (b: bool)
        ensures
            b == self@.show_detail,
    {
        proof { self.lemma_view(); }
        self.show_detail
    }

    /// Switches the detailed drawing of tracks and chunks on or off.
    pub fn toggle_detail(&mut self)
        ensures
            final(self)@ == (WorldView { show_detail: !old(self)@.show_detail, ..old(self)@ }),
    {
        proof {
            self.lemma_view();
            use_type_invariant(&*self);
        }
        self.show_detail = !self.show_detail;
        proof { self.lemma_view(); }
    }

    pub fn followed_car(&self) -> (c: Option<Ent>)
        ensures
            c == self@.followed_car,
    {
        proof { self.lemma_view(); }
        self.followed_car
    }

    pub fn set_followed_car(&mut self, car: Option<Ent>)
        ensures
            final(self)@ == (WorldView { followed_car: car, ..old(self)@ }),
    {
        proof {
            self.lemma_view();
            use_type_invariant(&*self);
        }
        self.followed_car = car;
        proof { self.lemma_view(); }
    }

    /// The chunk identifiers by grid position.
    pub fn chunk_map(&self) -> (m: &BTreeMap<ChunkKey, Ent>)
        ensures
            m@ == self@.ids,
            self@.consistent(),
    {
        proof {
            self.lemma_view();
            use_type_invariant(self);
        }
        &self.store.chunk_map
    }

    /// The chunks by identifier.
    pub fn chunks(&self) -> (m: &BTreeMap<Ent, TerrainChunk<T>>)
        ensures
            forall|id: Ent| #[trigger] m@.contains_key(id) == self@.chunks.contains_key(id),
            forall|id: Ent| #[trigger] m@.contains_key(id) ==> m@[id]@ == self@.chunks[id],
            self@.consistent(),
    {
        proof {
            self.lemma_view();
            use_type_invariant(self);
        }
        &self.store.chunks
    }

    /// The identifier that the next spawned entity gets.
    pub fn next_entity(&self) -> (id: Ent)
        ensures
            id == self@.next_id,
    {
        proof { self.lemma_view(); }
        self.store.spawner.peek()
    }

    /// Hands out a new entity identifier (for a node, a track, a car, ...).
    pub fn spawn_entity(&mut self) -> (id: Ent)
        requires
            old(self)@.next_id < u64::MAX,
        ensures
            id == old(self)@.next_id,
            final(self)@ == (WorldView { next_id: old(self)@.next_id + 1, ..old(self)@ }),
    {
        proof {
            self.lemma_view();
            use_type_invariant(&*self);
        }
        let mut store = ChunkStore::new();
        std::mem::swap(&mut store, &mut self.store);
        let id = store.spawner.spawn();
        self.store = store;
        proof { self.lemma_view(); }
        id
    }
}

/// No two grid positions share a chunk.
pub proof fn law_positions_have_own_chunks<T>(w: WorldView<T>, a: ChunkKey, b: ChunkKey)
    requires
        w.consistent(),
        w.ids.contains_key(a),
        w.ids.contains_key(b),
        a != b,
    ensures
        w.ids[a] != w.ids[b],
{
}

/// Two world views have the same settings exactly when their frame counters,
/// fonts, detail switches and followed cars are equal.
pub proof fn law_same_settings_compares_settings<T>(a: WorldView<T>, b: WorldView<T>)
    ensures
        a.same_settings(b) <==> (a.ticks == b.ticks && a.current_font_id == b.current_font_id && a.show_detail
            == b.show_detail && a.followed_car == b.followed_car),
        a.same_settings(a),
{
}

/// The terrain holds a chunk at exactly the filed positions: the chunk that the
/// position files.
pub proof fn law_terrain_reads_filed_chunks<T>(w: WorldView<T>, k: ChunkKey)
    ensures
        w.terrain().contains_key(k) <==> w.ids.contains_key(k),
        w.ids.contains_key(k) ==> w.terrain()[k] == w.chunks[w.ids[k]],
{
}

/// What the cursor is over. `L` is a place on a track.
#[derive(Debug, Clone, Copy, PartialEq, Eq, Structural)]
pub enum HoveredEntity<L> {
    Track(L),
    Node(Ent),
    Car(Ent),
}

/// What the user has selected. `L` is a place on a track.
#[derive(Debug, Clone)]
pub enum SelectedEntity<L> {
    Track(L),
    Nodes(Vec<Ent>),
    Car(Ent),
}

/// A selection, with the selected nodes as a sequence.
pub enum SelectionView<L> {
    Track(L),
    Nodes(Seq<Ent>),
    Car(Ent),
}

impl<L> View for SelectedEntity<L> {
    type V = SelectionView<L>;

    open spec fn view(&self) -> SelectionView<L> {
        match self {
            SelectedEntity::Track(l) => SelectionView::Track(*l),
            SelectedEntity::Nodes(v) => SelectionView::Nodes(v@),
            SelectedEntity::Car(c) => SelectionView::Car(*c),
        }
    }
}

pub open spec fn selection_view<L>(s: Option<SelectedEntity<L>>) -> Option<SelectionView<L>> {
    match s {
        Some(e) => Some(e@),
        None => None,
    }
}

/// Holds of every entity but `id`.
pub open spec fn other_than(id: Ent) -> spec_fn(Ent) -> bool {
    |d: Ent| d != id
}

/// The node selection after the user clicks node `id`: with shift held the
/// click adds the node, or takes it out when it was selected; without shift the
/// node alone is selected, or nothing when it was selected already.
pub open spec fn toggle_node(nodes: Seq<Ent>, id: Ent, shift: bool) -> Seq<Ent> {
    if shift && nodes.contains(id) {
        nodes.filter(other_than(id))
    } else if shift {
        nodes.push(id)
    } else if !nodes.contains(id) {
        seq![id]
    } else {
        Seq::empty()
    }
}

/// The selection after a left click, given what the cursor is over.
pub open spec fn selection_after_click<L>(
    selected: Option<SelectionView<L>>,
    hovered: Option<HoveredEntity<L>>,
    shift: bool,
) -> Option<SelectionView<L>> {
    match hovered {
        Some(HoveredEntity::Track(loc)) => Some(SelectionView::Track(loc)),
        Some(HoveredEntity::Car(id)) => Some(SelectionView::Car(id)),
        Some(HoveredEntity::Node(id)) => match selected {
            Some(SelectionView::Nodes(v)) => Some(SelectionView::Nodes(toggle_node(v, id, shift))),
            _ => Some(SelectionView::Nodes(seq![id])),
        },
        None => None,
    }
}

/// `nodes` without any occurrence of `id`, in the same order.
fn without_node(nodes: &Vec<Ent>, id: Ent) -> (r: Vec<Ent>)
    ensures
        r@ == nodes@.filter(other_than(id)),
{
    let mut r: Vec<Ent> = Vec::new();
    let mut i: usize = 0;
    while i < nodes.len()
        invariant
            i <= nodes@.len(),
            r@ == nodes@.take(i as int).filter(other_than(id)),
        decreases nodes@.len() - i,
    {
        assert(nodes@.take(i + 1).drop_last() =~= nodes@.take(i as int));
        assert(nodes@.take(i + 1).last() == nodes@[i as int]);
        let ghost prev = r@;
        if nodes[i] != id {
            r.push(nodes[i]);
        }
        proof {
            reveal(Seq::filter);
        }
        i = i + 1;
    }
    assert(nodes@.take(nodes@.len() as int) =~= nodes@);
    r
}

fn vec_contains(nodes: &Vec<Ent>, id: Ent) -> (b: bool)
    ensures
        b == nodes@.contains(id),
{
    let mut i: usize = 0;
    while i < nodes.len()
        invariant
            i <= nodes@.len(),
            forall|j: int| 0 <= j < i ==> nodes@[j] != id,
        decreases nodes@.len() - i,
    {
        if nodes[i] == id {
            return true;
        }
        i = i + 1;
    }
    false
}

/// Updates the selection for a left click; returns the node that the click
/// presses, if the cursor is over one.
pub fn select_on_click<L: Copy>(
    selected: &mut Option<SelectedEntity<L>>,
    hovered: Option<HoveredEntity<L>>,
    shift: bool,
) -> (pressed: Option<Ent>)
    ensures
        selection_view(*final(selected)) == selection_after_click(selection_view(*old(selected)), hovered, shift),
        pressed == (match hovered {
            Some(HoveredEntity::Node(id)) => Some(id),
            _ => None::<Ent>,
        }),
{
    match hovered {
        Some(HoveredEntity::Track(loc)) => {
            *selected = Some(SelectedEntity::Track(loc));
            None
        },
        Some(HoveredEntity::Car(id)) => {
            *selected = Some(SelectedEntity::Car(id));
            None
        },
        Some(HoveredEntity::Node(id)) => {
            let is_nodes = match selected {
                Some(SelectedEntity::Nodes(_)) => true,
                _ => false,
            };
            if is_nodes {
                match selected {
                    Some(SelectedEntity::Nodes(v)) => {
                        let contains = vec_contains(v, id);
                        let ghost v0 = v@;
                        if shift && contains {
                            let w = without_node(v, id);
                            *v = w;
                        } else if shift {
                            v.push(id);
                        } else if !contains {
                            *v = vec![id];
                            assert(v@ =~= seq![id]);
                        } else {
                            v.clear();
                        }
                        assert(v@ == toggle_node(v0, id, shift));
                    },
                    _ => {},
                }
            } else {
                let w = vec![id];
                assert(w@ =~= seq![id]);
                *selected = Some(SelectedEntity::Nodes(w));
            }
            Some(id)
        },
        None => {
            *selected = None;
            None
        },
    }
}

/// The car that the camera follows once the user asks to follow the selection:
/// the selected car, or none when no car is selected.
pub fn follow_target<L>(selected: &Option<SelectedEntity<L>>) -> (car: Option<Ent>)
    ensures
        car == (match *selected {
            Some(SelectedEntity::Car(id)) => Some(id),
            _ => None::<Ent>,
        }),
{
    match selected {
        Some(SelectedEntity::Car(id)) => Some(*id),
        _ => None,
    }
}

/// The first `k` selected nodes, when nodes are selected and at least `k` of them.
pub fn leading_selected_nodes<L>(selected: &Option<SelectedEntity<L>>, k: usize) -> (r: Option<Vec<Ent>>)
    ensures
        r is Some <==> (match *selected {
            Some(SelectedEntity::Nodes(v)) => k <= v@.len(),
            _ => false,
        }),
        r is Some ==> (match *selected {
            Some(SelectedEntity::Nodes(v)) => r->0@ == v@.take(k as int),
            _ => false,
        }),
{
    match selected {
        Some(SelectedEntity::Nodes(v)) => {
            if k <= v.len() {
                let mut r: Vec<Ent> = Vec::new();
                let mut i: usize = 0;
                while i < k
                    invariant
                        i <= k <= v@.len(),
                        r@ == v@.take(i as int),
                    decreases k - i,
                {
                    r.push(v[i]);
                    assert(r@ =~= v@.take(i + 1));
                    i = i + 1;
                }
                Some(r)
            } else {
                None
            }
        },
        _ => None,
    }
}

/// The pull on the camera from the arrow keys `W`, `A`, `S`, `D` as (east, north),
/// each between -1 and 1; keys count only while control is not held.
pub fn pan_direction(north: bool, west: bool, south: bool, east: bool, control_held: bool) -> (pull: (i8, i8))
    ensures
        pull.0 == (if east && !control_held { 1int } else { 0int }) - (if west && !control_held { 1int } else { 0int }),
        pull.1 == (if north && !control_held { 1int } else { 0int }) - (if south && !control_held { 1int } else { 0int }),
{
    let n = north && !control_held;
    let w = west && !control_held;
    let s = south && !control_held;
    let e = east && !control_held;
    let x_pull: i8 = (if e { 1i8 } else { 0i8 }) - (if w { 1i8 } else { 0i8 });
    let y_pull: i8 = (if n { 1i8 } else { 0i8 }) - (if s { 1i8 } else { 0i8 });
    (x_pull, y_pull)
}

/// Forgets the pressed node once the left mouse button is up. `S` is when the
/// node was pressed.
pub fn release_pressed_node<S>(pressed: &mut Option<(Ent, S)>, left_held: bool)
    ensures
        *final(pressed) == (if left_held { *old(pressed) } else { None }),
{
    if !left_held {
        *pressed = None;
    }
}

/// The start of the ruler: set to the cursor `cursor` when the ruler key has just
/// been pressed, dropped while the key is up, kept otherwise. `P` is a point.
pub fn update_ruler_start<P>(start: &mut Option<P>, key_just_pressed: bool, key_held: bool, cursor: P)
    ensures
        *final(start) == (if !key_held {
            None
        } else if key_just_pressed {
            Some(cursor)
        } else {
            *old(start)
        }),
{
    if key_just_pressed {
        *start = Some(cursor);
    }
    if !key_held {
        *start = None;
    }
}

/// Asks for a redraw of the chunk under the cursor: a `ChunkUpdate` of its
/// identifier when a chunk is filed there, then a `RedrawTile` of the position.
pub fn request_chunk_redraw<T>(world: &World<T>, events: &mut EventBus<TrainEvent>, hovered_chunk: Option<ChunkIndex>)
    ensures
        final(events)@ == (match hovered_chunk {
            None => old(events)@,
            Some(idx) => if world@.ids.contains_key(idx.spec_key()) {
                old(events)@.push(TrainEvent::ChunkUpdate(world@.ids[idx.spec_key()])).push(
                    TrainEvent::RedrawTile(idx),
                )
            } else {
                old(events)@.push(TrainEvent::RedrawTile(idx))
            },
        }),
{
    proof { world.lemma_view(); }
    if let Some(idx) = hovered_chunk {
        if let Some(id) = world.store.chunk_map.get(&idx.key()) {
            events.enqueue(TrainEvent::ChunkUpdate(*id));
        }
        events.enqueue(TrainEvent::RedrawTile(idx));
    }
}

/// Asks for new trees on the chunk under the cursor, and for its redraw.
pub fn request_tree_regen(events: &mut EventBus<TrainEvent>, hovered_chunk: Option<ChunkIndex>)
    ensures
        final(events)@ == (match hovered_chunk {
            None => old(events)@,
            Some(idx) => old(events)@.push(TrainEvent::RegenerateTrees(idx)).push(
                TrainEvent::RedrawTile(idx),
            ),
        }),
{
    if let Some(idx) = hovered_chunk {
        events.enqueue(TrainEvent::RegenerateTrees(idx));
        events.enqueue(TrainEvent::RedrawTile(idx));
    }
}


proof fn lemma_filter_all_pass(s: Seq<Ent>, p: spec_fn(Ent) -> bool)
    requires
        forall|i: int| 0 <= i < s.len() ==> p(#[trigger] s[i]),
    ensures
        s.filter(p) == s,
    decreases s.len(),
{
    reveal(Seq::filter);
    if s.len() > 0 {
        lemma_filter_all_pass(s.drop_last(), p);
        assert(s.drop_last().push(s.last()) =~= s);
    }
}

proof fn lemma_filter_push_other(s: Seq<Ent>, id: Ent)
    ensures
        s.push(id).filter(other_than(id)) == s.filter(other_than(id)),
{
    reveal(Seq::filter);
    assert(s.push(id).drop_last() =~= s);
}

/// What a left click does to the selection, whatever was selected before. Over a
/// track or a car it selects exactly that; over nothing it clears the selection.
/// Over a node: when no nodes were selected (nothing, a track or a car was), it
/// selects exactly that node. When nodes were selected, a plain click selects
/// the node alone, or nothing when it was among them; a shift-click puts it after
/// the selected nodes when it was not among them, and otherwise takes it out and
/// keeps the other nodes in their order.
pub proof fn law_click_selection<L>(selected: Option<SelectionView<L>>, loc: L, id: Ent, shift: bool)
    ensures
        selection_after_click(selected, Some(HoveredEntity::Track(loc)), shift) == Some(SelectionView::<L>::Track(loc)),
        selection_after_click(selected, Some(HoveredEntity::Car(id)), shift) == Some(SelectionView::<L>::Car(id)),
        selection_after_click(selected, None, shift) == None::<SelectionView<L>>,
        !(selected matches Some(SelectionView::Nodes(_))) ==> selection_after_click(
            selected,
            Some(HoveredEntity::Node(id)),
            shift,
        ) == Some(SelectionView::<L>::Nodes(seq![id])),
        selected matches Some(SelectionView::Nodes(v)) ==> {
            let after = selection_after_click(selected, Some(HoveredEntity::Node(id)), shift);
            &&& !shift && !v.contains(id) ==> after == Some(SelectionView::<L>::Nodes(seq![id]))
            &&& !shift && v.contains(id) ==> after == Some(SelectionView::<L>::Nodes(Seq::empty()))
            &&& shift && !v.contains(id) ==> after == Some(SelectionView::<L>::Nodes(v.push(id)))
            &&& shift && v.contains(id) ==> after == Some(
                SelectionView::<L>::Nodes(v.filter(|d: Ent| d != id)),
            )
        },
{
    if let Some(SelectionView::Nodes(v)) = selected {
        assert(other_than(id) =~= (|d: Ent| d != id));
    }
}

/// A selection is read off as it stands: the track or car selected, or the
/// selected nodes in their order.
pub proof fn law_selection_view_reads_selection<L>(e: SelectedEntity<L>)
    ensures
        selection_view(None::<SelectedEntity<L>>) == None::<SelectionView<L>>,
        e matches SelectedEntity::Track(loc) ==> selection_view(Some(e)) == Some(SelectionView::<L>::Track(loc)),
        e matches SelectedEntity::Car(c) ==> selection_view(Some(e)) == Some(SelectionView::<L>::Car(c)),
        e matches SelectedEntity::Nodes(v) ==> selection_view(Some(e)) == Some(SelectionView::<L>::Nodes(v@)),
{
}

/// A shift-click on a node flips whether it is selected: it joins the selection
/// when it was not in it, and leaves it when it was. Two shift-clicks on a node
/// that was not selected give back the selection as it was.
pub proof fn law_shift_click_toggles(nodes: Seq<Ent>, id: Ent)
    ensures
        toggle_node(nodes, id, true).contains(id) == !nodes.contains(id),
        !nodes.contains(id) ==> toggle_node(toggle_node(nodes, id, true), id, true) == nodes,
{
    let p = other_than(id);
    if nodes.contains(id) {
        let f = nodes.filter(p);
        if f.contains(id) {
            let i = choose|i: int| 0 <= i < f.len() && f[i] == id;
            nodes.lemma_filter_pred(p, i);
        }
    } else {
        let t = nodes.push(id);
        assert(t[nodes.len() as int] == id);
        assert(t.contains(id));
        lemma_filter_push_other(nodes, id);
        assert forall|i: int| 0 <= i < nodes.len() implies p(#[trigger] nodes[i]) by {
            if nodes[i] == id {
                assert(nodes.contains(id));
            }
        }
        lemma_filter_all_pass(nodes, p);
    }
}

/// A click without shift on a node selects that node alone, unless it was
/// selected, in which case the selection becomes empty.
pub proof fn law_plain_click_selects_alone(nodes: Seq<Ent>, id: Ent)
    ensures
        !nodes.contains(id) ==> toggle_node(nodes, id, false) == seq![id],
        nodes.contains(id) ==> toggle_node(nodes, id, false).len() == 0,
{
}

} // verus!
