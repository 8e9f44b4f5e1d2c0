use vstd::prelude::*;

use std::collections::BTreeSet;

use crate::entity::Ent;
use crate::event_bus::{EventBus, TrainEvent};
use crate::world::{ChunkStore, World};

verus! {

/// The position of a terrain chunk on the grid of chunks.
#[derive(Debug, Clone, Copy, PartialEq, Eq, Structural, Ord, Hash)]
pub struct ChunkIndex {
    pub x: i32,
    pub y: i32,
}

/// The key under which a chunk is filed: its grid position as a pair, ordered
/// first by `x`, then by `y`.
pub type ChunkKey = (i32, i32);

impl ChunkIndex {
    pub open spec fn spec_key(self) -> ChunkKey {
        (self.x, self.y)
    }

    pub open spec fn from_key(k: ChunkKey) -> ChunkIndex {
        ChunkIndex { x: k.0, y: k.1 }
    }

    pub fn new(x: i32, y: i32) -> (c: ChunkIndex)
        ensures
            c.x == x,
            c.y == y,
    {
        ChunkIndex { x, y }
    }

    /// The grid position as an `(x, y)` pair.
    pub fn as_ivec2(&self) -> (v: (i32, i32))
        ensures
            v == self.spec_key(),
    {
        (self.x, self.y)
    }

    pub fn key(&self) -> (k: ChunkKey)
        ensures
            k == self.spec_key(),
    {
        (self.x, self.y)
    }
}

/// What a terrain chunk holds, as mathematical values.
pub struct ChunkView<T> {
    pub index: ChunkIndex,
    pub tracks: Set<Ent>,
    pub nodes: Set<Ent>,
    pub trees: Seq<T>,
    pub terrain_mesh: Option<Ent>,
    pub tree_mesh: Option<Ent>,
}

impl<T> ChunkView<T> {
    /// A chunk just spawned at `index`: nothing registered on it, no trees, no meshes.
    pub open spec fn fresh(index: ChunkIndex) -> ChunkView<T> {
        ChunkView {
            index,
            tracks: Set::empty(),
            nodes: Set::empty(),
            trees: Seq::empty(),
            terrain_mesh: None,
            tree_mesh: None,
        }
    }

    /// No track and no node is registered on the chunk.
    pub open spec fn is_empty(self) -> bool {
        self.tracks.is_empty() && self.nodes.is_empty()
    }

    pub open spec fn with_tracks(self, tracks: Set<Ent>) -> ChunkView<T> {
        ChunkView { tracks, ..self }
    }

    pub open spec fn with_nodes(self, nodes: Set<Ent>) -> ChunkView<T> {
        ChunkView { nodes, ..self }
    }

    pub open spec fn with_trees(self, trees: Seq<T>) -> ChunkView<T> {
        ChunkView { trees, ..self }
    }

    /// The chunk once its terrain mesh is `terrain_mesh` and, when `tree_mesh`
    /// is given, its tree mesh is that one.
    pub open spec fn with_meshes(self, terrain_mesh: Ent, tree_mesh: Option<Ent>) -> ChunkView<T> {
        ChunkView {
            terrain_mesh: Some(terrain_mesh),
            tree_mesh: if tree_mesh is Some { tree_mesh } else { self.tree_mesh },
            ..self
        }
    }
}

/// One square of the terrain grid, with the tracks and nodes that pass through it,
/// its trees and the meshes drawn for it.
#[derive(Debug, Clone)]
pub struct TerrainChunk<T> {
    pub index: ChunkIndex,
    pub tracks: BTreeSet<Ent>,
    pub nodes: BTreeSet<Ent>,
    pub trees: Vec<T>,
    pub terrain_mesh: Option<Ent>,
    pub tree_mesh: Option<Ent>,
}

impl<T> View for TerrainChunk<T> {
    type V = ChunkView<T>;

    open spec fn view(&self) -> ChunkView<T> {
        ChunkView {
            index: self.index,
            tracks: self.tracks@,
            nodes: self.nodes@,
            trees: self.trees@,
            terrain_mesh: self.terrain_mesh,
            tree_mesh: self.tree_mesh,
        }
    }
}

impl<T> TerrainChunk<T> {
    pub fn new(index: ChunkIndex) -> (c: Self)
        ensures
            c@ == ChunkView::<T>::fresh(index),
    {
        let c = TerrainChunk {
            index,
            tracks: BTreeSet::new(),
            nodes: BTreeSet::new(),
            trees: Vec::new(),
            terrain_mesh: None,
            tree_mesh: None,
        };
        assert(c@ =~= ChunkView::<T>::fresh(index));
        c
    }

    pub fn index(&self) -> (i: ChunkIndex)
        ensures
            i == self@.index,
    {
        self.index
    }

    pub fn add_track(&mut self, track_id: Ent)
        ensures
            final(self)@ == old(self)@.with_tracks(old(self)@.tracks.insert(track_id)),
    {
        self.tracks.insert(track_id);
    }

    pub fn add_node(&mut self, node_id: Ent)
        ensures
            final(self)@ == old(self)@.with_nodes(old(self)@.nodes.insert(node_id)),
    {
        self.nodes.insert(node_id);
    }

    pub fn remove_track(&mut self, track_id: Ent)
        ensures
            final(self)@ == old(self)@.with_tracks(old(self)@.tracks.remove(track_id)),
    {
        self.tracks.remove(&track_id);
    }

    pub fn remove_node(&mut self, node_id: Ent)
        ensures
            final(self)@ == old(self)@.with_nodes(old(self)@.nodes.remove(node_id)),
    {
        self.nodes.remove(&node_id);
    }

    pub fn nodes(&self) -> (n: &BTreeSet<Ent>)
        ensures
            n@ == self@.nodes,
    {
        &self.nodes
    }

    pub fn tracks(&self) -> (t: &BTreeSet<Ent>)
        ensures
            t@ == self@.tracks,
    {
        &self.tracks
    }

    pub fn is_empty(&self) -> (b: bool)
        ensures
            b == self@.is_empty(),
    {
        let b = self.nodes.is_empty() && self.tracks.is_empty();
        proof {
            if !b {
                if !self.nodes@.is_empty() {
                    let n = self.nodes@.choose();
                    assert(self.nodes@.contains(n));
                } else {
                    let t = self.tracks@.choose();
                    assert(self.tracks@.contains(t));
                }
            }
        }
        b
    }
}


/// Spawns an empty chunk at `index`, unless one is there already; returns the
/// new chunk's identifier, or `None` when the position was taken.
pub(crate) fn store_spawn_chunk<T>(
    world: &mut ChunkStore<T>,
    index: ChunkIndex,
) -> (r: Option<Ent>)
    requires
        old(world).chunks_wf(),
        !old(world).chunk_map@.contains_key(index.spec_key()) ==> old(world).spawner.next_id() < u64::MAX,
    ensures
        final(world).chunks_wf(),
        old(world).chunk_map@.contains_key(index.spec_key()) ==> r is None && *final(world)
            == *old(world),
        !old(world).chunk_map@.contains_key(index.spec_key()) ==> {
            &&& r == Some(old(world).spawner.next_id() as Ent)
            &&& final(world).spawner.next_id() == old(world).spawner.next_id() + 1
            &&& final(world).chunk_map@ == old(world).chunk_map@.insert(
                index.spec_key(),
                old(world).spawner.next_id() as Ent,
            )
            &&& final(world).terrain() == old(world).terrain().insert(
                index.spec_key(),
                ChunkView::fresh(index),
            )
        },
{
    let key = index.key();
    if world.chunk_map.contains_key(&key) {
        return None;
    }
    let chunk = TerrainChunk::new(index);
    let ghost w0 = *world;
    let id = world.spawner.spawn();
    assert(!w0.chunks@.contains_key(id));
    world.chunks.insert(id, chunk);
    world.chunk_map.insert(key, id);
    proof {
        assert forall|k: ChunkKey| #[trigger] world.chunk_map@.contains_key(k) implies {
            &&& world.chunks@.contains_key(world.chunk_map@[k])
            &&& world.chunks@[world.chunk_map@[k]]@.index.spec_key() == k
        } by {
            if k != key {
                assert(w0.chunk_map@.contains_key(k));
                assert(w0.chunk_map@[k] != id);
            }
        }
        assert forall|i: Ent| #[trigger] world.chunks@.contains_key(i) implies i < world.spawner.next_id() by {
            if i != id {
                assert(w0.chunks@.contains_key(i));
            }
        }
        assert(world.terrain() =~= w0.terrain().insert(key, ChunkView::fresh(index)));
    }
    Some(id)
}


/// The grid positions within two chunks of `index` along both axes: the five by
/// five block that `ensure_chunk_exists` fills.
pub open spec fn in_block(index: ChunkIndex, k: ChunkKey) -> bool {
    &&& index.x - 2 <= k.0 <= index.x + 2
    &&& index.y - 2 <= k.1 <= index.y + 2
}

/// Where `k` comes in the order in which the block around `index` is visited:
/// column by column from the lowest `x`, and within a column from the lowest `y`.
pub open spec fn block_rank(index: ChunkIndex, k: ChunkKey) -> int {
    5 * (k.0 - index.x + 2) + (k.1 - index.y + 2)
}

/// `terrain` with a fresh chunk added at each position of the block around `index`
/// whose rank is below `n` and that holds no chunk yet.
pub open spec fn with_block_prefix<T>(
    terrain: Map<ChunkKey, ChunkView<T>>,
    index: ChunkIndex,
    n: int,
) -> Map<ChunkKey, ChunkView<T>> {
    Map::new(
        |k: ChunkKey| terrain.contains_key(k) || (in_block(index, k) && block_rank(index, k) < n),
        |k: ChunkKey|
            if terrain.contains_key(k) {
                terrain[k]
            } else {
                ChunkView::fresh(ChunkIndex::from_key(k))
            },
    )
}

/// `terrain` with a fresh chunk at each position of the block around `index`
/// that holds no chunk yet.
pub open spec fn with_block<T>(terrain: Map<ChunkKey, ChunkView<T>>, index: ChunkIndex) -> Map<
    ChunkKey,
    ChunkView<T>,
> {
    with_block_prefix(terrain, index, 25)
}

/// Every position of the block around `index` holds a chunk.
pub open spec fn block_present<T>(terrain: Map<ChunkKey, ChunkView<T>>, index: ChunkIndex) -> bool {
    forall|k: ChunkKey| in_block(index, k) ==> #[trigger] terrain.contains_key(k)
}

/// The position of rank `r` in the block around `index`.
pub open spec fn block_key(index: ChunkIndex, r: int) -> ChunkKey {
    ((index.x + r / 5 - 2) as i32, (index.y + r % 5 - 2) as i32)
}

/// How many positions of rank below `r` in the block around `index` have no
/// chunk filed in `ids`.
pub open spec fn missing_before(ids: Map<ChunkKey, Ent>, index: ChunkIndex, r: int) -> nat
    decreases r,
{
    if r <= 0 {
        0
    } else {
        missing_before(ids, index, r - 1) + if ids.contains_key(block_key(index, r - 1)) {
            0nat
        } else {
            1nat
        }
    }
}

/// More ranks never have fewer missing positions.
proof fn lemma_missing_monotone(ids: Map<ChunkKey, Ent>, index: ChunkIndex, a: int, b: int)
    requires
        a <= b,
    ensures
        missing_before(ids, index, a) <= missing_before(ids, index, b),
    decreases b - a,
{
    if a < b {
        lemma_missing_monotone(ids, index, a, b - 1);
    }
}

/// Filling the block around `index` spawns at most one chunk per position of
/// the block: at most twenty-five.
pub proof fn law_fill_spawns_at_most_block(ids: Map<ChunkKey, Ent>, index: ChunkIndex)
    ensures
        missing_before(ids, index, 25) <= 25,
{
    lemma_missing_at_most(ids, index, 25);
}

proof fn lemma_missing_at_most(ids: Map<ChunkKey, Ent>, index: ChunkIndex, r: int)
    requires
        r >= 0,
    ensures
        missing_before(ids, index, r) <= r,
    decreases r,
{
    if r > 0 {
        lemma_missing_at_most(ids, index, r - 1);
    }
}

/// The chunk identifiers by position once the positions of rank below `n` in the
/// block around `index` are filled: the filed ones keep their identifiers, and
/// the missing ones are numbered from `next` on, in the order of their ranks.
pub open spec fn ids_after_fill(
    ids: Map<ChunkKey, Ent>,
    next: nat,
    index: ChunkIndex,
    n: int,
) -> Map<ChunkKey, Ent> {
    Map::new(
        |k: ChunkKey| ids.contains_key(k) || (in_block(index, k) && block_rank(index, k) < n),
        |k: ChunkKey|
            if ids.contains_key(k) {
                ids[k]
            } else {
                (next + missing_before(ids, index, block_rank(index, k))) as Ent
            },
    )
}

/// The block around `index` fits in the range of `i32`.
pub open spec fn block_fits(index: ChunkIndex) -> bool {
    &&& i32::MIN + 2 <= index.x <= i32::MAX - 2
    &&& i32::MIN + 2 <= index.y <= i32::MAX - 2
}

/// Makes sure that a chunk exists at every position within two chunks of `index`,
/// spawning the missing ones in column order; existing chunks keep their
/// identifiers and contents.
pub(crate) fn store_fill_block<T>(world: &mut ChunkStore<T>, index: ChunkIndex)
    requires
        old(world).chunks_wf(),
        old(world).spawner.next_id() + missing_before(old(world).chunk_map@, index, 25) <= u64::MAX,
        block_fits(index),
    ensures
        final(world).chunks_wf(),
        final(world).terrain() == with_block(old(world).terrain(), index),
        final(world).chunk_map@ == ids_after_fill(
            old(world).chunk_map@,
            old(world).spawner.next_id(),
            index,
            25,
        ),
        final(world).spawner.next_id() == old(world).spawner.next_id() + missing_before(
            old(world).chunk_map@,
            index,
            25,
        ),
        final(world).spawner.next_id() <= old(world).spawner.next_id() + 25,
        block_present(old(world).terrain(), index) ==> *final(world) == *old(world),
{
    let ghost w0 = *world;
    let mut i: u32 = 0;
    proof {
        assert(with_block_prefix(w0.terrain(), index, 0) =~= w0.terrain());
        assert(ids_after_fill(w0.chunk_map@, w0.spawner.next_id(), index, 0) =~= w0.chunk_map@);
    }
    while i < 25
        invariant
            0 <= i <= 25,
            block_fits(index),
            w0.chunks_wf(),
            w0.spawner.next_id() + missing_before(w0.chunk_map@, index, 25) <= u64::MAX,
            world.chunks_wf(),
            world.terrain() == with_block_prefix(w0.terrain(), index, i as int),
            world.chunk_map@ == ids_after_fill(w0.chunk_map@, w0.spawner.next_id(), index, i as int),
            world.spawner.next_id() == w0.spawner.next_id() + missing_before(w0.chunk_map@, index, i as int),
            missing_before(w0.chunk_map@, index, i as int) <= i,
            block_present(w0.terrain(), index) ==> *world == w0,
        decreases 25 - i,
    {
        let dx: i32 = (i / 5) as i32 - 2;
        let dy: i32 = (i % 5) as i32 - 2;
        let idx = ChunkIndex::new(index.x + dx, index.y + dy);
        let ghost key = idx.spec_key();
        let ghost before = world.terrain();
        assert(in_block(index, key));
        assert(block_rank(index, key) == i);
        assert(key == block_key(index, i as int));
        let ghost ids_before = world.chunk_map@;
        proof {
            if block_present(w0.terrain(), index) {
                assert(w0.terrain().contains_key(key));
            }
            lemma_missing_monotone(w0.chunk_map@, index, i + 1, 25);
            assert(missing_before(w0.chunk_map@, index, i + 1) == missing_before(w0.chunk_map@, index, i as int)
                + if w0.chunk_map@.contains_key(key) { 0nat } else { 1nat });
        }
        store_spawn_chunk(world, idx);
        proof {
            assert forall|k: ChunkKey|
                in_block(index, k) && block_rank(index, k) < i + 1 && block_rank(index, k) != i
                implies block_rank(index, k) < i by {}
            assert forall|k: ChunkKey|
                in_block(index, k) && block_rank(index, k) == i implies k == key by {
                assert(k.0 - index.x + 2 == i / 5);
            }
            assert(world.terrain() =~= with_block_prefix(w0.terrain(), index, i + 1));
            assert(missing_before(w0.chunk_map@, index, i + 1) == missing_before(w0.chunk_map@, index, i as int)
                + if w0.chunk_map@.contains_key(key) { 0nat } else { 1nat });
            assert(world.chunk_map@ =~= ids_after_fill(w0.chunk_map@, w0.spawner.next_id(), index, i + 1));
        }
        i = i + 1;
    }
}


/// A change made to one chunk in place.
enum ChunkEdit<T> {
    AddTrack(Ent),
    AddNode(Ent),
    RemoveTrack(Ent),
    RemoveNode(Ent),
    SetTrees(Vec<T>),
    SetMeshes(Ent, Option<Ent>),
}

spec fn apply_edit<T>(v: ChunkView<T>, e: ChunkEdit<T>) -> ChunkView<T> {
    match e {
        ChunkEdit::AddTrack(t) => v.with_tracks(v.tracks.insert(t)),
        ChunkEdit::AddNode(n) => v.with_nodes(v.nodes.insert(n)),
        ChunkEdit::RemoveTrack(t) => v.with_tracks(v.tracks.remove(t)),
        ChunkEdit::RemoveNode(n) => v.with_nodes(v.nodes.remove(n)),
        ChunkEdit::SetTrees(trees) => v.with_trees(trees@),
        ChunkEdit::SetMeshes(t, m) => v.with_meshes(t, m),
    }
}

/// Applies `edit` to the chunk filed at `key`; `None` when there is none.
fn edit_chunk<T>(world: &mut ChunkStore<T>, key: ChunkKey, edit: ChunkEdit<T>) -> (r: Option<()>)
    requires
        old(world).chunks_wf(),
    ensures
        final(world).chunks_wf(),
        final(world).chunk_map@ == old(world).chunk_map@,
        final(world).spawner == old(world).spawner,
        r is None <==> !old(world).terrain().contains_key(key),
        r is None ==> *final(world) == *old(world),
        r is Some ==> final(world).terrain() == old(world).terrain().insert(
            key,
            apply_edit(old(world).terrain()[key], edit),
        ),
{
    let chunk_id = match world.chunk_map.get(&key) {
        Some(id) => *id,
        None => return None,
    };
    let ghost w0 = *world;
    let mut chunk = match world.chunks.remove(&chunk_id) {
        Some(c) => c,
        None => return None,
    };
    let ghost c0 = chunk@;
    match edit {
        ChunkEdit::AddTrack(t) => chunk.add_track(t),
        ChunkEdit::AddNode(n) => chunk.add_node(n),
        ChunkEdit::RemoveTrack(t) => chunk.remove_track(t),
        ChunkEdit::RemoveNode(n) => chunk.remove_node(n),
        ChunkEdit::SetTrees(trees) => {
            chunk.trees = trees;
            assert(chunk@ =~= c0.with_trees(chunk.trees@));
        },
        ChunkEdit::SetMeshes(t, m) => {
            chunk.terrain_mesh = Some(t);
            if m.is_some() {
                chunk.tree_mesh = m;
            }
            assert(chunk@ =~= c0.with_meshes(t, m));
        },
    }
    world.chunks.insert(chunk_id, chunk);
    proof {
        assert forall|k: ChunkKey| #[trigger] w0.chunk_map@.contains_key(k) && k != key implies w0.chunk_map@[k]
            != chunk_id by {}
        assert(world.terrain() =~= w0.terrain().insert(key, apply_edit(w0.terrain()[key], edit)));
    }
    Some(())
}

/// Registers `track_id` on the chunk at `index`, first making sure that the block
/// of chunks around `index` exists.
pub(crate) fn store_register_track<T>(
    world: &mut ChunkStore<T>,
    index: ChunkIndex,
    track_id: Ent,
) -> (r: Option<()>)
    requires
        old(world).chunks_wf(),
        old(world).spawner.next_id() + missing_before(old(world).chunk_map@, index, 25) <= u64::MAX,
        block_fits(index),
    ensures
        r == Some(()),
        final(world).chunks_wf(),
        ({
            let grown = with_block(old(world).terrain(), index);
            let c = grown[index.spec_key()];
            final(world).terrain() == grown.insert(index.spec_key(), c.with_tracks(c.tracks.insert(track_id)))
        }),
        final(world).chunk_map@ == ids_after_fill(
            old(world).chunk_map@,
            old(world).spawner.next_id(),
            index,
            25,
        ),
        final(world).spawner.next_id() == old(world).spawner.next_id() + missing_before(
            old(world).chunk_map@,
            index,
            25,
        ),
{
    store_fill_block(world, index);
    assert(in_block(index, index.spec_key()));
    edit_chunk(world, index.key(), ChunkEdit::AddTrack(track_id))
}

/// Registers `node_id` on the chunk at `index`, first making sure that the block
/// of chunks around `index` exists.
pub(crate) fn store_register_node<T>(
    world: &mut ChunkStore<T>,
    index: ChunkIndex,
    node_id: Ent,
) -> (r: Option<()>)
    requires
        old(world).chunks_wf(),
        old(world).spawner.next_id() + missing_before(old(world).chunk_map@, index, 25) <= u64::MAX,
        block_fits(index),
    ensures
        r == Some(()),
        final(world).chunks_wf(),
        ({
            let grown = with_block(old(world).terrain(), index);
            let c = grown[index.spec_key()];
            final(world).terrain() == grown.insert(index.spec_key(), c.with_nodes(c.nodes.insert(node_id)))
        }),
        final(world).chunk_map@ == ids_after_fill(
            old(world).chunk_map@,
            old(world).spawner.next_id(),
            index,
            25,
        ),
        final(world).spawner.next_id() == old(world).spawner.next_id() + missing_before(
            old(world).chunk_map@,
            index,
            25,
        ),
{
    store_fill_block(world, index);
    assert(in_block(index, index.spec_key()));
    edit_chunk(world, index.key(), ChunkEdit::AddNode(node_id))
}

/// Takes `track_id` off the chunk at `index`; `None` when no chunk is there.
pub(crate) fn store_deregister_track<T>(world: &mut ChunkStore<T>, index: ChunkIndex, track_id: Ent) -> (r: Option<()>)
    requires
        old(world).chunks_wf(),
    ensures
        final(world).chunks_wf(),
        r is None <==> !old(world).terrain().contains_key(index.spec_key()),
        r is None ==> *final(world) == *old(world),
        r is Some ==> {
            let c = old(world).terrain()[index.spec_key()];
            &&& final(world).terrain() == old(world).terrain().insert(
                index.spec_key(),
                c.with_tracks(c.tracks.remove(track_id)),
            )
            &&& final(world).chunk_map@ == old(world).chunk_map@
            &&& final(world).spawner == old(world).spawner
        },
{
    edit_chunk(world, index.key(), ChunkEdit::RemoveTrack(track_id))
}

/// Takes `node_id` off the chunk at `index`; `None` when no chunk is there.
pub(crate) fn store_deregister_node<T>(world: &mut ChunkStore<T>, index: ChunkIndex, node_id: Ent) -> (r: Option<()>)
    requires
        old(world).chunks_wf(),
    ensures
        final(world).chunks_wf(),
        r is None <==> !old(world).terrain().contains_key(index.spec_key()),
        r is None ==> *final(world) == *old(world),
        r is Some ==> {
            let c = old(world).terrain()[index.spec_key()];
            &&& final(world).terrain() == old(world).terrain().insert(
                index.spec_key(),
                c.with_nodes(c.nodes.remove(node_id)),
            )
            &&& final(world).chunk_map@ == old(world).chunk_map@
            &&& final(world).spawner == old(world).spawner
        },
{
    edit_chunk(world, index.key(), ChunkEdit::RemoveNode(node_id))
}

/// Whether the chunk at `index` exists and has no trees yet.
pub(crate) fn store_needs_trees<T>(world: &ChunkStore<T>, index: ChunkIndex) -> (b: bool)
    requires
        world.chunks_wf(),
    ensures
        b == (world.terrain().contains_key(index.spec_key()) && world.terrain()[index.spec_key()].trees.len()
            == 0),
{
    match world.chunk_map.get(&index.key()) {
        Some(id) => match world.chunks.get(id) {
            Some(chunk) => chunk.trees.len() == 0,
            None => false,
        },
        None => false,
    }
}

/// Gives the chunk at `index` the trees `trees`, unless it has trees already;
/// `None` when no chunk is there.
pub(crate) fn store_regenerate_trees<T>(world: &mut ChunkStore<T>, index: ChunkIndex, trees: Vec<T>) -> (r: Option<()>)
    requires
        old(world).chunks_wf(),
    ensures
        final(world).chunks_wf(),
        r is None <==> !old(world).terrain().contains_key(index.spec_key()),
        r is None ==> *final(world) == *old(world),
        r is Some && old(world).terrain()[index.spec_key()].trees.len() > 0 ==> *final(world) == *old(
            world,
        ),
        r is Some && old(world).terrain()[index.spec_key()].trees.len() == 0 ==> {
            &&& final(world).terrain() == old(world).terrain().insert(
                index.spec_key(),
                old(world).terrain()[index.spec_key()].with_trees(trees@),
            )
            &&& final(world).chunk_map@ == old(world).chunk_map@
            &&& final(world).spawner == old(world).spawner
        },
{
    let needs = match world.chunk_map.get(&index.key()) {
        Some(id) => match world.chunks.get(id) {
            Some(chunk) => chunk.trees.len() == 0,
            None => return None,
        },
        None => return None,
    };
    if !needs {
        return Some(());
    }
    edit_chunk(world, index.key(), ChunkEdit::SetTrees(trees))
}

/// The block around `index` is the five by five square of positions within two
/// chunks of it along each axis. Its positions are ranked from 0 to 24, column by
/// column from the west and from the south within a column: each position has its
/// own rank, and the position of a position's rank is that position.
pub proof fn law_block_ranks(index: ChunkIndex, k: ChunkKey, l: ChunkKey)
    ensures
        in_block(index, k) <==> (index.x - 2 <= k.0 <= index.x + 2 && index.y - 2 <= k.1 <= index.y + 2),
        in_block(index, k) ==> 0 <= block_rank(index, k) < 25 && block_key(index, block_rank(index, k)) == k,
        in_block(index, k) && in_block(index, l) && k != l ==> block_rank(index, k) != block_rank(index, l),
        in_block(index, k) && in_block(index, l) ==> (block_rank(index, k) < block_rank(index, l) <==> (k.0 < l.0
            || (k.0 == l.0 && k.1 < l.1))),
{
    if in_block(index, k) {
        lemma_block_key_of_rank(index, k);
    }
}

proof fn lemma_block_key_of_rank(index: ChunkIndex, k: ChunkKey)
    requires
        in_block(index, k),
    ensures
        0 <= block_rank(index, k) < 25,
        block_key(index, block_rank(index, k)) == k,
{
    let a = k.0 - index.x + 2;
    let b = k.1 - index.y + 2;
    vstd::arithmetic::div_mod::lemma_fundamental_div_mod_converse(block_rank(index, k), 5, a, b);
}

/// How the block fill numbers the chunks it spawns: the positions that were filed
/// keep their identifiers; every position of the block is filed afterwards and
/// nothing else is; each new position gets an identifier from `next` on, below
/// `next` plus the number of positions that were missing; and new positions are
/// numbered in the order of their ranks, so no two share an identifier.
pub proof fn law_fill_numbering(ids: Map<ChunkKey, Ent>, next: nat, index: ChunkIndex)
    requires
        next + missing_before(ids, index, 25) <= u64::MAX,
    ensures
        forall|k: ChunkKey| #[trigger]
            ids.contains_key(k) ==> ids_after_fill(ids, next, index, 25).contains_key(k) && ids_after_fill(
                ids,
                next,
                index,
                25,
            )[k] == ids[k],
        forall|k: ChunkKey| #[trigger]
            ids_after_fill(ids, next, index, 25).contains_key(k) <==> (ids.contains_key(k) || in_block(index, k)),
        forall|k: ChunkKey|
            in_block(index, k) && !ids.contains_key(k) ==> next <= #[trigger] ids_after_fill(ids, next, index, 25)[k]
                < next + missing_before(ids, index, 25),
        forall|k: ChunkKey, l: ChunkKey|
            in_block(index, k) && !ids.contains_key(k) && in_block(index, l) && !ids.contains_key(l) && block_rank(
                index,
                k,
            ) < block_rank(index, l) ==> #[trigger] ids_after_fill(ids, next, index, 25)[k]
                < #[trigger] ids_after_fill(ids, next, index, 25)[l],
{
    let m = ids_after_fill(ids, next, index, 25);
    assert forall|k: ChunkKey| #[trigger] m.contains_key(k) <==> (ids.contains_key(k) || in_block(index, k)) by {
        if in_block(index, k) {
            lemma_block_key_of_rank(index, k);
        }
    }
    assert forall|k: ChunkKey| in_block(index, k) && !ids.contains_key(k) implies next <= #[trigger] m[k]
        < next + missing_before(ids, index, 25) by {
        lemma_block_key_of_rank(index, k);
        let r = block_rank(index, k);
        lemma_missing_monotone(ids, index, r + 1, 25);
        lemma_missing_monotone(ids, index, 0, r);
        assert(missing_before(ids, index, r + 1) == missing_before(ids, index, r) + 1);
    }
    assert forall|k: ChunkKey, l: ChunkKey|
        in_block(index, k) && !ids.contains_key(k) && in_block(index, l) && !ids.contains_key(l) && block_rank(
            index,
            k,
        ) < block_rank(index, l) implies #[trigger] m[k] < #[trigger] m[l] by {
        lemma_block_key_of_rank(index, k);
        lemma_block_key_of_rank(index, l);
        let r = block_rank(index, k);
        let q = block_rank(index, l);
        lemma_missing_monotone(ids, index, r + 1, q);
        lemma_missing_monotone(ids, index, q + 1, 25);
        assert(missing_before(ids, index, r + 1) == missing_before(ids, index, r) + 1);
        assert(missing_before(ids, index, q + 1) == missing_before(ids, index, q) + 1);
    }
}

/// With no chunk filed, every position of the block is missing; with every
/// position of a block that fits in the range of `i32` filed, none is.
pub proof fn law_missing_counts_unfiled(ids: Map<ChunkKey, Ent>, index: ChunkIndex)
    ensures
        missing_before(Map::<ChunkKey, Ent>::empty(), index, 25) == 25,
        block_fits(index) && (forall|k: ChunkKey| in_block(index, k) ==> #[trigger] ids.contains_key(k))
            ==> missing_before(ids, index, 25) == 0,
{
    lemma_missing_none_filed(index, 25);
    if block_fits(index) && forall|k: ChunkKey| in_block(index, k) ==> #[trigger] ids.contains_key(k) {
        lemma_missing_all_filed(ids, index, 25);
    }
}

proof fn lemma_missing_none_filed(index: ChunkIndex, r: int)
    requires
        0 <= r,
    ensures
        missing_before(Map::<ChunkKey, Ent>::empty(), index, r) == r,
    decreases r,
{
    if r > 0 {
        lemma_missing_none_filed(index, r - 1);
    }
}

proof fn lemma_missing_all_filed(ids: Map<ChunkKey, Ent>, index: ChunkIndex, r: int)
    requires
        0 <= r <= 25,
        block_fits(index),
        forall|k: ChunkKey| in_block(index, k) ==> #[trigger] ids.contains_key(k),
    ensures
        missing_before(ids, index, r) == 0,
    decreases r,
{
    if r > 0 {
        lemma_missing_all_filed(ids, index, r - 1);
        let q = r - 1;
        let k = block_key(index, q);
        vstd::arithmetic::div_mod::lemma_fundamental_div_mod(q, 5);
        assert(0 <= q / 5 < 5);
        assert(0 <= q % 5 < 5);
        assert(in_block(index, k));
    }
}

/// The chunk identifiers by position once chunk `id`, which lies at `own`, is
/// despawned and position `index` is unfiled: `own` is unfiled too where it
/// files `id`.
pub open spec fn ids_after_removal(ids: Map<ChunkKey, Ent>, id: Ent, own: ChunkKey, index: ChunkIndex) -> Map<
    ChunkKey,
    Ent,
> {
    if ids.contains_key(own) && ids[own] == id {
        ids.remove(index.spec_key()).remove(own)
    } else {
        ids.remove(index.spec_key())
    }
}

/// After a removal, position `index` is not filed and no position files the
/// removed chunk; every other position keeps the chunk it filed.
pub proof fn law_removal_unfiles(ids: Map<ChunkKey, Ent>, id: Ent, own: ChunkKey, index: ChunkIndex)
    requires
        forall|k: ChunkKey| #[trigger] ids.contains_key(k) && ids[k] == id ==> k == own,
    ensures
        !ids_after_removal(ids, id, own, index).contains_key(index.spec_key()),
        forall|k: ChunkKey| #[trigger]
            ids_after_removal(ids, id, own, index).contains_key(k) ==> ids_after_removal(ids, id, own, index)[k] != id,
        forall|k: ChunkKey|
            ids.contains_key(k) && k != index.spec_key() && ids[k] != id ==> #[trigger] ids_after_removal(
                ids,
                id,
                own,
                index,
            ).contains_key(k) && ids_after_removal(ids, id, own, index)[k] == ids[k],
        forall|k: ChunkKey| #[trigger]
            ids_after_removal(ids, id, own, index).contains_key(k) ==> ids.contains_key(k),
{
}

/// A block fits in the range of `i32` exactly when every position within two
/// chunks of its centre along each axis does.
pub proof fn law_block_fits_means_in_range(index: ChunkIndex)
    ensures
        block_fits(index) <==> forall|d: int|
            -2 <= d <= 2 ==> i32::MIN <= #[trigger] (index.x + d) <= i32::MAX && i32::MIN <= index.y + d
                <= i32::MAX,
{
    if forall|d: int| -2 <= d <= 2 ==> i32::MIN <= #[trigger] (index.x + d) <= i32::MAX && i32::MIN <= index.y + d <= i32::MAX {
        assert(i32::MIN <= index.x + 2 <= i32::MAX && i32::MIN <= index.y + 2 <= i32::MAX);
        assert(i32::MIN <= index.x + (-2) <= i32::MAX && i32::MIN <= index.y + (-2) <= i32::MAX);
    }
}

/// A quad tile fits in the range of `i32` exactly when the neighbouring chunk it
/// reaches toward, along each axis, does.
pub proof fn law_quadtile_fits_means_in_range(root: ChunkIndex, west_half: bool, south_half: bool)
    ensures
        quadtile_fits(root, west_half, south_half) <==> {
            &&& i32::MIN <= root.x + (if west_half { -1int } else { 1int }) <= i32::MAX
            &&& i32::MIN <= root.y + (if south_half { -1int } else { 1int }) <= i32::MAX
        },
{
}

/// Despawns the chunk `id` when nothing is registered on it, and unfiles position
/// `index`. `None` when there is no chunk `id`.
pub(crate) fn store_remove_if_empty<T>(world: &mut ChunkStore<T>, id: Ent, index: ChunkIndex) -> (r: Option<()>)
    requires
        old(world).chunks_wf(),
    ensures
        final(world).chunks_wf(),
        r is None <==> !old(world).chunks@.contains_key(id),
        r is None || !old(world).chunks@[id]@.is_empty() ==> *final(world) == *old(world),
        r is Some && old(world).chunks@[id]@.is_empty() ==> {
            let own = old(world).chunks@[id]@.index.spec_key();
            &&& final(world).chunks@ == old(world).chunks@.remove(id)
            &&& final(world).chunk_map@ == ids_after_removal(old(world).chunk_map@, id, own, index)
            &&& final(world).spawner == old(world).spawner
            &&& final(world).terrain() == (if old(world).chunk_map@.contains_key(own) && old(world).chunk_map@[own]
                == id {
                old(world).terrain().remove(index.spec_key()).remove(own)
            } else {
                old(world).terrain().remove(index.spec_key())
            })
        },
{
    let (empty, own) = match world.chunks.get(&id) {
        Some(chunk) => (chunk.is_empty(), chunk.index().key()),
        None => return None,
    };
    if !empty {
        return Some(());
    }
    let ghost w0 = *world;
    let _ = world.chunks.remove(&id);
    world.chunk_map.remove(&index.key());
    let files_own = match world.chunk_map.get(&own) {
        Some(f) => *f == id,
        None => false,
    };
    if files_own {
        world.chunk_map.remove(&own);
    }
    proof {
        let own_filed = w0.chunk_map@.contains_key(own) && w0.chunk_map@[own] == id;
        assert(world.chunk_map@ =~= ids_after_removal(w0.chunk_map@, id, own, index));
        assert forall|k: ChunkKey| #[trigger] world.chunk_map@.contains_key(k) implies {
            &&& world.chunks@.contains_key(world.chunk_map@[k])
            &&& world.chunks@[world.chunk_map@[k]]@.index.spec_key() == k
        } by {
            assert(w0.chunk_map@.contains_key(k));
            if w0.chunk_map@[k] == id {
                assert(k == own);
            }
        }
        if own_filed {
            assert(world.terrain() =~= w0.terrain().remove(index.spec_key()).remove(own));
        } else {
            assert(world.terrain() =~= w0.terrain().remove(index.spec_key()));
        }
    }
    Some(())
}


/// The lower left chunk of the two by two block of chunks nearest to a point
/// that lies in chunk `root`: one chunk further west when the point is in the
/// west half of `root`, one chunk further south when it is in the south half.
pub open spec fn quadtile_base(root: ChunkIndex, west_half: bool, south_half: bool) -> ChunkIndex {
    ChunkIndex {
        x: if west_half { (root.x - 1) as i32 } else { root.x },
        y: if south_half { (root.y - 1) as i32 } else { root.y },
    }
}

/// The block around `root` fits in the range of `i32`.
pub open spec fn quadtile_fits(root: ChunkIndex, west_half: bool, south_half: bool) -> bool {
    &&& (if west_half { root.x > i32::MIN } else { root.x < i32::MAX })
    &&& (if south_half { root.y > i32::MIN } else { root.y < i32::MAX })
}

/// The four chunks nearest to a point in chunk `root`, whose halves the point
/// lies in are given: the block's lower left chunk, then the one east of it, the
/// one north of it and the one north-east of it.
pub fn quadtile(root: ChunkIndex, west_half: bool, south_half: bool) -> (q: [ChunkIndex; 4])
    requires
        quadtile_fits(root, west_half, south_half),
    ensures
        ({
            let b = quadtile_base(root, west_half, south_half);
            &&& q[0] == b
            &&& q[1] == ChunkIndex { x: (b.x + 1) as i32, y: b.y }
            &&& q[2] == ChunkIndex { x: b.x, y: (b.y + 1) as i32 }
            &&& q[3] == ChunkIndex { x: (b.x + 1) as i32, y: (b.y + 1) as i32 }
        }),
{
    let mut root = root;
    if west_half {
        root = ChunkIndex::new(root.x - 1, root.y);
    }
    if south_half {
        root = ChunkIndex::new(root.x, root.y - 1);
    }
    let b = ChunkIndex::new(root.x + 1, root.y);
    let c = ChunkIndex::new(root.x, root.y + 1);
    let d = ChunkIndex::new(root.x + 1, root.y + 1);
    [root, b, c, d]
}

/// The corners of the ground quad in column `x` and row `y` of a chunk's ground
/// plane of `n` by `n` quads, as vertex numbers: the corner `b = x + y (n + 1)`
/// and its neighbours, in the order `b + n + 1`, `b + n + 2`, `b + 1`, `b`.
pub open spec fn ground_quad(n: int, x: int, y: int) -> (u16, u16, u16, u16) {
    let b = x + y * (n + 1);
    ((b + n + 1) as u16, (b + n + 2) as u16, (b + 1) as u16, b as u16)
}

/// The quads of a chunk's ground plane of `n_quads` by `n_quads` quads, column by
/// column: quad `i` lies in column `i / n_quads` and row `i % n_quads`. Vertex
/// numbers are `u16`, so at most 255 quads a side fit.
pub fn ground_plane_quads(n_quads: u16) -> (quads: Vec<(u16, u16, u16, u16)>)
    requires
        n_quads <= 255,
    ensures
        quads@.len() == n_quads * n_quads,
        forall|i: int|
            0 <= i < quads@.len() ==> #[trigger] quads@[i] == ground_quad(n_quads as int, i / n_quads as int, i % n_quads as int),
{
    let n = n_quads;
    let mut quads: Vec<(u16, u16, u16, u16)> = Vec::new();
    let mut x: u16 = 0;
    while x < n
        invariant
            x <= n <= 255,
            quads@.len() == x * n,
            forall|i: int| 0 <= i < quads@.len() ==> #[trigger] quads@[i] == ground_quad(n as int, i / n as int, i % n as int),
        decreases n - x,
    {
        let mut y: u16 = 0;
        while y < n
            invariant
                x < n <= 255,
                y <= n,
                quads@.len() == x * n + y,
                forall|i: int| 0 <= i < quads@.len() ==> #[trigger] quads@[i] == ground_quad(n as int, i / n as int, i % n as int),
            decreases n - y,
        {
            let stride: u16 = n + 1;
            assert(y * stride <= 254 * 256) by (nonlinear_arith)
                requires
                    y < n <= 255,
                    stride == n + 1,
            ;
            assert(x + y * stride + stride + 1 <= 65535) by (nonlinear_arith)
                requires
                    x < n <= 255,
                    y < n,
                    stride == n + 1,
            ;
            let b: u16 = x + y * stride;
            let ghost i: int = quads@.len() as int;
            quads.push((b + stride, b + stride + 1, b + 1, b));
            proof {
                assert(i == x * n + y);
                vstd::arithmetic::div_mod::lemma_fundamental_div_mod_converse(i, n as int, x as int, y as int);
            }
            y = y + 1;
        }
        assert(x * n + n == (x + 1) * n) by (nonlinear_arith);
        x = x + 1;
    }
    quads
}

/// The quad tile reaches one chunk to the west of the point's chunk exactly when
/// the point is in the west half of it, and otherwise one chunk to the east;
/// likewise to the south or the north.
pub proof fn law_quadtile_leans_toward_point(root: ChunkIndex, west_half: bool, south_half: bool)
    requires
        quadtile_fits(root, west_half, south_half),
    ensures
        ({
            let b = quadtile_base(root, west_half, south_half);
            &&& west_half ==> b.x == root.x - 1
            &&& !west_half ==> b.x == root.x
            &&& south_half ==> b.y == root.y - 1
            &&& !south_half ==> b.y == root.y
        }),
{
}

/// Neighbouring corners of a ground quad are neighbouring vertices: the quad in
/// column `x` and row `y` has its corner `b` at `x + y (n + 1)`, the next vertex
/// `b + 1`, and the two vertices one stride of `n + 1` further; with at most 255
/// quads a side no number leaves the range of `u16`.
pub proof fn law_ground_quad_corners(n: int, x: int, y: int)
    requires
        0 <= n <= 255,
        0 <= x < n,
        0 <= y < n,
    ensures
        ({
            let (p4, p3, p2, p1) = ground_quad(n, x, y);
            &&& p1 == x + y * (n + 1)
            &&& p2 == p1 + 1
            &&& p4 == p1 + n + 1
            &&& p3 == p4 + 1
        }),
{
    assert(x + y * (n + 1) + n + 2 <= 65535) by (nonlinear_arith)
        requires
            0 <= n <= 255,
            0 <= x < n,
            0 <= y < n,
    ;
    assert(0 <= y * (n + 1)) by (nonlinear_arith)
        requires
            0 <= n,
            0 <= y,
    ;
}

/// The vertex numbers of the triangles of a tree mesh: two triangles for each of
/// `n_trees` trees, each on three vertices of its own, so the numbers count up
/// from zero. Vertex numbers are `u16`, so at most 10922 trees fit.
pub fn tree_mesh_indices(n_trees: usize) -> (indices: Vec<u16>)
    requires
        n_trees <= 10922,
    ensures
        indices@.len() == 6 * n_trees,
        forall|i: int| 0 <= i < indices@.len() ==> #[trigger] indices@[i] == i,
{
    let mut indices: Vec<u16> = Vec::new();
    let mut t: usize = 0;
    while t < 2 * n_trees
        invariant
            n_trees <= 10922,
            t <= 2 * n_trees,
            indices@.len() == 3 * t,
            forall|i: int| 0 <= i < indices@.len() ==> #[trigger] indices@[i] == i,
        decreases 2 * n_trees - t,
    {
        let root = indices.len() as u16;
        indices.push(root);
        indices.push(root + 1);
        indices.push(root + 2);
        t = t + 1;
    }
    indices
}

/// The chunk asked for by an event that asks to regrow a chunk's trees.
pub open spec fn regen_target_of(event: TrainEvent) -> Option<ChunkIndex> {
    match event {
        TrainEvent::RegenerateTrees(index) => Some(index),
        _ => None,
    }
}

/// The chunks whose trees a sequence of events asks to regrow, in the events' order.
pub open spec fn regen_targets(events: Seq<TrainEvent>) -> Seq<ChunkIndex> {
    events.filter_map(|e: TrainEvent| regen_target_of(e))
}

/// The chunks whose trees the events of a frame ask to regrow, in the events' order.
pub fn regen_tree_targets(events: &EventBus<TrainEvent>) -> (targets: Vec<ChunkIndex>)
    ensures
        targets@ == regen_targets(events@),
{
    let mut targets: Vec<ChunkIndex> = Vec::new();
    let n = events.len();
    let mut i: usize = 0;
    while i < n
        invariant
            n == events@.len(),
            i <= n,
            targets@ == regen_targets(events@.take(i as int)),
        decreases n - i,
    {
        let event = events.get(i);
        assert(events@.take(i + 1).drop_last() =~= events@.take(i as int));
        let ghost prev = targets@;
        if let TrainEvent::RegenerateTrees(index) = event {
            targets.push(*index);
            assert(targets@ =~= prev + seq![*index]);
        }
        i = i + 1;
    }
    assert(events@.take(n as int) =~= events@);
    targets
}


/// The regrowth targets of a frame follow its events one by one: no events ask
/// for nothing; a `RegenerateTrees` event of any position adds that same position,
/// and any other event adds nothing.
pub proof fn law_regen_targets_follow_events(events: Seq<TrainEvent>, e: TrainEvent)
    ensures
        regen_targets(Seq::empty()) == Seq::<ChunkIndex>::empty(),
        e matches TrainEvent::RegenerateTrees(index) ==> regen_targets(events.push(e)) == regen_targets(
            events,
        ).push(index),
        !(e is RegenerateTrees) ==> regen_targets(events.push(e)) == regen_targets(events),
{
    let f = |x: TrainEvent| regen_target_of(x);
    assert(events.push(e).drop_last() =~= events);
    assert(events.push(e).last() == e);
    match f(e) {
        Some(c) => assert(events.filter_map(f) + seq![c] =~= events.filter_map(f).push(c)),
        None => {},
    }
}


/// The meshes that have to be built before a chunk can be drawn.
#[derive(Debug, Clone, Copy, PartialEq, Eq, Structural)]
pub struct MeshRequest {
    pub build_terrain: bool,
    pub build_trees: bool,
}

/// What to build for the chunk at `index` to be drawn: nothing once it has a
/// terrain mesh; otherwise its terrain mesh, and its tree mesh when it has trees.
/// `None` when no chunk is there.
pub(crate) fn store_mesh_request<T>(world: &ChunkStore<T>, index: ChunkIndex) -> (r: Option<MeshRequest>)
    requires
        world.chunks_wf(),
    ensures
        r is None <==> !world.terrain().contains_key(index.spec_key()),
        r matches Some(req) ==> {
            let c = world.terrain()[index.spec_key()];
            &&& req.build_terrain == (c.terrain_mesh is None)
            &&& req.build_trees == (c.terrain_mesh is None && c.trees.len() > 0)
        },
{
    let id = match world.chunk_map.get(&index.key()) {
        Some(id) => *id,
        None => return None,
    };
    match world.chunks.get(&id) {
        Some(chunk) => {
            let build_terrain = chunk.terrain_mesh.is_none();
            Some(MeshRequest { build_terrain, build_trees: build_terrain && chunk.trees.len() > 0 })
        },
        None => None,
    }
}

/// Files the meshes built for the chunk at `index`: `terrain_mesh` as its terrain
/// mesh and, when given, `tree_mesh` as its tree mesh. `None` when no chunk is there.
pub(crate) fn store_install_meshes<T>(
    world: &mut ChunkStore<T>,
    index: ChunkIndex,
    terrain_mesh: Ent,
    tree_mesh: Option<Ent>,
) -> (r: Option<()>)
    requires
        old(world).chunks_wf(),
    ensures
        final(world).chunks_wf(),
        r is None <==> !old(world).terrain().contains_key(index.spec_key()),
        r is None ==> *final(world) == *old(world),
        r is Some ==> {
            &&& final(world).terrain() == old(world).terrain().insert(
                index.spec_key(),
                old(world).terrain()[index.spec_key()].with_meshes(terrain_mesh, tree_mesh),
            )
            &&& final(world).chunk_map@ == old(world).chunk_map@
            &&& final(world).spawner == old(world).spawner
        },
{
    edit_chunk(world, index.key(), ChunkEdit::SetMeshes(terrain_mesh, tree_mesh))
}

/// Spawns an empty chunk at `index`, unless one is there already; returns the
/// new chunk's identifier, or `None` when the position was taken.
pub fn spawn_new_chunk<T>(
    world: &mut World<T>,
    events: &mut EventBus<TrainEvent>,
    index: ChunkIndex,
) -> (r: Option<Ent>)
    requires
        !old(world)@.ids.contains_key(index.spec_key()) ==> old(world)@.next_id < u64::MAX,
    ensures
        final(events)@ == old(events)@,
        final(world)@.consistent(),
        final(world)@.same_settings(old(world)@),
        old(world)@.ids.contains_key(index.spec_key()) ==> r is None && final(world)@ == old(world)@,
        !old(world)@.ids.contains_key(index.spec_key()) ==> {
            &&& r == Some(old(world)@.next_id as Ent)
            &&& final(world)@.next_id == old(world)@.next_id + 1
            &&& final(world)@.ids == old(world)@.ids.insert(index.spec_key(), old(world)@.next_id as Ent)
            &&& final(world)@.terrain() == old(world)@.terrain().insert(
                index.spec_key(),
                ChunkView::fresh(index),
            )
        },
{
    proof {
        world.lemma_view();
        use_type_invariant(&*world);
    }
    let mut store = ChunkStore::new();
    std::mem::swap(&mut store, &mut world.store);
    let r = store_spawn_chunk(&mut store, index);
    world.store = store;
    proof { world.lemma_view(); }
    r
}

/// Makes sure that a chunk exists at every position within two chunks of `index`,
/// spawning the missing ones in column order; existing chunks keep their
/// identifiers and contents.
pub fn ensure_chunk_exists<T>(world: &mut World<T>, events: &mut EventBus<TrainEvent>, index: ChunkIndex)
    requires
        old(world)@.next_id + missing_before(old(world)@.ids, index, 25) <= u64::MAX,
        block_fits(index),
    ensures
        final(events)@ == old(events)@,
        final(world)@.consistent(),
        final(world)@.same_settings(old(world)@),
        final(world)@.terrain() == with_block(old(world)@.terrain(), index),
        final(world)@.ids == ids_after_fill(old(world)@.ids, old(world)@.next_id, index, 25),
        final(world)@.next_id == old(world)@.next_id + missing_before(old(world)@.ids, index, 25),
        block_present(old(world)@.terrain(), index) ==> final(world)@ == old(world)@,
{
    proof {
        world.lemma_view();
        use_type_invariant(&*world);
    }
    let mut store = ChunkStore::new();
    std::mem::swap(&mut store, &mut world.store);
    store_fill_block(&mut store, index);
    world.store = store;
    proof { world.lemma_view(); }
}

/// Registers `track_id` on the chunk at `index`, first making sure that the block
/// of chunks around `index` exists.
pub fn chunk_register_track<T>(
    world: &mut World<T>,
    events: &mut EventBus<TrainEvent>,
    index: ChunkIndex,
    track_id: Ent,
) -> (r: Option<()>)
    requires
        old(world)@.next_id + missing_before(old(world)@.ids, index, 25) <= u64::MAX,
        block_fits(index),
    ensures
        r == Some(()),
        final(events)@ == old(events)@,
        final(world)@.consistent(),
        final(world)@.same_settings(old(world)@),
        ({
            let grown = with_block(old(world)@.terrain(), index);
            let c = grown[index.spec_key()];
            final(world)@.terrain() == grown.insert(index.spec_key(), c.with_tracks(c.tracks.insert(track_id)))
        }),
        final(world)@.ids == ids_after_fill(old(world)@.ids, old(world)@.next_id, index, 25),
        final(world)@.next_id == old(world)@.next_id + missing_before(old(world)@.ids, index, 25),
{
    proof {
        world.lemma_view();
        use_type_invariant(&*world);
    }
    let mut store = ChunkStore::new();
    std::mem::swap(&mut store, &mut world.store);
    let r = store_register_track(&mut store, index, track_id);
    world.store = store;
    proof { world.lemma_view(); }
    r
}

/// Registers `node_id` on the chunk at `index`, first making sure that the block
/// of chunks around `index` exists.
pub fn chunk_register_node<T>(
    world: &mut World<T>,
    events: &mut EventBus<TrainEvent>,
    index: ChunkIndex,
    node_id: Ent,
) -> (r: Option<()>)
    requires
        old(world)@.next_id + missing_before(old(world)@.ids, index, 25) <= u64::MAX,
        block_fits(index),
    ensures
        r == Some(()),
        final(events)@ == old(events)@,
        final(world)@.consistent(),
        final(world)@.same_settings(old(world)@),
        ({
            let grown = with_block(old(world)@.terrain(), index);
            let c = grown[index.spec_key()];
            final(world)@.terrain() == grown.insert(index.spec_key(), c.with_nodes(c.nodes.insert(node_id)))
        }),
        final(world)@.ids == ids_after_fill(old(world)@.ids, old(world)@.next_id, index, 25),
        final(world)@.next_id == old(world)@.next_id + missing_before(old(world)@.ids, index, 25),
{
    proof {
        world.lemma_view();
        use_type_invariant(&*world);
    }
    let mut store = ChunkStore::new();
    std::mem::swap(&mut store, &mut world.store);
    let r = store_register_node(&mut store, index, node_id);
    world.store = store;
    proof { world.lemma_view(); }
    r
}

/// Takes `track_id` off the chunk at `index`; `None` when no chunk is there.
pub fn chunk_deregister_track<T>(world: &mut World<T>, index: ChunkIndex, track_id: Ent) -> (r: Option<()>)
    ensures
        final(world)@.consistent(),
        r is None <==> !old(world)@.terrain().contains_key(index.spec_key()),
        r is None ==> final(world)@ == old(world)@,
        r is Some ==> {
            let c = old(world)@.terrain()[index.spec_key()];
            &&& final(world)@.terrain() == old(world)@.terrain().insert(
                index.spec_key(),
                c.with_tracks(c.tracks.remove(track_id)),
            )
            &&& final(world)@.ids == old(world)@.ids
            &&& final(world)@.next_id == old(world)@.next_id
            &&& final(world)@.same_settings(old(world)@)
        },
{
    proof {
        world.lemma_view();
        use_type_invariant(&*world);
    }
    let mut store = ChunkStore::new();
    std::mem::swap(&mut store, &mut world.store);
    let r = store_deregister_track(&mut store, index, track_id);
    world.store = store;
    proof { world.lemma_view(); }
    r
}

/// Takes `node_id` off the chunk at `index`; `None` when no chunk is there.
pub fn chunk_deregister_node<T>(world: &mut World<T>, index: ChunkIndex, node_id: Ent) -> (r: Option<()>)
    ensures
        final(world)@.consistent(),
        r is None <==> !old(world)@.terrain().contains_key(index.spec_key()),
        r is None ==> final(world)@ == old(world)@,
        r is Some ==> {
            let c = old(world)@.terrain()[index.spec_key()];
            &&& final(world)@.terrain() == old(world)@.terrain().insert(
                index.spec_key(),
                c.with_nodes(c.nodes.remove(node_id)),
            )
            &&& final(world)@.ids == old(world)@.ids
            &&& final(world)@.next_id == old(world)@.next_id
            &&& final(world)@.same_settings(old(world)@)
        },
{
    proof {
        world.lemma_view();
        use_type_invariant(&*world);
    }
    let mut store = ChunkStore::new();
    std::mem::swap(&mut store, &mut world.store);
    let r = store_deregister_node(&mut store, index, node_id);
    world.store = store;
    proof { world.lemma_view(); }
    r
}

/// Whether the chunk at `index` exists and has no trees yet.
pub fn chunk_needs_trees<T>(world: &World<T>, index: ChunkIndex) -> (b: bool)
    ensures
        b == (world@.terrain().contains_key(index.spec_key()) && world@.terrain()[index.spec_key()].trees.len()
            == 0),
{
    proof {
        world.lemma_view();
        use_type_invariant(world);
    }
    store_needs_trees(&world.store, index)
}

/// Gives the chunk at `index` the trees `trees`, unless it has trees already;
/// `None` when no chunk is there.
pub fn regenerate_trees<T>(world: &mut World<T>, index: ChunkIndex, trees: Vec<T>) -> (r: Option<()>)
    ensures
        final(world)@.consistent(),
        r is None <==> !old(world)@.terrain().contains_key(index.spec_key()),
        r is None ==> final(world)@ == old(world)@,
        r is Some && old(world)@.terrain()[index.spec_key()].trees.len() > 0 ==> final(world)@ == old(world)@,
        r is Some && old(world)@.terrain()[index.spec_key()].trees.len() == 0 ==> {
            &&& final(world)@.terrain() == old(world)@.terrain().insert(
                index.spec_key(),
                old(world)@.terrain()[index.spec_key()].with_trees(trees@),
            )
            &&& final(world)@.ids == old(world)@.ids
            &&& final(world)@.next_id == old(world)@.next_id
            &&& final(world)@.same_settings(old(world)@)
        },
{
    proof {
        world.lemma_view();
        use_type_invariant(&*world);
    }
    let mut store = ChunkStore::new();
    std::mem::swap(&mut store, &mut world.store);
    let r = store_regenerate_trees(&mut store, index, trees);
    world.store = store;
    proof { world.lemma_view(); }
    r
}

/// Despawns the chunk `id` when nothing is registered on it, and unfiles position
/// `index`, where the caller files it. `None` when there is no chunk `id`.
/// Where `index` is not the chunk's own position, the chunk's own position is
/// unfiled as well, as it no longer holds a chunk, and a chunk filed at `index`
/// stays in the world, filed nowhere.
pub fn remove_chunk_if_empty<T>(world: &mut World<T>, id: Ent, index: ChunkIndex) -> (r: Option<()>)
    ensures
        final(world)@.consistent(),
        r is None <==> !old(world)@.chunks.contains_key(id),
        r is None || !old(world)@.chunks[id].is_empty() ==> final(world)@ == old(world)@,
        r is Some && old(world)@.chunks[id].is_empty() ==> {
            let own = old(world)@.chunks[id].index.spec_key();
            &&& final(world)@.chunks == old(world)@.chunks.remove(id)
            &&& final(world)@.ids == ids_after_removal(old(world)@.ids, id, own, index)
            &&& !final(world)@.ids.contains_key(index.spec_key())
            &&& final(world)@.terrain() == (if old(world)@.ids.contains_key(own) && old(world)@.ids[own] == id {
                old(world)@.terrain().remove(index.spec_key()).remove(own)
            } else {
                old(world)@.terrain().remove(index.spec_key())
            })
            &&& old(world)@.ids.contains_key(index.spec_key()) && old(world)@.ids[index.spec_key()] == id
                ==> final(world)@.terrain() == old(world)@.terrain().remove(index.spec_key())
            &&& final(world)@.next_id == old(world)@.next_id
            &&& final(world)@.same_settings(old(world)@)
        },
{
    proof {
        world.lemma_view();
        use_type_invariant(&*world);
    }
    let ghost s0 = world.store;
    let mut store = ChunkStore::new();
    std::mem::swap(&mut store, &mut world.store);
    let r = store_remove_if_empty(&mut store, id, index);
    world.store = store;
    proof {
        world.lemma_view();
        if r is Some && s0.chunks@[id]@.is_empty() {
            assert(world.store.chunk_views() =~= s0.chunk_views().remove(id));
            let own = s0.chunks@[id]@.index.spec_key();
            if s0.chunk_map@.contains_key(index.spec_key()) && s0.chunk_map@[index.spec_key()] == id {
                assert(own == index.spec_key());
                assert(s0.terrain().remove(index.spec_key()).remove(own) =~= s0.terrain().remove(index.spec_key()));
            }
        }
    }
    r
}

/// What to build for the chunk at `index` to be drawn: nothing once it has a
/// terrain mesh; otherwise its terrain mesh, and its tree mesh when it has trees.
/// `None` when no chunk is there.
pub fn chunk_mesh_request<T>(world: &World<T>, index: ChunkIndex) -> (r: Option<MeshRequest>)
    ensures
        r is None <==> !world@.terrain().contains_key(index.spec_key()),
        r matches Some(req) ==> {
            let c = world@.terrain()[index.spec_key()];
            &&& req.build_terrain == (c.terrain_mesh is None)
            &&& req.build_trees == (c.terrain_mesh is None && c.trees.len() > 0)
        },
{
    proof {
        world.lemma_view();
        use_type_invariant(world);
    }
    store_mesh_request(&world.store, index)
}

/// Files the meshes built for the chunk at `index`: `terrain_mesh` as its terrain
/// mesh and, when given, `tree_mesh` as its tree mesh. `None` when no chunk is there.
pub fn install_chunk_meshes<T>(
    world: &mut World<T>,
    index: ChunkIndex,
    terrain_mesh: Ent,
    tree_mesh: Option<Ent>,
) -> (r: Option<()>)
    ensures
        final(world)@.consistent(),
        r is None <==> !old(world)@.terrain().contains_key(index.spec_key()),
        r is None ==> final(world)@ == old(world)@,
        r is Some ==> {
            &&& final(world)@.terrain() == old(world)@.terrain().insert(
                index.spec_key(),
                old(world)@.terrain()[index.spec_key()].with_meshes(terrain_mesh, tree_mesh),
            )
            &&& final(world)@.ids == old(world)@.ids
            &&& final(world)@.next_id == old(world)@.next_id
            &&& final(world)@.same_settings(old(world)@)
        },
{
    proof {
        world.lemma_view();
        use_type_invariant(&*world);
    }
    let mut store = ChunkStore::new();
    std::mem::swap(&mut store, &mut world.store);
    let r = store_install_meshes(&mut store, index, terrain_mesh, tree_mesh);
    world.store = store;
    proof { world.lemma_view(); }
    r
}

/// Whether the block of chunks around `index` fits in the range of `i32`, so that
/// `ensure_chunk_exists` and the register functions can take `index`.
pub fn fits_block(index: ChunkIndex) -> (b: bool)
    ensures
        b == block_fits(index),
{
    i32::MIN + 2 <= index.x && index.x <= i32::MAX - 2 && i32::MIN + 2 <= index.y && index.y <= i32::MAX - 2
}

/// Whether `ensure_chunk_exists` and the register functions can take `index` in
/// `world`: the block around `index` fits in the range of `i32`, and the spawner
/// has an identifier left for every position of the block that holds no chunk.
pub fn can_fill_block<T>(world: &World<T>, index: ChunkIndex) -> (b: bool)
    ensures
        b == (block_fits(index) && world@.next_id + missing_before(world@.ids, index, 25) <= u64::MAX),
{
    if !fits_block(index) {
        return false;
    }
    let ids = world.chunk_map();
    let mut missing: u64 = 0;
    let mut i: u32 = 0;
    while i < 25
        invariant
            0 <= i <= 25,
            block_fits(index),
            ids@ == world@.ids,
            missing == missing_before(world@.ids, index, i as int),
            missing <= i,
        decreases 25 - i,
    {
        let dx: i32 = (i / 5) as i32 - 2;
        let dy: i32 = (i % 5) as i32 - 2;
        let key = (index.x + dx, index.y + dy);
        assert(key == block_key(index, i as int));
        if !ids.contains_key(&key) {
            missing = missing + 1;
        }
        i = i + 1;
    }
    world.next_entity() <= u64::MAX - missing
}

/// Whether the quad tile of a point in chunk `root` fits in the range of `i32`,
/// so that `quadtile` can take it.
pub fn fits_quadtile(root: ChunkIndex, west_half: bool, south_half: bool) -> (b: bool)
    ensures
        b == quadtile_fits(root, west_half, south_half),
{
    let x_ok = if west_half { root.x > i32::MIN } else { root.x < i32::MAX };
    let y_ok = if south_half { root.y > i32::MIN } else { root.y < i32::MAX };
    x_ok && y_ok
}

/// A chunk just spawned lies where it was spawned and holds nothing: no track,
/// no node, no tree and no mesh.
pub proof fn law_fresh_chunk_is_empty<T>(index: ChunkIndex)
    ensures
        ChunkView::<T>::fresh(index).is_empty(),
        ChunkView::<T>::fresh(index).index == index,
        ChunkView::<T>::fresh(index).tracks == Set::<Ent>::empty(),
        ChunkView::<T>::fresh(index).nodes == Set::<Ent>::empty(),
        ChunkView::<T>::fresh(index).trees.len() == 0,
        ChunkView::<T>::fresh(index).terrain_mesh is None,
        ChunkView::<T>::fresh(index).tree_mesh is None,
{
    assert(ChunkView::<T>::fresh(index).tracks =~= Set::<Ent>::empty());
}

/// A chunk is empty exactly when no track and no node is registered on it.
pub proof fn law_empty_means_nothing_registered<T>(c: ChunkView<T>)
    ensures
        c.is_empty() <==> forall|id: Ent| !c.tracks.contains(id) && !c.nodes.contains(id),
{
    if !c.is_empty() {
        if !c.tracks.is_empty() {
            let t = c.tracks.choose();
            assert(c.tracks.contains(t));
        } else {
            let n = c.nodes.choose();
            assert(c.nodes.contains(n));
        }
    } else {
        assert(c.tracks =~= Set::<Ent>::empty());
        assert(c.nodes =~= Set::<Ent>::empty());
    }
}

/// Each change to a chunk changes only what it names: its tracks, its nodes,
/// its trees, or its meshes. Filing meshes sets the terrain mesh, and sets the
/// tree mesh only when one is given, keeping the old one otherwise.
pub proof fn law_chunk_edits_touch_only_their_part<T>(
    c: ChunkView<T>,
    tracks: Set<Ent>,
    nodes: Set<Ent>,
    trees: Seq<T>,
    terrain_mesh: Ent,
    tree_mesh: Option<Ent>,
)
    ensures
        c.with_tracks(tracks) == (ChunkView { tracks, ..c }),
        c.with_nodes(nodes) == (ChunkView { nodes, ..c }),
        c.with_trees(trees) == (ChunkView { trees, ..c }),
        c.with_meshes(terrain_mesh, tree_mesh).terrain_mesh == Some(terrain_mesh),
        tree_mesh is Some ==> c.with_meshes(terrain_mesh, tree_mesh).tree_mesh == tree_mesh,
        tree_mesh is None ==> c.with_meshes(terrain_mesh, tree_mesh).tree_mesh == c.tree_mesh,
        c.with_meshes(terrain_mesh, tree_mesh).index == c.index,
        c.with_meshes(terrain_mesh, tree_mesh).tracks == c.tracks,
        c.with_meshes(terrain_mesh, tree_mesh).nodes == c.nodes,
        c.with_meshes(terrain_mesh, tree_mesh).trees == c.trees,
{
}

/// Registering a track that the chunk did not hold and then deregistering it
/// leaves the chunk as it was; the same holds of nodes.
pub proof fn law_register_then_deregister<T>(c: ChunkView<T>, id: Ent)
    ensures
        !c.tracks.contains(id) ==> ({
            let r = c.with_tracks(c.tracks.insert(id));
            r.with_tracks(r.tracks.remove(id)) == c
        }),
        !c.nodes.contains(id) ==> ({
            let r = c.with_nodes(c.nodes.insert(id));
            r.with_nodes(r.nodes.remove(id)) == c
        }),
{
    if !c.tracks.contains(id) {
        assert(c.tracks.insert(id).remove(id) =~= c.tracks);
    }
    if !c.nodes.contains(id) {
        assert(c.nodes.insert(id).remove(id) =~= c.nodes);
    }
}

/// Registering the same track (or node) twice has the effect of registering it once.
pub proof fn law_register_idempotent<T>(c: ChunkView<T>, id: Ent)
    ensures
        ({
            let r = c.with_tracks(c.tracks.insert(id));
            r.with_tracks(r.tracks.insert(id)) == r
        }),
        ({
            let r = c.with_nodes(c.nodes.insert(id));
            r.with_nodes(r.nodes.insert(id)) == r
        }),
{
    assert(c.tracks.insert(id).insert(id) =~= c.tracks.insert(id));
    assert(c.nodes.insert(id).insert(id) =~= c.nodes.insert(id));
}

/// After `ensure_chunk_exists` every position of the block holds a chunk, the
/// chunks that were there are kept as they were, the new ones are fresh and lie
/// in the block, and a second call changes nothing more.
pub proof fn law_ensure_fills_block<T>(terrain: Map<ChunkKey, ChunkView<T>>, index: ChunkIndex)
    ensures
        block_present(with_block(terrain, index), index),
        forall|k: ChunkKey| #[trigger]
            terrain.contains_key(k) ==> with_block(terrain, index).contains_key(k) && with_block(
                terrain,
                index,
            )[k] == terrain[k],
        forall|k: ChunkKey| #[trigger]
            with_block(terrain, index).contains_key(k) && !terrain.contains_key(k) ==> in_block(index, k)
                && with_block(terrain, index)[k] == ChunkView::<T>::fresh(ChunkIndex::from_key(k)),
        with_block(with_block(terrain, index), index) == with_block(terrain, index),
{
    let g = with_block(terrain, index);
    assert forall|k: ChunkKey| in_block(index, k) implies #[trigger] g.contains_key(k) by {
        assert(block_rank(index, k) < 25);
    }
    assert(with_block(g, index) =~= g);
}

/// The chunk that a point lies in is one of the four chunks of its quad tile.
pub proof fn law_quadtile_holds_root(root: ChunkIndex, west_half: bool, south_half: bool)
    requires
        quadtile_fits(root, west_half, south_half),
    ensures
        ({
            let b = quadtile_base(root, west_half, south_half);
            let tiles = seq![
                b,
                ChunkIndex { x: (b.x + 1) as i32, y: b.y },
                ChunkIndex { x: b.x, y: (b.y + 1) as i32 },
                ChunkIndex { x: (b.x + 1) as i32, y: (b.y + 1) as i32 },
            ];
            tiles.contains(root)
        }),
{
    let b = quadtile_base(root, west_half, south_half);
    let tiles = seq![
        b,
        ChunkIndex { x: (b.x + 1) as i32, y: b.y },
        ChunkIndex { x: b.x, y: (b.y + 1) as i32 },
        ChunkIndex { x: (b.x + 1) as i32, y: (b.y + 1) as i32 },
    ];
    if west_half && south_half {
        assert(tiles[3] == root);
    } else if west_half {
        assert(tiles[1] == root);
    } else if south_half {
        assert(tiles[2] == root);
    } else {
        assert(tiles[0] == root);
    }
}

} // verus!
