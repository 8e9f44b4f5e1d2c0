use vstd::prelude::*;
use vstd::std_specs::iter::IteratorSpec;
use vstd::std_specs::slice::into_iter_elts;

use std::collections::BTreeMap;

use crate::entity::Ent;

verus! {

/// One drawing command: a glyph, a rectangle, a circle, a line, a terrain chunk,
/// or a rectangle textured with the sprite whose texture has the given identifier.
#[derive(Debug, Clone)]
pub enum RenderCommand<Ch, R, Ci, L, K> {
    Char(Ch),
    Rect(R),
    Circle(Ci),
    Line(L),
    Chunk(K),
    Sprite(Ent, R),
}

/// The commands of one layer, sorted by kind; sprite rectangles are grouped by
/// sprite so that each texture is bound once.
#[derive(Debug, Clone)]
pub struct RenderLayer<Ch, R, Ci, L, K> {
    pub name: &'static str,
    pub rect_commands: Vec<R>,
    pub char_commands: Vec<Ch>,
    pub circle_commands: Vec<Ci>,
    pub line_commands: Vec<L>,
    pub chunk_commands: Vec<K>,
    pub sprite_commands: BTreeMap<Ent, Vec<R>>,
}

/// The commands of a layer, as sequences.
pub struct LayerView<Ch, R, Ci, L, K> {
    pub name: Seq<char>,
    pub rects: Seq<R>,
    pub chars: Seq<Ch>,
    pub circles: Seq<Ci>,
    pub lines: Seq<L>,
    pub chunks: Seq<K>,
    pub sprites: Map<Ent, Seq<R>>,
}

impl<Ch, R, Ci, L, K> LayerView<Ch, R, Ci, L, K> {
    /// A layer with the given name and no commands.
    pub open spec fn empty(name: Seq<char>) -> Self {
        LayerView {
            name,
            rects: Seq::empty(),
            chars: Seq::empty(),
            circles: Seq::empty(),
            lines: Seq::empty(),
            chunks: Seq::empty(),
            sprites: Map::empty(),
        }
    }

    /// The layer after `c` is queued on it: the command goes last among those of
    /// its kind, and a sprite rectangle last among those of its sprite.
    pub open spec fn add(self, c: RenderCommand<Ch, R, Ci, L, K>) -> Self {
        match c {
            RenderCommand::Char(x) => LayerView { chars: self.chars.push(x), ..self },
            RenderCommand::Rect(x) => LayerView { rects: self.rects.push(x), ..self },
            RenderCommand::Circle(x) => LayerView { circles: self.circles.push(x), ..self },
            RenderCommand::Line(x) => LayerView { lines: self.lines.push(x), ..self },
            RenderCommand::Chunk(x) => LayerView { chunks: self.chunks.push(x), ..self },
            RenderCommand::Sprite(id, x) => LayerView {
                sprites: self.sprites.insert(
                    id,
                    if self.sprites.contains_key(id) {
                        self.sprites[id].push(x)
                    } else {
                        seq![x]
                    },
                ),
                ..self
            },
        }
    }
}

impl<Ch, R, Ci, L, K> View for RenderLayer<Ch, R, Ci, L, K> {
    type V = LayerView<Ch, R, Ci, L, K>;

    open spec fn view(&self) -> LayerView<Ch, R, Ci, L, K> {
        LayerView {
            name: self.name@,
            rects: self.rect_commands@,
            chars: self.char_commands@,
            circles: self.circle_commands@,
            lines: self.line_commands@,
            chunks: self.chunk_commands@,
            sprites: Map::new(
                |id: Ent| self.sprite_commands@.contains_key(id),
                |id: Ent| self.sprite_commands@[id]@,
            ),
        }
    }
}

impl<Ch, R, Ci, L, K> RenderLayer<Ch, R, Ci, L, K> {
    pub fn new(name: &'static str) -> (l: Self)
        ensures
            l@ == LayerView::<Ch, R, Ci, L, K>::empty(name@),
    {
        let l = RenderLayer {
            name,
            rect_commands: Vec::new(),
            char_commands: Vec::new(),
            circle_commands: Vec::new(),
            line_commands: Vec::new(),
            chunk_commands: Vec::new(),
            sprite_commands: BTreeMap::new(),
        };
        assert(l@.sprites =~= Map::<Ent, Seq<R>>::empty());
        assert(l@ =~= LayerView::<Ch, R, Ci, L, K>::empty(name@));
        l
    }

    /// Queues `command` on this layer.
    pub fn push(&mut self, command: RenderCommand<Ch, R, Ci, L, K>)
        ensures
            final(self)@ == old(self)@.add(command),
    {
        let ghost v0 = self@;
        match command {
            RenderCommand::Char(c) => self.char_commands.push(c),
            RenderCommand::Rect(c) => self.rect_commands.push(c),
            RenderCommand::Circle(c) => self.circle_commands.push(c),
            RenderCommand::Line(c) => self.line_commands.push(c),
            RenderCommand::Chunk(c) => self.chunk_commands.push(c),
            RenderCommand::Sprite(id, rect) => {
                let ghost m0 = self.sprite_commands@;
                match self.sprite_commands.remove(&id) {
                    Some(mut v) => {
                        assert(m0.contains_key(id) && v == m0[id]);
                        v.push(rect);
                        self.sprite_commands.insert(id, v);
                        assert(self.sprite_commands@ == m0.insert(id, v));
                    },
                    None => {
                        assert(!m0.contains_key(id));
                        let v = vec![rect];
                        assert(v@ =~= seq![rect]);
                        self.sprite_commands.insert(id, v);
                        assert(self.sprite_commands@ == m0.insert(id, v));
                    },
                }
                assert(self@.sprites =~= v0.add(command).sprites);
            },
        }
        assert(self@ =~= v0.add(command));
    }
}

impl<Ch, R, Ci, L, K> Default for RenderLayer<Ch, R, Ci, L, K> {
    fn default() -> (l: Self)
        ensures
            l@ == LayerView::<Ch, R, Ci, L, K>::empty(""@),
    {
        RenderLayer::new("")
    }
}

/// The layers of a frame, bottom first. There is always at least one layer, and
/// commands go to the topmost.
pub struct LayerStack<Ch, R, Ci, L, K> {
    layers: Vec<RenderLayer<Ch, R, Ci, L, K>>,
    current_layer: usize,
}

impl<Ch, R, Ci, L, K> View for LayerStack<Ch, R, Ci, L, K> {
    type V = Seq<LayerView<Ch, R, Ci, L, K>>;

    closed spec fn view(&self) -> Seq<LayerView<Ch, R, Ci, L, K>> {
        self.layers@.map_values(|l: RenderLayer<Ch, R, Ci, L, K>| l@)
    }
}

impl<Ch, R, Ci, L, K> LayerStack<Ch, R, Ci, L, K> {
    #[verifier::type_invariant]
    closed spec fn inv(self) -> bool {
        &&& self.layers@.len() > 0
        &&& self.current_layer == self.layers@.len() - 1
    }

    /// One empty layer.
    pub fn new() -> (s: Self)
        ensures
            s@ == seq![LayerView::<Ch, R, Ci, L, K>::empty(""@)],
    {
        let s = LayerStack { layers: vec![RenderLayer::default()], current_layer: 0 };
        assert(s@ =~= seq![LayerView::<Ch, R, Ci, L, K>::empty(""@)]);
        s
    }

    /// Starts a new, empty layer on top.
    pub fn push_layer(&mut self)
        ensures
            old(self)@.len() > 0,
            final(self)@ == old(self)@.push(LayerView::empty(""@)),
    {
        proof { use_type_invariant(&*self); }
        let ghost v0 = self@;
        let mut old_stack = LayerStack::new();
        std::mem::swap(&mut old_stack, self);
        let LayerStack { mut layers, current_layer: _ } = old_stack;
        layers.push(RenderLayer::default());
        let top = layers.len() - 1;
        *self = LayerStack { layers, current_layer: top };
        assert(self@ =~= v0.push(LayerView::empty(""@)));
    }

    /// Queues `command` on the topmost layer.
    pub fn enqueue(&mut self, command: RenderCommand<Ch, R, Ci, L, K>)
        ensures
            old(self)@.len() > 0,
            final(self)@.len() == old(self)@.len(),
            final(self)@ == old(self)@.update(old(self)@.len() - 1, old(self)@.last().add(command)),
    {
        proof { use_type_invariant(&*self); }
        let ghost v0 = self@;
        let i = self.current_layer;
        self.layers[i].push(command);
        assert(self@ =~= v0.update(v0.len() - 1, v0.last().add(command)));
    }

    /// The layers, bottom first.
    pub fn iter(&self) -> (it: std::slice::Iter<'_, RenderLayer<Ch, R, Ci, L, K>>)
        ensures
            into_iter_elts(it).map_values(|l: RenderLayer<Ch, R, Ci, L, K>| l@) == self@,
            self@.len() > 0,
            IteratorSpec::decrease(&it) is Some,
            IteratorSpec::initial_value_relation(&it, &it),
    {
        proof { use_type_invariant(self); }
        self.layers.as_slice().iter()
    }
}

/// The drawing commands of a frame, in layers drawn one over the other;
/// commands go to the topmost layer. `F` describes a font.
pub struct RenderCommands<Ch, R, Ci, L, K, F> {
    pub stack: LayerStack<Ch, R, Ci, L, K>,
    pub fonts: BTreeMap<Ent, F>,
    pub current_font_id: Ent,
}

impl<Ch, R, Ci, L, K, F> RenderCommands<Ch, R, Ci, L, K, F> {
    /// The fonts that text can be set in.
    pub open spec fn font_map(&self) -> Map<Ent, F> {
        self.fonts@
    }

    /// The font that text is set in.
    pub open spec fn font(&self) -> Ent {
        self.current_font_id
    }

    /// The layers, bottom first.
    pub open spec fn layer_views(&self) -> Seq<LayerView<Ch, R, Ci, L, K>> {
        self.stack@
    }

    /// An empty frame with the given fonts, drawing text in the font with the
    /// least identifier.
    pub fn new(fonts: BTreeMap<Ent, F>) -> (c: Self)
        requires
            fonts@.len() > 0,
        ensures
            c.layer_views() == seq![LayerView::<Ch, R, Ci, L, K>::empty(""@)],
            c.font_map() == fonts@,
            fonts@.contains_key(c.font()),
            forall|id: Ent| #[trigger] fonts@.contains_key(id) ==> c.font() <= id,
    {
        let mut best: Option<Ent> = None;
        let ghost ks: Seq<Ent> = fonts.keys().remaining().unref();
        let ghost mut seen: int = 0;
        for k in it: fonts.keys()
            invariant
                fonts@.dom().finite(),
                it.seq().unref() == ks,
                ks.to_set() == fonts@.dom(),
                seen == it.index(),
                best is None ==> seen == 0,
                best matches Some(b) ==> fonts@.contains_key(b) && forall|j: int|
                    0 <= j < seen ==> b <= #[trigger] ks[j],
        {
            proof {
                assert(ks[it.index() as int] == *k);
                assert(ks.to_set().contains(*k));
                seen = seen + 1;
            }
            best = match best {
                Some(b) => if *k < b { Some(*k) } else { Some(b) },
                None => Some(*k),
            };
        }
        let id = match best {
            Some(b) => b,
            None => {
                proof {
                    assert(ks.len() == 0);
                    assert(ks.to_set() =~= Set::<Ent>::empty());
                    assert(fonts@.dom() =~= Set::<Ent>::empty());
                }
                0
            },
        };
        proof {
            assert forall|k: Ent| #[trigger] fonts@.contains_key(k) implies id <= k by {
                assert(ks.to_set().contains(k));
                let j = choose|j: int| 0 <= j < ks.len() && ks[j] == k;
                assert(ks[j] == k);
            }
        }
        RenderCommands { fonts, stack: LayerStack::new(), current_font_id: id }
    }

    /// Drops every command: one empty layer is left.
    pub fn clear(&mut self)
        ensures
            final(self).layer_views() == seq![LayerView::<Ch, R, Ci, L, K>::empty(""@)],
            final(self).font_map() == old(self).font_map(),
            final(self).font() == old(self).font(),
    {
        self.stack = LayerStack::new();
    }

    /// The layers, bottom first.
    pub fn layers(&self) -> (it: std::slice::Iter<'_, RenderLayer<Ch, R, Ci, L, K>>)
        ensures
            into_iter_elts(it).map_values(|l: RenderLayer<Ch, R, Ci, L, K>| l@) == self.layer_views(),
            self.layer_views().len() > 0,
            IteratorSpec::decrease(&it) is Some,
            IteratorSpec::initial_value_relation(&it, &it),
    {
        self.stack.iter()
    }

    /// Starts a new, empty layer on top; later commands go to it. The layer
    /// gets no name: `name` is not kept.
    pub fn new_layer(&mut self, name: &'static str)
        ensures
            final(self).layer_views() == old(self).layer_views().push(LayerView::empty(""@)),
            final(self).font_map() == old(self).font_map(),
            final(self).font() == old(self).font(),
    {
        self.stack.push_layer();
    }

    /// Queues `command` on the topmost layer, which always exists.
    pub fn enqueue(&mut self, command: RenderCommand<Ch, R, Ci, L, K>)
        ensures
            old(self).layer_views().len() > 0,
            ({
                let v = old(self).layer_views();
                final(self).layer_views() == v.update(v.len() - 1, v.last().add(command))
            }),
            final(self).font_map() == old(self).font_map(),
            final(self).font() == old(self).font(),
    {
        self.stack.enqueue(command);
    }
}

/// A layer made with a name has that name and no commands of any kind.
pub proof fn law_empty_layer_holds_nothing<Ch, R, Ci, L, K>(name: Seq<char>)
    ensures
        LayerView::<Ch, R, Ci, L, K>::empty(name).name == name,
        LayerView::<Ch, R, Ci, L, K>::empty(name).rects.len() == 0,
        LayerView::<Ch, R, Ci, L, K>::empty(name).chars.len() == 0,
        LayerView::<Ch, R, Ci, L, K>::empty(name).circles.len() == 0,
        LayerView::<Ch, R, Ci, L, K>::empty(name).lines.len() == 0,
        LayerView::<Ch, R, Ci, L, K>::empty(name).chunks.len() == 0,
        LayerView::<Ch, R, Ci, L, K>::empty(name).sprites.dom().is_empty(),
{
}

/// Queuing a command on a layer puts it after the commands of its kind already
/// there (a sprite rectangle after those of its sprite, or alone when the sprite
/// had none), and leaves the name and every other kind, and every other sprite,
/// as they were.
pub proof fn law_add_appends<Ch, R, Ci, L, K>(v: LayerView<Ch, R, Ci, L, K>, c: RenderCommand<Ch, R, Ci, L, K>)
    ensures
        v.add(c).name == v.name,
        c matches RenderCommand::Char(x) ==> v.add(c).chars == v.chars.push(x),
        c matches RenderCommand::Rect(x) ==> v.add(c).rects == v.rects.push(x),
        c matches RenderCommand::Circle(x) ==> v.add(c).circles == v.circles.push(x),
        c matches RenderCommand::Line(x) ==> v.add(c).lines == v.lines.push(x),
        c matches RenderCommand::Chunk(x) ==> v.add(c).chunks == v.chunks.push(x),
        c matches RenderCommand::Sprite(id, x) ==> {
            &&& v.add(c).sprites.contains_key(id)
            &&& v.add(c).sprites[id] == (if v.sprites.contains_key(id) { v.sprites[id] } else { Seq::empty() }).push(x)
            &&& v.add(c).sprites.remove(id) == v.sprites.remove(id)
        },
        !(c is Char) ==> v.add(c).chars == v.chars,
        !(c is Rect) ==> v.add(c).rects == v.rects,
        !(c is Circle) ==> v.add(c).circles == v.circles,
        !(c is Line) ==> v.add(c).lines == v.lines,
        !(c is Chunk) ==> v.add(c).chunks == v.chunks,
        !(c is Sprite) ==> v.add(c).sprites == v.sprites,
{
    if let RenderCommand::Sprite(id, x) = c {
        assert(v.add(c).sprites.remove(id) =~= v.sprites.remove(id));
        if !v.sprites.contains_key(id) {
            assert(seq![x] =~= Seq::<R>::empty().push(x));
        }
    }
}

/// Commands of one kind are drawn in the order they were queued, and queuing a
/// command of another kind leaves them as they were; rectangles of one sprite
/// likewise keep their order, apart from those of other sprites.
pub proof fn law_commands_keep_order<Ch, R, Ci, L, K>(v: LayerView<Ch, R, Ci, L, K>, a: R, b: R, c: Ch, id: Ent, other: Ent)
    requires
        id != other,
    ensures
        v.add(RenderCommand::Rect(a)).add(RenderCommand::Char(c)).add(RenderCommand::Rect(b)).rects == v.rects
            + seq![a, b],
        ({
            let w = v.add(RenderCommand::Sprite(id, a)).add(RenderCommand::Sprite(other, b));
            &&& w.sprites[id] == (if v.sprites.contains_key(id) { v.sprites[id] } else { Seq::empty() }).push(a)
            &&& w.sprites.remove(id).remove(other) == v.sprites.remove(id).remove(other)
        }),
{
    assert(v.rects.push(a).push(b) =~= v.rects + seq![a, b]);
    let w = v.add(RenderCommand::Sprite(id, a)).add(RenderCommand::Sprite(other, b));
    assert(w.sprites.remove(id).remove(other) =~= v.sprites.remove(id).remove(other));
    if !v.sprites.contains_key(id) {
        assert(seq![a] =~= Seq::<R>::empty().push(a));
    }
}

} // verus!
