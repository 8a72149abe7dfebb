//! The scene: a forest of parent-relative transforms, the light list, and
//! the bake that resolves every node into a world-space transform.
//!
//! The transform type `S` is left to the caller: the store only ever copies
//! it, and the bake composes transforms through the function it is handed.
use vstd::prelude::*;

verus! {

#[verifier::external_type_specification]
#[verifier::external_body]
pub struct ExWorld(hecs::World);

/// Relies on hecs::World::new, which makes an empty entity/component table.
pub assume_specification[ hecs::World::new ]() -> hecs::World;

/// A node handle: the node's index in the scene's node store. Index 0 is
/// the root.
#[derive(Clone, Copy, Debug, PartialEq, Eq, Hash, Structural)]
pub struct NodeRef(pub u32);

/// An entry of the transform hierarchy.
#[derive(Clone, Copy, Debug)]
pub struct Node<S> {
    /// The node that `local` is relative to.
    pub parent: NodeRef,
    /// The transform relative to the parent.
    pub local: S,
}

/// An append-only array addressed by handles.
#[derive(Debug)]
pub struct Array<T>(pub Vec<T>);

/// A color packed as `0xAARRGGBB`.
#[derive(Clone, Copy, Debug, PartialEq, Eq, Hash, Structural)]
pub struct Color(pub u32);

/// How a light shines.
#[derive(Clone, Copy, Debug, PartialEq, Eq, Structural)]
pub enum LightKind {
    Directional,
    Point,
}

/// A light handle: the light's index in the scene's light list.
#[derive(Clone, Copy, Debug, PartialEq, Eq, Hash, Structural)]
pub struct LightRef(pub u32);

/// A light placed at a node.
#[derive(Clone, Copy, Debug, PartialEq, Eq, Structural)]
pub struct Light {
    pub node: NodeRef,
    pub color: Color,
    /// The bit pattern of the intensity, an IEEE-754 single.
    pub intensity_bits: u32,
    pub kind: LightKind,
}

/// The bit pattern of the intensity a new light gets: `1.0`.
pub const DEFAULT_INTENSITY_BITS: u32 = 0x3F80_0000;

/// A mesh handle of the rendering context.
#[derive(Clone, Copy, Debug, PartialEq, Eq, Hash, Structural)]
pub struct MeshRef(pub u32);

/// An image handle of the rendering context.
#[derive(Clone, Copy, Debug, PartialEq, Eq, Hash, Structural)]
pub struct ImageRef(pub u32);

/// A texture target handle of the rendering context.
#[derive(Clone, Copy, Debug, PartialEq, Eq, Hash, Structural)]
pub struct TargetRef(pub u8);

/// The component that makes an entity drawable: where it is and what mesh.
#[derive(Clone, Copy, Debug, PartialEq, Eq, Structural)]
pub struct Entity {
    pub node: NodeRef,
    pub mesh: MeshRef,
}

/// A pixel-space sub-rectangle of an image, `start` inclusive, `end` exclusive.
#[derive(Clone, Copy, Debug)]
pub struct UvRange {
    pub start: (i16, i16),
    pub end: (i16, i16),
}

/// The component of a sprite entity.
#[derive(Clone, Copy, Debug)]
pub struct Sprite {
    pub node: NodeRef,
    pub image: ImageRef,
    /// `None` stands for the whole image.
    pub uv: Option<UvRange>,
}

/// The world-space transform of every node, indexed by node handle.
#[derive(Debug)]
pub struct BakedScene<S> {
    pub spaces: Vec<S>,
}

/// The scene: node store, entity/component table and light list.
pub struct Scene<S> {
    pub world: hecs::World,
    pub nodes: Array<Node<S>>,
    pub lights: Array<Light>,
}

/// `baked` resolves `nodes`: a node under the root keeps its local
/// transform, any other is its parent's resolved transform combined with
/// its local one.
pub open spec fn bakes_to<S, F: Fn(&S, &S) -> S>(
    nodes: Seq<Node<S>>,
    combine: F,
    baked: Seq<S>,
) -> bool {
    &&& baked.len() == nodes.len()
    &&& forall|i: int| 0 <= i < nodes.len() ==> #[trigger] bake_step(nodes, combine, baked, i)
}

/// The rule that gives node `i` its resolved transform.
pub open spec fn bake_step<S, F: Fn(&S, &S) -> S>(
    nodes: Seq<Node<S>>,
    combine: F,
    baked: Seq<S>,
    i: int,
) -> bool {
    if nodes[i].parent.0 == 0 {
        baked[i] == nodes[i].local
    } else {
        combine.ensures((&baked[nodes[i].parent.0 as int], &nodes[i].local), baked[i])
    }
}

/// A node store in which every node's parent was created before it.
pub open spec fn nodes_wf<S>(nodes: Seq<Node<S>>) -> bool {
    &&& 1 <= nodes.len() <= 0x1_0000_0000
    &&& nodes[0].parent.0 == 0
    &&& forall|i: int| 0 < i < nodes.len() ==> (#[trigger] nodes[i]).parent.0 < i
}

/// Baking composes down a chain of nodes: with `a` under the root, `b`
/// under `a` and `c` under `b`, `a` resolves to its own transform, `b` to
/// `a`'s combined with `b`'s, and `c` to that result combined with `c`'s.
pub proof fn lemma_bake_chain<S, F: Fn(&S, &S) -> S>(
    nodes: Seq<Node<S>>,
    combine: F,
    baked: Seq<S>,
    a: int,
    b: int,
    c: int,
)
    requires
        nodes_wf(nodes),
        bakes_to(nodes, combine, baked),
        0 < a < nodes.len(),
        0 < b < nodes.len(),
        0 <= c < nodes.len(),
        nodes[a].parent.0 == 0,
        nodes[b].parent.0 == a,
        nodes[c].parent.0 == b,
    ensures
        baked[a] == nodes[a].local,
        combine.ensures((&nodes[a].local, &nodes[b].local), baked[b]),
        combine.ensures((&baked[b], &nodes[c].local), baked[c]),
{
    assert(bake_step(nodes, combine, baked, a));
    assert(bake_step(nodes, combine, baked, b));
    assert(bake_step(nodes, combine, baked, c));
}

/// A node under the root whose transform is the root's own (the identity)
/// resolves to the root's world transform, unchanged.
pub proof fn lemma_identity_bake<S, F: Fn(&S, &S) -> S>(
    nodes: Seq<Node<S>>,
    combine: F,
    baked: Seq<S>,
    i: int,
)
    requires
        nodes_wf(nodes),
        bakes_to(nodes, combine, baked),
        0 <= i < nodes.len(),
        nodes[i].parent.0 == 0,
        nodes[i].local == nodes[0].local,
    ensures
        baked[i] == baked[0],
{
    assert(bake_step(nodes, combine, baked, 0));
    assert(bake_step(nodes, combine, baked, i));
}

impl<S> Scene<S> {
    pub open spec fn node_seq(&self) -> Seq<Node<S>> {
        self.nodes.0@
    }

    pub open spec fn light_seq(&self) -> Seq<Light> {
        self.lights.0@
    }

    pub open spec fn wf(&self) -> bool {
        &&& nodes_wf(self.node_seq())
        &&& self.light_seq().len() <= 0x1_0000_0000
        &&& forall|i: int|
            0 <= i < self.light_seq().len() ==> (#[trigger] self.light_seq()[i]).node.0
                < self.node_seq().len()
    }
}


/// What an object builder places: a node under `parent`, with `local` as
/// its transform, or no node at all while no transform was set.
pub struct ObjectBuilder<S, T> {
    pub parent: NodeRef,
    /// `None` while the transform is still the identity.
    pub local: Option<S>,
    pub kind: T,
}

/// The part of an entity builder that is not the node.
#[derive(Clone, Copy, Debug)]
pub struct EntityBuilder {
    pub mesh: MeshRef,
}

/// The part of a sprite builder that is not the node.
#[derive(Clone, Copy, Debug)]
pub struct SpriteBuilder {
    pub image: ImageRef,
    pub uv: Option<UvRange>,
}

/// The part of a light builder that is not the node.
#[derive(Clone, Copy, Debug)]
pub struct LightBuilder {
    pub color: Color,
    pub intensity_bits: u32,
    pub kind: LightKind,
}

impl<S: Copy> Scene<S> {
    /// A scene that holds only the root node, whose transform is `identity`.
    pub fn new(identity: S) -> (r: Scene<S>)
        ensures
            r.wf(),
            r.node_seq() == seq![(Node { parent: NodeRef(0), local: identity })],
            r.light_seq().len() == 0,
    {
        let mut nodes: Vec<Node<S>> = Vec::new();
        nodes.push(Node { parent: NodeRef(0), local: identity });
        let r = Scene { world: hecs::World::new(), nodes: Array(nodes), lights: Array(Vec::new()) };
        assert(r.node_seq() =~= seq![(Node { parent: NodeRef(0), local: identity })]);
        r
    }

    /// Appends a node and returns its handle.
    fn add_node_impl(&mut self, parent: NodeRef, local: S) -> (r: NodeRef)
        requires
            old(self).wf(),
            parent.0 < old(self).node_seq().len(),
            old(self).node_seq().len() <= u32::MAX,
        ensures
            final(self).wf(),
            r.0 == old(self).node_seq().len(),
            final(self).node_seq() == old(self).node_seq().push((Node { parent, local })),
            final(self).light_seq() == old(self).light_seq(),
            final(self).world == old(self).world,
    {
        let index = self.nodes.0.len();
        self.nodes.0.push(Node { parent, local });
        assert(forall|i: int|
            0 < i < self.node_seq().len() ==> (#[trigger] self.node_seq()[i]).parent.0 < i) by {
            assert forall|i: int| 0 < i < self.node_seq().len() implies (
            #[trigger] self.node_seq()[i]).parent.0 < i by {
                if i < index {
                    assert(self.node_seq()[i] == old(self).node_seq()[i]);
                }
            }
        }
        assert(forall|i: int|
            0 <= i < self.light_seq().len() ==> (#[trigger] self.light_seq()[i]).node.0
                < self.node_seq().len()) by {
            assert forall|i: int| 0 <= i < self.light_seq().len() implies (
            #[trigger] self.light_seq()[i]).node.0 < self.node_seq().len() by {
                assert(self.light_seq()[i] == old(self).light_seq()[i]);
            }
        }
        NodeRef(index as u32)
    }

    /// Starts a plain node under the root.
    pub fn add_node(&self) -> (r: ObjectBuilder<S, ()>)
        ensures
            r.parent.0 == 0,
            r.local.is_none(),
    {
        ObjectBuilder { parent: NodeRef(0), local: None, kind: () }
    }

    /// Starts an entity that draws `mesh`.
    pub fn add_entity(&self, mesh: MeshRef) -> (r: ObjectBuilder<S, EntityBuilder>)
        ensures
            r.parent.0 == 0,
            r.local.is_none(),
            r.kind.mesh == mesh,
    {
        ObjectBuilder { parent: NodeRef(0), local: None, kind: EntityBuilder { mesh } }
    }

    /// Starts a sprite that shows the whole of `image`.
    pub fn add_sprite(&self, image: ImageRef) -> (r: ObjectBuilder<S, SpriteBuilder>)
        ensures
            r.parent.0 == 0,
            r.local.is_none(),
            r.kind.image == image,
            r.kind.uv.is_none(),
    {
        ObjectBuilder { parent: NodeRef(0), local: None, kind: SpriteBuilder { image, uv: None } }
    }

    /// Starts a white light of intensity one.
    pub fn add_light(&self, kind: LightKind) -> (r: ObjectBuilder<S, LightBuilder>)
        ensures
            r.parent.0 == 0,
            r.local.is_none(),
            r.kind.kind == kind,
            r.kind.color == Color(0xFFFF_FFFF),
            r.kind.intensity_bits == DEFAULT_INTENSITY_BITS,
    {
        ObjectBuilder {
            parent: NodeRef(0),
            local: None,
            kind: LightBuilder {
                color: Color(0xFFFF_FFFF),
                intensity_bits: DEFAULT_INTENSITY_BITS,
                kind,
            },
        }
    }

    /// Starts a directional light.
    pub fn add_directional_light(&self) -> (r: ObjectBuilder<S, LightBuilder>)
        ensures
            r.parent.0 == 0,
            r.local.is_none(),
            r.kind.kind == LightKind::Directional,
            r.kind.color == Color(0xFFFF_FFFF),
            r.kind.intensity_bits == DEFAULT_INTENSITY_BITS,
    {
        self.add_light(LightKind::Directional)
    }

    /// Starts a point light.
    pub fn add_point_light(&self) -> (r: ObjectBuilder<S, LightBuilder>)
        ensures
            r.parent.0 == 0,
            r.local.is_none(),
            r.kind.kind == LightKind::Point,
            r.kind.color == Color(0xFFFF_FFFF),
            r.kind.intensity_bits == DEFAULT_INTENSITY_BITS,
    {
        self.add_light(LightKind::Point)
    }

    /// The node behind a handle.
    pub fn node(&self, node: NodeRef) -> (r: &Node<S>)
        requires
            node.0 < self.node_seq().len(),
        ensures
            *r == self.node_seq()[node.0 as int],
    {
        &self.nodes.0[node.0 as usize]
    }

    /// Replaces the transform of an existing node, keeping its parent; this
    /// is how a node is animated between frames.
    pub fn set_local(&mut self, node: NodeRef, local: S)
        requires
            old(self).wf(),
            node.0 < old(self).node_seq().len(),
        ensures
            final(self).wf(),
            final(self).node_seq() == old(self).node_seq().update(
                node.0 as int,
                (Node { parent: old(self).node_seq()[node.0 as int].parent, local }),
            ),
            final(self).light_seq() == old(self).light_seq(),
            final(self).world == old(self).world,
    {
        let i = node.0 as usize;
        let parent = self.nodes.0[i].parent;
        self.nodes.0.set(i, Node { parent, local });
        assert(forall|j: int|
            0 < j < self.node_seq().len() ==> (#[trigger] self.node_seq()[j]).parent.0 < j) by {
            assert forall|j: int| 0 < j < self.node_seq().len() implies (
            #[trigger] self.node_seq()[j]).parent.0 < j by {
                assert(self.node_seq()[j].parent == old(self).node_seq()[j].parent);
            }
        }
        assert(forall|j: int|
            0 <= j < self.light_seq().len() ==> (#[trigger] self.light_seq()[j]).node.0
                < self.node_seq().len()) by {
            assert forall|j: int| 0 <= j < self.light_seq().len() implies (
            #[trigger] self.light_seq()[j]).node.0 < self.node_seq().len() by {
                assert(self.light_seq()[j] == old(self).light_seq()[j]);
            }
        }
    }

    /// Replaces an existing light.
    pub fn set_light(&mut self, handle: LightRef, light: Light)
        requires
            old(self).wf(),
            handle.0 < old(self).light_seq().len(),
            light.node.0 < old(self).node_seq().len(),
        ensures
            final(self).wf(),
            final(self).light_seq() == old(self).light_seq().update(handle.0 as int, light),
            final(self).node_seq() == old(self).node_seq(),
            final(self).world == old(self).world,
    {
        self.lights.0.set(handle.0 as usize, light);
        assert(forall|j: int|
            0 <= j < self.light_seq().len() ==> (#[trigger] self.light_seq()[j]).node.0
                < self.node_seq().len()) by {
            assert forall|j: int| 0 <= j < self.light_seq().len() implies (
            #[trigger] self.light_seq()[j]).node.0 < self.node_seq().len() by {
                if j != handle.0 as int {
                    assert(self.light_seq()[j] == old(self).light_seq()[j]);
                }
            }
        }
    }

    /// The light behind a handle.
    pub fn light(&self, light: LightRef) -> (r: Light)
        requires
            light.0 < self.light_seq().len(),
        ensures
            r == self.light_seq()[light.0 as int],
    {
        self.lights.0[light.0 as usize]
    }

    /// Every light with its handle, in the order they were added.
    pub fn lights(&self) -> (r: Vec<(LightRef, Light)>)
        requires
            self.wf(),
        ensures
            r@.len() == self.light_seq().len(),
            forall|i: int|
                0 <= i < r@.len() ==> #[trigger] r@[i] == (LightRef(i as u32), self.light_seq()[i]),
    {
        self.uploaded_lights(self.lights.0.len())
    }

    /// The lights that fit in a buffer of `capacity` lights: the first ones
    /// added, in order; the rest are left out.
    pub fn uploaded_lights(&self, capacity: usize) -> (r: Vec<(LightRef, Light)>)
        requires
            self.wf(),
        ensures
            r@.len() == if self.light_seq().len() < capacity {
                self.light_seq().len()
            } else {
                capacity as nat
            },
            forall|i: int|
                0 <= i < r@.len() ==> #[trigger] r@[i] == (LightRef(i as u32), self.light_seq()[i]),
    {
        let count = if self.lights.0.len() < capacity {
            self.lights.0.len()
        } else {
            capacity
        };
        let mut r: Vec<(LightRef, Light)> = Vec::new();
        let mut i: usize = 0;
        while i < count
            invariant
                count <= self.light_seq().len() <= 0x1_0000_0000,
                i <= count,
                r@.len() == i,
                forall|j: int|
                    0 <= j < i ==> #[trigger] r@[j] == (LightRef(j as u32), self.light_seq()[j]),
            decreases count - i,
        {
            r.push((LightRef(i as u32), self.lights.0[i]));
            i = i + 1;
        }
        r
    }

    /// Resolves every node into its world-space transform, in creation
    /// order, so that a parent is always resolved before its children.
    pub fn bake<F: Fn(&S, &S) -> S>(&self, combine: F) -> (r: BakedScene<S>)
        requires
            self.wf(),
            forall|a: &S, b: &S| combine.requires((a, b)),
        ensures
            bakes_to(self.node_seq(), combine, r.spaces@),
    {
        let n = self.nodes.0.len();
        let mut spaces: Vec<S> = Vec::new();
        let mut i: usize = 0;
        while i < n
            invariant
                self.wf(),
                n == self.node_seq().len(),
                forall|a: &S, b: &S| combine.requires((a, b)),
                i <= n,
                spaces@.len() == i,
                forall|j: int| 0 <= j < i ==> #[trigger] bake_step(self.node_seq(), combine, spaces@, j),
            decreases n - i,
        {
            let node = &self.nodes.0[i];
            let space = if node.parent.0 == 0 {
                node.local
            } else {
                combine(&spaces[node.parent.0 as usize], &node.local)
            };
            let ghost before = spaces@;
            spaces.push(space);
            assert forall|j: int| 0 <= j <= i implies #[trigger] bake_step(
                self.node_seq(),
                combine,
                spaces@,
                j,
            ) by {
                if j < i {
                    assert(bake_step(self.node_seq(), combine, before, j));
                    assert(spaces@[j] == before[j]);
                    if self.node_seq()[j].parent.0 != 0 {
                        assert(spaces@[self.node_seq()[j].parent.0 as int] == before[self.node_seq()[j].parent.0 as int]);
                    }
                } else {
                    if self.node_seq()[j].parent.0 != 0 {
                        assert(spaces@[self.node_seq()[j].parent.0 as int] == before[self.node_seq()[j].parent.0 as int]);
                    }
                }
            }
            i = i + 1;
        }
        BakedScene { spaces }
    }
}

impl<S: Copy, T> ObjectBuilder<S, T> {
    /// `node` is what building placed: the parent itself while no transform
    /// was set, else a node appended under the parent.
    pub open spec fn placed(&self, before: Seq<Node<S>>, after: Seq<Node<S>>, node: NodeRef) -> bool {
        match self.local {
            None => after == before && node == self.parent,
            Some(local) => after == before.push((Node { parent: self.parent, local }))
                && node.0 == before.len(),
        }
    }

    /// Sets the node that the object is placed under.
    pub fn parent(self, parent: NodeRef) -> (r: Self)
        ensures
            r.parent == parent,
            r.local == self.local,
            r.kind == self.kind,
    {
        ObjectBuilder { parent, local: self.local, kind: self.kind }
    }

    /// Sets the transform relative to the parent.
    pub fn local(self, local: S) -> (r: Self)
        ensures
            r.parent == self.parent,
            r.local == Some(local),
            r.kind == self.kind,
    {
        ObjectBuilder { parent: self.parent, local: Some(local), kind: self.kind }
    }

    /// The node of an object: with no transform of its own the object shares
    /// its parent's node, and no node is created.
    fn place(&self, scene: &mut Scene<S>) -> (r: NodeRef)
        requires
            old(scene).wf(),
            self.parent.0 < old(scene).node_seq().len(),
            old(scene).node_seq().len() <= u32::MAX,
        ensures
            final(scene).wf(),
            self.placed(old(scene).node_seq(), final(scene).node_seq(), r),
            r.0 < final(scene).node_seq().len(),
            final(scene).light_seq() == old(scene).light_seq(),
            final(scene).world == old(scene).world,
    {
        match self.local {
            None => self.parent,
            Some(local) => scene.add_node_impl(self.parent, local),
        }
    }
}

impl<S: Copy> ObjectBuilder<S, ()> {
    /// Appends the node, with the identity as its transform if none was
    /// set, and returns its handle.
    pub fn build(&self, scene: &mut Scene<S>) -> (r: NodeRef)
        requires
            old(scene).wf(),
            self.parent.0 < old(scene).node_seq().len(),
            old(scene).node_seq().len() <= u32::MAX,
        ensures
            final(scene).wf(),
            r.0 == old(scene).node_seq().len(),
            final(scene).node_seq() == old(scene).node_seq().push(
                (Node {
                    parent: self.parent,
                    local: match self.local {
                        Some(l) => l,
                        None => old(scene).node_seq()[0].local,
                    },
                }),
            ),
            final(scene).light_seq() == old(scene).light_seq(),
            final(scene).world == old(scene).world,
    {
        let local = match self.local {
            Some(l) => l,
            None => scene.nodes.0[0].local,
        };
        scene.add_node_impl(self.parent, local)
    }
}

impl<S: Copy> ObjectBuilder<S, EntityBuilder> {
    /// The entity component of the object, with its node placed.
    pub fn build(&self, scene: &mut Scene<S>) -> (r: Entity)
        requires
            old(scene).wf(),
            self.parent.0 < old(scene).node_seq().len(),
            old(scene).node_seq().len() <= u32::MAX,
        ensures
            final(scene).wf(),
            self.placed(old(scene).node_seq(), final(scene).node_seq(), r.node),
            r.mesh == self.kind.mesh,
            final(scene).light_seq() == old(scene).light_seq(),
            final(scene).world == old(scene).world,
    {
        let node = self.place(scene);
        Entity { node, mesh: self.kind.mesh }
    }
}

impl<S: Copy> ObjectBuilder<S, SpriteBuilder> {
    /// Shows only the `uv` rectangle of the image.
    pub fn uv(self, uv: UvRange) -> (r: Self)
        ensures
            r.parent == self.parent,
            r.local == self.local,
            r.kind.image == self.kind.image,
            r.kind.uv == Some(uv),
    {
        ObjectBuilder {
            parent: self.parent,
            local: self.local,
            kind: SpriteBuilder { image: self.kind.image, uv: Some(uv) },
        }
    }

    /// The sprite component of the object, with its node placed.
    pub fn build(&self, scene: &mut Scene<S>) -> (r: Sprite)
        requires
            old(scene).wf(),
            self.parent.0 < old(scene).node_seq().len(),
            old(scene).node_seq().len() <= u32::MAX,
        ensures
            final(scene).wf(),
            self.placed(old(scene).node_seq(), final(scene).node_seq(), r.node),
            r.image == self.kind.image,
            r.uv == self.kind.uv,
            final(scene).light_seq() == old(scene).light_seq(),
            final(scene).world == old(scene).world,
    {
        let node = self.place(scene);
        Sprite { node, image: self.kind.image, uv: self.kind.uv }
    }
}

impl<S: Copy> ObjectBuilder<S, LightBuilder> {
    /// Sets the intensity, given as the bit pattern of an IEEE-754 single.
    pub fn intensity_bits(self, intensity_bits: u32) -> (r: Self)
        ensures
            r.parent == self.parent,
            r.local == self.local,
            r.kind == (LightBuilder { intensity_bits, ..self.kind }),
    {
        ObjectBuilder {
            parent: self.parent,
            local: self.local,
            kind: LightBuilder { intensity_bits, ..self.kind },
        }
    }

    /// Sets the color.
    pub fn color(self, color: Color) -> (r: Self)
        ensures
            r.parent == self.parent,
            r.local == self.local,
            r.kind == (LightBuilder { color, ..self.kind }),
    {
        ObjectBuilder { parent: self.parent, local: self.local, kind: LightBuilder { color, ..self.kind } }
    }

    /// Places the light's node and appends the light to the light list.
    pub fn build(&self, scene: &mut Scene<S>) -> (r: LightRef)
        requires
            old(scene).wf(),
            self.parent.0 < old(scene).node_seq().len(),
            old(scene).node_seq().len() <= u32::MAX,
            old(scene).light_seq().len() <= u32::MAX,
        ensures
            final(scene).wf(),
            r.0 == old(scene).light_seq().len(),
            self.placed(
                old(scene).node_seq(),
                final(scene).node_seq(),
                final(scene).light_seq()[r.0 as int].node,
            ),
            final(scene).light_seq() == old(scene).light_seq().push(
                (Light {
                    node: final(scene).light_seq()[r.0 as int].node,
                    color: self.kind.color,
                    intensity_bits: self.kind.intensity_bits,
                    kind: self.kind.kind,
                }),
            ),
            final(scene).world == old(scene).world,
    {
        let node = self.place(scene);
        let light = Light {
            node,
            color: self.kind.color,
            intensity_bits: self.kind.intensity_bits,
            kind: self.kind.kind,
        };
        let index = scene.lights.0.len();
        scene.lights.0.push(light);
        assert(forall|i: int|
            0 <= i < scene.light_seq().len() ==> (#[trigger] scene.light_seq()[i]).node.0
                < scene.node_seq().len()) by {
            assert forall|i: int| 0 <= i < scene.light_seq().len() implies (
            #[trigger] scene.light_seq()[i]).node.0 < scene.node_seq().len() by {
                if i < index {
                    assert(scene.light_seq()[i] == old(scene).light_seq()[i]);
                }
            }
        }
        LightRef(index as u32)
    }
}

impl<S> BakedScene<S> {
    /// The world-space transform of a node.
    pub fn get(&self, node: NodeRef) -> (r: &S)
        requires
            node.0 < self.spaces@.len(),
        ensures
            *r == self.spaces@[node.0 as int],
    {
        &self.spaces[node.0 as usize]
    }
}

} // verus!
