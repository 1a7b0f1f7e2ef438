//! The layer tree: an arena of layer nodes linked by indices.
//!
//! Every layer embeds a [`CommonLayer`] holding its transform and its
//! intrusive tree links (parent, previous and next sibling). The links are
//! indices into the arena's node vector, so the mutually-referential tree
//! needs no ownership cycles. A ghost map records, for every container,
//! its child list in order; the well-formedness predicate [`LayerTree::wf`]
//! ties the intrusive links to that list and every operation preserves it.

use vstd::prelude::*;
use vstd::pervasive::unreached;

use crate::geometry::Matrix4;
use crate::geometry::identity;

verus! {

/// Fields shared by every layer variant: the intrusive tree links and the
/// local transform. Links are arena indices; `None` means detached.
#[derive(Clone, Copy, PartialEq, Eq, Structural, Debug)]
pub struct CommonLayer {
    pub parent: Option<usize>,
    pub prev_sibling: Option<usize>,
    pub next_sibling: Option<usize>,
    pub transform: Matrix4,
}

impl CommonLayer {
    /// No parent and no siblings.
    pub open spec fn is_detached(self) -> bool {
        &&& self.parent is None
        &&& self.prev_sibling is None
        &&& self.next_sibling is None
    }

    /// Replaces the transform; any matrix is accepted.
    pub fn set_transform(&mut self, new_transform: Matrix4)
        ensures
            *final(self) == (CommonLayer { transform: new_transform, ..*old(self) }),
    {
        self.transform = new_transform;
    }
}

/// A fresh `CommonLayer`: detached, carrying the identity transform.
#[allow(non_snake_case)]
pub fn CommonLayer() -> (r: CommonLayer)
    ensures
        r.is_detached(),
        r.transform.is_identity(),
{
    CommonLayer { parent: None, prev_sibling: None, next_sibling: None, transform: identity() }
}

/// A container layer: an ordered list of child layers reached through
/// `first_child` and the children's sibling links.
#[derive(Clone, PartialEq, Eq, Debug)]
pub struct ContainerLayer {
    pub common: CommonLayer,
    pub first_child: Option<usize>,
    pub last_child: Option<usize>,
}

/// A fresh, childless, detached container layer.
#[allow(non_snake_case)]
pub fn ContainerLayer() -> (r: ContainerLayer)
    ensures
        r.common.is_detached(),
        r.common.transform.is_identity(),
        r.first_child is None,
        r.last_child is None,
{
    ContainerLayer { common: CommonLayer(), first_child: None, last_child: None }
}

/// A leaf layer showing one image, referenced by the caller's image id.
#[derive(Clone, PartialEq, Eq, Debug)]
pub struct ImageLayer {
    pub common: CommonLayer,
    pub image: usize,
}

impl ImageLayer {
    /// Points the layer at another image.
    pub fn set_image(&mut self, new_image: usize)
        ensures
            *final(self) == (ImageLayer { image: new_image, ..*old(self) }),
    {
        self.image = new_image;
    }
}

/// A fresh, detached image layer showing `image`.
#[allow(non_snake_case)]
pub fn ImageLayer(image: usize) -> (r: ImageLayer)
    ensures
        r.common.is_detached(),
        r.common.transform.is_identity(),
        r.image == image,
{
    ImageLayer { common: CommonLayer(), image }
}

/// A leaf layer showing a row-major grid of image tiles, `tiles_across`
/// tiles per row.
#[derive(Clone, PartialEq, Eq, Debug)]
pub struct TiledImageLayer {
    pub common: CommonLayer,
    pub tiles: Vec<usize>,
    pub tiles_across: usize,
}

/// A fresh, detached tiled layer holding a copy of the given tile ids.
#[allow(non_snake_case)]
pub fn TiledImageLayer(in_tiles: &Vec<usize>, tiles_across: usize) -> (r: TiledImageLayer)
    ensures
        r.common.is_detached(),
        r.common.transform.is_identity(),
        r.tiles@ == in_tiles@,
        r.tiles_across == tiles_across,
{
    let mut tiles: Vec<usize> = Vec::new();
    let mut i: usize = 0;
    while i < in_tiles.len()
        invariant
            i <= in_tiles@.len(),
            tiles@ == in_tiles@.take(i as int),
        decreases in_tiles@.len() - i,
    {
        tiles.push(in_tiles[i]);
        proof {
            assert(tiles@ == in_tiles@.take(i + 1));
        }
        i = i + 1;
    }
    proof {
        assert(in_tiles@.take(in_tiles@.len() as int) == in_tiles@);
    }
    TiledImageLayer { common: CommonLayer(), tiles, tiles_across }
}

/// A layer node: the closed variant over the three layer kinds.
#[derive(Clone, PartialEq, Eq, Debug)]
pub enum Layer {
    ContainerLayerKind(ContainerLayer),
    ImageLayerKind(ImageLayer),
    TiledImageLayerKind(TiledImageLayer),
}

impl Layer {
    /// The embedded `CommonLayer` of whichever variant this is.
    pub open spec fn common(self) -> CommonLayer {
        match self {
            Layer::ContainerLayerKind(l) => l.common,
            Layer::ImageLayerKind(l) => l.common,
            Layer::TiledImageLayerKind(l) => l.common,
        }
    }

    /// This layer with its embedded `CommonLayer` replaced by `c`.
    pub open spec fn with_common_set(self, c: CommonLayer) -> Layer {
        match self {
            Layer::ContainerLayerKind(l) => Layer::ContainerLayerKind(
                ContainerLayer { common: c, ..l },
            ),
            Layer::ImageLayerKind(l) => Layer::ImageLayerKind(ImageLayer { common: c, ..l }),
            Layer::TiledImageLayerKind(l) => Layer::TiledImageLayerKind(
                TiledImageLayer { common: c, ..l },
            ),
        }
    }

    /// Detached links, and for a container also an empty child list: the
    /// state a layer must be in before it is linked anywhere.
    pub open spec fn is_detached(self) -> bool {
        &&& self.common().is_detached()
        &&& match self {
            Layer::ContainerLayerKind(l) => l.first_child is None && l.last_child is None,
            _ => true,
        }
    }

    /// Reads the embedded `CommonLayer`, whichever variant this is.
    pub fn get_common(&self) -> (c: CommonLayer)
        ensures
            c == self.common(),
    {
        match self {
            Layer::ContainerLayerKind(l) => l.common,
            Layer::ImageLayerKind(l) => l.common,
            Layer::TiledImageLayerKind(l) => l.common,
        }
    }

    /// Applies `f` to the embedded `CommonLayer` and returns its result:
    /// the one way generic tree code reads the shared fields without
    /// knowing the concrete variant.
    pub fn with_common<R, F: FnOnce(CommonLayer) -> R>(&self, f: F) -> (r: R)
        requires
            call_requires(f, (self.common(),)),
        ensures
            call_ensures(f, (self.common(),), r),
    {
        match self {
            Layer::ContainerLayerKind(l) => f(l.common),
            Layer::ImageLayerKind(l) => f(l.common),
            Layer::TiledImageLayerKind(l) => f(l.common),
        }
    }

    /// Mutable access to the embedded `CommonLayer`, for the tree's own
    /// linking operations.
    pub fn common_mut(&mut self) -> (r: &mut CommonLayer)
        ensures
            *r == old(self).common(),
            *final(self) == old(self).with_common_set(*final(r)),
    {
        match self {
            Layer::ContainerLayerKind(l) => &mut l.common,
            Layer::ImageLayerKind(l) => &mut l.common,
            Layer::TiledImageLayerKind(l) => &mut l.common,
        }
    }
}

/// `a` and `b` are the same kind of layer and show the same content:
/// the same image, or the same tiles in the same grid. Tree links and
/// transforms are not compared.
pub open spec fn same_content(a: Layer, b: Layer) -> bool {
    match (a, b) {
        (Layer::ContainerLayerKind(_), Layer::ContainerLayerKind(_)) => true,
        (Layer::ImageLayerKind(x), Layer::ImageLayerKind(y)) => x.image == y.image,
        (Layer::TiledImageLayerKind(x), Layer::TiledImageLayerKind(y)) => x.tiles@ == y.tiles@
            && x.tiles_across == y.tiles_across,
        _ => false,
    }
}

/// The arena owning every layer node. A layer is addressed by its index
/// in `nodes`; the ghost map `children` gives each container its child
/// list in order, and `wf` ties the intrusive links to those lists.
pub struct LayerTree {
    pub nodes: Vec<Layer>,
    pub children: Ghost<Map<usize, Seq<usize>>>,
}

impl LayerTree {
    /// `i` addresses a node of this tree.
    pub open spec fn valid(self, i: usize) -> bool {
        i < self.nodes@.len()
    }

    /// The node at index `i`.
    pub open spec fn layer(self, i: usize) -> Layer {
        self.nodes@[i as int]
    }

    /// The shared fields of the node at index `i`.
    pub open spec fn common_at(self, i: usize) -> CommonLayer {
        self.layer(i).common()
    }

    /// The node at index `i` exists and is a container.
    pub open spec fn is_container(self, i: usize) -> bool {
        self.valid(i) && self.layer(i) is ContainerLayerKind
    }

    /// The children of container `c`, first child first.
    pub open spec fn child_list(self, c: usize) -> Seq<usize> {
        self.children@[c]
    }

    /// The `first_child` link of container `c`.
    pub open spec fn first_child_of(self, c: usize) -> Option<usize> {
        match self.layer(c) {
            Layer::ContainerLayerKind(l) => l.first_child,
            _ => None,
        }
    }

    /// The `last_child` link of container `c`.
    pub open spec fn last_child_of(self, c: usize) -> Option<usize> {
        match self.layer(c) {
            Layer::ContainerLayerKind(l) => l.last_child,
            _ => None,
        }
    }

    /// The intrusive links of container `c` mirror its child list: the
    /// members are distinct nodes of the tree, `first_child` and
    /// `last_child` are the ends of the list, and every member's parent
    /// and sibling links agree with its position.
    pub open spec fn list_wf(self, c: usize) -> bool {
        let s = self.child_list(c);
        &&& forall|i: int| 0 <= i < s.len() ==> self.valid(#[trigger] s[i])
        &&& forall|i: int, j: int| 0 <= i < j < s.len() ==> s[i] != s[j]
        &&& self.first_child_of(c) == (if s.len() == 0 {
            None
        } else {
            Some(s[0])
        })
        &&& self.last_child_of(c) == (if s.len() == 0 {
            None
        } else {
            Some(s[s.len() - 1])
        })
        &&& forall|i: int|
            0 <= i < s.len() ==> (#[trigger] self.common_at(s[i])).parent == Some(c)
        &&& forall|i: int|
            0 <= i < s.len() ==> (#[trigger] self.common_at(s[i])).prev_sibling == (if i == 0 {
                None
            } else {
                Some(s[i - 1])
            })
        &&& forall|i: int|
            0 <= i < s.len() ==> (#[trigger] self.common_at(s[i])).next_sibling == (if i == s.len()
                - 1 {
                None
            } else {
                Some(s[i + 1])
            })
    }

    /// The tree is well formed: exactly the containers have child lists,
    /// and every child list is mirrored by the intrusive links.
    pub open spec fn wf(self) -> bool {
        &&& forall|c: usize|
            #![trigger self.children@.dom().contains(c)]
            #![trigger self.is_container(c)]
            self.children@.dom().contains(c) <==> self.is_container(c)
        &&& forall|c: usize|
            self.children@.dom().contains(c) ==> #[trigger] self.list_wf(c)
    }

    /// An empty arena.
    pub fn new() -> (r: LayerTree)
        ensures
            r.wf(),
            r.nodes@.len() == 0,
            r.children@ == Map::<usize, Seq<usize>>::empty(),
    {
        LayerTree { nodes: Vec::new(), children: Ghost(Map::empty()) }
    }

    /// How many nodes the arena holds.
    pub fn node_count(&self) -> (n: usize)
        ensures
            n == self.nodes@.len(),
    {
        self.nodes.len()
    }

    /// Reads the shared fields of the node at index `i`.
    pub fn get_common(&self, i: usize) -> (c: CommonLayer)
        requires
            self.valid(i),
        ensures
            c == self.common_at(i),
    {
        self.nodes[i].get_common()
    }

    /// Places a detached layer into the arena and returns its index. The
    /// new node is linked nowhere; a container starts with no children.
    pub fn insert(&mut self, layer: Layer) -> (id: usize)
        requires
            old(self).wf(),
            layer.is_detached(),
        ensures
            final(self).wf(),
            id == old(self).nodes@.len(),
            final(self).nodes@ == old(self).nodes@.push(layer),
            final(self).children@ == (if layer is ContainerLayerKind {
                old(self).children@.insert(id, Seq::<usize>::empty())
            } else {
                old(self).children@
            }),
    {
        let id = self.nodes.len();
        let is_cont = matches!(&layer, Layer::ContainerLayerKind(_));
        proof {
            assert(is_cont == (layer is ContainerLayerKind));
        }
        self.nodes.push(layer);
        if is_cont {
            proof {
                self.children@ = self.children@.insert(id, Seq::<usize>::empty());
            }
        }
        proof {
            let o = *old(self);
            assert(self.nodes@ == o.nodes@.push(layer));
            assert(self.layer(id) == layer);
            assert(!o.valid(id));
            assert(!o.children@.dom().contains(id));
            assert forall|c: usize| self.children@.dom().contains(c) <==> self.is_container(
                c,
            ) by {
                if c == id {
                    if is_cont {
                        assert(self.children@.dom().contains(id));
                        assert(self.is_container(id));
                    } else {
                        assert(self.children@ == o.children@);
                    }
                } else {
                    assert(self.children@.dom().contains(c) == o.children@.dom().contains(c));
                    assert(o.children@.dom().contains(c) <==> o.is_container(c));
                    if c < id {
                        assert(self.layer(c) == o.layer(c));
                    } else {
                        assert(!self.valid(c) && !o.valid(c));
                    }
                }
            }
            assert forall|c: usize| self.children@.dom().contains(c) implies #[trigger] self
                .list_wf(c) by {
                if c == id {
                    assert(is_cont);
                    assert(self.child_list(id) == Seq::<usize>::empty());
                    assert(self.first_child_of(id) is None);
                    assert(self.last_child_of(id) is None);
                } else {
                    assert(o.children@.dom().contains(c));
                    assert(o.is_container(c));
                    assert(o.list_wf(c));
                    let s = o.child_list(c);
                    assert(self.child_list(c) == s);
                    assert(self.layer(c) == o.layer(c));
                    assert forall|i: int| 0 <= i < s.len() implies self.valid(#[trigger] s[i])
                        && self.common_at(s[i]) == o.common_at(s[i]) by {
                        assert(o.valid(s[i]));
                        assert(self.layer(s[i]) == o.layer(s[i]));
                    }
                    assert(self.first_child_of(c) == o.first_child_of(c));
                    assert(self.last_child_of(c) == o.last_child_of(c));
                }
            }
        }
        id
    }
}

/// How a tree changes when `child` is prepended to `parent`'s child list:
/// `child` becomes the first child, the other lists and every node's
/// content and transform stay as they were.
pub open spec fn child_prepended(
    pre: LayerTree,
    post: LayerTree,
    parent: usize,
    child: usize,
) -> bool {
    &&& post.nodes@.len() == pre.nodes@.len()
    &&& post.children@.dom() == pre.children@.dom()
    &&& post.child_list(parent) == seq![child] + pre.child_list(parent)
    &&& forall|x: usize|
        pre.children@.dom().contains(x) && x != parent ==> #[trigger] post.child_list(x)
            == pre.child_list(x)
    &&& post.common_at(child).parent == Some(parent)
    &&& post.common_at(child).prev_sibling is None
    &&& post.common_at(child).next_sibling == pre.first_child_of(parent)
    &&& post.first_child_of(parent) == Some(child)
    &&& post.last_child_of(parent) == (if pre.child_list(parent).len() == 0 {
        Some(child)
    } else {
        pre.last_child_of(parent)
    })
    &&& forall|i: usize|
        pre.valid(i) ==> same_content(#[trigger] post.layer(i), pre.layer(i))
    &&& forall|i: usize|
        pre.valid(i) ==> (#[trigger] post.common_at(i)).transform == pre.common_at(i).transform
    &&& forall|i: usize|
        pre.valid(i) && i != child && i != parent && pre.first_child_of(parent) != Some(i)
            ==> #[trigger] post.layer(i) == pre.layer(i)
}

impl LayerTree {
    /// Links the detached node `child` as the new first child of the
    /// container `parent`: an O(1) prepend, so a later traversal visits
    /// children in reverse insertion order.
    pub fn add_child(&mut self, parent: usize, child: usize)
        requires
            old(self).wf(),
            old(self).is_container(parent),
            old(self).valid(child),
            old(self).common_at(child).is_detached(),
        ensures
            final(self).wf(),
            child_prepended(*old(self), *final(self), parent, child),
    {
        proof {
            let o = *old(self);
            assert(o.children@.dom().contains(parent));
            assert(o.list_wf(parent));
        }
        let old_first: Option<usize> = match &self.nodes[parent] {
            Layer::ContainerLayerKind(l) => l.first_child,
            _ => unreached(),
        };
        // Link the child: its parent is this container and its next
        // sibling is the previous first child.
        let cm = self.nodes[child].common_mut();
        cm.parent = Some(parent);
        cm.next_sibling = old_first;
        // Back-link the previous first child, if the list was not empty.
        match old_first {
            None => {},
            Some(h) => {
                proof {
                    let o = *old(self);
                    let s_old = o.child_list(parent);
                    assert(o.first_child_of(parent) == Some(s_old[0]));
                    assert(h == s_old[0]);
                    assert(o.valid(h));
                    assert(o.common_at(h).parent == Some(parent));
                    assert(h != child);
                }
                let hm = self.nodes[h].common_mut();
                hm.prev_sibling = Some(child);
            },
        }
        // The child becomes the list head; it is also the tail if the
        // list was empty.
        match &mut self.nodes[parent] {
            Layer::ContainerLayerKind(l) => {
                l.first_child = Some(child);
                if l.last_child.is_none() {
                    l.last_child = Some(child);
                }
            },
            _ => unreached(),
        }
        proof {
            let o = *old(self);
            let s_old = o.child_list(parent);
            let s_new = seq![child] + s_old;
            self.children@ = self.children@.insert(parent, s_new);
            assert(self.children@.dom() =~= o.children@.dom());
            assert(self.child_list(parent) == s_new);
            assert(self.nodes@.len() == o.nodes@.len());
            // Which nodes changed: `child` got new links, the old head
            // (if any) got a back link, `parent` got new end pointers.
            assert forall|i: usize|
                o.valid(i) && i != child && i != parent && o.first_child_of(parent) != Some(i)
                    implies #[trigger] self.layer(i) == o.layer(i) by {}
            assert(self.common_at(child).parent == Some(parent));
            assert(self.common_at(child).prev_sibling is None);
            assert(self.common_at(child).next_sibling == old_first);
            assert(self.first_child_of(parent) == Some(child));
            // Every node keeps its kind, content and transform.
            assert forall|i: usize| o.valid(i) implies same_content(
                #[trigger] self.layer(i),
                o.layer(i),
            ) && self.common_at(i).transform == o.common_at(i).transform by {}
            // Members of the old list are valid, distinct from `child`,
            // and keep their commons except the old head's back link.
            assert forall|i: int| 0 <= i < s_old.len() implies o.valid(#[trigger] s_old[i])
                && s_old[i] != child && self.common_at(s_old[i]).parent == Some(parent) by {
                assert(o.common_at(s_old[i]).parent == Some(parent));
            }
            // The new list is mirrored by the links.
            assert(self.list_wf(parent)) by {
                assert forall|i: int| 0 <= i < s_new.len() implies self.valid(#[trigger] s_new[i])
                    by {
                    if i > 0 {
                        assert(s_new[i] == s_old[i - 1]);
                        assert(o.valid(s_old[i - 1]));
                    }
                }
                assert forall|i: int, j: int| 0 <= i < j < s_new.len() implies s_new[i]
                    != s_new[j] by {
                    if i == 0 {
                        assert(s_new[j] == s_old[j - 1]);
                        assert(o.common_at(s_old[j - 1]).parent == Some(parent));
                    } else {
                        assert(s_new[i] == s_old[i - 1] && s_new[j] == s_old[j - 1]);
                    }
                }
                if s_old.len() == 0 {
                    assert(o.first_child_of(parent) is None);
                    assert(self.last_child_of(parent) == Some(child));
                    assert(s_new[s_new.len() - 1] == child);
                } else {
                    assert(o.last_child_of(parent) == Some(s_old[s_old.len() - 1]));
                    assert(self.last_child_of(parent) == o.last_child_of(parent));
                    assert(s_new[s_new.len() - 1] == s_old[s_old.len() - 1]);
                }
                assert forall|i: int| 0 <= i < s_new.len() implies {
                    &&& (#[trigger] self.common_at(s_new[i])).parent == Some(parent)
                    &&& self.common_at(s_new[i]).prev_sibling == (if i == 0 {
                        None
                    } else {
                        Some(s_new[i - 1])
                    })
                    &&& self.common_at(s_new[i]).next_sibling == (if i == s_new.len() - 1 {
                        None
                    } else {
                        Some(s_new[i + 1])
                    })
                } by {
                    if i == 0 {
                        assert(s_new[0] == child);
                        if s_old.len() > 0 {
                            assert(self.common_at(child).next_sibling == Some(s_old[0]));
                            assert(s_new[1] == s_old[0]);
                        }
                    } else {
                        let m = s_old[i - 1];
                        assert(s_new[i] == m);
                        assert(o.common_at(m).parent == Some(parent));
                        assert(m != child);
                        if i == 1 {
                            assert(m == s_old[0]);
                            assert(self.common_at(m).prev_sibling == Some(child));
                            assert(self.common_at(m).next_sibling == o.common_at(m).next_sibling);
                        } else {
                            assert(m != s_old[0]);
                            assert(self.common_at(m) == o.common_at(m));
                            assert(o.common_at(m).prev_sibling == Some(s_old[i - 2]));
                            assert(s_new[i - 1] == s_old[i - 2]);
                        }
                        if i == s_new.len() - 1 {
                            assert(o.common_at(m).next_sibling is None);
                        } else {
                            assert(o.common_at(m).next_sibling == Some(s_old[i]));
                            assert(s_new[i + 1] == s_old[i]);
                        }
                    }
                }
            }
            // The other lists are untouched.
            assert forall|x: usize|
                self.children@.dom().contains(x) && x != parent implies #[trigger] self.list_wf(
                x,
            ) by {
                assert(o.children@.dom().contains(x));
                assert(o.list_wf(x));
                let s = o.child_list(x);
                assert(self.child_list(x) == s);
                assert(self.first_child_of(x) == o.first_child_of(x));
                assert(self.last_child_of(x) == o.last_child_of(x));
                assert forall|i: int| 0 <= i < s.len() implies self.valid(#[trigger] s[i])
                    && self.common_at(s[i]) == o.common_at(s[i]) by {
                    assert(o.valid(s[i]));
                    assert(o.common_at(s[i]).parent == Some(x));
                    assert(s[i] != child);
                    match old_first {
                        None => {},
                        Some(h) => {
                            assert(o.common_at(h).parent == Some(parent));
                            assert(s[i] != h);
                        },
                    }
                }
            }
            assert forall|x: usize| self.children@.dom().contains(x) <==> self.is_container(
                x,
            ) by {
                assert(o.children@.dom().contains(x) <==> o.is_container(x));
                if x < o.nodes@.len() as usize {
                    assert(same_content(self.layer(x), o.layer(x)));
                }
            }
        }
    }

    /// Checks the precondition of `add_child` instead of demanding it:
    /// when `child` is attached anywhere the tree is left exactly as it
    /// was and `false` comes back, so a caller can fail fast.
    pub fn try_add_child(&mut self, parent: usize, child: usize) -> (ok: bool)
        requires
            old(self).wf(),
            old(self).is_container(parent),
            old(self).valid(child),
        ensures
            final(self).wf(),
            ok == old(self).common_at(child).is_detached(),
            ok ==> child_prepended(*old(self), *final(self), parent, child),
            !ok ==> *final(self) == *old(self),
    {
        let c = self.get_common(child);
        if c.parent.is_none() && c.prev_sibling.is_none() && c.next_sibling.is_none() {
            self.add_child(parent, child);
            true
        } else {
            false
        }
    }

    /// Visits the children of container `c` in list order, first child
    /// first, calling `f` on each visited index; the walk stops early the
    /// moment `f` returns false. Returns the visited indices in order: a
    /// prefix of the child list, all but the last visit answered true,
    /// and the walk is cut short exactly when the last visit answered
    /// false.
    pub fn each_child<F: Fn(usize) -> bool>(&self, c: usize, f: F) -> (visited: Vec<usize>)
        requires
            self.wf(),
            self.is_container(c),
            forall|i: int|
                0 <= i < self.child_list(c).len() ==> call_requires(
                    f,
                    (#[trigger] self.child_list(c)[i],),
                ),
        ensures
            visited@ == self.child_list(c).take(visited@.len() as int),
            visited@.len() <= self.child_list(c).len(),
            forall|i: int| 0 <= i < visited@.len() - 1 ==> call_ensures(f, (visited@[i],), true),
            visited@.len() < self.child_list(c).len() ==> visited@.len() >= 1 && call_ensures(
                f,
                (visited@[visited@.len() - 1],),
                false,
            ),
    {
        let ghost s = self.child_list(c);
        proof {
            assert(self.children@.dom().contains(c));
            assert(self.list_wf(c));
        }
        let mut visited: Vec<usize> = Vec::new();
        let mut cur: Option<usize> = match &self.nodes[c] {
            Layer::ContainerLayerKind(l) => l.first_child,
            _ => unreached(),
        };
        let mut stopped = false;
        while !stopped && cur.is_some()
            invariant
                self.wf(),
                self.is_container(c),
                s == self.child_list(c),
                forall|i: int| 0 <= i < s.len() ==> call_requires(f, (#[trigger] s[i],)),
                visited@.len() <= s.len(),
                visited@ == s.take(visited@.len() as int),
                !stopped ==> cur == (if visited@.len() == s.len() {
                    None::<usize>
                } else {
                    Some(s[visited@.len() as int])
                }),
                forall|i: int|
                    0 <= i < visited@.len() - 1 ==> call_ensures(f, (visited@[i],), true),
                !stopped && visited@.len() > 0 ==> call_ensures(
                    f,
                    (visited@[visited@.len() - 1],),
                    true,
                ),
                stopped ==> visited@.len() >= 1 && call_ensures(
                    f,
                    (visited@[visited@.len() - 1],),
                    false,
                ),
            decreases s.len() - visited@.len(),
        {
            let ghost k = visited@.len() as int;
            let i = cur.unwrap();
            proof {
                assert(self.children@.dom().contains(c));
                assert(self.list_wf(c));
                assert(i == s[k]);
                assert(self.valid(i));
                assert(call_requires(f, (s[k],)));
            }
            visited.push(i);
            proof {
                assert(visited@ =~= s.take(k + 1));
            }
            let keep = f(i);
            if !keep {
                stopped = true;
            } else {
                let com = self.get_common(i);
                cur = com.next_sibling;
                proof {
                    assert(self.children@.dom().contains(c));
                    assert(self.list_wf(c));
                    assert(self.common_at(s[k]).next_sibling == (if k == s.len() - 1 {
                        None::<usize>
                    } else {
                        Some(s[k + 1])
                    }));
                }
            }
        }
        proof {
            if !stopped {
                assert(visited@.len() == s.len());
            }
        }
        visited
    }

    /// Replaces the transform of node `i`. The tree structure, every
    /// other node, and `i`'s own links and content stay as they were.
    pub fn set_transform(&mut self, i: usize, new_transform: Matrix4)
        requires
            old(self).wf(),
            old(self).valid(i),
        ensures
            final(self).wf(),
            final(self).nodes@.len() == old(self).nodes@.len(),
            final(self).children@ == old(self).children@,
            final(self).layer(i) == old(self).layer(i).with_common_set(
                CommonLayer { transform: new_transform, ..old(self).common_at(i) },
            ),
            forall|j: usize|
                old(self).valid(j) && j != i ==> final(self).layer(j) == old(self).layer(j),
    {
        let cm = self.nodes[i].common_mut();
        cm.set_transform(new_transform);
        proof {
            self.lemma_links_unchanged_wf(*old(self));
        }
    }

    /// Points the image layer at node `i` at another image. The tree
    /// structure and every other node stay as they were.
    pub fn set_image(&mut self, i: usize, new_image: usize)
        requires
            old(self).wf(),
            old(self).valid(i),
            old(self).layer(i) is ImageLayerKind,
        ensures
            final(self).wf(),
            final(self).nodes@.len() == old(self).nodes@.len(),
            final(self).children@ == old(self).children@,
            final(self).layer(i) == Layer::ImageLayerKind(
                ImageLayer { common: old(self).common_at(i), image: new_image },
            ),
            forall|j: usize|
                old(self).valid(j) && j != i ==> final(self).layer(j) == old(self).layer(j),
    {
        match &mut self.nodes[i] {
            Layer::ImageLayerKind(l) => {
                l.image = new_image;
            },
            _ => unreached(),
        }
        proof {
            self.lemma_links_unchanged_wf(*old(self));
        }
    }

    /// A tree whose node count, child lists, end pointers and every
    /// node's links match a well-formed one is well formed itself: the
    /// well-formedness predicate reads nothing else.
    proof fn lemma_links_unchanged_wf(self, o: LayerTree)
        requires
            o.wf(),
            self.nodes@.len() == o.nodes@.len(),
            self.children@ == o.children@,
            forall|x: usize|
                o.is_container(x) ==> #[trigger] self.first_child_of(x) == o.first_child_of(x)
                    && self.last_child_of(x) == o.last_child_of(x) && self.is_container(x),
            forall|x: usize| !o.is_container(x) ==> !(#[trigger] self.is_container(x)),
            forall|j: usize|
                o.valid(j) ==> (#[trigger] self.common_at(j)).parent == o.common_at(j).parent
                    && self.common_at(j).prev_sibling == o.common_at(j).prev_sibling
                    && self.common_at(j).next_sibling == o.common_at(j).next_sibling,
        ensures
            self.wf(),
    {
        assert forall|x: usize| self.children@.dom().contains(x) implies #[trigger] self.list_wf(
            x,
        ) by {
            assert(o.children@.dom().contains(x));
            assert(o.is_container(x));
            assert(o.list_wf(x));
            let s = o.child_list(x);
            assert(self.child_list(x) == s);
            assert forall|k: int| 0 <= k < s.len() implies self.valid(#[trigger] s[k])
                && self.common_at(s[k]).parent == o.common_at(s[k]).parent && self.common_at(
                s[k],
            ).prev_sibling == o.common_at(s[k]).prev_sibling && self.common_at(s[k]).next_sibling
                == o.common_at(s[k]).next_sibling by {
                assert(o.valid(s[k]));
            }
        }
        assert forall|x: usize| self.children@.dom().contains(x) <==> self.is_container(x) by {
            assert(o.children@.dom().contains(x) <==> o.is_container(x));
            if o.is_container(x) {
                assert(self.first_child_of(x) == o.first_child_of(x));
                assert(self.is_container(x));
            } else {
                assert(!self.is_container(x));
            }
        }
    }
}

/// Law: in a well-formed tree, the chain that starts at a container's
/// `first_child` and follows `next_sibling` runs through the child list
/// in order and terminates exactly at `last_child`, with a consistent
/// back link at every step.
pub proof fn lemma_child_chain(t: LayerTree, c: usize)
    requires
        t.wf(),
        t.is_container(c),
    ensures
        t.first_child_of(c) == (if t.child_list(c).len() == 0 {
            None::<usize>
        } else {
            Some(t.child_list(c)[0])
        }),
        t.last_child_of(c) == (if t.child_list(c).len() == 0 {
            None::<usize>
        } else {
            Some(t.child_list(c)[t.child_list(c).len() - 1])
        }),
        forall|i: int|
            0 <= i < t.child_list(c).len() ==> t.common_at(
                #[trigger] t.child_list(c)[i],
            ).next_sibling == (if i == t.child_list(c).len() - 1 {
                None::<usize>
            } else {
                Some(t.child_list(c)[i + 1])
            }),
        forall|i: int|
            0 <= i < t.child_list(c).len() ==> t.common_at(
                #[trigger] t.child_list(c)[i],
            ).prev_sibling == (if i == 0 {
                None::<usize>
            } else {
                Some(t.child_list(c)[i - 1])
            }),
{
    assert(t.children@.dom().contains(c));
    assert(t.list_wf(c));
}

/// The child list left behind by prepending `items[0]`, then `items[1]`,
/// and so on, onto a list that starts as `start`: one prepend per
/// `add_child` call, as `child_prepended` states.
pub open spec fn prepended_all(start: Seq<usize>, items: Seq<usize>) -> Seq<usize>
    decreases items.len(),
{
    if items.len() == 0 {
        start
    } else {
        prepended_all(seq![items[0]] + start, items.skip(1))
    }
}

/// Law: a sequence of `add_child` calls with detached nodes leaves the
/// children in reverse insertion order - the last node added is the
/// first child. Each call prepends its node (see `child_prepended`), and
/// prepending every item of `items` in turn yields the reversal of
/// `items` in front of whatever was there before.
pub proof fn lemma_prepending_reverses(start: Seq<usize>, items: Seq<usize>)
    ensures
        prepended_all(start, items) == items.reverse() + start,
    decreases items.len(),
{
    if items.len() == 0 {
        assert(items.reverse() + start =~= start);
    } else {
        lemma_prepending_reverses(seq![items[0]] + start, items.skip(1));
        assert(prepended_all(start, items) == items.skip(1).reverse() + (seq![items[0]] + start));
        assert(items.skip(1).reverse() + (seq![items[0]] + start) =~= items.reverse() + start);
    }
}

/// Law: a node linked into container `c` has its parent set to `c` and
/// its sibling links agreeing with the container's actual adjacency at
/// its position.
pub proof fn lemma_linked_child_links(t: LayerTree, c: usize, k: int)
    requires
        t.wf(),
        t.is_container(c),
        0 <= k < t.child_list(c).len(),
    ensures
        t.common_at(t.child_list(c)[k]).parent == Some(c),
        t.common_at(t.child_list(c)[k]).prev_sibling == (if k == 0 {
            None::<usize>
        } else {
            Some(t.child_list(c)[k - 1])
        }),
        t.common_at(t.child_list(c)[k]).next_sibling == (if k == t.child_list(c).len() - 1 {
            None::<usize>
        } else {
            Some(t.child_list(c)[k + 1])
        }),
{
    assert(t.children@.dom().contains(c));
    assert(t.list_wf(c));
}

/// Law: a traversal over an empty container visits nothing, and a
/// visitor that always answers "stop" is called on exactly one child of
/// a non-empty container, however many children it has. `visited` is
/// what `each_child` returned, characterized by its contract.
pub proof fn lemma_each_child_stops_after_first<F: Fn(usize) -> bool>(
    t: LayerTree,
    c: usize,
    f: F,
    visited: Seq<usize>,
)
    requires
        t.wf(),
        t.is_container(c),
        visited == t.child_list(c).take(visited.len() as int),
        visited.len() <= t.child_list(c).len(),
        forall|i: int| 0 <= i < visited.len() - 1 ==> call_ensures(f, (visited[i],), true),
        visited.len() < t.child_list(c).len() ==> visited.len() >= 1 && call_ensures(
            f,
            (visited[visited.len() - 1],),
            false,
        ),
        forall|x: usize, b: bool| call_ensures(f, (x,), b) ==> b == false,
    ensures
        t.child_list(c).len() == 0 ==> visited.len() == 0,
        t.child_list(c).len() > 0 ==> visited.len() == 1,
{
    if t.child_list(c).len() == 0 {
        assert(visited.len() == 0);
    } else {
        if visited.len() >= 2 {
            assert(call_ensures(f, (visited[0],), true));
            assert(false);
        }
        if visited.len() == 0 {
            assert(false);
        }
    }
}

} // verus!
