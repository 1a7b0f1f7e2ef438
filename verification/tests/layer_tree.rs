use layers::geometry::{identity, Matrix4, FLOAT_ONE_BITS, FLOAT_ZERO_BITS};
use layers::tree::{
    CommonLayer, ContainerLayer, ImageLayer, Layer, LayerTree, TiledImageLayer,
};

fn fresh_tree_with_container() -> (LayerTree, usize) {
    let mut tree = LayerTree::new();
    let c = tree.insert(Layer::ContainerLayerKind(ContainerLayer()));
    (tree, c)
}

fn image_layer_node(tree: &mut LayerTree, image: usize) -> usize {
    tree.insert(Layer::ImageLayerKind(ImageLayer(image)))
}

#[test]
fn identity_is_the_float_identity() {
    let m = identity();
    assert_eq!(f32::from_bits(m.m11), 1.0);
    assert_eq!(f32::from_bits(m.m22), 1.0);
    assert_eq!(f32::from_bits(m.m33), 1.0);
    assert_eq!(f32::from_bits(m.m44), 1.0);
    assert_eq!(f32::from_bits(m.m12), 0.0);
    assert_eq!(f32::from_bits(m.m41), 0.0);
    assert_eq!(m.m11, FLOAT_ONE_BITS);
    assert_eq!(m.m21, FLOAT_ZERO_BITS);
}

#[test]
fn fresh_layers_are_detached_with_identity_transform() {
    let common = CommonLayer();
    assert_eq!(common.parent, None);
    assert_eq!(common.prev_sibling, None);
    assert_eq!(common.next_sibling, None);
    assert_eq!(common.transform, identity());

    let container = ContainerLayer();
    assert_eq!(container.first_child, None);
    assert_eq!(container.last_child, None);
    assert_eq!(container.common.parent, None);

    let image_layer = ImageLayer(3);
    assert_eq!(image_layer.image, 3);
    assert_eq!(image_layer.common.parent, None);
}

#[test]
fn tiled_image_layer_copies_the_tiles() {
    let tiles = vec![4usize, 5, 6, 7, 8, 9];
    let layer = TiledImageLayer(&tiles, 3);
    assert_eq!(layer.tiles, tiles);
    assert_eq!(layer.tiles_across, 3);
    assert_eq!(layer.common.parent, None);
}

#[test]
fn add_child_yields_reverse_insertion_order() {
    let (mut tree, c) = fresh_tree_with_container();
    let first = image_layer_node(&mut tree, 0);
    let second = image_layer_node(&mut tree, 1);
    let third = image_layer_node(&mut tree, 2);
    tree.add_child(c, first);
    tree.add_child(c, second);
    tree.add_child(c, third);

    let seen = tree.each_child(c, |_i| true);
    assert_eq!(seen, vec![third, second, first]);
}

#[test]
fn child_chain_has_consistent_links_at_every_step() {
    let (mut tree, c) = fresh_tree_with_container();
    let mut ids = Vec::new();
    for image in 0..4usize {
        let node = image_layer_node(&mut tree, image);
        tree.add_child(c, node);
        ids.push(node);
    }
    ids.reverse();

    // Walk first_child -> next_sibling: a single chain ending at last_child.
    let mut walked = Vec::new();
    let mut cur = match &tree.nodes[c] {
        Layer::ContainerLayerKind(l) => l.first_child,
        _ => panic!("expected a container"),
    };
    while let Some(i) = cur {
        walked.push(i);
        cur = tree.get_common(i).next_sibling;
    }
    assert_eq!(walked, ids);
    let last = match &tree.nodes[c] {
        Layer::ContainerLayerKind(l) => l.last_child,
        _ => panic!("expected a container"),
    };
    assert_eq!(last, Some(*ids.last().unwrap()));

    // Back links mirror the chain at every step.
    for (k, &node) in walked.iter().enumerate() {
        let common = tree.get_common(node);
        assert_eq!(common.parent, Some(c));
        if k == 0 {
            assert_eq!(common.prev_sibling, None);
        } else {
            assert_eq!(common.prev_sibling, Some(walked[k - 1]));
        }
        if k == walked.len() - 1 {
            assert_eq!(common.next_sibling, None);
        } else {
            assert_eq!(common.next_sibling, Some(walked[k + 1]));
        }
    }
}

#[test]
fn add_child_sets_parent_and_adjacency() {
    let (mut tree, c) = fresh_tree_with_container();
    let a = image_layer_node(&mut tree, 0);
    let b = image_layer_node(&mut tree, 1);
    tree.add_child(c, a);
    tree.add_child(c, b);

    let common_b = tree.get_common(b);
    assert_eq!(common_b.parent, Some(c));
    assert_eq!(common_b.prev_sibling, None);
    assert_eq!(common_b.next_sibling, Some(a));

    let common_a = tree.get_common(a);
    assert_eq!(common_a.parent, Some(c));
    assert_eq!(common_a.prev_sibling, Some(b));
    assert_eq!(common_a.next_sibling, None);
}

#[test]
fn try_add_child_refuses_an_attached_node_and_mutates_nothing() {
    let (mut tree, c) = fresh_tree_with_container();
    let other = tree.insert(Layer::ContainerLayerKind(ContainerLayer()));
    let node = image_layer_node(&mut tree, 0);
    assert!(tree.try_add_child(c, node));

    // The node now has a parent: linking it elsewhere must fail fast.
    let nodes_before = tree.nodes.clone();
    assert!(!tree.try_add_child(other, node));
    assert_eq!(tree.nodes, nodes_before);
    assert_eq!(tree.each_child(other, |_i| true), Vec::<usize>::new());
    assert_eq!(tree.get_common(node).parent, Some(c));
}

#[test]
fn each_child_on_empty_container_visits_nothing() {
    let (tree, c) = fresh_tree_with_container();
    let seen = tree.each_child(c, |_i| true);
    assert!(seen.is_empty());
}

#[test]
fn each_child_stops_after_first_when_told_to() {
    let (mut tree, c) = fresh_tree_with_container();
    for image in 0..5usize {
        let node = image_layer_node(&mut tree, image);
        tree.add_child(c, node);
    }
    let seen = tree.each_child(c, |_i| false);
    assert_eq!(seen.len(), 1);
}

#[test]
fn each_child_stops_where_the_visitor_says() {
    let (mut tree, c) = fresh_tree_with_container();
    let mut ids = Vec::new();
    for image in 0..5usize {
        let node = image_layer_node(&mut tree, image);
        tree.add_child(c, node);
        ids.push(node);
    }
    ids.reverse();
    let stop_at = ids[2];
    let seen = tree.each_child(c, |i| i != stop_at);
    assert_eq!(seen, ids[..3].to_vec());
}

#[test]
fn set_transform_replaces_only_the_transform() {
    let (mut tree, c) = fresh_tree_with_container();
    let node = image_layer_node(&mut tree, 0);
    tree.add_child(c, node);

    let skewed = Matrix4 { m12: f32::to_bits(2.5), ..identity() };
    tree.set_transform(node, skewed);

    let common = tree.get_common(node);
    assert_eq!(common.transform, skewed);
    assert_eq!(f32::from_bits(common.transform.m12), 2.5);
    assert_eq!(common.parent, Some(c));
    assert_eq!(tree.get_common(c).transform, identity());
}

#[test]
fn common_layer_set_transform_stores_the_matrix() {
    let mut common = CommonLayer();
    let m = Matrix4 { m34: f32::to_bits(-1.0), ..identity() };
    common.set_transform(m);
    assert_eq!(common.transform, m);
    assert_eq!(common.parent, None);
}

#[test]
fn with_common_dispatches_over_every_variant() {
    let container = Layer::ContainerLayerKind(ContainerLayer());
    let image = Layer::ImageLayerKind(ImageLayer(9));
    let tiled = Layer::TiledImageLayerKind(TiledImageLayer(&vec![1, 2], 2));
    for layer in [&container, &image, &tiled] {
        let transform = layer.with_common(|common| common.transform);
        assert_eq!(transform, identity());
        assert_eq!(layer.get_common().parent, None);
    }
}

#[test]
fn set_image_points_the_layer_elsewhere() {
    let mut layer = ImageLayer(1);
    layer.set_image(8);
    assert_eq!(layer.image, 8);

    let (mut tree, c) = fresh_tree_with_container();
    let node = image_layer_node(&mut tree, 1);
    tree.add_child(c, node);
    tree.set_image(node, 8);
    match &tree.nodes[node] {
        Layer::ImageLayerKind(l) => {
            assert_eq!(l.image, 8);
            assert_eq!(l.common.parent, Some(c));
        },
        _ => panic!("expected an image layer"),
    }
}

#[test]
fn containers_nest_and_keep_their_own_lists() {
    let (mut tree, root) = fresh_tree_with_container();
    let inner = tree.insert(Layer::ContainerLayerKind(ContainerLayer()));
    let leaf_in_root = image_layer_node(&mut tree, 0);
    let leaf_in_inner = image_layer_node(&mut tree, 1);
    tree.add_child(root, leaf_in_root);
    tree.add_child(root, inner);
    tree.add_child(inner, leaf_in_inner);

    assert_eq!(tree.each_child(root, |_i| true), vec![inner, leaf_in_root]);
    assert_eq!(tree.each_child(inner, |_i| true), vec![leaf_in_inner]);
    assert_eq!(tree.get_common(inner).parent, Some(root));
    assert_eq!(tree.get_common(leaf_in_inner).parent, Some(inner));
}

#[test]
fn a_container_holds_children_of_every_kind() {
    let (mut tree, root) = fresh_tree_with_container();
    let image = image_layer_node(&mut tree, 0);
    let tiled = tree.insert(Layer::TiledImageLayerKind(TiledImageLayer(&vec![1, 2, 3, 4], 2)));
    let container = tree.insert(Layer::ContainerLayerKind(ContainerLayer()));
    tree.add_child(root, image);
    tree.add_child(root, tiled);
    tree.add_child(root, container);

    assert_eq!(tree.each_child(root, |_i| true), vec![container, tiled, image]);
    match &tree.nodes[tiled] {
        Layer::TiledImageLayerKind(l) => {
            assert_eq!(l.tiles, vec![1, 2, 3, 4]);
            assert_eq!(l.tiles_across, 2);
            assert_eq!(l.common.parent, Some(root));
        },
        _ => panic!("expected a tiled image layer"),
    }
}

#[test]
fn insert_assigns_successive_indices() {
    let mut tree = LayerTree::new();
    assert_eq!(tree.node_count(), 0);
    let a = tree.insert(Layer::ContainerLayerKind(ContainerLayer()));
    let b = tree.insert(Layer::ImageLayerKind(ImageLayer(0)));
    assert_eq!((a, b), (0, 1));
    assert_eq!(tree.node_count(), 2);
}
