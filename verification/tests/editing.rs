use mts_schematic::{
    MapVector, Node, NodeSpace, RawNode, Schematic, SpawnProbability,
};

fn mv(x: u16, y: u16, z: u16) -> MapVector {
    MapVector::new(x, y, z).unwrap()
}

fn all_content_names_are(schematic: &Schematic, expected: &str) -> bool {
    let mut iter = schematic.annotated_nodes();
    let mut all = true;
    while let Some(annotated) = iter.next() {
        if annotated.node.content_name != expected {
            all = false;
        }
    }
    all
}

#[test]
fn test_fill() {
    let mut schematic = Schematic::new(mv(2, 2, 2)).unwrap();
    assert!(all_content_names_are(&schematic, "air"));
    schematic.register_content("default:dirt".to_string());
    let node = Node::new(
        "default:dirt".to_string(),
        SpawnProbability::Always,
        false,
        0,
    );

    schematic.fill(mv(0, 0, 0), mv(2, 2, 2), &node).unwrap();

    assert!(
        all_content_names_are(&schematic, "default:dirt"),
        "not all nodes in the schematic were replaced"
    );
}

#[test]
fn editing_test_fill() {
    let mut schematic = Schematic::new(mv(2, 2, 2)).unwrap();
    assert!(all_content_names_are(&schematic, "air"));
    schematic.register_content("default:dirt".to_string());
    let node = Node::new(
        "default:dirt".to_string(),
        SpawnProbability::Always,
        false,
        0,
    );

    schematic.fill(mv(0, 0, 0), mv(2, 2, 2), &node).unwrap();

    assert!(
        all_content_names_are(&schematic, "default:dirt"),
        "not all nodes in the schematic were replaced"
    );
}

#[test]
fn test_fill_out_of_bounds() {
    let mut schematic = Schematic::new(mv(2, 2, 2)).unwrap();
    let node = Node::new("air".to_string(), SpawnProbability::Always, false, 0);

    schematic.fill(mv(0, 0, 0), mv(3, 3, 3), &node).unwrap_err();
}

#[test]
fn editing_test_fill_out_of_bounds() {
    let mut schematic = Schematic::new(mv(2, 2, 2)).unwrap();
    let node = Node::new("air".to_string(), SpawnProbability::Always, false, 0);

    schematic.fill(mv(0, 0, 0), mv(3, 3, 3), &node).unwrap_err();
}

#[test]
fn test_fill_out_of_bounds_leaves_grid_unchanged() {
    let mut schematic = Schematic::new(mv(2, 2, 2)).unwrap();
    schematic.register_content("default:dirt".to_string());
    let before = schematic.clone();
    let before_bytes = schematic.to_bytes();

    let node = Node::new(
        "default:sand".to_string(),
        SpawnProbability::Always,
        false,
        0,
    );
    schematic.fill(mv(1, 1, 1), mv(2, 2, 2), &node).unwrap_err();

    assert_eq!(schematic, before);
    assert_eq!(schematic.to_bytes(), before_bytes);
}

#[test]
fn test_fill_is_idempotent() {
    let mut once = Schematic::new(mv(3, 2, 3)).unwrap();
    let node = Node::new(
        "default:dirt".to_string(),
        SpawnProbability::Always,
        false,
        0,
    );
    once.fill(mv(1, 0, 1), mv(2, 2, 2), &node).unwrap();

    let mut twice = once.clone();
    twice.fill(mv(1, 0, 1), mv(2, 2, 2), &node).unwrap();

    assert_eq!(once, twice);
}

#[test]
fn test_insert_layer() {
    let mut original_schematic = Schematic::new(mv(2, 1, 2)).unwrap();
    original_schematic.register_content("default:cobble".to_string());
    let node = Node::new(
        "default:cobble".to_string(),
        SpawnProbability::Always,
        false,
        0,
    );

    let new_schematic = original_schematic.insert_layer(1, &node).unwrap();

    assert_eq!(new_schematic.dimensions.y, 2);
    new_schematic.validate().unwrap();
    assert_eq!(new_schematic.node_at(mv(0, 1, 0)), Some(node));
    for x in 0..2 {
        for z in 0..2 {
            assert_eq!(new_schematic.node_at(mv(x, 0, z)).unwrap().content_name, "air");
            assert_eq!(
                new_schematic.node_at(mv(x, 1, z)).unwrap().content_name,
                "default:cobble"
            );
        }
    }
}

#[test]
fn editing_test_insert_layer() {
    let mut original_schematic = Schematic::new(mv(2, 1, 2)).unwrap();
    original_schematic.register_content("default:cobble".to_string());
    let node = Node::new(
        "default:cobble".to_string(),
        SpawnProbability::Always,
        false,
        0,
    );

    let new_schematic = original_schematic.insert_layer(1, &node).unwrap();

    assert_eq!(new_schematic.dimensions.y, 2);
    new_schematic.validate().unwrap();
    assert_eq!(new_schematic.node_at(mv(0, 1, 0)), Some(node.clone()));
    let raw = new_schematic.raw_nodes();
    // Storage order is X fastest, then Y, then Z: within each Z slab the
    // first row is the old layer (id 0), the second the new one (id 1).
    for z in 0..2 {
        for x in 0..2 {
            assert_eq!(raw[z * 4 + x].content_id(), 0);
            assert_eq!(raw[z * 4 + 2 + x].content_id(), 1);
        }
    }
    // Inserting out of range fails.
    original_schematic.insert_layer(2, &node).unwrap_err();
}

#[test]
fn test_merge() {
    let mut schematic_1 = Schematic::new(mv(3, 3, 3)).unwrap();
    schematic_1.register_content("something".to_string());

    let mut schematic_2 = Schematic::new(mv(3, 2, 2)).unwrap();
    schematic_2.register_content("default:dirt".to_string());
    schematic_2
        .fill(
            mv(0, 0, 0),
            schematic_2.dimensions,
            &Node::new(
                "default:dirt".to_string(),
                SpawnProbability::Always,
                false,
                0,
            ),
        )
        .unwrap();

    schematic_1.merge(&schematic_2, mv(0, 0, 0)).unwrap();

    let default_dirt = schematic_1.content_id_for_name("default:dirt").unwrap();

    assert!(schematic_1.validate().is_ok());
    assert_eq!(
        schematic_1.content_names,
        vec![
            "air".to_string(),
            "something".to_string(),
            "default:dirt".to_string()
        ]
    );
    assert_eq!(
        schematic_1
            .nodes
            .iter()
            .filter(|node| node.content_id() == default_dirt)
            .count(),
        12,
        "Nodes missing or indexes of merged Nodes were not updated correctly"
    );

    // When seen as a 1D vector (as it will be saved in an MTS file), the
    // following positions should have been updated by the merge:
    for position in [0, 1, 2, 3, 4, 5, 9, 10, 11, 12, 13, 14] {
        assert_eq!(schematic_1.nodes[position].content_id(), default_dirt);
    }
}

#[test]
fn editing_test_merge() {
    let mut schematic_1 = Schematic::new(mv(3, 3, 3)).unwrap();
    schematic_1.register_content("something".to_string());

    let mut schematic_2 = Schematic::new(mv(3, 2, 2)).unwrap();
    schematic_2.register_content("default:dirt".to_string());
    schematic_2
        .fill(
            mv(0, 0, 0),
            schematic_2.dimensions,
            &Node::new(
                "default:dirt".to_string(),
                SpawnProbability::Always,
                false,
                0,
            ),
        )
        .unwrap();

    schematic_1.merge(&schematic_2, mv(0, 0, 0)).unwrap();

    let default_dirt = schematic_1.content_id_for_name("default:dirt").unwrap();

    assert!(schematic_1.validate().is_ok());
    assert_eq!(
        schematic_1.content_names,
        vec![
            "air".to_string(),
            "something".to_string(),
            "default:dirt".to_string()
        ]
    );
    assert_eq!(
        schematic_1
            .nodes
            .iter()
            .filter(|node| node.content_id() == default_dirt)
            .count(),
        12,
        "Nodes missing or indexes of merged Nodes were not updated correctly"
    );

    for position in [0, 1, 2, 3, 4, 5, 9, 10, 11, 12, 13, 14] {
        assert_eq!(schematic_1.nodes[position].content_id(), default_dirt);
    }
}

#[test]
fn test_merge_small_schematic_into_larger() {
    let mut schematic_1 = Schematic::new(mv(8, 8, 8)).unwrap();
    schematic_1.register_content("something".to_string());

    let mut schematic_2 = Schematic::new(mv(2, 2, 2)).unwrap();
    schematic_2.register_content("default:dirt".to_string());
    schematic_2
        .fill(
            mv(0, 0, 0),
            mv(2, 2, 2),
            &Node::new(
                "default:dirt".to_string(),
                SpawnProbability::Always,
                false,
                0,
            ),
        )
        .unwrap();

    schematic_1.merge(&schematic_2, mv(1, 1, 1)).unwrap();

    assert!(schematic_1.validate().is_ok());
    assert_eq!(
        schematic_1.content_names,
        vec![
            "air".to_string(),
            "something".to_string(),
            "default:dirt".to_string()
        ]
    );
}

#[test]
fn editing_test_merge_small_schematic_into_larger() {
    let mut schematic_1 = Schematic::new(mv(8, 8, 8)).unwrap();
    schematic_1.register_content("something".to_string());

    let mut schematic_2 = Schematic::new(mv(2, 2, 2)).unwrap();
    schematic_2.register_content("default:dirt".to_string());
    schematic_2
        .fill(
            mv(0, 0, 0),
            mv(2, 2, 2),
            &Node::new(
                "default:dirt".to_string(),
                SpawnProbability::Always,
                false,
                0,
            ),
        )
        .unwrap();

    schematic_1.merge(&schematic_2, mv(1, 1, 1)).unwrap();

    assert!(schematic_1.validate().is_ok());
    assert_eq!(
        schematic_1.content_names,
        vec![
            "air".to_string(),
            "something".to_string(),
            "default:dirt".to_string()
        ]
    );
    // The dirt box sits at offset (1, 1, 1): a spot check on both sides of
    // its boundary.
    assert_eq!(
        schematic_1.node_at(mv(0, 0, 0)).unwrap().content_name,
        "air"
    );
    assert_eq!(
        schematic_1.node_at(mv(1, 1, 1)).unwrap().content_name,
        "default:dirt"
    );
    assert_eq!(
        schematic_1.node_at(mv(2, 2, 2)).unwrap().content_name,
        "default:dirt"
    );
    assert_eq!(
        schematic_1.node_at(mv(3, 3, 3)).unwrap().content_name,
        "air"
    );
}

#[test]
fn test_merge_optional_node_doesnt_overwrite_existing() {
    // An unforced never-spawning cell must not replace a non-transparent
    // target cell.
    let mut schematic = Schematic::new(mv(1, 1, 1)).unwrap();
    schematic.register_content("default:cobble".to_string());
    schematic
        .fill(
            mv(0, 0, 0),
            mv(1, 1, 1),
            &Node::new(
                "default:cobble".to_string(),
                SpawnProbability::Always,
                false,
                0,
            ),
        )
        .unwrap();

    let mut optional_schematic = Schematic::new(mv(1, 1, 1)).unwrap();
    optional_schematic.register_content("default:dry_dirt".to_string());
    optional_schematic
        .fill(
            mv(0, 0, 0),
            mv(1, 1, 1),
            &Node::new(
                "default:dry_dirt".to_string(),
                SpawnProbability::Never,
                false,
                0,
            ),
        )
        .unwrap();

    schematic.merge(&optional_schematic, mv(0, 0, 0)).unwrap();

    assert_eq!(
        schematic.node_at(mv(0, 0, 0)).unwrap().content_name,
        "default:cobble",
        "The original node should not have been overwritten by this default:dry_dirt node"
    );
}

#[test]
fn test_merge_identity_on_opaque_target() {
    // Merging a grid of unforced, never-spawning "air" cells into a target
    // without transparent cells leaves the target completely unchanged.
    let mut target = Schematic::new(mv(2, 1, 2)).unwrap();
    target.register_content("default:stone".to_string());
    target
        .fill(
            mv(0, 0, 0),
            mv(2, 1, 2),
            &Node::new(
                "default:stone".to_string(),
                SpawnProbability::Always,
                false,
                0,
            ),
        )
        .unwrap();
    let before = target.clone();

    let mut source = Schematic::new(mv(2, 1, 2)).unwrap();
    source
        .fill(
            mv(0, 0, 0),
            mv(2, 1, 2),
            &Node::new("air".to_string(), SpawnProbability::Never, false, 0),
        )
        .unwrap();

    target.merge(&source, mv(0, 0, 0)).unwrap();

    assert_eq!(target, before);
}

#[test]
fn test_merge_never_cell_does_overwrite_transparent_target() {
    // The counterpart: a target cell resolving to "air" is replaced even
    // by an unforced never-spawning source cell.
    let mut target = Schematic::new(mv(1, 1, 1)).unwrap();
    let before = target.clone();

    let mut source = Schematic::new(mv(1, 1, 1)).unwrap();
    source
        .fill(
            mv(0, 0, 0),
            mv(1, 1, 1),
            &Node::new("air".to_string(), SpawnProbability::Never, false, 5),
        )
        .unwrap();

    target.merge(&source, mv(0, 0, 0)).unwrap();

    assert_ne!(target, before);
    let placed = target.node_at(mv(0, 0, 0)).unwrap();
    assert_eq!(placed.content_name, "air");
    assert_eq!(placed.spawn_probability, SpawnProbability::Never);
    assert_eq!(placed.param2, 5);
}

#[test]
fn test_merge_out_of_bounds() {
    let mut target = Schematic::new(mv(2, 2, 2)).unwrap();
    let source = Schematic::new(mv(2, 2, 2)).unwrap();
    let before = target.clone();

    target.merge(&source, mv(1, 0, 0)).unwrap_err();

    assert_eq!(target, before);
}

#[test]
fn test_merge_remaps_shifted_ids() {
    // The same name sits at different ids in source and target; the merged
    // cells must resolve to the same names as in the source.
    let mut target = Schematic::new(mv(2, 1, 1)).unwrap();
    target.register_content("a".to_string());
    target.register_content("b".to_string());

    let mut source = Schematic::new(mv(2, 1, 1)).unwrap();
    source.register_content("b".to_string());
    source.register_content("c".to_string());
    source
        .fill(
            mv(0, 0, 0),
            mv(1, 1, 1),
            &Node::new("b".to_string(), SpawnProbability::Always, false, 0),
        )
        .unwrap();
    source
        .fill(
            mv(1, 0, 0),
            mv(1, 1, 1),
            &Node::new("c".to_string(), SpawnProbability::Always, false, 0),
        )
        .unwrap();

    target.merge(&source, mv(0, 0, 0)).unwrap();

    // One novel name ("c") was appended; nothing was removed or reordered.
    assert_eq!(
        target.content_names,
        vec![
            "air".to_string(),
            "a".to_string(),
            "b".to_string(),
            "c".to_string()
        ]
    );
    assert_eq!(target.node_at(mv(0, 0, 0)).unwrap().content_name, "b");
    assert_eq!(target.node_at(mv(1, 0, 0)).unwrap().content_name, "c");
}

#[test]
fn test_merge_rotated_view() {
    // Merge accepts a rotated view as its source.
    let mut source = Schematic::new(mv(2, 1, 1)).unwrap();
    source.register_content("default:dirt".to_string());
    source
        .fill(
            mv(1, 0, 0),
            mv(1, 1, 1),
            &Node::new(
                "default:dirt".to_string(),
                SpawnProbability::Always,
                false,
                0,
            ),
        )
        .unwrap();

    // Rotating left turns the 2x1x1 grid into a 1x1x2 one; the dirt cell at
    // x = 1 lands at z = 1.
    let view = source.rotate_left();
    let mut target = Schematic::new(mv(1, 1, 2)).unwrap();
    target.merge(&view, mv(0, 0, 0)).unwrap();

    assert_eq!(target.node_at(mv(0, 0, 0)).unwrap().content_name, "air");
    assert_eq!(
        target.node_at(mv(0, 0, 1)).unwrap().content_name,
        "default:dirt"
    );
}

#[test]
fn test_rotate_left() {
    let schematic = numbered_schematic();
    assert_eq!(schematic.nodes[0].content_id(), 1);

    let rotated = schematic.rotate_left();
    let nodes = rotated.raw_nodes();
    assert_eq!(nodes[0].content_id(), 13);
    assert_eq!(nodes[2].content_id(), 1);
}

#[test]
fn test_rotate_right() {
    let schematic = numbered_schematic();
    let rotated = schematic.rotate_right();
    let nodes = rotated.raw_nodes();
    assert_eq!(nodes[0].content_id(), 3);
    assert_eq!(nodes[2].content_id(), 15);
}

#[test]
fn test_rotate_180() {
    let schematic = numbered_schematic();
    let rotated = schematic.rotate_180();
    let nodes = rotated.raw_nodes();
    assert_eq!(nodes[0].content_id(), 15);
    assert_eq!(nodes[14].content_id(), 1);
}

#[test]
fn test_rotation_does_not_mutate_source() {
    let schematic = numbered_schematic();
    let before = schematic.clone();

    let view = schematic.rotate_left();
    let _ = view.raw_nodes();
    let _ = view.node_at(mv(0, 0, 0));
    let _ = view.dimensions();

    assert_eq!(schematic, before);
}

#[test]
fn test_rotated_view_read_contract() {
    let schematic = numbered_schematic();
    let view = schematic.rotate_left();
    assert_eq!(view.dimensions(), mv(3, 2, 3));
    assert_eq!(view.num_nodes(), 18);
    assert_eq!(view.content_names(), &schematic.content_names);
    // A view cell at (x, y, z) reads the source cell at (z, y, Z - 1 - x).
    assert_eq!(
        view.node_at(mv(0, 0, 0)),
        schematic.node_at(mv(0, 0, 2))
    );
    assert_eq!(
        view.node_at(mv(2, 1, 1)),
        schematic.node_at(mv(1, 1, 0))
    );
}

#[test]
fn test_split_into_chunks() {
    let schematic = numbered_schematic();
    let chunks = schematic.split_into_chunks(mv(3, 2, 1));

    assert_eq!(chunks.len(), 3);
    assert!(chunks.iter().all(|chunk| chunk.num_nodes() == 6));
    // Each chunk carries a full copy of the parent's dictionary.
    assert!(chunks
        .iter()
        .all(|chunk| chunk.content_names == schematic.content_names));
    // The first chunk holds the first Z slab.
    assert_eq!(chunks[0].nodes[0].content_id(), 1);
    assert_eq!(chunks[1].nodes[0].content_id(), 7);
    assert_eq!(chunks[2].nodes[0].content_id(), 13);
}

#[test]
fn test_split_drops_remainder() {
    let schematic = Schematic::new(mv(5, 3, 4)).unwrap();
    let chunks = schematic.split_into_chunks(mv(2, 2, 3));
    // 2 whole chunks fit along X, 1 along Y, 1 along Z.
    assert_eq!(chunks.len(), 2);
    assert!(chunks.iter().all(|chunk| chunk.dimensions == mv(2, 2, 3)));
}

/// A 3x2x3 grid whose 18 cells carry content ids 1 through 18 in storage
/// order, with one registered name per id.
fn numbered_schematic() -> Schematic {
    let raw: Vec<RawNode> = (1..=18u16)
        .map(|i| RawNode::new(i, SpawnProbability::Always, true, 0))
        .collect();
    let mut schematic = Schematic::with_raw_nodes(mv(3, 2, 3), raw).unwrap();
    schematic.register_content("default:cobble".to_string());
    for i in 2..=18 {
        schematic.register_content(format!("content:{i}"));
    }
    schematic
}

#[test]
fn test_split_chunk_larger_than_grid() {
    let schematic = Schematic::new(mv(2, 2, 2)).unwrap();
    let chunks = schematic.split_into_chunks(mv(3, 1, 1));
    assert_eq!(chunks.len(), 0);
}
