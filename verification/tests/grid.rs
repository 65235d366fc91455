use mts_schematic::{
    Error, MapVector, Node, NodeSpace, RawNode, Schematic, SchematicRef, SpawnProbability,
};

fn mv(x: u16, y: u16, z: u16) -> MapVector {
    MapVector::new(x, y, z).unwrap()
}

fn assert_send<T: Send>() {}

fn assert_sync<T: Sync>() {}

#[test]
fn test_node_to_raw_node() {
    let mut schematic = Schematic::with_raw_nodes(
        mv(1, 1, 1),
        vec![RawNode::new(0, SpawnProbability::Always, true, 0)],
    )
    .unwrap();
    schematic.register_content("default:cobble".to_string());

    let node = Node::new(
        "default:cobble".to_string(),
        SpawnProbability::Always,
        true,
        0,
    );

    let raw_node = node.to_raw_node(&schematic).unwrap();

    assert_eq!(raw_node.content_id(), 1);
}

#[test]
fn node_test_send() {
    assert_send::<RawNode>();
    assert_send::<Node>();
}

#[test]
fn node_test_sync() {
    assert_sync::<RawNode>();
    assert_sync::<Node>();
}

#[test]
fn mod_test_send() {
    assert_send::<Schematic>();
    assert_send::<SchematicRef>();
}

#[test]
fn mod_test_sync() {
    assert_sync::<Schematic>();
    assert_sync::<SchematicRef>();
}

#[test]
fn schematic_test_validate() {
    let mut schematic = Schematic::new(mv(2, 2, 2)).unwrap();

    assert!(schematic.validate().is_ok());

    schematic.nodes[0].content_id = 999;
    assert!(schematic.validate().is_err());

    schematic.nodes[0].content_id = 0;
    assert!(schematic.validate().is_ok());
}

#[test]
fn mod_test_validate() {
    let mut schematic = Schematic::new(mv(2, 2, 2)).unwrap();

    assert!(schematic.validate().is_ok());

    schematic.nodes[0].content_id = 999;
    assert!(matches!(
        schematic.validate(),
        Err(Error::InvalidContentIndex(999))
    ));

    schematic.nodes[0].content_id = 0;
    assert!(schematic.validate().is_ok());
}

#[test]
fn test_validate_reports_counts_first() {
    let mut schematic = Schematic::new(mv(2, 2, 2)).unwrap();
    schematic.layer_probabilities.pop();
    assert!(matches!(
        schematic.validate(),
        Err(Error::IncorrectNumberOfLayerProbabilities)
    ));

    let mut schematic = Schematic::new(mv(2, 2, 2)).unwrap();
    schematic.nodes.pop();
    assert!(matches!(
        schematic.validate(),
        Err(Error::IncorrectNodeCount {
            found: 7,
            expected: 8
        })
    ));
}

#[test]
fn test_convert_node_to_raw_node() {
    let mut schematic = Schematic::with_raw_nodes(
        mv(1, 1, 1),
        vec![RawNode::new(0, SpawnProbability::Always, true, 0)],
    )
    .unwrap();
    schematic.register_content("default:cobble".to_string());

    let node = Node::new(
        "default:stone".to_string(),
        SpawnProbability::Always,
        true,
        0,
    );

    schematic.convert_node_to_raw_node(&node);

    assert_eq!(
        schematic.content_names.len(),
        3,
        "default:stone should have been registered as the 3rd content"
    );
}

#[test]
fn test_place_node_out_of_bounds() {
    let mut schematic = Schematic::new(mv(1, 1, 1)).unwrap();
    let node = Node::with_content_name("default:cobble".to_string());
    let coordinates = mv(1, 1, 1);

    schematic.place_node(&node, coordinates).unwrap_err();
}

#[test]
fn test_place_node_roundtrip() {
    let mut schematic = Schematic::new(mv(3, 2, 3)).unwrap();
    let node = Node::new(
        "default:cobble".to_string(),
        SpawnProbability::Custom(9),
        true,
        7,
    );
    let coordinates = mv(0, 1, 2);

    schematic.place_node(&node, coordinates).unwrap();

    let found = schematic.node_at(coordinates).unwrap();
    assert_eq!(found, node);
    assert_eq!(schematic.node_at(mv(0, 0, 0)).unwrap().content_name, "air");
}

#[test]
fn schematic_test_dimensions_checked_add() {
    let dimensions = MapVector::new(1000, 1000, 1000).unwrap();

    assert_eq!(
        dimensions.checked_add(mv(1000, 1000, 1000)),
        Some(mv(2000, 2000, 2000))
    );
}

#[test]
fn editing_test_dimensions_checked_add() {
    let dimensions = MapVector::new(1000, 1000, 1000).unwrap();

    assert_eq!(
        dimensions.checked_add(mv(1000, 1000, 1000)),
        Some(mv(2000, 2000, 2000))
    );
}

#[test]
fn test_checked_add_rejects_map_bound() {
    // 31006 + 31006 = 62012 is the largest sum still below the bound.
    assert_eq!(
        mv(31006, 0, 0).checked_add(mv(31006, 0, 0)),
        Some(mv(62012, 0, 0))
    );
    // One more reaches 62013 and fails.
    assert_eq!(mv(31007, 0, 0).checked_add(mv(31006, 0, 0)), None);
    // A sum that overflows 16 bits fails too.
    assert_eq!(mv(40000, 0, 0).checked_add(mv(40000, 0, 0)), None);
}

#[test]
fn test_map_vector_rejects_out_of_bounds() {
    assert!(MapVector::new(62013, 0, 0).is_err());
    assert!(MapVector::new(62012, 62012, 62012).is_ok());
    assert_eq!(mv(3, 2, 1).volume(), 6);
    assert_eq!(mv(5, 6, 7).as_shape(), (7, 6, 5));
}

#[test]
fn test_annotated_nodes_order() {
    // Iteration is X fastest, then Y, with Z slowest, matching the wire
    // format's storage order.
    let mut schematic = Schematic::new(mv(3, 2, 3)).unwrap();
    let node = Node::with_content_name("default:cobble".to_string());
    schematic.place_node(&node, mv(1, 0, 0)).unwrap();

    let mut iter = schematic.annotated_nodes();
    let first = iter.next().unwrap();
    assert_eq!(first.coordinates, mv(0, 0, 0));
    assert_eq!(first.node.content_name, "air");
    let second = iter.next().unwrap();
    assert_eq!(second.coordinates, mv(1, 0, 0));
    assert_eq!(second.node.content_name, "default:cobble");
    let third = iter.next().unwrap();
    assert_eq!(third.coordinates, mv(2, 0, 0));
    let fourth = iter.next().unwrap();
    assert_eq!(fourth.coordinates, mv(0, 1, 0));

    let mut count = 4;
    while iter.next().is_some() {
        count += 1;
    }
    assert_eq!(count, 18);
}

#[test]
fn test_node_at_out_of_range_is_none() {
    let schematic = Schematic::new(mv(2, 2, 2)).unwrap();
    assert!(schematic.node_at(mv(2, 0, 0)).is_none());
    assert!(schematic.node_at(mv(0, 0, 0)).is_some());
}

#[test]
fn test_register_content_returns_existing_id() {
    let mut schematic = Schematic::new(mv(1, 1, 1)).unwrap();
    assert_eq!(schematic.register_content("air".to_string()), 0);
    assert_eq!(schematic.register_content("default:dirt".to_string()), 1);
    assert_eq!(schematic.register_content("default:dirt".to_string()), 1);
    assert_eq!(schematic.content_id_for_name("default:dirt"), Some(1));
    assert_eq!(schematic.content_id_for_name("absent"), None);
    assert_eq!(schematic.content_name_for_id(0), Some("air"));
    assert_eq!(schematic.content_name_for_id(9), None);
}

#[test]
fn test_probability_byte_conversions() {
    assert_eq!(SpawnProbability::from_byte(0), SpawnProbability::Never);
    assert_eq!(SpawnProbability::from_byte(127), SpawnProbability::Always);
    assert_eq!(SpawnProbability::from_byte(255), SpawnProbability::Always);
    assert_eq!(SpawnProbability::from_byte(50), SpawnProbability::Custom(50));
    assert_eq!(SpawnProbability::Never.to_byte(), 0);
    assert_eq!(SpawnProbability::Always.to_byte(), 127);
    assert_eq!(SpawnProbability::Custom(9).to_byte(), 9);
}
