use std::io::Write;

use mts_schematic::{
    Error, MapVector, Node, NodeSpace, ParseErrorKind, Schematic, SpawnProbability,
};

fn mv(x: u16, y: u16, z: u16) -> MapVector {
    MapVector::new(x, y, z).unwrap()
}

fn zlib(data: &[u8]) -> Vec<u8> {
    let mut encoder =
        flate2::write::ZlibEncoder::new(Vec::new(), flate2::Compression::default());
    encoder.write_all(data).unwrap();
    encoder.finish().unwrap()
}

/// A known 3x2x3 sample schematic: 18 cells, 2 Y layers both `Always`, and
/// a dictionary of 7 names whose last entry is "default:pine_wood".
fn sample_3x2x3() -> Vec<u8> {
    let names: [&str; 7] = [
        "air",
        "default:pine_tree",
        "default:pine_needles",
        "default:dirt",
        "default:snow",
        "default:snowblock",
        "default:pine_wood",
    ];

    let mut out: Vec<u8> = Vec::new();
    out.extend_from_slice(b"MTSM");
    out.extend_from_slice(&4u16.to_be_bytes());
    out.extend_from_slice(&3u16.to_be_bytes());
    out.extend_from_slice(&2u16.to_be_bytes());
    out.extend_from_slice(&3u16.to_be_bytes());
    out.extend_from_slice(&[127, 127]);
    out.extend_from_slice(&(names.len() as u16).to_be_bytes());
    for name in names {
        out.extend_from_slice(&(name.len() as u16).to_be_bytes());
        out.extend_from_slice(name.as_bytes());
    }

    let mut payload: Vec<u8> = Vec::new();
    for k in 0..18u16 {
        payload.extend_from_slice(&(k % 7).to_be_bytes());
    }
    for _ in 0..18 {
        payload.push(127);
    }
    for k in 0..18u8 {
        payload.push(k);
    }
    out.extend_from_slice(&zlib(&payload));
    out
}

#[test]
fn test_from_bytes() {
    let data = sample_3x2x3();

    let schematic = Schematic::from_bytes(&data).unwrap();

    assert_eq!(schematic.version, 4);
    assert_eq!(schematic.dimensions.x, 3);
    assert_eq!(schematic.dimensions.y, 2);
    assert_eq!(schematic.dimensions.z, 3);

    assert_eq!(
        schematic.layer_probabilities,
        vec![SpawnProbability::Always, SpawnProbability::Always]
    );
    assert_eq!(schematic.content_names.len(), 7);
    assert_eq!(schematic.content_names[6], "default:pine_wood");
    assert_eq!(schematic.num_nodes(), 18);
}

#[test]
fn serializer_test_to_bytes() {
    let original_data = sample_3x2x3();
    let original_schematic = Schematic::from_bytes(&original_data).unwrap();

    let serialized_schematic = original_schematic.to_bytes();
    // The original data and the serialized schematic don't always compare
    // byte for byte because of variation in the zlib compression, so the
    // best we can do here is re-parse the serialized schematic and see if
    // that comes out the same as the originally parsed schematic. The game
    // handles different zlib compression levels just fine.
    let reparsed_schematic = Schematic::from_bytes(&serialized_schematic).unwrap();

    assert_eq!(original_schematic, reparsed_schematic);
}

#[test]
fn test_roundtrip_of_edited_grid() {
    let mut schematic = Schematic::new(mv(2, 3, 2)).unwrap();
    schematic.register_content("default:dirt".to_string());
    schematic
        .fill(
            mv(0, 0, 0),
            mv(2, 1, 2),
            &Node::new(
                "default:dirt".to_string(),
                SpawnProbability::Custom(42),
                true,
                9,
            ),
        )
        .unwrap();
    schematic
        .place_node(
            &Node::new("default:snow".to_string(), SpawnProbability::Never, false, 1),
            mv(1, 2, 1),
        )
        .unwrap();

    let reparsed = Schematic::from_bytes(&schematic.to_bytes()).unwrap();

    assert_eq!(schematic, reparsed);
    let cell = reparsed.node_at(mv(0, 0, 0)).unwrap();
    assert_eq!(cell.content_name, "default:dirt");
    assert_eq!(cell.spawn_probability, SpawnProbability::Custom(42));
    assert!(cell.force_placement);
    assert_eq!(cell.param2, 9);
    let top = reparsed.node_at(mv(1, 2, 1)).unwrap();
    assert_eq!(top.content_name, "default:snow");
    assert_eq!(top.spawn_probability, SpawnProbability::Never);
}

#[test]
fn test_parse_rejects_bad_magic() {
    let mut data = sample_3x2x3();
    data[0] = b'X';
    assert!(matches!(
        Schematic::from_bytes(&data),
        Err(Error::ParseError(ParseErrorKind::BadMagic))
    ));
}

#[test]
fn test_parse_rejects_bad_version() {
    let mut data = sample_3x2x3();
    data[5] = 3;
    assert!(matches!(
        Schematic::from_bytes(&data),
        Err(Error::ParseError(ParseErrorKind::UnsupportedVersion))
    ));
}

#[test]
fn test_parse_rejects_huge_dimension() {
    let mut data = sample_3x2x3();
    // 62013 big-endian is 0xF2 0x3D.
    data[6] = 0xF2;
    data[7] = 0x3D;
    assert!(matches!(
        Schematic::from_bytes(&data),
        Err(Error::ParseError(ParseErrorKind::DimensionOutOfRange))
    ));
}

#[test]
fn test_parse_rejects_bad_probability() {
    let mut data = sample_3x2x3();
    data[12] = 200;
    assert!(matches!(
        Schematic::from_bytes(&data),
        Err(Error::ParseError(ParseErrorKind::InvalidProbability))
    ));
}

#[test]
fn test_parse_rejects_invalid_utf8_name() {
    let mut data = sample_3x2x3();
    // The first dictionary entry is "air", whose bytes start right after
    // the 2-byte count and 2-byte length at offset 16.
    data[18] = 0xFF;
    data[19] = 0xFE;
    assert!(matches!(
        Schematic::from_bytes(&data),
        Err(Error::ParseError(ParseErrorKind::InvalidName))
    ));
}

#[test]
fn test_parse_rejects_truncated_input() {
    let data = sample_3x2x3();
    let truncated: Vec<u8> = data[0..10].to_vec();
    assert!(matches!(
        Schematic::from_bytes(&truncated),
        Err(Error::ParseError(ParseErrorKind::Truncated))
    ));
    let truncated_names: Vec<u8> = data[0..17].to_vec();
    assert!(matches!(
        Schematic::from_bytes(&truncated_names),
        Err(Error::ParseError(ParseErrorKind::Truncated))
    ));
}

#[test]
fn test_parse_rejects_corrupt_payload() {
    let data = sample_3x2x3();
    // Cut into the compressed stream.
    let cut: Vec<u8> = data[0..data.len() - 4].to_vec();
    assert!(matches!(
        Schematic::from_bytes(&cut),
        Err(Error::ParseError(ParseErrorKind::CorruptPayload))
    ));
}

#[test]
fn test_parse_rejects_short_payload() {
    let mut data = sample_3x2x3();
    // Replace the compressed section with a valid zlib stream that holds
    // too few bytes for 18 cells.
    data.truncate(data.len() - zlib_len(&data));
    data.extend_from_slice(&zlib(&[0u8; 10]));
    assert!(matches!(
        Schematic::from_bytes(&data),
        Err(Error::ParseError(ParseErrorKind::CorruptPayload))
    ));
}

#[test]
fn test_parse_rejects_out_of_range_content_id() {
    let mut data = sample_3x2x3();
    data.truncate(data.len() - zlib_len(&data));
    let mut payload: Vec<u8> = Vec::new();
    for _ in 0..18u16 {
        // Content id 9 does not exist in a 7-entry dictionary.
        payload.extend_from_slice(&9u16.to_be_bytes());
    }
    payload.extend_from_slice(&[127; 18]);
    payload.extend_from_slice(&[0; 18]);
    data.extend_from_slice(&zlib(&payload));
    assert!(matches!(
        Schematic::from_bytes(&data),
        Err(Error::ParseError(ParseErrorKind::InvalidContentId))
    ));
}

/// Length of the compressed section of a sample produced by
/// `sample_3x2x3`: everything after the fixed 16-byte prefix and the
/// dictionary.
fn zlib_len(data: &[u8]) -> usize {
    let mut pos = 16;
    for _ in 0..7 {
        let n = u16::from_be_bytes([data[pos], data[pos + 1]]) as usize;
        pos += 2 + n;
    }
    data.len() - pos
}

#[test]
fn test_fresh_grid_fill_scenario() {
    // A fresh 2x2x2 grid resolves all 8 cells to "air"; after filling the
    // whole box with "default:dirt", all 8 resolve to "default:dirt".
    let mut schematic = Schematic::new(mv(2, 2, 2)).unwrap();
    for x in 0..2 {
        for y in 0..2 {
            for z in 0..2 {
                assert_eq!(
                    schematic.node_at(mv(x, y, z)).unwrap().content_name,
                    "air"
                );
            }
        }
    }

    schematic
        .fill(
            mv(0, 0, 0),
            mv(2, 2, 2),
            &Node::new(
                "default:dirt".to_string(),
                SpawnProbability::Always,
                false,
                0,
            ),
        )
        .unwrap();

    for x in 0..2 {
        for y in 0..2 {
            for z in 0..2 {
                assert_eq!(
                    schematic.node_at(mv(x, y, z)).unwrap().content_name,
                    "default:dirt"
                );
            }
        }
    }
}

#[test]
fn test_roundtrip_of_zero_volume_grid() {
    // A grid with a zero extent has no cells and no layers, but still a
    // dictionary; it must survive the wire unchanged.
    let schematic = Schematic::new(MapVector::new(0, 0, 0).unwrap()).unwrap();
    let reparsed = Schematic::from_bytes(&schematic.to_bytes()).unwrap();
    assert_eq!(schematic, reparsed);
    assert_eq!(reparsed.num_nodes(), 0);
    assert_eq!(reparsed.content_names, vec!["air".to_string()]);
}
