//! Wire-encoding tests: exact bytes and size round trips.

use mvt::GeomData;
use mvt::GeomType;
use mvt::Tile;

#[test]
fn empty_tile_serializes_to_nothing() {
    let tile = Tile::new(4096);
    let bytes = tile.to_bytes().unwrap();
    assert_eq!(bytes, Vec::<u8>::new());
    assert_eq!(tile.compute_size(), 0);
}

#[test]
fn empty_layer_exact_bytes() {
    let mut tile = Tile::new(4096);
    let layer = tile.create_layer("a");
    assert!(tile.add_layer(layer).is_ok());

    let bytes = tile.to_bytes().unwrap();
    // Layer framed in field 3; inside: version 2 (field 15), name "a"
    // (field 1), extent 4096 (field 5).
    let expected: Vec<u8> = vec![
        0x1a, 0x08, 0x78, 0x02, 0x0a, 0x01, 0x61, 0x28, 0x80, 0x20,
    ];
    assert_eq!(bytes, expected);
    assert_eq!(tile.compute_size(), 10);
}

#[test]
fn extent_varint_uses_five_bytes_at_max() {
    let mut tile = Tile::new(u32::MAX);
    let layer = tile.create_layer("a");
    assert!(tile.add_layer(layer).is_ok());

    let bytes = tile.to_bytes().unwrap();
    let expected: Vec<u8> = vec![
        0x1a, 0x0b, 0x78, 0x02, 0x0a, 0x01, 0x61, 0x28, 0xff, 0xff, 0xff, 0xff, 0x0f,
    ];
    assert_eq!(bytes, expected);
}

#[test]
fn feature_with_id_tag_and_geometry_exact_bytes() {
    let mut tile = Tile::new(4096);
    let layer = tile.create_layer("hi");
    let mut feature = layer.into_feature(GeomData::new(GeomType::Point, vec![9, 50, 34]));
    feature.set_id(1).unwrap();
    feature.add_tag_string("k", "yo");
    let layer = feature.into_layer();
    assert!(tile.add_layer(layer).is_ok());

    let bytes = tile.to_bytes().unwrap();
    let expected: Vec<u8> = vec![
        0x1a, 0x21, // layer, 33 bytes
        0x78, 0x02, // version 2
        0x0a, 0x02, 0x68, 0x69, // name "hi"
        0x12, 0x0d, // feature, 13 bytes
        0x08, 0x01, // id 1
        0x12, 0x02, 0x00, 0x00, // packed tags [0, 0]
        0x18, 0x01, // geometry type: point
        0x22, 0x03, 0x09, 0x32, 0x22, // packed geometry [9, 50, 34]
        0x1a, 0x01, 0x6b, // key "k"
        0x22, 0x04, 0x0a, 0x02, 0x79, 0x6f, // value: string "yo"
        0x28, 0x80, 0x20, // extent 4096
    ];
    assert_eq!(bytes, expected);
    assert_eq!(tile.compute_size() as usize, bytes.len());
}

#[test]
fn every_value_variant_exact_bytes() {
    let mut tile = Tile::new(4096);
    let layer = tile.create_layer("v");
    let mut feature = layer.into_feature(GeomData::new(GeomType::Linestring, Vec::new()));
    feature.add_tag_double_bits("k", (1.0f64).to_bits());
    feature.add_tag_float_bits("k", (1.0f32).to_bits());
    feature.add_tag_int("k", -1);
    feature.add_tag_uint("k", 300);
    feature.add_tag_sint("k", -1);
    feature.add_tag_bool("k", true);
    feature.add_tag_string("k", "yo");
    let layer = feature.into_layer();
    assert!(tile.add_layer(layer).is_ok());

    let bytes = tile.to_bytes().unwrap();
    let expected: Vec<u8> = vec![
        0x1a, 0x51, // layer, 81 bytes
        0x78, 0x02, // version 2
        0x0a, 0x01, 0x76, // name "v"
        0x12, 0x12, // feature, 18 bytes
        0x12, 0x0e, // packed tags, 14 bytes
        0x00, 0x00, 0x00, 0x01, 0x00, 0x02, 0x00, 0x03, 0x00, 0x04, 0x00, 0x05, 0x00, 0x06,
        0x18, 0x02, // geometry type: linestring; empty geometry omitted
        0x1a, 0x01, 0x6b, // key "k"
        0x22, 0x09, 0x19, 0x00, 0x00, 0x00, 0x00, 0x00, 0x00, 0xf0, 0x3f, // double 1.0
        0x22, 0x05, 0x15, 0x00, 0x00, 0x80, 0x3f, // float 1.0
        0x22, 0x0b, 0x20, 0xff, 0xff, 0xff, 0xff, 0xff, 0xff, 0xff, 0xff, 0xff,
        0x01, // int -1
        0x22, 0x03, 0x28, 0xac, 0x02, // uint 300
        0x22, 0x02, 0x30, 0x01, // sint -1 (zigzag 1)
        0x22, 0x02, 0x38, 0x01, // bool true
        0x22, 0x04, 0x0a, 0x02, 0x79, 0x6f, // string "yo"
        0x28, 0x80, 0x20, // extent 4096
    ];
    assert_eq!(bytes, expected);
    assert_eq!(tile.compute_size() as usize, bytes.len());
}

#[test]
fn size_matches_bytes_for_nontrivial_tile() {
    let mut tile = Tile::new(2048);

    let layer = tile.create_layer("roads");
    let mut feature = layer.into_feature(GeomData::new(GeomType::Linestring, vec![9, 4, 4, 10, 8, 8]));
    feature.set_id(42).unwrap();
    feature.add_tag_string("name", "Main St");
    feature.add_tag_uint("lanes", 2);
    let layer = feature.into_layer();
    let mut feature = layer.into_feature(GeomData::new(GeomType::Polygon, vec![9, 0, 0]));
    feature.add_tag_string("name", "Plaza");
    feature.add_tag_bool("paved", true);
    let layer = feature.into_layer();
    assert!(tile.add_layer(layer).is_ok());

    let layer = tile.create_layer("pois");
    let mut feature = layer.into_feature(GeomData::new(GeomType::Point, vec![9, 50, 34]));
    feature.add_tag_double_bits("elevation", (12.5f64).to_bits());
    let layer = feature.into_layer();
    assert!(tile.add_layer(layer).is_ok());

    let bytes = tile.to_bytes().unwrap();
    assert_eq!(bytes.len(), tile.compute_size() as usize);
    assert!(!bytes.is_empty());
}
