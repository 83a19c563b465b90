//! Behavioural tests of the tile builder.

use mvt::Error;
use mvt::GeomData;
use mvt::GeomType;
use mvt::Tile;
use mvt::Value;

fn point_geom() -> GeomData {
    GeomData::new(GeomType::Point, vec![9, 50, 34])
}

#[test]
fn duplicate_layer_name_is_rejected() {
    let mut tile = Tile::new(4096);
    let first = tile.create_layer("roads");
    assert!(tile.add_layer(first).is_ok());
    assert_eq!(tile.num_layers(), 1);

    let second = tile.create_layer("roads");
    match tile.add_layer(second) {
        Err((e, rejected)) => {
            assert_eq!(e, Error::DuplicateName);
            // Ownership came back; the layer is still usable.
            assert_eq!(rejected.num_features(), 0);
        }
        Ok(()) => panic!("a duplicate layer name must be rejected"),
    }
    assert_eq!(tile.num_layers(), 1);
}

#[test]
fn duplicate_feature_id_is_rejected() {
    let tile = Tile::new(4096);
    let layer = tile.create_layer("roads");

    let mut feature = layer.into_feature(point_geom());
    assert!(feature.set_id(5).is_ok());
    let layer = feature.into_layer();

    let mut second = layer.into_feature(point_geom());
    assert_eq!(second.set_id(5), Err(Error::DuplicateId));
    // The second feature's id remains unset.
    assert_eq!(second.get_id(), None);
    // A fresh id is still accepted.
    assert!(second.set_id(6).is_ok());
    assert_eq!(second.get_id(), Some(6));
}

#[test]
fn unset_ids_conflict_with_nothing() {
    let tile = Tile::new(4096);
    let layer = tile.create_layer("roads");

    // Commit a feature without an id; only recorded ids count as taken.
    let feature = layer.into_feature(point_geom());
    let layer = feature.into_layer();

    let mut second = layer.into_feature(point_geom());
    assert!(second.set_id(0).is_ok());
    assert_eq!(second.get_id(), Some(0));
}

#[test]
fn repeated_string_value_is_stored_once() {
    let tile = Tile::new(4096);
    let layer = tile.create_layer("roads");

    let mut feature = layer.into_feature(point_geom());
    feature.add_tag_string("kind", "highway");
    let layer = feature.into_layer();

    let mut feature = layer.into_feature(point_geom());
    feature.add_tag_string("kind", "highway");
    let layer = feature.into_layer();

    // One dictionary entry, referenced by two tag pairs.
    assert_eq!(layer.num_keys(), 1);
    assert_eq!(layer.num_values(), 1);
    assert_eq!(layer.feature_tags(0), &vec![0, 0]);
    assert_eq!(layer.feature_tags(1), &vec![0, 0]);
}

#[test]
fn double_and_float_are_distinct_entries() {
    let tile = Tile::new(4096);
    let layer = tile.create_layer("roads");

    let mut feature = layer.into_feature(point_geom());
    feature.add_tag_double_bits("x", (1.0f64).to_bits());
    feature.add_tag_float_bits("x", (1.0f32).to_bits());
    let layer = feature.into_layer();

    // Same numeric value, but the variant tag differs: two entries.
    assert_eq!(layer.num_keys(), 1);
    assert_eq!(layer.num_values(), 2);
    assert_eq!(layer.feature_tags(0), &vec![0, 0, 0, 1]);
}

#[test]
fn mixed_value_types_deduplicate_by_full_equality() {
    let tile = Tile::new(4096);
    let layer = tile.create_layer("roads");

    let mut feature = layer.into_feature(point_geom());
    feature.add_tag_int("a", -1);
    feature.add_tag_sint("a", -1);
    feature.add_tag_uint("a", 7);
    feature.add_tag_bool("a", true);
    feature.add_tag_int("a", -1);
    let layer = feature.into_layer();

    // int -1 and sint -1 differ by tag; the repeated int -1 does not grow
    // the dictionary.
    assert_eq!(layer.num_keys(), 1);
    assert_eq!(layer.num_values(), 4);
    assert_eq!(layer.feature_tags(0), &vec![0, 0, 0, 1, 0, 2, 0, 3, 0, 0]);
    assert!(matches!(layer.value_at(0), Value::Int(-1)));
    assert!(matches!(layer.value_at(1), Value::Sint(-1)));
    assert!(matches!(layer.value_at(2), Value::Uint(7)));
    assert!(matches!(layer.value_at(3), Value::Bool(true)));
}

#[test]
fn end_to_end_single_feature() {
    let mut tile = Tile::new(4096);
    assert_eq!(tile.get_extent(), 4096);

    let layer = tile.create_layer("roads");
    let mut feature = layer.into_feature(point_geom());
    feature.add_tag_string("name", "Main St");
    let layer = feature.into_layer();
    assert!(tile.add_layer(layer).is_ok());

    assert_eq!(tile.num_layers(), 1);
    let layer = tile.layer_at(0);
    assert_eq!(layer.num_features(), 1);
    assert_eq!(layer.num_keys(), 1);
    assert_eq!(layer.key_at(0).as_str(), "name");
    match layer.value_at(0) {
        Value::Str(s) => assert_eq!(s, "Main St"),
        _ => panic!("expected a string value"),
    }
    assert_eq!(layer.feature_tags(0), &vec![0, 0]);
}
