//! Builder for Mapbox Vector Tile (MVT) payloads.
//!
//! A [`Tile`] holds an ordered list of name-unique [`Layer`]s.  A layer owns
//! two append-only, deduplicating dictionaries (keys and values) and an
//! ordered list of committed features.  A [`Feature`] is built by taking
//! exclusive ownership of a detached layer, tagging it, and handing the layer
//! back.  Serialization produces the protocol-buffer wire encoding of the MVT
//! schema, byte for byte, with its size proved equal to the encoded length.

pub mod dict;
pub mod strutil;
pub mod value;
pub mod wire;
pub mod tile;

pub use tile::Error;
pub use tile::Feature;
pub use tile::GeomData;
pub use tile::GeomType;
pub use tile::Layer;
pub use tile::Tile;
pub use value::Value;

