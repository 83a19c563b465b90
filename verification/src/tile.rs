//! Tile, Layer and Feature builders.
//!
//! A tile owns an ordered, name-unique list of layers.  A detached layer is
//! created from a tile, populated by checking a feature out (which takes
//! exclusive ownership of the layer) and back in, and finally added to the
//! tile.  Everything is append-only: dictionary indices and feature order are
//! stable for the life of the builder.

use vstd::prelude::*;
use crate::dict::dict_insert;
use crate::dict::distinct;
use crate::dict::find_first;
use crate::dict::lemma_dict_insert;
use crate::dict::lemma_find_first;
use crate::strutil::str_eq;
use crate::value::Value;
use crate::value::ValueV;
use crate::wire::encode_feature;
use crate::wire::encode_features;
use crate::wire::encode_keys;
use crate::wire::encode_layer;
use crate::wire::encode_layers;
use crate::wire::encode_tile;
use crate::wire::encode_value_into;
use crate::wire::encode_values;
use crate::wire::len_delim;
use crate::wire::lemma_encode_features_push;
use crate::wire::lemma_encode_keys_push;
use crate::wire::lemma_encode_layers_push;
use crate::wire::lemma_encode_values_push;
use crate::wire::put_len_delim;
use crate::wire::put_packed;
use crate::wire::put_varint;
use vstd::string::StrSliceExecFns;
use vstd::utf8::encode_utf8;

verus! {

broadcast use {vstd::seq::group_seq_axioms, vstd::seq_lib::group_seq_lib_default};

/// Error conditions reported by the builder.
#[derive(Clone, Copy, Debug, PartialEq, Eq, Structural)]
pub enum Error {
    /// The tile already contains a layer with the given name.
    DuplicateName,
    /// The owned layer already contains a feature with the given id.
    DuplicateId,
}

/// The geometry type of a feature.
#[derive(Clone, Copy, Debug, PartialEq, Eq, Structural)]
pub enum GeomType {
    /// One or more points.
    Point,
    /// One or more lines.
    Linestring,
    /// One or more polygons.
    Polygon,
}

/// The wire code of a geometry type.
pub open spec fn geom_code(g: GeomType) -> u64 {
    match g {
        GeomType::Point => 1,
        GeomType::Linestring => 2,
        GeomType::Polygon => 3,
    }
}

impl GeomType {
    /// Returns the wire code of this geometry type.
    pub fn code(&self) -> (r: u64)
        ensures
            r == geom_code(*self),
    {
        match self {
            GeomType::Point => 1,
            GeomType::Linestring => 2,
            GeomType::Polygon => 3,
        }
    }
}

/// The output of a geometry encoder: a declared geometry type together with
/// the opaque, pre-encoded command/coordinate stream.  The builder stores the
/// stream verbatim and never inspects it.
pub struct GeomData {
    /// The declared geometry type.
    pub geom_type: GeomType,
    /// The encoded command/coordinate stream.
    pub data: Vec<u32>,
}

impl GeomData {
    /// Packs a geometry type and an encoded coordinate stream.
    pub fn new(geom_type: GeomType, data: Vec<u32>) -> (g: GeomData)
        ensures
            g.geom_type == geom_type,
            g.data == data,
    {
        GeomData { geom_type, data }
    }
}

/// Model of a committed feature.
#[verifier::ext_equal]
pub ghost struct FeatV {
    /// The feature id, if one was set.
    pub id: Option<u64>,
    /// The declared geometry type.
    pub geom_type: GeomType,
    /// The opaque encoded geometry stream.
    pub geometry: Seq<u32>,
    /// Pairs of (key index, value index) into the layer's dictionaries.
    pub tags: Seq<u32>,
}

/// Model of a layer.
#[verifier::ext_equal]
pub ghost struct LayerV {
    /// The layer name, unique within its tile.
    pub name: Seq<char>,
    /// The extent, copied from the tile at creation time.
    pub extent: u32,
    /// The key dictionary: append-only, duplicate-free.
    pub keys: Seq<Seq<char>>,
    /// The value dictionary: append-only, duplicate-free under full equality.
    pub values: Seq<ValueV>,
    /// The committed features, in commit order.
    pub features: Seq<FeatV>,
}

/// Model of a tile.
#[verifier::ext_equal]
pub ghost struct TileV {
    /// The extent handed to every layer this tile creates.
    pub extent: u32,
    /// The layers, in insertion order, with pairwise distinct names.
    pub layers: Seq<LayerV>,
}

/// Model of a feature under construction: the pending record and the layer it
/// exclusively owns.
#[verifier::ext_equal]
pub ghost struct FeatureV {
    /// The pending feature record.
    pub feat: FeatV,
    /// The owned layer.
    pub layer: LayerV,
}

/// A committed feature's tags come in pairs, and each index points into the
/// owning layer's dictionaries.
pub open spec fn feat_wf(f: FeatV, keys_len: nat, values_len: nat) -> bool {
    &&& f.tags.len() % 2 == 0
    &&& forall|i: int|
        0 <= i < f.tags.len() && i % 2 == 0 ==> (#[trigger] f.tags[i] as nat) < keys_len
    &&& forall|i: int|
        0 <= i < f.tags.len() && i % 2 == 1 ==> (#[trigger] f.tags[i] as nat) < values_len
}

/// A layer's dictionaries are duplicate-free and every committed feature is
/// well formed against them.
pub open spec fn layer_wf(l: LayerV) -> bool {
    &&& distinct(l.keys)
    &&& distinct(l.values)
    &&& forall|i: int|
        0 <= i < l.features.len() ==> feat_wf(
            #[trigger] l.features[i],
            l.keys.len(),
            l.values.len(),
        )
}

/// The owned layer is well formed and the pending tag list is valid against
/// its dictionaries.
pub open spec fn feature_wf(f: FeatureV) -> bool {
    &&& layer_wf(f.layer)
    &&& feat_wf(f.feat, f.layer.keys.len(), f.layer.values.len())
}

/// Layer names are pairwise distinct and every layer is well formed.
pub open spec fn tile_wf(t: TileV) -> bool {
    &&& forall|i: int, j: int|
        0 <= i < j < t.layers.len() ==> (#[trigger] t.layers[i]).name != (
        #[trigger] t.layers[j]).name
    &&& forall|i: int| 0 <= i < t.layers.len() ==> layer_wf(#[trigger] t.layers[i])
}

/// The 32-bit tag index written for a dictionary position: positions are
/// carried as `uint32` on the wire, so an index reduces modulo 2^32.
pub open spec fn tag_index(n: int) -> u32 {
    (n % 0x1_0000_0000) as u32
}

/// The state change one tag addition makes: both dictionaries do a
/// find-or-insert, and the pair of indices lands at the end of the pending
/// tag list.
pub open spec fn tag_step(pre: FeatureV, key: Seq<char>, v: ValueV) -> FeatureV {
    FeatureV {
        feat: FeatV {
            tags: pre.feat.tags + seq![
                tag_index(find_first(pre.layer.keys, key)),
                tag_index(find_first(pre.layer.values, v)),
            ],
            ..pre.feat
        },
        layer: LayerV {
            keys: dict_insert(pre.layer.keys, key),
            values: dict_insert(pre.layer.values, v),
            ..pre.layer
        },
    }
}

/// A committed feature record.
struct FeatureData {
    id: Option<u64>,
    geom_type: GeomType,
    geometry: Vec<u32>,
    tags: Vec<u32>,
}

impl View for FeatureData {
    type V = FeatV;

    closed spec fn view(&self) -> FeatV {
        FeatV { id: self.id, geom_type: self.geom_type, geometry: self.geometry@, tags: self.tags@ }
    }
}

/// A set of related features sharing one pair of dictionaries.
///
/// Layers are created detached from a tile, populated through features, and
/// added back with `Tile::add_layer`.  Every layer carries the fixed schema
/// version 2 and the extent copied from its tile at creation time.
pub struct Layer {
    name: String,
    extent: u32,
    keys: Vec<String>,
    values: Vec<Value>,
    features: Vec<FeatureData>,
}

impl View for Layer {
    type V = LayerV;

    closed spec fn view(&self) -> LayerV {
        LayerV {
            name: self.name@,
            extent: self.extent,
            keys: self.keys@.map_values(|k: String| k@),
            values: self.values@.map_values(|v: Value| v@),
            features: self.features@.map_values(|f: FeatureData| f@),
        }
    }
}

/// A rectangular region of a map at one zoom level: an extent and an ordered
/// list of name-unique layers.
pub struct Tile {
    extent: u32,
    layers: Vec<Layer>,
}

impl View for Tile {
    type V = TileV;

    closed spec fn view(&self) -> TileV {
        TileV { extent: self.extent, layers: self.layers@.map_values(|l: Layer| l@) }
    }
}

/// A feature under construction.  It holds map geometry and metadata, and it
/// exclusively owns its layer until `into_layer` commits it.  A feature that
/// is dropped uncommitted takes the owned layer along, together with every
/// mutation made in that session — dictionary insertions included.
pub struct Feature {
    feat: FeatureData,
    layer: Layer,
}

impl View for Feature {
    type V = FeatureV;

    closed spec fn view(&self) -> FeatureV {
        FeatureV { feat: self.feat@, layer: self.layer@ }
    }
}

impl Tile {
    /// Creates an empty tile with the given extent (screen-coordinate size).
    pub fn new(extent: u32) -> (t: Tile)
        ensures
            t@.extent == extent,
            t@.layers == Seq::<LayerV>::empty(),
            tile_wf(t@),
    {
        let t = Tile { extent, layers: Vec::new() };
        proof {
            assert(t@.layers =~= Seq::<LayerV>::empty());
        }
        t
    }

    /// The extent in screen coordinates.
    pub fn get_extent(&self) -> (r: u32)
        ensures
            r == self@.extent,
    {
        self.extent
    }

    /// The number of layers added so far.
    pub fn num_layers(&self) -> (r: usize)
        ensures
            r == self@.layers.len(),
    {
        self.layers.len()
    }

    /// The layer at a position in insertion order.
    pub fn layer_at(&self, i: usize) -> (r: &Layer)
        requires
            i < self@.layers.len(),
        ensures
            r@ == self@.layers[i as int],
    {
        proof {
            assert(self@.layers[i as int] == self.layers@[i as int]@);
        }
        &self.layers[i]
    }

    /// Creates a new detached layer: empty, named `name`, carrying this
    /// tile's extent.  The tile itself is not changed; the layer joins it
    /// later through `add_layer`.
    pub fn create_layer(&self, name: &str) -> (l: Layer)
        ensures
            l@ == (LayerV {
                name: name@,
                extent: self@.extent,
                keys: Seq::<Seq<char>>::empty(),
                values: Seq::<ValueV>::empty(),
                features: Seq::<FeatV>::empty(),
            }),
            layer_wf(l@),
    {
        Layer::new(name, self.extent)
    }

    /// Returns whether some layer already carries this name.
    fn has_layer_named(&self, name: &String) -> (r: bool)
        ensures
            r == (exists|i: int|
                0 <= i < self@.layers.len() && (#[trigger] self@.layers[i]).name == name@),
    {
        let n = self.layers.len();
        let mut i: usize = 0;
        while i < n
            invariant
                i <= n,
                n == self@.layers.len(),
                forall|j: int| 0 <= j < i ==> (#[trigger] self@.layers[j]).name != name@,
            decreases n - i,
        {
            if str_eq(self.layers[i].name.as_str(), name.as_str()) {
                proof {
                    assert(self@.layers[i as int] == self.layers@[i as int]@);
                    assert(self@.layers[i as int].name == name@);
                }
                return true;
            }
            i = i + 1;
        }
        false
    }

    /// Adds a completed layer to the tile.
    ///
    /// Fails with `DuplicateName` exactly when the tile already holds a layer
    /// of the same name; the rejected layer rides back to the caller inside
    /// the error and the tile is left unchanged.  On success the layer is
    /// appended, consumed.
    pub fn add_layer(&mut self, layer: Layer) -> (r: Result<(), (Error, Layer)>)
        requires
            tile_wf(old(self)@),
            layer_wf(layer@),
        ensures
            tile_wf(final(self)@),
            final(self)@.extent == old(self)@.extent,
            (exists|i: int|
                0 <= i < old(self)@.layers.len() && (#[trigger] old(self)@.layers[i]).name
                    == layer@.name) <==> r is Err,
            r matches Err((e, l)) ==> e == Error::DuplicateName && l@ == layer@ && final(self)@
                == old(self)@,
            r is Ok ==> final(self)@.layers == old(self)@.layers.push(layer@),
    {
        if self.has_layer_named(&layer.name) {
            return Err((Error::DuplicateName, layer));
        }
        let ghost pre = self@;
        self.layers.push(layer);
        proof {
            assert(self@.layers =~= pre.layers.push(layer@));
            assert forall|i: int, j: int|
                0 <= i < j < self@.layers.len() implies (#[trigger] self@.layers[i]).name != (
            #[trigger] self@.layers[j]).name by {
                if j == pre.layers.len() {
                    assert(self@.layers[i] == pre.layers[i]);
                }
            }
        }
        Ok(())
    }
}

impl Layer {
    /// Creates an empty layer with the fixed schema version.
    fn new(name: &str, extent: u32) -> (l: Layer)
        ensures
            l@ == (LayerV {
                name: name@,
                extent: extent,
                keys: Seq::<Seq<char>>::empty(),
                values: Seq::<ValueV>::empty(),
                features: Seq::<FeatV>::empty(),
            }),
            layer_wf(l@),
    {
        let l = Layer {
            name: name.to_owned(),
            extent,
            keys: Vec::new(),
            values: Vec::new(),
            features: Vec::new(),
        };
        proof {
            assert(l@ =~= (LayerV {
                name: name@,
                extent: extent,
                keys: Seq::<Seq<char>>::empty(),
                values: Seq::<ValueV>::empty(),
                features: Seq::<FeatV>::empty(),
            }));
        }
        l
    }

    /// The number of committed features.
    pub fn num_features(&self) -> (r: usize)
        ensures
            r == self@.features.len(),
    {
        self.features.len()
    }

    /// Starts a new feature, giving it exclusive ownership of this layer.
    ///
    /// The encoder output is stored verbatim: the declared geometry type and
    /// the opaque, pre-encoded coordinate stream.  The feature starts with no
    /// id and no tags.
    pub fn into_feature(self, encoder: GeomData) -> (f: Feature)
        requires
            layer_wf(self@),
        ensures
            f@.layer == self@,
            f@.feat == (FeatV {
                id: Option::None,
                geom_type: encoder.geom_type,
                geometry: encoder.data@,
                tags: Seq::<u32>::empty(),
            }),
            feature_wf(f@),
    {
        let feat = FeatureData {
            id: None,
            geom_type: encoder.geom_type,
            geometry: encoder.data,
            tags: Vec::new(),
        };
        let f = Feature { feat, layer: self };
        proof {
            assert(f@.feat =~= (FeatV {
                id: Option::None,
                geom_type: encoder.geom_type,
                geometry: encoder.data@,
                tags: Seq::<u32>::empty(),
            }));
        }
        f
    }

    /// Position of `key` in the key dictionary, without inserting.
    fn key_find(&self, key: &str) -> (r: usize)
        ensures
            r as int == find_first(self@.keys, key@),
    {
        let n = self.keys.len();
        let mut i: usize = 0;
        while i < n
            invariant
                i <= n,
                n == self@.keys.len(),
                forall|j: int| 0 <= j < i ==> self@.keys[j] != key@,
            decreases n - i,
        {
            if str_eq(self.keys[i].as_str(), key) {
                proof {
                    assert(self.keys@[i as int]@ == key@);
                    assert(self@.keys[i as int] == self.keys@[i as int]@);
                    lemma_find_first(self@.keys, key@);
                    assert(self@.keys.contains(key@));
                }
                return i;
            }
            i = i + 1;
        }
        proof {
            lemma_find_first(self@.keys, key@);
            if self@.keys.contains(key@) {
                let w = choose|w: int| 0 <= w < self@.keys.len() && self@.keys[w] == key@;
                assert(self@.keys[w] != key@);
            }
        }
        n
    }

    /// Position of `key` in the key dictionary; a missing key is appended as
    /// the last entry.  The returned index is stable for the layer's life.
    fn key_pos(&mut self, key: &str) -> (r: usize)
        ensures
            r as int == find_first(old(self)@.keys, key@),
            r < final(self)@.keys.len(),
            final(self)@ == (LayerV { keys: dict_insert(old(self)@.keys, key@), ..old(self)@ }),
    {
        let i = self.key_find(key);
        proof {
            lemma_find_first(self@.keys, key@);
            lemma_dict_insert(self@.keys, key@);
        }
        if i < self.keys.len() {
            proof {
                if !self@.keys.contains(key@) {
                    assert(false);
                }
                assert(self@ =~= (LayerV { keys: dict_insert(self@.keys, key@), ..self@ }));
            }
            i
        } else {
            let ghost pre = self@;
            self.keys.push(key.to_owned());
            proof {
                assert(self@.keys =~= pre.keys.push(key@));
                assert(self@ =~= (LayerV { keys: dict_insert(pre.keys, key@), ..pre }));
            }
            i
        }
    }

    /// Position of `value` in the value dictionary, without inserting.
    fn val_find(&self, value: &Value) -> (r: usize)
        ensures
            r as int == find_first(self@.values, value@),
    {
        let n = self.values.len();
        let mut i: usize = 0;
        while i < n
            invariant
                i <= n,
                n == self@.values.len(),
                forall|j: int| 0 <= j < i ==> self@.values[j] != value@,
            decreases n - i,
        {
            if self.values[i].full_eq(value) {
                proof {
                    assert(self.values@[i as int]@ == value@);
                    assert(self@.values[i as int] == self.values@[i as int]@);
                    lemma_find_first(self@.values, value@);
                    assert(self@.values.contains(value@));
                }
                return i;
            }
            i = i + 1;
        }
        proof {
            lemma_find_first(self@.values, value@);
            if self@.values.contains(value@) {
                let w = choose|w: int| 0 <= w < self@.values.len() && self@.values[w] == value@;
                assert(self@.values[w] != value@);
            }
        }
        n
    }

    /// Position of `value` in the value dictionary; a missing value is
    /// appended as the last entry.  Equality is full: variant tag and payload.
    fn val_pos(&mut self, value: Value) -> (r: usize)
        ensures
            r as int == find_first(old(self)@.values, value@),
            r < final(self)@.values.len(),
            final(self)@ == (LayerV {
                values: dict_insert(old(self)@.values, value@),
                ..old(self)@
            }),
    {
        let i = self.val_find(&value);
        proof {
            lemma_find_first(self@.values, value@);
            lemma_dict_insert(self@.values, value@);
        }
        if i < self.values.len() {
            proof {
                if !self@.values.contains(value@) {
                    assert(false);
                }
                assert(self@ =~= (LayerV { values: dict_insert(self@.values, value@), ..self@ }));
            }
            i
        } else {
            let ghost pre = self@;
            let ghost vv = value@;
            self.values.push(value);
            proof {
                assert(self@.values =~= pre.values.push(vv));
                assert(self@ =~= (LayerV { values: dict_insert(pre.values, vv), ..pre }));
            }
            i
        }
    }

    /// The number of entries in the key dictionary.
    pub fn num_keys(&self) -> (r: usize)
        ensures
            r == self@.keys.len(),
    {
        self.keys.len()
    }

    /// The number of entries in the value dictionary.
    pub fn num_values(&self) -> (r: usize)
        ensures
            r == self@.values.len(),
    {
        self.values.len()
    }

    /// The key at a dictionary index.
    pub fn key_at(&self, i: usize) -> (r: &String)
        requires
            i < self@.keys.len(),
        ensures
            r@ == self@.keys[i as int],
    {
        proof {
            assert(self@.keys[i as int] == self.keys@[i as int]@);
        }
        &self.keys[i]
    }

    /// The value at a dictionary index.
    pub fn value_at(&self, i: usize) -> (r: &Value)
        requires
            i < self@.values.len(),
        ensures
            r@ == self@.values[i as int],
    {
        proof {
            assert(self@.values[i as int] == self.values@[i as int]@);
        }
        &self.values[i]
    }

    /// The tag pairs of a committed feature, in call order.
    pub fn feature_tags(&self, i: usize) -> (r: &Vec<u32>)
        requires
            i < self@.features.len(),
        ensures
            r@ == self@.features[i as int].tags,
    {
        proof {
            assert(self@.features[i as int] == self.features@[i as int]@);
        }
        &self.features[i].tags
    }

    /// The id of a committed feature, if one was set.
    pub fn feature_id(&self, i: usize) -> (r: Option<u64>)
        requires
            i < self@.features.len(),
        ensures
            r == self@.features[i as int].id,
    {
        proof {
            assert(self@.features[i as int] == self.features@[i as int]@);
        }
        self.features[i].id
    }

    /// Returns whether a committed feature has this id recorded.  A feature
    /// without an id never matches.
    fn has_feature_id(&self, id: u64) -> (r: bool)
        ensures
            r == (exists|i: int|
                0 <= i < self@.features.len() && (#[trigger] self@.features[i]).id == Option::Some(
                    id,
                )),
    {
        let n = self.features.len();
        let mut i: usize = 0;
        while i < n
            invariant
                i <= n,
                n == self@.features.len(),
                forall|j: int|
                    0 <= j < i ==> (#[trigger] self@.features[j]).id != Option::Some(id),
            decreases n - i,
        {
            let matches_id = match &self.features[i].id {
                Some(v) => *v == id,
                None => false,
            };
            if matches_id {
                proof {
                    assert(self@.features[i as int] == self.features@[i as int]@);
                    assert(self@.features[i as int].id == Option::Some(id));
                }
                return true;
            }
            i = i + 1;
        }
        false
    }
}

impl Feature {
    /// Commits the feature: appends the finished record to the owned layer's
    /// feature list and returns ownership of the layer.
    pub fn into_layer(self) -> (l: Layer)
        requires
            feature_wf(self@),
        ensures
            l@ == (LayerV { features: self@.layer.features.push(self@.feat), ..self@.layer }),
            layer_wf(l@),
    {
        let Feature { feat, mut layer } = self;
        layer.features.push(feat);
        proof {
            assert(layer@.features =~= self@.layer.features.push(self@.feat));
            assert(layer@ =~= (LayerV {
                features: self@.layer.features.push(self@.feat),
                ..self@.layer
            }));
        }
        layer
    }

    /// Sets the feature id.
    ///
    /// Fails with `DuplicateId` exactly when a feature already committed into
    /// the owned layer has the same id recorded; nothing changes then.  Ids
    /// are optional: a feature whose id is never set is valid, and committed
    /// id-less features conflict with nothing — not even with id 0.
    pub fn set_id(&mut self, id: u64) -> (r: Result<(), Error>)
        requires
            feature_wf(old(self)@),
        ensures
            feature_wf(final(self)@),
            (exists|i: int|
                0 <= i < old(self)@.layer.features.len() && (
                #[trigger] old(self)@.layer.features[i]).id == Option::Some(id)) <==> r is Err,
            r is Err ==> r == Result::<(), Error>::Err(Error::DuplicateId) && final(self)@ == old(
                self,
            )@,
            r is Ok ==> final(self)@ == (FeatureV {
                feat: FeatV { id: Option::Some(id), ..old(self)@.feat },
                layer: old(self)@.layer,
            }),
    {
        if self.layer.has_feature_id(id) {
            Err(Error::DuplicateId)
        } else {
            self.feat.id = Some(id);
            proof {
                assert(self@ =~= (FeatureV {
                    feat: FeatV { id: Option::Some(id), ..old(self)@.feat },
                    layer: old(self)@.layer,
                }));
            }
            Ok(())
        }
    }

    /// The pending feature's id, if one has been set.
    pub fn get_id(&self) -> (r: Option<u64>)
        ensures
            r == self@.feat.id,
    {
        self.feat.id
    }

    /// Resolves `key` and `value` through the owned layer's dictionaries and
    /// appends the resulting index pair to the pending tag list.
    fn add_tag(&mut self, key: &str, value: Value)
        requires
            feature_wf(old(self)@),
        ensures
            feature_wf(final(self)@),
            final(self)@ == tag_step(old(self)@, key@, value@),
    {
        let ghost pre = self@;
        let ghost vv = value@;
        let ki = self.layer.key_pos(key);
        let k32 = ((ki as u64) % 0x1_0000_0000) as u32;
        self.feat.tags.push(k32);
        let vi = self.layer.val_pos(value);
        let v32 = ((vi as u64) % 0x1_0000_0000) as u32;
        self.feat.tags.push(v32);
        proof {
            lemma_find_first(pre.layer.keys, key@);
            lemma_find_first(pre.layer.values, vv);
            lemma_dict_insert(pre.layer.keys, key@);
            lemma_dict_insert(pre.layer.values, vv);
            assert(self@.feat.tags =~= pre.feat.tags + seq![
                tag_index(find_first(pre.layer.keys, key@)),
                tag_index(find_first(pre.layer.values, vv)),
            ]);
            assert(self@ =~= tag_step(pre, key@, vv));
            assert(feature_wf(self@)) by {
                let l = self@.layer;
                assert forall|i: int| 0 <= i < l.features.len() implies feat_wf(
                    #[trigger] l.features[i],
                    l.keys.len(),
                    l.values.len(),
                ) by {
                    assert(l.features[i] == pre.layer.features[i]);
                    assert(feat_wf(l.features[i], pre.layer.keys.len(), pre.layer.values.len()));
                }
                assert((k32 as nat) < l.keys.len());
                assert((v32 as nat) < l.values.len());
                assert forall|i: int|
                    0 <= i < self@.feat.tags.len() && i % 2 == 0 implies (
                #[trigger] self@.feat.tags[i] as nat) < l.keys.len() by {
                    if i < pre.feat.tags.len() {
                        assert((pre.feat.tags[i] as nat) < pre.layer.keys.len());
                    }
                }
                assert forall|i: int|
                    0 <= i < self@.feat.tags.len() && i % 2 == 1 implies (
                #[trigger] self@.feat.tags[i] as nat) < l.values.len() by {
                    if i < pre.feat.tags.len() {
                        assert((pre.feat.tags[i] as nat) < pre.layer.values.len());
                    }
                }
            }
        }
    }

    /// Adds a string tag.  Repeated keys are allowed: every call appends a
    /// new `(key index, value index)` pair in call order.
    pub fn add_tag_string(&mut self, key: &str, val: &str)
        requires
            feature_wf(old(self)@),
        ensures
            feature_wf(final(self)@),
            final(self)@ == tag_step(old(self)@, key@, ValueV::Str(val@)),
    {
        self.add_tag(key, Value::Str(val.to_owned()));
    }

    /// Adds a double tag, given as the IEEE-754 bit pattern of the value.
    pub fn add_tag_double_bits(&mut self, key: &str, bits: u64)
        requires
            feature_wf(old(self)@),
        ensures
            feature_wf(final(self)@),
            final(self)@ == tag_step(old(self)@, key@, ValueV::Double(bits)),
    {
        self.add_tag(key, Value::Double(bits));
    }

    /// Adds a float tag, given as the IEEE-754 bit pattern of the value.
    pub fn add_tag_float_bits(&mut self, key: &str, bits: u32)
        requires
            feature_wf(old(self)@),
        ensures
            feature_wf(final(self)@),
            final(self)@ == tag_step(old(self)@, key@, ValueV::Float(bits)),
    {
        self.add_tag(key, Value::Float(bits));
    }

    /// Adds an int tag (two's-complement varint on the wire).
    pub fn add_tag_int(&mut self, key: &str, val: i64)
        requires
            feature_wf(old(self)@),
        ensures
            feature_wf(final(self)@),
            final(self)@ == tag_step(old(self)@, key@, ValueV::Int(val)),
    {
        self.add_tag(key, Value::Int(val));
    }

    /// Adds a uint tag.
    pub fn add_tag_uint(&mut self, key: &str, val: u64)
        requires
            feature_wf(old(self)@),
        ensures
            feature_wf(final(self)@),
            final(self)@ == tag_step(old(self)@, key@, ValueV::Uint(val)),
    {
        self.add_tag(key, Value::Uint(val));
    }

    /// Adds a sint tag (zigzag varint on the wire).
    pub fn add_tag_sint(&mut self, key: &str, val: i64)
        requires
            feature_wf(old(self)@),
        ensures
            feature_wf(final(self)@),
            final(self)@ == tag_step(old(self)@, key@, ValueV::Sint(val)),
    {
        self.add_tag(key, Value::Sint(val));
    }

    /// Adds a bool tag.
    pub fn add_tag_bool(&mut self, key: &str, val: bool)
        requires
            feature_wf(old(self)@),
        ensures
            feature_wf(final(self)@),
            final(self)@ == tag_step(old(self)@, key@, ValueV::Bool(val)),
    {
        self.add_tag(key, Value::Bool(val));
    }
}

/// Appends the encoding of one feature message.
fn encode_feature_into(buf: &mut Vec<u8>, f: &FeatureData)
    ensures
        final(buf)@ == old(buf)@ + encode_feature(f@),
{
    match &f.id {
        Some(id) => {
            buf.push(0x08);
            put_varint(buf, *id);
        },
        None => {},
    }
    if f.tags.len() > 0 {
        let mut p: Vec<u8> = Vec::new();
        put_packed(&mut p, &f.tags);
        put_len_delim(buf, 0x12, &p);
    }
    buf.push(0x18);
    let c = f.geom_type.code();
    put_varint(buf, c);
    if f.geometry.len() > 0 {
        let mut p: Vec<u8> = Vec::new();
        put_packed(&mut p, &f.geometry);
        put_len_delim(buf, 0x22, &p);
    }
    proof {
        assert(buf@ =~= old(buf)@ + encode_feature(f@));
    }
}

/// Appends the encoding of one layer message.
#[verifier::rlimit(60)]
fn encode_layer_into(buf: &mut Vec<u8>, l: &Layer)
    ensures
        final(buf)@ == old(buf)@ + encode_layer(l@),
{
    buf.push(0x78);
    buf.push(0x02);
    let name_bytes = l.name.as_str().as_bytes_vec();
    put_len_delim(buf, 0x0a, &name_bytes);
    let ghost head = old(buf)@ + seq![0x78u8, 0x02u8] + len_delim(0x0a, encode_utf8(l@.name));
    proof {
        assert(buf@ =~= head);
        assert(buf@ =~= head + encode_features(l@.features.take(0)));
    }
    let nf = l.features.len();
    let mut i: usize = 0;
    while i < nf
        invariant
            i <= nf,
            nf == l@.features.len(),
            l@.features == l.features@.map_values(|f: FeatureData| f@),
            buf@ == head + encode_features(l@.features.take(i as int)),
        decreases nf - i,
    {
        let mut p: Vec<u8> = Vec::new();
        encode_feature_into(&mut p, &l.features[i]);
        put_len_delim(buf, 0x12, &p);
        proof {
            assert(l@.features[i as int] == l.features@[i as int]@);
            lemma_encode_features_push(l@.features.take(i as int), l@.features[i as int]);
            assert(l@.features.take(i as int).push(l@.features[i as int]) =~= l@.features.take(
                i + 1 as int,
            ));
            assert(buf@ =~= head + encode_features(l@.features.take(i + 1 as int)));
        }
        i = i + 1;
    }
    let ghost head2 = head + encode_features(l@.features);
    proof {
        assert(l@.features.take(nf as int) =~= l@.features);
        assert(buf@ =~= head2);
        assert(buf@ =~= head2 + encode_keys(l@.keys.take(0)));
    }
    let nk = l.keys.len();
    let mut i: usize = 0;
    while i < nk
        invariant
            i <= nk,
            nk == l@.keys.len(),
            l@.keys == l.keys@.map_values(|k: String| k@),
            buf@ == head2 + encode_keys(l@.keys.take(i as int)),
        decreases nk - i,
    {
        let kb = l.keys[i].as_str().as_bytes_vec();
        put_len_delim(buf, 0x1a, &kb);
        proof {
            assert(l@.keys[i as int] == l.keys@[i as int]@);
            assert(kb@ == encode_utf8(l@.keys[i as int]));
            lemma_encode_keys_push(l@.keys.take(i as int), l@.keys[i as int]);
            assert(l@.keys.take(i as int).push(l@.keys[i as int]) =~= l@.keys.take(i + 1 as int));
            assert(buf@ =~= head2 + encode_keys(l@.keys.take(i + 1 as int)));
        }
        i = i + 1;
    }
    let ghost head3 = head2 + encode_keys(l@.keys);
    proof {
        assert(l@.keys.take(nk as int) =~= l@.keys);
        assert(buf@ =~= head3);
        assert(buf@ =~= head3 + encode_values(l@.values.take(0)));
    }
    let nv = l.values.len();
    let mut i: usize = 0;
    while i < nv
        invariant
            i <= nv,
            nv == l@.values.len(),
            l@.values == l.values@.map_values(|v: Value| v@),
            buf@ == head3 + encode_values(l@.values.take(i as int)),
        decreases nv - i,
    {
        let mut p: Vec<u8> = Vec::new();
        encode_value_into(&mut p, &l.values[i]);
        put_len_delim(buf, 0x22, &p);
        proof {
            assert(l@.values[i as int] == l.values@[i as int]@);
            lemma_encode_values_push(l@.values.take(i as int), l@.values[i as int]);
            assert(l@.values.take(i as int).push(l@.values[i as int]) =~= l@.values.take(
                i + 1 as int,
            ));
            assert(buf@ =~= head3 + encode_values(l@.values.take(i + 1 as int)));
        }
        i = i + 1;
    }
    buf.push(0x28);
    put_varint(buf, l.extent as u64);
    proof {
        assert(l@.values.take(nv as int) =~= l@.values);
        assert(buf@ =~= old(buf)@ + encode_layer(l@));
    }
}

impl Tile {
    /// Builds the full wire encoding of the tile.
    fn encode(&self) -> (v: Vec<u8>)
        ensures
            v@ == encode_tile(self@),
    {
        let mut buf: Vec<u8> = Vec::new();
        proof {
            assert(buf@ =~= encode_layers(self@.layers.take(0)));
        }
        let n = self.layers.len();
        let mut i: usize = 0;
        while i < n
            invariant
                i <= n,
                n == self@.layers.len(),
                self@.layers == self.layers@.map_values(|l: Layer| l@),
                buf@ == encode_layers(self@.layers.take(i as int)),
            decreases n - i,
        {
            let mut p: Vec<u8> = Vec::new();
            encode_layer_into(&mut p, &self.layers[i]);
            put_len_delim(&mut buf, 0x1a, &p);
            proof {
                assert(self@.layers[i as int] == self.layers@[i as int]@);
                lemma_encode_layers_push(self@.layers.take(i as int), self@.layers[i as int]);
                assert(self@.layers.take(i as int).push(self@.layers[i as int])
                    =~= self@.layers.take(i + 1 as int));
                assert(buf@ =~= encode_layers(self@.layers.take(i + 1 as int)));
            }
            i = i + 1;
        }
        proof {
            assert(self@.layers.take(n as int) =~= self@.layers);
        }
        buf
    }

    /// Encodes the tile and returns the owned buffer: exactly the wire
    /// encoding of the MVT message.  The encoder cannot fail; the `Result`
    /// mirrors the builder's error-reporting shape.
    pub fn to_bytes(&self) -> (r: Result<Vec<u8>, Error>)
        ensures
            r matches Ok(v) && v@ == encode_tile(self@),
    {
        Ok(self.encode())
    }

    /// The exact encoded size in bytes.  It is recomputed on every call by
    /// walking the whole object graph, so it costs O(size of the encoding),
    /// not O(1).  An encoding longer than `u32::MAX` bytes reports
    /// `u32::MAX`.
    pub fn compute_size(&self) -> (r: u32)
        ensures
            r as nat == if encode_tile(self@).len() <= u32::MAX as nat {
                encode_tile(self@).len()
            } else {
                u32::MAX as nat
            },
    {
        let v = self.encode();
        if v.len() <= u32::MAX as usize {
            v.len() as u32
        } else {
            u32::MAX
        }
    }
}

/// A repeated value makes no second dictionary entry.
/// Adding a tag whose value the layer's dictionary already holds — for
/// example from an earlier tag on any feature of the same layer — leaves the
/// value dictionary unchanged; the appended pair references the value's
/// first index, which in a well-formed layer is its only occurrence.
pub proof fn lemma_tag_value_dedup(pre: FeatureV, key: Seq<char>, v: ValueV)
    requires
        feature_wf(pre),
        pre.layer.values.contains(v),
    ensures
        tag_step(pre, key, v).layer.values == pre.layer.values,
        tag_step(pre, key, v).feat.tags.last() == tag_index(find_first(pre.layer.values, v)),
        pre.layer.values[find_first(pre.layer.values, v)] == v,
        forall|j: int|
            0 <= j < pre.layer.values.len() && pre.layer.values[j] == v ==> j == find_first(
                pre.layer.values,
                v,
            ),
{
    lemma_dict_insert(pre.layer.values, v);
    lemma_find_first(pre.layer.values, v);
    let f = find_first(pre.layer.values, v);
    assert forall|j: int|
        0 <= j < pre.layer.values.len() && pre.layer.values[j] == v implies j == f by {
        if j < f {
            assert(pre.layer.values[j] != v);
        }
        if j > f {
            assert(pre.layer.values[f] != pre.layer.values[j]);
        }
    }
}

/// Size round-trip exactness.  For every tile whose
/// encoding fits a 32-bit length, the byte count `compute_size` reports is
/// exactly the length of the buffer `to_bytes` returns: both functions'
/// contracts speak of the one encoding `encode_tile`.
pub proof fn lemma_size_round_trip(t: TileV)
    ensures
        encode_tile(t).len() <= u32::MAX as nat ==> (if encode_tile(t).len() <= u32::MAX as nat {
            encode_tile(t).len()
        } else {
            u32::MAX as nat
        }) == encode_tile(t).len(),
{
}

} // verus!
