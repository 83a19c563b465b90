//! The protocol-buffer wire encoding of the MVT schema.
//!
//! The specification functions here define, byte for byte, how a tile is laid
//! out on the wire; the executable functions append exactly those bytes to a
//! buffer.  Field numbers follow the MVT schema: a tile holds its layers in
//! field 3; a layer holds version, name, features, keys, values and extent in
//! fields 15, 1, 2, 3, 4 and 5; a feature holds id, tags, geometry type and
//! geometry in fields 1 to 4; a value holds its variants in fields 1 to 7.

use vstd::prelude::*;
use vstd::string::StrSliceExecFns;
use vstd::string::StringSliceAdditionalSpecFns;
use vstd::utf8::encode_utf8;
use crate::tile::FeatV;
use crate::tile::LayerV;
use crate::tile::TileV;
use crate::tile::geom_code;
use crate::value::Value;
use crate::value::ValueV;

verus! {

broadcast use {vstd::seq::group_seq_axioms, vstd::seq_lib::group_seq_lib_default};

/// Base-128 varint encoding, least-significant group first: each byte carries
/// seven value bits, and its high bit says whether more bytes follow.
pub open spec fn varint(n: nat) -> Seq<u8>
    decreases n,
{
    if n < 128 {
        seq![n as u8]
    } else {
        seq![(128 + n % 128) as u8] + varint(n / 128)
    }
}

/// Appends the varint encoding of `n`.
pub fn put_varint(buf: &mut Vec<u8>, n: u64)
    ensures
        final(buf)@ == old(buf)@ + varint(n as nat),
    decreases n,
{
    if n < 128 {
        buf.push(n as u8);
        proof {
            assert(buf@ =~= old(buf)@ + varint(n as nat));
        }
    } else {
        buf.push((128 + n % 128) as u8);
        put_varint(buf, n / 128);
        proof {
            assert(buf@ =~= old(buf)@ + varint(n as nat));
        }
    }
}

/// The four bytes of a 32-bit word, least-significant first.
pub open spec fn le_bytes_32(n: u32) -> Seq<u8> {
    seq![
        (n % 256) as u8,
        (n / 256 % 256) as u8,
        (n / 65536 % 256) as u8,
        (n / 16777216 % 256) as u8,
    ]
}

/// Appends the four little-endian bytes of `n`.
pub fn put_le_32(buf: &mut Vec<u8>, n: u32)
    ensures
        final(buf)@ == old(buf)@ + le_bytes_32(n),
{
    buf.push((n % 256) as u8);
    buf.push((n / 256 % 256) as u8);
    buf.push((n / 65536 % 256) as u8);
    buf.push((n / 16777216 % 256) as u8);
    proof {
        assert(buf@ =~= old(buf)@ + le_bytes_32(n));
    }
}

/// The eight bytes of a 64-bit word, least-significant first.
pub open spec fn le_bytes_64(n: u64) -> Seq<u8> {
    seq![
        (n % 256) as u8,
        (n / 256 % 256) as u8,
        (n / 65536 % 256) as u8,
        (n / 16777216 % 256) as u8,
        (n / 4294967296 % 256) as u8,
        (n / 1099511627776 % 256) as u8,
        (n / 281474976710656 % 256) as u8,
        (n / 72057594037927936 % 256) as u8,
    ]
}

/// Appends the eight little-endian bytes of `n`.
pub fn put_le_64(buf: &mut Vec<u8>, n: u64)
    ensures
        final(buf)@ == old(buf)@ + le_bytes_64(n),
{
    buf.push((n % 256) as u8);
    buf.push((n / 256 % 256) as u8);
    buf.push((n / 65536 % 256) as u8);
    buf.push((n / 16777216 % 256) as u8);
    buf.push((n / 4294967296 % 256) as u8);
    buf.push((n / 1099511627776 % 256) as u8);
    buf.push((n / 281474976710656 % 256) as u8);
    buf.push((n / 72057594037927936 % 256) as u8);
    proof {
        assert(buf@ =~= old(buf)@ + le_bytes_64(n));
    }
}

/// Zigzag code of a signed integer: 0, -1, 1, -2, ... map to 0, 1, 2, 3, ...
pub open spec fn zigzag(v: i64) -> nat {
    if v >= 0 {
        (2 * (v as int)) as nat
    } else {
        (-2 * (v as int) - 1) as nat
    }
}

/// Computes the zigzag code of `v`.
pub fn encode_zigzag(v: i64) -> (r: u64)
    ensures
        r as nat == zigzag(v),
{
    if v >= 0 {
        (v as u64) * 2
    } else {
        ((-(v + 1)) as u64) * 2 + 1
    }
}

/// The unsigned 64-bit image of a signed integer, as two's complement.
pub open spec fn wire_u64(v: i64) -> nat {
    if v >= 0 {
        v as nat
    } else {
        ((v as int) + 0x1_0000_0000_0000_0000) as nat
    }
}

/// Computes the two's-complement image of `v`.
pub fn encode_wire_u64(v: i64) -> (r: u64)
    ensures
        r as nat == wire_u64(v),
{
    if v >= 0 {
        v as u64
    } else {
        u64::MAX - ((-(v + 1)) as u64)
    }
}

/// Appends a copy of `data`.
pub fn put_bytes(buf: &mut Vec<u8>, data: &Vec<u8>)
    ensures
        final(buf)@ == old(buf)@ + data@,
{
    proof {
        assert(buf@ =~= old(buf)@ + data@.take(0));
    }
    let mut i: usize = 0;
    while i < data.len()
        invariant
            i <= data@.len(),
            buf@ == old(buf)@ + data@.take(i as int),
        decreases data@.len() - i,
    {
        buf.push(data[i]);
        proof {
            assert(buf@ =~= old(buf)@ + data@.take(i + 1 as int));
        }
        i = i + 1;
    }
    proof {
        assert(data@.take(data@.len() as int) =~= data@);
    }
}

/// Concatenated varints of a packed repeated field.
pub open spec fn packed_varints(s: Seq<u32>) -> Seq<u8>
    decreases s.len(),
{
    if s.len() == 0 {
        Seq::empty()
    } else {
        varint(s[0] as nat) + packed_varints(s.drop_first())
    }
}

/// Appending an entry to a packed field appends its varint to the payload.
pub proof fn lemma_packed_varints_push(s: Seq<u32>, x: u32)
    ensures
        packed_varints(s.push(x)) == packed_varints(s) + varint(x as nat),
    decreases s.len(),
{
    if s.len() == 0 {
        assert(s.push(x).drop_first() =~= Seq::<u32>::empty());
        assert(s.push(x)[0] == x);
        assert(packed_varints(s.push(x).drop_first()) == Seq::<u8>::empty());
        assert(packed_varints(s.push(x)) == varint(x as nat) + Seq::<u8>::empty());
        assert(packed_varints(s) == Seq::<u8>::empty());
        assert(packed_varints(s.push(x)) =~= packed_varints(s) + varint(x as nat));
    } else {
        assert(s.push(x).drop_first() =~= s.drop_first().push(x));
        lemma_packed_varints_push(s.drop_first(), x);
        assert(packed_varints(s.push(x)) =~= packed_varints(s) + varint(x as nat));
    }
}

/// Appends the packed payload of `vals`: each entry's varint, in order.
pub fn put_packed(buf: &mut Vec<u8>, vals: &Vec<u32>)
    ensures
        final(buf)@ == old(buf)@ + packed_varints(vals@),
{
    proof {
        assert(buf@ =~= old(buf)@ + packed_varints(vals@.take(0)));
    }
    let mut i: usize = 0;
    while i < vals.len()
        invariant
            i <= vals@.len(),
            buf@ == old(buf)@ + packed_varints(vals@.take(i as int)),
        decreases vals@.len() - i,
    {
        put_varint(buf, vals[i] as u64);
        proof {
            assert(vals@.take(i as int).push(vals@[i as int]) =~= vals@.take(i + 1 as int));
            lemma_packed_varints_push(vals@.take(i as int), vals@[i as int]);
            assert(buf@ =~= old(buf)@ + packed_varints(vals@.take(i + 1 as int)));
        }
        i = i + 1;
    }
    proof {
        assert(vals@.take(vals@.len() as int) =~= vals@);
    }
}

/// A length-delimited field: the one-byte tag, the payload length as a
/// varint, then the payload itself.
pub open spec fn len_delim(tag: u8, payload: Seq<u8>) -> Seq<u8> {
    seq![tag] + varint(payload.len()) + payload
}

/// Appends a length-delimited field holding `payload`.
pub fn put_len_delim(buf: &mut Vec<u8>, tag: u8, payload: &Vec<u8>)
    ensures
        final(buf)@ == old(buf)@ + len_delim(tag, payload@),
{
    buf.push(tag);
    put_varint(buf, payload.len() as u64);
    put_bytes(buf, payload);
    proof {
        assert(buf@ =~= old(buf)@ + len_delim(tag, payload@));
    }
}

/// The encoding of one value message.  Exactly one field is present; the
/// variant picks it: string 1, float 2, double 3, int 4, uint 5, sint 6,
/// bool 7.
pub open spec fn encode_value(v: ValueV) -> Seq<u8> {
    match v {
        ValueV::Str(s) => len_delim(0x0a, encode_utf8(s)),
        ValueV::Double(b) => seq![0x19u8] + le_bytes_64(b),
        ValueV::Float(b) => seq![0x15u8] + le_bytes_32(b),
        ValueV::Int(i) => seq![0x20u8] + varint(wire_u64(i)),
        ValueV::Uint(u) => seq![0x28u8] + varint(u as nat),
        ValueV::Sint(i) => seq![0x30u8] + varint(zigzag(i)),
        ValueV::Bool(b) => seq![0x38u8, if b { 1u8 } else { 0u8 }],
    }
}

/// Appends the encoding of one value message.
pub fn encode_value_into(buf: &mut Vec<u8>, v: &Value)
    ensures
        final(buf)@ == old(buf)@ + encode_value(v@),
{
    match v {
        Value::Str(s) => {
            let bs = s.as_str().as_bytes_vec();
            put_len_delim(buf, 0x0a, &bs);
        },
        Value::Double(b) => {
            buf.push(0x19);
            put_le_64(buf, *b);
        },
        Value::Float(b) => {
            buf.push(0x15);
            put_le_32(buf, *b);
        },
        Value::Int(i) => {
            buf.push(0x20);
            put_varint(buf, encode_wire_u64(*i));
        },
        Value::Uint(u) => {
            buf.push(0x28);
            put_varint(buf, *u);
        },
        Value::Sint(i) => {
            buf.push(0x30);
            put_varint(buf, encode_zigzag(*i));
        },
        Value::Bool(b) => {
            buf.push(0x38);
            buf.push(if *b {
                1
            } else {
                0
            });
        },
    }
    proof {
        assert(buf@ =~= old(buf)@ + encode_value(v@));
    }
}

/// The encoding of one feature message: optional id (field 1), packed tags
/// (field 2, omitted when empty), geometry type (field 3), packed geometry
/// (field 4, omitted when empty).
pub open spec fn encode_feature(f: FeatV) -> Seq<u8> {
    (match f.id {
        Option::Some(id) => seq![0x08u8] + varint(id as nat),
        Option::None => Seq::<u8>::empty(),
    }) + (if f.tags.len() == 0 {
        Seq::<u8>::empty()
    } else {
        len_delim(0x12, packed_varints(f.tags))
    }) + (seq![0x18u8] + varint(geom_code(f.geom_type) as nat)) + (if f.geometry.len() == 0 {
        Seq::<u8>::empty()
    } else {
        len_delim(0x22, packed_varints(f.geometry))
    })
}

/// Concatenated length-delimited feature messages (field 2 of a layer).
pub open spec fn encode_features(fs: Seq<FeatV>) -> Seq<u8>
    decreases fs.len(),
{
    if fs.len() == 0 {
        Seq::empty()
    } else {
        len_delim(0x12, encode_feature(fs[0])) + encode_features(fs.drop_first())
    }
}

/// Appending a feature appends its framed message to the field.
pub proof fn lemma_encode_features_push(fs: Seq<FeatV>, f: FeatV)
    ensures
        encode_features(fs.push(f)) == encode_features(fs) + len_delim(0x12, encode_feature(f)),
    decreases fs.len(),
{
    if fs.len() == 0 {
        assert(fs.push(f).drop_first() =~= Seq::<FeatV>::empty());
        assert(fs.push(f)[0] == f);
        assert(encode_features(fs.push(f).drop_first()) == Seq::<u8>::empty());
        assert(encode_features(fs) == Seq::<u8>::empty());
        assert(encode_features(fs.push(f)) =~= encode_features(fs) + len_delim(
            0x12,
            encode_feature(f),
        ));
    } else {
        assert(fs.push(f).drop_first() =~= fs.drop_first().push(f));
        lemma_encode_features_push(fs.drop_first(), f);
        assert(encode_features(fs.push(f)) =~= encode_features(fs) + len_delim(
            0x12,
            encode_feature(f),
        ));
    }
}

/// Concatenated key entries (field 3 of a layer), each a length-delimited
/// UTF-8 string.
pub open spec fn encode_keys(ks: Seq<Seq<char>>) -> Seq<u8>
    decreases ks.len(),
{
    if ks.len() == 0 {
        Seq::empty()
    } else {
        len_delim(0x1a, encode_utf8(ks[0])) + encode_keys(ks.drop_first())
    }
}

/// Appending a key appends its framed entry to the field.
pub proof fn lemma_encode_keys_push(ks: Seq<Seq<char>>, k: Seq<char>)
    ensures
        encode_keys(ks.push(k)) == encode_keys(ks) + len_delim(0x1a, encode_utf8(k)),
    decreases ks.len(),
{
    if ks.len() == 0 {
        assert(ks.push(k).drop_first() =~= Seq::<Seq<char>>::empty());
        assert(ks.push(k)[0] == k);
        assert(encode_keys(ks.push(k).drop_first()) == Seq::<u8>::empty());
        assert(encode_keys(ks) == Seq::<u8>::empty());
        assert(encode_keys(ks.push(k)) =~= encode_keys(ks) + len_delim(0x1a, encode_utf8(k)));
    } else {
        assert(ks.push(k).drop_first() =~= ks.drop_first().push(k));
        lemma_encode_keys_push(ks.drop_first(), k);
        assert(encode_keys(ks.push(k)) =~= encode_keys(ks) + len_delim(0x1a, encode_utf8(k)));
    }
}

/// Concatenated value messages (field 4 of a layer), each length-delimited.
pub open spec fn encode_values(vs: Seq<ValueV>) -> Seq<u8>
    decreases vs.len(),
{
    if vs.len() == 0 {
        Seq::empty()
    } else {
        len_delim(0x22, encode_value(vs[0])) + encode_values(vs.drop_first())
    }
}

/// Appending a value appends its framed message to the field.
pub proof fn lemma_encode_values_push(vs: Seq<ValueV>, v: ValueV)
    ensures
        encode_values(vs.push(v)) == encode_values(vs) + len_delim(0x22, encode_value(v)),
    decreases vs.len(),
{
    if vs.len() == 0 {
        assert(vs.push(v).drop_first() =~= Seq::<ValueV>::empty());
        assert(vs.push(v)[0] == v);
        assert(encode_values(vs.push(v).drop_first()) == Seq::<u8>::empty());
        assert(encode_values(vs) == Seq::<u8>::empty());
        assert(encode_values(vs.push(v)) =~= encode_values(vs) + len_delim(0x22, encode_value(v)));
    } else {
        assert(vs.push(v).drop_first() =~= vs.drop_first().push(v));
        lemma_encode_values_push(vs.drop_first(), v);
        assert(encode_values(vs.push(v)) =~= encode_values(vs) + len_delim(0x22, encode_value(v)));
    }
}

/// The encoding of one layer message, fields written in declaration order:
/// version = 2 (field 15), name (field 1), the features (field 2), the keys
/// (field 3), the values (field 4), and the extent (field 5).
pub open spec fn encode_layer(l: LayerV) -> Seq<u8> {
    seq![0x78u8, 0x02u8] + len_delim(0x0a, encode_utf8(l.name)) + encode_features(l.features)
        + encode_keys(l.keys) + encode_values(l.values) + (seq![0x28u8] + varint(l.extent as nat))
}

/// Concatenated length-delimited layer messages (field 3 of a tile).
pub open spec fn encode_layers(ls: Seq<LayerV>) -> Seq<u8>
    decreases ls.len(),
{
    if ls.len() == 0 {
        Seq::empty()
    } else {
        len_delim(0x1a, encode_layer(ls[0])) + encode_layers(ls.drop_first())
    }
}

/// Appending a layer appends its framed message to the tile.
pub proof fn lemma_encode_layers_push(ls: Seq<LayerV>, l: LayerV)
    ensures
        encode_layers(ls.push(l)) == encode_layers(ls) + len_delim(0x1a, encode_layer(l)),
    decreases ls.len(),
{
    if ls.len() == 0 {
        assert(ls.push(l).drop_first() =~= Seq::<LayerV>::empty());
        assert(ls.push(l)[0] == l);
        assert(encode_layers(ls.push(l).drop_first()) == Seq::<u8>::empty());
        assert(encode_layers(ls) == Seq::<u8>::empty());
        assert(encode_layers(ls.push(l)) =~= encode_layers(ls) + len_delim(0x1a, encode_layer(l)));
    } else {
        assert(ls.push(l).drop_first() =~= ls.drop_first().push(l));
        lemma_encode_layers_push(ls.drop_first(), l);
        assert(encode_layers(ls.push(l)) =~= encode_layers(ls) + len_delim(0x1a, encode_layer(l)));
    }
}

/// The full wire encoding of a tile: its layers, each framed, in order.
/// The tile message itself is bare repetition; it has no outer framing.
pub open spec fn encode_tile(t: TileV) -> Seq<u8> {
    encode_layers(t.layers)
}

} // verus!
