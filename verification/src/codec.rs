use vstd::prelude::*;

use crate::errors::PatchError;

verus! {

/// Number of bytes in a serialized descriptor: five 32-bit fields and one flag byte.
pub const DESCRIPTOR_SIZE: usize = 21;

/// First 32-bit signature constant of the marker pattern.
pub const MAGIC1: u32 = 0x0d000721;

/// Second 32-bit signature constant of the marker pattern.
pub const MAGIC2: u32 = 0x1f8a4e2b;

/// Current descriptor format version.
pub const FORMAT_VERSION: u32 = 1;

/// The little-endian encoding of a 32-bit value: least significant byte first.
pub open spec fn u32_le_bytes(x: u32) -> Seq<u8> {
    seq![
        (x & 0xff) as u8,
        ((x >> 8) & 0xff) as u8,
        ((x >> 16) & 0xff) as u8,
        ((x >> 24) & 0xff) as u8,
    ]
}

/// The 32-bit value encoded by four little-endian bytes.
pub open spec fn u32_from_le(b0: u8, b1: u8, b2: u8, b3: u8) -> u32 {
    (b0 as u32) | ((b1 as u32) << 8) | ((b2 as u32) << 16) | ((b3 as u32) << 24)
}

/// Each byte of a 32-bit value's little-endian encoding is below 256.
proof fn lemma_le_bytes_fit(x: u32)
    ensures
        x & 0xff < 256,
        (x >> 8) & 0xff < 256,
        (x >> 16) & 0xff < 256,
        (x >> 24) & 0xff < 256,
{
    assert(x & 0xff < 256 && (x >> 8) & 0xff < 256 && (x >> 16) & 0xff < 256 && (x >> 24)
        & 0xff < 256) by (bit_vector);
}

/// Decoding the four little-endian bytes of a 32-bit value yields the value back.
proof fn lemma_u32_decode_encode(x: u32)
    ensures
        u32_from_le(
            (x & 0xff) as u8,
            ((x >> 8) & 0xff) as u8,
            ((x >> 16) & 0xff) as u8,
            ((x >> 24) & 0xff) as u8,
        ) == x,
{
    assert(((x & 0xff) as u8 as u32) | ((((x >> 8) & 0xff) as u8 as u32) << 8) | ((((x >> 16)
        & 0xff) as u8 as u32) << 16) | ((((x >> 24) & 0xff) as u8 as u32) << 24) == x)
        by (bit_vector);
}

/// Encoding the 32-bit value read from four bytes yields those bytes back.
proof fn lemma_u32_encode_decode(b0: u8, b1: u8, b2: u8, b3: u8)
    ensures
        u32_le_bytes(u32_from_le(b0, b1, b2, b3)) == seq![b0, b1, b2, b3],
{
    let x = u32_from_le(b0, b1, b2, b3);
    assert((((b0 as u32) | ((b1 as u32) << 8) | ((b2 as u32) << 16) | ((b3 as u32) << 24))
        & 0xff) as u8 == b0) by (bit_vector);
    assert(((((b0 as u32) | ((b1 as u32) << 8) | ((b2 as u32) << 16) | ((b3 as u32) << 24))
        >> 8) & 0xff) as u8 == b1) by (bit_vector);
    assert(((((b0 as u32) | ((b1 as u32) << 8) | ((b2 as u32) << 16) | ((b3 as u32) << 24))
        >> 16) & 0xff) as u8 == b2) by (bit_vector);
    assert(((((b0 as u32) | ((b1 as u32) << 8) | ((b2 as u32) << 16) | ((b3 as u32) << 24))
        >> 24) & 0xff) as u8 == b3) by (bit_vector);
    assert(u32_le_bytes(x) =~= seq![b0, b1, b2, b3]);
}

/// The fixed-size record written over the marker region. All integer fields are
/// stored little-endian with no padding; the flag takes a single byte, kept
/// verbatim so that no byte of a decoded descriptor is lost on re-encoding.
/// Zero means a raw payload; the embedder writes 1 for a compressed one.
#[derive(Debug, Clone, Copy, PartialEq, Eq, Structural)]
pub struct EmbeddedConfig {
    pub magic1: u32,
    pub magic2: u32,
    pub version: u32,
    pub data_size: u32,
    pub data_offset: u32,
    pub data_xz: u8,
}

/// The exact 21-byte wire form of a descriptor.
pub open spec fn spec_serialize(c: EmbeddedConfig) -> Seq<u8> {
    u32_le_bytes(c.magic1) + u32_le_bytes(c.magic2) + u32_le_bytes(c.version) + u32_le_bytes(
        c.data_size,
    ) + u32_le_bytes(c.data_offset) + seq![c.data_xz]
}

/// The descriptor encoded by the first 21 bytes of `b`.
pub open spec fn spec_deserialize(b: Seq<u8>) -> EmbeddedConfig
    recommends
        b.len() >= DESCRIPTOR_SIZE,
{
    EmbeddedConfig {
        magic1: u32_from_le(b[0], b[1], b[2], b[3]),
        magic2: u32_from_le(b[4], b[5], b[6], b[7]),
        version: u32_from_le(b[8], b[9], b[10], b[11]),
        data_size: u32_from_le(b[12], b[13], b[14], b[15]),
        data_offset: u32_from_le(b[16], b[17], b[18], b[19]),
        data_xz: b[20],
    }
}

/// Appends the little-endian bytes of `x` to `out`.
fn push_u32_le(out: &mut Vec<u8>, x: u32)
    ensures
        final(out)@ == old(out)@ + u32_le_bytes(x),
{
    proof {
        lemma_le_bytes_fit(x);
    }
    out.push((x & 0xff) as u8);
    out.push(((x >> 8) & 0xff) as u8);
    out.push(((x >> 16) & 0xff) as u8);
    out.push(((x >> 24) & 0xff) as u8);
    proof {
        assert(out@ =~= old(out)@ + u32_le_bytes(x));
    }
}

/// Reads the 32-bit little-endian value at offset `at` of `bytes`.
fn read_u32_le(bytes: &[u8], at: usize) -> (x: u32)
    requires
        at + 4 <= bytes@.len(),
    ensures
        x == u32_from_le(
            bytes@[at as int],
            bytes@[at as int + 1],
            bytes@[at as int + 2],
            bytes@[at as int + 3],
        ),
{
    // binds the length as a machine word, so the index sums below stay in range
    let len = bytes.len();
    assert(at + 4 <= len);
    let b0 = *vstd::slice::slice_index_get(bytes, at);
    let b1 = *vstd::slice::slice_index_get(bytes, at + 1);
    let b2 = *vstd::slice::slice_index_get(bytes, at + 2);
    let b3 = *vstd::slice::slice_index_get(bytes, at + 3);
    (b0 as u32) | ((b1 as u32) << 8) | ((b2 as u32) << 16) | ((b3 as u32) << 24)
}

impl EmbeddedConfig {
    /// A descriptor carrying the fixed signature constants, the current format
    /// version, and the given payload geometry; the flag byte is the canonical
    /// 1 for a compressed payload and 0 for a raw one.
    pub fn new(data_size: u32, data_offset: u32, data_xz: bool) -> (c: Self)
        ensures
            c == (EmbeddedConfig {
                magic1: MAGIC1,
                magic2: MAGIC2,
                version: FORMAT_VERSION,
                data_size,
                data_offset,
                data_xz: if data_xz { 1u8 } else { 0u8 },
            }),
    {
        EmbeddedConfig {
            magic1: MAGIC1,
            magic2: MAGIC2,
            version: FORMAT_VERSION,
            data_size,
            data_offset,
            data_xz: if data_xz { 1 } else { 0 },
        }
    }

    /// Serializes the descriptor to its exact 21-byte wire form, field by field,
    /// little-endian, with no padding.
    pub fn as_bytes(&self) -> (bytes: Vec<u8>)
        ensures
            bytes@ == spec_serialize(*self),
            bytes@.len() == DESCRIPTOR_SIZE,
    {
        let mut bytes: Vec<u8> = Vec::new();
        push_u32_le(&mut bytes, self.magic1);
        push_u32_le(&mut bytes, self.magic2);
        push_u32_le(&mut bytes, self.version);
        push_u32_le(&mut bytes, self.data_size);
        push_u32_le(&mut bytes, self.data_offset);
        bytes.push(self.data_xz);
        proof {
            assert(bytes@ =~= spec_serialize(*self));
        }
        bytes
    }

    /// Decodes a descriptor from the first 21 bytes of `bytes`; fails when fewer
    /// bytes than a full descriptor are supplied.
    pub fn from_bytes(bytes: &[u8]) -> (r: Result<Self, PatchError>)
        ensures
            bytes@.len() >= DESCRIPTOR_SIZE ==> r == Ok::<Self, PatchError>(
                spec_deserialize(bytes@),
            ),
            bytes@.len() < DESCRIPTOR_SIZE ==> r == Err::<Self, PatchError>(
                PatchError::TruncatedDescriptor,
            ),
    {
        if bytes.len() < DESCRIPTOR_SIZE {
            return Err(PatchError::TruncatedDescriptor);
        }
        Ok(EmbeddedConfig {
            magic1: read_u32_le(bytes, 0),
            magic2: read_u32_le(bytes, 4),
            version: read_u32_le(bytes, 8),
            data_size: read_u32_le(bytes, 12),
            data_offset: read_u32_le(bytes, 16),
            data_xz: *vstd::slice::slice_index_get(bytes, 20),
        })
    }
}

impl Default for EmbeddedConfig {
    /// The descriptor before any payload is recorded: signature constants,
    /// current version, empty payload reference.
    fn default() -> (c: Self)
        ensures
            c == (EmbeddedConfig {
                magic1: MAGIC1,
                magic2: MAGIC2,
                version: FORMAT_VERSION,
                data_size: 0,
                data_offset: 0,
                data_xz: 0,
            }),
    {
        EmbeddedConfig::new(0, 0, false)
    }
}

/// Law: decoding an encoded descriptor yields the descriptor back, for every
/// descriptor value.
pub proof fn lemma_serialize_then_deserialize(c: EmbeddedConfig)
    ensures
        spec_deserialize(spec_serialize(c)) == c,
{
    let b = spec_serialize(c);
    assert(b.len() == 21);
    lemma_u32_decode_encode(c.magic1);
    lemma_u32_decode_encode(c.magic2);
    lemma_u32_decode_encode(c.version);
    lemma_u32_decode_encode(c.data_size);
    lemma_u32_decode_encode(c.data_offset);
    assert(spec_deserialize(b) == c);
}

/// Law: encoding a decoded 21-byte buffer yields the buffer back, for every
/// 21-byte buffer — no byte is lost in either direction.
pub proof fn lemma_deserialize_then_serialize(b: Seq<u8>)
    requires
        b.len() == DESCRIPTOR_SIZE,
    ensures
        spec_serialize(spec_deserialize(b)) == b,
{
    let c = spec_deserialize(b);
    lemma_u32_encode_decode(b[0], b[1], b[2], b[3]);
    lemma_u32_encode_decode(b[4], b[5], b[6], b[7]);
    lemma_u32_encode_decode(b[8], b[9], b[10], b[11]);
    lemma_u32_encode_decode(b[12], b[13], b[14], b[15]);
    lemma_u32_encode_decode(b[16], b[17], b[18], b[19]);
    assert(spec_serialize(c) =~= b);
}

} // verus!
