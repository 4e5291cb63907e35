use vstd::prelude::*;

use crate::codec::{
    spec_serialize, u32_le_bytes, EmbeddedConfig, DESCRIPTOR_SIZE, FORMAT_VERSION, MAGIC1, MAGIC2,
};
use crate::errors::PatchError;

verus! {

/// Minimum number of bytes a container must have before its body is treated as
/// opaque.
pub const MIN_HEADER_SIZE: usize = 16;

/// The four bytes every supported container begins with.
pub open spec fn elf_magic() -> Seq<u8> {
    seq![0x7fu8, 0x45u8, 0x4cu8, 0x46u8]
}

/// A byte sequence is a valid image when it is long enough to hold the minimum
/// header and begins with the container signature.
pub open spec fn valid_image(data: Seq<u8>) -> bool {
    &&& data.len() >= MIN_HEADER_SIZE
    &&& data.subrange(0, 4) == elf_magic()
}

/// The two-part marker signature stands at offset `i` of `data`, placed so that
/// a full descriptor fits there inside the scanner's search space.
pub open spec fn marker_at(data: Seq<u8>, i: int) -> bool {
    &&& 0 <= i
    &&& i + DESCRIPTOR_SIZE <= data.len()
    &&& data.subrange(i, i + 4) == u32_le_bytes(MAGIC1)
    &&& data.subrange(i + 4, i + 8) == u32_le_bytes(MAGIC2)
}

/// Some offset of `data` carries the marker.
pub open spec fn has_marker(data: Seq<u8>) -> bool {
    exists|i: int| marker_at(data, i)
}

/// The lowest offset of `data` that carries the marker.
pub open spec fn first_marker(data: Seq<u8>) -> int {
    choose|i: int| marker_at(data, i) && (forall|j: int| 0 <= j < i ==> !marker_at(data, j))
}

/// The image that results from appending `payload` to `data` and overwriting
/// the descriptor region at offset `m` with the descriptor that records the
/// append: payload placed at the old end of the image, its length and offset
/// written into the descriptor, the rest of the image untouched.
pub open spec fn spec_embed(data: Seq<u8>, m: int, payload: Seq<u8>, compressed: bool) -> Seq<
    u8,
>
    recommends
        0 <= m,
        m + DESCRIPTOR_SIZE <= data.len(),
        data.len() + payload.len() <= u32::MAX,
{
    let grown = data + payload;
    let desc = EmbeddedConfig {
        magic1: MAGIC1,
        magic2: MAGIC2,
        version: FORMAT_VERSION,
        data_size: payload.len() as u32,
        data_offset: data.len() as u32,
        data_xz: if compressed { 1u8 } else { 0u8 },
    };
    grown.subrange(0, m) + spec_serialize(desc) + grown.subrange(
        m + DESCRIPTOR_SIZE,
        grown.len() as int,
    )
}

/// The little-endian bytes of the two signature constants.
proof fn lemma_magic_bytes()
    ensures
        u32_le_bytes(MAGIC1) == seq![0x21u8, 0x07u8, 0x00u8, 0x0du8],
        u32_le_bytes(MAGIC2) == seq![0x2bu8, 0x4eu8, 0x8au8, 0x1fu8],
{
    assert((0x0d000721u32 & 0xff) as u8 == 0x21u8 && ((0x0d000721u32 >> 8) & 0xff) as u8 == 0x07u8
        && ((0x0d000721u32 >> 16) & 0xff) as u8 == 0x00u8 && ((0x0d000721u32 >> 24)
        & 0xff) as u8 == 0x0du8) by (bit_vector);
    assert((0x1f8a4e2bu32 & 0xff) as u8 == 0x2bu8 && ((0x1f8a4e2bu32 >> 8) & 0xff) as u8 == 0x4eu8
        && ((0x1f8a4e2bu32 >> 16) & 0xff) as u8 == 0x8au8 && ((0x1f8a4e2bu32 >> 24)
        & 0xff) as u8 == 0x1fu8) by (bit_vector);
    assert(u32_le_bytes(MAGIC1) =~= seq![0x21u8, 0x07u8, 0x00u8, 0x0du8]);
    assert(u32_le_bytes(MAGIC2) =~= seq![0x2bu8, 0x4eu8, 0x8au8, 0x1fu8]);
}

/// Whether the eight marker bytes stand at offset `i` of `data`.
fn marker_matches_at(data: &Vec<u8>, i: usize) -> (r: bool)
    requires
        i + DESCRIPTOR_SIZE <= data@.len(),
    ensures
        r == marker_at(data@, i as int),
{
    // binds the length as a machine word, so the index sums below stay in range
    let len = data.len();
    assert(i + 8 <= len);
    let r = data[i] == 0x21 && data[i + 1] == 0x07 && data[i + 2] == 0x00 && data[i + 3] == 0x0d
        && data[i + 4] == 0x2b && data[i + 5] == 0x4e && data[i + 6] == 0x8a && data[i + 7]
        == 0x1f;
    proof {
        lemma_magic_bytes();
        let s1 = data@.subrange(i as int, i as int + 4);
        let s2 = data@.subrange(i as int + 4, i as int + 8);
        if r {
            assert(s1 =~= u32_le_bytes(MAGIC1));
            assert(s2 =~= u32_le_bytes(MAGIC2));
        } else {
            if marker_at(data@, i as int) {
                assert(data@[i as int] == s1[0] && data@[i as int + 1] == s1[1] && data@[i as int
                    + 2] == s1[2] && data@[i as int + 3] == s1[3]);
                assert(data@[i as int + 4] == s2[0] && data@[i as int + 5] == s2[1] && data@[
                    i as int + 6] == s2[2] && data@[i as int + 7] == s2[3]);
            }
        }
    }
    r
}

/// An executable image held in memory, validated on construction and patched in
/// place.
pub struct BinaryProcessor {
    data: Vec<u8>,
}

impl View for BinaryProcessor {
    type V = Seq<u8>;

    closed spec fn view(&self) -> Seq<u8> {
        self.data@
    }
}

impl BinaryProcessor {
    /// Takes ownership of the image bytes; fails unless they are long enough
    /// and begin with the container signature.
    pub fn new(data: Vec<u8>) -> (r: Result<Self, PatchError>)
        ensures
            valid_image(data@) ==> r is Ok && r->Ok_0@ == data@,
            !valid_image(data@) ==> r == Err::<Self, PatchError>(PatchError::InvalidFormat),
    {
        if data.len() < MIN_HEADER_SIZE {
            return Err(PatchError::InvalidFormat);
        }
        if data[0] == 0x7f && data[1] == 0x45 && data[2] == 0x4c && data[3] == 0x46 {
            proof {
                assert(data@.subrange(0, 4) =~= elf_magic());
            }
            Ok(BinaryProcessor { data })
        } else {
            proof {
                let s = data@.subrange(0, 4);
                if valid_image(data@) {
                    assert(data@[0] == s[0] && data@[1] == s[1] && data@[2] == s[2] && data@[3]
                        == s[3]);
                }
            }
            Err(PatchError::InvalidFormat)
        }
    }

    /// Scans the image linearly and returns the lowest offset at which the
    /// marker pattern stands, or `None` when no offset carries it.
    pub fn find_embedded_config(&self) -> (r: Option<usize>)
        ensures
            match r {
                Some(i) => marker_at(self@, i as int) && (forall|j: int|
                    0 <= j < i ==> !marker_at(self@, j)),
                None => forall|j: int| !marker_at(self@, j),
            },
    {
        let len = self.data.len();
        if len < DESCRIPTOR_SIZE {
            return None;
        }
        let upper = len - DESCRIPTOR_SIZE;
        let mut i: usize = 0;
        while i <= upper
            invariant
                upper == len - DESCRIPTOR_SIZE,
                len == self@.len(),
                i <= upper + 1,
                forall|j: int| 0 <= j < i ==> !marker_at(self@, j),
            decreases upper + 1 - i,
        {
            if marker_matches_at(&self.data, i) {
                return Some(i);
            }
            i += 1;
        }
        None
    }

    /// Gives the image bytes back to the caller.
    pub fn into_data(self) -> (r: Vec<u8>)
        ensures
            r@ == self@,
    {
        self.data
    }

    /// Current length of the image in bytes.
    pub fn len(&self) -> (n: usize)
        ensures
            n == self@.len(),
    {
        self.data.len()
    }

    /// Read-only view of the current image bytes.
    pub fn bytes(&self) -> (b: &[u8])
        ensures
            b@ == self@,
    {
        self.data.as_slice()
    }

    /// Appends `bytes` at the end of the image and returns the offset at which
    /// the appended data begins.
    pub fn append(&mut self, bytes: &[u8]) -> (offset: usize)
        ensures
            final(self)@ == old(self)@ + bytes@,
            offset == old(self)@.len(),
    {
        let offset = self.data.len();
        let n = bytes.len();
        let mut k: usize = 0;
        while k < n
            invariant
                n == bytes@.len(),
                k <= n,
                self.data@ == old(self)@ + bytes@.subrange(0, k as int),
            decreases n - k,
        {
            let b = *vstd::slice::slice_index_get(bytes, k);
            self.data.push(b);
            proof {
                assert(old(self)@ + bytes@.subrange(0, k as int + 1) =~= (old(self)@
                    + bytes@.subrange(0, k as int)).push(bytes@[k as int]));
            }
            k += 1;
        }
        proof {
            assert(bytes@.subrange(0, n as int) =~= bytes@);
        }
        offset
    }

    /// Overwrites the byte range that begins at `at` with `bytes`. The image
    /// length and every byte outside the range keep their values; the range
    /// must lie inside the image.
    pub fn overwrite(&mut self, at: usize, bytes: &[u8])
        requires
            at + bytes@.len() <= old(self)@.len(),
        ensures
            final(self)@ == old(self)@.subrange(0, at as int) + bytes@ + old(self)@.subrange(
                at + bytes@.len(),
                old(self)@.len() as int,
            ),
    {
        let n = bytes.len();
        let dlen = self.data.len();
        let mut k: usize = 0;
        while k < n
            invariant
                n == bytes@.len(),
                dlen == old(self)@.len(),
                at + n <= dlen,
                self.data@.len() == old(self)@.len(),
                k <= n,
                forall|j: int|
                    0 <= j < old(self)@.len() && !(at <= j < at + k) ==> self.data@[j] == old(
                        self,
                    )@[j],
                forall|j: int| 0 <= j < k ==> self.data@[at + j] == bytes@[j],
            decreases n - k,
        {
            let b = *vstd::slice::slice_index_get(bytes, k);
            self.data.set(at + k, b);
            k += 1;
        }
        proof {
            assert(self@ =~= old(self)@.subrange(0, at as int) + bytes@ + old(self)@.subrange(
                at + bytes@.len(),
                old(self)@.len() as int,
            ));
        }
    }
}

/// What the external compressor produces for a given byte sequence.
pub uninterp spec fn xz_of(data: Seq<u8>) -> Seq<u8>;

/// Relies on xz2's XzEncoder at a fixed preset, whose finish hands back the
/// written stream: on success the result is the compressed form of the input,
/// determined by the input bytes alone.
#[verifier::external_body]
fn xz_compress(data: &[u8]) -> (r: Result<Vec<u8>, PatchError>)
    ensures
        r is Ok ==> r->Ok_0@ == xz_of(data@),
        r is Err ==> r->Err_0 == PatchError::CompressionFailed,
{
    let mut encoder = xz2::write::XzEncoder::new(Vec::new(), 6);
    if std::io::Write::write_all(&mut encoder, data).is_err() {
        return Err(PatchError::CompressionFailed);
    }
    match encoder.finish() {
        Ok(out) => Ok(out),
        Err(_) => Err(PatchError::CompressionFailed),
    }
}

/// An offset that carries the marker with none below it is the lowest one.
proof fn lemma_first_marker(data: Seq<u8>, i: int)
    requires
        marker_at(data, i),
        forall|j: int| 0 <= j < i ==> !marker_at(data, j),
    ensures
        has_marker(data),
        first_marker(data) == i,
{
    assert(has_marker(data));
    assert(exists|k: int|
        marker_at(data, k) && (forall|j: int| 0 <= j < k ==> !marker_at(data, j))) by {
        assert(marker_at(data, i) && (forall|j: int| 0 <= j < i ==> !marker_at(data, j)));
    }
    let c = first_marker(data);
    assert(marker_at(data, c) && (forall|j: int| 0 <= j < c ==> !marker_at(data, j)));
    if c < i {
        assert(!marker_at(data, c));
        assert(false);
    }
    if i < c {
        assert(!marker_at(data, i));
        assert(false);
    }
}

impl BinaryProcessor {
    /// Appends `payload` to the image and overwrites the marker region at `m`
    /// with the descriptor that records the append.
    fn append_and_patch(&mut self, payload: &[u8], compressed: bool, m: usize)
        requires
            m + DESCRIPTOR_SIZE <= old(self)@.len(),
            old(self)@.len() + payload@.len() <= u32::MAX,
        ensures
            final(self)@ == spec_embed(old(self)@, m as int, payload@, compressed),
    {
        let size = payload.len();
        let old_len = self.append(payload);
        let desc = EmbeddedConfig::new(size as u32, old_len as u32, compressed);
        let desc_bytes = desc.as_bytes();
        self.overwrite(m, desc_bytes.as_slice());
        proof {
            assert(self@ =~= spec_embed(old(self)@, m as int, payload@, compressed));
        }
    }

    /// Finds the marker, optionally compresses the payload through the
    /// external collaborator, appends the (possibly compressed) payload to the
    /// image, and overwrites the marker region with the descriptor that
    /// records where the payload now stands. On any failure the image is left
    /// exactly as it was.
    pub fn add_embedded_config_data(&mut self, config_data: &[u8], use_xz: bool) -> (r: Result<
        (),
        PatchError,
    >)
        requires
            !use_xz && has_marker(old(self)@) ==> old(self)@.len() + config_data@.len()
                <= u32::MAX,
        ensures
            !has_marker(old(self)@) ==> r == Err::<(), PatchError>(PatchError::MarkerNotFound)
                && final(self)@ == old(self)@,
            has_marker(old(self)@) && !use_xz ==> r is Ok && final(self)@ == spec_embed(
                old(self)@,
                first_marker(old(self)@),
                config_data@,
                false,
            ),
            has_marker(old(self)@) && use_xz ==> match r {
                Ok(()) => old(self)@.len() + xz_of(config_data@).len() <= u32::MAX
                    && final(self)@ == spec_embed(
                    old(self)@,
                    first_marker(old(self)@),
                    xz_of(config_data@),
                    true,
                ),
                Err(e) => e == PatchError::CompressionFailed && final(self)@ == old(self)@,
            },
    {
        let m = match self.find_embedded_config() {
            Some(i) => i,
            None => {
                return Err(PatchError::MarkerNotFound);
            },
        };
        proof {
            lemma_first_marker(self@, m as int);
        }
        if use_xz {
            let compressed = match xz_compress(config_data) {
                Ok(c) => c,
                Err(_) => {
                    return Err(PatchError::CompressionFailed);
                },
            };
            if (self.data.len() as u128) + (compressed.len() as u128) > (u32::MAX as u128) {
                return Err(PatchError::CompressionFailed);
            }
            self.append_and_patch(compressed.as_slice(), true, m);
            Ok(())
        } else {
            self.append_and_patch(config_data, false, m);
            Ok(())
        }
    }
}

/// Patches an image in one call: validates the container, embeds the payload
/// (optionally compressed), and hands the patched bytes back. On any failure
/// the input is reported against, and nothing is handed back.
pub fn patch(image_bytes: Vec<u8>, payload_bytes: &[u8], use_compression: bool) -> (r: Result<
    Vec<u8>,
    PatchError,
>)
    requires
        !use_compression && valid_image(image_bytes@) && has_marker(image_bytes@)
            ==> image_bytes@.len() + payload_bytes@.len() <= u32::MAX,
    ensures
        !valid_image(image_bytes@) ==> r == Err::<Vec<u8>, PatchError>(PatchError::InvalidFormat),
        valid_image(image_bytes@) && !has_marker(image_bytes@) ==> r == Err::<
            Vec<u8>,
            PatchError,
        >(PatchError::MarkerNotFound),
        valid_image(image_bytes@) && has_marker(image_bytes@) && !use_compression ==> r is Ok
            && r->Ok_0@ == spec_embed(
            image_bytes@,
            first_marker(image_bytes@),
            payload_bytes@,
            false,
        ),
        valid_image(image_bytes@) && has_marker(image_bytes@) && use_compression ==> match r {
            Ok(v) => v@ == spec_embed(
                image_bytes@,
                first_marker(image_bytes@),
                xz_of(payload_bytes@),
                true,
            ),
            Err(e) => e == PatchError::CompressionFailed,
        },
{
    let mut processor = match BinaryProcessor::new(image_bytes) {
        Ok(p) => p,
        Err(e) => {
            return Err(e);
        },
    };
    match processor.add_embedded_config_data(payload_bytes, use_compression) {
        Ok(()) => Ok(processor.into_data()),
        Err(e) => Err(e),
    }
}

/// Law: embedding appends the payload at the old end of the image — the result
/// is exactly one payload length longer — and the 21 bytes at the marker
/// offset decode to a descriptor that carries the signature constants, the
/// current version, the payload's length and offset, and the compression flag.
pub proof fn lemma_embed_descriptor(data: Seq<u8>, m: int, payload: Seq<u8>, compressed: bool)
    requires
        marker_at(data, m),
        data.len() + payload.len() <= u32::MAX,
    ensures
        spec_embed(data, m, payload, compressed).len() == data.len() + payload.len(),
        crate::codec::spec_deserialize(
            spec_embed(data, m, payload, compressed).subrange(m, m + DESCRIPTOR_SIZE),
        ) == (EmbeddedConfig {
            magic1: MAGIC1,
            magic2: MAGIC2,
            version: FORMAT_VERSION,
            data_size: payload.len() as u32,
            data_offset: data.len() as u32,
            data_xz: if compressed { 1u8 } else { 0u8 },
        }),
{
    let desc = EmbeddedConfig {
        magic1: MAGIC1,
        magic2: MAGIC2,
        version: FORMAT_VERSION,
        data_size: payload.len() as u32,
        data_offset: data.len() as u32,
        data_xz: if compressed { 1u8 } else { 0u8 },
    };
    let sb = spec_serialize(desc);
    let e = spec_embed(data, m, payload, compressed);
    assert(sb.len() == DESCRIPTOR_SIZE);
    assert(e.subrange(m, m + DESCRIPTOR_SIZE) =~= sb);
    crate::codec::lemma_serialize_then_deserialize(desc);
}

} // verus!
