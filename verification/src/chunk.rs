//! Length-prefixed, type-tagged, CRC-checksummed binary records.

use vstd::prelude::*;

use crate::FormatError;
use crate::checksum::{crc32, crc32_of};
use crate::chunk_type::{ChunkType, is_upper, type_bytes_wf};
use crate::codec::{
    lemma_u32_be_bytes_injective, lemma_u32_be_bytes_value, spec_u32_from_be_bytes,
    spec_u32_to_be_bytes, u32_from_be_slice, u32_push_be_bytes,
};
use crate::text::{bytes_as_chars, push_char};

verus! {

/// Mathematical model of a chunk: the four serialized fields.
#[verifier::ext_equal]
pub struct ChunkModel {
    /// Declared payload length.
    pub length: u32,
    /// The four bytes of the type code.
    pub type_bytes: Seq<u8>,
    /// The payload bytes.
    pub payload: Seq<u8>,
    /// The stored CRC-32 checksum.
    pub crc: u32,
}

/// The chunk invariant: a well-formed type code, a length that counts
/// the payload bytes, and a checksum that covers type code and payload.
pub open spec fn chunk_model_wf(m: ChunkModel) -> bool {
    &&& type_bytes_wf(m.type_bytes)
    &&& m.length == m.payload.len()
    &&& m.crc == crc32_of(m.type_bytes + m.payload)
}

/// The serialized form of a chunk: big-endian length, type code,
/// payload, and big-endian checksum, in that order.
pub open spec fn spec_chunk_bytes(m: ChunkModel) -> Seq<u8> {
    spec_u32_to_be_bytes(m.length) + m.type_bytes + m.payload + spec_u32_to_be_bytes(m.crc)
}

/// What parsing a byte buffer yields: the chunk record at the front of
/// the buffer, or the first failure the reader meets. Bytes after the
/// record are ignored.
pub open spec fn spec_parse_chunk(bytes: Seq<u8>) -> Result<ChunkModel, FormatError> {
    if bytes.len() < 8 {
        Err(FormatError::TruncatedInput)
    } else if !type_bytes_wf(bytes.subrange(4, 8)) {
        Err(FormatError::InvalidTypeCode)
    } else {
        let n = spec_u32_from_be_bytes(bytes.subrange(0, 4)) as int;
        if bytes.len() < 12 + n {
            Err(FormatError::TruncatedInput)
        } else if spec_u32_from_be_bytes(bytes.subrange(8 + n, 12 + n)) != crc32_of(
            bytes.subrange(4, 8) + bytes.subrange(8, 8 + n),
        ) {
            Err(FormatError::ChecksumMismatch)
        } else {
            Ok(
                ChunkModel {
                    length: spec_u32_from_be_bytes(bytes.subrange(0, 4)),
                    type_bytes: bytes.subrange(4, 8),
                    payload: bytes.subrange(8, 8 + n),
                    crc: spec_u32_from_be_bytes(bytes.subrange(8 + n, 12 + n)),
                },
            )
        }
    }
}

/// A chunk owns its payload and carries its own checksum. A value of
/// this type is only ever observable with the invariant holding:
/// construction computes the checksum and parsing validates it.
#[derive(Debug)]
pub struct Chunk {
    data_length: u32,
    chunk_type: ChunkType,
    message_bytes: Vec<u8>,
    crc: u32,
}

impl View for Chunk {
    type V = ChunkModel;

    closed spec fn view(&self) -> ChunkModel {
        ChunkModel {
            length: self.data_length,
            type_bytes: self.chunk_type@,
            payload: self.message_bytes@,
            crc: self.crc,
        }
    }
}

/// The bytes the checksum covers: type code, then payload.
fn crc_buffer(chunk_type: &ChunkType, payload: &Vec<u8>) -> (r: Vec<u8>)
    ensures
        r@ == chunk_type@ + payload@,
{
    let tb = chunk_type.bytes();
    let mut buf: Vec<u8> = Vec::new();
    buf.push(tb[0]);
    buf.push(tb[1]);
    buf.push(tb[2]);
    buf.push(tb[3]);
    assert(buf@ =~= chunk_type@);
    let mut i: usize = 0;
    while i < payload.len()
        invariant
            i <= payload@.len(),
            buf@ == chunk_type@ + payload@.subrange(0, i as int),
        decreases payload@.len() - i,
    {
        buf.push(payload[i]);
        i = i + 1;
        assert(buf@ =~= chunk_type@ + payload@.subrange(0, i as int));
    }
    assert(buf@ =~= chunk_type@ + payload@);
    buf
}

impl Chunk {
    #[verifier::type_invariant]
    pub open spec fn wf(self) -> bool {
        chunk_model_wf(self@)
    }

    /// Builds a fresh chunk from a type code and a payload, computing
    /// the checksum over type code and payload.
    pub fn new(chunk_type: ChunkType, data: Vec<u8>) -> (r: Chunk)
        requires
            data@.len() <= 0x7fffffff,
        ensures
            r@.length == data@.len(),
            r@.type_bytes == chunk_type@,
            r@.payload == data@,
            r@.crc == crc32_of(chunk_type@ + data@),
    {
        proof {
            use_type_invariant(&chunk_type);
        }
        let buf = crc_buffer(&chunk_type, &data);
        let crc = crc32(buf.as_slice());
        Chunk { data_length: data.len() as u32, chunk_type, message_bytes: data, crc }
    }

    /// Reads the chunk record at the front of `bytes`: big-endian
    /// length, type code, payload, big-endian checksum. Fails with
    /// `TruncatedInput` when a field runs past the end of the buffer,
    /// `InvalidTypeCode` when the type bytes are not ASCII letters, and
    /// `ChecksumMismatch` when the stored checksum disagrees with the
    /// CRC recomputed over type code and payload.
    pub fn parse(bytes: &[u8]) -> (r: Result<Chunk, FormatError>)
        ensures
            r matches Ok(c) ==> spec_parse_chunk(bytes@) == Ok::<ChunkModel, FormatError>(c@),
            r matches Err(e) ==> spec_parse_chunk(bytes@) == Err::<ChunkModel, FormatError>(e),
    {
        let len = bytes.len();
        if len < 8 {
            return Err(FormatError::TruncatedInput);
        }
        let tb: [u8; 4] = [bytes[4], bytes[5], bytes[6], bytes[7]];
        assert(tb@ =~= bytes@.subrange(4, 8));
        let chunk_type = match ChunkType::from_bytes(tb) {
            Ok(t) => t,
            Err(e) => {
                return Err(e);
            },
        };
        let n = u32_from_be_slice(bytes, 0);
        if (len as u64) < 12u64 + (n as u64) {
            return Err(FormatError::TruncatedInput);
        }
        let n_us = n as usize;
        let mut payload: Vec<u8> = Vec::new();
        let mut i: usize = 0;
        while i < n_us
            invariant
                i <= n_us,
                n_us == n,
                len == bytes@.len(),
                12 + n_us <= bytes@.len(),
                payload@ == bytes@.subrange(8, 8 + i as int),
            decreases n_us - i,
        {
            payload.push(bytes[8 + i]);
            i = i + 1;
            assert(payload@ =~= bytes@.subrange(8, 8 + i as int));
        }
        let stored = u32_from_be_slice(bytes, 8 + n_us);
        let buf = crc_buffer(&chunk_type, &payload);
        let computed = crc32(buf.as_slice());
        if stored != computed {
            return Err(FormatError::ChecksumMismatch);
        }
        let c = Chunk { data_length: n, chunk_type, message_bytes: payload, crc: stored };
        proof {
            let m = spec_parse_chunk(bytes@)->Ok_0;
            assert(c@ =~= m);
        }
        Ok(c)
    }

    /// Whether the chunk meets the format's validity rules: a valid
    /// reserved bit on the type code, a length that counts the payload
    /// bytes, and a checksum that matches the recomputed CRC. The last
    /// two always hold of a constructed chunk.
    pub fn is_valid(&self) -> (r: bool)
        ensures
            r == (is_upper(self@.type_bytes[2]) && self@.length == self@.payload.len()
                && self@.crc == crc32_of(self@.type_bytes + self@.payload)),
    {
        proof {
            use_type_invariant(self);
        }
        let type_ok = self.chunk_type.is_valid();
        let length_ok = self.data_length as usize == self.message_bytes.len();
        let crc_ok = self.crc == self.crc();
        type_ok && length_ok && crc_ok
    }

    /// The declared payload length.
    pub fn length(&self) -> (r: u32)
        ensures
            r == self@.length,
    {
        self.data_length
    }

    /// The chunk's type code.
    pub fn chunk_type(&self) -> (r: &ChunkType)
        ensures
            r@ == self@.type_bytes,
    {
        &self.chunk_type
    }

    /// The payload bytes.
    pub fn data(&self) -> (r: &[u8])
        ensures
            r@ == self@.payload,
    {
        self.message_bytes.as_slice()
    }

    /// The checksum, recomputed over type code and payload; by the
    /// chunk invariant it equals the stored one.
    pub fn crc(&self) -> (r: u32)
        ensures
            r == self@.crc,
            r == crc32_of(self@.type_bytes + self@.payload),
    {
        proof {
            use_type_invariant(self);
        }
        let buf = crc_buffer(&self.chunk_type, &self.message_bytes);
        crc32(buf.as_slice())
    }

    /// The payload read as text, one character per byte (a
    /// Latin-1-style mapping, not UTF-8 decoding); never fails.
    pub fn data_as_string(&self) -> (r: Result<String, FormatError>)
        ensures
            r matches Ok(s) && s@ == bytes_as_chars(self@.payload),
    {
        let mut out = String::new();
        let mut i: usize = 0;
        while i < self.message_bytes.len()
            invariant
                i <= self@.payload.len(),
                out@ == bytes_as_chars(self@.payload.subrange(0, i as int)),
            decreases self@.payload.len() - i,
        {
            push_char(&mut out, self.message_bytes[i] as char);
            i = i + 1;
            assert(out@ =~= bytes_as_chars(self@.payload.subrange(0, i as int)));
        }
        assert(out@ =~= bytes_as_chars(self@.payload));
        Ok(out)
    }

    /// Serializes the chunk; parsing the result yields the chunk back.
    pub fn as_bytes(&self) -> (r: Vec<u8>)
        ensures
            r@ == spec_chunk_bytes(self@),
            spec_parse_chunk(r@) == Ok::<ChunkModel, FormatError>(self@),
    {
        proof {
            use_type_invariant(self);
        }
        let mut out: Vec<u8> = Vec::new();
        u32_push_be_bytes(&mut out, self.data_length);
        let tb = self.chunk_type.bytes();
        out.push(tb[0]);
        out.push(tb[1]);
        out.push(tb[2]);
        out.push(tb[3]);
        let mut i: usize = 0;
        while i < self.message_bytes.len()
            invariant
                i <= self@.payload.len(),
                out@ == spec_u32_to_be_bytes(self@.length) + self@.type_bytes
                    + self@.payload.subrange(0, i as int),
            decreases self@.payload.len() - i,
        {
            out.push(self.message_bytes[i]);
            i = i + 1;
            assert(out@ =~= spec_u32_to_be_bytes(self@.length) + self@.type_bytes
                + self@.payload.subrange(0, i as int));
        }
        u32_push_be_bytes(&mut out, self.crc);
        assert(out@ =~= spec_chunk_bytes(self@));
        proof {
            lemma_parse_chunk_prefix(self@, Seq::empty());
            assert(spec_chunk_bytes(self@) + Seq::<u8>::empty() =~= spec_chunk_bytes(self@));
        }
        out
    }
}

/// Parsing a buffer that starts with the serialized form of a
/// well-formed chunk yields that chunk, whatever follows it.
pub proof fn lemma_parse_chunk_prefix(m: ChunkModel, rest: Seq<u8>)
    requires
        chunk_model_wf(m),
    ensures
        spec_parse_chunk(spec_chunk_bytes(m) + rest) == Ok::<ChunkModel, FormatError>(m),
{
    let bytes = spec_chunk_bytes(m) + rest;
    let n = m.payload.len() as int;
    lemma_u32_be_bytes_value(m.length);
    lemma_u32_be_bytes_value(m.crc);
    assert(bytes.subrange(0, 4) =~= spec_u32_to_be_bytes(m.length));
    assert(bytes.subrange(4, 8) =~= m.type_bytes);
    assert(bytes.subrange(8, 8 + n) =~= m.payload);
    assert(bytes.subrange(8 + n, 12 + n) =~= spec_u32_to_be_bytes(m.crc));
    assert(spec_parse_chunk(bytes)->Ok_0 =~= m);
}

/// Round trip for a freshly built chunk: serializing the chunk built
/// from any well-formed type code and any payload, then parsing the
/// bytes back, succeeds and yields the same length, type code and
/// payload.
pub proof fn lemma_chunk_round_trip(type_bytes: Seq<u8>, payload: Seq<u8>)
    requires
        type_bytes_wf(type_bytes),
        payload.len() <= 0x7fffffff,
    ensures
        ({
            let m = ChunkModel {
                length: payload.len() as u32,
                type_bytes: type_bytes,
                payload: payload,
                crc: crc32_of(type_bytes + payload),
            };
            spec_parse_chunk(spec_chunk_bytes(m)) == Ok::<ChunkModel, FormatError>(m)
        }),
{
    let m = ChunkModel {
        length: payload.len() as u32,
        type_bytes: type_bytes,
        payload: payload,
        crc: crc32_of(type_bytes + payload),
    };
    lemma_parse_chunk_prefix(m, Seq::empty());
    assert(spec_chunk_bytes(m) + Seq::<u8>::empty() =~= spec_chunk_bytes(m));
}

/// Corrupting any single byte of a serialized chunk's checksum field
/// makes parsing fail with a checksum mismatch.
pub proof fn lemma_corrupt_checksum(m: ChunkModel, i: int, b: u8)
    requires
        chunk_model_wf(m),
        spec_chunk_bytes(m).len() - 4 <= i < spec_chunk_bytes(m).len(),
        b != spec_chunk_bytes(m)[i],
    ensures
        spec_parse_chunk(spec_chunk_bytes(m).update(i, b)) == Err::<ChunkModel, FormatError>(
            FormatError::ChecksumMismatch,
        ),
{
    let good = spec_chunk_bytes(m);
    let bytes = good.update(i, b);
    let n = m.payload.len() as int;
    lemma_u32_be_bytes_value(m.length);
    lemma_u32_be_bytes_value(m.crc);
    assert(bytes.subrange(0, 4) =~= spec_u32_to_be_bytes(m.length));
    assert(bytes.subrange(4, 8) =~= m.type_bytes);
    assert(bytes.subrange(8, 8 + n) =~= m.payload);
    let stored_bytes = bytes.subrange(8 + n, 12 + n);
    assert(stored_bytes[i - (8 + n)] == b);
    if spec_u32_from_be_bytes(stored_bytes) == m.crc {
        lemma_u32_be_bytes_injective(stored_bytes, spec_u32_to_be_bytes(m.crc));
        assert(good.subrange(8 + n, 12 + n) =~= spec_u32_to_be_bytes(m.crc));
        assert(stored_bytes[i - (8 + n)] == good[i]);
        assert(false);
    }
}

/// Truncating a serialized chunk anywhere before its final byte makes
/// parsing fail for want of input.
pub proof fn lemma_truncated_chunk(m: ChunkModel, k: int)
    requires
        chunk_model_wf(m),
        0 <= k < spec_chunk_bytes(m).len(),
    ensures
        spec_parse_chunk(spec_chunk_bytes(m).take(k)) == Err::<ChunkModel, FormatError>(
            FormatError::TruncatedInput,
        ),
{
    let good = spec_chunk_bytes(m);
    let bytes = good.take(k);
    let n = m.payload.len() as int;
    if k >= 8 {
        lemma_u32_be_bytes_value(m.length);
        assert(bytes.subrange(0, 4) =~= spec_u32_to_be_bytes(m.length));
        assert(bytes.subrange(4, 8) =~= m.type_bytes);
        assert(bytes.len() < 12 + n);
    }
}

} // verus!
