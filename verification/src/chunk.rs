//! The chunk record: a type code, a payload, the payload's length and a
//! CRC-32 over type and payload.
//!
//! On the wire a chunk is the length (four bytes, big-endian), the four
//! bytes of the type, the payload, and the CRC-32 (four bytes, big-endian).
use crate::be32::{
    be_bytes, be_value, lemma_be_bytes_of_value, lemma_be_value_of_bytes, push_u32, read_u32,
};
use crate::chunk_type::{
    check_type_code, is_letter, type_text, valid_type_code, ChunkType, ChunkTypeError,
};
use crate::crc::{calculate_crc, crc32, lemma_crc32_detects_byte_change};
use vstd::pervasive::unreached;
use vstd::prelude::*;
use vstd::slice::{slice_subrange, slice_to_vec};
use vstd::string::StringSliceAdditionalSpecFns;
use vstd::utf8::{decode_utf8, encode_utf8_decode_utf8, valid_utf8};

verus! {

/// The largest payload length that a chunk may declare.
pub const MAX_LENGTH: u32 = 0x8000_0000;

/// The bytes of a chunk that are not payload: length, type and CRC.
pub const FRAME_LENGTH: u32 = 12;

/// Why bytes are not a chunk, or a chunk's payload is not text.
#[derive(Debug, PartialEq, Eq, Clone, Copy)]
pub enum ChunkError {
    /// The stored CRC (first) is not the CRC computed over type and payload
    /// (second).
    InvalidCRCValue(u32, u32),
    /// The input goes on after the end of the chunk; holds the number of
    /// bytes left over.
    RemainingBytes(usize),
    /// A length (first) is more than what it is held against (second): in
    /// decoding, the declared payload length and the largest one allowed;
    /// in framing, the chunk's whole span and the bytes that the stream
    /// still has.
    LengthTooLarge(u64, usize),
    /// The stream has fewer bytes (first) than the shortest chunk (second).
    NotEnoughBytes(usize, u32),
    /// The payload is not well-formed UTF-8.
    DataNotValidUtf8,
    /// The input ended before a field could be read in full.
    Io,
    /// The four bytes of the type are not a type code.
    InvalidChunk { source: ChunkTypeError },
}

/// A chunk as a mathematical value.
pub struct ChunkView {
    /// The declared length of the payload.
    pub length: u32,
    /// The four bytes of the type.
    pub type_code: Seq<u8>,
    /// The payload.
    pub data: Seq<u8>,
    /// The stored CRC-32.
    pub crc: u32,
}

impl ChunkView {
    /// What holds of every chunk: the type is four letters, the length is
    /// that of the payload and within the format's limit, and the CRC is
    /// that of type and payload.
    pub open spec fn well_formed(self) -> bool {
        &&& valid_type_code(self.type_code)
        &&& self.length == self.data.len()
        &&& self.length <= MAX_LENGTH
        &&& self.crc == crc32(self.type_code + self.data)
    }

    /// The chunk with the given type and payload.
    pub open spec fn build(type_code: Seq<u8>, data: Seq<u8>) -> ChunkView {
        ChunkView {
            length: data.len() as u32,
            type_code,
            data,
            crc: crc32(type_code + data),
        }
    }

    /// The chunk on the wire.
    pub open spec fn encode(self) -> Seq<u8> {
        be_bytes(self.length) + self.type_code + self.data + be_bytes(self.crc)
    }

    /// Whether the text of the chunk's type is `text`.
    pub open spec fn has_type(self, text: Seq<char>) -> bool {
        type_text(self.type_code) == text
    }
}

/// The first chunk's bytes at the head of a stream: as many bytes as the
/// first four, read as a length, say that the chunk spans. Nothing but the
/// length is looked at.
pub open spec fn frame_chunk(stream: Seq<u8>) -> Result<Seq<u8>, ChunkError> {
    if stream.len() < FRAME_LENGTH {
        Err(ChunkError::NotEnoughBytes(stream.len() as usize, FRAME_LENGTH))
    } else {
        let span = FRAME_LENGTH + be_value(stream.subrange(0, 4));
        if span > stream.len() {
            Err(ChunkError::LengthTooLarge(span as u64, stream.len() as usize))
        } else {
            Ok(stream.subrange(0, span))
        }
    }
}

/// The chunk that `bytes` hold, if they are exactly one chunk, and else
/// the first thing found wrong, going through length, type, payload, CRC
/// field, end of input and CRC value in this order.
pub open spec fn decode_chunk(bytes: Seq<u8>) -> Result<ChunkView, ChunkError> {
    if bytes.len() < 4 {
        Err(ChunkError::Io)
    } else {
        let length = be_value(bytes.subrange(0, 4));
        if length > MAX_LENGTH {
            Err(ChunkError::LengthTooLarge(length as u64, MAX_LENGTH as usize))
        } else if bytes.len() < 8 {
            Err(ChunkError::Io)
        } else if check_type_code(bytes.subrange(4, 8)) is Err {
            Err(ChunkError::InvalidChunk { source: check_type_code(bytes.subrange(4, 8))->Err_0 })
        } else if bytes.len() < FRAME_LENGTH + length {
            Err(ChunkError::Io)
        } else if bytes.len() > FRAME_LENGTH + length {
            Err(ChunkError::RemainingBytes((bytes.len() - FRAME_LENGTH - length) as usize))
        } else {
            let stored = be_value(bytes.subrange(8 + length, 12 + length));
            let computed = crc32(bytes.subrange(4, 8 + length));
            if stored != computed {
                Err(ChunkError::InvalidCRCValue(stored, computed))
            } else {
                Ok(
                    ChunkView {
                        length,
                        type_code: bytes.subrange(4, 8),
                        data: bytes.subrange(8, 8 + length),
                        crc: stored,
                    },
                )
            }
        }
    }
}

/// Decoding undoes encoding: the wire form of a chunk decodes to that
/// chunk, with type, payload, length and CRC all as they were.
pub proof fn lemma_decode_inverts_encode(chunk: ChunkView)
    requires
        chunk.well_formed(),
    ensures
        decode_chunk(chunk.encode()) == Ok::<ChunkView, ChunkError>(chunk),
{
    let bytes = chunk.encode();
    let n = chunk.length as int;
    lemma_be_value_of_bytes(chunk.length);
    lemma_be_value_of_bytes(chunk.crc);
    assert(bytes.len() == 12 + n);
    assert(bytes.subrange(0, 4) =~= be_bytes(chunk.length));
    assert(bytes.subrange(4, 8) =~= chunk.type_code);
    assert(bytes.subrange(8, 8 + n) =~= chunk.data);
    assert(bytes.subrange(8 + n, 12 + n) =~= be_bytes(chunk.crc));
    assert(bytes.subrange(4, 8 + n) =~= chunk.type_code + chunk.data);
}

/// Encoding undoes decoding: bytes that decode to a chunk are that chunk's
/// wire form, and the chunk is well formed.
pub proof fn lemma_encode_inverts_decode(bytes: Seq<u8>)
    requires
        decode_chunk(bytes) is Ok,
    ensures
        decode_chunk(bytes)->Ok_0.well_formed(),
        decode_chunk(bytes)->Ok_0.encode() == bytes,
{
    let chunk = decode_chunk(bytes)->Ok_0;
    let n = chunk.length as int;
    lemma_be_bytes_of_value(bytes.subrange(0, 4));
    lemma_be_bytes_of_value(bytes.subrange(8 + n, 12 + n));
    assert(chunk.type_code + chunk.data =~= bytes.subrange(4, 8 + n));
    assert(chunk.encode() =~= bytes);
}

/// A chunk's wire form at the head of a stream is framed as itself,
/// whatever follows it.
pub proof fn lemma_frame_finds_encoded(chunk: ChunkView, rest: Seq<u8>)
    requires
        chunk.well_formed(),
    ensures
        frame_chunk(chunk.encode() + rest) == Ok::<Seq<u8>, ChunkError>(chunk.encode()),
{
    let bytes = chunk.encode();
    let stream = bytes + rest;
    lemma_be_value_of_bytes(chunk.length);
    lemma_be_value_of_bytes(chunk.crc);
    assert(bytes.len() == 12 + chunk.length);
    assert(stream.subrange(0, 4) =~= be_bytes(chunk.length));
    assert(stream.subrange(0, 12 + chunk.length) =~= bytes);
}

/// `bytes` with bit number `bit` of the byte at `at` inverted.
pub open spec fn flip_bit(bytes: Seq<u8>, at: int, bit: u8) -> Seq<u8> {
    bytes.update(at, bytes[at] ^ (1u8 << bit))
}

/// The CRC catches every single flipped bit in the type or the payload of
/// a chunk on the wire: decoding then fails with a CRC mismatch that
/// reports the stored CRC and the different one computed. A flip that
/// turns a letter of the type into something else is caught before the
/// CRC is looked at, as an invalid type, so such flips are left out here.
pub proof fn lemma_flipped_bit_is_detected(chunk: ChunkView, at: int, bit: u8)
    requires
        chunk.well_formed(),
        4 <= at < 8 + chunk.length,
        bit < 8,
        at < 8 ==> is_letter(flip_bit(chunk.encode(), at, bit)[at]),
    ensures
        decode_chunk(flip_bit(chunk.encode(), at, bit)) == Err::<ChunkView, ChunkError>(
            ChunkError::InvalidCRCValue(
                chunk.crc,
                crc32(flip_bit(chunk.encode(), at, bit).subrange(4, 8 + chunk.length)),
            ),
        ),
        crc32(flip_bit(chunk.encode(), at, bit).subrange(4, 8 + chunk.length)) != chunk.crc,
{
    lemma_be_value_of_bytes(chunk.length);
    lemma_be_value_of_bytes(chunk.crc);
    let good = chunk.encode();
    let bad = flip_bit(good, at, bit);
    let n = chunk.length as int;
    let old_byte: u8 = good[at];
    let new_byte: u8 = bad[at];
    assert(new_byte != old_byte) by (bit_vector)
        requires
            bit < 8,
            new_byte == old_byte ^ (1u8 << bit),
    ;
    assert(bad.subrange(0, 4) =~= be_bytes(chunk.length));
    assert(bad.subrange(8 + n, 12 + n) =~= be_bytes(chunk.crc));
    assert(bad.subrange(4, 8 + n) =~= (chunk.type_code + chunk.data).update(at - 4, new_byte));
    lemma_crc32_detects_byte_change(chunk.type_code + chunk.data, at - 4, new_byte);
    if at < 8 {
        assert(bad.subrange(4, 8) =~= chunk.type_code.update(at - 4, new_byte));
    }
}

/// A chunk: a type code, a payload, the payload's length and the CRC-32 of
/// type and payload.
pub struct Chunk {
    length: u32,
    chunk_type: ChunkType,
    chunk_data: Vec<u8>,
    crc: u32,
}

impl View for Chunk {
    type V = ChunkView;

    closed spec fn view(&self) -> ChunkView {
        ChunkView {
            length: self.length,
            type_code: self.chunk_type@,
            data: self.chunk_data@,
            crc: self.crc,
        }
    }
}

impl Chunk {
    /// Every `Chunk` is well formed.
    #[verifier::type_invariant]
    pub open spec fn well_formed(self) -> bool {
        self@.well_formed()
    }

    /// The chunk with the given type and payload. The payload must be
    /// shorter than 2^31 bytes.
    pub fn new(chunk_type: ChunkType, chunk_data: Vec<u8>) -> (chunk: Chunk)
        requires
            chunk_data@.len() < MAX_LENGTH,
        ensures
            chunk@ == ChunkView::build(chunk_type@, chunk_data@),
            chunk@.well_formed(),
            decode_chunk(chunk@.encode()) == Ok::<ChunkView, ChunkError>(chunk@),
    {
        proof {
            use_type_invariant(&chunk_type);
            lemma_decode_inverts_encode(ChunkView::build(chunk_type@, chunk_data@));
        }
        let type_bytes = chunk_type.bytes();
        let mut crc_data: Vec<u8> = Vec::with_capacity(4 + chunk_data.len());
        crc_data.extend_from_slice(type_bytes.as_slice());
        crc_data.extend_from_slice(chunk_data.as_slice());
        assert(crc_data@ =~= chunk_type@ + chunk_data@);
        let crc = calculate_crc(crc_data.as_slice());
        Chunk { length: chunk_data.len() as u32, chunk_type, chunk_data, crc }
    }

    /// The chunk whose type is read from `chunk_type` and whose payload is
    /// the bytes of `chunk_data`, which must be fewer than 2^31. Fails
    /// exactly when `chunk_type` is not a type code.
    pub fn from_strings(chunk_type: &str, chunk_data: &str) -> (result: Result<Chunk, ChunkError>)
        requires
            chunk_data.spec_bytes().len() < MAX_LENGTH,
        ensures
            match result {
                Ok(chunk) => {
                    &&& check_type_code(chunk_type.spec_bytes()) is Ok
                    &&& chunk@ == ChunkView::build(
                        check_type_code(chunk_type.spec_bytes())->Ok_0,
                        chunk_data.spec_bytes(),
                    )
                    &&& chunk@.well_formed()
                },
                Err(e) => {
                    &&& check_type_code(chunk_type.spec_bytes()) is Err
                    &&& e == (ChunkError::InvalidChunk {
                        source: check_type_code(chunk_type.spec_bytes())->Err_0,
                    })
                },
            },
    {
        match ChunkType::from_str(chunk_type) {
            Ok(chunk_type) => Ok(Chunk::new(chunk_type, slice_to_vec(chunk_data.as_bytes()))),
            Err(source) => Err(ChunkError::InvalidChunk { source }),
        }
    }

    /// The length of the payload.
    pub fn length(&self) -> (length: u32)
        ensures
            length == self@.length,
            length == self@.data.len(),
    {
        proof {
            use_type_invariant(self);
        }
        self.length
    }

    /// The type of the chunk.
    pub fn chunk_type(&self) -> (chunk_type: &ChunkType)
        ensures
            chunk_type@ == self@.type_code,
    {
        &self.chunk_type
    }

    /// The payload.
    pub fn data(&self) -> (data: &[u8])
        ensures
            data@ == self@.data,
    {
        self.chunk_data.as_slice()
    }

    /// The CRC-32 of type and payload.
    pub fn crc(&self) -> (crc: u32)
        ensures
            crc == self@.crc,
            crc == crc32(self@.type_code + self@.data),
    {
        proof {
            use_type_invariant(self);
        }
        self.crc
    }

    /// The payload as text. Fails exactly when the payload is not
    /// well-formed UTF-8; nothing is replaced or cut off.
    pub fn data_as_string(&self) -> (result: Result<String, ChunkError>)
        ensures
            match result {
                Ok(text) => valid_utf8(self@.data) && text@ == decode_utf8(self@.data),
                Err(e) => !valid_utf8(self@.data) && e == ChunkError::DataNotValidUtf8,
            },
    {
        match String::from_utf8(slice_to_vec(self.chunk_data.as_slice())) {
            Ok(text) => {
                proof {
                    encode_utf8_decode_utf8(text@);
                }
                Ok(text)
            },
            Err(_) => Err(ChunkError::DataNotValidUtf8),
        }
    }

    /// The payload as text. The payload must be well-formed UTF-8.
    pub fn to_string(&self) -> (text: String)
        requires
            valid_utf8(self@.data),
        ensures
            text@ == decode_utf8(self@.data),
    {
        match self.data_as_string() {
            Ok(text) => text,
            Err(_) => unreached(),
        }
    }

    /// The chunk on the wire: length, type, payload, CRC. Decoding the
    /// result gives this chunk back.
    pub fn as_bytes(&self) -> (bytes: Vec<u8>)
        ensures
            bytes@ == self@.encode(),
            bytes@.len() == FRAME_LENGTH + self@.length,
            decode_chunk(bytes@) == Ok::<ChunkView, ChunkError>(self@),
    {
        proof {
            use_type_invariant(self);
            lemma_decode_inverts_encode(self@);
        }
        let type_bytes = self.chunk_type.bytes();
        let mut bytes: Vec<u8> = Vec::new();
        push_u32(&mut bytes, self.length);
        bytes.extend_from_slice(type_bytes.as_slice());
        bytes.extend_from_slice(self.chunk_data.as_slice());
        assert(bytes@ =~= be_bytes(self.length) + self@.type_code + self@.data);
        push_u32(&mut bytes, self.crc);
        bytes
    }

    /// The bytes of the first chunk of `stream`, found by its length field
    /// alone; nothing is decoded. Fails when the stream is shorter than the
    /// shortest chunk, or than the span that the length field announces.
    pub fn next_chunk(stream: &[u8]) -> (result: Result<&[u8], ChunkError>)
        ensures
            match result {
                Ok(bytes) => frame_chunk(stream@) == Ok::<Seq<u8>, ChunkError>(bytes@),
                Err(e) => frame_chunk(stream@) == Err::<Seq<u8>, ChunkError>(e),
            },
    {
        if stream.len() < 12 {
            return Err(ChunkError::NotEnoughBytes(stream.len(), FRAME_LENGTH));
        }
        let length: u32 = read_u32(stream, 0);
        let chunk_length: u64 = 12 + length as u64;
        if chunk_length > stream.len() as u64 {
            return Err(ChunkError::LengthTooLarge(chunk_length, stream.len()));
        }
        Ok(slice_subrange(stream, 0, chunk_length as usize))
    }

    /// Decodes `value`, which must be exactly one chunk on the wire: the
    /// declared length is at most 2^31, the type is four letters, the input
    /// ends where the chunk ends, and the stored CRC is the CRC of type and
    /// payload.
    pub fn try_from(value: &[u8]) -> (result: Result<Chunk, ChunkError>)
        ensures
            match result {
                Ok(chunk) => decode_chunk(value@) == Ok::<ChunkView, ChunkError>(chunk@),
                Err(e) => decode_chunk(value@) == Err::<ChunkView, ChunkError>(e),
            },
    {
        if value.len() < 4 {
            return Err(ChunkError::Io);
        }
        let length: u32 = read_u32(value, 0);
        if length > MAX_LENGTH {
            return Err(ChunkError::LengthTooLarge(length as u64, 0x8000_0000));
        }
        if value.len() < 8 {
            return Err(ChunkError::Io);
        }
        let chunk_type_buf: [u8; 4] = [value[4], value[5], value[6], value[7]];
        assert(chunk_type_buf@ =~= value@.subrange(4, 8));
        let chunk_type = match ChunkType::try_from(chunk_type_buf) {
            Ok(chunk_type) => chunk_type,
            Err(source) => {
                return Err(ChunkError::InvalidChunk { source });
            },
        };
        let data_end: usize = 8 + length as usize;
        if value.len() < data_end + 4 {
            return Err(ChunkError::Io);
        }
        let chunk_data: Vec<u8> = slice_to_vec(slice_subrange(value, 8, data_end));
        let crc: u32 = read_u32(value, data_end);
        if value.len() > data_end + 4 {
            return Err(ChunkError::RemainingBytes(value.len() - data_end - 4));
        }
        let calculated_crc = calculate_crc(slice_subrange(value, 4, data_end));
        if calculated_crc != crc {
            return Err(ChunkError::InvalidCRCValue(crc, calculated_crc));
        }
        proof {
            lemma_encode_inverts_decode(value@);
        }
        Ok(Chunk { length, chunk_type, chunk_data, crc })
    }
}

} // verus!
