//! The four-letter type code of a chunk.
//!
//! A type code is four ASCII letters. The case of each letter carries one
//! property bit (bit 5, value `0x20`, of the byte): whether the chunk is
//! critical, public, has the reserved bit set, and is safe to copy.
use vstd::pervasive::unreached;
use vstd::prelude::*;
use vstd::string::StringSliceAdditionalSpecFns;
use vstd::utf8::{
    decode_utf8, encode_utf8, encode_utf8_decode_utf8, encode_utf8_valid_utf8, is_ascii_chars,
    is_ascii_chars_encode_utf8,
};

verus! {

/// Why a text or four bytes are not a type code.
#[derive(Debug, PartialEq, Eq, Clone, Copy)]
pub enum ChunkTypeError {
    /// The text does not have exactly four bytes; holds the number it has.
    InvalidCharacterLength(usize),
    /// A byte is not an ASCII letter; holds the index of the first such
    /// byte and the byte itself.
    InvalidCharacter(usize, u8),
}

/// Whether `v` is an ASCII letter, upper or lower case.
pub open spec fn is_letter(v: u8) -> bool {
    (65 <= v <= 90) || (97 <= v <= 122)
}

/// Whether `code` is a type code: four bytes, each a letter.
pub open spec fn valid_type_code(code: Seq<u8>) -> bool {
    &&& code.len() == 4
    &&& is_letter(code[0])
    &&& is_letter(code[1])
    &&& is_letter(code[2])
    &&& is_letter(code[3])
}

/// The outcome of checking `code`: the code itself if it is valid, else the
/// wrong length, else the first byte from the left that is not a letter.
pub open spec fn check_type_code(code: Seq<u8>) -> Result<Seq<u8>, ChunkTypeError> {
    if code.len() != 4 {
        Err(ChunkTypeError::InvalidCharacterLength(code.len() as usize))
    } else if !is_letter(code[0]) {
        Err(ChunkTypeError::InvalidCharacter(0, code[0]))
    } else if !is_letter(code[1]) {
        Err(ChunkTypeError::InvalidCharacter(1, code[1]))
    } else if !is_letter(code[2]) {
        Err(ChunkTypeError::InvalidCharacter(2, code[2]))
    } else if !is_letter(code[3]) {
        Err(ChunkTypeError::InvalidCharacter(3, code[3]))
    } else {
        Ok(code)
    }
}

/// The text of a type code: each byte read as a character.
pub open spec fn type_text(code: Seq<u8>) -> Seq<char> {
    Seq::new(code.len(), |i: int| code[i] as char)
}

/// Whether bit 5 of `v` is clear. A letter has it clear exactly when it is
/// upper case.
pub open spec fn bit_five_clear(v: u8) -> bool {
    v & 0x20 == 0
}

/// The text of a type code and its bytes determine each other: the bytes
/// are the UTF-8 encoding of the text.
pub proof fn lemma_type_text_encoding(code: Seq<u8>)
    requires
        valid_type_code(code),
    ensures
        encode_utf8(type_text(code)) == code,
        decode_utf8(code) == type_text(code),
{
    let text = type_text(code);
    assert(is_ascii_chars(text));
    is_ascii_chars_encode_utf8(text);
    encode_utf8_decode_utf8(text);
}

/// A text is the text of a type code exactly when its UTF-8 encoding is the
/// code's bytes.
pub proof fn lemma_type_text_matches(code: Seq<u8>, text: Seq<char>)
    requires
        valid_type_code(code),
    ensures
        type_text(code) == text <==> encode_utf8(text) == code,
{
    lemma_type_text_encoding(code);
    encode_utf8_decode_utf8(text);
}

/// A validated four-letter chunk type code.
#[derive(Debug, PartialEq, Eq, Clone, Copy)]
pub struct ChunkType {
    bytes: [u8; 4],
}

impl View for ChunkType {
    type V = Seq<u8>;

    closed spec fn view(&self) -> Seq<u8> {
        self.bytes@
    }
}

impl ChunkType {
    /// Every `ChunkType` holds four letters.
    #[verifier::type_invariant]
    pub open spec fn well_formed(self) -> bool {
        valid_type_code(self@)
    }

    /// The four bytes of the code.
    pub fn bytes(&self) -> (bytes: [u8; 4])
        ensures
            bytes@ == self@,
            valid_type_code(self@),
    {
        proof {
            use_type_invariant(self);
        }
        self.bytes
    }

    /// Checks the four bytes again. A `ChunkType` is only ever built from
    /// four letters, so the check always passes.
    pub fn is_valid(&self) -> (result: Result<(), Box<ChunkTypeError>>)
        ensures
            result is Ok <==> valid_type_code(self@),
            result is Ok,
    {
        proof {
            use_type_invariant(self);
        }
        match find_invalid(&self.bytes) {
            Some((i, v)) => Err(Box::new(ChunkTypeError::InvalidCharacter(i, v))),
            None => Ok(()),
        }
    }

    fn is_ascii(v: u8) -> (letter: bool)
        ensures
            letter == is_letter(v),
    {
        (v >= 65 && v <= 90) || (v >= 97 && v <= 122)
    }

    /// Whether the chunk is critical: bit 5 of the first byte is clear, so
    /// the first letter is upper case.
    pub fn is_critical(&self) -> (critical: bool)
        ensures
            critical == bit_five_clear(self@[0]),
            critical == (65 <= self@[0] <= 90),
    {
        proof {
            use_type_invariant(self);
            lemma_case_bit(self.bytes[0]);
        }
        is_bit_zero(self.bytes[0], 5)
    }

    /// Whether the chunk is public: bit 5 of the second byte is clear, so
    /// the second letter is upper case.
    pub fn is_public(&self) -> (public: bool)
        ensures
            public == bit_five_clear(self@[1]),
            public == (65 <= self@[1] <= 90),
    {
        proof {
            use_type_invariant(self);
            lemma_case_bit(self.bytes[1]);
        }
        is_bit_zero(self.bytes[1], 5)
    }

    /// The reserved-bit flag: bit 5 of the third byte is set, so the third
    /// letter is lower case.
    pub fn is_reserved_bit_valid(&self) -> (flag: bool)
        ensures
            flag == !bit_five_clear(self@[2]),
            flag == (97 <= self@[2] <= 122),
    {
        proof {
            use_type_invariant(self);
            lemma_case_bit(self.bytes[2]);
        }
        !is_bit_zero(self.bytes[2], 5)
    }

    /// Whether the chunk is safe to copy: bit 5 of the fourth byte is set,
    /// so the fourth letter is lower case.
    pub fn is_safe_to_copy(&self) -> (safe: bool)
        ensures
            safe == !bit_five_clear(self@[3]),
            safe == (97 <= self@[3] <= 122),
    {
        proof {
            use_type_invariant(self);
            lemma_case_bit(self.bytes[3]);
        }
        !is_bit_zero(self.bytes[3], 5)
    }

    /// Reads a type code from text. The text must have four bytes, each an
    /// ASCII letter.
    pub fn from_str(s: &str) -> (result: Result<ChunkType, ChunkTypeError>)
        ensures
            match result {
                Ok(chunk_type) => check_type_code(s.spec_bytes()) == Ok::<
                    Seq<u8>,
                    ChunkTypeError,
                >(chunk_type@),
                Err(e) => check_type_code(s.spec_bytes()) == Err::<Seq<u8>, ChunkTypeError>(e),
            },
    {
        let s = s.as_bytes();
        if s.len() == 4 {
            let bytes: [u8; 4] = [s[0], s[1], s[2], s[3]];
            assert(bytes@ =~= s@);
            ChunkType::try_from(bytes)
        } else {
            Err(ChunkTypeError::InvalidCharacterLength(s.len()))
        }
    }

    /// Reads a type code from four bytes, each of which must be an ASCII
    /// letter.
    pub fn try_from(bytes: [u8; 4]) -> (result: Result<ChunkType, ChunkTypeError>)
        ensures
            match result {
                Ok(chunk_type) => check_type_code(bytes@) == Ok::<Seq<u8>, ChunkTypeError>(
                    chunk_type@,
                ),
                Err(e) => check_type_code(bytes@) == Err::<Seq<u8>, ChunkTypeError>(e),
            },
    {
        match find_invalid(&bytes) {
            Some((i, v)) => Err(ChunkTypeError::InvalidCharacter(i, v)),
            None => Ok(ChunkType { bytes }),
        }
    }

    /// Whether the text of the code is `text`.
    pub fn has_text(&self, text: &str) -> (same: bool)
        ensures
            same == (type_text(self@) == text@),
    {
        proof {
            use_type_invariant(self);
            lemma_type_text_matches(self@, text@);
        }
        let bytes = text.as_bytes();
        if bytes.len() != 4 {
            return false;
        }
        let same = bytes[0] == self.bytes[0] && bytes[1] == self.bytes[1] && bytes[2]
            == self.bytes[2] && bytes[3] == self.bytes[3];
        proof {
            if same {
                assert(bytes@ =~= self@);
            }
        }
        same
    }

    /// The code as text: its four letters.
    pub fn to_string(&self) -> (text: String)
        ensures
            text@ == type_text(self@),
    {
        proof {
            use_type_invariant(self);
            lemma_type_text_encoding(self@);
            encode_utf8_valid_utf8(type_text(self@));
        }
        let mut letters: Vec<u8> = Vec::with_capacity(4);
        letters.push(self.bytes[0]);
        letters.push(self.bytes[1]);
        letters.push(self.bytes[2]);
        letters.push(self.bytes[3]);
        assert(letters@ =~= self@);
        match String::from_utf8(letters) {
            Ok(text) => {
                proof {
                    encode_utf8_decode_utf8(text@);
                }
                text
            },
            Err(_) => unreached(),
        }
    }
}

/// For a letter, bit 5 tells the case: clear for upper, set for lower.
proof fn lemma_case_bit(v: u8)
    requires
        is_letter(v),
    ensures
        bit_five_clear(v) <==> 65 <= v <= 90,
        !bit_five_clear(v) <==> 97 <= v <= 122,
{
    assert((65 <= v <= 90 ==> v & 0x20 == 0) && (97 <= v <= 122 ==> v & 0x20 != 0))
        by (bit_vector);
}

/// The first byte of `bytes` that is not a letter, with its index.
fn find_invalid(bytes: &[u8; 4]) -> (found: Option<(usize, u8)>)
    ensures
        match found {
            Some((i, v)) => check_type_code(bytes@) == Err::<Seq<u8>, ChunkTypeError>(
                ChunkTypeError::InvalidCharacter(i, v),
            ),
            None => valid_type_code(bytes@),
        },
{
    let mut i: usize = 0;
    while i < 4
        invariant
            i <= 4,
            forall|j: int| 0 <= j < i ==> is_letter(#[trigger] bytes@[j]),
        decreases 4 - i,
    {
        if !ChunkType::is_ascii(bytes[i]) {
            return Some((i, bytes[i]));
        }
        i = i + 1;
    }
    None
}

/// Whether bit number `bit` of `input` is clear.
fn is_bit_zero(input: u8, bit: u8) -> (zero: bool)
    requires
        bit < 8,
    ensures
        zero == (input & (1u8 << bit) == 0),
        bit == 5 ==> zero == bit_five_clear(input),
{
    proof {
        assert(1u8 << 5u8 == 0x20) by (bit_vector);
    }
    input & (1u8 << bit) == 0
}

} // verus!
