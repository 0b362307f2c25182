//! The PNG document: the signature and an ordered list of chunks.
use crate::chunk::{
    decode_chunk, frame_chunk, lemma_decode_inverts_encode, lemma_encode_inverts_decode,
    lemma_frame_finds_encoded, Chunk, ChunkError, ChunkView,
};
use vstd::prelude::*;
use vstd::slice::slice_subrange;
use vstd::utf8::{decode_utf8, valid_utf8};

verus! {

/// The eight bytes that every PNG stream starts with.
pub const STANDARD_HEADER: [u8; 8] = [137, 80, 78, 71, 13, 10, 26, 10];

/// Why bytes are not a PNG document, or a chunk could not be removed.
#[derive(Debug, PartialEq, Eq, Clone, Copy)]
pub enum PngError {
    /// The stream does not start with the signature.
    SignatureMismatch,
    /// The stream ends inside a chunk.
    TruncatedStream,
    /// No chunk has the type asked for.
    NotFound,
    /// The bytes of a chunk do not decode.
    InvalidChunk { source: ChunkError },
}

/// The values of a list of chunks.
pub open spec fn chunk_views(chunks: Seq<Chunk>) -> Seq<ChunkView> {
    chunks.map_values(|chunk: Chunk| chunk@)
}

/// The signature as a byte string.
pub open spec fn signature() -> Seq<u8> {
    seq![137u8, 80u8, 78u8, 71u8, 13u8, 10u8, 26u8, 10u8]
}

/// The wire forms of `chunks`, one after the other.
pub open spec fn encode_chunks(chunks: Seq<ChunkView>) -> Seq<u8>
    decreases chunks.len(),
{
    if chunks.len() == 0 {
        Seq::empty()
    } else {
        encode_chunks(chunks.drop_last()) + chunks.last().encode()
    }
}

/// A document on the wire: the signature, then the chunks.
pub open spec fn encode_png(chunks: Seq<ChunkView>) -> Seq<u8> {
    signature() + encode_chunks(chunks)
}

/// `chunks` put in front of a list that was decoded, or the error if it
/// was not.
pub open spec fn prepend(chunks: Seq<ChunkView>, rest: Result<Seq<ChunkView>, PngError>) -> Result<
    Seq<ChunkView>,
    PngError,
> {
    match rest {
        Ok(more) => Ok(chunks + more),
        Err(e) => Err(e),
    }
}

/// The chunks that `stream` holds from its first byte to its last. The
/// stream is cut into chunks by their length fields, and each piece is
/// decoded. A stream that ends inside a chunk is truncated; the first piece
/// that does not decode gives its error; in both cases nothing is kept.
pub open spec fn decode_chunks(stream: Seq<u8>) -> Result<Seq<ChunkView>, PngError>
    decreases stream.len(),
{
    if stream.len() == 0 {
        Ok(Seq::empty())
    } else {
        match frame_chunk(stream) {
            Err(_) => Err(PngError::TruncatedStream),
            Ok(bytes) => match decode_chunk(bytes) {
                Err(source) => Err(PngError::InvalidChunk { source }),
                Ok(chunk) => prepend(
                    seq![chunk],
                    decode_chunks(stream.subrange(bytes.len() as int, stream.len() as int)),
                ),
            },
        }
    }
}

/// The chunks of a document on the wire: the stream must start with the
/// signature, and what follows must be chunks to its end.
pub open spec fn decode_png(buffer: Seq<u8>) -> Result<Seq<ChunkView>, PngError> {
    if buffer.len() >= 8 && buffer.subrange(0, 8) == signature() {
        decode_chunks(buffer.subrange(8, buffer.len() as int))
    } else {
        Err(PngError::SignatureMismatch)
    }
}

/// Whether the payload of `chunk` is text: not empty, and well-formed
/// UTF-8.
pub open spec fn is_text(chunk: ChunkView) -> bool {
    chunk.data.len() > 0 && valid_utf8(chunk.data)
}

/// The chunks of `chunks` whose payload is text, each as its index and its
/// text, in the order of the document.
pub open spec fn text_entries(chunks: Seq<ChunkView>) -> Seq<(int, Seq<char>)>
    decreases chunks.len(),
{
    if chunks.len() == 0 {
        Seq::empty()
    } else if is_text(chunks.last()) {
        text_entries(chunks.drop_last()).push((chunks.len() - 1, decode_utf8(chunks.last().data)))
    } else {
        text_entries(chunks.drop_last())
    }
}

/// The values of a list of indices and texts.
pub open spec fn entry_views(entries: Seq<(usize, String)>) -> Seq<(int, Seq<char>)> {
    entries.map_values(|entry: (usize, String)| (entry.0 as int, entry.1@))
}

/// Whether `chunks[i]` is the first chunk whose type has the text `text`.
pub open spec fn is_first_of_type(chunks: Seq<ChunkView>, text: Seq<char>, i: int) -> bool {
    &&& 0 <= i < chunks.len()
    &&& chunks[i].has_type(text)
    &&& forall|j: int| 0 <= j < i ==> !(#[trigger] chunks[j]).has_type(text)
}

/// Whether no chunk's type has the text `text`.
pub open spec fn none_of_type(chunks: Seq<ChunkView>, text: Seq<char>) -> bool {
    forall|j: int| 0 <= j < chunks.len() ==> !(#[trigger] chunks[j]).has_type(text)
}

/// Whether every chunk of `chunks` is well formed.
pub open spec fn all_well_formed(chunks: Seq<ChunkView>) -> bool {
    forall|i: int| 0 <= i < chunks.len() ==> (#[trigger] chunks[i]).well_formed()
}

/// The wire form of a list of one chunk is that chunk's wire form.
pub proof fn lemma_encode_chunks_one(chunk: ChunkView)
    ensures
        encode_chunks(seq![chunk]) == chunk.encode(),
{
    let one = seq![chunk];
    assert(encode_chunks(one) == encode_chunks(one.drop_last()) + one.last().encode());
}

/// The wire form of two lists put together is their wire forms put
/// together.
pub proof fn lemma_encode_chunks_concat(a: Seq<ChunkView>, b: Seq<ChunkView>)
    ensures
        encode_chunks(a + b) == encode_chunks(a) + encode_chunks(b),
    decreases b.len(),
{
    if b.len() > 0 {
        assert((a + b).drop_last() =~= a + b.drop_last());
        lemma_encode_chunks_concat(a, b.drop_last());
    }
}

/// Chunks that were decoded from a stream are well formed, and their wire
/// form is that stream, byte for byte.
pub proof fn lemma_encode_inverts_decode_chunks(stream: Seq<u8>)
    requires
        decode_chunks(stream) is Ok,
    ensures
        all_well_formed(decode_chunks(stream)->Ok_0),
        encode_chunks(decode_chunks(stream)->Ok_0) == stream,
    decreases stream.len(),
{
    if stream.len() > 0 {
        let bytes = frame_chunk(stream)->Ok_0;
        let chunk = decode_chunk(bytes)->Ok_0;
        let rest = stream.subrange(bytes.len() as int, stream.len() as int);
        let more = decode_chunks(rest)->Ok_0;
        assert(decode_chunk(bytes) is Ok);
        assert(bytes == stream.subrange(0, bytes.len() as int));
        lemma_encode_inverts_decode(bytes);
        lemma_encode_inverts_decode_chunks(rest);
        lemma_encode_chunks_concat(seq![chunk], more);
        lemma_encode_chunks_one(chunk);
        assert(bytes + rest =~= stream);
    }
}

/// Well-formed chunks are what their wire form decodes to.
pub proof fn lemma_decode_inverts_encode_chunks(chunks: Seq<ChunkView>)
    requires
        all_well_formed(chunks),
    ensures
        decode_chunks(encode_chunks(chunks)) == Ok::<Seq<ChunkView>, PngError>(chunks),
    decreases chunks.len(),
{
    if chunks.len() == 0 {
        assert(chunks =~= Seq::empty());
    } else {
        let first = chunks.first();
        let others = chunks.drop_first();
        assert(chunks =~= seq![first] + others);
        lemma_encode_chunks_concat(seq![first], others);
        lemma_encode_chunks_one(first);
        let stream = encode_chunks(chunks);
        lemma_frame_finds_encoded(first, encode_chunks(others));
        lemma_decode_inverts_encode(first);
        assert(stream.subrange(first.encode().len() as int, stream.len() as int) =~= encode_chunks(
            others,
        ));
        lemma_decode_inverts_encode_chunks(others);
    }
}

/// A document that was decoded from a buffer has that buffer as its wire
/// form, byte for byte.
pub proof fn lemma_encode_inverts_decode_png(buffer: Seq<u8>)
    requires
        decode_png(buffer) is Ok,
    ensures
        all_well_formed(decode_png(buffer)->Ok_0),
        encode_png(decode_png(buffer)->Ok_0) == buffer,
{
    lemma_encode_inverts_decode_chunks(buffer.subrange(8, buffer.len() as int));
}

/// A document of well-formed chunks is what its wire form decodes to.
pub proof fn lemma_decode_inverts_encode_png(chunks: Seq<ChunkView>)
    requires
        all_well_formed(chunks),
    ensures
        decode_png(encode_png(chunks)) == Ok::<Seq<ChunkView>, PngError>(chunks),
{
    let buffer = encode_png(chunks);
    assert(buffer.subrange(0, 8) =~= signature());
    assert(buffer.subrange(8, buffer.len() as int) =~= encode_chunks(chunks));
    lemma_decode_inverts_encode_chunks(chunks);
}

/// A PNG document: the chunks of a stream, in the order of the stream.
pub struct Png {
    chunks: Vec<Chunk>,
}

impl View for Png {
    type V = Seq<ChunkView>;

    closed spec fn view(&self) -> Seq<ChunkView> {
        chunk_views(self.chunks@)
    }
}

impl Png {
    /// Every chunk of a `Png` is well formed.
    #[verifier::type_invariant]
    pub open spec fn well_formed(self) -> bool {
        all_well_formed(self@)
    }

    /// The document with the given chunks, in the given order.
    pub fn from_chunks(chunks: Vec<Chunk>) -> (png: Png)
        ensures
            png@ == chunk_views(chunks@),
    {
        // Each chunk is well formed by its own invariant; the loop gathers
        // this for the whole list and does nothing else.
        let mut i: usize = 0;
        while i < chunks.len()
            invariant
                i <= chunks.len(),
                forall|j: int| 0 <= j < i ==> (#[trigger] chunks@[j])@.well_formed(),
            decreases chunks.len() - i,
        {
            let chunk: &Chunk = &chunks[i];
            proof {
                use_type_invariant(chunk);
            }
            i = i + 1;
        }
        Png { chunks }
    }

    /// The chunks, in order.
    pub fn chunks(&self) -> (chunks: &[Chunk])
        ensures
            chunk_views(chunks@) == self@,
    {
        self.chunks.as_slice()
    }

    /// Puts `chunk` at the end of the document. Chunks of the same type
    /// may already be there.
    pub fn append_chunk(&mut self, chunk: Chunk)
        ensures
            final(self)@ == old(self)@.push(chunk@),
    {
        proof {
            use_type_invariant(&*self);
            use_type_invariant(&chunk);
        }
        let mut chunks: Vec<Chunk> = Vec::new();
        std::mem::swap(&mut chunks, &mut self.chunks);
        chunks.push(chunk);
        assert(chunk_views(chunks@) =~= old(self)@.push(chunk@));
        self.chunks = chunks;
    }

    /// The first chunk, in the order of the document, whose type has the
    /// text `chunk_type`, or `None` if there is no such chunk.
    pub fn chunk_by_type(&self, chunk_type: &str) -> (found: Option<&Chunk>)
        ensures
            match found {
                Some(chunk) => exists|i: int|
                    is_first_of_type(self@, chunk_type@, i) && chunk@ == self@[i],
                None => none_of_type(self@, chunk_type@),
            },
    {
        match self.position_of_type(chunk_type) {
            Some(i) => Some(&self.chunks[i]),
            None => None,
        }
    }

    /// Takes the first chunk whose type has the text `chunk_type` out of
    /// the document and returns it; the other chunks, later ones of the same
    /// type too, stay in their order. Where there is no such chunk the
    /// document stays as it is and the result is `NotFound`.
    pub fn remove_chunk(&mut self, chunk_type: &str) -> (result: Result<Chunk, PngError>)
        ensures
            match result {
                Ok(chunk) => exists|i: int|
                    {
                        &&& is_first_of_type(old(self)@, chunk_type@, i)
                        &&& chunk@ == old(self)@[i]
                        &&& final(self)@ == old(self)@.remove(i)
                    },
                Err(e) => {
                    &&& e == PngError::NotFound
                    &&& none_of_type(old(self)@, chunk_type@)
                    &&& final(self)@ == old(self)@
                },
            },
    {
        proof {
            use_type_invariant(&*self);
        }
        match self.position_of_type(chunk_type) {
            Some(i) => {
                let mut chunks: Vec<Chunk> = Vec::new();
                std::mem::swap(&mut chunks, &mut self.chunks);
                let chunk = chunks.remove(i);
                assert(chunk_views(chunks@) =~= old(self)@.remove(i as int));
                self.chunks = chunks;
                Ok(chunk)
            },
            None => Err(PngError::NotFound),
        }
    }

    /// The index of the first chunk whose type has the text `chunk_type`.
    fn position_of_type(&self, chunk_type: &str) -> (found: Option<usize>)
        ensures
            match found {
                Some(i) => is_first_of_type(self@, chunk_type@, i as int),
                None => none_of_type(self@, chunk_type@),
            },
    {
        let mut i: usize = 0;
        while i < self.chunks.len()
            invariant
                i <= self.chunks.len(),
                forall|j: int| 0 <= j < i ==> !(#[trigger] self@[j]).has_type(chunk_type@),
            decreases self.chunks.len() - i,
        {
            if self.chunks[i].chunk_type().has_text(chunk_type) {
                return Some(i);
            }
            i = i + 1;
        }
        None
    }

    /// The chunks whose payload is text (not empty, and well-formed UTF-8),
    /// each as its index in the document and its text, in order.
    pub fn text_chunks(&self) -> (found: Vec<(usize, String)>)
        ensures
            entry_views(found@) == text_entries(self@),
    {
        let mut found: Vec<(usize, String)> = Vec::new();
        let mut i: usize = 0;
        while i < self.chunks.len()
            invariant
                i <= self.chunks.len(),
                entry_views(found@) == text_entries(self@.take(i as int)),
            decreases self.chunks.len() - i,
        {
            assert(self@.take(i + 1).drop_last() =~= self@.take(i as int));
            let chunk = &self.chunks[i];
            if chunk.length() > 0 {
                match chunk.data_as_string() {
                    Ok(text) => {
                        found.push((i, text));
                    },
                    Err(_) => {},
                }
            }
            i = i + 1;
        }
        assert(self@.take(i as int) =~= self@);
        found
    }

    /// The document on the wire: the signature, then each chunk in order.
    /// Decoding the result gives this document back.
    pub fn as_bytes(&self) -> (bytes: Vec<u8>)
        ensures
            bytes@ == encode_png(self@),
            decode_png(bytes@) == Ok::<Seq<ChunkView>, PngError>(self@),
    {
        proof {
            use_type_invariant(self);
            lemma_decode_inverts_encode_png(self@);
        }
        let mut bytes: Vec<u8> = Vec::new();
        bytes.extend_from_slice(STANDARD_HEADER.as_slice());
        assert(bytes@ =~= signature());
        let mut i: usize = 0;
        while i < self.chunks.len()
            invariant
                i <= self.chunks.len(),
                bytes@ == signature() + encode_chunks(self@.take(i as int)),
            decreases self.chunks.len() - i,
        {
            let chunk_bytes = self.chunks[i].as_bytes();
            bytes.extend_from_slice(chunk_bytes.as_slice());
            proof {
                let done = self@.take(i + 1);
                assert(done.drop_last() =~= self@.take(i as int));
                assert(bytes@ =~= signature() + encode_chunks(done));
            }
            i = i + 1;
        }
        assert(self@.take(i as int) =~= self@);
        bytes
    }

    /// Reads a document from `bytes`: the signature, then chunks to the
    /// last byte. A document comes back only if all of it is sound; its
    /// wire form is then `bytes` again.
    pub fn try_from(bytes: &[u8]) -> (result: Result<Png, PngError>)
        ensures
            match result {
                Ok(png) => {
                    &&& decode_png(bytes@) == Ok::<Seq<ChunkView>, PngError>(png@)
                    &&& encode_png(png@) == bytes@
                },
                Err(e) => decode_png(bytes@) == Err::<Seq<ChunkView>, PngError>(e),
            },
    {
        if !has_signature(bytes) {
            return Err(PngError::SignatureMismatch);
        }
        let ghost stream = bytes@.subrange(8, bytes@.len() as int);
        let mut chunks: Vec<Chunk> = Vec::new();
        let mut pos: usize = 8;
        while pos < bytes.len()
            invariant
                8 <= pos <= bytes@.len(),
                bytes@.subrange(0, 8) == signature(),
                stream == bytes@.subrange(8, bytes@.len() as int),
                all_well_formed(chunk_views(chunks@)),
                decode_chunks(stream) == prepend(
                    chunk_views(chunks@),
                    decode_chunks(bytes@.subrange(pos as int, bytes@.len() as int)),
                ),
            decreases bytes@.len() - pos,
        {
            let rest = slice_subrange(bytes, pos, bytes.len());
            let chunk_bytes = match Chunk::next_chunk(rest) {
                Ok(chunk_bytes) => chunk_bytes,
                Err(_) => {
                    return Err(PngError::TruncatedStream);
                },
            };
            let chunk = match Chunk::try_from(chunk_bytes) {
                Ok(chunk) => chunk,
                Err(source) => {
                    return Err(PngError::InvalidChunk { source });
                },
            };
            proof {
                use_type_invariant(&chunk);
                let before = chunk_views(chunks@);
                let after = chunk_views(chunks@.push(chunk));
                let next = pos + chunk_bytes@.len();
                let tail = decode_chunks(bytes@.subrange(next, bytes@.len() as int));
                assert(rest@.subrange(chunk_bytes@.len() as int, rest@.len() as int)
                    =~= bytes@.subrange(next, bytes@.len() as int));
                assert(after =~= before + seq![chunk@]);
                assert(prepend(before, prepend(seq![chunk@], tail)) == prepend(after, tail)) by {
                    if tail is Ok {
                        assert(before + (seq![chunk@] + tail->Ok_0) =~= after + tail->Ok_0);
                    }
                }
            }
            pos = pos + chunk_bytes.len();
            chunks.push(chunk);
        }
        proof {
            assert(bytes@.subrange(pos as int, bytes@.len() as int).len() == 0);
            lemma_encode_inverts_decode_png(bytes@);
        }
        Ok(Png { chunks })
    }
}

/// Whether `bytes` start with the signature.
fn has_signature(bytes: &[u8]) -> (has: bool)
    ensures
        has == (bytes@.len() >= 8 && bytes@.subrange(0, 8) == signature()),
{
    if bytes.len() < 8 {
        return false;
    }
    let mut i: usize = 0;
    while i < 8
        invariant
            i <= 8,
            bytes@.len() >= 8,
            forall|j: int| 0 <= j < i ==> bytes@[j] == signature()[j],
        decreases 8 - i,
    {
        if bytes[i] != STANDARD_HEADER[i] {
            assert(bytes@.subrange(0, 8)[i as int] != signature()[i as int]);
            return false;
        }
        i = i + 1;
    }
    assert(bytes@.subrange(0, 8) =~= signature());
    true
}

} // verus!
