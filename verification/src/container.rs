//! An ordered sequence of chunks behind a fixed magic preamble.

use vstd::prelude::*;

use crate::FormatError;
use crate::chunk::{
    Chunk, ChunkModel, chunk_model_wf, lemma_parse_chunk_prefix, spec_chunk_bytes,
    spec_parse_chunk,
};
use crate::chunk_type::ChunkType;
use vstd::string::StringSliceAdditionalSpecFns;

verus! {

/// The fixed eight-byte magic preamble that opens every container.
pub open spec fn spec_preamble() -> Seq<u8> {
    seq![137u8, 80u8, 78u8, 71u8, 13u8, 10u8, 26u8, 10u8]
}

/// The eight preamble bytes.
pub fn preamble() -> (r: [u8; 8])
    ensures
        r@ == spec_preamble(),
{
    let r: [u8; 8] = [137, 80, 78, 71, 13, 10, 26, 10];
    assert(r@ =~= spec_preamble());
    r
}

/// The chunks' serialized forms laid out back to back, no padding.
#[verifier::opaque]
pub open spec fn spec_chunks_bytes(ms: Seq<ChunkModel>) -> Seq<u8>
    decreases ms.len(),
{
    if ms.len() == 0 {
        Seq::empty()
    } else {
        spec_chunk_bytes(ms[0]) + spec_chunks_bytes(ms.skip(1))
    }
}

/// The serialized container: preamble, then the chunks back to back.
pub open spec fn spec_container_bytes(ms: Seq<ChunkModel>) -> Seq<u8> {
    spec_preamble() + spec_chunks_bytes(ms)
}

/// What parsing a run of chunk records yields: the records read back
/// to back until the buffer is exactly consumed, or the first failure.
pub open spec fn spec_parse_chunks(bytes: Seq<u8>) -> Result<Seq<ChunkModel>, FormatError>
    decreases bytes.len(),
{
    if bytes.len() == 0 {
        Ok(Seq::empty())
    } else {
        match spec_parse_chunk(bytes) {
            Err(e) => Err(e),
            Ok(m) => match spec_parse_chunks(bytes.skip(12 + m.payload.len() as int)) {
                Err(e) => Err(e),
                Ok(ms) => Ok(seq![m] + ms),
            },
        }
    }
}

/// What parsing a container yields: the chunk sequence, or a bad
/// preamble, or the first chunk failure.
pub open spec fn spec_parse_container(bytes: Seq<u8>) -> Result<Seq<ChunkModel>, FormatError> {
    if bytes.len() < 8 || bytes.subrange(0, 8) != spec_preamble() {
        Err(FormatError::BadPreamble)
    } else {
        spec_parse_chunks(bytes.skip(8))
    }
}

/// The index of the first chunk whose type code is `tb`, if any.
pub open spec fn spec_find_chunk(ms: Seq<ChunkModel>, tb: Seq<u8>) -> Option<int>
    decreases ms.len(),
{
    if ms.len() == 0 {
        None
    } else if ms[0].type_bytes == tb {
        Some(0)
    } else {
        match spec_find_chunk(ms.skip(1), tb) {
            Some(i) => Some(i + 1),
            None => None,
        }
    }
}

/// `spec_find_chunk` names the first match in order: the returned
/// index matches, nothing before it does, and `None` means no chunk
/// matches at all.
pub proof fn lemma_find_chunk_first(ms: Seq<ChunkModel>, tb: Seq<u8>)
    ensures
        match spec_find_chunk(ms, tb) {
            Some(i) => 0 <= i < ms.len() && ms[i].type_bytes == tb && forall|j: int|
                0 <= j < i ==> ms[j].type_bytes != tb,
            None => forall|j: int| 0 <= j < ms.len() ==> ms[j].type_bytes != tb,
        },
    decreases ms.len(),
{
    if ms.len() > 0 && ms[0].type_bytes != tb {
        lemma_find_chunk_first(ms.skip(1), tb);
        assert(forall|j: int| 1 <= j < ms.len() ==> #[trigger] ms[j] == ms.skip(1)[j - 1]);
    }
}

/// An ordered sequence of chunks. Parsing checks the preamble and
/// reads chunks until the buffer is exactly consumed; serializing
/// writes the preamble and the chunks back to back.
#[derive(Debug)]
pub struct Container {
    chunks: Vec<Chunk>,
}

impl View for Container {
    type V = Seq<ChunkModel>;

    closed spec fn view(&self) -> Seq<ChunkModel> {
        self.chunks@.map_values(|c: Chunk| c@)
    }
}

impl Container {
    #[verifier::type_invariant]
    pub open spec fn wf(self) -> bool {
        forall|i: int| 0 <= i < self@.len() ==> chunk_model_wf(#[trigger] self@[i])
    }

    /// An empty container.
    pub fn new() -> (r: Container)
        ensures
            r@ == Seq::<ChunkModel>::empty(),
    {
        let r = Container { chunks: Vec::new() };
        assert(r@ =~= Seq::<ChunkModel>::empty());
        r
    }

    /// Reads a container: the preamble, then chunks back to back until
    /// the buffer is exactly consumed. Fails with `BadPreamble` when
    /// the first eight bytes are not the magic preamble, and otherwise
    /// propagates the first chunk failure unchanged.
    pub fn parse(bytes: &[u8]) -> (r: Result<Container, FormatError>)
        ensures
            r matches Ok(c) ==> spec_parse_container(bytes@) == Ok::<
                Seq<ChunkModel>,
                FormatError,
            >(c@),
            r matches Err(e) ==> spec_parse_container(bytes@) == Err::<
                Seq<ChunkModel>,
                FormatError,
            >(e),
    {
        let len = bytes.len();
        if len < 8 {
            return Err(FormatError::BadPreamble);
        }
        let p = preamble();
        if bytes[0] != p[0] || bytes[1] != p[1] || bytes[2] != p[2] || bytes[3] != p[3] || bytes[4]
            != p[4] || bytes[5] != p[5] || bytes[6] != p[6] || bytes[7] != p[7] {
            proof {
                assert(bytes@.subrange(0, 8) != spec_preamble()) by {
                    if bytes@.subrange(0, 8) == spec_preamble() {
                        assert(bytes@.subrange(0, 8)[0] == bytes@[0]);
                    }
                };
            }
            return Err(FormatError::BadPreamble);
        }
        assert(bytes@.subrange(0, 8) =~= spec_preamble());
        let mut chunks: Vec<Chunk> = Vec::new();
        let mut off: usize = 8;
        while off < len
            invariant
                8 <= off <= len,
                len == bytes@.len(),
                bytes@.subrange(0, 8) == spec_preamble(),
                forall|i: int| 0 <= i < chunks@.len() ==> chunk_model_wf((#[trigger] chunks@[i])@),
                match spec_parse_chunks(bytes@.skip(off as int)) {
                    Ok(ms) => spec_parse_chunks(bytes@.skip(8)) == Ok::<
                        Seq<ChunkModel>,
                        FormatError,
                    >(chunks@.map_values(|c: Chunk| c@) + ms),
                    Err(e) => spec_parse_chunks(bytes@.skip(8)) == Err::<
                        Seq<ChunkModel>,
                        FormatError,
                    >(e),
                },
            decreases len - off,
        {
            let ghost done = chunks@.map_values(|c: Chunk| c@);
            let rest = vstd::slice::slice_subrange(bytes, off, len);
            let chunk = match Chunk::parse(rest) {
                Ok(c) => c,
                Err(e) => {
                    proof {
                        assert(bytes@.skip(off as int) =~= rest@);
                    }
                    return Err(e);
                },
            };
            proof {
                use_type_invariant(&chunk);
            }
            let consumed: usize = 12 + chunk.length() as usize;
            proof {
                let m = chunk@;
                assert(rest@.skip(12 + m.payload.len() as int) =~= bytes@.skip(
                    off + consumed as int,
                ));
                if spec_parse_chunks(bytes@.skip(off + consumed as int)) is Ok {
                    let ms = spec_parse_chunks(bytes@.skip(off + consumed as int))->Ok_0;
                    assert(done + (seq![m] + ms) =~= (done.push(m) + ms));
                }
            }
            chunks.push(chunk);
            off = off + consumed;
            proof {
                assert(chunks@.map_values(|c: Chunk| c@) =~= done.push(chunk@));
            }
        }
        proof {
            assert(bytes@.skip(off as int) =~= Seq::<u8>::empty());
            let done = chunks@.map_values(|c: Chunk| c@);
            assert(done + Seq::<ChunkModel>::empty() =~= done);
        }
        Ok(Container { chunks })
    }

    /// Serializes the container: preamble, then each chunk's bytes in
    /// sequence order. Parsing the result yields an equal sequence.
    pub fn to_bytes(&self) -> (r: Vec<u8>)
        ensures
            r@ == spec_container_bytes(self@),
            spec_parse_container(r@) == Ok::<Seq<ChunkModel>, FormatError>(self@),
    {
        proof {
            use_type_invariant(self);
        }
        let mut out: Vec<u8> = Vec::new();
        let p = preamble();
        let mut j: usize = 0;
        while j < 8
            invariant
                j <= 8,
                p@ == spec_preamble(),
                out@ == spec_preamble().take(j as int),
            decreases 8 - j,
        {
            out.push(p[j]);
            j = j + 1;
            assert(out@ =~= spec_preamble().take(j as int));
        }
        proof {
            reveal(spec_chunks_bytes);
        }
        assert(out@ =~= spec_preamble() + spec_chunks_bytes(self@.take(0)));
        let mut i: usize = 0;
        while i < self.chunks.len()
            invariant
                i <= self@.len(),
                self@ == self.chunks@.map_values(|c: Chunk| c@),
                out@ == spec_preamble() + spec_chunks_bytes(self@.take(i as int)),
            decreases self@.len() - i,
        {
            let mut cb = self.chunks[i].as_bytes();
            proof {
                lemma_chunks_bytes_push(self@.take(i as int), self@[i as int]);
                assert(self@.take(i as int).push(self@[i as int]) =~= self@.take(i + 1));
            }
            out.append(&mut cb);
            i = i + 1;
        }
        proof {
            assert(self@.take(self@.len() as int) =~= self@);
            lemma_parse_container_of_bytes(self@);
        }
        out
    }

    /// Appends a chunk at the end of the sequence.
    pub fn append_chunk(&mut self, chunk: Chunk)
        ensures
            final(self)@ == old(self)@.push(chunk@),
    {
        proof {
            use_type_invariant(&*self);
            use_type_invariant(&chunk);
        }
        let ghost old_view = self@;
        let mut v: Vec<Chunk> = Vec::new();
        core::mem::swap(&mut v, &mut self.chunks);
        v.push(chunk);
        proof {
            assert(v@.map_values(|c: Chunk| c@) =~= old_view.push(chunk@));
        }
        core::mem::swap(&mut v, &mut self.chunks);
    }

    /// The first chunk whose type code's text is `type_text`, or
    /// nothing when no chunk matches or the text is not a well-formed
    /// type code.
    pub fn chunk_by_type(&self, type_text: &str) -> (r: Option<&Chunk>)
        ensures
            match spec_find_chunk(self@, type_text.spec_bytes()) {
                Some(i) => r matches Some(c) && c@ == self@[i],
                None => r is None,
            },
    {
        proof {
            use_type_invariant(self);
        }
        let ghost tb = type_text.spec_bytes();
        let target = match ChunkType::from_text(type_text) {
            Ok(t) => t,
            Err(_) => {
                proof {
                    lemma_find_chunk_first(self@, tb);
                    if spec_find_chunk(self@, tb) is Some {
                        let i = spec_find_chunk(self@, tb)->Some_0;
                        assert(chunk_model_wf(self@[i]));
                    }
                }
                return None;
            },
        };
        let tbytes = target.bytes();
        let mut i: usize = 0;
        while i < self.chunks.len()
            invariant
                i <= self@.len(),
                self@ == self.chunks@.map_values(|c: Chunk| c@),
                tb == type_text.spec_bytes(),
                tbytes@ == tb,
                forall|j: int| 0 <= j < i ==> (#[trigger] self@[j]).type_bytes != tb,
            decreases self@.len() - i,
        {
            let c = &self.chunks[i];
            let cb = c.chunk_type().bytes();
            if cb[0] == tbytes[0] && cb[1] == tbytes[1] && cb[2] == tbytes[2] && cb[3]
                == tbytes[3] {
                proof {
                    assert(cb@ =~= tb);
                    assert(c@ == self@[i as int]);
                    assert(self@[i as int].type_bytes == tb);
                    lemma_find_chunk_first(self@, tb);
                    if spec_find_chunk(self@, tb) is Some {
                        let k = spec_find_chunk(self@, tb)->Some_0;
                        if k < i as int {
                            assert(self@[k].type_bytes != tb);
                        }
                        if k > i as int {
                            assert(self@[i as int].type_bytes != tb);
                        }
                        assert(k == i as int);
                    } else {
                        assert(self@[i as int].type_bytes != tb);
                    }
                    assert(spec_find_chunk(self@, tb) == Some(i as int));
                }
                return Some(c);
            }
            proof {
                assert(self@[i as int].type_bytes != tb) by {
                    if self@[i as int].type_bytes == tb {
                        assert(cb@ == self@[i as int].type_bytes);
                        assert(cb@[0] == tb[0] && cb@[1] == tb[1] && cb@[2] == tb[2] && cb@[3]
                            == tb[3]);
                    }
                };
            }
            i = i + 1;
        }
        proof {
            lemma_find_chunk_first(self@, tb);
        }
        None
    }

    /// Removes and returns the first chunk whose type code's text is
    /// `type_text`, keeping the order of the rest; fails with
    /// `ChunkNotFound` when no chunk matches.
    pub fn remove_chunk(&mut self, type_text: &str) -> (r: Result<Chunk, FormatError>)
        ensures
            match spec_find_chunk(old(self)@, type_text.spec_bytes()) {
                Some(i) => r matches Ok(c) && c@ == old(self)@[i] && final(self)@ == old(
                    self,
                )@.remove(i),
                None => r matches Err(e) && e == FormatError::ChunkNotFound && final(self)@ == old(
                    self,
                )@,
            },
    {
        proof {
            use_type_invariant(&*self);
        }
        let ghost old_view = self@;
        let ghost tb = type_text.spec_bytes();
        let target = match ChunkType::from_text(type_text) {
            Ok(t) => t,
            Err(_) => {
                proof {
                    lemma_find_chunk_first(old_view, tb);
                    if spec_find_chunk(old_view, tb) is Some {
                        let i = spec_find_chunk(old_view, tb)->Some_0;
                        assert(chunk_model_wf(old_view[i]));
                    }
                }
                return Err(FormatError::ChunkNotFound);
            },
        };
        let tbytes = target.bytes();
        let mut i: usize = 0;
        while i < self.chunks.len()
            invariant
                i <= self@.len(),
                old_view == old(self)@,
                self@ == old_view,
                self@ == self.chunks@.map_values(|c: Chunk| c@),
                tb == type_text.spec_bytes(),
                tbytes@ == tb,
                forall|j: int| 0 <= j < i ==> (#[trigger] self@[j]).type_bytes != tb,
            decreases self@.len() - i,
        {
            let c = &self.chunks[i];
            let cb = c.chunk_type().bytes();
            if cb[0] == tbytes[0] && cb[1] == tbytes[1] && cb[2] == tbytes[2] && cb[3]
                == tbytes[3] {
                proof {
                    use_type_invariant(&*self);
                    assert(cb@ =~= tb);
                    assert(c@ == old_view[i as int]);
                    assert(old_view[i as int].type_bytes == tb);
                    lemma_find_chunk_first(old_view, tb);
                    if spec_find_chunk(old_view, tb) is Some {
                        let k = spec_find_chunk(old_view, tb)->Some_0;
                        if k < i as int {
                            assert(old_view[k].type_bytes != tb);
                        }
                        if k > i as int {
                            assert(old_view[i as int].type_bytes != tb);
                        }
                        assert(k == i as int);
                    } else {
                        assert(old_view[i as int].type_bytes != tb);
                    }
                    assert(spec_find_chunk(old_view, tb) == Some(i as int));
                }
                let ghost old_chunks = self.chunks@;
                let mut v: Vec<Chunk> = Vec::new();
                core::mem::swap(&mut v, &mut self.chunks);
                let removed = v.remove(i);
                proof {
                    assert forall|j: int| 0 <= j < v@.len() implies chunk_model_wf(
                        (#[trigger] v@[j])@,
                    ) by {
                        if j < i as int {
                            assert(v@[j] == old_chunks[j]);
                            assert(old_chunks[j]@ == old_view[j]);
                            assert(chunk_model_wf(old_view[j]));
                        } else {
                            assert(v@[j] == old_chunks[j + 1]);
                            assert(old_chunks[j + 1]@ == old_view[j + 1]);
                            assert(chunk_model_wf(old_view[j + 1]));
                        }
                    }
                }
                core::mem::swap(&mut v, &mut self.chunks);
                proof {
                    assert(self.chunks@.map_values(|c: Chunk| c@) =~= old_view.remove(i as int));
                }
                return Ok(removed);
            }
            proof {
                assert(self@[i as int].type_bytes != tb) by {
                    if self@[i as int].type_bytes == tb {
                        assert(cb@ == self@[i as int].type_bytes);
                        assert(cb@[0] == tb[0] && cb@[1] == tb[1] && cb@[2] == tb[2] && cb@[3]
                            == tb[3]);
                    }
                };
            }
            i = i + 1;
        }
        proof {
            lemma_find_chunk_first(old_view, tb);
        }
        Err(FormatError::ChunkNotFound)
    }

    /// A read-only view of the chunks, in sequence order.
    pub fn chunks(&self) -> (r: &[Chunk])
        ensures
            r@.map_values(|c: Chunk| c@) == self@,
    {
        self.chunks.as_slice()
    }
}

/// Appending one chunk's serialized form extends the run of records.
proof fn lemma_chunks_bytes_push(ms: Seq<ChunkModel>, m: ChunkModel)
    ensures
        spec_chunks_bytes(ms.push(m)) == spec_chunks_bytes(ms) + spec_chunk_bytes(m),
    decreases ms.len(),
{
    reveal_with_fuel(spec_chunks_bytes, 2);
    if ms.len() == 0 {
        assert(ms.push(m).skip(1) =~= Seq::<ChunkModel>::empty());
        assert(ms.push(m)[0] == m);
        assert(spec_chunks_bytes(ms.push(m)) =~= spec_chunks_bytes(ms) + spec_chunk_bytes(m));
    } else {
        assert(ms.push(m).skip(1) =~= ms.skip(1).push(m));
        lemma_chunks_bytes_push(ms.skip(1), m);
        assert(ms.push(m)[0] == ms[0]);
        assert(spec_chunks_bytes(ms.push(m)) =~= spec_chunks_bytes(ms) + spec_chunk_bytes(m));
    }
}

/// The serialized form of a chunk occupies its first twelve bytes plus
/// payload; what was appended after it starts right there.
#[verifier::spinoff_prover]
proof fn lemma_chunk_bytes_skip(m: ChunkModel, tail: Seq<u8>)
    requires
        chunk_model_wf(m),
    ensures
        spec_chunk_bytes(m).len() == 12 + m.payload.len(),
        (spec_chunk_bytes(m) + tail).skip(12 + m.payload.len() as int) == tail,
{
    let head = spec_chunk_bytes(m);
    assert(head.len() == 12 + m.payload.len());
    assert((head + tail).skip(12 + m.payload.len() as int) =~= tail);
}

/// Unfolds one step of `spec_parse_chunks`: a buffer whose leading
/// record parses, and whose remainder parses, parses as a whole.
#[verifier::spinoff_prover]
proof fn lemma_parse_chunks_unfold(bytes: Seq<u8>, m: ChunkModel, tail: Seq<ChunkModel>)
    requires
        bytes.len() != 0,
        spec_parse_chunk(bytes) == Ok::<ChunkModel, FormatError>(m),
        spec_parse_chunks(bytes.skip(12 + m.payload.len() as int)) == Ok::<
            Seq<ChunkModel>,
            FormatError,
        >(tail),
    ensures
        spec_parse_chunks(bytes) == Ok::<Seq<ChunkModel>, FormatError>(seq![m] + tail),
{
}

/// Parsing a run of records that is the serialization of well-formed
/// chunks yields exactly those chunks.
#[verifier::spinoff_prover]
#[verifier::rlimit(100)]
proof fn lemma_parse_chunks_of_bytes(ms: Seq<ChunkModel>)
    requires
        forall|i: int| 0 <= i < ms.len() ==> chunk_model_wf(#[trigger] ms[i]),
    ensures
        spec_parse_chunks(spec_chunks_bytes(ms)) == Ok::<Seq<ChunkModel>, FormatError>(ms),
    decreases ms.len(),
{
    if ms.len() == 0 {
        reveal(spec_chunks_bytes);
        assert(ms =~= Seq::<ChunkModel>::empty());
        assert(spec_chunks_bytes(ms).len() == 0);
    } else {
        let m = ms[0];
        let rest = spec_chunks_bytes(ms.skip(1));
        let bytes = spec_chunks_bytes(ms);
        assert(bytes == spec_chunk_bytes(m) + rest) by {
            reveal(spec_chunks_bytes);
        };
        lemma_parse_chunk_prefix(m, rest);
        lemma_chunk_bytes_skip(m, rest);
        assert forall|j: int| 0 <= j < ms.skip(1).len() implies chunk_model_wf(
            #[trigger] ms.skip(1)[j],
        ) by {
            assert(ms.skip(1)[j] == ms[j + 1]);
        }
        lemma_parse_chunks_of_bytes(ms.skip(1));
        lemma_parse_chunks_unfold(bytes, m, ms.skip(1));
        assert(seq![m] + ms.skip(1) =~= ms);
    }
}

/// Round trip for a container: serializing any sequence of well-formed
/// chunks and parsing the bytes back yields an equal ordered sequence.
pub proof fn lemma_parse_container_of_bytes(ms: Seq<ChunkModel>)
    requires
        forall|i: int| 0 <= i < ms.len() ==> chunk_model_wf(#[trigger] ms[i]),
    ensures
        spec_parse_container(spec_container_bytes(ms)) == Ok::<Seq<ChunkModel>, FormatError>(ms),
{
    let bytes = spec_container_bytes(ms);
    assert(bytes.subrange(0, 8) =~= spec_preamble());
    assert(bytes.skip(8) =~= spec_chunks_bytes(ms));
    lemma_parse_chunks_of_bytes(ms);
}

} // verus!
