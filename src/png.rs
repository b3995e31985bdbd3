use crate::chunk::{
    be_bytes, be_value, lemma_be_bytes_value, lemma_be_value_bytes, parse_chunk_at, Chunk,
    ChunkModel,
};
use crate::chunk_type::lossy_text;
use crate::error::PngError;
use vstd::prelude::*;

verus! {

/// The eight bytes that open every PNG file.
pub open spec fn signature() -> Seq<u8> {
    seq![137u8, 80u8, 78u8, 71u8, 13u8, 10u8, 26u8, 10u8]
}

/// Reads chunk records from position `p` of `b` to its end.
pub open spec fn parse_chunks_from(b: Seq<u8>, p: int) -> Result<Seq<ChunkModel>, PngError>
    decreases b.len() - p,
{
    if p < 0 || p >= b.len() {
        Ok(Seq::empty())
    } else {
        match parse_chunk_at(b, p) {
            Err(e) => Err(e),
            Ok((c, n)) => match parse_chunks_from(b, p + n) {
                Err(e) => Err(e),
                Ok(rest) => Ok(seq![c] + rest),
            },
        }
    }
}

/// Reads a whole PNG file: the signature, then chunk records to the end.
pub open spec fn parse_png(b: Seq<u8>) -> Result<Seq<ChunkModel>, PngError> {
    if b.len() < 8 || b.subrange(0, 8) != signature() {
        Err(PngError::Signature)
    } else {
        parse_chunks_from(b, 8)
    }
}

/// The records of `cs`, one after another.
pub open spec fn chunks_bytes(cs: Seq<ChunkModel>) -> Seq<u8>
    decreases cs.len(),
{
    if cs.len() == 0 {
        Seq::empty()
    } else {
        cs[0].to_bytes() + chunks_bytes(cs.drop_first())
    }
}

/// The file that holds the chunks `cs`.
pub open spec fn png_bytes(cs: Seq<ChunkModel>) -> Seq<u8> {
    signature() + chunks_bytes(cs)
}

/// Whether the type of `c`, rendered as text, is `t`.
pub open spec fn type_matches(c: ChunkModel, t: Seq<char>) -> bool {
    lossy_text(c.kind) == t
}

/// Whether some chunk of `cs` has the type `t`.
pub open spec fn has_type(cs: Seq<ChunkModel>, t: Seq<char>) -> bool {
    exists|i: int| 0 <= i < cs.len() && type_matches(#[trigger] cs[i], t)
}

/// Whether `i` is the position of the first chunk of `cs` with the type `t`.
pub open spec fn is_first_of_type(cs: Seq<ChunkModel>, t: Seq<char>, i: int) -> bool {
    &&& 0 <= i < cs.len()
    &&& type_matches(cs[i], t)
    &&& forall|j: int| 0 <= j < i ==> !type_matches(#[trigger] cs[j], t)
}

/// The chunks `acc`, followed by those of a further reading `r`, or its error.
pub open spec fn prepend(
    acc: Seq<ChunkModel>,
    r: Result<Seq<ChunkModel>, PngError>,
) -> Result<Seq<ChunkModel>, PngError> {
    match r {
        Ok(rest) => Ok(acc + rest),
        Err(e) => Err(e),
    }
}

/// Appending a chunk appends its record.
pub proof fn lemma_chunks_bytes_push(cs: Seq<ChunkModel>, c: ChunkModel)
    ensures
        chunks_bytes(cs.push(c)) == chunks_bytes(cs) + c.to_bytes(),
    decreases cs.len(),
{
    if cs.len() == 0 {
        assert(cs.push(c).drop_first() =~= Seq::<ChunkModel>::empty());
        assert(chunks_bytes(cs.push(c).drop_first()) == Seq::<u8>::empty());
        assert(chunks_bytes(cs.push(c)) =~= c.to_bytes());
        assert(chunks_bytes(cs) == Seq::<u8>::empty());
    } else {
        lemma_chunks_bytes_push(cs.drop_first(), c);
        assert(cs.push(c).drop_first() =~= cs.drop_first().push(c));
        assert(chunks_bytes(cs.push(c)) =~= chunks_bytes(cs) + c.to_bytes());
    }
}

/// Records read from position `p` on and written again give back the bytes
/// they were read from.
pub proof fn lemma_parse_chunks_bytes(b: Seq<u8>, p: int)
    requires
        0 <= p <= b.len(),
        parse_chunks_from(b, p) is Ok,
    ensures
        chunks_bytes(parse_chunks_from(b, p)->Ok_0) == b.subrange(p, b.len() as int),
    decreases b.len() - p,
{
    let cs = parse_chunks_from(b, p)->Ok_0;
    if p == b.len() {
        assert(b.subrange(p, b.len() as int) =~= Seq::<u8>::empty());
    } else {
        let (c, n) = parse_chunk_at(b, p)->Ok_0;
        lemma_parse_chunks_bytes(b, p + n);
        let v = be_value(b, p);
        lemma_be_value_bytes(b, p);
        lemma_be_value_bytes(b, p + 8 + v);
        assert(c.data.len() == v);
        assert(cs.drop_first() == parse_chunks_from(b, p + n)->Ok_0);
        assert(c.to_bytes() =~= b.subrange(p, p + n));
        assert(b.subrange(p, b.len() as int) =~= b.subrange(p, p + n) + b.subrange(p + n, b.len() as int));
    }
}

/// Round trip from bytes: a file that reads successfully is written back
/// byte for byte.
pub proof fn lemma_parse_then_serialize(b: Seq<u8>)
    requires
        parse_png(b) is Ok,
    ensures
        png_bytes(parse_png(b)->Ok_0) == b,
{
    lemma_parse_chunks_bytes(b, 8);
    assert(b =~= b.subrange(0, 8) + b.subrange(8, b.len() as int));
}

/// A well-formed chunk's record at position `p` reads back as that chunk.
proof fn lemma_record_parse(b: Seq<u8>, p: int, c: ChunkModel)
    requires
        c.wf(),
        0 <= p,
        p + c.to_bytes().len() <= b.len(),
        b.subrange(p, p + c.to_bytes().len()) == c.to_bytes(),
    ensures
        parse_chunk_at(b, p) == Ok::<(ChunkModel, int), PngError>((c, 12 + c.data.len() as int)),
{
    let d: int = c.data.len() as int;
    let rb = c.to_bytes();
    lemma_be_bytes_value(c.data.len() as u32);
    lemma_be_bytes_value(c.crc);
    assert(rb.subrange(0, 4) =~= be_bytes(c.data.len() as u32));
    assert(be_value(b, p) == be_value(rb, 0));
    assert(rb.subrange(8 + d, 12 + d) =~= be_bytes(c.crc));
    assert(be_value(b, p + 8 + d) == be_value(be_bytes(c.crc), 0));
    assert(rb.subrange(4, 8) =~= c.kind);
    assert(rb.subrange(8, 8 + d) =~= c.data);
    assert(b.subrange(p + 4, p + 8) =~= rb.subrange(4, 8));
    assert(b.subrange(p + 8, p + 8 + d) =~= rb.subrange(8, 8 + d));
}

/// Well-formed chunks written from position `p` on are read back as they were.
pub proof fn lemma_chunks_bytes_parse(b: Seq<u8>, p: int, cs: Seq<ChunkModel>)
    requires
        0 <= p <= b.len(),
        b.subrange(p, b.len() as int) == chunks_bytes(cs),
        forall|i: int| 0 <= i < cs.len() ==> (#[trigger] cs[i]).wf(),
    ensures
        parse_chunks_from(b, p) == Ok::<Seq<ChunkModel>, PngError>(cs),
    decreases cs.len(),
{
    if cs.len() == 0 {
        assert(b.subrange(p, b.len() as int).len() == 0);
        assert(cs =~= Seq::<ChunkModel>::empty());
    } else {
        let c = cs[0];
        assert(c.wf());
        let rb = c.to_bytes();
        let n: int = rb.len() as int;
        let tail = chunks_bytes(cs.drop_first());
        let rest = b.subrange(p, b.len() as int);
        assert(rest == rb + tail);
        assert(b.subrange(p, p + n) =~= rest.subrange(0, n));
        assert(rest.subrange(0, n) =~= rb);
        assert(b.subrange(p + n, b.len() as int) =~= rest.subrange(n, rest.len() as int));
        assert(rest.subrange(n, rest.len() as int) =~= tail);
        lemma_record_parse(b, p, c);
        lemma_chunks_bytes_parse(b, p + n, cs.drop_first());
        assert(seq![c] + cs.drop_first() =~= cs);
    }
}

/// Round trip from chunks: the file written for well-formed chunks reads
/// back as the same chunks.
pub proof fn lemma_serialize_then_parse(cs: Seq<ChunkModel>)
    requires
        forall|i: int| 0 <= i < cs.len() ==> (#[trigger] cs[i]).wf(),
    ensures
        parse_png(png_bytes(cs)) == Ok::<Seq<ChunkModel>, PngError>(cs),
{
    let b = png_bytes(cs);
    assert(b.subrange(0, 8) =~= signature());
    assert(b.subrange(8, b.len() as int) =~= chunks_bytes(cs));
    lemma_chunks_bytes_parse(b, 8, cs);
}

/// A buffer that is shorter than the signature or opens otherwise fails with
/// a `Signature` error, whatever follows.
pub proof fn lemma_bad_signature(b: Seq<u8>)
    requires
        b.len() < 8 || b.subrange(0, 8) != signature(),
    ensures
        parse_png(b) == Err::<Seq<ChunkModel>, PngError>(PngError::Signature),
{
}

/// The signature alone reads as a file with no chunks, and a file with no
/// chunks is written as the signature alone.
pub proof fn lemma_empty_file()
    ensures
        parse_png(signature()) == Ok::<Seq<ChunkModel>, PngError>(Seq::empty()),
        png_bytes(Seq::empty()) == signature(),
{
    assert(signature().subrange(0, 8) =~= signature());
    assert(png_bytes(Seq::empty()) =~= signature());
}

/// Lookups by type are repeatable: there is one first chunk of a type, so two
/// lookups on the same chunks find the same one.
pub proof fn lemma_first_of_type_unique(cs: Seq<ChunkModel>, t: Seq<char>, i: int, j: int)
    requires
        is_first_of_type(cs, t, i),
        is_first_of_type(cs, t, j),
    ensures
        i == j,
{
    if i < j {
        assert(!type_matches(cs[i], t));
    } else if j < i {
        assert(!type_matches(cs[j], t));
    }
}

/// Removing a type right after appending a chunk of it, where no other chunk
/// has that type, takes out that chunk and leaves the chunks as they were.
pub proof fn lemma_append_then_remove(cs: Seq<ChunkModel>, c: ChunkModel, t: Seq<char>)
    requires
        type_matches(c, t),
        !has_type(cs, t),
    ensures
        has_type(cs.push(c), t),
        is_first_of_type(cs.push(c), t, cs.len() as int),
        forall|i: int| is_first_of_type(cs.push(c), t, i) ==> i == cs.len(),
        cs.push(c)[cs.len() as int] == c,
        cs.push(c).remove(cs.len() as int) == cs,
{
    let s = cs.push(c);
    assert(type_matches(s[cs.len() as int], t));
    assert forall|j: int| 0 <= j < cs.len() implies !type_matches(#[trigger] s[j], t) by {
        assert(s[j] == cs[j]);
        if type_matches(cs[j], t) {
            assert(has_type(cs, t));
        }
    }
    assert forall|i: int| is_first_of_type(s, t, i) implies i == cs.len() by {
        lemma_first_of_type_unique(s, t, i, cs.len() as int);
    }
    assert(s.remove(cs.len() as int) =~= cs);
}

/// A PNG file: the signature, then an ordered sequence of chunks.
pub struct Png {
    chunks: Vec<Chunk>,
}

impl View for Png {
    type V = Seq<ChunkModel>;

    closed spec fn view(&self) -> Seq<ChunkModel> {
        self.chunks@.map_values(|c: Chunk| c@)
    }
}

impl Png {
    /// The signature of every PNG file.
    pub fn header() -> (r: [u8; 8])
        ensures
            r@ == signature(),
    {
        let r: [u8; 8] = [137, 80, 78, 71, 13, 10, 26, 10];
        assert(r@ =~= signature());
        r
    }

    /// A file of the signature and the given chunks, in order.
    pub fn from_chunks(chunks: Vec<Chunk>) -> (r: Png)
        ensures
            r@ == chunks@.map_values(|c: Chunk| c@),
    {
        Png { chunks }
    }

    /// Reads a whole file: a `Signature` error unless it opens with the
    /// signature, then each chunk record in turn to the end, failing on the
    /// first record that does not read.
    pub fn try_from(bytes: &[u8]) -> (r: Result<Png, PngError>)
        ensures
            match parse_png(bytes@) {
                Ok(cs) => r matches Ok(png) && png@ == cs,
                Err(e) => r == Err::<Png, PngError>(e),
            },
    {
        let ghost b = bytes@;
        let len = bytes.len();
        let header = Png::header();
        if len < 8 {
            return Err(PngError::Signature);
        }
        let mut i: usize = 0;
        while i < 8
            invariant
                0 <= i <= 8 <= len == b.len(),
                b == bytes@,
                header@ == signature(),
                forall|j: int| 0 <= j < i ==> b[j] == #[trigger] signature()[j],
            decreases 8 - i,
        {
            if bytes[i] != header[i] {
                assert(b.subrange(0, 8)[i as int] != signature()[i as int]);
                return Err(PngError::Signature);
            }
            i = i + 1;
        }
        assert(b.subrange(0, 8) =~= signature());
        let mut chunks: Vec<Chunk> = Vec::new();
        let mut p: usize = 8;
        while p < len
            invariant
                8 <= p <= len == b.len(),
                b == bytes@,
                b.subrange(0, 8) == signature(),
                parse_png(b) == prepend(chunks@.map_values(|c: Chunk| c@), parse_chunks_from(b, p as int)),
            decreases len - p,
        {
            let ghost acc = chunks@.map_values(|c: Chunk| c@);
            match Chunk::parse_at(bytes, p) {
                Err(e) => {
                    return Err(e);
                },
                Ok((c, n)) => {
                    let ghost q = p + n;
                    proof {
                        let next = parse_chunks_from(b, q);
                        if next is Ok {
                            let rest = next->Ok_0;
                            assert(acc + (seq![c@] + rest) =~= acc.push(c@) + rest);
                        }
                        assert(prepend(acc, parse_chunks_from(b, p as int)) == prepend(acc.push(c@), next));
                    }
                    chunks.push(c);
                    p = p + n;
                    assert(chunks@.map_values(|c: Chunk| c@) =~= acc.push(c@));
                },
            }
        }
        assert(chunks@.map_values(|c: Chunk| c@) + Seq::<ChunkModel>::empty() =~= chunks@.map_values(|c: Chunk| c@));
        Ok(Png { chunks })
    }

    /// The file: the signature, then each chunk's record in order.
    pub fn as_bytes(&self) -> (r: Vec<u8>)
        ensures
            r@ == png_bytes(self@),
    {
        let header = Png::header();
        let mut out: Vec<u8> = Vec::new();
        let mut i: usize = 0;
        while i < 8
            invariant
                0 <= i <= 8,
                header@ == signature(),
                out@ == signature().subrange(0, i as int),
            decreases 8 - i,
        {
            out.push(header[i]);
            i = i + 1;
            assert(out@ =~= signature().subrange(0, i as int));
        }
        assert(signature().subrange(0, 8) =~= signature());
        let mut k: usize = 0;
        while k < self.chunks.len()
            invariant
                0 <= k <= self.chunks@.len(),
                out@ == signature() + chunks_bytes(self@.take(k as int)),
            decreases self.chunks@.len() - k,
        {
            let record = self.chunks[k].as_bytes();
            let mut j: usize = 0;
            let ghost before = out@;
            while j < record.len()
                invariant
                    0 <= j <= record@.len(),
                    out@ == before + record@.take(j as int),
                decreases record@.len() - j,
            {
                out.push(record[j]);
                j = j + 1;
                assert(out@ =~= before + record@.take(j as int));
            }
            proof {
                assert(self@.take(k + 1) =~= self@.take(k as int).push(self@[k as int]));
                lemma_chunks_bytes_push(self@.take(k as int), self@[k as int]);
                assert(record@.take(j as int) =~= record@);
            }
            k = k + 1;
            assert(out@ =~= signature() + chunks_bytes(self@.take(k as int)));
        }
        assert(self@.take(k as int) =~= self@);
        out
    }

    /// Adds a chunk after the last one.
    pub fn append_chunk(&mut self, chunk: Chunk)
        ensures
            final(self)@ == old(self)@.push(chunk@),
    {
        self.chunks.push(chunk);
        assert(self.chunks@.map_values(|c: Chunk| c@) =~= old(self)@.push(chunk@));
    }

    /// The chunks, in order.
    pub fn chunks(&self) -> (r: &[Chunk])
        ensures
            r@.map_values(|c: Chunk| c@) == self@,
    {
        self.chunks.as_slice()
    }

    /// The position of the first chunk whose type, rendered as text, is
    /// `chunk_type`, if there is one.
    fn position_of_type(&self, chunk_type: &str) -> (r: Option<usize>)
        ensures
            r is Some <==> has_type(self@, chunk_type@),
            r matches Some(i) ==> is_first_of_type(self@, chunk_type@, i as int),
    {
        let target = chunk_type.to_owned();
        let mut i: usize = 0;
        while i < self.chunks.len()
            invariant
                0 <= i <= self.chunks@.len(),
                target@ == chunk_type@,
                forall|j: int| 0 <= j < i ==> !type_matches(#[trigger] self@[j], chunk_type@),
            decreases self.chunks@.len() - i,
        {
            let name = self.chunks[i].chunk_type().to_string();
            if name == target {
                assert(type_matches(self@[i as int], chunk_type@));
                return Some(i);
            }
            i = i + 1;
        }
        None
    }

    /// The first chunk whose type, rendered as text, is `chunk_type`
    /// (case-sensitive), if there is one.
    pub fn chunk_by_type(&self, chunk_type: &str) -> (r: Option<&Chunk>)
        ensures
            r is Some <==> has_type(self@, chunk_type@),
            r matches Some(c) ==> exists|i: int|
                is_first_of_type(self@, chunk_type@, i) && c@ == #[trigger] self@[i],
    {
        match self.position_of_type(chunk_type) {
            Some(i) => Some(&self.chunks[i]),
            None => None,
        }
    }

    /// Takes out the first chunk whose type, rendered as text, is
    /// `chunk_type`; a `NotFound` error, and no change, where there is none.
    pub fn remove_chunk(&mut self, chunk_type: &str) -> (r: Result<Chunk, PngError>)
        ensures
            r is Ok <==> has_type(old(self)@, chunk_type@),
            r is Err ==> r == Err::<Chunk, PngError>(PngError::NotFound) && final(self)@ == old(self)@,
            r matches Ok(c) ==> exists|i: int|
                is_first_of_type(old(self)@, chunk_type@, i) && c@ == #[trigger] old(self)@[i]
                    && final(self)@ == old(self)@.remove(i),
    {
        match self.position_of_type(chunk_type) {
            Some(i) => {
                let c = self.chunks.remove(i);
                assert(self.chunks@.map_values(|c: Chunk| c@) =~= old(self)@.remove(i as int));
                Ok(c)
            },
            None => Err(PngError::NotFound),
        }
    }
}

} // verus!
