use crate::chunk_type::ChunkType;
use crate::error::PngError;
use vstd::prelude::*;
use vstd::utf8::{decode_utf8, valid_utf8};

verus! {

/// The name of the CRC-32 (IEEE polynomial, as PNG uses it) of a byte sequence.
pub uninterp spec fn crc32_of(b: Seq<u8>) -> u32;

/// Relies on `crc::Crc::<u32>::checksum` with the `CRC_32_ISO_HDLC` parameters,
/// the CRC-32 that PNG specifies; the result depends on the bytes alone.
#[verifier::external_body]
fn checksum(b: &[u8]) -> (r: u32)
    ensures
        r == crc32_of(b@),
{
    crc::Crc::<u32>::new(&crc::CRC_32_ISO_HDLC).checksum(b)
}

/// Relies on `String::from_utf8`: it succeeds exactly when the bytes are
/// valid UTF-8, and then holds the text they encode.
#[verifier::external_body]
fn utf8_string(b: Vec<u8>) -> (r: Option<String>)
    ensures
        r is Some <==> valid_utf8(b@),
        r matches Some(s) ==> s@ == decode_utf8(b@),
{
    String::from_utf8(b).ok()
}

/// The four big-endian bytes of `n`.
pub open spec fn be_bytes(n: u32) -> Seq<u8> {
    seq![
        (n / 0x1000000) as u8,
        ((n / 0x10000) % 0x100) as u8,
        ((n / 0x100) % 0x100) as u8,
        (n % 0x100) as u8,
    ]
}

/// The big-endian number held by the four bytes of `b` from position `p` on.
pub open spec fn be_value(b: Seq<u8>, p: int) -> int {
    b[p] as int * 0x1000000 + b[p + 1] as int * 0x10000 + b[p + 2] as int * 0x100 + b[p + 3] as int
}

/// What a chunk holds: its type bytes, its data and its stored CRC.
pub struct ChunkModel {
    pub kind: Seq<u8>,
    pub data: Seq<u8>,
    pub crc: u32,
}

impl ChunkModel {
    /// A four-byte type, data whose length fits the length field, and a CRC
    /// that matches the type and data.
    pub open spec fn wf(self) -> bool {
        &&& self.kind.len() == 4
        &&& self.data.len() <= u32::MAX
        &&& self.crc == crc32_of(self.kind + self.data)
    }

    /// The record: length, type, data and CRC, integers big-endian.
    pub open spec fn to_bytes(self) -> Seq<u8> {
        be_bytes(self.data.len() as u32) + self.kind + self.data + be_bytes(self.crc)
    }
}

/// Reads the chunk record that starts at position `p` of `b`; on success
/// gives the chunk and the number of bytes the record takes.
pub open spec fn parse_chunk_at(b: Seq<u8>, p: int) -> Result<(ChunkModel, int), PngError> {
    if b.len() - p < 12 {
        Err(PngError::Format)
    } else if b.len() - p - 12 < be_value(b, p) {
        Err(PngError::Format)
    } else {
        let n = be_value(b, p);
        let kind = b.subrange(p + 4, p + 8);
        let data = b.subrange(p + 8, p + 8 + n);
        let crc = be_value(b, p + 8 + n) as u32;
        if crc != crc32_of(kind + data) {
            Err(PngError::Checksum)
        } else {
            Ok((ChunkModel { kind, data, crc }, 12 + n))
        }
    }
}

/// A record whose length field fits the buffer, but whose stored CRC differs
/// from the CRC of its type and data, fails with a `Checksum` error.
pub proof fn lemma_checksum_mismatch(b: Seq<u8>, p: int)
    requires
        0 <= p,
        p + 12 + be_value(b, p) <= b.len(),
        be_value(b, p + 8 + be_value(b, p)) != crc32_of(
            b.subrange(p + 4, p + 8) + b.subrange(p + 8, p + 8 + be_value(b, p)),
        ),
    ensures
        parse_chunk_at(b, p) == Err::<(ChunkModel, int), PngError>(PngError::Checksum),
{
    lemma_be_value_bytes(b, p + 8 + be_value(b, p));
}

/// The bytes of a big-endian 32-bit field read back give the number written.
pub proof fn lemma_be_bytes_value(n: u32)
    ensures
        be_bytes(n).len() == 4,
        be_value(be_bytes(n), 0) == n,
{
    let b = be_bytes(n);
    assert(be_value(b, 0) == n) by (nonlinear_arith)
        requires
            b[0] == (n / 0x1000000) as u8,
            b[1] == ((n / 0x10000) % 0x100) as u8,
            b[2] == ((n / 0x100) % 0x100) as u8,
            b[3] == (n % 0x100) as u8,
            n <= u32::MAX,
    ;
}

/// Four bytes read as a big-endian number and written back give the same bytes.
pub proof fn lemma_be_value_bytes(b: Seq<u8>, p: int)
    requires
        0 <= p,
        p + 4 <= b.len(),
    ensures
        0 <= be_value(b, p) <= u32::MAX,
        be_bytes(be_value(b, p) as u32) == b.subrange(p, p + 4),
{
    let v = be_value(b, p);
    let (b0, b1, b2, b3) = (b[p] as int, b[p + 1] as int, b[p + 2] as int, b[p + 3] as int);
    assert(0 <= v <= u32::MAX && v / 0x1000000 == b0 && (v / 0x10000) % 0x100 == b1 && (v / 0x100)
        % 0x100 == b2 && v % 0x100 == b3) by (nonlinear_arith)
        requires
            v == b0 * 0x1000000 + b1 * 0x10000 + b2 * 0x100 + b3,
            0 <= b0 < 256,
            0 <= b1 < 256,
            0 <= b2 < 256,
            0 <= b3 < 256,
    ;
    assert(be_bytes(v as u32) =~= b.subrange(p, p + 4));
}

/// Reads the big-endian number at position `p` of `b`.
fn read_be(b: &[u8], p: usize) -> (r: u32)
    requires
        p + 4 <= b@.len(),
    ensures
        r == be_value(b@, p as int),
{
    proof {
        lemma_be_value_bytes(b@, p as int);
    }
    (b[p] as u32) * 0x1000000 + (b[p + 1] as u32) * 0x10000 + (b[p + 2] as u32) * 0x100 + (b[p
        + 3] as u32)
}

/// Appends the four big-endian bytes of `n` to `out`.
fn push_be(out: &mut Vec<u8>, n: u32)
    ensures
        final(out)@ == old(out)@ + be_bytes(n),
{
    out.push((n / 0x1000000) as u8);
    out.push(((n / 0x10000) % 0x100) as u8);
    out.push(((n / 0x100) % 0x100) as u8);
    out.push((n % 0x100) as u8);
    assert(final(out)@ =~= old(out)@ + be_bytes(n));
}

/// Appends `src[from..to]` to `out`.
fn push_range(out: &mut Vec<u8>, src: &[u8], from: usize, to: usize)
    requires
        from <= to <= src@.len(),
    ensures
        final(out)@ == old(out)@ + src@.subrange(from as int, to as int),
{
    let mut i: usize = from;
    while i < to
        invariant
            from <= i <= to <= src@.len(),
            out@ == old(out)@ + src@.subrange(from as int, i as int),
        decreases to - i,
    {
        out.push(src[i]);
        i = i + 1;
        assert(out@ =~= old(out)@ + src@.subrange(from as int, i as int));
    }
}

/// One chunk: a type code, its data and the CRC of both.
pub struct Chunk {
    chunk_type: ChunkType,
    data: Vec<u8>,
    crc: u32,
}

impl View for Chunk {
    type V = ChunkModel;

    closed spec fn view(&self) -> ChunkModel {
        ChunkModel { kind: self.chunk_type.spec_bytes(), data: self.data@, crc: self.crc }
    }
}

impl Chunk {
    #[verifier::type_invariant]
    spec fn inv(&self) -> bool {
        self@.wf()
    }

    /// Makes a chunk of a type and data, with a freshly computed CRC.
    pub fn new(chunk_type: ChunkType, data: Vec<u8>) -> (r: Chunk)
        requires
            data@.len() <= u32::MAX,
        ensures
            r@ == (ChunkModel {
                kind: chunk_type.spec_bytes(),
                data: data@,
                crc: crc32_of(chunk_type.spec_bytes() + data@),
            }),
    {
        let kind = chunk_type.bytes();
        let mut covered: Vec<u8> = Vec::new();
        push_range(&mut covered, kind.as_slice(), 0, 4);
        push_range(&mut covered, data.as_slice(), 0, data.len());
        assert(covered@ =~= chunk_type.spec_bytes() + data@);
        let crc = checksum(covered.as_slice());
        Chunk { chunk_type, data, crc }
    }

    /// Reads the chunk record that starts at position `p` of `bytes`,
    /// checking its CRC.
    pub(crate) fn parse_at(bytes: &[u8], p: usize) -> (r: Result<(Chunk, usize), PngError>)
        requires
            p <= bytes@.len(),
        ensures
            match parse_chunk_at(bytes@, p as int) {
                Ok((m, n)) => r matches Ok((c, k)) && c@ == m && k == n,
                Err(e) => r == Err::<(Chunk, usize), PngError>(e),
            },
    {
        let len = bytes.len();
        if len - p < 12 {
            return Err(PngError::Format);
        }
        let n = read_be(bytes, p);
        if ((len - p - 12) as u64) < n as u64 {
            return Err(PngError::Format);
        }
        let n = n as usize;
        let mut covered: Vec<u8> = Vec::new();
        push_range(&mut covered, bytes, p + 4, p + 8 + n);
        let mut data: Vec<u8> = Vec::new();
        push_range(&mut data, bytes, p + 8, p + 8 + n);
        let stored = read_be(bytes, p + 8 + n);
        let ghost b = bytes@;
        assert(covered@ =~= b.subrange(p + 4, p + 8) + b.subrange(p + 8, p + 8 + n));
        if stored != checksum(covered.as_slice()) {
            return Err(PngError::Checksum);
        }
        let chunk_type = ChunkType::from_bytes([bytes[p + 4], bytes[p + 5], bytes[p + 6], bytes[p + 7]]);
        assert(chunk_type.spec_bytes() =~= b.subrange(p + 4, p + 8));
        Ok((Chunk { chunk_type, data, crc: stored }, 12 + n))
    }

    /// Reads the chunk record at the start of `bytes`: a big-endian length,
    /// four type bytes, that many data bytes and a big-endian CRC. Gives the
    /// chunk and the number of bytes the record takes.
    pub fn parse(bytes: &[u8]) -> (r: Result<(Chunk, usize), PngError>)
        ensures
            match parse_chunk_at(bytes@, 0) {
                Ok((m, n)) => r matches Ok((c, k)) && c@ == m && k == n,
                Err(e) => r == Err::<(Chunk, usize), PngError>(e),
            },
    {
        Chunk::parse_at(bytes, 0)
    }

    /// The length of the data, not counting type and CRC.
    pub fn length(&self) -> (r: u32)
        ensures
            r == self@.data.len(),
    {
        proof {
            use_type_invariant(self);
        }
        self.data.len() as u32
    }

    pub fn chunk_type(&self) -> (r: &ChunkType)
        ensures
            r.spec_bytes() == self@.kind,
    {
        &self.chunk_type
    }

    pub fn data(&self) -> (r: &[u8])
        ensures
            r@ == self@.data,
    {
        self.data.as_slice()
    }

    pub fn crc(&self) -> (r: u32)
        ensures
            r == self@.crc,
    {
        self.crc
    }

    /// The data as UTF-8 text; an `Encoding` error where it is not UTF-8.
    pub fn data_as_string(&self) -> (r: Result<String, PngError>)
        ensures
            r is Ok <==> valid_utf8(self@.data),
            r matches Ok(s) ==> s@ == decode_utf8(self@.data),
            r is Err ==> r == Err::<String, PngError>(PngError::Encoding),
    {
        match utf8_string(self.data.clone()) {
            Some(s) => Ok(s),
            None => Err(PngError::Encoding),
        }
    }

    /// The record of this chunk: length, type, data and CRC.
    pub fn as_bytes(&self) -> (r: Vec<u8>)
        ensures
            r@ == self@.to_bytes(),
    {
        proof {
            use_type_invariant(self);
        }
        let mut out: Vec<u8> = Vec::new();
        push_be(&mut out, self.data.len() as u32);
        let kind = self.chunk_type.bytes();
        push_range(&mut out, kind.as_slice(), 0, 4);
        push_range(&mut out, self.data.as_slice(), 0, self.data.len());
        push_be(&mut out, self.crc);
        assert(out@ =~= self@.to_bytes());
        out
    }
}

} // verus!
