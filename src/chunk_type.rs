use crate::error::PngError;
use vstd::prelude::*;
use vstd::string::StrSliceExecFns;

verus! {

/// Whether `b` is an ASCII letter, `A`-`Z` or `a`-`z`.
pub open spec fn is_ascii_letter(b: u8) -> bool {
    (65 <= b <= 90) || (97 <= b <= 122)
}

/// Whether the character `c` is an ASCII letter.
pub open spec fn is_ascii_letter_char(c: char) -> bool {
    ('A' <= c <= 'Z') || ('a' <= c <= 'z')
}

/// Whether bit 5 (value 32) of `b` is set.
pub open spec fn bit5_set(b: u8) -> bool {
    b & 32 != 0
}

/// The name of what `String::from_utf8_lossy` makes of a byte sequence.
pub uninterp spec fn lossy_text(b: Seq<u8>) -> Seq<char>;

/// Whether every byte of `b` is below 128.
pub open spec fn all_ascii(b: Seq<u8>) -> bool {
    forall|i: int| 0 <= i < b.len() ==> b[i] < 128
}

/// Relies on `String::from_utf8_lossy`: bytes that are valid UTF-8 come back as
/// the text they encode, so ASCII bytes come back one character each.
#[verifier::external_body]
fn lossy_string(b: &[u8]) -> (r: String)
    ensures
        r@ == lossy_text(b@),
        all_ascii(b@) ==> r@ == b@.map_values(|x: u8| x as char),
{
    String::from_utf8_lossy(b).into_owned()
}

/// A four-byte chunk type code, as it stands in a PNG chunk record.
///
/// Bit 5 of each byte carries a property: ancillary (byte 0), private
/// (byte 1), reserved (byte 2) and safe to copy (byte 3).
#[derive(Debug, Default, Clone, Copy, Eq, PartialOrd, Ord)]
pub struct ChunkType {
    bytes: [u8; 4],
}

impl PartialEq for ChunkType {
    fn eq(&self, other: &ChunkType) -> (r: bool) {
        let r = self.bytes[0] == other.bytes[0] && self.bytes[1] == other.bytes[1]
            && self.bytes[2] == other.bytes[2] && self.bytes[3] == other.bytes[3];
        proof {
            if r {
                assert(self.bytes@ =~= other.bytes@);
            }
        }
        r
    }
}

impl vstd::std_specs::cmp::PartialEqSpecImpl for ChunkType {
    open spec fn obeys_eq_spec() -> bool {
        true
    }

    open spec fn eq_spec(&self, other: &ChunkType) -> bool {
        self.spec_bytes() == other.spec_bytes()
    }
}

impl ChunkType {
    /// The four bytes of the code.
    pub closed spec fn spec_bytes(&self) -> Seq<u8> {
        self.bytes@
    }

    /// The code rendered as text, as `to_string` returns it.
    pub open spec fn spec_string(&self) -> Seq<char> {
        lossy_text(self.spec_bytes())
    }

    pub open spec fn spec_is_critical(&self) -> bool {
        !bit5_set(self.spec_bytes()[0])
    }

    pub open spec fn spec_is_public(&self) -> bool {
        !bit5_set(self.spec_bytes()[1])
    }

    pub open spec fn spec_is_reserved_bit_valid(&self) -> bool {
        !bit5_set(self.spec_bytes()[2])
    }

    pub open spec fn spec_is_safe_to_copy(&self) -> bool {
        bit5_set(self.spec_bytes()[3])
    }

    pub open spec fn spec_is_valid(&self) -> bool {
        self.spec_is_reserved_bit_valid()
            && forall|i: int| 0 <= i < 4 ==> is_ascii_letter(#[trigger] self.spec_bytes()[i])
    }

    /// Makes a code of any four bytes; validity is a separate question.
    pub fn try_from(bytes: [u8; 4]) -> (r: Result<ChunkType, PngError>)
        ensures
            r matches Ok(t) && t.spec_bytes() == bytes@,
    {
        Ok(ChunkType { bytes })
    }

    /// Makes a code of any four bytes.
    pub fn from_bytes(bytes: [u8; 4]) -> (r: ChunkType)
        ensures
            r.spec_bytes() == bytes@,
    {
        ChunkType { bytes }
    }

    /// Parses a code of exactly four ASCII letters, keeping their case.
    pub fn from_str(s: &str) -> (r: Result<ChunkType, PngError>)
        ensures
            (s@.len() == 4 && forall|i: int| 0 <= i < 4 ==> is_ascii_letter_char(#[trigger] s@[i]))
                <==> r is Ok,
            r is Err ==> r == Err::<ChunkType, PngError>(PngError::Format),
            r matches Ok(t) ==> t.spec_bytes() == s@.map_values(|c: char| c as u8),
    {
        if s.unicode_len() != 4 {
            return Err(PngError::Format);
        }
        let mut bytes: [u8; 4] = [0; 4];
        let mut i: usize = 0;
        while i < 4
            invariant
                s@.len() == 4,
                0 <= i <= 4,
                bytes@.len() == 4,
                forall|j: int| 0 <= j < i ==> is_ascii_letter_char(#[trigger] s@[j]),
                forall|j: int| 0 <= j < i ==> #[trigger] bytes@[j] == s@[j] as u8,
            decreases 4 - i,
        {
            let c = s.get_char(i);
            if !(('A' <= c && c <= 'Z') || ('a' <= c && c <= 'z')) {
                return Err(PngError::Format);
            }
            bytes[i] = c as u8;
            i = i + 1;
        }
        assert(bytes@ =~= s@.map_values(|c: char| c as u8));
        Ok(ChunkType { bytes })
    }

    pub fn bytes(&self) -> (r: [u8; 4])
        ensures
            r@ == self.spec_bytes(),
    {
        self.bytes
    }

    /// Checks whether the chunk is valid: its reserved bit is clear and all
    /// four bytes are ASCII letters.
    pub fn is_valid(&self) -> (r: bool)
        ensures
            r == self.spec_is_valid(),
    {
        let mut i: usize = 0;
        while i < 4
            invariant
                0 <= i <= 4,
                forall|j: int| 0 <= j < i ==> is_ascii_letter(#[trigger] self.bytes@[j]),
            decreases 4 - i,
        {
            let b = self.bytes[i];
            if !((65 <= b && b <= 90) || (97 <= b && b <= 122)) {
                return false;
            }
            i = i + 1;
        }
        self.is_reserved_bit_valid()
    }

    /// Indicates whether the chunk is critical, that is necessary to display
    /// the image; ancillary chunks may be ignored.
    pub fn is_critical(&self) -> (r: bool)
        ensures
            r == self.spec_is_critical(),
    {
        self.bytes[0] & 32 == 0
    }

    /// Indicates whether the chunk type is part of the PNG standard.
    pub fn is_public(&self) -> (r: bool)
        ensures
            r == self.spec_is_public(),
    {
        self.bytes[1] & 32 == 0
    }

    /// Checks that the reserved bit of the type code is clear.
    pub fn is_reserved_bit_valid(&self) -> (r: bool)
        ensures
            r == self.spec_is_reserved_bit_valid(),
    {
        self.bytes[2] & 32 == 0
    }

    /// Indicates whether the chunk may be copied by editors that do not
    /// know its type.
    pub fn is_safe_to_copy(&self) -> (r: bool)
        ensures
            r == self.spec_is_safe_to_copy(),
    {
        self.bytes[3] & 32 != 0
    }

    /// The code as text; bytes that are not UTF-8 become replacement
    /// characters.
    pub fn to_string(&self) -> (r: String)
        ensures
            r@ == self.spec_string(),
            all_ascii(self.spec_bytes()) ==> r@ == self.spec_bytes().map_values(|x: u8| x as char),
    {
        lossy_string(self.bytes.as_slice())
    }
}

} // verus!
