use pngme::chunk::Chunk;
use pngme::chunk_type::ChunkType;
use pngme::error::PngError;

fn record(length: u32, kind: &[u8], data: &[u8], crc: u32) -> Vec<u8> {
    let mut v = Vec::new();
    v.extend_from_slice(&length.to_be_bytes());
    v.extend_from_slice(kind);
    v.extend_from_slice(data);
    v.extend_from_slice(&crc.to_be_bytes());
    v
}

const MESSAGE: &[u8] = b"This is where your secret message will be!";

#[test]
fn new_computes_the_crc() {
    let t = ChunkType::from_str("RuSt").unwrap();
    let c = Chunk::new(t, MESSAGE.to_vec());
    assert_eq!(c.crc(), 2882656334);
    assert_eq!(c.length(), 42);
    assert_eq!(c.chunk_type().to_string(), "RuSt");
    assert_eq!(c.data(), MESSAGE);
}

#[test]
fn crc_of_an_empty_end_chunk() {
    let t = ChunkType::from_str("IEND").unwrap();
    let c = Chunk::new(t, Vec::new());
    assert_eq!(c.crc(), 0xAE42_6082);
    assert_eq!(c.length(), 0);
}

#[test]
fn as_bytes_writes_the_record() {
    let t = ChunkType::from_str("RuSt").unwrap();
    let c = Chunk::new(t, MESSAGE.to_vec());
    assert_eq!(c.as_bytes(), record(42, b"RuSt", MESSAGE, 2882656334));
}

#[test]
fn parse_reads_a_record_and_reports_its_size() {
    let mut bytes = record(42, b"RuSt", MESSAGE, 2882656334);
    bytes.extend_from_slice(&[1, 2, 3]);
    let (c, n) = Chunk::parse(&bytes).unwrap();
    assert_eq!(n, 54);
    assert_eq!(c.length(), 42);
    assert_eq!(c.chunk_type().bytes(), *b"RuSt");
    assert_eq!(c.data(), MESSAGE);
    assert_eq!(c.crc(), 2882656334);
    assert_eq!(c.data_as_string().unwrap(), "This is where your secret message will be!");
}

#[test]
fn parse_then_write_gives_the_record_back() {
    let bytes = record(42, b"RuSt", MESSAGE, 2882656334);
    let (c, _) = Chunk::parse(&bytes).unwrap();
    assert_eq!(c.as_bytes(), bytes);
}

#[test]
fn parse_rejects_a_bad_crc() {
    let bytes = record(42, b"RuSt", MESSAGE, 2882656333);
    assert!(matches!(Chunk::parse(&bytes), Err(PngError::Checksum)));
}

#[test]
fn parse_rejects_short_input() {
    assert!(matches!(Chunk::parse(&[0, 0, 0, 0, 82, 117, 83, 116, 0, 0, 0]), Err(PngError::Format)));
    assert!(matches!(Chunk::parse(&[]), Err(PngError::Format)));
}

#[test]
fn parse_rejects_a_length_past_the_end() {
    let bytes = record(43, b"RuSt", MESSAGE, 2882656334);
    assert!(matches!(Chunk::parse(&bytes), Err(PngError::Format)));
}

#[test]
fn parse_accepts_type_bytes_that_are_not_letters() {
    let t = ChunkType::from_bytes([49, 50, 51, 52]);
    let c = Chunk::new(t, vec![9, 8, 7]);
    let (back, n) = Chunk::parse(&c.as_bytes()).unwrap();
    assert_eq!(n, 15);
    assert_eq!(back.chunk_type().bytes(), [49, 50, 51, 52]);
}

#[test]
fn every_single_bit_flip_in_type_or_data_is_caught() {
    let bytes = record(42, b"RuSt", MESSAGE, 2882656334);
    for pos in 4..(8 + 42) {
        for bit in 0..8 {
            let mut flipped = bytes.clone();
            flipped[pos] ^= 1 << bit;
            assert!(matches!(Chunk::parse(&flipped), Err(PngError::Checksum)));
        }
    }
}

#[test]
fn every_single_bit_flip_in_the_crc_is_caught() {
    let bytes = record(42, b"RuSt", MESSAGE, 2882656334);
    for pos in (8 + 42)..(12 + 42) {
        for bit in 0..8 {
            let mut flipped = bytes.clone();
            flipped[pos] ^= 1 << bit;
            assert!(matches!(Chunk::parse(&flipped), Err(PngError::Checksum)));
        }
    }
}

#[test]
fn data_as_string_rejects_invalid_utf8() {
    let t = ChunkType::from_str("RuSt").unwrap();
    let c = Chunk::new(t, vec![0xff, 0xfe, 65]);
    assert!(matches!(c.data_as_string(), Err(PngError::Encoding)));
}

#[test]
fn data_as_string_decodes_multibyte_text() {
    let t = ChunkType::from_str("RuSt").unwrap();
    let c = Chunk::new(t, "héllo".as_bytes().to_vec());
    assert_eq!(c.data_as_string().unwrap(), "héllo");
}
