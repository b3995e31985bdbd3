use pngme::chunk::Chunk;
use pngme::chunk_type::ChunkType;
use pngme::error::PngError;
use pngme::png::Png;

const SIGNATURE: [u8; 8] = [137, 80, 78, 71, 13, 10, 26, 10];

fn chunk(kind: &str, data: &str) -> Chunk {
    Chunk::new(ChunkType::from_str(kind).unwrap(), data.as_bytes().to_vec())
}

fn sample() -> Png {
    Png::from_chunks(vec![
        chunk("FrSt", "I am the first chunk"),
        chunk("miDl", "I am another chunk"),
        chunk("LASt", "I am the last chunk"),
    ])
}

#[test]
fn header_is_the_png_signature() {
    assert_eq!(Png::header(), SIGNATURE);
}

#[test]
fn signature_alone_is_an_empty_file() {
    let png = Png::try_from(&SIGNATURE).unwrap();
    assert_eq!(png.chunks().len(), 0);
    assert_eq!(png.as_bytes(), SIGNATURE.to_vec());
}

#[test]
fn bad_signature_is_rejected_even_with_good_chunks() {
    let mut bytes = vec![13, 80, 78, 71, 13, 10, 26, 10];
    bytes.extend(chunk("RuSt", "hello").as_bytes());
    assert!(matches!(Png::try_from(&bytes), Err(PngError::Signature)));
}

#[test]
fn short_input_is_a_signature_error() {
    assert!(matches!(Png::try_from(&SIGNATURE[..7]), Err(PngError::Signature)));
    assert!(matches!(Png::try_from(&[]), Err(PngError::Signature)));
}

#[test]
fn as_bytes_is_signature_then_records() {
    let png = sample();
    let mut expected = SIGNATURE.to_vec();
    for c in png.chunks() {
        expected.extend(c.as_bytes());
    }
    assert_eq!(png.as_bytes(), expected);
}

#[test]
fn written_file_reads_back_and_writes_the_same() {
    let bytes = sample().as_bytes();
    let png = Png::try_from(&bytes).unwrap();
    assert_eq!(png.chunks().len(), 3);
    assert_eq!(png.chunks()[1].data_as_string().unwrap(), "I am another chunk");
    assert_eq!(png.as_bytes(), bytes);
}

#[test]
fn a_bad_chunk_fails_the_whole_file() {
    let mut bytes = sample().as_bytes();
    let last = bytes.len() - 1;
    bytes[last] ^= 1;
    assert!(matches!(Png::try_from(&bytes), Err(PngError::Checksum)));
    let bytes = sample().as_bytes();
    assert!(matches!(Png::try_from(&bytes[..bytes.len() - 2]), Err(PngError::Format)));
}

#[test]
fn chunk_by_type_finds_the_first_match() {
    let mut png = sample();
    png.append_chunk(chunk("miDl", "second of its type"));
    let found = png.chunk_by_type("miDl").unwrap();
    assert_eq!(found.data_as_string().unwrap(), "I am another chunk");
    assert!(png.chunk_by_type("midl").is_none());
    assert!(png.chunk_by_type("none").is_none());
}

#[test]
fn chunk_by_type_is_repeatable_and_leaves_the_file() {
    let png = sample();
    let before = png.as_bytes();
    let a = png.chunk_by_type("LASt").unwrap().as_bytes();
    let b = png.chunk_by_type("LASt").unwrap().as_bytes();
    assert_eq!(a, b);
    assert_eq!(png.as_bytes(), before);
}

#[test]
fn append_adds_at_the_end() {
    let mut png = sample();
    png.append_chunk(chunk("TeSt", "Message"));
    assert_eq!(png.chunks().len(), 4);
    assert_eq!(png.chunks()[3].chunk_type().to_string(), "TeSt");
}

#[test]
fn remove_right_after_append_restores_the_file() {
    let mut png = sample();
    let before = png.as_bytes();
    let added = chunk("TeSt", "Message");
    let added_bytes = added.as_bytes();
    png.append_chunk(added);
    let removed = png.remove_chunk("TeSt").unwrap();
    assert_eq!(removed.as_bytes(), added_bytes);
    assert_eq!(png.as_bytes(), before);
}

#[test]
fn remove_takes_the_first_of_two() {
    let mut png = sample();
    png.append_chunk(chunk("FrSt", "later"));
    let removed = png.remove_chunk("FrSt").unwrap();
    assert_eq!(removed.data_as_string().unwrap(), "I am the first chunk");
    assert_eq!(png.chunks().len(), 3);
    assert_eq!(png.chunks()[2].data_as_string().unwrap(), "later");
}

#[test]
fn remove_of_a_missing_type_changes_nothing() {
    let mut png = sample();
    let before = png.as_bytes();
    assert!(matches!(png.remove_chunk("NoNe"), Err(PngError::NotFound)));
    assert_eq!(png.as_bytes(), before);
}
