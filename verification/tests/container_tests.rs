use pngme::FormatError;
use pngme::chunk::Chunk;
use pngme::chunk_type::ChunkType;
use pngme::container::Container;

const PREAMBLE: [u8; 8] = [137, 80, 78, 71, 13, 10, 26, 10];

fn chunk_of(type_text: &str, message: &str) -> Chunk {
    Chunk::new(
        ChunkType::from_text(type_text).unwrap(),
        message.as_bytes().to_vec(),
    )
}

fn testing_container() -> Container {
    let mut container = Container::new();
    container.append_chunk(chunk_of("FrSt", "I am the first chunk"));
    container.append_chunk(chunk_of("miDl", "I am another chunk"));
    container.append_chunk(chunk_of("LASt", "I am the last chunk"));
    container
}

#[test]
fn test_empty_container_round_trip() {
    let container = Container::new();
    let bytes = container.to_bytes();
    assert_eq!(bytes, PREAMBLE.to_vec());
    let parsed = Container::parse(bytes.as_ref()).unwrap();
    assert_eq!(parsed.chunks().len(), 0);
}

#[test]
fn test_container_round_trip() {
    let container = testing_container();
    let bytes = container.to_bytes();
    let parsed = Container::parse(bytes.as_ref()).unwrap();
    assert_eq!(parsed.chunks().len(), 3);
    for (a, b) in container.chunks().iter().zip(parsed.chunks().iter()) {
        assert_eq!(a.length(), b.length());
        assert_eq!(a.chunk_type().bytes(), b.chunk_type().bytes());
        assert_eq!(a.data(), b.data());
        assert_eq!(a.crc(), b.crc());
    }
}

#[test]
fn test_bad_preamble_fails() {
    let container = testing_container();
    let mut bytes = container.to_bytes();
    bytes[0] = 21;
    assert_eq!(
        Container::parse(bytes.as_ref()).unwrap_err(),
        FormatError::BadPreamble
    );
    let short: [u8; 3] = [137, 80, 78];
    assert_eq!(
        Container::parse(&short).unwrap_err(),
        FormatError::BadPreamble
    );
}

#[test]
fn test_trailing_garbage_fails() {
    let container = testing_container();
    let mut bytes = container.to_bytes();
    bytes.push(0);
    assert_eq!(
        Container::parse(bytes.as_ref()).unwrap_err(),
        FormatError::TruncatedInput
    );
}

#[test]
fn test_corrupt_chunk_in_container_fails() {
    let container = testing_container();
    let mut bytes = container.to_bytes();
    let last = bytes.len() - 1;
    bytes[last] = bytes[last].wrapping_add(1);
    assert_eq!(
        Container::parse(bytes.as_ref()).unwrap_err(),
        FormatError::ChecksumMismatch
    );
}

#[test]
fn test_append_then_find_then_remove() {
    let mut container = testing_container();
    container.append_chunk(chunk_of("TeSt", "Message"));

    let found = container.chunk_by_type("TeSt").unwrap();
    assert_eq!(found.chunk_type().to_text(), "TeSt");
    assert_eq!(found.data_as_string().unwrap(), "Message");

    let removed = container.remove_chunk("TeSt").unwrap();
    assert_eq!(removed.data_as_string().unwrap(), "Message");
    assert!(container.chunk_by_type("TeSt").is_none());

    assert_eq!(
        container.remove_chunk("TeSt").unwrap_err(),
        FormatError::ChunkNotFound
    );
}

#[test]
fn test_find_returns_first_match_in_order() {
    let mut container = Container::new();
    container.append_chunk(chunk_of("SAme", "one"));
    container.append_chunk(chunk_of("SAme", "two"));

    let found = container.chunk_by_type("SAme").unwrap();
    assert_eq!(found.data_as_string().unwrap(), "one");

    let removed = container.remove_chunk("SAme").unwrap();
    assert_eq!(removed.data_as_string().unwrap(), "one");
    let still_there = container.chunk_by_type("SAme").unwrap();
    assert_eq!(still_there.data_as_string().unwrap(), "two");
}

#[test]
fn test_remove_keeps_order_of_rest() {
    let mut container = testing_container();
    let removed = container.remove_chunk("miDl").unwrap();
    assert_eq!(removed.chunk_type().to_text(), "miDl");
    let types: Vec<String> = container
        .chunks()
        .iter()
        .map(|c| c.chunk_type().to_text())
        .collect();
    assert_eq!(types, vec![String::from("FrSt"), String::from("LASt")]);
}

#[test]
fn test_find_with_invalid_type_text_is_none() {
    let mut container = testing_container();
    assert!(container.chunk_by_type("no").is_none());
    assert!(container.chunk_by_type("Fr5t").is_none());
    assert_eq!(
        container.remove_chunk("no").unwrap_err(),
        FormatError::ChunkNotFound
    );
}

#[test]
fn test_parse_keeps_chunk_order() {
    let container = testing_container();
    let bytes = container.to_bytes();
    let parsed = Container::parse(bytes.as_ref()).unwrap();
    let types: Vec<String> = parsed
        .chunks()
        .iter()
        .map(|c| c.chunk_type().to_text())
        .collect();
    assert_eq!(
        types,
        vec![
            String::from("FrSt"),
            String::from("miDl"),
            String::from("LASt")
        ]
    );
}
