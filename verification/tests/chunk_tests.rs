use pngme::FormatError;
use pngme::chunk::Chunk;
use pngme::chunk_type::ChunkType;

fn testing_chunk_bytes() -> Vec<u8> {
    let data_length: u32 = 42;
    let chunk_type = "RuSt".as_bytes();
    let message_bytes = "This is where your secret message will be!".as_bytes();
    let crc: u32 = 2882656334;

    data_length
        .to_be_bytes()
        .iter()
        .chain(chunk_type.iter())
        .chain(message_bytes.iter())
        .chain(crc.to_be_bytes().iter())
        .copied()
        .collect()
}

fn testing_chunk() -> Chunk {
    Chunk::parse(testing_chunk_bytes().as_ref()).unwrap()
}

#[test]
fn test_new_chunk() {
    let chunk_type = ChunkType::from_text("RuSt").unwrap();
    let data = "This is where your secret message will be!"
        .as_bytes()
        .to_vec();
    let chunk = Chunk::new(chunk_type, data);
    assert_eq!(chunk.length(), 42);
    assert_eq!(chunk.crc(), 2882656334);
}

#[test]
fn test_chunk_length() {
    let chunk = testing_chunk();
    assert_eq!(chunk.length(), 42);
}

#[test]
fn test_chunk_type() {
    let chunk = testing_chunk();
    assert_eq!(chunk.chunk_type().to_text(), String::from("RuSt"));
}

#[test]
fn test_chunk_string() {
    let chunk = testing_chunk();
    let chunk_string = chunk.data_as_string().unwrap();
    let expected_chunk_string = String::from("This is where your secret message will be!");
    assert_eq!(chunk_string, expected_chunk_string);
}

#[test]
fn test_chunk_crc() {
    let chunk = testing_chunk();
    assert_eq!(chunk.crc(), 2882656334);
}

#[test]
fn test_valid_chunk_from_bytes() {
    let data_length: u32 = 42;
    let chunk_type = "RuSt".as_bytes();
    let message_bytes = "This is where your secret message will be!".as_bytes();
    let crc: u32 = 2882656334;

    let chunk_data: Vec<u8> = data_length
        .to_be_bytes()
        .iter()
        .chain(chunk_type.iter())
        .chain(message_bytes.iter())
        .chain(crc.to_be_bytes().iter())
        .copied()
        .collect();

    let chunk = Chunk::parse(chunk_data.as_ref()).unwrap();

    let chunk_string = chunk.data_as_string().unwrap();
    let expected_chunk_string = String::from("This is where your secret message will be!");

    assert_eq!(chunk.length(), 42);
    assert_eq!(chunk.chunk_type().to_text(), String::from("RuSt"));
    assert_eq!(chunk_string, expected_chunk_string);
    assert_eq!(chunk.crc(), 2882656334);
}

#[test]
fn test_invalid_chunk_from_bytes() {
    let data_length: u32 = 42;
    let chunk_type = "RuSt".as_bytes();
    let message_bytes = "This is where your secret message will be!".as_bytes();
    let crc: u32 = 2882656333;

    let chunk_data: Vec<u8> = data_length
        .to_be_bytes()
        .iter()
        .chain(chunk_type.iter())
        .chain(message_bytes.iter())
        .chain(crc.to_be_bytes().iter())
        .copied()
        .collect();

    let chunk = Chunk::parse(chunk_data.as_ref());

    assert!(chunk.is_err());
}

#[test]
pub fn test_chunk_trait_impls() {
    let data_length: u32 = 42;
    let chunk_type = "RuSt".as_bytes();
    let message_bytes = "This is where your secret message will be!".as_bytes();
    let crc: u32 = 2882656334;

    let chunk_data: Vec<u8> = data_length
        .to_be_bytes()
        .iter()
        .chain(chunk_type.iter())
        .chain(message_bytes.iter())
        .chain(crc.to_be_bytes().iter())
        .copied()
        .collect();

    let chunk: Chunk = Chunk::parse(chunk_data.as_ref()).unwrap();

    let _chunk_string = chunk.data_as_string().unwrap();
}

#[test]
fn test_chunk_round_trip() {
    let chunk_type = ChunkType::from_text("RuSt").unwrap();
    let data = "This is where your secret message will be!"
        .as_bytes()
        .to_vec();
    let chunk = Chunk::new(chunk_type, data.clone());
    let bytes = chunk.as_bytes();
    assert_eq!(bytes, testing_chunk_bytes());
    let parsed = Chunk::parse(bytes.as_ref()).unwrap();
    assert_eq!(parsed.length(), chunk.length());
    assert_eq!(parsed.chunk_type().bytes(), chunk.chunk_type().bytes());
    assert_eq!(parsed.data(), chunk.data());
    assert_eq!(parsed.crc(), chunk.crc());
}

#[test]
fn test_empty_payload_round_trip() {
    let chunk_type = ChunkType::from_text("teST").unwrap();
    let chunk = Chunk::new(chunk_type, Vec::new());
    assert_eq!(chunk.length(), 0);
    assert_eq!(chunk.data_as_string().unwrap(), String::new());
    let bytes = chunk.as_bytes();
    assert_eq!(bytes.len(), 12);
    let parsed = Chunk::parse(bytes.as_ref()).unwrap();
    assert_eq!(parsed.length(), 0);
    assert_eq!(parsed.chunk_type().to_text(), "teST");
}

#[test]
fn test_corrupt_checksum_byte_fails() {
    let good = testing_chunk_bytes();
    let len = good.len();
    for i in (len - 4)..len {
        let mut bad = good.clone();
        bad[i] = bad[i].wrapping_add(1);
        assert_eq!(
            Chunk::parse(bad.as_ref()).unwrap_err(),
            FormatError::ChecksumMismatch
        );
    }
}

#[test]
fn test_truncated_chunk_fails() {
    let good = testing_chunk_bytes();
    for k in 0..good.len() {
        assert_eq!(
            Chunk::parse(&good[..k]).unwrap_err(),
            FormatError::TruncatedInput
        );
    }
}

#[test]
fn test_chunk_with_invalid_type_fails() {
    let mut bad = testing_chunk_bytes();
    bad[4] = 49;
    assert_eq!(
        Chunk::parse(bad.as_ref()).unwrap_err(),
        FormatError::InvalidTypeCode
    );
}

#[test]
fn test_chunk_is_valid_follows_reserved_bit() {
    let valid = Chunk::new(ChunkType::from_text("RuSt").unwrap(), vec![1, 2, 3]);
    assert!(valid.is_valid());
    let invalid = Chunk::new(ChunkType::from_text("Rust").unwrap(), vec![1, 2, 3]);
    assert!(!invalid.is_valid());
}

#[test]
fn test_data_as_string_is_one_char_per_byte() {
    let chunk = Chunk::new(ChunkType::from_text("RuSt").unwrap(), vec![0, 255, 65]);
    let text = chunk.data_as_string().unwrap();
    let chars: Vec<char> = text.chars().collect();
    assert_eq!(chars, vec!['\u{0}', '\u{ff}', 'A']);
}
