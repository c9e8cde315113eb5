use picto::chunk::{Chunk, ChunkError};
use picto::chunk_type::ChunkType;
use picto::codec::TextDecodeError;

fn testing_chunk() -> Chunk {
    let data_length: u32 = 42;
    let chunk_type = "RuSt".as_bytes();
    let message_bytes = "This is where your secret message will be!".as_bytes();
    let crc: u32 = 2882656334;

    let chunk_data: Vec<u8> = data_length
        .to_be_bytes()
        .iter()
        .chain(chunk_type.iter())
        .chain(message_bytes.iter())
        .chain(crc.to_be_bytes().iter())
        .copied()
        .collect();

    Chunk::try_from(chunk_data.as_ref()).unwrap()
}

#[test]
fn test_new_chunk() {
    let chunk_type = ChunkType::from_str("RuSt").unwrap();
    let data = "This is where your secret message will be!"
        .as_bytes()
        .to_vec();
    let chunk = Chunk::new(chunk_type, data);
    assert_eq!(chunk.length(), 42);
    assert_eq!(chunk.crc(), 2882656334);
}

#[test]
fn test_chunk_length() {
    let chunk = testing_chunk();
    assert_eq!(chunk.length(), 42);
}

#[test]
fn test_chunk_type() {
    let chunk = testing_chunk();
    assert_eq!(chunk.chunk_type().to_string(), String::from("RuSt"));
}

#[test]
fn test_chunk_string() {
    let chunk = testing_chunk();
    let chunk_string = chunk.data_as_string().unwrap();
    let expected_chunk_string = String::from("This is where your secret message will be!");
    assert_eq!(chunk_string, expected_chunk_string);
}

#[test]
fn test_chunk_crc() {
    let chunk = testing_chunk();
    assert_eq!(chunk.crc(), 2882656334);
}

#[test]
fn test_valid_chunk_from_bytes() {
    let data_length: u32 = 42;
    let chunk_type = "RuSt".as_bytes();
    let message_bytes = "This is where your secret message will be!".as_bytes();
    let crc: u32 = 2882656334;

    let chunk_data: Vec<u8> = data_length
        .to_be_bytes()
        .iter()
        .chain(chunk_type.iter())
        .chain(message_bytes.iter())
        .chain(crc.to_be_bytes().iter())
        .copied()
        .collect();

    let chunk = Chunk::try_from(chunk_data.as_ref()).unwrap();

    let chunk_string = chunk.data_as_string().unwrap();
    let expected_chunk_string = String::from("This is where your secret message will be!");

    assert_eq!(chunk.length(), 42);
    assert_eq!(chunk.chunk_type().to_string(), String::from("RuSt"));
    assert_eq!(chunk_string, expected_chunk_string);
    assert_eq!(chunk.crc(), 2882656334);
}

#[test]
fn test_invalid_chunk_from_bytes() {
    let data_length: u32 = 42;
    let chunk_type = "RuSt".as_bytes();
    let message_bytes = "This is where your secret message will be!".as_bytes();
    let crc: u32 = 2882656333;

    let chunk_data: Vec<u8> = data_length
        .to_be_bytes()
        .iter()
        .chain(chunk_type.iter())
        .chain(message_bytes.iter())
        .chain(crc.to_be_bytes().iter())
        .copied()
        .collect();

    let chunk = Chunk::try_from(chunk_data.as_ref());

    assert!(chunk.is_err());
}

#[test]
pub fn test_chunk_trait_impls() {
    let data_length: u32 = 42;
    let chunk_type = "RuSt".as_bytes();
    let message_bytes = "This is where your secret message will be!".as_bytes();
    let crc: u32 = 2882656334;

    let chunk_data: Vec<u8> = data_length
        .to_be_bytes()
        .iter()
        .chain(chunk_type.iter())
        .chain(message_bytes.iter())
        .chain(crc.to_be_bytes().iter())
        .copied()
        .collect();

    let chunk: Chunk = Chunk::try_from(chunk_data.as_ref()).unwrap();

    let _chunk_length = chunk.length();
    let _chunk_crc = chunk.crc();
    let _chunk_data = chunk.data().to_vec();
}

#[test]
fn test_chunk_round_trip_serialization() {
    let chunk = testing_chunk();
    let bytes = chunk.as_bytes();
    let reparsed = Chunk::try_from(bytes.as_ref()).unwrap();
    assert_eq!(reparsed.length(), chunk.length());
    assert_eq!(reparsed.chunk_type().bytes(), chunk.chunk_type().bytes());
    assert_eq!(reparsed.data(), chunk.data());
    assert_eq!(reparsed.crc(), chunk.crc());
}

#[test]
fn test_chunk_length_field_of_empty_payload() {
    let chunk_type = ChunkType::from_str("RuSt").unwrap();
    let chunk = Chunk::new(chunk_type, Vec::new());
    assert_eq!(chunk.length(), 0);
    let bytes = chunk.as_bytes();
    assert_eq!(&bytes[0..4], &[0, 0, 0, 0]);
    assert_eq!(bytes.len(), 12);
}

#[test]
fn test_chunk_length_field_matches_payload() {
    let chunk_type = ChunkType::from_str("RuSt").unwrap();
    let chunk = Chunk::new(chunk_type, vec![7, 7, 7, 7, 7]);
    let bytes = chunk.as_bytes();
    assert_eq!(&bytes[0..4], &[0, 0, 0, 5]);
}

#[test]
fn test_chunk_too_short() {
    let buf: Vec<u8> = vec![0, 0, 0, 0, 82, 117, 83, 116];
    let r = Chunk::try_from(buf.as_ref());
    assert_eq!(r.err().unwrap(), ChunkError::InvalidLength);
}

#[test]
fn test_chunk_length_field_overruns_buffer() {
    // Length field says 200 bytes of payload, but none follow.
    let mut buf: Vec<u8> = Vec::new();
    buf.extend_from_slice(&200u32.to_be_bytes());
    buf.extend_from_slice("RuSt".as_bytes());
    buf.extend_from_slice(&[0, 0, 0, 0]);
    let r = Chunk::try_from(buf.as_ref());
    assert_eq!(r.err().unwrap(), ChunkError::InvalidLength);
}

#[test]
fn test_chunk_invalid_type_rejected() {
    // "Rust" fails the reserved-bit rule, whatever the checksum.
    let mut buf: Vec<u8> = Vec::new();
    buf.extend_from_slice(&0u32.to_be_bytes());
    buf.extend_from_slice("Rust".as_bytes());
    buf.extend_from_slice(&[0, 0, 0, 0]);
    let r = Chunk::try_from(buf.as_ref());
    assert_eq!(r.err().unwrap(), ChunkError::InvalidChunkType);
}

#[test]
fn test_chunk_checksum_mismatch_carries_values() {
    let chunk = testing_chunk();
    let mut bytes = chunk.as_bytes();
    let last = bytes.len() - 1;
    bytes[last] ^= 1;
    let r = Chunk::try_from(bytes.as_ref());
    match r {
        Err(ChunkError::InvalidCrc(stored, computed)) => {
            assert_eq!(computed, 2882656334);
            assert_eq!(stored, 2882656334 ^ 1);
        }
        other => panic!("expected a checksum mismatch, got {:?}", other),
    }
}

#[test]
fn test_chunk_data_as_string_rejects_invalid_text() {
    let chunk_type = ChunkType::from_str("RuSt").unwrap();
    let chunk = Chunk::new(chunk_type, vec![0xff, 0xfe, 0xfd]);
    assert_eq!(chunk.data_as_string(), Err(TextDecodeError));
}

#[test]
fn test_chunk_data_as_string_decodes_multibyte_text() {
    let chunk_type = ChunkType::from_str("RuSt").unwrap();
    let chunk = Chunk::new(chunk_type, "héllo wörld".as_bytes().to_vec());
    assert_eq!(chunk.data_as_string().unwrap(), "héllo wörld");
}
