use owl_wave::crc32::crc32;
use owl_wave::resources::{Resource, ResourceData, ResourceState};
use owl_wave::sysex::{encode32, encode_bytes};

fn size_chunk(v: u32) -> Vec<u8> {
    let mut buf = vec![0u8; 5];
    encode32(v, &mut buf).unwrap();
    buf
}

fn data_chunk(data: &[u8]) -> Vec<u8> {
    let mut buf = vec![0u8; 2 * data.len() + 8];
    let r = encode_bytes(data, &mut buf).unwrap();
    buf.truncate(r.bytes_written);
    buf
}

#[test]
fn test_resource() {
    assert_eq!(
        Resource::new(0, "Test".to_string(), 100, 0).size_string(),
        "100 B"
    );
    assert_eq!(
        Resource::new(0, "Test".to_string(), 2048, 0).size_string(),
        "2.00 KiB"
    );
}

#[test]
fn test_crc32_check_value() {
    // the standard check value of CRC-32 (IEEE, reflected)
    assert_eq!(crc32(b"123456789"), 0xCBF4_3926);
    assert_eq!(crc32(&[]), 0);
}

#[test]
fn test_transfer_success() {
    let data: Vec<u8> = (0u8..100).map(|i| i.wrapping_mul(83).wrapping_add(7)).collect();
    let mut rd = ResourceData::new();
    assert_eq!(rd.state, ResourceState::New);

    rd.process_data(&size_chunk(data.len() as u32));
    assert_eq!(rd.state, ResourceState::InProgress);
    assert_eq!(rd.size, 100);

    rd.process_data(&data_chunk(&data));
    assert_eq!(rd.state, ResourceState::Complete);
    assert_eq!(rd.offset, 100);
    assert_eq!(rd.data, data);

    rd.process_data(&size_chunk(crc32(&data)));
    assert_eq!(rd.state, ResourceState::Success);
}

#[test]
fn test_transfer_bad_checksum() {
    let data: Vec<u8> = (0u8..60).collect();
    let mut rd = ResourceData::new();
    rd.process_data(&size_chunk(data.len() as u32));
    rd.process_data(&data_chunk(&data));
    assert_eq!(rd.state, ResourceState::Complete);
    let wrong = crc32(&data) ^ 1;
    rd.process_data(&size_chunk(wrong));
    assert_eq!(rd.state, ResourceState::InvalidChecksum);
}

#[test]
fn test_transfer_multiple_chunks() {
    let data: Vec<u8> = (0u8..=199).collect();
    let mut rd = ResourceData::new();
    rd.process_data(&size_chunk(data.len() as u32));
    rd.process_data(&data_chunk(&data[..120]));
    assert_eq!(rd.state, ResourceState::InProgress);
    assert_eq!(rd.offset, 120);
    rd.process_data(&data_chunk(&data[120..]));
    assert_eq!(rd.state, ResourceState::Complete);
    rd.process_data(&size_chunk(crc32(&data)));
    assert_eq!(rd.state, ResourceState::Success);
}

#[test]
fn test_transfer_no_implicit_restart() {
    // the same size chunk twice without a reset: the second one is a
    // malformed frame and fails the transfer, leaving the size alone
    let chunk = size_chunk(4096);
    let mut rd = ResourceData::new();
    rd.process_data(&chunk);
    assert_eq!(rd.state, ResourceState::InProgress);
    assert_eq!(rd.size, 4096);
    rd.process_data(&chunk);
    assert_eq!(rd.state, ResourceState::Failed);
    assert_eq!(rd.size, 4096);
    assert_eq!(rd.offset, 0);
}

#[test]
fn test_transfer_reset() {
    let mut rd = ResourceData::new();
    rd.process_data(&size_chunk(16));
    rd.process_data(&size_chunk(16));
    assert_eq!(rd.state, ResourceState::Failed);
    rd.reset();
    assert_eq!(rd, ResourceData::new());
    assert_eq!(rd.state, ResourceState::New);
}

#[test]
fn test_transfer_malformed_size_chunk() {
    // in the fresh state only a five-word chunk is a size
    let mut rd = ResourceData::new();
    rd.process_data(&[0, 0, 1]);
    assert_eq!(rd.state, ResourceState::Failed);
}

#[test]
fn test_transfer_oversized_data_chunk_fails() {
    // a chunk whose decoding could exceed the 256-byte scratch buffer
    let mut rd = ResourceData::new();
    rd.process_data(&size_chunk(1000));
    assert_eq!(rd.state, ResourceState::InProgress);
    let big = vec![0u8; 400];
    rd.process_data(&data_chunk(&big));
    assert_eq!(rd.state, ResourceState::Failed);
}
