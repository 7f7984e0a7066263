use png_carver::carver::{carve, copy_blocks, CarveEnd, COPY_BLOCK};

const SIGNATURE: [u8; 8] = [0x89, 0x50, 0x4E, 0x47, 0x0D, 0x0A, 0x1A, 0x0A];

fn chunk(code: &[u8; 4], payload: &[u8], crc: [u8; 4]) -> Vec<u8> {
    let mut bytes = (payload.len() as u32).to_be_bytes().to_vec();
    bytes.extend_from_slice(code);
    bytes.extend_from_slice(payload);
    bytes.extend_from_slice(&crc);
    bytes
}

fn filler(len: usize, seed: u8) -> Vec<u8> {
    (0..len).map(|i| ((i * 31 + seed as usize) % 251) as u8).collect()
}

fn with_signature(stream: &[u8]) -> Vec<u8> {
    let mut bytes = SIGNATURE.to_vec();
    bytes.extend_from_slice(stream);
    bytes
}

#[test]
fn copy_blocks_appends_the_range() {
    let input = filler(100, 3);
    let mut out = vec![9u8, 9];
    copy_blocks(&input, 10, 50, 16, &mut out);
    let mut expected = vec![9u8, 9];
    expected.extend_from_slice(&input[10..60]);
    assert_eq!(out, expected);
}

#[test]
fn copy_blocks_does_not_depend_on_the_block_size() {
    let input = filler(10000, 5);
    for block in [1usize, 2, 7, 100, 4095, 4096, 4097, 9999, 10000, 10001, usize::MAX] {
        let mut out = Vec::new();
        copy_blocks(&input, 0, input.len(), block, &mut out);
        assert_eq!(out, input, "block size {}", block);
    }
}

#[test]
fn copy_blocks_of_zero_bytes_leaves_the_output_unchanged() {
    let input = filler(10, 1);
    let mut out = vec![1u8, 2, 3];
    copy_blocks(&input, 4, 0, 4096, &mut out);
    assert_eq!(out, vec![1, 2, 3]);
    copy_blocks(&input, 10, 0, 1, &mut out);
    assert_eq!(out, vec![1, 2, 3]);
}

#[test]
fn copy_block_size() {
    assert_eq!(COPY_BLOCK, 4096);
}

#[test]
fn carve_takes_chunks_up_to_the_terminal_chunk() {
    let mut stream = chunk(b"IHDR", &filler(13, 1), [1, 2, 3, 4]);
    stream.extend(chunk(b"PLTE", &filler(6, 2), [5, 6, 7, 8]));
    stream.extend(chunk(b"tRNS", &filler(2, 3), [0, 0, 0, 0]));
    stream.extend(chunk(b"IDAT", &filler(300, 4), [0xFF, 0xFE, 0xFD, 0xFC]));
    stream.extend(chunk(b"IEND", &[], [0xAE, 0x42, 0x60, 0x82]));
    let mut input = stream.clone();
    input.extend(filler(50, 9));
    let carved = carve(&input, 0);
    assert_eq!(carved.bytes, with_signature(&stream));
    assert_eq!(carved.resume, stream.len());
    assert_eq!(carved.end, CarveEnd::Terminal);
}

#[test]
fn carve_starts_at_the_given_position() {
    let stream = chunk(b"IEND", &[], [1, 1, 1, 1]);
    let mut input = filler(20, 7);
    input.extend_from_slice(&stream);
    input.extend(filler(5, 8));
    let carved = carve(&input, 20);
    assert_eq!(carved.bytes, with_signature(&stream));
    assert_eq!(carved.resume, 32);
    assert_eq!(carved.end, CarveEnd::Terminal);
}

#[test]
fn carve_copies_a_payload_larger_than_a_block() {
    let payload = filler(3 * 4096 + 17, 11);
    let mut stream = chunk(b"IDAT", &payload, [9, 8, 7, 6]);
    stream.extend(chunk(b"IEND", &[], [0, 0, 0, 0]));
    let carved = carve(&stream, 0);
    assert_eq!(carved.bytes, with_signature(&stream));
    assert_eq!(carved.resume, stream.len());
    assert_eq!(carved.end, CarveEnd::Terminal);
}

#[test]
fn carve_copies_a_payload_of_exactly_one_block() {
    let payload = filler(4096, 12);
    let mut stream = chunk(b"IDAT", &payload, [9, 8, 7, 6]);
    stream.extend(chunk(b"IEND", &[], [0, 0, 0, 0]));
    let carved = carve(&stream, 0);
    assert_eq!(carved.bytes, with_signature(&stream));
    assert_eq!(carved.end, CarveEnd::Terminal);
}

#[test]
fn carve_does_not_check_the_checksum() {
    let mut stream = chunk(b"IHDR", &[0; 13], [0xDE, 0xAD, 0xBE, 0xEF]);
    stream.extend(chunk(b"IEND", &[], [0x00, 0x00, 0x00, 0x00]));
    let carved = carve(&stream, 0);
    assert_eq!(carved.bytes, with_signature(&stream));
    assert_eq!(carved.end, CarveEnd::Terminal);
}

#[test]
fn carve_stops_after_the_first_terminal_chunk() {
    let mut stream = chunk(b"IEND", &[], [1, 2, 3, 4]);
    let first = stream.len();
    stream.extend(chunk(b"IDAT", &filler(10, 1), [0; 4]));
    stream.extend(chunk(b"IEND", &[], [0; 4]));
    let carved = carve(&stream, 0);
    assert_eq!(carved.bytes, with_signature(&stream[..first]));
    assert_eq!(carved.resume, first);
    assert_eq!(carved.end, CarveEnd::Terminal);
}

#[test]
fn carve_stops_before_an_unrecognized_chunk() {
    let head = chunk(b"IHDR", &filler(13, 1), [1, 2, 3, 4]);
    let mut stream = head.clone();
    stream.extend(chunk(b"tEXt", &filler(40, 2), [5, 5, 5, 5]));
    stream.extend(chunk(b"IDAT", &filler(10, 3), [6, 6, 6, 6]));
    stream.extend(chunk(b"IEND", &[], [7, 7, 7, 7]));
    let carved = carve(&stream, 0);
    assert_eq!(carved.bytes, with_signature(&head));
    assert_eq!(carved.end, CarveEnd::Unrecognized);
    assert_eq!(carved.resume, head.len() + 8 + 40);
}

#[test]
fn carve_skips_no_further_than_the_end_of_the_input() {
    let mut stream = chunk(b"IHDR", &filler(13, 1), [1, 2, 3, 4]);
    let head = stream.len();
    stream.extend_from_slice(&[0x00, 0x01, 0x00, 0x00]);
    stream.extend_from_slice(b"zTXt");
    stream.extend(filler(100, 5));
    let carved = carve(&stream, 0);
    assert_eq!(carved.bytes, with_signature(&stream[..head]));
    assert_eq!(carved.end, CarveEnd::Unrecognized);
    assert_eq!(carved.resume, stream.len());
}

#[test]
fn carve_of_an_unrecognized_first_chunk_yields_the_bare_signature() {
    let stream = chunk(b"abcd", &[1, 2, 3], [0; 4]);
    let carved = carve(&stream, 0);
    assert_eq!(carved.bytes, SIGNATURE.to_vec());
    assert_eq!(carved.end, CarveEnd::Unrecognized);
    assert_eq!(carved.resume, 11);
}

#[test]
fn carve_at_the_end_of_the_input_is_truncated() {
    let input = filler(10, 1);
    let carved = carve(&input, 10);
    assert_eq!(carved.bytes, SIGNATURE.to_vec());
    assert_eq!(carved.end, CarveEnd::Truncated);
    assert_eq!(carved.resume, 10);
    let carved = carve(&[], 0);
    assert_eq!(carved.bytes, SIGNATURE.to_vec());
    assert_eq!(carved.end, CarveEnd::Truncated);
    assert_eq!(carved.resume, 0);
}

#[test]
fn carve_with_an_incomplete_header_is_truncated() {
    let head = chunk(b"IHDR", &filler(13, 1), [1, 2, 3, 4]);
    for extra in 0..8 {
        let mut stream = head.clone();
        stream.extend_from_slice(&[0, 0, 0, 0, b'I', b'E', b'N', b'D'][..extra]);
        let carved = carve(&stream, 0);
        assert_eq!(carved.bytes, with_signature(&head));
        assert_eq!(carved.end, CarveEnd::Truncated);
        assert_eq!(carved.resume, stream.len());
    }
}

#[test]
fn carve_with_a_payload_that_runs_past_the_end_is_truncated() {
    let head = chunk(b"IHDR", &filler(13, 1), [1, 2, 3, 4]);
    let mut stream = head.clone();
    stream.extend_from_slice(&100u32.to_be_bytes());
    stream.extend_from_slice(b"IDAT");
    stream.extend(filler(10, 2));
    let carved = carve(&stream, 0);
    assert_eq!(carved.bytes, with_signature(&head));
    assert_eq!(carved.end, CarveEnd::Truncated);
    assert_eq!(carved.resume, stream.len());
}

#[test]
fn carve_with_a_checksum_that_runs_past_the_end_is_truncated() {
    let head = chunk(b"IHDR", &filler(13, 1), [1, 2, 3, 4]);
    let whole = chunk(b"IDAT", &filler(10, 2), [9, 9, 9, 9]);
    for missing in 1..=4 {
        let mut stream = head.clone();
        stream.extend_from_slice(&whole[..whole.len() - missing]);
        let carved = carve(&stream, 0);
        assert_eq!(carved.bytes, with_signature(&head));
        assert_eq!(carved.end, CarveEnd::Truncated);
        assert_eq!(carved.resume, head.len() + 8 + 10);
    }
}

#[test]
fn carve_with_the_largest_declared_length_is_truncated() {
    let mut stream = vec![0xFF, 0xFF, 0xFF, 0xFF];
    stream.extend_from_slice(b"IDAT");
    stream.extend(filler(64, 2));
    let carved = carve(&stream, 0);
    assert_eq!(carved.bytes, SIGNATURE.to_vec());
    assert_eq!(carved.end, CarveEnd::Truncated);
    assert_eq!(carved.resume, stream.len());
}

#[test]
fn carve_stops_before_a_malformed_type() {
    let head = chunk(b"IHDR", &filler(13, 1), [1, 2, 3, 4]);
    let mut stream = head.clone();
    stream.extend_from_slice(&[0, 0, 0, 2, b'I', 0xFF, b'A', b'T', 1, 2, 0, 0, 0, 0]);
    stream.extend(chunk(b"IEND", &[], [7, 7, 7, 7]));
    let carved = carve(&stream, 0);
    assert_eq!(carved.bytes, with_signature(&head));
    assert_eq!(carved.end, CarveEnd::Malformed);
    assert_eq!(carved.resume, stream.len());
}

#[test]
fn malformed_type_is_detected_before_the_length_is_used() {
    let mut stream = vec![0xFF, 0xFF, 0xFF, 0xFF, 0x80, b'D', b'A', b'T'];
    stream.extend(filler(4, 2));
    let carved = carve(&stream, 0);
    assert_eq!(carved.bytes, SIGNATURE.to_vec());
    assert_eq!(carved.end, CarveEnd::Malformed);
}

#[test]
fn carve_takes_a_chunk_that_ends_with_the_input() {
    let stream = chunk(b"IDAT", &filler(5, 2), [9, 9, 9, 9]);
    let carved = carve(&stream, 0);
    assert_eq!(carved.bytes, with_signature(&stream));
    assert_eq!(carved.end, CarveEnd::Truncated);
    assert_eq!(carved.resume, stream.len());
}
