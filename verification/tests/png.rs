use librarybridge::png::{adler32, crc32, encode, halve};

#[test]
fn writes_a_structurally_valid_png() {
    let pixels = vec![255u8; 2 * 2 * 4];
    let encoded = encode(2, 2, &pixels);
    assert_eq!(
        &encoded[..8],
        &[0x89, b'P', b'N', b'G', 0x0d, 0x0a, 0x1a, 0x0a]
    );
    assert_eq!(&encoded[12..16], b"IHDR");
    assert!(encoded.windows(4).any(|w| w == b"IDAT"));
    assert_eq!(&encoded[encoded.len() - 8..encoded.len() - 4], b"IEND");
}

#[test]
fn chunk_lengths_and_checksums_line_up() {
    let encoded = encode(3, 2, &vec![7u8; 3 * 2 * 4]);
    let mut at = 8;
    let mut kinds = Vec::new();
    while at + 8 <= encoded.len() {
        let length = u32::from_be_bytes(encoded[at..at + 4].try_into().unwrap()) as usize;
        let kind = &encoded[at + 4..at + 8];
        kinds.push(String::from_utf8_lossy(kind).to_string());
        let body = &encoded[at + 4..at + 8 + length];
        let stored = u32::from_be_bytes(
            encoded[at + 8 + length..at + 12 + length]
                .try_into()
                .unwrap(),
        );
        assert_eq!(crc32(body), stored, "bad checksum on chunk");
        at += 12 + length;
    }
    assert_eq!(kinds, ["IHDR", "IDAT", "IEND"]);
    assert_eq!(at, encoded.len());
}

#[test]
fn zlib_stream_carries_the_right_adler_checksum() {
    let raw_pixels = vec![1u8; 4 * 4];
    let encoded = encode(4, 1, &raw_pixels);
    let start = encoded.windows(4).position(|w| w == b"IDAT").unwrap() + 4;
    let length = u32::from_be_bytes(encoded[start - 8..start - 4].try_into().unwrap()) as usize;
    let zlib = &encoded[start..start + length];
    assert_eq!(&zlib[..2], &[0x78, 0x01]);
    let mut expected = vec![0u8];
    expected.extend_from_slice(&raw_pixels);
    assert_eq!(&zlib[zlib.len() - 4..], &adler32(&expected).to_be_bytes());
}

#[test]
fn halving_averages_each_block() {
    // One 2x2 block: values 0, 100, 200 and 255 in every channel.
    let mut pixels = Vec::new();
    for value in [0u8, 100, 200, 255] {
        pixels.extend_from_slice(&[value; 4]);
    }
    let (width, height, out) = halve(2, 2, &pixels);
    assert_eq!((width, height), (1, 1));
    assert_eq!(out, vec![138, 138, 138, 138]);
}

#[test]
fn halving_leaves_tiny_images_alone() {
    let pixels = vec![9u8; 4];
    assert_eq!(halve(1, 1, &pixels), (1, 1, pixels));
}

#[test]
fn checksums_of_known_texts() {
    assert_eq!(crc32(b"123456789"), 0xcbf4_3926);
    assert_eq!(crc32(b""), 0);
    assert_eq!(adler32(b"Wikipedia"), 0x11e6_0398);
    assert_eq!(adler32(b""), 1);
}

#[test]
fn stored_blocks_hold_the_rows() {
    let pixels: Vec<u8> = (0..16).collect();
    let encoded = encode(2, 2, &pixels);
    let start = encoded.windows(4).position(|w| w == b"IDAT").unwrap() + 4;
    // One final stored block: its length, the complement, then a filter byte before each row.
    assert_eq!(&encoded[start + 2..start + 7], &[1, 18, 0, 0xed, 0xff]);
    let mut rows = vec![0u8];
    rows.extend_from_slice(&pixels[..8]);
    rows.push(0);
    rows.extend_from_slice(&pixels[8..]);
    assert_eq!(&encoded[start + 7..start + 25], rows.as_slice());
}

#[test]
fn an_image_that_needs_two_blocks_is_split_at_their_limit() {
    let encoded = encode(200, 100, &vec![3u8; 200 * 100 * 4]);
    let start = encoded.windows(4).position(|w| w == b"IDAT").unwrap() + 4;
    assert_eq!(encoded[start + 2], 0);
    assert_eq!(&encoded[start + 3..start + 5], &[0xff, 0xff]);
    let second = start + 7 + 65535;
    assert_eq!(encoded[second], 1);
    assert_eq!(&encoded[second + 1..second + 3], &14_565u16.to_le_bytes());
}

#[test]
fn an_odd_edge_is_dropped_when_halving() {
    let (width, height, out) = halve(3, 2, &vec![40u8; 3 * 2 * 4]);
    assert_eq!((width, height), (1, 1));
    assert_eq!(out, vec![40, 40, 40, 40]);
}
