use skembed::buffer::PixelBuffer;
use skembed::cli::{get_data_mode, get_output_mode, DataMode, OutputMode};
use skembed::codec::{embed_data, embed_data_clear, extract_data, CodecError, MAX_PAYLOAD};
use skembed::filler::get_hash;
use skembed::geometry::void_pixels;

fn zero_buffer(width: u32, height: u32) -> PixelBuffer {
    let data = vec![0u8; (width as usize) * (height as usize) * 4];
    PixelBuffer::new(width, height, data).unwrap()
}

/// A 64x64 buffer with visible content everywhere (a deterministic pattern).
fn patterned_buffer() -> PixelBuffer {
    let mut data = Vec::with_capacity(16384);
    for i in 0..16384usize {
        data.push((i.wrapping_mul(31) % 251) as u8);
    }
    PixelBuffer::new(64, 64, data).unwrap()
}

fn byte_index(x: u32, y: u32) -> usize {
    ((y as usize) * 64 + (x as usize)) * 4
}

#[test]
fn round_trip_small_payload() {
    let mut b = zero_buffer(64, 64);
    let payload = vec![0xde, 0xad, 0xbe, 0xef, 0x42];
    embed_data(&mut b, payload.clone()).unwrap();
    assert_eq!(extract_data(&b).unwrap(), payload);
}

#[test]
fn round_trip_empty_payload() {
    let mut b = patterned_buffer();
    embed_data(&mut b, Vec::new()).unwrap();
    assert_eq!(extract_data(&b).unwrap(), Vec::<u8>::new());
}

#[test]
fn round_trip_full_capacity() {
    let mut b = patterned_buffer();
    let payload: Vec<u8> = (0..MAX_PAYLOAD).map(|i| (i % 256) as u8).collect();
    embed_data(&mut b, payload.clone()).unwrap();
    assert_eq!(extract_data(&b).unwrap(), payload);
}

#[test]
fn round_trip_over_prior_content() {
    let mut b = patterned_buffer();
    embed_data(&mut b, b"first message".to_vec()).unwrap();
    let second = b"a different, longer second message".to_vec();
    embed_data(&mut b, second.clone()).unwrap();
    assert_eq!(extract_data(&b).unwrap(), second);
}

#[test]
fn embedding_is_deterministic() {
    let payload = b"same payload".to_vec();
    let mut b1 = patterned_buffer();
    let mut b2 = patterned_buffer();
    embed_data(&mut b1, payload.clone()).unwrap();
    embed_data(&mut b2, payload).unwrap();
    assert_eq!(b1.data, b2.data);
}

#[test]
fn clear_extracts_empty() {
    let mut b = patterned_buffer();
    embed_data(&mut b, b"to be stripped".to_vec()).unwrap();
    embed_data_clear(&mut b).unwrap();
    assert_eq!(extract_data(&b).unwrap(), Vec::<u8>::new());
}

#[test]
fn clear_zeroes_all_void_pixels() {
    let mut b = patterned_buffer();
    embed_data_clear(&mut b).unwrap();
    for (x, y) in void_pixels(true) {
        let i = byte_index(x, y);
        assert_eq!(&b.data[i..i + 4], &[0, 0, 0, 0]);
    }
}

#[test]
fn capacity_boundary_succeeds_at_max() {
    let mut b = zero_buffer(64, 64);
    let payload = vec![7u8; MAX_PAYLOAD];
    assert!(embed_data(&mut b, payload).is_ok());
    // no padding was needed and every payload pixel was written opaque
    for (x, y) in void_pixels(false) {
        assert_eq!(b.data[byte_index(x, y) + 3], 255);
    }
}

#[test]
fn capacity_boundary_fails_above_max() {
    let mut b = zero_buffer(64, 64);
    let before = b.data.clone();
    let payload = vec![7u8; MAX_PAYLOAD + 1];
    assert_eq!(embed_data(&mut b, payload), Err(CodecError::PayloadTooLarge));
    assert_eq!(b.data, before);
}

#[test]
fn dimension_guard_embed() {
    for (w, h) in [(32u32, 32u32), (128, 128), (64, 63)] {
        let mut b = zero_buffer(w, h);
        assert_eq!(
            embed_data(&mut b, vec![1, 2, 3]),
            Err(CodecError::InvalidDimensions)
        );
    }
}

#[test]
fn dimension_guard_extract() {
    for (w, h) in [(32u32, 32u32), (128, 128), (64, 63)] {
        let b = zero_buffer(w, h);
        assert_eq!(extract_data(&b), Err(CodecError::InvalidDimensions));
    }
}

#[test]
fn dimension_guard_clear() {
    for (w, h) in [(32u32, 32u32), (128, 128), (64, 63)] {
        let mut b = zero_buffer(w, h);
        assert_eq!(embed_data_clear(&mut b), Err(CodecError::InvalidDimensions));
    }
}

#[test]
fn example_three_byte_payload() {
    let mut b = zero_buffer(64, 64);
    embed_data(&mut b, vec![0x01, 0x02, 0x03]).unwrap();
    // marker pixel (0, 0): length 3 little-endian, some filler byte, opaque
    assert_eq!(b.data[0], 3);
    assert_eq!(b.data[1], 0);
    assert_eq!(b.data[3], 255);
    // first payload coordinate is (1, 0), inside the region [0,0]-[8,8)
    let coords = void_pixels(false);
    assert_eq!(coords[0], (1, 0));
    assert_eq!(&b.data[byte_index(1, 0)..byte_index(1, 0) + 4], &[1, 2, 3, 255]);
    // every other void pixel stays cleared
    for &(x, y) in coords.iter().skip(1) {
        let i = byte_index(x, y);
        assert_eq!(&b.data[i..i + 4], &[0, 0, 0, 0]);
    }
    assert_eq!(extract_data(&b).unwrap(), vec![0x01, 0x02, 0x03]);
}

#[test]
fn marker_encodes_length_little_endian() {
    let mut b = zero_buffer(64, 64);
    embed_data(&mut b, vec![9u8; 300]).unwrap();
    assert_eq!(b.data[0], 44); // 300 % 256
    assert_eq!(b.data[1], 1); // 300 / 256
}

#[test]
fn visible_pixels_unchanged_by_embedding() {
    let mut b = patterned_buffer();
    let before = b.data.clone();
    embed_data(&mut b, b"hidden".to_vec()).unwrap();
    let mut void = vec![false; 64 * 64];
    for (x, y) in void_pixels(true) {
        void[(y as usize) * 64 + (x as usize)] = true;
    }
    for p in 0..64 * 64usize {
        if !void[p] {
            assert_eq!(&b.data[4 * p..4 * p + 4], &before[4 * p..4 * p + 4]);
        }
    }
}

#[test]
fn void_pixel_enumeration_shape() {
    let with_marker = void_pixels(true);
    let without_marker = void_pixels(false);
    assert_eq!(with_marker.len(), 832);
    assert_eq!(without_marker.len(), 831);
    // the marker is the first coordinate of the clearing sequence
    assert_eq!(with_marker[0], (0, 0));
    // the first region is walked row-major from its top-left corner
    assert_eq!(&with_marker[0..9], &[
        (0, 0),
        (1, 0),
        (2, 0),
        (3, 0),
        (4, 0),
        (5, 0),
        (6, 0),
        (7, 0),
        (0, 1),
    ]);
    // the payload sequence is the same enumeration without the marker
    assert_eq!(without_marker[0], (1, 0));
    for i in 0..without_marker.len() {
        assert_eq!(without_marker[i], with_marker[i + 1]);
    }
}

#[test]
fn oversized_marker_claim_yields_full_capacity() {
    // a tampered marker may declare more than the capacity; extraction
    // truncates to the declared length, which is then a no-op, handing back
    // the whole 2493-byte payload area
    let mut b = zero_buffer(64, 64);
    b.data[0] = 0xff;
    b.data[1] = 0xff;
    let out = extract_data(&b).unwrap();
    assert_eq!(out.len(), MAX_PAYLOAD);
    assert!(out.iter().all(|&v| v == 0));
}

#[test]
fn hash_depends_on_content() {
    let a = get_hash(&[0u8; 10]);
    let b = get_hash(&[1u8; 10]);
    let c = get_hash(&[0u8; 10]);
    assert_eq!(a, c);
    assert_ne!(a, b);
}

#[test]
fn padding_differs_from_constant_fill() {
    // a payload of length 1 gets two filler padding bytes; they land in the
    // first payload pixel's G and B channels and come from the seeded
    // generator, so embedding into two different carriers gives different
    // filler with overwhelming likelihood; here we only check the padding
    // never leaks into the extracted payload
    let mut b = patterned_buffer();
    embed_data(&mut b, vec![0xaa]).unwrap();
    assert_eq!(extract_data(&b).unwrap(), vec![0xaa]);
}

#[test]
fn buffer_new_checks_length() {
    assert!(PixelBuffer::new(64, 64, vec![0u8; 16384]).is_some());
    assert!(PixelBuffer::new(64, 64, vec![0u8; 16383]).is_none());
    assert!(PixelBuffer::new(2, 2, vec![0u8; 16]).is_some());
}

#[test]
fn cli_modes() {
    assert!(matches!(
        get_data_mode(Some("d.bin".to_string()), false),
        Some(DataMode::File(f)) if f == "d.bin"
    ));
    assert!(matches!(get_data_mode(None, true), Some(DataMode::Clear)));
    assert!(get_data_mode(None, false).is_none());
    assert!(matches!(
        get_output_mode(Some("out.png".to_string()), false),
        Some(OutputMode::File(f)) if f == "out.png"
    ));
    assert!(matches!(get_output_mode(None, true), Some(OutputMode::Overwrite)));
    assert!(get_output_mode(None, false).is_none());
    // a data file wins over a clear flag, an output path over overwrite
    assert!(matches!(
        get_data_mode(Some("d.bin".to_string()), true),
        Some(DataMode::File(_))
    ));
    assert!(matches!(
        get_output_mode(Some("o.png".to_string()), true),
        Some(OutputMode::File(_))
    ));
}
