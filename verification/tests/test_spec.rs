//! End-to-end scenarios on concrete images: exact encoded bytes, padding,
//! truncation, wrap-around deltas, channel conversion and both encoder
//! modes.

use qoi_fast::{
    encode_max_len, encode_to_vec, qoi_decode_header, qoi_decode_to_buf, qoi_decode_to_vec,
    qoi_encode_to_vec, Channels, ColorSpace, Encoder, Error, Header, QoiDecoder,
};

fn s1_image() -> Vec<u8> {
    vec![
        0x71, 0x6F, 0x69, 0x66, // magic "qoif"
        0x00, 0x00, 0x00, 0x01, // width = 1
        0x00, 0x00, 0x00, 0x01, // height = 1
        0x04, 0x00, // channels, colorspace
        0x55, // DIFF with deltas (-1,-1,-1)
        0x00, 0x00, 0x00, 0x00, 0x00, 0x00, 0x00, 0x01, // end-marker
    ]
}

#[test]
fn test_one_pixel_rgba_exact_bytes() {
    // the single pixel equals the initial previous-pixel register, so the
    // whole image is one run of length one
    let pixels: Vec<u8> = vec![0, 0, 0, 255];
    let encoded = encode_to_vec(&pixels, 1, 1).unwrap();
    let mut expected: Vec<u8> = vec![
        0x71, 0x6F, 0x69, 0x66, 0x00, 0x00, 0x00, 0x01, 0x00, 0x00, 0x00, 0x01, 0x04, 0x00,
    ];
    expected.push(0xC0);
    expected.extend([0, 0, 0, 0, 0, 0, 0, 1]);
    assert_eq!(encoded, expected);
    assert_eq!(encoded.len(), 23);

    // reference mode agrees on this image
    let reference = qoi_encode_to_vec(&pixels, 1, 1, 4, ColorSpace::Srgb).unwrap();
    assert_eq!(reference, expected);

    let (header, decoded) = qoi_decode_to_vec(&encoded).unwrap();
    assert_eq!(header.width, 1);
    assert_eq!(header.height, 1);
    assert_eq!(header.channels, Channels::Rgba);
    assert_eq!(decoded, pixels);

    // the one-pixel fixture with a DIFF opcode decodes by wrapping: each
    // colour channel moves down by one from (0,0,0)
    let (_, from_diff) = qoi_decode_to_vec(&s1_image()).unwrap();
    assert_eq!(from_diff, vec![255, 255, 255, 255]);
}

#[test]
fn test_run_then_literal() {
    let pixels: Vec<u8> = vec![0, 0, 0, 255, 0, 0, 0, 255, 10, 20, 30, 255];
    let encoded = encode_to_vec(&pixels, 3, 1).unwrap();
    // header, RUN of 2, RGB literal, end-marker
    let expected_payload: Vec<u8> = vec![0xC1, 0xFE, 10, 20, 30];
    assert_eq!(&encoded[14..19], &expected_payload[..]);
    let (_, decoded) = qoi_decode_to_vec(&encoded).unwrap();
    assert_eq!(decoded, pixels);
}

#[test]
fn test_index_reuse_decodes() {
    // A crafted stream: a run of the initial pixel, a literal, then an
    // INDEX referring to slot 53 = hash((0,0,0,255)), which the decoder
    // filled while writing the run.
    let header = Header::try_new(4, 1, Channels::Rgba, ColorSpace::Srgb).unwrap();
    let mut data = header.encode();
    data.extend([0xC1, 0xFE, 10, 20, 30, 0x35]);
    data.extend([0, 0, 0, 0, 0, 0, 0, 1]);
    let (_, decoded) = qoi_decode_to_vec(&data).unwrap();
    let expected: Vec<u8> = vec![0, 0, 0, 255, 0, 0, 0, 255, 10, 20, 30, 255, 0, 0, 0, 255];
    assert_eq!(decoded, expected);
}

#[test]
fn test_wrap_boundary_luma() {
    // (254,254,254) then (1,1,1): the deltas are +3 mod 256, too wide for
    // DIFF but exactly a LUMA with green delta 3.
    let pixels: Vec<u8> = vec![254, 254, 254, 1, 1, 1];
    let encoded = encode_to_vec(&pixels, 2, 1).unwrap();
    // first pixel: DIFF with deltas (-2,-2,-2) -> biased zeros
    assert_eq!(encoded[14], 0x40);
    // second pixel: LUMA, vg = 3 biased by 32, vr-vg = vb-vg = 0 biased by 8
    assert_eq!(encoded[15], 0x80 | 35);
    assert_eq!(encoded[16], 0x88);
    let (header, decoded) = qoi_decode_to_vec(&encoded).unwrap();
    assert_eq!(header.channels, Channels::Rgb);
    assert_eq!(decoded, pixels);
}

#[test]
fn test_padding_tamper() {
    let mut data = s1_image();
    let last = data.len() - 1;
    data[last] = 0x00;
    assert_eq!(qoi_decode_to_vec(&data).unwrap_err(), Error::InvalidPadding);
}

#[test]
fn test_truncated_input() {
    let mut data = s1_image();
    data.truncate(data.len() - 2);
    assert_eq!(qoi_decode_to_vec(&data).unwrap_err(), Error::UnexpectedBufferEnd);
}

#[test]
fn test_index_seed() {
    // A first pixel of (0,0,0,0) in a four-channel image hits the all-zero
    // initial cache at slot hash((0,0,0,0)) = 0 and is encoded as a
    // one-byte INDEX opcode, not as an RGBA literal.
    let pixels: Vec<u8> = vec![0, 0, 0, 0];
    let encoded = encode_to_vec(&pixels, 1, 1).unwrap();
    assert_eq!(encoded.len(), 23);
    assert_eq!(encoded[14], 0x00);
    let (_, decoded) = qoi_decode_to_vec(&encoded).unwrap();
    assert_eq!(decoded, pixels);
}

#[test]
fn test_header_idempotence() {
    let header = Header::try_new(123, 456, Channels::Rgb, ColorSpace::Linear).unwrap();
    let bytes = header.encode();
    assert_eq!(qoi_decode_header(&bytes).unwrap(), header);
}

#[test]
fn test_padding_present() {
    let pixels: Vec<u8> = vec![9, 8, 7, 6, 5, 4, 3, 2, 1, 0, 1, 2];
    let encoded = encode_to_vec(&pixels, 4, 1).unwrap();
    assert_eq!(&encoded[encoded.len() - 8..], &[0, 0, 0, 0, 0, 0, 0, 1]);
}

#[test]
fn test_encode_len_bound() {
    let pixels: Vec<u8> = vec![1, 2, 3, 4, 5, 6, 7, 8, 9, 10, 11, 12];
    let encoded = encode_to_vec(&pixels, 2, 2).unwrap();
    assert!(encoded.len() <= encode_max_len(2, 2, 3));
    assert_eq!(encode_max_len(2, 2, 3), 14 + 4 * 4 + 8);
    assert_eq!(encode_max_len(3, 2, 4), 14 + 6 * 5 + 8);
}

#[test]
fn test_channel_conversion_rgb_to_rgba() {
    let pixels: Vec<u8> = vec![1, 2, 3, 200, 100, 50];
    let encoded = encode_to_vec(&pixels, 2, 1).unwrap();
    let decoder = QoiDecoder::new(&encoded).unwrap();
    let mut decoder = decoder.with_channels(Channels::Rgba);
    let out = decoder.decode_to_vec().unwrap();
    assert_eq!(out, vec![1, 2, 3, 255, 200, 100, 50, 255]);
}

#[test]
fn test_channel_conversion_rgba_to_rgb() {
    let pixels: Vec<u8> = vec![1, 2, 3, 40, 200, 100, 50, 60];
    let encoded = encode_to_vec(&pixels, 2, 1).unwrap();
    let decoder = QoiDecoder::new(&encoded).unwrap();
    let mut decoder = decoder.with_channels(Channels::Rgb);
    let out = decoder.decode_to_vec().unwrap();
    assert_eq!(out, vec![1, 2, 3, 200, 100, 50]);
}

#[test]
fn test_reference_mode_differs_and_decodes_same() {
    // B, B, C: the one-pixel run after B is rewritten as INDEX in default
    // mode but stays a RUN opcode in reference mode.
    let pixels: Vec<u8> = vec![10, 20, 30, 10, 20, 30, 90, 80, 70];
    let default_enc = encode_to_vec(&pixels, 3, 1).unwrap();
    let reference_enc = qoi_encode_to_vec(&pixels, 3, 1, 3, ColorSpace::Srgb).unwrap();
    assert_ne!(default_enc, reference_enc);
    // the flush byte: INDEX | hash vs RUN of 1
    assert_eq!(reference_enc[18], 0xC0);
    assert!(default_enc[18] < 0x40);
    let (_, a) = qoi_decode_to_vec(&default_enc).unwrap();
    let (_, b) = qoi_decode_to_vec(&reference_enc).unwrap();
    assert_eq!(a, pixels);
    assert_eq!(b, pixels);
}

#[test]
fn test_run_flush_at_62() {
    // 70 identical pixels force a full 62-run opcode plus a second run.
    let mut pixels: Vec<u8> = Vec::new();
    for _ in 0..70 {
        pixels.extend([5, 6, 7, 8]);
    }
    let encoded = encode_to_vec(&pixels, 70, 1).unwrap();
    let (_, decoded) = qoi_decode_to_vec(&encoded).unwrap();
    assert_eq!(decoded, pixels);
}

#[test]
fn test_decode_to_buf_leaves_tail() {
    let pixels: Vec<u8> = vec![1, 2, 3, 4, 5, 6];
    let encoded = encode_to_vec(&pixels, 2, 1).unwrap();
    let mut out = vec![0xAA; 10];
    let header = qoi_decode_to_buf(&mut out, &encoded).unwrap();
    assert_eq!(header.channels, Channels::Rgb);
    assert_eq!(&out[..6], &pixels[..]);
    assert_eq!(&out[6..], &[0xAA, 0xAA, 0xAA, 0xAA]);
}

#[test]
fn test_surplus_bytes_after_marker() {
    let mut data = s1_image();
    data.extend([0xDE, 0xAD]);
    let (_, decoded) = qoi_decode_to_vec(&data).unwrap();
    assert_eq!(decoded, vec![255, 255, 255, 255]);
}

#[test]
fn test_encoder_encode_to_buf() {
    let pixels: Vec<u8> = vec![1, 2, 3, 4, 5, 6];
    let encoder = Encoder::new(&pixels, 2, 1).unwrap();
    let mut buf = vec![0u8; encoder.required_buf_len()];
    let n = encoder.encode_to_buf(&mut buf).unwrap();
    let direct = encoder.encode_to_vec().unwrap();
    assert_eq!(&buf[..n], &direct[..]);

    let mut small = vec![0u8; 3];
    assert!(matches!(
        encoder.encode_to_buf(&mut small),
        Err(Error::OutputBufferTooSmall { size: 3, required: _ })
    ));
}
