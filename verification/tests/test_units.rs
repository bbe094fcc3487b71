//! Units: pixels, headers, types, the byte sink and source, the builder,
//! and each error case.

use qoi_fast::{
    encode_to_vec, qoi_decode_header, qoi_decode_to_vec, ByteRead, BytesMut, Channels, ColorSpace,
    Encoder, EncoderBuilder, Error, Header, Pixel, QoiDecoder, SliceReader, SourceChannels,
};

#[test]
fn test_pixel_methods() {
    let mut px = Pixel::new();
    assert_eq!((px.r(), px.g(), px.b()), (0, 0, 0));
    assert_eq!(px.a_or(7), 0);
    px = px.with_a(255);
    assert_eq!(px.a_or(7), 255);
    assert_eq!(px.hash_index(), 53);
    assert_eq!(Pixel::new().hash_index(), 0);

    let src: Vec<u8> = vec![1, 2, 3, 4];
    px.read(&src, 4);
    assert_eq!((px.r(), px.g(), px.b(), px.a_or(0)), (1, 2, 3, 4));
    px.read(&vec![9, 9, 9], 3);
    assert_eq!(px.a_or(0), 4);

    let q = Pixel::from_array([10, 20, 30, 40]);
    assert_eq!(q.as_rgba(4, 0xFF), q);
    let rgb = Pixel::from_rgb(q, 0xFF);
    assert_eq!(rgb.a_or(0), 0xFF);

    let mut w = Pixel::from_array([250, 250, 250, 9]);
    w.rgb_add(10, 10, 10);
    assert_eq!((w.r(), w.g(), w.b(), w.a_or(0)), (4, 4, 4, 9));

    // hash of (10,20,30,255): wrapping sums mod 64
    let h = Pixel::from_array([10, 20, 30, 255]).hash_index();
    assert_eq!(h, 9);
}

#[test]
fn test_channels_and_colorspace() {
    assert!(Channels::Rgb.is_rgb() && !Channels::Rgb.is_rgba());
    assert!(Channels::Rgba.is_rgba() && !Channels::Rgba.is_rgb());
    assert_eq!(Channels::Rgb.as_u8(), 3);
    assert_eq!(Channels::Rgba.as_u8(), 4);
    assert_eq!(Channels::try_from_u8(3).unwrap(), Channels::Rgb);
    assert_eq!(Channels::try_from_u8(4).unwrap(), Channels::Rgba);
    assert_eq!(Channels::try_from_u8(5).unwrap_err(), Error::InvalidChannels { channels: 5 });
    assert_eq!(Channels::default(), Channels::Rgb);

    assert!(ColorSpace::Srgb.is_srgb() && !ColorSpace::Srgb.is_linear());
    assert!(ColorSpace::Linear.is_linear());
    assert_eq!(ColorSpace::Srgb.as_u8(), 0);
    assert_eq!(ColorSpace::Linear.as_u8(), 1);
    assert_eq!(ColorSpace::try_from_u8(0).unwrap(), ColorSpace::Srgb);
    assert_eq!(ColorSpace::try_from_u8(1).unwrap(), ColorSpace::Linear);
    assert_eq!(
        ColorSpace::try_from_u8(2).unwrap_err(),
        Error::InvalidColorSpace { colorspace: 2 }
    );
    assert_eq!(ColorSpace::default(), ColorSpace::Srgb);
}

#[test]
fn test_source_channels() {
    assert_eq!(SourceChannels::Rgb.bytes_per_pixel(), 3);
    assert_eq!(SourceChannels::Bgr.bytes_per_pixel(), 3);
    assert_eq!(SourceChannels::Rgbx.bytes_per_pixel(), 4);
    assert_eq!(SourceChannels::Abgr.bytes_per_pixel(), 4);
    assert_eq!(SourceChannels::Rgbx.image_channels(), Channels::Rgb);
    assert_eq!(SourceChannels::Bgra.image_channels(), Channels::Rgba);
    assert_eq!(SourceChannels::from_channels(Channels::Rgb), SourceChannels::Rgb);
    assert_eq!(SourceChannels::from_channels(Channels::Rgba), SourceChannels::Rgba);
}

#[test]
fn test_header_accessors() {
    let h = Header::try_new(10, 20, Channels::Rgba, ColorSpace::Srgb).unwrap();
    assert_eq!(h.n_pixels(), 200);
    assert_eq!(h.n_bytes(), 800);
    assert_eq!(h.encoded_size_limit(), 14 + 200 * 5 + 8);
    let h2 = h.with_channels(Channels::Rgb).with_colorspace(ColorSpace::Linear);
    assert_eq!(h2.channels, Channels::Rgb);
    assert_eq!(h2.colorspace, ColorSpace::Linear);
    assert_eq!(Header::default().n_pixels(), 1);
}

#[test]
fn test_header_errors() {
    assert_eq!(
        Header::try_new(0, 5, Channels::Rgb, ColorSpace::Srgb).unwrap_err(),
        Error::EmptyImage { width: 0, height: 5 }
    );
    assert_eq!(
        Header::try_new(30000, 30000, Channels::Rgb, ColorSpace::Srgb).unwrap_err(),
        Error::ImageTooLarge { width: 30000, height: 30000 }
    );

    let short: Vec<u8> = vec![0x71, 0x6F];
    assert_eq!(
        qoi_decode_header(&short).unwrap_err(),
        Error::InputBufferTooSmall { size: 2, required: 14 }
    );

    let mut bad_magic = Header::default().encode();
    bad_magic[0] = 0x70;
    assert!(matches!(
        qoi_decode_header(&bad_magic).unwrap_err(),
        Error::InvalidMagic { magic: _ }
    ));

    let mut bad_channels = Header::default().encode();
    bad_channels[12] = 5;
    assert_eq!(
        qoi_decode_header(&bad_channels).unwrap_err(),
        Error::InvalidChannels { channels: 5 }
    );

    let mut bad_cs = Header::default().encode();
    bad_cs[13] = 9;
    assert_eq!(
        qoi_decode_header(&bad_cs).unwrap_err(),
        Error::InvalidColorSpace { colorspace: 9 }
    );
}

#[test]
fn test_encoder_builder_layouts() {
    // BGR bytes reordered equal the RGB encoding of the same image
    let rgb: Vec<u8> = vec![1, 2, 3, 7, 8, 9];
    let bgr: Vec<u8> = vec![3, 2, 1, 9, 8, 7];
    let enc_rgb = encode_to_vec(&rgb, 2, 1).unwrap();
    let enc_bgr = EncoderBuilder::new(&bgr, 2, 1)
        .source_channels(SourceChannels::Bgr)
        .build()
        .unwrap()
        .encode_to_vec()
        .unwrap();
    assert_eq!(enc_rgb, enc_bgr);

    // an X byte is read and discarded
    let rgbx: Vec<u8> = vec![1, 2, 3, 77, 7, 8, 9, 88];
    let enc_rgbx = EncoderBuilder::new(&rgbx, 2, 1)
        .source_channels(SourceChannels::Rgbx)
        .build()
        .unwrap()
        .encode_to_vec()
        .unwrap();
    assert_eq!(enc_rgb, enc_rgbx);

    // ARGB reordered equals plain RGBA
    let rgba: Vec<u8> = vec![1, 2, 3, 4, 7, 8, 9, 10];
    let argb: Vec<u8> = vec![4, 1, 2, 3, 10, 7, 8, 9];
    let enc_rgba = encode_to_vec(&rgba, 2, 1).unwrap();
    let enc_argb = EncoderBuilder::new(&argb, 2, 1)
        .source_channels(SourceChannels::Argb)
        .build()
        .unwrap()
        .encode_to_vec()
        .unwrap();
    assert_eq!(enc_rgba, enc_argb);
}

#[test]
fn test_encoder_builder_stride() {
    // two rows of two RGB pixels, each row padded to 8 bytes
    let padded: Vec<u8> = vec![
        1, 2, 3, 4, 5, 6, 0xEE, 0xEE, // row 0 + padding
        7, 8, 9, 10, 11, 12, // row 1, no trailing padding
    ];
    let packed: Vec<u8> = vec![1, 2, 3, 4, 5, 6, 7, 8, 9, 10, 11, 12];
    let enc_padded = EncoderBuilder::new(&padded, 2, 2)
        .stride(8)
        .source_channels(SourceChannels::Rgb)
        .build()
        .unwrap()
        .encode_to_vec()
        .unwrap();
    let enc_packed = encode_to_vec(&packed, 2, 2).unwrap();
    assert_eq!(enc_padded, enc_packed);
}

fn expect_err<T>(r: Result<T, Error>) -> Error {
    match r {
        Err(e) => e,
        Ok(_) => panic!("expected an error"),
    }
}

#[test]
fn test_encoder_builder_errors() {
    let data: Vec<u8> = vec![0; 11];
    assert_eq!(
        expect_err(Encoder::new(&data, 2, 2)),
        Error::InvalidImageLength { size: 11, width: 2, height: 2 }
    );

    let data2: Vec<u8> = vec![0; 12];
    assert_eq!(
        expect_err(
            EncoderBuilder::new(&data2, 2, 2)
                .stride(5)
                .source_channels(SourceChannels::Rgb)
                .build(),
        ),
        Error::InvalidImageStride { size: 12, width: 2, height: 2, stride: 5 }
    );

    let data3: Vec<u8> = vec![0; 13];
    assert_eq!(
        expect_err(
            EncoderBuilder::new(&data3, 2, 2)
                .stride(6)
                .source_channels(SourceChannels::Rgb)
                .build(),
        ),
        Error::InvalidImageStride { size: 13, width: 2, height: 2, stride: 6 }
    );

    let none: Vec<u8> = vec![];
    assert_eq!(
        expect_err(Encoder::new(&none, 1, 0)),
        Error::InvalidImageLength { size: 0, width: 1, height: 0 }
    );
}

#[test]
fn test_encoder_accessors() {
    let data: Vec<u8> = vec![0; 12];
    let enc = Encoder::new(&data, 2, 2)
        .unwrap()
        .with_colorspace(ColorSpace::Linear);
    assert_eq!(enc.channels(), Channels::Rgb);
    assert_eq!(enc.header().colorspace, ColorSpace::Linear);
    assert_eq!(enc.required_buf_len(), 14 + 4 * 4 + 8);
}

#[test]
fn test_decoder_accessors() {
    let pixels: Vec<u8> = vec![1, 2, 3, 4, 5, 6];
    let encoded = encode_to_vec(&pixels, 2, 1).unwrap();
    let decoder = QoiDecoder::new(&encoded).unwrap();
    assert_eq!(decoder.channels(), Channels::Rgb);
    assert_eq!(decoder.header().width, 2);
    assert_eq!(decoder.data().len(), encoded.len() - 14);

    let mut decoder = decoder;
    let mut small = vec![0u8; 2];
    assert_eq!(
        decoder.decode_to_buf(&mut small).unwrap_err(),
        Error::OutputBufferTooSmall { size: 2, required: 6 }
    );
}

#[test]
fn test_decoder_output_too_small_vs_decode() {
    let pixels: Vec<u8> = vec![1, 2, 3, 4, 5, 6];
    let encoded = encode_to_vec(&pixels, 2, 1).unwrap();
    let mut decoder = QoiDecoder::new(&encoded).unwrap();
    let mut buf = vec![0u8; 6];
    assert_eq!(decoder.decode_to_buf(&mut buf).unwrap(), 6);
    assert_eq!(buf, pixels);
}

#[test]
fn test_bytes_mut_writer() {
    let sink = BytesMut::new(vec![0u8; 5]);
    assert_eq!(sink.len(), 5);
    let sink = sink.write_one(0xAB);
    assert_eq!(sink.len(), 4);
    let sink = sink.write_many(&vec![1, 2, 3]);
    assert_eq!(sink.len(), 1);
    let (buf, written) = sink.into_inner();
    assert_eq!(written, 4);
    assert_eq!(buf, vec![0xAB, 1, 2, 3, 0]);
}

#[test]
fn test_slice_reader() {
    let mut r = SliceReader::new(vec![1, 2, 3, 4, 5]);
    assert_eq!(r.remaining(), 5);
    assert_eq!(r.read_exact_vec(2).unwrap(), vec![1, 2]);
    assert_eq!(r.remaining(), 3);
    assert_eq!(r.read_exact_vec(4).unwrap_err(), Error::UnexpectedBufferEnd);
    assert_eq!(r.read_exact_vec(3).unwrap(), vec![3, 4, 5]);
    assert_eq!(r.remaining(), 0);
}

#[test]
fn test_branch_hints() {
    qoi_fast::utils::cold();
    assert!(qoi_fast::utils::likely(true));
    assert!(!qoi_fast::utils::unlikely(false));
}

#[test]
fn test_reference_mode_channel_validation() {
    let pixels: Vec<u8> = vec![0, 0, 0];
    // the single pixel equals the initial register, so it encodes as one
    // RUN byte
    assert_eq!(
        qoi_fast::qoi_encode_to_vec(&pixels, 1, 1, 7, ColorSpace::Srgb).unwrap_err(),
        Error::InvalidChannels { channels: 7 }
    );
    let mut out = vec![0u8; 64];
    assert_eq!(
        qoi_fast::qoi_encode_to_buf(&mut out, &pixels, 1, 1, 3, ColorSpace::Srgb).unwrap(),
        14 + 1 + 8
    );
}

#[test]
fn test_decode_channel_mismatch_is_error_free() {
    // decoding a stream whose header says 3 channels still accepts RGBA
    // opcodes; the decoder tracks full pixels either way
    let pixels: Vec<u8> = vec![1, 2, 3];
    let encoded = encode_to_vec(&pixels, 1, 1).unwrap();
    let (header, out) = qoi_decode_to_vec(&encoded).unwrap();
    assert_eq!(header.channels, Channels::Rgb);
    assert_eq!(out, pixels);
}

#[test]
fn test_stream_decoder_accessors() {
    let pixels: Vec<u8> = vec![1, 2, 3, 4, 5, 6];
    let encoded = encode_to_vec(&pixels, 2, 1).unwrap();
    let decoder = qoi_fast::QoiStreamDecoder::new(SliceReader::new(encoded.clone())).unwrap();
    assert_eq!(decoder.channels(), Channels::Rgb);
    let decoder = decoder.with_channels(Channels::Rgba);
    assert_eq!(decoder.channels(), Channels::Rgba);
    assert_eq!(decoder.reader().remaining(), encoded.len() - 14);

    let mut decoder = decoder;
    let out = decoder.decode_to_vec().unwrap();
    assert_eq!(out, vec![1, 2, 3, 255, 4, 5, 6, 255]);
    let reader = decoder.into_reader();
    assert_eq!(reader.remaining(), 0);
}

#[test]
fn test_stream_decoder_output_too_small() {
    let pixels: Vec<u8> = vec![1, 2, 3, 4, 5, 6];
    let encoded = encode_to_vec(&pixels, 2, 1).unwrap();
    let mut decoder = qoi_fast::QoiStreamDecoder::new(SliceReader::new(encoded)).unwrap();
    let mut small = vec![0u8; 5];
    assert_eq!(
        decoder.decode_to_buf(&mut small).unwrap_err(),
        Error::OutputBufferTooSmall { size: 5, required: 6 }
    );
}

#[test]
fn test_stream_decoder_truncated() {
    let pixels: Vec<u8> = vec![1, 2, 3, 4, 5, 6];
    let mut encoded = encode_to_vec(&pixels, 2, 1).unwrap();
    encoded.truncate(encoded.len() - 3);
    let mut decoder = qoi_fast::QoiStreamDecoder::new(SliceReader::new(encoded)).unwrap();
    assert_eq!(decoder.decode_to_vec().unwrap_err(), Error::UnexpectedBufferEnd);
}

#[test]
fn test_decoder_data_after_decode() {
    let pixels: Vec<u8> = vec![1, 2, 3, 4, 5, 6];
    let mut encoded = encode_to_vec(&pixels, 2, 1).unwrap();
    encoded.extend([0x42, 0x43]);
    let mut decoder = QoiDecoder::new(&encoded).unwrap();
    let out = decoder.decode_to_vec().unwrap();
    assert_eq!(out, pixels);
    // only the surplus past the end-marker is left unconsumed
    assert_eq!(decoder.data(), &[0x42, 0x43]);
}

#[test]
fn test_canonical_encode_to_buf_too_small() {
    let pixels: Vec<u8> = vec![0, 0, 0];
    let mut out = vec![0u8; 4];
    assert_eq!(
        qoi_fast::qoi_encode_to_buf(&mut out, &pixels, 1, 1, 3, ColorSpace::Srgb).unwrap_err(),
        Error::OutputBufferTooSmall { size: 4, required: 26 }
    );
}
