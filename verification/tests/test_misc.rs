use qoi_fast::consts::{QOI_OP_INDEX, QOI_OP_RGB, QOI_OP_RUN};
use qoi_fast::{
    qoi_decode_to_vec, Channels, ColorSpace, Header, QoiDecoder, QoiStreamDecoder, SliceReader,
};

fn one_pixel_qoi_image() -> Vec<u8> {
    vec![
        0x71, 0x6F, 0x69, 0x66, // magic
        0x00, 0x00, 0x00, 0x01, // width
        0x00, 0x00, 0x00, 0x01, // height
        0x04, // number of channels
        0x00, // colorspace
        0x55, // QOI_OP_DIFF with zero deltas
        0x00, 0x00, 0x00, 0x00, 0x00, 0x00, 0x00, 0x01, // padding
    ]
}

fn one_pixel_qoi_header() -> Header {
    Header { width: 1, height: 1, channels: Channels::Rgba, colorspace: ColorSpace::Srgb }
}

#[test]
fn test_new_encoder() {
    let arr: Vec<u8> = vec![0u8];
    let _ = QoiDecoder::new(&arr);
}

#[test]
fn test_start_with_qoi_op_run() {
    let header = Header::try_new(3, 1, Channels::Rgba, ColorSpace::Linear).unwrap();
    let mut qoi_data: Vec<u8> = header.encode();
    qoi_data.extend([QOI_OP_RUN | 1, QOI_OP_RGB, 10, 20, 30]);
    qoi_data.extend([0; 7]);
    qoi_data.push(1);
    let expected = vec![0, 0, 0, 255, 0, 0, 0, 255, 10, 20, 30, 255];

    assert_eq!(qoi_decode_to_vec(&qoi_data).unwrap().1, expected);

    let stream = SliceReader::new(qoi_data.clone());
    let mut decoder = QoiStreamDecoder::new(stream).unwrap();
    assert_eq!(decoder.decode_to_vec().unwrap(), expected);
}

#[test]
fn test_start_with_qoi_op_run_and_use_index() {
    let header = Header::try_new(4, 1, Channels::Rgba, ColorSpace::Linear).unwrap();
    let mut qoi_data: Vec<u8> = header.encode();
    qoi_data.extend([QOI_OP_RUN | 1, QOI_OP_RGB, 10, 20, 30, QOI_OP_INDEX | 53]);
    qoi_data.extend([0; 7]);
    qoi_data.push(1);
    let expected = vec![0, 0, 0, 255, 0, 0, 0, 255, 10, 20, 30, 255, 0, 0, 0, 255];

    assert_eq!(qoi_decode_to_vec(&qoi_data).unwrap().1, expected);

    let stream = SliceReader::new(qoi_data.clone());
    let mut decoder = QoiStreamDecoder::new(stream).unwrap();
    assert_eq!(decoder.decode_to_vec().unwrap(), expected);
}

#[test]
fn test_decode_stream_to_exact_sized_buffer() {
    let mut decoder = QoiStreamDecoder::new(SliceReader::new(one_pixel_qoi_image())).unwrap();
    assert_eq!(decoder.header(), &one_pixel_qoi_header());

    let required = decoder.header().n_bytes();
    let mut out = vec![0u8; required];
    let n_written = decoder.decode_to_buf(&mut out).unwrap();
    assert_eq!(n_written, 4);
}

#[test]
fn test_decode_stream_to_larger_buffer() {
    let mut decoder = QoiStreamDecoder::new(SliceReader::new(one_pixel_qoi_image())).unwrap();
    assert_eq!(decoder.header(), &one_pixel_qoi_header());

    let required = decoder.header().n_bytes();
    let mut out = vec![0u8; required + 16];
    let n_written = decoder.decode_to_buf(&mut out).unwrap();
    assert_eq!(n_written, 4);
    assert_eq!(&out[4..], &[0_u8; 16]);
}

#[test]
fn test_big_endian() {
    assert_eq!(u16::to_be_bytes(1), [0, 1]);
}
