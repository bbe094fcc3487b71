//! Randomized round-trip: a deterministic generator biased across the
//! opcode classes (runs, cache hits, small and medium deltas, fresh
//! pixels) feeds images through encode and decode in both modes.

use qoi_fast::{
    encode_to_vec, qoi_decode_to_vec, qoi_encode_to_vec, ColorSpace, QoiStreamDecoder, SliceReader,
};

struct Rng(u64);

impl Rng {
    fn next(&mut self) -> u64 {
        // a linear congruential step, constants from common 64-bit use
        self.0 = self.0.wrapping_mul(6364136223846793005).wrapping_add(1442695040888963407);
        self.0 >> 33
    }

    fn below(&mut self, n: u64) -> u64 {
        self.next() % n
    }
}

struct Gen {
    pixels: Vec<u8>,
    prev: [u8; 4],
    index: [[u8; 4]; 64],
    channels: usize,
    count: usize,
}

fn hash(px: [u8; 4]) -> usize {
    (px[0]
        .wrapping_mul(3)
        .wrapping_add(px[1].wrapping_mul(5))
        .wrapping_add(px[2].wrapping_mul(7))
        .wrapping_add(px[3].wrapping_mul(11))
        % 64) as usize
}

impl Gen {
    fn new(channels: usize) -> Self {
        Gen {
            pixels: Vec::new(),
            prev: [0, 0, 0, if channels == 4 { 0xFF } else { 0xFF }],
            index: [[0; 4]; 64],
            channels,
            count: 0,
        }
    }

    fn write(&mut self, px: [u8; 4]) {
        self.index[hash(px)] = px;
        for i in 0..self.channels {
            self.pixels.push(px[i]);
        }
        self.prev = px;
        self.count += 1;
    }

    fn generate(&mut self, rng: &mut Rng, min_len: usize) {
        while self.count < min_len {
            match rng.below(6) {
                0 => {
                    // a fresh random pixel
                    let a = if self.channels == 4 { rng.next() as u8 } else { 0xFF };
                    self.write([rng.next() as u8, rng.next() as u8, rng.next() as u8, a]);
                }
                1 => {
                    // a pixel picked from the cache
                    let px = self.index[rng.below(64) as usize];
                    let px = if self.channels == 3 { [px[0], px[1], px[2], 0xFF] } else { px };
                    self.write(px);
                }
                2 => {
                    // a run, long enough to force 62-run flushes at times
                    let n = 1 + rng.below(70);
                    let px = self.prev;
                    for _ in 0..n {
                        self.write(px);
                    }
                }
                3 => {
                    // a small delta in DIFF range
                    let mut px = self.prev;
                    for c in 0..3 {
                        px[c] = px[c].wrapping_add((rng.below(4) as u8).wrapping_sub(2));
                    }
                    self.write(px);
                }
                4 => {
                    // a medium delta in LUMA range
                    let mut px = self.prev;
                    let vg = (rng.below(64) as u8).wrapping_sub(32);
                    let vr = (rng.below(16) as u8).wrapping_sub(8).wrapping_add(vg);
                    let vb = (rng.below(16) as u8).wrapping_sub(8).wrapping_add(vg);
                    px[0] = px[0].wrapping_add(vr);
                    px[1] = px[1].wrapping_add(vg);
                    px[2] = px[2].wrapping_add(vb);
                    self.write(px);
                }
                _ => {
                    // back to the canonical start pixel
                    self.write([0, 0, 0, 0xFF]);
                }
            }
        }
    }
}

#[test]
fn test_generated_roundtrip() {
    let mut rng = Rng(7);
    let mut n_pixels = 0usize;
    while n_pixels < 60_000 {
        let min_len = 1 + rng.below(1500) as usize;
        let channels = 3 + rng.below(2) as usize;
        let mut g = Gen::new(channels);
        g.generate(&mut rng, min_len);
        let img = g.pixels.clone();
        let size = img.len() / channels;

        let encoded = encode_to_vec(&img, size as u32, 1).unwrap();
        let decoded = qoi_decode_to_vec(&encoded).unwrap().1;
        assert_eq!(&img, &decoded, "roundtrip fail");

        let mut stream = QoiStreamDecoder::new(SliceReader::new(encoded.clone())).unwrap();
        let stream_decoded = stream.decode_to_vec().unwrap();
        assert_eq!(&img, &stream_decoded, "stream roundtrip fail");

        let reference = qoi_encode_to_vec(&img, size as u32, 1, channels as u8, ColorSpace::Srgb)
            .unwrap();
        let decoded_ref = qoi_decode_to_vec(&reference).unwrap().1;
        assert_eq!(&img, &decoded_ref, "reference-mode roundtrip fail");

        n_pixels += size;
    }
}
