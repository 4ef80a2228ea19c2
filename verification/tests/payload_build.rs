use camstream::chunks::frame_payload;
use camstream::payload::build_payload;

/// A synthetic framebuffer whose byte at index `k` is `k % 239`, two bytes
/// per pixel.
fn framebuffer(width: usize, height: usize) -> Vec<u8> {
    let mut data = Vec::new();
    let mut k: usize = 0;
    while k < width * height * 2 {
        data.push((k % 239) as u8);
        k += 1;
    }
    data
}

#[test]
fn header_carries_downsampled_dimensions() {
    let data = framebuffer(6, 4);
    let p = build_payload(&data, 6, 4, 2);
    // width/2 = 3 and height/2 = 2, little-endian u32 each
    assert_eq!(&p[0..4], &[3, 0, 0, 0]);
    assert_eq!(&p[4..8], &[2, 0, 0, 0]);
    // one sample (2 bytes) per retained pixel
    assert_eq!(p.len(), 8 + 3 * 2 * 2);
}

#[test]
fn samples_are_strided_top_left_aligned() {
    let data = framebuffer(4, 2);
    let p = build_payload(&data, 4, 2, 2);
    // cols = 2, rows = 1; samples at pixel (0,0) and (0,2)
    assert_eq!(&p[0..4], &[2, 0, 0, 0]);
    assert_eq!(&p[4..8], &[1, 0, 0, 0]);
    assert_eq!(p[8], data[0]);
    assert_eq!(p[9], data[1]);
    assert_eq!(p[10], data[4]);
    assert_eq!(p[11], data[5]);
    assert_eq!(p.len(), 12);
}

#[test]
fn scale_one_keeps_every_pixel() {
    let data = framebuffer(3, 2);
    let p = build_payload(&data, 3, 2, 1);
    assert_eq!(&p[0..4], &[3, 0, 0, 0]);
    assert_eq!(&p[4..8], &[2, 0, 0, 0]);
    assert_eq!(&p[8..], &data[..]);
}

#[test]
fn degenerate_dimensions_yield_empty_body() {
    let data: Vec<u8> = Vec::new();
    let p = build_payload(&data, 0, 3, 1);
    assert_eq!(p, vec![0, 0, 0, 0, 3, 0, 0, 0]);
    // a frame smaller than the scale keeps no sample either
    let data = framebuffer(2, 2);
    let p = build_payload(&data, 2, 2, 3);
    assert_eq!(p, vec![0, 0, 0, 0, 0, 0, 0, 0]);
}

#[test]
fn built_payload_survives_framing_round_trip() {
    let data = framebuffer(240, 240);
    let p = build_payload(&data, 240, 240, 2);
    assert_eq!(p.len(), 8 + 120 * 120 * 2);
    let chunks = frame_payload(&p, 765);
    let mut out = Vec::new();
    for (i, c) in chunks.iter().enumerate() {
        let prefix = if i == 0 { 4 } else { 1 };
        out.extend_from_slice(&c[prefix..]);
    }
    assert_eq!(out, p);
}
