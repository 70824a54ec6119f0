use aiocr::imaging::{
    add_noise, background_luma, box_blur, bucket_width, clamp_u8, lcg_rand, pixel_hash, rand_bits,
    round_up_to_multiple, shift_brightness, MAX_NOISE_AMPLITUDE,
};

#[test]
fn round_up_to_multiple_examples() {
    assert_eq!(round_up_to_multiple(100, 32), 128);
    assert_eq!(round_up_to_multiple(128, 32), 128);
    assert_eq!(round_up_to_multiple(0, 32), 32);
    assert_eq!(round_up_to_multiple(0, 0), 1);
    assert_eq!(round_up_to_multiple(77, 0), 77);
    assert_eq!(round_up_to_multiple(u32::MAX, 32), u32::MAX);
}

#[test]
fn recognition_width_buckets() {
    // 97 pixels of content go into a 128-wide tensor.
    assert_eq!(bucket_width(97), 128);
    assert_eq!(bucket_width(10), 10);
    assert_eq!(bucket_width(48), 48);
    assert_eq!(bucket_width(49), 64);
    assert_eq!(bucket_width(2040), 2048);
    assert_eq!(bucket_width(4000), 4000);
}

#[test]
fn clamping_into_bytes() {
    assert_eq!(clamp_u8(-5), 0);
    assert_eq!(clamp_u8(0), 0);
    assert_eq!(clamp_u8(200), 200);
    assert_eq!(clamp_u8(300), 255);
}

#[test]
fn background_luma_is_the_floor_mean() {
    assert_eq!(background_luma(&[]), 0);
    assert_eq!(background_luma(&[10, 20, 31]), 20);
    assert_eq!(background_luma(&[255, 255]), 255);
}

#[test]
fn generator_and_hash_values() {
    assert_eq!(lcg_rand(0), 1442695040888963407);
    assert_eq!(lcg_rand(1), 7806831264735756412);
    assert_eq!(rand_bits(12345, 0), 986996338168104);
    assert_eq!(rand_bits(12345, 3), 6905787358478011);
    assert_eq!(pixel_hash(&[]), 3405691582);
    assert_eq!(pixel_hash(&[1, 2, 3]), 5931727314340320075);
    let raw: Vec<u8> = (0..300u32).map(|k| ((7 * k) % 256) as u8).collect();
    assert_eq!(pixel_hash(&raw), 6455943172882397053);
}

#[test]
fn brightness_shift_clamps() {
    assert_eq!(shift_brightness(&[0, 100, 250], 10), vec![10, 110, 255]);
    assert_eq!(shift_brightness(&[0, 100, 250], -120), vec![0, 0, 130]);
    assert_eq!(shift_brightness(&[3, 7, 9], 0), vec![3, 7, 9]);
}

#[test]
fn noise_is_shared_by_the_channels_of_a_pixel() {
    let raw: Vec<u8> = vec![100, 150, 200, 0, 5, 250, 30, 60, 90, 255, 128, 1];
    let out = add_noise(&raw, 2, 2, 10, 99);
    assert_eq!(out, vec![86, 136, 186, 0, 0, 228, 0, 30, 60, 238, 111, 0]);
    assert_eq!(add_noise(&raw, 2, 2, 0, 99), raw);
}

#[test]
fn noise_at_the_largest_amplitude() {
    let raw: Vec<u8> = vec![100, 150, 200, 0, 5, 250, 30, 60, 90, 255, 128, 1];
    let a = MAX_NOISE_AMPLITUDE as i64;
    let seed: u64 = 7;
    let mut expected = Vec::new();
    for y in 0..2u64 {
        for x in 0..2u64 {
            let ps = seed.wrapping_add(x * 1_000_003).wrapping_add(y * 999_983);
            let v = lcg_rand(ps) as i32 as i64;
            let noise = v % (2 * a + 1) - a;
            let base = ((y * 2 + x) * 3) as usize;
            for c in 0..3 {
                expected.push((raw[base + c] as i64 + noise).clamp(0, 255) as u8);
            }
        }
    }
    assert_eq!(add_noise(&raw, 2, 2, MAX_NOISE_AMPLITUDE, seed), expected);
}

#[test]
fn box_blur_averages_neighbours_inside_the_image() {
    let raw: Vec<u8> = vec![10, 0, 0, 20, 0, 0, 30, 0, 0, 40, 0, 0, 50, 0, 0, 61, 0, 0];
    let out = box_blur(&raw, 3, 2);
    assert_eq!(out, vec![30, 0, 0, 35, 0, 0, 40, 0, 0, 30, 0, 0, 35, 0, 0, 40, 0, 0]);
}

#[test]
fn box_blur_keeps_a_uniform_image() {
    let raw: Vec<u8> = [200u8, 180, 160].repeat(20);
    assert_eq!(box_blur(&raw, 5, 4), raw);
    assert!(box_blur(&[], 0, 7).is_empty());
}
