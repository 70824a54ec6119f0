//! Integer image arithmetic used by preprocessing and training augmentation.
//!
//! Pixel buffers are raw 8-bit RGB, row-major: channel `c` of the pixel at
//! column `x`, row `y` of a `width`-wide image sits at `(y * width + x) * 3 + c`.
use vstd::prelude::*;

verus! {

/// Narrowest recognition input, in pixels.
pub const RECOGNITION_MIN_WIDTH: u32 = 48;

/// Widest recognition input, in pixels.
pub const RECOGNITION_MAX_WIDTH: u32 = 2048;

/// Recognition input widths are rounded up to a multiple of this.
pub const RECOGNITION_WIDTH_BUCKET: u32 = 32;

/// Multiplier of the linear congruential generator.
pub const LCG_MULTIPLIER: u64 = 6364136223846793005;

/// Increment of the linear congruential generator.
pub const LCG_INCREMENT: u64 = 1442695040888963407;

/// Initial accumulator of the pixel hash.
pub const PIXEL_HASH_SEED: u64 = 0xcafebabe;

/// Salt stride that separates the pseudo-random streams of one seed.
pub const SALT_STRIDE: u64 = 2654435761;

/// `ceil(a / b)` for `b > 0`.
pub open spec fn ceil_div(a: int, b: int) -> int {
    (a + b - 1) / b
}

/// `value` (at least 1) rounded up to a multiple of `multiple`, saturating
/// at `u32::MAX`; with `multiple == 0` just `max(value, 1)`.
pub open spec fn rounded_up(value: u32, multiple: u32) -> u32 {
    let v: int = if value < 1 { 1 } else { value as int };
    if multiple == 0 {
        v as u32
    } else {
        let p = ceil_div(v, multiple as int) * multiple;
        if p > u32::MAX { u32::MAX } else { p as u32 }
    }
}

/// Rounds a size up to a multiple (at least 1), saturating at `u32::MAX`.
pub fn round_up_to_multiple(value: u32, multiple: u32) -> (r: u32)
    ensures
        r == rounded_up(value, multiple),
{
    let v: u64 = if value < 1 { 1 } else { value as u64 };
    if multiple == 0 {
        return v as u32;
    }
    let m: u64 = multiple as u64;
    let q: u64 = (v + m - 1) / m;
    assert(q * m <= (v + m - 1)) by (nonlinear_arith)
        requires
            q as int == (v as int + m as int - 1) / (m as int),
            m > 0,
    ;
    let p: u64 = q * m;
    if p > 0xffff_ffff {
        0xffff_ffff
    } else {
        p as u32
    }
}

/// Tensor width of a recognition input whose content is `width` pixels wide:
/// widths strictly inside the limits are rounded up to the bucket size and
/// capped at the maximum; the rest stay as they are.
pub open spec fn bucketed(width: u32) -> u32 {
    if width <= RECOGNITION_MIN_WIDTH || width >= RECOGNITION_MAX_WIDTH {
        width
    } else {
        let p = ceil_div(width as int, RECOGNITION_WIDTH_BUCKET as int) * RECOGNITION_WIDTH_BUCKET;
        if p > RECOGNITION_MAX_WIDTH { RECOGNITION_MAX_WIDTH } else { p as u32 }
    }
}

/// Without saturation, rounding up lands on the least multiple of
/// `multiple` that is at least `max(value, 1)`.
pub proof fn lemma_rounded_up_is_least_multiple(value: u32, multiple: u32)
    requires
        multiple > 0,
        ceil_div(if value < 1 { 1 } else { value as int }, multiple as int) * multiple <= u32::MAX,
    ensures
        rounded_up(value, multiple) % multiple == 0,
        rounded_up(value, multiple) >= value,
        rounded_up(value, multiple) >= 1,
        rounded_up(value, multiple) < (if value < 1 { 1 } else { value as int }) + multiple,
{
    let v: int = if value < 1 { 1 } else { value as int };
    let m = multiple as int;
    let q = ceil_div(v, m);
    assert(q * m % m == 0) by (nonlinear_arith)
        requires
            m > 0,
    ;
    assert(v <= q * m < v + m) by (nonlinear_arith)
        requires
            m > 0,
            v >= 1,
            q == (v + m - 1) / m,
    ;
}

/// Width bucket of a recognition input.
pub fn bucket_width(width: u32) -> (w: u32)
    ensures
        w == bucketed(width),
{
    if width <= RECOGNITION_MIN_WIDTH || width >= RECOGNITION_MAX_WIDTH {
        return width;
    }
    let q: u32 = (width + RECOGNITION_WIDTH_BUCKET - 1) / RECOGNITION_WIDTH_BUCKET;
    let p: u32 = q * RECOGNITION_WIDTH_BUCKET;
    if p > RECOGNITION_MAX_WIDTH {
        RECOGNITION_MAX_WIDTH
    } else {
        p
    }
}

/// A width inside the recognition limits stays inside them, is never
/// narrowed, and ends on a bucket boundary or at the maximum.
pub proof fn lemma_bucketed_in_limits(width: u32)
    requires
        RECOGNITION_MIN_WIDTH <= width <= RECOGNITION_MAX_WIDTH,
    ensures
        RECOGNITION_MIN_WIDTH <= bucketed(width) <= RECOGNITION_MAX_WIDTH,
        bucketed(width) >= width,
        bucketed(width) % RECOGNITION_WIDTH_BUCKET == 0 || bucketed(width) == width,
{
    let w = width as int;
    let q = ceil_div(w, 32);
    assert(w <= q * 32 && q * 32 % 32 == 0) by (nonlinear_arith)
        requires
            w >= 1,
            q == (w + 31) / 32,
    ;
}

/// `v` clamped into `0..=255`.
pub open spec fn clamped(v: int) -> u8 {
    if v < 0 {
        0
    } else if v > 255 {
        255
    } else {
        v as u8
    }
}

/// Clamps a signed value into the byte range.
pub fn clamp_u8(v: i32) -> (b: u8)
    ensures
        b == clamped(v as int),
{
    if v < 0 {
        0
    } else if v > 255 {
        255
    } else {
        v as u8
    }
}

/// Sum of a byte sequence.
pub open spec fn byte_sum(s: Seq<u8>) -> nat
    decreases s.len(),
{
    if s.len() == 0 {
        0
    } else {
        byte_sum(s.drop_last()) + s.last() as nat
    }
}

proof fn lemma_byte_sum_bound(s: Seq<u8>)
    ensures
        byte_sum(s) <= 255 * s.len(),
    decreases s.len(),
{
    if s.len() > 0 {
        lemma_byte_sum_bound(s.drop_last());
    }
}

/// Mean value of a grey image (0 for an empty one), rounded down.
pub fn background_luma(gray: &[u8]) -> (luma: u8)
    requires
        255 * gray@.len() <= u64::MAX,
    ensures
        gray@.len() == 0 ==> luma == 0,
        gray@.len() > 0 ==> luma == byte_sum(gray@) / gray@.len(),
{
    let mut sum: u64 = 0;
    let mut i: usize = 0;
    while i < gray.len()
        invariant
            i <= gray@.len(),
            255 * gray@.len() <= u64::MAX,
            sum == byte_sum(gray@.subrange(0, i as int)),
        decreases gray@.len() - i,
    {
        proof {
            assert(gray@.subrange(0, i + 1).drop_last() =~= gray@.subrange(0, i as int));
            lemma_byte_sum_bound(gray@.subrange(0, i + 1));
        }
        sum = sum + gray[i] as u64;
        i = i + 1;
    }
    assert(gray@.subrange(0, gray@.len() as int) =~= gray@);
    if gray.len() == 0 {
        return 0;
    }
    let n: u64 = gray.len() as u64;
    proof {
        lemma_byte_sum_bound(gray@);
        assert(sum / n <= 255) by (nonlinear_arith)
            requires
                sum <= 255 * n,
                n > 0,
        ;
    }
    (sum / n) as u8
}

/// One step of the linear congruential generator.
pub open spec fn lcg(seed: u64) -> u64 {
    seed.wrapping_mul(LCG_MULTIPLIER).wrapping_add(LCG_INCREMENT)
}

/// Advances the linear congruential generator by one step.
pub fn lcg_rand(seed: u64) -> (r: u64)
    ensures
        r == lcg(seed),
{
    seed.wrapping_mul(LCG_MULTIPLIER).wrapping_add(LCG_INCREMENT)
}

/// The 53 high bits of the generator step for `seed` and stream `salt`; the
/// caller scales them into `[0, 1)`.
pub open spec fn rand53(seed: u64, salt: u64) -> u64 {
    lcg(seed.wrapping_add((salt * SALT_STRIDE) as u64)) >> 11u64
}

/// Pseudo-random 53-bit value of stream `salt` for a seed.
pub fn rand_bits(seed: u64, salt: u64) -> (r: u64)
    requires
        salt * SALT_STRIDE <= u64::MAX,
    ensures
        r == rand53(seed, salt),
        r < 0x20_0000_0000_0000,
{
    let h = lcg_rand(seed.wrapping_add(salt * SALT_STRIDE));
    assert(h >> 11u64 < 0x20_0000_0000_0000u64) by (bit_vector);
    h >> 11u64
}

/// Distance between sampled bytes of the pixel hash.
pub open spec fn hash_step(len: nat) -> nat {
    if len / 64 < 1 { 1 } else { len / 64 }
}

/// Number of bytes that the pixel hash samples.
pub open spec fn hash_samples(len: nat) -> nat {
    ceil_div(len as int, hash_step(len) as int) as nat
}

/// Hash accumulator after the first `k` samples: each step multiplies by the
/// generator's multiplier and adds the sampled byte and its sample number.
pub open spec fn hash_prefix(raw: Seq<u8>, k: nat) -> u64
    decreases k,
{
    if k == 0 {
        PIXEL_HASH_SEED
    } else {
        let i = (k - 1) as nat;
        let v = raw[(i * hash_step(raw.len())) as int];
        hash_prefix(raw, i).wrapping_mul(LCG_MULTIPLIER).wrapping_add(v as u64).wrapping_add(
            i as u64,
        )
    }
}

/// Content hash of an image buffer, used as the seed of its augmentation:
/// about 64 evenly spaced bytes folded into one word.
pub fn pixel_hash(raw: &[u8]) -> (h: u64)
    ensures
        h == hash_prefix(raw@, hash_samples(raw@.len())),
{
    let len = raw.len();
    let step: usize = if len / 64 < 1 { 1 } else { len / 64 };
    assert(len % step != 0 ==> len / step < len) by (nonlinear_arith)
        requires
            step >= 1,
    ;
    let n: usize = len / step + if len % step != 0 { 1 } else { 0 };
    proof {
        lemma_ceil_div(len as int, step as int);
    }
    let mut acc: u64 = PIXEL_HASH_SEED;
    let mut i: usize = 0;
    while i < n
        invariant
            len == raw@.len(),
            step == hash_step(len as nat),
            n == hash_samples(len as nat),
            i <= n,
            forall|k: int| 0 <= k < n ==> #[trigger] (k * step) < len,
            acc == hash_prefix(raw@, i as nat),
        decreases n - i,
    {
        assert(i * step < len);
        let pos: usize = i * step;
        acc = acc.wrapping_mul(LCG_MULTIPLIER).wrapping_add(raw[pos] as u64).wrapping_add(i as u64);
        i = i + 1;
    }
    acc
}

/// The exact sample count, and every sample before it lies inside the buffer.
proof fn lemma_ceil_div(len: int, step: int)
    requires
        step >= 1,
        len >= 0,
    ensures
        len / step + (if len % step != 0 { 1int } else { 0int }) == ceil_div(len, step),
        forall|k: int| 0 <= k < ceil_div(len, step) ==> #[trigger] (k * step) < len,
{
    assert(len / step + (if len % step != 0 { 1int } else { 0int }) == (len + step - 1) / step)
        by (nonlinear_arith)
        requires
            step >= 1,
            len >= 0,
    ;
    assert forall|k: int| 0 <= k < ceil_div(len, step) implies #[trigger] (k * step) < len by {
        assert(k * step < len) by (nonlinear_arith)
            requires
                step >= 1,
                0 <= k,
                k < (len + step - 1) / step,
        ;
    }
}

/// Adds `delta` to every byte, clamping into the byte range.
pub fn shift_brightness(raw: &[u8], delta: i32) -> (out: Vec<u8>)
    requires
        delta <= i32::MAX - 255,
    ensures
        out@.len() == raw@.len(),
        forall|k: int| 0 <= k < raw@.len() ==> #[trigger] out@[k] == clamped(raw@[k] + delta),
{
    let mut out: Vec<u8> = Vec::new();
    let mut k: usize = 0;
    while k < raw.len()
        invariant
            k <= raw@.len(),
            delta <= i32::MAX - 255,
            out@.len() == k,
            forall|j: int| 0 <= j < k ==> #[trigger] out@[j] == clamped(raw@[j] + delta),
        decreases raw@.len() - k,
    {
        out.push(clamp_u8(raw[k] as i32 + delta));
        k = k + 1;
    }
    out
}

/// A brightness shift of zero leaves every byte as it was.
pub proof fn lemma_shift_by_zero(raw: Seq<u8>)
    ensures
        forall|k: int| 0 <= k < raw.len() ==> #[trigger] clamped(raw[k] + 0) == raw[k],
{
}

/// Remainder with the sign of the dividend, as Rust's `%` computes it.
pub open spec fn trunc_rem(a: int, m: int) -> int {
    if a >= 0 {
        a % m
    } else {
        -((-a) % m)
    }
}

/// Generator seed of the pixel at column `x`, row `y`.
pub open spec fn pixel_seed(seed: u64, x: u64, y: u64) -> u64 {
    seed.wrapping_add((x * 1000003) as u64).wrapping_add((y * 999983) as u64)
}

/// Noise offset of the pixel at column `x`, row `y`: a value of the
/// generator, truncated to 32 bits, reduced modulo `2 * amplitude + 1` and
/// shifted down by `amplitude`.
#[verifier::opaque]
pub open spec fn noise_at(seed: u64, x: u64, y: u64, amplitude: i32) -> int {
    trunc_rem(lcg(pixel_seed(seed, x, y)) as i32 as int, 2 * amplitude + 1) - amplitude
}

/// The largest noise amplitude for which the offset, which lies between
/// `-3 * amplitude` and `amplitude`, fits in an `i32` for every generator
/// value.
pub const MAX_NOISE_AMPLITUDE: i32 = 715_827_882;

/// Computes the noise offset of one pixel.
fn pixel_noise(seed: u64, x: u64, y: u64, amplitude: i32) -> (n: i32)
    requires
        0 <= amplitude <= MAX_NOISE_AMPLITUDE,
        x <= u32::MAX,
        y <= u32::MAX,
    ensures
        n == noise_at(seed, x, y, amplitude),
        -3 * amplitude - 1 <= n <= amplitude,
{
    reveal(noise_at);
    let ps = seed.wrapping_add(x * 1000003).wrapping_add(y * 999983);
    let v: i32 = lcg_rand(ps) as i32;
    let m: u64 = (2 * amplitude + 1) as u64;
    let r: i32 = if v >= 0 {
        ((v as u64) % m) as i32
    } else {
        let a: u64 = (-(v as i64)) as u64;
        -(((a % m) as i32))
    };
    r - amplitude
}

/// Offset of the first channel of the pixel at column `x`, row `y` of a
/// `w`-wide RGB buffer.
#[verifier::opaque]
pub open spec fn pixel_offset(w: int, x: int, y: int) -> int {
    (y * w + x) * 3
}

/// Where pixel offsets lie: inside the buffer, three apart along a row, a
/// row's end meeting the next row's start, and in row-major order.
proof fn lemma_pixel_offset(x: int, y: int, w: int, h: int)
    requires
        0 <= x < w,
        0 <= y < h,
    ensures
        0 <= pixel_offset(w, x, y),
        pixel_offset(w, x, y) + 3 <= w * h * 3,
        pixel_offset(w, x, y) + 3 == pixel_offset(w, x + 1, y),
        pixel_offset(w, w, y) == pixel_offset(w, 0, y + 1),
        forall|px: int, py: int|
            #![trigger pixel_offset(w, px, py)]
            0 <= px < w && 0 <= py && (py < y || (py == y && px < x)) ==> 0 <= pixel_offset(w, px, py)
                && pixel_offset(w, px, py) + 3 <= pixel_offset(w, x, y),
{
    reveal(pixel_offset);
    assert(y * w <= (h - 1) * w) by (nonlinear_arith)
        requires
            y <= h - 1,
            w >= 0,
    ;
    assert((h - 1) * w == h * w - w) by (nonlinear_arith);
    assert(w * h == h * w) by (nonlinear_arith);
    assert(0 <= y * w) by (nonlinear_arith)
        requires
            y >= 0,
            w >= 0,
    ;
    assert((y + 1) * w == y * w + w) by (nonlinear_arith);
    assert forall|px: int, py: int|
        0 <= px < w && 0 <= py && (py < y || (py == y && px < x)) implies 0 <= pixel_offset(
        w,
        px,
        py,
    ) && pixel_offset(w, px, py) + 3 <= pixel_offset(w, x, y) by {
        assert(0 <= py * w) by (nonlinear_arith)
            requires
                py >= 0,
                w >= 0,
        ;
        if py < y {
            assert(py * w + w <= y * w) by (nonlinear_arith)
                requires
                    py + 1 <= y,
                    w >= 0,
            ;
        }
    }
}

/// The first row starts at offset 0 and the rows end at the buffer's end.
proof fn lemma_rows_span(w: int, h: int)
    ensures
        pixel_offset(w, 0, 0) == 0,
        pixel_offset(w, 0, h) == w * h * 3,
{
    reveal(pixel_offset);
    assert(h * w == w * h) by (nonlinear_arith);
}

/// The offset of an in-image pixel, computed with machine integers.
fn offset_of(len: usize, w: u32, h: u32, x: u32, y: u32) -> (o: usize)
    requires
        len == w * h * 3,
        x < w,
        y < h,
    ensures
        o == pixel_offset(w as int, x as int, y as int),
        o + 3 <= len,
{
    proof {
        lemma_pixel_offset(x as int, y as int, w as int, h as int);
        reveal(pixel_offset);
        assert(0 <= y * w) by (nonlinear_arith)
            requires
                y >= 0,
                w >= 0,
        ;
    }
    ((y as usize) * (w as usize) + (x as usize)) * 3
}

/// Adds per-pixel uniform noise of the given amplitude to an RGB buffer; the
/// same offset goes to the three channels of a pixel.
pub fn add_noise(raw: &[u8], width: u32, height: u32, amplitude: i32, seed: u64) -> (out: Vec<u8>)
    requires
        raw@.len() == width * height * 3,
        0 <= amplitude <= MAX_NOISE_AMPLITUDE,
    ensures
        out@.len() == raw@.len(),
        forall|x: int, y: int, c: int|
            0 <= x < width && 0 <= y < height && 0 <= c < 3 ==> #[trigger] out@[pixel_offset(
                width as int,
                x,
                y,
            ) + c] == clamped(
                raw@[pixel_offset(width as int, x, y) + c] + noise_at(
                    seed,
                    x as u64,
                    y as u64,
                    amplitude,
                ),
            ),
{
    let len = raw.len();
    let mut out: Vec<u8> = Vec::new();
    let mut y: u32 = 0;
    if width == 0 {
        proof {
            assert(width * height * 3 == 0) by (nonlinear_arith)
                requires
                    width == 0,
            ;
        }
        return out;
    }
    proof {
        reveal(pixel_offset);
    }
    while y < height
        invariant
            y <= height,
            width > 0,
            len == raw@.len(),
            raw@.len() == width * height * 3,
            0 <= amplitude <= MAX_NOISE_AMPLITUDE,
            out@.len() == pixel_offset(width as int, 0, y as int),
            forall|px: int, py: int, c: int|
                0 <= px < width && 0 <= py < y && 0 <= c < 3 ==> #[trigger] out@[pixel_offset(
                    width as int,
                    px,
                    py,
                ) + c] == clamped(
                    raw@[pixel_offset(width as int, px, py) + c] + noise_at(
                        seed,
                        px as u64,
                        py as u64,
                        amplitude,
                    ),
                ),
        decreases height - y,
    {
        let mut x: u32 = 0;
        while x < width
            invariant
                x <= width,
                y < height,
                len == raw@.len(),
                raw@.len() == width * height * 3,
                0 <= amplitude <= MAX_NOISE_AMPLITUDE,
                out@.len() == pixel_offset(width as int, x as int, y as int),
                forall|px: int, py: int, c: int|
                    0 <= px < width && 0 <= py < height && 0 <= c < 3 && (py < y || (py == y && px
                        < x)) ==> #[trigger] out@[pixel_offset(width as int, px, py) + c] == clamped(
                        raw@[pixel_offset(width as int, px, py) + c] + noise_at(
                            seed,
                            px as u64,
                            py as u64,
                            amplitude,
                        ),
                    ),
            decreases width - x,
        {
            proof {
                lemma_pixel_offset(x as int, y as int, width as int, height as int);
            }
            let noise = pixel_noise(seed, x as u64, y as u64, amplitude);
            let base = offset_of(len, width, height, x, y);
            let ghost before = out@;
            out.push(clamp_u8(raw[base] as i32 + noise));
            out.push(clamp_u8(raw[base + 1] as i32 + noise));
            out.push(clamp_u8(raw[base + 2] as i32 + noise));
            proof {
                assert forall|px: int, py: int, c: int|
                    0 <= px < width && 0 <= py < height && 0 <= c < 3 && (py < y || (py == y && px
                        < x + 1)) implies #[trigger] out@[pixel_offset(width as int, px, py) + c]
                    == clamped(
                    raw@[pixel_offset(width as int, px, py) + c] + noise_at(
                        seed,
                        px as u64,
                        py as u64,
                        amplitude,
                    ),
                ) by {
                    if py == y && px == x {
                        assert(out@[pixel_offset(width as int, px, py) + c] == out@[base + c]);
                    } else {
                        assert(pixel_offset(width as int, px, py) + 3 <= pixel_offset(
                            width as int,
                            x as int,
                            y as int,
                        ));
                        assert(out@[pixel_offset(width as int, px, py) + c] == before[pixel_offset(
                            width as int,
                            px,
                            py,
                        ) + c]);
                    }
                }
            }
            x = x + 1;
        }
        proof {
            lemma_pixel_offset(0, y as int, width as int, height as int);
        }
        y = y + 1;
    }
    proof {
        lemma_rows_span(width as int, height as int);
    }
    out
}

/// Value of channel `c` at column `x`, row `y`, or 0 outside the image.
pub open spec fn tap(raw: Seq<u8>, w: int, h: int, x: int, y: int, c: int) -> int {
    if 0 <= x < w && 0 <= y < h {
        raw[pixel_offset(w, x, y) + c] as int
    } else {
        0
    }
}

/// 1 when `(x, y)` lies inside the image, else 0.
pub open spec fn inside(w: int, h: int, x: int, y: int) -> int {
    if 0 <= x < w && 0 <= y < h {
        1
    } else {
        0
    }
}

/// Sum of channel `c` over the 3x3 neighbourhood of `(x, y)` inside the image.
pub open spec fn blur_sum(raw: Seq<u8>, w: int, h: int, x: int, y: int, c: int) -> int {
    tap(raw, w, h, x - 1, y - 1, c) + tap(raw, w, h, x, y - 1, c) + tap(raw, w, h, x + 1, y - 1, c)
        + tap(raw, w, h, x - 1, y, c) + tap(raw, w, h, x, y, c) + tap(raw, w, h, x + 1, y, c)
        + tap(raw, w, h, x - 1, y + 1, c) + tap(raw, w, h, x, y + 1, c) + tap(
        raw,
        w,
        h,
        x + 1,
        y + 1,
        c,
    )
}

/// Number of pixels of the 3x3 neighbourhood of `(x, y)` inside the image.
pub open spec fn blur_count(w: int, h: int, x: int, y: int) -> int {
    inside(w, h, x - 1, y - 1) + inside(w, h, x, y - 1) + inside(w, h, x + 1, y - 1) + inside(
        w,
        h,
        x - 1,
        y,
    ) + inside(w, h, x, y) + inside(w, h, x + 1, y) + inside(w, h, x - 1, y + 1) + inside(
        w,
        h,
        x,
        y + 1,
    ) + inside(w, h, x + 1, y + 1)
}

/// In a channel uniform over the image, a neighbour contributes the common
/// value exactly when it lies inside.
proof fn lemma_tap_uniform(raw: Seq<u8>, w: int, h: int, c: int, v: u8, x: int, y: int)
    requires
        forall|px: int, py: int|
            0 <= px < w && 0 <= py < h ==> #[trigger] raw[pixel_offset(w, px, py) + c] == v,
    ensures
        tap(raw, w, h, x, y, c) == v * inside(w, h, x, y),
{
    if 0 <= x < w && 0 <= y < h {
        assert(raw[pixel_offset(w, x, y) + c] == v);
    }
}

/// Blurring leaves a channel that is uniform over the image as it was.
pub proof fn lemma_blur_uniform(raw: Seq<u8>, w: int, h: int, c: int, v: u8)
    requires
        0 <= c < 3,
        forall|x: int, y: int|
            0 <= x < w && 0 <= y < h ==> #[trigger] raw[pixel_offset(w, x, y) + c] == v,
    ensures
        forall|x: int, y: int|
            0 <= x < w && 0 <= y < h ==> #[trigger] blur_sum(raw, w, h, x, y, c) / blur_count(
                w,
                h,
                x,
                y,
            ) == v,
{
    assert forall|x: int, y: int| 0 <= x < w && 0 <= y < h implies #[trigger] blur_sum(
        raw,
        w,
        h,
        x,
        y,
        c,
    ) / blur_count(w, h, x, y) == v by {
        let n = blur_count(w, h, x, y);
        lemma_tap_uniform(raw, w, h, c, v, x - 1, y - 1);
        lemma_tap_uniform(raw, w, h, c, v, x, y - 1);
        lemma_tap_uniform(raw, w, h, c, v, x + 1, y - 1);
        lemma_tap_uniform(raw, w, h, c, v, x - 1, y);
        lemma_tap_uniform(raw, w, h, c, v, x, y);
        lemma_tap_uniform(raw, w, h, c, v, x + 1, y);
        lemma_tap_uniform(raw, w, h, c, v, x - 1, y + 1);
        lemma_tap_uniform(raw, w, h, c, v, x, y + 1);
        lemma_tap_uniform(raw, w, h, c, v, x + 1, y + 1);
        assert(blur_sum(raw, w, h, x, y, c) == v * n) by (nonlinear_arith)
            requires
                blur_sum(raw, w, h, x, y, c) == v * inside(w, h, x - 1, y - 1) + v * inside(
                    w,
                    h,
                    x,
                    y - 1,
                ) + v * inside(w, h, x + 1, y - 1) + v * inside(w, h, x - 1, y) + v * inside(
                    w,
                    h,
                    x,
                    y,
                ) + v * inside(w, h, x + 1, y) + v * inside(w, h, x - 1, y + 1) + v * inside(
                    w,
                    h,
                    x,
                    y + 1,
                ) + v * inside(w, h, x + 1, y + 1),
                n == blur_count(w, h, x, y),
                n == inside(w, h, x - 1, y - 1) + inside(w, h, x, y - 1) + inside(w, h, x + 1, y - 1)
                    + inside(w, h, x - 1, y) + inside(w, h, x, y) + inside(w, h, x + 1, y) + inside(
                    w,
                    h,
                    x - 1,
                    y + 1,
                ) + inside(w, h, x, y + 1) + inside(w, h, x + 1, y + 1),
        ;
        assert(inside(w, h, x, y) == 1);
        assert(n >= 1);
        assert((v * n) / n == v) by (nonlinear_arith)
            requires
                n >= 1,
        ;
    }
}

/// One neighbour's contribution: its value and whether it was inside.
fn tap_at(raw: &[u8], w: u32, h: u32, x: i64, y: i64, c: usize) -> (r: (u32, u32))
    requires
        raw@.len() == w * h * 3,
        c < 3,
    ensures
        r.0 == tap(raw@, w as int, h as int, x as int, y as int, c as int),
        r.1 == inside(w as int, h as int, x as int, y as int),
        r.0 <= 255,
{
    if 0 <= x && x < w as i64 && 0 <= y && y < h as i64 {
        let base = offset_of(raw.len(), w, h, x as u32, y as u32);
        (raw[base + c] as u32, 1)
    } else {
        (0, 0)
    }
}

/// Mean of channel `c` over the neighbourhood of `(x, y)`.
fn blur_value(raw: &[u8], w: u32, h: u32, x: u32, y: u32, c: usize) -> (v: u8)
    requires
        raw@.len() == w * h * 3,
        x < w,
        y < h,
        c < 3,
    ensures
        blur_count(w as int, h as int, x as int, y as int) >= 1,
        v == blur_sum(raw@, w as int, h as int, x as int, y as int, c as int) / blur_count(
            w as int,
            h as int,
            x as int,
            y as int,
        ),
{
    let xi = x as i64;
    let yi = y as i64;
    let t1 = tap_at(raw, w, h, xi - 1, yi - 1, c);
    let t2 = tap_at(raw, w, h, xi, yi - 1, c);
    let t3 = tap_at(raw, w, h, xi + 1, yi - 1, c);
    let t4 = tap_at(raw, w, h, xi - 1, yi, c);
    let t5 = tap_at(raw, w, h, xi, yi, c);
    let t6 = tap_at(raw, w, h, xi + 1, yi, c);
    let t7 = tap_at(raw, w, h, xi - 1, yi + 1, c);
    let t8 = tap_at(raw, w, h, xi, yi + 1, c);
    let t9 = tap_at(raw, w, h, xi + 1, yi + 1, c);
    let sum: u32 = t1.0 + t2.0 + t3.0 + t4.0 + t5.0 + t6.0 + t7.0 + t8.0 + t9.0;
    let count: u32 = t1.1 + t2.1 + t3.1 + t4.1 + t5.1 + t6.1 + t7.1 + t8.1 + t9.1;
    assert(t5.1 == 1);
    assert(t1.0 <= 255 * t1.1 && t2.0 <= 255 * t2.1 && t3.0 <= 255 * t3.1);
    assert(t4.0 <= 255 * t4.1 && t5.0 <= 255 * t5.1 && t6.0 <= 255 * t6.1);
    assert(t7.0 <= 255 * t7.1 && t8.0 <= 255 * t8.1 && t9.0 <= 255 * t9.1);
    assert(sum / count <= 255) by (nonlinear_arith)
        requires
            sum <= 255 * count,
            count >= 1,
    ;
    (sum / count) as u8
}

/// 3x3 mean blur of an RGB buffer: each channel becomes the mean, rounded
/// down, of that channel over the pixel's neighbours inside the image.
pub fn box_blur(raw: &[u8], width: u32, height: u32) -> (out: Vec<u8>)
    requires
        raw@.len() == width * height * 3,
    ensures
        out@.len() == raw@.len(),
        forall|x: int, y: int, c: int|
            0 <= x < width && 0 <= y < height && 0 <= c < 3 ==> #[trigger] out@[pixel_offset(
                width as int,
                x,
                y,
            ) + c] == blur_sum(raw@, width as int, height as int, x, y, c) / blur_count(
                width as int,
                height as int,
                x,
                y,
            ),
{
    let mut out: Vec<u8> = Vec::new();
    let mut y: u32 = 0;
    if width == 0 {
        proof {
            assert(width * height * 3 == 0) by (nonlinear_arith)
                requires
                    width == 0,
            ;
        }
        return out;
    }
    proof {
        reveal(pixel_offset);
    }
    while y < height
        invariant
            y <= height,
            width > 0,
            raw@.len() == width * height * 3,
            out@.len() == pixel_offset(width as int, 0, y as int),
            forall|px: int, py: int, c: int|
                0 <= px < width && 0 <= py < y && 0 <= c < 3 ==> #[trigger] out@[pixel_offset(
                    width as int,
                    px,
                    py,
                ) + c] == blur_sum(raw@, width as int, height as int, px, py, c) / blur_count(
                    width as int,
                    height as int,
                    px,
                    py,
                ),
        decreases height - y,
    {
        let mut x: u32 = 0;
        while x < width
            invariant
                x <= width,
                y < height,
                raw@.len() == width * height * 3,
                out@.len() == pixel_offset(width as int, x as int, y as int),
                forall|px: int, py: int, c: int|
                    0 <= px < width && 0 <= py < height && 0 <= c < 3 && (py < y || (py == y && px
                        < x)) ==> #[trigger] out@[pixel_offset(width as int, px, py) + c] == blur_sum(
                        raw@,
                        width as int,
                        height as int,
                        px,
                        py,
                        c,
                    ) / blur_count(width as int, height as int, px, py),
            decreases width - x,
        {
            proof {
                lemma_pixel_offset(x as int, y as int, width as int, height as int);
            }
            let ghost base: int = pixel_offset(width as int, x as int, y as int);
            let ghost before = out@;
            out.push(blur_value(raw, width, height, x, y, 0));
            out.push(blur_value(raw, width, height, x, y, 1));
            out.push(blur_value(raw, width, height, x, y, 2));
            proof {
                assert forall|px: int, py: int, c: int|
                    0 <= px < width && 0 <= py < height && 0 <= c < 3 && (py < y || (py == y && px
                        < x + 1)) implies #[trigger] out@[pixel_offset(width as int, px, py) + c]
                    == blur_sum(raw@, width as int, height as int, px, py, c) / blur_count(
                    width as int,
                    height as int,
                    px,
                    py,
                ) by {
                    if py == y && px == x {
                        assert(out@[pixel_offset(width as int, px, py) + c] == out@[base + c]);
                    } else {
                        assert(pixel_offset(width as int, px, py) + 3 <= base);
                        assert(out@[pixel_offset(width as int, px, py) + c] == before[pixel_offset(
                            width as int,
                            px,
                            py,
                        ) + c]);
                    }
                }
            }
            x = x + 1;
        }
        proof {
            lemma_pixel_offset(0, y as int, width as int, height as int);
        }
        y = y + 1;
    }
    proof {
        lemma_rows_span(width as int, height as int);
    }
    out
}

/// The 4-neighbours of `(x, y)` that lie inside a `width x height` grid, in
/// the order left, right, up, down.
pub open spec fn neighbour_list(x: int, y: int, width: int, height: int) -> Seq<(usize, usize)> {
    let l = if x > 0 { seq![((x - 1) as usize, y as usize)] } else { seq![] };
    let r = if x + 1 < width { seq![((x + 1) as usize, y as usize)] } else { seq![] };
    let u = if y > 0 { seq![(x as usize, (y - 1) as usize)] } else { seq![] };
    let d = if y + 1 < height { seq![(x as usize, (y + 1) as usize)] } else { seq![] };
    l + r + u + d
}

/// Lists the 4-neighbours of a grid cell that lie inside the grid.
pub fn neighbors(x: usize, y: usize, width: usize, height: usize) -> (n: Vec<(usize, usize)>)
    requires
        x < width,
        y < height,
    ensures
        n@ == neighbour_list(x as int, y as int, width as int, height as int),
{
    let mut n: Vec<(usize, usize)> = Vec::new();
    if x > 0 {
        n.push((x - 1, y));
    }
    if x + 1 < width {
        n.push((x + 1, y));
    }
    if y > 0 {
        n.push((x, y - 1));
    }
    if y + 1 < height {
        n.push((x, y + 1));
    }
    assert(n@ =~= neighbour_list(x as int, y as int, width as int, height as int));
    n
}

} // verus!
