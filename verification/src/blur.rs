use vstd::prelude::*;
use crate::layout::{lemma_join_index, lemma_split_index, RGBA_PIXEL_BYTES};

verus! {

/// Absolute value of an integer.
pub open spec fn magnitude(v: int) -> int {
    if v < 0 { -v } else { v }
}

/// A coordinate pushed back into `0 .. n`: pixels outside the image repeat its border.
pub open spec fn clamp_coord(c: int, n: int) -> int {
    if c < 0 {
        0
    } else if c >= n {
        n - 1
    } else {
        c
    }
}

/// Weight of the offset `(dx, dy)` in the blur window of radius `r`: it falls by one per
/// step of Manhattan distance from the centre, which weighs `r + 1`.
pub open spec fn kernel_weight(r: int, dx: int, dy: int) -> int {
    r + 1 - magnitude(dx) - magnitude(dy)
}

/// Channel `c` of the pixel at `(x, y)` of a `w` x `h` RGBA image, the coordinates first
/// pushed back into the image.
pub open spec fn sample(img: Seq<u8>, w: int, h: int, x: int, y: int, c: int) -> int {
    img[(clamp_coord(y, h) * w + clamp_coord(x, w)) * 4 + c] as int
}

/// Sum of `f(dx, dy)` over the first `n` offsets `dx = -r, -r + 1, ...` of one window row.
pub open spec fn row_sum(f: spec_fn(int, int) -> int, r: int, dy: int, n: nat) -> int
    decreases n,
{
    if n == 0 {
        0
    } else {
        row_sum(f, r, dy, (n - 1) as nat) + f(n - 1 - r, dy)
    }
}

/// Sum of `f(dx, dy)` over the first `m` rows `dy = -r, -r + 1, ...` of the window of
/// radius `r`, each row taken whole.
pub open spec fn window_sum(f: spec_fn(int, int) -> int, r: int, m: nat) -> int
    decreases m,
{
    if m == 0 {
        0
    } else {
        window_sum(f, r, (m - 1) as nat) + row_sum(f, r, m - 1 - r, (2 * r + 1) as nat)
    }
}

/// Sum of `f(dx, dy)` over the whole square window `-r <= dx, dy <= r`.
pub open spec fn kernel_total(f: spec_fn(int, int) -> int, r: int) -> int {
    window_sum(f, r, (2 * r + 1) as nat)
}

/// The weights of the window of radius `r`.
pub open spec fn weights(r: int) -> spec_fn(int, int) -> int {
    |dx: int, dy: int| kernel_weight(r, dx, dy)
}

/// Sum of all weights of the window of radius `r`.
pub open spec fn weight_total(r: int) -> int {
    kernel_total(weights(r), r)
}

/// Weighted channel `c` of the window around `(x, y)`.
pub open spec fn weighted_samples(img: Seq<u8>, w: int, h: int, r: int, x: int, y: int, c: int) -> spec_fn(int, int) -> int {
    |dx: int, dy: int| kernel_weight(r, dx, dy) * sample(img, w, h, x + dx, y + dy, c)
}

/// Weighted sum of channel `c` over the window of radius `r` around `(x, y)`.
pub open spec fn channel_sum(img: Seq<u8>, w: int, h: int, r: int, x: int, y: int, c: int) -> int {
    kernel_total(weighted_samples(img, w, h, r, x, y, c), r)
}

/// `num / den` rounded to the nearest integer (halves away from zero) and saturated to
/// the range of a byte.
pub open spec fn rounded_channel(num: int, den: int) -> int {
    let q = (2 * num + den) / (2 * den);
    if q < 0 {
        0
    } else if q > 255 {
        255
    } else {
        q
    }
}

/// Channel `c` of the pixel at `(x, y)` after one blur pass of radius `r`: the weighted
/// mean of the window around it.
pub open spec fn blurred_value(img: Seq<u8>, w: int, h: int, r: int, x: int, y: int, c: int) -> u8 {
    rounded_channel(channel_sum(img, w, h, r, x, y, c), weight_total(r)) as u8
}

/// The buffer after one blur pass of radius `r` over its first `w * h` pixels; bytes
/// after them stay.
pub open spec fn blur_once(s: Seq<u8>, w: int, h: int, r: int) -> Seq<u8> {
    Seq::new(
        s.len(),
        |k: int|
            if k < w * h * 4 {
                blurred_value(s, w, h, r, (k / 4) % w, (k / 4) / w, k % 4)
            } else {
                s[k]
            },
    )
}

/// Twice the sum of `|j - r|` for `j < n`, in closed form.
pub open spec fn distance_total2(r: int, n: int) -> int {
    if n <= r + 1 {
        n * (2 * r - n + 1)
    } else {
        r * (r + 1) + (n - r - 1) * (n - r)
    }
}

proof fn lemma_distance_step(r: int, m: int)
    requires
        0 <= r,
        0 <= m,
        m + 1 <= 2 * r + 1,
    ensures
        distance_total2(r, m + 1) == distance_total2(r, m) + 2 * magnitude(m - r),
{
    let a = distance_total2(r, m + 1);
    let b = distance_total2(r, m);
    if m + 1 <= r + 1 {
        assert(a == (m + 1) * (2 * r - (m + 1) + 1));
        assert(b == m * (2 * r - m + 1));
        assert(magnitude(m - r) == r - m);
        assert((m + 1) * (2 * r - (m + 1) + 1) == m * (2 * r - m + 1) + 2 * (r - m)) by (nonlinear_arith);
    } else if m == r + 1 {
        assert(a == r * (r + 1) + (m + 1 - r - 1) * (m + 1 - r));
        assert(b == m * (2 * r - m + 1));
        assert(magnitude(m - r) == 1);
        assert(m * (2 * r - m + 1) == r * (r + 1)) by (nonlinear_arith)
            requires m == r + 1;
        assert((m + 1 - r - 1) * (m + 1 - r) == 2) by (nonlinear_arith)
            requires m == r + 1;
    } else {
        assert(a == r * (r + 1) + (m + 1 - r - 1) * (m + 1 - r));
        assert(b == r * (r + 1) + (m - r - 1) * (m - r));
        assert(magnitude(m - r) == m - r);
        assert((m + 1 - r - 1) * (m + 1 - r) == (m - r - 1) * (m - r) + 2 * (m - r)) by (nonlinear_arith);
    }
}

proof fn lemma_row_weights(r: int, dy: int, n: nat)
    requires
        0 <= r,
        n <= 2 * r + 1,
    ensures
        2 * row_sum(weights(r), r, dy, n) == 2 * (n * (r + 1 - magnitude(dy))) - distance_total2(r, n as int),
    decreases n,
{
    if n > 0 {
        let m: nat = (n - 1) as nat;
        let x = r + 1 - magnitude(dy);
        lemma_row_weights(r, dy, m);
        lemma_distance_step(r, m as int);
        assert(row_sum(weights(r), r, dy, n) == row_sum(weights(r), r, dy, m) + weights(r)(m - r, dy));
        assert(weights(r)(m - r, dy) == r + 1 - magnitude(m - r) - magnitude(dy));
        assert(n * x == m * x + x) by (nonlinear_arith)
            requires n == m + 1;
    } else {
        assert(distance_total2(r, 0) == 0);
        assert(n * (r + 1 - magnitude(dy)) == 0) by (nonlinear_arith)
            requires n == 0;
    }
}

proof fn lemma_window_weights(r: int, m: nat)
    requires
        0 <= r,
        m <= 2 * r + 1,
    ensures
        2 * window_sum(weights(r), r, m) == 2 * (m * ((2 * r + 1) * (r + 1))) - (2 * r + 1) * distance_total2(r, m as int) - 2 * (m * (r * (r + 1))),
    decreases m,
{
    if m > 0 {
        let i: nat = (m - 1) as nat;
        let d = 2 * r + 1;
        let e = d * (r + 1);
        let k = r * (r + 1);
        let mm = magnitude(i - r);
        lemma_window_weights(r, i);
        lemma_row_weights(r, i - r, d as nat);
        lemma_distance_step(r, i as int);
        lemma_distance_step_full(r);
        assert(window_sum(weights(r), r, m) == window_sum(weights(r), r, i) + row_sum(weights(r), r, i - r, d as nat));
        assert(d * (r + 1 - mm) == e - d * mm) by (nonlinear_arith)
            requires e == d * (r + 1);
        assert(m * e == i * e + e) by (nonlinear_arith)
            requires m == i + 1;
        assert(m * k == i * k + k) by (nonlinear_arith)
            requires m == i + 1;
        assert(d * (distance_total2(r, i as int) + 2 * mm) == d * distance_total2(r, i as int) + 2 * (d * mm)) by (nonlinear_arith);
    } else {
        assert(distance_total2(r, 0) == 0);
        assert(m * ((2 * r + 1) * (r + 1)) == 0 && m * (r * (r + 1)) == 0 && (2 * r + 1) * 0 == 0) by (nonlinear_arith)
            requires m == 0;
    }
}

proof fn lemma_distance_step_full(r: int)
    requires
        0 <= r,
    ensures
        distance_total2(r, 2 * r + 1) == 2 * (r * (r + 1)),
{
    let d = 2 * r + 1;
    if r == 0 {
        assert(distance_total2(r, d) == d * (2 * r - d + 1));
        assert(d * (2 * r - d + 1) == 0) by (nonlinear_arith)
            requires d == 2 * r + 1, r == 0;
    } else {
        assert(distance_total2(r, d) == r * (r + 1) + (d - r - 1) * (d - r));
        assert((d - r - 1) * (d - r) == r * (r + 1)) by (nonlinear_arith)
            requires d == 2 * r + 1;
    }
}

/// The weights of the blur window of radius `r` add up to `(2r + 1)(r + 1)`, which is
/// positive: the weighted mean is always defined.
pub proof fn lemma_weight_total(r: int)
    requires
        0 <= r,
    ensures
        weight_total(r) == (2 * r + 1) * (r + 1),
        weight_total(r) > 0,
{
    let d = 2 * r + 1;
    let e = d * (r + 1);
    let k = r * (r + 1);
    lemma_window_weights(r, d as nat);
    lemma_distance_step_full(r);
    assert(d * distance_total2(r, d) == 2 * (d * k)) by (nonlinear_arith)
        requires distance_total2(r, d) == 2 * k;
    assert(weight_total(r) == window_sum(weights(r), r, d as nat));
    assert(d * e - d * k - d * k == e) by (nonlinear_arith)
        requires d == 2 * r + 1, e == d * (r + 1), k == r * (r + 1);
    assert(d * (r + 1) > 0) by (nonlinear_arith)
        requires d == 2 * r + 1, 0 <= r;
}


/// Inputs that one blur pass handles without overflowing its coordinate arithmetic: the
/// window of radius `radius` has at most `isize::MAX / 8` cells, and every coordinate
/// within `radius` of the image fits in an `i32`.
pub open spec fn blur_supported(width: int, height: int, radius: int) -> bool {
    &&& 0 <= radius
    &&& 8 * ((2 * radius + 1) * (2 * radius + 1)) <= isize::MAX
    &&& (width == 0 || height == 0 || (width <= i32::MAX && height <= i32::MAX && width - 1 + radius <= i32::MAX && height - 1 + radius <= i32::MAX))
}

/// The weighted sum of a window stays within `2^100` in magnitude for supported radii.
proof fn lemma_window_bounds(r: int, d: int, bound: int)
    requires
        0 <= r,
        d == 2 * r + 1,
        bound == (r + 1) * 255,
        8 * (d * d) <= isize::MAX,
    ensures
        d * d * bound <= 0x10_0000_0000_0000_0000_0000_0000,
        d <= 0x8000_0000,
        d * d <= 0x1000_0000_0000_0000,
{
    assert(d * d <= 0x1000_0000_0000_0000);
    if d > 0x8000_0000 {
        assert(d * d > 0x8000_0000 * 0x8000_0000) by (nonlinear_arith)
            requires d > 0x8000_0000;
    }
    assert(r <= 0x4000_0000);
    assert(bound <= 0x100_0000_0000);
    assert(d * d * bound <= 0x1000_0000_0000_0000 * 0x100_0000_0000) by (nonlinear_arith)
        requires d * d <= 0x1000_0000_0000_0000, 0 <= bound <= 0x100_0000_0000, d * d >= 0;
}

/// What rounding and saturating a mean `num / den` to a byte gives: 255 once the mean
/// reaches 254.5, 0 below one half, and otherwise the integer `v` nearest to it, halves
/// going up (`v - 1/2 <= num / den < v + 1/2`). The result never wraps around.
pub proof fn lemma_rounded_channel_bounds(num: int, den: int)
    requires
        0 < den,
    ensures
        0 <= rounded_channel(num, den) <= 255,
        2 * num + den >= 510 * den ==> rounded_channel(num, den) == 255,
        2 * num + den < 2 * den ==> rounded_channel(num, den) == 0,
        2 * den <= 2 * num + den < 510 * den ==> rounded_channel(num, den) * (2 * den) <= 2 * num + den
            < rounded_channel(num, den) * (2 * den) + 2 * den,
{
    let x = 2 * num + den;
    let d2 = 2 * den;
    let q = x / d2;
    vstd::arithmetic::div_mod::lemma_fundamental_div_mod(x, d2);
    vstd::arithmetic::div_mod::lemma_mod_bound(x, d2);
    let rem = x % d2;
    assert(x == d2 * q + rem);
    if x >= 510 * den {
        assert(q >= 255) by (nonlinear_arith)
            requires x == d2 * q + rem, 0 <= rem < d2, d2 == 2 * den, x >= 510 * den, den > 0;
    } else if x < d2 {
        assert(q <= 0) by (nonlinear_arith)
            requires x == d2 * q + rem, 0 <= rem < d2, x < d2, den > 0;
    } else {
        assert(1 <= q <= 254) by (nonlinear_arith)
            requires x == d2 * q + rem, 0 <= rem < d2, d2 == 2 * den, d2 <= x < 510 * den, den > 0;
        assert(q * d2 == d2 * q) by (nonlinear_arith);
    }
}

/// Channel value of the weighted mean `sum / total`, rounded and saturated to a byte.
fn round_channel(sum: i128, total: i128) -> (v: u8)
    requires
        0 < total <= 0x1_0000_0000_0000_0000,
        -0x10_0000_0000_0000_0000_0000_0000 <= sum <= 0x10_0000_0000_0000_0000_0000_0000,
    ensures
        v as int == rounded_channel(sum as int, total as int),
        2 * sum + total >= 510 * total ==> v == 255,
        2 * sum + total < 2 * total ==> v == 0,
        2 * total <= 2 * sum + total < 510 * total ==> v * (2 * total) <= 2 * sum + total < v * (2 * total) + 2 * total,
{
    proof {
        lemma_rounded_channel_bounds(sum as int, total as int);
    }
    let num = 2 * sum + total;
    if num < 0 {
        assert((2 * sum + total) / (2 * total) < 0) by (nonlinear_arith)
            requires 2 * sum + total < 0, total > 0;
        0
    } else {
        let q = (num as u128) / ((2 * total) as u128);
        if q > 255 {
            255
        } else {
            q as u8
        }
    }
}

/// Offset of pixel `(x, y)` of a `w` x `h` image lies inside the first `w * h` pixels.
proof fn lemma_pixel_in_image(w: int, h: int, x: int, y: int)
    requires
        0 <= x < w,
        0 <= y < h,
    ensures
        0 <= y * w + x < w * h,
        (y * w + x) * 4 + 4 <= w * h * 4,
{
    assert(0 <= y * w + x < w * h) by (nonlinear_arith)
        requires 0 <= x < w, 0 <= y < h;
}

/// The four channels of pixel `(x, y)` after one blur pass of radius `radius`, read from
/// the untouched image `img`.
fn blur_pixel(img: &Vec<u8>, width: usize, height: usize, x: usize, y: usize, radius: u32, total: i128) -> (res: (u8, u8, u8, u8))
    requires
        blur_supported(width as int, height as int, radius as int),
        x < width,
        y < height,
        width * height * 4 <= img@.len(),
        total == weight_total(radius as int),
    ensures
        res.0 == blurred_value(img@, width as int, height as int, radius as int, x as int, y as int, 0),
        res.1 == blurred_value(img@, width as int, height as int, radius as int, x as int, y as int, 1),
        res.2 == blurred_value(img@, width as int, height as int, radius as int, x as int, y as int, 2),
        res.3 == blurred_value(img@, width as int, height as int, radius as int, x as int, y as int, 3),
{
    let ghost s = img@;
    let ghost wg = width as int;
    let ghost hg = height as int;
    let ghost rg = radius as int;
    let ghost f0 = weighted_samples(s, wg, hg, rg, x as int, y as int, 0);
    let ghost f1 = weighted_samples(s, wg, hg, rg, x as int, y as int, 1);
    let ghost f2 = weighted_samples(s, wg, hg, rg, x as int, y as int, 2);
    let ghost f3 = weighted_samples(s, wg, hg, rg, x as int, y as int, 3);
    let r: i64 = radius as i64;
    let d: i64 = 2 * r + 1;
    let ghost bound: int = (rg + 1) * 255;
    let len = img.len();
    proof {
        lemma_window_bounds(rg, d as int, bound);
        lemma_weight_total(rg);
        assert(total <= d * d) by (nonlinear_arith)
            requires total == (2 * rg + 1) * (rg + 1), d == 2 * rg + 1, rg >= 0;
    }
    let wi: i64 = width as i64;
    let hi: i64 = height as i64;
    let xi: i64 = x as i64;
    let yi: i64 = y as i64;
    let mut s0: i128 = 0;
    let mut s1: i128 = 0;
    let mut s2: i128 = 0;
    let mut s3: i128 = 0;
    let mut i: i64 = 0;
    while i < d
        invariant
            s == img@,
            wg == width,
            hg == height,
            rg == radius,
            r == radius,
            d == 2 * r + 1,
            bound == (rg + 1) * 255,
            d * d * bound <= 0x10_0000_0000_0000_0000_0000_0000,
            d * d <= 0x1000_0000_0000_0000,
            blur_supported(wg, hg, rg),
            wi == width,
            hi == height,
            xi == x,
            yi == y,
            x < width,
            y < height,
            width * height * 4 <= s.len(),
            len == s.len(),
            f0 == weighted_samples(s, wg, hg, rg, x as int, y as int, 0),
            f1 == weighted_samples(s, wg, hg, rg, x as int, y as int, 1),
            f2 == weighted_samples(s, wg, hg, rg, x as int, y as int, 2),
            f3 == weighted_samples(s, wg, hg, rg, x as int, y as int, 3),
            0 <= i <= d,
            s0 == window_sum(f0, rg, i as nat),
            s1 == window_sum(f1, rg, i as nat),
            s2 == window_sum(f2, rg, i as nat),
            s3 == window_sum(f3, rg, i as nat),
            -((i * d) * bound) <= s0 <= (i * d) * bound,
            -((i * d) * bound) <= s1 <= (i * d) * bound,
            -((i * d) * bound) <= s2 <= (i * d) * bound,
            -((i * d) * bound) <= s3 <= (i * d) * bound,
        decreases d - i,
    {
        let dy = i - r;
        let ny_un = yi + dy;
        let ny: i64 = if ny_un < 0 {
            0
        } else if ny_un >= hi {
            hi - 1
        } else {
            ny_un
        };
        assert(ny == clamp_coord(y + dy, hg));
        let ady: i64 = if dy < 0 { -dy } else { dy };
        let mut j: i64 = 0;
        while j < d
            invariant
                s == img@,
                wg == width,
                hg == height,
                rg == radius,
                r == radius,
                d == 2 * r + 1,
                bound == (rg + 1) * 255,
                d * d * bound <= 0x10_0000_0000_0000_0000_0000_0000,
                d * d <= 0x1000_0000_0000_0000,
                blur_supported(wg, hg, rg),
                wi == width,
                hi == height,
                xi == x,
                x < width,
                y < height,
                width * height * 4 <= s.len(),
                len == s.len(),
                f0 == weighted_samples(s, wg, hg, rg, x as int, y as int, 0),
                f1 == weighted_samples(s, wg, hg, rg, x as int, y as int, 1),
                f2 == weighted_samples(s, wg, hg, rg, x as int, y as int, 2),
                f3 == weighted_samples(s, wg, hg, rg, x as int, y as int, 3),
                0 <= i < d,
                dy == i - r,
                ady == magnitude(dy as int),
                0 <= ny < height,
                ny == clamp_coord(y + dy, hg),
                0 <= j <= d,
                s0 == window_sum(f0, rg, i as nat) + row_sum(f0, rg, dy as int, j as nat),
                s1 == window_sum(f1, rg, i as nat) + row_sum(f1, rg, dy as int, j as nat),
                s2 == window_sum(f2, rg, i as nat) + row_sum(f2, rg, dy as int, j as nat),
                s3 == window_sum(f3, rg, i as nat) + row_sum(f3, rg, dy as int, j as nat),
                -((i * d + j) * bound) <= s0 <= (i * d + j) * bound,
                -((i * d + j) * bound) <= s1 <= (i * d + j) * bound,
                -((i * d + j) * bound) <= s2 <= (i * d + j) * bound,
                -((i * d + j) * bound) <= s3 <= (i * d + j) * bound,
            decreases d - j,
        {
            let dx = j - r;
            let nx_un = xi + dx;
            let nx: i64 = if nx_un < 0 {
                0
            } else if nx_un >= wi {
                wi - 1
            } else {
                nx_un
            };
            let adx: i64 = if dx < 0 { -dx } else { dx };
            let wgt: i64 = r + 1 - adx - ady;
            proof {
                lemma_pixel_in_image(wg, hg, nx as int, ny as int);
                assert(i * d + j + 1 <= d * d) by (nonlinear_arith)
                    requires 0 <= i < d, 0 <= j < d;
                assert((i * d + j + 1) * bound == (i * d + j) * bound + bound) by (nonlinear_arith);
                assert((i * d + j + 1) * bound <= d * d * bound) by (nonlinear_arith)
                    requires i * d + j + 1 <= d * d, bound >= 0;
            }
            let src = ((ny as usize) * width + (nx as usize)) * RGBA_PIXEL_BYTES;
            let v0 = img[src] as i128;
            let v1 = img[src + 1] as i128;
            let v2 = img[src + 2] as i128;
            let v3 = img[src + 3] as i128;
            proof {
                assert(nx == clamp_coord(x + dx, wg));
                assert(f0(dx as int, dy as int) == wgt * v0);
                assert(f1(dx as int, dy as int) == wgt * v1);
                assert(f2(dx as int, dy as int) == wgt * v2);
                assert(f3(dx as int, dy as int) == wgt * v3);
                assert(-bound <= wgt * v0 <= bound && -bound <= wgt * v1 <= bound
                    && -bound <= wgt * v2 <= bound && -bound <= wgt * v3 <= bound) by (nonlinear_arith)
                    requires 1 - r <= wgt <= r + 1, 0 <= v0 <= 255, 0 <= v1 <= 255, 0 <= v2 <= 255, 0 <= v3 <= 255,
                        r >= 0, bound == (r + 1) * 255;
            }
            let w128 = wgt as i128;
            s0 = s0 + w128 * v0;
            s1 = s1 + w128 * v1;
            s2 = s2 + w128 * v2;
            s3 = s3 + w128 * v3;
            j += 1;
        }
        proof {
            assert((i + 1) * d == i * d + d) by (nonlinear_arith);
        }
        i += 1;
    }
    (round_channel(s0, total), round_channel(s1, total), round_channel(s2, total), round_channel(s3, total))
}


/// One blur pass of radius `radius` over the `width` x `height` RGBA image at the start
/// of `data`: every channel of every pixel becomes the weighted mean of the same channel
/// over the square window of radius `radius` around it, pixels outside the image
/// repeating its border, each weight falling by one per step of Manhattan distance from
/// the centre (which weighs `radius + 1`, so that the far corners of the window weigh
/// less than zero); the mean is computed exactly, rounded to the nearest integer (halves
/// away from zero) and saturated to a byte. All pixels are computed from the image as it was before the pass.
pub fn blur_pass(data: &mut [u8], width: usize, height: usize, radius: u32)
    requires
        width * height * 4 <= old(data)@.len(),
        blur_supported(width as int, height as int, radius as int),
    ensures
        final(data)@ == blur_once(old(data)@, width as int, height as int, radius as int),
{
    let ghost orig = data@;
    let ghost target = blur_once(orig, width as int, height as int, radius as int);
    let original = vstd::slice::slice_to_vec(data);
    let len = data.len();
    let r = radius as i128;
    assert((2 * r + 1) * (r + 1) <= 0x4_0000_0000_0000_0000) by (nonlinear_arith)
        requires 0 <= r <= 0xffff_ffff;
    let total: i128 = (2 * r + 1) * (r + 1);
    proof {
        lemma_weight_total(radius as int);
    }
    let mut y: usize = 0;
    while y < height
        invariant
            original@ == orig,
            data@.len() == orig.len(),
            len == orig.len(),
            width * height * 4 <= len,
            blur_supported(width as int, height as int, radius as int),
            total == weight_total(radius as int),
            target == blur_once(orig, width as int, height as int, radius as int),
            y <= height,
            forall|k: int| 0 <= k < len ==> #[trigger] data@[k] == if k < y * width * 4 { target[k] } else { orig[k] },
        decreases height - y,
    {
        let mut x: usize = 0;
        while x < width
            invariant
                original@ == orig,
                data@.len() == orig.len(),
                len == orig.len(),
                width * height * 4 <= len,
                blur_supported(width as int, height as int, radius as int),
                total == weight_total(radius as int),
                target == blur_once(orig, width as int, height as int, radius as int),
                y < height,
                x <= width,
                forall|k: int| 0 <= k < len ==> #[trigger] data@[k] == if k < (y * width + x) * 4 { target[k] } else { orig[k] },
            decreases width - x,
        {
            let px = blur_pixel(&original, width, height, x, y, radius, total);
            proof {
                lemma_pixel_in_image(width as int, height as int, x as int, y as int);
                lemma_join_index(y as int, width as int, x as int);
            }
            let dst = (y * width + x) * RGBA_PIXEL_BYTES;
            let ghost p = y * width + x;
            proof {
                assert forall|c: int| 0 <= c < 4 implies #[trigger] target[p * 4 + c] == blurred_value(orig, width as int, height as int, radius as int, x as int, y as int, c) by {
                    assert((p * 4 + c) / 4 == p);
                    assert((p * 4 + c) % 4 == c);
                }
            }
            data[dst] = px.0;
            data[dst + 1] = px.1;
            data[dst + 2] = px.2;
            data[dst + 3] = px.3;
            x += 1;
        }
        proof {
            assert((y * width + width) * 4 == (y + 1) * width * 4) by (nonlinear_arith);
        }
        y += 1;
    }
    proof {
        assert(height * width * 4 == width * height * 4) by (nonlinear_arith);
    }
    assert(data@ =~= target);
}


/// Every pixel among the first `n` of `s` has the same four channels as the first pixel.
pub open spec fn is_uniform(s: Seq<u8>, n: int) -> bool {
    forall|p: int, c: int| 0 <= p < n && 0 <= c < 4 ==> #[trigger] s[p * 4 + c] == s[c]
}

proof fn lemma_row_scale(f: spec_fn(int, int) -> int, g: spec_fn(int, int) -> int, v: int, r: int, dy: int, n: nat)
    requires
        forall|dx: int| #[trigger] f(dx, dy) == v * g(dx, dy),
    ensures
        row_sum(f, r, dy, n) == v * row_sum(g, r, dy, n),
    decreases n,
{
    if n > 0 {
        let m: nat = (n - 1) as nat;
        lemma_row_scale(f, g, v, r, dy, m);
        let a = row_sum(g, r, dy, m);
        let b = g(m - r, dy);
        assert(f(m - r, dy) == v * b);
        assert(v * (a + b) == v * a + v * b) by (nonlinear_arith);
    } else {
        assert(v * 0 == 0) by (nonlinear_arith);
    }
}

proof fn lemma_window_scale(f: spec_fn(int, int) -> int, g: spec_fn(int, int) -> int, v: int, r: int, m: nat)
    requires
        forall|dx: int, dy: int| #[trigger] f(dx, dy) == v * g(dx, dy),
    ensures
        window_sum(f, r, m) == v * window_sum(g, r, m),
    decreases m,
{
    if m > 0 {
        let i: nat = (m - 1) as nat;
        lemma_window_scale(f, g, v, r, i);
        lemma_row_scale(f, g, v, r, i - r, (2 * r + 1) as nat);
        let a = window_sum(g, r, i);
        let b = row_sum(g, r, i - r, (2 * r + 1) as nat);
        assert(v * (a + b) == v * a + v * b) by (nonlinear_arith);
    } else {
        assert(v * 0 == 0) by (nonlinear_arith);
    }
}

/// The rounded mean of `v` repeated with total weight `total` is `v` itself.
proof fn lemma_round_exact(v: int, total: int)
    requires
        0 <= v <= 255,
        0 < total,
    ensures
        rounded_channel(v * total, total) == v,
{
    assert(2 * (v * total) + total == v * (2 * total) + total) by (nonlinear_arith);
    vstd::arithmetic::div_mod::lemma_fundamental_div_mod_converse(2 * (v * total) + total, 2 * total, v, total);
}

/// Channel `c` of pixel `(x, y)` after one blur pass is the weighted mean of its window,
/// `channel_sum / ((2r + 1)(r + 1))`, rounded to the nearest integer and saturated to a
/// byte: 255 where the mean reaches 254.5 (in particular where it is 255 or more), 0 where
/// it is below one half (in particular where it is 0 or less), and otherwise the integer
/// within one half of it. It never wraps around.
pub proof fn lemma_blur_once_channel(s: Seq<u8>, w: int, h: int, r: int, x: int, y: int, c: int)
    requires
        0 <= r,
        0 <= x < w,
        0 <= y < h,
        0 <= c < 4,
        w * h * 4 <= s.len(),
    ensures
        ({
            let v = blur_once(s, w, h, r)[(y * w + x) * 4 + c] as int;
            let num = channel_sum(s, w, h, r, x, y, c);
            let den = (2 * r + 1) * (r + 1);
            &&& 0 < den
            &&& (num >= 255 * den ==> v == 255)
            &&& (num <= 0 ==> v == 0)
            &&& (2 * num + den >= 510 * den ==> v == 255)
            &&& (2 * num + den < 2 * den ==> v == 0)
            &&& (2 * den <= 2 * num + den < 510 * den ==> v * (2 * den) <= 2 * num + den < v * (2 * den) + 2 * den)
        }),
{
    let k = (y * w + x) * 4 + c;
    lemma_pixel_in_image(w, h, x, y);
    lemma_join_index(y * w + x, 4, c);
    lemma_join_index(y, w, x);
    lemma_weight_total(r);
    let num = channel_sum(s, w, h, r, x, y, c);
    let den = weight_total(r);
    lemma_rounded_channel_bounds(num, den);
    assert(blur_once(s, w, h, r)[k] == blurred_value(s, w, h, r, x, y, c));
    assert(num >= 255 * den ==> 2 * num + den >= 510 * den);
}

/// Blurring an image whose pixels are all equal leaves it unchanged, whatever the
/// radius: each weighted mean is the mean of equal values.
pub proof fn lemma_blur_uniform(s: Seq<u8>, w: int, h: int, r: int)
    requires
        0 <= w,
        0 <= h,
        0 <= r,
        w * h * 4 <= s.len(),
        is_uniform(s, w * h),
    ensures
        blur_once(s, w, h, r) == s,
{
    lemma_weight_total(r);
    assert forall|k: int| 0 <= k < s.len() implies #[trigger] blur_once(s, w, h, r)[k] == s[k] by {
        if k < w * h * 4 {
            assert(w > 0 && h > 0) by (nonlinear_arith)
                requires 0 <= k < w * h * 4, 0 <= w, 0 <= h;
            let p = k / 4;
            let c = k % 4;
            let x = p % w;
            let y = p / w;
            lemma_split_index(p, w);
            assert(p < w * h);
            assert(w * h == h * w) by (nonlinear_arith);
            crate::layout::lemma_block_of_index(p, w, h);
            let v = s[c] as int;
            let f = weighted_samples(s, w, h, r, x, y, c);
            assert forall|dx: int, dy: int| #[trigger] f(dx, dy) == v * weights(r)(dx, dy) by {
                let cx = clamp_coord(x + dx, w);
                let cy = clamp_coord(y + dy, h);
                lemma_pixel_in_image(w, h, cx, cy);
                assert(s[(cy * w + cx) * 4 + c] == s[c]);
                assert(kernel_weight(r, dx, dy) * v == v * kernel_weight(r, dx, dy)) by (nonlinear_arith);
            }
            lemma_window_scale(f, weights(r), v, r, (2 * r + 1) as nat);
            lemma_round_exact(v, weight_total(r));
            assert(s[p * 4 + c] == s[c]);
        }
    }
    assert(blur_once(s, w, h, r) =~= s);
}

/// A blur of radius zero leaves the image unchanged: the window is the pixel itself.
pub proof fn lemma_blur_radius_zero(s: Seq<u8>, w: int, h: int)
    requires
        0 <= w,
        0 <= h,
        w * h * 4 <= s.len(),
    ensures
        blur_once(s, w, h, 0) == s,
{
    lemma_weight_total(0);
    assert forall|k: int| 0 <= k < s.len() implies #[trigger] blur_once(s, w, h, 0)[k] == s[k] by {
        if k < w * h * 4 {
            assert(w > 0 && h > 0) by (nonlinear_arith)
                requires 0 <= k < w * h * 4, 0 <= w, 0 <= h;
            let p = k / 4;
            let c = k % 4;
            let x = p % w;
            let y = p / w;
            lemma_split_index(p, w);
            assert(w * h == h * w) by (nonlinear_arith);
            crate::layout::lemma_block_of_index(p, w, h);
            let f = weighted_samples(s, w, h, 0, x, y, c);
            let v = s[k] as int;
            assert(y * w + x == p) by (nonlinear_arith)
                requires p == (p / w) * w + p % w, x == p % w, y == p / w;
            assert(clamp_coord(x + 0, w) == x);
            assert(clamp_coord(y + 0, h) == y);
            assert(kernel_weight(0, 0, 0) == 1);
            assert(sample(s, w, h, x + 0, y + 0, c) == s[(y * w + x) * 4 + c]);
            assert(f(0, 0) == 1 * sample(s, w, h, x + 0, y + 0, c));
            assert(f(0, 0) == s[(y * w + x) * 4 + c]);
            assert(row_sum(f, 0, 0, 0) == 0);
            assert(row_sum(f, 0, 0, 1) == f(0, 0));
            assert(window_sum(f, 0, 0) == 0);
            assert(window_sum(f, 0, 1) == row_sum(f, 0, 0, 1));
            assert(channel_sum(s, w, h, 0, x, y, c) == v);
            assert(v == v * 1) by (nonlinear_arith);
            lemma_round_exact(v, 1);
        }
    }
    assert(blur_once(s, w, h, 0) =~= s);
}

/// An image of a single pixel is unchanged by a blur of any radius.
pub proof fn lemma_blur_single_pixel(s: Seq<u8>, r: int)
    requires
        0 <= r,
        4 <= s.len(),
    ensures
        blur_once(s, 1, 1, r) == s,
{
    assert forall|p: int, c: int| 0 <= p < 1 * 1 && 0 <= c < 4 implies #[trigger] s[p * 4 + c] == s[c] by {
        assert(p == 0);
    }
    lemma_blur_uniform(s, 1, 1, r);
}


/// The buffer after `n` blur passes of radius `r`.
pub open spec fn blur_repeated(s: Seq<u8>, w: int, h: int, r: int, n: nat) -> Seq<u8>
    decreases n,
{
    if n == 0 {
        s
    } else {
        blur_once(blur_repeated(s, w, h, r, (n - 1) as nat), w, h, r)
    }
}

/// No pass leaves the image as it is: `n + 1` passes are one pass applied to the result
/// of `n` passes.
pub proof fn lemma_blur_repeated_step(s: Seq<u8>, w: int, h: int, r: int, n: nat)
    ensures
        blur_repeated(s, w, h, r, n + 1) == blur_once(blur_repeated(s, w, h, r, n), w, h, r),
{
    assert((n + 1) as nat - 1 == n);
}

/// Zero passes leave the image as it is, and one pass is a single blur.
pub proof fn lemma_blur_repeated_base(s: Seq<u8>, w: int, h: int, r: int)
    ensures
        blur_repeated(s, w, h, r, 0) == s,
        blur_repeated(s, w, h, r, 1) == blur_once(s, w, h, r),
{
    assert(blur_repeated(s, w, h, r, 1) == blur_once(blur_repeated(s, w, h, r, 0), w, h, r));
}

/// Passes add up: `a` passes followed by `b` passes are `a + b` passes.
pub proof fn lemma_blur_repeated_add(s: Seq<u8>, w: int, h: int, r: int, a: nat, b: nat)
    ensures
        blur_repeated(blur_repeated(s, w, h, r, a), w, h, r, b) == blur_repeated(s, w, h, r, a + b),
    decreases b,
{
    if b > 0 {
        let b1: nat = (b - 1) as nat;
        lemma_blur_repeated_add(s, w, h, r, a, b1);
        lemma_blur_repeated_step(blur_repeated(s, w, h, r, a), w, h, r, b1);
        lemma_blur_repeated_step(s, w, h, r, a + b1);
        assert(a + b1 + 1 == a + b);
    }
}

/// Blurring an image whose pixels are all equal leaves it unchanged, however many passes
/// are made.
pub proof fn lemma_blur_repeated_uniform(s: Seq<u8>, w: int, h: int, r: int, n: nat)
    requires
        0 <= w,
        0 <= h,
        0 <= r,
        w * h * 4 <= s.len(),
        is_uniform(s, w * h),
    ensures
        blur_repeated(s, w, h, r, n) == s,
    decreases n,
{
    if n > 0 {
        lemma_blur_repeated_uniform(s, w, h, r, (n - 1) as nat);
        lemma_blur_uniform(s, w, h, r);
    }
}

/// Settings of the blur plugin.
pub struct BlurParams {
    /// Radius of the blur window in pixels.
    pub radius: u32,
    /// Number of blur passes.
    pub iterations: u32,
}

/// Number of passes used when the settings do not name one.
pub fn default_iterations() -> (n: u32)
    ensures
        n == 1,
{
    1
}

impl Default for BlurParams {
    /// The settings used when none are given, or when they cannot be read: radius 0 and
    /// the default number of passes, which leaves the image as it is.
    fn default() -> (p: Self)
        ensures
            p.radius == 0,
            p.iterations == 1,
    {
        BlurParams { radius: 0, iterations: default_iterations() }
    }
}

/// What the blur plugin did to an image.
#[derive(PartialEq, Eq, Structural, Debug, Clone, Copy)]
pub enum BlurRun {
    /// The radius or the number of passes is zero: the image was left as it is.
    Disabled,
    /// The image went through the requested number of blur passes.
    Blurred,
}

/// The blur runs with any radius whose window fits in memory and whose coordinates fit in
/// an `i32`, also when the window is wider or taller than the image: pixels outside the
/// image repeat its border.
pub proof fn lemma_blur_supported_large_radius(w: int, h: int, r: int)
    requires
        1 <= w <= i32::MAX,
        1 <= h <= i32::MAX,
        0 <= r,
        8 * ((2 * r + 1) * (2 * r + 1)) <= isize::MAX,
        w - 1 + r <= i32::MAX,
        h - 1 + r <= i32::MAX,
    ensures
        blur_supported(w, h, r),
{
}

/// Whether `blur_image` can run with these settings on a `width` x `height` image.
pub fn blur_settings_supported(width: u32, height: u32, params: &BlurParams) -> (ok: bool)
    ensures
        ok == (params.radius == 0 || params.iterations == 0 || blur_supported(width as int, height as int, params.radius as int)),
        8 * ((2 * params.radius + 1) * (2 * params.radius + 1)) <= isize::MAX
            && width - 1 + params.radius <= i32::MAX && height - 1 + params.radius <= i32::MAX ==> ok,
{
    proof {
        if width > 0 && height > 0 && params.radius > 0
            && 8 * ((2 * params.radius + 1) * (2 * params.radius + 1)) <= isize::MAX
            && width - 1 + params.radius <= i32::MAX && height - 1 + params.radius <= i32::MAX {
            lemma_blur_supported_large_radius(width as int, height as int, params.radius as int);
        }
    }
    if params.radius == 0 || params.iterations == 0 {
        return true;
    }
    let r = params.radius as u128;
    let d = 2 * r + 1;
    assert(d * d <= 0x3_0000_0000 * 0x3_0000_0000) by (nonlinear_arith)
        requires d == 2 * r + 1, r <= 0xffff_ffff, r >= 0;
    let window_ok = 8 * (d * d) <= isize::MAX as u128;
    let w = width as u128;
    let h = height as u128;
    let coords_ok = width == 0 || height == 0 || (w <= i32::MAX as u128 && h <= i32::MAX as u128
        && w - 1 + r <= i32::MAX as u128 && h - 1 + r <= i32::MAX as u128);
    window_ok && coords_ok
}

/// Applies the blur plugin with the given settings to a `width` x `height` RGBA image:
/// nothing happens when the radius or the number of passes is zero, otherwise the image
/// goes through `iterations` blur passes of the given radius.
pub fn blur_image(width: u32, height: u32, data: &mut [u8], params: &BlurParams) -> (run: BlurRun)
    requires
        old(data)@.len() == width * height * 4,
        params.radius == 0 || params.iterations == 0 || blur_supported(width as int, height as int, params.radius as int),
    ensures
        (run == BlurRun::Disabled) == (params.radius == 0 || params.iterations == 0),
        run == BlurRun::Disabled ==> final(data)@ == old(data)@,
        run == BlurRun::Blurred ==> final(data)@ == blur_repeated(old(data)@, width as int, height as int, params.radius as int, params.iterations as nat),
{
    if params.radius == 0 || params.iterations == 0 {
        return BlurRun::Disabled;
    }
    let ghost orig = data@;
    let w = width as usize;
    let h = height as usize;
    let mut i: u32 = 0;
    while i < params.iterations
        invariant
            data@.len() == orig.len(),
            orig.len() == w * h * 4,
            w == width,
            h == height,
            blur_supported(width as int, height as int, params.radius as int),
            i <= params.iterations,
            data@ == blur_repeated(orig, width as int, height as int, params.radius as int, i as nat),
        decreases params.iterations - i,
    {
        blur_pass(data, w, h, params.radius);
        i += 1;
    }
    BlurRun::Blurred
}

} // verus!
