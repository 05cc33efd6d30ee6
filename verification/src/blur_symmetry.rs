use vstd::prelude::*;
use crate::blur::{blur_once, blur_repeated, blurred_value, channel_sum, clamp_coord, kernel_total, row_sum, sample, weighted_samples, window_sum};
use crate::layout::{lemma_block_of_index, lemma_join_index, lemma_split_index};
use crate::mirror::{
    flip_rows, flipped_source, full_rows_len, lemma_rotation_is_flip_then_mirror, mirror_rows, mirrored_image,
    rotate_pixels, row_mirrored_source, MirrorMode,
};

verus! {

/// Where a window row of `f` is that of `g` read backwards, the first `n` terms of the row
/// of `f` add up to the last `n` terms of the row of `g`.
proof fn lemma_row_sum_reversed(f: spec_fn(int, int) -> int, g: spec_fn(int, int) -> int, r: int, dy: int, n: nat)
    requires
        0 <= r,
        n <= 2 * r + 1,
        forall|a: int| #[trigger] f(a, dy) == g(-a, dy),
    ensures
        row_sum(f, r, dy, n) == row_sum(g, r, dy, (2 * r + 1) as nat) - row_sum(g, r, dy, (2 * r + 1 - n) as nat),
    decreases n,
{
    if n > 0 {
        let d = 2 * r + 1;
        let m: nat = (n - 1) as nat;
        lemma_row_sum_reversed(f, g, r, dy, m);
        let hi: nat = (d - m) as nat;
        let lo: nat = (d - n) as nat;
        assert(hi == lo + 1);
        assert(row_sum(g, r, dy, hi) == row_sum(g, r, dy, lo) + g(lo - r, dy));
        assert(f(m - r, dy) == g(-(m - r), dy));
        assert(-(m - r) == lo - r);
    }
}

/// Two window rows whose terms agree one by one have the same sum.
proof fn lemma_row_sum_same(f: spec_fn(int, int) -> int, g: spec_fn(int, int) -> int, r: int, dy1: int, dy2: int, n: nat)
    requires
        forall|a: int| #[trigger] f(a, dy1) == g(a, dy2),
    ensures
        row_sum(f, r, dy1, n) == row_sum(g, r, dy2, n),
    decreases n,
{
    if n > 0 {
        lemma_row_sum_same(f, g, r, dy1, dy2, (n - 1) as nat);
        assert(f(n - 1 - r, dy1) == g(n - 1 - r, dy2));
    }
}

/// The sums of the whole rows of the window of `f`, the row offset as first argument.
spec fn row_totals(f: spec_fn(int, int) -> int, r: int) -> spec_fn(int, int) -> int {
    |dy: int, unused: int| row_sum(f, r, dy, (2 * r + 1) as nat)
}

/// Adding up the first `m` rows of a window is adding up the first `m` of its row sums.
proof fn lemma_window_as_row(f: spec_fn(int, int) -> int, r: int, m: nat)
    ensures
        window_sum(f, r, m) == row_sum(row_totals(f, r), r, 0, m),
    decreases m,
{
    if m > 0 {
        lemma_window_as_row(f, r, (m - 1) as nat);
    }
}

/// A window whose terms are those of another mirrored left to right has the same total.
proof fn lemma_kernel_total_reversed_dx(f: spec_fn(int, int) -> int, g: spec_fn(int, int) -> int, r: int)
    requires
        0 <= r,
        forall|a: int, b: int| #[trigger] f(a, b) == g(-a, b),
    ensures
        kernel_total(f, r) == kernel_total(g, r),
{
    let d: nat = (2 * r + 1) as nat;
    let tf = row_totals(f, r);
    let tg = row_totals(g, r);
    assert forall|a: int| #[trigger] tf(a, 0) == tg(a, 0) by {
        assert forall|x: int| #[trigger] f(x, a) == g(-x, a) by {
            assert(f(x, a) == g(-x, a));
        }
        lemma_row_sum_reversed(f, g, r, a, d);
    }
    lemma_row_sum_same(tf, tg, r, 0, 0, d);
    lemma_window_as_row(f, r, d);
    lemma_window_as_row(g, r, d);
}

/// A window whose terms are those of another mirrored top to bottom has the same total.
proof fn lemma_kernel_total_reversed_dy(f: spec_fn(int, int) -> int, g: spec_fn(int, int) -> int, r: int)
    requires
        0 <= r,
        forall|a: int, b: int| #[trigger] f(a, b) == g(a, -b),
    ensures
        kernel_total(f, r) == kernel_total(g, r),
{
    let d: nat = (2 * r + 1) as nat;
    let tf = row_totals(f, r);
    let tg = row_totals(g, r);
    assert forall|a: int| #[trigger] tf(a, 0) == tg(-a, 0) by {
        assert forall|x: int| #[trigger] f(x, a) == g(x, -a) by {
            assert(f(x, a) == g(x, -a));
        }
        lemma_row_sum_same(f, g, r, a, -a, d);
    }
    lemma_row_sum_reversed(tf, tg, r, 0, d);
    lemma_window_as_row(f, r, d);
    lemma_window_as_row(g, r, d);
}

/// The byte offset of channel `c` of pixel `(x, y)` in a `w` x `h` RGBA image, and how it
/// splits into pixel, column, row and channel.
proof fn lemma_pixel_offset(w: int, h: int, x: int, y: int, c: int)
    requires
        0 <= x < w,
        0 <= y < h,
        0 <= c < 4,
    ensures
        0 <= (y * w + x) * 4 + c < w * h * 4,
        ((y * w + x) * 4 + c) / 4 == y * w + x,
        ((y * w + x) * 4 + c) % 4 == c,
        (((y * w + x) * 4 + c) / 4) % w == x,
        (((y * w + x) * 4 + c) / 4) / w == y,
        (y * w + x) * 4 + c == y * (w * 4) + (x * 4 + c),
        ((y * w + x) * 4 + c) / (w * 4) == y,
        ((y * w + x) * 4 + c) % (w * 4) == x * 4 + c,
        (x * 4 + c) / 4 == x,
        (x * 4 + c) % 4 == c,
{
    assert(0 <= y * w + x < w * h) by (nonlinear_arith)
        requires 0 <= x < w, 0 <= y < h;
    assert((y * w + x) * 4 + c < w * h * 4) by (nonlinear_arith)
        requires y * w + x < w * h, 0 <= c < 4;
    assert((y * w + x) * 4 + c == y * (w * 4) + (x * 4 + c)) by (nonlinear_arith);
    lemma_join_index(y * w + x, 4, c);
    lemma_join_index(y, w, x);
    lemma_join_index(x, 4, c);
    lemma_join_index(y, w * 4, x * 4 + c);
}

/// Every byte offset of a `w` x `h` RGBA image is that of some channel of some pixel.
proof fn lemma_offset_pixel(w: int, h: int, k: int)
    requires
        0 < w,
        0 <= k < w * h * 4,
    ensures
        0 <= (k / 4) % w < w,
        0 <= (k / 4) / w < h,
        0 <= k % 4 < 4,
        k == (((k / 4) / w) * w + (k / 4) % w) * 4 + k % 4,
{
    lemma_split_index(k, 4);
    lemma_split_index(k / 4, w);
    lemma_block_of_index(k, 4, w * h);
    assert(k / 4 < h * w) by (nonlinear_arith)
        requires k / 4 < w * h;
    lemma_block_of_index(k / 4, w, h);
}

/// Reading a row-mirrored image at column `x` is reading the image at column `w - 1 - x`,
/// the border repeated on both sides alike.
proof fn lemma_sample_row_mirrored(s: Seq<u8>, w: int, h: int, x: int, y: int, c: int)
    requires
        0 < w,
        0 < h,
        s.len() == w * h * 4,
        0 <= c < 4,
    ensures
        sample(mirror_rows(s, w), w, h, x, y, c) == sample(s, w, h, w - 1 - x, y, c),
{
    let cx = clamp_coord(x, w);
    let cy = clamp_coord(y, h);
    assert(clamp_coord(w - 1 - x, w) == w - 1 - cx);
    lemma_pixel_offset(w, h, cx, cy, c);
    lemma_pixel_offset(w, h, w - 1 - cx, cy, c);
    assert(s.len() == h * (w * 4) + 0) by (nonlinear_arith)
        requires s.len() == w * h * 4;
    lemma_join_index(h, w * 4, 0);
    assert(full_rows_len(s.len() as int, w) == s.len());
    let k = (cy * w + cx) * 4 + c;
    assert(row_mirrored_source(w, k) == (cy * w + (w - 1 - cx)) * 4 + c);
}

/// Reading a row-flipped image at row `y` is reading the image at row `h - 1 - y`, the
/// border repeated on both sides alike.
proof fn lemma_sample_row_flipped(s: Seq<u8>, w: int, h: int, x: int, y: int, c: int)
    requires
        0 < w,
        0 < h,
        s.len() == w * h * 4,
        0 <= c < 4,
    ensures
        sample(flip_rows(s, w, h), w, h, x, y, c) == sample(s, w, h, x, h - 1 - y, c),
{
    let cx = clamp_coord(x, w);
    let cy = clamp_coord(y, h);
    assert(clamp_coord(h - 1 - y, h) == h - 1 - cy);
    lemma_pixel_offset(w, h, cx, cy, c);
    lemma_pixel_offset(w, h, cx, h - 1 - cy, c);
    assert(h * (w * 4) == w * h * 4) by (nonlinear_arith);
    let k = (cy * w + cx) * 4 + c;
    assert(flipped_source(w, h, k) == ((h - 1 - cy) * w + cx) * 4 + c);
}

/// A blurred channel of a row-mirrored image is the same channel of the image blurred at
/// the mirrored column.
proof fn lemma_blurred_value_row_mirrored(s: Seq<u8>, w: int, h: int, r: int, x: int, y: int, c: int)
    requires
        0 < w,
        0 < h,
        0 <= r,
        s.len() == w * h * 4,
        0 <= c < 4,
    ensures
        blurred_value(mirror_rows(s, w), w, h, r, x, y, c) == blurred_value(s, w, h, r, w - 1 - x, y, c),
{
    let f = weighted_samples(mirror_rows(s, w), w, h, r, x, y, c);
    let g = weighted_samples(s, w, h, r, w - 1 - x, y, c);
    assert forall|a: int, b: int| #[trigger] f(a, b) == g(-a, b) by {
        lemma_sample_row_mirrored(s, w, h, x + a, y + b, c);
        assert(w - 1 - (x + a) == (w - 1 - x) + -a);
    }
    lemma_kernel_total_reversed_dx(f, g, r);
    assert(channel_sum(mirror_rows(s, w), w, h, r, x, y, c) == channel_sum(s, w, h, r, w - 1 - x, y, c));
}

/// A blurred channel of a row-flipped image is the same channel of the image blurred at
/// the flipped row.
proof fn lemma_blurred_value_row_flipped(s: Seq<u8>, w: int, h: int, r: int, x: int, y: int, c: int)
    requires
        0 < w,
        0 < h,
        0 <= r,
        s.len() == w * h * 4,
        0 <= c < 4,
    ensures
        blurred_value(flip_rows(s, w, h), w, h, r, x, y, c) == blurred_value(s, w, h, r, x, h - 1 - y, c),
{
    let f = weighted_samples(flip_rows(s, w, h), w, h, r, x, y, c);
    let g = weighted_samples(s, w, h, r, x, h - 1 - y, c);
    assert forall|a: int, b: int| #[trigger] f(a, b) == g(a, -b) by {
        lemma_sample_row_flipped(s, w, h, x + a, y + b, c);
        assert(h - 1 - (y + b) == (h - 1 - y) + -b);
    }
    lemma_kernel_total_reversed_dy(f, g, r);
    assert(channel_sum(flip_rows(s, w, h), w, h, r, x, y, c) == channel_sum(s, w, h, r, x, h - 1 - y, c));
}

/// Blurring commutes with mirroring every row: the weights are symmetric, and the border
/// repeats alike on the left and on the right.
pub proof fn lemma_blur_commutes_with_row_mirror(s: Seq<u8>, w: int, h: int, r: int)
    requires
        0 < w,
        0 < h,
        0 <= r,
        s.len() == w * h * 4,
    ensures
        blur_once(mirror_rows(s, w), w, h, r) == mirror_rows(blur_once(s, w, h, r), w),
{
    let m = mirror_rows(s, w);
    let b = blur_once(s, w, h, r);
    let lhs = blur_once(m, w, h, r);
    let rhs = mirror_rows(b, w);
    assert(s.len() == h * (w * 4) + 0) by (nonlinear_arith)
        requires s.len() == w * h * 4;
    lemma_join_index(h, w * 4, 0);
    assert(full_rows_len(b.len() as int, w) == s.len());
    assert forall|k: int| 0 <= k < lhs.len() implies #[trigger] lhs[k] == rhs[k] by {
        lemma_offset_pixel(w, h, k);
        let x = (k / 4) % w;
        let y = (k / 4) / w;
        let c = k % 4;
        lemma_pixel_offset(w, h, x, y, c);
        lemma_pixel_offset(w, h, w - 1 - x, y, c);
        let j = (y * w + (w - 1 - x)) * 4 + c;
        assert(row_mirrored_source(w, k) == j);
        lemma_blurred_value_row_mirrored(s, w, h, r, x, y, c);
    }
    assert(lhs =~= rhs);
}

/// Blurring commutes with reversing the order of the rows: the weights are symmetric, and
/// the border repeats alike at the top and at the bottom.
pub proof fn lemma_blur_commutes_with_row_flip(s: Seq<u8>, w: int, h: int, r: int)
    requires
        0 < w,
        0 < h,
        0 <= r,
        s.len() == w * h * 4,
    ensures
        blur_once(flip_rows(s, w, h), w, h, r) == flip_rows(blur_once(s, w, h, r), w, h),
{
    let f = flip_rows(s, w, h);
    let b = blur_once(s, w, h, r);
    let lhs = blur_once(f, w, h, r);
    let rhs = flip_rows(b, w, h);
    assert(h * (w * 4) == w * h * 4) by (nonlinear_arith);
    assert forall|k: int| 0 <= k < lhs.len() implies #[trigger] lhs[k] == rhs[k] by {
        lemma_offset_pixel(w, h, k);
        let x = (k / 4) % w;
        let y = (k / 4) / w;
        let c = k % 4;
        lemma_pixel_offset(w, h, x, y, c);
        lemma_pixel_offset(w, h, x, h - 1 - y, c);
        let j = ((h - 1 - y) * w + x) * 4 + c;
        assert(flipped_source(w, h, k) == j);
        lemma_blurred_value_row_flipped(s, w, h, r, x, y, c);
    }
    assert(lhs =~= rhs);
}

/// Blurring commutes with turning the image by 180 degrees.
pub proof fn lemma_blur_commutes_with_rotation(s: Seq<u8>, w: int, h: int, r: int)
    requires
        0 < w,
        0 < h,
        0 <= r,
        s.len() == w * h * 4,
    ensures
        blur_once(rotate_pixels(s, w * h), w, h, r) == rotate_pixels(blur_once(s, w, h, r), w * h),
{
    let f = flip_rows(s, w, h);
    let b = blur_once(s, w, h, r);
    lemma_rotation_is_flip_then_mirror(s, w, h);
    lemma_rotation_is_flip_then_mirror(b, w, h);
    lemma_blur_commutes_with_row_mirror(f, w, h, r);
    lemma_blur_commutes_with_row_flip(s, w, h, r);
}

/// Blurring commutes with each transformation that the mirror settings select.
pub proof fn lemma_blur_commutes_with_mirrored_image(s: Seq<u8>, w: int, h: int, r: int, mode: MirrorMode)
    requires
        0 < w,
        0 < h,
        0 <= r,
        s.len() == w * h * 4,
    ensures
        blur_once(mirrored_image(s, w, h, mode), w, h, r) == mirrored_image(blur_once(s, w, h, r), w, h, mode),
{
    match mode {
        MirrorMode::Rotate => lemma_blur_commutes_with_rotation(s, w, h, r),
        MirrorMode::Horizontal => lemma_blur_commutes_with_row_mirror(s, w, h, r),
        MirrorMode::Vertical => lemma_blur_commutes_with_row_flip(s, w, h, r),
        MirrorMode::Unchanged => {},
    }
}

/// Any number of blur passes commutes with each transformation that the mirror settings
/// select: mirroring before blurring gives what blurring before mirroring gives.
pub proof fn lemma_blur_repeated_commutes_with_mirrored_image(s: Seq<u8>, w: int, h: int, r: int, n: nat, mode: MirrorMode)
    requires
        0 < w,
        0 < h,
        0 <= r,
        s.len() == w * h * 4,
    ensures
        blur_repeated(mirrored_image(s, w, h, mode), w, h, r, n) == mirrored_image(blur_repeated(s, w, h, r, n), w, h, mode),
    decreases n,
{
    if n > 0 {
        let m: nat = (n - 1) as nat;
        lemma_blur_repeated_commutes_with_mirrored_image(s, w, h, r, m, mode);
        lemma_blur_repeated_len(s, w, h, r, m);
        lemma_blur_commutes_with_mirrored_image(blur_repeated(s, w, h, r, m), w, h, r, mode);
    }
}

/// Blur passes keep the length of the buffer.
proof fn lemma_blur_repeated_len(s: Seq<u8>, w: int, h: int, r: int, n: nat)
    ensures
        blur_repeated(s, w, h, r, n).len() == s.len(),
    decreases n,
{
    if n > 0 {
        lemma_blur_repeated_len(s, w, h, r, (n - 1) as nat);
    }
}

} // verus!
