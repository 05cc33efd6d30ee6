use vstd::prelude::*;
use crate::layout::{lemma_block_of_index, lemma_join_index, lemma_split_index, RGBA_PIXEL_BYTES};

verus! {

/// Byte of the source image that lands at byte `k` when the first `n` pixels are
/// rotated by 180 degrees (pixel `p` takes the place of pixel `n - 1 - p`).
pub open spec fn rotated_source(n: int, k: int) -> int {
    (n - 1 - k / 4) * 4 + k % 4
}

/// The buffer `s` with its first `n` pixels in reverse order; bytes after them stay.
pub open spec fn rotate_pixels(s: Seq<u8>, n: int) -> Seq<u8> {
    Seq::new(s.len(), |k: int| if k < n * 4 { s[rotated_source(n, k)] } else { s[k] })
}

/// Rotates a `width` x `height` RGBA image by 180 degrees in place.
pub fn full_mirror(width: usize, height: usize, data: &mut [u8])
    requires
        width * height * 4 <= old(data)@.len(),
    ensures
        final(data)@ == rotate_pixels(old(data)@, width * height),
{
    let ghost orig = data@;
    let ghost n = width * height;
    let len = data.len();
    assert(width * height <= usize::MAX) by (nonlinear_arith)
        requires width * height * 4 <= len, len <= usize::MAX;
    let total_pixels = width * height;
    let half = total_pixels / 2;
    let mut i: usize = 0;
    while i < half
        invariant
            half == total_pixels / 2,
            total_pixels == n,
            n == width * height,
            n * 4 <= orig.len(),
            len == orig.len(),
            data@.len() == orig.len(),
            i <= half,
            forall|k: int| 0 <= k < orig.len() ==> #[trigger] data@[k] == if k < n * 4 && (k / 4 < i || k / 4 >= n - i) {
                orig[rotated_source(n, k)]
            } else {
                orig[k]
            },
        decreases half - i,
    {
        let x1 = i % width;
        let y1 = i / width;
        proof {
            lemma_split_index(i as int, width as int);
        }
        let x2 = width - 1 - x1;
        assert(y1 < height) by (nonlinear_arith)
            requires y1 * width <= i, i < width * height, width > 0;
        let y2 = height - 1 - y1;
        let idx1 = y1 * width + x1;
        assert(y2 * width + x2 == n - 1 - i) by (nonlinear_arith)
            requires y2 == height - 1 - y1, x2 == width - 1 - x1, i == y1 * width + x1, n == width * height;
        let idx2 = y2 * width + x2;
        assert(idx1 == i);
        let a = idx1 * RGBA_PIXEL_BYTES;
        let b = idx2 * RGBA_PIXEL_BYTES;
        let mut c: usize = 0;
        while c < RGBA_PIXEL_BYTES
            invariant
                a == i * 4,
                b == (n - 1 - i) * 4,
                i < half,
                half == n / 2,
                n * 4 <= orig.len(),
                data@.len() == orig.len(),
                c <= 4,
                forall|k: int| 0 <= k < orig.len() ==> #[trigger] data@[k] == if k < n * 4 && (k / 4 < i || k / 4 >= n - i || (k / 4 == i && k % 4 < c) || (k / 4 == n - 1 - i && k % 4 < c)) {
                    orig[rotated_source(n, k)]
                } else {
                    orig[k]
                },
            decreases 4 - c,
        {
            let tmp = data[a + c];
            data[a + c] = data[b + c];
            data[b + c] = tmp;
            c += 1;
        }
        i += 1;
    }
    assert(data@ =~= rotate_pixels(orig, n));
}


/// Byte of the source image that lands at byte `k` when every row of `w` pixels is
/// reversed: the pixel in column `col` takes the place of the one in column `w - 1 - col`.
pub open spec fn row_mirrored_source(w: int, k: int) -> int {
    let row_size = w * 4;
    let off = k % row_size;
    (k / row_size) * row_size + (w - 1 - off / 4) * 4 + off % 4
}

/// Number of bytes that the complete rows of `w` pixels cover in a buffer of `len` bytes.
pub open spec fn full_rows_len(len: int, w: int) -> int {
    (len / (w * 4)) * (w * 4)
}

/// The buffer `s` with each complete row of `w` pixels reversed (a mirror image about
/// the vertical axis); bytes after the last complete row stay.
pub open spec fn mirror_rows(s: Seq<u8>, w: int) -> Seq<u8> {
    Seq::new(
        s.len(),
        |k: int|
            if k < full_rows_len(s.len() as int, w) {
                s[row_mirrored_source(w, k)]
            } else {
                s[k]
            },
    )
}

/// Reverses the order of the pixels in every complete row of `width` pixels (a mirror
/// image about the vertical axis); trailing bytes that do not fill a row are left alone.
pub fn horizontal_mirror(width: usize, data: &mut [u8])
    requires
        width > 0,
        width * 4 <= usize::MAX,
    ensures
        final(data)@ == mirror_rows(old(data)@, width as int),
{
    let ghost orig = data@;
    let len = data.len();
    let row_size = width * RGBA_PIXEL_BYTES;
    let rows = len / row_size;
    proof {
        lemma_split_index(len as int, row_size as int);
    }
    let mut row: usize = 0;
    let mut start: usize = 0;
    while row < rows
        invariant
            len == orig.len(),
            data@.len() == orig.len(),
            row_size == width * 4,
            width > 0,
            rows == len / row_size,
            rows * row_size <= len,
            row <= rows,
            start == row * row_size,
            forall|k: int| 0 <= k < len ==> #[trigger] data@[k] == if k < start {
                orig[row_mirrored_source(width as int, k)]
            } else {
                orig[k]
            },
        decreases rows - row,
    {
        assert(start + row_size <= len) by (nonlinear_arith)
            requires start == row * row_size, row < rows, rows * row_size <= len;
        let mut left: usize = 0;
        let mut right: usize = width - 1;
        while left < right
            invariant
                len == orig.len(),
                data@.len() == orig.len(),
                row_size == width * 4,
                start + row_size <= len,
                left + right == width - 1,
                left <= right + 1,
                forall|k: int| 0 <= k < len ==> #[trigger] data@[k] == if k < start {
                    orig[row_mirrored_source(width as int, k)]
                } else if k < start + row_size && ((k - start) / 4 < left || (k - start) / 4 > right) {
                    orig[start + (width - 1 - (k - start) / 4) * 4 + (k - start) % 4]
                } else {
                    orig[k]
                },
            decreases right + 1 - left,
        {
            let a = start + left * RGBA_PIXEL_BYTES;
            let b = start + right * RGBA_PIXEL_BYTES;
            let mut c: usize = 0;
            while c < RGBA_PIXEL_BYTES
                invariant
                    len == orig.len(),
                    data@.len() == orig.len(),
                    row_size == width * 4,
                    start + row_size <= len,
                    left + right == width - 1,
                    left < right,
                    a == start + left * 4,
                    b == start + right * 4,
                    c <= 4,
                    forall|k: int| 0 <= k < len ==> #[trigger] data@[k] == if k < start {
                        orig[row_mirrored_source(width as int, k)]
                    } else if k < start + row_size && ((k - start) / 4 < left || (k - start) / 4 > right
                        || ((k - start) / 4 == left && (k - start) % 4 < c)
                        || ((k - start) / 4 == right && (k - start) % 4 < c)) {
                        orig[start + (width - 1 - (k - start) / 4) * 4 + (k - start) % 4]
                    } else {
                        orig[k]
                    },
                decreases 4 - c,
            {
                let tmp = data[a + c];
                data[a + c] = data[b + c];
                data[b + c] = tmp;
                c += 1;
            }
            left += 1;
            right -= 1;
        }
        proof {
            assert forall|k: int| 0 <= k < len implies #[trigger] data@[k] == if k < start + row_size {
                orig[row_mirrored_source(width as int, k)]
            } else {
                orig[k]
            } by {
                if start <= k < start + row_size {
                    lemma_join_index(row as int, row_size as int, k - start);
                }
            }
        }
        assert(start + row_size == (row + 1) * row_size) by (nonlinear_arith)
            requires start == row * row_size;
        row += 1;
        start += row_size;
    }
    assert(data@ =~= mirror_rows(orig, width as int));
}

/// Byte of the source image that lands at byte `k` when the `h` rows of `w` pixels are
/// put in reverse order: row `row` takes the place of row `h - 1 - row`.
pub open spec fn flipped_source(w: int, h: int, k: int) -> int {
    let row_size = w * 4;
    (h - 1 - k / row_size) * row_size + k % row_size
}

/// The buffer `s` with its first `h` rows of `w` pixels in reverse order (a mirror image
/// about the horizontal axis); bytes after them stay.
pub open spec fn flip_rows(s: Seq<u8>, w: int, h: int) -> Seq<u8> {
    Seq::new(
        s.len(),
        |k: int| if k < h * (w * 4) { s[flipped_source(w, h, k)] } else { s[k] },
    )
}

/// Puts the `height` rows of `width` pixels in reverse order (a mirror image about the
/// horizontal axis); bytes after the last row are left alone.
pub fn vertical_mirror(width: usize, height: usize, data: &mut [u8])
    requires
        height > 0,
        width * 4 <= usize::MAX,
        height == 1 || height * (width * 4) <= old(data)@.len(),
    ensures
        final(data)@ == flip_rows(old(data)@, width as int, height as int),
{
    let ghost orig = data@;
    let len = data.len();
    let row_size = width * RGBA_PIXEL_BYTES;
    if height == 1 || row_size == 0 {
        proof {
            assert forall|k: int| 0 <= k < len && k < height * (width * 4) implies
                flipped_source(width as int, height as int, k) == k by {
                if row_size > 0 {
                    assert(height * (width * 4) == width * 4) by (nonlinear_arith)
                        requires height == 1;
                    lemma_join_index(0, row_size as int, k);
                } else {
                    assert(height * (width * 4) == 0) by (nonlinear_arith)
                        requires width * 4 == 0;
                }
            }
        }
        assert(data@ =~= flip_rows(orig, width as int, height as int));
        return;
    }
    let mut top: usize = 0;
    let mut bottom: usize = height - 1;
    proof {
        assert forall|k: int| 0 <= k < len implies #[trigger] data@[k] == if k < height * row_size && (k / (row_size as int) < top || k / (row_size as int) > bottom) {
            orig[flipped_source(width as int, height as int, k)]
        } else {
            orig[k]
        } by {
            if k < height * row_size {
                lemma_block_of_index(k, row_size as int, height as int);
                lemma_split_index(k, row_size as int);
            }
        }
    }
    while top < bottom
        invariant
            len == orig.len(),
            data@.len() == orig.len(),
            row_size == width * 4,
            row_size > 0,
            height * row_size <= len,
            top + bottom == height - 1,
            top <= bottom + 1,
            forall|k: int| 0 <= k < len ==> #[trigger] data@[k] == if k < height * row_size && (k / (row_size as int) < top || k / (row_size as int) > bottom) {
                orig[flipped_source(width as int, height as int, k)]
            } else {
                orig[k]
            },
        decreases bottom + 1 - top,
    {
        assert(bottom * row_size + row_size <= len) by (nonlinear_arith)
            requires bottom < height, height * row_size <= len;
        assert(top * row_size + row_size <= bottom * row_size) by (nonlinear_arith)
            requires top < bottom, row_size > 0;
        assert(bottom * row_size + row_size <= height * row_size) by (nonlinear_arith)
            requires bottom < height, row_size > 0;
        let top_start = top * row_size;
        let bottom_start = bottom * row_size;
        let mut j: usize = 0;
        while j < row_size
            invariant
                len == orig.len(),
                data@.len() == orig.len(),
                row_size == width * 4,
                row_size > 0,
                height * row_size <= len,
                top + bottom == height - 1,
                top < bottom,
                top_start == top * row_size,
                bottom_start == bottom * row_size,
                bottom_start + row_size <= height * row_size,
                top_start + row_size <= bottom_start,
                j <= row_size,
                forall|k: int| 0 <= k < len ==> #[trigger] data@[k] == if k < height * row_size && (k / (row_size as int) < top || k / (row_size as int) > bottom
                    || (k / (row_size as int) == top && k % (row_size as int) < j)
                    || (k / (row_size as int) == bottom && k % (row_size as int) < j)) {
                    orig[flipped_source(width as int, height as int, k)]
                } else {
                    orig[k]
                },
            decreases row_size - j,
        {
            let ghost before = data@;
            let tmp = data[top_start + j];
            data[top_start + j] = data[bottom_start + j];
            data[bottom_start + j] = tmp;
            proof {
                lemma_join_index(top as int, row_size as int, j as int);
                lemma_join_index(bottom as int, row_size as int, j as int);
                assert forall|k: int| 0 <= k < len implies #[trigger] data@[k] == if k < height * row_size && (k / (row_size as int) < top || k / (row_size as int) > bottom
                    || (k / (row_size as int) == top && k % (row_size as int) < j + 1)
                    || (k / (row_size as int) == bottom && k % (row_size as int) < j + 1)) {
                    orig[flipped_source(width as int, height as int, k)]
                } else {
                    orig[k]
                } by {
                    lemma_split_index(k, row_size as int);
                    if k != top_start + j && k != bottom_start + j {
                        assert(data@[k] == before[k]);
                    }
                }
            }
            j += 1;
        }
        top += 1;
        bottom -= 1;
    }
    proof {
        assert forall|k: int| 0 <= k < len && k < height * (width * 4) && top == bottom && k / (row_size as int) == top
            implies flipped_source(width as int, height as int, k) == k by {
            lemma_split_index(k, row_size as int);
        }
    }
    assert(data@ =~= flip_rows(orig, width as int, height as int));
}


/// Where byte `k` of a complete row comes from under `mirror_rows`: the source byte
/// lies in the same row, inside the complete rows, and mirroring it again leads back to `k`.
proof fn lemma_row_mirrored_source(w: int, len: int, k: int)
    requires
        w > 0,
        0 <= len,
        0 <= k < full_rows_len(len, w),
    ensures
        full_rows_len(len, w) <= len,
        0 <= row_mirrored_source(w, k) < full_rows_len(len, w),
        row_mirrored_source(w, k) / (w * 4) == k / (w * 4),
        row_mirrored_source(w, row_mirrored_source(w, k)) == k,
{
    let rs = w * 4;
    let row = k / rs;
    let off = k % rs;
    lemma_split_index(k, rs);
    lemma_split_index(off, 4);
    lemma_split_index(len, rs);
    let col = off / 4;
    let c = off % 4;
    assert(col < w);
    let off2 = (w - 1 - col) * 4 + c;
    assert(0 <= off2 < rs);
    let j = row * rs + off2;
    assert(j == row_mirrored_source(w, k));
    lemma_join_index(row, rs, off2);
    lemma_join_index(w - 1 - col, 4, c);
    assert(row < len / rs) by {
        if row >= len / rs {
            assert(row * rs >= (len / rs) * rs) by (nonlinear_arith)
                requires row >= len / rs, rs > 0;
        }
    }
    assert((row + 1) * rs <= (len / rs) * rs) by (nonlinear_arith)
        requires row + 1 <= len / rs, rs > 0;
    assert((row + 1) * rs == row * rs + rs) by (nonlinear_arith);
    assert(0 <= j) by (nonlinear_arith)
        requires j == row * rs + off2, off2 >= 0, row >= 0, rs > 0;
}

/// Mirroring the rows of an image twice gives back the original buffer.
pub proof fn lemma_mirror_rows_involution(s: Seq<u8>, w: int)
    requires
        w > 0,
    ensures
        mirror_rows(mirror_rows(s, w), w) == s,
{
    let m = mirror_rows(s, w);
    assert forall|k: int| 0 <= k < s.len() implies #[trigger] mirror_rows(m, w)[k] == s[k] by {
        if k < full_rows_len(s.len() as int, w) {
            lemma_row_mirrored_source(w, s.len() as int, k);
            let j = row_mirrored_source(w, k);
            assert(mirror_rows(m, w)[k] == m[j]);
            assert(m[j] == s[row_mirrored_source(w, j)]);
        }
    }
    assert(mirror_rows(m, w) =~= s);
}

/// Where byte `k` of the flipped rows comes from under `flip_rows`: the source byte lies
/// inside the flipped rows, and flipping it again leads back to `k`.
proof fn lemma_flipped_source(w: int, h: int, k: int)
    requires
        w > 0,
        0 <= k < h * (w * 4),
    ensures
        0 <= flipped_source(w, h, k) < h * (w * 4),
        flipped_source(w, h, k) / (w * 4) == h - 1 - k / (w * 4),
        flipped_source(w, h, k) % (w * 4) == k % (w * 4),
        flipped_source(w, h, flipped_source(w, h, k)) == k,
{
    let rs = w * 4;
    lemma_split_index(k, rs);
    lemma_block_of_index(k, rs, h);
    let row = k / rs;
    let off = k % rs;
    let j = (h - 1 - row) * rs + off;
    lemma_join_index(h - 1 - row, rs, off);
    assert(0 <= j < h * rs) by (nonlinear_arith)
        requires j == (h - 1 - row) * rs + off, 0 <= off < rs, 0 <= row < h;
}

/// Flipping the rows of an image twice gives back the original buffer.
pub proof fn lemma_flip_rows_involution(s: Seq<u8>, w: int, h: int)
    requires
        0 <= w,
        0 <= h,
        h * (w * 4) <= s.len(),
    ensures
        flip_rows(flip_rows(s, w, h), w, h) == s,
{
    let f = flip_rows(s, w, h);
    assert forall|k: int| 0 <= k < s.len() implies #[trigger] flip_rows(f, w, h)[k] == s[k] by {
        if k < h * (w * 4) {
            if w == 0 {
                assert(h * (w * 4) == 0);
            }
            lemma_flipped_source(w, h, k);
        }
    }
    assert(flip_rows(f, w, h) =~= s);
}

/// Rotating the pixels of an image twice gives back the original buffer.
pub proof fn lemma_rotate_pixels_involution(s: Seq<u8>, n: int)
    requires
        n * 4 <= s.len(),
    ensures
        rotate_pixels(rotate_pixels(s, n), n) == s,
{
    let r = rotate_pixels(s, n);
    assert forall|k: int| 0 <= k < s.len() implies #[trigger] rotate_pixels(r, n)[k] == s[k] by {
        if k < n * 4 {
            let j = rotated_source(n, k);
            lemma_join_index(n - 1 - k / 4, 4, k % 4);
        }
    }
    assert(rotate_pixels(r, n) =~= s);
}

/// Rotating a complete `w` x `h` image by 180 degrees is the same as flipping its rows
/// and then mirroring each row.
pub proof fn lemma_rotation_is_flip_then_mirror(s: Seq<u8>, w: int, h: int)
    requires
        w > 0,
        h > 0,
        s.len() == w * h * 4,
    ensures
        rotate_pixels(s, w * h) == mirror_rows(flip_rows(s, w, h), w),
{
    let rs = w * 4;
    let f = flip_rows(s, w, h);
    assert(s.len() == h * rs) by (nonlinear_arith)
        requires s.len() == w * h * 4, rs == w * 4;
    lemma_join_index(h, rs, 0);
    assert(full_rows_len(s.len() as int, w) == h * rs);
    assert forall|k: int| 0 <= k < s.len() implies #[trigger] mirror_rows(f, w)[k] == rotate_pixels(s, w * h)[k] by {
        lemma_row_mirrored_source(w, s.len() as int, k);
        let j = row_mirrored_source(w, k);
        lemma_flipped_source(w, h, j);
        lemma_split_index(k, rs);
        lemma_split_index(k % rs, 4);
        lemma_split_index(k, 4);
        let row = k / rs;
        let col = (k % rs) / 4;
        let c = (k % rs) % 4;
        lemma_join_index(row, rs, col * 4 + c);
        lemma_join_index(row * w + col, 4, c);
        lemma_join_index(row, w, col);
        assert(k == (row * w + col) * 4 + c) by (nonlinear_arith)
            requires k == row * rs + (col * 4 + c), rs == w * 4;
        assert(flipped_source(w, h, j) == rotated_source(w * h, k)) by (nonlinear_arith)
            requires
                flipped_source(w, h, j) == (h - 1 - row) * rs + (w - 1 - col) * 4 + c,
                rotated_source(w * h, k) == (w * h - 1 - (row * w + col)) * 4 + c,
                rs == w * 4;
    }
    assert(mirror_rows(f, w) =~= rotate_pixels(s, w * h));
}


/// Rotating a complete `w` x `h` image by 180 degrees is also the same as mirroring each
/// row and then flipping the rows: the two mirrors commute.
pub proof fn lemma_rotation_is_mirror_then_flip(s: Seq<u8>, w: int, h: int)
    requires
        w > 0,
        h > 0,
        s.len() == w * h * 4,
    ensures
        rotate_pixels(s, w * h) == flip_rows(mirror_rows(s, w), w, h),
{
    let rs = w * 4;
    let m = mirror_rows(s, w);
    assert(s.len() == h * rs) by (nonlinear_arith)
        requires s.len() == w * h * 4, rs == w * 4;
    lemma_join_index(h, rs, 0);
    assert(full_rows_len(s.len() as int, w) == h * rs);
    assert forall|k: int| 0 <= k < s.len() implies #[trigger] flip_rows(m, w, h)[k] == rotate_pixels(s, w * h)[k] by {
        lemma_flipped_source(w, h, k);
        let j = flipped_source(w, h, k);
        lemma_split_index(k, rs);
        lemma_split_index(k % rs, 4);
        let row = k / rs;
        let col = (k % rs) / 4;
        let c = (k % rs) % 4;
        lemma_join_index(row * w + col, 4, c);
        assert(k == (row * w + col) * 4 + c) by (nonlinear_arith)
            requires k == row * rs + (col * 4 + c), rs == w * 4;
        assert(m[j] == s[row_mirrored_source(w, j)]);
        assert(row_mirrored_source(w, j) == rotated_source(w * h, k)) by (nonlinear_arith)
            requires
                row_mirrored_source(w, j) == (h - 1 - row) * rs + (w - 1 - col) * 4 + c,
                rotated_source(w * h, k) == (w * h - 1 - (row * w + col)) * 4 + c,
                rs == w * 4;
    }
    assert(flip_rows(m, w, h) =~= rotate_pixels(s, w * h));
}

/// Settings of the mirror plugin.
pub struct MirrorParams {
    /// Mirror about the vertical axis (reverse every row).
    pub horizontal: bool,
    /// Mirror about the horizontal axis (reverse the order of the rows).
    pub vertical: bool,
}

impl Default for MirrorParams {
    /// The settings used when none are given, or when they cannot be read: no mirroring.
    fn default() -> (p: Self)
        ensures
            !p.horizontal,
            !p.vertical,
    {
        MirrorParams { horizontal: false, vertical: false }
    }
}

/// The transformation that the mirror plugin applies.
#[derive(PartialEq, Eq, Structural, Debug, Clone, Copy)]
pub enum MirrorMode {
    /// Both mirrors at once: a rotation by 180 degrees.
    Rotate,
    /// Mirror about the vertical axis only.
    Horizontal,
    /// Mirror about the horizontal axis only.
    Vertical,
    /// No mirroring.
    Unchanged,
}

/// The transformation that the settings `horizontal` and `vertical` select.
pub open spec fn selected_mode(horizontal: bool, vertical: bool) -> MirrorMode {
    if horizontal && vertical {
        MirrorMode::Rotate
    } else if horizontal {
        MirrorMode::Horizontal
    } else if vertical {
        MirrorMode::Vertical
    } else {
        MirrorMode::Unchanged
    }
}

/// The `w` x `h` image `s` after the transformation `mode`.
pub open spec fn mirrored_image(s: Seq<u8>, w: int, h: int, mode: MirrorMode) -> Seq<u8> {
    match mode {
        MirrorMode::Rotate => rotate_pixels(s, w * h),
        MirrorMode::Horizontal => mirror_rows(s, w),
        MirrorMode::Vertical => flip_rows(s, w, h),
        MirrorMode::Unchanged => s,
    }
}

/// Whether `mirror_image` can run with these settings on a `width` x `height` image:
/// mirroring the rows needs a non-zero width, reversing their order a non-zero height.
pub open spec fn mirror_supported(width: int, height: int, params: MirrorParams) -> bool {
    &&& (params.horizontal && !params.vertical ==> width > 0 && width * 4 <= usize::MAX)
    &&& (!params.horizontal && params.vertical ==> height > 0)
}

/// The transformation that the settings select.
pub fn mirror_mode(params: &MirrorParams) -> (mode: MirrorMode)
    ensures
        mode == selected_mode(params.horizontal, params.vertical),
{
    if params.horizontal && params.vertical {
        MirrorMode::Rotate
    } else if params.horizontal {
        MirrorMode::Horizontal
    } else if params.vertical {
        MirrorMode::Vertical
    } else {
        MirrorMode::Unchanged
    }
}

/// Whether `mirror_image` can run with these settings on a `width` x `height` image.
pub fn mirror_settings_supported(width: u32, height: u32, params: &MirrorParams) -> (ok: bool)
    ensures
        ok == mirror_supported(width as int, height as int, *params),
{
    let row_ok = width > 0 && (width as u64) * 4 <= usize::MAX as u64;
    (!(params.horizontal && !params.vertical) || row_ok) && (!(!params.horizontal && params.vertical) || height > 0)
}

/// Applies the mirror plugin with the given settings to a `width` x `height` RGBA image:
/// both mirrors rotate it by 180 degrees, one of them mirrors it about that axis, none
/// leaves it as it is.
pub fn mirror_image(width: u32, height: u32, data: &mut [u8], params: &MirrorParams) -> (mode: MirrorMode)
    requires
        old(data)@.len() == width * height * 4,
        mirror_supported(width as int, height as int, *params),
    ensures
        mode == selected_mode(params.horizontal, params.vertical),
        final(data)@ == mirrored_image(old(data)@, width as int, height as int, mode),
{
    let w = width as usize;
    let h = height as usize;
    let len = data.len();
    let mode = mirror_mode(params);
    match mode {
        MirrorMode::Rotate => {
            full_mirror(w, h, data);
        },
        MirrorMode::Horizontal => {
            horizontal_mirror(w, data);
        },
        MirrorMode::Vertical => {
            assert(w * 4 <= usize::MAX && h * (w * 4) == w * h * 4) by (nonlinear_arith)
                requires w * h * 4 <= usize::MAX, h > 0;
            vertical_mirror(w, h, data);
        },
        MirrorMode::Unchanged => {},
    }
    mode
}

/// Applying the mirror plugin twice with the same settings gives back the original image.
pub proof fn lemma_mirrored_image_involution(s: Seq<u8>, w: int, h: int, mode: MirrorMode)
    requires
        0 <= w,
        0 <= h,
        s.len() == w * h * 4,
        mode == MirrorMode::Horizontal ==> w > 0,
    ensures
        mirrored_image(mirrored_image(s, w, h, mode), w, h, mode) == s,
{
    match mode {
        MirrorMode::Rotate => {
            lemma_rotate_pixels_involution(s, w * h);
        },
        MirrorMode::Horizontal => {
            lemma_mirror_rows_involution(s, w);
        },
        MirrorMode::Vertical => {
            assert(h * (w * 4) == w * h * 4) by (nonlinear_arith);
            lemma_flip_rows_involution(s, w, h);
        },
        MirrorMode::Unchanged => {},
    }
}

} // verus!
