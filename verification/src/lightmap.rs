//! The layout of lightmap pages in one square image.
//!
//! The pages are squares of `PAGE_SIZE` pixels. They are laid out in a
//! square of cells, shell by shell: page 0 in the corner, pages 1 to 3
//! around it, pages 4 to 8 around those, and so on. Each shell starts at the
//! far end of its column, comes down the column to the diagonal, and then
//! runs back along the row.

use vstd::prelude::*;
use crate::fixed::{floor_sqrt, is_floor_sqrt, isqrt};

verus! {

/// The width and height of a page, in pixels.
pub const PAGE_SIZE: u32 = 256;

/// The most pages that are laid out.
pub const MAX_PAGES: u32 = 0x1_0000;

/// The number of samples along one side of the lightmap of a surface that
/// extends over `extent` along that side: one for every sixteen units, and
/// one more.
pub open spec fn span_of(extent: int) -> int {
    if extent >= 0 {
        extent / 16 + 1
    } else {
        1 - (-extent) / 16
    }
}

/// The number of samples along one side of the lightmap of a surface.
pub fn lightmap_span(extent: i16) -> (span: i16)
    ensures
        span == span_of(extent as int),
{
    if extent >= 0 {
        (extent as u16 / 16) as i16 + 1
    } else {
        1 - ((-(extent as i32)) as u32 / 16) as i16
    }
}

/// The least `d` with `d * d >= n`.
pub open spec fn ceil_sqrt(n: int) -> int {
    if floor_sqrt(n) * floor_sqrt(n) == n {
        floor_sqrt(n)
    } else {
        floor_sqrt(n) + 1
    }
}

/// How far `p` is below `d`.
pub open spec fn gap(p: int, d: int) -> int {
    if p < d {
        d - p
    } else {
        0
    }
}

/// The first of `p`, `2 * p`, `4 * p`, ... that is at least `d`.
pub open spec fn doubled_to(p: int, d: int) -> int
    decreases gap(p, d),
{
    if p >= d || p <= 0 {
        p
    } else {
        doubled_to(2 * p, d)
    }
}

/// The least power of two that is at least `d`, and zero for zero.
pub open spec fn power_of_two_for(d: int) -> int {
    if d <= 0 {
        0
    } else {
        doubled_to(1, d)
    }
}

/// The number of cells along a side of the image that holds `page_count`
/// pages: a power of two, so that the image is square with a side that is
/// a power of two.
pub open spec fn cells_per_side(page_count: int) -> int {
    power_of_two_for(ceil_sqrt(page_count))
}

/// The cell of page `p`: column and row.
pub open spec fn cell_of(p: int) -> (int, int) {
    let shell = floor_sqrt(p);
    let last = (shell + 1) * (shell + 1) - 1;
    (
        if last - p < shell {
            last - p
        } else {
            shell
        },
        if p - shell * shell < shell {
            p - shell * shell
        } else {
            shell
        },
    )
}

/// The square root of a number exists.
proof fn lemma_root_exists(n: int)
    requires
        0 <= n,
    ensures
        is_floor_sqrt(n, floor_sqrt(n)),
    decreases n,
{
    if n == 0 {
        assert(is_floor_sqrt(0, 0));
    } else {
        lemma_root_exists(n - 1);
        let r = floor_sqrt(n - 1);
        if (r + 1) * (r + 1) <= n {
            assert(is_floor_sqrt(n, r + 1)) by (nonlinear_arith)
                requires
                    0 <= r,
                    r * r <= n - 1 < (r + 1) * (r + 1),
                    (r + 1) * (r + 1) <= n,
            ;
        } else {
            assert(is_floor_sqrt(n, r));
        }
    }
}

/// The integer square root of a number of pages, and the shell of a page.
fn root(n: u32) -> (r: u32)
    ensures
        r == floor_sqrt(n as int),
        is_floor_sqrt(n as int, r as int),
        r <= 0xffff,
{
    let r: u64 = isqrt(n as u128);
    assert(r <= 0xffff) by (nonlinear_arith)
        requires
            r * r <= n,
            n <= 0xffff_ffff,
            0 <= r,
    ;
    r as u32
}

/// The number of cells along a side of the image that holds `page_count`
/// pages.
pub fn atlas_cells(page_count: u32) -> (side: u32)
    requires
        page_count <= MAX_PAGES,
    ensures
        side == cells_per_side(page_count as int),
        side <= 256,
        side * side >= page_count,
{
    let r: u32 = root(page_count);
    assert(r <= 256 && (r + 1) * (r + 1) > page_count && r * r <= page_count) by (nonlinear_arith)
        requires
            r * r <= page_count < (r + 1) * (r + 1),
            page_count <= 0x1_0000,
            0 <= r,
    ;
    let dimension: u32 = if r * r == page_count {
        r
    } else {
        r + 1
    };
    assert(dimension <= 256 && dimension * dimension >= page_count) by (nonlinear_arith)
        requires
            dimension == r || dimension == r + 1,
            dimension == r ==> r * r == page_count,
            dimension == r + 1 ==> r * r < page_count,
            r * r <= page_count,
            (r + 1) * (r + 1) > page_count,
            page_count <= 0x1_0000,
            0 <= r,
    ;
    if dimension == 0 {
        return 0;
    }
    let mut side: u32 = 1;
    while side < dimension
        invariant
            side == 1 || side == 2 || side == 4 || side == 8 || side == 16 || side == 32 || side
                == 64 || side == 128 || side == 256,
            dimension <= 256,
            doubled_to(side as int, dimension as int) == doubled_to(1, dimension as int),
            side < 2 * dimension,
        decreases gap(side as int, dimension as int),
    {
        side = 2 * side;
    }
    assert(side * side >= page_count) by (nonlinear_arith)
        requires
            side >= dimension,
            dimension * dimension >= page_count,
            0 <= dimension,
    ;
    side
}

/// The width and height of the image that holds `page_count` pages, in
/// pixels.
pub fn atlas_size(page_count: u32) -> (size: u32)
    requires
        page_count <= MAX_PAGES,
    ensures
        size == cells_per_side(page_count as int) * PAGE_SIZE,
{
    atlas_cells(page_count) * PAGE_SIZE
}

/// The cell of a page: column and row.
pub fn page_cell(p: u32) -> (cell: (u32, u32))
    ensures
        (cell.0 as int, cell.1 as int) == cell_of(p as int),
        cell.0 <= floor_sqrt(p as int),
        cell.1 <= floor_sqrt(p as int),
        cell.0 == floor_sqrt(p as int) || cell.1 == floor_sqrt(p as int),
{
    let shell: u32 = root(p);
    assert(shell * shell <= p && p <= shell * shell + 2 * shell && shell * shell + 2 * shell
        <= 0xffff_ffff && (shell + 1) * (shell + 1) - 1 == shell * shell + 2 * shell)
        by (nonlinear_arith)
        requires
            shell * shell <= p < (shell + 1) * (shell + 1),
            0 <= shell <= 0xffff,
    ;
    let first: u32 = shell * shell;
    let last: u32 = first + 2 * shell;
    let x: u32 = if last - p < shell {
        last - p
    } else {
        shell
    };
    let y: u32 = if p - first < shell {
        p - first
    } else {
        shell
    };
    (x, y)
}

/// Every page lies in the image: a page below `page_count` has its cell
/// within the cells of the image that holds `page_count` pages.
pub proof fn lemma_cell_in_atlas(p: int, page_count: int)
    requires
        0 <= p < page_count,
    ensures
        0 <= cell_of(p).0 < cells_per_side(page_count),
        0 <= cell_of(p).1 < cells_per_side(page_count),
{
    lemma_root_exists(p);
    lemma_root_exists(page_count);
    let shell = floor_sqrt(p);
    let r = floor_sqrt(page_count);
    let d = ceil_sqrt(page_count);
    assert(shell < d && 0 <= (shell + 1) * (shell + 1) - 1 - p && 0 <= p - shell * shell)
        by (nonlinear_arith)
        requires
            0 <= shell,
            0 <= r,
            shell * shell <= p < (shell + 1) * (shell + 1),
            r * r <= page_count < (r + 1) * (r + 1),
            p < page_count,
            d == r + 1 || (d == r && r * r == page_count),
    ;
    lemma_doubled_reaches(1, d);
}

/// Doubling does not stop before it reaches its aim.
proof fn lemma_doubled_reaches(p: int, d: int)
    requires
        0 < p,
    ensures
        doubled_to(p, d) >= d,
        doubled_to(p, d) >= p,
    decreases gap(p, d),
{
    if p < d {
        lemma_doubled_reaches(2 * p, d);
    }
}

/// No two pages share a cell.
pub proof fn lemma_cells_differ(p: int, q: int)
    requires
        0 <= p,
        0 <= q,
        cell_of(p) == cell_of(q),
    ensures
        p == q,
{
    lemma_root_exists(p);
    lemma_root_exists(q);
    let a = floor_sqrt(p);
    let b = floor_sqrt(q);
    lemma_cell_shell(p);
    lemma_cell_shell(q);
    assert(a == b);
    assert(p == q) by (nonlinear_arith)
        requires
            a == b,
            0 <= a,
            a * a <= p < (a + 1) * (a + 1),
            b * b <= q < (b + 1) * (b + 1),
            (if (a + 1) * (a + 1) - 1 - p < a {
                (a + 1) * (a + 1) - 1 - p
            } else {
                a
            }) == (if (b + 1) * (b + 1) - 1 - q < b {
                (b + 1) * (b + 1) - 1 - q
            } else {
                b
            }),
            (if p - a * a < a {
                p - a * a
            } else {
                a
            }) == (if q - b * b < b {
                q - b * b
            } else {
                b
            }),
    ;
}

/// The larger coordinate of the cell of a page is the shell of the page.
proof fn lemma_cell_shell(p: int)
    requires
        0 <= p,
        is_floor_sqrt(p, floor_sqrt(p)),
    ensures
        cell_of(p).0 <= floor_sqrt(p),
        cell_of(p).1 <= floor_sqrt(p),
        cell_of(p).0 == floor_sqrt(p) || cell_of(p).1 == floor_sqrt(p),
        0 <= cell_of(p).0,
        0 <= cell_of(p).1,
{
    let a = floor_sqrt(p);
    assert((a + 1) * (a + 1) - 1 - p >= 0 && p - a * a >= 0 && ((a + 1) * (a + 1) - 1 - p >= a
        || p - a * a >= a)) by (nonlinear_arith)
        requires
            0 <= a,
            a * a <= p < (a + 1) * (a + 1),
    ;
}

/// The place of the first byte of the pixel in column `px` and row `py` of
/// a square image of `size` pixels a side, three bytes a pixel.
pub open spec fn atlas_index(size: int, px: int, py: int) -> int {
    (py * size + px) * 3
}

/// The place of byte `k` of row `row` of the frame whose first pixel is in
/// column `ox` and row `oy`.
pub open spec fn frame_byte(size: int, ox: int, oy: int, row: int, k: int) -> int {
    atlas_index(size, ox, oy + row) + k
}

/// Whether byte `i` of the image belongs to the frame of `w` times `h`
/// pixels whose first pixel is in column `ox` and row `oy`.
pub open spec fn in_frame(size: int, ox: int, oy: int, w: int, h: int, i: int) -> bool {
    exists|row: int, k: int|
        0 <= row < h && 0 <= k < 3 * w && i == #[trigger] frame_byte(size, ox, oy, row, k)
}

/// The bytes of a row of a frame lie in the image, and the rows of a frame
/// follow each other without meeting.
proof fn lemma_frame_rows(size: int, ox: int, oy: int, w: int, h: int, row: int, k: int)
    requires
        0 <= ox,
        0 <= oy,
        0 <= w,
        ox + w <= size,
        oy + h <= size,
        0 <= row < h,
        0 <= k < 3 * w,
    ensures
        0 <= atlas_index(size, ox, oy + row) + k < size * size * 3,
        atlas_index(size, ox, oy + row) + k < atlas_index(size, ox, oy + row + 1),
        0 <= (oy + row) * size + ox,
        (oy + row) * size + ox < size * size,
{
    let py = oy + row;
    assert(0 <= py * size && py * size + size <= size * size && (py + 1) * size == py * size
        + size) by (nonlinear_arith)
        requires
            0 <= py < size,
    ;
}

/// The rows of a frame lie in the order of their numbers.
proof fn lemma_rows_in_order(size: int, ox: int, oy: int, low: int, high: int)
    requires
        0 <= size,
        low <= high,
    ensures
        atlas_index(size, ox, oy + low) <= atlas_index(size, ox, oy + high),
{
    assert((oy + low) * size <= (oy + high) * size) by (nonlinear_arith)
        requires
            0 <= size,
            low <= high,
    ;
}

/// Copies the lightmap of a surface into the image.
///
/// The lightmap has `w` times `h` samples of three bytes, row after row,
/// from sample `first` of `samples` on. It goes to the frame whose first
/// pixel is in column `ox` and row `oy` of the image. The rest of the image
/// stays as it is.
pub fn place_lightmap(
    image: &mut Vec<u8>,
    size: u32,
    ox: u32,
    oy: u32,
    w: u32,
    h: u32,
    samples: &[u8],
    first: u32,
)
    requires
        old(image)@.len() == size * size * 3,
        ox + w <= size,
        oy + h <= size,
        (first + h * w) * 3 <= samples@.len(),
    ensures
        final(image)@.len() == old(image)@.len(),
        forall|row: int, k: int|
            0 <= row < h && 0 <= k < 3 * w ==> final(image)@[#[trigger] frame_byte(
                    size as int,
                    ox as int,
                    oy as int,
                    row,
                    k,
                )] == samples@[(first + row * w) * 3 + k],
        forall|i: int|
            0 <= i < old(image)@.len() && !in_frame(
                size as int,
                ox as int,
                oy as int,
                w as int,
                h as int,
                i,
            ) ==> final(image)@[i] == old(image)@[i],
{
    let len: usize = image.len();
    let available: usize = samples.len();
    assert(3 * w <= size * size * 3) by (nonlinear_arith)
        requires
            0 <= w <= size,
    ;
    let width: usize = w as usize * 3;
    let mut row: u32 = 0;
    while row < h
        invariant
            image@.len() == old(image)@.len(),
            image@.len() <= usize::MAX,
            samples@.len() <= usize::MAX,
            old(image)@.len() == size * size * 3,
            ox + w <= size,
            oy + h <= size,
            (first + h * w) * 3 <= samples@.len(),
            width == 3 * w,
            0 <= row <= h,
            forall|r: int, k: int|
                0 <= r < row && 0 <= k < 3 * w ==> image@[#[trigger] frame_byte(
                        size as int,
                        ox as int,
                        oy as int,
                        r,
                        k,
                    )] == samples@[(first + r * w) * 3 + k],
            forall|i: int|
                0 <= i < image@.len() && !in_frame(
                    size as int,
                    ox as int,
                    oy as int,
                    w as int,
                    row as int,
                    i,
                ) ==> image@[i] == old(image)@[i],
        decreases h - row,
    {
        proof {
            if w > 0 {
                lemma_frame_rows(size as int, ox as int, oy as int, w as int, h as int, row as int, 0);
            }
            assert(0 <= row * w && row * w <= (h - 1) * w && (h - 1) * w + w == h * w)
                by (nonlinear_arith)
                requires
                    0 <= row < h,
                    0 <= w,
            ;
            if w > 0 {
                lemma_frame_rows(
                    size as int,
                    ox as int,
                    oy as int,
                    w as int,
                    h as int,
                    row as int,
                    3 * w - 1,
                );
            }
        }
        if w > 0 {
            let to: usize = ((oy + row) as usize * size as usize + ox as usize) * 3;
            let from: usize = (first as usize + row as usize * w as usize) * 3;
            let ghost before = image@;
            let mut k: usize = 0;
            while k < width
                invariant
                    image@.len() == old(image)@.len(),
                    image@.len() <= usize::MAX,
                    samples@.len() <= usize::MAX,
                    old(image)@.len() == size * size * 3,
                    ox + w <= size,
                    oy + h <= size,
                    (first + h * w) * 3 <= samples@.len(),
                    0 <= row * w,
                    row * w + w <= h * w,
                    width == 3 * w,
                    0 <= row < h,
                    0 <= k <= width,
                    to == atlas_index(size as int, ox as int, oy + row),
                    to + width <= image@.len(),
                    from == (first + row * w) * 3,
                    forall|j: int|
                        0 <= j < k ==> image@[#[trigger] frame_byte(
                            size as int,
                            ox as int,
                            oy as int,
                            row as int,
                            j,
                        )] == samples@[from + j],
                    forall|i: int|
                        0 <= i < image@.len() && !(to <= i < to + k) ==> image@[i] == before[i],
                decreases width - k,
            {
                image.set(to + k, samples[from + k]);
                k = k + 1;
            }
            proof {
                assert forall|r: int, j: int|
                    0 <= r < row + 1 && 0 <= j < 3 * w implies image@[#[trigger] frame_byte(
                        size as int,
                        ox as int,
                        oy as int,
                        r,
                        j,
                    )] == samples@[(first + r * w) * 3 + j] by {
                    if r < row {
                        lemma_frame_rows(size as int, ox as int, oy as int, w as int, h as int, r, j);
                        lemma_rows_in_order(size as int, ox as int, oy as int, r + 1, row as int);
                    }
                }
                assert forall|i: int|
                    0 <= i < image@.len() && !in_frame(
                        size as int,
                        ox as int,
                        oy as int,
                        w as int,
                        row + 1,
                        i,
                    ) implies image@[i] == old(image)@[i] by {
                    if to <= i < to + width {
                        assert(i == frame_byte(
                            size as int,
                            ox as int,
                            oy as int,
                            row as int,
                            i - to,
                        ));
                    }
                    if in_frame(size as int, ox as int, oy as int, w as int, row as int, i) {
                        let (r, j) = choose|r: int, j: int|
                            0 <= r < row && 0 <= j < 3 * w && i == #[trigger] frame_byte(
                                    size as int,
                                    ox as int,
                                    oy as int,
                                    r,
                                    j,
                                );
                        assert(i == frame_byte(size as int, ox as int, oy as int, r, j));
                    }
                }
            }
        } else {
            proof {
                assert forall|i: int|
                    0 <= i < image@.len() && !in_frame(
                        size as int,
                        ox as int,
                        oy as int,
                        w as int,
                        row + 1,
                        i,
                    ) implies image@[i] == old(image)@[i] by {
                    if in_frame(size as int, ox as int, oy as int, w as int, row as int, i) {
                        let (r, j) = choose|r: int, j: int|
                            0 <= r < row && 0 <= j < 3 * w && i == #[trigger] frame_byte(
                                    size as int,
                                    ox as int,
                                    oy as int,
                                    r,
                                    j,
                                );
                    }
                }
            }
        }
        row = row + 1;
    }
}

} // verus!
