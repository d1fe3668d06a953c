//! Raster primitives on a row-major frame buffer: the cell in column `c` and
//! row `r` of a frame `tabw` cells wide is the byte at `r * tabw + c`.

use vstd::arithmetic::div_mod::lemma_fundamental_div_mod_converse;
use vstd::arithmetic::mul::lemma_mul_inequality;
use vstd::prelude::*;

verus! {

/// Index of the cell `(c, r)` in a frame `w` cells wide.
pub open spec fn cell(c: int, r: int, w: int) -> int {
    r * w + c
}

/// The cell `(x, y)` moved inside a frame of `tabw` columns and `tabh` rows:
/// each coordinate that is too large is replaced by the last column or row.
pub open spec fn clamped(x: nat, y: nat, tabw: nat, tabh: nat) -> (nat, nat) {
    (
        if x >= tabw { (tabw - 1) as nat } else { x },
        if y >= tabh { (tabh - 1) as nat } else { y },
    )
}

/// Distance of `v` from `a`, counted in the direction from `a` towards `b`.
pub open spec fn offset(a: int, b: int, v: int) -> int {
    if b < a { a - v } else { v - a }
}

/// The row, counted from the start row, that a sloped line with steps
/// `dx` (columns) and `dy` (rows) reaches at column `j`: `j * dy / dx`
/// rounded to the nearest integer, halves rounded up.
pub open spec fn row_at(j: int, dx: int, dy: int) -> int {
    (2 * dy * j + dx) / (2 * dx)
}

/// Whether the sloped line fills row `m` of column `j`: each column from the
/// first to the one before the last holds its own row and, where the line
/// climbs by more than one row before the next column, the rows in between.
pub open spec fn in_run(j: int, m: int, dx: int, dy: int) -> bool {
    &&& 0 <= j < dx
    &&& row_at(j, dx, dy) <= m
    &&& (m == row_at(j, dx, dy) || m < row_at(j + 1, dx, dy))
}

/// Whether the segment from `(ax, ay)` to `(bx, by)` covers the cell `(c, r)`.
/// A horizontal or vertical segment covers both of its ends; a sloped one
/// covers its start and stops before the column of its end.
pub open spec fn segment_cell(ax: int, ay: int, bx: int, by: int, c: int, r: int) -> bool {
    let dx = if bx < ax { ax - bx } else { bx - ax };
    let dy = if by < ay { ay - by } else { by - ay };
    let j = offset(ax, bx, c);
    let m = offset(ay, by, r);
    if dx == 0 {
        c == ax && 0 <= m <= dy
    } else if dy == 0 {
        r == ay && 0 <= j <= dx
    } else {
        in_run(j, m, dx, dy)
    }
}

/// Whether `draw_line(xi, yi, xf, yf, ..)` colours the cell `(c, r)` of a frame of
/// `tabw` columns and `tabh` rows: both ends are clamped to the frame first.
pub open spec fn line_cell(
    xi: nat,
    yi: nat,
    xf: nat,
    yf: nat,
    tabw: nat,
    tabh: nat,
    c: int,
    r: int,
) -> bool {
    let a = clamped(xi, yi, tabw, tabh);
    let b = clamped(xf, yf, tabw, tabh);
    segment_cell(a.0 as int, a.1 as int, b.0 as int, b.1 as int, c, r)
}

proof fn lemma_cell_bound(c: int, r: int, w: int, h: int)
    requires
        0 <= c < w,
        0 <= r < h,
    ensures
        0 <= cell(c, r, w) < w * h,
{
    lemma_mul_inequality(r, h - 1, w);
    assert((h - 1) * w == w * h - w) by (nonlinear_arith);
    assert(0 <= r * w) by (nonlinear_arith)
        requires
            0 <= r,
            0 <= w,
    ;
}

proof fn lemma_cell_unique(c1: int, r1: int, c2: int, r2: int, w: int)
    requires
        0 <= c1 < w,
        0 <= c2 < w,
        cell(c1, r1, w) == cell(c2, r2, w),
    ensures
        c1 == c2,
        r1 == r2,
{
    lemma_fundamental_div_mod_converse(cell(c1, r1, w), w, r1, c1);
    lemma_fundamental_div_mod_converse(cell(c2, r2, w), w, r2, c2);
}

/// The error term of the sloped loop pins down the row reached.
proof fn lemma_row(j: int, m: int, dx: int, dy: int)
    requires
        dx > 0,
        -2 * dx <= -dx + 2 * dy * j - 2 * dx * m < 0,
    ensures
        m == row_at(j, dx, dy),
{
    assert(2 * dy * j + dx == m * (2 * dx) + (2 * dy * j + dx - 2 * dx * m)) by (nonlinear_arith);
    lemma_fundamental_div_mod_converse(2 * dy * j + dx, 2 * dx, m, 2 * dy * j + dx - 2 * dx * m);
}

/// The sloped loop never climbs past the row of the end point.
proof fn lemma_row_bound(j: int, m: int, dx: int, dy: int)
    requires
        dx > 0,
        dy >= 0,
        0 <= j <= dx,
        -2 * dx <= -dx + 2 * dy * j - 2 * dx * m,
    ensures
        m <= dy,
{
    lemma_mul_inequality(j, dx, dy);
    assert(dy * j == j * dy) by (nonlinear_arith);
    assert(2 * dx * (m - dy) <= dx) by (nonlinear_arith)
        requires
            2 * dx * m <= dx + 2 * dy * j,
            dy * j <= dx * dy,
    ;
    if m > dy {
        assert(2 * dx * (m - dy) >= 2 * dx) by (nonlinear_arith)
            requires
                m - dy >= 1,
                dx > 0,
        ;
    }
}

/// Clamps `(x, y)` to the frame of `tabw` columns and `tabh` rows.
pub fn limit(x: usize, y: usize, tabw: usize, tabh: usize) -> (r: (usize, usize))
    requires
        tabw > 0,
        tabh > 0,
    ensures
        (r.0 as nat, r.1 as nat) == clamped(x as nat, y as nat, tabw as nat, tabh as nat),
        r.0 < tabw,
        r.1 < tabh,
{
    let x2 = if x >= tabw { tabw - 1 } else { x };
    let y2 = if y >= tabh { tabh - 1 } else { y };
    (x2, y2)
}

/// Sets the cell `(c, r)` to `color`.
fn plot(tab: &mut [u8], c: usize, r: usize, color: u8, tabw: usize, tabh: usize)
    requires
        c < tabw,
        r < tabh,
        old(tab)@.len() == tabw * tabh,
    ensures
        0 <= cell(c as int, r as int, tabw as int) < old(tab)@.len(),
        final(tab)@ == old(tab)@.update(cell(c as int, r as int, tabw as int), color),
{
    let size: usize = tab.len();
    proof {
        lemma_cell_bound(c as int, r as int, tabw as int, tabh as int);
        assert(cell(c as int, r as int, tabw as int) < size);
    }
    tab[r * tabw + c] = color;
}

/// The cell `toward(a, b, j)`: `j` steps from `a` in the direction of `b`.
fn toward(a: usize, b: usize, j: usize) -> (r: usize)
    requires
        j <= if b < a { a - b } else { b - a },
    ensures
        offset(a as int, b as int, r as int) == j,
        b < a ==> b <= r <= a,
        a <= b ==> a <= r <= b,
{
    if b < a { a - j } else { a + j }
}

/// Colours the cells of the segment from `(ax, ay)` to `(bx, by)` along a
/// row or a column.
fn draw_straight(
    ax: usize,
    ay: usize,
    bx: usize,
    by: usize,
    color: u8,
    tab: &mut [u8],
    tabw: usize,
    tabh: usize,
)
    requires
        ax < tabw,
        bx < tabw,
        ay < tabh,
        by < tabh,
        ax == bx || ay == by,
        old(tab)@.len() == tabw * tabh,
    ensures
        final(tab)@.len() == old(tab)@.len(),
        forall|c: int, r: int|
            0 <= c < tabw && 0 <= r < tabh ==> #[trigger] final(tab)@[cell(c, r, tabw as int)] == if segment_cell(
                ax as int,
                ay as int,
                bx as int,
                by as int,
                c,
                r,
            ) {
                color
            } else {
                old(tab)@[cell(c, r, tabw as int)]
            },
{
    let vertical = ax == bx;
    let len: usize = if vertical {
        if by < ay { ay - by } else { by - ay }
    } else {
        if bx < ax { ax - bx } else { bx - ax }
    };
    let mut k: usize = 0;
    while k < len + 1
        invariant
            k <= len + 1,
            len < if vertical { tabh } else { tabw },
            len == if vertical {
                if by < ay { ay - by } else { by - ay }
            } else {
                if bx < ax { ax - bx } else { bx - ax }
            },
            vertical == (ax == bx),
            ax < tabw,
            bx < tabw,
            ay < tabh,
            by < tabh,
            ax == bx || ay == by,
            tab@.len() == tabw * tabh,
            forall|c: int, r: int|
                0 <= c < tabw && 0 <= r < tabh ==> #[trigger] tab@[cell(c, r, tabw as int)] == if segment_cell(
                    ax as int,
                    ay as int,
                    bx as int,
                    by as int,
                    c,
                    r,
                ) && (if vertical {
                    offset(ay as int, by as int, r)
                } else {
                    offset(ax as int, bx as int, c)
                }) < k {
                    color
                } else {
                    old(tab)@[cell(c, r, tabw as int)]
                },
        decreases len + 1 - k,
    {
        let (c0, r0) = if vertical {
            (ax, toward(ay, by, k))
        } else {
            (toward(ax, bx, k), ay)
        };
        let ghost before = tab@;
        plot(&mut *tab, c0, r0, color, tabw, tabh);
        assert forall|c: int, r: int| 0 <= c < tabw && 0 <= r < tabh implies #[trigger] tab@[cell(
            c,
            r,
            tabw as int,
        )] == if segment_cell(ax as int, ay as int, bx as int, by as int, c, r) && (if vertical {
            offset(ay as int, by as int, r)
        } else {
            offset(ax as int, bx as int, c)
        }) < k + 1 {
            color
        } else {
            old(tab)@[cell(c, r, tabw as int)]
        } by {
            lemma_cell_bound(c, r, tabw as int, tabh as int);
            if cell(c, r, tabw as int) == cell(c0 as int, r0 as int, tabw as int) {
                lemma_cell_unique(c, r, c0 as int, r0 as int, tabw as int);
            }
        }
        k = k + 1;
    }
}


/// Colours the cells of the sloped segment from `(ax, ay)` to `(bx, by)`,
/// walking its columns with an integer error term.
#[verifier::rlimit(40)]
fn draw_sloped(
    ax: usize,
    ay: usize,
    bx: usize,
    by: usize,
    color: u8,
    tab: &mut [u8],
    tabw: usize,
    tabh: usize,
)
    requires
        ax < tabw,
        bx < tabw,
        ay < tabh,
        by < tabh,
        ax != bx,
        ay != by,
        old(tab)@.len() == tabw * tabh,
    ensures
        final(tab)@.len() == old(tab)@.len(),
        forall|c: int, r: int|
            0 <= c < tabw && 0 <= r < tabh ==> #[trigger] final(tab)@[cell(c, r, tabw as int)] == if segment_cell(
                ax as int,
                ay as int,
                bx as int,
                by as int,
                c,
                r,
            ) {
                color
            } else {
                old(tab)@[cell(c, r, tabw as int)]
            },
{
    let dx: usize = if bx < ax { ax - bx } else { bx - ax };
    let dy: usize = if by < ay { ay - by } else { by - ay };
    let ghost dxi = dx as int;
    let ghost dyi = dy as int;
    let mut j: usize = 0;
    let mut m: usize = 0;
    let mut e: i128 = -(dx as i128);
    while j < dx
        invariant
            ax < tabw,
            bx < tabw,
            ay < tabh,
            by < tabh,
            dxi == dx,
            dyi == dy,
            dx == (if bx < ax { ax - bx } else { bx - ax }),
            dy == (if by < ay { ay - by } else { by - ay }),
            dx > 0,
            dy > 0,
            j <= dx,
            m <= dy,
            e == -dxi + 2 * dyi * j - 2 * dxi * m,
            -2 * dxi <= e < 0,
            tab@.len() == tabw * tabh,
            forall|c: int, r: int|
                0 <= c < tabw && 0 <= r < tabh ==> #[trigger] tab@[cell(c, r, tabw as int)] == if segment_cell(
                    ax as int,
                    ay as int,
                    bx as int,
                    by as int,
                    c,
                    r,
                ) && offset(ax as int, bx as int, c) < j {
                    color
                } else {
                    old(tab)@[cell(c, r, tabw as int)]
                },
        decreases dx - j,
    {
        proof {
            lemma_row(j as int, m as int, dxi, dyi);
        }
        let ghost first = m as int;
        let ghost start = tab@;
        let c0 = toward(ax, bx, j);
        let r0 = toward(ay, by, m);
        plot(&mut *tab, c0, r0, color, tabw, tabh);
        assert forall|c: int, r: int| 0 <= c < tabw && 0 <= r < tabh implies #[trigger] tab@[cell(
            c,
            r,
            tabw as int,
        )] == if segment_cell(ax as int, ay as int, bx as int, by as int, c, r) && offset(
            ax as int,
            bx as int,
            c,
        ) < j || offset(ax as int, bx as int, c) == j && offset(ay as int, by as int, r) == first {
            color
        } else {
            old(tab)@[cell(c, r, tabw as int)]
        } by {
            lemma_cell_bound(c, r, tabw as int, tabh as int);
            if cell(c, r, tabw as int) == cell(c0 as int, r0 as int, tabw as int) {
                lemma_cell_unique(c, r, c0 as int, r0 as int, tabw as int);
            }
        }
        e = e + 2 * (dy as i128);
        assert(2 * dyi * (j + 1) == 2 * dyi * j + 2 * dyi) by (nonlinear_arith);
        while e >= 0
            invariant
                ax < tabw,
                bx < tabw,
                ay < tabh,
                by < tabh,
                dxi == dx,
                dyi == dy,
                dx == (if bx < ax { ax - bx } else { bx - ax }),
                dy == (if by < ay { ay - by } else { by - ay }),
                dx > 0,
                dy > 0,
                j < dx,
                first == row_at(j as int, dxi, dyi),
                first <= m <= dy,
                e == -dxi + 2 * dyi * (j + 1) - 2 * dxi * m,
                -2 * dxi <= e,
                e < 2 * dyi,
                tab@.len() == tabw * tabh,
                forall|c: int, r: int|
                    0 <= c < tabw && 0 <= r < tabh ==> #[trigger] tab@[cell(c, r, tabw as int)]
                        == if segment_cell(ax as int, ay as int, bx as int, by as int, c, r)
                        && offset(ax as int, bx as int, c) < j || offset(ax as int, bx as int, c)
                        == j && first <= offset(ay as int, by as int, r) <= m && (offset(
                        ay as int,
                        by as int,
                        r,
                    ) < m || e >= 0 || offset(ay as int, by as int, r) == first) {
                        color
                    } else {
                        old(tab)@[cell(c, r, tabw as int)]
                    },
            decreases e + 2 * dxi,
        {
            proof {
                assert(2 * dxi * (m + 1) == 2 * dxi * m + 2 * dxi) by (nonlinear_arith);
                lemma_row_bound(j as int + 1, m as int + 1, dxi, dyi);
            }
            m = m + 1;
            e = e - 2 * (dx as i128);
            if e >= 0 {
                let c1 = toward(ax, bx, j);
                let r1 = toward(ay, by, m);
                plot(&mut *tab, c1, r1, color, tabw, tabh);
                assert forall|c: int, r: int| 0 <= c < tabw && 0 <= r < tabh implies #[trigger] tab@[cell(
                    c,
                    r,
                    tabw as int,
                )] == if segment_cell(ax as int, ay as int, bx as int, by as int, c, r) && offset(
                    ax as int,
                    bx as int,
                    c,
                ) < j || offset(ax as int, bx as int, c) == j && first <= offset(
                    ay as int,
                    by as int,
                    r,
                ) <= m {
                    color
                } else {
                    old(tab)@[cell(c, r, tabw as int)]
                } by {
                    lemma_cell_bound(c, r, tabw as int, tabh as int);
                    if cell(c, r, tabw as int) == cell(c1 as int, r1 as int, tabw as int) {
                        lemma_cell_unique(c, r, c1 as int, r1 as int, tabw as int);
                    }
                }
            }
        }
        proof {
            lemma_row(j as int + 1, m as int, dxi, dyi);
            assert forall|c: int, r: int| 0 <= c < tabw && 0 <= r < tabh implies #[trigger] tab@[cell(
                c,
                r,
                tabw as int,
            )] == if segment_cell(ax as int, ay as int, bx as int, by as int, c, r) && offset(
                ax as int,
                bx as int,
                c,
            ) < j + 1 {
                color
            } else {
                old(tab)@[cell(c, r, tabw as int)]
            } by {}
        }
        j = j + 1;
    }
}


/// Draws the segment from `(xi, yi)` to `(xf, yf)` in colour `color` on the
/// frame `tab` of `tabw` columns and `tabh` rows, after clamping both ends to
/// the frame. The cells it covers are those of `line_cell`; every other cell
/// keeps its value.
pub fn draw_line(
    xi: usize,
    yi: usize,
    xf: usize,
    yf: usize,
    color: u8,
    tab: &mut [u8],
    tabw: usize,
    tabh: usize,
)
    requires
        tabw > 0,
        tabh > 0,
        old(tab)@.len() == tabw * tabh,
    ensures
        final(tab)@.len() == old(tab)@.len(),
        forall|c: int, r: int|
            0 <= c < tabw && 0 <= r < tabh ==> #[trigger] final(tab)@[cell(c, r, tabw as int)] == if line_cell(
                xi as nat,
                yi as nat,
                xf as nat,
                yf as nat,
                tabw as nat,
                tabh as nat,
                c,
                r,
            ) {
                color
            } else {
                old(tab)@[cell(c, r, tabw as int)]
            },
{
    let (ax, ay) = limit(xi, yi, tabw, tabh);
    let (bx, by) = limit(xf, yf, tabw, tabh);
    if ax == bx || ay == by {
        draw_straight(ax, ay, bx, by, color, tab, tabw, tabh);
    } else {
        draw_sloped(ax, ay, bx, by, color, tab, tabw, tabh);
    }
}

/// Sets the cell `(x, y)`, clamped to the frame, to `color`.
pub fn draw_dot(x: usize, y: usize, color: u8, tab: &mut [u8], tabw: usize, tabh: usize)
    requires
        tabw > 0,
        tabh > 0,
        old(tab)@.len() == tabw * tabh,
    ensures
        ({
            let p = clamped(x as nat, y as nat, tabw as nat, tabh as nat);
            final(tab)@ == old(tab)@.update(cell(p.0 as int, p.1 as int, tabw as int), color)
        }),
{
    let (x2, y2) = limit(x, y, tabw, tabh);
    plot(tab, x2, y2, color, tabw, tabh);
}

/// Width of the demonstration frame of `test_gif`.
pub const TEST_WIDTH: usize = 300;

/// Height of the demonstration frame of `test_gif`.
pub const TEST_HEIGHT: usize = 200;

/// The demonstration frame: a blank `TEST_WIDTH` by `TEST_HEIGHT` frame with
/// the segment from `(a, b)` to `(c, d)` drawn in colour 1.
pub fn test_gif(a: usize, b: usize, c: usize, d: usize) -> (frame: Vec<u8>)
    ensures
        frame@.len() == TEST_WIDTH * TEST_HEIGHT,
        forall|x: int, y: int|
            0 <= x < TEST_WIDTH && 0 <= y < TEST_HEIGHT ==> #[trigger] frame@[cell(
                x,
                y,
                TEST_WIDTH as int,
            )] == if line_cell(
                a as nat,
                b as nat,
                c as nat,
                d as nat,
                TEST_WIDTH as nat,
                TEST_HEIGHT as nat,
                x,
                y,
            ) {
                1u8
            } else {
                0u8
            },
{
    let mut frame: Vec<u8> = Vec::new();
    let mut i: usize = 0;
    while i < TEST_WIDTH * TEST_HEIGHT
        invariant
            i <= TEST_WIDTH * TEST_HEIGHT,
            frame@.len() == i,
            forall|k: int| 0 <= k < i ==> #[trigger] frame@[k] == 0u8,
        decreases TEST_WIDTH * TEST_HEIGHT - i,
    {
        frame.push(0u8);
        i = i + 1;
    }
    let ghost blank = frame@;
    draw_line(a, b, c, d, 1u8, frame.as_mut_slice(), TEST_WIDTH, TEST_HEIGHT);
    assert forall|x: int, y: int| 0 <= x < TEST_WIDTH && 0 <= y < TEST_HEIGHT implies blank[cell(
        x,
        y,
        TEST_WIDTH as int,
    )] == 0u8 by {
        lemma_cell_bound(x, y, TEST_WIDTH as int, TEST_HEIGHT as int);
    }
    frame
}

} // verus!
