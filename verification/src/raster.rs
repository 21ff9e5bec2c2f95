//! RGB raster primitives: an 8-bit RGB pixel buffer, `w` pixels per row, and
//! the operations that paint it (single pixels, vertical lines, rectangles,
//! triangles). Every operation paints only pixels inside the canvas.

use vstd::prelude::*;

verus! {

/// An RGB color.
pub type Rgb = (u8, u8, u8);

/// Offset of the first byte of pixel `(x, y)` in a buffer `w` pixels wide.
pub open spec fn px_index(w: int, x: int, y: int) -> int {
    (y * w + x) * 3
}

/// The pixel `(x, y)` of a `w` by `h` canvas can be written in a buffer of
/// `len` bytes: it is outside the canvas, or its three bytes are in the buffer.
pub open spec fn px_fits(len: int, w: int, h: int, x: int, y: int) -> bool {
    (x < w && y < h) ==> px_index(w, x, y) + 2 < len
}

/// The buffer after painting pixel `(x, y)` with `c`; pixels outside the
/// `w` by `h` canvas are left alone.
pub open spec fn put(b: Seq<u8>, w: int, h: int, x: int, y: int, c: Rgb) -> Seq<u8> {
    if 0 <= x < w && 0 <= y < h {
        let i = px_index(w, x, y);
        b.update(i, c.0).update(i + 1, c.1).update(i + 2, c.2)
    } else {
        b
    }
}

/// Paints pixel `(px, py)` with `c` when it lies inside the `w` by `h` canvas.
pub fn set(buf: &mut [u8], w: usize, h: usize, px: usize, py: usize, c: Rgb)
    requires
        px_fits(old(buf)@.len() as int, w as int, h as int, px as int, py as int),
    ensures
        final(buf)@ == put(old(buf)@, w as int, h as int, px as int, py as int, c),
{
    let n = buf.len();
    if px < w && py < h {
        assert((py * w + px) * 3 + 2 < n);
        assert(py * w <= (py * w + px) * 3) by (nonlinear_arith)
            requires
                py * w >= 0,
                px >= 0;
        let i = (py * w + px) * 3;
        buf[i] = c.0;
        buf[i + 1] = c.1;
        buf[i + 2] = c.2;
    }
}

/// The buffer after painting the pixels `x0..x` of row `y`, left to right.
pub open spec fn row_painted(b: Seq<u8>, w: int, h: int, x0: int, x: int, y: int, c: Rgb) -> Seq<u8>
    decreases x - x0,
{
    if x <= x0 {
        b
    } else {
        put(row_painted(b, w, h, x0, x - 1, y, c), w, h, x - 1, y, c)
    }
}

/// The buffer after painting rows `y0..y` of columns `x0..x1`, top to bottom.
pub open spec fn rect_painted(b: Seq<u8>, w: int, h: int, x0: int, x1: int, y0: int, y: int, c: Rgb) -> Seq<u8>
    decreases y - y0,
{
    if y <= y0 {
        b
    } else {
        row_painted(rect_painted(b, w, h, x0, x1, y0, y - 1, c), w, h, x0, x1, y - 1, c)
    }
}

/// Every pixel of columns `x0..x1`, rows `y0..y1` can be written.
pub open spec fn rect_fits(len: int, w: int, h: int, x0: int, x1: int, y0: int, y1: int) -> bool {
    forall|x: int, y: int| x0 <= x < x1 && y0 <= y < y1 ==> #[trigger] px_fits(len, w, h, x, y)
}

proof fn lemma_row_len(b: Seq<u8>, w: int, h: int, x0: int, x: int, y: int, c: Rgb)
    requires
        0 <= x0,
        0 <= y,
        forall|k: int| x0 <= k < x ==> #[trigger] px_fits(b.len() as int, w, h, k, y),
    ensures
        row_painted(b, w, h, x0, x, y, c).len() == b.len(),
    decreases x - x0,
{
    if x > x0 {
        lemma_row_len(b, w, h, x0, x - 1, y, c);
        assert(px_fits(b.len() as int, w, h, x - 1, y));
    }
}

proof fn lemma_rect_len(b: Seq<u8>, w: int, h: int, x0: int, x1: int, y0: int, y: int, c: Rgb)
    requires
        0 <= x0,
        0 <= y0,
        rect_fits(b.len() as int, w, h, x0, x1, y0, y),
    ensures
        rect_painted(b, w, h, x0, x1, y0, y, c).len() == b.len(),
    decreases y - y0,
{
    if y > y0 {
        lemma_rect_len(b, w, h, x0, x1, y0, y - 1, c);
        let p = rect_painted(b, w, h, x0, x1, y0, y - 1, c);
        assert forall|k: int| x0 <= k < x1 implies #[trigger] px_fits(p.len() as int, w, h, k, y - 1) by {
            assert(px_fits(b.len() as int, w, h, k, y - 1));
        }
        lemma_row_len(p, w, h, x0, x1, y - 1, c);
    }
}

/// Paints columns `x0..x1` of rows `y0..y1` with `c`, row by row; pixels
/// outside the `w` by `h` canvas are left alone.
pub fn rect(buf: &mut [u8], w: usize, h: usize, x0: usize, y0: usize, x1: usize, y1: usize, c: Rgb)
    requires
        rect_fits(old(buf)@.len() as int, w as int, h as int, x0 as int, x1 as int, y0 as int, y1 as int),
    ensures
        final(buf)@ == rect_painted(old(buf)@, w as int, h as int, x0 as int, x1 as int, y0 as int,
            if y1 > y0 { y1 as int } else { y0 as int }, c),
{
    let ghost b0 = buf@;
    let mut y = y0;
    while y < y1
        invariant
            y0 <= y,
            y <= y1 || y == y0,
            buf@.len() == b0.len(),
            rect_fits(b0.len() as int, w as int, h as int, x0 as int, x1 as int, y0 as int, y1 as int),
            buf@ == rect_painted(b0, w as int, h as int, x0 as int, x1 as int, y0 as int, y as int, c),
        decreases y1 - y,
    {
        let ghost before = buf@;
        let mut x = x0;
        while x < x1
            invariant
                x0 <= x,
                x <= x1 || x == x0,
                y0 <= y < y1,
                buf@.len() == b0.len(),
                rect_fits(b0.len() as int, w as int, h as int, x0 as int, x1 as int, y0 as int, y1 as int),
                buf@ == row_painted(before, w as int, h as int, x0 as int, x as int, y as int, c),
            decreases x1 - x,
        {
            assert(px_fits(b0.len() as int, w as int, h as int, x as int, y as int));
            set(buf, w, h, x, y, c);
            x = x + 1;
        }
        y = y + 1;
    }
}

/// The buffer after painting pixels `(x, y0..y)`, top to bottom.
pub open spec fn vline_painted(b: Seq<u8>, w: int, h: int, x: int, y0: int, y: int, c: Rgb) -> Seq<u8>
    decreases y - y0,
{
    if y <= y0 {
        b
    } else {
        put(vline_painted(b, w, h, x, y0, y - 1, c), w, h, x, y - 1, c)
    }
}

/// Paints the vertical run `(x, y0..y1)` with `c`; pixels outside the canvas
/// are left alone.
pub fn vline(buf: &mut [u8], w: usize, h: usize, x: usize, y0: usize, y1: usize, c: Rgb)
    requires
        forall|y: int| y0 <= y < y1 ==> #[trigger] px_fits(old(buf)@.len() as int, w as int, h as int, x as int, y),
    ensures
        final(buf)@ == vline_painted(old(buf)@, w as int, h as int, x as int, y0 as int,
            if y1 > y0 { y1 as int } else { y0 as int }, c),
{
    let ghost b0 = buf@;
    let mut y = y0;
    while y < y1
        invariant
            y0 <= y,
            y <= y1 || y == y0,
            buf@.len() == b0.len(),
            forall|k: int| y0 <= k < y1 ==> #[trigger] px_fits(b0.len() as int, w as int, h as int, x as int, k),
            buf@ == vline_painted(b0, w as int, h as int, x as int, y0 as int, y as int, c),
        decreases y1 - y,
    {
        assert(px_fits(b0.len() as int, w as int, h as int, x as int, y as int));
        set(buf, w, h, x, y, c);
        y = y + 1;
    }
}

/// Rows in the buffer of `len` bytes for a canvas `w` pixels wide.
pub open spec fn rows_in(len: int, w: int) -> int {
    len / (3 * w)
}

/// Fills the rectangle `[x0, x1) x [y0, y1)` with `rgb`, clipped to the
/// `w`-pixel width and to the rows the buffer holds.
pub fn fill_rect(buf: &mut [u8], w: usize, x0: usize, y0: usize, x1: usize, y1: usize, rgb: Rgb)
    requires
        y0 < y1 ==> (w > 0 && 3 * w <= usize::MAX),
    ensures
        y0 < y1 ==> final(buf)@ == rect_painted(old(buf)@, w as int, rows_in(old(buf)@.len() as int, w as int),
            x0 as int, x1 as int, y0 as int, y1 as int, rgb),
        y0 >= y1 ==> final(buf)@ == old(buf)@,
{
    if y0 >= y1 {
        return;
    }
    let rows = buf.len() / (3 * w);
    let ghost len = buf@.len() as int;
    assert(rect_fits(len, w as int, rows as int, x0 as int, x1 as int, y0 as int, y1 as int)) by {
        assert forall|x: int, y: int| x0 <= x < x1 && y0 <= y < y1 implies #[trigger] px_fits(len, w as int, rows as int, x, y) by {
            if x < w && y < rows {
                assert((y * w + x) * 3 + 2 < (y + 1) * w * 3) by (nonlinear_arith)
                    requires
                        0 <= x < w;
                assert((y + 1) * w * 3 <= rows * w * 3) by (nonlinear_arith)
                    requires
                        y < rows,
                        w > 0;
                assert(rows * (3 * w) <= len) by (nonlinear_arith)
                    requires
                        rows == len / (3 * w),
                        w > 0,
                        len >= 0;
                assert(rows * w * 3 == rows * (3 * w)) by (nonlinear_arith);
            }
        }
    }
    rect(buf, w, rows, x0, y0, x1, y1, rgb);
}

/// `(px - bx) * (ay - by) - (ax - bx) * (py - by)`: which side of the edge
/// `a`-`b` the point `p` lies on.
pub open spec fn side(px: int, py: int, ax: int, ay: int, bx: int, by: int) -> int {
    (px - bx) * (ay - by) - (ax - bx) * (py - by)
}

/// The side computation stays inside `isize` at every step.
pub open spec fn side_fits(px: int, py: int, ax: int, ay: int, bx: int, by: int) -> bool {
    let in_range = |v: int| isize::MIN <= v <= isize::MAX;
    &&& in_range(px - bx)
    &&& in_range(ay - by)
    &&& in_range(ax - bx)
    &&& in_range(py - by)
    &&& in_range((px - bx) * (ay - by))
    &&& in_range((ax - bx) * (py - by))
    &&& in_range(side(px, py, ax, ay, bx, by))
}

/// Which side of the edge `a`-`b` the point `p` lies on.
pub fn sign(px: isize, py: isize, ax: isize, ay: isize, bx: isize, by: isize) -> (r: isize)
    requires
        side_fits(px as int, py as int, ax as int, ay as int, bx as int, by as int),
    ensures
        r as int == side(px as int, py as int, ax as int, ay as int, bx as int, by as int),
{
    (px - bx) * (ay - by) - (ax - bx) * (py - by)
}

/// The point lies inside or on the triangle: the three edge sides do not
/// have opposite signs.
pub open spec fn in_triangle(px: int, py: int, ax: int, ay: int, bx: int, by: int, cx: int, cy: int) -> bool {
    let d1 = side(px, py, ax, ay, bx, by);
    let d2 = side(px, py, bx, by, cx, cy);
    let d3 = side(px, py, cx, cy, ax, ay);
    !((d1 < 0 || d2 < 0 || d3 < 0) && (d1 > 0 || d2 > 0 || d3 > 0))
}

/// The three side computations for `p` stay inside `isize`.
pub open spec fn triangle_fits(px: int, py: int, ax: int, ay: int, bx: int, by: int, cx: int, cy: int) -> bool {
    &&& side_fits(px, py, ax, ay, bx, by)
    &&& side_fits(px, py, bx, by, cx, cy)
    &&& side_fits(px, py, cx, cy, ax, ay)
}

/// Whether `p` lies inside or on the triangle `a`, `b`, `c`.
pub fn point_in_tri(px: isize, py: isize, ax: isize, ay: isize, bx: isize, by: isize, cx: isize, cy: isize) -> (r: bool)
    requires
        triangle_fits(px as int, py as int, ax as int, ay as int, bx as int, by as int, cx as int, cy as int),
    ensures
        r == in_triangle(px as int, py as int, ax as int, ay as int, bx as int, by as int, cx as int, cy as int),
{
    let d1 = sign(px, py, ax, ay, bx, by);
    let d2 = sign(px, py, bx, by, cx, cy);
    let d3 = sign(px, py, cx, cy, ax, ay);
    let neg = d1 < 0 || d2 < 0 || d3 < 0;
    let pos = d1 > 0 || d2 > 0 || d3 > 0;
    !(neg && pos)
}

pub open spec fn min3(a: int, b: int, c: int) -> int {
    if a <= b && a <= c { a } else if b <= c { b } else { c }
}

pub open spec fn max3(a: int, b: int, c: int) -> int {
    if a >= b && a >= c { a } else if b >= c { b } else { c }
}

/// The low end of a bounding box, clamped at 0.
pub open spec fn box_lo(a: int, b: int, c: int) -> int {
    if min3(a, b, c) > 0 { min3(a, b, c) } else { 0 }
}

/// A triangle by its corners `(ax, ay, bx, by, cx, cy)`.
pub type Tri = (int, int, int, int, int, int);

/// The pixels `x0..x` of row `y` that lie in the triangle, painted in turn.
pub open spec fn tri_row_painted(b: Seq<u8>, w: int, h: int, t: Tri, x0: int, x: int, y: int, c: Rgb) -> Seq<u8>
    decreases x - x0,
{
    if x <= x0 {
        b
    } else {
        let p = tri_row_painted(b, w, h, t, x0, x - 1, y, c);
        if in_triangle(x - 1, y, t.0, t.1, t.2, t.3, t.4, t.5) {
            put(p, w, h, x - 1, y, c)
        } else {
            p
        }
    }
}

/// Rows `y0..y` of the triangle's pixels in columns `x0..x1`, painted in turn.
pub open spec fn tri_painted(b: Seq<u8>, w: int, h: int, t: Tri, x0: int, x1: int, y0: int, y: int, c: Rgb) -> Seq<u8>
    decreases y - y0,
{
    if y <= y0 {
        b
    } else {
        tri_row_painted(tri_painted(b, w, h, t, x0, x1, y0, y - 1, c), w, h, t, x0, x1, y - 1, c)
    }
}

/// Fills the triangle `a`, `b`, `c`: every pixel of its bounding box
/// (clamped at 0) that lies inside or on it, row by row; pixels outside the
/// canvas are left alone.
pub fn draw_triangle(buf: &mut [u8], w: usize, h: usize, ax: isize, ay: isize, bx: isize, by: isize, cx: isize, cy: isize, color: Rgb)
    requires
        max3(ax as int, bx as int, cx as int) >= 0,
        max3(ay as int, by as int, cy as int) >= 0,
        forall|px: int, py: int|
            box_lo(ax as int, bx as int, cx as int) <= px <= max3(ax as int, bx as int, cx as int)
            && box_lo(ay as int, by as int, cy as int) <= py <= max3(ay as int, by as int, cy as int)
            ==> #[trigger] triangle_fits(px, py, ax as int, ay as int, bx as int, by as int, cx as int, cy as int)
            && (in_triangle(px, py, ax as int, ay as int, bx as int, by as int, cx as int, cy as int)
                ==> px_fits(old(buf)@.len() as int, w as int, h as int, px, py)),
    ensures
        final(buf)@ == tri_painted(old(buf)@, w as int, h as int,
            (ax as int, ay as int, bx as int, by as int, cx as int, cy as int),
            box_lo(ax as int, bx as int, cx as int), max3(ax as int, bx as int, cx as int) + 1,
            box_lo(ay as int, by as int, cy as int), max3(ay as int, by as int, cy as int) + 1, color),
{
    let ghost t = (ax as int, ay as int, bx as int, by as int, cx as int, cy as int);
    let ghost b0 = buf@;
    let lo_x = if ax <= bx && ax <= cx { ax } else if bx <= cx { bx } else { cx };
    let hi_x = if ax >= bx && ax >= cx { ax } else if bx >= cx { bx } else { cx };
    let lo_y = if ay <= by && ay <= cy { ay } else if by <= cy { by } else { cy };
    let hi_y = if ay >= by && ay >= cy { ay } else if by >= cy { by } else { cy };
    let minx: usize = if lo_x > 0 { lo_x as usize } else { 0 };
    let maxx: usize = hi_x as usize;
    let miny: usize = if lo_y > 0 { lo_y as usize } else { 0 };
    let maxy: usize = hi_y as usize;
    let mut py = miny;
    while py <= maxy
        invariant
            miny <= py,
            py <= maxy + 1 || py == miny,
            maxy as int == max3(ay as int, by as int, cy as int),
            maxx as int == max3(ax as int, bx as int, cx as int),
            miny as int == box_lo(ay as int, by as int, cy as int),
            minx as int == box_lo(ax as int, bx as int, cx as int),
            maxx <= isize::MAX,
            maxy <= isize::MAX,
            buf@.len() == b0.len(),
            t == (ax as int, ay as int, bx as int, by as int, cx as int, cy as int),
            forall|px: int, qy: int|
                box_lo(ax as int, bx as int, cx as int) <= px <= max3(ax as int, bx as int, cx as int)
                && box_lo(ay as int, by as int, cy as int) <= qy <= max3(ay as int, by as int, cy as int)
                ==> #[trigger] triangle_fits(px, qy, ax as int, ay as int, bx as int, by as int, cx as int, cy as int)
                && (in_triangle(px, qy, ax as int, ay as int, bx as int, by as int, cx as int, cy as int)
                    ==> px_fits(b0.len() as int, w as int, h as int, px, qy)),
            buf@ == tri_painted(b0, w as int, h as int, t, minx as int, maxx + 1, miny as int, py as int, color),
        decreases maxy + 1 - py,
    {
        let ghost before = buf@;
        let mut px = minx;
        while px <= maxx
            invariant
                minx <= px,
                px <= maxx + 1 || px == minx,
                miny <= py <= maxy,
                maxy as int == max3(ay as int, by as int, cy as int),
                maxx as int == max3(ax as int, bx as int, cx as int),
                miny as int == box_lo(ay as int, by as int, cy as int),
                minx as int == box_lo(ax as int, bx as int, cx as int),
                maxx <= isize::MAX,
                maxy <= isize::MAX,
                buf@.len() == b0.len(),
                t == (ax as int, ay as int, bx as int, by as int, cx as int, cy as int),
                forall|qx: int, qy: int|
                    box_lo(ax as int, bx as int, cx as int) <= qx <= max3(ax as int, bx as int, cx as int)
                    && box_lo(ay as int, by as int, cy as int) <= qy <= max3(ay as int, by as int, cy as int)
                    ==> #[trigger] triangle_fits(qx, qy, ax as int, ay as int, bx as int, by as int, cx as int, cy as int)
                    && (in_triangle(qx, qy, ax as int, ay as int, bx as int, by as int, cx as int, cy as int)
                        ==> px_fits(b0.len() as int, w as int, h as int, qx, qy)),
                buf@ == tri_row_painted(before, w as int, h as int, t, minx as int, px as int, py as int, color),
            decreases maxx + 1 - px,
        {
            assert(triangle_fits(px as int, py as int, ax as int, ay as int, bx as int, by as int, cx as int, cy as int));
            if point_in_tri(px as isize, py as isize, ax, ay, bx, by, cx, cy) {
                set(buf, w, h, px, py, color);
            }
            px = px + 1;
        }
        py = py + 1;
    }
}

/// `n` pixels, all `c`.
pub open spec fn blank(n: nat, c: Rgb) -> Seq<u8> {
    Seq::new(n * 3, |i: int| if i % 3 == 0 { c.0 } else if i % 3 == 1 { c.1 } else { c.2 })
}

/// A buffer of `n` pixels, all `c`.
pub fn canvas(n: usize, c: Rgb) -> (r: Vec<u8>)
    requires
        n * 3 <= usize::MAX,
    ensures
        r@ == blank(n as nat, c),
{
    let mut r: Vec<u8> = Vec::new();
    let mut k: usize = 0;
    while k < n
        invariant
            k <= n,
            n * 3 <= usize::MAX,
            r@ == blank(k as nat, c),
        decreases n - k,
    {
        r.push(c.0);
        r.push(c.1);
        r.push(c.2);
        k = k + 1;
        assert(r@ =~= blank(k as nat, c));
    }
    r
}


/// The color of pixel `(x, y)` in a buffer `w` pixels wide.
pub open spec fn pixel(b: Seq<u8>, w: int, x: int, y: int) -> Rgb {
    let i = px_index(w, x, y);
    (b[i], b[i + 1], b[i + 2])
}

/// The buffer holds the whole `w` by `h` canvas.
pub open spec fn holds_canvas(len: int, w: int, h: int) -> bool {
    w * h * 3 <= len
}

proof fn lemma_index_bounds(w: int, h: int, x: int, y: int)
    requires
        0 <= x < w,
        0 <= y < h,
    ensures
        0 <= px_index(w, x, y),
        px_index(w, x, y) + 2 < w * h * 3,
{
    assert(0 <= y * w) by (nonlinear_arith)
        requires
            0 <= y,
            0 <= w;
    assert(y * w + x < h * w) by (nonlinear_arith)
        requires
            0 <= x < w,
            0 <= y < h;
    assert(w * h == h * w) by (nonlinear_arith);
}

proof fn lemma_index_apart(w: int, x: int, y: int, x2: int, y2: int)
    requires
        0 <= x < w,
        0 <= x2 < w,
        0 <= y,
        0 <= y2,
        x != x2 || y != y2,
    ensures
        px_index(w, x, y) + 3 <= px_index(w, x2, y2) || px_index(w, x2, y2) + 3 <= px_index(w, x, y),
{
    if y == y2 {
    } else if y < y2 {
        assert(y * w + x < y2 * w + x2) by (nonlinear_arith)
            requires
                y < y2,
                0 <= x < w,
                0 <= x2;
    } else {
        assert(y2 * w + x2 < y * w + x) by (nonlinear_arith)
            requires
                y2 < y,
                0 <= x2 < w,
                0 <= x;
    }
}

proof fn lemma_put_pixel(b: Seq<u8>, w: int, h: int, x: int, y: int, c: Rgb, qx: int, qy: int)
    requires
        holds_canvas(b.len() as int, w, h),
        0 <= x,
        0 <= y,
        0 <= qx < w,
        0 <= qy < h,
    ensures
        put(b, w, h, x, y, c).len() == b.len(),
        pixel(put(b, w, h, x, y, c), w, qx, qy) == if qx == x && qy == y { c } else { pixel(b, w, qx, qy) },
{
    lemma_index_bounds(w, h, qx, qy);
    if x < w && y < h {
        lemma_index_bounds(w, h, x, y);
        if qx != x || qy != y {
            lemma_index_apart(w, qx, qy, x, y);
        }
    }
}

proof fn lemma_row_pixels(b: Seq<u8>, w: int, h: int, x0: int, x: int, yr: int, c: Rgb, qx: int, qy: int)
    requires
        holds_canvas(b.len() as int, w, h),
        0 <= x0,
        0 <= yr,
        0 <= qx < w,
        0 <= qy < h,
    ensures
        row_painted(b, w, h, x0, x, yr, c).len() == b.len(),
        pixel(row_painted(b, w, h, x0, x, yr, c), w, qx, qy) == if qy == yr && x0 <= qx < x { c } else { pixel(b, w, qx, qy) },
    decreases x - x0,
{
    if x > x0 {
        lemma_row_pixels(b, w, h, x0, x - 1, yr, c, qx, qy);
        let p = row_painted(b, w, h, x0, x - 1, yr, c);
        lemma_put_pixel(p, w, h, x - 1, yr, c, qx, qy);
    }
}

proof fn lemma_rect_pixels(b: Seq<u8>, w: int, h: int, x0: int, x1: int, y0: int, y: int, c: Rgb, qx: int, qy: int)
    requires
        holds_canvas(b.len() as int, w, h),
        0 <= x0,
        0 <= y0,
        0 <= qx < w,
        0 <= qy < h,
    ensures
        rect_painted(b, w, h, x0, x1, y0, y, c).len() == b.len(),
        pixel(rect_painted(b, w, h, x0, x1, y0, y, c), w, qx, qy) == if y0 <= qy < y && x0 <= qx < x1 { c } else { pixel(b, w, qx, qy) },
    decreases y - y0,
{
    if y > y0 {
        lemma_rect_pixels(b, w, h, x0, x1, y0, y - 1, c, qx, qy);
        let p = rect_painted(b, w, h, x0, x1, y0, y - 1, c);
        lemma_row_pixels(p, w, h, x0, x1, y - 1, c, qx, qy);
    }
}

/// Painting a rectangle gives every canvas pixel inside it the color and
/// leaves every other canvas pixel as it was.
pub proof fn lemma_rect_paints_exactly(b: Seq<u8>, w: int, h: int, x0: int, x1: int, y0: int, y1: int, c: Rgb)
    requires
        holds_canvas(b.len() as int, w, h),
        0 <= x0,
        0 <= y0,
    ensures
        rect_painted(b, w, h, x0, x1, y0, y1, c).len() == b.len(),
        forall|qx: int, qy: int| 0 <= qx < w && 0 <= qy < h ==> #[trigger] pixel(rect_painted(b, w, h, x0, x1, y0, y1, c), w, qx, qy)
            == if x0 <= qx < x1 && y0 <= qy < y1 { c } else { pixel(b, w, qx, qy) },
{
    if w > 0 && h > 0 {
        lemma_rect_pixels(b, w, h, x0, x1, y0, y1, c, 0, 0);
    } else {
        lemma_rect_len_empty(b, w, h, x0, x1, y0, y1, c);
    }
    assert forall|qx: int, qy: int| 0 <= qx < w && 0 <= qy < h implies #[trigger] pixel(rect_painted(b, w, h, x0, x1, y0, y1, c), w, qx, qy)
        == if x0 <= qx < x1 && y0 <= qy < y1 { c } else { pixel(b, w, qx, qy) } by {
        lemma_rect_pixels(b, w, h, x0, x1, y0, y1, c, qx, qy);
    }
}

proof fn lemma_rect_len_empty(b: Seq<u8>, w: int, h: int, x0: int, x1: int, y0: int, y: int, c: Rgb)
    requires
        w <= 0 || h <= 0,
    ensures
        rect_painted(b, w, h, x0, x1, y0, y, c) == b,
    decreases y - y0,
{
    if y > y0 {
        lemma_rect_len_empty(b, w, h, x0, x1, y0, y - 1, c);
        lemma_row_empty(b, w, h, x0, x1, y - 1, c);
    }
}

proof fn lemma_row_empty(b: Seq<u8>, w: int, h: int, x0: int, x: int, y: int, c: Rgb)
    requires
        w <= 0 || h <= 0,
    ensures
        row_painted(b, w, h, x0, x, y, c) == b,
    decreases x - x0,
{
    if x > x0 {
        lemma_row_empty(b, w, h, x0, x - 1, y, c);
    }
}

} // verus!
