//! Drawing onto an RGBA byte buffer: single pixels and straight lines.
//!
//! A buffer holds `width * height` pixels, row by row, four bytes each.

use vstd::prelude::*;
use vstd::arithmetic::div_mod::{lemma_fundamental_div_mod, lemma_fundamental_div_mod_converse};

verus! {

/// Index of the first byte of pixel `(x, y)` in a buffer `width` pixels wide.
pub open spec fn pixel_offset(x: int, y: int, width: int) -> int {
    (y * width + x) * 4
}

/// Whether pixel `(x, y)` lies on a canvas of the given size.
pub open spec fn on_canvas(x: int, y: int, width: int, height: int) -> bool {
    0 <= x < width && 0 <= y < height
}

/// The buffer after pixel `(x, y)` has been given `color`. A pixel off the
/// canvas leaves the buffer as it is.
pub open spec fn with_pixel(
    buf: Seq<u8>,
    x: int,
    y: int,
    width: int,
    height: int,
    color: Seq<u8>,
) -> Seq<u8> {
    if on_canvas(x, y, width, height) {
        let at = pixel_offset(x, y, width);
        Seq::new(buf.len(), |i: int| if at <= i < at + 4 { color[i - at] } else { buf[i] })
    } else {
        buf
    }
}

/// A pixel on a `width * height` canvas ends inside `width * height * 4` bytes.
pub proof fn lemma_pixel_fits(x: int, y: int, width: int, height: int)
    requires
        on_canvas(x, y, width, height),
    ensures
        0 <= pixel_offset(x, y, width),
        pixel_offset(x, y, width) + 4 <= width * height * 4,
{
    assert(y * width >= 0) by (nonlinear_arith)
        requires
            y >= 0,
            width >= 0,
    ;
    assert((y + 1) * width <= height * width) by (nonlinear_arith)
        requires
            y + 1 <= height,
            width >= 0,
    ;
    assert((y + 1) * width == y * width + width) by (nonlinear_arith);
    assert(height * width == width * height) by (nonlinear_arith);
}

/// Colours pixel `(x, y)`, or does nothing when it is off the canvas.
pub fn set_pixel(x: u32, y: u32, buffer: &mut [u8], width: u32, height: u32, color: [u8; 4])
    requires
        on_canvas(x as int, y as int, width as int, height as int) ==> pixel_offset(
            x as int,
            y as int,
            width as int,
        ) + 4 <= old(buffer)@.len(),
    ensures
        final(buffer)@ == with_pixel(
            old(buffer)@,
            x as int,
            y as int,
            width as int,
            height as int,
            color@,
        ),
{
    if x >= width || y >= height {
        return ;
    }
    let ghost at = pixel_offset(x as int, y as int, width as int);
    let len: usize = buffer.len();
    assert(0 <= y * width) by (nonlinear_arith);
    assert(at + 4 <= len);
    let row: usize = (y as usize) * (width as usize);
    let index: usize = (row + x as usize) * 4;
    buffer[index] = color[0];
    buffer[index + 1] = color[1];
    buffer[index + 2] = color[2];
    buffer[index + 3] = color[3];
    assert(buffer@ =~= with_pixel(
        old(buffer)@,
        x as int,
        y as int,
        width as int,
        height as int,
        color@,
    ));
}

/// Distance between two coordinates.
pub open spec fn span(a: int, b: int) -> int {
    if a <= b {
        b - a
    } else {
        a - b
    }
}

/// Direction of one step from `a` towards `b`.
pub open spec fn toward(a: int, b: int) -> int {
    if a < b {
        1
    } else {
        -1
    }
}

/// Number of pixels a line from `(x0, y0)` to `(x1, y1)` colours: one for
/// each step along its longer side. The end point itself is left out.
pub open spec fn line_steps(x0: int, y0: int, x1: int, y1: int) -> int {
    if span(x0, x1) >= span(y0, y1) {
        span(x0, x1)
    } else {
        span(y0, y1)
    }
}

/// `k * minor / major`, rounded to the nearest integer, halves rounded up.
pub open spec fn rounded_share(k: int, minor: int, major: int) -> int {
    (2 * (minor * k) + major) / (2 * major)
}

/// The `k`-th pixel of the line from `(x0, y0)` to `(x1, y1)`: `k` steps
/// along the longer side, and the nearest whole share of the shorter one.
pub open spec fn line_point(x0: int, y0: int, x1: int, y1: int, k: int) -> (int, int) {
    let dx = span(x0, x1);
    let dy = span(y0, y1);
    if dx >= dy {
        (x0 + toward(x0, x1) * k, y0 + toward(y0, y1) * rounded_share(k, dy, dx))
    } else {
        (x0 + toward(x0, x1) * rounded_share(k, dx, dy), y0 + toward(y0, y1) * k)
    }
}

/// A signed 32-bit coordinate read as an unsigned one: a negative value
/// becomes a very large one, which lies off any canvas narrower than 2^31.
pub open spec fn as_unsigned(v: int) -> int {
    if v < 0 {
        v + 0x1_0000_0000
    } else {
        v
    }
}

/// The buffer after the first `n` pixels of a line have been coloured.
pub open spec fn with_line(
    buf: Seq<u8>,
    x0: int,
    y0: int,
    x1: int,
    y1: int,
    n: int,
    width: int,
    height: int,
    color: Seq<u8>,
) -> Seq<u8>
    decreases n,
{
    if n <= 0 {
        buf
    } else {
        let p = line_point(x0, y0, x1, y1, n - 1);
        with_pixel(
            with_line(buf, x0, y0, x1, y1, n - 1, width, height, color),
            as_unsigned(p.0),
            as_unsigned(p.1),
            width,
            height,
            color,
        )
    }
}

/// Colouring pixels never changes the length of the buffer.
pub proof fn lemma_with_line_len(
    buf: Seq<u8>,
    x0: int,
    y0: int,
    x1: int,
    y1: int,
    n: int,
    width: int,
    height: int,
    color: Seq<u8>,
)
    ensures
        with_line(buf, x0, y0, x1, y1, n, width, height, color).len() == buf.len(),
    decreases n,
{
    if n > 0 {
        lemma_with_line_len(buf, x0, y0, x1, y1, n - 1, width, height, color);
    }
}

/// A quotient caught between two multiples of the divisor.
proof fn lemma_share_is(k: int, minor: int, major: int, q: int)
    requires
        major > 0,
        2 * (major * q) <= 2 * (minor * k) + major < 2 * (major * q) + 2 * major,
    ensures
        rounded_share(k, minor, major) == q,
{
    let n = 2 * (minor * k) + major;
    let d = 2 * major;
    let r = n - 2 * (major * q);
    assert(q * d == 2 * (major * q)) by (nonlinear_arith)
        requires
            d == 2 * major,
    ;
    lemma_fundamental_div_mod_converse(n, d, q, r);
}

/// A line that has any length begins at its start point, and the point
/// after its last pixel is its end point: the pixels lead from the start
/// right up to the end.
pub proof fn lemma_line_leads_to_its_end(x0: int, y0: int, x1: int, y1: int)
    requires
        x0 != x1 || y0 != y1,
    ensures
        line_point(x0, y0, x1, y1, 0) == (x0, y0),
        line_point(x0, y0, x1, y1, line_steps(x0, y0, x1, y1)) == (x1, y1),
{
    let dx = span(x0, x1);
    let dy = span(y0, y1);
    lemma_toward_times(x0, x1, dx);
    lemma_toward_times(y0, y1, dy);
    lemma_toward_times(x0, x1, 0);
    lemma_toward_times(y0, y1, 0);
    if dx >= dy {
        assert(2 * (dx * dy) <= 2 * (dy * dx) + dx < 2 * (dx * dy) + 2 * dx) by (nonlinear_arith)
            requires
                dx > 0,
        ;
        lemma_share_is(dx, dy, dx, dy);
        assert(2 * (dx * 0) <= 2 * (dy * 0) + dx < 2 * (dx * 0) + 2 * dx) by (nonlinear_arith)
            requires
                dx > 0,
        ;
        lemma_share_is(0, dy, dx, 0);
    } else {
        assert(2 * (dy * dx) <= 2 * (dx * dy) + dy < 2 * (dy * dx) + 2 * dy) by (nonlinear_arith)
            requires
                dy > 0,
        ;
        lemma_share_is(dy, dx, dy, dx);
        assert(2 * (dy * 0) <= 2 * (dx * 0) + dy < 2 * (dy * 0) + 2 * dy) by (nonlinear_arith)
            requires
                dy > 0,
        ;
        lemma_share_is(0, dx, dy, 0);
    }
}

/// How far the pixel `(a, b)` steps from the start lies off the ideal
/// line to a point `(dx, dy)` steps from the start, in units of the
/// line's own length: twice the area between the two.
pub open spec fn twice_off_line(dx: int, dy: int, a: int, b: int) -> int {
    2 * (dx * b - dy * a)
}

/// Every pixel of a line lies within half a step of the ideal line: it is
/// `k` steps along the longer side, and across the line it is off by no
/// more than half of the longer side's length, measured on the same
/// scale.
pub proof fn lemma_line_point_is_nearest(x0: int, y0: int, x1: int, y1: int, k: int)
    requires
        x0 != x1 || y0 != y1,
        0 <= k <= line_steps(x0, y0, x1, y1),
    ensures
        ({
            let p = line_point(x0, y0, x1, y1, k);
            let dx = span(x0, x1);
            let dy = span(y0, y1);
            let a = span(x0, p.0);
            let b = span(y0, p.1);
            &&& (dx >= dy ==> a == k)
            &&& (dx < dy ==> b == k)
            &&& 0 <= a <= dx
            &&& 0 <= b <= dy
            &&& -line_steps(x0, y0, x1, y1) <= twice_off_line(dx, dy, a, b) <= line_steps(
                x0,
                y0,
                x1,
                y1,
            )
        }),
{
    let dx = span(x0, x1);
    let dy = span(y0, y1);
    if dx >= dy {
        let q = rounded_share(k, dy, dx);
        lemma_fundamental_div_mod(2 * (dy * k) + dx, 2 * dx);
        assert(0 <= dy * k <= dy * dx) by (nonlinear_arith)
            requires
                0 <= k <= dx,
                0 <= dy,
        ;
        assert(0 <= q <= dy && (2 * dx) * q == 2 * (dx * q)) by (nonlinear_arith)
            requires
                dx > 0,
                0 <= dy <= dx,
                0 <= dy * k <= dy * dx,
                2 * (dy * k) + dx == (2 * dx) * q + (2 * (dy * k) + dx) % (2 * dx),
                0 <= (2 * (dy * k) + dx) % (2 * dx) < 2 * dx,
        ;
        lemma_toward_times(x0, x1, k);
        lemma_toward_times(y0, y1, q);
    } else {
        let q = rounded_share(k, dx, dy);
        lemma_fundamental_div_mod(2 * (dx * k) + dy, 2 * dy);
        assert(0 <= dx * k <= dx * dy) by (nonlinear_arith)
            requires
                0 <= k <= dy,
                0 <= dx,
        ;
        assert(0 <= q <= dx && (2 * dy) * q == 2 * (dy * q)) by (nonlinear_arith)
            requires
                dy > 0,
                0 <= dx < dy,
                0 <= dx * k <= dx * dy,
                2 * (dx * k) + dy == (2 * dy) * q + (2 * (dx * k) + dy) % (2 * dy),
                0 <= (2 * (dx * k) + dy) % (2 * dy) < 2 * dy,
        ;
        lemma_toward_times(x0, x1, q);
        lemma_toward_times(y0, y1, k);
    }
}

/// One signed step, taken `k` times.
proof fn lemma_toward_times(a: int, b: int, k: int)
    ensures
        toward(a, b) * k == (if a < b {
            k
        } else {
            -k
        }),
{
    assert(1 * k == k && (-1) * k == -k) by (nonlinear_arith);
}

/// Draws the line from `(x0, y0)` towards `(x1, y1)`, one pixel for each
/// step along its longer side; the end point is not coloured. Pixels off
/// the canvas are skipped.
pub fn draw_line(
    x0: i32,
    y0: i32,
    x1: i32,
    y1: i32,
    buffer: &mut [u8],
    width: u32,
    height: u32,
    color: [u8; 4],
)
    requires
        old(buffer)@.len() >= width * height * 4,
    ensures
        final(buffer)@ == with_line(
            old(buffer)@,
            x0 as int,
            y0 as int,
            x1 as int,
            y1 as int,
            line_steps(x0 as int, y0 as int, x1 as int, y1 as int),
            width as int,
            height as int,
            color@,
        ),
{
    let dx: i64 = if x0 <= x1 {
        x1 as i64 - x0 as i64
    } else {
        x0 as i64 - x1 as i64
    };
    let dy: i64 = if y0 <= y1 {
        y1 as i64 - y0 as i64
    } else {
        y0 as i64 - y1 as i64
    };
    let right: bool = x0 < x1;
    let down: bool = y0 < y1;
    let mut x: i64 = x0 as i64;
    let mut y: i64 = y0 as i64;
    let mut err: i64 = dx - dy;
    let ghost n = line_steps(x0 as int, y0 as int, x1 as int, y1 as int);
    let ghost mut k: int = 0;
    let ghost mut a: int = 0;
    let ghost mut b: int = 0;
    let ghost mut da: int = 0;
    let ghost mut db: int = 0;
    assert(dy * 0 == 0 && dx * 0 == 0) by (nonlinear_arith);
    while x != x1 as i64 || y != y1 as i64
        invariant
            dx == span(x0 as int, x1 as int),
            dy == span(y0 as int, y1 as int),
            right == (x0 < x1),
            down == (y0 < y1),
            n == line_steps(x0 as int, y0 as int, x1 as int, y1 as int),
            0 <= k <= n,
            0 <= a <= dx,
            0 <= b <= dy,
            x == (if right { x0 + a } else { x0 - a }),
            y == (if down { y0 + b } else { y0 - b }),
            da == dy * a,
            db == dx * b,
            err == db + dx - da - dy,
            dx >= dy ==> a == k && 2 * db <= 2 * da + dx,
            dx >= dy && dx > 0 ==> 2 * da + dx < 2 * db + 2 * dx,
            dx < dy ==> b == k && 2 * da <= 2 * db + dy < 2 * da + 2 * dy,
            buffer@.len() == old(buffer)@.len(),
            old(buffer)@.len() >= width * height * 4,
            buffer@ == with_line(
                old(buffer)@,
                x0 as int,
                y0 as int,
                x1 as int,
                y1 as int,
                k,
                width as int,
                height as int,
                color@,
            ),
        decreases n - k,
    {
        proof {
            // Away from the end point, the longer side is not yet walked.
            if k == n {
                if dx >= dy {
                    if dx > 0 {
                        assert(b == dy) by (nonlinear_arith)
                            requires
                                dx > 0,
                                0 <= b <= dy,
                                da == dy * dx,
                                db == dx * b,
                                2 * da + dx < 2 * db + 2 * dx,
                        ;
                    }
                } else {
                    assert(a == dx) by (nonlinear_arith)
                        requires
                            dy > 0,
                            0 <= a <= dx,
                            da == dy * a,
                            db == dx * dy,
                            2 * db + dy < 2 * da + 2 * dy,
                    ;
                }
                assert(false);
            }
            // The current pixel is the k-th point of the line.
            lemma_toward_times(x0 as int, x1 as int, a);
            lemma_toward_times(y0 as int, y1 as int, b);
            if dx >= dy {
                lemma_share_is(k, dy as int, dx as int, b);
                assert(rounded_share(k, dy as int, dx as int) == b);
            } else {
                lemma_share_is(k, dx as int, dy as int, a);
                assert(rounded_share(k, dx as int, dy as int) == a);
            }
            assert(line_point(x0 as int, y0 as int, x1 as int, y1 as int, k) == (x as int, y as int));
        }
        let ux: u32 = if x >= 0 {
            x as u32
        } else {
            (x + 0x1_0000_0000) as u32
        };
        let uy: u32 = if y >= 0 {
            y as u32
        } else {
            (y + 0x1_0000_0000) as u32
        };
        proof {
            if on_canvas(ux as int, uy as int, width as int, height as int) {
                lemma_pixel_fits(ux as int, uy as int, width as int, height as int);
            }
        }
        set_pixel(ux, uy, buffer, width, height, color);
        let e2: i64 = 2 * err;
        if e2 >= -dy {
            proof {
                assert(a < dx) by (nonlinear_arith)
                    requires
                        dx >= dy ==> a == k,
                        k < n,
                        dx >= dy ==> n == dx,
                        dx < dy ==> 2 * da + dy <= 2 * db + 2 * dx,
                        dx < dy ==> b < dy,
                        0 <= a <= dx,
                        0 <= b,
                        da == dy * a,
                        db == dx * b,
                ;
                assert(dy * (a + 1) == dy * a + dy) by (nonlinear_arith);
                a = a + 1;
                da = da + dy;
            }
            err -= dy;
            x = if right {
                x + 1
            } else {
                x - 1
            };
        }
        if e2 <= dx {
            proof {
                assert(b < dy) by (nonlinear_arith)
                    requires
                        dx < dy ==> b == k,
                        k < n,
                        dx < dy ==> n == dy,
                        dx >= dy ==> 2 * db + dx <= 2 * da,
                        dx >= dy ==> dx > 0,
                        0 <= a <= dx,
                        0 <= b <= dy,
                        da == dy * a,
                        db == dx * b,
                ;
                assert(dx * (b + 1) == dx * b + dx) by (nonlinear_arith);
                b = b + 1;
                db = db + dx;
            }
            err += dx;
            y = if down {
                y + 1
            } else {
                y - 1
            };
        }
        proof {
            k = k + 1;
        }
    }
}

/// One drawable element of a path, in whole pixels.
pub enum Mark {
    /// A way point.
    Point(i32, i32),
    /// A curve: its first and last control point, and the pixels sampled
    /// along it in order.
    Curve { start: (i32, i32), end: (i32, i32), samples: Vec<(i32, i32)> },
}

impl Mark {
    /// Where a line that arrives at this mark ends.
    pub open spec fn entry(self) -> (i32, i32) {
        match self {
            Mark::Point(x, y) => (x, y),
            Mark::Curve { start, .. } => start,
        }
    }

    /// Where a line that leaves this mark begins.
    pub open spec fn exit(self) -> (i32, i32) {
        match self {
            Mark::Point(x, y) => (x, y),
            Mark::Curve { end, .. } => end,
        }
    }

    /// The sampled pixels of a curve; a way point has none.
    pub open spec fn samples(self) -> Seq<(i32, i32)> {
        match self {
            Mark::Point(_, _) => Seq::empty(),
            Mark::Curve { samples, .. } => samples@,
        }
    }
}

/// The buffer after the whole line between two pixels has been drawn.
pub open spec fn with_segment(
    buf: Seq<u8>,
    from: (i32, i32),
    to: (i32, i32),
    width: int,
    height: int,
    color: Seq<u8>,
) -> Seq<u8> {
    with_line(
        buf,
        from.0 as int,
        from.1 as int,
        to.0 as int,
        to.1 as int,
        line_steps(from.0 as int, from.1 as int, to.0 as int, to.1 as int),
        width,
        height,
        color,
    )
}

/// The buffer after the lines that join the first `n` of `points`, each to
/// the next, have been drawn.
pub open spec fn with_polyline(
    buf: Seq<u8>,
    points: Seq<(i32, i32)>,
    n: int,
    width: int,
    height: int,
    color: Seq<u8>,
) -> Seq<u8>
    decreases n,
{
    if n <= 1 {
        buf
    } else {
        with_segment(
            with_polyline(buf, points, n - 1, width, height, color),
            points[n - 2],
            points[n - 1],
            width,
            height,
            color,
        )
    }
}

/// The buffer after the first `n` of `marks` have been drawn: every mark
/// but the first has its own curve drawn, if it is one, and is then joined
/// to the mark before it.
pub open spec fn with_marks(
    buf: Seq<u8>,
    marks: Seq<Mark>,
    n: int,
    width: int,
    height: int,
    color: Seq<u8>,
) -> Seq<u8>
    decreases n,
{
    if n <= 1 {
        buf
    } else {
        let before = with_marks(buf, marks, n - 1, width, height, color);
        let curve = marks[n - 1].samples();
        with_segment(
            with_polyline(before, curve, curve.len() as int, width, height, color),
            marks[n - 2].exit(),
            marks[n - 1].entry(),
            width,
            height,
            color,
        )
    }
}

/// Joins consecutive `points` by lines.
pub fn draw_polyline(
    points: &[(i32, i32)],
    buffer: &mut [u8],
    width: u32,
    height: u32,
    color: [u8; 4],
)
    requires
        old(buffer)@.len() >= width * height * 4,
    ensures
        final(buffer)@ == with_polyline(
            old(buffer)@,
            points@,
            points@.len() as int,
            width as int,
            height as int,
            color@,
        ),
        final(buffer)@.len() == old(buffer)@.len(),
{
    let mut j: usize = 1;
    while j < points.len()
        invariant
            1 <= j,
            buffer@.len() == old(buffer)@.len(),
            old(buffer)@.len() >= width * height * 4,
            buffer@ == with_polyline(
                old(buffer)@,
                points@,
                if j <= points@.len() {
                    j as int
                } else {
                    points@.len() as int
                },
                width as int,
                height as int,
                color@,
            ),
        decreases points@.len() - j,
    {
        let (x0, y0) = points[j - 1];
        let (x1, y1) = points[j];
        proof {
            lemma_with_line_len(
                buffer@,
                x0 as int,
                y0 as int,
                x1 as int,
                y1 as int,
                line_steps(x0 as int, y0 as int, x1 as int, y1 as int),
                width as int,
                height as int,
                color@,
            );
        }
        draw_line(x0, y0, x1, y1, buffer, width, height, color);
        j += 1;
    }
}

/// Draws a path onto a fresh canvas of `width * height` transparent black
/// pixels and returns its bytes.
pub fn coord_to_img(width: u32, height: u32, color: [u8; 4], marks: &[Mark]) -> (image: Vec<u8>)
    requires
        width * height * 4 <= usize::MAX,
    ensures
        image@ == with_marks(
            Seq::new((width * height * 4) as nat, |i: int| 0u8),
            marks@,
            marks@.len() as int,
            width as int,
            height as int,
            color@,
        ),
        image@.len() == width * height * 4,
{
    assert(0 <= width * height && width * height <= width * height * 4) by (nonlinear_arith);
    let pixels: usize = (width as usize) * (height as usize);
    let mut image: Vec<u8> = vec![0u8; pixels * 4];
    let ghost blank = Seq::new((width * height * 4) as nat, |i: int| 0u8);
    assert(image@ =~= blank);
    let mut i: usize = 1;
    while i < marks.len()
        invariant
            1 <= i,
            blank.len() == width * height * 4,
            image@.len() == blank.len(),
            image@ == with_marks(
                blank,
                marks@,
                if i <= marks@.len() {
                    i as int
                } else {
                    marks@.len() as int
                },
                width as int,
                height as int,
                color@,
            ),
        decreases marks@.len() - i,
    {
        let (x0, y0) = match &marks[i - 1] {
            Mark::Point(x, y) => (*x, *y),
            Mark::Curve { end, .. } => *end,
        };
        let (x1, y1) = match &marks[i] {
            Mark::Point(x, y) => (*x, *y),
            Mark::Curve { start, samples, .. } => {
                draw_polyline(samples.as_slice(), image.as_mut_slice(), width, height, color);
                *start
            },
        };
        proof {
            lemma_with_line_len(
                image@,
                x0 as int,
                y0 as int,
                x1 as int,
                y1 as int,
                line_steps(x0 as int, y0 as int, x1 as int, y1 as int),
                width as int,
                height as int,
                color@,
            );
        }
        draw_line(x0, y0, x1, y1, image.as_mut_slice(), width, height, color);
        i += 1;
    }
    image
}

} // verus!
