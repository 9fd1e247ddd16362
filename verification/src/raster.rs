//! Drawing on a picture of premultiplied RGBA pixels.
use vstd::prelude::*;

use crate::ink::{
    before, channel, column, dot, inked, lemma_before_all, lemma_before_next_row, lemma_before_none,
    lemma_before_step, lemma_pixel_at, lemma_pixel_range, over, row, whole, Ink,
};
use crate::single::{single, to_single};

verus! {

/// Whether the byte offset of a pixel inside the picture's columns and below its top fits in an
/// `i32`.
pub open spec fn offset_fits(px: int, py: int, pw: int) -> bool {
    0 <= px < pw && 0 <= py ==> (py * pw + px) * 4 <= i32::MAX
}

/// Whether a pixel can be addressed at all: its coordinates and its offset fit in an `i32`.
pub open spec fn addressable(px: int, py: int, pw: int) -> bool {
    &&& i32::MIN <= px <= i32::MAX
    &&& i32::MIN <= py <= i32::MAX
    &&& offset_fits(px, py, pw)
}

/// One channel of a source with opacity `a` over a premultiplied destination channel.
fn over_channel(source: u8, a: u8, dest: u8) -> (result: u8)
    ensures
        result == over(source, a, dest),
{
    proof {
        lemma_over_fits(source, a, dest);
    }
    let covered: u16 = source as u16 * a as u16 / 255;
    let kept: u16 = dest as u16 * (255 - a as u16) / 255;
    (covered + kept) as u8
}

/// A channel of a blend never overflows.
pub proof fn lemma_over_fits(source: u8, a: u8, dest: u8)
    ensures
        0 <= source * a <= 255 * a <= 65025,
        0 <= dest * (255 - a) <= 255 * (255 - a) <= 65025,
        source as int * a as int / 255 + dest as int * (255 - a) / 255 <= 255,
        over(source, a, dest) == source as int * a as int / 255 + dest as int * (255 - a) / 255,
{
    assert(0 <= source * a <= 255 * a) by (nonlinear_arith)
        requires
            0 <= source <= 255,
            0 <= a,
    ;
    assert(0 <= dest * (255 - a) <= 255 * (255 - a)) by (nonlinear_arith)
        requires
            0 <= dest <= 255,
            0 <= 255 - a,
    ;
}

/// Lays ink on one pixel; a pixel outside the picture is left out.
fn blend_pixel(data: &mut [u8], pw: i32, px: i32, py: i32, ink: Ink)
    requires
        offset_fits(px as int, py as int, pw as int),
    ensures
        final(data)@ == inked(old(data)@, pw as int, dot(px as int, py as int, ink)),
{
    let ghost picture = data@;
    let ghost stencil = dot(px as int, py as int, ink);
    let ghost w = pw as int;
    if px < 0 || py < 0 || px >= pw {
        proof {
            assert forall|j: int| 0 <= j < picture.len() implies inked(picture, w, stencil)[j]
                == picture[j] by {
                if w > 0 {
                    lemma_pixel_range(j, w);
                }
            }
            assert(inked(picture, w, stencil) =~= picture);
        }
        return ;
    }
    proof {
        lemma_pixel_at(px as int, py as int, w, 0);
        lemma_pixel_at(px as int, py as int, w, 1);
        lemma_pixel_at(px as int, py as int, w, 2);
        lemma_pixel_at(px as int, py as int, w, 3);
        assert(0 <= py * pw) by (nonlinear_arith)
            requires
                py >= 0,
                pw > 0,
        ;
    }
    let i: usize = ((py * pw + px) * 4) as usize;
    assert forall|j: int| 0 <= j < picture.len() && column(j, w) == px && row(j, w) == py implies i
        <= j < i + 4 by {
        lemma_pixel_range(j, w);
    }
    if i + 3 >= data.len() {
        assert(inked(picture, w, stencil) =~= picture) by {
            assert forall|j: int| 0 <= j < picture.len() implies inked(picture, w, stencil)[j]
                == picture[j] by {
                if column(j, w) == px && row(j, w) == py {
                    assert(!whole(picture.len() as int, j));
                }
            }
        }
        return ;
    }
    data[i] = over_channel(ink.r, ink.a, data[i]);
    data[i + 1] = over_channel(ink.g, ink.a, data[i + 1]);
    data[i + 2] = over_channel(ink.b, ink.a, data[i + 2]);
    data[i + 3] = over_channel(255, ink.a, data[i + 3]);
    assert(data@ =~= inked(picture, w, stencil));
}

/// Whether a point at a distance from the centre lies in a disc of radius `r`.
pub open spec fn in_disc(dx: int, dy: int, r: int) -> bool {
    &&& -r <= dx <= r
    &&& -r <= dy <= r
    &&& single(dx * dx + dy * dy) <= single(r * r)
}

/// The stencil of a filled circle. Its outermost points get no ink.
pub open spec fn circle(cx: int, cy: int, r: int, color: Seq<u8>) -> spec_fn(
    int,
    int,
) -> Option<Ink> {
    |x: int, y: int|
        {
            let dx = x - cx;
            let dy = y - cy;
            if in_disc(dx, dy, r) {
                Some(
                    Ink {
                        r: color[0],
                        g: color[1],
                        b: color[2],
                        a: if single(dx * dx + dy * dy) < single(r * r) {
                            color[3]
                        } else {
                            0
                        },
                    },
                )
            } else {
                None
            }
        }
}

/// Draws a filled circle around `(cx, cy)` on a picture `pw` pixels wide.
pub fn draw_circle(data: &mut [u8], pw: i32, cx: i32, cy: i32, r: i32, color: [u8; 4])
    requires
        -46340 <= r <= 32767,
        forall|dx: int, dy: int| #[trigger]
            in_disc(dx, dy, r as int) ==> addressable(cx + dx, cy + dy, pw as int),
    ensures
        final(data)@ == inked(
            old(data)@,
            pw as int,
            circle(cx as int, cy as int, r as int, color@),
        ),
{
    let ghost picture = data@;
    let ghost w = pw as int;
    let ghost stencil = circle(cx as int, cy as int, r as int, color@);
    if r < 0 {
        proof {
            lemma_before_none(picture, w, stencil, 0, 0);
            lemma_before_all(picture, w, stencil, 0, 0);
        }
        return ;
    }
    assert(0 <= r * r <= 1073676289) by (nonlinear_arith)
        requires
            0 <= r <= 32767,
    ;
    let r2: u64 = to_single((r * r) as u32);
    proof {
        lemma_before_none(picture, w, stencil, cx - r, cy - r);
    }
    let mut dy: i32 = -r;
    while dy <= r
        invariant
            0 <= r <= 32767,
            -r <= dy <= r + 1,
            r2 == single(r * r),
            forall|dx: int, dy: int| #[trigger]
                in_disc(dx, dy, r as int) ==> addressable(cx + dx, cy + dy, pw as int),
            w == pw,
            stencil == circle(cx as int, cy as int, r as int, color@),
            data@ == inked(picture, w, before(stencil, cx - r, cy + dy)),
        decreases r + 1 - dy,
    {
        let mut dx: i32 = -r;
        while dx <= r
            invariant
                0 <= r <= 32767,
                -r <= dx <= r + 1,
                -r <= dy <= r,
                r2 == single(r * r),
                forall|dx: int, dy: int| #[trigger]
                    in_disc(dx, dy, r as int) ==> addressable(cx + dx, cy + dy, pw as int),
                w == pw,
                stencil == circle(cx as int, cy as int, r as int, color@),
                data@ == inked(picture, w, before(stencil, cx + dx, cy + dy)),
            decreases r + 1 - dx,
        {
            proof {
                lemma_before_step(picture, w, stencil, cx + dx, cy + dy);
                assert(0 <= dx * dx <= 1073676289) by (nonlinear_arith)
                    requires
                        -32767 <= dx <= 32767,
                ;
                assert(0 <= dy * dy <= 1073676289) by (nonlinear_arith)
                    requires
                        -32767 <= dy <= 32767,
                ;
            }
            let dist2: u64 = to_single((dx * dx + dy * dy) as u32);
            if dist2 <= r2 {
                assert(in_disc(dx as int, dy as int, r as int));
                let ink = Ink {
                    r: color[0],
                    g: color[1],
                    b: color[2],
                    a: if dist2 < r2 {
                        color[3]
                    } else {
                        0
                    },
                };
                assert(stencil(cx + dx, cy + dy) == Some(ink));
                blend_pixel(data, pw, cx + dx, cy + dy, ink);
            }
            dx = dx + 1;
        }
        proof {
            lemma_before_next_row(picture, w, stencil, cx - r, cx + r + 1, cy + dy);
        }
        dy = dy + 1;
    }
    proof {
        lemma_before_all(picture, w, stencil, cx - r, cy + r + 1);
    }
}

/// Whether a pixel of a square image lies in the circle inscribed in it. Coordinates are doubled,
/// so that pixel centres are whole numbers.
pub open spec fn in_inscribed(ix: int, iy: int, size: int) -> bool {
    let u = 2 * ix + 1 - size;
    let v = 2 * iy + 1 - size;
    &&& 0 <= ix < size
    &&& 0 <= iy < size
    &&& single(single(u * u) + single(v * v)) <= single(size * size)
}

/// The ink that a pixel of a square RGBA image gives, its opacity faded; none outside the
/// inscribed circle, beyond the image's data, or where it would be transparent.
pub open spec fn icon_ink(
    ix: int,
    iy: int,
    size: int,
    rgba: Seq<u8>,
    fade: Seq<u8>,
) -> Option<Ink> {
    let at = (iy * size + ix) * 4;
    if in_inscribed(ix, iy, size) && at + 3 < rgba.len() && fade[rgba[at + 3] as int] != 0 {
        Some(
            Ink {
                r: rgba[at],
                g: rgba[at + 1],
                b: rgba[at + 2],
                a: fade[rgba[at + 3] as int],
            },
        )
    } else {
        None
    }
}

/// The stencil of a square RGBA image clipped to a circle.
pub open spec fn icon_circle(
    x0: int,
    y0: int,
    size: int,
    rgba: Seq<u8>,
    fade: Seq<u8>,
) -> spec_fn(int, int) -> Option<Ink> {
    |x: int, y: int| icon_ink(x - x0, y - y0, size, rgba, fade)
}

/// Draws a square RGBA image, clipped to a circle, with its top left corner at `(x0, y0)`. The
/// table `fade` gives the opacity that each opacity of the image is drawn with.
pub fn draw_icon_circle(
    data: &mut [u8],
    pw: i32,
    x0: i32,
    y0: i32,
    size: i32,
    rgba: &[u8],
    fade: &[u8; 256],
)
    requires
        size <= 23170,
        forall|ix: int, iy: int|
            (#[trigger] icon_ink(ix, iy, size as int, rgba@, fade@)) is Some ==> addressable(
                x0 + ix,
                y0 + iy,
                pw as int,
            ),
    ensures
        final(data)@ == inked(
            old(data)@,
            pw as int,
            icon_circle(x0 as int, y0 as int, size as int, rgba@, fade@),
        ),
{
    let ghost picture = data@;
    let ghost w = pw as int;
    let ghost stencil = icon_circle(x0 as int, y0 as int, size as int, rgba@, fade@);
    proof {
        lemma_before_none(picture, w, stencil, x0 as int, y0 as int);
    }
    if size <= 0 {
        proof {
            lemma_before_all(picture, w, stencil, x0 as int, y0 as int);
        }
        return ;
    }
    assert(0 <= size * size <= 536848900) by (nonlinear_arith)
        requires
            0 <= size <= 23170,
    ;
    let r2: u64 = to_single((size * size) as u32);
    let mut iy: i32 = 0;
    while iy < size
        invariant
            0 < size <= 23170,
            0 <= iy <= size,
            0 <= size * size <= 536848900,
            r2 == single(size * size),
            forall|ix: int, iy: int|
                (#[trigger] icon_ink(ix, iy, size as int, rgba@, fade@)) is Some ==> addressable(
                    x0 + ix,
                    y0 + iy,
                    pw as int,
                ),
            w == pw,
            stencil == icon_circle(x0 as int, y0 as int, size as int, rgba@, fade@),
            data@ == inked(picture, w, before(stencil, x0 as int, y0 + iy)),
        decreases size - iy,
    {
        let mut ix: i32 = 0;
        while ix < size
            invariant
                0 < size <= 23170,
                0 <= ix <= size,
                0 <= iy < size,
                0 <= size * size <= 536848900,
                r2 == single(size * size),
                forall|ix: int, iy: int|
                    (#[trigger] icon_ink(ix, iy, size as int, rgba@, fade@)) is Some
                        ==> addressable(x0 + ix, y0 + iy, pw as int),
                w == pw,
                stencil == icon_circle(x0 as int, y0 as int, size as int, rgba@, fade@),
                data@ == inked(picture, w, before(stencil, x0 + ix, y0 + iy)),
            decreases size - ix,
        {
            proof {
                lemma_before_step(picture, w, stencil, x0 + ix, y0 + iy);
            }
            let u: i32 = 2 * ix + 1 - size;
            let v: i32 = 2 * iy + 1 - size;
            proof {
                assert(0 <= u * u <= 536848900) by (nonlinear_arith)
                    requires
                        -23170 <= u <= 23170,
                ;
                assert(0 <= v * v <= 536848900) by (nonlinear_arith)
                    requires
                        -23170 <= v <= 23170,
                ;
                assert(0 <= iy * size <= size * size - size) by (nonlinear_arith)
                    requires
                        0 <= iy <= size - 1,
                        0 < size,
                ;
            }
            let sum: u64 = to_single((u * u) as u32) + to_single((v * v) as u32);
            let dist2: u64 = to_single(sum as u32);
            let src: usize = ((iy * size + ix) * 4) as usize;
            if dist2 <= r2 && src + 3 < rgba.len() {
                let a: u8 = fade[rgba[src + 3] as usize];
                if a != 0 {
                    let ink = Ink { r: rgba[src], g: rgba[src + 1], b: rgba[src + 2], a };
                    assert(icon_ink(ix as int, iy as int, size as int, rgba@, fade@) == Some(ink));
                    assert(stencil(x0 + ix, y0 + iy) == Some(ink));
                    blend_pixel(data, pw, x0 + ix, y0 + iy, ink);
                }
            }
            ix = ix + 1;
        }
        proof {
            lemma_before_next_row(picture, w, stencil, x0 as int, x0 + size, y0 + iy);
        }
        iy = iy + 1;
    }
    proof {
        lemma_before_all(picture, w, stencil, x0 as int, y0 + size);
    }
}

/// The square of twice the distance from a diagonal, in `unit`ths of a pixel, of a pixel whose
/// coordinates differ by `k` from the diagonal's: the distance is `k` over the square root of two.
pub open spec fn edge_square(k: int, unit: int) -> int {
    2 * ((k * unit) * (k * unit))
}

/// The thickness of a stroke, in `unit`ths of a pixel: at least one pixel.
pub open spec fn stroke_thickness(thickness: int, unit: int) -> int {
    if thickness > unit {
        thickness
    } else {
        unit
    }
}

/// Whether a pixel whose coordinates differ by `k` from a diagonal's lies on a stroke along it: its
/// distance from the diagonal is less than half the stroke's thickness.
pub open spec fn on_stroke(k: int, thickness: int, unit: int) -> bool {
    edge_square(k, unit) < stroke_thickness(thickness, unit) * stroke_thickness(thickness, unit)
}

/// Whether single precision tells on which side of a stroke's edge a pixel lies.
pub open spec fn clear_of_edge(k: int, thickness: int, unit: int) -> bool {
    let square = stroke_thickness(thickness, unit) * stroke_thickness(thickness, unit);
    let gap = edge_square(k, unit) - square;
    square <= 0x20_0000 * (if gap < 0 {
        -gap
    } else {
        gap
    })
}

/// Whether single precision tells on which side of a stroke's edge each pixel lies.
pub open spec fn sharp_stroke(thickness: int, unit: int) -> bool {
    forall|k: int| #[trigger] clear_of_edge(k, thickness, unit)
}

/// Whether a point at a distance from the centre lies on one of the two diagonal strokes of a
/// cross.
pub open spec fn on_cross(dx: int, dy: int, arm: int, thickness: int, unit: int) -> bool {
    &&& -arm <= dx <= arm
    &&& -arm <= dy <= arm
    &&& (on_stroke(dx - dy, thickness, unit) || on_stroke(dx + dy, thickness, unit))
}

/// A pixel further from a diagonal is further from it in square, too.
pub proof fn lemma_edge_square_grows(j: int, k: int, unit: int)
    requires
        0 <= j,
        k <= -j || j <= k,
        0 < unit,
    ensures
        0 <= edge_square(j, unit) <= edge_square(k, unit),
{
    let near = j * unit;
    let far = if k < 0 {
        -k * unit
    } else {
        k * unit
    };
    assert(0 <= near <= far) by (nonlinear_arith)
        requires
            0 <= j,
            near == j * unit,
            far == (if k < 0 { -k * unit } else { k * unit }),
            k <= -j || j <= k,
            0 < unit,
    ;
    assert(0 <= near * near <= far * far) by (nonlinear_arith)
        requires
            0 <= near <= far,
    ;
    assert(far * far == (k * unit) * (k * unit)) by (nonlinear_arith)
        requires
            far == k * unit || far == -k * unit,
    ;
}

/// A pixel lies as far from a diagonal on either side of it.
proof fn lemma_edge_square_even(k: int, distance: int, unit: int)
    requires
        distance == k || distance == -k,
    ensures
        edge_square(k, unit) == edge_square(distance, unit),
{
    assert((k * unit) * (k * unit) == (distance * unit) * (distance * unit)) by (nonlinear_arith)
        requires
            distance == k || distance == -k,
    ;
}

/// The absolute value of a difference of coordinates.
fn distance(k: i32) -> (result: u64)
    requires
        i32::MIN < k,
    ensures
        result == k || result == -k,
        result <= 0x7fff_ffff,
{
    if k < 0 {
        (-k) as u64
    } else {
        k as u64
    }
}

/// The square that a pixel's side of the edge goes by.
fn edge_square_of(k: u64, unit: u64) -> (square: u128)
    requires
        k <= 0x1_0000_0000,
        unit <= 0x7fff_ffff,
    ensures
        square == edge_square(k as int, unit as int),
{
    assert(0 <= k * unit <= 0x1_0000_0000 * 0x8000_0000) by (nonlinear_arith)
        requires
            0 <= k <= 0x1_0000_0000,
            0 <= unit <= 0x8000_0000,
    ;
    let product: u128 = (k * unit) as u128;
    assert(0 <= product * product <= 0x8000_0000_0000_0000 * 0x8000_0000_0000_0000)
        by (nonlinear_arith)
        requires
            0 <= product <= 0x8000_0000_0000_0000,
    ;
    2 * (product * product)
}

/// The square of a stroke's thickness.
fn thickness_square(thickness: i32, unit: i32) -> (square: u128)
    requires
        0 < unit,
    ensures
        square == stroke_thickness(thickness as int, unit as int) * stroke_thickness(
            thickness as int,
            unit as int,
        ),
        0 < square <= 0x4000_0000_0000_0000,
{
    let at_least: u128 = if thickness > unit {
        thickness as u128
    } else {
        unit as u128
    };
    assert(0 < at_least * at_least <= 0x8000_0000 * 0x8000_0000) by (nonlinear_arith)
        requires
            0 < at_least <= 0x8000_0000,
    ;
    at_least * at_least
}

/// Tells whether single precision tells on which side of a stroke's edge each pixel lies.
pub fn is_sharp_stroke(thickness: i32, unit: i32) -> (sharp: bool)
    requires
        0 < unit,
    ensures
        sharp == sharp_stroke(thickness as int, unit as int),
{
    let ghost t = thickness as int;
    let ghost u = unit as int;
    let square: u128 = thickness_square(thickness, unit);
    // The furthest pixel on the stroke and the nearest beside it decide.
    let mut inner: u64 = 0;
    let mut outer: u64 = 0x1_0000_0000;
    proof {
        let m = stroke_thickness(t, u);
        let o = 0x1_0000_0000int;
        assert(edge_square(0, u) == 0) by (nonlinear_arith);
        assert(2 * ((o * u) * (o * u)) >= m * m) by (nonlinear_arith)
            requires
                o == 0x1_0000_0000,
                1 <= u,
                0 < m <= 0x8000_0000,
        ;
    }
    while outer - inner > 1
        invariant
            0 < unit,
            u == unit,
            inner < outer <= 0x1_0000_0000,
            edge_square(inner as int, u) < square <= edge_square(outer as int, u),
        decreases outer - inner,
    {
        let middle: u64 = inner + (outer - inner) / 2;
        if edge_square_of(middle, unit as u64) < square {
            inner = middle;
        } else {
            outer = middle;
        }
    }
    let below: u128 = square - edge_square_of(inner, unit as u64);
    let above: u128 = edge_square_of(outer, unit as u64) - square;
    // A gap of at least the whole square is wide enough, and its multiple might not fit.
    let sharp: bool = square <= 0x20_0000 * below && (square <= above || square <= 0x20_0000
        * above);
    proof {
        if sharp {
            assert forall|k: int| #[trigger] clear_of_edge(k, t, u) by {
                if -inner <= k <= inner {
                    let near = if k < 0 {
                        -k
                    } else {
                        k
                    };
                    lemma_edge_square_grows(near, inner as int, u);
                    lemma_edge_square_grows(0, near, u);
                    lemma_edge_square_even(k, near, u);
                } else {
                    lemma_edge_square_grows(outer as int, k, u);
                }
            }
        } else if square > 0x20_0000 * below {
            assert(!clear_of_edge(inner as int, t, u));
        } else {
            assert(!clear_of_edge(outer as int, t, u));
        }
    }
    sharp
}

/// The stencil of a white diagonal cross.
pub open spec fn cross(
    cx: int,
    cy: int,
    arm: int,
    thickness: int,
    unit: int,
    alpha: u8,
) -> spec_fn(int, int) -> Option<Ink> {
    |x: int, y: int|
        if on_cross(x - cx, y - cy, arm, thickness, unit) {
            Some(Ink { r: 255, g: 255, b: 255, a: alpha })
        } else {
            None
        }
}

/// Draws a white diagonal cross around `(cx, cy)`, given the length of its arms and the thickness
/// of its strokes in `unit`ths of a pixel.
pub fn draw_x(
    data: &mut [u8],
    pw: i32,
    cx: i32,
    cy: i32,
    arm: i32,
    thickness: i32,
    unit: i32,
    alpha: u8,
)
    requires
        i32::MIN < arm <= 0x3fff_ffff,
        0 < unit,
        sharp_stroke(thickness as int, unit as int),
        forall|dx: int, dy: int| #[trigger]
            on_cross(dx, dy, arm as int, thickness as int, unit as int) ==> addressable(
                cx + dx,
                cy + dy,
                pw as int,
            ),
    ensures
        final(data)@ == inked(
            old(data)@,
            pw as int,
            cross(
                cx as int,
                cy as int,
                arm as int,
                thickness as int,
                unit as int,
                alpha,
            ),
        ),
{
    let ghost picture = data@;
    let ghost w = pw as int;
    let ghost stencil = cross(
        cx as int,
        cy as int,
        arm as int,
        thickness as int,
        unit as int,
        alpha,
    );
    proof {
        lemma_before_none(picture, w, stencil, cx - arm, cy - arm);
    }
    if arm < 0 {
        proof {
            lemma_before_all(picture, w, stencil, cx - arm, cy - arm);
        }
        return ;
    }
    let ink = Ink { r: 255, g: 255, b: 255, a: alpha };
    let square: u128 = thickness_square(thickness, unit);
    let mut dy: i32 = -arm;
    while dy <= arm
        invariant
            0 <= arm <= 0x3fff_ffff,
            -arm <= dy <= arm + 1,
            0 < unit,
            square == stroke_thickness(thickness as int, unit as int) * stroke_thickness(
                thickness as int,
                unit as int,
            ),
            forall|dx: int, dy: int| #[trigger]
                on_cross(dx, dy, arm as int, thickness as int, unit as int) ==> addressable(
                    cx + dx,
                    cy + dy,
                    pw as int,
                ),
            w == pw,
            ink == (Ink { r: 255, g: 255, b: 255, a: alpha }),
            stencil == cross(
        cx as int,
        cy as int,
        arm as int,
        thickness as int,
        unit as int,
        alpha,
    ),
            data@ == inked(picture, w, before(stencil, cx - arm, cy + dy)),
        decreases arm + 1 - dy,
    {
        let mut dx: i32 = -arm;
        while dx <= arm
            invariant
                0 <= arm <= 0x3fff_ffff,
                -arm <= dx <= arm + 1,
                -arm <= dy <= arm,
            0 < unit,
            square == stroke_thickness(thickness as int, unit as int) * stroke_thickness(
                thickness as int,
                unit as int,
            ),
                forall|dx: int, dy: int| #[trigger]
                    on_cross(dx, dy, arm as int, thickness as int, unit as int) ==> addressable(
                        cx + dx,
                        cy + dy,
                        pw as int,
                    ),
                w == pw,
                ink == (Ink { r: 255, g: 255, b: 255, a: alpha }),
                stencil == cross(
        cx as int,
        cy as int,
        arm as int,
        thickness as int,
        unit as int,
        alpha,
    ),
                data@ == inked(picture, w, before(stencil, cx + dx, cy + dy)),
            decreases arm + 1 - dx,
        {
            proof {
                lemma_before_step(picture, w, stencil, cx + dx, cy + dy);
            }
            let across: u64 = distance(dx - dy);
            let along: u64 = distance(dx + dy);
            proof {
                lemma_edge_square_even(dx - dy, across as int, unit as int);
                lemma_edge_square_even(dx + dy, along as int, unit as int);
            }
            if edge_square_of(across, unit as u64) < square || edge_square_of(along, unit as u64)
                < square {
                assert(on_cross(
                    dx as int,
                    dy as int,
                    arm as int,
                    thickness as int,
                    unit as int,
                ));
                assert(stencil(cx + dx, cy + dy) == Some(ink));
                blend_pixel(data, pw, cx + dx, cy + dy, ink);
            }
            dx = dx + 1;
        }
        proof {
            lemma_before_next_row(picture, w, stencil, cx - arm, cx + arm + 1, cy + dy);
        }
        dy = dy + 1;
    }
    proof {
        lemma_before_all(picture, w, stencil, cx - arm, cy + arm + 1);
    }
}

/// A pixel that a line of text covers, relative to the line's origin, and how much of it.
#[derive(Clone, Copy, Debug, PartialEq, Eq)]
pub struct GlyphPixel {
    pub x: i32,
    pub y: i32,
    pub a: u8,
}

/// A colour channel of a text pixel: the blend, but no more than the resulting opacity.
pub open spec fn text_channel(source: u8, a: u8, dest: u8, dest_alpha: u8) -> u8 {
    if over(source, a, dest) <= over(255, a, dest_alpha) {
        over(source, a, dest)
    } else {
        over(255, a, dest_alpha)
    }
}

/// A picture after one pixel of text has been drawn on it.
pub open spec fn with_text_pixel(
    picture: Seq<u8>,
    pw: int,
    px: int,
    py: int,
    color: [u8; 3],
    a: u8,
) -> Seq<u8> {
    let i = (py * pw + px) * 4;
    if 0 <= px < pw && 0 <= py && i + 3 < picture.len() && a != 0 {
        let alpha = picture[i + 3];
        picture.update(i, text_channel(color[0], a, picture[i], alpha)).update(
            i + 1,
            text_channel(color[1], a, picture[i + 1], alpha),
        ).update(i + 2, text_channel(color[2], a, picture[i + 2], alpha)).update(
            i + 3,
            over(255, a, alpha),
        )
    } else {
        picture
    }
}

/// A picture after a line of text has been drawn on it, pixel after pixel, each with its opacity
/// faded.
pub open spec fn with_text(
    picture: Seq<u8>,
    pw: int,
    glyphs: Seq<GlyphPixel>,
    offset_x: int,
    offset_y: int,
    color: [u8; 3],
    fade: Seq<u8>,
) -> Seq<u8>
    decreases glyphs.len(),
{
    if glyphs.len() == 0 {
        picture
    } else {
        let last = glyphs.last();
        with_text_pixel(
            with_text(picture, pw, glyphs.drop_last(), offset_x, offset_y, color, fade),
            pw,
            last.x + offset_x,
            last.y + offset_y,
            color,
            fade[last.a as int],
        )
    }
}

/// A colour channel of a text pixel.
fn text_value(source: u8, a: u8, dest: u8, alpha: u8) -> (value: u8)
    ensures
        value == if over(source, a, dest) <= alpha {
            over(source, a, dest)
        } else {
            alpha
        },
{
    let blended: u8 = over_channel(source, a, dest);
    if blended <= alpha {
        blended
    } else {
        alpha
    }
}

/// Draws one pixel of text; a pixel outside the picture is left out.
fn draw_text_pixel(data: &mut [u8], pw: i32, px: i32, py: i32, color: [u8; 3], a: u8)
    requires
        offset_fits(px as int, py as int, pw as int),
    ensures
        final(data)@ == with_text_pixel(
            old(data)@,
            pw as int,
            px as int,
            py as int,
            color,
            a,
        ),
{
    if px < 0 || py < 0 || px >= pw {
        return ;
    }
    assert(0 <= py * pw) by (nonlinear_arith)
        requires
            py >= 0,
            pw > 0,
    ;
    let i: usize = ((py * pw + px) * 4) as usize;
    if i + 3 >= data.len() {
        return ;
    }
    if a == 0 {
        return ;
    }
    let alpha: u8 = over_channel(255, a, data[i + 3]);
    data[i] = text_value(color[0], a, data[i], alpha);
    data[i + 1] = text_value(color[1], a, data[i + 1], alpha);
    data[i + 2] = text_value(color[2], a, data[i + 2], alpha);
    data[i + 3] = alpha;
}

/// Draws a line of text, given by the pixels that it covers, at an offset. The table `fade` gives
/// the opacity that each pixel's coverage is drawn with.
pub fn draw_text_buffer(
    data: &mut [u8],
    pw: i32,
    glyphs: &[GlyphPixel],
    offset_x: i32,
    offset_y: i32,
    color: [u8; 3],
    fade: &[u8; 256],
)
    requires
        forall|k: int|
            0 <= k < glyphs@.len() ==> addressable(
                (#[trigger] glyphs@[k]).x + offset_x,
                glyphs@[k].y + offset_y,
                pw as int,
            ),
    ensures
        final(data)@ == with_text(
            old(data)@,
            pw as int,
            glyphs@,
            offset_x as int,
            offset_y as int,
            color,
            fade@,
        ),
{
    let ghost picture = data@;
    let mut k: usize = 0;
    assert(glyphs@.take(0) =~= Seq::empty());
    while k < glyphs.len()
        invariant
            k <= glyphs@.len(),
            forall|k: int|
                0 <= k < glyphs@.len() ==> addressable(
                    (#[trigger] glyphs@[k]).x + offset_x,
                    glyphs@[k].y + offset_y,
                    pw as int,
                ),
            data@ == with_text(
                picture,
                pw as int,
                glyphs@.take(k as int),
                offset_x as int,
                offset_y as int,
                color,
                fade@,
            ),
        decreases glyphs@.len() - k,
    {
        let glyph: GlyphPixel = glyphs[k];
        assert(glyphs@[k as int] == glyph);
        assert(glyphs@.take(k + 1).drop_last() =~= glyphs@.take(k as int));
        let a: u8 = fade[glyph.a as usize];
        draw_text_pixel(data, pw, glyph.x + offset_x, glyph.y + offset_y, color, a);
        k = k + 1;
    }
    assert(glyphs@.take(k as int) =~= glyphs@);
}

/// The position in an RGBA pixel of the channel at a position in a BGRA pixel.
pub open spec fn swapped(c: int) -> int {
    if c == 0 {
        2
    } else if c == 2 {
        0
    } else {
        c
    }
}

/// A canvas after RGBA pixels have been copied to it as BGRA, as many as fit in both.
pub open spec fn copied(canvas: Seq<u8>, picture: Seq<u8>) -> Seq<u8> {
    Seq::new(
        canvas.len(),
        |j: int|
            if whole(canvas.len() as int, j) && whole(picture.len() as int, j) {
                picture[j / 4 * 4 + swapped(j % 4)]
            } else {
                canvas[j]
            },
    )
}

/// Copies RGBA pixels to a canvas as BGRA.
pub fn copy_bgra(canvas: &mut [u8], picture: &[u8])
    ensures
        final(canvas)@ == copied(old(canvas)@, picture@),
{
    let ghost before = canvas@;
    let mut i: usize = 0;
    while i < canvas.len() && i < picture.len() && canvas.len() - i >= 4 && picture.len() - i >= 4
        invariant
            i % 4 == 0,
            i <= canvas@.len(),
            i <= picture@.len(),
            canvas@.len() == before.len(),
            forall|j: int| 0 <= j < i ==> canvas@[j] == copied(before, picture@)[j],
            forall|j: int| i <= j < before.len() ==> canvas@[j] == before[j],
        decreases canvas@.len() - i,
    {
        canvas[i] = picture[i + 2];
        canvas[i + 1] = picture[i + 1];
        canvas[i + 2] = picture[i];
        canvas[i + 3] = picture[i + 3];
        i = i + 4;
    }
    assert(canvas@ =~= copied(before, picture@));
}

} // verus!
