//! Laws of drawing, over the calls: what each drawing function does to each pixel.
use vstd::prelude::*;

use crate::ink::{inked, lemma_pixel_at, whole, Ink};
use crate::raster::{
    circle, clear_of_edge, copied, copy_bgra, cross, draw_circle, draw_icon_circle, draw_text_buffer,
    draw_x, icon_circle, icon_ink, is_sharp_stroke, lemma_over_fits, on_stroke, with_text,
    with_text_pixel, GlyphPixel,
};
use crate::raster_laws::law_opacity_extremes;
use crate::single::single;

verus! {

/// Whether a picture of so many bytes, `pw` pixels wide, has a whole pixel in a column and a row.
pub open spec fn has_pixel(len: int, pw: int, x: int, y: int) -> bool {
    0 <= x < pw && 0 <= y && (y * pw + x) * 4 + 3 < len
}

/// A byte of the pixel in a column and a row.
pub open spec fn byte_of(picture: Seq<u8>, pw: int, x: int, y: int, c: int) -> int {
    picture[(y * pw + x) * 4 + c] as int
}

/// A value laid over another with an opacity.
pub open spec fn blended(source: int, a: int, dest: int) -> int {
    source * a / 255 + dest * (255 - a) / 255
}

/// Whether a pixel has been blended with a colour.
pub open spec fn is_blended(
    before: Seq<u8>,
    after: Seq<u8>,
    pw: int,
    x: int,
    y: int,
    r: int,
    g: int,
    b: int,
    a: int,
) -> bool {
    &&& byte_of(after, pw, x, y, 0) == blended(r, a, byte_of(before, pw, x, y, 0))
    &&& byte_of(after, pw, x, y, 1) == blended(g, a, byte_of(before, pw, x, y, 1))
    &&& byte_of(after, pw, x, y, 2) == blended(b, a, byte_of(before, pw, x, y, 2))
    &&& byte_of(after, pw, x, y, 3) == a + byte_of(before, pw, x, y, 3) * (255 - a) / 255
}

/// Whether a pixel is as it was.
pub open spec fn is_same(before: Seq<u8>, after: Seq<u8>, pw: int, x: int, y: int) -> bool {
    &&& byte_of(after, pw, x, y, 0) == byte_of(before, pw, x, y, 0)
    &&& byte_of(after, pw, x, y, 1) == byte_of(before, pw, x, y, 1)
    &&& byte_of(after, pw, x, y, 2) == byte_of(before, pw, x, y, 2)
    &&& byte_of(after, pw, x, y, 3) == byte_of(before, pw, x, y, 3)
}

/// Whether a picture has kept its size and whatever is no whole pixel of it.
pub open spec fn keeps_rest(before: Seq<u8>, after: Seq<u8>, pw: int) -> bool {
    &&& after.len() == before.len()
    &&& forall|j: int|
        before.len() / 4 * 4 <= j < before.len() ==> #[trigger] after[j] == before[j]
    &&& pw <= 0 ==> after == before
}

/// What a stencil does to a pixel of a picture.
proof fn lemma_inked_pixel(
    picture: Seq<u8>,
    pw: int,
    stencil: spec_fn(int, int) -> Option<Ink>,
    x: int,
    y: int,
)
    requires
        has_pixel(picture.len() as int, pw, x, y),
    ensures
        match stencil(x, y) {
            Some(ink) => {
                &&& is_blended(
                    picture,
                    inked(picture, pw, stencil),
                    pw,
                    x,
                    y,
                    ink.r as int,
                    ink.g as int,
                    ink.b as int,
                    ink.a as int,
                )
                &&& ink.a == 0 ==> is_same(picture, inked(picture, pw, stencil), pw, x, y)
            },
            None => is_same(picture, inked(picture, pw, stencil), pw, x, y),
        },
{
    let i = (y * pw + x) * 4;
    lemma_pixel_at(x, y, pw, 0);
    lemma_pixel_at(x, y, pw, 1);
    lemma_pixel_at(x, y, pw, 2);
    lemma_pixel_at(x, y, pw, 3);
    if let Some(ink) = stencil(x, y) {
        lemma_over_fits(ink.r, ink.a, picture[i]);
        lemma_over_fits(ink.g, ink.a, picture[i + 1]);
        lemma_over_fits(ink.b, ink.a, picture[i + 2]);
        lemma_over_fits(255, ink.a, picture[i + 3]);
        if ink.a == 0 {
            law_opacity_extremes(ink.r, picture[i]);
            law_opacity_extremes(ink.g, picture[i + 1]);
            law_opacity_extremes(ink.b, picture[i + 2]);
            law_opacity_extremes(255, picture[i + 3]);
        }
    }
}

proof fn lemma_inked_rest(picture: Seq<u8>, pw: int, stencil: spec_fn(int, int) -> Option<Ink>)
    ensures
        keeps_rest(picture, inked(picture, pw, stencil), pw),
{
    let after = inked(picture, pw, stencil);
    if pw <= 0 {
        assert(after =~= picture);
    }
    assert forall|j: int| picture.len() / 4 * 4 <= j < picture.len() implies #[trigger] after[j]
        == picture[j] by {
        assert(!whole(picture.len() as int, j));
    }
}

/// A circle blends every pixel whose distance from the centre is less than the radius with its
/// colour, in single precision, and no other.
pub proof fn law_draw_circle(
    data: &mut [u8],
    pw: i32,
    cx: i32,
    cy: i32,
    r: i32,
    color: [u8; 4],
    x: int,
    y: int,
)
    requires
        call_ensures(draw_circle, (data, pw, cx, cy, r, color), ()),
    ensures
        keeps_rest(old(data)@, final(data)@, pw as int),
        has_pixel(old(data)@.len() as int, pw as int, x, y) ==> {
            let dx = x - cx;
            let dy = y - cy;
            if -r <= dx <= r && -r <= dy <= r && single(dx * dx + dy * dy) < single(r * r) {
                is_blended(
                    old(data)@,
                    final(data)@,
                    pw as int,
                    x,
                    y,
                    color@[0] as int,
                    color@[1] as int,
                    color@[2] as int,
                    color@[3] as int,
                )
            } else {
                is_same(old(data)@, final(data)@, pw as int, x, y)
            }
        },
{
    let stencil = circle(cx as int, cy as int, r as int, color@);
    lemma_inked_rest(old(data)@, pw as int, stencil);
    if has_pixel(old(data)@.len() as int, pw as int, x, y) {
        lemma_inked_pixel(old(data)@, pw as int, stencil, x, y);
    }
}

/// An icon blends every pixel of the circle inscribed in its square with its own colour there, with
/// its own opacity faded, as far as it has data, and no other pixel.
pub proof fn law_draw_icon_circle(
    data: &mut [u8],
    pw: i32,
    x0: i32,
    y0: i32,
    size: i32,
    rgba: &[u8],
    fade: &[u8; 256],
    x: int,
    y: int,
)
    requires
        call_ensures(draw_icon_circle, (data, pw, x0, y0, size, rgba, fade), ()),
    ensures
        keeps_rest(old(data)@, final(data)@, pw as int),
        has_pixel(old(data)@.len() as int, pw as int, x, y) ==> {
            let ix = x - x0;
            let iy = y - y0;
            let u = 2 * ix + 1 - size;
            let v = 2 * iy + 1 - size;
            let at = (iy * size + ix) * 4;
            if 0 <= ix < size && 0 <= iy < size && single(single(u * u) + single(v * v)) <= single(
                size * size,
            ) && at + 3 < rgba@.len() {
                is_blended(
                    old(data)@,
                    final(data)@,
                    pw as int,
                    x,
                    y,
                    rgba@[at] as int,
                    rgba@[at + 1] as int,
                    rgba@[at + 2] as int,
                    fade@[rgba@[at + 3] as int] as int,
                )
            } else {
                is_same(old(data)@, final(data)@, pw as int, x, y)
            }
        },
{
    let stencil = icon_circle(x0 as int, y0 as int, size as int, rgba@, fade@);
    lemma_inked_rest(old(data)@, pw as int, stencil);
    if has_pixel(old(data)@.len() as int, pw as int, x, y) {
        lemma_inked_pixel(old(data)@, pw as int, stencil, x, y);
        let ix = x - x0;
        let iy = y - y0;
        let at = (iy * size + ix) * 4;
        if icon_ink(ix, iy, size as int, rgba@, fade@) is None && at + 3 < rgba@.len() && 0 <= at {
            let i = (y * pw + x) * 4;
            lemma_pixel_at(x, y, pw as int, 0);
            lemma_over_fits(rgba@[at], 0, old(data)@[i]);
            law_opacity_extremes(rgba@[at], old(data)@[i]);
            lemma_over_fits(rgba@[at + 1], 0, old(data)@[i + 1]);
            law_opacity_extremes(rgba@[at + 1], old(data)@[i + 1]);
            lemma_over_fits(rgba@[at + 2], 0, old(data)@[i + 2]);
            law_opacity_extremes(rgba@[at + 2], old(data)@[i + 2]);
            lemma_over_fits(255, 0, old(data)@[i + 3]);
            law_opacity_extremes(255, old(data)@[i + 3]);
        }
        if 0 <= ix < size && 0 <= iy < size {
            assert(0 <= iy * size) by (nonlinear_arith)
                requires
                    0 <= iy,
                    0 <= size,
            ;
        }
    }
}

/// Whether a pixel lies on a stroke along a diagonal that its coordinates differ by `k` from: twice
/// its distance, the square root of two times `k`, is less than the thickness, which is at least one
/// pixel.
pub open spec fn is_on_stroke(k: int, thickness: int, unit: int) -> bool {
    if thickness > unit {
        2 * ((k * unit) * (k * unit)) < thickness * thickness
    } else {
        k == 0
    }
}

proof fn lemma_on_stroke(k: int, thickness: int, unit: int)
    requires
        0 < unit,
    ensures
        on_stroke(k, thickness, unit) <==> is_on_stroke(k, thickness, unit),
{
    if thickness <= unit {
        if k == 0 {
            assert(0 * unit == 0) by (nonlinear_arith);
            assert(0 < unit * unit) by (nonlinear_arith)
                requires
                    0 < unit,
            ;
        } else {
            assert(unit * unit <= (k * unit) * (k * unit)) by (nonlinear_arith)
                requires
                    k <= -1 || k >= 1,
                    0 < unit,
            ;
            assert(0 < unit * unit) by (nonlinear_arith)
                requires
                    0 < unit,
            ;
        }
    }
}

/// A cross blends every pixel of its two diagonal strokes with white, as far as its arms reach, and
/// no other pixel.
pub proof fn law_draw_x(
    data: &mut [u8],
    pw: i32,
    cx: i32,
    cy: i32,
    arm: i32,
    thickness: i32,
    unit: i32,
    alpha: u8,
    x: int,
    y: int,
)
    requires
        0 < unit,
        call_ensures(draw_x, (data, pw, cx, cy, arm, thickness, unit, alpha), ()),
    ensures
        keeps_rest(old(data)@, final(data)@, pw as int),
        has_pixel(old(data)@.len() as int, pw as int, x, y) ==> {
            let dx = x - cx;
            let dy = y - cy;
            if -arm <= dx <= arm && -arm <= dy <= arm && (is_on_stroke(
                dx - dy,
                thickness as int,
                unit as int,
            ) || is_on_stroke(dx + dy, thickness as int, unit as int)) {
                is_blended(
                    old(data)@,
                    final(data)@,
                    pw as int,
                    x,
                    y,
                    255,
                    255,
                    255,
                    alpha as int,
                )
            } else {
                is_same(old(data)@, final(data)@, pw as int, x, y)
            }
        },
{
    let stencil = cross(
        cx as int,
        cy as int,
        arm as int,
        thickness as int,
        unit as int,
        alpha,
    );
    lemma_inked_rest(old(data)@, pw as int, stencil);
    if has_pixel(old(data)@.len() as int, pw as int, x, y) {
        lemma_inked_pixel(old(data)@, pw as int, stencil, x, y);
        lemma_on_stroke((x - cx) - (y - cy), thickness as int, unit as int);
        lemma_on_stroke((x - cx) + (y - cy), thickness as int, unit as int);
    }
}

/// Whether the square of twice a distance differs from that of a thickness by at least one part in
/// 2^21.
pub open spec fn well_apart(twice: int, thickness: int) -> bool {
    let gap = 2 * (twice * twice) - thickness * thickness;
    0x20_0000 * gap >= thickness * thickness || -0x20_0000 * gap >= thickness * thickness
}

/// A stroke is sharp exactly if no pixel comes close to its edge.
pub proof fn law_is_sharp_stroke(thickness: i32, unit: i32, sharp: bool)
    requires
        0 < unit,
        call_ensures(is_sharp_stroke, (thickness, unit), sharp),
    ensures
        sharp <==> forall|k: int|
            well_apart(
                #[trigger] (k * unit),
                if thickness > unit {
                    thickness as int
                } else {
                    unit as int
                },
            ),
{
    let t = thickness as int;
    let u = unit as int;
    let m = if t > u {
        t
    } else {
        u
    };
    if sharp {
        assert forall|k: int| well_apart(#[trigger] (k * u), m) by {
            assert(clear_of_edge(k, t, u));
        }
    } else {
        let k = choose|k: int| !#[trigger] clear_of_edge(k, t, u);
        assert(!well_apart(k * u, m));
    }
}

/// Copying gives every pixel that both have to the canvas with its red and blue exchanged, and
/// leaves the rest of the canvas as it is.
pub proof fn law_copy_bgra(canvas: &mut [u8], picture: &[u8])
    requires
        call_ensures(copy_bgra, (canvas, picture), ()),
    ensures
        final(canvas)@.len() == old(canvas)@.len(),
        forall|p: int|
            0 <= p && 4 * p + 3 < old(canvas)@.len() && 4 * p + 3 < picture@.len() ==> {
                &&& final(canvas)@[4 * p] == #[trigger] picture@[4 * p + 2]
                &&& final(canvas)@[4 * p + 1] == picture@[4 * p + 1]
                &&& final(canvas)@[4 * p + 2] == picture@[4 * p]
                &&& final(canvas)@[4 * p + 3] == picture@[4 * p + 3]
            },
        forall|j: int|
            0 <= j < old(canvas)@.len() && (j >= old(canvas)@.len() / 4 * 4 || j >= picture@.len() / 4
                * 4) ==> #[trigger] final(canvas)@[j] == old(canvas)@[j],
{
    let after = final(canvas)@;
    assert(after == copied(old(canvas)@, picture@));
    assert forall|p: int|
        0 <= p && 4 * p + 3 < old(canvas)@.len() && 4 * p + 3 < picture@.len() implies {
        &&& after[4 * p] == #[trigger] picture@[4 * p + 2]
        &&& after[4 * p + 1] == picture@[4 * p + 1]
        &&& after[4 * p + 2] == picture@[4 * p]
        &&& after[4 * p + 3] == picture@[4 * p + 3]
    } by {
        assert((4 * p) / 4 == p && (4 * p + 1) / 4 == p && (4 * p + 2) / 4 == p && (4 * p + 3) / 4
            == p);
    }
}

/// The value of a colour channel of a text pixel: the blend, but no more than the new opacity.
pub open spec fn text_value_of(source: int, a: int, dest: int, opacity: int) -> int {
    let value = blended(source, a, dest);
    let limit = a + opacity * (255 - a) / 255;
    if value <= limit {
        value
    } else {
        limit
    }
}

/// Whether a pixel has a pixel of text on it.
pub open spec fn is_text(
    before: Seq<u8>,
    after: Seq<u8>,
    pw: int,
    x: int,
    y: int,
    color: Seq<u8>,
    a: int,
) -> bool {
    let opacity = byte_of(before, pw, x, y, 3);
    &&& byte_of(after, pw, x, y, 0) == text_value_of(
        color[0] as int,
        a,
        byte_of(before, pw, x, y, 0),
        opacity,
    )
    &&& byte_of(after, pw, x, y, 1) == text_value_of(
        color[1] as int,
        a,
        byte_of(before, pw, x, y, 1),
        opacity,
    )
    &&& byte_of(after, pw, x, y, 2) == text_value_of(
        color[2] as int,
        a,
        byte_of(before, pw, x, y, 2),
        opacity,
    )
    &&& byte_of(after, pw, x, y, 3) == a + opacity * (255 - a) / 255
}

/// What a pixel of text does to every pixel of a picture.
proof fn lemma_text_pixel(
    picture: Seq<u8>,
    pw: int,
    px: int,
    py: int,
    color: [u8; 3],
    a: u8,
    x: int,
    y: int,
)
    requires
        has_pixel(picture.len() as int, pw, x, y),
    ensures
        ({
            let after = with_text_pixel(picture, pw, px, py, color, a);
            if x == px && y == py && a != 0 {
                is_text(picture, after, pw, x, y, color@, a as int)
            } else {
                is_same(picture, after, pw, x, y)
            }
        }),
{
    let i = (y * pw + x) * 4;
    let k = (py * pw + px) * 4;
    lemma_pixel_at(x, y, pw, 0);
    let after = with_text_pixel(picture, pw, px, py, color, a);
    if 0 <= px < pw && 0 <= py && k + 3 < picture.len() && a != 0 {
        lemma_pixel_at(px, py, pw, 0);
        if x == px && y == py {
            lemma_over_fits(color[0], a, picture[i]);
            lemma_over_fits(color[1], a, picture[i + 1]);
            lemma_over_fits(color[2], a, picture[i + 2]);
            lemma_over_fits(255, a, picture[i + 3]);
        } else {
            assert(i != k);
            assert(i / 4 * 4 == i && k / 4 * 4 == k);
        }
    }
}

/// Text without pixels changes nothing, and a line of text is drawn pixel after pixel: the last one
/// on what the others leave.
pub proof fn law_text_in_order(
    whole_line: &mut [u8],
    but_last: &mut [u8],
    last: &mut [u8],
    pw: i32,
    glyphs: &[GlyphPixel],
    shorter: &[GlyphPixel],
    single_glyph: &[GlyphPixel],
    offset_x: i32,
    offset_y: i32,
    color: [u8; 3],
    fade: &[u8; 256],
)
    requires
        call_ensures(
            draw_text_buffer,
            (whole_line, pw, glyphs, offset_x, offset_y, color, fade),
            (),
        ),
        call_ensures(
            draw_text_buffer,
            (but_last, pw, shorter, offset_x, offset_y, color, fade),
            (),
        ),
        call_ensures(
            draw_text_buffer,
            (last, pw, single_glyph, offset_x, offset_y, color, fade),
            (),
        ),
        old(but_last)@ == old(whole_line)@,
        old(last)@ == final(but_last)@,
    ensures
        glyphs@.len() == 0 ==> final(whole_line)@ == old(whole_line)@,
        glyphs@.len() > 0 && shorter@ == glyphs@.drop_last() && single_glyph@ == seq![
            glyphs@.last(),
        ] ==> final(whole_line)@ == final(last)@,
{
    reveal_with_fuel(with_text, 2);
    if glyphs@.len() > 0 && single_glyph@ == seq![glyphs@.last()] {
        assert(single_glyph@.drop_last() =~= Seq::empty());
    }
}

/// A pixel of text is blended with the text's colour by its coverage, faded, but gets no brighter
/// than its new opacity. All other pixels stay.
pub proof fn law_text_pixel(
    data: &mut [u8],
    pw: i32,
    glyphs: &[GlyphPixel],
    offset_x: i32,
    offset_y: i32,
    color: [u8; 3],
    fade: &[u8; 256],
    x: int,
    y: int,
)
    requires
        glyphs@.len() == 1,
        call_ensures(
            draw_text_buffer,
            (data, pw, glyphs, offset_x, offset_y, color, fade),
            (),
        ),
    ensures
        keeps_rest(old(data)@, final(data)@, pw as int),
        has_pixel(old(data)@.len() as int, pw as int, x, y) ==> if x == glyphs@[0].x + offset_x && y
            == glyphs@[0].y + offset_y && fade@[glyphs@[0].a as int] != 0 {
            is_text(
                old(data)@,
                final(data)@,
                pw as int,
                x,
                y,
                color@,
                fade@[glyphs@[0].a as int] as int,
            )
        } else {
            is_same(old(data)@, final(data)@, pw as int, x, y)
        },
{
    reveal_with_fuel(with_text, 2);
    let picture = old(data)@;
    let glyph = glyphs@[0];
    assert(glyphs@.drop_last() =~= Seq::empty());
    let px = glyph.x + offset_x;
    let py = glyph.y + offset_y;
    let a = fade@[glyph.a as int];
    assert(final(data)@ == with_text_pixel(picture, pw as int, px, py, color, a));
    let k = (py * pw + px) * 4;
    if 0 <= px < pw && 0 <= py && k + 3 < picture.len() && a != 0 {
        lemma_pixel_at(px, py, pw as int, 0);
        assert(k % 4 == 0);
    }
    if has_pixel(picture.len() as int, pw as int, x, y) {
        lemma_text_pixel(picture, pw as int, px, py, color, a, x, y);
    }
}

/// Whether a line of text covers a pixel with an opacity other than zero.
pub open spec fn covers(
    glyphs: Seq<GlyphPixel>,
    offset_x: int,
    offset_y: int,
    fade: Seq<u8>,
    x: int,
    y: int,
) -> bool {
    exists|k: int|
        0 <= k < glyphs.len() && (#[trigger] glyphs[k]).x + offset_x == x && glyphs[k].y + offset_y
            == y && fade[glyphs[k].a as int] != 0
}

/// Whether a line of text covers a pixel fully.
pub open spec fn covers_fully(
    glyphs: Seq<GlyphPixel>,
    offset_x: int,
    offset_y: int,
    fade: Seq<u8>,
    x: int,
    y: int,
) -> bool {
    exists|k: int|
        0 <= k < glyphs.len() && (#[trigger] glyphs[k]).x + offset_x == x && glyphs[k].y + offset_y
            == y && fade[glyphs[k].a as int] == 255
}

/// Whether a pixel is opaque and white.
pub open spec fn is_white(picture: Seq<u8>, pw: int, x: int, y: int) -> bool {
    &&& byte_of(picture, pw, x, y, 0) == 255
    &&& byte_of(picture, pw, x, y, 1) == 255
    &&& byte_of(picture, pw, x, y, 2) == 255
    &&& byte_of(picture, pw, x, y, 3) == 255
}

proof fn lemma_white_stays(a: int)
    requires
        0 <= a <= 255,
    ensures
        blended(255, a, 255) == 255,
        a + 255 * (255 - a) / 255 == 255,
{
    assert(255 * a / 255 == a) by (nonlinear_arith);
    assert(255 * (255 - a) / 255 == 255 - a) by (nonlinear_arith);
}

proof fn lemma_full_cover(dest: int)
    requires
        0 <= dest <= 255,
    ensures
        blended(255, 255, dest) == 255,
{
    assert(dest * (255 - 255) == 0) by (nonlinear_arith);
}

/// What a line of text leaves of a pixel that it does not cover, that it covers fully, and that was
/// white before.
pub proof fn lemma_text_line(
    picture: Seq<u8>,
    pw: int,
    glyphs: Seq<GlyphPixel>,
    offset_x: int,
    offset_y: int,
    color: [u8; 3],
    fade: Seq<u8>,
    x: int,
    y: int,
)
    requires
        has_pixel(picture.len() as int, pw, x, y),
    ensures
        ({
            let after = with_text(picture, pw, glyphs, offset_x, offset_y, color, fade);
            let white = color@ == seq![255u8, 255u8, 255u8];
            &&& after.len() == picture.len()
            &&& !covers(glyphs, offset_x, offset_y, fade, x, y) ==> is_same(picture, after, pw, x, y)
            &&& white && covers_fully(glyphs, offset_x, offset_y, fade, x, y) ==> is_white(
                after,
                pw,
                x,
                y,
            )
            &&& white && is_white(picture, pw, x, y) ==> is_white(after, pw, x, y)
        }),
    decreases glyphs.len(),
{
    if glyphs.len() > 0 {
        let rest = glyphs.drop_last();
        let last = glyphs.last();
        lemma_text_line(picture, pw, rest, offset_x, offset_y, color, fade, x, y);
        let middle = with_text(picture, pw, rest, offset_x, offset_y, color, fade);
        let px = last.x + offset_x;
        let py = last.y + offset_y;
        let a = fade[last.a as int];
        lemma_text_pixel(middle, pw, px, py, color, a, x, y);
        let i = (y * pw + x) * 4;
        lemma_pixel_at(x, y, pw, 0);
        lemma_white_stays(a as int);
        lemma_full_cover(middle[i] as int);
        lemma_full_cover(middle[i + 1] as int);
        lemma_full_cover(middle[i + 2] as int);
        lemma_full_cover(middle[i + 3] as int);
        assert(color@.len() == 3);
        if covers(rest, offset_x, offset_y, fade, x, y) {
            let k = choose|k: int|
                0 <= k < rest.len() && (#[trigger] rest[k]).x + offset_x == x && rest[k].y
                    + offset_y == y && fade[rest[k].a as int] != 0;
            assert(glyphs[k] == rest[k]);
        }
        if px == x && py == y && a != 0 {
            assert(glyphs[glyphs.len() - 1] == last);
            assert(covers(glyphs, offset_x, offset_y, fade, x, y));
        }
        if covers_fully(glyphs, offset_x, offset_y, fade, x, y) {
            let k = choose|k: int|
                0 <= k < glyphs.len() && (#[trigger] glyphs[k]).x + offset_x == x && glyphs[k].y
                    + offset_y == y && fade[glyphs[k].a as int] == 255;
            if k < rest.len() {
                assert(rest[k] == glyphs[k]);
                assert(covers_fully(rest, offset_x, offset_y, fade, x, y));
            }
        }
    }
}

} // verus!
