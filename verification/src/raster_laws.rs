//! Laws of drawing.
use vstd::prelude::*;

use crate::card::{faded, painted, white, with_close_button, with_icon, CardText};
use crate::config::{FIXED_UNITS, SCALE};
use crate::ink::{channel, column, inked, lemma_pixel_at, over, row, whole, Ink};
use crate::layout::{layout, CardLayout};
use crate::raster::{
    circle, copied, cross, icon_circle, in_disc, lemma_over_fits, on_cross, swapped, with_text,
    with_text_pixel, GlyphPixel,
};
use crate::slots::on_close_button;

verus! {

/// Whether the colour channels of every whole pixel are no larger than its opacity.
pub open spec fn premultiplied(picture: Seq<u8>) -> bool {
    forall|j: int|
        0 <= j < picture.len() && whole(picture.len() as int, j) ==> #[trigger] picture[j]
            <= picture[j / 4 * 4 + 3]
}

/// A blended colour channel is no larger than the blended opacity if that held before.
proof fn lemma_over_premultiplied(source: u8, a: u8, dest: u8, alpha: u8)
    requires
        dest <= alpha,
    ensures
        over(source, a, dest) <= over(255, a, alpha),
{
    lemma_over_fits(source, a, dest);
    lemma_over_fits(255, a, alpha);
    assert(source * a <= 255 * a) by (nonlinear_arith)
        requires
            0 <= source <= 255,
            0 <= a,
    ;
    assert(dest * (255 - a) <= alpha * (255 - a)) by (nonlinear_arith)
        requires
            dest <= alpha,
            0 <= 255 - a,
    ;
}

/// The last byte of a pixel lies in the same column and row.
proof fn lemma_alpha_byte(j: int, pw: int)
    requires
        0 <= j,
    ensures
        column(j / 4 * 4 + 3, pw) == column(j, pw),
        row(j / 4 * 4 + 3, pw) == row(j, pw),
        (j / 4 * 4 + 3) % 4 == 3,
        (j / 4 * 4 + 3) / 4 == j / 4,
{
}

/// Laying ink of any kind through any stencil keeps a picture premultiplied, and its size.
pub proof fn law_ink_keeps_premultiplied(
    picture: Seq<u8>,
    pw: int,
    stencil: spec_fn(int, int) -> Option<Ink>,
)
    requires
        premultiplied(picture),
    ensures
        premultiplied(inked(picture, pw, stencil)),
        inked(picture, pw, stencil).len() == picture.len(),
{
    let after = inked(picture, pw, stencil);
    assert forall|j: int| 0 <= j < after.len() && whole(after.len() as int, j) implies
        #[trigger] after[j] <= after[j / 4 * 4 + 3] by {
        let last = j / 4 * 4 + 3;
        lemma_alpha_byte(j, pw);
        assert(picture[j] <= picture[last]);
        if pw > 0 {
            match stencil(column(j, pw), row(j, pw)) {
                Some(ink) => {
                    lemma_over_premultiplied(
                        channel(ink, j % 4),
                        ink.a,
                        picture[j],
                        picture[last],
                    );
                },
                None => {},
            }
        }
    }
}

/// Drawing text keeps a picture premultiplied, and its size.
pub proof fn law_text_keeps_premultiplied(
    picture: Seq<u8>,
    pw: int,
    glyphs: Seq<GlyphPixel>,
    offset_x: int,
    offset_y: int,
    color: [u8; 3],
    fade: Seq<u8>,
)
    requires
        premultiplied(picture),
    ensures
        premultiplied(with_text(picture, pw, glyphs, offset_x, offset_y, color, fade)),
        with_text(picture, pw, glyphs, offset_x, offset_y, color, fade).len() == picture.len(),
    decreases glyphs.len(),
{
    if glyphs.len() > 0 {
        law_text_keeps_premultiplied(
            picture,
            pw,
            glyphs.drop_last(),
            offset_x,
            offset_y,
            color,
            fade,
        );
        let middle = with_text(picture, pw, glyphs.drop_last(), offset_x, offset_y, color, fade);
        let last = glyphs.last();
        let a = fade[last.a as int];
        let px = last.x + offset_x;
        let py = last.y + offset_y;
        let after = with_text_pixel(middle, pw, px, py, color, a);
        let i = (py * pw + px) * 4;
        if 0 <= px < pw && 0 <= py && i + 3 < middle.len() && a != 0 {
            lemma_pixel_at(px, py, pw, 0);
            assert forall|j: int| 0 <= j < after.len() && whole(after.len() as int, j) implies
                #[trigger] after[j] <= after[j / 4 * 4 + 3] by {
                assert(middle[j] <= middle[j / 4 * 4 + 3]);
                if i <= j < i + 4 {
                    assert(j / 4 * 4 == i);
                } else {
                    assert(j / 4 * 4 != i);
                    assert(after[j] == middle[j]);
                    assert(after[j / 4 * 4 + 3] == middle[j / 4 * 4 + 3]);
                }
            }
        }
    }
}

/// Copying a premultiplied picture to a canvas that it covers, or that was premultiplied before,
/// makes the canvas premultiplied.
proof fn lemma_copy_premultiplied(canvas: Seq<u8>, card: Seq<u8>)
    requires
        premultiplied(card),
        canvas.len() <= card.len() || premultiplied(canvas),
    ensures
        premultiplied(copied(canvas, card)),
{
    let after = copied(canvas, card);
    assert forall|j: int| 0 <= j < after.len() && whole(after.len() as int, j) implies
        #[trigger] after[j] <= after[j / 4 * 4 + 3] by {
        lemma_alpha_byte(j, 1);
        let last = j / 4 * 4 + 3;
        if whole(card.len() as int, j) {
            let from = j / 4 * 4 + swapped(j % 4);
            assert(card[from] <= card[from / 4 * 4 + 3]);
            assert(from / 4 == j / 4);
        } else {
            assert(canvas[j] <= canvas[last]);
        }
    }
}

/// A card painted on a premultiplied background is premultiplied, and so is the canvas it is
/// copied to if the card covers it or it was before.
pub proof fn law_card_is_premultiplied(
    background: Seq<u8>,
    l: CardLayout,
    color: Seq<u8>,
    icon_rgba: Option<Seq<u8>>,
    fade: Seq<u8>,
    show_close: bool,
    text: CardText,
    canvas: Seq<u8>,
)
    requires
        premultiplied(background),
        canvas.len() <= background.len() || premultiplied(canvas),
    ensures
        ({
            let card = painted(background, l, color, icon_rgba, fade, show_close, text);
            &&& card.len() == background.len()
            &&& premultiplied(card)
            &&& premultiplied(copied(canvas, card))
        }),
{
    let w = l.width as int;
    let half = l.icon_size as int / 2;
    let left = l.text_left as int;
    let with_symbol = with_icon(background, l, color, icon_rgba, fade);
    match icon_rgba {
        Some(rgba) => {
            law_ink_keeps_premultiplied(
                background,
                w,
                icon_circle(l.icon_x as int, l.icon_y as int, l.icon_size as int, rgba, fade),
            );
        },
        None => {
            law_ink_keeps_premultiplied(
                background,
                w,
                circle(l.icon_x + half, l.icon_y + half, half, faded(color, fade)),
            );
        },
    }
    let c = l.close_center as int;
    let disc = circle(c, c, l.close_radius as int, seq![0, 0, 0, fade[210]]);
    law_ink_keeps_premultiplied(with_symbol, w, disc);
    law_ink_keeps_premultiplied(
        inked(with_symbol, w, disc),
        w,
        cross(
            c,
            c,
            l.cross_arm as int,
            l.cross_thickness as int,
            l.cross_unit as int,
            fade[255],
        ),
    );
    let with_button = if show_close {
        with_close_button(with_symbol, l, fade)
    } else {
        with_symbol
    };
    let ink = white();
    let row1 = l.row1_y as int;
    let now_x = l.now_x as int;
    law_text_keeps_premultiplied(with_button, w, text.app@, left, row1, ink, fade);
    let first = with_text(with_button, w, text.app@, left, row1, ink, fade);
    law_text_keeps_premultiplied(first, w, text.now@, now_x, row1, ink, fade);
    let second = with_text(first, w, text.now@, now_x, row1, ink, fade);
    law_text_keeps_premultiplied(second, w, text.summary@, left, l.row2_y as int, ink, fade);
    let third = with_text(second, w, text.summary@, left, l.row2_y as int, ink, fade);
    law_text_keeps_premultiplied(third, w, text.body@, left, l.row3_y as int, ink, fade);
    let card = painted(background, l, color, icon_rgba, fade, show_close, text);
    lemma_copy_premultiplied(canvas, card);
}

/// Ink without opacity leaves a channel as it is, and fully opaque ink replaces it.
pub proof fn law_opacity_extremes(source: u8, dest: u8)
    ensures
        over(source, 0, dest) == dest,
        over(source, 255, dest) == source,
{
    assert(dest * 255 / 255 == dest) by (nonlinear_arith);
    assert(source * 255 / 255 == source) by (nonlinear_arith);
    assert(source * 0 == 0) by (nonlinear_arith);
    assert(dest * 0 == 0) by (nonlinear_arith);
}

/// Ink without opacity, of whatever colour and through whatever stencil, changes nothing.
proof fn lemma_clear_ink(
    picture: Seq<u8>,
    pw: int,
    stencil: spec_fn(int, int) -> Option<Ink>,
)
    requires
        forall|x: int, y: int| (#[trigger] stencil(x, y)) matches Some(ink) ==> ink.a == 0,
    ensures
        inked(picture, pw, stencil) == picture,
{
    let after = inked(picture, pw, stencil);
    assert forall|j: int| 0 <= j < picture.len() implies after[j] == picture[j] by {
        match stencil(column(j, pw), row(j, pw)) {
            Some(ink) => {
                law_opacity_extremes(channel(ink, j % 4), picture[j]);
            },
            None => {},
        }
    }
    assert(after =~= picture);
}

/// Text that has faded away changes nothing.
proof fn lemma_clear_text(
    picture: Seq<u8>,
    pw: int,
    glyphs: Seq<GlyphPixel>,
    offset_x: int,
    offset_y: int,
    color: [u8; 3],
    fade: Seq<u8>,
)
    requires
        forall|a: int| 0 <= a < 256 ==> #[trigger] fade[a] == 0,
    ensures
        with_text(picture, pw, glyphs, offset_x, offset_y, color, fade) == picture,
    decreases glyphs.len(),
{
    if glyphs.len() > 0 {
        lemma_clear_text(picture, pw, glyphs.drop_last(), offset_x, offset_y, color, fade);
        assert(fade[glyphs.last().a as int] == 0);
    }
}

/// A card that has faded away is invisible: its icon, its close button, and its text leave the
/// background as it is, and a canvas shows the background alone. On a transparent background the
/// canvas that it covers is transparent.
pub proof fn law_faded_out_card_is_invisible(
    background: Seq<u8>,
    l: CardLayout,
    color: Seq<u8>,
    icon_rgba: Option<Seq<u8>>,
    fade: Seq<u8>,
    show_close: bool,
    text: CardText,
    canvas: Seq<u8>,
)
    requires
        fade.len() == 256,
        forall|a: int| 0 <= a < 256 ==> #[trigger] fade[a] == 0,
    ensures
        painted(background, l, color, icon_rgba, fade, show_close, text) == background,
        copied(canvas, painted(background, l, color, icon_rgba, fade, show_close, text)) == copied(
            canvas,
            background,
        ),
        canvas.len() <= background.len() && canvas.len() % 4 == 0 && (forall|j: int|
            0 <= j < background.len() ==> #[trigger] background[j] == 0) ==> copied(
            canvas,
            painted(background, l, color, icon_rgba, fade, show_close, text),
        ) == Seq::new(canvas.len(), |j: int| 0u8),
{
    let w = l.width as int;
    let half = l.icon_size as int / 2;
    let left = l.text_left as int;
    match icon_rgba {
        Some(rgba) => {
            let stencil = icon_circle(
                l.icon_x as int,
                l.icon_y as int,
                l.icon_size as int,
                rgba,
                fade,
            );
            lemma_clear_ink(background, w, stencil);
        },
        None => {
            assert(fade[color[3] as int] == 0);
            let shown = faded(color, fade);
            lemma_clear_ink(background, w, circle(l.icon_x + half, l.icon_y + half, half, shown));
        },
    }
    let c = l.close_center as int;
    assert(fade[210] == 0);
    assert(fade[255] == 0);
    lemma_clear_ink(background, w, circle(c, c, l.close_radius as int, seq![0, 0, 0, fade[210]]));
    let strokes = cross(
        c,
        c,
        l.cross_arm as int,
        l.cross_thickness as int,
        l.cross_unit as int,
        fade[255],
    );
    lemma_clear_ink(background, w, strokes);
    let row1 = l.row1_y as int;
    let ink = white();
    lemma_clear_text(background, w, text.app@, left, row1, ink, fade);
    lemma_clear_text(background, w, text.now@, l.now_x as int, row1, ink, fade);
    lemma_clear_text(background, w, text.summary@, left, l.row2_y as int, ink, fade);
    lemma_clear_text(background, w, text.body@, left, l.row3_y as int, ink, fade);
    let card = painted(background, l, color, icon_rgba, fade, show_close, text);
    assert(card == background);
    if canvas.len() <= background.len() && canvas.len() % 4 == 0 && (forall|j: int|
        0 <= j < background.len() ==> #[trigger] background[j] == 0) {
        assert(copied(canvas, card) =~= Seq::new(canvas.len(), |j: int| 0u8));
    }
}

/// Blending never lowers an opacity.
proof fn lemma_over_raises(a: u8, dest: u8)
    ensures
        over(255, a, dest) >= dest,
{
    lemma_over_fits(255, a, dest);
    assert(dest * (255 - a) >= 255 * (dest - a)) by (nonlinear_arith)
        requires
            0 <= dest <= 255,
            0 <= a,
    ;
}

/// Laying ink never lowers the opacity of a pixel.
pub proof fn law_ink_never_lowers_opacity(
    picture: Seq<u8>,
    pw: int,
    stencil: spec_fn(int, int) -> Option<Ink>,
)
    ensures
        forall|j: int|
            0 <= j < picture.len() && j % 4 == 3 ==> #[trigger] inked(picture, pw, stencil)[j]
                >= picture[j],
{
    assert forall|j: int| 0 <= j < picture.len() && j % 4 == 3 implies #[trigger] inked(
        picture,
        pw,
        stencil,
    )[j] >= picture[j] by {
        match stencil(column(j, pw), row(j, pw)) {
            Some(ink) => {
                lemma_over_raises(ink.a, picture[j]);
            },
            None => {},
        }
    }
}

/// Drawing text never lowers the opacity of a pixel.
pub proof fn law_text_never_lowers_opacity(
    picture: Seq<u8>,
    pw: int,
    glyphs: Seq<GlyphPixel>,
    offset_x: int,
    offset_y: int,
    color: [u8; 3],
    fade: Seq<u8>,
)
    ensures
        with_text(picture, pw, glyphs, offset_x, offset_y, color, fade).len() == picture.len(),
        forall|j: int|
            0 <= j < picture.len() && j % 4 == 3 ==> #[trigger] with_text(
                picture,
                pw,
                glyphs,
                offset_x,
                offset_y,
                color,
                fade,
            )[j] >= picture[j],
    decreases glyphs.len(),
{
    if glyphs.len() > 0 {
        let rest = glyphs.drop_last();
        law_text_never_lowers_opacity(picture, pw, rest, offset_x, offset_y, color, fade);
        let middle = with_text(picture, pw, rest, offset_x, offset_y, color, fade);
        let last = glyphs.last();
        let px = last.x + offset_x;
        let py = last.y + offset_y;
        let after = with_text_pixel(middle, pw, px, py, color, fade[last.a as int]);
        let i = (py * pw + px) * 4;
        assert forall|j: int| 0 <= j < picture.len() && j % 4 == 3 implies #[trigger] after[j]
            >= picture[j] by {
            lemma_over_raises(fade[last.a as int], middle[j]);
            assert(middle[j] >= picture[j]);
            if 0 <= px < pw && 0 <= py {
                lemma_pixel_at(px, py, pw, 0);
            }
        }
    }
}

/// Exchanging red and blue twice gives the pixels back.
pub proof fn law_swap_twice(picture: Seq<u8>, canvas: Seq<u8>, back: Seq<u8>)
    requires
        canvas.len() == picture.len(),
        back.len() == picture.len(),
        picture.len() % 4 == 0,
    ensures
        copied(back, copied(canvas, picture)) == picture,
{
    let twice = copied(back, copied(canvas, picture));
    assert forall|j: int| 0 <= j < picture.len() implies twice[j] == picture[j] by {
        assert(whole(picture.len() as int, j));
        let from = j / 4 * 4 + swapped(j % 4);
        assert(from / 4 == j / 4);
        assert(whole(picture.len() as int, from));
    }
    assert(twice =~= picture);
}

/// Every pixel of the close button, its disc and its cross, lies in the square where a press
/// counts as one on it.
pub proof fn law_close_button_is_pressable(x: int, y: int)
    requires
        ({
            let l = layout();
            let dx = x - l.close_center;
            let dy = y - l.close_center;
            ||| in_disc(dx, dy, l.close_radius as int)
            ||| on_cross(
                dx,
                dy,
                l.cross_arm as int,
                l.cross_thickness as int,
                l.cross_unit as int,
            )
        }),
    ensures
        x >= 0,
        y >= 0,
        on_close_button(
            Some(((x * FIXED_UNITS / (SCALE as int)) as i32, (y * FIXED_UNITS / (SCALE as int)) as i32)),
        ),
{
}

} // verus!
