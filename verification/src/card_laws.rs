//! Laws of cards, over the calls: their layout, their colours, and what a painted card shows.
use vstd::prelude::*;
use vstd::string::*;

use crate::card::{
    app_icon_color, card_fill, card_title, icon_bytes, icon_color, paint_card, render_card, white,
    with_close_button, with_icon, with_lines, CardText,
};
use crate::draw_laws::{
    covers, covers_fully, has_pixel, is_same, is_white, lemma_text_line,
};
use crate::icon::{decode_outcome, icon_side, load_icon, path_format, resize_outcome, rgba8_of};
use crate::ink::lemma_pixel_at;
use crate::layout::{card_layout, own_layout, CardLayout};
use crate::raster::{
    copy_bgra, draw_circle, draw_icon_circle, draw_text_buffer, draw_x, sharp_stroke, with_text,
    GlyphPixel,
};
use crate::text::lowercase;

verus! {

/// Whether a length on a card of a width is a number of logical pixels, of which a card has 380 from
/// side to side, cut down to whole pixels.
pub open spec fn is_scaled(length: int, logical: int, width: int) -> bool {
    length * 380 <= logical * width < (length + 1) * 380
}

/// Where the parts of a card stand: everything is in logical pixels, 380 to the card's width.
pub proof fn law_card_layout(width: i32, height: i32, l: CardLayout)
    requires
        0 < width <= 1_000_000,
        call_ensures(card_layout, (width, height), l),
    ensures
        l.width == width,
        l.height == height,
        is_scaled(l.icon_x as int, 14, width as int),
        is_scaled(l.icon_y as int, 12, width as int),
        is_scaled(l.icon_size as int, 18, width as int),
        is_scaled(l.text_left - l.icon_x - l.icon_size, 8, width as int),
        is_scaled(width - l.text_left - l.text_width, 14, width as int),
        is_scaled(width - l.icon_x - l.now_x, 26, width as int),
        is_scaled(l.row1_y as int, 14, width as int),
        is_scaled(l.row2_y - l.row1_y, 16, width as int),
        is_scaled(l.row3_y - l.row2_y, 18, width as int),
        is_scaled(l.close_center as int, 14, width as int),
        is_scaled(l.close_radius as int, 9, width as int),
        is_scaled(l.cross_arm as int, 4, width as int),
        l.cross_thickness == 3 * width,
        l.cross_unit == 760,
{
}

/// The daemon's own cards are twice as large as their logical size.
pub proof fn law_own_layout(own: CardLayout, same: CardLayout)
    requires
        call_ensures(own_layout, (), own),
        call_ensures(card_layout, (760, 188), same),
    ensures
        own == same,
{
}

/// Whether the pixels of a rectangle can all be addressed in a picture of a width.
pub open spec fn all_addressable(left: int, top: int, right: int, bottom: int, pw: int) -> bool {
    &&& left >= -0x8000_0000
    &&& top >= -0x8000_0000
    &&& right <= 0x7fff_ffff
    &&& bottom <= 0x7fff_ffff
    &&& bottom < 0 || 4 * (bottom * pw + (pw - 1)) <= 0x7fff_ffff
}

/// A card can be drawn exactly if its icon, and its close button if it shows one, lie within what
/// can be addressed, and the button's strokes are sharp.
pub proof fn law_can_draw_card(l: &CardLayout, show_close: bool, able: bool)
    requires
        call_ensures(CardLayout::can_draw, (l, show_close), able),
    ensures
        able <==> {
            let w = l.width as int;
            let c = l.close_center as int;
            let radius = l.close_radius as int;
            let arm = l.cross_arm as int;
            &&& w > 0
            &&& 0 <= l.icon_size <= 23170
            &&& all_addressable(
                l.icon_x as int,
                l.icon_y as int,
                l.icon_x + l.icon_size,
                l.icon_y + l.icon_size,
                w,
            )
            &&& !show_close || {
                &&& 0 <= radius <= 32767
                &&& 0 <= arm <= 0x3fff_ffff
                &&& l.cross_unit > 0
                &&& all_addressable(c - radius, c - radius, c + radius, c + radius, w)
                &&& all_addressable(c - arm, c - arm, c + arm, c + arm, w)
                &&& sharp_stroke(l.cross_thickness as int, l.cross_unit as int)
            }
        },
{
}

/// Whether every pixel of a line can be addressed.
pub open spec fn line_addressable(line: Seq<GlyphPixel>, x: int, y: int, pw: int) -> bool {
    forall|k: int|
        0 <= k < line.len() ==> {
            let px = (#[trigger] line[k]).x + x;
            let py = line[k].y + y;
            &&& -0x8000_0000 <= px <= 0x7fff_ffff
            &&& -0x8000_0000 <= py <= 0x7fff_ffff
            &&& 0 <= px < pw && 0 <= py ==> (py * pw + px) * 4 <= 0x7fff_ffff
        }
}

/// The text of a card can be drawn exactly if all its pixels can be addressed.
pub proof fn law_can_draw_text(text: &CardText, l: &CardLayout, able: bool)
    requires
        call_ensures(CardText::can_draw, (text, l), able),
    ensures
        able <==> {
            let w = l.width as int;
            &&& line_addressable(text.app@, l.text_left as int, l.row1_y as int, w)
            &&& line_addressable(text.now@, l.now_x as int, l.row1_y as int, w)
            &&& line_addressable(text.summary@, l.text_left as int, l.row2_y as int, w)
            &&& line_addressable(text.body@, l.text_left as int, l.row3_y as int, w)
        },
{
}

/// Seven applications have colours of their own, and all others one of theirs.
pub proof fn law_icon_color(lower: &str, color: [u8; 4])
    requires
        call_ensures(icon_color, (lower,), color),
    ensures
        lower@ == "discord"@ ==> color@ == seq![88u8, 101u8, 242u8, 255u8],
        lower@ == "vesktop"@ ==> color@ == seq![88u8, 101u8, 242u8, 255u8],
        lower@ == "spotify"@ ==> color@ == seq![30u8, 215u8, 96u8, 255u8],
        lower@ == "firefox"@ ==> color@ == seq![255u8, 122u8, 0u8, 255u8],
        lower@ == "brave"@ ==> color@ == seq![255u8, 122u8, 0u8, 255u8],
        lower@ == "telegram"@ ==> color@ == seq![42u8, 171u8, 238u8, 255u8],
        lower@ == "slack"@ ==> color@ == seq![74u8, 21u8, 75u8, 255u8],
        lower@ != "discord"@ && lower@ != "vesktop"@ && lower@ != "spotify"@ && lower@
            != "firefox"@ && lower@ != "brave"@ && lower@ != "telegram"@ && lower@ != "slack"@
            ==> color@ == seq![137u8, 180u8, 250u8, 255u8],
{
    reveal_strlit("discord");
    reveal_strlit("vesktop");
    reveal_strlit("spotify");
    reveal_strlit("firefox");
    reveal_strlit("brave");
    reveal_strlit("telegram");
    reveal_strlit("slack");
    assert("vesktop"@[0] == 'v' && "discord"@[0] == 'd' && "spotify"@[1] == 'p' && "firefox"@[0]
        == 'f' && "brave"@[0] == 'b' && "telegram"@[0] == 't' && "slack"@[1] == 'l');
}

/// An application's colour is that of its name in lower case.
pub proof fn law_app_icon_color(app: &str, color: [u8; 4], lower: &str, same: [u8; 4])
    requires
        call_ensures(app_icon_color, (app,), color),
        call_ensures(icon_color, (lower,), same),
        lower@ == lowercase(app@),
    ensures
        color@ == same@,
{
}

/// A card is titled by its application's name, and only an empty one is made up for.
pub proof fn law_card_title(app: &str, title: &str)
    requires
        call_ensures(card_title, (app,), title),
    ensures
        app@.len() > 0 ==> title@ == app@,
        app@.len() == 0 ==> title@ == "notification"@,
{
}

/// The background is filled with its colour, faded.
pub proof fn law_card_fill(fade: &[u8; 256], color: [u8; 4])
    requires
        call_ensures(card_fill, (fade,), color),
    ensures
        color@[0] == 22,
        color@[1] == 22,
        color@[2] == 38,
        color@[3] == fade@[245],
{
}

/// An icon file is decoded in the format of its path, scaled to a square of 36 pixels, and turned to
/// RGBA. There is none only if the path has no format or decoding had no image.
pub proof fn law_load_icon(path: &str, data: &[u8], icon: Option<Vec<u8>>)
    requires
        call_ensures(load_icon, (path, data), icon),
    ensures
        icon matches Some(pixels) ==> {
            &&& path_format(path@) is Some
            &&& pixels@.len() == 36 * 36 * 4
            &&& exists|content: Seq<u8>, resized: Seq<u8>|
                {
                    &&& decode_outcome(data@, path_format(path@)->0, Some(content))
                    &&& #[trigger] resize_outcome(content, 36, 36, resized)
                    &&& pixels@ == rgba8_of(resized)
                }
        },
        icon is None ==> (path_format(path@) matches Some(format) ==> decode_outcome(
            data@,
            format,
            None,
        )),
{
    if let Some(pixels) = icon {
        let format = path_format(path@)->0;
        assert(icon_side() as u32 == 36);
        let (content, resized) = choose|content: Seq<u8>, resized: Seq<u8>|
            {
                &&& decode_outcome(data@, format, Some(content))
                &&& #[trigger] resize_outcome(
                    content,
                    icon_side() as u32,
                    icon_side() as u32,
                    resized,
                )
                &&& pixels@ == rgba8_of(resized)
            };
        assert(resize_outcome(content, 36, 36, resized));
    }
}

/// A card is painted in this order: the icon, or a disc in the application's colour where there is
/// none; the close button, if it is shown, as a dark disc with a white cross; and the application's
/// name, the age, the summary, and the body, in white, each in its place. The canvas gets the
/// result.
pub proof fn law_paint_card(
    canvas: &mut [u8],
    picture: &mut [u8],
    l: &CardLayout,
    color: [u8; 4],
    icon_rgba: Option<&[u8]>,
    fade: &[u8; 256],
    show_close: bool,
    text: &CardText,
    symbol: &mut [u8],
    shown: [u8; 4],
    button: &mut [u8],
    dark: [u8; 4],
    strokes: &mut [u8],
    app: &mut [u8],
    now: &mut [u8],
    summary: &mut [u8],
    body: &mut [u8],
    lines: (&[GlyphPixel], &[GlyphPixel], &[GlyphPixel], &[GlyphPixel]),
    ink: [u8; 3],
    screen: &mut [u8],
    painted_picture: &[u8],
)
    requires
        call_ensures(
            paint_card,
            (canvas, picture, l, color, icon_rgba, fade, show_close, text),
            (),
        ),
        0 <= l.icon_size,
        old(symbol)@ == old(picture)@,
        icon_rgba matches Some(rgba) ==> call_ensures(
            draw_icon_circle,
            (symbol, l.width, l.icon_x, l.icon_y, l.icon_size, rgba, fade),
            (),
        ),
        shown@ == seq![color@[0], color@[1], color@[2], fade@[color@[3] as int]],
        icon_rgba is None ==> call_ensures(
            draw_circle,
            (
                symbol,
                l.width,
                (l.icon_x + l.icon_size as int / 2) as i32,
                (l.icon_y + l.icon_size as int / 2) as i32,
                (l.icon_size as int / 2) as i32,
                shown,
            ),
            (),
        ),
        icon_rgba is None ==> i32::MIN <= l.icon_x + l.icon_size as int / 2 <= i32::MAX
            && i32::MIN <= l.icon_y + l.icon_size as int / 2 <= i32::MAX,
        old(button)@ == final(symbol)@,
        dark@ == seq![0u8, 0u8, 0u8, fade@[210]],
        call_ensures(
            draw_circle,
            (button, l.width, l.close_center, l.close_center, l.close_radius, dark),
            (),
        ),
        old(strokes)@ == final(button)@,
        call_ensures(
            draw_x,
            (
                strokes,
                l.width,
                l.close_center,
                l.close_center,
                l.cross_arm,
                l.cross_thickness,
                l.cross_unit,
                fade@[255],
            ),
            (),
        ),
        old(app)@ == if show_close {
            final(strokes)@
        } else {
            final(symbol)@
        },
        lines.0@ == text.app@,
        lines.1@ == text.now@,
        lines.2@ == text.summary@,
        lines.3@ == text.body@,
        ink@ == seq![255u8, 255u8, 255u8],
        call_ensures(
            draw_text_buffer,
            (app, l.width, lines.0, l.text_left, l.row1_y, ink, fade),
            (),
        ),
        old(now)@ == final(app)@,
        call_ensures(draw_text_buffer, (now, l.width, lines.1, l.now_x, l.row1_y, ink, fade), ()),
        old(summary)@ == final(now)@,
        call_ensures(
            draw_text_buffer,
            (summary, l.width, lines.2, l.text_left, l.row2_y, ink, fade),
            (),
        ),
        old(body)@ == final(summary)@,
        call_ensures(
            draw_text_buffer,
            (body, l.width, lines.3, l.text_left, l.row3_y, ink, fade),
            (),
        ),
        old(screen)@ == old(canvas)@,
        painted_picture@ == final(body)@,
        call_ensures(copy_bgra, (screen, painted_picture), ()),
    ensures
        final(picture)@ == final(body)@,
        final(canvas)@ == final(screen)@,
{
    assert(white()@ =~= ink@);
    assert(ink =~= white());
}

/// A rendered card is the one that is painted in the application's colour.
pub proof fn law_render_card(
    canvas: &mut [u8],
    picture: &mut [u8],
    l: &CardLayout,
    app: &str,
    icon_rgba: Option<&[u8]>,
    fade: &[u8; 256],
    show_close: bool,
    text: &CardText,
    color: [u8; 4],
    same_canvas: &mut [u8],
    same_picture: &mut [u8],
)
    requires
        call_ensures(
            render_card,
            (canvas, picture, l, app, icon_rgba, fade, show_close, text),
            (),
        ),
        call_ensures(app_icon_color, (app,), color),
        call_ensures(
            paint_card,
            (same_canvas, same_picture, l, color, icon_rgba, fade, show_close, text),
            (),
        ),
        old(same_canvas)@ == old(canvas)@,
        old(same_picture)@ == old(picture)@,
    ensures
        final(picture)@ == final(same_picture)@,
        final(canvas)@ == final(same_canvas)@,
{
}

/// Whether one of the lines of a card covers a pixel fully, in its place.
pub open spec fn text_covers_fully(
    text: CardText,
    l: CardLayout,
    fade: Seq<u8>,
    x: int,
    y: int,
) -> bool {
    ||| covers_fully(text.app@, l.text_left as int, l.row1_y as int, fade, x, y)
    ||| covers_fully(text.now@, l.now_x as int, l.row1_y as int, fade, x, y)
    ||| covers_fully(text.summary@, l.text_left as int, l.row2_y as int, fade, x, y)
    ||| covers_fully(text.body@, l.text_left as int, l.row3_y as int, fade, x, y)
}

/// Whether one of the lines of a card covers a pixel at all, in its place.
pub open spec fn text_covers(text: CardText, l: CardLayout, fade: Seq<u8>, x: int, y: int) -> bool {
    ||| covers(text.app@, l.text_left as int, l.row1_y as int, fade, x, y)
    ||| covers(text.now@, l.now_x as int, l.row1_y as int, fade, x, y)
    ||| covers(text.summary@, l.text_left as int, l.row2_y as int, fade, x, y)
    ||| covers(text.body@, l.text_left as int, l.row3_y as int, fade, x, y)
}

proof fn lemma_lines_on_pixel(
    picture: Seq<u8>,
    l: CardLayout,
    fade: Seq<u8>,
    text: CardText,
    x: int,
    y: int,
)
    requires
        has_pixel(picture.len() as int, l.width as int, x, y),
    ensures
        ({
            let after = with_lines(picture, l, fade, text);
            &&& after.len() == picture.len()
            &&& text_covers_fully(text, l, fade, x, y) ==> is_white(after, l.width as int, x, y)
            &&& !text_covers(text, l, fade, x, y) ==> is_same(
                picture,
                after,
                l.width as int,
                x,
                y,
            )
        }),
{
    let w = l.width as int;
    let left = l.text_left as int;
    let row1 = l.row1_y as int;
    let ink = white();
    assert(ink@ =~= seq![255u8, 255u8, 255u8]);
    let first = with_text(picture, w, text.app@, left, row1, ink, fade);
    lemma_text_line(picture, w, text.app@, left, row1, ink, fade, x, y);
    let second = with_text(first, w, text.now@, l.now_x as int, row1, ink, fade);
    lemma_text_line(first, w, text.now@, l.now_x as int, row1, ink, fade, x, y);
    let row2 = l.row2_y as int;
    let third = with_text(second, w, text.summary@, left, row2, ink, fade);
    lemma_text_line(second, w, text.summary@, left, row2, ink, fade, x, y);
    lemma_text_line(third, w, text.body@, left, l.row3_y as int, ink, fade, x, y);
}

/// Every pixel that one of the four lines covers fully is white and opaque on the painted card,
/// whatever its icon is and whether it shows a close button or not.
pub proof fn law_text_is_shown(
    canvas: &mut [u8],
    picture: &mut [u8],
    l: &CardLayout,
    color: [u8; 4],
    icon_rgba: Option<&[u8]>,
    fade: &[u8; 256],
    show_close: bool,
    text: &CardText,
    x: int,
    y: int,
)
    requires
        call_ensures(
            paint_card,
            (canvas, picture, l, color, icon_rgba, fade, show_close, text),
            (),
        ),
        has_pixel(old(picture)@.len() as int, l.width as int, x, y),
        text_covers_fully(*text, *l, fade@, x, y),
    ensures
        is_white(final(picture)@, l.width as int, x, y),
{
    let symbol = with_icon(old(picture)@, *l, color@, icon_bytes(icon_rgba), fade@);
    let below = if show_close {
        with_close_button(symbol, *l, fade@)
    } else {
        symbol
    };
    assert(below.len() == old(picture)@.len());
    lemma_lines_on_pixel(below, *l, fade@, *text, x, y);
}

/// A pixel that no line covers and that is not close to the icon or to a close button that is shown
/// keeps the background.
pub proof fn law_background_is_kept(
    canvas: &mut [u8],
    picture: &mut [u8],
    l: &CardLayout,
    color: [u8; 4],
    icon_rgba: Option<&[u8]>,
    fade: &[u8; 256],
    show_close: bool,
    text: &CardText,
    x: int,
    y: int,
)
    requires
        call_ensures(
            paint_card,
            (canvas, picture, l, color, icon_rgba, fade, show_close, text),
            (),
        ),
        has_pixel(old(picture)@.len() as int, l.width as int, x, y),
        !text_covers(*text, *l, fade@, x, y),
        0 <= l.icon_size,
        x < l.icon_x || x > l.icon_x + l.icon_size || y < l.icon_y || y > l.icon_y + l.icon_size,
        show_close ==> (x < l.close_center - l.close_radius || x > l.close_center + l.close_radius
            || y < l.close_center - l.close_radius || y > l.close_center + l.close_radius),
        show_close ==> (x < l.close_center - l.cross_arm || x > l.close_center + l.cross_arm || y
            < l.close_center - l.cross_arm || y > l.close_center + l.cross_arm),
    ensures
        is_same(old(picture)@, final(picture)@, l.width as int, x, y),
{
    let w = l.width as int;
    let background = old(picture)@;
    let symbol = with_icon(background, *l, color@, icon_bytes(icon_rgba), fade@);
    lemma_pixel_at(x, y, w, 0);
    lemma_pixel_at(x, y, w, 1);
    lemma_pixel_at(x, y, w, 2);
    lemma_pixel_at(x, y, w, 3);
    assert(is_same(background, symbol, w, x, y));
    let below = if show_close {
        with_close_button(symbol, *l, fade@)
    } else {
        symbol
    };
    assert(is_same(symbol, below, w, x, y));
    lemma_lines_on_pixel(below, *l, fade@, *text, x, y);
}

} // verus!
