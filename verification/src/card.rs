//! What a card looks like.
use vstd::prelude::*;
use vstd::string::*;

use crate::ink::inked;
use crate::layout::{lemma_rectangle_fits, CardLayout};
use crate::raster::{
    addressable, circle, copied, copy_bgra, cross, draw_circle, draw_icon_circle, draw_text_buffer,
    draw_x, icon_circle, icon_ink, in_disc, on_cross, with_text, GlyphPixel,
};
use crate::text::{lowercase, same_text, to_lowercase};

verus! {

/// The colour that stands for an application without an icon, by its name in lower case.
pub open spec fn icon_color_of(lower: Seq<char>) -> Seq<u8> {
    if lower == "discord"@ || lower == "vesktop"@ {
        seq![88, 101, 242, 255]
    } else if lower == "spotify"@ {
        seq![30, 215, 96, 255]
    } else if lower == "firefox"@ || lower == "brave"@ {
        seq![255, 122, 0, 255]
    } else if lower == "telegram"@ {
        seq![42, 171, 238, 255]
    } else if lower == "slack"@ {
        seq![74, 21, 75, 255]
    } else {
        seq![137, 180, 250, 255]
    }
}

/// The colour that stands for an application, by its name in lower case.
pub fn icon_color(lower: &str) -> (color: [u8; 4])
    ensures
        color@ == icon_color_of(lower@),
{
    let color: [u8; 4] = if same_text(lower, "discord") || same_text(lower, "vesktop") {
        [88, 101, 242, 255]
    } else if same_text(lower, "spotify") {
        [30, 215, 96, 255]
    } else if same_text(lower, "firefox") || same_text(lower, "brave") {
        [255, 122, 0, 255]
    } else if same_text(lower, "telegram") {
        [42, 171, 238, 255]
    } else if same_text(lower, "slack") {
        [74, 21, 75, 255]
    } else {
        [137, 180, 250, 255]
    };
    assert(color@ =~= icon_color_of(lower@));
    color
}

/// The colour that stands for an application without an icon, in any spelling of its name.
pub fn app_icon_color(app: &str) -> (color: [u8; 4])
    ensures
        color@ == icon_color_of(lowercase(app@)),
{
    icon_color(to_lowercase(app).as_str())
}

/// The name that a card shows for an application.
pub fn card_title(app: &str) -> (title: &str)
    ensures
        title@ == if app@.len() == 0 {
            "notification"@
        } else {
            app@
        },
{
    if app.is_empty() {
        "notification"
    } else {
        app
    }
}

/// The lines of text of a card, each as the pixels that it covers.
pub struct CardText {
    pub app: Vec<GlyphPixel>,
    pub now: Vec<GlyphPixel>,
    pub summary: Vec<GlyphPixel>,
    pub body: Vec<GlyphPixel>,
}

/// Whether a line of text can be drawn at an offset on a picture `pw` pixels wide.
pub open spec fn line_fits(line: Seq<GlyphPixel>, x: int, y: int, pw: int) -> bool {
    forall|k: int|
        0 <= k < line.len() ==> addressable((#[trigger] line[k]).x + x, line[k].y + y, pw)
}

impl CardText {
    /// Whether every line can be drawn in its place.
    pub open spec fn fits(self, l: CardLayout) -> bool {
        &&& line_fits(self.app@, l.text_left as int, l.row1_y as int, l.width as int)
        &&& line_fits(self.now@, l.now_x as int, l.row1_y as int, l.width as int)
        &&& line_fits(self.summary@, l.text_left as int, l.row2_y as int, l.width as int)
        &&& line_fits(self.body@, l.text_left as int, l.row3_y as int, l.width as int)
    }

    /// Tells whether every line can be drawn in its place.
    pub fn can_draw(&self, l: &CardLayout) -> (able: bool)
        ensures
            able == self.fits(*l),
    {
        can_draw_line(&self.app, l.text_left, l.row1_y, l.width) && can_draw_line(
            &self.now,
            l.now_x,
            l.row1_y,
            l.width,
        ) && can_draw_line(&self.summary, l.text_left, l.row2_y, l.width) && can_draw_line(
            &self.body,
            l.text_left,
            l.row3_y,
            l.width,
        )
    }
}

/// Tells whether a line of text can be drawn at an offset.
fn can_draw_line(line: &Vec<GlyphPixel>, x: i32, y: i32, pw: i32) -> (able: bool)
    ensures
        able == line_fits(line@, x as int, y as int, pw as int),
{
    let mut k: usize = 0;
    while k < line.len()
        invariant
            k <= line.len(),
            forall|j: int|
                0 <= j < k ==> addressable(
                    (#[trigger] line@[j]).x + x,
                    line@[j].y + y,
                    pw as int,
                ),
        decreases line.len() - k,
    {
        let px: i64 = line[k].x as i64 + x as i64;
        let py: i64 = line[k].y as i64 + y as i64;
        let ghost glyph = line@[k as int];
        assert(px == glyph.x + x && py == glyph.y + y);
        if px < i32::MIN as i64 || px > i32::MAX as i64 || py < i32::MIN as i64 || py
            > i32::MAX as i64 {
            assert(!addressable(line@[k as int].x + x, line@[k as int].y + y, pw as int));
            return false;
        }
        if 0 <= px && px < pw as i64 && 0 <= py {
            assert(0 <= py * pw <= 0x8000_0000 * 0x8000_0000) by (nonlinear_arith)
                requires
                    0 <= py <= 0x8000_0000,
                    0 < pw <= 0x8000_0000,
            ;
            if py * pw as i64 + px > (i32::MAX / 4) as i64 {
                assert(!addressable(line@[k as int].x + x, line@[k as int].y + y, pw as int));
                return false;
            }
        }
        k = k + 1;
    }
    true
}

/// White, the colour of a card's text.
pub open spec fn white() -> [u8; 3] {
    [255, 255, 255]
}

/// The colour that a card's background is filled with, faded.
pub fn card_fill(fade: &[u8; 256]) -> (color: [u8; 4])
    ensures
        color@ == seq![22, 22, 38, fade[245]],
{
    let color: [u8; 4] = [22, 22, 38, fade[245]];
    assert(color@ =~= seq![22, 22, 38, fade[245]]);
    color
}

/// A colour with its opacity faded.
pub open spec fn faded(color: Seq<u8>, fade: Seq<u8>) -> Seq<u8> {
    seq![color[0], color[1], color[2], fade[color[3] as int]]
}

/// The bytes of an icon, if there is one.
pub open spec fn icon_bytes(icon_rgba: Option<&[u8]>) -> Option<Seq<u8>> {
    match icon_rgba {
        Some(rgba) => Some(rgba@),
        None => None,
    }
}

/// A card's background with the icon on it, or a disc in the application's colour.
pub open spec fn with_icon(
    picture: Seq<u8>,
    l: CardLayout,
    color: Seq<u8>,
    icon_rgba: Option<Seq<u8>>,
    fade: Seq<u8>,
) -> Seq<u8> {
    let half = l.icon_size as int / 2;
    match icon_rgba {
        Some(rgba) => inked(
            picture,
            l.width as int,
            icon_circle(l.icon_x as int, l.icon_y as int, l.icon_size as int, rgba, fade),
        ),
        None => inked(
            picture,
            l.width as int,
            circle(l.icon_x + half, l.icon_y + half, half, faded(color, fade)),
        ),
    }
}

/// A card with a close button on it: a white cross on a dark disc.
pub open spec fn with_close_button(picture: Seq<u8>, l: CardLayout, fade: Seq<u8>) -> Seq<u8> {
    let c = l.close_center as int;
    let disc = circle(c, c, l.close_radius as int, seq![0, 0, 0, fade[210]]);
    inked(
        inked(picture, l.width as int, disc),
        l.width as int,
        cross(
            c,
            c,
            l.cross_arm as int,
            l.cross_thickness as int,
            l.cross_unit as int,
            fade[255],
        ),
    )
}

/// A card with its lines of text on it, faded.
pub open spec fn with_lines(
    picture: Seq<u8>,
    l: CardLayout,
    fade: Seq<u8>,
    text: CardText,
) -> Seq<u8> {
    let w = l.width as int;
    let left = l.text_left as int;
    let first = with_text(picture, w, text.app@, left, l.row1_y as int, white(), fade);
    let second = with_text(first, w, text.now@, l.now_x as int, l.row1_y as int, white(), fade);
    let third = with_text(second, w, text.summary@, left, l.row2_y as int, white(), fade);
    with_text(third, w, text.body@, left, l.row3_y as int, white(), fade)
}

/// A card of a layout painted on its background.
pub open spec fn painted(
    background: Seq<u8>,
    l: CardLayout,
    color: Seq<u8>,
    icon_rgba: Option<Seq<u8>>,
    fade: Seq<u8>,
    show_close: bool,
    text: CardText,
) -> Seq<u8> {
    let with_symbol = with_icon(background, l, color, icon_rgba, fade);
    let with_button = if show_close {
        with_close_button(with_symbol, l, fade)
    } else {
        with_symbol
    };
    with_lines(with_button, l, fade, text)
}

/// A pixel within reach of the close button's centre can be addressed if the button fits.
proof fn lemma_button_pixel(l: CardLayout, reach: int, dx: int, dy: int)
    requires
        l.button_fits(reach),
        -reach <= dx <= reach,
        -reach <= dy <= reach,
    ensures
        addressable(l.close_center + dx, l.close_center + dy, l.width as int),
{
    lemma_rectangle_fits(
        l.close_center - reach,
        l.close_center - reach,
        l.close_center + reach,
        l.close_center + reach,
        l.width as int,
        l.close_center + dx,
        l.close_center + dy,
    );
}

/// Paints a card of a layout on its background and copies it to a canvas. The application's colour
/// is shown where it has no icon, and `fade` gives the opacity that each opacity is drawn with: that
/// of the icon or the colour, of the close button, and of the text.
pub fn paint_card(
    canvas: &mut [u8],
    picture: &mut [u8],
    l: &CardLayout,
    color: [u8; 4],
    icon_rgba: Option<&[u8]>,
    fade: &[u8; 256],
    show_close: bool,
    text: &CardText,
)
    requires
        l.fits(show_close),
        text.fits(*l),
    ensures
        final(picture)@ == painted(
            old(picture)@,
            *l,
            color@,
            icon_bytes(icon_rgba),
            fade@,
            show_close,
            *text,
        ),
        final(canvas)@ == copied(old(canvas)@, final(picture)@),
{
    let half: i32 = l.icon_size / 2;
    match icon_rgba {
        Some(rgba) => {
            proof {
                assert forall|ix: int, iy: int|
                    (#[trigger] icon_ink(ix, iy, l.icon_size as int, rgba@, fade@)) is Some implies
                    addressable(l.icon_x + ix, l.icon_y + iy, l.width as int) by {
                    lemma_rectangle_fits(
                        l.icon_x as int,
                        l.icon_y as int,
                        l.icon_x + l.icon_size,
                        l.icon_y + l.icon_size,
                        l.width as int,
                        l.icon_x + ix,
                        l.icon_y + iy,
                    );
                }
            }
            draw_icon_circle(picture, l.width, l.icon_x, l.icon_y, l.icon_size, rgba, fade);
        },
        None => {
            let shown: [u8; 4] = [color[0], color[1], color[2], fade[color[3] as usize]];
            proof {
                assert forall|dx: int, dy: int| #[trigger] in_disc(dx, dy, half as int) implies
                    addressable(l.icon_x + half + dx, l.icon_y + half + dy, l.width as int) by {
                    lemma_rectangle_fits(
                        l.icon_x as int,
                        l.icon_y as int,
                        l.icon_x + l.icon_size,
                        l.icon_y + l.icon_size,
                        l.width as int,
                        l.icon_x + half + dx,
                        l.icon_y + half + dy,
                    );
                }
                assert(shown@ =~= faded(color@, fade@));
            }
            draw_circle(picture, l.width, l.icon_x + half, l.icon_y + half, half, shown);
        },
    }
    if show_close {
        let c: i32 = l.close_center;
        let dark: [u8; 4] = [0, 0, 0, fade[210]];
        proof {
            assert forall|dx: int, dy: int| #[trigger]
                in_disc(dx, dy, l.close_radius as int) implies addressable(
                c + dx,
                c + dy,
                l.width as int,
            ) by {
                lemma_button_pixel(*l, l.close_radius as int, dx, dy);
            }
            assert forall|dx: int, dy: int| #[trigger]
                on_cross(
                    dx,
                    dy,
                    l.cross_arm as int,
                    l.cross_thickness as int,
                    l.cross_unit as int,
                ) implies addressable(c + dx, c + dy, l.width as int) by {
                lemma_button_pixel(*l, l.cross_arm as int, dx, dy);
            }
            assert(dark@ =~= seq![0, 0, 0, fade[210]]);
        }
        draw_circle(picture, l.width, c, c, l.close_radius, dark);
        draw_x(
            picture,
            l.width,
            c,
            c,
            l.cross_arm,
            l.cross_thickness,
            l.cross_unit,
            fade[255],
        );
    }
    let ink: [u8; 3] = [255, 255, 255];
    assert(ink =~= white());
    draw_text_buffer(picture, l.width, text.app.as_slice(), l.text_left, l.row1_y, ink, fade);
    draw_text_buffer(picture, l.width, text.now.as_slice(), l.now_x, l.row1_y, ink, fade);
    draw_text_buffer(picture, l.width, text.summary.as_slice(), l.text_left, l.row2_y, ink, fade);
    draw_text_buffer(picture, l.width, text.body.as_slice(), l.text_left, l.row3_y, ink, fade);
    copy_bgra(canvas, picture);
}

/// Renders the card of an application's notification, in a layout, on its background, and copies
/// it to a canvas.
pub fn render_card(
    canvas: &mut [u8],
    picture: &mut [u8],
    l: &CardLayout,
    app: &str,
    icon_rgba: Option<&[u8]>,
    fade: &[u8; 256],
    show_close: bool,
    text: &CardText,
)
    requires
        l.fits(show_close),
        text.fits(*l),
    ensures
        final(picture)@ == painted(
            old(picture)@,
            *l,
            icon_color_of(lowercase(app@)),
            icon_bytes(icon_rgba),
            fade@,
            show_close,
            *text,
        ),
        final(canvas)@ == copied(old(canvas)@, final(picture)@),
{
    let color: [u8; 4] = app_icon_color(app);
    paint_card(canvas, picture, l, color, icon_rgba, fade, show_close, text);
}

} // verus!
