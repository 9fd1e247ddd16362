//! Where the parts of a card stand.
use vstd::prelude::*;

use crate::config::{HEIGHT, ICON_LOGICAL, SCALE, WIDTH};
use crate::raster::{
    addressable, clear_of_edge, edge_square, is_sharp_stroke, lemma_edge_square_grows, sharp_stroke,
    stroke_thickness,
};

verus! {

/// Where the parts of a card stand, in buffer pixels.
#[derive(Clone, Copy, Debug, PartialEq, Eq)]
pub struct CardLayout {
    pub width: i32,
    pub height: i32,
    pub icon_x: i32,
    pub icon_y: i32,
    pub icon_size: i32,
    pub text_left: i32,
    pub text_width: i32,
    pub now_x: i32,
    pub row1_y: i32,
    pub row2_y: i32,
    pub row3_y: i32,
    /// Both coordinates of the close button's centre.
    pub close_center: i32,
    pub close_radius: i32,
    pub cross_arm: i32,
    /// The thickness of a stroke of the close button's cross, in `cross_unit`ths of a pixel.
    pub cross_thickness: i32,
    pub cross_unit: i32,
}

/// The widest card whose layout single precision gives in whole pixels without error. No picture
/// that wide can be addressed.
pub const MAX_WIDTH: i32 = 1_000_000;

/// A length in logical pixels on a card that is `width` buffer pixels wide, in whole buffer pixels.
pub open spec fn scaled(logical: int, width: int) -> int {
    logical * width / (WIDTH as int)
}

/// The layout of a card of a size in buffer pixels: an icon and a name in the first row, the age of
/// the notification at its right end, then the summary and the body, with a margin of 14 logical
/// pixels to the left and right. The strokes of the close button's cross are one and a half
/// logical pixels thick.
pub open spec fn layout_of(width: int, height: int) -> CardLayout {
    let icon_x = scaled(14, width);
    let icon_size = scaled(ICON_LOGICAL as int, width);
    let text_left = icon_x + icon_size + scaled(8, width);
    let row1_y = scaled(14, width);
    let row2_y = row1_y + scaled(16, width);
    CardLayout {
        width: width as i32,
        height: height as i32,
        icon_x: icon_x as i32,
        icon_y: scaled(12, width) as i32,
        icon_size: icon_size as i32,
        text_left: text_left as i32,
        text_width: (width - text_left - scaled(14, width)) as i32,
        now_x: (width - scaled(14, width) - scaled(26, width)) as i32,
        row1_y: row1_y as i32,
        row2_y: row2_y as i32,
        row3_y: (row2_y + scaled(18, width)) as i32,
        close_center: scaled(14, width) as i32,
        close_radius: scaled(9, width) as i32,
        cross_arm: scaled(4, width) as i32,
        cross_thickness: (3 * width) as i32,
        cross_unit: (2 * WIDTH) as i32,
    }
}

/// The layout of the daemon's own cards, at its buffer scale.
pub open spec fn layout() -> CardLayout {
    layout_of(WIDTH * SCALE, HEIGHT * SCALE)
}

/// A length in logical pixels, in whole buffer pixels.
fn scaled_length(logical: i32, width: i32) -> (length: i32)
    requires
        0 <= logical <= 26,
        0 < width <= MAX_WIDTH,
    ensures
        length == scaled(logical as int, width as int),
        0 <= length <= 26 * MAX_WIDTH / 380,
{
    assert(0 <= logical * width <= 26 * 1_000_000) by (nonlinear_arith)
        requires
            0 <= logical <= 26,
            0 < width <= 1_000_000,
    ;
    logical * width / WIDTH as i32
}

/// The layout of a card of a size in buffer pixels.
pub fn card_layout(width: i32, height: i32) -> (result: CardLayout)
    requires
        0 < width <= MAX_WIDTH,
    ensures
        result == layout_of(width as int, height as int),
{
    let icon_x: i32 = scaled_length(14, width);
    let icon_size: i32 = scaled_length(ICON_LOGICAL as i32, width);
    let text_left: i32 = icon_x + icon_size + scaled_length(8, width);
    let row1_y: i32 = scaled_length(14, width);
    let row2_y: i32 = row1_y + scaled_length(16, width);
    CardLayout {
        width,
        height,
        icon_x,
        icon_y: scaled_length(12, width),
        icon_size,
        text_left,
        text_width: width - text_left - scaled_length(14, width),
        now_x: width - scaled_length(14, width) - scaled_length(26, width),
        row1_y,
        row2_y,
        row3_y: row2_y + scaled_length(18, width),
        close_center: scaled_length(14, width),
        close_radius: scaled_length(9, width),
        cross_arm: scaled_length(4, width),
        cross_thickness: 3 * width,
        cross_unit: 2 * WIDTH as i32,
    }
}

/// Whether every pixel of a rectangle can be addressed in a picture `pw` pixels wide.
pub open spec fn rectangle_fits(left: int, top: int, right: int, bottom: int, pw: int) -> bool {
    &&& i32::MIN <= left
    &&& right <= i32::MAX
    &&& i32::MIN <= top
    &&& bottom <= i32::MAX
    &&& bottom >= 0 ==> (bottom * pw + pw - 1) * 4 <= i32::MAX
}

/// The pixels of a rectangle that fits can be addressed.
pub proof fn lemma_rectangle_fits(
    left: int,
    top: int,
    right: int,
    bottom: int,
    pw: int,
    x: int,
    y: int,
)
    requires
        rectangle_fits(left, top, right, bottom, pw),
        left <= x <= right,
        top <= y <= bottom,
    ensures
        addressable(x, y, pw),
{
    if 0 <= x < pw && 0 <= y {
        assert(y * pw <= bottom * pw) by (nonlinear_arith)
            requires
                y <= bottom,
                0 < pw,
        ;
    }
}

/// Tells whether every pixel of a rectangle can be addressed.
fn can_address(left: i64, top: i64, right: i64, bottom: i64, pw: i32) -> (able: bool)
    requires
        -0x1_0000_0000 <= bottom <= 0x1_0000_0000,
        0 < pw,
    ensures
        able == rectangle_fits(left as int, top as int, right as int, bottom as int, pw as int),
{
    if left < i32::MIN as i64 || right > i32::MAX as i64 || top < i32::MIN as i64 || bottom
        > i32::MAX as i64 {
        return false;
    }
    if bottom < 0 {
        return true;
    }
    assert(0 <= bottom * pw <= 0x8000_0000 * 0x8000_0000) by (nonlinear_arith)
        requires
            0 <= bottom <= 0x8000_0000,
            0 < pw <= 0x8000_0000,
    ;
    bottom * pw as i64 + pw as i64 - 1 <= (i32::MAX / 4) as i64
}

impl CardLayout {
    /// Whether an icon can be drawn in its place.
    pub open spec fn icon_fits(self) -> bool {
        &&& 0 < self.width
        &&& 0 <= self.icon_size <= 23170
        &&& rectangle_fits(
            self.icon_x as int,
            self.icon_y as int,
            self.icon_x + self.icon_size,
            self.icon_y + self.icon_size,
            self.width as int,
        )
    }

    /// Whether a disc or a cross around the close button's centre reaches only pixels that can be
    /// addressed.
    pub open spec fn button_fits(self, reach: int) -> bool {
        rectangle_fits(
            self.close_center - reach,
            self.close_center - reach,
            self.close_center + reach,
            self.close_center + reach,
            self.width as int,
        )
    }

    /// Whether a close button can be drawn in its place, and single precision gives the strokes of
    /// its cross without error.
    pub open spec fn close_fits(self) -> bool {
        &&& 0 < self.width
        &&& 0 <= self.close_radius <= 32767
        &&& self.button_fits(self.close_radius as int)
        &&& 0 <= self.cross_arm <= 0x3fff_ffff
        &&& self.button_fits(self.cross_arm as int)
        &&& 0 < self.cross_unit
        &&& sharp_stroke(self.cross_thickness as int, self.cross_unit as int)
    }

    /// Whether a card can be drawn, with or without a close button.
    pub open spec fn fits(self, show_close: bool) -> bool {
        self.icon_fits() && (show_close ==> self.close_fits())
    }

    /// Tells whether a disc or a cross around the close button's centre reaches only pixels that
    /// can be addressed.
    fn can_reach(&self, reach: i32) -> (able: bool)
        requires
            0 < self.width,
            0 <= reach,
        ensures
            able == self.button_fits(reach as int),
    {
        let low: i64 = self.close_center as i64 - reach as i64;
        let high: i64 = self.close_center as i64 + reach as i64;
        can_address(low, low, high, high, self.width)
    }

    /// Tells whether a card can be drawn, with or without a close button.
    pub fn can_draw(&self, show_close: bool) -> (able: bool)
        ensures
            able == self.fits(show_close),
    {
        if self.width <= 0 || self.icon_size < 0 || self.icon_size > 23170 {
            return false;
        }
        let right: i64 = self.icon_x as i64 + self.icon_size as i64;
        let bottom: i64 = self.icon_y as i64 + self.icon_size as i64;
        if !can_address(self.icon_x as i64, self.icon_y as i64, right, bottom, self.width) {
            return false;
        }
        if !show_close {
            return true;
        }
        if self.close_radius < 0 || self.close_radius > 32767 || self.cross_arm < 0 || self.cross_arm
            > 0x3fff_ffff || self.cross_unit <= 0 {
            return false;
        }
        self.can_reach(self.close_radius) && self.can_reach(self.cross_arm) && is_sharp_stroke(
            self.cross_thickness,
            self.cross_unit,
        )
    }
}

/// The strokes of a cross are sharp on the daemon's own cards: the third pixel from a diagonal is
/// well beside them, and the second well on them.
proof fn lemma_own_strokes()
    ensures
        sharp_stroke(2280, 760),
{
    assert forall|k: int| #[trigger] clear_of_edge(k, 2280, 760) by {
        assert(stroke_thickness(2280, 760) * stroke_thickness(2280, 760) == 5198400)
            by (nonlinear_arith);
        if -2 <= k <= 2 {
            assert(edge_square(k, 760) <= 4620800) by (nonlinear_arith)
                requires
                    -2 <= k <= 2,
            ;
        } else {
            lemma_edge_square_grows(3, k, 760);
            assert(edge_square(3, 760) == 10396800) by (nonlinear_arith);
        }
    }
}

/// The layout of the daemon's own cards. They can be drawn, with a close button and without.
pub fn own_layout() -> (result: CardLayout)
    ensures
        result == layout(),
        result.fits(true),
        result.fits(false),
{
    proof {
        lemma_own_strokes();
    }
    card_layout(WIDTH as i32 * SCALE, HEIGHT as i32 * SCALE)
}

} // verus!
