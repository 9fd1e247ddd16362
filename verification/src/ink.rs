//! The model of drawing: premultiplied pixels, stencils, and laying ink over a picture.
use vstd::prelude::*;

verus! {

/// A colour to lay over a pixel, with its opacity. The colour is not premultiplied.
#[derive(Clone, Copy, Debug, PartialEq, Eq)]
pub struct Ink {
    pub r: u8,
    pub g: u8,
    pub b: u8,
    pub a: u8,
}

/// One channel of a source with opacity `a` over a premultiplied destination channel.
pub open spec fn over(source: u8, a: u8, dest: u8) -> u8 {
    (source as int * a as int / 255 + dest as int * (255 - a) / 255) as u8
}

/// The source value of a channel; the fourth, the opacity itself, is full.
pub open spec fn channel(ink: Ink, c: int) -> u8 {
    if c == 0 {
        ink.r
    } else if c == 1 {
        ink.g
    } else if c == 2 {
        ink.b
    } else {
        255
    }
}

/// The column of the pixel that byte `j` of a picture `pw` pixels wide belongs to.
pub open spec fn column(j: int, pw: int) -> int {
    (j / 4) % pw
}

/// The row of the pixel that byte `j` of a picture `pw` pixels wide belongs to.
pub open spec fn row(j: int, pw: int) -> int {
    (j / 4) / pw
}

/// Whether all four bytes of the pixel that byte `j` belongs to are there.
pub open spec fn whole(len: int, j: int) -> bool {
    j / 4 * 4 + 3 < len
}

/// A byte of a picture after ink has been laid on it through a stencil.
pub open spec fn inked_byte(
    picture: Seq<u8>,
    pw: int,
    stencil: spec_fn(int, int) -> Option<Ink>,
    j: int,
) -> u8 {
    if pw > 0 && whole(picture.len() as int, j) {
        match stencil(column(j, pw), row(j, pw)) {
            Some(ink) => over(channel(ink, j % 4), ink.a, picture[j]),
            None => picture[j],
        }
    } else {
        picture[j]
    }
}

/// A picture `pw` pixels wide after ink has been laid on it through a stencil. A stencil says
/// which ink each pixel gets, by column and row.
pub open spec fn inked(
    picture: Seq<u8>,
    pw: int,
    stencil: spec_fn(int, int) -> Option<Ink>,
) -> Seq<u8> {
    Seq::new(picture.len(), |j: int| inked_byte(picture, pw, stencil, j))
}

/// A stencil for a single pixel.
pub open spec fn dot(px: int, py: int, ink: Ink) -> spec_fn(int, int) -> Option<Ink> {
    |x: int, y: int|
        if x == px && y == py {
            Some(ink)
        } else {
            None
        }
}

/// A stencil cut down to the pixels before a point, in reading order.
pub open spec fn before(
    stencil: spec_fn(int, int) -> Option<Ink>,
    px: int,
    py: int,
) -> spec_fn(int, int) -> Option<Ink> {
    |x: int, y: int|
        if y < py || (y == py && x < px) {
            stencil(x, y)
        } else {
            None
        }
}

/// Stencils that agree on a picture's pixels give the same picture.
pub proof fn lemma_inked_agree(
    picture: Seq<u8>,
    pw: int,
    first: spec_fn(int, int) -> Option<Ink>,
    second: spec_fn(int, int) -> Option<Ink>,
)
    requires
        forall|x: int, y: int| 0 <= x < pw && 0 <= y ==> #[trigger] first(x, y) == second(x, y),
    ensures
        inked(picture, pw, first) == inked(picture, pw, second),
{
    assert forall|j: int| 0 <= j < picture.len() implies inked(picture, pw, first)[j] == inked(
        picture,
        pw,
        second,
    )[j] by {
        if pw > 0 {
            lemma_pixel_range(j, pw);
            assert(first(column(j, pw), row(j, pw)) == second(column(j, pw), row(j, pw)));
        }
    }
    assert(inked(picture, pw, first) =~= inked(picture, pw, second));
}

/// The pixel of a byte lies inside the picture.
pub proof fn lemma_pixel_range(j: int, pw: int)
    requires
        0 <= j,
        pw > 0,
    ensures
        0 <= column(j, pw) < pw,
        0 <= row(j, pw),
        j / 4 == row(j, pw) * pw + column(j, pw),
{
    let k = j / 4;
    vstd::arithmetic::div_mod::lemma_fundamental_div_mod(k, pw);
    vstd::arithmetic::div_mod::lemma_mod_bound(k, pw);
    vstd::arithmetic::div_mod::lemma_div_pos_is_pos(k, pw);
    assert(pw * (k / pw) == (k / pw) * pw) by (nonlinear_arith);
}

/// The bytes of a pixel are found by its column and row.
pub proof fn lemma_pixel_at(px: int, py: int, pw: int, c: int)
    requires
        0 <= px < pw,
        0 <= py,
        0 <= c < 4,
    ensures
        column((py * pw + px) * 4 + c, pw) == px,
        row((py * pw + px) * 4 + c, pw) == py,
        ((py * pw + px) * 4 + c) / 4 == py * pw + px,
        ((py * pw + px) * 4 + c) % 4 == c,
        0 <= (py * pw + px) * 4,
{
    let k = py * pw + px;
    assert(0 <= py * pw) by (nonlinear_arith)
        requires
            0 <= py,
            0 < pw,
    ;
    vstd::arithmetic::div_mod::lemma_fundamental_div_mod_converse(k, pw, py, px);
}

/// Nothing is drawn before the first pixel.
pub proof fn lemma_before_none(
    picture: Seq<u8>,
    pw: int,
    stencil: spec_fn(int, int) -> Option<Ink>,
    px: int,
    py: int,
)
    requires
        forall|x: int, y: int|
            (y < py || (y == py && x < px)) ==> #[trigger] stencil(x, y) is None,
    ensures
        inked(picture, pw, before(stencil, px, py)) == picture,
{
    assert forall|j: int| 0 <= j < picture.len() implies inked(
        picture,
        pw,
        before(stencil, px, py),
    )[j] == picture[j] by {
        let seen = before(stencil, px, py);
        assert(seen(column(j, pw), row(j, pw)) is None) by {
            let x = column(j, pw);
            let y = row(j, pw);
            if y < py || (y == py && x < px) {
                assert(stencil(x, y) is None);
            }
        }
    }
    assert(inked(picture, pw, before(stencil, px, py)) =~= picture);
}

/// The whole stencil lies before a point that nothing of it comes at or after.
pub proof fn lemma_before_all(
    picture: Seq<u8>,
    pw: int,
    stencil: spec_fn(int, int) -> Option<Ink>,
    px: int,
    py: int,
)
    requires
        forall|x: int, y: int|
            !(y < py || (y == py && x < px)) ==> #[trigger] stencil(x, y) is None,
    ensures
        inked(picture, pw, before(stencil, px, py)) == inked(picture, pw, stencil),
{
    let seen = before(stencil, px, py);
    assert forall|x: int, y: int| 0 <= x < pw && 0 <= y implies #[trigger] seen(x, y) == stencil(
        x,
        y,
    ) by {
        if !(y < py || (y == py && x < px)) {
            assert(stencil(x, y) is None);
        }
    }
    lemma_inked_agree(picture, pw, seen, stencil);
}

/// A row's end and the next row's start cut a stencil at the same place if nothing of it lies in
/// between.
pub proof fn lemma_before_next_row(
    picture: Seq<u8>,
    pw: int,
    stencil: spec_fn(int, int) -> Option<Ink>,
    left: int,
    end: int,
    py: int,
)
    requires
        forall|x: int, y: int| !(left <= x < end) ==> #[trigger] stencil(x, y) is None,
    ensures
        inked(picture, pw, before(stencil, end, py)) == inked(
            picture,
            pw,
            before(stencil, left, py + 1),
        ),
{
    let first = before(stencil, end, py);
    let second = before(stencil, left, py + 1);
    assert forall|x: int, y: int| 0 <= x < pw && 0 <= y implies #[trigger] first(x, y) == second(
        x,
        y,
    ) by {
        if !(left <= x < end) {
            assert(stencil(x, y) is None);
        }
    }
    lemma_inked_agree(picture, pw, first, second);
}

/// Laying the ink of the next pixel of a stencil.
pub proof fn lemma_before_step(
    picture: Seq<u8>,
    pw: int,
    stencil: spec_fn(int, int) -> Option<Ink>,
    px: int,
    py: int,
)
    ensures
        stencil(px, py) is None ==> inked(picture, pw, before(stencil, px + 1, py)) == inked(
            picture,
            pw,
            before(stencil, px, py),
        ),
        stencil(px, py) matches Some(ink) ==> inked(picture, pw, before(stencil, px + 1, py))
            == inked(inked(picture, pw, before(stencil, px, py)), pw, dot(px, py, ink)),
{
    let seen = before(stencil, px, py);
    let next = before(stencil, px + 1, py);
    if stencil(px, py) is None {
        assert forall|x: int, y: int| 0 <= x < pw && 0 <= y implies #[trigger] next(x, y) == seen(
            x,
            y,
        ) by {}
        lemma_inked_agree(picture, pw, next, seen);
    } else {
        let ink = stencil(px, py)->0;
        let middle = inked(picture, pw, seen);
        let point = dot(px, py, ink);
        assert forall|j: int| 0 <= j < picture.len() implies inked(picture, pw, next)[j] == inked(
            middle,
            pw,
            point,
        )[j] by {
            let x = column(j, pw);
            let y = row(j, pw);
            if x == px && y == py {
                assert(seen(x, y) is None);
                assert(middle[j] == picture[j]);
                assert(next(x, y) == Some(ink));
                assert(point(x, y) == Some(ink));
            } else {
                assert(next(x, y) == seen(x, y));
                assert(point(x, y) is None);
                assert(middle[j] == inked(picture, pw, next)[j]);
            }
        }
        assert(inked(picture, pw, next) =~= inked(middle, pw, point));
    }
}

} // verus!
