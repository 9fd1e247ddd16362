use glass::card::{
    app_icon_color, card_fill, card_title, icon_color, paint_card, render_card, CardText,
};
use glass::layout::{card_layout, own_layout};
use glass::raster::GlyphPixel;

const W: usize = 760;
const H: usize = 188;

fn fade(factor: f32) -> [u8; 256] {
    std::array::from_fn(|a| (a as f32 * factor) as u8)
}

fn no_text() -> CardText {
    CardText { app: Vec::new(), now: Vec::new(), summary: Vec::new(), body: Vec::new() }
}

fn dot() -> Vec<GlyphPixel> {
    vec![GlyphPixel { x: 0, y: 0, a: 255 }]
}

fn pixel(data: &[u8], x: usize, y: usize) -> [u8; 4] {
    let i = (y * W + x) * 4;
    [data[i], data[i + 1], data[i + 2], data[i + 3]]
}

fn render(app: &str, icon: Option<&[u8]>, factor: f32, show_close: bool, text: &CardText) -> Vec<u8> {
    let mut canvas = vec![0u8; W * H * 4];
    let mut picture = vec![0u8; W * H * 4];
    let layout = own_layout();
    assert!(layout.can_draw(show_close) && text.can_draw(&layout));
    render_card(&mut canvas, &mut picture, &layout, app, icon, &fade(factor), show_close, text);
    canvas
}

#[test]
fn applications_have_their_colours() {
    assert_eq!(app_icon_color("discord"), [88, 101, 242, 255]);
    assert_eq!(app_icon_color("vesktop"), [88, 101, 242, 255]);
    assert_eq!(app_icon_color("spotify"), [30, 215, 96, 255]);
    assert_eq!(app_icon_color("firefox"), [255, 122, 0, 255]);
    assert_eq!(app_icon_color("brave"), [255, 122, 0, 255]);
    assert_eq!(app_icon_color("telegram"), [42, 171, 238, 255]);
    assert_eq!(app_icon_color("slack"), [74, 21, 75, 255]);
    assert_eq!(app_icon_color("anything"), [137, 180, 250, 255]);
    assert_eq!(app_icon_color(""), [137, 180, 250, 255]);
}

#[test]
fn colours_go_by_any_spelling() {
    assert_eq!(app_icon_color("Discord"), [88, 101, 242, 255]);
    assert_eq!(app_icon_color("FIREFOX"), [255, 122, 0, 255]);
    // The Kelvin sign is a capital of the letter k.
    assert_eq!(app_icon_color("slac\u{212a}"), [74, 21, 75, 255]);
    assert_eq!(icon_color("Discord"), [137, 180, 250, 255]);
}

#[test]
fn unnamed_applications_have_a_title() {
    assert_eq!(card_title(""), "notification");
    assert_eq!(card_title("Mail"), "Mail");
}

#[test]
fn layout_of_a_card() {
    let l = own_layout();
    assert_eq!(l, card_layout(760, 188));
    assert_eq!((l.width, l.height), (760, 188));
    assert_eq!((l.icon_x, l.icon_y, l.icon_size), (28, 24, 36));
    assert_eq!((l.text_left, l.text_width, l.now_x), (80, 652, 680));
    assert_eq!((l.row1_y, l.row2_y, l.row3_y), (28, 60, 96));
    assert_eq!((l.close_center, l.close_radius), (28, 18));
    assert_eq!((l.cross_arm, l.cross_thickness, l.cross_unit), (8, 2280, 760));
}

#[test]
fn card_without_an_icon_shows_its_colour() {
    let canvas = render("Spotify", None, 1.0, false, &no_text());
    assert_eq!(pixel(&canvas, 46, 42), [96, 215, 30, 255]);
    assert_eq!(pixel(&canvas, 28, 24), [0, 0, 0, 0]);
    assert_eq!(pixel(&canvas, 300, 100), [0, 0, 0, 0]);
}

#[test]
fn colour_fades_with_the_card() {
    let canvas = render("spotify", None, 0.5, false, &no_text());
    // Opacity 127: 96 * 127 / 255 = 47, 215 * 127 / 255 = 107, 30 * 127 / 255 = 14.
    assert_eq!(pixel(&canvas, 46, 42), [47, 107, 14, 127]);
}

#[test]
fn card_shows_its_icon() {
    let icon: Vec<u8> = (0..36 * 36).flat_map(|k| [(k % 36) as u8, (k / 36) as u8, 9, 255]).collect();
    let canvas = render("spotify", Some(&icon), 1.0, false, &no_text());
    assert_eq!(pixel(&canvas, 46, 42), [9, 18, 18, 255]);
    assert_eq!(pixel(&canvas, 38, 50), [9, 26, 10, 255]);
    assert_eq!(pixel(&canvas, 28, 24), [0, 0, 0, 0]);
}

#[test]
fn close_button_is_a_cross_on_a_disc() {
    let canvas = render("x", None, 1.0, true, &no_text());
    assert_eq!(pixel(&canvas, 28, 28), [255, 255, 255, 255]);
    assert_eq!(pixel(&canvas, 20, 20), [255, 255, 255, 255]);
    assert_eq!(pixel(&canvas, 18, 28), [0, 0, 0, 210]);
    assert_eq!(pixel(&canvas, 9, 28), [0, 0, 0, 0]);
    let plain = render("x", None, 1.0, false, &no_text());
    assert_eq!(pixel(&plain, 18, 28), [0, 0, 0, 0]);
}

#[test]
fn close_button_lies_where_presses_count() {
    let with = render("x", None, 1.0, true, &no_text());
    let without = render("x", None, 1.0, false, &no_text());
    for y in 0..H {
        for x in 0..W {
            if pixel(&with, x, y) != pixel(&without, x, y) {
                assert!(x < 60 && y < 60);
            }
        }
    }
}

#[test]
fn lines_of_text_have_their_places() {
    let text = CardText { app: dot(), now: dot(), summary: dot(), body: dot() };
    let canvas = render("x", None, 1.0, false, &text);
    for (x, y) in [(80, 28), (680, 28), (80, 60), (80, 96)] {
        assert_eq!(pixel(&canvas, x, y), [255, 255, 255, 255], "{x} {y}");
    }
    assert_eq!(pixel(&canvas, 81, 28), [0, 0, 0, 0]);
}

#[test]
fn text_is_painted_over_the_close_button() {
    let text = CardText {
        app: vec![GlyphPixel { x: 28 - 80 - 10, y: 0, a: 255 }],
        now: Vec::new(),
        summary: Vec::new(),
        body: Vec::new(),
    };
    let canvas = render("x", None, 1.0, true, &text);
    assert_eq!(pixel(&canvas, 18, 28), [255, 255, 255, 255]);
}

#[test]
fn painted_card_is_premultiplied() {
    let text = CardText {
        app: (0..200).map(|k| GlyphPixel { x: k, y: k % 9, a: k as u8 }).collect(),
        now: dot(),
        summary: dot(),
        body: dot(),
    };
    let icon = vec![200u8; 36 * 36 * 4];
    let canvas = render("x", Some(&icon), 0.7, true, &text);
    assert!(canvas.chunks_exact(4).all(|p| p[0] <= p[3] && p[1] <= p[3] && p[2] <= p[3]));
}

#[test]
fn canvas_is_the_picture_with_red_and_blue_exchanged() {
    let mut canvas = vec![0u8; W * H * 4];
    let mut picture: Vec<u8> = (0..W * H).flat_map(|_| [21u8, 21, 36, 245]).collect();
    let color = [255, 122, 0, 255];
    paint_card(&mut canvas, &mut picture, &own_layout(), color, None, &fade(1.0), false, &no_text());
    assert_eq!(pixel(&picture, 46, 42), [255, 122, 0, 255]);
    assert_eq!(pixel(&canvas, 46, 42), [0, 122, 255, 255]);
    assert_eq!(pixel(&canvas, 700, 180), [36, 21, 21, 245]);
}

#[test]
fn text_must_be_addressable() {
    let far = |x: i32, y: i32| CardText {
        app: vec![GlyphPixel { x, y, a: 1 }],
        now: Vec::new(),
        summary: Vec::new(),
        body: Vec::new(),
    };
    assert!(far(0, 0).can_draw(&own_layout()));
    assert!(far(-500, -500).can_draw(&own_layout()));
    assert!(far(i32::MAX - 80, 0).can_draw(&own_layout()));
    assert!(!far(i32::MAX - 79, 0).can_draw(&own_layout()));
    assert!(!far(0, i32::MAX - 27).can_draw(&own_layout()));
    assert!(far(0, 700_000).can_draw(&own_layout()));
    assert!(!far(0, 710_000).can_draw(&own_layout()));
    assert!(far(700, i32::MAX - 28).can_draw(&own_layout()));
}

#[test]
fn text_fades_with_the_card() {
    let text = CardText { app: dot(), now: dot(), summary: dot(), body: dot() };
    let canvas = render("x", None, 0.5, false, &text);
    for (x, y) in [(80, 28), (680, 28), (80, 60), (80, 96)] {
        assert_eq!(pixel(&canvas, x, y), [127, 127, 127, 127], "{x} {y}");
    }
}

#[test]
fn faded_out_card_is_invisible() {
    let text = CardText { app: dot(), now: dot(), summary: dot(), body: dot() };
    let icon = vec![200u8; 36 * 36 * 4];
    for symbol in [None, Some(&icon[..])] {
        let mut canvas = vec![255u8; W * H * 4];
        let mut picture = vec![0u8; W * H * 4];
        render_card(&mut canvas, &mut picture, &own_layout(), "app", symbol, &fade(0.0), true, &text);
        assert!(canvas.iter().all(|byte| *byte == 0));
        let mut picture = vec![90u8; W * H * 4];
        render_card(&mut canvas, &mut picture, &own_layout(), "app", symbol, &fade(0.0), true, &text);
        assert!(picture.iter().all(|byte| *byte == 90));
    }
}

#[test]
fn background_has_its_fill() {
    assert_eq!(card_fill(&fade(1.0)), [22, 22, 38, 245]);
    assert_eq!(card_fill(&fade(0.5)), [22, 22, 38, 122]);
    assert_eq!(card_fill(&fade(0.0)), [22, 22, 38, 0]);
}

#[test]
fn covered_canvas_is_premultiplied_whatever_it_held() {
    let text = CardText { app: dot(), now: dot(), summary: dot(), body: dot() };
    let mut canvas: Vec<u8> = (0..W * H).flat_map(|_| [255u8, 255, 255, 0]).collect();
    let mut picture = vec![0u8; W * H * 4];
    render_card(&mut canvas, &mut picture, &own_layout(), "app", None, &fade(0.3), true, &text);
    assert!(canvas.chunks_exact(4).all(|p| p[0] <= p[3] && p[1] <= p[3] && p[2] <= p[3]));
}

#[test]
fn layouts_of_other_sizes() {
    let l = card_layout(380, 94);
    assert_eq!((l.width, l.height), (380, 94));
    assert_eq!((l.icon_x, l.icon_y, l.icon_size), (14, 12, 18));
    assert_eq!((l.text_left, l.text_width, l.now_x), (40, 326, 340));
    assert_eq!((l.row1_y, l.row2_y, l.row3_y), (14, 30, 48));
    assert_eq!((l.close_center, l.close_radius, l.cross_arm), (14, 9, 4));
    let l = card_layout(500, 124);
    assert_eq!((l.icon_x, l.icon_y, l.icon_size), (18, 15, 23));
    assert_eq!((l.text_left, l.text_width, l.now_x), (51, 431, 448));
}

#[test]
fn layouts_agree_with_floating_point() {
    for w in (1..3000).chain([10_007, 65_537, 499_999, 1_000_000]) {
        let s = w as f32 / 380.0;
        let part = |logical: f32| (logical * s) as i32;
        let l = card_layout(w, 94);
        assert_eq!((l.icon_x, l.icon_y, l.icon_size), (part(14.0), part(12.0), part(18.0)));
        assert_eq!(l.text_left, part(14.0) + part(18.0) + part(8.0));
        assert_eq!(l.text_width, w - l.text_left - part(14.0));
        assert_eq!(l.now_x, w - part(14.0) - part(26.0));
        assert_eq!(l.row1_y, part(14.0));
        assert_eq!(l.row2_y, part(14.0) + part(16.0));
        assert_eq!(l.row3_y, part(14.0) + part(16.0) + part(18.0));
        assert_eq!((l.close_center, l.close_radius), (part(14.0), part(9.0)));
        assert_eq!(l.cross_arm, part(4.0));
    }
}

#[test]
fn cards_of_ordinary_sizes_can_be_drawn() {
    for w in 1..2000 {
        assert!(card_layout(w, 94).can_draw(true), "{w}");
    }
    assert!(!card_layout(1_000_000, 94).can_draw(false));
    let mut l = own_layout();
    l.icon_x = i32::MAX;
    assert!(!l.can_draw(false));
    let mut l = own_layout();
    l.close_radius = -1;
    assert!(l.can_draw(false));
    assert!(!l.can_draw(true));
}

#[test]
fn small_card_shows_its_icon() {
    let layout = card_layout(380, 94);
    let icon = [255u8, 0, 0, 255].repeat(18 * 18);
    let mut canvas = vec![0u8; 380 * 94 * 4];
    let mut picture = vec![0u8; 380 * 94 * 4];
    let table = fade(1.0);
    assert!(layout.can_draw(false));
    render_card(&mut canvas, &mut picture, &layout, "x", Some(&icon), &table, false, &no_text());
    assert_eq!(canvas[32012..32016].to_vec(), vec![0, 0, 255, 255]);
    let corner = (12 * 380 + 14) * 4;
    assert_eq!(canvas[corner..corner + 4].to_vec(), vec![0, 0, 0, 0]);
}

#[test]
fn small_card_shows_its_parts() {
    let layout = card_layout(380, 94);
    let text = CardText { app: dot(), now: dot(), summary: dot(), body: dot() };
    let mut canvas = vec![0u8; 380 * 94 * 4];
    let mut picture = vec![0u8; 380 * 94 * 4];
    assert!(layout.can_draw(true) && text.can_draw(&layout));
    render_card(&mut canvas, &mut picture, &layout, "slack", None, &fade(1.0), true, &text);
    let at = |x: usize, y: usize| canvas[(y * 380 + x) * 4..][..4].to_vec();
    for (x, y) in [(40, 14), (340, 14), (40, 30), (40, 48), (14, 14)] {
        assert_eq!(at(x, y), vec![255, 255, 255, 255], "{x} {y}");
    }
    assert_eq!(at(8, 14), vec![0, 0, 0, 210]);
    assert_eq!(at(28, 25), vec![75, 21, 74, 255]);
}
