use glass::region::{add_rounded_region, RegionRow};

/// The strips as single-precision arithmetic gives them.
fn floating_point_strips(w: i32, h: i32, r: i32) -> Vec<RegionRow> {
    let (iw, ih, ir) = (w - 8, h - 8, (r - 4).max(1));
    let mut rows = Vec::new();
    for yy in 0..ih {
        let dy = if yy < ir {
            Some(ir - yy)
        } else if yy >= ih - ir {
            Some(yy - (ih - ir))
        } else {
            None
        };
        let (left, right) = match dy {
            Some(dy) => {
                let dy = dy as f32;
                let dx = ((ir * ir) as f32 - dy * dy).max(0.0).sqrt() as i32;
                (ir - dx, iw - ir + dx)
            }
            None => (0, iw),
        };
        if right > left {
            rows.push(RegionRow { x: left + 4, y: yy + 4, width: right - left });
        }
    }
    rows
}

#[test]
fn region_of_a_card() {
    let rows = add_rounded_region(380, 94, 16);
    assert_eq!(rows.len(), 86);
    assert_eq!(rows[0], RegionRow { x: 16, y: 4, width: 348 });
    assert_eq!(rows[1], RegionRow { x: 12, y: 5, width: 356 });
    assert_eq!(rows[12], RegionRow { x: 4, y: 16, width: 372 });
    assert_eq!(rows[40], RegionRow { x: 4, y: 44, width: 372 });
    assert_eq!(rows[74], RegionRow { x: 4, y: 78, width: 372 });
    assert_eq!(rows[85], RegionRow { x: 12, y: 89, width: 356 });
}

#[test]
fn region_stays_inside_the_card() {
    for (w, h, r) in [(380, 94, 16), (100, 60, 40), (50, 50, 1), (30, 200, 25)] {
        let mut last = 3;
        for row in add_rounded_region(w, h, r) {
            assert!(row.x >= 4 && row.width > 0 && row.x + row.width <= w - 4);
            assert!(row.y > last && row.y < h - 4);
            assert_eq!(2 * row.x + row.width, w);
            last = row.y;
        }
    }
}

#[test]
fn small_cards_have_no_region() {
    assert!(add_rounded_region(380, 8, 16).is_empty());
    assert!(add_rounded_region(380, -50, 16).is_empty());
    assert!(add_rounded_region(8, 94, 16).is_empty());
}

#[test]
fn rows_that_the_corners_swallow_are_left_out() {
    // Ten pixels wide inside, with corners of radius twelve: only longer chords leave a strip.
    let rows = add_rounded_region(18, 40, 16);
    assert_eq!(rows[0], RegionRow { x: 8, y: 8, width: 2 });
    assert_eq!(rows[1], RegionRow { x: 7, y: 9, width: 4 });
}

#[test]
fn region_agrees_with_floating_point() {
    for (w, h, r) in [
        (380, 94, 16),
        (380, 94, 0),
        (380, 94, -7),
        (18, 40, 16),
        (64, 20, 30),
        (9000, 9000, 4400),
        (90000, 3000, 46344),
    ] {
        assert_eq!(add_rounded_region(w, h, r), floating_point_strips(w, h, r), "{w} {h} {r}");
    }
}
