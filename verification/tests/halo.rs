use hyprhalo::colors::WinRectPx;
use hyprhalo::render::{
    clear_rect, fill_wallpaper, glow_boxes, halo_pixel, halo_pixels, put_glow_px, row_mut, union_of_boxes,
    ColumnShade, Rect, RowShade,
};

fn alpha_at(c: &[u8], w: usize, x: usize, y: usize) -> u8 {
    c[y * w * 4 + x * 4 + 3]
}

/// Paint a single-color halo the way the overlay does: falloff
/// `(1 - d²/r²) * intensity`, premultiplied, max-composited.
fn paint_red_halo(c: &mut [u8], w: usize, h: usize, win: &WinRectPx, radius: i32, intensity: f64) {
    let r = radius.max(1) as f64;
    let r2 = r * r;
    for p in halo_pixels(win, radius, w, h) {
        let alpha = (1.0 - p.dd as f64 / r2) * intensity;
        if alpha <= 0.0 || alpha >= 0.98 {
            continue;
        }
        let a = (alpha * 255.0) as u8;
        let pr = (1.0f32 * alpha as f32 * 255.0) as u8;
        put_glow_px(c, w, p.x, p.y, a, pr, 0, 0);
    }
}

/// The halo must be one continuous blob: a pixel in the corner region
/// (diagonal, distance < radius from the window corner) has to be lit, and
/// a pixel beyond the radius must stay clear.
#[test]
fn glow_fills_corners_continuously() {
    let w = 60usize;
    let h = 40usize;
    let mut c = vec![0u8; w * h * 4];
    let win = WinRectPx { x: 20, y: 12, w: 20, h: 16 };
    paint_red_halo(&mut c, w, h, &win, 8, 0.8);

    // Diagonal corner pixel: 4px out horizontally and vertically.
    let corner_x = (win.x + win.w as i32 + 4) as usize;
    let corner_y = (win.y - 4) as usize;
    assert!(alpha_at(&c, w, corner_x, corner_y) > 0, "corner pixel must be lit");

    // Far away from the window: nothing drawn.
    assert_eq!(alpha_at(&c, w, 2, 2), 0, "far pixel must stay clear");
    // Just outside the radius: nothing drawn.
    let far_x = (win.x + win.w as i32 + 9) as usize;
    assert_eq!(alpha_at(&c, w, far_x, (win.y + win.h as i32 / 2) as usize), 0);
}

#[test]
fn halo_never_paints_inside_window() {
    let w = 60usize;
    let h = 40usize;
    let mut c = vec![0u8; w * h * 4];
    let win = WinRectPx { x: 20, y: 12, w: 20, h: 16 };
    paint_red_halo(&mut c, w, h, &win, 8, 0.8);
    for y in 12..28 {
        for x in 20..40 {
            assert_eq!(alpha_at(&c, w, x, y), 0, "pixel ({x},{y}) inside the window");
        }
    }
    // right next to the left edge the halo is strongest
    assert!(alpha_at(&c, w, 19, 20) > 150);
}

#[test]
fn halo_pixel_distances_and_ring_positions() {
    let win = WinRectPx { x: 20, y: 12, w: 20, h: 16 };
    // inside the window: nothing
    assert_eq!(halo_pixel(&win, 8, 25, 15), None);
    // beyond the radius: nothing
    assert_eq!(halo_pixel(&win, 8, 49, 20), None);
    // above the top edge: position along the top edge
    assert_eq!(halo_pixel(&win, 8, 25, 10), Some((4, 5)));
    // right of the right edge: position w + (y - y0)
    assert_eq!(halo_pixel(&win, 8, 42, 20), Some((4, 20 + 8)));
    // below the bottom edge: position w + h + (x1 - x)
    assert_eq!(halo_pixel(&win, 8, 30, 30), Some((4, 20 + 16 + 10)));
    // left of the left edge: position 2w + h + (y1 - y)
    assert_eq!(halo_pixel(&win, 8, 17, 20), Some((9, 40 + 16 + 8)));
    // diagonal corner: 4 and 4 out, distance² 32, tie goes to the top edge
    assert_eq!(halo_pixel(&win, 8, 44, 8), Some((32, 20)));
    // the coordinate x1 itself counts as distance 0 but not as inside
    assert_eq!(halo_pixel(&win, 8, 40, 5), Some((49, 20)));
}

#[test]
fn halo_pixels_scan_in_row_major_order() {
    let win = WinRectPx { x: 2, y: 2, w: 2, h: 2 };
    let px = halo_pixels(&win, 2, 10, 10);
    for pair in px.windows(2) {
        assert!(pair[0].y < pair[1].y || (pair[0].y == pair[1].y && pair[0].x < pair[1].x));
    }
    // every pixel within distance² < 4 of the 2x2 window, window excluded
    let mut expected = 0;
    for y in 0..10i32 {
        for x in 0..10i32 {
            if halo_pixel(&win, 2, x, y).is_some() {
                expected += 1;
                assert!(px.iter().any(|p| p.x == x && p.y == y));
            }
        }
    }
    assert_eq!(px.len(), expected);
    // columns 2..=4 above and below (the column x1 = 4 measures distance 0),
    // rows 2..=4 left and right, and the 4 diagonal pixels (dd = 2)
    assert_eq!(expected, 6 + 6 + 4);
}

#[test]
fn halo_pixels_cut_to_canvas() {
    let win = WinRectPx { x: 0, y: 0, w: 4, h: 4 };
    let px = halo_pixels(&win, 3, 6, 6);
    assert!(px.iter().all(|p| p.x >= 0 && p.x < 6 && p.y >= 0 && p.y < 6));
    assert!(!px.is_empty());
    let none = halo_pixels(&WinRectPx { x: 100, y: 100, w: 4, h: 4 }, 3, 5, 5);
    assert!(none.is_empty());
}

#[test]
fn put_glow_keeps_the_brighter_pixel() {
    let w = 4usize;
    let mut c = vec![0u8; w * 2 * 4];
    put_glow_px(&mut c, w, 1, 1, 100, 10, 20, 30);
    let i = (w + 1) * 4;
    assert_eq!(&c[i..i + 4], &[30, 20, 10, 100]);
    // dimmer: ignored
    put_glow_px(&mut c, w, 1, 1, 50, 1, 1, 1);
    assert_eq!(&c[i..i + 4], &[30, 20, 10, 100]);
    // equal alpha: ignored
    put_glow_px(&mut c, w, 1, 1, 100, 1, 1, 1);
    assert_eq!(&c[i..i + 4], &[30, 20, 10, 100]);
    // brighter: replaces
    put_glow_px(&mut c, w, 1, 1, 200, 7, 8, 9);
    assert_eq!(&c[i..i + 4], &[9, 8, 7, 200]);
    // faint alpha: skipped
    put_glow_px(&mut c, w, 0, 0, 5, 1, 1, 1);
    assert_eq!(&c[0..4], &[0, 0, 0, 0]);
    // column past the row: skipped
    let before = c.clone();
    put_glow_px(&mut c, w, 4, 0, 255, 1, 1, 1);
    assert_eq!(c, before);
}

#[test]
fn bounding_of_optional_boxes() {
    let a = Rect { x0: 0, y0: 5, x1: 10, y1: 8 };
    let b = Rect { x0: -3, y0: 6, x1: 4, y1: 20 };
    assert_eq!(Rect::bounding(Some(a), Some(b)), Some(Rect { x0: -3, y0: 5, x1: 10, y1: 20 }));
    assert_eq!(Rect::bounding(Some(a), None), Some(a));
    assert_eq!(Rect::bounding(None, Some(b)), Some(b));
    assert_eq!(Rect::bounding(None, None), None);
    // commutes
    assert_eq!(Rect::bounding(Some(b), Some(a)), Rect::bounding(Some(a), Some(b)));
}

#[test]
fn glow_boxes_surround_the_window() {
    let win = WinRectPx { x: 20, y: 12, w: 20, h: 16 };
    let boxes = glow_boxes(&win, 8, 2);
    assert_eq!(boxes[0], Rect { x0: 20, y0: 4, x1: 40, y1: 12 });
    assert_eq!(boxes[1], Rect { x0: 40, y0: 12, x1: 48, y1: 28 });
    assert_eq!(boxes[2], Rect { x0: 20, y0: 28, x1: 40, y1: 36 });
    assert_eq!(boxes[3], Rect { x0: 12, y0: 12, x1: 20, y1: 28 });
    // the window's own pixels are in none of them
    for b in &boxes {
        for y in 12..28 {
            for x in 20..40 {
                assert!(!(b.x0 <= x && x < b.x1 && b.y0 <= y && y < b.y1));
            }
        }
    }
    assert_eq!(union_of_boxes(&boxes), Some(Rect { x0: 12, y0: 4, x1: 48, y1: 36 }));
}

#[test]
fn row_ranges_are_clamped() {
    // 3 pixels wide, 2 full rows and a partial one
    assert_eq!(row_mut(30, 3, 0), (0, 12));
    assert_eq!(row_mut(30, 3, 1), (12, 24));
    assert_eq!(row_mut(30, 3, 2), (12, 24));
    assert_eq!(row_mut(30, 3, -5), (0, 12));
    assert_eq!(row_mut(30, 0, 1), (0, 0));
    // a canvas shorter than one row: the whole canvas
    assert_eq!(row_mut(8, 3, 0), (0, 8));
}

#[test]
fn clear_rect_zeroes_only_the_box() {
    let w = 4usize;
    let h = 3usize;
    let mut c = vec![7u8; w * h * 4];
    clear_rect(&mut c, w, &Rect { x0: 1, y0: 1, x1: 3, y1: 2 });
    for y in 0..h {
        for x in 0..w {
            let inside = (1..3).contains(&x) && y == 1;
            for k in 0..4 {
                assert_eq!(c[(y * w + x) * 4 + k], if inside { 0 } else { 7 });
            }
        }
    }
}

#[test]
fn clear_rect_clamps_to_the_canvas() {
    let w = 2usize;
    let mut c = vec![9u8; w * 2 * 4];
    // negative corner, columns and rows past the end: only row 1 is on the canvas
    clear_rect(&mut c, w, &Rect { x0: -5, y0: 1, x1: 10, y1: 6 });
    assert!(c[0..8].iter().all(|&b| b == 9));
    assert!(c[8..16].iter().all(|&b| b == 0));
    // an empty box changes nothing
    let mut d = vec![9u8; 16];
    clear_rect(&mut d, w, &Rect { x0: 1, y0: 1, x1: 1, y1: 2 });
    assert!(d.iter().all(|&b| b == 9));
}

#[test]
fn clear_rect_below_the_canvas_changes_nothing() {
    let mut c = vec![0xFFu8; 16];
    clear_rect(&mut c, 2, &Rect { x0: 0, y0: 5, x1: 2, y1: 7 });
    assert_eq!(c, vec![0xFFu8; 16]);
    // right of the canvas: nothing either
    clear_rect(&mut c, 2, &Rect { x0: 2, y0: 0, x1: 9, y1: 2 });
    assert_eq!(c, vec![0xFFu8; 16]);
}

#[test]
fn clear_rect_on_a_canvas_shorter_than_a_row() {
    // the short canvas is row 0: the rectangle's bytes present are zeroed
    let mut c = vec![0xFFu8; 4];
    clear_rect(&mut c, 2, &Rect { x0: 0, y0: 0, x1: 1, y1: 1 });
    assert_eq!(c, vec![0u8; 4]);
    let mut short = vec![0xFFu8; 6];
    clear_rect(&mut short, 2, &Rect { x0: 1, y0: 0, x1: 2, y1: 3 });
    assert_eq!(short, vec![0xFF, 0xFF, 0xFF, 0xFF, 0, 0]);
    // a rectangle below row 0 leaves it alone
    let mut below = vec![0xFFu8; 6];
    clear_rect(&mut below, 2, &Rect { x0: 0, y0: 1, x1: 2, y1: 3 });
    assert_eq!(below, vec![0xFFu8; 6]);
}

#[test]
fn wallpaper_pixels_mix_rows_and_columns() {
    let cols = vec![
        ColumnShade { r: 200, g: 0, b: 0, vig: 255 },
        ColumnShade { r: 0, g: 100, b: 0, vig: 128 },
    ];
    let rows = vec![RowShade { r: 0, g: 0, b: 255, vig: 255 }];
    let mut c = vec![1u8; 2 * 1 * 4 + 4];
    fill_wallpaper(&mut c, 2, 1, &cols, &rows, 51);
    // pixel 0: r = (0*204 + 200*51)>>8 = 39, g = 0, b = (255*204)>>8 = 203,
    // vig = (255*255>>8)+1 = 255, channel = (v*255)>>8
    assert_eq!(&c[0..4], &[202, 0, 38, 255]);
    // pixel 1: g = (100*51)>>8 = 19, b = 203, vig = (128*255>>8)+1 = 128
    assert_eq!(&c[4..8], &[101, 9, 0, 255]);
    // bytes past the image stay untouched
    assert_eq!(&c[8..12], &[1, 1, 1, 1]);
}

#[test]
fn bounding_laws_on_values() {
    let a = Some(Rect { x0: 0, y0: 0, x1: 2, y1: 2 });
    let b = Some(Rect { x0: 5, y0: -1, x1: 6, y1: 1 });
    let c = Some(Rect { x0: -3, y0: 4, x1: 1, y1: 9 });
    // identity
    assert_eq!(Rect::bounding(a, None), a);
    assert_eq!(Rect::bounding(None, a), a);
    // associativity
    assert_eq!(
        Rect::bounding(Rect::bounding(a, b), c),
        Rect::bounding(a, Rect::bounding(b, c))
    );
    // the bounding box holds every point of both boxes
    let all = Rect::bounding(Rect::bounding(a, b), c).unwrap();
    assert_eq!(all, Rect { x0: -3, y0: -1, x1: 6, y1: 9 });
    for r in [a, b, c].iter().flatten() {
        assert!(all.x0 <= r.x0 && r.x1 <= all.x1 && all.y0 <= r.y0 && r.y1 <= all.y1);
    }
}

#[test]
fn glow_boxes_touch_the_window_edges() {
    let win = WinRectPx { x: 3, y: 4, w: 10, h: 6 };
    let b = glow_boxes(&win, 5, 0);
    assert_eq!(b[0].y1, win.y);
    assert_eq!(b[1].x0, win.x + win.w as i32);
    assert_eq!(b[2].y0, win.y + win.h as i32);
    assert_eq!(b[3].x1, win.x);
    // each reaches `radius` outward
    assert_eq!(b[0].y1 - b[0].y0, 5);
    assert_eq!(b[1].x1 - b[1].x0, 5);
    assert_eq!(b[2].y1 - b[2].y0, 5);
    assert_eq!(b[3].x1 - b[3].x0, 5);
}

#[test]
fn halo_ring_positions_lie_on_the_perimeter() {
    let win = WinRectPx { x: 20, y: 12, w: 20, h: 16 };
    let perimeter = 2 * 20 + 2 * 16;
    for p in halo_pixels(&win, 8, 60, 40) {
        assert!(p.p >= 0 && p.p <= perimeter, "position {} at ({}, {})", p.p, p.x, p.y);
        assert!(p.dd > 0 && p.dd < 64);
    }
}
