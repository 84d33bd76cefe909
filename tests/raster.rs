use rustbrush::{
    target_px_in_bounds, Brush, BrushBaseSettings, CanvasPos, Color, PaintOperation,
    SmudgeOperation,
};

fn brush(inner_radius: u32, radius: u32, spacing: u32, strength: u8) -> Brush {
    Brush::SoftCircle { inner_radius, base: BrushBaseSettings { radius, spacing, strength } }
}

fn alpha(buf: &[u8], width: usize, x: usize, y: usize) -> u8 {
    buf[(y * width + x) * 4 + 3]
}

fn paint(width: u32, height: u32, brush: Brush, color: Color, from: (i32, i32), to: (i32, i32), erase: bool) -> PaintOperation {
    PaintOperation {
        canvas_width: width,
        canvas_height: height,
        brush,
        color,
        cursor_position: CanvasPos::new(to.0, to.1),
        last_cursor_position: CanvasPos::new(from.0, from.1),
        is_eraser: erase,
    }
}

#[test]
fn single_click_is_opaque_at_the_centre() {
    let mut buf = vec![0u8; 21 * 21 * 4];
    paint(21, 21, Brush::default(), Color::white(), (10, 10), (10, 10), false).process(&mut buf);
    let i = (10 * 21 + 10) * 4;
    assert_eq!(&buf[i..i + 4], &[255, 255, 255, 255]);
    assert_eq!(alpha(&buf, 21, 18, 10), 56);
    assert_eq!(alpha(&buf, 21, 19, 10), 17);
    assert_eq!(alpha(&buf, 21, 20, 10), 0);
    assert_eq!(alpha(&buf, 21, 0, 0), 0);
}

#[test]
fn paint_law_on_transparent_pixel() {
    let mut buf = vec![0u8; 5 * 5 * 4];
    let color = Color::new(200, 100, 50, 128);
    paint(5, 5, brush(0, 1, 100, 255), color, (2, 2), (2, 2), false).process(&mut buf);
    // two dabs at the same centre: the biased blend twice
    let i = (2 * 5 + 2) * 4;
    assert_eq!(&buf[i..i + 4], &[175, 87, 43, 191]);
}

#[test]
fn fully_transparent_paint_changes_nothing() {
    let mut buf = vec![0u8; 5 * 5 * 4];
    buf[(2 * 5 + 2) * 4] = 77;
    let before = buf.clone();
    paint(5, 5, brush(0, 2, 100, 255), Color::new(255, 0, 0, 0), (2, 2), (2, 2), false)
        .process(&mut buf);
    assert_eq!(buf, before);
}

#[test]
fn stamps_off_the_canvas_are_skipped() {
    let mut buf = vec![0u8; 4 * 4 * 4];
    paint(4, 4, brush(0, 2, 100, 255), Color::white(), (-50, -50), (-50, -50), false)
        .process(&mut buf);
    assert!(buf.iter().all(|b| *b == 0));
    paint(4, 4, brush(0, 1, 100, 255), Color::white(), (0, 0), (0, 0), false).process(&mut buf);
    assert_eq!(alpha(&buf, 4, 0, 0), 255);
}

#[test]
fn a_drag_leaves_no_gaps() {
    let mut buf = vec![0u8; 21 * 11 * 4];
    paint(21, 11, brush(1, 2, 100, 255), Color::black(), (0, 5), (20, 5), false)
        .process(&mut buf);
    for x in 0..21 {
        assert_eq!(alpha(&buf, 21, x, 5), 255);
    }
    assert_eq!(alpha(&buf, 21, 10, 0), 0);
}

#[test]
fn erase_lowers_alpha_and_keeps_colour() {
    let mut buf = vec![0u8; 5 * 5 * 4];
    paint(5, 5, brush(1, 2, 100, 255), Color::new(10, 20, 30, 255), (2, 2), (2, 2), false)
        .process(&mut buf);
    let before = buf.clone();
    paint(5, 5, brush(0, 1, 100, 128), Color::white(), (2, 2), (2, 2), true).process(&mut buf);
    let i = (2 * 5 + 2) * 4;
    // 255 * (255 - 128) / 255 = 127, then 127 * 127 / 255 = 63
    assert_eq!(&buf[i..i + 4], &[10, 20, 30, 63]);
    for j in 0..buf.len() {
        if j % 4 == 3 {
            assert!(buf[j] <= before[j]);
        } else {
            assert_eq!(buf[j], before[j]);
        }
    }
    paint(5, 5, brush(0, 1, 100, 255), Color::white(), (2, 2), (2, 2), true).process(&mut buf);
    assert_eq!(alpha(&buf, 5, 2, 2), 0);
}

fn smudge(width: u32, height: u32, brush: Brush, from: (i32, i32), to: (i32, i32), strength: u8) -> SmudgeOperation {
    SmudgeOperation {
        pixel_buffer_width: width,
        pixel_buffer_height: height,
        brush,
        cursor_position: CanvasPos::new(to.0, to.1),
        last_cursor_position: CanvasPos::new(from.0, from.1),
        smudge_strength: strength,
    }
}

fn striped(width: usize, height: usize) -> Vec<u8> {
    let mut buf = vec![0u8; width * height * 4];
    for y in 0..height {
        for x in 0..width {
            let i = (y * width + x) * 4;
            buf[i] = (x * 40) as u8;
            buf[i + 3] = 255;
        }
    }
    buf
}

#[test]
fn smudge_at_zero_strength_is_identity() {
    let mut buf = striped(6, 6);
    let before = buf.clone();
    smudge(6, 6, brush(0, 2, 100, 255), (1, 3), (4, 3), 0).process(&mut buf);
    assert_eq!(buf, before);
}

#[test]
fn smudge_pulls_from_behind_the_motion() {
    let mut buf = striped(6, 1);
    smudge(6, 1, brush(0, 1, 100, 255), (2, 0), (3, 0), 255).process(&mut buf);
    // dabs at x = 2 then x = 3; the stamp centre has full weight, so each
    // centre takes the value of its left neighbour
    assert_eq!(buf[2 * 4], 40);
    assert_eq!(buf[3 * 4], 40);
    assert_eq!(buf[4 * 4], 160);
}

#[test]
fn smudge_of_a_click_changes_nothing() {
    let mut buf = striped(6, 6);
    let before = buf.clone();
    smudge(6, 6, brush(1, 3, 100, 255), (2, 2), (2, 2), 255).process(&mut buf);
    assert_eq!(buf, before);
}

#[test]
fn bounds_test() {
    assert!(target_px_in_bounds((0, 0), 4, 3));
    assert!(target_px_in_bounds((3, 2), 4, 3));
    assert!(!target_px_in_bounds((4, 2), 4, 3));
    assert!(!target_px_in_bounds((0, 3), 4, 3));
    assert!(!target_px_in_bounds((-1, 0), 4, 3));
    assert!(!target_px_in_bounds((0, 0), 0, 0));
}
