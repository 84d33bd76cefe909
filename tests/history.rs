use rustbrush::{
    Brush, BrushBaseSettings, BrushStrokeKind, Canvas, CanvasError, CanvasPos, Color, StrokeError,
    User,
};

fn canvas(width: u32, height: u32) -> Canvas {
    let mut canvas = Canvas::new(width, height);
    canvas.add_named_layer("Background".to_string());
    canvas
}

fn stroke(user: &mut User, canvas: &mut Canvas, kind: BrushStrokeKind, points: &[(i32, i32)], t: u64) {
    user.start_brush_stroke(kind, t);
    for p in points {
        user.cursor_position = CanvasPos::new(p.0, p.1);
        let (layer, kind, frame) = user.continue_brush_stroke(t).unwrap();
        canvas.process_brush_stroke_frame(layer, kind, &frame).unwrap();
        user.last_cursor_position = user.cursor_position;
    }
}

fn small_brush() -> Brush {
    Brush::SoftCircle { inner_radius: 1, base: BrushBaseSettings { radius: 2, spacing: 100, strength: 255 } }
}

fn pixels(canvas: &Canvas) -> Vec<u8> {
    canvas.layers()[0].pixels().clone()
}

#[test]
fn concrete_click_scenario() {
    let mut canvas = Canvas::new(4, 4);
    canvas.add_named_layer("Background".to_string());
    let mut user = User::default();
    user.current_paint_brush = Brush::SoftCircle {
        inner_radius: 0,
        base: BrushBaseSettings { radius: 1, spacing: 100, strength: 255 },
    };
    user.start_brush_stroke(BrushStrokeKind::Paint, 0);
    user.last_cursor_position = CanvasPos::new(2, 2);
    user.cursor_position = CanvasPos::new(2, 2);
    let (layer, kind, frame) = user.continue_brush_stroke(1).unwrap();
    assert_eq!((layer, kind), (0, BrushStrokeKind::Paint));
    canvas.process_brush_stroke_frame(layer, kind, &frame).unwrap();
    let buf = pixels(&canvas);
    let a = |x: usize, y: usize| buf[(y * 4 + x) * 4 + 3];
    assert_eq!(a(2, 2), 255);
    for (x, y) in [(1, 2), (3, 2), (2, 1), (2, 3)] {
        assert!(a(x, y) < a(2, 2));
        // the raised cosine reaches zero at the radius itself
        assert_eq!(a(x, y), 0);
    }
    for (x, y) in [(0, 0), (3, 0), (0, 3), (3, 3)] {
        assert_eq!(a(x, y), 0);
    }
}

#[test]
fn undo_of_the_only_stroke_gives_a_blank_layer() {
    let mut canvas = canvas(8, 8);
    let mut user = User::default();
    user.current_paint_brush = small_brush();
    stroke(&mut user, &mut canvas, BrushStrokeKind::Paint, &[(1, 1), (5, 6)], 1);
    assert!(pixels(&canvas).iter().any(|b| *b != 0));
    assert_eq!(user.undo(&mut canvas), Ok(()));
    assert_eq!(user.current_action_id, 0);
    assert_eq!(pixels(&canvas), vec![0u8; 8 * 8 * 4]);
    assert_eq!(user.action_history.len(), 1);
}

#[test]
fn redo_after_undo_restores_every_byte() {
    let mut canvas = canvas(10, 10);
    let mut user = User::default();
    user.current_paint_brush = small_brush();
    user.current_color = Color::new(200, 30, 90, 180);
    stroke(&mut user, &mut canvas, BrushStrokeKind::Paint, &[(2, 2), (7, 3)], 1);
    user.current_color = Color::new(10, 250, 90, 255);
    stroke(&mut user, &mut canvas, BrushStrokeKind::Paint, &[(3, 8), (6, 1)], 2);
    user.current_eraser_brush = small_brush().with_strength(100);
    stroke(&mut user, &mut canvas, BrushStrokeKind::Erase, &[(4, 4), (5, 5)], 3);
    stroke(&mut user, &mut canvas, BrushStrokeKind::Smudge, &[(1, 5), (8, 5)], 4);
    let before = pixels(&canvas);
    assert_eq!(user.undo(&mut canvas), Ok(()));
    assert_eq!(user.current_action_id, 3);
    assert_ne!(pixels(&canvas), before);
    assert_eq!(user.redo(&mut canvas), Ok(()));
    assert_eq!(user.current_action_id, 4);
    assert_eq!(pixels(&canvas), before);
}

#[test]
fn undo_twice_then_redo_once_matches_replay() {
    let mut canvas = canvas(6, 6);
    let mut user = User::default();
    user.current_paint_brush = small_brush();
    stroke(&mut user, &mut canvas, BrushStrokeKind::Paint, &[(1, 1)], 1);
    let after_first = pixels(&canvas);
    stroke(&mut user, &mut canvas, BrushStrokeKind::Paint, &[(4, 4)], 2);
    user.undo(&mut canvas).unwrap();
    user.undo(&mut canvas).unwrap();
    assert_eq!(pixels(&canvas), vec![0u8; 6 * 6 * 4]);
    user.redo(&mut canvas).unwrap();
    assert_eq!(user.current_action_id, 1);
    assert_eq!(pixels(&canvas), after_first);
}

#[test]
fn new_stroke_after_undo_discards_the_redo_branch() {
    let mut canvas = canvas(6, 6);
    let mut user = User::default();
    user.current_paint_brush = small_brush();
    stroke(&mut user, &mut canvas, BrushStrokeKind::Paint, &[(1, 1)], 1);
    stroke(&mut user, &mut canvas, BrushStrokeKind::Paint, &[(4, 4)], 2);
    user.undo(&mut canvas).unwrap();
    stroke(&mut user, &mut canvas, BrushStrokeKind::Paint, &[(1, 4)], 3);
    assert_eq!(user.current_action_id, 2);
    assert_eq!(user.action_history.len(), 2);
    assert_eq!(user.action_history[1].id, 2);
    assert_eq!(user.action_history[1].timestamp, 3);
    let before = pixels(&canvas);
    assert_eq!(user.redo(&mut canvas), Ok(()));
    assert_eq!(user.current_action_id, 2);
    assert_eq!(pixels(&canvas), before);
}

#[test]
fn undo_on_blank_history_does_nothing() {
    let mut canvas = canvas(3, 3);
    let mut user = User::default();
    assert_eq!(user.undo(&mut canvas), Ok(()));
    assert_eq!(user.current_action_id, 0);
    assert_eq!(user.redo(&mut canvas), Ok(()));
    assert_eq!(user.current_action_id, 0);
}

#[test]
fn continuing_without_a_stroke_fails() {
    let mut user = User::default();
    assert!(matches!(user.continue_brush_stroke(0), Err(StrokeError::NoCurrentAction)));
    assert!(user.action_history.is_empty());
}

#[test]
fn frames_use_the_brush_of_their_kind() {
    let mut user = User::default();
    user.current_smudge_brush = small_brush();
    user.start_brush_stroke(BrushStrokeKind::Smudge, 9);
    user.cursor_position = CanvasPos::new(3, 1);
    user.last_cursor_position = CanvasPos::new(1, 1);
    let (_, kind, frame) = user.continue_brush_stroke(12).unwrap();
    assert_eq!(frame.timestamp, 12);
    assert_eq!(kind, BrushStrokeKind::Smudge);
    assert_eq!(frame.brush, small_brush());
    assert_eq!(frame.cursor_position, CanvasPos::new(3, 1));
    assert_eq!(frame.last_cursor_position, CanvasPos::new(1, 1));
    match &user.action_history[0].data {
        rustbrush::UserActionData::BrushStroke(s) => assert_eq!(s.frames.len(), 1),
    }
}

#[test]
fn undo_with_missing_active_layer_is_refused() {
    let mut canvas = canvas(3, 3);
    let mut user = User::default();
    user.current_paint_brush = small_brush();
    stroke(&mut user, &mut canvas, BrushStrokeKind::Paint, &[(1, 1)], 1);
    user.current_layer = 4;
    assert_eq!(user.undo(&mut canvas), Err(CanvasError::LayerOutOfRange));
    assert_eq!(user.current_action_id, 1);
}

#[test]
fn erase_strokes_never_raise_alpha() {
    let mut canvas = canvas(8, 8);
    let mut user = User::default();
    user.current_paint_brush = small_brush();
    stroke(&mut user, &mut canvas, BrushStrokeKind::Paint, &[(1, 1), (6, 6), (1, 6)], 1);
    let mut before = pixels(&canvas);
    user.current_eraser_brush = small_brush().with_strength(90);
    for (i, p) in [(2, 2), (5, 5), (0, 7), (7, 0)].iter().enumerate() {
        stroke(&mut user, &mut canvas, BrushStrokeKind::Erase, &[*p], 2 + i as u64);
        let after = pixels(&canvas);
        for j in 0..after.len() {
            if j % 4 == 3 {
                assert!(after[j] <= before[j]);
            } else {
                assert_eq!(after[j], before[j]);
            }
        }
        before = after;
    }
}
