use rustbrush::{
    export_file_name, BrushStrokeKind, CanvasError, CanvasPos, PointerButton, Session,
    SessionError, ShortcutKey, StrokeError,
};

#[test]
fn new_session_layout() {
    let session = Session::new();
    assert_eq!(session.canvas.state.width, 800);
    assert_eq!(session.canvas.state.height, 600);
    let names: Vec<&str> = session.canvas.layers().iter().map(|l| l.name.as_str()).collect();
    assert_eq!(names, vec!["Background", "Layer 1"]);
    for layer in session.canvas.layers() {
        assert_eq!(layer.pixels().len(), 800 * 600 * 4);
        assert!(layer.pixels().iter().all(|b| *b == 0));
        assert!(layer.visible);
        assert!(layer.is_dirty());
    }
    assert_eq!(session.user.current_action_id, 0);
}

#[test]
fn press_move_redraw_paints_and_presents() {
    let mut session = Session::new();
    session.pointer_moved(CanvasPos::new(100, 100));
    session.redraw(10);
    session.button_pressed(PointerButton::Primary, 42);
    assert!(session.user.holding_pointer_primary);
    assert_eq!(session.user.action_history[0].timestamp, 42);
    match &session.user.action_history[0].data {
        rustbrush::UserActionData::BrushStroke(s) => assert!(s.frames.is_empty()),
    }
    let out = session.redraw(20);
    assert!(out.error.is_none());
    let frame = out.frame.unwrap();
    assert_eq!(frame.len(), 800 * 600 * 4);
    let i = (100 * 800 + 100) * 4;
    assert_eq!(&frame[i..i + 4], &[255, 255, 255, 255]);
    session.pointer_moved(CanvasPos::new(140, 100));
    let out = session.redraw(30);
    let frame = out.frame.unwrap();
    let j = (100 * 800 + 120) * 4;
    assert_eq!(frame[j + 3], 255);
    assert_eq!(session.user.last_cursor_position, CanvasPos::new(140, 100));
    session.button_released(PointerButton::Primary);
    let out = session.redraw(40);
    assert!(out.frame.is_none());
    assert!(out.error.is_none());
}

#[test]
fn secondary_button_smudges() {
    let mut session = Session::new();
    session.button_pressed(PointerButton::Secondary, 1);
    assert!(session.user.holding_pointer_right);
    match &session.user.action_history[0].data {
        rustbrush::UserActionData::BrushStroke(s) => assert_eq!(s.kind, BrushStrokeKind::Smudge),
    }
    session.button_released(PointerButton::Secondary);
    assert!(!session.user.holding_pointer_right);
}

#[test]
fn shortcuts_need_the_modifier() {
    let mut session = Session::new();
    session.button_pressed(PointerButton::Primary, 1);
    session.redraw(50);
    session.button_released(PointerButton::Primary);
    assert_eq!(session.shortcut(ShortcutKey::Undo, false), Ok(false));
    assert_eq!(session.user.current_action_id, 1);
    assert_eq!(session.shortcut(ShortcutKey::Save, false), Ok(false));
    assert_eq!(session.shortcut(ShortcutKey::Save, true), Ok(true));
    assert_eq!(session.shortcut(ShortcutKey::Undo, true), Ok(false));
    assert_eq!(session.user.current_action_id, 0);
    assert!(session.canvas.layers()[0].pixels().iter().all(|b| *b == 0));
    assert_eq!(session.shortcut(ShortcutKey::Redo, true), Ok(false));
    assert_eq!(session.user.current_action_id, 1);
    assert_eq!(session.canvas.layers()[0].pixels()[3], 255);
}

#[test]
fn redraw_errors_are_reported() {
    let mut session = Session::new();
    session.user.holding_pointer_primary = true;
    let out = session.redraw(60);
    assert_eq!(out.error, Some(SessionError::Stroke(StrokeError::NoCurrentAction)));
    session.button_pressed(PointerButton::Primary, 1);
    session.user.current_layer = 7;
    let out = session.redraw(70);
    assert_eq!(out.error, Some(SessionError::Canvas(CanvasError::LayerOutOfRange)));
    assert_eq!(session.shortcut(ShortcutKey::Undo, true), Err(SessionError::Canvas(CanvasError::LayerOutOfRange)));
}

#[test]
fn export_names_are_zero_padded() {
    assert_eq!(export_file_name(2024, 3, 5, 7, 8, 9), "brushy_2024-03-05_07-08-09.png");
    assert_eq!(export_file_name(1999, 12, 31, 23, 59, 0), "brushy_1999-12-31_23-59-00.png");
    assert_eq!(export_file_name(7, 1, 1, 0, 0, 0), "brushy_0007-01-01_00-00-00.png");
}
