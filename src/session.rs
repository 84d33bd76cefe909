//! A painting session driven by host events: pointer, buttons, shortcuts
//! and redraw ticks.

use vstd::prelude::*;
use crate::canvas::{blank, render_outcome, Canvas, CanvasError, LayerView};
use crate::geometry::CanvasPos;
use crate::user::{
    apply_frame, history_image, stroke_of, BrushStrokeKind, StrokeError, User,
};

verus! {

/// Width of a new session's canvas.
pub const DEFAULT_WIDTH: u32 = 800;

/// Height of a new session's canvas.
pub const DEFAULT_HEIGHT: u32 = 600;

/// The two pointer buttons that paint: primary paints, secondary smudges.
#[derive(Clone, Copy, Debug, PartialEq, Eq, Structural)]
pub enum PointerButton {
    Primary,
    Secondary,
}

/// Commands bound to modifier shortcuts.
#[derive(Clone, Copy, Debug, PartialEq, Eq, Structural)]
pub enum ShortcutKey {
    Undo,
    Redo,
    Save,
}

/// Why an event could not be carried out. The session stays consistent and
/// goes on with the next event.
#[derive(Clone, Copy, Debug, PartialEq, Eq, Structural)]
pub enum SessionError {
    Stroke(StrokeError),
    Canvas(CanvasError),
}

/// What a redraw tick produced.
pub struct Redraw {
    /// The composited frame to present, when some layer changed.
    pub frame: Option<Vec<u8>>,
    /// Why the stroke frame of this tick was dropped, if it was.
    pub error: Option<SessionError>,
}

/// A painting session: the canvas and the person painting on it. The host
/// delivers events one at a time and performs what they return.
pub struct Session {
    pub canvas: Canvas,
    pub user: User,
}

/// The layers after the frame of this tick, if it reached the canvas.
pub open spec fn painted_layers(before: Canvas, user: User, timestamp: u64) -> Seq<LayerView> {
    let views = before.layer_views();
    let layer = user.current_layer as int;
    if user.current_action_id > 0 && layer < views.len() {
        views.update(
            layer,
            LayerView {
                pixels: apply_frame(
                    views[layer].pixels,
                    before.width(),
                    before.height(),
                    user.current_kind(),
                    user.next_frame(timestamp),
                ),
                dirty: true,
                ..views[layer]
            },
        )
    } else {
        views
    }
}

impl Session {
    pub open spec fn wf(&self) -> bool {
        &&& self.user.wf()
        &&& self.canvas.wf()
    }

    /// Whether a stroke is being drawn: a painting button is held.
    pub open spec fn painting(&self) -> bool {
        self.user.holding_pointer_primary || self.user.holding_pointer_right
    }

    /// An 800 by 600 canvas with a "Background" layer under "Layer 1", and a
    /// default user.
    pub fn new() -> (session: Session)
        ensures
            session.wf(),
            session.canvas.width() == 800,
            session.canvas.height() == 600,
            session.canvas.layer_views().len() == 2,
            session.canvas.layer_views()[0].name == "Background"@,
            session.canvas.layer_views()[1].name == "Layer 1"@,
            forall|i: int|
                0 <= i < 2 ==> {
                    let layer = #[trigger] session.canvas.layer_views()[i];
                    &&& layer.pixels == blank(800, 600)
                    &&& layer.visible
                    &&& layer.dirty
                },
            session.user.is_default(),
    {
        let mut canvas = Canvas::new(DEFAULT_WIDTH, DEFAULT_HEIGHT);
        canvas.add_named_layer(String::from_str("Background"));
        canvas.add_named_layer(String::from_str("Layer 1"));
        Session { canvas, user: User::default() }
    }

    /// The pointer moved to `position` in canvas space.
    pub fn pointer_moved(&mut self, position: CanvasPos)
        requires
            old(self).wf(),
        ensures
            final(self).wf(),
            final(self).user == (User { cursor_position: position, ..old(self).user }),
            final(self).canvas == old(self).canvas,
    {
        self.user.cursor_position = position;
    }

    /// A button went down: primary starts a paint stroke, secondary a smudge
    /// stroke, at time `timestamp`.
    pub fn button_pressed(&mut self, button: PointerButton, timestamp: u64)
        requires
            old(self).wf(),
        ensures
            final(self).wf(),
            final(self).canvas == old(self).canvas,
            final(self).user.current_color == old(self).user.current_color,
            final(self).user.current_paint_brush == old(self).user.current_paint_brush,
            final(self).user.current_eraser_brush == old(self).user.current_eraser_brush,
            final(self).user.current_smudge_brush == old(self).user.current_smudge_brush,
            final(self).user.current_layer == old(self).user.current_layer,
            final(self).user.cursor_position == old(self).user.cursor_position,
            final(self).user.last_cursor_position == old(self).user.last_cursor_position,
            button == PointerButton::Primary ==> final(self).user.holding_pointer_primary
                && final(self).user.holding_pointer_right == old(self).user.holding_pointer_right,
            button == PointerButton::Secondary ==> final(self).user.holding_pointer_right
                && final(self).user.holding_pointer_primary == old(
                self
            ).user.holding_pointer_primary,
            old(self).user.current_action_id < usize::MAX ==> {
                let kind = if button == PointerButton::Primary {
                    BrushStrokeKind::Paint
                } else {
                    BrushStrokeKind::Smudge
                };
                &&& final(self).user.current_action_id == old(self).user.current_action_id + 1
                &&& final(self).user.action_history@.len() == final(self).user.current_action_id
                &&& final(self).user.action_history@.take(old(self).user.current_action_id as int)
                    == old(self).user.action_history@.take(
                    old(self).user.current_action_id as int,
                )
                &&& final(self).user.action_history@.last().id == final(self).user.current_action_id
                &&& final(self).user.action_history@.last().timestamp == timestamp
                &&& final(self).user.current_kind() == kind
                &&& stroke_of(final(self).user.action_history@.last()).frames@.len() == 0
            },
            old(self).user.current_action_id == usize::MAX ==> final(self).user.current_action_id
                == old(self).user.current_action_id && final(self).user.action_history@ == old(
                self
            ).user.action_history@,
    {
        let kind = match button {
            PointerButton::Primary => {
                self.user.holding_pointer_primary = true;
                BrushStrokeKind::Paint
            },
            PointerButton::Secondary => {
                self.user.holding_pointer_right = true;
                BrushStrokeKind::Smudge
            },
        };
        if self.user.current_action_id < usize::MAX {
            self.user.start_brush_stroke(kind, timestamp);
        }
    }

    /// A button came up: the stroke it drew ends.
    pub fn button_released(&mut self, button: PointerButton)
        requires
            old(self).wf(),
        ensures
            final(self).wf(),
            final(self).canvas == old(self).canvas,
            button == PointerButton::Primary ==> final(self).user == (User {
                holding_pointer_primary: false,
                ..old(self).user
            }),
            button == PointerButton::Secondary ==> final(self).user == (User {
                holding_pointer_right: false,
                ..old(self).user
            }),
    {
        match button {
            PointerButton::Primary => self.user.holding_pointer_primary = false,
            PointerButton::Secondary => self.user.holding_pointer_right = false,
        }
    }

    /// A shortcut key went down. Without the modifier held nothing happens.
    /// Undo and redo act on the history and the active layer; save asks the
    /// host to export, which `Ok(true)` signals.
    pub fn shortcut(&mut self, key: ShortcutKey, modifier_held: bool) -> (r: Result<
        bool,
        SessionError,
    >)
        requires
            old(self).wf(),
        ensures
            final(self).wf(),
            final(self).canvas.width() == old(self).canvas.width(),
            final(self).canvas.height() == old(self).canvas.height(),
            old(self).user.same_settings(&final(self).user),
            final(self).user.action_history@ == old(self).user.action_history@,
            r == Ok::<bool, SessionError>(true) <==> modifier_held && key == ShortcutKey::Save,
            !modifier_held || key == ShortcutKey::Save ==> final(self).user == old(self).user
                && final(self).canvas == old(self).canvas,
            modifier_held && key != ShortcutKey::Save ==> {
                let cursor = old(self).user.current_action_id as int;
                let target = if key == ShortcutKey::Undo {
                    cursor - 1
                } else {
                    cursor + 1
                };
                let moves = if key == ShortcutKey::Undo {
                    cursor > 0
                } else {
                    cursor < old(self).user.action_history@.len()
                };
                let layer = old(self).user.current_layer as int;
                let views = old(self).canvas.layer_views();
                &&& !moves ==> r == Ok::<bool, SessionError>(false) && final(self).user.current_action_id
                    == cursor && final(self).canvas.layer_views() == views
                &&& moves && layer >= views.len() ==> r == Err::<bool, SessionError>(
                    SessionError::Canvas(CanvasError::LayerOutOfRange),
                ) && final(self).user.current_action_id == cursor && final(
                    self
                ).canvas.layer_views() == views
                &&& moves && layer < views.len() ==> r == Ok::<bool, SessionError>(false) && final(
                    self
                ).user.current_action_id == target && final(self).canvas.layer_views()
                    == views.update(
                    layer,
                    LayerView {
                        pixels: history_image(
                            old(self).user.action_history@,
                            target,
                            old(self).canvas.width(),
                            old(self).canvas.height(),
                        ),
                        dirty: true,
                        ..views[layer]
                    },
                )
            },
    {
        if !modifier_held {
            return Ok(false);
        }
        let result = match key {
            ShortcutKey::Undo => self.user.undo(&mut self.canvas),
            ShortcutKey::Redo => self.user.redo(&mut self.canvas),
            ShortcutKey::Save => {
                return Ok(true);
            },
        };
        match result {
            Ok(()) => Ok(false),
            Err(e) => Err(SessionError::Canvas(e)),
        }
    }

    /// A redraw tick at time `timestamp`. While a button is held, the current
    /// stroke gets a frame
    /// from the last pointer position to the current one, which is laid on
    /// the canvas; a frame that cannot be recorded or applied is dropped and
    /// reported. Then the frame to present is produced if any layer changed,
    /// and the current pointer position becomes the last one.
    pub fn redraw(&mut self, timestamp: u64) -> (out: Redraw)
        requires
            old(self).wf(),
        ensures
            final(self).wf(),
            final(self).canvas.width() == old(self).canvas.width(),
            final(self).canvas.height() == old(self).canvas.height(),
            final(self).user.current_action_id == old(self).user.current_action_id,
            final(self).user == (User {
                last_cursor_position: old(self).user.cursor_position,
                action_history: final(self).user.action_history,
                ..old(self).user
            }),
            !old(self).painting() ==> final(self).user.action_history@ == old(
                self
            ).user.action_history@ && out.error is None,
            old(self).painting() && old(self).user.current_action_id == 0 ==> final(
                self
            ).user.action_history@ == old(self).user.action_history@ && out.error == Some(
                SessionError::Stroke(StrokeError::NoCurrentAction),
            ),
            old(self).painting() && old(self).user.current_action_id > 0 ==> old(
                self
            ).user.frame_recorded(&final(self).user, timestamp) && (out.error == Some(
                SessionError::Canvas(CanvasError::LayerOutOfRange),
            ) <==> old(self).user.current_layer >= old(self).canvas.layer_views().len()) && (
            out.error is None <==> old(self).user.current_layer < old(
                self
            ).canvas.layer_views().len()),
            render_outcome(
                if old(self).painting() {
                    painted_layers(old(self).canvas, old(self).user, timestamp)
                } else {
                    old(self).canvas.layer_views()
                },
                final(self).canvas.layer_views(),
                out.frame,
                old(self).canvas.width(),
                old(self).canvas.height(),
            ),
    {
        let mut error: Option<SessionError> = None;
        if self.user.holding_pointer_primary || self.user.holding_pointer_right {
            match self.user.continue_brush_stroke(timestamp) {
                Ok((layer, kind, frame)) => {
                    proof {
                        assert(frame.brush.wf());
                    }
                    match self.canvas.process_brush_stroke_frame(layer, kind, &frame) {
                        Ok(()) => {},
                        Err(e) => {
                            error = Some(SessionError::Canvas(e));
                        },
                    }
                },
                Err(e) => {
                    error = Some(SessionError::Stroke(e));
                },
            }
        }
        let frame = self.canvas.render();
        self.user.last_cursor_position = self.user.cursor_position;
        Redraw { frame, error }
    }
}

} // verus!
