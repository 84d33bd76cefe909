//! Strokes, the action history, and undo/redo by full replay.

use vstd::prelude::*;
use crate::brush::Brush;
use crate::color::Color;
use crate::geometry::CanvasPos;
use crate::canvas::{blank, Canvas, CanvasError, LayerView};
use crate::raster::{stroke_segment, BlendMode};

verus! {

/// Smudge strokes pull pixels at full strength.
pub const SMUDGE_STRENGTH: u8 = 255;

/// The blend law a stroke uses.
#[derive(Clone, Copy, Debug, PartialEq, Eq, Structural)]
pub enum BrushStrokeKind {
    Paint,
    Erase,
    Smudge,
}

/// One recorded pointer increment of a stroke, with the brush and colour it
/// was made with.
#[derive(Clone, Copy, Debug, PartialEq, Eq, Structural)]
pub struct BrushStrokeFrame {
    pub brush: Brush,
    pub color: Color,
    pub cursor_position: CanvasPos,
    pub last_cursor_position: CanvasPos,
    /// When the frame was recorded, as the caller's clock gave it.
    pub timestamp: u64,
}

/// The blend law of a frame of a stroke of kind `kind`.
pub open spec fn frame_mode(kind: BrushStrokeKind, frame: BrushStrokeFrame) -> BlendMode {
    match kind {
        BrushStrokeKind::Paint => BlendMode::Paint { color: frame.color },
        BrushStrokeKind::Erase => BlendMode::Erase { strength: frame.brush.spec_base().strength },
        BrushStrokeKind::Smudge => BlendMode::Smudge {
            dx: (frame.cursor_position.x - frame.last_cursor_position.x) as i64,
            dy: (frame.cursor_position.y - frame.last_cursor_position.y) as i64,
            strength: SMUDGE_STRENGTH,
        },
    }
}

/// A layer's pixels after one frame of a stroke of kind `kind`.
pub open spec fn apply_frame(
    buf: Seq<u8>,
    width: int,
    height: int,
    kind: BrushStrokeKind,
    frame: BrushStrokeFrame,
) -> Seq<u8> {
    stroke_segment(
        buf,
        width,
        height,
        frame.brush,
        frame.last_cursor_position,
        frame.cursor_position,
        frame_mode(kind, frame),
    )
}

/// Why a stroke frame could not be recorded.
#[derive(Clone, Copy, Debug, PartialEq, Eq, Structural)]
pub enum StrokeError {
    /// No stroke has been started, or every stroke has been undone.
    NoCurrentAction,
}

/// The kinds of undoable action.
#[derive(Clone, Copy, Debug, PartialEq, Eq, Structural)]
pub enum UserActionKind {
    BrushStroke,
}

/// A stroke: its kind and its frames in the order they were made.
pub struct BrushStroke {
    pub kind: BrushStrokeKind,
    pub frames: Vec<BrushStrokeFrame>,
}

impl BrushStroke {
    /// A stroke of kind `kind` without frames.
    pub fn new(kind: BrushStrokeKind) -> (stroke: BrushStroke)
        ensures
            stroke.kind == kind,
            stroke.frames@ == Seq::<BrushStrokeFrame>::empty(),
    {
        BrushStroke { kind, frames: Vec::new() }
    }

    /// Appends a frame.
    pub fn add_frame(&mut self, frame: BrushStrokeFrame)
        ensures
            final(self).kind == old(self).kind,
            final(self).frames@ == old(self).frames@.push(frame),
    {
        self.frames.push(frame);
    }
}

/// What an action did.
pub enum UserActionData {
    BrushStroke(BrushStroke),
}

/// One undoable action, numbered from one in the order it was started.
pub struct UserAction {
    pub id: usize,
    pub kind: UserActionKind,
    /// When the action was started, as the caller's clock gave it.
    pub timestamp: u64,
    pub data: UserActionData,
}

/// The stroke an action records.
pub open spec fn stroke_of(action: UserAction) -> BrushStroke {
    match action.data {
        UserActionData::BrushStroke(stroke) => stroke,
    }
}

/// A layer after the frames of a stroke of kind `kind`, in order.
pub open spec fn replay_frames(
    buf: Seq<u8>,
    width: int,
    height: int,
    kind: BrushStrokeKind,
    frames: Seq<BrushStrokeFrame>,
) -> Seq<u8>
    decreases frames.len(),
{
    if frames.len() == 0 {
        buf
    } else {
        apply_frame(
            replay_frames(buf, width, height, kind, frames.drop_last()),
            width,
            height,
            kind,
            frames.last(),
        )
    }
}

/// A layer after every frame of the given actions, action by action.
pub open spec fn replay(buf: Seq<u8>, width: int, height: int, actions: Seq<UserAction>) -> Seq<
    u8,
>
    decreases actions.len(),
{
    if actions.len() == 0 {
        buf
    } else {
        let stroke = stroke_of(actions.last());
        replay_frames(
            replay(buf, width, height, actions.drop_last()),
            width,
            height,
            stroke.kind,
            stroke.frames@,
        )
    }
}

/// The layer that the first `cursor` actions draw on a blank one.
pub open spec fn history_image(
    history: Seq<UserAction>,
    cursor: int,
    width: int,
    height: int,
) -> Seq<u8> {
    replay(blank(width, height), width, height, history.take(cursor))
}

/// Actions are numbered one after another from one, the cursor names one of
/// them or is zero, and every recorded brush is valid.
pub open spec fn history_wf(history: Seq<UserAction>, cursor: int) -> bool {
    &&& 0 <= cursor <= history.len()
    &&& forall|i: int| 0 <= i < history.len() ==> (#[trigger] history[i]).id == i + 1
    &&& forall|i: int, k: int|
        0 <= i < history.len() && 0 <= k < stroke_of(history[i]).frames@.len() ==> (#[trigger] stroke_of(
            history[i],
        ).frames@[k]).brush.wf()
}

/// `views` with layer `layer` holding `pixels` and marked dirty.
pub open spec fn with_layer_pixels(views: Seq<LayerView>, layer: int, pixels: Seq<u8>) -> Seq<
    LayerView,
> {
    views.update(layer, LayerView { pixels, dirty: true, ..views[layer] })
}

/// The person painting: current brushes and colour, the active layer, the
/// pointer, and the history of strokes with its cursor (zero for a blank
/// canvas, else the id of the last applied action).
pub struct User {
    pub current_color: Color,
    pub current_paint_brush: Brush,
    pub current_eraser_brush: Brush,
    pub current_smudge_brush: Brush,
    pub current_layer: usize,
    pub current_action_id: usize,
    pub action_history: Vec<UserAction>,
    pub cursor_position: CanvasPos,
    pub last_cursor_position: CanvasPos,
    pub holding_pointer_primary: bool,
    pub holding_pointer_right: bool,
}

impl User {
    pub open spec fn wf(&self) -> bool {
        &&& history_wf(self.action_history@, self.current_action_id as int)
        &&& self.current_paint_brush.wf()
        &&& self.current_eraser_brush.wf()
        &&& self.current_smudge_brush.wf()
    }

    /// The brush that strokes of kind `kind` use.
    pub open spec fn brush_for(&self, kind: BrushStrokeKind) -> Brush {
        match kind {
            BrushStrokeKind::Paint => self.current_paint_brush,
            BrushStrokeKind::Erase => self.current_eraser_brush,
            BrushStrokeKind::Smudge => self.current_smudge_brush,
        }
    }

    /// The kind of the current stroke.
    pub open spec fn current_kind(&self) -> BrushStrokeKind {
        stroke_of(self.action_history@[self.current_action_id - 1]).kind
    }

    /// The frame that continuing the current stroke at time `timestamp`
    /// records.
    pub open spec fn next_frame(&self, timestamp: u64) -> BrushStrokeFrame {
        BrushStrokeFrame {
            brush: self.brush_for(self.current_kind()),
            color: self.current_color,
            cursor_position: self.cursor_position,
            last_cursor_position: self.last_cursor_position,
            timestamp,
        }
    }

    /// `new`'s history is this one with `next_frame(timestamp)` appended to
    /// the current stroke.
    pub open spec fn frame_recorded(&self, new: &User, timestamp: u64) -> bool {
        let idx = self.current_action_id - 1;
        let action = self.action_history@[idx];
        &&& new.action_history@.len() == self.action_history@.len()
        &&& forall|i: int|
            0 <= i < self.action_history@.len() && i != idx ==> #[trigger] new.action_history@[i]
                == self.action_history@[i]
        &&& new.action_history@[idx].id == action.id
        &&& new.action_history@[idx].kind == action.kind
        &&& new.action_history@[idx].timestamp == action.timestamp
        &&& stroke_of(new.action_history@[idx]).kind == stroke_of(action).kind
        &&& stroke_of(new.action_history@[idx]).frames@ == stroke_of(action).frames@.push(
            self.next_frame(timestamp),
        )
    }

    /// Whether `other` differs from `self` at most in the history and its
    /// cursor.
    pub open spec fn same_settings(&self, other: &User) -> bool {
        &&& other.current_color == self.current_color
        &&& other.current_paint_brush == self.current_paint_brush
        &&& other.current_eraser_brush == self.current_eraser_brush
        &&& other.current_smudge_brush == self.current_smudge_brush
        &&& other.current_layer == self.current_layer
        &&& other.cursor_position == self.cursor_position
        &&& other.last_cursor_position == self.last_cursor_position
        &&& other.holding_pointer_primary == self.holding_pointer_primary
        &&& other.holding_pointer_right == self.holding_pointer_right
    }

    /// Drops the actions after the cursor: the redo branch that a new stroke
    /// replaces.
    fn truncate_action_history(&mut self)
        requires
            old(self).wf(),
        ensures
            final(self).wf(),
            old(self).same_settings(&*final(self)),
            final(self).current_action_id == old(self).current_action_id,
            final(self).action_history@ == old(self).action_history@.take(
                old(self).current_action_id as int,
            ),
    {
        self.action_history.truncate(self.current_action_id);
    }

    /// Starts a stroke of kind `kind` after the current action: the redo
    /// branch is dropped, and the new action gets the next id and becomes
    /// current.
    pub fn start_brush_stroke(&mut self, kind: BrushStrokeKind, timestamp: u64)
        requires
            old(self).wf(),
            old(self).current_action_id < usize::MAX,
        ensures
            final(self).wf(),
            old(self).same_settings(&*final(self)),
            final(self).current_action_id == old(self).current_action_id + 1,
            final(self).action_history@.len() == old(self).current_action_id + 1,
            final(self).action_history@.take(old(self).current_action_id as int)
                == old(self).action_history@.take(old(self).current_action_id as int),
            ({
                let action = final(self).action_history@.last();
                &&& action.id == old(self).current_action_id + 1
                &&& action.kind == UserActionKind::BrushStroke
                &&& action.timestamp == timestamp
                &&& stroke_of(action).kind == kind
                &&& stroke_of(action).frames@.len() == 0
            }),
    {
        self.truncate_action_history();
        self.current_action_id = self.current_action_id + 1;
        self.action_history.push(
            UserAction {
                kind: UserActionKind::BrushStroke,
                id: self.current_action_id,
                timestamp,
                data: UserActionData::BrushStroke(BrushStroke::new(kind)),
            },
        );
        assert(self.action_history@.take(old(self).current_action_id as int)
            =~= old(self).action_history@.take(old(self).current_action_id as int));
    }

    /// Records a frame of the current stroke at time `timestamp`, made with
    /// the brush for the stroke's kind, the current colour and the pointer's
    /// current and last positions. Returns the active layer, the stroke's kind and the frame,
    /// for the caller to rasterise. Fails, changing nothing, when there is
    /// no current action.
    pub fn continue_brush_stroke(&mut self, timestamp: u64) -> (r: Result<
        (usize, BrushStrokeKind, BrushStrokeFrame),
        StrokeError,
    >)
        requires
            old(self).wf(),
        ensures
            final(self).wf(),
            old(self).same_settings(&*final(self)),
            final(self).current_action_id == old(self).current_action_id,
            old(self).current_action_id == 0 ==> r == Err::<
                (usize, BrushStrokeKind, BrushStrokeFrame),
                StrokeError,
            >(StrokeError::NoCurrentAction) && final(self).action_history@ == old(
                self
            ).action_history@,
            old(self).current_action_id > 0 ==> r == Ok::<
                (usize, BrushStrokeKind, BrushStrokeFrame),
                StrokeError,
            >((old(self).current_layer, old(self).current_kind(), old(self).next_frame(timestamp)))
                && old(self).frame_recorded(&*final(self), timestamp),
    {
        if self.current_action_id == 0 {
            return Err(StrokeError::NoCurrentAction);
        }
        let idx = self.current_action_id - 1;
        let kind = match &self.action_history[idx].data {
            UserActionData::BrushStroke(stroke) => stroke.kind,
        };
        let brush = match kind {
            BrushStrokeKind::Paint => self.current_paint_brush,
            BrushStrokeKind::Erase => self.current_eraser_brush,
            BrushStrokeKind::Smudge => self.current_smudge_brush,
        };
        let frame = BrushStrokeFrame {
            brush,
            color: self.current_color,
            cursor_position: self.cursor_position,
            last_cursor_position: self.last_cursor_position,
            timestamp,
        };
        let ghost before = self.action_history@;
        match &mut self.action_history[idx].data {
            UserActionData::BrushStroke(stroke) => stroke.add_frame(frame),
        }
        proof {
            let h = self.action_history@;
            assert forall|i: int, k: int|
                0 <= i < h.len() && 0 <= k < stroke_of(h[i]).frames@.len() implies (
                #[trigger] stroke_of(h[i]).frames@[k]).brush.wf() by {
                if i != idx {
                    assert(h[i] == before[i]);
                } else if k < stroke_of(before[i]).frames@.len() {
                    assert(stroke_of(h[i]).frames@[k] == stroke_of(before[i]).frames@[k]);
                }
            }
        }
        Ok((self.current_layer, kind, frame))
    }

    /// Clears the active layer and replays onto it, in id order, every frame
    /// of every action up to the cursor.
    fn replay_onto_active_layer(&self, canvas: &mut Canvas)
        requires
            self.wf(),
            old(canvas).wf(),
            self.current_layer < old(canvas).layer_views().len(),
        ensures
            final(canvas).wf(),
            final(canvas).width() == old(canvas).width(),
            final(canvas).height() == old(canvas).height(),
            final(canvas).layer_views() == with_layer_pixels(
                old(canvas).layer_views(),
                self.current_layer as int,
                history_image(
                    self.action_history@,
                    self.current_action_id as int,
                    old(canvas).width(),
                    old(canvas).height(),
                ),
            ),
    {
        let ghost views = canvas.layer_views();
        let ghost w = canvas.width();
        let ghost h = canvas.height();
        let ghost layer = self.current_layer as int;
        let ghost history = self.action_history@;
        let ghost cursor = self.current_action_id as int;
        canvas.clear_layer(self.current_layer);
        assert(history.take(0) =~= Seq::<UserAction>::empty());
        assert(canvas.layer_views() =~= with_layer_pixels(views, layer, replay(blank(w, h), w, h, history.take(0))));
        let n = self.action_history.len();
        let mut i: usize = 0;
        while i < n
            invariant
                self.wf(),
                n == history.len(),
                history == self.action_history@,
                cursor == self.current_action_id,
                layer == self.current_layer,
                0 <= layer < views.len(),
                canvas.wf(),
                canvas.width() == w,
                canvas.height() == h,
                i <= n,
                canvas.layer_views() == with_layer_pixels(
                    views,
                    layer,
                    replay(blank(w, h), w, h, history.take(if i <= cursor { i as int } else { cursor })),
                ),
            decreases n - i,
        {
            let action = &self.action_history[i];
            if action.id <= self.current_action_id {
                let ghost base = replay(blank(w, h), w, h, history.take(i as int));
                match &action.data {
                    UserActionData::BrushStroke(stroke) => {
                        let frames = &stroke.frames;
                        assert(frames@.take(0) =~= Seq::<BrushStrokeFrame>::empty());
                        let mut k: usize = 0;
                        while k < frames.len()
                            invariant
                                self.wf(),
                                history == self.action_history@,
                                layer == self.current_layer,
                                0 <= layer < views.len(),
                                i < n,
                                n == history.len(),
                                *stroke == stroke_of(history[i as int]),
                                frames@ == stroke.frames@,
                                canvas.wf(),
                                canvas.width() == w,
                                canvas.height() == h,
                                k <= frames@.len(),
                                canvas.layer_views() == with_layer_pixels(
                                    views,
                                    layer,
                                    replay_frames(base, w, h, stroke.kind, frames@.take(k as int)),
                                ),
                            decreases frames@.len() - k,
                        {
                            let ghost before = canvas.layer_views();
                            assert(stroke_of(history[i as int]).frames@[k as int] == frames@[k as int]);
                            assert(frames@[k as int].brush.wf());
                            let _ = canvas.process_brush_stroke_frame(
                                self.current_layer,
                                stroke.kind,
                                &frames[k],
                            );
                            assert(frames@.take(k + 1).drop_last() =~= frames@.take(k as int));
                            k = k + 1;
                            assert(canvas.layer_views() =~= with_layer_pixels(
                                views,
                                layer,
                                replay_frames(base, w, h, stroke.kind, frames@.take(k as int)),
                            ));
                        }
                        assert(frames@.take(k as int) =~= frames@);
                    },
                }
                assert(history.take(i + 1).drop_last() =~= history.take(i as int));
            }
            i = i + 1;
        }
    }

    /// Steps the cursor back one action and rebuilds the active layer from
    /// the actions up to the new cursor. Does nothing on a blank history;
    /// refuses, changing nothing, when the active layer does not exist.
    pub fn undo(&mut self, canvas: &mut Canvas) -> (r: Result<(), CanvasError>)
        requires
            old(self).wf(),
            old(canvas).wf(),
        ensures
            final(self).wf(),
            final(canvas).wf(),
            final(canvas).width() == old(canvas).width(),
            final(canvas).height() == old(canvas).height(),
            old(self).same_settings(&*final(self)),
            final(self).action_history@ == old(self).action_history@,
            old(self).current_action_id == 0 ==> r == Ok::<(), CanvasError>(())
                && final(self).current_action_id == 0 && final(canvas).layer_views() == old(
                canvas
            ).layer_views(),
            old(self).current_action_id > 0 && old(self).current_layer >= old(
                canvas
            ).layer_views().len() ==> r == Err::<(), CanvasError>(CanvasError::LayerOutOfRange)
                && final(self).current_action_id == old(self).current_action_id && final(
                canvas
            ).layer_views() == old(canvas).layer_views(),
            old(self).current_action_id > 0 && old(self).current_layer < old(
                canvas
            ).layer_views().len() ==> r == Ok::<(), CanvasError>(()) && final(self).current_action_id
                == old(self).current_action_id - 1 && final(canvas).layer_views()
                == with_layer_pixels(
                old(canvas).layer_views(),
                old(self).current_layer as int,
                history_image(
                    old(self).action_history@,
                    old(self).current_action_id - 1,
                    old(canvas).width(),
                    old(canvas).height(),
                ),
            ),
    {
        if self.current_action_id == 0 {
            return Ok(());
        }
        if self.current_layer >= canvas.state.layers.len() {
            return Err(CanvasError::LayerOutOfRange);
        }
        self.current_action_id = self.current_action_id - 1;
        self.replay_onto_active_layer(canvas);
        Ok(())
    }

    /// Moves the cursor to the next action after it, if there is one, and
    /// rebuilds the active layer from the actions up to the new cursor.
    /// Refuses, changing nothing, when there is a next action but the active
    /// layer does not exist.
    pub fn redo(&mut self, canvas: &mut Canvas) -> (r: Result<(), CanvasError>)
        requires
            old(self).wf(),
            old(canvas).wf(),
        ensures
            final(self).wf(),
            final(canvas).wf(),
            final(canvas).width() == old(canvas).width(),
            final(canvas).height() == old(canvas).height(),
            old(self).same_settings(&*final(self)),
            final(self).action_history@ == old(self).action_history@,
            old(self).current_action_id == old(self).action_history@.len() ==> r == Ok::<
                (),
                CanvasError,
            >(()) && final(self).current_action_id == old(self).current_action_id && final(
                canvas
            ).layer_views() == old(canvas).layer_views(),
            old(self).current_action_id < old(self).action_history@.len() && old(
                self
            ).current_layer >= old(canvas).layer_views().len() ==> r == Err::<(), CanvasError>(
                CanvasError::LayerOutOfRange,
            ) && final(self).current_action_id == old(self).current_action_id && final(
                canvas
            ).layer_views() == old(canvas).layer_views(),
            old(self).current_action_id < old(self).action_history@.len() && old(
                self
            ).current_layer < old(canvas).layer_views().len() ==> r == Ok::<(), CanvasError>(())
                && final(self).current_action_id == old(self).action_history@[old(
                self
            ).current_action_id as int].id && final(self).current_action_id == old(
                self
            ).current_action_id + 1 && final(canvas).layer_views() == with_layer_pixels(
                old(canvas).layer_views(),
                old(self).current_layer as int,
                history_image(
                    old(self).action_history@,
                    old(self).current_action_id + 1,
                    old(canvas).width(),
                    old(canvas).height(),
                ),
            ),
    {
        // ids run from one without gaps, so the first action after the
        // cursor sits at index `current_action_id`
        if self.current_action_id >= self.action_history.len() {
            return Ok(());
        }
        if self.current_layer >= canvas.state.layers.len() {
            return Err(CanvasError::LayerOutOfRange);
        }
        self.current_action_id = self.action_history[self.current_action_id].id;
        self.replay_onto_active_layer(canvas);
        Ok(())
    }
}

impl User {
    /// The state `User::default` gives: white paint, default brushes, the
    /// bottom layer active, a blank history, the pointer at the origin and
    /// released.
    pub open spec fn is_default(&self) -> bool {
        &&& self.current_color == (Color { r: 255, g: 255, b: 255, a: 255 })
        &&& self.current_paint_brush == Brush::default_spec()
        &&& self.current_eraser_brush == Brush::default_spec()
        &&& self.current_smudge_brush == Brush::default_spec()
        &&& self.current_layer == 0
        &&& self.current_action_id == 0
        &&& self.action_history@ == Seq::<UserAction>::empty()
        &&& self.cursor_position == (CanvasPos { x: 0, y: 0 })
        &&& self.last_cursor_position == (CanvasPos { x: 0, y: 0 })
        &&& !self.holding_pointer_primary
        &&& !self.holding_pointer_right
    }
}

impl Default for User {
    fn default() -> (user: User)
        ensures
            user.wf(),
            user.is_default(),
    {
        User {
            current_color: Color::white(),
            current_paint_brush: Brush::default().with_strength(255),
            current_eraser_brush: Brush::default().with_strength(255),
            current_smudge_brush: Brush::default().with_strength(255),
            current_layer: 0,
            current_action_id: 0,
            action_history: Vec::new(),
            cursor_position: CanvasPos::new(0, 0),
            last_cursor_position: CanvasPos::new(0, 0),
            holding_pointer_primary: false,
            holding_pointer_right: false,
        }
    }
}

} // verus!
