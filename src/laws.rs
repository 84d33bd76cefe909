//! Properties of the engine that span several operations.

use vstd::prelude::*;
use crate::brush::{lemma_soft_circle_members, offset_d2, stamp_weight, Brush, Pixel};
use crate::color::Color;
use crate::canvas::{blank, LayerView};
use crate::geometry::CanvasPos;
use crate::raster::{
    dab, erase_at, in_bounds, lemma_offset_in_buffer, lemma_stamp_step_len, lerp,
    paint_source_alpha, path_steps, pixel_offset, stamp_step, stroke_segment, walk, BlendMode,
};
use crate::user::{
    apply_frame, history_image, history_wf, replay, replay_frames, stroke_of, with_layer_pixels,
    BrushStrokeFrame, BrushStrokeKind, User, UserAction,
};

verus! {

/// `after` has the bytes of `before`, but for alpha bytes, which are no
/// higher.
pub open spec fn alpha_not_raised(before: Seq<u8>, after: Seq<u8>) -> bool {
    &&& after.len() == before.len()
    &&& forall|j: int| 0 <= j < before.len() && j % 4 == 3 ==> #[trigger] after[j] <= before[j]
    &&& forall|j: int| 0 <= j < before.len() && j % 4 != 3 ==> #[trigger] after[j] == before[j]
}

proof fn lemma_alpha_not_raised_trans(a: Seq<u8>, b: Seq<u8>, c: Seq<u8>)
    requires
        alpha_not_raised(a, b),
        alpha_not_raised(b, c),
    ensures
        alpha_not_raised(a, c),
{
    assert forall|j: int| 0 <= j < a.len() && j % 4 == 3 implies #[trigger] c[j] <= a[j] by {
        assert(c[j] <= b[j]);
    }
    assert forall|j: int| 0 <= j < a.len() && j % 4 != 3 implies #[trigger] c[j] == a[j] by {
        assert(c[j] == b[j]);
    }
}

proof fn lemma_erase_step(
    buf: Seq<u8>,
    width: int,
    height: int,
    cx: int,
    cy: int,
    p: Pixel,
    strength: u8,
)
    requires
        buf.len() == width * height * 4,
    ensures
        alpha_not_raised(
            buf,
            stamp_step(buf, width, height, cx, cy, p, BlendMode::Erase { strength }),
        ),
{
    let px = cx + p.x;
    let py = cy + p.y;
    if p.alpha != 0 && in_bounds(px, py, width, height) {
        lemma_offset_in_buffer(px, py, width, height);
        let i = pixel_offset(px, py, width);
        let es = p.alpha * strength / 255;
        assert(0 <= es <= 255) by (nonlinear_arith)
            requires
                es == p.alpha * strength / 255,
                0 <= p.alpha <= 255,
                0 <= strength <= 255,
        ;
        let a = buf[i + 3];
        assert(0 <= a * (255 - es) / 255 <= a) by (nonlinear_arith)
            requires
                0 <= a <= 255,
                0 <= es <= 255,
        ;
        let after = erase_at(buf, i, strength as int, p.alpha as int);
        assert forall|j: int| 0 <= j < buf.len() && j % 4 != 3 implies #[trigger] after[j]
            == buf[j] by {
            assert(j != i + 3);
        }
    }
}

proof fn lemma_erase_dab(
    buf: Seq<u8>,
    width: int,
    height: int,
    cx: int,
    cy: int,
    stamp: Seq<Pixel>,
    strength: u8,
)
    requires
        buf.len() == width * height * 4,
    ensures
        alpha_not_raised(buf, dab(buf, width, height, cx, cy, stamp, BlendMode::Erase { strength })),
    decreases stamp.len(),
{
    let mode = BlendMode::Erase { strength };
    if stamp.len() > 0 {
        lemma_erase_dab(buf, width, height, cx, cy, stamp.drop_last(), strength);
        let mid = dab(buf, width, height, cx, cy, stamp.drop_last(), mode);
        lemma_erase_step(mid, width, height, cx, cy, stamp.last(), strength);
        lemma_alpha_not_raised_trans(
            buf,
            mid,
            stamp_step(mid, width, height, cx, cy, stamp.last(), mode),
        );
    }
}

proof fn lemma_erase_walk(
    buf: Seq<u8>,
    width: int,
    height: int,
    stamp: Seq<Pixel>,
    from: CanvasPos,
    to: CanvasPos,
    steps: int,
    strength: u8,
    k: int,
)
    requires
        buf.len() == width * height * 4,
    ensures
        alpha_not_raised(
            buf,
            walk(buf, width, height, stamp, from, to, steps, BlendMode::Erase { strength }, k),
        ),
    decreases k,
{
    let mode = BlendMode::Erase { strength };
    if k > 0 {
        lemma_erase_walk(buf, width, height, stamp, from, to, steps, strength, k - 1);
        let mid = walk(buf, width, height, stamp, from, to, steps, mode, k - 1);
        let cx = lerp(from.x as int, to.x as int, k - 1, steps);
        let cy = lerp(from.y as int, to.y as int, k - 1, steps);
        lemma_erase_dab(mid, width, height, cx, cy, stamp, strength);
        lemma_alpha_not_raised_trans(buf, mid, dab(mid, width, height, cx, cy, stamp, mode));
    } else {
        assert(alpha_not_raised(buf, buf));
    }
}

/// Erasing never raises alpha: after any sequence of erase frames, every
/// pixel's alpha is at most what it was, and its colour bytes are untouched.
pub proof fn lemma_erase_never_raises_alpha(
    buf: Seq<u8>,
    width: int,
    height: int,
    frames: Seq<BrushStrokeFrame>,
)
    requires
        buf.len() == width * height * 4,
    ensures
        alpha_not_raised(buf, replay_frames(buf, width, height, BrushStrokeKind::Erase, frames)),
    decreases frames.len(),
{
    if frames.len() == 0 {
        assert(alpha_not_raised(buf, buf));
    } else {
        lemma_erase_never_raises_alpha(buf, width, height, frames.drop_last());
        let mid = replay_frames(buf, width, height, BrushStrokeKind::Erase, frames.drop_last());
        let frame = frames.last();
        let strength = frame.brush.spec_base().strength;
        let steps = path_steps(
            frame.last_cursor_position,
            frame.cursor_position,
            frame.brush.spec_base().radius as int,
            frame.brush.spec_base().spacing as int,
        );
        lemma_erase_walk(
            mid,
            width,
            height,
            frame.brush.stamp_spec(),
            frame.last_cursor_position,
            frame.cursor_position,
            steps,
            strength,
            steps + 1,
        );
        lemma_alpha_not_raised_trans(
            buf,
            mid,
            apply_frame(mid, width, height, BrushStrokeKind::Erase, frame),
        );
    }
}

/// Undoing back to before the first action leaves the blank layer, whatever
/// that action drew: after one stroke on an empty canvas, `undo` restores
/// every byte to zero.
pub proof fn lemma_undo_first_stroke_restores_blank(
    history: Seq<UserAction>,
    width: int,
    height: int,
)
    requires
        history_wf(history, 1),
    ensures
        history_image(history, 1 - 1, width, height) == blank(width, height),
{
    assert(history.take(0) =~= Seq::<UserAction>::empty());
}

/// `redo` right after `undo` gives back the layer `undo` started from, byte
/// for byte, when that layer was the image of the history up to the cursor;
/// other layers are untouched and the cursor comes back to where it was.
pub proof fn lemma_redo_undoes_undo(
    views: Seq<LayerView>,
    layer: int,
    history: Seq<UserAction>,
    cursor: int,
    width: int,
    height: int,
)
    requires
        history_wf(history, cursor),
        cursor > 0,
        0 <= layer < views.len(),
        views[layer].pixels == history_image(history, cursor, width, height),
    ensures
        ({
            let after_undo = with_layer_pixels(
                views,
                layer,
                history_image(history, cursor - 1, width, height),
            );
            let redo_cursor = history[cursor - 1].id as int;
            let after_redo = with_layer_pixels(
                after_undo,
                layer,
                history_image(history, redo_cursor, width, height),
            );
            &&& redo_cursor == cursor
            &&& after_redo == views.update(layer, LayerView { dirty: true, ..views[layer] })
            &&& after_redo[layer].pixels == views[layer].pixels
        }),
{
    let after_undo = with_layer_pixels(views, layer, history_image(history, cursor - 1, width, height));
    let after_redo = with_layer_pixels(after_undo, layer, history_image(history, cursor, width, height));
    assert(after_redo =~= views.update(layer, LayerView { dirty: true, ..views[layer] }));
}

/// A stroke started after an undo discards the redo branch: the cursor then
/// names the last action and no action lies after it, so `redo` changes
/// neither the history cursor nor any pixel.
pub proof fn lemma_new_stroke_discards_redo(
    cursor: int,
    new_history: Seq<UserAction>,
    new_cursor: int,
)
    requires
        history_wf(new_history, new_cursor),
        new_cursor == cursor + 1,
        new_history.len() == cursor + 1,
    ensures
        new_cursor == new_history.len(),
        forall|i: int| 0 <= i < new_history.len() ==> #[trigger] new_history[i].id <= new_cursor,
{
}

/// Recording a frame keeps a layer in step with the history: the image of
/// the history up to the cursor after `continue_brush_stroke` is the image
/// before it with the recorded frame laid on top, which is what
/// `process_brush_stroke_frame` does to the layer.
pub proof fn lemma_recorded_frame_extends_image(
    before: User,
    after: User,
    timestamp: u64,
    width: int,
    height: int,
)
    requires
        before.wf(),
        before.current_action_id > 0,
        after.current_action_id == before.current_action_id,
        before.frame_recorded(&after, timestamp),
    ensures
        history_image(after.action_history@, after.current_action_id as int, width, height)
            == apply_frame(
            history_image(before.action_history@, before.current_action_id as int, width, height),
            width,
            height,
            before.current_kind(),
            before.next_frame(timestamp),
        ),
{
    let c = before.current_action_id as int;
    let old_h = before.action_history@;
    let new_h = after.action_history@;
    let base = blank(width, height);
    assert(new_h.take(c).drop_last() =~= old_h.take(c).drop_last()) by {
        assert forall|i: int| 0 <= i < c - 1 implies new_h.take(c).drop_last()[i]
            == old_h.take(c).drop_last()[i] by {
            assert(new_h[i] == old_h[i]);
        }
    }
    assert(new_h.take(c).last() == new_h[c - 1]);
    assert(old_h.take(c).last() == old_h[c - 1]);
    let below = replay(base, width, height, old_h.take(c).drop_last());
    let frames = stroke_of(old_h[c - 1]).frames@;
    let pushed = stroke_of(new_h[c - 1]).frames@;
    assert(pushed.drop_last() =~= frames);
    assert(replay(base, width, height, new_h.take(c)) == replay_frames(
        below,
        width,
        height,
        before.current_kind(),
        pushed,
    ));
}

/// Starting a stroke leaves the image of the history unchanged: the new
/// action has no frames yet, and the actions before it are those up to the
/// old cursor.
pub proof fn lemma_started_stroke_keeps_image(
    history: Seq<UserAction>,
    cursor: int,
    new_history: Seq<UserAction>,
    width: int,
    height: int,
)
    requires
        0 <= cursor <= history.len(),
        new_history.len() == cursor + 1,
        new_history.take(cursor) == history.take(cursor),
        stroke_of(new_history.last()).frames@.len() == 0,
    ensures
        history_image(new_history, cursor + 1, width, height) == history_image(
            history,
            cursor,
            width,
            height,
        ),
{
    assert(new_history.take(cursor + 1) =~= new_history);
    assert(new_history.drop_last() =~= new_history.take(cursor));
    let frames = stroke_of(new_history.last()).frames@;
    assert(frames =~= Seq::<BrushStrokeFrame>::empty());
}

proof fn lemma_dab_len(
    buf: Seq<u8>,
    width: int,
    height: int,
    cx: int,
    cy: int,
    stamp: Seq<Pixel>,
    mode: BlendMode,
)
    requires
        buf.len() == width * height * 4,
    ensures
        dab(buf, width, height, cx, cy, stamp, mode).len() == buf.len(),
    decreases stamp.len(),
{
    if stamp.len() > 0 {
        lemma_dab_len(buf, width, height, cx, cy, stamp.drop_last(), mode);
        lemma_stamp_step_len(
            dab(buf, width, height, cx, cy, stamp.drop_last(), mode),
            width,
            height,
            cx,
            cy,
            stamp.last(),
            mode,
        );
    }
}

/// Painting over an opaque pixel leaves it opaque; alpha byte `j` is that
/// pixel's.
proof fn lemma_paint_keeps_opaque(
    buf: Seq<u8>,
    width: int,
    height: int,
    cx: int,
    cy: int,
    p: Pixel,
    color: Color,
    j: int,
)
    requires
        buf.len() == width * height * 4,
        0 <= j < buf.len(),
        j % 4 == 3,
        buf[j] == 255,
    ensures
        stamp_step(buf, width, height, cx, cy, p, BlendMode::Paint { color })[j] == 255,
{
    let px = cx + p.x;
    let py = cy + p.y;
    if p.alpha != 0 && in_bounds(px, py, width, height) {
        lemma_offset_in_buffer(px, py, width, height);
        let i = pixel_offset(px, py, width);
        let sa = paint_source_alpha(color, p.alpha as int);
        assert(0 <= sa <= 255) by (nonlinear_arith)
            requires
                sa == color.a * p.alpha / 255,
                0 <= color.a <= 255,
                0 <= p.alpha <= 255,
        ;
        if i + 3 == j {
            assert(255 * (255 - sa) / 255 == 255 - sa) by (nonlinear_arith)
                requires
                    0 <= sa <= 255,
            ;
        }
        assert(j != i && j != i + 1 && j != i + 2);
    }
}

/// Paint of an opaque colour through the full-weight centre of the stamp
/// makes the pixel under it opaque.
proof fn lemma_paint_centre_opaque(
    buf: Seq<u8>,
    width: int,
    height: int,
    cx: int,
    cy: int,
    color: Color,
)
    requires
        buf.len() == width * height * 4,
        in_bounds(cx, cy, width, height),
        color.a == 255,
    ensures
        stamp_step(
            buf,
            width,
            height,
            cx,
            cy,
            Pixel { x: 0, y: 0, alpha: 255 },
            BlendMode::Paint { color },
        )[pixel_offset(cx, cy, width) + 3] == 255,
{
    lemma_offset_in_buffer(cx, cy, width, height);
    let i = pixel_offset(cx, cy, width);
    let da = buf[i + 3] as int;
    assert(da * 0 / 255 == 0) by (nonlinear_arith);
    assert(paint_source_alpha(color, 255) == 255);
}

proof fn lemma_dab_paints_centre_opaque(
    buf: Seq<u8>,
    width: int,
    height: int,
    cx: int,
    cy: int,
    stamp: Seq<Pixel>,
    color: Color,
)
    requires
        buf.len() == width * height * 4,
        in_bounds(cx, cy, width, height),
        color.a == 255,
        stamp.contains(Pixel { x: 0, y: 0, alpha: 255 }),
    ensures
        dab(buf, width, height, cx, cy, stamp, BlendMode::Paint { color })[pixel_offset(
            cx,
            cy,
            width,
        ) + 3] == 255,
    decreases stamp.len(),
{
    let mode = BlendMode::Paint { color };
    let centre = Pixel { x: 0, y: 0, alpha: 255 };
    let rest = stamp.drop_last();
    lemma_dab_len(buf, width, height, cx, cy, rest, mode);
    let mid = dab(buf, width, height, cx, cy, rest, mode);
    lemma_offset_in_buffer(cx, cy, width, height);
    if stamp.last() == centre {
        lemma_paint_centre_opaque(mid, width, height, cx, cy, color);
    } else {
        let k = choose|k: int| 0 <= k < stamp.len() && stamp[k] == centre;
        assert(k < stamp.len() - 1);
        assert(rest[k] == centre);
        lemma_dab_paints_centre_opaque(buf, width, height, cx, cy, rest, color);
        lemma_paint_keeps_opaque(
            mid,
            width,
            height,
            cx,
            cy,
            stamp.last(),
            color,
            pixel_offset(cx, cy, width) + 3,
        );
    }
}

proof fn lemma_walk_len(
    buf: Seq<u8>,
    width: int,
    height: int,
    stamp: Seq<Pixel>,
    from: CanvasPos,
    to: CanvasPos,
    steps: int,
    mode: BlendMode,
    k: int,
)
    requires
        buf.len() == width * height * 4,
    ensures
        walk(buf, width, height, stamp, from, to, steps, mode, k).len() == buf.len(),
    decreases k,
{
    if k > 0 {
        lemma_walk_len(buf, width, height, stamp, from, to, steps, mode, k - 1);
        lemma_dab_len(
            walk(buf, width, height, stamp, from, to, steps, mode, k - 1),
            width,
            height,
            lerp(from.x as int, to.x as int, k - 1, steps),
            lerp(from.y as int, to.y as int, k - 1, steps),
            stamp,
            mode,
        );
    }
}

/// A click of opaque paint makes the pixel under the pointer opaque, on any
/// layer and with any valid brush: the stamp's centre has full weight.
pub proof fn lemma_click_paints_opaque_centre(
    buf: Seq<u8>,
    width: int,
    height: int,
    brush: Brush,
    color: Color,
    at: CanvasPos,
)
    requires
        buf.len() == width * height * 4,
        brush.wf(),
        color.a == 255,
        in_bounds(at.x as int, at.y as int, width, height),
    ensures
        stroke_segment(buf, width, height, brush, at, at, BlendMode::Paint { color })[pixel_offset(
            at.x as int,
            at.y as int,
            width,
        ) + 3] == 255,
{
    let mode = BlendMode::Paint { color };
    let inner = brush.spec_inner_radius() as int;
    let radius = brush.spec_base().radius as int;
    let stamp = brush.stamp_spec();
    lemma_soft_circle_members(inner, radius);
    assert(crate::brush::in_disc(0, 0, radius)) by (nonlinear_arith);
    let i = choose|i: int| 0 <= i < stamp.len() && (#[trigger] stamp[i]).x == 0 && stamp[i].y == 0;
    assert(offset_d2(stamp[i]) == 0);
    assert(0 <= inner * inner) by (nonlinear_arith);
    assert(stamp_weight(0, inner, radius) == 255);
    assert(stamp[i] == Pixel { x: 0, y: 0, alpha: 255 });
    let steps = path_steps(at, at, radius, brush.spec_base().spacing as int);
    assert(steps >= 1);
    assert(lerp(at.x as int, at.x as int, steps, steps) == at.x) by (nonlinear_arith)
        requires
            steps >= 1,
    ;
    assert(lerp(at.y as int, at.y as int, steps, steps) == at.y) by (nonlinear_arith)
        requires
            steps >= 1,
    ;
    lemma_walk_len(buf, width, height, stamp, at, at, steps, mode, steps);
    lemma_dab_paints_centre_opaque(
        walk(buf, width, height, stamp, at, at, steps, mode, steps),
        width,
        height,
        at.x as int,
        at.y as int,
        stamp,
        color,
    );
}

} // verus!
