//! Layers, the canvas that stacks them, and compositing them into one
//! buffer for display or export.

use vstd::prelude::*;
use crate::color::{over, Color};
use crate::operations::{PaintOperation, SmudgeOperation};
use crate::raster::buffer_ok;
use crate::text::{decimal, push_decimal};
use crate::user::{apply_frame, BrushStrokeFrame, BrushStrokeKind, SMUDGE_STRENGTH};

verus! {

/// Why the canvas refused a request.
#[derive(Clone, Copy, Debug, PartialEq, Eq, Structural)]
pub enum CanvasError {
    /// The layer index is not below the number of layers.
    LayerOutOfRange,
}

/// What a layer holds, as values.
pub struct LayerView {
    pub pixels: Seq<u8>,
    pub visible: bool,
    pub name: Seq<char>,
    pub dirty: bool,
}

/// One named RGBA8 pixel layer.
pub struct CanvasLayer {
    pixels: Vec<u8>,
    pub visible: bool,
    pub name: String,
    dirty: bool,
}

/// `width * height` fully transparent pixels.
pub open spec fn blank(width: int, height: int) -> Seq<u8> {
    Seq::new((width * height * 4) as nat, |i: int| 0u8)
}

fn zeroed(len: usize) -> (v: Vec<u8>)
    ensures
        v@ == Seq::new(len as nat, |i: int| 0u8),
{
    let mut v: Vec<u8> = Vec::new();
    while v.len() < len
        invariant
            v.len() <= len,
            v@ == Seq::new(v.len() as nat, |i: int| 0u8),
        decreases len - v.len(),
    {
        v.push(0);
        assert(v@ =~= Seq::new(v.len() as nat, |i: int| 0u8));
    }
    v
}

impl View for CanvasLayer {
    type V = LayerView;

    closed spec fn view(&self) -> LayerView {
        LayerView {
            pixels: self.pixels@,
            visible: self.visible,
            name: self.name@,
            dirty: self.dirty,
        }
    }
}

impl CanvasLayer {
    /// A visible, fully transparent layer of `width * height` pixels, marked
    /// dirty so that it is shown.
    pub fn new(width: u32, height: u32, name: String) -> (layer: CanvasLayer)
        requires
            width * height * 4 <= usize::MAX,
        ensures
            layer@.pixels == blank(width as int, height as int),
            layer@.visible,
            layer@.name == name@,
            layer@.dirty,
    {
        assert(width * height * 4 == (width as usize * height as usize) * 4) by (nonlinear_arith);
        CanvasLayer {
            pixels: zeroed(width as usize * height as usize * 4),
            visible: true,
            name,
            dirty: true,
        }
    }

    pub fn mark_dirty(&mut self)
        ensures
            final(self)@ == (LayerView { dirty: true, ..old(self)@ }),
    {
        self.dirty = true;
    }

    pub fn mark_clean(&mut self)
        ensures
            final(self)@ == (LayerView { dirty: false, ..old(self)@ }),
    {
        self.dirty = false;
    }

    pub fn is_dirty(&self) -> (r: bool)
        ensures
            r == self@.dirty,
    {
        self.dirty
    }

    pub fn pixels(&self) -> (r: &Vec<u8>)
        ensures
            r@ == self@.pixels,
    {
        &self.pixels
    }
}

/// The layers and their shared size.
pub struct CanvasState {
    pub layers: Vec<CanvasLayer>,
    pub width: u32,
    pub height: u32,
}

/// An ordered stack of equally sized layers; the first is at the bottom.
pub struct Canvas {
    pub state: CanvasState,
}

/// The RGBA8 colour of pixel `p` of `buf`.
pub open spec fn pixel_color(buf: Seq<u8>, p: int) -> Color {
    Color { r: buf[4 * p], g: buf[4 * p + 1], b: buf[4 * p + 2], a: buf[4 * p + 3] }
}

/// Pixel `p` of the first `n` layers laid over each other, bottom first,
/// starting from transparent; hidden layers are passed over.
pub open spec fn composite(layers: Seq<LayerView>, n: int, p: int) -> Color
    decreases n,
{
    if n <= 0 {
        Color { r: 0, g: 0, b: 0, a: 0 }
    } else {
        let below = composite(layers, n - 1, p);
        if layers[n - 1].visible {
            over(below, pixel_color(layers[n - 1].pixels, p))
        } else {
            below
        }
    }
}

/// `out` is the layers composited over transparent, pixel by pixel.
pub open spec fn is_flattened(out: Seq<u8>, layers: Seq<LayerView>, width: int, height: int) -> bool {
    &&& out.len() == width * height * 4
    &&& forall|p: int|
        0 <= p < width * height ==> #[trigger] pixel_color(out, p) == composite(
            layers,
            layers.len() as int,
            p,
        )
}

/// What presenting does to the layers `before`: when one is dirty, `frame`
/// is their composite and `after` is them marked clean; otherwise there is
/// no frame and `after` is `before`.
pub open spec fn render_outcome(
    before: Seq<LayerView>,
    after: Seq<LayerView>,
    frame: Option<Vec<u8>>,
    width: int,
    height: int,
) -> bool {
    &&& frame is Some <==> exists|i: int| 0 <= i < before.len() && (#[trigger] before[i]).dirty
    &&& frame is None ==> after == before
    &&& frame matches Some(out) ==> {
        &&& is_flattened(out@, before, width, height)
        &&& after.len() == before.len()
        &&& forall|i: int|
            0 <= i < before.len() ==> #[trigger] after[i] == (LayerView { dirty: false, ..before[i] })
    }
}

impl Canvas {
    pub open spec fn width(&self) -> int {
        self.state.width as int
    }

    pub open spec fn height(&self) -> int {
        self.state.height as int
    }

    /// The layers as values, bottom first.
    pub open spec fn layer_views(&self) -> Seq<LayerView> {
        self.state.layers@.map_values(|l: CanvasLayer| l@)
    }

    /// Every layer holds exactly `width * height` pixels, and that many bytes
    /// can be addressed.
    pub open spec fn wf(&self) -> bool {
        &&& self.width() * self.height() * 4 <= usize::MAX
        &&& forall|i: int|
            0 <= i < self.state.layers@.len() ==> (#[trigger] self.state.layers@[i])@.pixels.len()
                == self.width() * self.height() * 4
    }

    /// A canvas of the given size without layers.
    pub fn new(width: u32, height: u32) -> (canvas: Canvas)
        requires
            width * height * 4 <= usize::MAX,
        ensures
            canvas.wf(),
            canvas.width() == width,
            canvas.height() == height,
            canvas.layer_views() == Seq::<LayerView>::empty(),
    {
        let canvas = Canvas { state: CanvasState { layers: Vec::new(), width, height } };
        assert(canvas.layer_views() =~= Seq::<LayerView>::empty());
        canvas
    }

    /// The layers, bottom first.
    pub fn layers(&self) -> (r: &Vec<CanvasLayer>)
        ensures
            r@.map_values(|l: CanvasLayer| l@) == self.layer_views(),
    {
        &self.state.layers
    }

    /// Adds a transparent layer called `name` on top.
    pub fn add_named_layer(&mut self, name: String)
        requires
            old(self).wf(),
        ensures
            final(self).wf(),
            final(self).width() == old(self).width(),
            final(self).height() == old(self).height(),
            final(self).layer_views() == old(self).layer_views().push(
                LayerView {
                    pixels: blank(old(self).width(), old(self).height()),
                    visible: true,
                    name: name@,
                    dirty: true,
                },
            ),
    {
        let layer = CanvasLayer::new(self.state.width, self.state.height, name);
        self.state.layers.push(layer);
        assert(self.layer_views() =~= old(self).layer_views().push(layer@));
    }

    /// Adds a transparent layer on top, called "Layer " followed by its
    /// position counted from one.
    pub fn add_layer(&mut self)
        requires
            old(self).wf(),
            old(self).layer_views().len() < usize::MAX,
        ensures
            final(self).wf(),
            final(self).width() == old(self).width(),
            final(self).height() == old(self).height(),
            final(self).layer_views() == old(self).layer_views().push(
                LayerView {
                    pixels: blank(old(self).width(), old(self).height()),
                    visible: true,
                    name: "Layer "@ + decimal(old(self).layer_views().len() + 1),
                    dirty: true,
                },
            ),
    {
        let mut name = String::from_str("Layer ");
        let count = self.state.layers.len();
        proof {
            assert(old(self).layer_views().len() == count);
        }
        assert(count < usize::MAX);
        push_decimal(&mut name, count as u64 + 1);
        self.add_named_layer(name);
    }

    /// Makes every layer fully transparent and marks it dirty.
    pub fn clear(&mut self)
        requires
            old(self).wf(),
        ensures
            final(self).wf(),
            final(self).width() == old(self).width(),
            final(self).height() == old(self).height(),
            final(self).layer_views().len() == old(self).layer_views().len(),
            forall|i: int|
                0 <= i < old(self).layer_views().len() ==> #[trigger] final(self).layer_views()[i]
                    == (LayerView {
                    pixels: blank(old(self).width(), old(self).height()),
                    dirty: true,
                    ..old(self).layer_views()[i]
                }),
    {
        let n = self.state.layers.len();
        let mut i: usize = 0;
        while i < n
            invariant
                n == self.layer_views().len(),
                n == old(self).layer_views().len(),
                i <= n,
                self.wf(),
                self.width() == old(self).width(),
                self.height() == old(self).height(),
                forall|j: int|
                    0 <= j < i ==> #[trigger] self.layer_views()[j] == (LayerView {
                        pixels: blank(old(self).width(), old(self).height()),
                        dirty: true,
                        ..old(self).layer_views()[j]
                    }),
                forall|j: int|
                    i <= j < n ==> #[trigger] self.layer_views()[j] == old(self).layer_views()[j],
            decreases n - i,
        {
            self.clear_layer(i);
            i = i + 1;
        }
    }

    /// Makes layer `layer` fully transparent and marks it dirty; an index
    /// past the last layer changes nothing.
    pub fn clear_layer(&mut self, layer: usize)
        requires
            old(self).wf(),
        ensures
            final(self).wf(),
            final(self).width() == old(self).width(),
            final(self).height() == old(self).height(),
            layer >= old(self).layer_views().len() ==> final(self).layer_views()
                == old(self).layer_views(),
            layer < old(self).layer_views().len() ==> final(self).layer_views()
                == old(self).layer_views().update(
                layer as int,
                LayerView {
                    pixels: blank(old(self).width(), old(self).height()),
                    dirty: true,
                    ..old(self).layer_views()[layer as int]
                },
            ),
    {
        if layer >= self.state.layers.len() {
            return ;
        }
        let len = self.state.width as usize * self.state.height as usize * 4;
        assert(len == self.width() * self.height() * 4) by (nonlinear_arith)
            requires
                len == self.state.width as usize * self.state.height as usize * 4,
        ;
        self.state.layers[layer].pixels = zeroed(len);
        self.state.layers[layer].dirty = true;
        assert(self.layer_views() =~= old(self).layer_views().update(
            layer as int,
            LayerView {
                pixels: blank(old(self).width(), old(self).height()),
                dirty: true,
                ..old(self).layer_views()[layer as int]
            },
        ));
    }

    /// Applies one frame of a stroke of kind `kind` to layer `layer` and
    /// marks the layer dirty. An index past the last layer is refused and
    /// changes nothing.
    pub fn process_brush_stroke_frame(
        &mut self,
        layer: usize,
        kind: BrushStrokeKind,
        frame: &BrushStrokeFrame,
    ) -> (r: Result<(), CanvasError>)
        requires
            old(self).wf(),
            frame.brush.wf(),
        ensures
            final(self).wf(),
            final(self).width() == old(self).width(),
            final(self).height() == old(self).height(),
            layer >= old(self).layer_views().len() ==> r == Err::<(), CanvasError>(
                CanvasError::LayerOutOfRange,
            ) && final(self).layer_views() == old(self).layer_views(),
            layer < old(self).layer_views().len() ==> r == Ok::<(), CanvasError>(())
                && final(self).layer_views() == old(self).layer_views().update(
                layer as int,
                LayerView {
                    pixels: apply_frame(
                        old(self).layer_views()[layer as int].pixels,
                        old(self).width(),
                        old(self).height(),
                        kind,
                        *frame,
                    ),
                    dirty: true,
                    ..old(self).layer_views()[layer as int]
                },
            ),
    {
        if layer >= self.state.layers.len() {
            return Err(CanvasError::LayerOutOfRange);
        }
        match kind {
            BrushStrokeKind::Paint => self.paint(layer, frame),
            BrushStrokeKind::Erase => self.erase(layer, frame),
            BrushStrokeKind::Smudge => self.smudge(layer, frame),
        }
        Ok(())
    }

    fn paint(&mut self, layer: usize, frame: &BrushStrokeFrame)
        requires
            old(self).wf(),
            frame.brush.wf(),
            layer < old(self).layer_views().len(),
        ensures
            final(self).wf(),
            final(self).width() == old(self).width(),
            final(self).height() == old(self).height(),
            final(self).layer_views() == old(self).layer_views().update(
                layer as int,
                LayerView {
                    pixels: apply_frame(
                        old(self).layer_views()[layer as int].pixels,
                        old(self).width(),
                        old(self).height(),
                        BrushStrokeKind::Paint,
                        *frame,
                    ),
                    dirty: true,
                    ..old(self).layer_views()[layer as int]
                },
            ),
    {
        let operation = PaintOperation {
            canvas_width: self.state.width,
            canvas_height: self.state.height,
            brush: frame.brush,
            color: frame.color,
            cursor_position: frame.cursor_position,
            last_cursor_position: frame.last_cursor_position,
            is_eraser: false,
        };
        self.state.layers[layer].dirty = true;
        assert(self.state.layers@[layer as int]@.pixels.len() == self.width() * self.height() * 4);
        operation.process(&mut self.state.layers[layer].pixels);
        assert(self.layer_views() =~= old(self).layer_views().update(
            layer as int,
            LayerView {
                pixels: apply_frame(
                    old(self).layer_views()[layer as int].pixels,
                    old(self).width(),
                    old(self).height(),
                    BrushStrokeKind::Paint,
                    *frame,
                ),
                dirty: true,
                ..old(self).layer_views()[layer as int]
            },
        ));
        proof {
            self.lemma_wf_after_frame(*old(self), layer as int);
        }
    }

    fn erase(&mut self, layer: usize, frame: &BrushStrokeFrame)
        requires
            old(self).wf(),
            frame.brush.wf(),
            layer < old(self).layer_views().len(),
        ensures
            final(self).wf(),
            final(self).width() == old(self).width(),
            final(self).height() == old(self).height(),
            final(self).layer_views() == old(self).layer_views().update(
                layer as int,
                LayerView {
                    pixels: apply_frame(
                        old(self).layer_views()[layer as int].pixels,
                        old(self).width(),
                        old(self).height(),
                        BrushStrokeKind::Erase,
                        *frame,
                    ),
                    dirty: true,
                    ..old(self).layer_views()[layer as int]
                },
            ),
    {
        let operation = PaintOperation {
            canvas_width: self.state.width,
            canvas_height: self.state.height,
            brush: frame.brush,
            color: frame.color,
            cursor_position: frame.cursor_position,
            last_cursor_position: frame.last_cursor_position,
            is_eraser: true,
        };
        self.state.layers[layer].dirty = true;
        assert(self.state.layers@[layer as int]@.pixels.len() == self.width() * self.height() * 4);
        operation.process(&mut self.state.layers[layer].pixels);
        assert(self.layer_views() =~= old(self).layer_views().update(
            layer as int,
            LayerView {
                pixels: apply_frame(
                    old(self).layer_views()[layer as int].pixels,
                    old(self).width(),
                    old(self).height(),
                    BrushStrokeKind::Erase,
                    *frame,
                ),
                dirty: true,
                ..old(self).layer_views()[layer as int]
            },
        ));
        proof {
            self.lemma_wf_after_frame(*old(self), layer as int);
        }
    }

    fn smudge(&mut self, layer: usize, frame: &BrushStrokeFrame)
        requires
            old(self).wf(),
            frame.brush.wf(),
            layer < old(self).layer_views().len(),
        ensures
            final(self).wf(),
            final(self).width() == old(self).width(),
            final(self).height() == old(self).height(),
            final(self).layer_views() == old(self).layer_views().update(
                layer as int,
                LayerView {
                    pixels: apply_frame(
                        old(self).layer_views()[layer as int].pixels,
                        old(self).width(),
                        old(self).height(),
                        BrushStrokeKind::Smudge,
                        *frame,
                    ),
                    dirty: true,
                    ..old(self).layer_views()[layer as int]
                },
            ),
    {
        let operation = SmudgeOperation {
            pixel_buffer_width: self.state.width,
            pixel_buffer_height: self.state.height,
            brush: frame.brush,
            cursor_position: frame.cursor_position,
            last_cursor_position: frame.last_cursor_position,
            smudge_strength: SMUDGE_STRENGTH,
        };
        self.state.layers[layer].dirty = true;
        assert(self.state.layers@[layer as int]@.pixels.len() == self.width() * self.height() * 4);
        operation.process(&mut self.state.layers[layer].pixels);
        assert(self.layer_views() =~= old(self).layer_views().update(
            layer as int,
            LayerView {
                pixels: apply_frame(
                    old(self).layer_views()[layer as int].pixels,
                    old(self).width(),
                    old(self).height(),
                    BrushStrokeKind::Smudge,
                    *frame,
                ),
                dirty: true,
                ..old(self).layer_views()[layer as int]
            },
        ));
        proof {
            self.lemma_wf_after_frame(*old(self), layer as int);
        }
    }

    proof fn lemma_wf_after_frame(&self, before: Canvas, layer: int)
        requires
            before.wf(),
            0 <= layer < before.layer_views().len(),
            self.state.width == before.state.width,
            self.state.height == before.state.height,
            self.state.layers@.len() == before.state.layers@.len(),
            self.state.layers@[layer]@.pixels.len() == before.width() * before.height() * 4,
            forall|i: int|
                0 <= i < before.state.layers@.len() && i != layer ==> #[trigger] self.state.layers@[i]@
                    == before.state.layers@[i]@,
        ensures
            self.wf(),
    {
        assert forall|i: int| 0 <= i < self.state.layers@.len() implies (
        #[trigger] self.state.layers@[i])@.pixels.len() == self.width() * self.height() * 4 by {
            if i != layer {
                assert(before.state.layers@[i]@.pixels.len() == before.width() * before.height() * 4);
            }
        }
    }

    /// All layers composited into one RGBA8 buffer, hidden layers passed
    /// over, whatever the dirty flags say.
    pub fn flatten(&self) -> (out: Vec<u8>)
        requires
            self.wf(),
        ensures
            is_flattened(out@, self.layer_views(), self.width(), self.height()),
    {
        let n: usize = self.state.width as usize * self.state.height as usize;
        assert(n * 4 == self.width() * self.height() * 4) by (nonlinear_arith)
            requires
                n == self.state.width as usize * self.state.height as usize,
        ;
        let ghost views = self.layer_views();
        let count = self.state.layers.len();
        let mut out: Vec<u8> = Vec::new();
        let mut p: usize = 0;
        while p < n
            invariant
                n * 4 == self.width() * self.height() * 4,
                n * 4 <= usize::MAX,
                self.wf(),
                views == self.layer_views(),
                count == views.len(),
                p <= n,
                out@.len() == 4 * p,
                forall|q: int|
                    0 <= q < p ==> #[trigger] pixel_color(out@, q) == composite(
                        views,
                        views.len() as int,
                        q,
                    ),
            decreases n - p,
        {
            let mut c = Color::new(0, 0, 0, 0);
            let mut l: usize = 0;
            while l < count
                invariant
                    n * 4 == self.width() * self.height() * 4,
                    n * 4 <= usize::MAX,
                    self.wf(),
                    views == self.layer_views(),
                    count == views.len(),
                    p < n,
                    l <= count,
                    c == composite(views, l as int, p as int),
                decreases count - l,
            {
                let layer = &self.state.layers[l];
                assert(views[l as int] == layer@);
                assert(layer@.pixels.len() == n * 4);
                if layer.visible {
                    let px = &layer.pixels;
                    let src = Color::new(px[4 * p], px[4 * p + 1], px[4 * p + 2], px[4 * p + 3]);
                    c = c.blend(&src);
                }
                l = l + 1;
            }
            let ghost before = out@;
            out.push(c.r);
            out.push(c.g);
            out.push(c.b);
            out.push(c.a);
            assert forall|q: int| 0 <= q < p + 1 implies #[trigger] pixel_color(out@, q)
                == composite(views, views.len() as int, q) by {
                if q < p {
                    assert(pixel_color(out@, q) == pixel_color(before, q));
                }
            }
            p = p + 1;
        }
        out
    }

    /// The frame to present, when some layer changed since the last one:
    /// the flattened layers, after which every layer is marked clean. When
    /// nothing changed, `None`, and nothing changes.
    pub fn render(&mut self) -> (frame: Option<Vec<u8>>)
        requires
            old(self).wf(),
        ensures
            final(self).wf(),
            final(self).width() == old(self).width(),
            final(self).height() == old(self).height(),
            render_outcome(
                old(self).layer_views(),
                final(self).layer_views(),
                frame,
                old(self).width(),
                old(self).height(),
            ),
    {
        let count = self.state.layers.len();
        let mut any_dirty = false;
        let mut l: usize = 0;
        while l < count
            invariant
                count == self.layer_views().len(),
                l <= count,
                any_dirty <==> exists|i: int| 0 <= i < l && (#[trigger] self.layer_views()[i]).dirty,
            decreases count - l,
        {
            assert(self.layer_views()[l as int] == self.state.layers@[l as int]@);
            if self.state.layers[l].is_dirty() {
                any_dirty = true;
            }
            l = l + 1;
        }
        if !any_dirty {
            return None;
        }
        let out = self.flatten();
        let mut l: usize = 0;
        while l < count
            invariant
                count == self.layer_views().len(),
                count == old(self).layer_views().len(),
                l <= count,
                self.state.width == old(self).state.width,
                self.state.height == old(self).state.height,
                forall|i: int|
                    0 <= i < l ==> #[trigger] self.layer_views()[i] == (LayerView {
                        dirty: false,
                        ..old(self).layer_views()[i]
                    }),
                forall|i: int|
                    l <= i < count ==> #[trigger] self.layer_views()[i] == old(self).layer_views()[i],
            decreases count - l,
        {
            let ghost before = self.layer_views();
            self.state.layers[l].dirty = false;
            assert(self.layer_views() =~= before.update(
                l as int,
                LayerView { dirty: false, ..before[l as int] },
            ));
            l = l + 1;
        }
        proof {
            assert forall|i: int| 0 <= i < self.state.layers@.len() implies (
            #[trigger] self.state.layers@[i])@.pixels.len() == self.width() * self.height() * 4 by {
                assert(self.layer_views()[i] == self.state.layers@[i]@);
                assert(old(self).layer_views()[i] == old(self).state.layers@[i]@);
            }
        }
        Some(out)
    }
}

} // verus!
