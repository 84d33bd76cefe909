//! Single-frame paint, erase and smudge operations over a pixel buffer.

use vstd::prelude::*;
use crate::brush::Brush;
use crate::color::Color;
use crate::geometry::CanvasPos;
use crate::raster::{buffer_ok, lemma_smudge_zero_is_identity, stroke, stroke_segment, BlendMode};

verus! {

/// One paint or erase frame over an RGBA8 buffer.
#[derive(Clone, Copy, Debug)]
pub struct PaintOperation {
    pub canvas_width: u32,
    pub canvas_height: u32,
    pub brush: Brush,
    pub color: Color,
    pub cursor_position: CanvasPos,
    pub last_cursor_position: CanvasPos,
    pub is_eraser: bool,
}

impl PaintOperation {
    /// Erasing lowers alpha by the brush strength; painting lays the colour.
    pub open spec fn mode(self) -> BlendMode {
        if self.is_eraser {
            BlendMode::Erase { strength: self.brush.spec_base().strength }
        } else {
            BlendMode::Paint { color: self.color }
        }
    }

    /// Applies the frame to `pixel_buffer`.
    pub fn process(self, pixel_buffer: &mut Vec<u8>)
        requires
            buffer_ok(old(pixel_buffer)@, self.canvas_width as int, self.canvas_height as int),
            self.brush.wf(),
        ensures
            final(pixel_buffer)@ == stroke_segment(
                old(pixel_buffer)@,
                self.canvas_width as int,
                self.canvas_height as int,
                self.brush,
                self.last_cursor_position,
                self.cursor_position,
                self.mode(),
            ),
            final(pixel_buffer)@.len() == old(pixel_buffer)@.len(),
    {
        let mode = if self.is_eraser {
            BlendMode::Erase { strength: self.brush.strength() }
        } else {
            BlendMode::Paint { color: self.color }
        };
        stroke(
            pixel_buffer,
            self.canvas_width,
            self.canvas_height,
            &self.brush,
            self.last_cursor_position,
            self.cursor_position,
            mode,
        );
    }
}

/// One smudge frame over an RGBA8 buffer.
#[derive(Clone, Copy, Debug)]
pub struct SmudgeOperation {
    pub pixel_buffer_width: u32,
    pub pixel_buffer_height: u32,
    pub brush: Brush,
    pub cursor_position: CanvasPos,
    pub last_cursor_position: CanvasPos,
    /// `255` for `1.0`.
    pub smudge_strength: u8,
}

impl SmudgeOperation {
    /// Smudging carries the pointer motion of the frame.
    pub open spec fn mode(self) -> BlendMode {
        BlendMode::Smudge {
            dx: (self.cursor_position.x - self.last_cursor_position.x) as i64,
            dy: (self.cursor_position.y - self.last_cursor_position.y) as i64,
            strength: self.smudge_strength,
        }
    }

    /// Applies the frame to `pixel_buffer`. At strength zero nothing changes.
    pub fn process(self, pixel_buffer: &mut Vec<u8>)
        requires
            buffer_ok(
                old(pixel_buffer)@,
                self.pixel_buffer_width as int,
                self.pixel_buffer_height as int,
            ),
            self.brush.wf(),
        ensures
            final(pixel_buffer)@ == stroke_segment(
                old(pixel_buffer)@,
                self.pixel_buffer_width as int,
                self.pixel_buffer_height as int,
                self.brush,
                self.last_cursor_position,
                self.cursor_position,
                self.mode(),
            ),
            final(pixel_buffer)@.len() == old(pixel_buffer)@.len(),
            self.smudge_strength == 0 ==> final(pixel_buffer)@ == old(pixel_buffer)@,
    {
        let mode = BlendMode::Smudge {
            dx: self.cursor_position.x as i64 - self.last_cursor_position.x as i64,
            dy: self.cursor_position.y as i64 - self.last_cursor_position.y as i64,
            strength: self.smudge_strength,
        };
        proof {
            if self.smudge_strength == 0 {
                lemma_smudge_zero_is_identity(
                    pixel_buffer@,
                    self.pixel_buffer_width as int,
                    self.pixel_buffer_height as int,
                    self.brush,
                    self.last_cursor_position,
                    self.cursor_position,
                    mode->dx,
                    mode->dy,
                );
            }
        }
        stroke(
            pixel_buffer,
            self.pixel_buffer_width,
            self.pixel_buffer_height,
            &self.brush,
            self.last_cursor_position,
            self.cursor_position,
            mode,
        );
    }
}

} // verus!
