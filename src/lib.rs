//! A layered raster-painting engine: brush stamps, three blend laws (paint,
//! erase, smudge), layer compositing, and an undo/redo history that rebuilds
//! pixel state by replaying recorded strokes.
//!
//! All pixel data is straight-alpha RGBA8. Fractions (stamp weights, alpha,
//! strengths) are bytes where `255` stands for `1.0`; brush spacing is in
//! hundredths of the radius.

pub mod brush;
pub mod canvas;
pub mod color;
pub mod export;
pub mod geometry;
pub mod laws;
pub mod operations;
pub mod raster;
pub mod session;
pub mod text;
pub mod user;

pub use brush::{Brush, BrushBaseSettings, Pixel, Stamp};
pub use canvas::{Canvas, CanvasError, CanvasLayer, CanvasState};
pub use color::{Color, ALPHA_CHANNEL, BLUE_CHANNEL, GREEN_CHANNEL, RED_CHANNEL};
pub use export::export_file_name;
pub use geometry::{integer_sqrt, target_px_in_bounds, CanvasPos};
pub use operations::{PaintOperation, SmudgeOperation};
pub use raster::BlendMode;
pub use session::{PointerButton, Redraw, Session, SessionError, ShortcutKey};
pub use user::{
    BrushStroke, BrushStrokeFrame, BrushStrokeKind, StrokeError, User, UserAction, UserActionData,
    UserActionKind,
};
