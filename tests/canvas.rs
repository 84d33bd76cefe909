use rustbrush::{
    Brush, BrushBaseSettings, BrushStrokeFrame, BrushStrokeKind, Canvas, CanvasError, CanvasPos,
    Color,
};

fn click(brush: Brush, color: Color, x: i32, y: i32) -> BrushStrokeFrame {
    BrushStrokeFrame {
        brush,
        color,
        cursor_position: CanvasPos::new(x, y),
        last_cursor_position: CanvasPos::new(x, y),
        timestamp: 0,
    }
}

fn dot() -> Brush {
    Brush::SoftCircle { inner_radius: 0, base: BrushBaseSettings { radius: 1, spacing: 100, strength: 255 } }
}

fn two_layer_canvas(width: u32, height: u32) -> Canvas {
    let mut canvas = Canvas::new(width, height);
    canvas.add_named_layer("Background".to_string());
    canvas.add_named_layer("Layer 1".to_string());
    canvas
}

#[test]
fn over_operator_values() {
    let red = Color::new(255, 0, 0, 255);
    let half_blue = Color::new(0, 0, 255, 128);
    assert_eq!(red.blend(&half_blue), Color::new(127, 0, 128, 255));
    let clear = Color::new(0, 0, 0, 0);
    assert_eq!(clear.blend(&half_blue), half_blue);
    assert_eq!(half_blue.blend(&clear), half_blue);
    assert_eq!(clear.blend(&clear), clear);
    assert_eq!(Color::new(0, 255, 0, 100).blend(&Color::new(255, 0, 0, 100)), Color::new(158, 96, 0, 160));
}

#[test]
fn premultiplied_bytes() {
    assert_eq!(Color::new(200, 100, 50, 128).premultiplied(), [100, 50, 25, 128]);
    assert_eq!(Color::white().premultiplied(), [255, 255, 255, 255]);
    assert_eq!(Color::new(9, 9, 9, 0).premultiplied(), [0, 0, 0, 0]);
}

#[test]
fn colour_constructors() {
    assert_eq!(Color::white(), Color::new(255, 255, 255, 255));
    assert_eq!(Color::black(), Color::from_rgba(0, 0, 0, 255));
    assert_eq!(Color::white().with_alpha(9), Color::new(255, 255, 255, 9));
}

#[test]
fn new_layers_are_blank_visible_and_dirty() {
    let canvas = two_layer_canvas(3, 2);
    assert_eq!(canvas.layers().len(), 2);
    for layer in canvas.layers() {
        assert_eq!(layer.pixels(), &vec![0u8; 3 * 2 * 4]);
        assert!(layer.visible);
        assert!(layer.is_dirty());
    }
    assert_eq!(canvas.layers()[0].name, "Background");
}

#[test]
fn added_layers_are_numbered() {
    let mut canvas = two_layer_canvas(2, 2);
    canvas.add_layer();
    assert_eq!(canvas.layers()[2].name, "Layer 3");
    for _ in 0..8 {
        canvas.add_layer();
    }
    assert_eq!(canvas.layers()[10].name, "Layer 11");
}

#[test]
fn flatten_composites_visible_layers_bottom_up() {
    let mut canvas = two_layer_canvas(2, 1);
    let fill = Brush::SoftCircle { inner_radius: 2, base: BrushBaseSettings { radius: 2, spacing: 100, strength: 255 } };
    canvas.process_brush_stroke_frame(0, BrushStrokeKind::Paint, &click(fill, Color::new(255, 0, 0, 255), 0, 0)).unwrap();
    canvas.process_brush_stroke_frame(1, BrushStrokeKind::Paint, &click(dot(), Color::new(0, 0, 255, 255), 1, 0)).unwrap();
    assert_eq!(canvas.flatten(), vec![255, 0, 0, 255, 0, 0, 255, 255]);
    canvas.state.layers[1].visible = false;
    assert_eq!(canvas.flatten(), vec![255, 0, 0, 255, 255, 0, 0, 255]);
    canvas.state.layers[0].visible = false;
    assert_eq!(canvas.flatten(), vec![0u8; 8]);
}

#[test]
fn render_only_when_dirty() {
    let mut canvas = two_layer_canvas(2, 2);
    let first = canvas.render();
    assert_eq!(first, Some(vec![0u8; 16]));
    assert!(canvas.layers().iter().all(|l| !l.is_dirty()));
    assert_eq!(canvas.render(), None);
    canvas.process_brush_stroke_frame(1, BrushStrokeKind::Paint, &click(dot(), Color::white(), 0, 0)).unwrap();
    assert!(canvas.layers()[1].is_dirty());
    let frame = canvas.render().unwrap();
    assert_eq!(&frame[0..4], &[255, 255, 255, 255]);
    assert_eq!(canvas.render(), None);
    canvas.state.layers[0].mark_dirty();
    assert!(canvas.render().is_some());
}

#[test]
fn out_of_range_layer_is_refused() {
    let mut canvas = two_layer_canvas(2, 2);
    let r = canvas.process_brush_stroke_frame(2, BrushStrokeKind::Paint, &click(dot(), Color::white(), 0, 0));
    assert_eq!(r, Err(CanvasError::LayerOutOfRange));
    assert!(canvas.layers().iter().all(|l| l.pixels().iter().all(|b| *b == 0)));
    canvas.clear_layer(5);
    assert_eq!(canvas.layers().len(), 2);
}

#[test]
fn clearing_layers() {
    let mut canvas = two_layer_canvas(2, 2);
    canvas.process_brush_stroke_frame(0, BrushStrokeKind::Paint, &click(dot(), Color::white(), 0, 0)).unwrap();
    canvas.process_brush_stroke_frame(1, BrushStrokeKind::Paint, &click(dot(), Color::white(), 1, 1)).unwrap();
    let mut one = Canvas::new(2, 2);
    one.add_named_layer("a".to_string());
    one.process_brush_stroke_frame(0, BrushStrokeKind::Paint, &click(dot(), Color::white(), 0, 0)).unwrap();
    one.state.layers[0].mark_clean();
    one.clear_layer(0);
    assert!(one.layers()[0].is_dirty());
    assert_eq!(one.layers()[0].pixels(), &vec![0u8; 16]);
    canvas.clear_layer(1);
    assert_eq!(canvas.layers()[0].pixels()[3], 255);
    assert_eq!(canvas.layers()[1].pixels(), &vec![0u8; 16]);
    canvas.clear();
    assert!(canvas.layers().iter().all(|l| l.pixels().iter().all(|b| *b == 0) && l.is_dirty()));
}

#[test]
fn zero_sized_canvas() {
    let mut canvas = Canvas::new(0, 0);
    canvas.add_named_layer("empty".to_string());
    assert_eq!(canvas.layers()[0].pixels().len(), 0);
    canvas.process_brush_stroke_frame(0, BrushStrokeKind::Paint, &click(dot(), Color::white(), 0, 0)).unwrap();
    assert_eq!(canvas.flatten(), Vec::<u8>::new());
    assert_eq!(canvas.render(), Some(Vec::new()));
}
