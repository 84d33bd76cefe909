use rustbrush::{integer_sqrt, Brush, BrushBaseSettings, Pixel};

fn soft_circle(inner_radius: u32, radius: u32) -> Brush {
    Brush::SoftCircle {
        inner_radius,
        base: BrushBaseSettings { radius, spacing: 100, strength: 255 },
    }
}

fn weight_at(pixels: &[Pixel], x: i32, y: i32) -> Option<u8> {
    pixels.iter().find(|p| p.x == x && p.y == y).map(|p| p.alpha)
}

#[test]
fn radius_one_stamp_is_exact() {
    let stamp = soft_circle(0, 1).compute_stamp();
    let expected = vec![
        Pixel { x: -1, y: 0, alpha: 0 },
        Pixel { x: 0, y: -1, alpha: 0 },
        Pixel { x: 0, y: 0, alpha: 255 },
        Pixel { x: 0, y: 1, alpha: 0 },
        Pixel { x: 1, y: 0, alpha: 0 },
    ];
    assert_eq!(stamp.pixels, expected);
}

#[test]
fn falloff_follows_the_raised_cosine() {
    let stamp = soft_circle(0, 2).compute_stamp();
    // halfway out: 255 * (1 + cos(pi / 2)) / 2, from the sampled table
    assert_eq!(weight_at(&stamp.pixels, 1, 0), Some(128));
    // sqrt(2) of 2 pixels out, interpolated between samples
    assert_eq!(weight_at(&stamp.pixels, 1, 1), Some(51));
    assert_eq!(weight_at(&stamp.pixels, 2, 0), Some(0));
    assert_eq!(weight_at(&stamp.pixels, 2, 1), None);
}

#[test]
fn default_brush_profile_along_an_axis() {
    let stamp = Brush::default().compute_stamp();
    let row: Vec<u8> = (-10..=10).map(|x| weight_at(&stamp.pixels, x, 0).unwrap()).collect();
    assert_eq!(
        row,
        vec![
            0, 9, 30, 66, 107, 151, 192, 226, 247, 255, 255, 255, 247, 226, 192, 151, 107, 66, 30,
            9, 0
        ]
    );
}

#[test]
fn stamp_stays_within_radius_and_fades_outwards() {
    let brush = soft_circle(3, 9);
    let stamp = brush.compute_stamp();
    for p in &stamp.pixels {
        assert!(p.x * p.x + p.y * p.y <= 81);
    }
    for p in &stamp.pixels {
        for q in &stamp.pixels {
            if p.x * p.x + p.y * p.y <= q.x * q.x + q.y * q.y {
                assert!(p.alpha >= q.alpha);
            }
        }
    }
    let count = (-9i32..=9).flat_map(|x| (-9i32..=9).map(move |y| (x, y)))
        .filter(|(x, y)| x * x + y * y <= 81)
        .count();
    assert_eq!(stamp.pixels.len(), count);
}

#[test]
fn stamp_is_symmetric_under_quarter_turns() {
    let stamp = soft_circle(2, 7).compute_stamp();
    for p in &stamp.pixels {
        assert_eq!(weight_at(&stamp.pixels, -p.y, p.x), Some(p.alpha));
        assert_eq!(weight_at(&stamp.pixels, -p.x, -p.y), Some(p.alpha));
        assert_eq!(weight_at(&stamp.pixels, p.y, -p.x), Some(p.alpha));
    }
}

#[test]
fn brush_accessors_and_builders() {
    let brush = Brush::default();
    assert_eq!(brush.radius(), 10);
    assert_eq!(brush.inner_radius(), 1);
    assert_eq!(brush.spacing(), 100);
    assert_eq!(brush.strength(), 255);
    let edited = brush.with_radius(4).with_spacing(25).with_strength(128);
    assert_eq!(edited.radius(), 4);
    assert_eq!(edited.spacing(), 25);
    assert_eq!(edited.strength(), 128);
    assert_eq!(brush.radius(), 10);
    let mut set = brush;
    set.set_radius(20);
    set.set_spacing(50);
    set.set_strength(7);
    assert_eq!((set.radius(), set.spacing(), set.strength(), set.inner_radius()), (20, 50, 7, 1));
}

#[test]
fn integer_square_roots() {
    assert_eq!(integer_sqrt(0), 0);
    assert_eq!(integer_sqrt(1), 1);
    assert_eq!(integer_sqrt(15), 3);
    assert_eq!(integer_sqrt(16), 4);
    assert_eq!(integer_sqrt(131072), 362);
    assert_eq!(integer_sqrt(u128::MAX), u64::MAX as u128);
}

#[test]
fn radius_is_not_capped_at_small_sizes() {
    let brush = Brush::default().with_radius(5000);
    assert_eq!(brush.radius(), 5000);
    assert_eq!(brush.id(), "soft-circle");
    let stamp = soft_circle(100, 300).compute_stamp();
    assert_eq!(weight_at(&stamp.pixels, 0, 0), Some(255));
    assert_eq!(weight_at(&stamp.pixels, 300, 0), Some(0));
    assert_eq!(weight_at(&stamp.pixels, 0, 301), None);
}
