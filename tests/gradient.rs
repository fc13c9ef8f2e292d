use pxls_render::gradient::Gradient;
use pxls_render::pixel::Rgba;

const COLORS: [[u8; 4]; 7] = [
    [0, 0, 0, 255],
    [0, 0, 255, 255],
    [0, 255, 255, 255],
    [0, 255, 0, 255],
    [255, 255, 0, 255],
    [255, 0, 0, 255],
    [255, 255, 255, 255],
];

const WEIGHTS: [u32; 7] = [0, 1, 10, 100, 1000, 10000, 100000];

// Weights are integers, so this ramp is written in half units: the stops sit
// at twice their weights, and a query at 2w asks for the color at weight w.
fn init_gradient_half_units() -> Gradient {
    let mut b = Gradient::builder();
    for (c, w) in COLORS.iter().zip(WEIGHTS.iter()) {
        b = b.push(Rgba(*c), 2 * *w);
    }
    b.build()
}

fn init_gradient() -> Gradient {
    let mut b = Gradient::builder();
    for (c, w) in COLORS.iter().zip(WEIGHTS.iter()) {
        b = b.push(Rgba(*c), *w);
    }
    b.build()
}

#[test]
fn test_interp_colors() {
    let gradient = init_gradient_half_units();
    assert_eq!(gradient.at(0), Rgba([0, 0, 0, 255]), "color @ 0.0");
    assert_eq!(gradient.at(1), Rgba([0, 0, 127, 255]), "color @ 0.5");
    assert_eq!(gradient.at(2), Rgba([0, 0, 255, 255]), "color @ 1.0");
    assert_eq!(gradient.at(11), Rgba([0, 127, 255, 255]), "color @ 5.5");
    assert_eq!(gradient.at(20), Rgba([0, 255, 255, 255]), "color @ 10.0");
    assert_eq!(gradient.at(110), Rgba([0, 255, 127, 255]), "color @ 55.0");
    assert_eq!(gradient.at(200), Rgba([0, 255, 0, 255]), "color @ 100.0");
    assert_eq!(gradient.at(1100), Rgba([127, 255, 0, 255]), "color @ 550.0");
    assert_eq!(gradient.at(2000), Rgba([255, 255, 0, 255]), "color @ 1000.0");
    assert_eq!(gradient.at(11000), Rgba([255, 127, 0, 255]), "color @ 5500.0");
    assert_eq!(gradient.at(20000), Rgba([255, 0, 0, 255]), "color @ 10000.0");
    assert_eq!(gradient.at(110000), Rgba([255, 127, 127, 255]), "color @ 55000.0");
    assert_eq!(gradient.at(200000), Rgba([255, 255, 255, 255]), "color @ 100000.0");
}

#[test]
fn test_domain() {
    let gradient = init_gradient();
    assert_eq!(gradient.at(i64::MIN), Rgba([0, 0, 0, 255]));
    assert_eq!(gradient.at(i64::MAX), Rgba([255, 255, 255, 255]));
}

#[test]
fn test_equilavence() {
    let colors: Vec<Rgba> = COLORS.iter().map(|c| Rgba(*c)).collect();
    let a = init_gradient();
    let b = Gradient::builder().push_slice(&colors, &WEIGHTS).build();
    assert_eq!(a.colors().len(), b.colors().len());
    for (a, b) in a.colors().iter().zip(b.colors().iter()) {
        assert_eq!(a.color, b.color);
        assert_eq!(a.weight, b.weight);
    }
}

#[test]
fn gradient_three_stops_midpoint_and_ends() {
    let a = Rgba([10, 200, 31, 255]);
    let b = Rgba([110, 0, 32, 255]);
    let c = Rgba([1, 2, 3, 4]);
    let g = Gradient::builder().push(c, 100).push(a, 0).push(b, 10).build();
    assert_eq!(g.at(5), Rgba([60, 100, 31, 255]));
    assert_eq!(g.at(-5), a);
    assert_eq!(g.at(1000), c);
    assert_eq!(g.domain(), (0, 100));
}

#[test]
fn gradient_sorts_and_keeps_stops() {
    let g = Gradient::builder()
        .push(Rgba([3, 3, 3, 255]), 30)
        .push(Rgba([1, 1, 1, 255]), 10)
        .push(Rgba([2, 2, 2, 255]), 20)
        .build();
    let w: Vec<u32> = g.colors().iter().map(|s| s.weight).collect();
    assert_eq!(w, vec![10, 20, 30]);
    assert_eq!(g.at(10), Rgba([1, 1, 1, 255]));
    assert_eq!(g.at(15), Rgba([1, 1, 1, 255]));
    assert_eq!(g.at(25), Rgba([2, 2, 2, 255]));
}

#[test]
fn gradient_single_stop() {
    let g = Gradient::builder().push(Rgba([9, 8, 7, 6]), 5).build();
    assert_eq!(g.at(5), Rgba([9, 8, 7, 6]));
    assert_eq!(g.at(0), Rgba([9, 8, 7, 6]));
    assert_eq!(g.at(50), Rgba([9, 8, 7, 6]));
}

#[test]
fn gradient_keeps_order_of_equal_weights() {
    let g = Gradient::builder()
        .push(Rgba([2, 2, 2, 255]), 20)
        .push(Rgba([1, 1, 1, 255]), 10)
        .push(Rgba([3, 3, 3, 255]), 10)
        .build();
    let c: Vec<Rgba> = g.colors().iter().map(|s| s.color).collect();
    assert_eq!(c, vec![Rgba([1, 1, 1, 255]), Rgba([3, 3, 3, 255]), Rgba([2, 2, 2, 255])]);
}
