use plasma::color::Color;
use plasma::colormapper::ControlPoint;
use plasma::fastmath::Frac;
use plasma::genetics::Gene;

fn frac(num: i64, den: i64) -> Frac {
    Frac::new(num, den)
}

#[test]
fn test_color_from_hsv() {
    /*
     * H: red -> green -> blue
     * S: white -> color
     * V: black -> color/white
     */
    // Test value = 0
    assert_eq!(Color::from_hsv(frac(0, 1), frac(0, 1), frac(0, 1)), Color::new(0, 0, 0));
    assert_eq!(Color::from_hsv(frac(0, 1), frac(1, 1), frac(0, 1)), Color::new(0, 0, 0));
    assert_eq!(Color::from_hsv(frac(1, 2), frac(0, 1), frac(0, 1)), Color::new(0, 0, 0));
    assert_eq!(Color::from_hsv(frac(1, 2), frac(1, 1), frac(0, 1)), Color::new(0, 0, 0));

    // Test parts of color wheel
    assert_eq!(Color::from_hsv(frac(0, 18), frac(1, 1), frac(1, 1)), Color::new(255, 0, 0));
    assert_eq!(Color::from_hsv(frac(1, 18), frac(1, 1), frac(1, 1)), Color::new(255, 85, 0));
    assert_eq!(Color::from_hsv(frac(3, 18), frac(1, 1), frac(1, 1)), Color::new(255, 255, 0));
    assert_eq!(Color::from_hsv(frac(4, 18), frac(1, 1), frac(1, 1)), Color::new(170, 255, 0));
    assert_eq!(Color::from_hsv(frac(6, 18), frac(1, 1), frac(1, 1)), Color::new(0, 255, 0));
    assert_eq!(Color::from_hsv(frac(7, 18), frac(1, 1), frac(1, 1)), Color::new(0, 255, 85));
    assert_eq!(Color::from_hsv(frac(9, 18), frac(1, 1), frac(1, 1)), Color::new(0, 255, 255));
    assert_eq!(Color::from_hsv(frac(10, 18), frac(1, 1), frac(1, 1)), Color::new(0, 170, 255));
    assert_eq!(Color::from_hsv(frac(12, 18), frac(1, 1), frac(1, 1)), Color::new(0, 0, 255));
    assert_eq!(Color::from_hsv(frac(13, 18), frac(1, 1), frac(1, 1)), Color::new(85, 0, 255));
    assert_eq!(Color::from_hsv(frac(15, 18), frac(1, 1), frac(1, 1)), Color::new(255, 0, 255));
    assert_eq!(Color::from_hsv(frac(16, 18), frac(1, 1), frac(1, 1)), Color::new(255, 0, 170));
    assert_eq!(Color::from_hsv(frac(1, 1), frac(1, 1), frac(1, 1)), Color::new(255, 0, 0));

    // Test saturation
    assert_eq!(Color::from_hsv(frac(0, 1), frac(1, 1), frac(1, 1)), Color::new(255, 0, 0));
    assert_eq!(Color::from_hsv(frac(0, 1), frac(2, 3), frac(1, 1)), Color::new(255, 85, 85));
    assert_eq!(Color::from_hsv(frac(0, 1), frac(1, 3), frac(1, 1)), Color::new(255, 170, 170));
}

// Make sure max/min byte values map to different hues
#[test]
fn test_from_gene_hue() {
    let g1 = Gene { data: vec![255, 255, 255, 255, 255] };
    let g2 = Gene { data: vec![255, 0, 255, 255, 255] };
    let cp1 = ControlPoint::from_gene(&g1).unwrap();
    let cp2 = ControlPoint::from_gene(&g2).unwrap();
    assert!(cp1.color != cp2.color); // Make sure we have different hues
}

// Make sure full range of saturation is possible
#[test]
fn test_from_gene_saturation() {
    let g1 = Gene { data: vec![255, 0, 255, 255, 255] };
    let g2 = Gene { data: vec![255, 0, 0, 255, 255] };
    let cp1 = ControlPoint::from_gene(&g1).unwrap();
    let cp2 = ControlPoint::from_gene(&g2).unwrap();
    assert_eq!(cp1.color, Color::from_hsv(frac(0, 1), frac(1, 1), frac(1, 1)));
    assert_eq!(cp2.color, Color::from_hsv(frac(0, 1), frac(0, 1), frac(1, 1)));
}

// Make sure full range of value is possible
#[test]
fn test_from_gene_value() {
    let g1 = Gene { data: vec![255, 0, 255, 255, 255] };
    let g2 = Gene { data: vec![255, 0, 255, 0, 255] };
    let cp1 = ControlPoint::from_gene(&g1).unwrap();
    let cp2 = ControlPoint::from_gene(&g2).unwrap();
    assert_eq!(cp1.color, Color::from_hsv(frac(0, 1), frac(1, 1), frac(1, 1)));
    assert_eq!(cp2.color, Color::from_hsv(frac(0, 1), frac(1, 1), frac(0, 1)));
}

// Make sure max/min byte values map to different positions
#[test]
fn test_from_gene_position() {
    let g1 = Gene { data: vec![255, 255, 255, 255, 255] };
    let g2 = Gene { data: vec![255, 255, 255, 255, 0] };
    let cp1 = ControlPoint::from_gene(&g1).unwrap();
    let cp2 = ControlPoint::from_gene(&g2).unwrap();
    assert!(cp1.position != cp2.position);
}

// A gene at or below the activation threshold yields no control point;
// one above it always yields one.
#[test]
fn test_activation_gating() {
    let inactive = Gene { data: vec![160, 10, 20, 30, 40] };
    let active = Gene { data: vec![161, 10, 20, 30, 40] };
    let zero = Gene { data: vec![0, 10, 20, 30, 40] };
    assert!(ControlPoint::from_gene(&inactive).is_none());
    assert!(ControlPoint::from_gene(&zero).is_none());
    assert!(ControlPoint::from_gene(&active).is_some());
}

// Wrapping lands in [0, 1) and has period one, also for negative input.
#[test]
fn test_wrap_periodic() {
    let w = frac(-5, 4).wrap();
    assert_eq!((w.num, w.den), (3, 4));
    let w2 = frac(-1, 4).wrap();
    let w3 = frac(3, 4).wrap();
    assert_eq!((w2.num, w2.den), (w3.num, w3.den));
    let w4 = frac(9, 4).wrap();
    assert_eq!((w4.num, w4.den), (1, 4));
    let w5 = frac(0, 7).wrap();
    assert_eq!((w5.num, w5.den), (0, 7));
    let w6 = frac(-8, 4).wrap();
    assert_eq!((w6.num, w6.den), (0, 4));
}

#[test]
fn test_clamp01() {
    let c = frac(-3, 5).clamp01();
    assert_eq!((c.num, c.den), (0, 5));
    let c2 = frac(7, 5).clamp01();
    assert_eq!((c2.num, c2.den), (5, 5));
    let c3 = frac(2, 5).clamp01();
    assert_eq!((c3.num, c3.den), (2, 5));
}
