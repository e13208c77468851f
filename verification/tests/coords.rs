use polarize_core::binary64::{Numbers, Real};
use polarize_core::coords::{
    fraction_to_pixel, pixel_to_fraction, CoordError, Fraction, PixelPoint, PixelSize,
};
use polarize_core::error::CoordAxis;

struct Ieee;

impl Numbers for Ieee {
    fn sum(&self, a: Real, b: Real) -> Real {
        num(f64::from_bits(a.bits) + f64::from_bits(b.bits))
    }

    fn difference(&self, a: Real, b: Real) -> Real {
        num(f64::from_bits(a.bits) - f64::from_bits(b.bits))
    }

    fn product(&self, a: Real, b: Real) -> Real {
        num(f64::from_bits(a.bits) * f64::from_bits(b.bits))
    }

    fn quotient(&self, a: Real, b: Real) -> Real {
        num(f64::from_bits(a.bits) / f64::from_bits(b.bits))
    }

    fn shown(&self, value: Real) -> String {
        format!("{}", f64::from_bits(value.bits))
    }

    fn shown_to_hundredths(&self, value: Real) -> String {
        format!("{:.2}", f64::from_bits(value.bits))
    }
}

fn num(value: f64) -> Real {
    Real { bits: value.to_bits() }
}

fn size() -> PixelSize {
    PixelSize { width: num(1920.0), height: num(1080.0) }
}

#[test]
fn fraction_to_pixel_top_left_corner() {
    let p = fraction_to_pixel(&Ieee, Fraction { x: num(0.0), y: num(0.0) }, size()).unwrap();
    assert_eq!(p, PixelPoint { x: num(0.0), y: num(0.0) });
}

#[test]
fn fraction_to_pixel_bottom_right_corner() {
    let p = fraction_to_pixel(&Ieee, Fraction { x: num(1.0), y: num(1.0) }, size()).unwrap();
    assert_eq!(
        p,
        PixelPoint {
            x: num(1920.0),
            y: num(1080.0)
        }
    );
}

#[test]
fn fraction_to_pixel_center() {
    let p = fraction_to_pixel(&Ieee, Fraction { x: num(0.5), y: num(0.5) }, size()).unwrap();
    assert_eq!(p, PixelPoint { x: num(960.0), y: num(540.0) });
}

#[test]
fn fraction_to_pixel_rejects_negative_x() {
    let err = fraction_to_pixel(&Ieee, Fraction { x: num(-0.1), y: num(0.5) }, size()).unwrap_err();
    assert_eq!(
        err,
        CoordError::FractionOutOfRange {
            axis: CoordAxis::X,
            value: num(-0.1)
        }
    );
}

#[test]
fn fraction_to_pixel_rejects_x_over_one() {
    let err = fraction_to_pixel(&Ieee, Fraction { x: num(1.1), y: num(0.5) }, size()).unwrap_err();
    assert_eq!(
        err,
        CoordError::FractionOutOfRange {
            axis: CoordAxis::X,
            value: num(1.1)
        }
    );
}

#[test]
fn fraction_to_pixel_rejects_negative_y() {
    let err = fraction_to_pixel(&Ieee, Fraction { x: num(0.5), y: num(-0.001) }, size()).unwrap_err();
    assert_eq!(
        err,
        CoordError::FractionOutOfRange {
            axis: CoordAxis::Y,
            value: num(-0.001)
        }
    );
}

#[test]
fn fraction_to_pixel_rejects_y_over_one() {
    let err = fraction_to_pixel(&Ieee, Fraction { x: num(0.5), y: num(2.0) }, size()).unwrap_err();
    assert_eq!(
        err,
        CoordError::FractionOutOfRange {
            axis: CoordAxis::Y,
            value: num(2.0)
        }
    );
}

#[test]
fn fraction_to_pixel_rejects_non_positive_size() {
    let err = fraction_to_pixel(
        &Ieee, Fraction { x: num(0.5), y: num(0.5) },
        PixelSize {
            width: num(0.0),
            height: num(1080.0),
        },
    )
    .unwrap_err();
    assert_eq!(
        err,
        CoordError::NonPositiveSize {
            width: num(0.0),
            height: num(1080.0)
        }
    );
}

#[test]
fn pixel_to_fraction_top_left_corner() {
    let f = pixel_to_fraction(&Ieee, PixelPoint { x: num(0.0), y: num(0.0) }, size()).unwrap();
    assert_eq!(f, Fraction { x: num(0.0), y: num(0.0) });
}

#[test]
fn pixel_to_fraction_bottom_right_corner() {
    let f = pixel_to_fraction(
        &Ieee, PixelPoint {
            x: num(1920.0),
            y: num(1080.0),
        },
        size(),
    )
    .unwrap();
    assert_eq!(f, Fraction { x: num(1.0), y: num(1.0) });
}

#[test]
fn pixel_to_fraction_center() {
    let f = pixel_to_fraction(&Ieee, PixelPoint { x: num(960.0), y: num(540.0) }, size()).unwrap();
    assert_eq!(f, Fraction { x: num(0.5), y: num(0.5) });
}

#[test]
fn pixel_to_fraction_rejects_out_of_range_x() {
    let err = pixel_to_fraction(&Ieee, PixelPoint { x: num(2000.0), y: num(0.0) }, size()).unwrap_err();
    assert_eq!(
        err,
        CoordError::PixelOutOfRange {
            axis: CoordAxis::X,
            value: num(2000.0),
            dimension: num(1920.0)
        }
    );
}

#[test]
fn pixel_to_fraction_rejects_negative_pixel() {
    let err = pixel_to_fraction(&Ieee, PixelPoint { x: num(-1.0), y: num(0.0) }, size()).unwrap_err();
    assert_eq!(
        err,
        CoordError::PixelOutOfRange {
            axis: CoordAxis::X,
            value: num(-1.0),
            dimension: num(1920.0)
        }
    );
}

#[test]
fn round_trip_is_stable_for_arbitrary_interior_point() {
    let original = Fraction { x: num(0.3125), y: num(0.7) };
    let pixel = fraction_to_pixel(&Ieee, original, size()).unwrap();
    let back = pixel_to_fraction(&Ieee, pixel, size()).unwrap();
    assert!((value(back.x) - value(original.x)).abs() < 1e-9);
    assert!((value(back.y) - value(original.y)).abs() < 1e-9);
}

fn value(r: Real) -> f64 {
    f64::from_bits(r.bits)
}
