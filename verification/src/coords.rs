//! Points as fractions of a target, and as pixels inside it.
//!
//! A fraction lies in `0.0..=1.0` of a target's width or height. Both
//! conversions refuse what is out of range; neither one moves a point into
//! range.

use vstd::prelude::*;

use crate::binary64::{Numbers, Real, ONE, ZERO};
use crate::error::CoordAxis;

verus! {

/// A point in fractions of a target's width and height.
#[derive(Debug, Clone, Copy, PartialEq, Eq, Structural)]
pub struct Fraction {
    pub x: Real,
    pub y: Real,
}

/// A point in pixels.
#[derive(Debug, Clone, Copy, PartialEq, Eq, Structural)]
pub struct PixelPoint {
    pub x: Real,
    pub y: Real,
}

/// The pixel dimensions of a screen or a window.
#[derive(Debug, Clone, Copy, PartialEq, Eq, Structural)]
pub struct PixelSize {
    pub width: Real,
    pub height: Real,
}

/// A screen or a window in the global pixel space.
#[derive(Debug, Clone, Copy, PartialEq, Eq, Structural)]
pub struct PixelRect {
    pub origin: PixelPoint,
    pub size: PixelSize,
}

/// Why a conversion was refused.
#[derive(Debug, Clone, Copy, PartialEq, Eq, Structural)]
pub enum CoordError {
    /// A fraction component lies outside `0.0..=1.0`.
    FractionOutOfRange { axis: CoordAxis, value: Real },
    /// A pixel component lies outside `0.0..=dimension`.
    PixelOutOfRange { axis: CoordAxis, value: Real, dimension: Real },
    /// The target's width or height is not positive.
    NonPositiveSize { width: Real, height: Real },
}

impl CoordError {
    /// What the error says, given how its values are shown.
    pub open spec fn says<N: Numbers>(self, numbers: &N, text: Seq<char>) -> bool {
        match self {
            CoordError::FractionOutOfRange { axis, value } => exists|v: String|
                #[trigger] call_ensures(N::shown, (numbers, value), v) && text == "fraction "@
                    + axis.shown() + " = "@ + v@ + " is out of range 0.0..=1.0"@,
            CoordError::PixelOutOfRange { axis, value, dimension } => exists|v: String, d: String|
                #[trigger] call_ensures(N::shown, (numbers, value), v) && #[trigger] call_ensures(
                    N::shown,
                    (numbers, dimension),
                    d,
                ) && text == "pixel "@ + axis.shown() + " = "@ + v@ + " is out of range 0.0..="@
                    + d@,
            CoordError::NonPositiveSize { width, height } => exists|w: String, h: String|
                #[trigger] call_ensures(N::shown, (numbers, width), w) && #[trigger] call_ensures(
                    N::shown,
                    (numbers, height),
                    h,
                ) && text == "target size must be positive, got width="@ + w@ + ", height="@ + h@,
        }
    }

    /// The error in words.
    pub fn message<N: Numbers>(&self, numbers: &N) -> (out: String)
        ensures
            self.says(numbers, out@),
    {
        match self {
            CoordError::FractionOutOfRange { axis, value } => {
                let v = numbers.shown(*value);
                let mut out = "fraction ".to_owned();
                out.append(&axis.name());
                out.append(" = ");
                out.append(&v);
                out.append(" is out of range 0.0..=1.0");
                out
            },
            CoordError::PixelOutOfRange { axis, value, dimension } => {
                let v = numbers.shown(*value);
                let d = numbers.shown(*dimension);
                let mut out = "pixel ".to_owned();
                out.append(&axis.name());
                out.append(" = ");
                out.append(&v);
                out.append(" is out of range 0.0..=");
                out.append(&d);
                out
            },
            CoordError::NonPositiveSize { width, height } => {
                let w = numbers.shown(*width);
                let h = numbers.shown(*height);
                let mut out = "target size must be positive, got width=".to_owned();
                out.append(&w);
                out.append(", height=");
                out.append(&h);
                out
            },
        }
    }
}

/// Why a size is no target: its width or its height is zero or less.
pub open spec fn size_refusal(size: PixelSize) -> Option<CoordError> {
    if size.width.at_most(Real { bits: ZERO }) || size.height.at_most(Real { bits: ZERO }) {
        Some(CoordError::NonPositiveSize { width: size.width, height: size.height })
    } else {
        None
    }
}

/// Why a fraction is refused: the size first, then `x`, then `y`.
pub open spec fn fraction_refusal(fraction: Fraction, size: PixelSize) -> Option<CoordError> {
    if size_refusal(size) is Some {
        size_refusal(size)
    } else if !fraction.x.in_unit() {
        Some(CoordError::FractionOutOfRange { axis: CoordAxis::X, value: fraction.x })
    } else if !fraction.y.in_unit() {
        Some(CoordError::FractionOutOfRange { axis: CoordAxis::Y, value: fraction.y })
    } else {
        None
    }
}

/// Whether a pixel component lies in `0.0..=dimension`.
pub open spec fn inside(value: Real, dimension: Real) -> bool {
    (Real { bits: ZERO }).at_most(value) && value.at_most(dimension)
}

/// Why a pixel point is refused: the size first, then `x`, then `y`.
pub open spec fn pixel_refusal(point: PixelPoint, size: PixelSize) -> Option<CoordError> {
    if size_refusal(size) is Some {
        size_refusal(size)
    } else if !inside(point.x, size.width) {
        Some(
            CoordError::PixelOutOfRange {
                axis: CoordAxis::X,
                value: point.x,
                dimension: size.width,
            },
        )
    } else if !inside(point.y, size.height) {
        Some(
            CoordError::PixelOutOfRange {
                axis: CoordAxis::Y,
                value: point.y,
                dimension: size.height,
            },
        )
    } else {
        None
    }
}

/// Whether `point` is the fraction scaled to the size, on both axes.
pub open spec fn scaled<N: Numbers>(
    numbers: &N,
    fraction: Fraction,
    size: PixelSize,
    point: PixelPoint,
) -> bool {
    call_ensures(N::product, (numbers, fraction.x, size.width), point.x) && call_ensures(
        N::product,
        (numbers, fraction.y, size.height),
        point.y,
    )
}

/// Whether `global` is the local point moved by the origin, on both axes.
pub open spec fn moved<N: Numbers>(
    numbers: &N,
    origin: PixelPoint,
    local: PixelPoint,
    global: PixelPoint,
) -> bool {
    call_ensures(N::sum, (numbers, origin.x, local.x), global.x) && call_ensures(
        N::sum,
        (numbers, origin.y, local.y),
        global.y,
    )
}

/// Whether `point` is where a fraction of the rectangle lies in the global
/// pixel space: scaled to the rectangle's size, then moved by its origin.
pub open spec fn placed<N: Numbers>(
    numbers: &N,
    fraction: Fraction,
    rect: PixelRect,
    point: PixelPoint,
) -> bool {
    exists|local: PixelPoint|
        #[trigger] scaled(numbers, fraction, rect.size, local) && moved(
            numbers,
            rect.origin,
            local,
            point,
        )
}

fn check_size(size: PixelSize) -> (r: Result<(), CoordError>)
    ensures
        match size_refusal(size) {
            Some(e) => r == Err::<(), CoordError>(e),
            None => r is Ok,
        },
{
    let zero = Real { bits: ZERO };
    if size.width.is_at_most(zero) || size.height.is_at_most(zero) {
        return Err(CoordError::NonPositiveSize { width: size.width, height: size.height });
    }
    Ok(())
}

/// Converts a fraction of a target to a pixel point inside it.
pub fn fraction_to_pixel<N: Numbers>(numbers: &N, fraction: Fraction, size: PixelSize) -> (r: Result<
    PixelPoint,
    CoordError,
>)
    ensures
        match fraction_refusal(fraction, size) {
            Some(e) => r == Err::<PixelPoint, CoordError>(e),
            None => r matches Ok(point) && scaled(numbers, fraction, size, point),
        },
{
    match check_size(size) {
        Err(e) => return Err(e),
        Ok(()) => {},
    }
    if !fraction.x.is_in_unit() {
        return Err(CoordError::FractionOutOfRange { axis: CoordAxis::X, value: fraction.x });
    }
    if !fraction.y.is_in_unit() {
        return Err(CoordError::FractionOutOfRange { axis: CoordAxis::Y, value: fraction.y });
    }
    let x = numbers.product(fraction.x, size.width);
    let y = numbers.product(fraction.y, size.height);
    Ok(PixelPoint { x, y })
}

/// Converts a pixel point inside a target back to fractions of the target.
pub fn pixel_to_fraction<N: Numbers>(numbers: &N, point: PixelPoint, size: PixelSize) -> (r: Result<
    Fraction,
    CoordError,
>)
    ensures
        match pixel_refusal(point, size) {
            Some(e) => r == Err::<Fraction, CoordError>(e),
            None => r matches Ok(fraction) && call_ensures(
                N::quotient,
                (numbers, point.x, size.width),
                fraction.x,
            ) && call_ensures(N::quotient, (numbers, point.y, size.height), fraction.y),
        },
{
    match check_size(size) {
        Err(e) => return Err(e),
        Ok(()) => {},
    }
    let zero = Real { bits: ZERO };
    if !(zero.is_at_most(point.x) && point.x.is_at_most(size.width)) {
        return Err(
            CoordError::PixelOutOfRange {
                axis: CoordAxis::X,
                value: point.x,
                dimension: size.width,
            },
        );
    }
    if !(zero.is_at_most(point.y) && point.y.is_at_most(size.height)) {
        return Err(
            CoordError::PixelOutOfRange {
                axis: CoordAxis::Y,
                value: point.y,
                dimension: size.height,
            },
        );
    }
    let x = numbers.quotient(point.x, size.width);
    let y = numbers.quotient(point.y, size.height);
    Ok(Fraction { x, y })
}

/// Where a fraction of a rectangle lies in the global pixel space.
pub fn place_fraction<N: Numbers>(numbers: &N, fraction: Fraction, rect: PixelRect) -> (r: Result<
    PixelPoint,
    CoordError,
>)
    ensures
        match fraction_refusal(fraction, rect.size) {
            Some(e) => r == Err::<PixelPoint, CoordError>(e),
            None => r matches Ok(point) && placed(numbers, fraction, rect, point),
        },
{
    match fraction_to_pixel(numbers, fraction, rect.size) {
        Err(e) => Err(e),
        Ok(local) => {
            let x = numbers.sum(rect.origin.x, local.x);
            let y = numbers.sum(rect.origin.y, local.y);
            let point = PixelPoint { x, y };
            assert(scaled(numbers, fraction, rect.size, local));
            assert(moved(numbers, rect.origin, local, point));
            Ok(point)
        },
    }
}

/// Neither conversion moves a component into range: a fraction with a
/// component outside `0.0..=1.0` is refused whatever the size, and so is a
/// pixel point with a component outside its dimension.
pub proof fn out_of_range_is_refused(fraction: Fraction, point: PixelPoint, size: PixelSize)
    ensures
        !fraction.x.in_unit() || !fraction.y.in_unit() ==> fraction_refusal(fraction, size) is Some,
        !inside(point.x, size.width) || !inside(point.y, size.height) ==> pixel_refusal(
            point,
            size,
        ) is Some,
        fraction_refusal(fraction, size) is None ==> fraction.x.at_most(Real { bits: ONE })
            && fraction.y.at_most(Real { bits: ONE }),
{
}

/// A fraction is refused exactly when the size is not positive or the fraction is
/// no number from zero to one. The size is judged first, then the horizontal
/// part, and the refusal names the part that is wrong, with its value.
pub proof fn fractions_are_refused_for_a_reason(fraction: Fraction, size: PixelSize)
    ensures
        ({
            let flat = !size.width.nan() && size.width.rank() <= 0 || !size.height.nan()
                && size.height.rank() <= 0;
            let out = |v: Real| v.nan() || v.rank() < 0 || v.rank() > 0x3FF0_0000_0000_0000;
            &&& fraction_refusal(fraction, size) is None <==> !flat && !out(fraction.x) && !out(
                fraction.y,
            )
            &&& flat ==> fraction_refusal(fraction, size) == Some(
                CoordError::NonPositiveSize { width: size.width, height: size.height },
            )
            &&& !flat && out(fraction.x) ==> fraction_refusal(fraction, size) == Some(
                CoordError::FractionOutOfRange { axis: CoordAxis::X, value: fraction.x },
            )
            &&& !flat && !out(fraction.x) && out(fraction.y) ==> fraction_refusal(fraction, size)
                == Some(CoordError::FractionOutOfRange { axis: CoordAxis::Y, value: fraction.y })
        }),
{
}

/// A pixel is refused exactly when the size is not positive or the pixel does not
/// lie between zero and the size, both of which are inside. The refusal names the
/// part that is wrong, its value and its own bound.
pub proof fn pixels_are_refused_for_a_reason(point: PixelPoint, size: PixelSize)
    requires
        !size.width.nan() && !size.height.nan(),
    ensures
        ({
            let flat = size.width.rank() <= 0 || size.height.rank() <= 0;
            let out = |v: Real, bound: Real| v.nan() || v.rank() < 0 || v.rank() > bound.rank();
            &&& pixel_refusal(point, size) is None <==> !flat && !out(point.x, size.width) && !out(
                point.y,
                size.height,
            )
            &&& flat ==> pixel_refusal(point, size) == Some(
                CoordError::NonPositiveSize { width: size.width, height: size.height },
            )
            &&& !flat && out(point.x, size.width) ==> pixel_refusal(point, size) == Some(
                CoordError::PixelOutOfRange {
                    axis: CoordAxis::X,
                    value: point.x,
                    dimension: size.width,
                },
            )
            &&& !flat && !out(point.x, size.width) && out(point.y, size.height) ==> pixel_refusal(
                point,
                size,
            ) == Some(
                CoordError::PixelOutOfRange {
                    axis: CoordAxis::Y,
                    value: point.y,
                    dimension: size.height,
                },
            )
        }),
{
}

/// A fraction of a rectangle lies so far from its left edge as the fraction of
/// its width, and so far from its top edge as the fraction of its height.
pub proof fn fractions_are_measured_from_the_corner<N: Numbers>(
    numbers: &N,
    fraction: Fraction,
    rect: PixelRect,
    point: PixelPoint,
)
    requires
        placed(numbers, fraction, rect, point),
    ensures
        exists|across: Real|
            #[trigger] call_ensures(N::product, (numbers, fraction.x, rect.size.width), across)
                && call_ensures(N::sum, (numbers, rect.origin.x, across), point.x),
        exists|down: Real|
            #[trigger] call_ensures(N::product, (numbers, fraction.y, rect.size.height), down)
                && call_ensures(N::sum, (numbers, rect.origin.y, down), point.y),
{
    let local = choose|local: PixelPoint|
        #[trigger] scaled(numbers, fraction, rect.size, local) && moved(
            numbers,
            rect.origin,
            local,
            point,
        );
    assert(call_ensures(N::product, (numbers, fraction.x, rect.size.width), local.x));
    assert(call_ensures(N::product, (numbers, fraction.y, rect.size.height), local.y));
}

/// What a refusal says names the axis and shows the values that are wrong, each
/// in its own place.
pub proof fn refusals_show_the_values<N: Numbers>(numbers: &N, e: CoordError, text: Seq<char>)
    requires
        e.says(numbers, text),
    ensures
        e matches CoordError::FractionOutOfRange { axis, value } ==> exists|v: String|
            #[trigger] call_ensures(N::shown, (numbers, value), v) && text == "fraction "@ + (
            if axis == CoordAxis::X {
                "x"@
            } else {
                "y"@
            }) + " = "@ + v@ + " is out of range 0.0..=1.0"@,
        e matches CoordError::PixelOutOfRange { axis, value, dimension } ==> exists|
            v: String,
            d: String,
        |
            #[trigger] call_ensures(N::shown, (numbers, value), v) && #[trigger] call_ensures(
                N::shown,
                (numbers, dimension),
                d,
            ) && text == "pixel "@ + (if axis == CoordAxis::X {
                "x"@
            } else {
                "y"@
            }) + " = "@ + v@ + " is out of range 0.0..="@ + d@,
        e matches CoordError::NonPositiveSize { width, height } ==> exists|w: String, h: String|
            #[trigger] call_ensures(N::shown, (numbers, width), w) && #[trigger] call_ensures(
                N::shown,
                (numbers, height),
                h,
            ) && text == "target size must be positive, got width="@ + w@ + ", height="@ + h@,
{
}

} // verus!
