//! Per-node style records and optional size constraints.
//!
//! A [`SizeConstraints`] value bounds a node's size on each axis; `None`
//! means the axis is unconstrained. The helper functions combine such
//! optional bounds treating `None` as the identity.

use vstd::prelude::*;

use crate::arith::{add_sat, max64, min64, sat_add_i64};
use crate::geometry::Size;
use crate::paint::{Brush, Color};

verus! {

/// Horizontal placement of a node inside slack space.
#[derive(Clone, Copy, Debug, PartialEq, Eq, Structural)]
pub enum HAlign {
    Left,
    Center,
    Right,
}

impl Default for HAlign {
    fn default() -> (r: HAlign)
        ensures
            r == HAlign::Left,
    {
        HAlign::Left
    }
}

/// Vertical placement of a node inside slack space.
#[derive(Clone, Copy, Debug, PartialEq, Eq, Structural)]
pub enum VAlign {
    Top,
    Center,
    Bottom,
}

impl Default for VAlign {
    fn default() -> (r: VAlign)
        ensures
            r == VAlign::Top,
    {
        VAlign::Top
    }
}

/// Four-sided inner padding.
#[derive(Clone, Copy, Debug, PartialEq, Eq, Structural)]
pub struct Padding {
    pub top: i64,
    pub right: i64,
    pub bottom: i64,
    pub left: i64,
}

impl Default for Padding {
    fn default() -> (r: Padding)
        ensures
            r == (Padding { top: 0i64, right: 0i64, bottom: 0i64, left: 0i64 }),
    {
        Padding { top: 0, right: 0, bottom: 0, left: 0 }
    }
}

/// Which of the four border edges and four border corners are disabled.
#[derive(Clone, Copy, Debug, PartialEq, Eq, Structural)]
pub struct BordersMode {
    pub top: bool,
    pub right: bool,
    pub bottom: bool,
    pub left: bool,
    pub lt: bool,
    pub rt: bool,
    pub rb: bool,
    pub lb: bool,
}

impl Default for BordersMode {
    fn default() -> (r: BordersMode)
        ensures
            r == (BordersMode {
                top: false,
                right: false,
                bottom: false,
                left: false,
                lt: false,
                rt: false,
                rb: false,
                lb: false,
            }),
    {
        BordersMode {
            top: false,
            right: false,
            bottom: false,
            left: false,
            lt: false,
            rt: false,
            rb: false,
            lb: false,
        }
    }
}

/// Border stroke data; `width` takes part in layout, the rest is paint.
#[derive(Clone, Copy, Debug, PartialEq, Eq, Structural)]
pub struct Borders {
    pub width: i64,
    pub radius: i64,
    pub paint: Brush,
    pub disabled: BordersMode,
}

impl Default for Borders {
    fn default() -> (r: Borders)
        ensures
            r.width == 0,
            r.radius == 0,
            r.paint == Brush::Solid(Color { r: 0u8, g: 0u8, b: 0u8, a: 0u8 }),
            r.disabled == (BordersMode {
                top: false,
                right: false,
                bottom: false,
                left: false,
                lt: false,
                rt: false,
                rb: false,
                lb: false,
            }),
    {
        Borders {
            width: 0,
            radius: 0,
            paint: Brush::default(),
            disabled: BordersMode::default(),
        }
    }
}

/// An optional bound for each axis; `None` leaves the axis unconstrained.
#[derive(Clone, Copy, Debug, PartialEq, Eq, Structural)]
pub struct SizeConstraints {
    pub width: Option<i64>,
    pub height: Option<i64>,
}

impl Default for SizeConstraints {
    fn default() -> (r: SizeConstraints)
        ensures
            r == (SizeConstraints { width: Option::<i64>::None, height: Option::<i64>::None }),
    {
        SizeConstraints { width: None, height: None }
    }
}

/// How a node turns offered space into its final size: with `zip` set the
/// offer is clamped up to the minimum constraint, otherwise it is clamped
/// down to the maximum constraint.
#[derive(Clone, Copy, Debug, PartialEq, Eq, Structural)]
pub struct SizeStyles {
    pub zip: bool,
    pub max_size: SizeConstraints,
    pub min_size: SizeConstraints,
}

impl Default for SizeStyles {
    fn default() -> (r: SizeStyles)
        ensures
            r.zip == false,
            r.max_size == (SizeConstraints { width: Option::<i64>::None, height: Option::<i64>::None }),
            r.min_size == (SizeConstraints { width: Option::<i64>::None, height: Option::<i64>::None }),
    {
        SizeStyles {
            zip: false,
            max_size: SizeConstraints::default(),
            min_size: SizeConstraints::default(),
        }
    }
}

/// The full style record of one node.
#[derive(Clone, Copy, Debug, PartialEq, Eq, Structural)]
pub struct Styles {
    pub h_align: HAlign,
    pub v_align: VAlign,
    pub padding: Padding,
    pub borders: Borders,
    pub background: Brush,
    pub clip: bool,
    pub size: SizeStyles,
}

impl Default for Styles {
    fn default() -> (r: Styles)
        ensures
            r.h_align == HAlign::Left,
            r.v_align == VAlign::Top,
            r.padding == (Padding { top: 0i64, right: 0i64, bottom: 0i64, left: 0i64 }),
            r.borders.width == 0,
            r.borders.radius == 0,
            r.background == Brush::Solid(Color { r: 0u8, g: 0u8, b: 0u8, a: 0u8 }),
            r.clip == false,
            r.size.zip == false,
            r.size.min_size == (SizeConstraints { width: Option::<i64>::None, height: Option::<i64>::None }),
            r.size.max_size == (SizeConstraints { width: Option::<i64>::None, height: Option::<i64>::None }),
    {
        Styles {
            h_align: HAlign::Left,
            v_align: VAlign::Top,
            padding: Padding::default(),
            borders: Borders::default(),
            background: Brush::default(),
            clip: false,
            size: SizeStyles::default(),
        }
    }
}

/// The smaller of two optional bounds; `None` is the identity.
pub open spec fn spec_min_options(lhs: Option<i64>, rhs: Option<i64>) -> Option<i64> {
    match lhs {
        None => rhs,
        Some(a) => match rhs {
            None => Some(a),
            Some(b) => Some(if a < b { a } else { b }),
        },
    }
}

/// The larger of two optional bounds; `None` is the identity.
pub open spec fn spec_max_options(lhs: Option<i64>, rhs: Option<i64>) -> Option<i64> {
    match lhs {
        None => rhs,
        Some(a) => match rhs {
            None => Some(a),
            Some(b) => Some(if a > b { a } else { b }),
        },
    }
}

/// The saturating sum of two optional bounds; `None` is the identity.
pub open spec fn spec_sum_options(lhs: Option<i64>, rhs: Option<i64>) -> Option<i64> {
    match lhs {
        None => rhs,
        Some(a) => match rhs {
            None => Some(a),
            Some(b) => Some(sat_add_i64(a, b)),
        },
    }
}

pub fn min_options(lhs: Option<i64>, rhs: Option<i64>) -> (r: Option<i64>)
    ensures
        r == spec_min_options(lhs, rhs),
{
    match lhs {
        None => rhs,
        Some(a) => match rhs {
            None => Some(a),
            Some(b) => Some(min64(a, b)),
        },
    }
}

pub fn max_options(lhs: Option<i64>, rhs: Option<i64>) -> (r: Option<i64>)
    ensures
        r == spec_max_options(lhs, rhs),
{
    match lhs {
        None => rhs,
        Some(a) => match rhs {
            None => Some(a),
            Some(b) => Some(max64(a, b)),
        },
    }
}

pub fn sum_options(lhs: Option<i64>, rhs: Option<i64>) -> (r: Option<i64>)
    ensures
        r == spec_sum_options(lhs, rhs),
{
    match lhs {
        None => rhs,
        Some(a) => match rhs {
            None => Some(a),
            Some(b) => Some(add_sat(a, b)),
        },
    }
}

impl SizeConstraints {
    /// Componentwise minimum, `None` the identity.
    pub open spec fn spec_min(self, rhs: Self) -> Self {
        SizeConstraints {
            width: spec_min_options(self.width, rhs.width),
            height: spec_min_options(self.height, rhs.height),
        }
    }

    /// Componentwise maximum, `None` the identity.
    pub open spec fn spec_max(self, rhs: Self) -> Self {
        SizeConstraints {
            width: spec_max_options(self.width, rhs.width),
            height: spec_max_options(self.height, rhs.height),
        }
    }

    /// Clamp a size down to this constraint pair: no axis exceeds a present
    /// bound, and an absent bound leaves the axis unchanged.
    pub open spec fn spec_apply_max(self, size: Size) -> Size {
        Size {
            width: match self.width {
                Some(w) => if w < size.width { w } else { size.width },
                None => size.width,
            },
            height: match self.height {
                Some(h) => if h < size.height { h } else { size.height },
                None => size.height,
            },
        }
    }

    /// Clamp a size up to this constraint pair: no axis falls below a present
    /// bound, and an absent bound leaves the axis unchanged.
    pub open spec fn spec_apply_min(self, size: Size) -> Size {
        Size {
            width: match self.width {
                Some(w) => if w > size.width { w } else { size.width },
                None => size.width,
            },
            height: match self.height {
                Some(h) => if h > size.height { h } else { size.height },
                None => size.height,
            },
        }
    }

    pub fn min(self, rhs: Self) -> (r: Self)
        ensures
            r == self.spec_min(rhs),
    {
        SizeConstraints {
            width: min_options(self.width, rhs.width),
            height: min_options(self.height, rhs.height),
        }
    }

    pub fn max(self, rhs: Self) -> (r: Self)
        ensures
            r == self.spec_max(rhs),
    {
        SizeConstraints {
            width: max_options(self.width, rhs.width),
            height: max_options(self.height, rhs.height),
        }
    }

    pub fn apply_max(self, size: Size) -> (r: Size)
        ensures
            r == self.spec_apply_max(size),
    {
        Size {
            width: match self.width {
                Some(w) => min64(w, size.width),
                None => size.width,
            },
            height: match self.height {
                Some(h) => min64(h, size.height),
                None => size.height,
            },
        }
    }

    pub fn apply_min(self, size: Size) -> (r: Size)
        ensures
            r == self.spec_apply_min(size),
    {
        Size {
            width: match self.width {
                Some(w) => max64(w, size.width),
                None => size.width,
            },
            height: match self.height {
                Some(h) => max64(h, size.height),
                None => size.height,
            },
        }
    }
}

impl From<Size> for SizeConstraints {
    fn from(value: Size) -> (r: SizeConstraints)
        ensures
            r == (SizeConstraints { width: Some(value.width), height: Some(value.height) }),
    {
        SizeConstraints { width: Some(value.width), height: Some(value.height) }
    }
}

impl vstd::std_specs::convert::FromSpecImpl<Size> for SizeConstraints {
    open spec fn obeys_from_spec() -> bool {
        true
    }

    open spec fn from_spec(value: Size) -> SizeConstraints {
        SizeConstraints { width: Some(value.width), height: Some(value.height) }
    }
}

} // verus!
