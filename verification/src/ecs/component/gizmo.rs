use vstd::prelude::*;

verus! {

#[derive(Debug, Clone, Copy, PartialEq, Eq, Structural)]
pub enum TransformGizmoAxis {
    X,
    Y,
    Z,
}

#[derive(Debug, Clone, Copy, PartialEq, Eq, Structural)]
pub enum TransformGizmoPlane {
    XY,
    YZ,
    XZ,
}

/// The two axes spanning a plane.
pub open spec fn plane_axes(plane: TransformGizmoPlane) -> (TransformGizmoAxis, TransformGizmoAxis) {
    match plane {
        TransformGizmoPlane::XY => (TransformGizmoAxis::X, TransformGizmoAxis::Y),
        TransformGizmoPlane::YZ => (TransformGizmoAxis::Y, TransformGizmoAxis::Z),
        TransformGizmoPlane::XZ => (TransformGizmoAxis::X, TransformGizmoAxis::Z),
    }
}

impl TransformGizmoPlane {
    /// The two axes spanning the plane.
    pub fn axes(self) -> (r: (TransformGizmoAxis, TransformGizmoAxis))
        ensures
            r == plane_axes(self),
    {
        match self {
            TransformGizmoPlane::XY => (TransformGizmoAxis::X, TransformGizmoAxis::Y),
            TransformGizmoPlane::YZ => (TransformGizmoAxis::Y, TransformGizmoAxis::Z),
            TransformGizmoPlane::XZ => (TransformGizmoAxis::X, TransformGizmoAxis::Z),
        }
    }

    /// The axis that translation in the plane keeps fixed: the one not spanning it.
    pub fn locked_axis(self) -> (r: TransformGizmoAxis)
        ensures
            r != plane_axes(self).0 && r != plane_axes(self).1,
    {
        match self {
            TransformGizmoPlane::XY => TransformGizmoAxis::Z,
            TransformGizmoPlane::YZ => TransformGizmoAxis::X,
            TransformGizmoPlane::XZ => TransformGizmoAxis::Y,
        }
    }
}

/// Authored constructor name of an axis handle.
pub fn axis_ctor(axis: TransformGizmoAxis) -> (r: &'static str)
    ensures
        r@ == (match axis {
            TransformGizmoAxis::X => seq!['x'],
            TransformGizmoAxis::Y => seq!['y'],
            TransformGizmoAxis::Z => seq!['z'],
        }),
{
    proof {
        reveal_strlit("x");
        reveal_strlit("y");
        reveal_strlit("z");
    }
    match axis {
        TransformGizmoAxis::X => "x",
        TransformGizmoAxis::Y => "y",
        TransformGizmoAxis::Z => "z",
    }
}

/// Handle marker: translate along an axis.
#[derive(Debug, Clone, Copy, PartialEq, Eq, Structural)]
pub struct TransformGizmoTranslateComponent {
    pub axis: TransformGizmoAxis,
}

impl TransformGizmoTranslateComponent {
    pub fn new(axis: TransformGizmoAxis) -> (c: Self)
        ensures
            c.axis == axis,
    {
        TransformGizmoTranslateComponent { axis }
    }
}

/// Handle marker: translate within a plane while keeping its locked axis.
#[derive(Debug, Clone, Copy, PartialEq, Eq, Structural)]
pub struct TransformGizmoTranslatePlaneComponent {
    pub plane: TransformGizmoPlane,
}

impl TransformGizmoTranslatePlaneComponent {
    pub fn new(plane: TransformGizmoPlane) -> (c: Self)
        ensures
            c.plane == plane,
    {
        TransformGizmoTranslatePlaneComponent { plane }
    }
}

/// Handle marker: rotate around an axis.
#[derive(Debug, Clone, Copy, PartialEq, Eq, Structural)]
pub struct TransformGizmoRotateComponent {
    pub axis: TransformGizmoAxis,
}

impl TransformGizmoRotateComponent {
    pub fn new(axis: TransformGizmoAxis) -> (c: Self)
        ensures
            c.axis == axis,
    {
        TransformGizmoRotateComponent { axis }
    }
}

/// Handle marker: scale along an axis.
#[derive(Debug, Clone, Copy, PartialEq, Eq, Structural)]
pub struct TransformGizmoScaleComponent {
    pub axis: TransformGizmoAxis,
}

impl TransformGizmoScaleComponent {
    pub fn new(axis: TransformGizmoAxis) -> (c: Self)
        ensures
            c.axis == axis,
    {
        TransformGizmoScaleComponent { axis }
    }
}

} // verus!
