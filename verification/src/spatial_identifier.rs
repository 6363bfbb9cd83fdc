use vstd::prelude::*;

verus! {

/// The earlier form of the spatial role marker, kept alongside
/// [`crate::spatial::Identifier`]: it classifies a tuple's `w` component as
/// a vector (`w == 0`), a point (`w == 1`), or an invalid combination.
#[derive(Debug, Clone, PartialEq, Eq, Structural)]
pub enum SpatialIdentifier {
    Vector,
    Point,
    Invalid,
}

impl SpatialIdentifier {
    /// The `w` value of this role: 0 for vectors, 1 for points, and 2 — an
    /// arbitrary value outside `{0, 1}` — for the invalid role.
    pub open spec fn spec_value(self) -> isize {
        match self {
            SpatialIdentifier::Vector => 0,
            SpatialIdentifier::Point => 1,
            SpatialIdentifier::Invalid => 2,
        }
    }

    /// The role a `w` value falls under: 0 is a vector, 1 a point, and
    /// everything else invalid.
    pub open spec fn spec_from_value(value: int) -> SpatialIdentifier {
        if value == 0 {
            SpatialIdentifier::Vector
        } else if value == 1 {
            SpatialIdentifier::Point
        } else {
            SpatialIdentifier::Invalid
        }
    }

    /// Returns the integer `w` value representing this role.
    pub fn value(&self) -> (r: isize)
        ensures
            r == self.spec_value(),
    {
        match *self {
            SpatialIdentifier::Vector => 0,
            SpatialIdentifier::Point => 1,
            SpatialIdentifier::Invalid => 2,
        }
    }

    /// The role of a `w` value given as an integer.
    pub fn from_value(value: isize) -> (r: SpatialIdentifier)
        ensures
            r == SpatialIdentifier::spec_from_value(value as int),
    {
        if value == 0 {
            SpatialIdentifier::Vector
        } else if value == 1 {
            SpatialIdentifier::Point
        } else {
            SpatialIdentifier::Invalid
        }
    }

    /// The role of a sum of two tuples, found by adding the `w` values.
    pub fn add(&self, rhs: &SpatialIdentifier) -> (r: SpatialIdentifier)
        ensures
            r == SpatialIdentifier::spec_from_value(self.spec_value() + rhs.spec_value()),
    {
        SpatialIdentifier::from_value(self.value() + rhs.value())
    }

    /// The role of a difference of two tuples, found by subtracting the
    /// `w` values.
    pub fn sub(&self, rhs: &SpatialIdentifier) -> (r: SpatialIdentifier)
        ensures
            r == SpatialIdentifier::spec_from_value(self.spec_value() - rhs.spec_value()),
    {
        SpatialIdentifier::from_value(self.value() - rhs.value())
    }

    /// The role of a negated tuple: only a vector keeps a meaningful `w`.
    pub fn neg(&self) -> (r: SpatialIdentifier)
        ensures
            r == SpatialIdentifier::spec_from_value(-self.spec_value()),
    {
        SpatialIdentifier::from_value(-self.value())
    }

    /// The role of a tuple scaled by an integer factor `k`: the `w` value
    /// becomes `w * k`.
    pub fn scaled(&self, k: isize) -> (r: SpatialIdentifier)
        ensures
            r == SpatialIdentifier::spec_from_value(self.spec_value() * k),
    {
        match *self {
            SpatialIdentifier::Vector => SpatialIdentifier::Vector,
            SpatialIdentifier::Point => SpatialIdentifier::from_value(k),
            SpatialIdentifier::Invalid => {
                if k == 0 {
                    SpatialIdentifier::Vector
                } else {
                    SpatialIdentifier::Invalid
                }
            },
        }
    }

    /// The role of a tuple divided by an integer factor `k`: division by
    /// zero is invalid for every role, and otherwise `w / k` is 0 exactly
    /// when `w` is 0 and 1 exactly when `w` equals `k`.
    pub fn divided(&self, k: isize) -> (r: SpatialIdentifier)
        ensures
            k == 0 ==> r == SpatialIdentifier::Invalid,
            k != 0 && self.spec_value() == 0 ==> r == SpatialIdentifier::Vector,
            k != 0 && self.spec_value() == k ==> r == SpatialIdentifier::Point,
            k != 0 && self.spec_value() != 0 && self.spec_value() != k
                ==> r == SpatialIdentifier::Invalid,
    {
        if k == 0 {
            return SpatialIdentifier::Invalid;
        }
        match *self {
            SpatialIdentifier::Vector => SpatialIdentifier::Vector,
            SpatialIdentifier::Point => {
                if k == 1 {
                    SpatialIdentifier::Point
                } else {
                    SpatialIdentifier::Invalid
                }
            },
            SpatialIdentifier::Invalid => {
                if k == 2 {
                    SpatialIdentifier::Point
                } else {
                    SpatialIdentifier::Invalid
                }
            },
        }
    }
}

} // verus!
