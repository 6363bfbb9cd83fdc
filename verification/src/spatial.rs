use vstd::prelude::*;

verus! {

/// Tells points, vectors, and meaningless spatial values apart.
///
/// A spatial tuple carries a fourth component `w` next to its three
/// coordinates; `w == 1` marks a point and `w == 0` a vector. Arithmetic on
/// tuples combines the `w` values, and a combination that lands outside
/// `{0, 1}` (such as adding two points) is represented by `Invalid` rather
/// than silently coerced to a point or a vector.
#[derive(Debug, Clone, Copy, PartialEq, Eq, Structural)]
pub enum Identifier {
    Vector,
    Point,
    Invalid,
}

impl Identifier {
    /// The `w` value this role stands for: 0 for a vector, 1 for a point.
    /// The invalid role is represented by 2, an arbitrary value outside
    /// the meaningful set `{0, 1}`.
    pub open spec fn spec_value(self) -> isize {
        match self {
            Identifier::Vector => 0,
            Identifier::Point => 1,
            Identifier::Invalid => 2,
        }
    }

    /// The role a combined `w` value falls under: the inverse of
    /// `spec_value` on `{0, 1}`, and `Invalid` everywhere else.
    pub open spec fn spec_from_value(value: int) -> Identifier {
        if value == 0 {
            Identifier::Vector
        } else if value == 1 {
            Identifier::Point
        } else {
            Identifier::Invalid
        }
    }

    /// Returns the integer `w` value representing this role.
    pub fn value(&self) -> (r: isize)
        ensures
            r == self.spec_value(),
    {
        match *self {
            Identifier::Vector => 0,
            Identifier::Point => 1,
            Identifier::Invalid => 2,
        }
    }

    /// The role of a `w` value given as an integer.
    pub fn from_value(value: isize) -> (r: Identifier)
        ensures
            r == Identifier::spec_from_value(value as int),
    {
        if value == 0 {
            Identifier::Vector
        } else if value == 1 {
            Identifier::Point
        } else {
            Identifier::Invalid
        }
    }

    /// The role of a sum of two spatial tuples: vector + vector stays a
    /// vector, point + vector stays a point, and point + point is invalid.
    pub fn add(&self, rhs: &Identifier) -> (r: Identifier)
        ensures
            r == Identifier::spec_from_value(self.spec_value() + rhs.spec_value()),
    {
        Identifier::from_value(self.value() + rhs.value())
    }

    /// The role of a difference of two spatial tuples: point - point and
    /// vector - vector are vectors, point - vector stays a point, and
    /// vector - point is invalid.
    pub fn sub(&self, rhs: &Identifier) -> (r: Identifier)
        ensures
            r == Identifier::spec_from_value(self.spec_value() - rhs.spec_value()),
    {
        Identifier::from_value(self.value() - rhs.value())
    }

    /// The role of a negated spatial tuple: only a vector stays a vector;
    /// a negated point or invalid value has a `w` outside `{0, 1}`.
    pub fn neg(&self) -> (r: Identifier)
        ensures
            r == Identifier::spec_from_value(-self.spec_value()),
    {
        Identifier::from_value(-self.value())
    }

    /// The role of a spatial tuple scaled by an integer factor: a vector's
    /// `w` stays 0 under any factor, while a point's `w` becomes `k`, which
    /// is a meaningful role only for `k == 0` (a vector) or `k == 1` (a
    /// point).
    pub fn scaled(&self, k: isize) -> (r: Identifier)
        ensures
            r == Identifier::spec_from_value(self.spec_value() * k),
    {
        match *self {
            Identifier::Vector => Identifier::Vector,
            Identifier::Point => Identifier::from_value(k),
            Identifier::Invalid => {
                if k == 0 {
                    Identifier::Vector
                } else {
                    Identifier::Invalid
                }
            },
        }
    }

    /// The role of a spatial tuple divided by an integer factor. Division
    /// by zero never yields a meaningful `w`, so it is invalid for every
    /// role; otherwise `w / k` is 0 exactly when `w` is 0 and 1 exactly
    /// when `w` equals `k`.
    pub fn divided(&self, k: isize) -> (r: Identifier)
        ensures
            k == 0 ==> r == Identifier::Invalid,
            k != 0 && self.spec_value() == 0 ==> r == Identifier::Vector,
            k != 0 && self.spec_value() == k ==> r == Identifier::Point,
            k != 0 && self.spec_value() != 0 && self.spec_value() != k ==> r == Identifier::Invalid,
    {
        if k == 0 {
            return Identifier::Invalid;
        }
        match *self {
            Identifier::Vector => Identifier::Vector,
            Identifier::Point => {
                if k == 1 {
                    Identifier::Point
                } else {
                    Identifier::Invalid
                }
            },
            Identifier::Invalid => {
                if k == 2 {
                    Identifier::Point
                } else {
                    Identifier::Invalid
                }
            },
        }
    }
}

} // verus!
