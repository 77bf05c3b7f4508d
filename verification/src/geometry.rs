//! Circular colliders and the closed-disk overlap test.

use vstd::prelude::*;

verus! {

/// What a collider stands for. The order `Player < Pickup < Orb` only fixes
/// which member of a touching pair is reported first.
#[derive(Clone, Copy, Debug, PartialEq, Eq, Structural, Hash)]
pub enum CollideType {
    Player,
    Pickup,
    Orb,
}

impl CollideType {
    /// Position of the kind in the order `Player < Pickup < Orb`.
    pub open spec fn rank_value(self) -> int {
        match self {
            CollideType::Player => 0,
            CollideType::Pickup => 1,
            CollideType::Orb => 2,
        }
    }

    /// Whether `self` comes strictly before `other` in the order of kinds.
    pub open spec fn precedes(self, other: CollideType) -> bool {
        self.rank_value() < other.rank_value()
    }

    pub fn rank(self) -> (r: u8)
        ensures
            r == self.rank_value(),
    {
        match self {
            CollideType::Player => 0,
            CollideType::Pickup => 1,
            CollideType::Orb => 2,
        }
    }

    pub fn comes_before(self, other: CollideType) -> (r: bool)
        ensures
            r == self.precedes(other),
    {
        self.rank() < other.rank()
    }
}

/// A point of the playfield, in world units. The origin is the centre.
#[derive(Clone, Copy, Debug, PartialEq, Eq, Structural, Hash)]
pub struct Position {
    pub x: i64,
    pub y: i64,
}

/// A circular bounding region. A collider that takes part in the game has a
/// positive radius.
#[derive(Clone, Copy, Debug, PartialEq, Eq, Structural, Hash)]
pub struct Collider {
    pub radius: u32,
    pub kind: CollideType,
}

/// Squared Euclidean distance between two points.
pub open spec fn dist_sq(a: Position, b: Position) -> int {
    (a.x - b.x) * (a.x - b.x) + (a.y - b.y) * (a.y - b.y)
}

/// Two disks touch when the distance between their centres is at most the sum
/// of their radii. Stated on squares, which is the same for non-negative
/// radii and needs no square root.
pub open spec fn touching(pa: Position, ra: int, pb: Position, rb: int) -> bool {
    dist_sq(pa, pb) <= (ra + rb) * (ra + rb)
}

/// A number beyond `r` in either direction has a square above that of `r`.
proof fn lemma_square_grows(d: int, r: int)
    by (nonlinear_arith)
    requires
        0 <= r,
        d > r || d < -r,
    ensures
        d * d > r * r,
{
}

/// A number between `-r` and `r` has a square of at most that of `r`.
pub(crate) proof fn lemma_square_bounded(d: int, r: int)
    by (nonlinear_arith)
    requires
        0 <= r,
        -r <= d <= r,
    ensures
        0 <= d * d <= r * r,
{
}

/// No square is negative.
proof fn lemma_square_nonneg(d: int)
    by (nonlinear_arith)
    ensures
        0 <= d * d,
{
}

/// Distance between two coordinates.
pub open spec fn gap(a: int, b: int) -> int {
    if a <= b {
        b - a
    } else {
        a - b
    }
}

/// Between centres on a common horizontal or vertical line the test compares
/// their distance with the sum of the radii.
pub proof fn lemma_touching_on_axis(pa: Position, ra: int, pb: Position, rb: int)
    requires
        0 <= ra,
        0 <= rb,
    ensures
        pa.y == pb.y ==> touching(pa, ra, pb, rb) == (gap(pa.x as int, pb.x as int) <= ra + rb),
        pa.x == pb.x ==> touching(pa, ra, pb, rb) == (gap(pa.y as int, pb.y as int) <= ra + rb),
{
    let reach = ra + rb;
    let dx = pa.x - pb.x;
    let dy = pa.y - pb.y;
    if pa.y == pb.y {
        assert(dy * dy == 0) by (nonlinear_arith)
            requires
                dy == 0,
        ;
        if -reach <= dx <= reach {
            lemma_square_bounded(dx, reach);
        } else {
            lemma_square_grows(dx, reach);
        }
    }
    if pa.x == pb.x {
        assert(dx * dx == 0) by (nonlinear_arith)
            requires
                dx == 0,
        ;
        if -reach <= dy <= reach {
            lemma_square_bounded(dy, reach);
        } else {
            lemma_square_grows(dy, reach);
        }
    }
}

/// The overlap test for two colliders at the given centres. Total: every
/// position and every radius is accepted.
pub fn overlap(pa: Position, ca: Collider, pb: Position, cb: Collider) -> (hit: bool)
    ensures
        hit == touching(pa, ca.radius as int, pb, cb.radius as int),
        pa.y == pb.y ==> hit == (gap(pa.x as int, pb.x as int) <= ca.radius + cb.radius),
        pa.x == pb.x ==> hit == (gap(pa.y as int, pb.y as int) <= ca.radius + cb.radius),
{
    proof {
        lemma_touching_on_axis(pa, ca.radius as int, pb, cb.radius as int);
    }
    let reach: i128 = ca.radius as i128 + cb.radius as i128;
    let dx: i128 = pa.x as i128 - pb.x as i128;
    let dy: i128 = pa.y as i128 - pb.y as i128;
    proof {
        lemma_square_nonneg(dx as int);
        lemma_square_nonneg(dy as int);
    }
    if dx > reach || dx < -reach {
        proof {
            lemma_square_grows(dx as int, reach as int);
        }
        return false;
    }
    if dy > reach || dy < -reach {
        proof {
            lemma_square_grows(dy as int, reach as int);
        }
        return false;
    }
    proof {
        lemma_square_bounded(dx as int, reach as int);
        lemma_square_bounded(dy as int, reach as int);
        lemma_square_bounded(reach as int, 0x2_0000_0000);
    }
    dx * dx + dy * dy <= reach * reach
}

/// The overlap test does not depend on the order of its arguments.
pub proof fn lemma_overlap_symmetric(pa: Position, ra: int, pb: Position, rb: int)
    ensures
        touching(pa, ra, pb, rb) == touching(pb, rb, pa, ra),
{
    assert((pa.x - pb.x) * (pa.x - pb.x) == (pb.x - pa.x) * (pb.x - pa.x)) by (nonlinear_arith);
    assert((pa.y - pb.y) * (pa.y - pb.y) == (pb.y - pa.y) * (pb.y - pa.y)) by (nonlinear_arith);
    assert((ra + rb) * (ra + rb) == (rb + ra) * (rb + ra)) by (nonlinear_arith);
}

} // verus!
