//! Sides, piece kinds with their movement patterns, facings, and pieces.

use vstd::prelude::*;
use crate::floating_drift::{
    UNIT, in_range, point_in_range, drift_adjusted, round_if_close_to_integer, lemma_drift_adjusted_close,
};
use crate::turn::Score;

pub use crate::board::Pieces;

verus! {

/// Radius of a piece: 17/50 of a board unit.
pub const PIECE_RADIUS: i64 = 340_000;

/// Side length of the board.
pub const BOARD_SIZE: i64 = 8_000_000;

/// Largest magnitude of a ray's start, step and bound.
pub const RAY_LIMIT: i64 = 1_000_000_000;

/// Largest magnitude of a component of a ray's direction.
pub const DIR_LIMIT: i64 = 1_000;

/// No point further along a ray than this many steps of a non-zero
/// direction lies on the board, wherever the ray starts.
pub const WALK_LIMIT: i64 = 509_000_000;

/// An identifier used to find a piece within a board.
pub type PieceId = usize;

/// One of the two players.
#[derive(Debug, Clone, Copy, PartialEq, Eq, Structural)]
pub enum Side {
    Black,
    White,
}

impl Side {
    /// The other side.
    pub open spec fn spec_toggled(self) -> Side {
        match self {
            Side::Black => Side::White,
            Side::White => Side::Black,
        }
    }

    pub fn to_file_desc(&self) -> (res: &'static str)
        ensures
            *self == Side::Black ==> res@ == "B"@,
            *self == Side::White ==> res@ == "W"@,
    {
        match self {
            Side::Black => "B",
            Side::White => "W",
        }
    }

    pub fn toggled(&self) -> (res: Side)
        ensures
            res == self.spec_toggled(),
    {
        match self {
            Side::Black => Side::White,
            Side::White => Side::Black,
        }
    }
}

/// The two ways to travel: onto pieces of the other side, or onto free
/// ground.
#[derive(Debug, Clone, Copy, PartialEq, Eq, Structural)]
pub enum TravelKind {
    Capture,
    Move,
}

/// A facing, held as the cosine and sine of its angle in fixed-point steps.
///
/// Angle zero is `(UNIT, 0)`; angles grow anticlockwise.
#[derive(Debug, Clone, Copy, PartialEq, Eq, Structural)]
pub struct Angle {
    pub cos: i64,
    pub sin: i64,
}

impl Angle {
    /// Whether the pair is a unit vector up to rounding.
    pub open spec fn wf(self) -> bool {
        &&& -UNIT <= self.cos <= UNIT
        &&& -UNIT <= self.sin <= UNIT
        &&& UNIT * UNIT - 2 * UNIT <= self.cos * self.cos + self.sin * self.sin <= UNIT * UNIT + 2 * UNIT
    }

    /// The facing a quarter turn anticlockwise of `self`.
    pub open spec fn spec_quarter_turned(self) -> Angle {
        Angle { cos: (-self.sin) as i64, sin: self.cos }
    }

    /// The facing with the given cosine and sine, if they form a unit vector
    /// up to rounding.
    pub fn new(cos: i64, sin: i64) -> (res: Option<Angle>)
        ensures
            res == if (Angle { cos, sin }).wf() { Some(Angle { cos, sin }) } else { None::<Angle> },
    {
        if cos < -UNIT || cos > UNIT || sin < -UNIT || sin > UNIT {
            return None;
        }
        assert(cos * cos <= UNIT * UNIT && sin * sin <= UNIT * UNIT && cos * cos >= 0 && sin * sin >= 0) by (nonlinear_arith)
            requires -UNIT <= cos <= UNIT, -UNIT <= sin <= UNIT;
        let norm: i64 = cos * cos + sin * sin;
        if norm < UNIT * UNIT - 2 * UNIT || norm > UNIT * UNIT + 2 * UNIT {
            None
        } else {
            Some(Angle { cos, sin })
        }
    }

    /// Angle zero.
    pub fn zero() -> (res: Angle)
        ensures
            res == (Angle { cos: UNIT, sin: 0 }),
            res.wf(),
    {
        Angle { cos: UNIT, sin: 0 }
    }

    /// Half a turn away from angle zero.
    pub fn half_turn() -> (res: Angle)
        ensures
            res == (Angle { cos: (-UNIT) as i64, sin: 0 }),
            res.wf(),
    {
        Angle { cos: -UNIT, sin: 0 }
    }

    /// The facing a quarter turn anticlockwise of this one.
    pub fn quarter_turned(&self) -> (res: Angle)
        requires
            self.wf(),
        ensures
            res == self.spec_quarter_turned(),
            res.wf(),
    {
        let res = Angle { cos: -self.sin, sin: self.cos };
        assert(res.cos * res.cos == self.sin * self.sin) by (nonlinear_arith)
            requires res.cos == -self.sin;
        res
    }
}


/// `|a * b| <= x * y` for `|a| <= x` and `|b| <= y`.
pub proof fn lemma_mul_bound(a: int, b: int, x: int, y: int)
    by (nonlinear_arith)
    requires
        -x <= a <= x,
        -y <= b <= y,
    ensures
        -(x * y) <= a * b <= x * y,
{
}

/// An iterable over the distances of a [`DistancesAngle`].
///
/// It yields only the distances: the direction stays that of the ray it was
/// made from.
#[derive(Debug, Clone, Copy)]
pub struct IterableDA {
    pub curr: i64,
    pub step: i64,
    pub inclusive_upper_bound: Option<i64>,
}

impl IterableDA {
    /// Whether the distances are exhausted.
    pub open spec fn done(self) -> bool {
        match self.inclusive_upper_bound {
            Some(b) => self.curr > b,
            None => false,
        }
    }

    /// The next distance, or `None` once the bound is passed.
    pub fn next(&mut self) -> (res: Option<i64>)
        requires
            old(self).curr + old(self).step <= i64::MAX,
            old(self).curr + old(self).step >= i64::MIN,
        ensures
            old(self).done() ==> res.is_none() && *final(self) == *old(self),
            !old(self).done() ==> res == Some(old(self).curr) && *final(self) == (IterableDA {
                curr: (old(self).curr + old(self).step) as i64,
                ..*old(self)
            }),
    {
        match self.inclusive_upper_bound {
            Some(b) => {
                if self.curr > b {
                    return None;
                }
            },
            None => {},
        }
        let ans: i64 = self.curr;
        self.curr = self.curr + self.step;
        Some(ans)
    }
}

/// A ray: a run of distances along one fixed direction in a piece's own
/// frame.
///
/// The direction is a lattice vector, `(1, 0)` being straight ahead and
/// `(0, 1)` a quarter turn anticlockwise of that. Distances count lengths of
/// that vector, so every point of a ray is a lattice point of the frame.
#[derive(Debug, Clone, Copy)]
pub struct DistancesAngle {
    pub start: i64,
    pub step: i64,
    /// The last distance that may be yielded; `None` for a ray without end.
    pub inclusive_upper_bound: Option<i64>,
    /// Used as an offset from a piece's facing.
    pub angle: (i64, i64),
}

impl DistancesAngle {
    /// Whether the ray can be walked: the step advances, all numbers are
    /// within their limits, and a ray without end points somewhere.
    pub open spec fn wf(self) -> bool {
        &&& 1 <= self.step <= RAY_LIMIT
        &&& -RAY_LIMIT <= self.start <= RAY_LIMIT
        &&& -DIR_LIMIT <= self.angle.0 <= DIR_LIMIT
        &&& -DIR_LIMIT <= self.angle.1 <= DIR_LIMIT
        &&& match self.inclusive_upper_bound {
            Some(b) => -RAY_LIMIT <= b <= RAY_LIMIT,
            None => self.angle != (0i64, 0i64),
        }
    }

    /// How many distances a ray with an end yields.
    pub open spec fn spec_len(self) -> int {
        match self.inclusive_upper_bound {
            Some(b) => if b < self.start || self.step < 1 {
                0
            } else {
                (b - self.start) / (self.step as int) + 1
            },
            None => 0,
        }
    }

    /// The `i`-th distance.
    pub open spec fn spec_distance(self, i: int) -> int {
        self.start + i * self.step
    }

    /// The offset at `distance` along the ray, turned back by `offset_angle`
    /// and with drift removed from each coordinate.
    ///
    /// With `a` the angle of the direction and `w` that of `offset_angle`,
    /// this is `distance` times the length of the direction times
    /// `(cos(a - w), sin(a - w))`.
    pub open spec fn spec_point(self, distance: int, offset_angle: Angle) -> (int, int) {
        let lx = distance * self.angle.0;
        let ly = distance * self.angle.1;
        (
            drift_adjusted(lx * offset_angle.cos + ly * offset_angle.sin),
            drift_adjusted(ly * offset_angle.cos - lx * offset_angle.sin),
        )
    }

    /// A ray of the single point at `distance`.
    pub fn singleton(distance: i64, angle: (i64, i64)) -> (res: Self)
        ensures
            res == (DistancesAngle { start: distance, step: 1, inclusive_upper_bound: Some(distance), angle }),
    {
        DistancesAngle { start: distance, step: 1, inclusive_upper_bound: Some(distance), angle }
    }

    /// A ray of `n` points, `step` apart, the first at `start`.
    pub fn repeated(start: i64, step: i64, n: i32, angle: (i64, i64)) -> (res: Self)
        requires
            -RAY_LIMIT <= start <= RAY_LIMIT,
            -RAY_LIMIT <= step <= RAY_LIMIT,
        ensures
            res == (DistancesAngle {
                start,
                step,
                inclusive_upper_bound: Some((start + step * (n - 1)) as i64),
                angle,
            }),
            i64::MIN <= start + step * (n - 1) <= i64::MAX,
    {
        proof {
            lemma_mul_bound(step as int, n - 1, RAY_LIMIT as int, 0x8000_0001);
        }
        let m: i64 = n as i64 - 1;
        DistancesAngle { start, step, inclusive_upper_bound: Some(start + step * m), angle }
    }

    /// A ray of points `step` apart from `start` up to the bound, or without
    /// end.
    pub fn range(start: i64, step: i64, inclusive_upper_bound: Option<i64>, angle: (i64, i64)) -> (res: Self)
        ensures
            res == (DistancesAngle { start, step, inclusive_upper_bound, angle }),
    {
        DistancesAngle { start, step, inclusive_upper_bound, angle }
    }

    /// The distances of this ray, from the first.
    pub fn into_iter(self) -> (res: IterableDA)
        ensures
            res == (IterableDA {
                curr: self.start,
                step: self.step,
                inclusive_upper_bound: self.inclusive_upper_bound,
            }),
    {
        IterableDA { curr: self.start, step: self.step, inclusive_upper_bound: self.inclusive_upper_bound }
    }

    /// The offset at `distance` when a piece turned by `offset_angle` applies
    /// this ray.
    pub fn get_point(&self, distance: i64, offset_angle: Angle) -> (res: (i64, i64))
        requires
            -2 * RAY_LIMIT <= distance <= 2 * RAY_LIMIT,
            -DIR_LIMIT <= self.angle.0 <= DIR_LIMIT,
            -DIR_LIMIT <= self.angle.1 <= DIR_LIMIT,
            offset_angle.wf(),
        ensures
            res.0 == self.spec_point(distance as int, offset_angle).0,
            res.1 == self.spec_point(distance as int, offset_angle).1,
            -4_100_000_000_000_000_000 <= res.0 <= 4_100_000_000_000_000_000,
            -4_100_000_000_000_000_000 <= res.1 <= 4_100_000_000_000_000_000,
    {
        proof {
            lemma_mul_bound(distance as int, self.angle.0 as int, 2 * RAY_LIMIT, DIR_LIMIT as int);
            lemma_mul_bound(distance as int, self.angle.1 as int, 2 * RAY_LIMIT, DIR_LIMIT as int);
        }
        let lx: i64 = distance * self.angle.0;
        let ly: i64 = distance * self.angle.1;
        proof {
            lemma_mul_bound(lx as int, offset_angle.cos as int, 2 * RAY_LIMIT * DIR_LIMIT, UNIT as int);
            lemma_mul_bound(ly as int, offset_angle.sin as int, 2 * RAY_LIMIT * DIR_LIMIT, UNIT as int);
            lemma_mul_bound(ly as int, offset_angle.cos as int, 2 * RAY_LIMIT * DIR_LIMIT, UNIT as int);
            lemma_mul_bound(lx as int, offset_angle.sin as int, 2 * RAY_LIMIT * DIR_LIMIT, UNIT as int);
        }
        let x: i64 = lx * offset_angle.cos + ly * offset_angle.sin;
        let y: i64 = ly * offset_angle.cos - lx * offset_angle.sin;
        (round_if_close_to_integer(x), round_if_close_to_integer(y))
    }

    /// The offsets of every point of a ray with an end, when a piece turned
    /// by `offset_angle` applies it.
    pub fn get_offsets(&self, offset_angle: Angle) -> (res: Vec<(i64, i64)>)
        requires
            self.wf(),
            self.inclusive_upper_bound.is_some(),
            offset_angle.wf(),
        ensures
            res.len() == self.spec_len(),
            forall|i: int|
                0 <= i < res.len() ==> (#[trigger] res[i]).0 == self.spec_point(self.spec_distance(i), offset_angle).0
                    && res[i].1 == self.spec_point(self.spec_distance(i), offset_angle).1,
    {
        let mut res: Vec<(i64, i64)> = Vec::new();
        let mut it = self.into_iter();
        let ghost bound: int = self.inclusive_upper_bound.unwrap() as int;
        proof {
            assert(self.spec_distance(0) == self.start) by (nonlinear_arith)
                requires self.spec_distance(0) == self.start + 0 * self.step;
            lemma_len_reaches(self.start as int, self.step as int, bound, 0);
        }
        loop
            invariant
                self.wf(),
                offset_angle.wf(),
                self.inclusive_upper_bound.is_some(),
                bound == self.inclusive_upper_bound.unwrap(),
                it.step == self.step,
                it.inclusive_upper_bound == self.inclusive_upper_bound,
                it.curr == self.spec_distance(res.len() as int),
                -RAY_LIMIT <= it.curr <= 2 * RAY_LIMIT,
                it.curr <= bound <==> res.len() < self.spec_len(),
                res.len() <= self.spec_len(),
                forall|i: int|
                    0 <= i < res.len() ==> (#[trigger] res[i]).0 == self.spec_point(
                        self.spec_distance(i),
                        offset_angle,
                    ).0 && res[i].1 == self.spec_point(self.spec_distance(i), offset_angle).1,
            ensures
                res.len() == self.spec_len(),
                forall|i: int|
                    0 <= i < res.len() ==> (#[trigger] res[i]).0 == self.spec_point(
                        self.spec_distance(i),
                        offset_angle,
                    ).0 && res[i].1 == self.spec_point(self.spec_distance(i), offset_angle).1,
            decreases bound + self.step - it.curr,
        {
            match it.next() {
                None => {
                    break;
                },
                Some(d) => {
                    let p = self.get_point(d, offset_angle);
                    res.push(p);
                    proof {
                        let n = res.len() as int;
                        assert(self.spec_distance(n) == self.spec_distance(n - 1) + self.step) by (nonlinear_arith)
                            requires
                                self.spec_distance(n) == self.start + n * self.step,
                                self.spec_distance(n - 1) == self.start + (n - 1) * self.step;
                        lemma_len_reaches(self.start as int, self.step as int, bound, n);
                    }
                },
            }
        }
        res
    }
}

/// With `n` distances taken from `start`, the next one is within the bound
/// exactly when fewer than `(bound - start) / step + 1` have been taken.
proof fn lemma_len_reaches(start: int, step: int, bound: int, n: int)
    by (nonlinear_arith)
    requires
        step >= 1,
        n >= 0,
    ensures
        start + n * step <= bound <==> (bound >= start && n < (bound - start) / step + 1),
        bound < start ==> start + n * step > bound,
{
}


/// The six kinds of pieces.
#[derive(Debug, Clone, Copy, PartialEq, Eq, Structural)]
pub enum PieceKind {
    Pawn,
    Rook,
    Knight,
    Bishop,
    Queen,
    King,
}

/// The point at one length of `angle`.
pub open spec fn spec_single(angle: (i64, i64)) -> DistancesAngle {
    DistancesAngle { start: 1, step: 1, inclusive_upper_bound: Some(1i64), angle }
}

/// The ray without end along `angle`, a point at every length of it.
pub open spec fn spec_slide(angle: (i64, i64)) -> DistancesAngle {
    DistancesAngle { start: 1, step: 1, inclusive_upper_bound: None, angle }
}

/// The four rays of a rook: ahead, left, back, right.
pub open spec fn spec_level_das() -> Seq<DistancesAngle> {
    seq![
        spec_slide((1i64, 0i64)),
        spec_slide((0i64, 1i64)),
        spec_slide((-1i64, 0i64)),
        spec_slide((0i64, -1i64)),
    ]
}

/// The four rays of a bishop, each a step of one diagonal long.
pub open spec fn spec_diag_das() -> Seq<DistancesAngle> {
    seq![
        spec_slide((1i64, 1i64)),
        spec_slide((-1i64, 1i64)),
        spec_slide((-1i64, -1i64)),
        spec_slide((1i64, -1i64)),
    ]
}

/// The eight points of a king, anticlockwise from straight ahead.
pub open spec fn spec_king_das() -> Seq<DistancesAngle> {
    seq![
        spec_single((1i64, 0i64)),
        spec_single((1i64, 1i64)),
        spec_single((0i64, 1i64)),
        spec_single((-1i64, 1i64)),
        spec_single((-1i64, 0i64)),
        spec_single((-1i64, -1i64)),
        spec_single((0i64, -1i64)),
        spec_single((1i64, -1i64)),
    ]
}

/// The eight points of a knight.
pub open spec fn spec_knight_das() -> Seq<DistancesAngle> {
    seq![
        spec_single((2i64, 1i64)),
        spec_single((2i64, -1i64)),
        spec_single((1i64, -2i64)),
        spec_single((-1i64, -2i64)),
        spec_single((-2i64, -1i64)),
        spec_single((-2i64, 1i64)),
        spec_single((-1i64, 2i64)),
        spec_single((1i64, 2i64)),
    ]
}

impl PieceKind {
    /// Material value, in fixed-point steps.
    pub open spec fn spec_value(self) -> int {
        match self {
            PieceKind::Pawn => 1 * UNIT,
            PieceKind::Rook => 5 * UNIT,
            PieceKind::Knight => 3 * UNIT,
            PieceKind::Bishop => 3 * UNIT,
            PieceKind::Queen => 9 * UNIT,
            PieceKind::King => 1000 * UNIT,
        }
    }

    /// Whether the kind ignores pieces in its path.
    pub open spec fn spec_can_jump(self) -> bool {
        self == PieceKind::Pawn || self == PieceKind::King || self == PieceKind::Knight
    }

    /// Whether the kind promotes on the far rank.
    pub open spec fn spec_can_promote(self) -> bool {
        self == PieceKind::Pawn
    }

    /// The smallest turn, in degrees, that maps the kind's pattern onto
    /// itself.
    pub open spec fn spec_rotational_symmetry(self) -> int {
        match self {
            PieceKind::Pawn => 360,
            PieceKind::Queen => 45,
            _ => 90,
        }
    }

    /// The rays along which the kind captures.
    pub open spec fn spec_capture_das(self) -> Seq<DistancesAngle> {
        match self {
            PieceKind::Pawn => seq![spec_single((1i64, 1i64)), spec_single((1i64, -1i64))],
            PieceKind::King => spec_king_das(),
            PieceKind::Knight => spec_knight_das(),
            PieceKind::Rook => spec_level_das(),
            PieceKind::Bishop => spec_diag_das(),
            PieceKind::Queen => spec_level_das() + spec_diag_das(),
        }
    }

    /// The rays along which the kind moves without capturing.
    pub open spec fn spec_move_das(self) -> Seq<DistancesAngle> {
        match self {
            PieceKind::Pawn => seq![
                DistancesAngle { start: 1, step: 1, inclusive_upper_bound: Some(2i64), angle: (1i64, 0i64) },
            ],
            _ => self.spec_capture_das(),
        }
    }

    pub fn to_file_desc(&self) -> (res: &'static str)
        ensures
            *self == PieceKind::Pawn ==> res@ == "pawn"@,
            *self == PieceKind::Rook ==> res@ == "rook"@,
            *self == PieceKind::Knight ==> res@ == "knight"@,
            *self == PieceKind::Bishop ==> res@ == "bishop"@,
            *self == PieceKind::Queen ==> res@ == "queen"@,
            *self == PieceKind::King ==> res@ == "king"@,
    {
        match self {
            PieceKind::Pawn => "pawn",
            PieceKind::Rook => "rook",
            PieceKind::Knight => "knight",
            PieceKind::Bishop => "bishop",
            PieceKind::Queen => "queen",
            PieceKind::King => "king",
        }
    }

    pub fn value(&self) -> (res: Score)
        ensures
            res == self.spec_value(),
    {
        match self {
            PieceKind::Pawn => UNIT,
            PieceKind::Rook => 5 * UNIT,
            PieceKind::Knight => 3 * UNIT,
            PieceKind::Bishop => 3 * UNIT,
            PieceKind::Queen => 9 * UNIT,
            PieceKind::King => 1000 * UNIT,
        }
    }

    pub fn can_jump(&self) -> (res: bool)
        ensures
            res == self.spec_can_jump(),
    {
        match self {
            PieceKind::Pawn => true,
            PieceKind::King => true,
            PieceKind::Knight => true,
            PieceKind::Rook => false,
            PieceKind::Bishop => false,
            PieceKind::Queen => false,
        }
    }

    pub fn can_promote(&self) -> (res: bool)
        ensures
            res == self.spec_can_promote(),
    {
        *self == PieceKind::Pawn
    }

    /// The unique rotations of this kind, in degrees: every sampled turn
    /// below its rotational symmetry.
    pub fn unique_rotations(&self) -> (res: Vec<u16>)
        ensures
            res@ == spec_unique_rotations(self.spec_rotational_symmetry()),
    {
        Self::unique_rotations_generic(self.rotational_symmetry())
    }

    pub fn rotational_symmetry(&self) -> (res: u16)
        ensures
            res == self.spec_rotational_symmetry(),
    {
        match self {
            PieceKind::Pawn => 360,
            PieceKind::King => 90,
            PieceKind::Knight => 90,
            PieceKind::Rook => 90,
            PieceKind::Bishop => 90,
            PieceKind::Queen => 45,
        }
    }

    /// The unique rotations of a piece whose pattern repeats after
    /// `rotational_symmetry` degrees.
    pub fn unique_rotations_generic(rotational_symmetry: u16) -> (res: Vec<u16>)
        ensures
            res@ == spec_unique_rotations(rotational_symmetry as int),
    {
        let mut res: Vec<u16> = Vec::new();
        let mut r: u32 = 0;
        while r < rotational_symmetry as u32
            invariant
                r == res.len() * ROTATION_PRECISION,
                r < rotational_symmetry + ROTATION_PRECISION,
                res.len() <= spec_unique_rotations(rotational_symmetry as int).len(),
                forall|i: int| 0 <= i < res.len() ==> #[trigger] res[i] == i * ROTATION_PRECISION,
            decreases rotational_symmetry + ROTATION_PRECISION - r,
        {
            res.push(r as u16);
            r = r + ROTATION_PRECISION as u32;
        }
        assert(res@ =~= spec_unique_rotations(rotational_symmetry as int));
        res
    }

    /// Add the rays of a rook to `v`.
    pub fn add_level_das(v: &mut Vec<DistancesAngle>)
        ensures
            final(v)@ == old(v)@ + spec_level_das(),
    {
        v.push(DistancesAngle::range(1, 1, None, (1, 0)));
        v.push(DistancesAngle::range(1, 1, None, (0, 1)));
        v.push(DistancesAngle::range(1, 1, None, (-1, 0)));
        v.push(DistancesAngle::range(1, 1, None, (0, -1)));
        assert(v@ =~= old(v)@ + spec_level_das());
    }

    /// Add the rays of a bishop to `v`.
    pub fn add_diag_das(v: &mut Vec<DistancesAngle>)
        ensures
            final(v)@ == old(v)@ + spec_diag_das(),
    {
        v.push(DistancesAngle::range(1, 1, None, (1, 1)));
        v.push(DistancesAngle::range(1, 1, None, (-1, 1)));
        v.push(DistancesAngle::range(1, 1, None, (-1, -1)));
        v.push(DistancesAngle::range(1, 1, None, (1, -1)));
        assert(v@ =~= old(v)@ + spec_diag_das());
    }

    /// Add the points of a king to `v`.
    fn add_king_das(v: &mut Vec<DistancesAngle>)
        ensures
            final(v)@ == old(v)@ + spec_king_das(),
    {
        v.push(DistancesAngle::singleton(1, (1, 0)));
        v.push(DistancesAngle::singleton(1, (1, 1)));
        v.push(DistancesAngle::singleton(1, (0, 1)));
        v.push(DistancesAngle::singleton(1, (-1, 1)));
        v.push(DistancesAngle::singleton(1, (-1, 0)));
        v.push(DistancesAngle::singleton(1, (-1, -1)));
        v.push(DistancesAngle::singleton(1, (0, -1)));
        v.push(DistancesAngle::singleton(1, (1, -1)));
        assert(v@ =~= old(v)@ + spec_king_das());
    }

    /// Add the points of a knight to `v`.
    fn add_knight_das(v: &mut Vec<DistancesAngle>)
        ensures
            final(v)@ == old(v)@ + spec_knight_das(),
    {
        v.push(DistancesAngle::singleton(1, (2, 1)));
        v.push(DistancesAngle::singleton(1, (2, -1)));
        v.push(DistancesAngle::singleton(1, (1, -2)));
        v.push(DistancesAngle::singleton(1, (-1, -2)));
        v.push(DistancesAngle::singleton(1, (-2, -1)));
        v.push(DistancesAngle::singleton(1, (-2, 1)));
        v.push(DistancesAngle::singleton(1, (-1, 2)));
        v.push(DistancesAngle::singleton(1, (1, 2)));
        assert(v@ =~= old(v)@ + spec_knight_das());
    }

    pub fn capture_das(&self) -> (ans: Vec<DistancesAngle>)
        ensures
            ans@ == self.spec_capture_das(),
    {
        let mut ans: Vec<DistancesAngle> = Vec::new();
        match self {
            PieceKind::Pawn => {
                ans.push(DistancesAngle::singleton(1, (1, 1)));
                ans.push(DistancesAngle::singleton(1, (1, -1)));
            },
            PieceKind::King => PieceKind::add_king_das(&mut ans),
            PieceKind::Knight => PieceKind::add_knight_das(&mut ans),
            PieceKind::Rook => PieceKind::add_level_das(&mut ans),
            PieceKind::Bishop => PieceKind::add_diag_das(&mut ans),
            PieceKind::Queen => {
                PieceKind::add_level_das(&mut ans);
                PieceKind::add_diag_das(&mut ans);
            },
        };
        assert(ans@ =~= self.spec_capture_das());
        ans
    }

    pub fn move_das(&self) -> (ans: Vec<DistancesAngle>)
        ensures
            ans@ == self.spec_move_das(),
    {
        let mut ans: Vec<DistancesAngle> = Vec::new();
        match self {
            PieceKind::Pawn => ans.push(DistancesAngle::repeated(1, 1, 2, (1, 0))),
            PieceKind::King => PieceKind::add_king_das(&mut ans),
            PieceKind::Knight => PieceKind::add_knight_das(&mut ans),
            PieceKind::Rook => PieceKind::add_level_das(&mut ans),
            PieceKind::Bishop => PieceKind::add_diag_das(&mut ans),
            PieceKind::Queen => {
                PieceKind::add_level_das(&mut ans);
                PieceKind::add_diag_das(&mut ans);
            },
        };
        assert(ans@ =~= self.spec_move_das());
        ans
    }
}

/// Degrees between two sampled rotations.
pub const ROTATION_PRECISION: u16 = 45;

/// Every multiple of `ROTATION_PRECISION` below `rotational_symmetry`.
pub open spec fn spec_unique_rotations(rotational_symmetry: int) -> Seq<u16> {
    Seq::new(
        (if rotational_symmetry <= 0 {
            0
        } else {
            (rotational_symmetry + ROTATION_PRECISION - 1) / (ROTATION_PRECISION as int)
        }) as nat,
        |i: int| (i * ROTATION_PRECISION) as u16,
    )
}

/// Every ray of the catalog can be walked.
pub proof fn lemma_catalog_wf(kind: PieceKind)
    ensures
        forall|i: int| 0 <= i < kind.spec_capture_das().len() ==> (#[trigger] kind.spec_capture_das()[i]).wf(),
        forall|i: int| 0 <= i < kind.spec_move_das().len() ==> (#[trigger] kind.spec_move_das()[i]).wf(),
{
}


/// The data that defines a piece. Everything else can be derived from it.
#[derive(Debug, Clone, Copy)]
pub struct CorePieceData {
    pub center: (i64, i64),
    pub angle: Angle,
    pub side: Side,
    pub kind: PieceKind,
}

impl CorePieceData {
    /// Whether the center is within the coordinate limit and the facing is a
    /// unit vector.
    pub open spec fn wf(self) -> bool {
        point_in_range(self.center) && self.angle.wf()
    }
}

/// The points a piece could travel to, as a piece caches them.
pub struct TravelPoints {
    pub capture_points: Seq<(i64, i64)>,
    pub move_points: Seq<(i64, i64)>,
}

/// What a piece holds: its identifier, its defining data, and the travel
/// points it has cached, if any.
pub struct PieceView {
    pub id: PieceId,
    pub core: CorePieceData,
    pub cache: Option<TravelPoints>,
}

/// Whether a piece centered at `(x, y)` is on the board: within the board
/// widened by one radius on every side.
pub open spec fn spec_on_board(x: int, y: int) -> bool {
    &&& -PIECE_RADIUS <= x <= BOARD_SIZE + PIECE_RADIUS
    &&& -PIECE_RADIUS <= y <= BOARD_SIZE + PIECE_RADIUS
}

/// The squared distance between two points.
pub open spec fn spec_dist2(x1: int, y1: int, x2: int, y2: int) -> int {
    (x1 - x2) * (x1 - x2) + (y1 - y2) * (y1 - y2)
}

/// Whether a point is less than one radius away from a center.
pub open spec fn spec_collidepoint(x1: int, y1: int, x2: int, y2: int) -> bool {
    spec_dist2(x1, y1, x2, y2) < PIECE_RADIUS * PIECE_RADIUS
}

/// Whether a piece centered at `(x, y)` would overlap one at `center`: the
/// centers are less than two radii apart.
pub open spec fn spec_collidepiece(center: (i64, i64), x: int, y: int) -> bool {
    spec_dist2(x, y, center.0 as int, center.1 as int) < (2 * PIECE_RADIUS) * (2 * PIECE_RADIUS)
}

/// Whether a piece of this kind and side promotes at height `y`.
pub open spec fn spec_should_promote(kind: PieceKind, side: Side, y: int) -> bool {
    kind.spec_can_promote() && match side {
        Side::Black => y + PIECE_RADIUS > 7 * UNIT,
        Side::White => y - PIECE_RADIUS < 1 * UNIT,
    }
}

/// The last distance at which a ray may still yield a point.
pub open spec fn spec_ray_last(ray: DistancesAngle) -> int {
    match ray.inclusive_upper_bound {
        Some(b) => b as int,
        None => WALK_LIMIT as int,
    }
}

/// The absolute point at `distance` along `ray` for a piece with this data.
pub open spec fn spec_ray_point(core: CorePieceData, ray: DistancesAngle, distance: int) -> (int, int) {
    let o = ray.spec_point(distance, core.angle.spec_quarter_turned());
    (core.center.0 + o.0, core.center.1 + o.1)
}

/// The points of `ray` from `distance` on, up to the first that is off the
/// board.
///
/// A ray without end is followed for `WALK_LIMIT` lengths at most. That
/// cuts nothing off: see [`lemma_walk_limit`].
pub open spec fn spec_ray_points(core: CorePieceData, ray: DistancesAngle, distance: int) -> Seq<(i64, i64)>
    decreases
        (if distance <= spec_ray_last(ray) {
            spec_ray_last(ray) - distance + 1
        } else {
            0
        }),
{
    if ray.step < 1 || distance > spec_ray_last(ray) {
        Seq::empty()
    } else {
        let p = spec_ray_point(core, ray, distance);
        if !spec_on_board(p.0, p.1) {
            Seq::empty()
        } else {
            seq![(p.0 as i64, p.1 as i64)] + spec_ray_points(core, ray, distance + ray.step)
        }
    }
}

/// The points of every ray of `das`, ray after ray.
pub open spec fn spec_drawable_points(core: CorePieceData, das: Seq<DistancesAngle>) -> Seq<(i64, i64)>
    decreases das.len(),
{
    if das.len() == 0 {
        Seq::empty()
    } else {
        spec_drawable_points(core, das.drop_last()) + spec_ray_points(core, das.last(), das.last().start as int)
    }
}

/// The travel points of a piece with this data, whatever else is on the
/// board.
pub open spec fn spec_travel_points(core: CorePieceData) -> TravelPoints {
    TravelPoints {
        capture_points: spec_drawable_points(core, core.kind.spec_capture_das()),
        move_points: spec_drawable_points(core, core.kind.spec_move_das()),
    }
}

/// Whether every point of `points` is on the board.
pub open spec fn spec_all_on_board(points: Seq<(i64, i64)>) -> bool {
    forall|i: int| 0 <= i < points.len() ==> spec_on_board((#[trigger] points[i]).0 as int, points[i].1 as int)
}

/// Past `WALK_LIMIT` steps of a non-zero direction no point is on the board,
/// so a ray without end is never cut short by the limit.
pub proof fn lemma_walk_limit(core: CorePieceData, ray: DistancesAngle, distance: int)
    requires
        core.wf(),
        ray.wf(),
        ray.angle != (0i64, 0i64),
        distance > WALK_LIMIT,
    ensures
        !spec_on_board(spec_ray_point(core, ray, distance).0, spec_ray_point(core, ray, distance).1),
{
    let a = ray.angle.0 as int;
    let b = ray.angle.1 as int;
    let w = core.angle.spec_quarter_turned();
    let c = w.cos as int;
    let s = w.sin as int;
    let wx = a * c + b * s;
    let wy = b * c - a * s;
    let x = (distance * a) * c + (distance * b) * s;
    let y = (distance * b) * c - (distance * a) * s;
    assert(x == distance * wx && y == distance * wy) by (nonlinear_arith)
        requires
            wx == a * c + b * s,
            wy == b * c - a * s,
            x == (distance * a) * c + (distance * b) * s,
            y == (distance * b) * c - (distance * a) * s;
    let n = a * a + b * b;
    assert(n >= 1) by (nonlinear_arith)
        requires
            n == a * a + b * b,
            a != 0 || b != 0;
    assert(a * wx + b * wy == n * c && b * wx - a * wy == n * s) by (nonlinear_arith)
        requires
            wx == a * c + b * s,
            wy == b * c - a * s,
            n == a * a + b * b;
    assert(c != 0 || s != 0) by (nonlinear_arith)
        requires
            c == -core.angle.sin,
            s == core.angle.cos,
            core.angle.cos * core.angle.cos + core.angle.sin * core.angle.sin >= 1;
    assert(wx != 0 || wy != 0) by (nonlinear_arith)
        requires
            a * wx + b * wy == n * c,
            b * wx - a * wy == n * s,
            n >= 1,
            c != 0 || s != 0;
    lemma_drift_adjusted_close(x);
    lemma_drift_adjusted_close(y);
    if wx != 0 {
        assert(distance * wx >= distance || distance * wx <= -distance) by (nonlinear_arith)
            requires wx != 0, distance > 0;
    } else {
        assert(distance * wy >= distance || distance * wy <= -distance) by (nonlinear_arith)
            requires wy != 0, distance > 0;
    }
}

/// The points of a ray that can be walked are on the board.
pub proof fn lemma_ray_points_on_board(core: CorePieceData, ray: DistancesAngle, distance: int)
    ensures
        spec_all_on_board(spec_ray_points(core, ray, distance)),
    decreases
        (if distance <= spec_ray_last(ray) {
            spec_ray_last(ray) - distance + 1
        } else {
            0
        }),
{
    if ray.step < 1 || distance > spec_ray_last(ray) {
    } else {
        let p = spec_ray_point(core, ray, distance);
        if spec_on_board(p.0, p.1) {
            lemma_ray_points_on_board(core, ray, distance + ray.step);
        }
    }
}

/// The points of any set of rays are on the board.
pub proof fn lemma_drawable_points_on_board(core: CorePieceData, das: Seq<DistancesAngle>)
    ensures
        spec_all_on_board(spec_drawable_points(core, das)),
    decreases das.len(),
{
    if das.len() > 0 {
        lemma_drawable_points_on_board(core, das.drop_last());
        lemma_ray_points_on_board(core, das.last(), das.last().start as int);
    }
}


/// The cached travel points of a piece.
struct TravelPointData {
    capture_points: Vec<(i64, i64)>,
    move_points: Vec<(i64, i64)>,
}

/// A copy of `v`.
fn clone_points(v: &Vec<(i64, i64)>) -> (res: Vec<(i64, i64)>)
    ensures
        res@ == v@,
{
    let mut res: Vec<(i64, i64)> = Vec::new();
    let mut i: usize = 0;
    while i < v.len()
        invariant
            i <= v.len(),
            res@ == v@.take(i as int),
        decreases v.len() - i,
    {
        res.push(v[i]);
        i += 1;
        assert(res@ =~= v@.take(i as int));
    }
    assert(v@.take(v.len() as int) =~= v@);
    res
}

/// A piece. Like from chess. Like a rook, or such.
///
/// Besides its defining data a piece caches the points it could travel to.
/// The cache is filled by [`Piece::init_auxiliary_data`] and is not kept up
/// to date: after a change of center, facing or kind it has to be refreshed
/// before it is read again.
pub struct Piece {
    id: PieceId,
    core: CorePieceData,
    tvp_cache: Option<TravelPointData>,
}

impl View for Piece {
    type V = PieceView;

    closed spec fn view(&self) -> PieceView {
        PieceView {
            id: self.id,
            core: self.core,
            cache: match self.tvp_cache {
                Some(t) => Some(TravelPoints { capture_points: t.capture_points@, move_points: t.move_points@ }),
                None => None,
            },
        }
    }
}

impl PieceView {
    /// Whether the defining data is valid and every cached point is on the
    /// board.
    pub open spec fn wf(self) -> bool {
        &&& self.core.wf()
        &&& self.cache matches Some(t) ==> spec_all_on_board(t.capture_points) && spec_all_on_board(t.move_points)
    }

    /// Whether the cache holds the travel points of the piece as it is now.
    pub open spec fn fresh(self) -> bool {
        self.cache == Some(spec_travel_points(self.core))
    }

    /// This piece with its cache filled anew.
    pub open spec fn refreshed(self) -> PieceView {
        PieceView { cache: Some(spec_travel_points(self.core)), ..self }
    }

    /// The cached points in the order in which they are listed: moves first,
    /// then captures.
    pub open spec fn travel_points(self) -> Seq<(TravelKind, i64, i64)> {
        spec_tagged_points(self.cache.unwrap())
    }
}

/// The points of `t`, each with the way of travelling there: moves first,
/// then captures.
pub open spec fn spec_tagged_points(t: TravelPoints) -> Seq<(TravelKind, i64, i64)> {
    Seq::new(
        t.move_points.len() + t.capture_points.len(),
        |i: int| if i < t.move_points.len() {
            (TravelKind::Move, t.move_points[i].0, t.move_points[i].1)
        } else {
            (
                TravelKind::Capture,
                t.capture_points[i - t.move_points.len()].0,
                t.capture_points[i - t.move_points.len()].1,
            )
        },
    )
}

/// A refreshed piece is valid as long as its defining data is.
pub proof fn lemma_refreshed_wf(piece: PieceView)
    requires
        piece.core.wf(),
    ensures
        piece.refreshed().wf(),
        piece.refreshed().fresh(),
{
    lemma_drawable_points_on_board(piece.core, piece.core.kind.spec_capture_das());
    lemma_drawable_points_on_board(piece.core, piece.core.kind.spec_move_das());
}

impl Clone for Piece {
    fn clone(&self) -> (res: Self)
        ensures
            res@ == self@,
    {
        let cache = match &self.tvp_cache {
            Some(t) => Some(
                TravelPointData {
                    capture_points: clone_points(&t.capture_points),
                    move_points: clone_points(&t.move_points),
                },
            ),
            None => None,
        };
        Piece { id: self.id, core: self.core, tvp_cache: cache }
    }
}

/// Instantiation.
impl Piece {
    pub fn new(id: PieceId, center: (i64, i64), angle: Angle, side: Side, kind: PieceKind) -> (res: Self)
        requires
            point_in_range(center),
            angle.wf(),
        ensures
            res@ == (PieceView { id, core: CorePieceData { center, angle, side, kind }, cache: None }),
            res@.wf(),
    {
        Self { id, core: CorePieceData { center, angle, side, kind }, tvp_cache: None }
    }

    /// From tile indices: tile `(0, 0)` has its center at half a unit from
    /// both edges.
    pub fn from_tile(id: PieceId, tile: (u8, u8), angle: Angle, side: Side, kind: PieceKind) -> (res: Self)
        requires
            angle.wf(),
        ensures
            res@ == (PieceView {
                id,
                core: CorePieceData {
                    center: ((tile.0 * UNIT + UNIT / 2) as i64, (tile.1 * UNIT + UNIT / 2) as i64),
                    angle,
                    side,
                    kind,
                },
                cache: None,
            }),
            res@.wf(),
    {
        let (x, y) = tile;
        Self {
            id,
            core: CorePieceData {
                center: (x as i64 * UNIT + UNIT / 2, y as i64 * UNIT + UNIT / 2),
                angle,
                side,
                kind,
            },
            tvp_cache: None,
        }
    }
}

/// Trivial getters and setters.
impl Piece {
    pub fn id(&self) -> (res: PieceId)
        ensures
            res == self@.id,
    {
        self.id
    }

    pub fn center(&self) -> (res: (i64, i64))
        ensures
            res == self@.core.center,
    {
        self.core.center
    }

    pub fn set_center(&mut self, center: (i64, i64))
        ensures
            final(self)@ == (PieceView { core: CorePieceData { center, ..old(self)@.core }, ..old(self)@ }),
    {
        self.core.center = center;
    }

    pub fn x(&self) -> (res: i64)
        ensures
            res == self@.core.center.0,
    {
        self.core.center.0
    }

    pub fn set_x(&mut self, x: i64)
        ensures
            final(self)@ == (PieceView {
                core: CorePieceData { center: (x, old(self)@.core.center.1), ..old(self)@.core },
                ..old(self)@
            }),
    {
        self.core.center.0 = x;
    }

    pub fn y(&self) -> (res: i64)
        ensures
            res == self@.core.center.1,
    {
        self.core.center.1
    }

    pub fn set_y(&mut self, y: i64)
        ensures
            final(self)@ == (PieceView {
                core: CorePieceData { center: (old(self)@.core.center.0, y), ..old(self)@.core },
                ..old(self)@
            }),
    {
        self.core.center.1 = y;
    }

    pub fn angle(&self) -> (res: Angle)
        ensures
            res == self@.core.angle,
    {
        self.core.angle
    }

    pub fn set_angle(&mut self, angle: Angle)
        ensures
            final(self)@ == (PieceView { core: CorePieceData { angle, ..old(self)@.core }, ..old(self)@ }),
    {
        self.core.angle = angle;
    }

    pub fn side(&self) -> (res: Side)
        ensures
            res == self@.core.side,
    {
        self.core.side
    }

    pub fn kind(&self) -> (res: PieceKind)
        ensures
            res == self@.core.kind,
    {
        self.core.kind
    }

    pub fn set_kind(&mut self, kind: PieceKind)
        ensures
            final(self)@ == (PieceView { core: CorePieceData { kind, ..old(self)@.core }, ..old(self)@ }),
    {
        self.core.kind = kind;
    }

    /// The defining data of the piece.
    pub fn core_data(&self) -> (res: CorePieceData)
        ensures
            res == self@.core,
    {
        self.core
    }

    pub fn needs_init(&self) -> (res: bool)
        ensures
            res == self@.cache.is_none(),
    {
        self.tvp_cache.is_none()
    }

    /// Whether two pieces have the same center, facing, side and kind.
    pub fn same_core(&self, other: &Piece) -> (res: bool)
        ensures
            res == (self@.core == other@.core),
    {
        self.core.center.0 == other.core.center.0 && self.core.center.1 == other.core.center.1
            && self.core.angle == other.core.angle && self.core.side == other.core.side && self.core.kind
            == other.core.kind
    }
}


impl PartialEq for Piece {
    /// Two pieces are equal when their defining data is: identifier and
    /// cache do not count.
    fn eq(&self, other: &Self) -> (res: bool) {
        self.same_core(other)
    }
}

impl vstd::std_specs::cmp::PartialEqSpecImpl for Piece {
    open spec fn obeys_eq_spec() -> bool {
        true
    }

    open spec fn eq_spec(&self, other: &Self) -> bool {
        self@.core == other@.core
    }
}

/// Whether two points are less than `reach` apart.
fn within_distance(x1: i64, y1: i64, x2: i64, y2: i64, reach: i64) -> (res: bool)
    requires
        0 < reach <= 2 * PIECE_RADIUS,
    ensures
        res == (spec_dist2(x1 as int, y1 as int, x2 as int, y2 as int) < reach * reach),
{
    let dx: i128 = x1 as i128 - x2 as i128;
    let dy: i128 = y1 as i128 - y2 as i128;
    let r: i128 = reach as i128;
    if dx >= r || dx <= -r || dy >= r || dy <= -r {
        assert(dx * dx + dy * dy >= r * r) by (nonlinear_arith)
            requires
                dx >= r || dx <= -r || dy >= r || dy <= -r,
                r > 0;
        return false;
    }
    assert(0 <= dx * dx <= r * r && 0 <= dy * dy <= r * r && r * r <= 4 * PIECE_RADIUS * PIECE_RADIUS)
        by (nonlinear_arith)
        requires
            -r < dx < r,
            -r < dy < r,
            0 < r <= 2 * PIECE_RADIUS;
    dx * dx + dy * dy < r * r
}

/// Nontrivial piece stuff.
impl Piece {
    /// The distance from a piece's own edge of the board.
    pub fn forward_distance(&self) -> (res: i64)
        requires
            in_range(self@.core.center.1 as int),
        ensures
            res == match self@.core.side {
                Side::Black => self@.core.center.1 as int,
                Side::White => BOARD_SIZE - self@.core.center.1,
            },
    {
        match self.side() {
            Side::Black => self.y(),
            Side::White => BOARD_SIZE - self.y(),
        }
    }

    /// If one coord is a piece and the other is a point, do they collide?
    pub fn collidepoint_generic(x1: i64, y1: i64, x2: i64, y2: i64) -> (res: bool)
        ensures
            res == spec_collidepoint(x1 as int, y1 as int, x2 as int, y2 as int),
    {
        within_distance(x1, y1, x2, y2, PIECE_RADIUS)
    }

    /// Whether the point (x, y) collides with this piece.
    pub fn collidepoint(&self, x: i64, y: i64) -> (res: bool)
        ensures
            res == spec_collidepoint(x as int, y as int, self@.core.center.0 as int, self@.core.center.1 as int),
    {
        Piece::collidepoint_generic(x, y, self.core.center.0, self.core.center.1)
    }

    /// Whether a piece with center (x, y) collides with this piece.
    pub fn collidepiece(&self, x: i64, y: i64) -> (res: bool)
        ensures
            res == spec_collidepiece(self@.core.center, x as int, y as int),
    {
        within_distance(x, y, self.core.center.0, self.core.center.1, 2 * PIECE_RADIUS)
    }

    /// Whether a piece with center (x, y) is on the board.
    pub fn on_board(x: i64, y: i64) -> (res: bool)
        ensures
            res == spec_on_board(x as int, y as int),
    {
        !(x < 0 - PIECE_RADIUS || x > BOARD_SIZE + PIECE_RADIUS || y < 0 - PIECE_RADIUS || y > BOARD_SIZE
            + PIECE_RADIUS)
    }

    /// Whether a piece with given characteristics should promote.
    pub fn should_promote(kind: PieceKind, side: Side, y: i64) -> (res: bool)
        ensures
            res == spec_should_promote(kind, side, y as int),
    {
        if !kind.can_promote() {
            return false;
        }
        match side {
            Side::Black => y > 7 * UNIT - PIECE_RADIUS,
            Side::White => y < UNIT + PIECE_RADIUS,
        }
    }

    /// Get the points this piece could travel to, not accounting for
    /// pathing: the cached move points, then the cached capture points.
    ///
    /// The cache must have been filled. What comes back is out of date if the
    /// piece has changed since.
    pub fn travel_points_unchecked(&self) -> (res: Vec<(TravelKind, i64, i64)>)
        requires
            self@.cache.is_some(),
        ensures
            res@ == self@.travel_points(),
    {
        let mut res: Vec<(TravelKind, i64, i64)> = Vec::new();
        let moves = self.move_points_unchecked();
        let captures = self.capture_points_unchecked();
        let ghost want = self@.travel_points();
        let mut i: usize = 0;
        while i < moves.len()
            invariant
                i <= moves.len(),
                res.len() == i,
                moves@ == self@.cache.unwrap().move_points,
                captures@ == self@.cache.unwrap().capture_points,
                want == self@.travel_points(),
                forall|k: int| 0 <= k < i ==> #[trigger] res[k] == want[k],
            decreases moves.len() - i,
        {
            let (x, y) = moves[i];
            res.push((TravelKind::Move, x, y));
            i += 1;
        }
        let mut j: usize = 0;
        while j < captures.len()
            invariant
                j <= captures.len(),
                res.len() == moves.len() + j,
                moves@ == self@.cache.unwrap().move_points,
                captures@ == self@.cache.unwrap().capture_points,
                want == self@.travel_points(),
                forall|k: int| 0 <= k < res.len() ==> #[trigger] res[k] == want[k],
            decreases captures.len() - j,
        {
            let (x, y) = captures[j];
            res.push((TravelKind::Capture, x, y));
            j += 1;
        }
        assert(res@ =~= want);
        res
    }

    /// The cached capture points.
    pub fn capture_points_unchecked(&self) -> (res: &Vec<(i64, i64)>)
        requires
            self@.cache.is_some(),
        ensures
            res@ == self@.cache.unwrap().capture_points,
    {
        match &self.tvp_cache {
            Some(tertiary) => &tertiary.capture_points,
            None => vstd::pervasive::unreached(),
        }
    }

    /// The cached move points.
    pub fn move_points_unchecked(&self) -> (res: &Vec<(i64, i64)>)
        requires
            self@.cache.is_some(),
        ensures
            res@ == self@.cache.unwrap().move_points,
    {
        match &self.tvp_cache {
            Some(tertiary) => &tertiary.move_points,
            None => vstd::pervasive::unreached(),
        }
    }

    /// Fills the cache with the travel points of the piece as it is now.
    pub fn init_auxiliary_data(&mut self)
        requires
            old(self)@.core.wf(),
        ensures
            final(self)@ == old(self)@.refreshed(),
    {
        let mut cap_points: Vec<(i64, i64)> = Vec::new();
        let mut move_points: Vec<(i64, i64)> = Vec::new();
        proof {
            lemma_catalog_wf(self.core.kind);
        }
        let capture_das = self.core.kind.capture_das();
        Piece::extend_with_drawable_points(&self.core, &mut cap_points, &capture_das);
        let move_das = self.core.kind.move_das();
        Piece::extend_with_drawable_points(&self.core, &mut move_points, &move_das);
        assert(cap_points@ =~= spec_travel_points(self.core).capture_points);
        assert(move_points@ =~= spec_travel_points(self.core).move_points);
        self.tvp_cache = Some(TravelPointData { capture_points: cap_points, move_points });
    }

    /// Refreshes a cache that has been filled before.
    pub fn update_travel_points_unchecked(&mut self)
        requires
            old(self)@.core.wf(),
            old(self)@.cache.is_some(),
        ensures
            final(self)@ == old(self)@.refreshed(),
    {
        self.update_capture_points_unchecked();
        self.update_move_points_unchecked();
    }

    /// Update self's capture points with the drawable rays.
    fn update_capture_points_unchecked(&mut self)
        requires
            old(self)@.core.wf(),
            old(self)@.cache.is_some(),
        ensures
            final(self)@ == (PieceView {
                cache: Some(
                    TravelPoints {
                        capture_points: spec_travel_points(old(self)@.core).capture_points,
                        move_points: old(self)@.cache.unwrap().move_points,
                    },
                ),
                ..old(self)@
            }),
    {
        proof {
            lemma_catalog_wf(self.core.kind);
        }
        let capture_das = self.kind().capture_das();
        let mut capture_points: Vec<(i64, i64)> = Vec::new();
        Piece::extend_with_drawable_points(&self.core, &mut capture_points, &capture_das);
        assert(capture_points@ =~= spec_travel_points(self.core).capture_points);
        match &mut self.tvp_cache {
            Some(cache) => {
                cache.capture_points = capture_points;
            },
            None => {},
        }
    }

    /// Update self's move points with the drawable rays.
    fn update_move_points_unchecked(&mut self)
        requires
            old(self)@.core.wf(),
            old(self)@.cache.is_some(),
        ensures
            final(self)@ == (PieceView {
                cache: Some(
                    TravelPoints {
                        capture_points: old(self)@.cache.unwrap().capture_points,
                        move_points: spec_travel_points(old(self)@.core).move_points,
                    },
                ),
                ..old(self)@
            }),
    {
        proof {
            lemma_catalog_wf(self.core.kind);
        }
        let move_das = self.kind().move_das();
        let mut move_points: Vec<(i64, i64)> = Vec::new();
        Piece::extend_with_drawable_points(&self.core, &mut move_points, &move_das);
        assert(move_points@ =~= spec_travel_points(self.core).move_points);
        match &mut self.tvp_cache {
            Some(cache) => {
                cache.move_points = move_points;
            },
            None => {},
        }
    }

    /// Extend points with the drawable points from each ray in das.
    ///
    /// A ray is walked until its end or until a point falls off the board:
    /// the points of a ray only move further away, so none behind that one
    /// can be on the board.
    pub fn extend_with_drawable_points(
        core: &CorePieceData,
        points: &mut Vec<(i64, i64)>,
        das: &Vec<DistancesAngle>,
    )
        requires
            core.wf(),
            forall|i: int| 0 <= i < das.len() ==> (#[trigger] das[i]).wf(),
        ensures
            final(points)@ == old(points)@ + spec_drawable_points(*core, das@),
    {
        let offset_angle = core.angle.quarter_turned();
        let mut i: usize = 0;
        assert(das@.take(0) =~= Seq::<DistancesAngle>::empty());
        while i < das.len()
            invariant
                i <= das.len(),
                core.wf(),
                offset_angle == core.angle.spec_quarter_turned(),
                offset_angle.wf(),
                forall|k: int| 0 <= k < das.len() ==> (#[trigger] das[k]).wf(),
                points@ == old(points)@ + spec_drawable_points(*core, das@.take(i as int)),
            decreases das.len() - i,
        {
            let da = das[i];
            let ghost before = points@;
            let ghost last = spec_ray_last(da);
            let mut it = da.into_iter();
            loop
                invariant_except_break
                    -RAY_LIMIT <= it.curr <= 2 * RAY_LIMIT,
                    before + spec_ray_points(*core, da, da.start as int) == points@ + spec_ray_points(
                        *core,
                        da,
                        it.curr as int,
                    ),
                invariant
                    core.wf(),
                    da.wf(),
                    offset_angle == core.angle.spec_quarter_turned(),
                    offset_angle.wf(),
                    last == spec_ray_last(da),
                    it.step == da.step,
                    it.inclusive_upper_bound == da.inclusive_upper_bound,
                ensures
                    points@ == before + spec_ray_points(*core, da, da.start as int),
                decreases
                    (if it.curr <= last {
                        last - it.curr + 1
                    } else {
                        0
                    }),
            {
                match it.next() {
                    None => {
                        assert(points@ =~= before + spec_ray_points(*core, da, da.start as int));
                        break;
                    },
                    Some(d) => {
                        let (ox, oy) = da.get_point(d, offset_angle);
                        let point = (ox + core.center.0, oy + core.center.1);
                        if !Piece::on_board(point.0, point.1) {
                            assert(points@ =~= before + spec_ray_points(*core, da, da.start as int));
                            break;
                        }
                        proof {
                            if da.inclusive_upper_bound.is_none() && d > WALK_LIMIT {
                                lemma_walk_limit(*core, da, d as int);
                            }
                            assert(spec_ray_points(*core, da, d as int) =~= seq![point] + spec_ray_points(
                                *core,
                                da,
                                d + da.step,
                            ));
                        }
                        points.push(point);
                        assert(points@ + spec_ray_points(*core, da, it.curr as int) =~= before
                            + spec_ray_points(*core, da, da.start as int));
                    },
                }
            }
            i += 1;
            proof {
                let t = das@.take(i as int);
                assert(t.drop_last() =~= das@.take(i - 1));
                assert(t.last() == da);
                assert(points@ =~= old(points)@ + spec_drawable_points(*core, t));
            }
        }
        assert(das@.take(das.len() as int) =~= das@);
    }
}


/// A piece collides with a point and with a piece at its own center, and
/// with neither at or beyond the threshold: one radius for a point, two radii
/// for a piece.
pub proof fn lemma_collision_thresholds(center: (i64, i64), x: int, y: int)
    ensures
        spec_collidepoint(center.0 as int, center.1 as int, center.0 as int, center.1 as int),
        spec_collidepiece(center, center.0 as int, center.1 as int),
        spec_dist2(x, y, center.0 as int, center.1 as int) >= PIECE_RADIUS * PIECE_RADIUS ==> !spec_collidepoint(
            x,
            y,
            center.0 as int,
            center.1 as int,
        ),
        spec_dist2(x, y, center.0 as int, center.1 as int) >= (2 * PIECE_RADIUS) * (2 * PIECE_RADIUS)
            ==> !spec_collidepiece(center, x, y),
        spec_collidepoint(x, y, center.0 as int, center.1 as int) == spec_collidepoint(
            center.0 as int,
            center.1 as int,
            x,
            y,
        ),
{
    let cx = center.0 as int;
    let cy = center.1 as int;
    assert((2 * PIECE_RADIUS) * (2 * PIECE_RADIUS) == 462_400_000_000) by (nonlinear_arith);
    assert(spec_dist2(cx, cy, cx, cy) == 0) by (nonlinear_arith)
        requires spec_dist2(cx, cy, cx, cy) == (cx - cx) * (cx - cx) + (cy - cy) * (cy - cy);
    assert(spec_dist2(x, y, cx, cy) == spec_dist2(cx, cy, x, y)) by (nonlinear_arith)
        requires
            spec_dist2(x, y, cx, cy) == (x - cx) * (x - cx) + (y - cy) * (y - cy),
            spec_dist2(cx, cy, x, y) == (cx - x) * (cx - x) + (cy - y) * (cy - y);
}

} // verus!
