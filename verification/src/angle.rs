//! Directions for whole-degree angles, in fixed point. The sines of the first
//! quadrant are tabulated; the other quadrants follow by symmetry.

use vstd::arithmetic::div_mod::lemma_fundamental_div_mod_converse;
use vstd::prelude::*;
use crate::units::SCALE;

verus! {

/// The sine of each whole degree from 0 to 90, in millionths, rounded to the
/// nearest.
pub const SINES: [i64; 91] = [
    0, 17452, 34899, 52336, 69756, 87156, 104528, 121869, 139173, 156434,
    173648, 190809, 207912, 224951, 241922, 258819, 275637, 292372, 309017, 325568,
    342020, 358368, 374607, 390731, 406737, 422618, 438371, 453990, 469472, 484810,
    500000, 515038, 529919, 544639, 559193, 573576, 587785, 601815, 615661, 629320,
    642788, 656059, 669131, 681998, 694658, 707107, 719340, 731354, 743145, 754710,
    766044, 777146, 788011, 798636, 809017, 819152, 829038, 838671, 848048, 857167,
    866025, 874620, 882948, 891007, 898794, 906308, 913545, 920505, 927184, 933580,
    939693, 945519, 951057, 956305, 961262, 965926, 970296, 974370, 978148, 981627,
    984808, 987688, 990268, 992546, 994522, 996195, 997564, 998630, 999391, 999848,
    1000000,
];

/// A direction in the plane: the cosine and the sine of an angle, in
/// millionths.
#[derive(Clone, Copy, Debug, PartialEq, Eq, Structural)]
pub struct Direction {
    pub cos: i64,
    pub sin: i64,
}

/// The tabulated sine of `d` degrees, for `d` from 0 to 90.
pub open spec fn sine(d: int) -> int {
    SINES@[d] as int
}

/// The direction of an angle given in whole degrees, which may be negative or
/// beyond a full turn.
pub open spec fn direction_of(angle: int) -> Direction {
    let turn = angle % 360;
    let quadrant = turn / 90;
    let r = turn % 90;
    if quadrant == 0 {
        Direction { cos: sine(90 - r) as i64, sin: sine(r) as i64 }
    } else if quadrant == 1 {
        Direction { cos: (-sine(r)) as i64, sin: sine(90 - r) as i64 }
    } else if quadrant == 2 {
        Direction { cos: (-sine(90 - r)) as i64, sin: (-sine(r)) as i64 }
    } else {
        Direction { cos: sine(r) as i64, sin: (-sine(90 - r)) as i64 }
    }
}

/// A direction turned by a quarter turn, counter-clockwise.
pub open spec fn quarter_turn(d: Direction) -> Direction {
    Direction { cos: (-d.sin) as i64, sin: d.cos }
}

/// No tabulated sine is negative or exceeds one.
pub proof fn lemma_sine_bounds(d: int)
    requires
        0 <= d <= 90,
    ensures
        0 <= sine(d) <= SCALE,
{
}

/// Neither component of a direction is longer than one.
pub proof fn lemma_direction_bounds(angle: int)
    ensures
        -(SCALE as int) <= direction_of(angle).cos <= SCALE,
        -(SCALE as int) <= direction_of(angle).sin <= SCALE,
{
    let turn = angle % 360;
    let r = turn % 90;
    lemma_sine_bounds(r);
    lemma_sine_bounds(90 - r);
}

/// Whether a cosine and a sine lie on the unit circle, but for what rounding
/// took: the sum of their squares differs from one by no more than two
/// millionths.
pub open spec fn on_circle(c: int, s: int) -> bool {
    -2 * SCALE <= c * c + s * s - SCALE * SCALE <= 2 * SCALE
}

/// Every tabulated sine lies on the unit circle with the sine of the
/// complement, which is its cosine. Each entry is looked at in turn.
pub proof fn lemma_sines_on_circle(d: int)
    requires
        0 <= d <= 90,
    ensures
        on_circle(sine(90 - d), sine(d)),
{
    if d == 0 || d == 90 {
        assert(on_circle(0, 1000000));
    }
    if d == 1 || d == 89 {
        assert(on_circle(17452, 999848));
    }
    if d == 2 || d == 88 {
        assert(on_circle(34899, 999391));
    }
    if d == 3 || d == 87 {
        assert(on_circle(52336, 998630));
    }
    if d == 4 || d == 86 {
        assert(on_circle(69756, 997564));
    }
    if d == 5 || d == 85 {
        assert(on_circle(87156, 996195));
    }
    if d == 6 || d == 84 {
        assert(on_circle(104528, 994522));
    }
    if d == 7 || d == 83 {
        assert(on_circle(121869, 992546));
    }
    if d == 8 || d == 82 {
        assert(on_circle(139173, 990268));
    }
    if d == 9 || d == 81 {
        assert(on_circle(156434, 987688));
    }
    if d == 10 || d == 80 {
        assert(on_circle(173648, 984808));
    }
    if d == 11 || d == 79 {
        assert(on_circle(190809, 981627));
    }
    if d == 12 || d == 78 {
        assert(on_circle(207912, 978148));
    }
    if d == 13 || d == 77 {
        assert(on_circle(224951, 974370));
    }
    if d == 14 || d == 76 {
        assert(on_circle(241922, 970296));
    }
    if d == 15 || d == 75 {
        assert(on_circle(258819, 965926));
    }
    if d == 16 || d == 74 {
        assert(on_circle(275637, 961262));
    }
    if d == 17 || d == 73 {
        assert(on_circle(292372, 956305));
    }
    if d == 18 || d == 72 {
        assert(on_circle(309017, 951057));
    }
    if d == 19 || d == 71 {
        assert(on_circle(325568, 945519));
    }
    if d == 20 || d == 70 {
        assert(on_circle(342020, 939693));
    }
    if d == 21 || d == 69 {
        assert(on_circle(358368, 933580));
    }
    if d == 22 || d == 68 {
        assert(on_circle(374607, 927184));
    }
    if d == 23 || d == 67 {
        assert(on_circle(390731, 920505));
    }
    if d == 24 || d == 66 {
        assert(on_circle(406737, 913545));
    }
    if d == 25 || d == 65 {
        assert(on_circle(422618, 906308));
    }
    if d == 26 || d == 64 {
        assert(on_circle(438371, 898794));
    }
    if d == 27 || d == 63 {
        assert(on_circle(453990, 891007));
    }
    if d == 28 || d == 62 {
        assert(on_circle(469472, 882948));
    }
    if d == 29 || d == 61 {
        assert(on_circle(484810, 874620));
    }
    if d == 30 || d == 60 {
        assert(on_circle(500000, 866025));
    }
    if d == 31 || d == 59 {
        assert(on_circle(515038, 857167));
    }
    if d == 32 || d == 58 {
        assert(on_circle(529919, 848048));
    }
    if d == 33 || d == 57 {
        assert(on_circle(544639, 838671));
    }
    if d == 34 || d == 56 {
        assert(on_circle(559193, 829038));
    }
    if d == 35 || d == 55 {
        assert(on_circle(573576, 819152));
    }
    if d == 36 || d == 54 {
        assert(on_circle(587785, 809017));
    }
    if d == 37 || d == 53 {
        assert(on_circle(601815, 798636));
    }
    if d == 38 || d == 52 {
        assert(on_circle(615661, 788011));
    }
    if d == 39 || d == 51 {
        assert(on_circle(629320, 777146));
    }
    if d == 40 || d == 50 {
        assert(on_circle(642788, 766044));
    }
    if d == 41 || d == 49 {
        assert(on_circle(656059, 754710));
    }
    if d == 42 || d == 48 {
        assert(on_circle(669131, 743145));
    }
    if d == 43 || d == 47 {
        assert(on_circle(681998, 731354));
    }
    if d == 44 || d == 46 {
        assert(on_circle(694658, 719340));
    }
    if d == 45 {
        assert(on_circle(707107, 707107));
    }
}

/// Every direction has unit length, but for what rounding took: the matrix
/// of a placement is a rotation.
pub proof fn lemma_unit_length(angle: int)
    ensures
        on_circle(direction_of(angle).cos as int, direction_of(angle).sin as int),
{
    let turn = angle % 360;
    let r = turn % 90;
    lemma_sine_bounds(r);
    lemma_sine_bounds(90 - r);
    lemma_sines_on_circle(r);
    let a = sine(r);
    let b = sine(90 - r);
    assert((-a) * (-a) == a * a) by (nonlinear_arith);
    assert((-b) * (-b) == b * b) by (nonlinear_arith);
    assert(a * a + b * b == b * b + a * a);
}

/// Adding a quarter turn to the angle turns the direction by a quarter turn:
/// a rotated page tilts the watermark by exactly its own rotation.
pub proof fn lemma_quarter_turn(angle: int)
    ensures
        direction_of(angle + 90) == quarter_turn(direction_of(angle)),
{
    let turn = angle % 360;
    let q = turn / 90;
    let r = turn % 90;
    let next = if q == 3 { r } else { turn + 90 };
    lemma_sine_bounds(r);
    lemma_sine_bounds(90 - r);
    if q == 3 {
        lemma_fundamental_div_mod_converse(angle + 90, 360, angle / 360 + 1, r);
    } else {
        lemma_fundamental_div_mod_converse(angle + 90, 360, angle / 360, turn + 90);
    }
    assert((angle + 90) % 360 == next);
    lemma_fundamental_div_mod_converse(next, 90, if q == 3 { 0 } else { q + 1 }, r);
}

/// The angle between 0 and 359 degrees that equals `angle + rotation` up to
/// whole turns.
pub open spec fn effective_angle(angle: int, rotation: int) -> int {
    (angle + rotation) % 360
}

/// Adds the rotation of a page to the tilt of the watermark.
pub fn add_rotation(angle: i64, rotation: i64) -> (turn: i64)
    ensures
        turn as int == effective_angle(angle as int, rotation as int),
        0 <= turn < 360,
{
    let sum: i128 = angle as i128 + rotation as i128;
    if sum >= 0 {
        (sum % 360) as i64
    } else {
        let below: i128 = -(sum + 1);
        let k: i128 = below % 360;
        proof {
            vstd::arithmetic::div_mod::lemma_fundamental_div_mod(below as int, 360);
            lemma_fundamental_div_mod_converse(sum as int, 360, -(below / 360) - 1, 359 - k);
        }
        (359 - k) as i64
    }
}

/// The direction of an angle in whole degrees.
pub fn direction(angle: i64) -> (d: Direction)
    ensures
        d == direction_of(angle as int),
        -SCALE <= d.cos <= SCALE,
        -SCALE <= d.sin <= SCALE,
{
    let turn: i64 = add_rotation(angle, 0);
    let quadrant: i64 = turn / 90;
    let r: usize = (turn % 90) as usize;
    proof {
        lemma_sine_bounds(r as int);
        lemma_sine_bounds(90 - r);
    }
    let near: i64 = SINES[r];
    let far: i64 = SINES[90 - r];
    if quadrant == 0 {
        Direction { cos: far, sin: near }
    } else if quadrant == 1 {
        Direction { cos: -near, sin: far }
    } else if quadrant == 2 {
        Direction { cos: -far, sin: -near }
    } else {
        Direction { cos: near, sin: -far }
    }
}

} // verus!
