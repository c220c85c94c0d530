//! Faces, turn directions, axes, outer turns and whole-cube transformations
//! of the 3x3x3 cube, with the notation used by the algorithm parser.

use vstd::prelude::*;
use vstd::string::*;

verus! {

/// One of the six faces of the cube.
#[derive(Debug, Clone, Copy, PartialEq, Eq, Hash, Structural)]
pub enum CubeFace {
    Up,
    Down,
    Front,
    Back,
    Left,
    Right,
}

/// Amount of a turn: a quarter turn, a half turn, or a counter-clockwise
/// quarter turn.
#[derive(Debug, Clone, Copy, PartialEq, Eq, Hash, Structural)]
pub enum Direction {
    Clockwise,
    Half,
    CounterClockwise,
}

/// One of the three rotation axes of the whole cube.
#[derive(Debug, Clone, Copy, PartialEq, Eq, Hash, Structural)]
pub enum CubeAxis {
    X,
    Y,
    Z,
}

/// An outer-layer turn: a face together with a direction.
#[derive(Debug, Clone, Copy, PartialEq, Eq, Hash, Structural)]
pub struct CubeOuterTurn {
    pub face: CubeFace,
    pub dir: Direction,
}

/// A whole-cube reorientation: an axis together with a direction.
#[derive(Debug, Clone, Copy, PartialEq, Eq, Hash, Structural)]
pub struct CubeTransformation {
    pub axis: CubeAxis,
    pub dir: Direction,
}

pub open spec fn face_index(f: CubeFace) -> int {
    match f {
        CubeFace::Up => 0,
        CubeFace::Down => 1,
        CubeFace::Front => 2,
        CubeFace::Back => 3,
        CubeFace::Left => 4,
        CubeFace::Right => 5,
    }
}

pub open spec fn dir_index(d: Direction) -> int {
    match d {
        Direction::Clockwise => 0,
        Direction::Half => 1,
        Direction::CounterClockwise => 2,
    }
}

pub open spec fn axis_index(a: CubeAxis) -> int {
    match a {
        CubeAxis::X => 0,
        CubeAxis::Y => 1,
        CubeAxis::Z => 2,
    }
}

pub open spec fn spec_opposite(f: CubeFace) -> CubeFace {
    match f {
        CubeFace::Up => CubeFace::Down,
        CubeFace::Down => CubeFace::Up,
        CubeFace::Front => CubeFace::Back,
        CubeFace::Back => CubeFace::Front,
        CubeFace::Left => CubeFace::Right,
        CubeFace::Right => CubeFace::Left,
    }
}

pub open spec fn spec_invert_dir(d: Direction) -> Direction {
    match d {
        Direction::Clockwise => Direction::CounterClockwise,
        Direction::Half => Direction::Half,
        Direction::CounterClockwise => Direction::Clockwise,
    }
}

/// Whether face `f` lies on axis `a`; the up/down faces lie on the Y axis,
/// front/back on Z, left/right on X.
pub open spec fn spec_is_on_axis(f: CubeFace, a: CubeAxis) -> bool {
    match (f, a) {
        (CubeFace::Up, CubeAxis::Y) => true,
        (CubeFace::Down, CubeAxis::Y) => true,
        (CubeFace::Front, CubeAxis::Z) => true,
        (CubeFace::Back, CubeAxis::Z) => true,
        (CubeFace::Left, CubeAxis::X) => true,
        (CubeFace::Right, CubeAxis::X) => true,
        _ => false,
    }
}

/// Where face `f` ends up after rotating the whole cube about `axis` by
/// `dir`.
pub open spec fn spec_transform_face(f: CubeFace, axis: CubeAxis, dir: Direction) -> CubeFace {
    match (f, axis) {
        (CubeFace::Up, CubeAxis::X) => match dir {
            Direction::Clockwise => CubeFace::Front,
            Direction::Half => CubeFace::Down,
            Direction::CounterClockwise => CubeFace::Back,
        },
        (CubeFace::Up, CubeAxis::Y) => CubeFace::Up,
        (CubeFace::Up, CubeAxis::Z) => match dir {
            Direction::Clockwise => CubeFace::Left,
            Direction::Half => CubeFace::Down,
            Direction::CounterClockwise => CubeFace::Right,
        },
        (CubeFace::Down, CubeAxis::X) => match dir {
            Direction::Clockwise => CubeFace::Back,
            Direction::Half => CubeFace::Up,
            Direction::CounterClockwise => CubeFace::Front,
        },
        (CubeFace::Down, CubeAxis::Y) => CubeFace::Down,
        (CubeFace::Down, CubeAxis::Z) => match dir {
            Direction::Clockwise => CubeFace::Right,
            Direction::Half => CubeFace::Up,
            Direction::CounterClockwise => CubeFace::Left,
        },
        (CubeFace::Front, CubeAxis::X) => match dir {
            Direction::Clockwise => CubeFace::Down,
            Direction::Half => CubeFace::Back,
            Direction::CounterClockwise => CubeFace::Up,
        },
        (CubeFace::Front, CubeAxis::Y) => match dir {
            Direction::Clockwise => CubeFace::Right,
            Direction::Half => CubeFace::Back,
            Direction::CounterClockwise => CubeFace::Left,
        },
        (CubeFace::Front, CubeAxis::Z) => CubeFace::Front,
        (CubeFace::Back, CubeAxis::X) => match dir {
            Direction::Clockwise => CubeFace::Up,
            Direction::Half => CubeFace::Front,
            Direction::CounterClockwise => CubeFace::Down,
        },
        (CubeFace::Back, CubeAxis::Y) => match dir {
            Direction::Clockwise => CubeFace::Left,
            Direction::Half => CubeFace::Front,
            Direction::CounterClockwise => CubeFace::Right,
        },
        (CubeFace::Back, CubeAxis::Z) => CubeFace::Back,
        (CubeFace::Left, CubeAxis::X) => CubeFace::Left,
        (CubeFace::Left, CubeAxis::Y) => match dir {
            Direction::Clockwise => CubeFace::Front,
            Direction::Half => CubeFace::Right,
            Direction::CounterClockwise => CubeFace::Back,
        },
        (CubeFace::Left, CubeAxis::Z) => match dir {
            Direction::Clockwise => CubeFace::Down,
            Direction::Half => CubeFace::Right,
            Direction::CounterClockwise => CubeFace::Up,
        },
        (CubeFace::Right, CubeAxis::X) => CubeFace::Right,
        (CubeFace::Right, CubeAxis::Y) => match dir {
            Direction::Clockwise => CubeFace::Back,
            Direction::Half => CubeFace::Left,
            Direction::CounterClockwise => CubeFace::Front,
        },
        (CubeFace::Right, CubeAxis::Z) => match dir {
            Direction::Clockwise => CubeFace::Up,
            Direction::Half => CubeFace::Left,
            Direction::CounterClockwise => CubeFace::Down,
        },
    }
}

impl CubeFace {
    /// The face on the other side of the cube.
    pub fn opposite(self) -> (r: CubeFace)
        ensures
            r == spec_opposite(self),
    {
        match self {
            CubeFace::Up => CubeFace::Down,
            CubeFace::Down => CubeFace::Up,
            CubeFace::Front => CubeFace::Back,
            CubeFace::Back => CubeFace::Front,
            CubeFace::Left => CubeFace::Right,
            CubeFace::Right => CubeFace::Left,
        }
    }

    /// Where this face ends up after the whole-cube reorientation `t`.
    pub fn transform(self, t: CubeTransformation) -> (r: CubeFace)
        ensures
            r == spec_transform_face(self, t.axis, t.dir),
    {
        match (t.axis, t.dir) {
            (CubeAxis::X, Direction::Clockwise) => match self {
                CubeFace::Up => CubeFace::Front,
                CubeFace::Down => CubeFace::Back,
                CubeFace::Front => CubeFace::Down,
                CubeFace::Back => CubeFace::Up,
                CubeFace::Left => CubeFace::Left,
                CubeFace::Right => CubeFace::Right,
            },
            (CubeAxis::X, Direction::Half) => match self {
                CubeFace::Up => CubeFace::Down,
                CubeFace::Down => CubeFace::Up,
                CubeFace::Front => CubeFace::Back,
                CubeFace::Back => CubeFace::Front,
                CubeFace::Left => CubeFace::Left,
                CubeFace::Right => CubeFace::Right,
            },
            (CubeAxis::X, Direction::CounterClockwise) => match self {
                CubeFace::Up => CubeFace::Back,
                CubeFace::Down => CubeFace::Front,
                CubeFace::Front => CubeFace::Up,
                CubeFace::Back => CubeFace::Down,
                CubeFace::Left => CubeFace::Left,
                CubeFace::Right => CubeFace::Right,
            },
            (CubeAxis::Y, Direction::Clockwise) => match self {
                CubeFace::Up => CubeFace::Up,
                CubeFace::Down => CubeFace::Down,
                CubeFace::Front => CubeFace::Right,
                CubeFace::Back => CubeFace::Left,
                CubeFace::Left => CubeFace::Front,
                CubeFace::Right => CubeFace::Back,
            },
            (CubeAxis::Y, Direction::Half) => match self {
                CubeFace::Up => CubeFace::Up,
                CubeFace::Down => CubeFace::Down,
                CubeFace::Front => CubeFace::Back,
                CubeFace::Back => CubeFace::Front,
                CubeFace::Left => CubeFace::Right,
                CubeFace::Right => CubeFace::Left,
            },
            (CubeAxis::Y, Direction::CounterClockwise) => match self {
                CubeFace::Up => CubeFace::Up,
                CubeFace::Down => CubeFace::Down,
                CubeFace::Front => CubeFace::Left,
                CubeFace::Back => CubeFace::Right,
                CubeFace::Left => CubeFace::Back,
                CubeFace::Right => CubeFace::Front,
            },
            (CubeAxis::Z, Direction::Clockwise) => match self {
                CubeFace::Up => CubeFace::Left,
                CubeFace::Down => CubeFace::Right,
                CubeFace::Front => CubeFace::Front,
                CubeFace::Back => CubeFace::Back,
                CubeFace::Left => CubeFace::Down,
                CubeFace::Right => CubeFace::Up,
            },
            (CubeAxis::Z, Direction::Half) => match self {
                CubeFace::Up => CubeFace::Down,
                CubeFace::Down => CubeFace::Up,
                CubeFace::Front => CubeFace::Front,
                CubeFace::Back => CubeFace::Back,
                CubeFace::Left => CubeFace::Right,
                CubeFace::Right => CubeFace::Left,
            },
            (CubeAxis::Z, Direction::CounterClockwise) => match self {
                CubeFace::Up => CubeFace::Right,
                CubeFace::Down => CubeFace::Left,
                CubeFace::Front => CubeFace::Front,
                CubeFace::Back => CubeFace::Back,
                CubeFace::Left => CubeFace::Up,
                CubeFace::Right => CubeFace::Down,
            },
        }
    }

    /// Whether this face lies on axis `a`.
    pub fn is_on_axis(self, a: CubeAxis) -> (r: bool)
        ensures
            r == spec_is_on_axis(self, a),
    {
        match (self, a) {
            (CubeFace::Up, CubeAxis::Y) => true,
            (CubeFace::Down, CubeAxis::Y) => true,
            (CubeFace::Front, CubeAxis::Z) => true,
            (CubeFace::Back, CubeAxis::Z) => true,
            (CubeFace::Left, CubeAxis::X) => true,
            (CubeFace::Right, CubeAxis::X) => true,
            _ => false,
        }
    }

    /// The face named by the numeric identifier `face`, the inverse of the
    /// face component of `to_id`.
    pub fn from_id(face: usize) -> (r: CubeFace)
        requires
            face < 6,
        ensures
            face_index(r) == face,
    {
        match face {
            0 => CubeFace::Up,
            1 => CubeFace::Down,
            2 => CubeFace::Front,
            3 => CubeFace::Back,
            4 => CubeFace::Left,
            _ => CubeFace::Right,
        }
    }

    /// The numeric identifier of this face.
    pub fn to_id(self) -> (r: usize)
        ensures
            r == face_index(self),
    {
        match self {
            CubeFace::Up => 0,
            CubeFace::Down => 1,
            CubeFace::Front => 2,
            CubeFace::Back => 3,
            CubeFace::Left => 4,
            CubeFace::Right => 5,
        }
    }
}

/// The face named by a letter of move notation, accepting both the upper
/// and the lower case.
pub open spec fn face_of_char(c: char) -> Option<CubeFace> {
    if c == 'U' || c == 'u' {
        Some(CubeFace::Up)
    } else if c == 'D' || c == 'd' {
        Some(CubeFace::Down)
    } else if c == 'F' || c == 'f' {
        Some(CubeFace::Front)
    } else if c == 'B' || c == 'b' {
        Some(CubeFace::Back)
    } else if c == 'L' || c == 'l' {
        Some(CubeFace::Left)
    } else if c == 'R' || c == 'r' {
        Some(CubeFace::Right)
    } else {
        None
    }
}

/// The upper-case letter that renders a face.
pub open spec fn face_char(f: CubeFace) -> char {
    match f {
        CubeFace::Up => 'U',
        CubeFace::Down => 'D',
        CubeFace::Front => 'F',
        CubeFace::Back => 'B',
        CubeFace::Left => 'L',
        CubeFace::Right => 'R',
    }
}

impl CubeFace {
    /// The face named by the character `value`, if any; letters of either
    /// case are accepted.
    pub fn from_char(value: char) -> (r: Result<CubeFace, ()>)
        ensures
            match r {
                Ok(f) => face_of_char(value) == Some(f),
                Err(()) => face_of_char(value) is None,
            },
    {
        if value == 'U' || value == 'u' {
            Ok(CubeFace::Up)
        } else if value == 'D' || value == 'd' {
            Ok(CubeFace::Down)
        } else if value == 'F' || value == 'f' {
            Ok(CubeFace::Front)
        } else if value == 'B' || value == 'b' {
            Ok(CubeFace::Back)
        } else if value == 'L' || value == 'l' {
            Ok(CubeFace::Left)
        } else if value == 'R' || value == 'r' {
            Ok(CubeFace::Right)
        } else {
            Err(())
        }
    }

    /// The upper-case letter that names this face in move notation.
    pub fn to_char(self) -> (r: char)
        ensures
            r == face_char(self),
    {
        match self {
            CubeFace::Up => 'U',
            CubeFace::Down => 'D',
            CubeFace::Front => 'F',
            CubeFace::Back => 'B',
            CubeFace::Left => 'L',
            CubeFace::Right => 'R',
        }
    }
}

impl Direction {
    /// The direction that undoes this one: quarter turns swap orientation,
    /// half turns are their own inverse.
    pub fn invert(&self) -> (r: Direction)
        ensures
            r == spec_invert_dir(*self),
    {
        match *self {
            Direction::Clockwise => Direction::CounterClockwise,
            Direction::CounterClockwise => Direction::Clockwise,
            Direction::Half => Direction::Half,
        }
    }
}

impl CubeAxis {
    /// The axis through the up and down faces.
    pub const UD: CubeAxis = CubeAxis::Y;

    /// The axis through the front and back faces.
    pub const FB: CubeAxis = CubeAxis::Z;

    /// The axis through the left and right faces.
    pub const LR: CubeAxis = CubeAxis::X;
}

pub open spec fn spec_mirror_turn(m: CubeOuterTurn, a: CubeAxis) -> CubeOuterTurn {
    if spec_is_on_axis(m.face, a) {
        CubeOuterTurn { face: spec_opposite(m.face), dir: spec_invert_dir(m.dir) }
    } else {
        CubeOuterTurn { face: m.face, dir: spec_invert_dir(m.dir) }
    }
}

impl CubeOuterTurn {
    pub fn new(face: CubeFace, dir: Direction) -> (r: CubeOuterTurn)
        ensures
            r == (CubeOuterTurn { face, dir }),
    {
        Self { face, dir }
    }

    /// The turn that undoes this one.
    pub fn invert(&self) -> (r: CubeOuterTurn)
        ensures
            r == (CubeOuterTurn { face: self.face, dir: spec_invert_dir(self.dir) }),
    {
        CubeOuterTurn { face: self.face, dir: self.dir.invert() }
    }

    /// The image of this turn in the mirror across axis `a`: a face on the
    /// axis moves to the opposite face, and every direction is inverted.
    pub fn mirror(&self, a: CubeAxis) -> (r: CubeOuterTurn)
        ensures
            r == spec_mirror_turn(*self, a),
    {
        if self.face.is_on_axis(a) {
            CubeOuterTurn::new(self.face.opposite(), self.dir.invert())
        } else {
            CubeOuterTurn::new(self.face, self.dir.invert())
        }
    }

    /// This turn seen after the whole-cube reorientation `t`.
    pub fn transform(&self, t: CubeTransformation) -> (r: CubeOuterTurn)
        ensures
            r == (CubeOuterTurn {
                face: spec_transform_face(self.face, t.axis, t.dir),
                dir: self.dir,
            }),
    {
        Self::new(self.face.transform(t), self.dir)
    }

    /// The dense identifier of this turn: three directions per face, in
    /// face order up, down, front, back, left, right.
    pub fn to_id(&self) -> (r: usize)
        ensures
            r == face_index(self.face) * 3 + dir_index(self.dir),
            r < 18,
    {
        self.face.to_id() * 3 + match self.dir {
            Direction::Clockwise => 0,
            Direction::Half => 1,
            Direction::CounterClockwise => 2,
        }
    }

    /// The turn at position `value` of the fixed enumeration order, which
    /// lists each face's clockwise, counter-clockwise and half turn in
    /// face order.
    pub fn from_id(value: usize) -> (r: CubeOuterTurn)
        requires
            value < 18,
        ensures
            face_index(r.face) == value / 3,
            r.dir == (if value % 3 == 0 {
                Direction::Clockwise
            } else if value % 3 == 1 {
                Direction::CounterClockwise
            } else {
                Direction::Half
            }),
    {
        let face = CubeFace::from_id(value / 3);
        let rem = value % 3;
        let dir = if rem == 0 {
            Direction::Clockwise
        } else if rem == 1 {
            Direction::CounterClockwise
        } else {
            Direction::Half
        };
        CubeOuterTurn::new(face, dir)
    }
}

impl CubeTransformation {
    pub fn new(axis: CubeAxis, dir: Direction) -> (r: CubeTransformation)
        ensures
            r == (CubeTransformation { axis, dir }),
    {
        Self { axis, dir }
    }

    /// The reorientation that undoes this one.
    pub fn invert(&self) -> (r: CubeTransformation)
        ensures
            r == (CubeTransformation { axis: self.axis, dir: spec_invert_dir(self.dir) }),
    {
        CubeTransformation::new(self.axis, self.dir.invert())
    }

    /// The dense identifier of this reorientation: three directions per
    /// axis, in axis order.
    pub fn to_id(&self) -> (r: usize)
        ensures
            r == axis_index(self.axis) * 3 + dir_index(self.dir),
            r < 9,
    {
        let a = match self.axis {
            CubeAxis::X => 0,
            CubeAxis::Y => 1,
            CubeAxis::Z => 2,
        };
        let d = match self.dir {
            Direction::Clockwise => 0,
            Direction::Half => 1,
            Direction::CounterClockwise => 2,
        };
        a * 3 + d
    }

    /// The reorientation at position `value` of the fixed enumeration
    /// order, which lists each axis's clockwise, counter-clockwise and
    /// half rotation in axis order.
    pub fn from_id(value: usize) -> (r: CubeTransformation)
        requires
            value < 9,
        ensures
            axis_index(r.axis) == value / 3,
            r.dir == (if value % 3 == 0 {
                Direction::Clockwise
            } else if value % 3 == 1 {
                Direction::CounterClockwise
            } else {
                Direction::Half
            }),
    {
        let axis = match value / 3 {
            0 => CubeAxis::X,
            1 => CubeAxis::Y,
            _ => CubeAxis::Z,
        };
        let rem = value % 3;
        let dir = if rem == 0 {
            Direction::Clockwise
        } else if rem == 1 {
            Direction::CounterClockwise
        } else {
            Direction::Half
        };
        CubeTransformation::new(axis, dir)
    }
}

/// The characters that render one turn: the face letter, followed by `2`
/// for a half turn or `'` for a counter-clockwise turn.
pub open spec fn move_chars(m: CubeOuterTurn) -> Seq<char> {
    match m.dir {
        Direction::Clockwise => seq![face_char(m.face)],
        Direction::Half => seq![face_char(m.face), '2'],
        Direction::CounterClockwise => seq![face_char(m.face), '\''],
    }
}

/// The turn named by a token of move notation: a face letter of either
/// case, optionally followed by `2` or `'`.
pub open spec fn parse_move_chars(s: Seq<char>) -> Option<CubeOuterTurn> {
    if s.len() == 0 {
        None
    } else {
        match face_of_char(s[0]) {
            Some(f) => if s.len() == 1 {
                Some(CubeOuterTurn { face: f, dir: Direction::Clockwise })
            } else if s.len() == 2 && s[1] == '2' {
                Some(CubeOuterTurn { face: f, dir: Direction::Half })
            } else if s.len() == 2 && s[1] == '\'' {
                Some(CubeOuterTurn { face: f, dir: Direction::CounterClockwise })
            } else {
                None
            },
            None => None,
        }
    }
}

/// The face letter as a one-character string slice.
pub fn face_str(f: CubeFace) -> (r: &'static str)
    ensures
        r@ == seq![face_char(f)],
{
    match f {
        CubeFace::Up => {
            proof {
                reveal_strlit("U");
                assert("U"@ =~= seq!['U']);
            }
            "U"
        },
        CubeFace::Down => {
            proof {
                reveal_strlit("D");
                assert("D"@ =~= seq!['D']);
            }
            "D"
        },
        CubeFace::Front => {
            proof {
                reveal_strlit("F");
                assert("F"@ =~= seq!['F']);
            }
            "F"
        },
        CubeFace::Back => {
            proof {
                reveal_strlit("B");
                assert("B"@ =~= seq!['B']);
            }
            "B"
        },
        CubeFace::Left => {
            proof {
                reveal_strlit("L");
                assert("L"@ =~= seq!['L']);
            }
            "L"
        },
        CubeFace::Right => {
            proof {
                reveal_strlit("R");
                assert("R"@ =~= seq!['R']);
            }
            "R"
        },
    }
}

impl CubeOuterTurn {
    /// The notation of this turn, such as `R`, `R2` or `R'`.
    pub fn to_name(&self) -> (r: String)
        ensures
            r@ == move_chars(*self),
    {
        let mut s = String::from_str(face_str(self.face));
        match self.dir {
            Direction::Clockwise => {
                proof {
                    assert(s@ =~= move_chars(*self));
                }
            },
            Direction::Half => {
                proof {
                    reveal_strlit("2");
                    assert("2"@ =~= seq!['2']);
                }
                s.append("2");
                proof {
                    assert(s@ =~= move_chars(*self));
                }
            },
            Direction::CounterClockwise => {
                proof {
                    reveal_strlit("'");
                    assert("'"@ =~= seq!['\'']);
                }
                s.append("'");
                proof {
                    assert(s@ =~= move_chars(*self));
                }
            },
        }
        s
    }

    /// Parses one token of move notation: a face letter of either case,
    /// optionally followed by `2` or `'`.
    pub fn from_str(value: &str) -> (r: Result<CubeOuterTurn, ()>)
        ensures
            match r {
                Ok(m) => parse_move_chars(value@) == Some(m),
                Err(()) => parse_move_chars(value@) is None,
            },
    {
        let len = value.unicode_len();
        if len == 0 {
            return Err(());
        }
        let face = match CubeFace::from_char(value.get_char(0)) {
            Ok(f) => f,
            Err(()) => {
                return Err(());
            },
        };
        if len == 1 {
            Ok(CubeOuterTurn::new(face, Direction::Clockwise))
        } else if len == 2 {
            let c = value.get_char(1);
            if c == '2' {
                Ok(CubeOuterTurn::new(face, Direction::Half))
            } else if c == '\'' {
                Ok(CubeOuterTurn::new(face, Direction::CounterClockwise))
            } else {
                Err(())
            }
        } else {
            Err(())
        }
    }
}

/// Inverting a direction twice gives the direction back.
pub proof fn lemma_direction_invert_involutive(d: Direction)
    ensures
        spec_invert_dir(spec_invert_dir(d)) == d,
{
}

/// Inverting an outer turn twice gives the turn back.
pub proof fn lemma_turn_invert_involutive(m: CubeOuterTurn)
    ensures
        (CubeOuterTurn {
            face: m.face,
            dir: spec_invert_dir(spec_invert_dir(m.dir)),
        }) == m,
{
}

/// The opposite of the opposite face is the face itself.
pub proof fn lemma_opposite_involutive(f: CubeFace)
    ensures
        spec_opposite(spec_opposite(f)) == f,
{
}

/// Mirroring a turn twice across the same axis gives the turn back.
pub proof fn lemma_mirror_turn_involutive(m: CubeOuterTurn, a: CubeAxis)
    ensures
        spec_mirror_turn(spec_mirror_turn(m, a), a) == m,
{
}

/// Something that moves can be applied to: a puzzle state, or an algorithm
/// that records them. Each implementor says through its two predicates
/// what applying a turn or a reorientation does to it.
pub trait Turnable: Sized {
    /// What holds of the value after the turn `m` is applied to `pre`.
    spec fn turn_post(pre: Self, post: Self, m: CubeOuterTurn) -> bool;

    /// What holds of the value after the reorientation `t` is applied to
    /// `pre`.
    spec fn transform_post(pre: Self, post: Self, t: CubeTransformation) -> bool;

    fn turn(&mut self, m: CubeOuterTurn)
        ensures
            Self::turn_post(*old(self), *final(self), m),
    ;

    fn transform(&mut self, t: CubeTransformation)
        ensures
            Self::transform_post(*old(self), *final(self), t),
    ;
}

/// Something with a well-defined inverse, said through the implementor's
/// predicate.
pub trait Invertible: Sized {
    /// What holds of the inverse of `pre`.
    spec fn invert_post(pre: Self, post: Self) -> bool;

    fn invert(&self) -> (r: Self)
        ensures
            Self::invert_post(*self, r),
    ;
}

impl Invertible for CubeOuterTurn {
    /// The inverse keeps the face and inverts the direction.
    open spec fn invert_post(pre: Self, post: Self) -> bool {
        post == (CubeOuterTurn { face: pre.face, dir: spec_invert_dir(pre.dir) })
    }

    fn invert(&self) -> CubeOuterTurn {
        CubeOuterTurn { face: self.face, dir: self.dir.invert() }
    }
}

impl Invertible for CubeTransformation {
    /// The inverse keeps the axis and inverts the direction.
    open spec fn invert_post(pre: Self, post: Self) -> bool {
        post == (CubeTransformation { axis: pre.axis, dir: spec_invert_dir(pre.dir) })
    }

    fn invert(&self) -> CubeTransformation {
        CubeTransformation::new(self.axis, self.dir.invert())
    }
}

/// A corner slot of the cube state: the identity of the corner sitting
/// there and its orientation.
#[derive(Debug, Clone, Copy, PartialEq, Eq, Structural)]
pub struct Corner {
    pub id: u8,
    pub orientation: u8,
}

/// An edge slot of the cube state: the identity of the edge sitting there
/// and one orientation flag per axis.
#[derive(Debug, Clone, Copy, PartialEq, Eq, Structural)]
pub struct Edge {
    pub id: u8,
    pub oriented_ud: bool,
    pub oriented_fb: bool,
    pub oriented_rl: bool,
}

/// A sticker colour, or the absence of one.
#[derive(Debug, Clone, Copy, PartialEq, Eq, Structural)]
pub enum CubeColor {
    White,
    Yellow,
    Green,
    Blue,
    Orange,
    Red,
    NoColor,
}

/// The square a sticker colour prints as, or a black square for no
/// colour.
pub open spec fn color_symbol(c: CubeColor) -> Seq<char> {
    match c {
        CubeColor::White => "⬜"@,
        CubeColor::Yellow => "🟨"@,
        CubeColor::Green => "🟩"@,
        CubeColor::Blue => "🟦"@,
        CubeColor::Orange => "🟧"@,
        CubeColor::Red => "🟥"@,
        CubeColor::NoColor => "⬛"@,
    }
}

impl CubeColor {
    /// The coloured square that renders this colour.
    pub fn to_symbol(self) -> (r: String)
        ensures
            r@ == color_symbol(self),
    {
        match self {
            CubeColor::White => String::from_str("⬜"),
            CubeColor::Yellow => String::from_str("🟨"),
            CubeColor::Green => String::from_str("🟩"),
            CubeColor::Blue => String::from_str("🟦"),
            CubeColor::Orange => String::from_str("🟧"),
            CubeColor::Red => String::from_str("🟥"),
            CubeColor::NoColor => String::from_str("⬛"),
        }
    }
}

/// The eight corner positions of the cube.
#[derive(Debug, Clone, Copy, PartialEq, Eq, Structural)]
pub enum CornerPosition {
    UBL,
    UBR,
    UFR,
    UFL,
    DFL,
    DFR,
    DBR,
    DBL,
}

/// The twelve edge positions of the cube.
#[derive(Debug, Clone, Copy, PartialEq, Eq, Structural)]
pub enum EdgePosition {
    UB,
    UR,
    UF,
    UL,
    FR,
    FL,
    BR,
    BL,
    DF,
    DR,
    DB,
    DL,
}

} // verus!
