//! Configuration of the finish stage: the half-turn move set, its
//! transition tables, and the construction of the configured step from a
//! caller-supplied stage configuration, for the plain finish and for the
//! finish that leaves the slice.

use vstd::prelude::*;
use vstd::string::*;
use crate::cube::{CubeAxis, CubeFace, CubeOuterTurn, CubeTransformation, Direction};
use crate::moveset::{
    allowed_mask, default_allowed_after, face_from_index, MoveSet333, TransitionTable333, ANY_MASK,
};
use crate::steps::{
    DefaultStepOptions, FRFinishPruningTable, Step333, StepConfig, StepKind, StepVariant333,
};

verus! {

/// An upper-case letter lowered; every other character unchanged.
pub open spec fn lower_char(c: char) -> char {
    match c {
        'A' => 'a',
        'B' => 'b',
        'C' => 'c',
        'D' => 'd',
        'E' => 'e',
        'F' => 'f',
        'G' => 'g',
        'H' => 'h',
        'I' => 'i',
        'J' => 'j',
        'K' => 'k',
        'L' => 'l',
        'M' => 'm',
        'N' => 'n',
        'O' => 'o',
        'P' => 'p',
        'Q' => 'q',
        'R' => 'r',
        'S' => 's',
        'T' => 't',
        'U' => 'u',
        'V' => 'v',
        'W' => 'w',
        'X' => 'x',
        'Y' => 'y',
        'Z' => 'z',
        _ => c,
    }
}

/// A string lowered character by character.
pub open spec fn lower_chars(s: Seq<char>) -> Seq<char> {
    s.map_values(|c: char| lower_char(c))
}

/// The axis a finish substep name selects, compared without regard to
/// letter case; an unknown name selects none.
pub open spec fn substep_axis(s: Seq<char>) -> Option<CubeAxis> {
    let l = lower_chars(s);
    if l == "finishud"@ || l == "finud"@ || l == "ud"@ {
        Some(CubeAxis::Y)
    } else if l == "finishfb"@ || l == "finfb"@ || l == "fb"@ {
        Some(CubeAxis::Z)
    } else if l == "finishlr"@ || l == "finlr"@ || l == "lr"@ {
        Some(CubeAxis::X)
    } else {
        None
    }
}

fn lower_char_exec(c: char) -> (r: char)
    ensures
        r == lower_char(c),
{
    match c {
        'A' => 'a',
        'B' => 'b',
        'C' => 'c',
        'D' => 'd',
        'E' => 'e',
        'F' => 'f',
        'G' => 'g',
        'H' => 'h',
        'I' => 'i',
        'J' => 'j',
        'K' => 'k',
        'L' => 'l',
        'M' => 'm',
        'N' => 'n',
        'O' => 'o',
        'P' => 'p',
        'Q' => 'q',
        'R' => 'r',
        'S' => 's',
        'T' => 't',
        'U' => 'u',
        'V' => 'v',
        'W' => 'w',
        'X' => 'x',
        'Y' => 'y',
        'Z' => 'z',
        _ => c,
    }
}

/// Lowers a string into its character sequence.
fn lower_string(s: &str) -> (r: Vec<char>)
    ensures
        r@ == lower_chars(s@),
{
    let n = s.unicode_len();
    let mut r: Vec<char> = Vec::new();
    let mut i: usize = 0;
    proof {
        assert(s@.take(0) =~= Seq::<char>::empty());
        assert(r@ =~= lower_chars(s@.take(0)));
    }
    while i < n
        invariant
            i <= n,
            n == s@.len(),
            r@ == lower_chars(s@.take(i as int)),
        decreases n - i,
    {
        let c = lower_char_exec(s.get_char(i));
        r.push(c);
        proof {
            assert(lower_chars(s@.take(i as int + 1)) =~= lower_chars(s@.take(i as int)).push(
                lower_char(s@[i as int]),
            ));
        }
        i = i + 1;
    }
    proof {
        assert(s@.take(n as int) =~= s@);
    }
    r
}

/// The lower-case letter that replaces an upper-case one, as a
/// one-character string slice; letters already lower and every other
/// character are left alone.
fn lower_letter_str(c: char) -> (r: Option<&'static str>)
    ensures
        match r {
            Some(t) => t@ == seq![lower_char(c)],
            None => lower_char(c) == c,
        },
{
    match c {
        'A' => {
            proof {
                reveal_strlit("a");
                assert("a"@ =~= seq!['a']);
            }
            Some("a")
        },
        'B' => {
            proof {
                reveal_strlit("b");
                assert("b"@ =~= seq!['b']);
            }
            Some("b")
        },
        'C' => {
            proof {
                reveal_strlit("c");
                assert("c"@ =~= seq!['c']);
            }
            Some("c")
        },
        'D' => {
            proof {
                reveal_strlit("d");
                assert("d"@ =~= seq!['d']);
            }
            Some("d")
        },
        'E' => {
            proof {
                reveal_strlit("e");
                assert("e"@ =~= seq!['e']);
            }
            Some("e")
        },
        'F' => {
            proof {
                reveal_strlit("f");
                assert("f"@ =~= seq!['f']);
            }
            Some("f")
        },
        'G' => {
            proof {
                reveal_strlit("g");
                assert("g"@ =~= seq!['g']);
            }
            Some("g")
        },
        'H' => {
            proof {
                reveal_strlit("h");
                assert("h"@ =~= seq!['h']);
            }
            Some("h")
        },
        'I' => {
            proof {
                reveal_strlit("i");
                assert("i"@ =~= seq!['i']);
            }
            Some("i")
        },
        'J' => {
            proof {
                reveal_strlit("j");
                assert("j"@ =~= seq!['j']);
            }
            Some("j")
        },
        'K' => {
            proof {
                reveal_strlit("k");
                assert("k"@ =~= seq!['k']);
            }
            Some("k")
        },
        'L' => {
            proof {
                reveal_strlit("l");
                assert("l"@ =~= seq!['l']);
            }
            Some("l")
        },
        'M' => {
            proof {
                reveal_strlit("m");
                assert("m"@ =~= seq!['m']);
            }
            Some("m")
        },
        'N' => {
            proof {
                reveal_strlit("n");
                assert("n"@ =~= seq!['n']);
            }
            Some("n")
        },
        'O' => {
            proof {
                reveal_strlit("o");
                assert("o"@ =~= seq!['o']);
            }
            Some("o")
        },
        'P' => {
            proof {
                reveal_strlit("p");
                assert("p"@ =~= seq!['p']);
            }
            Some("p")
        },
        'Q' => {
            proof {
                reveal_strlit("q");
                assert("q"@ =~= seq!['q']);
            }
            Some("q")
        },
        'R' => {
            proof {
                reveal_strlit("r");
                assert("r"@ =~= seq!['r']);
            }
            Some("r")
        },
        'S' => {
            proof {
                reveal_strlit("s");
                assert("s"@ =~= seq!['s']);
            }
            Some("s")
        },
        'T' => {
            proof {
                reveal_strlit("t");
                assert("t"@ =~= seq!['t']);
            }
            Some("t")
        },
        'U' => {
            proof {
                reveal_strlit("u");
                assert("u"@ =~= seq!['u']);
            }
            Some("u")
        },
        'V' => {
            proof {
                reveal_strlit("v");
                assert("v"@ =~= seq!['v']);
            }
            Some("v")
        },
        'W' => {
            proof {
                reveal_strlit("w");
                assert("w"@ =~= seq!['w']);
            }
            Some("w")
        },
        'X' => {
            proof {
                reveal_strlit("x");
                assert("x"@ =~= seq!['x']);
            }
            Some("x")
        },
        'Y' => {
            proof {
                reveal_strlit("y");
                assert("y"@ =~= seq!['y']);
            }
            Some("y")
        },
        'Z' => {
            proof {
                reveal_strlit("z");
                assert("z"@ =~= seq!['z']);
            }
            Some("z")
        },
        _ => None,
    }
}

/// Lowers a string into a new string, as the error messages report
/// substep names.
fn lower_to_string(s: &str) -> (r: String)
    ensures
        r@ == lower_chars(s@),
{
    let n = s.unicode_len();
    let mut out = String::new();
    let mut i: usize = 0;
    proof {
        assert(out@ =~= lower_chars(s@.take(0)));
    }
    while i < n
        invariant
            i <= n,
            n == s@.len(),
            out@ == lower_chars(s@.take(i as int)),
        decreases n - i,
    {
        let c = s.get_char(i);
        match lower_letter_str(c) {
            Some(t) => out.append(t),
            None => {
                let piece = s.substring_char(i, i + 1);
                proof {
                    assert(piece@ =~= seq![s@[i as int]]);
                }
                out.append(piece);
            },
        }
        proof {
            assert(lower_chars(s@.take(i as int + 1)) =~= lower_chars(s@.take(i as int)).push(
                lower_char(s@[i as int]),
            ));
            assert(out@ =~= lower_chars(s@.take(i as int + 1)));
        }
        i = i + 1;
    }
    proof {
        assert(s@.take(n as int) =~= s@);
    }
    out
}

/// Whether the characters equal the pattern.
fn chars_match(v: &Vec<char>, pat: &str) -> (r: bool)
    ensures
        r == (v@ == pat@),
{
    let n = pat.unicode_len();
    if v.len() != n {
        proof {
            assert(v@.len() != pat@.len());
        }
        return false;
    }
    let mut i: usize = 0;
    while i < n
        invariant
            i <= n,
            n == pat@.len(),
            n == v@.len(),
            forall|k: int| 0 <= k < i ==> v@[k] == pat@[k],
        decreases n - i,
    {
        if v[i] != pat.get_char(i) {
            return false;
        }
        i = i + 1;
    }
    proof {
        assert(v@ =~= pat@);
    }
    true
}

/// Parses a finish substep name into its axis, without regard to letter
/// case.
fn parse_substep(s: &str) -> (r: Option<CubeAxis>)
    ensures
        r == substep_axis(s@),
{
    let l = lower_string(s);
    if chars_match(&l, "finishud") || chars_match(&l, "finud") || chars_match(&l, "ud") {
        Some(CubeAxis::Y)
    } else if chars_match(&l, "finishfb") || chars_match(&l, "finfb") || chars_match(&l, "fb") {
        Some(CubeAxis::Z)
    } else if chars_match(&l, "finishlr") || chars_match(&l, "finlr") || chars_match(&l, "lr") {
        Some(CubeAxis::X)
    } else {
        None
    }
}

/// The transition tables of the finish stage: the face-order rule
/// restricts consecutive turns, and any turn may end the stage.
pub fn finish_transitions() -> (r: Vec<TransitionTable333>)
    ensures
        r@.len() == 18,
        forall|m: int|
            0 <= m < 18 ==> #[trigger] r@[m] == (TransitionTable333 {
                allowed: allowed_mask(face_from_index(m / 3)) as u32,
                can_end: ANY_MASK,
            }),
{
    let mut r: Vec<TransitionTable333> = Vec::new();
    let mut m: usize = 0;
    while m < 18
        invariant
            m <= 18,
            r@.len() == m,
            forall|k: int|
                0 <= k < m ==> #[trigger] r@[k] == (TransitionTable333 {
                    allowed: allowed_mask(face_from_index(k / 3)) as u32,
                    can_end: ANY_MASK,
                }),
        decreases 18 - m,
    {
        let face = CubeFace::from_id(m / 3);
        let allowed = default_allowed_after(face);
        r.push(TransitionTable333::new(allowed, ANY_MASK));
        proof {
            assert(face == face_from_index(m as int / 3));
        }
        m = m + 1;
    }
    r
}

/// Whether a move set is the finish stage's: the six half turns to start
/// with, nothing else, under the face-order transition rule with any turn
/// allowed to end the stage.
pub open spec fn is_finish_moveset(ms: MoveSet333) -> bool {
    &&& ms.st_moves@ == seq![
        CubeOuterTurn { face: CubeFace::Up, dir: Direction::Half },
        CubeOuterTurn { face: CubeFace::Down, dir: Direction::Half },
        CubeOuterTurn { face: CubeFace::Front, dir: Direction::Half },
        CubeOuterTurn { face: CubeFace::Back, dir: Direction::Half },
        CubeOuterTurn { face: CubeFace::Left, dir: Direction::Half },
        CubeOuterTurn { face: CubeFace::Right, dir: Direction::Half },
    ]
    &&& ms.aux_moves@.len() == 0
    &&& ms.transitions@.len() == 18
    &&& forall|m: int|
        0 <= m < 18 ==> #[trigger] ms.transitions@[m] == (TransitionTable333 {
            allowed: allowed_mask(face_from_index(m / 3)) as u32,
            can_end: ANY_MASK,
        })
}

/// The half turns of the six faces, in face order: the moves of the
/// finish stage.
pub fn frud_finish_moveset() -> (r: MoveSet333)
    ensures
        is_finish_moveset(r),
{
    let st_moves: Vec<CubeOuterTurn> = vec![
        CubeOuterTurn::new(CubeFace::Up, Direction::Half),
        CubeOuterTurn::new(CubeFace::Down, Direction::Half),
        CubeOuterTurn::new(CubeFace::Front, Direction::Half),
        CubeOuterTurn::new(CubeFace::Back, Direction::Half),
        CubeOuterTurn::new(CubeFace::Left, Direction::Half),
        CubeOuterTurn::new(CubeFace::Right, Direction::Half),
    ];
    let r = MoveSet333 { st_moves, aux_moves: Vec::new(), transitions: finish_transitions() };
    proof {
        assert(r.st_moves@ =~= seq![
            CubeOuterTurn { face: CubeFace::Up, dir: Direction::Half },
            CubeOuterTurn { face: CubeFace::Down, dir: Direction::Half },
            CubeOuterTurn { face: CubeFace::Front, dir: Direction::Half },
            CubeOuterTurn { face: CubeFace::Back, dir: Direction::Half },
            CubeOuterTurn { face: CubeFace::Left, dir: Direction::Half },
            CubeOuterTurn { face: CubeFace::Right, dir: Direction::Half },
        ]);
    }
    r
}

/// The whole-cube reorientations that bring a finish axis into the
/// up-down position: none for up-down, a quarter rotation for the other
/// two.
pub open spec fn fin_transformations(a: CubeAxis) -> Seq<CubeTransformation> {
    match a {
        CubeAxis::Y => Seq::empty(),
        CubeAxis::Z => seq![CubeTransformation { axis: CubeAxis::X, dir: Direction::Clockwise }],
        CubeAxis::X => seq![CubeTransformation { axis: CubeAxis::Z, dir: Direction::Clockwise }],
    }
}

/// The variant name the leave-slice finish gives each axis.
pub open spec fn fin_ls_name(a: CubeAxis) -> Seq<char> {
    match a {
        CubeAxis::Y => "ud"@,
        CubeAxis::Z => "fb"@,
        CubeAxis::X => "lr"@,
    }
}

/// Builds one finish variant per axis, each holding the stage's pruning
/// table.
fn fin_variants<'a>(
    table: &'a FRFinishPruningTable,
    fr_axis: &Vec<CubeAxis>,
    with_names: bool,
) -> (r: Vec<StepVariant333<'a>>)
    ensures
        r@.len() == fr_axis@.len(),
        forall|k: int|
            0 <= k < fr_axis@.len() ==> (#[trigger] r@[k]).pre_transformations@
                == fin_transformations(fr_axis@[k]),
        forall|k: int|
            0 <= k < fr_axis@.len() ==> (#[trigger] r@[k]).name@ == (if with_names {
                fin_ls_name(fr_axis@[k])
            } else {
                Seq::<char>::empty()
            }),
        forall|k: int| 0 <= k < fr_axis@.len() ==> is_finish_moveset((#[trigger] r@[k]).moveset),
        forall|k: int| 0 <= k < fr_axis@.len() ==> (#[trigger] r@[k]).table == table,
{
    let mut r: Vec<StepVariant333<'a>> = Vec::new();
    let mut i: usize = 0;
    while i < fr_axis.len()
        invariant
            i <= fr_axis@.len(),
            r@.len() == i,
            forall|k: int|
                0 <= k < i ==> (#[trigger] r@[k]).pre_transformations@ == fin_transformations(
                    fr_axis@[k],
                ),
            forall|k: int|
                0 <= k < i ==> (#[trigger] r@[k]).name@ == (if with_names {
                    fin_ls_name(fr_axis@[k])
                } else {
                    Seq::<char>::empty()
                }),
            forall|k: int| 0 <= k < i ==> is_finish_moveset((#[trigger] r@[k]).moveset),
            forall|k: int| 0 <= k < i ==> (#[trigger] r@[k]).table == table,
        decreases fr_axis@.len() - i,
    {
        let axis = fr_axis[i];
        let mut pre: Vec<CubeTransformation> = Vec::new();
        match axis {
            CubeAxis::Y => {},
            CubeAxis::Z => {
                pre.push(CubeTransformation::new(CubeAxis::X, Direction::Clockwise));
            },
            CubeAxis::X => {
                pre.push(CubeTransformation::new(CubeAxis::Z, Direction::Clockwise));
            },
        }
        proof {
            assert(pre@ =~= fin_transformations(fr_axis@[i as int]));
        }
        let name: String = if with_names {
            match axis {
                CubeAxis::Y => String::from_str("ud"),
                CubeAxis::Z => String::from_str("fb"),
                CubeAxis::X => String::from_str("lr"),
            }
        } else {
            String::new()
        };
        r.push(StepVariant333 { name, pre_transformations: pre, moveset: frud_finish_moveset(), table });
        i = i + 1;
    }
    r
}

/// The finish step over the given axes: one variant per axis, reoriented
/// so the axis plays the up-down role.
pub fn fr_finish<'a>(table: &'a FRFinishPruningTable, fr_axis: Vec<CubeAxis>) -> (r: Step333<'a>)
    ensures
        r.kind == StepKind::FIN,
        r.is_major == true,
        r.variants@.len() == fr_axis@.len(),
        forall|k: int|
            0 <= k < fr_axis@.len() ==> (#[trigger] r.variants@[k]).pre_transformations@
                == fin_transformations(fr_axis@[k]),
        forall|k: int|
            0 <= k < fr_axis@.len() ==> (#[trigger] r.variants@[k]).name@
                == Seq::<char>::empty(),
        forall|k: int|
            0 <= k < fr_axis@.len() ==> is_finish_moveset((#[trigger] r.variants@[k]).moveset),
        forall|k: int| 0 <= k < fr_axis@.len() ==> (#[trigger] r.variants@[k]).table == table,
{
    let variants = fin_variants(table, &fr_axis, false);
    Step333::new(variants, StepKind::FIN, true)
}

/// The finish step over all three axes.
pub fn fr_finish_any<'a>(table: &'a FRFinishPruningTable) -> (r: Step333<'a>)
    ensures
        r.kind == StepKind::FIN,
        r.is_major == true,
        r.variants@.len() == 3,
        forall|k: int|
            0 <= k < 3 ==> (#[trigger] r.variants@[k]).pre_transformations@ == fin_transformations(
                seq![CubeAxis::Y, CubeAxis::Z, CubeAxis::X][k],
            ),
        forall|k: int| 0 <= k < 3 ==> (#[trigger] r.variants@[k]).name@ == Seq::<char>::empty(),
        forall|k: int| 0 <= k < 3 ==> is_finish_moveset((#[trigger] r.variants@[k]).moveset),
        forall|k: int| 0 <= k < 3 ==> (#[trigger] r.variants@[k]).table == table,
{
    let axes: Vec<CubeAxis> = vec![CubeAxis::UD, CubeAxis::FB, CubeAxis::LR];
    proof {
        assert(axes@ =~= seq![CubeAxis::Y, CubeAxis::Z, CubeAxis::X]);
    }
    fr_finish(table, axes)
}

/// The leave-slice finish step over the given axes: as the plain finish,
/// with each variant named after its axis.
pub fn fr_finish_leave_slice<'a>(
    table: &'a FRFinishPruningTable,
    fr_axis: Vec<CubeAxis>,
) -> (r: Step333<'a>)
    ensures
        r.kind == StepKind::FIN,
        r.is_major == true,
        r.variants@.len() == fr_axis@.len(),
        forall|k: int|
            0 <= k < fr_axis@.len() ==> (#[trigger] r.variants@[k]).pre_transformations@
                == fin_transformations(fr_axis@[k]),
        forall|k: int|
            0 <= k < fr_axis@.len() ==> (#[trigger] r.variants@[k]).name@ == fin_ls_name(
                fr_axis@[k],
            ),
        forall|k: int|
            0 <= k < fr_axis@.len() ==> is_finish_moveset((#[trigger] r.variants@[k]).moveset),
        forall|k: int| 0 <= k < fr_axis@.len() ==> (#[trigger] r.variants@[k]).table == table,
{
    let variants = fin_variants(table, &fr_axis, true);
    Step333::new(variants, StepKind::FIN, true)
}

/// The leave-slice finish step over all three axes.
pub fn fr_finish_leave_slice_any<'a>(table: &'a FRFinishPruningTable) -> (r: Step333<'a>)
    ensures
        r.kind == StepKind::FIN,
        r.is_major == true,
        r.variants@.len() == 3,
        forall|k: int|
            0 <= k < 3 ==> (#[trigger] r.variants@[k]).pre_transformations@ == fin_transformations(
                seq![CubeAxis::Y, CubeAxis::Z, CubeAxis::X][k],
            ),
        forall|k: int|
            0 <= k < 3 ==> (#[trigger] r.variants@[k]).name@ == fin_ls_name(
                seq![CubeAxis::Y, CubeAxis::Z, CubeAxis::X][k],
            ),
        forall|k: int| 0 <= k < 3 ==> is_finish_moveset((#[trigger] r.variants@[k]).moveset),
        forall|k: int| 0 <= k < 3 ==> (#[trigger] r.variants@[k]).table == table,
{
    let axes: Vec<CubeAxis> = vec![CubeAxis::UD, CubeAxis::FB, CubeAxis::LR];
    proof {
        assert(axes@ =~= seq![CubeAxis::Y, CubeAxis::Z, CubeAxis::X]);
    }
    fr_finish_leave_slice(table, axes)
}

/// The position of the first substep name that selects no axis.
pub open spec fn first_bad(ss: Seq<Seq<char>>, i: int) -> Option<int>
    decreases ss.len() - i,
{
    if i < 0 || i >= ss.len() {
        None
    } else if substep_axis(ss[i]) is None {
        Some(i)
    } else {
        first_bad(ss, i + 1)
    }
}

proof fn lemma_first_bad_skip(ss: Seq<Seq<char>>, j: int)
    requires
        0 <= j <= ss.len(),
        forall|k: int| 0 <= k < j ==> #[trigger] substep_axis(ss[k]) is Some,
    ensures
        first_bad(ss, 0) == first_bad(ss, j),
    decreases j,
{
    if j > 0 {
        lemma_first_bad_skip(ss, j - 1);
    }
}

/// The search options a finish configuration resolves to: bounds of zero
/// to ten by default, no scramble swapping by default, and a step limit
/// from the quality unless the quality is zero.
pub open spec fn fin_options(c: crate::steps::StepConfigView) -> DefaultStepOptions {
    DefaultStepOptions {
        min: match c.min {
            Some(m) => m,
            None => 0,
        },
        max: match c.max {
            Some(m) => m,
            None => 10,
        },
        niss: match c.niss {
            Some(n) => n,
            None => crate::steps::NissSwitchType::Never,
        },
        step_limit: if c.quality == 0 {
            None
        } else {
            match c.step_limit {
                Some(l) => Some(l),
                None => Some(c.quality as usize),
            }
        },
    }
}

/// Resolves the options of a finish configuration.
fn resolve_options(config: &StepConfig) -> (r: DefaultStepOptions)
    ensures
        r == fin_options(config@),
{
    let min: u8 = match config.min {
        Some(m) => m,
        None => 0,
    };
    let max: u8 = match config.max {
        Some(m) => m,
        None => 10,
    };
    let niss = match config.niss {
        Some(n) => n,
        None => crate::steps::NissSwitchType::Never,
    };
    let step_limit: Option<usize> = if config.quality == 0 {
        None
    } else {
        match config.step_limit {
            Some(l) => Some(l),
            None => Some(config.quality),
        }
    };
    DefaultStepOptions::new(min, max, niss, step_limit)
}

/// Parses the substep names of a finish configuration into axes; on the
/// first unknown name, the error names it in its lowered form, as the
/// comparison saw it.
fn parse_substeps(substeps: &Vec<String>) -> (r: Result<Vec<CubeAxis>, String>)
    ensures
        ({
            let ss = substeps@.map_values(|s: String| s@);
            match r {
                Ok(axes) => {
                    &&& first_bad(ss, 0) is None
                    &&& axes@.len() == ss.len()
                    &&& forall|k: int|
                        0 <= k < ss.len() ==> #[trigger] substep_axis(ss[k]) == Some(axes@[k])
                },
                Err(msg) => {
                    &&& first_bad(ss, 0) is Some
                    &&& msg@ == "Invalid HTR substep "@ + lower_chars(ss[first_bad(ss, 0).unwrap()])
                },
            }
        }),
{
    let ghost ss = substeps@.map_values(|s: String| s@);
    let mut axes: Vec<CubeAxis> = Vec::new();
    let mut i: usize = 0;
    while i < substeps.len()
        invariant
            i <= substeps@.len(),
            ss == substeps@.map_values(|s: String| s@),
            ss.len() == substeps@.len(),
            axes@.len() == i,
            forall|k: int| 0 <= k < i ==> #[trigger] substep_axis(ss[k]) == Some(axes@[k]),
        decreases substeps@.len() - i,
    {
        match parse_substep(substeps[i].as_str()) {
            Some(a) => {
                axes.push(a);
            },
            None => {
                proof {
                    lemma_first_bad_skip(ss, i as int);
                    assert(first_bad(ss, i as int) == Some(i as int));
                }
                let mut msg = String::from_str("Invalid HTR substep ");
                let lowered = lower_to_string(substeps[i].as_str());
                msg.append(lowered.as_str());
                return Err(msg);
            },
        }
        i = i + 1;
    }
    proof {
        lemma_first_bad_skip(ss, ss.len() as int);
        assert(first_bad(ss, ss.len() as int) is None);
    }
    Ok(axes)
}

/// Builds the finish step and its options from a stage configuration:
/// the named substeps select the axes, or all three axes by default; an
/// unknown substep name is an error that names it in its lowered form.
#[verifier::rlimit(100)]
pub fn from_step_config_fr<'a>(table: &'a FRFinishPruningTable, config: StepConfig) -> (r: Result<
    (Step333<'a>, DefaultStepOptions),
    String,
>)
    ensures
        ({
            match config@.substeps {
                Some(ss) => match r {
                    Ok((step, opts)) => {
                        &&& first_bad(ss, 0) is None
                        &&& step.kind == StepKind::FIN
                        &&& step.is_major == true
                        &&& step.variants@.len() == ss.len()
                        &&& forall|k: int|
                            0 <= k < ss.len()
                                ==> (#[trigger] step.variants@[k]).pre_transformations@
                                == fin_transformations(substep_axis(ss[k]).unwrap())
                        &&& forall|k: int|
                            0 <= k < ss.len() ==> (#[trigger] step.variants@[k]).name@
                                == Seq::<char>::empty()
                        &&& forall|k: int|
                            0 <= k < ss.len() ==> is_finish_moveset(
                                (#[trigger] step.variants@[k]).moveset,
                            )
                        &&& forall|k: int|
                            0 <= k < ss.len() ==> (#[trigger] step.variants@[k]).table == table
                        &&& opts == fin_options(config@)
                    },
                    Err(msg) => {
                        &&& first_bad(ss, 0) is Some
                        &&& msg@ == "Invalid HTR substep "@ + lower_chars(
                            ss[first_bad(ss, 0).unwrap()],
                        )
                    },
                },
                None => match r {
                    Ok((step, opts)) => {
                        &&& step.kind == StepKind::FIN
                        &&& step.is_major == true
                        &&& step.variants@.len() == 3
                        &&& forall|k: int|
                            0 <= k < 3 ==> (#[trigger] step.variants@[k]).pre_transformations@
                                == fin_transformations(seq![CubeAxis::Y, CubeAxis::Z, CubeAxis::X][k])
                        &&& forall|k: int|
                            0 <= k < 3 ==> (#[trigger] step.variants@[k]).name@
                                == Seq::<char>::empty()
                        &&& forall|k: int|
                            0 <= k < 3 ==> is_finish_moveset((#[trigger] step.variants@[k]).moveset)
                        &&& forall|k: int| 0 <= k < 3 ==> (#[trigger] step.variants@[k]).table == table
                        &&& opts == fin_options(config@)
                    },
                    Err(_) => false,
                },
            }
        }),
{
    let opts = resolve_options(&config);
    let step = match &config.substeps {
        Some(substeps) => {
            match parse_substeps(substeps) {
                Ok(axes) => {
                    proof {
                        assert(substeps@.map_values(|s: String| s@) =~= config@.substeps.unwrap());
                    }
                    fr_finish(table, axes)
                },
                Err(msg) => {
                    proof {
                        assert(substeps@.map_values(|s: String| s@) =~= config@.substeps.unwrap());
                    }
                    return Err(msg);
                },
            }
        },
        None => fr_finish_any(table),
    };
    Ok((step, opts))
}

/// Builds the leave-slice finish step and its options from a stage
/// configuration, each variant named after its axis.
#[verifier::rlimit(100)]
pub fn from_step_config_fr_leave_slice<'a>(
    table: &'a FRFinishPruningTable,
    config: StepConfig,
) -> (r: Result<(Step333<'a>, DefaultStepOptions), String>)
    ensures
        ({
            match config@.substeps {
                Some(ss) => match r {
                    Ok((step, opts)) => {
                        &&& first_bad(ss, 0) is None
                        &&& step.kind == StepKind::FIN
                        &&& step.is_major == true
                        &&& step.variants@.len() == ss.len()
                        &&& forall|k: int|
                            0 <= k < ss.len()
                                ==> (#[trigger] step.variants@[k]).pre_transformations@
                                == fin_transformations(substep_axis(ss[k]).unwrap())
                        &&& forall|k: int|
                            0 <= k < ss.len() ==> (#[trigger] step.variants@[k]).name@
                                == fin_ls_name(substep_axis(ss[k]).unwrap())
                        &&& forall|k: int|
                            0 <= k < ss.len() ==> is_finish_moveset(
                                (#[trigger] step.variants@[k]).moveset,
                            )
                        &&& forall|k: int|
                            0 <= k < ss.len() ==> (#[trigger] step.variants@[k]).table == table
                        &&& opts == fin_options(config@)
                    },
                    Err(msg) => {
                        &&& first_bad(ss, 0) is Some
                        &&& msg@ == "Invalid HTR substep "@ + lower_chars(
                            ss[first_bad(ss, 0).unwrap()],
                        )
                    },
                },
                None => match r {
                    Ok((step, opts)) => {
                        &&& step.kind == StepKind::FIN
                        &&& step.is_major == true
                        &&& step.variants@.len() == 3
                        &&& forall|k: int|
                            0 <= k < 3 ==> (#[trigger] step.variants@[k]).pre_transformations@
                                == fin_transformations(seq![CubeAxis::Y, CubeAxis::Z, CubeAxis::X][k])
                        &&& forall|k: int|
                            0 <= k < 3 ==> (#[trigger] step.variants@[k]).name@ == fin_ls_name(
                                seq![CubeAxis::Y, CubeAxis::Z, CubeAxis::X][k],
                            )
                        &&& forall|k: int|
                            0 <= k < 3 ==> is_finish_moveset((#[trigger] step.variants@[k]).moveset)
                        &&& forall|k: int| 0 <= k < 3 ==> (#[trigger] step.variants@[k]).table == table
                        &&& opts == fin_options(config@)
                    },
                    Err(_) => false,
                },
            }
        }),
{
    let opts = resolve_options(&config);
    let step = match &config.substeps {
        Some(substeps) => {
            match parse_substeps(substeps) {
                Ok(axes) => {
                    proof {
                        assert(substeps@.map_values(|s: String| s@) =~= config@.substeps.unwrap());
                    }
                    fr_finish_leave_slice(table, axes)
                },
                Err(msg) => {
                    proof {
                        assert(substeps@.map_values(|s: String| s@) =~= config@.substeps.unwrap());
                    }
                    return Err(msg);
                },
            }
        },
        None => fr_finish_leave_slice_any(table),
    };
    Ok((step, opts))
}

} // verus!
