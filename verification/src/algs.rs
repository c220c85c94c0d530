//! Algorithms: move sequences with a normal part and an inverse part,
//! together with their notation. Parsing accepts whitespace-separated move
//! tokens, with parenthesised groups holding the moves of the inverse part;
//! rendering prints the normal part bare and the inverse part in one pair
//! of parentheses. Parsing is proved to be a left inverse of rendering.

use vstd::prelude::*;
use vstd::string::*;
use crate::cube::{
    face_char, face_of_char, lemma_mirror_turn_involutive, move_chars, spec_mirror_turn, CubeAxis,
    CubeFace, CubeOuterTurn, CubeTransformation, Direction, Invertible, Turnable,
};

verus! {

/// The mathematical value of an algorithm: its two move sequences.
pub ghost struct AlgView {
    pub normal: Seq<CubeOuterTurn>,
    pub inverse: Seq<CubeOuterTurn>,
}

/// Moves to execute on the normal scramble and moves to execute on the
/// inverse scramble.
pub struct Algorithm {
    pub normal_moves: Vec<CubeOuterTurn>,
    pub inverse_moves: Vec<CubeOuterTurn>,
}

impl View for Algorithm {
    type V = AlgView;

    open spec fn view(&self) -> AlgView {
        AlgView { normal: self.normal_moves@, inverse: self.inverse_moves@ }
    }
}

/// Copies a move sequence.
fn clone_moves(v: &Vec<CubeOuterTurn>) -> (r: Vec<CubeOuterTurn>)
    ensures
        r@ == v@,
{
    let mut r: Vec<CubeOuterTurn> = Vec::new();
    let mut i: usize = 0;
    while i < v.len()
        invariant
            i <= v@.len(),
            r@ == v@.take(i as int),
        decreases v@.len() - i,
    {
        r.push(v[i]);
        proof {
            assert(v@.take(i as int).push(v@[i as int]) =~= v@.take(i as int + 1));
        }
        i = i + 1;
    }
    proof {
        assert(v@.take(v@.len() as int) =~= v@);
    }
    r
}

impl Clone for Algorithm {
    fn clone(&self) -> (r: Self)
        ensures
            r@ == self@,
    {
        Algorithm {
            normal_moves: clone_moves(&self.normal_moves),
            inverse_moves: clone_moves(&self.inverse_moves),
        }
    }
}

/// The characters that render a move sequence: the moves' tokens joined by
/// single spaces.
pub open spec fn moves_chars(ms: Seq<CubeOuterTurn>) -> Seq<char>
    decreases ms.len(),
{
    if ms.len() == 0 {
        Seq::empty()
    } else if ms.len() == 1 {
        move_chars(ms[0])
    } else {
        move_chars(ms[0]) + seq![' '] + moves_chars(ms.skip(1))
    }
}

/// The characters that render an algorithm: the normal moves bare, the
/// inverse moves inside one pair of parentheses, separated by a space when
/// both parts are present.
pub open spec fn alg_chars(n: Seq<CubeOuterTurn>, i: Seq<CubeOuterTurn>) -> Seq<char> {
    if i.len() == 0 {
        moves_chars(n)
    } else if n.len() == 0 {
        seq!['('] + moves_chars(i) + seq![')']
    } else {
        moves_chars(n) + seq![' ', '('] + moves_chars(i) + seq![')']
    }
}

/// The whitespace that the parser ignores: the characters with the
/// Unicode white-space property.
pub open spec fn is_ws(c: char) -> bool {
    ||| c == '\t'
    ||| c == '\n'
    ||| c == '\u{000B}'
    ||| c == '\u{000C}'
    ||| c == '\r'
    ||| c == ' '
    ||| c == '\u{0085}'
    ||| c == '\u{00A0}'
    ||| c == '\u{1680}'
    ||| c == '\u{2000}'
    ||| c == '\u{2001}'
    ||| c == '\u{2002}'
    ||| c == '\u{2003}'
    ||| c == '\u{2004}'
    ||| c == '\u{2005}'
    ||| c == '\u{2006}'
    ||| c == '\u{2007}'
    ||| c == '\u{2008}'
    ||| c == '\u{2009}'
    ||| c == '\u{200A}'
    ||| c == '\u{2028}'
    ||| c == '\u{2029}'
    ||| c == '\u{202F}'
    ||| c == '\u{205F}'
    ||| c == '\u{3000}'
}

/// Whether the parser ignores this character.
fn is_whitespace_char(c: char) -> (r: bool)
    ensures
        r == is_ws(c),
{
    c == '\t' || c == '\n' || c == '\u{000B}' || c == '\u{000C}' || c == '\r' || c == ' ' || c
        == '\u{0085}' || c == '\u{00A0}' || c == '\u{1680}' || c == '\u{2000}' || c == '\u{2001}'
        || c == '\u{2002}' || c == '\u{2003}' || c == '\u{2004}' || c == '\u{2005}' || c
        == '\u{2006}' || c == '\u{2007}' || c == '\u{2008}' || c == '\u{2009}' || c == '\u{200A}'
        || c == '\u{2028}' || c == '\u{2029}' || c == '\u{202F}' || c == '\u{205F}' || c
        == '\u{3000}'
}

/// The input with its whitespace removed.
pub open spec fn strip_ws(s: Seq<char>) -> Seq<char>
    decreases s.len(),
{
    if s.len() == 0 {
        Seq::empty()
    } else {
        (if is_ws(s[0]) {
            Seq::empty()
        } else {
            seq![s[0]]
        }) + strip_ws(s.skip(1))
    }
}

pub open spec fn is_modifier(c: char) -> bool {
    c == '2' || c == '\''
}

/// Parses the whitespace-free remainder `s`: `on_inverse` says whether the
/// position lies inside a parenthesised group, and `n` and `i` hold the
/// moves parsed so far. An unclosed group, a stray closing parenthesis, a
/// nested group and an unknown token all fail.
pub open spec fn parse_rest(
    s: Seq<char>,
    on_inverse: bool,
    n: Seq<CubeOuterTurn>,
    i: Seq<CubeOuterTurn>,
) -> Option<(Seq<CubeOuterTurn>, Seq<CubeOuterTurn>)>
    decreases s.len(),
{
    if s.len() == 0 {
        if on_inverse {
            None
        } else {
            Some((n, i))
        }
    } else if s[0] == '(' {
        if on_inverse {
            None
        } else {
            parse_rest(s.skip(1), true, n, i)
        }
    } else if s[0] == ')' {
        if !on_inverse {
            None
        } else {
            parse_rest(s.skip(1), false, n, i)
        }
    } else {
        match face_of_char(s[0]) {
            Some(f) => if s.len() >= 2 && is_modifier(s[1]) {
                let m = CubeOuterTurn {
                    face: f,
                    dir: if s[1] == '2' {
                        Direction::Half
                    } else {
                        Direction::CounterClockwise
                    },
                };
                if on_inverse {
                    parse_rest(s.skip(2), true, n, i.push(m))
                } else {
                    parse_rest(s.skip(2), false, n.push(m), i)
                }
            } else {
                let m = CubeOuterTurn { face: f, dir: Direction::Clockwise };
                if on_inverse {
                    parse_rest(s.skip(1), true, n, i.push(m))
                } else {
                    parse_rest(s.skip(1), false, n.push(m), i)
                }
            },
            None => None,
        }
    }
}

/// What a string of move notation denotes, if anything: the normal and the
/// inverse move sequences.
pub open spec fn parse_alg_chars(s: Seq<char>) -> Option<
    (Seq<CubeOuterTurn>, Seq<CubeOuterTurn>),
> {
    parse_rest(strip_ws(s), false, Seq::empty(), Seq::empty())
}

/// Removing whitespace commutes with appending one character.
proof fn lemma_strip_ws_push(t: Seq<char>, c: char)
    ensures
        strip_ws(t.push(c)) == strip_ws(t) + (if is_ws(c) {
            Seq::<char>::empty()
        } else {
            seq![c]
        }),
    decreases t.len(),
{
    let tail: Seq<char> = if is_ws(c) {
        Seq::empty()
    } else {
        seq![c]
    };
    if t.len() == 0 {
        assert(t.push(c) =~= seq![c]);
        assert(t.push(c).skip(1) =~= Seq::<char>::empty());
        assert(strip_ws(Seq::<char>::empty()) == Seq::<char>::empty());
        assert(t.push(c)[0] == c);
        assert(strip_ws(t.push(c)) == tail + strip_ws(t.push(c).skip(1)));
        assert(strip_ws(t.push(c)) =~= strip_ws(t) + tail);
    } else {
        assert(t.push(c).skip(1) =~= t.skip(1).push(c));
        lemma_strip_ws_push(t.skip(1), c);
        assert(t.push(c)[0] == t[0]);
        let head: Seq<char> = if is_ws(t[0]) {
            Seq::empty()
        } else {
            seq![t[0]]
        };
        assert(strip_ws(t.push(c)) == head + strip_ws(t.skip(1).push(c)));
        assert(strip_ws(t) == head + strip_ws(t.skip(1)));
        assert(strip_ws(t.push(c)) =~= strip_ws(t) + tail);
    }
}

/// Rendering commutes with appending one move: the new token is separated
/// by a space unless it is the first.
proof fn lemma_moves_chars_push(ms: Seq<CubeOuterTurn>, m: CubeOuterTurn)
    ensures
        moves_chars(ms.push(m)) == (if ms.len() == 0 {
            move_chars(m)
        } else {
            moves_chars(ms) + seq![' '] + move_chars(m)
        }),
    decreases ms.len(),
{
    if ms.len() == 0 {
        assert(ms.push(m)[0] == m);
        assert(moves_chars(ms.push(m)) =~= move_chars(m));
    } else {
        assert(ms.push(m).skip(1) =~= ms.skip(1).push(m));
        lemma_moves_chars_push(ms.skip(1), m);
        assert(ms.push(m)[0] == ms[0]);
        if ms.len() == 1 {
            assert(ms.skip(1).len() == 0);
            assert(moves_chars(ms.push(m)) =~= moves_chars(ms) + seq![' '] + move_chars(m));
        } else {
            assert(moves_chars(ms.push(m)) =~= moves_chars(ms) + seq![' '] + move_chars(m));
        }
    }
}

/// Renders a move sequence: tokens joined by single spaces.
fn fmt_alg(moves: &Vec<CubeOuterTurn>) -> (r: String)
    ensures
        r@ == moves_chars(moves@),
{
    let mut s = String::new();
    let mut i: usize = 0;
    proof {
        assert(moves@.take(0) =~= Seq::<CubeOuterTurn>::empty());
    }
    while i < moves.len()
        invariant
            i <= moves@.len(),
            s@ == moves_chars(moves@.take(i as int)),
        decreases moves@.len() - i,
    {
        if i > 0 {
            proof {
                reveal_strlit(" ");
                assert(" "@ =~= seq![' ']);
            }
            s.append(" ");
        }
        let name = moves[i].to_name();
        s.append(name.as_str());
        proof {
            lemma_moves_chars_push(moves@.take(i as int), moves@[i as int]);
            assert(moves@.take(i as int).push(moves@[i as int]) =~= moves@.take(i as int + 1));
            assert(s@ =~= moves_chars(moves@.take(i as int + 1)));
        }
        i = i + 1;
    }
    proof {
        assert(moves@.take(moves@.len() as int) =~= moves@);
    }
    s
}

impl Algorithm {
    /// The empty algorithm.
    pub fn new() -> (r: Self)
        ensures
            r@.normal == Seq::<CubeOuterTurn>::empty(),
            r@.inverse == Seq::<CubeOuterTurn>::empty(),
    {
        Algorithm { normal_moves: Vec::new(), inverse_moves: Vec::new() }
    }

    /// Reverses the order of both move sequences.
    pub fn reverse(self) -> (r: Self)
        ensures
            r@.normal.len() == self@.normal.len(),
            r@.inverse.len() == self@.inverse.len(),
            forall|k: int|
                0 <= k < self@.normal.len() ==> r@.normal[k] == self@.normal[
                    self@.normal.len() - 1 - k
                ],
            forall|k: int|
                0 <= k < self@.inverse.len() ==> r@.inverse[k] == self@.inverse[
                    self@.inverse.len() - 1 - k
                ],
    {
        Algorithm {
            normal_moves: reverse_moves(&self.normal_moves),
            inverse_moves: reverse_moves(&self.inverse_moves),
        }
    }

    /// Replaces every move by its mirror image across axis `a`.
    pub fn mirror(&mut self, axis: CubeAxis)
        ensures
            final(self)@.normal == old(self)@.normal.map_values(
                |m: CubeOuterTurn| spec_mirror_turn(m, axis),
            ),
            final(self)@.inverse == old(self)@.inverse.map_values(
                |m: CubeOuterTurn| spec_mirror_turn(m, axis),
            ),
    {
        self.normal_moves = mirror_moves(&self.normal_moves, axis);
        self.inverse_moves = mirror_moves(&self.inverse_moves, axis);
    }

    /// The total number of moves, both parts together.
    pub fn len(&self) -> (r: usize)
        requires
            self@.normal.len() + self@.inverse.len() <= usize::MAX,
        ensures
            r == self@.normal.len() + self@.inverse.len(),
    {
        self.normal_moves.len() + self.inverse_moves.len()
    }

    /// Appends the moves of `rhs` to this algorithm, part by part.
    pub fn concat(self, rhs: Self) -> (r: Self)
        ensures
            r@.normal == self@.normal + rhs@.normal,
            r@.inverse == self@.inverse + rhs@.inverse,
    {
        let mut normal = self.normal_moves;
        let mut rhs_normal = rhs.normal_moves;
        normal.append(&mut rhs_normal);
        let mut inverse = self.inverse_moves;
        let mut rhs_inverse = rhs.inverse_moves;
        inverse.append(&mut rhs_inverse);
        Algorithm { normal_moves: normal, inverse_moves: inverse }
    }

    /// Renders this algorithm as move notation.
    pub fn to_display_string(&self) -> (r: String)
        ensures
            r@ == alg_chars(self@.normal, self@.inverse),
    {
        if self.inverse_moves.len() == 0 {
            fmt_alg(&self.normal_moves)
        } else if self.normal_moves.len() == 0 {
            proof {
                reveal_strlit("(");
                reveal_strlit(")");
                assert("("@ =~= seq!['(']);
                assert(")"@ =~= seq![')']);
            }
            let mut s = String::from_str("(");
            let inner = fmt_alg(&self.inverse_moves);
            s.append(inner.as_str());
            s.append(")");
            proof {
                assert(s@ =~= alg_chars(self@.normal, self@.inverse));
            }
            s
        } else {
            proof {
                reveal_strlit(" (");
                reveal_strlit(")");
                assert(" ("@ =~= seq![' ', '(']);
                assert(")"@ =~= seq![')']);
            }
            let mut s = fmt_alg(&self.normal_moves);
            s.append(" (");
            let inner = fmt_alg(&self.inverse_moves);
            s.append(inner.as_str());
            s.append(")");
            proof {
                assert(s@ =~= alg_chars(self@.normal, self@.inverse));
            }
            s
        }
    }

    /// Parses move notation: whitespace-separated tokens, with
    /// parenthesised groups holding the inverse part's moves. Fails on an
    /// unknown token, a nested or stray parenthesis, and an unclosed
    /// group.
    pub fn from_str(s: &str) -> (r: Result<Algorithm, ()>)
        ensures
            match r {
                Ok(a) => parse_alg_chars(s@) == Some((a@.normal, a@.inverse)),
                Err(()) => parse_alg_chars(s@) is None,
            },
    {
        let n = s.unicode_len();
        let mut filtered: Vec<char> = Vec::new();
        let mut idx: usize = 0;
        proof {
            assert(s@.take(0) =~= Seq::<char>::empty());
        }
        while idx < n
            invariant
                idx <= n,
                n == s@.len(),
                filtered@ == strip_ws(s@.take(idx as int)),
            decreases n - idx,
        {
            let c = s.get_char(idx);
            proof {
                lemma_strip_ws_push(s@.take(idx as int), c);
                assert(s@.take(idx as int).push(s@[idx as int]) =~= s@.take(idx as int + 1));
            }
            if !is_whitespace_char(c) {
                filtered.push(c);
                proof {
                    assert(strip_ws(s@.take(idx as int)) + seq![c] =~= strip_ws(
                        s@.take(idx as int + 1),
                    ));
                }
            } else {
                proof {
                    assert(strip_ws(s@.take(idx as int)) + Seq::<char>::empty() =~= strip_ws(
                        s@.take(idx as int),
                    ));
                }
            }
            idx = idx + 1;
        }
        proof {
            assert(s@.take(n as int) =~= s@);
        }
        let mut i: usize = 0;
        let mut on_inverse = false;
        let mut normal: Vec<CubeOuterTurn> = Vec::new();
        let mut inverse: Vec<CubeOuterTurn> = Vec::new();
        proof {
            assert(filtered@.skip(0) =~= filtered@);
        }
        while i < filtered.len()
            invariant
                i <= filtered@.len(),
                parse_rest(filtered@.skip(i as int), on_inverse, normal@, inverse@)
                    == parse_alg_chars(s@),
            decreases filtered@.len() - i,
    {
            let ghost rest = filtered@.skip(i as int);
            proof {
                assert(rest[0] == filtered@[i as int]);
                assert(rest.skip(1) =~= filtered@.skip(i as int + 1));
            }
            let c = filtered[i];
            if c == '(' {
                if on_inverse {
                    return Err(());
                }
                on_inverse = true;
                i = i + 1;
            } else if c == ')' {
                if !on_inverse {
                    return Err(());
                }
                on_inverse = false;
                i = i + 1;
            } else {
                let face = match CubeFace::from_char(c) {
                    Ok(f) => f,
                    Err(()) => {
                        return Err(());
                    },
                };
                let has_modifier = i + 1 < filtered.len() && {
                    let c2 = filtered[i + 1];
                    c2 == '2' || c2 == '\''
                };
                if has_modifier {
                    proof {
                        assert(rest.len() >= 2);
                        assert(rest[1] == filtered@[i as int + 1]);
                        assert(rest.skip(2) =~= filtered@.skip(i as int + 2));
                    }
                    let c2 = filtered[i + 1];
                    let dir = if c2 == '2' {
                        Direction::Half
                    } else {
                        Direction::CounterClockwise
                    };
                    let m = CubeOuterTurn::new(face, dir);
                    if on_inverse {
                        inverse.push(m);
                    } else {
                        normal.push(m);
                    }
                    i = i + 2;
                } else {
                    proof {
                        if rest.len() >= 2 {
                            assert(rest[1] == filtered@[i as int + 1]);
                        }
                    }
                    let m = CubeOuterTurn::new(face, Direction::Clockwise);
                    if on_inverse {
                        inverse.push(m);
                    } else {
                        normal.push(m);
                    }
                    i = i + 1;
                }
            }
        }
        proof {
            assert(filtered@.skip(filtered@.len() as int) =~= Seq::<char>::empty());
        }
        if on_inverse {
            // The group was never closed.
            Err(())
        } else {
            Ok(Algorithm { normal_moves: normal, inverse_moves: inverse })
        }
    }
}

/// Reverses a move sequence into a new vector.
fn reverse_moves(v: &Vec<CubeOuterTurn>) -> (r: Vec<CubeOuterTurn>)
    ensures
        r@.len() == v@.len(),
        forall|k: int| 0 <= k < v@.len() ==> r@[k] == v@[v@.len() - 1 - k],
{
    let mut r: Vec<CubeOuterTurn> = Vec::new();
    let mut i: usize = v.len();
    while i > 0
        invariant
            i <= v@.len(),
            r@.len() == v@.len() - i,
            forall|k: int| 0 <= k < r@.len() ==> r@[k] == v@[v@.len() - 1 - k],
        decreases i,
    {
        i = i - 1;
        r.push(v[i]);
    }
    r
}

/// Mirrors every move of a sequence across axis `a`.
fn mirror_moves(v: &Vec<CubeOuterTurn>, a: CubeAxis) -> (r: Vec<CubeOuterTurn>)
    ensures
        r@ == v@.map_values(|m: CubeOuterTurn| spec_mirror_turn(m, a)),
{
    let mut r: Vec<CubeOuterTurn> = Vec::new();
    let mut i: usize = 0;
    while i < v.len()
        invariant
            i <= v@.len(),
            r@ == v@.take(i as int).map_values(|m: CubeOuterTurn| spec_mirror_turn(m, a)),
        decreases v@.len() - i,
    {
        r.push(v[i].mirror(a));
        proof {
            assert(v@.take(i as int + 1).map_values(|m: CubeOuterTurn| spec_mirror_turn(m, a))
                =~= v@.take(i as int).map_values(|m: CubeOuterTurn| spec_mirror_turn(m, a)).push(
                spec_mirror_turn(v@[i as int], a),
            ));
        }
        i = i + 1;
    }
    proof {
        assert(v@.take(v@.len() as int) =~= v@);
    }
    r
}

/// The characters of a move sequence's tokens with no separators: what is
/// left of a rendered move sequence once whitespace is stripped.
pub open spec fn tokens_chars(ms: Seq<CubeOuterTurn>) -> Seq<char>
    decreases ms.len(),
{
    if ms.len() == 0 {
        Seq::empty()
    } else {
        move_chars(ms[0]) + tokens_chars(ms.skip(1))
    }
}

/// A character that can begin a token: a parenthesis or a face letter.
pub open spec fn token_start(c: char) -> bool {
    c == '(' || c == ')' || face_of_char(c) is Some
}

/// Stripping whitespace distributes over concatenation.
proof fn lemma_strip_ws_concat(a: Seq<char>, b: Seq<char>)
    ensures
        strip_ws(a + b) == strip_ws(a) + strip_ws(b),
    decreases a.len(),
{
    if a.len() == 0 {
        assert(a + b =~= b);
        assert(strip_ws(a) == Seq::<char>::empty());
        assert(strip_ws(a) + strip_ws(b) =~= strip_ws(b));
    } else {
        assert((a + b).skip(1) =~= a.skip(1) + b);
        assert((a + b)[0] == a[0]);
        assert((a + b).len() > 0);
        lemma_strip_ws_concat(a.skip(1), b);
        let head: Seq<char> = if is_ws(a[0]) {
            Seq::empty()
        } else {
            seq![a[0]]
        };
        assert(strip_ws(a + b) == head + strip_ws(a.skip(1) + b));
        assert(strip_ws(a) == head + strip_ws(a.skip(1)));
        assert(head + (strip_ws(a.skip(1)) + strip_ws(b)) =~= (head + strip_ws(a.skip(1)))
            + strip_ws(b));
    }
}

/// Stripping whitespace from a single character.
proof fn lemma_strip_ws_single(c: char)
    ensures
        strip_ws(seq![c]) == (if is_ws(c) {
            Seq::<char>::empty()
        } else {
            seq![c]
        }),
{
    assert(seq![c].skip(1) =~= Seq::<char>::empty());
    assert(strip_ws(Seq::<char>::empty()) == Seq::<char>::empty());
    assert(seq![c][0] == c);
    assert(strip_ws(seq![c]) == (if is_ws(c) {
        Seq::<char>::empty()
    } else {
        seq![c]
    }) + strip_ws(seq![c].skip(1)));
    assert(strip_ws(seq![c]) =~= (if is_ws(c) {
        Seq::<char>::empty()
    } else {
        seq![c]
    }));
}

/// The letter of a face is a face letter and nothing else: no parenthesis,
/// no modifier, no whitespace.
proof fn lemma_face_char_props(f: CubeFace)
    ensures
        face_of_char(face_char(f)) == Some(f),
        face_char(f) != '(',
        face_char(f) != ')',
        !is_modifier(face_char(f)),
        !is_ws(face_char(f)),
{
}

/// The shape of one rendered move token: it starts with the face letter,
/// and its length and second character encode the direction.
proof fn lemma_move_token_shape(m: CubeOuterTurn)
    ensures
        1 <= move_chars(m).len() <= 2,
        move_chars(m)[0] == face_char(m.face),
        move_chars(m).len() == 1 <==> m.dir == Direction::Clockwise,
        move_chars(m).len() == 2 ==> is_modifier(move_chars(m)[1]),
        move_chars(m).len() == 2 ==> (move_chars(m)[1] == '2' <==> m.dir == Direction::Half),
        forall|k: int| 0 <= k < move_chars(m).len() ==> !is_ws(move_chars(m)[k]),
{
    lemma_face_char_props(m.face);
}

/// A move token holds no whitespace, so stripping leaves it unchanged.
proof fn lemma_strip_move_chars(m: CubeOuterTurn)
    ensures
        strip_ws(move_chars(m)) == move_chars(m),
{
    lemma_move_token_shape(m);
    let t = move_chars(m);
    if t.len() == 1 {
        assert(t.skip(1) =~= Seq::<char>::empty());
        assert(strip_ws(t) == seq![t[0]] + strip_ws(t.skip(1)));
        assert(strip_ws(t) =~= t);
    } else {
        assert(t.skip(1).len() == 1);
        assert(t.skip(1)[0] == t[1]);
        assert(t.skip(1).skip(1) =~= Seq::<char>::empty());
        assert(strip_ws(t.skip(1)) == seq![t[1]] + strip_ws(t.skip(1).skip(1)));
        assert(strip_ws(t.skip(1)) =~= seq![t[1]]);
        assert(strip_ws(t) == seq![t[0]] + strip_ws(t.skip(1)));
        assert(strip_ws(t) =~= t);
    }
}

/// Stripping whitespace from a rendered move sequence leaves exactly the
/// tokens, with the separating spaces gone.
proof fn lemma_strip_moves_chars(ms: Seq<CubeOuterTurn>)
    ensures
        strip_ws(moves_chars(ms)) == tokens_chars(ms),
    decreases ms.len(),
{
    if ms.len() == 0 {
        assert(strip_ws(moves_chars(ms)) =~= tokens_chars(ms));
    } else if ms.len() == 1 {
        lemma_strip_move_chars(ms[0]);
        assert(tokens_chars(ms.skip(1)) == Seq::<char>::empty());
        assert(tokens_chars(ms) =~= move_chars(ms[0]));
    } else {
        lemma_strip_ws_concat(move_chars(ms[0]) + seq![' '], moves_chars(ms.skip(1)));
        lemma_strip_ws_concat(move_chars(ms[0]), seq![' ']);
        lemma_strip_move_chars(ms[0]);
        lemma_strip_ws_single(' ');
        lemma_strip_moves_chars(ms.skip(1));
        assert(moves_chars(ms) == move_chars(ms[0]) + seq![' '] + moves_chars(ms.skip(1)));
        assert(move_chars(ms[0]) + Seq::<char>::empty() =~= move_chars(ms[0]));
        assert(strip_ws(moves_chars(ms)) =~= tokens_chars(ms));
    }
}

/// A non-empty token stream starts with a face letter.
proof fn lemma_tokens_start(ms: Seq<CubeOuterTurn>)
    ensures
        ms.len() > 0 ==> {
            &&& tokens_chars(ms).len() > 0
            &&& tokens_chars(ms)[0] == face_char(ms[0].face)
            &&& !is_modifier(tokens_chars(ms)[0])
            &&& token_start(tokens_chars(ms)[0])
        },
{
    if ms.len() > 0 {
        lemma_move_token_shape(ms[0]);
        lemma_face_char_props(ms[0].face);
        assert(tokens_chars(ms)[0] == move_chars(ms[0])[0]);
    }
}

/// Parsing walks over a token stream move by move: it appends the stream's
/// moves to the side being parsed and continues with the remainder, as
/// long as the remainder starts with a fresh token.
proof fn lemma_parse_tokens(
    ms: Seq<CubeOuterTurn>,
    rest: Seq<char>,
    on_inverse: bool,
    n: Seq<CubeOuterTurn>,
    i: Seq<CubeOuterTurn>,
)
    requires
        rest.len() > 0 ==> token_start(rest[0]),
    ensures
        parse_rest(tokens_chars(ms) + rest, on_inverse, n, i) == (if on_inverse {
            parse_rest(rest, true, n, i + ms)
        } else {
            parse_rest(rest, false, n + ms, i)
        }),
    decreases ms.len(),
{
    if ms.len() == 0 {
        assert(tokens_chars(ms) + rest =~= rest);
        assert(n + ms =~= n);
        assert(i + ms =~= i);
    } else {
        let m = ms[0];
        let t = move_chars(m);
        let tail = tokens_chars(ms.skip(1)) + rest;
        let s = tokens_chars(ms) + rest;
        lemma_move_token_shape(m);
        lemma_face_char_props(m.face);
        assert(s =~= t + tail);
        assert(s[0] == t[0]);
        assert(s.len() >= t.len());
        // What follows this token starts a fresh token, never a modifier.
        if tail.len() > 0 {
            if ms.skip(1).len() > 0 {
                lemma_tokens_start(ms.skip(1));
                assert(tail[0] == tokens_chars(ms.skip(1))[0]);
                assert(!is_modifier(tail[0]));
            } else {
                assert(tokens_chars(ms.skip(1)) == Seq::<char>::empty());
                assert(tail =~= rest);
                assert(token_start(tail[0]));
                if face_of_char(tail[0]) is Some {
                    let g = face_of_char(tail[0]).unwrap();
                    lemma_face_char_props(g);
                    assert(!is_modifier(tail[0]));
                } else {
                    assert(tail[0] == '(' || tail[0] == ')');
                    assert(!is_modifier(tail[0]));
                }
            }
        }
        if t.len() == 1 {
            assert(m.dir == Direction::Clockwise);
            assert(s.skip(1) =~= tail);
            if s.len() >= 2 {
                assert(s[1] == tail[0]);
                assert(!is_modifier(s[1]));
            }
            assert(parse_rest(s, on_inverse, n, i) == (if on_inverse {
                parse_rest(tail, true, n, i.push(m))
            } else {
                parse_rest(tail, false, n.push(m), i)
            }));
        } else {
            assert(s[1] == t[1]);
            assert(is_modifier(s[1]));
            assert(s.skip(2) =~= tail);
            assert(parse_rest(s, on_inverse, n, i) == (if on_inverse {
                parse_rest(tail, true, n, i.push(m))
            } else {
                parse_rest(tail, false, n.push(m), i)
            }));
        }
        lemma_parse_tokens(ms.skip(1), rest, on_inverse, if on_inverse {
            n
        } else {
            n.push(m)
        }, if on_inverse {
            i.push(m)
        } else {
            i
        });
        if on_inverse {
            assert(i.push(m) + ms.skip(1) =~= i + ms);
        } else {
            assert(n.push(m) + ms.skip(1) =~= n + ms);
        }
    }
}

/// Parsing is a left inverse of rendering: the notation that renders an
/// algorithm parses back to exactly that algorithm, for every pair of move
/// sequences.
pub proof fn lemma_parse_render_round_trip(n: Seq<CubeOuterTurn>, i: Seq<CubeOuterTurn>)
    ensures
        parse_alg_chars(alg_chars(n, i)) == Some((n, i)),
{
    let e = Seq::<CubeOuterTurn>::empty();
    if i.len() == 0 {
        lemma_strip_moves_chars(n);
        assert(tokens_chars(n) + Seq::<char>::empty() =~= tokens_chars(n));
        lemma_parse_tokens(n, Seq::empty(), false, e, e);
        assert(e + n =~= n);
        assert(parse_rest(Seq::<char>::empty(), false, n, e) == Some((n, e)));
        assert(e =~= i);
    } else {
        let open: Seq<char> = seq!['('];
        let close: Seq<char> = seq![')'];
        let rest1 = open + tokens_chars(i) + close;
        // Strip the rendered string down to tokens and parentheses.
        if n.len() == 0 {
            let rendered = alg_chars(n, i);
            assert(rendered == open + moves_chars(i) + close);
            lemma_strip_ws_concat(open + moves_chars(i), close);
            lemma_strip_ws_concat(open, moves_chars(i));
            lemma_strip_moves_chars(i);
            lemma_strip_ws_single('(');
            lemma_strip_ws_single(')');
            assert(strip_ws(rendered) =~= rest1);
            assert(tokens_chars(n) == Seq::<char>::empty());
            assert(tokens_chars(n) + rest1 =~= rest1);
        } else {
            let sep: Seq<char> = seq![' ', '('];
            let rendered = alg_chars(n, i);
            assert(rendered == moves_chars(n) + sep + moves_chars(i) + close);
            lemma_strip_ws_concat(moves_chars(n) + sep + moves_chars(i), close);
            lemma_strip_ws_concat(moves_chars(n) + sep, moves_chars(i));
            lemma_strip_ws_concat(moves_chars(n), sep);
            lemma_strip_moves_chars(n);
            lemma_strip_moves_chars(i);
            assert(sep =~= seq![' '] + open);
            lemma_strip_ws_concat(seq![' '], open);
            lemma_strip_ws_single(' ');
            lemma_strip_ws_single('(');
            lemma_strip_ws_single(')');
            assert(strip_ws(sep) =~= open);
            assert(strip_ws(rendered) =~= tokens_chars(n) + rest1);
        }
        // Walk the parse: normal tokens, the group, inverse tokens, close.
        lemma_parse_tokens(n, rest1, false, e, e);
        assert(e + n =~= n);
        assert(rest1[0] == '(');
        assert(rest1.skip(1) =~= tokens_chars(i) + close);
        assert(parse_rest(rest1, false, n, e) == parse_rest(tokens_chars(i) + close, true, n, e));
        lemma_parse_tokens(i, close, true, n, e);
        assert(e + i =~= i);
        assert(parse_rest(tokens_chars(i) + close, true, n, e) == parse_rest(close, true, n, i));
        assert(close.skip(1) =~= Seq::<char>::empty());
        assert(parse_rest(close, true, n, i) == parse_rest(Seq::<char>::empty(), false, n, i));
        assert(parse_rest(Seq::<char>::empty(), false, n, i) == Some((n, i)));
    }
}

impl Turnable for Algorithm {
    /// Recording a turn appends it to the normal part.
    open spec fn turn_post(pre: Self, post: Self, m: CubeOuterTurn) -> bool {
        &&& post@.normal == pre@.normal.push(m)
        &&& post@.inverse == pre@.inverse
    }

    /// Reorienting an algorithm transforms every move of both parts.
    open spec fn transform_post(pre: Self, post: Self, t: CubeTransformation) -> bool {
        &&& post@.normal.len() == pre@.normal.len()
        &&& post@.inverse.len() == pre@.inverse.len()
        &&& forall|k: int|
            0 <= k < pre@.normal.len() ==> #[trigger] post@.normal[k] == (CubeOuterTurn {
                face: crate::cube::spec_transform_face(pre@.normal[k].face, t.axis, t.dir),
                dir: pre@.normal[k].dir,
            })
        &&& forall|k: int|
            0 <= k < pre@.inverse.len() ==> #[trigger] post@.inverse[k] == (CubeOuterTurn {
                face: crate::cube::spec_transform_face(pre@.inverse[k].face, t.axis, t.dir),
                dir: pre@.inverse[k].dir,
            })
    }

    fn turn(&mut self, m: CubeOuterTurn) {
        self.normal_moves.push(m);
    }

    fn transform(&mut self, t: CubeTransformation) {
        self.normal_moves = transform_moves(&self.normal_moves, t);
        self.inverse_moves = transform_moves(&self.inverse_moves, t);
    }
}

/// Transforms every move of a sequence by the reorientation `t`.
fn transform_moves(v: &Vec<CubeOuterTurn>, t: CubeTransformation) -> (r: Vec<CubeOuterTurn>)
    ensures
        r@.len() == v@.len(),
        forall|k: int|
            0 <= k < v@.len() ==> #[trigger] r@[k] == (CubeOuterTurn {
                face: crate::cube::spec_transform_face(v@[k].face, t.axis, t.dir),
                dir: v@[k].dir,
            }),
{
    let mut r: Vec<CubeOuterTurn> = Vec::new();
    let mut i: usize = 0;
    while i < v.len()
        invariant
            i <= v@.len(),
            r@.len() == i,
            forall|k: int|
                0 <= k < i ==> #[trigger] r@[k] == (CubeOuterTurn {
                    face: crate::cube::spec_transform_face(v@[k].face, t.axis, t.dir),
                    dir: v@[k].dir,
                }),
        decreases v@.len() - i,
    {
        r.push(v[i].transform(t));
        i = i + 1;
    }
    r
}

/// The mathematical value of a solution: per-stage names and algorithms,
/// and which side the last stage ended on.
pub ghost struct SolutionView {
    pub steps: Seq<(Seq<char>, AlgView)>,
    pub ends_on_normal: bool,
}

/// The per-stage view of a step list.
pub open spec fn steps_view(v: Seq<(String, Algorithm)>) -> Seq<(Seq<char>, AlgView)> {
    v.map_values(|p: (String, Algorithm)| (p.0@, p.1@))
}

/// The number of moves of an algorithm value.
pub open spec fn alg_len(a: AlgView) -> nat {
    a.normal.len() + a.inverse.len()
}

/// The total number of moves of a step list.
pub open spec fn total_len(steps: Seq<(Seq<char>, AlgView)>) -> nat
    decreases steps.len(),
{
    if steps.len() == 0 {
        0
    } else {
        alg_len(steps[0].1) + total_len(steps.skip(1))
    }
}

/// The concatenation of the steps' normal parts, in order.
pub open spec fn cat_normals(steps: Seq<(Seq<char>, AlgView)>) -> Seq<CubeOuterTurn>
    decreases steps.len(),
{
    if steps.len() == 0 {
        Seq::empty()
    } else {
        steps[0].1.normal + cat_normals(steps.skip(1))
    }
}

/// The concatenation of the steps' inverse parts, in order.
pub open spec fn cat_inverses(steps: Seq<(Seq<char>, AlgView)>) -> Seq<CubeOuterTurn>
    decreases steps.len(),
{
    if steps.len() == 0 {
        Seq::empty()
    } else {
        steps[0].1.inverse + cat_inverses(steps.skip(1))
    }
}

proof fn lemma_total_len_push(steps: Seq<(Seq<char>, AlgView)>, s: (Seq<char>, AlgView))
    ensures
        total_len(steps.push(s)) == total_len(steps) + alg_len(s.1),
    decreases steps.len(),
{
    if steps.len() == 0 {
        assert(steps.push(s)[0] == s);
        assert(steps.push(s).skip(1) =~= Seq::<(Seq<char>, AlgView)>::empty());
        assert(total_len(Seq::<(Seq<char>, AlgView)>::empty()) == 0);
        assert(total_len(steps) == 0);
        assert(total_len(steps.push(s)) == alg_len(s.1) + total_len(steps.push(s).skip(1)));
    } else {
        assert(steps.push(s).skip(1) =~= steps.skip(1).push(s));
        assert(steps.push(s)[0] == steps[0]);
        lemma_total_len_push(steps.skip(1), s);
        assert(total_len(steps.push(s)) == alg_len(steps[0].1) + total_len(steps.skip(1).push(s)));
        assert(total_len(steps) == alg_len(steps[0].1) + total_len(steps.skip(1)));
    }
}

proof fn lemma_cat_push(steps: Seq<(Seq<char>, AlgView)>, s: (Seq<char>, AlgView))
    ensures
        cat_normals(steps.push(s)) == cat_normals(steps) + s.1.normal,
        cat_inverses(steps.push(s)) == cat_inverses(steps) + s.1.inverse,
    decreases steps.len(),
{
    if steps.len() == 0 {
        assert(steps.push(s)[0] == s);
        assert(steps.push(s).skip(1) =~= Seq::<(Seq<char>, AlgView)>::empty());
        assert(cat_normals(Seq::<(Seq<char>, AlgView)>::empty())
            == Seq::<CubeOuterTurn>::empty());
        assert(cat_inverses(Seq::<(Seq<char>, AlgView)>::empty())
            == Seq::<CubeOuterTurn>::empty());
        assert(cat_normals(steps.push(s)) == s.1.normal + cat_normals(steps.push(s).skip(1)));
        assert(cat_inverses(steps.push(s)) == s.1.inverse + cat_inverses(steps.push(s).skip(1)));
        assert(cat_normals(steps.push(s)) =~= cat_normals(steps) + s.1.normal);
        assert(cat_inverses(steps.push(s)) =~= cat_inverses(steps) + s.1.inverse);
    } else {
        assert(steps.push(s).skip(1) =~= steps.skip(1).push(s));
        assert(steps.push(s)[0] == steps[0]);
        lemma_cat_push(steps.skip(1), s);
        assert(cat_normals(steps.push(s)) =~= cat_normals(steps) + s.1.normal);
        assert(cat_inverses(steps.push(s)) =~= cat_inverses(steps) + s.1.inverse);
    }
}

/// An ordered list of named per-stage algorithms, and whether the next
/// stage should start on the normal side.
pub struct Solution {
    steps: Vec<(String, Algorithm)>,
    ends_on_normal: bool,
}

impl View for Solution {
    type V = SolutionView;

    closed spec fn view(&self) -> SolutionView {
        SolutionView { steps: steps_view(self.steps@), ends_on_normal: self.ends_on_normal }
    }
}

impl Solution {
    /// The empty solution, which starts on the normal side.
    pub fn new() -> (r: Solution)
        ensures
            r@.steps == Seq::<(Seq<char>, AlgView)>::empty(),
            r@.ends_on_normal == true,
    {
        let r = Solution { steps: Vec::new(), ends_on_normal: true };
        proof {
            assert(steps_view(r.steps@) =~= Seq::<(Seq<char>, AlgView)>::empty());
        }
        r
    }

    /// The total number of moves over all steps.
    pub fn len(&self) -> (r: usize)
        requires
            total_len(self@.steps) <= usize::MAX,
        ensures
            r == total_len(self@.steps),
    {
        let mut sum: usize = 0;
        let mut i: usize = 0;
        proof {
            assert(self@.steps.take(0) =~= Seq::<(Seq<char>, AlgView)>::empty());
        }
        while i < self.steps.len()
            invariant
                i <= self.steps@.len(),
                self@.steps == steps_view(self.steps@),
                self@.steps.len() == self.steps@.len(),
                total_len(self@.steps) <= usize::MAX,
                sum == total_len(self@.steps.take(i as int)),
            decreases self.steps@.len() - i,
        {
            proof {
                lemma_total_len_push(self@.steps.take(i as int), self@.steps[i as int]);
                assert(self@.steps.take(i as int).push(self@.steps[i as int]) =~= self@.steps.take(
                    i as int + 1,
                ));
                lemma_total_len_take_bound(self@.steps, i as int + 1);
            }
            let alg = &self.steps[i].1;
            proof {
                assert(self@.steps[i as int].1 == alg@);
            }
            sum = sum + alg.normal_moves.len();
            sum = sum + alg.inverse_moves.len();
            i = i + 1;
        }
        proof {
            assert(self@.steps.take(self@.steps.len() as int) =~= self@.steps);
        }
        sum
    }

    /// Records a stage's algorithm. A stage with only inverse moves leaves
    /// the solution on the inverse side, one with only normal moves on the
    /// normal side, and one with moves on both sides flips it.
    pub fn add_step(&mut self, name: String, alg: Algorithm)
        ensures
            final(self)@.steps == old(self)@.steps.push((name@, alg@)),
            final(self)@.ends_on_normal == (if alg@.normal.len() == 0 {
                false
            } else if alg@.inverse.len() == 0 {
                true
            } else {
                !old(self)@.ends_on_normal
            }),
    {
        if alg.normal_moves.len() == 0 {
            self.ends_on_normal = false;
        } else if alg.inverse_moves.len() == 0 {
            self.ends_on_normal = true;
        } else {
            self.ends_on_normal = !self.ends_on_normal;
        }
        proof {
            assert(steps_view(old(self).steps@.push((name, alg))) =~= steps_view(
                old(self).steps@,
            ).push((name@, alg@)));
        }
        self.steps.push((name, alg));
    }

    /// Whether the last recorded stage left the solution on the normal
    /// side.
    pub fn ends_on_normal(&self) -> (r: bool)
        ensures
            r == self@.ends_on_normal,
    {
        self.ends_on_normal
    }

    /// The recorded steps.
    pub fn get_steps(&self) -> (r: &Vec<(String, Algorithm)>)
        ensures
            steps_view(r@) == self@.steps,
    {
        &self.steps
    }

    /// Concatenates the steps' algorithms into one, part by part.
    pub fn to_algorithm(self) -> (r: Algorithm)
        ensures
            r@.normal == cat_normals(self@.steps),
            r@.inverse == cat_inverses(self@.steps),
    {
        let ghost sv = self@.steps;
        let mut start = Algorithm::new();
        let mut i: usize = 0;
        proof {
            assert(sv.take(0) =~= Seq::<(Seq<char>, AlgView)>::empty());
            assert(start@.normal =~= cat_normals(sv.take(0)));
            assert(start@.inverse =~= cat_inverses(sv.take(0)));
        }
        while i < self.steps.len()
            invariant
                i <= self.steps@.len(),
                sv == steps_view(self.steps@),
                sv.len() == self.steps@.len(),
                start@.normal == cat_normals(sv.take(i as int)),
                start@.inverse == cat_inverses(sv.take(i as int)),
            decreases self.steps@.len() - i,
        {
            let alg = self.steps[i].1.clone();
            proof {
                assert(sv[i as int].1 == alg@);
                lemma_cat_push(sv.take(i as int), sv[i as int]);
                assert(sv.take(i as int).push(sv[i as int]) =~= sv.take(i as int + 1));
            }
            start = start.concat(alg);
            i = i + 1;
        }
        proof {
            assert(sv.take(sv.len() as int) =~= sv);
        }
        start
    }
}

/// A prefix never has more moves than the whole list.
proof fn lemma_total_len_take_bound(steps: Seq<(Seq<char>, AlgView)>, k: int)
    requires
        0 <= k <= steps.len(),
    ensures
        total_len(steps.take(k)) <= total_len(steps),
    decreases k,
{
    if k > 0 {
        lemma_total_len_take_bound(steps, k - 1);
        lemma_total_len_push(steps.take(k - 1), steps[k - 1]);
        assert(steps.take(k - 1).push(steps[k - 1]) =~= steps.take(k));
        lemma_total_len_monotone(steps, k);
    }
}

/// Extending a prefix by one step adds that step's length.
proof fn lemma_total_len_monotone(steps: Seq<(Seq<char>, AlgView)>, k: int)
    requires
        0 < k <= steps.len(),
    ensures
        total_len(steps.take(k - 1)) + alg_len(steps[k - 1].1) <= total_len(steps),
    decreases steps.len(),
{
    if k > 1 {
        assert(steps.take(k).skip(1) =~= steps.skip(1).take(k - 1));
        lemma_total_len_monotone(steps.skip(1), k - 1);
        assert(steps.skip(1).take(k - 2) =~= steps.take(k - 1).skip(1));
        assert(steps.skip(1)[k - 2] == steps[k - 1]);
    } else {
        lemma_total_len_nonneg(steps.skip(1));
    }
}

proof fn lemma_total_len_nonneg(steps: Seq<(Seq<char>, AlgView)>)
    ensures
        total_len(steps) >= 0,
{
}

/// The decimal digit `d` as a character.
pub open spec fn digit_char(d: int) -> char {
    if d == 0 {
        '0'
    } else if d == 1 {
        '1'
    } else if d == 2 {
        '2'
    } else if d == 3 {
        '3'
    } else if d == 4 {
        '4'
    } else if d == 5 {
        '5'
    } else if d == 6 {
        '6'
    } else if d == 7 {
        '7'
    } else if d == 8 {
        '8'
    } else {
        '9'
    }
}

/// The decimal rendering of a number, most significant digit first.
pub open spec fn nat_chars(n: nat) -> Seq<char>
    decreases n,
{
    if n < 10 {
        seq![digit_char(n as int)]
    } else {
        nat_chars(n / 10) + seq![digit_char((n % 10) as int)]
    }
}

/// `k` spaces.
pub open spec fn spaces(k: nat) -> Seq<char>
    decreases k,
{
    if k == 0 {
        Seq::empty()
    } else {
        spaces((k - 1) as nat).push(' ')
    }
}

/// `s` padded on the right with spaces to width `w`; a longer `s` stays as
/// it is.
pub open spec fn pad(s: Seq<char>, w: nat) -> Seq<char> {
    if s.len() >= w {
        s
    } else {
        s + spaces((w - s.len()) as nat)
    }
}

/// The decimal digit `d` as a one-character string slice.
fn digit_str(d: usize) -> (r: &'static str)
    requires
        d < 10,
    ensures
        r@ == seq![digit_char(d as int)],
{
    if d == 0 {
        proof {
            reveal_strlit("0");
            assert("0"@ =~= seq!['0']);
        }
        "0"
    } else if d == 1 {
        proof {
            reveal_strlit("1");
            assert("1"@ =~= seq!['1']);
        }
        "1"
    } else if d == 2 {
        proof {
            reveal_strlit("2");
            assert("2"@ =~= seq!['2']);
        }
        "2"
    } else if d == 3 {
        proof {
            reveal_strlit("3");
            assert("3"@ =~= seq!['3']);
        }
        "3"
    } else if d == 4 {
        proof {
            reveal_strlit("4");
            assert("4"@ =~= seq!['4']);
        }
        "4"
    } else if d == 5 {
        proof {
            reveal_strlit("5");
            assert("5"@ =~= seq!['5']);
        }
        "5"
    } else if d == 6 {
        proof {
            reveal_strlit("6");
            assert("6"@ =~= seq!['6']);
        }
        "6"
    } else if d == 7 {
        proof {
            reveal_strlit("7");
            assert("7"@ =~= seq!['7']);
        }
        "7"
    } else if d == 8 {
        proof {
            reveal_strlit("8");
            assert("8"@ =~= seq!['8']);
        }
        "8"
    } else {
        proof {
            reveal_strlit("9");
            assert("9"@ =~= seq!['9']);
        }
        "9"
    }
}

/// Renders a number in decimal.
pub fn decimal_string(n: usize) -> (r: String)
    ensures
        r@ == nat_chars(n as nat),
    decreases n,
{
    if n < 10 {
        String::from_str(digit_str(n))
    } else {
        let mut s = decimal_string(n / 10);
        s.append(digit_str(n % 10));
        proof {
            assert(s@ =~= nat_chars(n as nat));
        }
        s
    }
}

/// Pads a string on the right with spaces to width `w`.
fn pad_string(s: String, w: usize) -> (r: String)
    ensures
        r@ == pad(s@, w as nat),
{
    let ghost orig = s@;
    let mut out = s;
    let mut k = out.unicode_len();
    proof {
        assert(spaces(0) == Seq::<char>::empty());
        assert(out@ =~= orig + spaces(0));
    }
    while k < w
        invariant
            orig == s@,
            orig.len() <= k,
            k <= w || k == orig.len(),
            out@.len() == k,
            out@ == orig + spaces((k - orig.len()) as nat),
        decreases w - k,
    {
        proof {
            reveal_strlit(" ");
            assert(" "@ =~= seq![' ']);
        }
        out.append(" ");
        proof {
            assert(out@ =~= orig + spaces((k + 1 - orig.len()) as nat));
        }
        k = k + 1;
    }
    proof {
        assert(spaces(0) == Seq::<char>::empty());
        if orig.len() >= w {
            assert(out@ =~= orig);
        }
    }
    out
}

/// The widest rendered algorithm among the steps.
pub open spec fn max_alg_width(steps: Seq<(Seq<char>, AlgView)>) -> nat
    decreases steps.len(),
{
    if steps.len() == 0 {
        0
    } else {
        let h = alg_chars(steps[0].1.normal, steps[0].1.inverse).len();
        let t = max_alg_width(steps.skip(1));
        if h > t {
            h
        } else {
            t
        }
    }
}

/// The widest step name.
pub open spec fn max_name_width(steps: Seq<(Seq<char>, AlgView)>) -> nat
    decreases steps.len(),
{
    if steps.len() == 0 {
        0
    } else {
        let h = steps[0].0.len();
        let t = max_name_width(steps.skip(1));
        if h > t {
            h
        } else {
            t
        }
    }
}

proof fn lemma_max_widths_push(steps: Seq<(Seq<char>, AlgView)>, s: (Seq<char>, AlgView))
    ensures
        max_alg_width(steps.push(s)) == (if alg_chars(s.1.normal, s.1.inverse).len()
            > max_alg_width(steps) {
            alg_chars(s.1.normal, s.1.inverse).len()
        } else {
            max_alg_width(steps)
        }),
        max_name_width(steps.push(s)) == (if s.0.len() > max_name_width(steps) {
            s.0.len()
        } else {
            max_name_width(steps)
        }),
    decreases steps.len(),
{
    let e = Seq::<(Seq<char>, AlgView)>::empty();
    if steps.len() == 0 {
        assert(steps.push(s)[0] == s);
        assert(steps.push(s).skip(1) =~= e);
        assert(max_alg_width(e) == 0);
        assert(max_name_width(e) == 0);
        assert(max_alg_width(steps) == 0);
        assert(max_name_width(steps) == 0);
        assert(max_alg_width(steps.push(s)) == (if alg_chars(s.1.normal, s.1.inverse).len()
            > max_alg_width(steps.push(s).skip(1)) {
            alg_chars(s.1.normal, s.1.inverse).len()
        } else {
            max_alg_width(steps.push(s).skip(1))
        }));
        assert(max_name_width(steps.push(s)) == (if s.0.len() > max_name_width(
            steps.push(s).skip(1),
        ) {
            s.0.len()
        } else {
            max_name_width(steps.push(s).skip(1))
        }));
    } else {
        assert(steps.push(s).skip(1) =~= steps.skip(1).push(s));
        assert(steps.push(s)[0] == steps[0]);
        lemma_max_widths_push(steps.skip(1), s);
        assert(max_alg_width(steps.push(s)) == (if alg_chars(
            steps[0].1.normal,
            steps[0].1.inverse,
        ).len() > max_alg_width(steps.skip(1).push(s)) {
            alg_chars(steps[0].1.normal, steps[0].1.inverse).len()
        } else {
            max_alg_width(steps.skip(1).push(s))
        }));
        assert(max_name_width(steps.push(s)) == (if steps[0].0.len() > max_name_width(
            steps.skip(1).push(s),
        ) {
            steps[0].0.len()
        } else {
            max_name_width(steps.skip(1).push(s))
        }));
    }
}

/// The index of the last step of the group that starts at `i`: the group
/// absorbs the empty steps that immediately follow, and the group's line
/// carries the name of its last member.
pub open spec fn merge_end(steps: Seq<(Seq<char>, AlgView)>, i: int) -> int
    decreases steps.len() - i,
{
    if i + 1 < steps.len() && alg_len(steps[i + 1].1) == 0 {
        merge_end(steps, i + 1)
    } else {
        i
    }
}

proof fn lemma_merge_end_range(steps: Seq<(Seq<char>, AlgView)>, i: int)
    requires
        0 <= i < steps.len(),
    ensures
        i <= merge_end(steps, i) < steps.len(),
    decreases steps.len() - i,
{
    if i + 1 < steps.len() && alg_len(steps[i + 1].1) == 0 {
        lemma_merge_end_range(steps, i + 1);
    }
}

/// One line of a rendered solution: the padded algorithm, the padded
/// name, and the group's own and cumulative move counts.
pub open spec fn sol_line(
    alg: AlgView,
    name: Seq<char>,
    total: nat,
    aw: nat,
    nw: nat,
) -> Seq<char> {
    pad(alg_chars(alg.normal, alg.inverse), aw) + seq![' ', ' ', '/', '/'] + pad(name, nw) + seq![
        ' ',
        '(',
    ] + nat_chars(alg_len(alg)) + seq!['/'] + nat_chars(total) + seq![')', '\n']
}

/// The lines of a rendered solution from step `i` on, with `total` moves
/// already accumulated: one line per group of steps.
pub open spec fn sol_lines(
    steps: Seq<(Seq<char>, AlgView)>,
    i: int,
    total: nat,
    aw: nat,
    nw: nat,
) -> Seq<char>
    decreases steps.len() - i,
        when 0 <= i
        via sol_lines_dec
{
    if i >= steps.len() {
        Seq::empty()
    } else {
        let j = merge_end(steps, i);
        let l = alg_len(steps[i].1);
        sol_line(steps[i].1, steps[j].0, (total + l) as nat, aw, nw) + sol_lines(
            steps,
            j + 1,
            (total + l) as nat,
            aw,
            nw,
        )
    }
}

#[via_fn]
proof fn sol_lines_dec(steps: Seq<(Seq<char>, AlgView)>, i: int, total: nat, aw: nat, nw: nat) {
    if 0 <= i < steps.len() {
        lemma_merge_end_range(steps, i);
    }
}

/// The whole rendered solution: the group lines, then a summary line with
/// the total move count and the concatenated algorithm.
pub open spec fn solution_display(steps: Seq<(Seq<char>, AlgView)>) -> Seq<char> {
    sol_lines(steps, 0, 0, max_alg_width(steps), max_name_width(steps)) + seq!['\n'] + seq![
        'S',
        'o',
        'l',
        'u',
        't',
        'i',
        'o',
        'n',
        ' ',
        '(',
    ] + nat_chars(total_len(steps)) + seq![')', ':', ' '] + alg_chars(
        cat_normals(steps),
        cat_inverses(steps),
    ) + seq!['\n']
}

/// Whether step `k`'s algorithm has no moves at all.
fn alg_is_empty(steps: &Vec<(String, Algorithm)>, k: usize) -> (r: bool)
    requires
        k < steps@.len(),
    ensures
        r == (alg_len(steps_view(steps@)[k as int].1) == 0),
{
    let a = &steps[k].1;
    a.normal_moves.len() == 0 && a.inverse_moves.len() == 0
}

impl Solution {
    /// Renders the solution: one line per group of steps (a step joined
    /// with the empty steps that follow it), each holding the padded
    /// algorithm, the padded group name and the group's own and
    /// cumulative move counts, then a summary line with the total move
    /// count and the concatenated algorithm.
    pub fn to_display_string(&self) -> (r: String)
        requires
            total_len(self@.steps) <= usize::MAX,
        ensures
            r@ == solution_display(self@.steps),
    {
        let ghost sv = self@.steps;
        let mut aw: usize = 0;
        let mut nw: usize = 0;
        let mut i: usize = 0;
        proof {
            assert(sv.take(0) =~= Seq::<(Seq<char>, AlgView)>::empty());
        }
        while i < self.steps.len()
            invariant
                i <= self.steps@.len(),
                sv == steps_view(self.steps@),
                sv.len() == self.steps@.len(),
                aw == max_alg_width(sv.take(i as int)),
                nw == max_name_width(sv.take(i as int)),
            decreases self.steps@.len() - i,
        {
            proof {
                assert(sv[i as int] == (self.steps@[i as int].0@, self.steps@[i as int].1@));
            }
            let astr = self.steps[i].1.to_display_string();
            let w = astr.as_str().unicode_len();
            if w > aw {
                aw = w;
            }
            let wn = self.steps[i].0.as_str().unicode_len();
            if wn > nw {
                nw = wn;
            }
            proof {
                lemma_max_widths_push(sv.take(i as int), sv[i as int]);
                assert(sv.take(i as int).push(sv[i as int]) =~= sv.take(i as int + 1));
            }
            i = i + 1;
        }
        proof {
            assert(sv.take(sv.len() as int) =~= sv);
        }
        let mut out = String::new();
        let mut i: usize = 0;
        let mut total: usize = 0;
        proof {
            assert(sv.take(0) =~= Seq::<(Seq<char>, AlgView)>::empty());
            assert(total_len(sv.take(0)) == 0);
            assert(out@ + sol_lines(sv, 0, 0, aw as nat, nw as nat) =~= sol_lines(
                sv,
                0,
                0,
                aw as nat,
                nw as nat,
            ));
        }
        while i < self.steps.len()
            invariant
                i <= self.steps@.len(),
                sv == steps_view(self.steps@),
                sv.len() == self.steps@.len(),
                total_len(sv) <= usize::MAX,
                total == total_len(sv.take(i as int)),
                sol_lines(sv, 0, 0, aw as nat, nw as nat) == out@ + sol_lines(
                    sv,
                    i as int,
                    total as nat,
                    aw as nat,
                    nw as nat,
                ),
            decreases self.steps@.len() - i,
        {
            let ghost total0 = total as nat;
            let ghost out0 = out@;
            // Find the end of the group: the empty steps that follow are
            // absorbed, and the group carries the last one's name.
            let mut j: usize = i;
            let n = self.steps.len();
            proof {
                lemma_total_len_push(sv.take(i as int), sv[i as int]);
                assert(sv.take(i as int).push(sv[i as int]) =~= sv.take(i as int + 1));
            }
            while j + 1 < n && alg_is_empty(&self.steps, j + 1)
                invariant
                    sv == steps_view(self.steps@),
                    sv.len() == self.steps@.len(),
                    n == sv.len(),
                    i <= j < sv.len(),
                    merge_end(sv, i as int) == merge_end(sv, j as int),
                    total_len(sv.take(j as int + 1)) == total_len(sv.take(i as int + 1)),
                decreases self.steps@.len() - j,
            {
                proof {
                    assert(alg_len(sv[j as int + 1].1) == 0);
                    lemma_total_len_push(sv.take(j as int + 1), sv[j as int + 1]);
                    assert(sv.take(j as int + 1).push(sv[j as int + 1]) =~= sv.take(j as int + 2));
                }
                j = j + 1;
            }
            proof {
                assert(merge_end(sv, j as int) == j as int);
                lemma_total_len_monotone(sv, i as int + 1);
            }
            let alg = &self.steps[i].1;
            proof {
                assert(sv[i as int].1 == alg@);
            }
            let l = alg.len();
            let astr = alg.to_display_string();
            total = total + l;
            let name = self.steps[j].0.clone();
            proof {
                assert(name@ == sv[j as int].0);
                reveal_strlit("  //");
                assert("  //"@ =~= seq![' ', ' ', '/', '/']);
                reveal_strlit(" (");
                assert(" ("@ =~= seq![' ', '(']);
                reveal_strlit("/");
                assert("/"@ =~= seq!['/']);
                reveal_strlit(")\n");
                assert(")\n"@ =~= seq![')', '\n']);
            }
            let padded_alg = pad_string(astr, aw);
            out.append(padded_alg.as_str());
            out.append("  //");
            let padded_name = pad_string(name, nw);
            out.append(padded_name.as_str());
            out.append(" (");
            let ls = decimal_string(l);
            out.append(ls.as_str());
            out.append("/");
            let ts = decimal_string(total);
            out.append(ts.as_str());
            out.append(")\n");
            proof {
                let awn = aw as nat;
                let nwn = nw as nat;
                let line = sol_line(sv[i as int].1, sv[j as int].0, total as nat, awn, nwn);
                assert(out@ =~= out0 + line);
                assert(sol_lines(sv, i as int, total0, awn, nwn) == line + sol_lines(
                    sv,
                    j as int + 1,
                    total as nat,
                    awn,
                    nwn,
                ));
                assert(out0 + (line + sol_lines(sv, j as int + 1, total as nat, awn, nwn)) =~= (
                out0 + line) + sol_lines(sv, j as int + 1, total as nat, awn, nwn));
            }
            i = j + 1;
        }
        proof {
            assert(sv.take(sv.len() as int) =~= sv);
            assert(sol_lines(sv, sv.len() as int, total as nat, aw as nat, nw as nat)
                == Seq::<char>::empty());
            assert(out@ + Seq::<char>::empty() =~= out@);
        }
        let ghost lines = out@;
        proof {
            reveal_strlit("\n");
            assert("\n"@ =~= seq!['\n']);
            reveal_strlit("Solution (");
            assert("Solution ("@ =~= seq!['S', 'o', 'l', 'u', 't', 'i', 'o', 'n', ' ', '(']);
            reveal_strlit("): ");
            assert("): "@ =~= seq![')', ':', ' ']);
        }
        out.append("\n");
        out.append("Solution (");
        let ts = decimal_string(total);
        out.append(ts.as_str());
        out.append("): ");
        let combined = self.clone().to_algorithm();
        let cstr = combined.to_display_string();
        out.append(cstr.as_str());
        out.append("\n");
        proof {
            assert(out@ =~= solution_display(sv));
        }
        out
    }
}

impl Clone for Solution {
    fn clone(&self) -> (r: Self)
        ensures
            r@ == self@,
    {
        let mut steps: Vec<(String, Algorithm)> = Vec::new();
        let mut i: usize = 0;
        while i < self.steps.len()
            invariant
                i <= self.steps@.len(),
                steps_view(steps@) == steps_view(self.steps@).take(i as int),
            decreases self.steps@.len() - i,
        {
            let ghost prev = steps@;
            let name = self.steps[i].0.clone();
            let alg = self.steps[i].1.clone();
            steps.push((name, alg));
            proof {
                assert(name@ == self.steps@[i as int].0@);
                assert(alg@ == self.steps@[i as int].1@);
                assert(steps_view(prev).len() == prev.len());
                assert(steps_view(self.steps@).take(i as int).len() == i);
                assert(prev.len() == i);
                assert(steps@ == prev.push((name, alg)));
                assert forall|k: int| 0 <= k < i + 1 implies steps_view(steps@)[k] == steps_view(
                    self.steps@,
                ).take(i as int + 1)[k] by {
                    if k < i {
                        assert(steps@[k] == prev[k]);
                        assert(steps_view(prev)[k] == steps_view(self.steps@).take(i as int)[k]);
                    } else {
                        assert(steps@[k] == (name, alg));
                    }
                }
                assert(steps_view(steps@) =~= steps_view(self.steps@).take(i as int + 1));
            }
            i = i + 1;
        }
        proof {
            assert(steps_view(self.steps@).take(self.steps@.len() as int) =~= steps_view(
                self.steps@,
            ));
        }
        Solution { steps, ends_on_normal: self.ends_on_normal }
    }
}

/// Whether `post` is reached from `pre` by applying the moves of `ms` in
/// order, each step as the type's own turn predicate describes it.
pub open spec fn turns_rel<C: Turnable>(pre: C, post: C, ms: Seq<CubeOuterTurn>) -> bool
    decreases ms.len(),
{
    if ms.len() == 0 {
        post == pre
    } else {
        exists|mid: C| #[trigger] C::turn_post(pre, mid, ms[0]) && turns_rel(mid, post, ms.skip(1))
    }
}

/// Applying one more move extends the reachability relation at its end.
proof fn lemma_turns_rel_snoc<C: Turnable>(
    pre: C,
    mid: C,
    post: C,
    ms: Seq<CubeOuterTurn>,
    m: CubeOuterTurn,
)
    requires
        turns_rel(pre, mid, ms),
        C::turn_post(mid, post, m),
    ensures
        turns_rel(pre, post, ms.push(m)),
    decreases ms.len(),
{
    if ms.len() == 0 {
        assert(mid == pre);
        assert(ms.push(m)[0] == m);
        assert(ms.push(m).skip(1) =~= Seq::<CubeOuterTurn>::empty());
        assert(turns_rel(post, post, ms.push(m).skip(1)));
        assert(C::turn_post(pre, post, ms.push(m)[0]) && turns_rel(post, post, ms.push(m).skip(1)));
    } else {
        let mid0 = choose|mid0: C|
            #[trigger] C::turn_post(pre, mid0, ms[0]) && turns_rel(mid0, mid, ms.skip(1));
        lemma_turns_rel_snoc(mid0, mid, post, ms.skip(1), m);
        assert(ms.push(m)[0] == ms[0]);
        assert(ms.push(m).skip(1) =~= ms.skip(1).push(m));
        assert(C::turn_post(pre, mid0, ms.push(m)[0]) && turns_rel(mid0, post, ms.push(m).skip(1)));
    }
}

/// Whether `post` is what applying a solution leaves of `pre`: the steps'
/// normal moves applied in order, the state inverted, the steps' inverse
/// moves applied in order, and the state inverted back.
pub open spec fn applies_solution_rel<C: Turnable + Invertible>(
    pre: C,
    post: C,
    steps: Seq<(Seq<char>, AlgView)>,
) -> bool {
    exists|s1: C, s2: C, s3: C|
        {
            &&& #[trigger] turns_rel(pre, s1, cat_normals(steps))
            &&& C::invert_post(s1, s2)
            &&& #[trigger] turns_rel(s2, s3, cat_inverses(steps))
            &&& C::invert_post(s3, post)
        }
}

/// Applying a solution to a state: the steps' normal moves are applied as
/// they stand; then the state is inverted, the steps' inverse moves are
/// applied, and the state is inverted back.
pub trait ApplySolution<C: Turnable>: Turnable + Invertible {
    fn apply_solution(&mut self, solution: &Solution)
        ensures
            applies_solution_rel(*old(self), *final(self), solution@.steps),
    ;
}

impl<C: Turnable + Invertible> ApplySolution<C> for C {
    fn apply_solution(&mut self, solution: &Solution) {
        let ghost sv = solution@.steps;
        let ghost c0 = *self;
        proof {
            assert(sv.take(0) =~= Seq::<(Seq<char>, AlgView)>::empty());
            assert(cat_normals(sv.take(0)) == Seq::<CubeOuterTurn>::empty());
            assert(turns_rel(c0, *self, cat_normals(sv.take(0))));
        }
        let mut si: usize = 0;
        while si < solution.steps.len()
            invariant
                si <= solution.steps@.len(),
                sv == steps_view(solution.steps@),
                sv.len() == solution.steps@.len(),
                turns_rel(c0, *self, cat_normals(sv.take(si as int))),
            decreases solution.steps@.len() - si,
        {
            let alg = &solution.steps[si].1;
            proof {
                assert(sv[si as int].1 == alg@);
                assert(alg@.normal.take(0) =~= Seq::<CubeOuterTurn>::empty());
                assert(cat_normals(sv.take(si as int)) + alg@.normal.take(0) =~= cat_normals(
                    sv.take(si as int),
                ));
            }
            let mut mi: usize = 0;
            while mi < alg.normal_moves.len()
                invariant
                    mi <= alg.normal_moves@.len(),
                    turns_rel(
                        c0,
                        *self,
                        cat_normals(sv.take(si as int)) + alg@.normal.take(mi as int),
                    ),
                decreases alg.normal_moves@.len() - mi,
            {
                let ghost pre = *self;
                let ghost done = cat_normals(sv.take(si as int)) + alg@.normal.take(mi as int);
                self.turn(alg.normal_moves[mi]);
                proof {
                    lemma_turns_rel_snoc(c0, pre, *self, done, alg@.normal[mi as int]);
                    assert(done.push(alg@.normal[mi as int]) =~= cat_normals(sv.take(si as int))
                        + alg@.normal.take(mi as int + 1));
                }
                mi = mi + 1;
            }
            proof {
                assert(alg@.normal.take(alg@.normal.len() as int) =~= alg@.normal);
                lemma_cat_push(sv.take(si as int), sv[si as int]);
                assert(sv.take(si as int).push(sv[si as int]) =~= sv.take(si as int + 1));
            }
            si = si + 1;
        }
        proof {
            assert(sv.take(sv.len() as int) =~= sv);
        }
        let ghost s1 = *self;
        *self = self.invert();
        let ghost s2 = *self;
        proof {
            assert(Self::invert_post(s1, s2));
            assert(sv.take(0) =~= Seq::<(Seq<char>, AlgView)>::empty());
            assert(cat_inverses(sv.take(0)) == Seq::<CubeOuterTurn>::empty());
            assert(turns_rel(s2, *self, cat_inverses(sv.take(0))));
        }
        let mut si: usize = 0;
        while si < solution.steps.len()
            invariant
                si <= solution.steps@.len(),
                sv == steps_view(solution.steps@),
                sv.len() == solution.steps@.len(),
                turns_rel(s2, *self, cat_inverses(sv.take(si as int))),
            decreases solution.steps@.len() - si,
        {
            let alg = &solution.steps[si].1;
            proof {
                assert(sv[si as int].1 == alg@);
                assert(alg@.inverse.take(0) =~= Seq::<CubeOuterTurn>::empty());
                assert(cat_inverses(sv.take(si as int)) + alg@.inverse.take(0) =~= cat_inverses(
                    sv.take(si as int),
                ));
            }
            let mut mi: usize = 0;
            while mi < alg.inverse_moves.len()
                invariant
                    mi <= alg.inverse_moves@.len(),
                    turns_rel(
                        s2,
                        *self,
                        cat_inverses(sv.take(si as int)) + alg@.inverse.take(mi as int),
                    ),
                decreases alg.inverse_moves@.len() - mi,
            {
                let ghost pre = *self;
                let ghost done = cat_inverses(sv.take(si as int)) + alg@.inverse.take(mi as int);
                self.turn(alg.inverse_moves[mi]);
                proof {
                    lemma_turns_rel_snoc(s2, pre, *self, done, alg@.inverse[mi as int]);
                    assert(done.push(alg@.inverse[mi as int]) =~= cat_inverses(sv.take(si as int))
                        + alg@.inverse.take(mi as int + 1));
                }
                mi = mi + 1;
            }
            proof {
                assert(alg@.inverse.take(alg@.inverse.len() as int) =~= alg@.inverse);
                lemma_cat_push(sv.take(si as int), sv[si as int]);
                assert(sv.take(si as int).push(sv[si as int]) =~= sv.take(si as int + 1));
            }
            si = si + 1;
        }
        proof {
            assert(sv.take(sv.len() as int) =~= sv);
        }
        let ghost s3 = *self;
        *self = self.invert();
        proof {
            assert(turns_rel(c0, s1, cat_normals(sv)));
            assert(Self::invert_post(s1, s2));
            assert(turns_rel(s2, s3, cat_inverses(sv)));
            assert(Self::invert_post(s3, *self));
            assert(applies_solution_rel(c0, *self, sv));
        }
    }
}

/// Mirroring a move sequence twice across the same axis gives the sequence
/// back.
pub proof fn lemma_mirror_moves_involutive(ms: Seq<CubeOuterTurn>, a: CubeAxis)
    ensures
        ms.map_values(|m: CubeOuterTurn| spec_mirror_turn(m, a)).map_values(
            |m: CubeOuterTurn| spec_mirror_turn(m, a),
        ) == ms,
{
    let f = |m: CubeOuterTurn| spec_mirror_turn(m, a);
    assert forall|m: CubeOuterTurn| #[trigger] f(f(m)) == m by {
        lemma_mirror_turn_involutive(m, a);
    }
    assert(ms.map_values(f).map_values(f) =~= ms);
}

} // verus!
