//! Move sets and transition tables: for every turn, which turns may
//! legally follow it, and which turns may end a stage. A turn may follow
//! another unless it repeats the face, and of two opposite faces only the
//! one with the higher face number may come second, which canonicalises
//! commuting pairs.

use vstd::prelude::*;
use crate::cube::{face_index, spec_opposite, CubeFace, CubeOuterTurn, Direction};

verus! {

/// Whether a turn of face `next` may immediately follow one of face
/// `prev`.
pub open spec fn transition_allowed(prev: CubeFace, next: CubeFace) -> bool {
    next != prev && !(next == spec_opposite(prev) && face_index(next) < face_index(prev))
}

/// The face with numeric identifier `i`.
pub open spec fn face_from_index(i: int) -> CubeFace {
    if i == 0 {
        CubeFace::Up
    } else if i == 1 {
        CubeFace::Down
    } else if i == 2 {
        CubeFace::Front
    } else if i == 3 {
        CubeFace::Back
    } else if i == 4 {
        CubeFace::Left
    } else {
        CubeFace::Right
    }
}

/// Two to the power `k`.
pub open spec fn pow2(k: int) -> nat
    decreases k,
{
    if k <= 0 {
        1
    } else {
        2 * pow2(k - 1)
    }
}

/// The bitmask over the first `m` turn identifiers of the turns allowed
/// after a turn of face `prev`: bit `t` stands for the turn with
/// identifier `t`, whose face has identifier `t / 3`.
pub open spec fn allowed_mask_partial(prev: CubeFace, m: int) -> nat
    decreases m,
{
    if m <= 0 {
        0
    } else {
        allowed_mask_partial(prev, m - 1) + (if transition_allowed(
            prev,
            face_from_index((m - 1) / 3),
        ) {
            pow2(m - 1)
        } else {
            0nat
        })
    }
}

/// The bitmask of the turns allowed after a turn of face `prev`.
pub open spec fn allowed_mask(prev: CubeFace) -> nat {
    allowed_mask_partial(prev, 18)
}

proof fn lemma_pow2_values()
    ensures
        pow2(18) == 0x40000,
{
    reveal_with_fuel(pow2, 20);
}

proof fn lemma_pow2_mono(a: int, b: int)
    requires
        a <= b,
    ensures
        pow2(a) <= pow2(b),
    decreases b - a,
{
    if a < b {
        lemma_pow2_mono(a, b - 1);
    }
}

proof fn lemma_allowed_mask_partial_bound(prev: CubeFace, m: int)
    requires
        0 <= m,
    ensures
        allowed_mask_partial(prev, m) < pow2(m),
    decreases m,
{
    if m > 0 {
        lemma_allowed_mask_partial_bound(prev, m - 1);
    }
}

/// Every turn of every face may follow, and every turn may end the stage.
pub const ANY_MASK: u32 = 0x3FFFF;

/// For one previous turn: the turns that may follow it, and the turns the
/// stage may end on, both as bitmasks over turn identifiers.
#[derive(Debug, Clone, Copy, PartialEq, Eq, Hash, Structural)]
pub struct TransitionTable333 {
    pub allowed: u32,
    pub can_end: u32,
}

impl TransitionTable333 {
    pub fn new(allowed: u32, can_end: u32) -> (r: TransitionTable333)
        ensures
            r == (TransitionTable333 { allowed, can_end }),
    {
        TransitionTable333 { allowed, can_end }
    }
}

/// The bitmask of the turns allowed after a turn of face `prev`,
/// following the face-order rule.
pub fn default_allowed_after(prev: CubeFace) -> (r: u32)
    ensures
        r == allowed_mask(prev),
        r <= 0x3FFFF,
{
    let mut mask: u32 = 0;
    let mut m: usize = 0;
    let mut bit: u32 = 1;
    while m < 18
        invariant
            m <= 18,
            mask as nat == allowed_mask_partial(prev, m as int),
            bit as nat == pow2(m as int),
            bit <= 0x40000,
            mask < bit,
        decreases 18 - m,
    {
        let face = CubeFace::from_id(m / 3);
        let prev_opposite = prev.opposite();
        let allowed = !(face == prev) && !(face == prev_opposite && face.to_id() < prev.to_id());
        proof {
            assert(face == face_from_index(m as int / 3));
            assert(allowed == transition_allowed(prev, face_from_index(m as int / 3)));
            lemma_pow2_values();
            lemma_pow2_mono(m as int + 1, 18);
            lemma_allowed_mask_partial_bound(prev, m as int + 1);
        }
        if allowed {
            mask = mask + bit;
        }
        bit = bit * 2;
        m = m + 1;
    }
    proof {
        lemma_pow2_values();
        lemma_allowed_mask_partial_bound(prev, 18);
    }
    mask
}

/// The turns a stage may start with, the turns it may continue with, and
/// the transition table that constrains consecutive turns.
#[derive(Debug)]
pub struct MoveSet333 {
    pub st_moves: Vec<CubeOuterTurn>,
    pub aux_moves: Vec<CubeOuterTurn>,
    pub transitions: Vec<TransitionTable333>,
}

} // verus!
