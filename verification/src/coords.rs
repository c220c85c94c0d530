//! Coordinate encoders for the half-turn-reduction stage: integer
//! projections of the cube state onto the stage's subgroup invariants.
//! Each encoder is a pure function from slot arrays to an integer below
//! the coordinate's range.

use vstd::prelude::*;
use vstd::arithmetic::div_mod::lemma_div_by_multiple;
use crate::cube::{Corner, Edge};

verus! {

/// The factorial.
pub open spec fn fact(n: nat) -> nat
    decreases n,
{
    if n == 0 {
        1
    } else {
        n * fact((n - 1) as nat)
    }
}

/// The binomial coefficient, by Pascal's rule.
pub open spec fn binom(n: nat, k: nat) -> nat
    decreases n,
{
    if k == 0 {
        1
    } else if n == 0 {
        0
    } else {
        binom((n - 1) as nat, (k - 1) as nat) + binom((n - 1) as nat, k)
    }
}

proof fn lemma_fact_values()
    ensures
        fact(0) == 1,
        fact(1) == 1,
        fact(2) == 2,
        fact(3) == 6,
        fact(4) == 24,
        fact(5) == 120,
        fact(6) == 720,
        fact(7) == 5040,
        fact(8) == 40320,
        fact(9) == 362880,
        fact(10) == 3628800,
        fact(11) == 39916800,
{
    assert(fact(0) == 1);
    assert(fact(1) == 1);
    assert(fact(2) == 2);
    assert(fact(3) == 6);
    assert(fact(4) == 24);
    assert(fact(5) == 120);
    assert(fact(6) == 720);
    assert(fact(7) == 5040);
    assert(fact(8) == 40320);
    assert(fact(9) == 362880);
    assert(fact(10) == 3628800);
    assert(fact(11) == 39916800);
}

/// Above the diagonal the binomial coefficient is zero.
proof fn lemma_binom_above_diag(n: nat, k: nat)
    requires
        k > n,
    ensures
        binom(n, k) == 0,
    decreases n,
{
    if n > 0 {
        lemma_binom_above_diag((n - 1) as nat, (k - 1) as nat);
        lemma_binom_above_diag((n - 1) as nat, k);
    }
}

/// On the diagonal the binomial coefficient is one.
proof fn lemma_binom_diag(n: nat)
    ensures
        binom(n, n) == 1,
    decreases n,
{
    if n > 0 {
        lemma_binom_diag((n - 1) as nat);
        lemma_binom_above_diag((n - 1) as nat, n);
    }
}

/// The binomial coefficient grows with its upper argument.
proof fn lemma_binom_mono_step(n: nat, k: nat)
    ensures
        binom(n, k) <= binom(n + 1, k),
{
    if k > 0 {
        assert(binom(n + 1, k) == binom(n, (k - 1) as nat) + binom(n, k));
    }
}

proof fn lemma_binom_mono(n1: nat, n2: nat, k: nat)
    requires
        n1 <= n2,
    ensures
        binom(n1, k) <= binom(n2, k),
    decreases n2 - n1,
{
    if n1 < n2 {
        lemma_binom_mono(n1, (n2 - 1) as nat, k);
        lemma_binom_mono_step((n2 - 1) as nat, k);
    }
}

/// Row eight of Pascal's triangle never exceeds its middle entry, seventy.
proof fn lemma_binom_row8(k: nat)
    ensures
        binom(8, k) <= 70,
{
    reveal_with_fuel(binom, 10);
    if k <= 8 {
        assert(binom(8, 0) == 1);
        assert(binom(8, 1) == 8);
        assert(binom(8, 2) == 28);
        assert(binom(8, 3) == 56);
        assert(binom(8, 4) == 70);
        assert(binom(8, 5) == 56);
        assert(binom(8, 6) == 28);
        assert(binom(8, 7) == 8);
        assert(binom(8, 8) == 1);
    } else {
        lemma_binom_above_diag(8, k);
    }
}

/// The factorial identity of the binomial coefficient.
proof fn lemma_binom_fact(n: nat, k: nat)
    requires
        k <= n,
    ensures
        binom(n, k) * (fact(k) * fact((n - k) as nat)) == fact(n),
    decreases n,
{
    if n == 0 {
        assert(binom(0, 0) == 1);
        assert(fact(0) == 1);
        assert(binom(0, 0) * (fact(0) * fact(0)) == 1);
    } else if k == 0 {
        assert(binom(n, 0) == 1);
        assert(fact(0) == 1);
        assert(binom(n, 0) * (fact(0) * fact(n)) == fact(n)) by (nonlinear_arith)
            requires
                binom(n, 0) == 1,
                fact(0) == 1,
        ;
    } else if k == n {
        lemma_binom_diag(n);
        assert(fact(0) == 1);
        assert(binom(n, n) * (fact(n) * fact(0)) == fact(n)) by (nonlinear_arith)
            requires
                binom(n, n) == 1,
                fact(0) == 1,
        ;
    } else {
        let n1 = (n - 1) as nat;
        let k1 = (k - 1) as nat;
        let b1 = binom(n1, k1);
        let b2 = binom(n1, k);
        lemma_binom_fact(n1, k1);
        lemma_binom_fact(n1, k);
        assert(binom(n, k) == b1 + b2);
        assert(fact(k) == k * fact(k1));
        assert(fact((n - k) as nat) == (n - k) * fact((n - 1 - k) as nat));
        assert(fact(n) == n * fact(n1));
        let fk1 = fact(k1);
        let fk = fact(k);
        let fnk = fact((n - k) as nat);
        let fn1k = fact((n - 1 - k) as nat);
        let fn1 = fact(n1);
        assert(b1 * (fk * fnk) == k * fn1) by (nonlinear_arith)
            requires
                b1 * (fk1 * fnk) == fn1,
                fk == k * fk1,
        ;
        assert(b2 * (fk * fnk) == (n - k) * fn1) by (nonlinear_arith)
            requires
                b2 * (fk * fn1k) == fn1,
                fnk == (n - k) * fn1k,
        ;
        assert((b1 + b2) * (fk * fnk) == b1 * (fk * fnk) + b2 * (fk * fnk)) by (nonlinear_arith);
        assert(binom(n, k) * (fk * fnk) == k * fn1 + (n - k) * fn1);
        assert(k * fn1 + (n - k) * fn1 == n * fn1) by (nonlinear_arith);
    }
}

/// The factorial of `j`, for the range the binomial helper needs.
fn factorial_u32(j: u8) -> (r: u32)
    requires
        j < 12,
    ensures
        r == fact(j as nat),
        r >= 1,
{
    proof {
        lemma_fact_values();
    }
    match j {
        0 => 1,
        1 => 1,
        2 => 2,
        3 => 6,
        4 => 24,
        5 => 120,
        6 => 720,
        7 => 5040,
        8 => 40320,
        9 => 362880,
        10 => 3628800,
        _ => 39916800,
    }
}

/// The binomial coefficient `n` choose `k`, computed from factorials and
/// truncated to a byte; zero when `n` is zero or smaller than `k`.
pub fn b(n: u8, k: u8) -> (r: u8)
    requires
        n < 12,
    ensures
        r as nat == (if n == 0 || n < k {
            0
        } else {
            binom(n as nat, k as nat) % 256
        }),
{
    if n == 0 || n < k {
        return 0;
    }
    let num = factorial_u32(n);
    let dk = factorial_u32(k);
    let dnk = factorial_u32(n - k);
    let q1 = num / dk;
    let q2 = q1 / dnk;
    proof {
        lemma_binom_fact(n as nat, k as nat);
        let bnk = binom(n as nat, k as nat) as int;
        let fk = fact(k as nat) as int;
        let fnk = fact((n - k) as nat) as int;
        assert(bnk * (fk * fnk) == fact(n as nat));
        assert((bnk * fnk) * fk == bnk * (fk * fnk)) by (nonlinear_arith);
        assert(num as int == (bnk * fnk) * fk);
        assert(bnk * fnk >= 0) by (nonlinear_arith)
            requires
                bnk >= 0,
                fnk >= 0,
        ;
        lemma_div_by_multiple(bnk * fnk, fk);
        assert(q1 as int == bnk * fnk);
        lemma_div_by_multiple(bnk, fnk);
        assert(q2 as int == bnk);
    }
    (q2 % 256) as u8
}

// ---------------------------------------------------------------------
// The cube state that the encoders read.
// ---------------------------------------------------------------------
/// A cube state as slot arrays: which corner and which edge sits in each
/// position.
pub struct CubieCube {
    pub corners: [Corner; 8],
    pub edges: [Edge; 12],
}

impl CubieCube {
    /// The solved cube: every piece in its own slot, oriented.
    pub fn new_solved() -> (r: CubieCube)
        ensures
            forall|i: int| 0 <= i < 8 ==> r.corners@[i] == (Corner { id: i as u8, orientation: 0 }),
            forall|i: int|
                0 <= i < 12 ==> r.edges@[i] == (Edge {
                    id: i as u8,
                    oriented_ud: true,
                    oriented_fb: true,
                    oriented_rl: true,
                }),
    {
        let corners: [Corner; 8] = [
            Corner { id: 0, orientation: 0 },
            Corner { id: 1, orientation: 0 },
            Corner { id: 2, orientation: 0 },
            Corner { id: 3, orientation: 0 },
            Corner { id: 4, orientation: 0 },
            Corner { id: 5, orientation: 0 },
            Corner { id: 6, orientation: 0 },
            Corner { id: 7, orientation: 0 },
        ];
        let edges: [Edge; 12] = [
            Edge { id: 0, oriented_ud: true, oriented_fb: true, oriented_rl: true },
            Edge { id: 1, oriented_ud: true, oriented_fb: true, oriented_rl: true },
            Edge { id: 2, oriented_ud: true, oriented_fb: true, oriented_rl: true },
            Edge { id: 3, oriented_ud: true, oriented_fb: true, oriented_rl: true },
            Edge { id: 4, oriented_ud: true, oriented_fb: true, oriented_rl: true },
            Edge { id: 5, oriented_ud: true, oriented_fb: true, oriented_rl: true },
            Edge { id: 6, oriented_ud: true, oriented_fb: true, oriented_rl: true },
            Edge { id: 7, oriented_ud: true, oriented_fb: true, oriented_rl: true },
            Edge { id: 8, oriented_ud: true, oriented_fb: true, oriented_rl: true },
            Edge { id: 9, oriented_ud: true, oriented_fb: true, oriented_rl: true },
            Edge { id: 10, oriented_ud: true, oriented_fb: true, oriented_rl: true },
            Edge { id: 11, oriented_ud: true, oriented_fb: true, oriented_rl: true },
        ];
        CubieCube { corners, edges }
    }
}

// ---------------------------------------------------------------------
// The corner-permutation coordinate: a Lehmer code.
// ---------------------------------------------------------------------
/// How many of the first `j` slots hold a corner with a larger identity
/// than slot `i`'s.
pub open spec fn higher_before(cs: Seq<Corner>, i: int, j: int) -> nat
    decreases j,
{
    if j <= 0 {
        0
    } else {
        higher_before(cs, i, j - 1) + (if cs[i].id < cs[j - 1].id {
            1nat
        } else {
            0nat
        })
    }
}

/// The Lehmer code of the corner permutation, summed over the first `i`
/// slots: each slot contributes its inversion count times a factorial.
pub open spec fn cp_partial(cs: Seq<Corner>, i: int) -> nat
    decreases i,
{
    if i <= 1 {
        0
    } else {
        cp_partial(cs, i - 1) + higher_before(cs, i - 1, i - 1) * fact((i - 1) as nat)
    }
}

/// The corner-permutation coordinate of a slot array.
pub open spec fn cp_value(cs: Seq<Corner>) -> nat {
    cp_partial(cs, 8)
}

proof fn lemma_higher_before_le(cs: Seq<Corner>, i: int, j: int)
    requires
        j >= 0,
    ensures
        higher_before(cs, i, j) <= j,
    decreases j,
{
    if j > 0 {
        lemma_higher_before_le(cs, i, j - 1);
    }
}

/// The Lehmer sum over `i` slots stays below `i` factorial.
proof fn lemma_cp_partial_bound(cs: Seq<Corner>, i: int)
    requires
        i >= 0,
    ensures
        cp_partial(cs, i) <= fact(i as nat) - 1 || i == 0,
        cp_partial(cs, i) < fact(i as nat) || i == 0,
    decreases i,
{
    if i > 1 {
        lemma_cp_partial_bound(cs, i - 1);
        lemma_higher_before_le(cs, i - 1, i - 1);
        let h = higher_before(cs, i - 1, i - 1);
        let f = fact((i - 1) as nat);
        assert(h * f <= (i - 1) * f) by (nonlinear_arith)
            requires
                h <= i - 1,
                f >= 0,
        ;
        assert(fact(i as nat) == i * f);
        assert((i - 1) * f + f == i * f) by (nonlinear_arith);
    } else if i == 1 {
        lemma_fact_values();
    }
}

/// The factorial of `i`, for the Lehmer coordinate's range.
fn fact_u16(i: usize) -> (r: u16)
    requires
        1 <= i <= 7,
    ensures
        r == fact(i as nat),
        r <= 5040,
{
    proof {
        lemma_fact_values();
    }
    match i {
        1 => 1,
        2 => 2,
        3 => 6,
        4 => 24,
        5 => 120,
        6 => 720,
        _ => 5040,
    }
}

/// The corner-permutation coordinate: a number below eight factorial.
#[derive(Copy, Clone, Debug, Eq, PartialEq, Hash, Structural)]
pub struct CPCoord(pub(crate) u16);

impl View for CPCoord {
    type V = nat;

    closed spec fn view(&self) -> nat {
        self.0 as nat
    }
}

impl CPCoord {
    /// The coordinate as an index.
    pub fn val(&self) -> (r: usize)
        ensures
            r == self@,
    {
        self.0 as usize
    }

    /// Encodes the corner permutation as a Lehmer code: slot `i`
    /// contributes `i` factorial for every earlier slot holding a larger
    /// identity.
    pub fn from_corners(value: &[Corner; 8]) -> (r: CPCoord)
        ensures
            r@ == cp_value(value@),
            r@ < 40320,
    {
        proof {
            lemma_fact_values();
        }
        let mut cp: u16 = 0;
        let mut i: usize = 1;
        while i < 8
            invariant
                1 <= i <= 8,
                cp as nat == cp_partial(value@, i as int),
            decreases 8 - i,
        {
            let mut higher: u16 = 0;
            let mut j: usize = 0;
            while j < i
                invariant
                    j <= i < 8,
                    higher as nat == higher_before(value@, i as int, j as int),
                    higher <= j,
                decreases i - j,
            {
                if value[i].id < value[j].id {
                    higher = higher + 1;
                }
                j = j + 1;
            }
            let f = fact_u16(i);
            proof {
                lemma_fact_values();
                lemma_cp_partial_bound(value@, i as int + 1);
                lemma_higher_before_le(value@, i as int, i as int);
                assert(higher as nat * f as nat <= 7 * 5040) by (nonlinear_arith)
                    requires
                        higher as nat <= 7,
                        f as nat <= 5040,
                ;
                assert(cp_partial(value@, i as int + 1) <= fact(8) - 1) by {
                    lemma_cp_partial_fact_mono(value@, i as int + 1);
                }
            }
            cp = cp + higher * f;
            i = i + 1;
        }
        let r = CPCoord(cp);
        proof {
            lemma_fact_values();
            lemma_cp_partial_bound(value@, 8);
        }
        r
    }
}

/// The factorial grows with its argument.
proof fn lemma_fact_mono(a: nat, b: nat)
    requires
        a <= b,
    ensures
        fact(a) <= fact(b),
    decreases b - a,
{
    if a < b {
        lemma_fact_mono(a, (b - 1) as nat);
        let f = fact((b - 1) as nat);
        assert(fact(b) == b * f);
        assert(b * f >= 1 * f) by (nonlinear_arith)
            requires
                b >= 1,
                f >= 0,
        ;
    }
}

/// A partial Lehmer sum stays below eight factorial.
proof fn lemma_cp_partial_fact_mono(cs: Seq<Corner>, i: int)
    requires
        0 <= i <= 8,
    ensures
        cp_partial(cs, i) <= fact(8) - 1,
{
    lemma_cp_partial_bound(cs, i);
    lemma_fact_mono(i as nat, 8);
    lemma_fact_values();
}

// ---------------------------------------------------------------------
// Unsorted four-of-eight coordinates: a combinadic index.
// ---------------------------------------------------------------------
/// How many of the first `k` flags are set.
pub open spec fn marked_before(fl: Seq<bool>, k: int) -> nat
    decreases k,
{
    if k <= 0 {
        0
    } else {
        marked_before(fl, k - 1) + (if fl[k - 1] {
            1nat
        } else {
            0nat
        })
    }
}

/// The combinadic index of the set flags among the first `k`: the `r`-th
/// set flag at position `p` contributes `p` choose `r`.
pub open spec fn comb_partial(fl: Seq<bool>, k: int) -> nat
    decreases k,
{
    if k <= 0 {
        0
    } else {
        comb_partial(fl, k - 1) + (if fl[k - 1] {
            binom((k - 1) as nat, marked_before(fl, k - 1) + 1)
        } else {
            0nat
        })
    }
}

proof fn lemma_marked_before_le(fl: Seq<bool>, k: int)
    requires
        k >= 0,
    ensures
        marked_before(fl, k) <= k,
    decreases k,
{
    if k > 0 {
        lemma_marked_before_le(fl, k - 1);
    }
}

/// The combinadic index over `k` positions stays below `k` choose the
/// number of set flags.
proof fn lemma_comb_partial_bound(fl: Seq<bool>, k: int)
    requires
        k >= 0,
    ensures
        comb_partial(fl, k) < binom(k as nat, marked_before(fl, k)),
    decreases k,
{
    if k == 0 {
        assert(binom(0, 0) == 1);
    } else {
        lemma_comb_partial_bound(fl, k - 1);
        let r = marked_before(fl, k - 1);
        if fl[k - 1] {
            assert(binom(k as nat, r + 1) == binom((k - 1) as nat, r) + binom((k - 1) as nat, r + 1));
        } else {
            lemma_binom_mono_step((k - 1) as nat, r);
        }
    }
}

/// Every combinadic index over eight positions is below seventy.
proof fn lemma_comb_lt_70(fl: Seq<bool>)
    ensures
        comb_partial(fl, 8) < 70,
{
    lemma_comb_partial_bound(fl, 8);
    lemma_marked_before_le(fl, 8);
    lemma_binom_row8(marked_before(fl, 8));
}

/// The combinadic index of the set flags among eight positions, split as
/// two blocks of four: the coordinate shared by the unsorted four-of-eight
/// encoders.
fn unsorted_coord_4_4(flags: &[bool; 8]) -> (r: u8)
    ensures
        r as nat == comb_partial(flags@, 8),
        r < 70,
{
    let mut s: u8 = 0;
    let mut cnt: u8 = 0;
    let mut k: usize = 0;
    while k < 8
        invariant
            k <= 8,
            cnt as nat == marked_before(flags@, k as int),
            s as nat == comb_partial(flags@, k as int),
        decreases 8 - k,
    {
        proof {
            lemma_marked_before_le(flags@, k as int);
        }
        if flags[k] {
            let bv = b(k as u8, cnt + 1);
            proof {
                lemma_binom_mono(k as nat, 8, cnt as nat + 1);
                lemma_binom_row8(cnt as nat + 1);
                assert(binom(k as nat, cnt as nat + 1) <= 70);
                if k == 0 || (k as u8) < cnt + 1 {
                    lemma_binom_above_diag(k as nat, cnt as nat + 1);
                }
                assert(bv as nat == binom(k as nat, cnt as nat + 1));
                lemma_comb_partial_bound(flags@, k as int + 1);
                lemma_marked_before_le(flags@, k as int + 1);
                lemma_binom_mono(k as nat + 1, 8, marked_before(flags@, k as int + 1));
                lemma_binom_row8(marked_before(flags@, k as int + 1));
            }
            s = s + bv;
            cnt = cnt + 1;
        }
        k = k + 1;
    }
    proof {
        lemma_comb_lt_70(flags@);
    }
    s
}

/// Whether an edge belongs to the slice between the front and back faces.
pub open spec fn is_fb_slice_edge(e: Edge) -> bool {
    e.id == 1 || e.id == 3 || e.id == 9 || e.id == 11
}

/// The front-back-slice membership flags, read from the eight positions
/// outside the up-down slice: the up and down layers' back/front positions
/// first, then their side positions.
pub open spec fn fbslice_flags(es: Seq<Edge>) -> Seq<bool> {
    seq![
        is_fb_slice_edge(es[0]),
        is_fb_slice_edge(es[2]),
        is_fb_slice_edge(es[8]),
        is_fb_slice_edge(es[10]),
        is_fb_slice_edge(es[1]),
        is_fb_slice_edge(es[3]),
        is_fb_slice_edge(es[9]),
        is_fb_slice_edge(es[11]),
    ]
}

/// The combinadic position coordinate of the front-back-slice edges,
/// assuming the up-down slice is already in place.
pub open spec fn fbslice_value(es: Seq<Edge>) -> nat {
    comb_partial(fbslice_flags(es), 8)
}

fn edge_is_fb_slice(e: &Edge) -> (r: bool)
    ensures
        r == is_fb_slice_edge(*e),
{
    e.id == 1 || e.id == 3 || e.id == 9 || e.id == 11
}

/// Which positions the front-back-slice edges occupy among the eight
/// positions outside the up-down slice.
#[derive(Copy, Clone, Debug, Eq, PartialEq, Hash, Structural)]
pub struct FBSliceUnsortedCoord(pub(crate) u8);

impl View for FBSliceUnsortedCoord {
    type V = nat;

    closed spec fn view(&self) -> nat {
        self.0 as nat
    }
}

impl FBSliceUnsortedCoord {
    /// The coordinate as an index.
    pub fn val(&self) -> (r: usize)
        ensures
            r == self@,
    {
        self.0 as usize
    }

    /// Encodes which of the eight non-up-down-slice positions hold
    /// front-back-slice edges.
    pub fn from_edges(value: &[Edge; 12]) -> (r: FBSliceUnsortedCoord)
        ensures
            r@ == fbslice_value(value@),
            r@ < 70,
    {
        let flags: [bool; 8] = [
            edge_is_fb_slice(&value[0]),
            edge_is_fb_slice(&value[2]),
            edge_is_fb_slice(&value[8]),
            edge_is_fb_slice(&value[10]),
            edge_is_fb_slice(&value[1]),
            edge_is_fb_slice(&value[3]),
            edge_is_fb_slice(&value[9]),
            edge_is_fb_slice(&value[11]),
        ];
        proof {
            assert(flags@ =~= fbslice_flags(value@));
        }
        FBSliceUnsortedCoord(unsorted_coord_4_4(&flags))
    }
}

/// Whether a corner belongs to the first half-turn tetrad orbit: the
/// orbit of the up-back-left corner, whose members are the even
/// identities (up-back-left, up-front-right, down-front-left,
/// down-back-right). Every half turn permutes each tetrad within itself.
pub open spec fn is_orbit_a(c: Corner) -> bool {
    c.id == 0 || c.id == 2 || c.id == 4 || c.id == 6
}

/// The orbit membership flags in position order.
pub open spec fn orbit_flags(cs: Seq<Corner>) -> Seq<bool> {
    seq![
        is_orbit_a(cs[0]),
        is_orbit_a(cs[1]),
        is_orbit_a(cs[2]),
        is_orbit_a(cs[3]),
        is_orbit_a(cs[4]),
        is_orbit_a(cs[5]),
        is_orbit_a(cs[6]),
        is_orbit_a(cs[7]),
    ]
}

/// The combinadic position coordinate of the first tetrad orbit's
/// corners.
pub open spec fn cp_orbit_value(cs: Seq<Corner>) -> nat {
    comb_partial(orbit_flags(cs), 8)
}

fn corner_is_orbit_a(c: &Corner) -> (r: bool)
    ensures
        r == is_orbit_a(*c),
{
    c.id == 0 || c.id == 2 || c.id == 4 || c.id == 6
}

/// Which positions the first tetrad orbit's corners occupy.
#[derive(Copy, Clone, Debug, Eq, PartialEq, Hash, Structural)]
pub struct CPOrbitUnsortedCoord(pub(crate) u8);

impl View for CPOrbitUnsortedCoord {
    type V = nat;

    closed spec fn view(&self) -> nat {
        self.0 as nat
    }
}

impl CPOrbitUnsortedCoord {
    /// The coordinate as an index.
    pub fn val(&self) -> (r: usize)
        ensures
            r == self@,
    {
        self.0 as usize
    }

    /// Encodes which corner positions hold the first tetrad orbit's
    /// corners.
    pub fn from_corners(value: &[Corner; 8]) -> (r: CPOrbitUnsortedCoord)
        ensures
            r@ == cp_orbit_value(value@),
            r@ < 70,
    {
        let flags: [bool; 8] = [
            corner_is_orbit_a(&value[0]),
            corner_is_orbit_a(&value[1]),
            corner_is_orbit_a(&value[2]),
            corner_is_orbit_a(&value[3]),
            corner_is_orbit_a(&value[4]),
            corner_is_orbit_a(&value[5]),
            corner_is_orbit_a(&value[6]),
            corner_is_orbit_a(&value[7]),
        ];
        proof {
            assert(flags@ =~= orbit_flags(value@));
        }
        CPOrbitUnsortedCoord(unsorted_coord_4_4(&flags))
    }
}

// ---------------------------------------------------------------------
// The permutation-parity coordinate.
// ---------------------------------------------------------------------
/// The number of inversions among the first `i` corner slots.
pub open spec fn inv_partial(cs: Seq<Corner>, i: int) -> nat
    decreases i,
{
    if i <= 0 {
        0
    } else {
        inv_partial(cs, i - 1) + higher_before(cs, i - 1, i - 1)
    }
}

/// Whether the corner permutation is odd: its inversion count modulo two.
pub open spec fn parity_value(cs: Seq<Corner>) -> bool {
    inv_partial(cs, 8) % 2 == 1
}

proof fn lemma_inv_partial_bound(cs: Seq<Corner>, i: int)
    requires
        0 <= i <= 8,
    ensures
        2 * inv_partial(cs, i) <= i * (i - 1),
        inv_partial(cs, i) <= 28,
    decreases i,
{
    if i > 0 {
        lemma_inv_partial_bound(cs, i - 1);
        lemma_higher_before_le(cs, i - 1, i - 1);
        assert((i - 1) * (i - 2) + 2 * (i - 1) == i * (i - 1)) by (nonlinear_arith);
        assert(i * (i - 1) <= 56) by (nonlinear_arith)
            requires
                0 < i <= 8,
        ;
    }
}

/// The parity of the corner permutation.
#[derive(Copy, Clone, Debug, Eq, PartialEq, Hash, Structural)]
pub struct ParityCoord(pub(crate) bool);

impl View for ParityCoord {
    type V = bool;

    closed spec fn view(&self) -> bool {
        self.0
    }
}

impl ParityCoord {
    /// The coordinate as an index: one for an odd permutation.
    pub fn val(&self) -> (r: usize)
        ensures
            r == (if self@ {
                1int
            } else {
                0int
            }),
    {
        if self.0 {
            1
        } else {
            0
        }
    }

    /// Encodes the corner permutation's parity by counting inversions.
    pub fn from_corners(value: &[Corner; 8]) -> (r: ParityCoord)
        ensures
            r@ == parity_value(value@),
    {
        let mut inv: u16 = 0;
        let mut i: usize = 0;
        while i < 8
            invariant
                i <= 8,
                inv as nat == inv_partial(value@, i as int),
                inv <= 28,
            decreases 8 - i,
        {
            let mut j: usize = 0;
            let mut higher: u16 = 0;
            while j < i
                invariant
                    j <= i < 8,
                    higher as nat == higher_before(value@, i as int, j as int),
                    higher <= j,
                decreases i - j,
            {
                if value[i].id < value[j].id {
                    higher = higher + 1;
                }
                j = j + 1;
            }
            proof {
                lemma_inv_partial_bound(value@, i as int + 1);
            }
            inv = inv + higher;
            i = i + 1;
        }
        ParityCoord(inv % 2 == 1)
    }
}

// ---------------------------------------------------------------------
// The tetrad-twist coordinate.
// ---------------------------------------------------------------------
/// The corners whose membership flag matches `want`, in position order.
pub open spec fn filter_orbit(cs: Seq<Corner>, want: bool) -> Seq<Corner>
    decreases cs.len(),
{
    if cs.len() == 0 {
        Seq::empty()
    } else {
        (if is_orbit_a(cs[0]) == want {
            seq![cs[0]]
        } else {
            Seq::empty()
        }) + filter_orbit(cs.skip(1), want)
    }
}

/// The corners rearranged orbit first: the first tetrad orbit's corners
/// in position order, then the second's.
pub open spec fn arranged_corners(cs: Seq<Corner>) -> Seq<Corner> {
    filter_orbit(cs, true) + filter_orbit(cs, false)
}

proof fn lemma_filter_orbit_push(cs: Seq<Corner>, c: Corner, want: bool)
    ensures
        filter_orbit(cs.push(c), want) == filter_orbit(cs, want) + (if is_orbit_a(c) == want {
            seq![c]
        } else {
            Seq::<Corner>::empty()
        }),
    decreases cs.len(),
{
    let tail: Seq<Corner> = if is_orbit_a(c) == want {
        seq![c]
    } else {
        Seq::empty()
    };
    if cs.len() == 0 {
        assert(cs.push(c) =~= seq![c]);
        assert(cs.push(c).skip(1) =~= Seq::<Corner>::empty());
        assert(filter_orbit(Seq::<Corner>::empty(), want) == Seq::<Corner>::empty());
        assert(cs.push(c)[0] == c);
        assert(filter_orbit(cs.push(c), want) == (if is_orbit_a(c) == want {
            seq![c]
        } else {
            Seq::<Corner>::empty()
        }) + filter_orbit(cs.push(c).skip(1), want));
        assert(filter_orbit(cs.push(c), want) =~= filter_orbit(cs, want) + tail);
    } else {
        assert(cs.push(c).skip(1) =~= cs.skip(1).push(c));
        lemma_filter_orbit_push(cs.skip(1), c, want);
        assert(cs.push(c)[0] == cs[0]);
        let head: Seq<Corner> = if is_orbit_a(cs[0]) == want {
            seq![cs[0]]
        } else {
            Seq::empty()
        };
        assert(filter_orbit(cs.push(c), want) == head + filter_orbit(cs.skip(1).push(c), want));
        assert(filter_orbit(cs, want) == head + filter_orbit(cs.skip(1), want));
        assert(filter_orbit(cs.push(c), want) =~= filter_orbit(cs, want) + tail);
    }
}

/// The two orbit filters together keep every corner exactly once.
proof fn lemma_filter_orbit_len(cs: Seq<Corner>)
    ensures
        filter_orbit(cs, true).len() + filter_orbit(cs, false).len() == cs.len(),
    decreases cs.len(),
{
    if cs.len() > 0 {
        lemma_filter_orbit_len(cs.skip(1));
    }
}

/// Filters the corners of one orbit, in position order.
fn filter_orbit_exec(value: &[Corner; 8], want: bool) -> (r: Vec<Corner>)
    ensures
        r@ == filter_orbit(value@, want),
{
    let mut r: Vec<Corner> = Vec::new();
    let mut i: usize = 0;
    proof {
        assert(value@.take(0) =~= Seq::<Corner>::empty());
        assert(filter_orbit(value@.take(0), want) == Seq::<Corner>::empty());
        assert(r@ =~= filter_orbit(value@.take(0), want));
    }
    while i < 8
        invariant
            i <= 8,
            r@ == filter_orbit(value@.take(i as int), want),
        decreases 8 - i,
    {
        proof {
            lemma_filter_orbit_push(value@.take(i as int), value@[i as int], want);
            assert(value@.take(i as int).push(value@[i as int]) =~= value@.take(i as int + 1));
        }
        if corner_is_orbit_a(&value[i]) == want {
            r.push(value[i]);
            proof {
                assert(filter_orbit(value@.take(i as int), want).push(value@[i as int])
                    =~= filter_orbit(value@.take(i as int), want) + seq![value@[i as int]]);
            }
        } else {
            proof {
                assert(filter_orbit(value@.take(i as int), want) + Seq::<Corner>::empty()
                    =~= filter_orbit(value@.take(i as int), want));
            }
        }
        i = i + 1;
    }
    proof {
        assert(value@.take(8) =~= value@);
    }
    r
}

/// Whether a corner came from the bottom layer.
pub open spec fn corner_high_bit(c: Corner) -> int {
    if c.id >= 4 {
        1
    } else {
        0
    }
}

/// The six-bit key of the tetrad-twist table: the bottom-layer flags of
/// the arranged corners, three per orbit, the fourth of each orbit being
/// determined by the other three.
pub open spec fn twist_mask(cs: Seq<Corner>) -> int {
    let a = arranged_corners(cs);
    corner_high_bit(a[0]) + 2 * corner_high_bit(a[1]) + 4 * corner_high_bit(a[2]) + 8
        * corner_high_bit(a[4]) + 16 * corner_high_bit(a[5]) + 32 * corner_high_bit(a[6])
}

/// The tetrad-twist table: a twist of zero, one or two for the keys that
/// an arranged corner permutation can produce, and a sentinel of three
/// for the rest.
pub open spec fn orbit_twist_lut() -> Seq<u8> {
    seq![
        3, 3, 3, 3, 3, 3, 3, 3,
        3, 0, 2, 1, 1, 2, 0, 3,
        3, 1, 0, 2, 2, 0, 1, 3,
        3, 2, 1, 0, 0, 1, 2, 3,
        3, 2, 1, 0, 0, 1, 2, 3,
        3, 1, 0, 2, 2, 0, 1, 3,
        3, 0, 2, 1, 1, 2, 0, 3,
        3, 3, 3, 3, 3, 3, 3, 3,
    ]
}

/// The tetrad twist of a corner permutation.
pub open spec fn orbit_twist_value(cs: Seq<Corner>) -> nat {
    orbit_twist_lut()[twist_mask(cs)] as nat
}

/// Whether the corner slots form a permutation, so that the permutation
/// coordinates mean what they say; every real cube's corners do.
pub fn is_corner_permutation(value: &[Corner; 8]) -> (r: bool)
    ensures
        r == corners_permutation(value@),
{
    let mut i: usize = 0;
    while i < 8
        invariant
            i <= 8,
            forall|k: int| 0 <= k < i ==> (#[trigger] value@[k]).id < 8,
            forall|k: int, j: int| 0 <= k < j < i ==> value@[k].id != value@[j].id,
        decreases 8 - i,
    {
        if value[i].id >= 8 {
            return false;
        }
        let mut j: usize = 0;
        while j < i
            invariant
                j <= i < 8,
                forall|k: int| 0 <= k < j ==> (#[trigger] value@[k]).id != value@[i as int].id,
            decreases i - j,
        {
            if value[j].id == value[i].id {
                return false;
            }
            j = j + 1;
        }
        i = i + 1;
    }
    true
}

/// The slots of a corner permutation: every identity is below eight and
/// no identity repeats — the data-model invariant of a real cube's
/// corners.
pub open spec fn corners_permutation(cs: Seq<Corner>) -> bool {
    &&& cs.len() == 8
    &&& forall|i: int| 0 <= i < 8 ==> (#[trigger] cs[i]).id < 8
    &&& forall|i: int, j: int| 0 <= i < j < 8 ==> cs[i].id != cs[j].id
}

/// How many slots hold the identity `v`.
pub open spec fn count_id(cs: Seq<Corner>, v: int) -> nat
    decreases cs.len(),
{
    if cs.len() == 0 {
        0
    } else {
        (if cs[0].id == v {
            1nat
        } else {
            0nat
        }) + count_id(cs.skip(1), v)
    }
}

/// How many slots hold a bottom-layer corner.
pub open spec fn high_count(cs: Seq<Corner>) -> nat
    decreases cs.len(),
{
    if cs.len() == 0 {
        0
    } else {
        (if cs[0].id >= 4 {
            1nat
        } else {
            0nat
        }) + high_count(cs.skip(1))
    }
}

proof fn lemma_count_absent(cs: Seq<Corner>, v: int)
    requires
        forall|i: int| 0 <= i < cs.len() ==> (#[trigger] cs[i]).id != v,
    ensures
        count_id(cs, v) == 0,
    decreases cs.len(),
{
    if cs.len() > 0 {
        assert(forall|i: int|
            0 <= i < cs.skip(1).len() ==> (#[trigger] cs.skip(1)[i]).id != v) by {
            assert(forall|i: int|
                0 <= i < cs.skip(1).len() ==> #[trigger] cs.skip(1)[i] == cs[i + 1]);
        }
        lemma_count_absent(cs.skip(1), v);
    }
}

proof fn lemma_count_distinct(cs: Seq<Corner>, v: int)
    requires
        forall|i: int, j: int| 0 <= i < j < cs.len() ==> cs[i].id != cs[j].id,
    ensures
        count_id(cs, v) <= 1,
    decreases cs.len(),
{
    if cs.len() > 0 {
        let rest = cs.skip(1);
        assert(forall|i: int| 0 <= i < rest.len() ==> #[trigger] rest[i] == cs[i + 1]);
        assert(forall|i: int, j: int|
            0 <= i < j < rest.len() ==> (#[trigger] rest[i]).id != (#[trigger] rest[j]).id);
        if cs[0].id == v {
            assert(forall|i: int| 0 <= i < rest.len() ==> (#[trigger] rest[i]).id != v) by {
                assert(forall|i: int|
                    0 <= i < rest.len() ==> cs[0].id != (#[trigger] cs[i + 1]).id);
            }
            lemma_count_absent(rest, v);
        } else {
            lemma_count_distinct(rest, v);
        }
    }
}

/// Every slot falls into exactly one identity bucket.
proof fn lemma_count_total(cs: Seq<Corner>)
    requires
        forall|i: int| 0 <= i < cs.len() ==> (#[trigger] cs[i]).id < 8,
    ensures
        count_id(cs, 0) + count_id(cs, 1) + count_id(cs, 2) + count_id(cs, 3) + count_id(cs, 4)
            + count_id(cs, 5) + count_id(cs, 6) + count_id(cs, 7) == cs.len(),
    decreases cs.len(),
{
    if cs.len() > 0 {
        let rest = cs.skip(1);
        assert(forall|i: int| 0 <= i < rest.len() ==> #[trigger] rest[i] == cs[i + 1]);
        lemma_count_total(rest);
    }
}

/// Bottom-layer corners are exactly those of the four largest
/// identities.
proof fn lemma_high_by_counts(cs: Seq<Corner>)
    requires
        forall|i: int| 0 <= i < cs.len() ==> (#[trigger] cs[i]).id < 8,
    ensures
        high_count(cs) == count_id(cs, 4) + count_id(cs, 5) + count_id(cs, 6) + count_id(cs, 7),
    decreases cs.len(),
{
    if cs.len() > 0 {
        let rest = cs.skip(1);
        assert(forall|i: int| 0 <= i < rest.len() ==> #[trigger] rest[i] == cs[i + 1]);
        lemma_high_by_counts(rest);
    }
}

/// Whether the identity `v` belongs to the first tetrad orbit.
pub open spec fn orbit_id(v: int) -> bool {
    v == 0 || v == 2 || v == 4 || v == 6
}

/// Filtering keeps every occurrence of an identity of the kept orbit and
/// none of the other orbit's.
proof fn lemma_count_filter(cs: Seq<Corner>, v: int, want: bool)
    ensures
        count_id(filter_orbit(cs, want), v) == (if orbit_id(v) == want {
            count_id(cs, v)
        } else {
            0nat
        }),
    decreases cs.len(),
{
    if cs.len() == 0 {
        assert(count_id(filter_orbit(cs, want), v) == 0);
    } else {
        lemma_count_filter(cs.skip(1), v, want);
        let rest = filter_orbit(cs.skip(1), want);
        if is_orbit_a(cs[0]) == want {
            assert(filter_orbit(cs, want) == seq![cs[0]] + rest);
            assert((seq![cs[0]] + rest)[0] == cs[0]);
            assert((seq![cs[0]] + rest).skip(1) =~= rest);
            if cs[0].id == v {
                assert(orbit_id(v) == want);
            }
        } else {
            assert(filter_orbit(cs, want) == Seq::<Corner>::empty() + rest);
            assert(Seq::<Corner>::empty() + rest =~= rest);
            if cs[0].id == v {
                assert(orbit_id(v) != want);
            }
        }
    }
}

/// Filtering keeps only identities below eight.
proof fn lemma_filter_ids_small(cs: Seq<Corner>, want: bool)
    requires
        forall|i: int| 0 <= i < cs.len() ==> (#[trigger] cs[i]).id < 8,
    ensures
        forall|i: int|
            0 <= i < filter_orbit(cs, want).len() ==> (#[trigger] filter_orbit(cs, want)[i]).id
                < 8,
    decreases cs.len(),
{
    if cs.len() > 0 {
        let rest0 = cs.skip(1);
        assert(forall|i: int| 0 <= i < rest0.len() ==> #[trigger] rest0[i] == cs[i + 1]);
        lemma_filter_ids_small(rest0, want);
        let rest = filter_orbit(rest0, want);
        if is_orbit_a(cs[0]) == want {
            assert(filter_orbit(cs, want) == seq![cs[0]] + rest);
            assert(forall|i: int|
                0 <= i < rest.len() ==> #[trigger] (seq![cs[0]] + rest)[i + 1] == rest[i]);
        } else {
            assert(filter_orbit(cs, want) == Seq::<Corner>::empty() + rest);
            assert(Seq::<Corner>::empty() + rest =~= rest);
        }
    }
}

/// The bottom-layer count of a four-slot sequence, slot by slot.
proof fn lemma_high_count_4(s: Seq<Corner>)
    requires
        s.len() == 4,
    ensures
        high_count(s) == corner_high_bit(s[0]) + corner_high_bit(s[1]) + corner_high_bit(s[2])
            + corner_high_bit(s[3]),
{
    let s1 = s.skip(1);
    let s2 = s1.skip(1);
    let s3 = s2.skip(1);
    let s4 = s3.skip(1);
    assert(s1[0] == s[1] && s1[1] == s[2] && s1[2] == s[3]);
    assert(s2[0] == s[2] && s2[1] == s[3]);
    assert(s3[0] == s[3]);
    assert(s4.len() == 0);
    assert(high_count(s4) == 0);
    assert(high_count(s3) == (if s3[0].id >= 4 {
        1nat
    } else {
        0nat
    }) + high_count(s4));
    assert(high_count(s2) == (if s2[0].id >= 4 {
        1nat
    } else {
        0nat
    }) + high_count(s3));
    assert(high_count(s1) == (if s1[0].id >= 4 {
        1nat
    } else {
        0nat
    }) + high_count(s2));
    assert(high_count(s) == (if s[0].id >= 4 {
        1nat
    } else {
        0nat
    }) + high_count(s1));
}

/// Every corner permutation has a real tetrad twist: each orbit holds
/// exactly two bottom-layer corners, so the six-bit key never reaches a
/// sentinel row or column of the twist table.
pub proof fn lemma_orbit_twist_real(cs: Seq<Corner>)
    requires
        corners_permutation(cs),
    ensures
        orbit_twist_value(cs) <= 2,
{
    let a = filter_orbit(cs, true);
    let b = filter_orbit(cs, false);
    lemma_count_total(cs);
    lemma_count_distinct(cs, 0);
    lemma_count_distinct(cs, 1);
    lemma_count_distinct(cs, 2);
    lemma_count_distinct(cs, 3);
    lemma_count_distinct(cs, 4);
    lemma_count_distinct(cs, 5);
    lemma_count_distinct(cs, 6);
    lemma_count_distinct(cs, 7);
    assert(forall|v: int| 0 <= v < 8 ==> #[trigger] count_id(cs, v) == 1) by {
        assert(count_id(cs, 0) == 1 && count_id(cs, 1) == 1 && count_id(cs, 2) == 1 && count_id(
            cs,
            3,
        ) == 1 && count_id(cs, 4) == 1 && count_id(cs, 5) == 1 && count_id(cs, 6) == 1 && count_id(
            cs,
            7,
        ) == 1);
    }
    lemma_count_filter(cs, 0, true);
    lemma_count_filter(cs, 1, true);
    lemma_count_filter(cs, 2, true);
    lemma_count_filter(cs, 3, true);
    lemma_count_filter(cs, 4, true);
    lemma_count_filter(cs, 5, true);
    lemma_count_filter(cs, 6, true);
    lemma_count_filter(cs, 7, true);
    lemma_count_filter(cs, 0, false);
    lemma_count_filter(cs, 1, false);
    lemma_count_filter(cs, 2, false);
    lemma_count_filter(cs, 3, false);
    lemma_count_filter(cs, 4, false);
    lemma_count_filter(cs, 5, false);
    lemma_count_filter(cs, 6, false);
    lemma_count_filter(cs, 7, false);
    lemma_filter_ids_small(cs, true);
    lemma_filter_ids_small(cs, false);
    lemma_count_total(a);
    lemma_count_total(b);
    assert(a.len() == 4);
    assert(b.len() == 4);
    lemma_high_by_counts(a);
    lemma_high_by_counts(b);
    assert(high_count(a) == 2);
    assert(high_count(b) == 2);
    lemma_high_count_4(a);
    lemma_high_count_4(b);
    let arr = arranged_corners(cs);
    assert(arr == a + b);
    assert(arr.len() == 8);
    assert(arr[0] == a[0] && arr[1] == a[1] && arr[2] == a[2] && arr[3] == a[3]);
    assert(arr[4] == b[0] && arr[5] == b[1] && arr[6] == b[2] && arr[7] == b[3]);
    let c0 = corner_high_bit(arr[0]);
    let c1 = corner_high_bit(arr[1]);
    let c2 = corner_high_bit(arr[2]);
    let c3 = corner_high_bit(arr[3]);
    let r0 = corner_high_bit(arr[4]);
    let r1 = corner_high_bit(arr[5]);
    let r2 = corner_high_bit(arr[6]);
    let r3 = corner_high_bit(arr[7]);
    assert(c0 + c1 + c2 + c3 == 2);
    assert(r0 + r1 + r2 + r3 == 2);
    let col = c0 + 2 * c1 + 4 * c2;
    let row = r0 + 2 * r1 + 4 * r2;
    assert(1 <= col <= 6);
    assert(1 <= row <= 6);
    assert(twist_mask(cs) == col + 8 * row);
    assert(orbit_twist_lut()[col + 8 * row] <= 2);
}

/// The relative twist of the half-turn tetrad orbits.
#[derive(Copy, Clone, Debug, Eq, PartialEq, Hash, Structural)]
pub struct CPOrbitTwistCoord(pub(crate) u8);

impl View for CPOrbitTwistCoord {
    type V = nat;

    closed spec fn view(&self) -> nat {
        self.0 as nat
    }
}

impl CPOrbitTwistCoord {
    /// The coordinate as an index.
    pub fn val(&self) -> (r: usize)
        ensures
            r == self@,
    {
        self.0 as usize
    }

    /// Encodes the relative twist of the two tetrad orbits: the corners
    /// are arranged orbit first, and six bottom-layer flags key the twist
    /// table. On a real corner permutation the twist is real, never the
    /// sentinel.
    pub fn from_corners(value: &[Corner; 8]) -> (r: CPOrbitTwistCoord)
        ensures
            r@ == orbit_twist_value(value@),
            r@ <= 3,
            corners_permutation(value@) ==> r@ <= 2,
    {
        proof {
            if corners_permutation(value@) {
                lemma_orbit_twist_real(value@);
            }
        }
        let mut arranged = filter_orbit_exec(value, true);
        let mut second = filter_orbit_exec(value, false);
        arranged.append(&mut second);
        proof {
            assert(arranged@ == arranged_corners(value@));
            lemma_filter_orbit_len(value@);
            assert(arranged@.len() == 8);
        }
        let mut mask: usize = 0;
        if arranged[0].id >= 4 {
            mask = mask + 1;
        }
        if arranged[1].id >= 4 {
            mask = mask + 2;
        }
        if arranged[2].id >= 4 {
            mask = mask + 4;
        }
        if arranged[4].id >= 4 {
            mask = mask + 8;
        }
        if arranged[5].id >= 4 {
            mask = mask + 16;
        }
        if arranged[6].id >= 4 {
            mask = mask + 32;
        }
        proof {
            assert(mask == twist_mask(value@));
        }
        let lut: [u8; 64] = [
            3, 3, 3, 3, 3, 3, 3, 3,
            3, 0, 2, 1, 1, 2, 0, 3,
            3, 1, 0, 2, 2, 0, 1, 3,
            3, 2, 1, 0, 0, 1, 2, 3,
            3, 2, 1, 0, 0, 1, 2, 3,
            3, 1, 0, 2, 2, 0, 1, 3,
            3, 0, 2, 1, 1, 2, 0, 3,
            3, 3, 3, 3, 3, 3, 3, 3,
        ];
        proof {
            assert(lut@ =~= orbit_twist_lut());
            assert(forall|i: int| 0 <= i < 64 ==> #[trigger] orbit_twist_lut()[i] <= 3);
        }
        CPOrbitTwistCoord(lut[mask])
    }
}

// ---------------------------------------------------------------------
// Composite coordinates for the half-turn-reduction stage.
// ---------------------------------------------------------------------
/// The range of the pure composite coordinate.
pub const PURE_HTRDRUD_SIZE: usize = 70 * 70 * 6;

/// The range of the impure composite coordinate.
pub const IMPURE_HTRDRUD_SIZE: usize = 70 * 40320;

/// The composite coordinate the pipeline uses.
pub const HTRDRUD_SIZE: usize = IMPURE_HTRDRUD_SIZE;

/// The composite coordinate the pipeline uses.
pub type HTRDRUDCoord = ImpureHTRDRUDCoord;

/// The mixed-radix value of the pure composite: parity, then tetrad
/// twist, then orbit positions, then slice-edge positions.
pub open spec fn pure_htrdrud_value(corners: Seq<Corner>, edges: Seq<Edge>) -> nat {
    (if parity_value(corners) {
        1nat
    } else {
        0nat
    }) + orbit_twist_value(corners) * 2 + cp_orbit_value(corners) * 2 * 3 + fbslice_value(edges) * 2
        * 3 * 70
}

/// The mixed-radix value of the impure composite: corner permutation,
/// then slice-edge positions.
pub open spec fn impure_htrdrud_value(corners: Seq<Corner>, edges: Seq<Edge>) -> nat {
    cp_value(corners) + fbslice_value(edges) * 40320
}

/// The pure composite coordinate of the half-turn-reduction stage, over a
/// domino-reduced cube: parity, tetrad twist, orbit positions and
/// slice-edge positions combined.
#[derive(Copy, Clone, Debug, Eq, PartialEq, Hash, Structural)]
pub struct PureHTRDRUDCoord(pub(crate) u16);

impl View for PureHTRDRUDCoord {
    type V = nat;

    closed spec fn view(&self) -> nat {
        self.0 as nat
    }
}

impl PureHTRDRUDCoord {
    /// The coordinate as an index.
    pub fn val(&self) -> (r: usize)
        ensures
            r == self@,
    {
        self.0 as usize
    }

    /// Encodes a domino-reduced cube for the pure half-turn-reduction
    /// table. The corners must form a permutation, as every real cube's
    /// do; the tetrad twist is then real, never the sentinel.
    pub fn from_cube(cube: &CubieCube) -> (r: PureHTRDRUDCoord)
        requires
            corners_permutation(cube.corners@),
        ensures
            r@ == pure_htrdrud_value(cube.corners@, cube.edges@),
            r@ < PURE_HTRDRUD_SIZE,
    {
        proof {
            lemma_orbit_twist_real(cube.corners@);
        }
        let parity = ParityCoord::from_corners(&cube.corners);
        let twist = CPOrbitTwistCoord::from_corners(&cube.corners);
        let orbit = CPOrbitUnsortedCoord::from_corners(&cube.corners);
        let fbslice = FBSliceUnsortedCoord::from_edges(&cube.edges);
        let p: u16 = if parity.0 {
            1
        } else {
            0
        };
        let val: u16 = p + (twist.0 as u16) * 2 + (orbit.0 as u16) * 2 * 3 + (fbslice.0 as u16) * 2
            * 3 * 70;
        PureHTRDRUDCoord(val)
    }
}

/// The impure composite coordinate of the half-turn-reduction stage, over
/// a domino-reduced cube: corner permutation and slice-edge positions
/// combined.
#[derive(Copy, Clone, Debug, Eq, PartialEq, Hash, Structural)]
pub struct ImpureHTRDRUDCoord(pub(crate) u32);

impl View for ImpureHTRDRUDCoord {
    type V = nat;

    closed spec fn view(&self) -> nat {
        self.0 as nat
    }
}

impl ImpureHTRDRUDCoord {
    /// The coordinate as an index.
    pub fn val(&self) -> (r: usize)
        ensures
            r == self@,
    {
        self.0 as usize
    }

    /// Encodes a domino-reduced cube for the impure half-turn-reduction
    /// table.
    pub fn from_cube(cube: &CubieCube) -> (r: ImpureHTRDRUDCoord)
        ensures
            r@ == impure_htrdrud_value(cube.corners@, cube.edges@),
            r@ < IMPURE_HTRDRUD_SIZE,
    {
        let cp = CPCoord::from_corners(&cube.corners);
        let fbslice = FBSliceUnsortedCoord::from_edges(&cube.edges);
        let val: u32 = (cp.0 as u32) + (fbslice.0 as u32) * 40320;
        ImpureHTRDRUDCoord(val)
    }
}

} // verus!

