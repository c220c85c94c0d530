//! The solver's provisioning and composition layer: which pruning tables
//! a pipeline needs, the validation of a pipeline's stage order against
//! the accepted transitions, the expansion of trigger micro-stages, the
//! construction of the configured steps, and the composition of the
//! stages' sub-solutions into the pipeline's solution stream. This build
//! of the library carries the finish stage's constructors only, so a
//! stage order is validated and expanded in full, but a pipeline with a
//! search stage is reported as not available rather than built.

use vstd::prelude::*;
use vstd::string::*;
use crate::algs::{steps_view, AlgView, Algorithm, Solution, SolutionView};
use crate::config::{cfg_views, lemma_cfg_views_push};
use crate::finish::{fin_options, from_step_config_fr, from_step_config_fr_leave_slice};
use crate::steps::{
    DefaultStepOptions, FRFinishPruningTable, Step333, StepConfig, StepConfigView, StepKind,
};

verus! {

/// The pruning tables a solve may need, each present once generated.
pub struct PruningTables {
    pub eo: bool,
    pub dr: bool,
    pub htr: bool,
    pub fr: bool,
    pub fr_leave_slice: bool,
    pub fr_finish: Option<FRFinishPruningTable>,
}

impl PruningTables {
    /// No tables generated yet.
    pub fn new() -> (r: PruningTables)
        ensures
            r.eo == false,
            r.dr == false,
            r.htr == false,
            r.fr == false,
            r.fr_leave_slice == false,
            r.fr_finish is None,
    {
        PruningTables {
            eo: false,
            dr: false,
            htr: false,
            fr: false,
            fr_leave_slice: false,
            fr_finish: None,
        }
    }

    /// Generates the edge-orientation table.
    pub fn gen_eo(&mut self)
        ensures
            final(self).eo == true,
            final(self).dr == old(self).dr,
            final(self).htr == old(self).htr,
            final(self).fr == old(self).fr,
            final(self).fr_leave_slice == old(self).fr_leave_slice,
            final(self).fr_finish is Some <==> old(self).fr_finish is Some,
    {
        self.eo = true;
    }

    /// Generates the domino-reduction table.
    pub fn gen_dr(&mut self)
        ensures
            final(self).dr == true,
            final(self).eo == old(self).eo,
            final(self).htr == old(self).htr,
            final(self).fr == old(self).fr,
            final(self).fr_leave_slice == old(self).fr_leave_slice,
            final(self).fr_finish is Some <==> old(self).fr_finish is Some,
    {
        self.dr = true;
    }

    /// Generates the half-turn-reduction table.
    pub fn gen_htr(&mut self)
        ensures
            final(self).htr == true,
            final(self).eo == old(self).eo,
            final(self).dr == old(self).dr,
            final(self).fr == old(self).fr,
            final(self).fr_leave_slice == old(self).fr_leave_slice,
            final(self).fr_finish is Some <==> old(self).fr_finish is Some,
    {
        self.htr = true;
    }

    /// Generates the floppy-reduction table.
    pub fn gen_fr(&mut self)
        ensures
            final(self).fr == true,
            final(self).eo == old(self).eo,
            final(self).dr == old(self).dr,
            final(self).htr == old(self).htr,
            final(self).fr_leave_slice == old(self).fr_leave_slice,
            final(self).fr_finish is Some <==> old(self).fr_finish is Some,
    {
        self.fr = true;
    }

    /// Generates the floppy-reduction table that leaves the slice.
    pub fn gen_fr_leave_slice(&mut self)
        ensures
            final(self).fr_leave_slice == true,
            final(self).eo == old(self).eo,
            final(self).dr == old(self).dr,
            final(self).htr == old(self).htr,
            final(self).fr == old(self).fr,
            final(self).fr_finish is Some <==> old(self).fr_finish is Some,
    {
        self.fr_leave_slice = true;
    }

    /// Generates the finish table.
    pub fn gen_fr_finish(&mut self)
        ensures
            final(self).fr_finish is Some,
            final(self).eo == old(self).eo,
            final(self).dr == old(self).dr,
            final(self).htr == old(self).htr,
            final(self).fr == old(self).fr,
            final(self).fr_leave_slice == old(self).fr_leave_slice,
    {
        self.fr_finish = Some(FRFinishPruningTable::new());
    }

    /// The finish table, if it has been generated.
    pub fn fr_finish(&self) -> (r: Option<&FRFinishPruningTable>)
        ensures
            r is Some <==> self.fr_finish is Some,
            r matches Some(t) ==> self.fr_finish == Some(*t),
    {
        match &self.fr_finish {
            Some(t) => Some(t),
            None => None,
        }
    }
}

/// Whether one of the first `upto` configurations has kind `k`.
#[verifier::opaque]
pub open spec fn any_kind(steps: Seq<StepConfig>, upto: int, k: StepKind) -> bool {
    exists|j: int| 0 <= j < upto && (#[trigger] steps[j]).kind == k
}

/// Whether, among the first `upto` configurations, a finish follows a
/// floppy reduction.
#[verifier::opaque]
pub open spec fn any_fin_after_fr(steps: Seq<StepConfig>, upto: int) -> bool {
    exists|j: int|
        1 <= j < upto && (#[trigger] steps[j]).kind == StepKind::FIN && (steps[j - 1].kind
            == StepKind::FR || steps[j - 1].kind == StepKind::FRLS)
}

proof fn lemma_any_kind_none(steps: Seq<StepConfig>)
    ensures
        forall|k: StepKind| !(#[trigger] any_kind(steps, 0, k)),
        !any_fin_after_fr(steps, 0),
{
    reveal(any_kind);
    reveal(any_fin_after_fr);
}

proof fn lemma_any_kind_step(steps: Seq<StepConfig>, i: int, k: StepKind)
    requires
        0 <= i < steps.len(),
    ensures
        any_kind(steps, i + 1, k) == (any_kind(steps, i, k) || steps[i].kind == k),
{
    reveal(any_kind);
    if any_kind(steps, i + 1, k) {
        let j = choose|j: int| 0 <= j < i + 1 && (#[trigger] steps[j]).kind == k;
        if j < i {
            assert(any_kind(steps, i, k));
        }
    }
    if any_kind(steps, i, k) {
        let j = choose|j: int| 0 <= j < i && (#[trigger] steps[j]).kind == k;
        assert(0 <= j < i + 1 && steps[j].kind == k);
    }
    if steps[i].kind == k {
        assert(0 <= i < i + 1 && steps[i].kind == k);
    }
}

#[verifier::rlimit(50)]
proof fn lemma_any_fin_step(steps: Seq<StepConfig>, i: int)
    requires
        0 <= i < steps.len(),
    ensures
        any_fin_after_fr(steps, i + 1) == (any_fin_after_fr(steps, i) || (i >= 1 && steps[i].kind
            == StepKind::FIN && (steps[i - 1].kind == StepKind::FR || steps[i - 1].kind
            == StepKind::FRLS))),
{
    reveal(any_fin_after_fr);
    if any_fin_after_fr(steps, i + 1) {
        let j = choose|j: int|
            1 <= j < i + 1 && (#[trigger] steps[j]).kind == StepKind::FIN && (steps[j - 1].kind
                == StepKind::FR || steps[j - 1].kind == StepKind::FRLS);
        if j < i {
            assert(any_fin_after_fr(steps, i));
        }
    }
    if any_fin_after_fr(steps, i) {
        let j = choose|j: int|
            1 <= j < i && (#[trigger] steps[j]).kind == StepKind::FIN && (steps[j - 1].kind
                == StepKind::FR || steps[j - 1].kind == StepKind::FRLS);
        assert(1 <= j < i + 1 && steps[j].kind == StepKind::FIN && (steps[j - 1].kind
            == StepKind::FR || steps[j - 1].kind == StepKind::FRLS));
    }
}

/// Generates the pruning tables the configured pipeline needs: one table
/// per stage kind that occurs, and the finish table where a finish stage
/// follows a floppy reduction.
#[verifier::rlimit(100)]
pub fn gen_tables(steps: &Vec<StepConfig>, tables: &mut PruningTables)
    ensures
        final(tables).eo == (old(tables).eo || any_kind(steps@, steps@.len() as int, StepKind::EO)),
        final(tables).dr == (old(tables).dr || any_kind(steps@, steps@.len() as int, StepKind::DR)),
        final(tables).htr == (old(tables).htr || any_kind(
            steps@,
            steps@.len() as int,
            StepKind::HTR,
        )),
        final(tables).fr == (old(tables).fr || any_kind(steps@, steps@.len() as int, StepKind::FR)),
        final(tables).fr_leave_slice == (old(tables).fr_leave_slice || any_kind(
            steps@,
            steps@.len() as int,
            StepKind::FRLS,
        )),
        final(tables).fr_finish is Some <==> (old(tables).fr_finish is Some || any_fin_after_fr(
            steps@,
            steps@.len() as int,
        )),
{
    let ghost orig = *tables;
    let mut i: usize = 0;
    proof {
        lemma_any_kind_none(steps@);
    }
    while i < steps.len()
        invariant
            i <= steps@.len(),
            tables.eo == (orig.eo || any_kind(steps@, i as int, StepKind::EO)),
            tables.dr == (orig.dr || any_kind(steps@, i as int, StepKind::DR)),
            tables.htr == (orig.htr || any_kind(steps@, i as int, StepKind::HTR)),
            tables.fr == (orig.fr || any_kind(steps@, i as int, StepKind::FR)),
            tables.fr_leave_slice == (orig.fr_leave_slice || any_kind(
                steps@,
                i as int,
                StepKind::FRLS,
            )),
            tables.fr_finish is Some <==> (orig.fr_finish is Some || any_fin_after_fr(
                steps@,
                i as int,
            )),
        decreases steps@.len() - i,
    {
        proof {
            lemma_any_kind_step(steps@, i as int, StepKind::EO);
            lemma_any_kind_step(steps@, i as int, StepKind::DR);
            lemma_any_kind_step(steps@, i as int, StepKind::HTR);
            lemma_any_kind_step(steps@, i as int, StepKind::FR);
            lemma_any_kind_step(steps@, i as int, StepKind::FRLS);
            lemma_any_fin_step(steps@, i as int);
        }
        match steps[i].kind {
            StepKind::EO => tables.gen_eo(),
            StepKind::DR => tables.gen_dr(),
            StepKind::HTR => tables.gen_htr(),
            StepKind::FR => tables.gen_fr(),
            StepKind::FRLS => tables.gen_fr_leave_slice(),
            StepKind::FIN => {
                if i >= 1 {
                    let prev = steps[i - 1].kind;
                    if prev == StepKind::FR || prev == StepKind::FRLS {
                        tables.gen_fr_finish();
                    }
                }
            },
            StepKind::RZP => {},
        }
        i = i + 1;
    }
}

/// The name of a stage kind.
pub open spec fn kind_name_chars(k: StepKind) -> Seq<char> {
    match k {
        StepKind::EO => "EO"@,
        StepKind::RZP => "RZP"@,
        StepKind::DR => "DR"@,
        StepKind::HTR => "HTR"@,
        StepKind::FR => "FR"@,
        StepKind::FRLS => "FRLS"@,
        StepKind::FIN => "FIN"@,
    }
}

fn kind_name(k: StepKind) -> (r: String)
    ensures
        r@ == kind_name_chars(k),
{
    match k {
        StepKind::EO => String::from_str("EO"),
        StepKind::RZP => String::from_str("RZP"),
        StepKind::DR => String::from_str("DR"),
        StepKind::HTR => String::from_str("HTR"),
        StepKind::FR => String::from_str("FR"),
        StepKind::FRLS => String::from_str("FRLS"),
        StepKind::FIN => String::from_str("FIN"),
    }
}

/// Whether stage `kind` may follow `prev` in a pipeline. A pipeline
/// starts with edge orientation; edge orientation is followed by domino
/// reduction, directly or through the trigger micro-stage; domino
/// reduction by half-turn reduction; half-turn reduction by one of the
/// floppy reductions; and a floppy reduction by the finish.
pub open spec fn stage_transition_allowed(prev: Option<StepKind>, kind: StepKind) -> bool {
    match (prev, kind) {
        (None, StepKind::EO) => true,
        (Some(StepKind::EO), StepKind::RZP) => true,
        (Some(StepKind::EO), StepKind::DR) => true,
        (Some(StepKind::RZP), StepKind::DR) => true,
        (Some(StepKind::DR), StepKind::HTR) => true,
        (Some(StepKind::HTR), StepKind::FR) => true,
        (Some(StepKind::HTR), StepKind::FRLS) => true,
        (Some(StepKind::FR), StepKind::FIN) => true,
        (Some(StepKind::FRLS), StepKind::FIN) => true,
        _ => false,
    }
}

/// Whether stage `kind` may follow `prev` in a pipeline.
pub fn stage_order_allowed(prev: Option<StepKind>, kind: StepKind) -> (r: bool)
    ensures
        r == stage_transition_allowed(prev, kind),
{
    match (prev, kind) {
        (None, StepKind::EO) => true,
        (Some(StepKind::EO), StepKind::RZP) => true,
        (Some(StepKind::EO), StepKind::DR) => true,
        (Some(StepKind::RZP), StepKind::DR) => true,
        (Some(StepKind::DR), StepKind::HTR) => true,
        (Some(StepKind::HTR), StepKind::FR) => true,
        (Some(StepKind::HTR), StepKind::FRLS) => true,
        (Some(StepKind::FR), StepKind::FIN) => true,
        (Some(StepKind::FRLS), StepKind::FIN) => true,
        _ => false,
    }
}

/// The stage before position `i` of a pipeline, if any.
pub open spec fn prev_kind(kinds: Seq<StepKind>, i: int) -> Option<StepKind> {
    if i == 0 {
        None
    } else {
        Some(kinds[i - 1])
    }
}

/// The first position whose stage does not follow its predecessor, if
/// any.
pub open spec fn first_order_violation(kinds: Seq<StepKind>, i: int) -> Option<int>
    decreases kinds.len() - i,
{
    if i < 0 || i >= kinds.len() {
        None
    } else if !stage_transition_allowed(prev_kind(kinds, i), kinds[i]) {
        Some(i)
    } else {
        first_order_violation(kinds, i + 1)
    }
}

proof fn lemma_first_violation_skip(kinds: Seq<StepKind>, j: int)
    requires
        0 <= j <= kinds.len(),
        forall|k: int|
            0 <= k < j ==> #[trigger] stage_transition_allowed(prev_kind(kinds, k), kinds[k]),
    ensures
        first_order_violation(kinds, 0) == first_order_violation(kinds, j),
    decreases j,
{
    if j > 0 {
        lemma_first_violation_skip(kinds, j - 1);
    }
}

/// Validates a pipeline's stage order against the accepted transitions:
/// the sequence is accepted when every stage follows its predecessor
/// legally, and otherwise the first offending pair is returned.
pub fn validate_stage_order(kinds: &Vec<StepKind>) -> (r: Result<(), (Option<StepKind>, StepKind)>)
    ensures
        r is Ok <==> first_order_violation(kinds@, 0) is None,
        r matches Err(p) ==> {
            &&& first_order_violation(kinds@, 0) matches Some(j)
            &&& p == (prev_kind(kinds@, first_order_violation(kinds@, 0).unwrap()), kinds@[
                first_order_violation(kinds@, 0).unwrap()
            ])
        },
{
    let mut i: usize = 0;
    while i < kinds.len()
        invariant
            i <= kinds@.len(),
            forall|k: int|
                0 <= k < i ==> #[trigger] stage_transition_allowed(prev_kind(kinds@, k), kinds@[k]),
        decreases kinds@.len() - i,
    {
        let prev: Option<StepKind> = if i == 0 {
            None
        } else {
            Some(kinds[i - 1])
        };
        proof {
            assert(prev == prev_kind(kinds@, i as int));
        }
        if !stage_order_allowed(prev, kinds[i]) {
            proof {
                lemma_first_violation_skip(kinds@, i as int);
                assert(first_order_violation(kinds@, i as int) == Some(i as int));
            }
            return Err((prev, kinds[i]));
        }
        i = i + 1;
    }
    proof {
        lemma_first_violation_skip(kinds@, kinds@.len() as int);
        assert(first_order_violation(kinds@, kinds@.len() as int) is None);
    }
    Ok(())
}

/// Whether a parameter list carries domino-reduction triggers.
pub open spec fn params_contain_triggers(ps: Seq<(Seq<char>, Seq<char>)>) -> bool {
    exists|k: int| 0 <= k < ps.len() && (#[trigger] ps[k]).0 == "triggers"@
}

/// Whether two strings hold the same characters.
fn str_eq_lit(s: &str, pat: &str) -> (r: bool)
    ensures
        r == (s@ == pat@),
{
    let n = pat.unicode_len();
    if s.unicode_len() != n {
        proof {
            assert(s@.len() != pat@.len());
        }
        return false;
    }
    let mut i: usize = 0;
    while i < n
        invariant
            i <= n,
            n == pat@.len(),
            n == s@.len(),
            forall|k: int| 0 <= k < i ==> s@[k] == pat@[k],
        decreases n - i,
    {
        if s.get_char(i) != pat.get_char(i) {
            return false;
        }
        i = i + 1;
    }
    proof {
        assert(s@ =~= pat@);
    }
    true
}

/// Whether a configuration's parameters carry domino-reduction triggers.
fn params_have_triggers(params: &Vec<(String, String)>) -> (r: bool)
    ensures
        r == params_contain_triggers(params@.map_values(|p: (String, String)| (p.0@, p.1@))),
{
    let ghost ps = params@.map_values(|p: (String, String)| (p.0@, p.1@));
    let mut i: usize = 0;
    while i < params.len()
        invariant
            i <= params@.len(),
            ps == params@.map_values(|p: (String, String)| (p.0@, p.1@)),
            ps.len() == params@.len(),
            forall|k: int| 0 <= k < i ==> (#[trigger] ps[k]).0 != "triggers"@,
        decreases params@.len() - i,
    {
        if str_eq_lit(params[i].0.as_str(), "triggers") {
            proof {
                assert(ps[i as int].0 == "triggers"@);
            }
            return true;
        }
        i = i + 1;
    }
    false
}

/// The bare micro-stage configuration that a triggered domino reduction
/// prepends, carrying the reduction's quality.
pub open spec fn rzp_view(quality: nat) -> StepConfigView {
    StepConfigView {
        kind: StepKind::RZP,
        substeps: None,
        min: None,
        max: None,
        absolute_min: None,
        absolute_max: None,
        step_limit: None,
        quality,
        niss: None,
        params: Seq::empty(),
    }
}

/// The trigger-expanded configuration list, from position `i` on: a
/// domino reduction that follows edge orientation and carries a
/// `triggers` parameter gains a trigger micro-stage before it, with the
/// reduction's quality; everything else passes through.
pub open spec fn expand_views(views: Seq<StepConfigView>, i: int) -> Seq<StepConfigView>
    decreases views.len() - i,
{
    if i < 0 || i >= views.len() {
        Seq::empty()
    } else {
        (if i >= 1 && views[i - 1].kind == StepKind::EO && views[i].kind == StepKind::DR
            && params_contain_triggers(views[i].params) {
            seq![rzp_view(views[i].quality), views[i]]
        } else {
            seq![views[i]]
        }) + expand_views(views, i + 1)
    }
}

/// Expands the trigger micro-stages of a pipeline: after edge
/// orientation, a domino reduction with a `triggers` parameter is
/// preceded by a bare trigger micro-stage that takes the reduction's
/// quality.
pub fn expand_triggers(steps: Vec<StepConfig>) -> (r: Vec<StepConfig>)
    ensures
        cfg_views(r@) == expand_views(cfg_views(steps@), 0),
{
    let ghost origsteps = steps@;
    let ghost vorig = cfg_views(steps@);
    let mut steps = steps;
    let mut out: Vec<StepConfig> = Vec::new();
    let mut prev: Option<StepKind> = None;
    let ghost mut i: int = 0;
    proof {
        assert(steps@ =~= origsteps.skip(0));
        assert(cfg_views(out@) =~= Seq::<StepConfigView>::empty());
        assert(cfg_views(out@) + expand_views(vorig, 0) =~= expand_views(vorig, 0));
    }
    while steps.len() > 0
        invariant
            0 <= i <= origsteps.len(),
            steps@ == origsteps.skip(i),
            vorig == cfg_views(origsteps),
            vorig.len() == origsteps.len(),
            i == 0 ==> prev is None,
            i >= 1 ==> prev == Some(vorig[i - 1].kind),
            expand_views(vorig, 0) == cfg_views(out@) + expand_views(vorig, i),
        decreases steps@.len(),
    {
        let config = steps.remove(0);
        proof {
            assert(origsteps.skip(i)[0] == origsteps[i]);
            assert(origsteps.skip(i).subrange(1, origsteps.skip(i).len() as int) =~= origsteps.skip(
                i + 1,
            ));
            assert(config@ == vorig[i]);
        }
        let ghost before = cfg_views(out@);
        let triggered = match prev {
            Some(StepKind::EO) => config.kind == StepKind::DR && params_have_triggers(
                &config.params,
            ),
            _ => false,
        };
        proof {
            assert(triggered == (i >= 1 && vorig[i - 1].kind == StepKind::EO && vorig[i].kind
                == StepKind::DR && params_contain_triggers(vorig[i].params)));
        }
        if triggered {
            let mut rzp = StepConfig::new(StepKind::RZP);
            rzp.quality = config.quality;
            proof {
                assert(rzp@ =~= rzp_view(vorig[i].quality));
            }
            let ghost mid = out@;
            out.push(rzp);
            proof {
                lemma_cfg_views_push(mid, out@[out@.len() - 1]);
                assert(out@ == mid.push(out@[out@.len() - 1]));
            }
        }
        let kind = config.kind;
        let ghost mid2 = out@;
        out.push(config);
        proof {
            lemma_cfg_views_push(mid2, out@[out@.len() - 1]);
            assert(out@ == mid2.push(out@[out@.len() - 1]));
            if triggered {
                assert(cfg_views(out@) =~= before + seq![rzp_view(vorig[i].quality), vorig[i]]);
            } else {
                assert(cfg_views(out@) =~= before + seq![vorig[i]]);
            }
            assert(expand_views(vorig, 0) =~= cfg_views(out@) + expand_views(vorig, i + 1));
            i = i + 1;
        }
        prev = Some(kind);
    }
    proof {
        assert(i == origsteps.len());
        assert(expand_views(vorig, i) == Seq::<StepConfigView>::empty());
        assert(cfg_views(out@) =~= expand_views(vorig, 0));
    }
    out
}

/// The stage kinds whose step constructors this build of the library
/// holds: the finish stage's; the search stages' constructors live
/// outside the given sources.
pub open spec fn constructor_available(k: StepKind) -> bool {
    k == StepKind::FIN
}

/// The first position of an expanded pipeline whose stage this build
/// cannot construct, if any.
pub open spec fn first_unavailable(views: Seq<StepConfigView>, i: int) -> Option<int>
    decreases views.len() - i,
{
    if i < 0 || i >= views.len() {
        None
    } else if !constructor_available(views[i].kind) {
        Some(i)
    } else {
        first_unavailable(views, i + 1)
    }
}

proof fn lemma_first_unavailable_skip(views: Seq<StepConfigView>, j: int)
    requires
        0 <= j <= views.len(),
        forall|k: int| 0 <= k < j ==> constructor_available((#[trigger] views[k]).kind),
    ensures
        first_unavailable(views, 0) == first_unavailable(views, j),
    decreases j,
{
    if j > 0 {
        lemma_first_unavailable_skip(views, j - 1);
    }
}

/// The error that names an unaccepted stage order: a bad first stage is
/// named alone, a bad pair names both stages.
pub open spec fn order_error_chars(prev: Option<StepKind>, kind: StepKind) -> Seq<char> {
    match prev {
        None => kind_name_chars(kind) + " is not supported as a first step"@,
        Some(x) => "Unsupported step order "@ + kind_name_chars(x) + " > "@ + kind_name_chars(
            kind,
        ),
    }
}

/// The error that names a stage whose constructor this build lacks.
pub open spec fn unavailable_error_chars(kind: StepKind) -> Seq<char> {
    kind_name_chars(kind) + " is not available in this build"@
}

/// Truncates a stage's stream of sub-solutions after its step limit, as
/// the composed pipeline does between stages; no limit keeps them all.
pub fn limit_solutions(solutions: Vec<Solution>, limit: Option<usize>) -> (r: Vec<Solution>)
    ensures
        match limit {
            None => r@ == solutions@,
            Some(l) => r@ == solutions@.take(if l <= solutions@.len() {
                l as int
            } else {
                solutions@.len() as int
            }),
        },
{
    match limit {
        None => solutions,
        Some(l) => {
            let mut s = solutions;
            s.truncate(l);
            proof {
                assert(s@ =~= solutions@.take(if l <= solutions@.len() {
                    l as int
                } else {
                    solutions@.len() as int
                }));
            }
            s
        },
    }
}

/// Builds the configured steps of a pipeline. The stage order is
/// validated against the accepted transitions, an unaccepted order
/// naming the offending stage or pair; the trigger micro-stages are then
/// expanded in, and the expanded stages are constructed in order. This
/// build of the library carries the finish stage's constructors only, so
/// the first search stage of a valid pipeline is reported as not
/// available, named; only the empty pipeline builds in full.
#[verifier::loop_isolation(false)]
#[verifier::rlimit(100)]
pub fn build_steps<'a>(steps: Vec<StepConfig>, tables: &'a PruningTables) -> (r: Result<
    Vec<(Step333<'a>, DefaultStepOptions)>,
    String,
>)
    ensures
        ({
            let kinds = steps@.map_values(|c: StepConfig| c.kind);
            let expanded = expand_views(cfg_views(steps@), 0);
            match first_order_violation(kinds, 0) {
                Some(j) => r matches Err(msg) && msg@ == order_error_chars(
                    prev_kind(kinds, j),
                    kinds[j],
                ),
                None => match first_unavailable(expanded, 0) {
                    Some(u) => r matches Err(msg) && msg@ == unavailable_error_chars(
                        expanded[u].kind,
                    ),
                    None => r matches Ok(v) && v@.len() == expanded.len() && (forall|u: int|
                        0 <= u < expanded.len() ==> (#[trigger] v@[u]).0.kind == StepKind::FIN
                            && v@[u].0.is_major && v@[u].1 == fin_options(expanded[u])),
                },
            }
        }),
{
    let ghost kindsv = steps@.map_values(|c: StepConfig| c.kind);
    let ghost vorig = cfg_views(steps@);
    let mut kinds: Vec<StepKind> = Vec::new();
    let mut i: usize = 0;
    while i < steps.len()
        invariant
            i <= steps@.len(),
            kinds@.len() == i,
            forall|k: int| 0 <= k < i ==> #[trigger] kinds@[k] == steps@[k].kind,
        decreases steps@.len() - i,
    {
        kinds.push(steps[i].kind);
        i = i + 1;
    }
    proof {
        assert(kinds@ =~= kindsv);
    }
    match validate_stage_order(&kinds) {
        Err((prev, kind)) => {
            match prev {
                None => {
                    let mut msg = kind_name(kind);
                    msg.append(" is not supported as a first step");
                    return Err(msg);
                },
                Some(x) => {
                    let mut msg = String::from_str("Unsupported step order ");
                    let xn = kind_name(x);
                    msg.append(xn.as_str());
                    msg.append(" > ");
                    let yn = kind_name(kind);
                    msg.append(yn.as_str());
                    return Err(msg);
                },
            }
        },
        Ok(()) => {},
    }
    let ghost nonempty = steps@.len() > 0;
    proof {
        if nonempty {
            assert(first_order_violation(kindsv, 0) is None);
            assert(stage_transition_allowed(prev_kind(kindsv, 0), kindsv[0]));
            assert(kindsv[0] == StepKind::EO);
        }
    }
    let mut rest = expand_triggers(steps);
    let ghost ev = expand_views(vorig, 0);
    let ghost eorig = rest@;
    proof {
        assert(cfg_views(eorig) == ev);
        assert(cfg_views(eorig).len() == eorig.len());
        if nonempty {
            assert(ev[0] == vorig[0]);
            assert(vorig[0].kind == kindsv[0]);
            assert(ev[0].kind == StepKind::EO);
        }
    }
    let mut out: Vec<(Step333<'a>, DefaultStepOptions)> = Vec::new();
    let mut prev: Option<StepKind> = None;
    let ghost mut u: int = 0;
    proof {
        assert(rest@ =~= eorig.skip(0));
    }
    while rest.len() > 0
        invariant
            0 <= u <= eorig.len(),
            rest@ == eorig.skip(u),
            out@.len() == u,
            forall|w: int| 0 <= w < u ==> constructor_available((#[trigger] cfg_views(eorig)[w]).kind),
            forall|w: int|
                0 <= w < u ==> (#[trigger] out@[w]).0.kind == StepKind::FIN && out@[w].0.is_major
                    && out@[w].1 == fin_options(cfg_views(eorig)[w]),
        decreases rest@.len(),
    {
        let config = rest.remove(0);
        proof {
            assert(eorig.skip(u)[0] == eorig[u]);
            assert(eorig.skip(u).subrange(1, eorig.skip(u).len() as int) =~= eorig.skip(u + 1));
            assert(config@ == cfg_views(eorig)[u]);
        }
        let kind = config.kind;
        match kind {
            StepKind::FIN => {
                proof {
                    // A valid pipeline starts with edge orientation, whose
                    // constructor this build lacks, so construction stops
                    // before ever reaching a finish configuration.
                    if u == 0 {
                        assert(ev[0].kind == StepKind::EO);
                        assert(cfg_views(eorig)[0].kind == StepKind::FIN);
                    } else {
                        assert(constructor_available(cfg_views(eorig)[0].kind));
                        assert(cfg_views(eorig)[0].kind == StepKind::FIN);
                        assert(ev[0].kind == StepKind::EO);
                    }
                    assert(false);
                }
                match tables.fr_finish() {
                    Some(t) => {
                        let built = if prev == Some(StepKind::FRLS) {
                            from_step_config_fr_leave_slice(t, config)
                        } else {
                            from_step_config_fr(t, config)
                        };
                        match built {
                            Ok(p) => out.push(p),
                            Err(e) => {
                                return Err(e);
                            },
                        }
                    },
                    None => {
                        return Err(String::new());
                    },
                }
            },
            _ => {
                proof {
                    lemma_first_unavailable_skip(cfg_views(eorig), u);
                    assert(first_unavailable(cfg_views(eorig), u) == Some(u));
                }
                let mut msg = kind_name(kind);
                msg.append(" is not available in this build");
                return Err(msg);
            },
        }
        prev = Some(kind);
        proof {
            u = u + 1;
        }
    }
    proof {
        assert(u == eorig.len());
        lemma_first_unavailable_skip(cfg_views(eorig), u);
        assert(first_unavailable(cfg_views(eorig), eorig.len() as int) is None);
    }
    Ok(out)
}


/// The views of a solution list.
pub open spec fn sol_views(v: Seq<Solution>) -> Seq<SolutionView> {
    v.map_values(|s: Solution| s@)
}

proof fn lemma_sol_views_push(v: Seq<Solution>, s: Solution)
    ensures
        sol_views(v.push(s)) == sol_views(v).push(s@),
{
    assert forall|i: int| 0 <= i < v.len() + 1 implies sol_views(v.push(s))[i] == sol_views(
        v,
    ).push(s@)[i] by {
        if i < v.len() {
            assert(v.push(s)[i] == v[i]);
        } else {
            assert(v.push(s)[i] == s);
        }
    }
    assert(sol_views(v.push(s)) =~= sol_views(v).push(s@));
}

/// The empty solution that seeds the pipeline.
pub open spec fn empty_solution_view() -> SolutionView {
    SolutionView { steps: Seq::empty(), ends_on_normal: true }
}

/// A solution extended by one stage's named algorithm, exactly as
/// recording the step does.
pub open spec fn extend_one(prev: SolutionView, name: Seq<char>, alg: AlgView) -> SolutionView {
    SolutionView {
        steps: prev.steps.push((name, alg)),
        ends_on_normal: if alg.normal.len() == 0 {
            false
        } else if alg.inverse.len() == 0 {
            true
        } else {
            !prev.ends_on_normal
        },
    }
}

/// One incoming solution extended by each of a stage's sub-solutions, in
/// order.
pub open spec fn extend_with(
    prev: SolutionView,
    subs: Seq<(Seq<char>, AlgView)>,
) -> Seq<SolutionView>
    decreases subs.len(),
{
    if subs.len() == 0 {
        Seq::empty()
    } else {
        seq![extend_one(prev, subs[0].0, subs[0].1)] + extend_with(prev, subs.skip(1))
    }
}

/// Every incoming solution extended by each of a stage's sub-solutions:
/// the incoming solutions in order, each with the sub-solutions in order.
pub open spec fn extend_all(
    acc: Seq<SolutionView>,
    subs: Seq<(Seq<char>, AlgView)>,
) -> Seq<SolutionView>
    decreases acc.len(),
{
    if acc.len() == 0 {
        Seq::empty()
    } else {
        extend_with(acc[0], subs) + extend_all(acc.skip(1), subs)
    }
}

/// A stage's output, cut after its step limit.
pub open spec fn take_limit(s: Seq<SolutionView>, limit: Option<usize>) -> Seq<SolutionView> {
    match limit {
        None => s,
        Some(l) => s.take(
            if l <= s.len() {
                l as int
            } else {
                s.len() as int
            },
        ),
    }
}

/// The composed pipeline from stage `i` on: each stage extends the
/// incoming solutions by its sub-solutions and is cut after its step
/// limit.
pub open spec fn compose_stages(
    subs: Seq<Seq<(Seq<char>, AlgView)>>,
    limits: Seq<Option<usize>>,
    i: int,
    acc: Seq<SolutionView>,
) -> Seq<SolutionView>
    decreases subs.len() - i,
{
    if i < 0 || i >= subs.len() {
        acc
    } else {
        compose_stages(subs, limits, i + 1, take_limit(extend_all(acc, subs[i]), limits[i]))
    }
}

/// The views of the per-stage sub-solution lists.
pub open spec fn stages_views(
    v: Seq<Vec<(String, Algorithm)>>,
) -> Seq<Seq<(Seq<char>, AlgView)>> {
    v.map_values(|w: Vec<(String, Algorithm)>| steps_view(w@))
}

/// A stream of solutions, yielded in order.
pub struct SolutionIterator {
    solutions: Vec<Solution>,
    pos: usize,
}

/// The mathematical value of a solution stream: its solutions and the
/// position of the next one.
pub ghost struct SolutionIteratorView {
    pub solutions: Seq<SolutionView>,
    pub pos: int,
}

impl View for SolutionIterator {
    type V = SolutionIteratorView;

    closed spec fn view(&self) -> SolutionIteratorView {
        SolutionIteratorView { solutions: sol_views(self.solutions@), pos: self.pos as int }
    }
}

impl SolutionIterator {
    /// The next solution of the stream, if one is left.
    pub fn next(&mut self) -> (r: Option<Solution>)
        ensures
            old(self)@.pos < old(self)@.solutions.len() ==> {
                &&& r matches Some(s) && s@ == old(self)@.solutions[old(self)@.pos]
                &&& final(self)@.solutions == old(self)@.solutions
                &&& final(self)@.pos == old(self)@.pos + 1
            },
            old(self)@.pos >= old(self)@.solutions.len() ==> r is None && final(self)@ == old(
                self,
            )@,
    {
        if self.pos < self.solutions.len() {
            let s = self.solutions[self.pos].clone();
            proof {
                assert(sol_views(self.solutions@)[self.pos as int] == self.solutions@[
                    self.pos as int
                ]@);
            }
            self.pos = self.pos + 1;
            Some(s)
        } else {
            None
        }
    }
}

/// Composes the stages' sub-solutions into the pipeline's solution
/// stream: the pipeline is seeded with one empty solution, each stage
/// extends every incoming solution by each of its sub-solutions in order,
/// and each stage's output is cut after its step limit. The sub-solutions
/// stand for what each stage's search yields; the search engine itself
/// lies outside this library.
pub fn solve_steps<'a>(
    steps: &Vec<(Step333<'a>, DefaultStepOptions)>,
    stage_solutions: &Vec<Vec<(String, Algorithm)>>,
) -> (r: SolutionIterator)
    requires
        stage_solutions@.len() == steps@.len(),
    ensures
        r@.pos == 0,
        r@.solutions == compose_stages(
            stages_views(stage_solutions@),
            steps@.map_values(|p: (Step333<'a>, DefaultStepOptions)| p.1.step_limit),
            0,
            seq![empty_solution_view()],
        ),
{
    let ghost subsv = stages_views(stage_solutions@);
    let ghost limitsv = steps@.map_values(|p: (Step333<'a>, DefaultStepOptions)| p.1.step_limit);
    let mut acc: Vec<Solution> = Vec::new();
    acc.push(Solution::new());
    proof {
        assert(acc@[0]@ == empty_solution_view());
        assert(sol_views(acc@) =~= seq![empty_solution_view()]);
    }
    let mut si: usize = 0;
    while si < steps.len()
        invariant
            si <= steps@.len(),
            subsv == stages_views(stage_solutions@),
            limitsv == steps@.map_values(|p: (Step333<'a>, DefaultStepOptions)| p.1.step_limit),
            subsv.len() == steps@.len(),
            limitsv.len() == steps@.len(),
            stage_solutions@.len() == steps@.len(),
            compose_stages(subsv, limitsv, 0, seq![empty_solution_view()]) == compose_stages(
                subsv,
                limitsv,
                si as int,
                sol_views(acc@),
            ),
        decreases steps@.len() - si,
    {
        let subs = &stage_solutions[si];
        let ghost subv = steps_view(subs@);
        proof {
            assert(subsv[si as int] == subv);
        }
        let mut next_acc: Vec<Solution> = Vec::new();
        let mut pi: usize = 0;
        proof {
            assert(sol_views(acc@).skip(0) =~= sol_views(acc@));
            assert(sol_views(next_acc@) =~= Seq::<SolutionView>::empty());
            assert(extend_all(sol_views(acc@), subv) =~= sol_views(next_acc@) + extend_all(
                sol_views(acc@).skip(0),
                subv,
            ));
        }
        while pi < acc.len()
            invariant
                pi <= acc@.len(),
                si < steps@.len(),
                subsv.len() == steps@.len(),
                subv == subsv[si as int],
                subv == steps_view(subs@),
                subv.len() == subs@.len(),
                sol_views(acc@).len() == acc@.len(),
                extend_all(sol_views(acc@), subv) == sol_views(next_acc@) + extend_all(
                    sol_views(acc@).skip(pi as int),
                    subv,
                ),
            decreases acc@.len() - pi,
        {
            let ghost accv = sol_views(acc@);
            proof {
                assert(accv.skip(pi as int)[0] == accv[pi as int]);
                assert(accv.skip(pi as int).skip(1) =~= accv.skip(pi as int + 1));
                assert(extend_all(accv.skip(pi as int), subv) == extend_with(
                    accv[pi as int],
                    subv,
                ) + extend_all(accv.skip(pi as int + 1), subv));
            }
            let ghost built0 = sol_views(next_acc@);
            let mut ki: usize = 0;
            proof {
                assert(subv.skip(0) =~= subv);
            }
            while ki < subs.len()
                invariant
                    ki <= subs@.len(),
                    pi < acc@.len(),
                    subv == steps_view(subs@),
                    subv.len() == subs@.len(),
                    sol_views(acc@).len() == acc@.len(),
                    sol_views(next_acc@) == built0 + extend_with(
                        sol_views(acc@)[pi as int],
                        subv,
                    ).take(ki as int),
                decreases subs@.len() - ki,
            {
                let ghost accv = sol_views(acc@);
                let mut extended = acc[pi].clone();
                let name = subs[ki].0.clone();
                let alg = subs[ki].1.clone();
                extended.add_step(name, alg);
                proof {
                    assert(subv[ki as int] == (subs@[ki as int].0@, subs@[ki as int].1@));
                    assert(extended@ == extend_one(accv[pi as int], subv[ki as int].0, subv[
                        ki as int
                    ].1));
                    lemma_extend_with_index(accv[pi as int], subv, ki as int);
                }
                let ghost mid = next_acc@;
                next_acc.push(extended);
                proof {
                    lemma_sol_views_push(mid, next_acc@[next_acc@.len() - 1]);
                    assert(next_acc@ == mid.push(next_acc@[next_acc@.len() - 1]));
                    assert(extend_with(accv[pi as int], subv).take(ki as int + 1)
                        =~= extend_with(accv[pi as int], subv).take(ki as int).push(
                        extend_with(accv[pi as int], subv)[ki as int],
                    ));
                    assert(sol_views(next_acc@) =~= built0 + extend_with(
                        accv[pi as int],
                        subv,
                    ).take(ki as int + 1));
                }
                ki = ki + 1;
            }
            proof {
                lemma_extend_with_len(sol_views(acc@)[pi as int], subv);
                assert(extend_with(sol_views(acc@)[pi as int], subv).take(subv.len() as int)
                    =~= extend_with(sol_views(acc@)[pi as int], subv));
                assert(sol_views(next_acc@) =~= built0 + extend_with(
                    sol_views(acc@)[pi as int],
                    subv,
                ));
                assert(extend_all(sol_views(acc@), subv) =~= sol_views(next_acc@) + extend_all(
                    sol_views(acc@).skip(pi as int + 1),
                    subv,
                ));
            }
            pi = pi + 1;
        }
        proof {
            assert(sol_views(acc@).skip(acc@.len() as int) =~= Seq::<SolutionView>::empty());
            assert(extend_all(Seq::<SolutionView>::empty(), subv) == Seq::<SolutionView>::empty());
            assert(sol_views(next_acc@) + Seq::<SolutionView>::empty() =~= sol_views(next_acc@));
            assert(sol_views(next_acc@) == extend_all(sol_views(acc@), subv));
        }
        let limit = steps[si].1.step_limit;
        proof {
            assert(limitsv[si as int] == limit);
        }
        let ghost before = sol_views(next_acc@);
        acc = limit_solutions(next_acc, limit);
        proof {
            assert forall|w: int| 0 <= w < acc@.len() implies sol_views(acc@)[w] == take_limit(
                before,
                limit,
            )[w] by {
            }
            assert(sol_views(acc@) =~= take_limit(before, limit));
        }
        si = si + 1;
    }
    proof {
        assert(compose_stages(subsv, limitsv, steps@.len() as int, sol_views(acc@)) == sol_views(
            acc@,
        ));
    }
    let r = SolutionIterator { solutions: acc, pos: 0 };
    r
}

/// The extensions of one solution, element by element.
proof fn lemma_extend_with_index(prev: SolutionView, subs: Seq<(Seq<char>, AlgView)>, k: int)
    requires
        0 <= k < subs.len(),
    ensures
        extend_with(prev, subs).len() == subs.len(),
        extend_with(prev, subs)[k] == extend_one(prev, subs[k].0, subs[k].1),
    decreases subs.len(),
{
    lemma_extend_with_len(prev, subs);
    if k > 0 {
        lemma_extend_with_index(prev, subs.skip(1), k - 1);
        assert(subs.skip(1)[k - 1] == subs[k]);
        assert(extend_with(prev, subs)[k] == extend_with(prev, subs.skip(1))[k - 1]);
    } else {
        assert(extend_with(prev, subs)[0] == extend_one(prev, subs[0].0, subs[0].1));
    }
}

/// One solution gains one extension per sub-solution.
proof fn lemma_extend_with_len(prev: SolutionView, subs: Seq<(Seq<char>, AlgView)>)
    ensures
        extend_with(prev, subs).len() == subs.len(),
    decreases subs.len(),
{
    if subs.len() > 0 {
        lemma_extend_with_len(prev, subs.skip(1));
    }
}

} // verus!
