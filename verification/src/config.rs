//! Assembly of a solve pipeline's stage configurations from per-stage
//! selections: which stages are enabled, their length bounds, their
//! scramble-swap policies, their axes and the domino-reduction triggers.

use vstd::prelude::*;
use vstd::string::*;
use crate::cube::CubeAxis;
use crate::finish::fin_ls_name;
use crate::steps::{NissSwitchType, StepConfig, StepConfigView, StepKind};

verus! {

/// The edge-orientation stage's selections.
pub struct EOConfigInput {
    pub enabled: bool,
    pub min: u8,
    pub max: u8,
    pub niss: NissSwitchType,
    pub variants: Vec<CubeAxis>,
}

/// The selections of the micro-stage before a triggered domino
/// reduction.
pub struct RZPConfigInput {
    pub min: u8,
    pub max: u8,
    pub niss: NissSwitchType,
}

/// The domino-reduction stage's selections.
pub struct DRConfigInput {
    pub enabled: bool,
    pub min: u8,
    pub max: u8,
    pub niss: NissSwitchType,
    pub variants: Vec<CubeAxis>,
    pub triggers: Vec<String>,
}

/// The half-turn-reduction stage's selections.
pub struct HTRConfigInput {
    pub enabled: bool,
    pub min: u8,
    pub max: u8,
    pub niss: NissSwitchType,
    pub variants: Vec<CubeAxis>,
}

/// The floppy-reduction stage's selections.
pub struct FRConfigInput {
    pub enabled: bool,
    pub min: u8,
    pub max: u8,
    pub niss: NissSwitchType,
    pub variants: Vec<CubeAxis>,
}

/// The finish stage's selections.
pub struct FinishConfigInput {
    pub enabled: bool,
    pub min: u8,
    pub max: u8,
    pub leave_slice: bool,
}

/// The names of the selected axes.
pub open spec fn axis_names(vs: Seq<CubeAxis>) -> Seq<Seq<char>> {
    vs.map_values(|a: CubeAxis| fin_ls_name(a))
}

/// The strings joined by commas.
pub open spec fn join_commas(ts: Seq<Seq<char>>) -> Seq<char>
    decreases ts.len(),
{
    if ts.len() == 0 {
        Seq::empty()
    } else if ts.len() == 1 {
        ts[0]
    } else {
        ts[0] + seq![','] + join_commas(ts.skip(1))
    }
}

/// The views of a configuration list.
pub open spec fn cfg_views(v: Seq<StepConfig>) -> Seq<StepConfigView> {
    v.map_values(|x: StepConfig| x@)
}

/// The configuration of an enabled stage with substeps and a default
/// quality of ten thousand.
pub open spec fn stage_config_view(
    kind: StepKind,
    substeps: Option<Seq<Seq<char>>>,
    min: u8,
    max: u8,
    niss: NissSwitchType,
    params: Seq<(Seq<char>, Seq<char>)>,
) -> StepConfigView {
    StepConfigView {
        kind,
        substeps,
        min: Some(min),
        max: Some(max),
        absolute_min: None,
        absolute_max: None,
        step_limit: None,
        quality: 10000,
        niss: Some(niss),
        params,
    }
}

/// The configurations the edge-orientation selections contribute.
pub open spec fn expected_eo(eo: EOConfigInput) -> Seq<StepConfigView> {
    if eo.enabled {
        seq![
            stage_config_view(
                StepKind::EO,
                Some(axis_names(eo.variants@)),
                eo.min,
                eo.max,
                eo.niss,
                Seq::empty(),
            ),
        ]
    } else {
        Seq::empty()
    }
}

/// The configurations the domino-reduction selections contribute: with
/// triggers, the micro-stage is prepended and the triggers travel as a
/// parameter.
pub open spec fn expected_dr(rzp: RZPConfigInput, dr: DRConfigInput) -> Seq<StepConfigView> {
    if dr.enabled {
        if dr.triggers@.len() > 0 {
            seq![
                stage_config_view(StepKind::RZP, None, rzp.min, rzp.max, rzp.niss, Seq::empty()),
                stage_config_view(
                    StepKind::DR,
                    Some(axis_names(dr.variants@)),
                    dr.min,
                    dr.max,
                    dr.niss,
                    seq![
                        (
                            "triggers"@,
                            join_commas(dr.triggers@.map_values(|s: String| s@)),
                        ),
                    ],
                ),
            ]
        } else {
            seq![
                stage_config_view(
                    StepKind::DR,
                    Some(axis_names(dr.variants@)),
                    dr.min,
                    dr.max,
                    dr.niss,
                    Seq::empty(),
                ),
            ]
        }
    } else {
        Seq::empty()
    }
}

/// The configuration the half-turn-reduction selections contribute.
pub open spec fn expected_htr(htr: HTRConfigInput) -> Seq<StepConfigView> {
    if htr.enabled {
        seq![
            stage_config_view(
                StepKind::HTR,
                Some(axis_names(htr.variants@)),
                htr.min,
                htr.max,
                htr.niss,
                Seq::empty(),
            ),
        ]
    } else {
        Seq::empty()
    }
}

/// The configuration the floppy-reduction selections contribute: the
/// stage leaves the slice when the finish is configured to.
pub open spec fn expected_fr(fr: FRConfigInput, fin: FinishConfigInput) -> Seq<StepConfigView> {
    if fr.enabled {
        seq![
            stage_config_view(
                if fin.leave_slice {
                    StepKind::FRLS
                } else {
                    StepKind::FR
                },
                Some(axis_names(fr.variants@)),
                fr.min,
                fr.max,
                fr.niss,
                Seq::empty(),
            ),
        ]
    } else {
        Seq::empty()
    }
}

/// The configuration the finish selections contribute: always over all
/// three axes, never swapping scrambles.
pub open spec fn expected_fin(fin: FinishConfigInput) -> Seq<StepConfigView> {
    if fin.enabled {
        seq![
            stage_config_view(
                StepKind::FIN,
                Some(seq!["ud"@, "fb"@, "lr"@]),
                fin.min,
                fin.max,
                NissSwitchType::Never,
                Seq::empty(),
            ),
        ]
    } else {
        Seq::empty()
    }
}

/// The full pipeline a set of selections configures, in stage order.
pub open spec fn expected_configs(
    eo: EOConfigInput,
    rzp: RZPConfigInput,
    dr: DRConfigInput,
    htr: HTRConfigInput,
    fr: FRConfigInput,
    fin: FinishConfigInput,
) -> Seq<StepConfigView> {
    expected_eo(eo) + expected_dr(rzp, dr) + expected_htr(htr) + expected_fr(fr, fin)
        + expected_fin(fin)
}

pub(crate) proof fn lemma_cfg_views_push(v: Seq<StepConfig>, c: StepConfig)
    ensures
        cfg_views(v.push(c)) == cfg_views(v).push(c@),
{
    assert forall|i: int| 0 <= i < v.len() + 1 implies cfg_views(v.push(c))[i] == cfg_views(
        v,
    ).push(c@)[i] by {
        if i < v.len() {
            assert(v.push(c)[i] == v[i]);
        } else {
            assert(v.push(c)[i] == c);
        }
    }
    assert(cfg_views(v.push(c)) =~= cfg_views(v).push(c@));
}

/// The names of the selected axes, as the stage configurations carry
/// them.
pub fn variants_to_string(variants: Vec<CubeAxis>) -> (r: Vec<String>)
    ensures
        r@.map_values(|s: String| s@) == axis_names(variants@),
{
    let mut r: Vec<String> = Vec::new();
    let mut i: usize = 0;
    while i < variants.len()
        invariant
            i <= variants@.len(),
            r@.len() == i,
            forall|k: int| 0 <= k < i ==> (#[trigger] r@[k])@ == fin_ls_name(variants@[k]),
        decreases variants@.len() - i,
    {
        let name = match variants[i] {
            CubeAxis::Y => String::from_str("ud"),
            CubeAxis::Z => String::from_str("fb"),
            CubeAxis::X => String::from_str("lr"),
        };
        proof {
            assert(name@ == fin_ls_name(variants@[i as int]));
        }
        let ghost prev = r@;
        r.push(name);
        proof {
            assert(r@ == prev.push(name));
        }
        i = i + 1;
    }
    proof {
        assert forall|k: int| 0 <= k < variants@.len() implies r@.map_values(|s: String| s@)[k]
            == #[trigger] axis_names(variants@)[k] by {
            assert(r@.map_values(|s: String| s@)[k] == r@[k]@);
        }
        assert(r@.map_values(|s: String| s@) =~= axis_names(variants@));
    }
    r
}

proof fn lemma_join_commas_push(ts: Seq<Seq<char>>, t: Seq<char>)
    ensures
        join_commas(ts.push(t)) == (if ts.len() == 0 {
            t
        } else {
            join_commas(ts) + seq![','] + t
        }),
    decreases ts.len(),
{
    if ts.len() == 0 {
        assert(ts.push(t)[0] == t);
        assert(join_commas(ts.push(t)) == t);
    } else {
        assert(ts.push(t).skip(1) =~= ts.skip(1).push(t));
        lemma_join_commas_push(ts.skip(1), t);
        assert(ts.push(t)[0] == ts[0]);
        if ts.len() == 1 {
            assert(ts.skip(1).len() == 0);
            assert(join_commas(ts.push(t)) =~= join_commas(ts) + seq![','] + t);
        } else {
            assert(join_commas(ts.push(t)) =~= join_commas(ts) + seq![','] + t);
        }
    }
}

/// Joins the trigger names with commas.
fn join_triggers(ts: &Vec<String>) -> (r: String)
    ensures
        r@ == join_commas(ts@.map_values(|s: String| s@)),
{
    let ghost tv = ts@.map_values(|s: String| s@);
    let mut r = String::new();
    let mut i: usize = 0;
    proof {
        assert(tv.take(0) =~= Seq::<Seq<char>>::empty());
        assert(r@ =~= join_commas(tv.take(0)));
    }
    while i < ts.len()
        invariant
            i <= ts@.len(),
            tv == ts@.map_values(|s: String| s@),
            tv.len() == ts@.len(),
            r@ == join_commas(tv.take(i as int)),
        decreases ts@.len() - i,
    {
        if i > 0 {
            proof {
                reveal_strlit(",");
                assert(","@ =~= seq![',']);
            }
            r.append(",");
        }
        r.append(ts[i].as_str());
        proof {
            assert(tv[i as int] == ts@[i as int]@);
            lemma_join_commas_push(tv.take(i as int), tv[i as int]);
            assert(tv.take(i as int).push(tv[i as int]) =~= tv.take(i as int + 1));
            assert(r@ =~= join_commas(tv.take(i as int + 1)));
        }
        i = i + 1;
    }
    proof {
        assert(tv.take(tv.len() as int) =~= tv);
    }
    r
}

/// Builds the pipeline's stage configurations from the per-stage
/// selections: the enabled stages in pipeline order, the micro-stage
/// prepended when domino-reduction triggers are given, and the floppy
/// reduction switched to its leave-slice kind when the finish leaves the
/// slice.
#[verifier::rlimit(100)]
pub fn get_step_configs(
    eo: EOConfigInput,
    rzp: RZPConfigInput,
    dr: DRConfigInput,
    htr: HTRConfigInput,
    fr: FRConfigInput,
    fin: FinishConfigInput,
) -> (r: Vec<StepConfig>)
    ensures
        cfg_views(r@) == expected_configs(eo, rzp, dr, htr, fr, fin),
{
    let ghost goal = expected_configs(eo, rzp, dr, htr, fr, fin);
    let mut out: Vec<StepConfig> = Vec::new();
    proof {
        assert(cfg_views(out@) =~= Seq::<StepConfigView>::empty());
    }
    if eo.enabled {
        let ghost before = out@;
        out.push(
            StepConfig {
                kind: StepKind::EO,
                substeps: Some(variants_to_string(eo.variants)),
                min: Some(eo.min),
                max: Some(eo.max),
                absolute_min: None,
                absolute_max: None,
                step_limit: None,
                quality: 10000,
                niss: Some(eo.niss),
                params: Vec::new(),
            },
        );
        proof {
            lemma_cfg_views_push(before, out@[out@.len() - 1]);
            assert(out@ == before.push(out@[out@.len() - 1]));
        }
    }
    proof {
        assert(cfg_views(out@) =~~= expected_eo(eo));
    }
    let ghost done_eo = cfg_views(out@);
    if dr.enabled {
        if dr.triggers.len() > 0 {
            let ghost before = out@;
            out.push(
                StepConfig {
                    kind: StepKind::RZP,
                    substeps: None,
                    min: Some(rzp.min),
                    max: Some(rzp.max),
                    absolute_min: None,
                    absolute_max: None,
                    step_limit: None,
                    quality: 10000,
                    niss: Some(rzp.niss),
                    params: Vec::new(),
                },
            );
            proof {
                lemma_cfg_views_push(before, out@[out@.len() - 1]);
                assert(out@ == before.push(out@[out@.len() - 1]));
            }
            let joined = join_triggers(&dr.triggers);
            let mut params: Vec<(String, String)> = Vec::new();
            params.push((String::from_str("triggers"), joined));
            let ghost before2 = out@;
            out.push(
                StepConfig {
                    kind: StepKind::DR,
                    substeps: Some(variants_to_string(dr.variants)),
                    min: Some(dr.min),
                    max: Some(dr.max),
                    absolute_min: None,
                    absolute_max: None,
                    step_limit: None,
                    quality: 10000,
                    niss: Some(dr.niss),
                    params,
                },
            );
            proof {
                lemma_cfg_views_push(before2, out@[out@.len() - 1]);
                assert(out@ == before2.push(out@[out@.len() - 1]));
                assert(out@[out@.len() - 1]@.params =~= seq![
                    ("triggers"@, join_commas(dr.triggers@.map_values(|s: String| s@))),
                ]);
            }
        } else {
            let ghost before = out@;
            out.push(
                StepConfig {
                    kind: StepKind::DR,
                    substeps: Some(variants_to_string(dr.variants)),
                    min: Some(dr.min),
                    max: Some(dr.max),
                    absolute_min: None,
                    absolute_max: None,
                    step_limit: None,
                    quality: 10000,
                    niss: Some(dr.niss),
                    params: Vec::new(),
                },
            );
            proof {
                lemma_cfg_views_push(before, out@[out@.len() - 1]);
                assert(out@ == before.push(out@[out@.len() - 1]));
            }
        }
    }
    proof {
        assert(cfg_views(out@) =~~= done_eo + expected_dr(rzp, dr));
    }
    let ghost done_dr = cfg_views(out@);
    if htr.enabled {
        let ghost before = out@;
        out.push(
            StepConfig {
                kind: StepKind::HTR,
                substeps: Some(variants_to_string(htr.variants)),
                min: Some(htr.min),
                max: Some(htr.max),
                absolute_min: None,
                absolute_max: None,
                step_limit: None,
                quality: 10000,
                niss: Some(htr.niss),
                params: Vec::new(),
            },
        );
        proof {
            lemma_cfg_views_push(before, out@[out@.len() - 1]);
            assert(out@ == before.push(out@[out@.len() - 1]));
        }
    }
    proof {
        assert(cfg_views(out@) =~~= done_dr + expected_htr(htr));
    }
    let ghost done_htr = cfg_views(out@);
    if fr.enabled {
        let ghost before = out@;
        let kind = if fin.leave_slice {
            StepKind::FRLS
        } else {
            StepKind::FR
        };
        out.push(
            StepConfig {
                kind,
                substeps: Some(variants_to_string(fr.variants)),
                min: Some(fr.min),
                max: Some(fr.max),
                absolute_min: None,
                absolute_max: None,
                step_limit: None,
                quality: 10000,
                niss: Some(fr.niss),
                params: Vec::new(),
            },
        );
        proof {
            lemma_cfg_views_push(before, out@[out@.len() - 1]);
            assert(out@ == before.push(out@[out@.len() - 1]));
        }
    }
    proof {
        assert(cfg_views(out@) =~~= done_htr + expected_fr(fr, fin));
    }
    let ghost done_fr = cfg_views(out@);
    if fin.enabled {
        let ghost before = out@;
        let substeps: Vec<String> = vec![
            String::from_str("ud"),
            String::from_str("fb"),
            String::from_str("lr"),
        ];
        proof {
            assert(substeps@.map_values(|s: String| s@) =~= seq!["ud"@, "fb"@, "lr"@]);
        }
        out.push(
            StepConfig {
                kind: StepKind::FIN,
                substeps: Some(substeps),
                min: Some(fin.min),
                max: Some(fin.max),
                absolute_min: None,
                absolute_max: None,
                step_limit: None,
                quality: 10000,
                niss: Some(NissSwitchType::Never),
                params: Vec::new(),
            },
        );
        proof {
            lemma_cfg_views_push(before, out@[out@.len() - 1]);
            assert(out@ == before.push(out@[out@.len() - 1]));
        }
    }
    proof {
        assert(cfg_views(out@) =~~= done_fr + expected_fin(fin));
        assert(cfg_views(out@) =~~= goal);
    }
    out
}

} // verus!
