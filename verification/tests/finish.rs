use cubelib::cube::{CubeAxis, CubeFace, CubeTransformation, Direction};
use cubelib::finish::{
    finish_transitions, fr_finish, fr_finish_any, fr_finish_leave_slice,
    fr_finish_leave_slice_any, from_step_config_fr, from_step_config_fr_leave_slice,
    frud_finish_moveset,
};
use cubelib::moveset::ANY_MASK;
use cubelib::steps::{FRFinishPruningTable, NissSwitchType, StepConfig, StepKind};

fn config(substeps: Option<Vec<String>>, quality: usize) -> StepConfig {
    StepConfig {
        kind: StepKind::FIN,
        substeps,
        min: None,
        max: None,
        absolute_min: None,
        absolute_max: None,
        step_limit: None,
        quality,
        niss: None,
        params: Vec::new(),
    }
}

#[test]
fn finish_transitions_follow_face_order_rule() {
    let transitions = finish_transitions();
    assert_eq!(18, transitions.len());
    // After an up-face turn every other face may follow: bits three to
    // seventeen.
    assert_eq!(0x3FFF8, transitions[0].allowed);
    // After a down-face turn the up face may not come back: up has the
    // lower face number of the opposite pair.
    assert_eq!(0x3FFC0, transitions[3].allowed);
    // After a right-face turn neither the right nor the left face may
    // follow.
    assert_eq!(0xFFF, transitions[15].allowed);
    for t in transitions {
        assert_eq!(ANY_MASK, t.can_end);
    }
}

#[test]
fn finish_moveset_is_half_turns() {
    let ms = frud_finish_moveset();
    assert_eq!(6, ms.st_moves.len());
    for (i, m) in ms.st_moves.iter().enumerate() {
        assert_eq!(CubeFace::from_id(i), m.face);
        assert_eq!(Direction::Half, m.dir);
    }
    assert_eq!(0, ms.aux_moves.len());
    assert_eq!(18, ms.transitions.len());
}

#[test]
fn fr_finish_builds_one_variant_per_axis() {
    let table = FRFinishPruningTable::new();
    let step = fr_finish(&table, vec![CubeAxis::UD, CubeAxis::LR]);
    assert_eq!(StepKind::FIN, step.kind);
    assert!(step.is_major);
    assert_eq!(2, step.variants.len());
    assert_eq!(0, step.variants[0].pre_transformations.len());
    assert_eq!(
        vec![CubeTransformation::new(CubeAxis::Z, Direction::Clockwise)],
        step.variants[1].pre_transformations
    );
    assert_eq!("", step.variants[0].name);
    assert_eq!("", step.variants[1].name);
}

#[test]
fn fr_finish_variants_carry_the_half_turn_moveset() {
    let table = FRFinishPruningTable::new();
    let step = fr_finish(&table, vec![CubeAxis::UD]);
    let ms = &step.variants[0].moveset;
    assert_eq!(6, ms.st_moves.len());
    for m in &ms.st_moves {
        assert_eq!(Direction::Half, m.dir);
    }
    assert!(ms.aux_moves.is_empty());
    assert_eq!(18, ms.transitions.len());
    assert_eq!(0x3FFF8, ms.transitions[0].allowed);
}

#[test]
fn fr_finish_any_covers_three_axes() {
    let table = FRFinishPruningTable::new();
    let step = fr_finish_any(&table);
    assert_eq!(3, step.variants.len());
    assert_eq!(0, step.variants[0].pre_transformations.len());
    assert_eq!(
        vec![CubeTransformation::new(CubeAxis::X, Direction::Clockwise)],
        step.variants[1].pre_transformations
    );
    assert_eq!(
        vec![CubeTransformation::new(CubeAxis::Z, Direction::Clockwise)],
        step.variants[2].pre_transformations
    );
}

#[test]
fn leave_slice_variants_carry_names() {
    let table = FRFinishPruningTable::new();
    let step = fr_finish_leave_slice(&table, vec![CubeAxis::FB]);
    assert_eq!(1, step.variants.len());
    assert_eq!("fb", step.variants[0].name);
    let all = fr_finish_leave_slice_any(&table);
    assert_eq!("ud", all.variants[0].name);
    assert_eq!("fb", all.variants[1].name);
    assert_eq!("lr", all.variants[2].name);
}

#[test]
fn from_step_config_defaults() {
    let table = FRFinishPruningTable::new();
    let (step, opts) = from_step_config_fr(&table, config(None, 0)).unwrap();
    assert_eq!(3, step.variants.len());
    assert_eq!(0, opts.min);
    assert_eq!(10, opts.max);
    assert_eq!(NissSwitchType::Never, opts.niss);
    assert_eq!(None, opts.step_limit);
}

#[test]
fn from_step_config_quality_sets_step_limit() {
    let table = FRFinishPruningTable::new();
    let (_, opts) = from_step_config_fr(&table, config(None, 125)).unwrap();
    assert_eq!(Some(125), opts.step_limit);
    let mut with_limit = config(None, 125);
    with_limit.step_limit = Some(7);
    let (_, opts) = from_step_config_fr(&table, with_limit).unwrap();
    assert_eq!(Some(7), opts.step_limit);
}

#[test]
fn from_step_config_explicit_bounds() {
    let table = FRFinishPruningTable::new();
    let mut cfg = config(None, 0);
    cfg.min = Some(2);
    cfg.max = Some(8);
    cfg.niss = Some(NissSwitchType::AtStart);
    let (_, opts) = from_step_config_fr(&table, cfg).unwrap();
    assert_eq!(2, opts.min);
    assert_eq!(8, opts.max);
    assert_eq!(NissSwitchType::AtStart, opts.niss);
}

#[test]
fn from_step_config_parses_substeps_case_insensitively() {
    let table = FRFinishPruningTable::new();
    let cfg = config(
        Some(vec![
            "FinishUD".to_string(),
            "finfb".to_string(),
            "LR".to_string(),
        ]),
        0,
    );
    let (step, _) = from_step_config_fr(&table, cfg).unwrap();
    assert_eq!(3, step.variants.len());
    assert_eq!(0, step.variants[0].pre_transformations.len());
    assert_eq!(
        vec![CubeTransformation::new(CubeAxis::X, Direction::Clockwise)],
        step.variants[1].pre_transformations
    );
    assert_eq!(
        vec![CubeTransformation::new(CubeAxis::Z, Direction::Clockwise)],
        step.variants[2].pre_transformations
    );
}

#[test]
fn from_step_config_rejects_unknown_substep() {
    let table = FRFinishPruningTable::new();
    let cfg = config(Some(vec!["ud".to_string(), "xyz".to_string()]), 0);
    let err = from_step_config_fr(&table, cfg).unwrap_err();
    assert_eq!("Invalid HTR substep xyz", err);
    // The error reports the offending name lowered, as the comparison saw
    // it.
    let cfg = config(Some(vec!["XYZ!".to_string()]), 0);
    let err = from_step_config_fr(&table, cfg).unwrap_err();
    assert_eq!("Invalid HTR substep xyz!", err);
}

#[test]
fn from_step_config_leave_slice_names_variants() {
    let table = FRFinishPruningTable::new();
    let cfg = config(Some(vec!["fb".to_string()]), 0);
    let (step, _) = from_step_config_fr_leave_slice(&table, cfg).unwrap();
    assert_eq!(1, step.variants.len());
    assert_eq!("fb", step.variants[0].name);
    let err =
        from_step_config_fr_leave_slice(&table, config(Some(vec!["q".to_string()]), 0))
            .unwrap_err();
    assert_eq!("Invalid HTR substep q", err);
}
