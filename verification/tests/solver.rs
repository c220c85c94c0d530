use cubelib::solver::{
    build_steps, expand_triggers, gen_tables, limit_solutions, solve_steps, validate_stage_order,
    PruningTables,
};
use cubelib::algs::{Algorithm, Solution};
use cubelib::steps::{DefaultStepOptions, NissSwitchType, Step333, StepConfig, StepKind};

fn config_of(kind: StepKind) -> StepConfig {
    StepConfig {
        kind,
        substeps: None,
        min: None,
        max: None,
        absolute_min: None,
        absolute_max: None,
        step_limit: None,
        quality: 0,
        niss: None,
        params: Vec::new(),
    }
}

#[test]
fn gen_tables_generates_per_stage() {
    let steps = vec![
        config_of(StepKind::EO),
        config_of(StepKind::DR),
        config_of(StepKind::HTR),
    ];
    let mut tables = PruningTables::new();
    gen_tables(&steps, &mut tables);
    assert!(tables.eo);
    assert!(tables.dr);
    assert!(tables.htr);
    assert!(!tables.fr);
    assert!(!tables.fr_leave_slice);
    assert!(tables.fr_finish().is_none());
}

#[test]
fn gen_tables_finish_needs_floppy_predecessor() {
    let mut tables = PruningTables::new();
    gen_tables(&vec![config_of(StepKind::FIN)], &mut tables);
    assert!(tables.fr_finish().is_none());
    let steps = vec![config_of(StepKind::FR), config_of(StepKind::FIN)];
    gen_tables(&steps, &mut tables);
    assert!(tables.fr);
    assert!(tables.fr_finish().is_some());
    let mut tables2 = PruningTables::new();
    let steps2 = vec![config_of(StepKind::FRLS), config_of(StepKind::FIN)];
    gen_tables(&steps2, &mut tables2);
    assert!(tables2.fr_leave_slice);
    assert!(tables2.fr_finish().is_some());
}

#[test]
fn gen_tables_keeps_existing_tables() {
    let mut tables = PruningTables::new();
    gen_tables(&vec![config_of(StepKind::EO)], &mut tables);
    gen_tables(&vec![config_of(StepKind::DR)], &mut tables);
    assert!(tables.eo);
    assert!(tables.dr);
}

#[test]
fn gen_tables_rzp_needs_no_table() {
    let mut tables = PruningTables::new();
    gen_tables(&vec![config_of(StepKind::RZP)], &mut tables);
    assert!(!tables.eo && !tables.dr && !tables.htr && !tables.fr && !tables.fr_leave_slice);
    assert!(tables.fr_finish().is_none());
}

#[test]
fn build_steps_accepts_the_empty_pipeline() {
    let tables = PruningTables::new();
    let built = build_steps(Vec::new(), &tables).unwrap();
    assert_eq!(0, built.len());
}

#[test]
fn stage_order_validation_accepts_the_pipeline_orders() {
    assert!(validate_stage_order(&vec![]).is_ok());
    assert!(validate_stage_order(&vec![StepKind::EO]).is_ok());
    assert!(validate_stage_order(&vec![
        StepKind::EO,
        StepKind::RZP,
        StepKind::DR,
        StepKind::HTR,
        StepKind::FR,
        StepKind::FIN,
    ])
    .is_ok());
    assert!(validate_stage_order(&vec![
        StepKind::EO,
        StepKind::DR,
        StepKind::HTR,
        StepKind::FRLS,
        StepKind::FIN,
    ])
    .is_ok());
}

#[test]
fn stage_order_validation_names_the_first_offence() {
    assert_eq!(
        (None, StepKind::DR),
        validate_stage_order(&vec![StepKind::DR]).unwrap_err()
    );
    assert_eq!(
        (Some(StepKind::EO), StepKind::FIN),
        validate_stage_order(&vec![StepKind::EO, StepKind::FIN]).unwrap_err()
    );
    assert_eq!(
        (Some(StepKind::FIN), StepKind::FIN),
        validate_stage_order(&vec![
            StepKind::EO,
            StepKind::DR,
            StepKind::HTR,
            StepKind::FR,
            StepKind::FIN,
            StepKind::FIN,
        ])
        .unwrap_err()
    );
}

#[test]
fn build_steps_rejects_bad_orders_with_the_pair() {
    let tables = PruningTables::new();
    let err = build_steps(
        vec![config_of(StepKind::FR), config_of(StepKind::FIN)],
        &tables,
    )
    .unwrap_err();
    assert_eq!("FR is not supported as a first step", err);
    let err = build_steps(
        vec![config_of(StepKind::EO), config_of(StepKind::HTR)],
        &tables,
    )
    .unwrap_err();
    assert_eq!("Unsupported step order EO > HTR", err);
}

#[test]
fn build_steps_reports_missing_stage_constructors() {
    let mut tables = PruningTables::new();
    gen_tables(&vec![config_of(StepKind::EO)], &mut tables);
    let err = build_steps(vec![config_of(StepKind::EO)], &tables).unwrap_err();
    assert_eq!("EO is not available in this build", err);
    let err = build_steps(
        vec![config_of(StepKind::EO), config_of(StepKind::DR)],
        &tables,
    )
    .unwrap_err();
    assert_eq!("EO is not available in this build", err);
}

#[test]
fn limit_solutions_truncates_after_the_step_limit() {
    let mut sols: Vec<Solution> = Vec::new();
    for _ in 0..3 {
        let mut sol = Solution::new();
        sol.add_step("EO".to_string(), Algorithm::from_str("R").unwrap());
        sols.push(sol);
    }
    assert_eq!(3, limit_solutions(sols.clone(), None).len());
    assert_eq!(2, limit_solutions(sols.clone(), Some(2)).len());
    assert_eq!(3, limit_solutions(sols, Some(10)).len());
}


fn fin_step_for_tests() -> (Step333<'static>, DefaultStepOptions) {
    (
        Step333::new(Vec::new(), StepKind::FIN, true),
        DefaultStepOptions::new(0, 10, NissSwitchType::Never, None),
    )
}

#[test]
fn expand_triggers_inserts_the_micro_stage() {
    let mut dr = config_of(StepKind::DR);
    dr.quality = 77;
    dr.params
        .push(("triggers".to_string(), "RUR',RU2R'".to_string()));
    let expanded = expand_triggers(vec![config_of(StepKind::EO), dr]);
    assert_eq!(3, expanded.len());
    assert_eq!(StepKind::EO, expanded[0].kind);
    assert_eq!(StepKind::RZP, expanded[1].kind);
    assert_eq!(77, expanded[1].quality);
    assert_eq!(None, expanded[1].substeps);
    assert!(expanded[1].params.is_empty());
    assert_eq!(StepKind::DR, expanded[2].kind);
    assert_eq!(1, expanded[2].params.len());
}

#[test]
fn expand_triggers_leaves_plain_pipelines_alone() {
    let expanded = expand_triggers(vec![config_of(StepKind::EO), config_of(StepKind::DR)]);
    assert_eq!(2, expanded.len());
    assert_eq!(StepKind::EO, expanded[0].kind);
    assert_eq!(StepKind::DR, expanded[1].kind);
    // Only a domino reduction straight after edge orientation expands.
    let mut dr = config_of(StepKind::DR);
    dr.params
        .push(("triggers".to_string(), "RUR'".to_string()));
    let expanded = expand_triggers(vec![config_of(StepKind::RZP), dr]);
    assert_eq!(2, expanded.len());
    assert_eq!(StepKind::RZP, expanded[0].kind);
    assert_eq!(StepKind::DR, expanded[1].kind);
}

#[test]
fn build_steps_reports_the_first_expanded_stage_missing() {
    let tables = PruningTables::new();
    let mut dr = config_of(StepKind::DR);
    dr.params
        .push(("triggers".to_string(), "RUR'".to_string()));
    let err = build_steps(vec![config_of(StepKind::EO), dr], &tables).unwrap_err();
    assert_eq!("EO is not available in this build", err);
}

#[test]
fn solve_steps_with_no_stages_yields_the_empty_solution() {
    let mut stream = solve_steps(&Vec::new(), &Vec::new());
    let first = stream.next().expect("one seed solution");
    assert_eq!(0, first.len());
    assert!(first.ends_on_normal());
    assert!(stream.next().is_none());
}

#[test]
fn solve_steps_extends_each_solution_in_order() {
    let steps = vec![fin_step_for_tests()];
    let subs = vec![vec![
        ("FIN".to_string(), Algorithm::from_str("R2").unwrap()),
        ("FIN".to_string(), Algorithm::from_str("U2 D2").unwrap()),
    ]];
    let mut stream = solve_steps(&steps, &subs);
    let first = stream.next().unwrap();
    assert_eq!(1, first.len());
    assert_eq!("R2", first.to_algorithm().to_display_string());
    let second = stream.next().unwrap();
    assert_eq!(2, second.len());
    assert_eq!("U2 D2", second.to_algorithm().to_display_string());
    assert!(stream.next().is_none());
}

#[test]
fn solve_steps_composes_stages_and_cuts_at_the_step_limit() {
    let mut second_stage = fin_step_for_tests();
    second_stage.1 = DefaultStepOptions::new(0, 10, NissSwitchType::Never, Some(3));
    let steps = vec![fin_step_for_tests(), second_stage];
    let subs = vec![
        vec![
            ("EO".to_string(), Algorithm::from_str("R").unwrap()),
            ("EO".to_string(), Algorithm::from_str("L").unwrap()),
        ],
        vec![
            ("DR".to_string(), Algorithm::from_str("U").unwrap()),
            ("DR".to_string(), Algorithm::from_str("D").unwrap()),
        ],
    ];
    let mut stream = solve_steps(&steps, &subs);
    // The cross product in order is R U, R D, L U, L D; the second
    // stage's limit keeps the first three.
    let expected = ["R U", "R D", "L U"];
    for want in expected {
        let sol = stream.next().unwrap();
        assert_eq!(want, sol.to_algorithm().to_display_string());
    }
    assert!(stream.next().is_none());
}
