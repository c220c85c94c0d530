use cubelib::config::{
    get_step_configs, variants_to_string, DRConfigInput, EOConfigInput, FRConfigInput,
    FinishConfigInput, HTRConfigInput, RZPConfigInput,
};
use cubelib::cube::CubeAxis;
use cubelib::steps::{NissSwitchType, StepKind};

fn all_disabled() -> (
    EOConfigInput,
    RZPConfigInput,
    DRConfigInput,
    HTRConfigInput,
    FRConfigInput,
    FinishConfigInput,
) {
    (
        EOConfigInput {
            enabled: false,
            min: 0,
            max: 5,
            niss: NissSwitchType::During,
            variants: vec![CubeAxis::UD, CubeAxis::FB, CubeAxis::LR],
        },
        RZPConfigInput { min: 0, max: 3, niss: NissSwitchType::Never },
        DRConfigInput {
            enabled: false,
            min: 0,
            max: 14,
            niss: NissSwitchType::AtStart,
            variants: vec![CubeAxis::UD],
            triggers: Vec::new(),
        },
        HTRConfigInput {
            enabled: false,
            min: 0,
            max: 14,
            niss: NissSwitchType::During,
            variants: vec![CubeAxis::FB],
        },
        FRConfigInput {
            enabled: false,
            min: 0,
            max: 10,
            niss: NissSwitchType::Never,
            variants: vec![CubeAxis::LR],
        },
        FinishConfigInput { enabled: false, min: 0, max: 10, leave_slice: false },
    )
}

#[test]
fn variant_names() {
    let names = variants_to_string(vec![CubeAxis::UD, CubeAxis::FB, CubeAxis::LR]);
    assert_eq!(vec!["ud".to_string(), "fb".to_string(), "lr".to_string()], names);
}

#[test]
fn nothing_enabled_gives_no_steps() {
    let (eo, rzp, dr, htr, fr, fin) = all_disabled();
    assert_eq!(0, get_step_configs(eo, rzp, dr, htr, fr, fin).len());
}

#[test]
fn enabled_stages_appear_in_order() {
    let (mut eo, rzp, mut dr, mut htr, mut fr, mut fin) = all_disabled();
    eo.enabled = true;
    dr.enabled = true;
    htr.enabled = true;
    fr.enabled = true;
    fin.enabled = true;
    let configs = get_step_configs(eo, rzp, dr, htr, fr, fin);
    assert_eq!(5, configs.len());
    assert_eq!(StepKind::EO, configs[0].kind);
    assert_eq!(StepKind::DR, configs[1].kind);
    assert_eq!(StepKind::HTR, configs[2].kind);
    assert_eq!(StepKind::FR, configs[3].kind);
    assert_eq!(StepKind::FIN, configs[4].kind);
    assert_eq!(Some(0), configs[0].min);
    assert_eq!(Some(5), configs[0].max);
    assert_eq!(Some(NissSwitchType::During), configs[0].niss);
    assert_eq!(10000, configs[0].quality);
    assert_eq!(
        Some(vec!["ud".to_string(), "fb".to_string(), "lr".to_string()]),
        configs[0].substeps
    );
    assert_eq!(
        Some(vec!["ud".to_string(), "fb".to_string(), "lr".to_string()]),
        configs[4].substeps
    );
    assert_eq!(Some(NissSwitchType::Never), configs[4].niss);
    assert!(configs[0].params.is_empty());
}

#[test]
fn triggers_prepend_the_micro_stage() {
    let (eo, rzp, mut dr, htr, fr, fin) = all_disabled();
    dr.enabled = true;
    dr.triggers = vec!["RUR'".to_string(), "RU2R'".to_string()];
    let configs = get_step_configs(eo, rzp, dr, htr, fr, fin);
    assert_eq!(2, configs.len());
    assert_eq!(StepKind::RZP, configs[0].kind);
    assert_eq!(None, configs[0].substeps);
    assert_eq!(Some(0), configs[0].min);
    assert_eq!(Some(3), configs[0].max);
    assert_eq!(StepKind::DR, configs[1].kind);
    assert_eq!(
        vec![("triggers".to_string(), "RUR',RU2R'".to_string())],
        configs[1].params
    );
}

#[test]
fn leave_slice_switches_the_floppy_kind() {
    let (eo, rzp, dr, htr, mut fr, mut fin) = all_disabled();
    fr.enabled = true;
    fin.leave_slice = true;
    let configs = get_step_configs(eo, rzp, dr, htr, fr, fin);
    assert_eq!(1, configs.len());
    assert_eq!(StepKind::FRLS, configs[0].kind);
    assert_eq!(Some(vec!["lr".to_string()]), configs[0].substeps);
}
