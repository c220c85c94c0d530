//! The step layer's shared types: the stage kinds, the scramble-swap
//! policy, the caller-supplied stage configuration, the resolved search
//! options, and the descriptors of a configured step.

use vstd::prelude::*;
use crate::cube::CubeTransformation;
use crate::moveset::MoveSet333;

verus! {

/// The stages of the solve pipeline.
#[derive(Debug, Clone, Copy, PartialEq, Eq, Hash, Structural)]
pub enum StepKind {
    EO,
    RZP,
    DR,
    HTR,
    FR,
    FRLS,
    FIN,
}

/// When the search may swap between the normal and the inverse scramble.
#[derive(Debug, Clone, Copy, PartialEq, Eq, Hash, Structural)]
pub enum NissSwitchType {
    /// Only the normal scramble.
    Never,
    /// One swap, before any move of the stage.
    AtStart,
    /// A swap only at the boundary before the stage.
    Before,
    /// Swaps at any move boundary during the stage.
    During,
}

/// A caller-supplied stage configuration.
pub struct StepConfig {
    pub kind: StepKind,
    pub substeps: Option<Vec<String>>,
    pub min: Option<u8>,
    pub max: Option<u8>,
    pub absolute_min: Option<u8>,
    pub absolute_max: Option<u8>,
    pub step_limit: Option<usize>,
    pub quality: usize,
    pub niss: Option<NissSwitchType>,
    pub params: Vec<(String, String)>,
}

/// The mathematical value of a stage configuration.
#[verifier::ext_equal]
pub ghost struct StepConfigView {
    pub kind: StepKind,
    pub substeps: Option<Seq<Seq<char>>>,
    pub min: Option<u8>,
    pub max: Option<u8>,
    pub absolute_min: Option<u8>,
    pub absolute_max: Option<u8>,
    pub step_limit: Option<usize>,
    pub quality: nat,
    pub niss: Option<NissSwitchType>,
    pub params: Seq<(Seq<char>, Seq<char>)>,
}

impl View for StepConfig {
    type V = StepConfigView;

    open spec fn view(&self) -> StepConfigView {
        StepConfigView {
            kind: self.kind,
            substeps: match self.substeps {
                Some(ss) => Some(ss@.map_values(|s: String| s@)),
                None => None,
            },
            min: self.min,
            max: self.max,
            absolute_min: self.absolute_min,
            absolute_max: self.absolute_max,
            step_limit: self.step_limit,
            quality: self.quality as nat,
            niss: self.niss,
            params: self.params@.map_values(|p: (String, String)| (p.0@, p.1@)),
        }
    }
}

impl StepConfig {
    /// A bare configuration of a stage: nothing selected, no quality.
    pub fn new(kind: StepKind) -> (r: StepConfig)
        ensures
            r@ == (StepConfigView {
                kind,
                substeps: None,
                min: None,
                max: None,
                absolute_min: None,
                absolute_max: None,
                step_limit: None,
                quality: 0,
                niss: None,
                params: Seq::empty(),
            }),
    {
        let r = StepConfig {
            kind,
            substeps: None,
            min: None,
            max: None,
            absolute_min: None,
            absolute_max: None,
            step_limit: None,
            quality: 0,
            niss: None,
            params: Vec::new(),
        };
        proof {
            assert(r@.params =~= Seq::<(Seq<char>, Seq<char>)>::empty());
            assert(r@ =~= (StepConfigView {
                kind,
                substeps: None,
                min: None,
                max: None,
                absolute_min: None,
                absolute_max: None,
                step_limit: None,
                quality: 0,
                niss: None,
                params: Seq::empty(),
            }));
        }
        r
    }
}

/// The resolved search options of one stage: its length bounds, its
/// scramble-swap policy, and a cap on how many of its sub-solutions are
/// considered.
#[derive(Debug, Clone, Copy, PartialEq, Eq, Hash, Structural)]
pub struct DefaultStepOptions {
    pub min: u8,
    pub max: u8,
    pub niss: NissSwitchType,
    pub step_limit: Option<usize>,
}

impl DefaultStepOptions {
    pub fn new(min: u8, max: u8, niss: NissSwitchType, step_limit: Option<usize>) -> (r:
        DefaultStepOptions)
        ensures
            r == (DefaultStepOptions { min, max, niss, step_limit }),
    {
        DefaultStepOptions { min, max, niss, step_limit }
    }
}

/// The pruning table of the finish stage: the move distance of each
/// floppy-reduction coordinate.
#[derive(Debug)]
pub struct FRFinishPruningTable {
    pub entries: Vec<u8>,
}

impl FRFinishPruningTable {
    /// An empty table, to be filled by table generation.
    pub fn new() -> (r: FRFinishPruningTable)
        ensures
            r.entries@.len() == 0,
    {
        FRFinishPruningTable { entries: Vec::new() }
    }
}

/// One variant of a configured step: the stage's move set and pruning
/// table, run under a whole-cube reorientation, with the variant's name.
#[derive(Debug)]
pub struct StepVariant333<'a> {
    pub name: String,
    pub pre_transformations: Vec<CubeTransformation>,
    pub moveset: MoveSet333,
    pub table: &'a FRFinishPruningTable,
}

/// A configured step of the pipeline: its kind and its variants, one per
/// allowed axis.
#[derive(Debug)]
pub struct Step333<'a> {
    pub kind: StepKind,
    pub is_major: bool,
    pub variants: Vec<StepVariant333<'a>>,
}

impl<'a> Step333<'a> {
    pub fn new(variants: Vec<StepVariant333<'a>>, kind: StepKind, is_major: bool) -> (r: Step333<
        'a,
    >)
        ensures
            r.kind == kind,
            r.is_major == is_major,
            r.variants@ == variants@,
    {
        Step333 { kind, is_major, variants }
    }
}

} // verus!
