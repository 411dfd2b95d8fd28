//! The imaging chain's stages and the signal domains that connect them: a
//! pipeline is valid when one source leads, node ids are distinct, every
//! enabled stage accepts the domain the previous one produces, and the chain
//! ends in a display-encoded signal.
use vstd::prelude::*;
use crate::text::{blank, is_blank, str_eq};

verus! {

#[derive(Debug, Clone, Copy, PartialEq, Eq, Structural)]
pub enum PipelineIntent {
    PhysicalCapture,
    Emulation,
    PostProduction,
}

/// Distinguishes measured hardware from a creative simulation or a signal transform.
#[derive(Debug, Clone, Copy, PartialEq, Eq, Structural)]
pub enum NodeRole {
    Observed,
    Simulated,
    Transform,
}

/// Signal domains make physically invalid node connections detectable before rendering.
#[derive(Debug, Clone, Copy, PartialEq, Eq, Structural)]
pub enum SignalDomain {
    SceneLight,
    OpticalImage,
    FilmLatentImage,
    FilmDensity,
    SensorRaw,
    SceneLinear,
    DisplayLinear,
    DisplayEncoded,
}

#[derive(Debug, Clone, Copy, PartialEq, Eq, Structural)]
pub enum SourceKind {
    Scene,
    LiveCamera,
    ImageFile,
    VideoFile,
    Generated,
}

#[derive(Debug, Clone, Copy, PartialEq, Eq, Structural)]
pub enum DisplaySurround {
    Dark,
    Dim,
    Average,
}

#[derive(Debug, Clone, PartialEq, Eq)]
pub struct SourceNode {
    pub source: SourceKind,
    pub output_domain: SignalDomain,
    pub profile_id: Option<String>,
}

#[derive(Debug, Clone, PartialEq, Eq)]
pub enum PrintProcess {
    Photochemical { profile_id: String },
    DigitalIntermediate { profile_id: String },
}

#[derive(Debug, Clone, PartialEq, Eq)]
pub struct PrintNode {
    pub process: PrintProcess,
}

#[derive(Debug, Clone, PartialEq, Eq)]
pub struct OutputTransformNode {
    pub transform_id: String,
}

/// What kind of capture medium a stage exposes, and its profile.
#[derive(Debug, Clone, PartialEq, Eq)]
pub enum MediumOutline {
    Film { profile_id: String },
    DigitalSensor { profile_id: String },
}

/// What kind of development a stage performs, and its profile.
#[derive(Debug, Clone, PartialEq, Eq)]
pub enum DevelopmentOutline {
    Chemical { process_id: String },
    DigitalRaw { profile_id: String },
}

/// An imaging operation as far as the chain's structure goes: which stage it
/// is and which profiles it names. Numeric settings (shutter, aperture,
/// exposure, luminance) play no part in validating the chain.
#[derive(Debug, Clone, PartialEq, Eq)]
pub enum OperationOutline {
    Source(SourceNode),
    Camera { profile_id: String },
    Lens { profile_id: String },
    CaptureMedium(MediumOutline),
    Development(DevelopmentOutline),
    Print(PrintNode),
    OutputTransform(OutputTransformNode),
    Display { profile_id: String },
}

#[derive(Debug, Clone, PartialEq, Eq)]
pub struct NodeOutline {
    pub id: String,
    pub role: NodeRole,
    pub enabled: bool,
    pub operation: OperationOutline,
}

#[derive(Debug, Clone, PartialEq, Eq)]
pub struct PipelineOutline {
    pub id: String,
    pub schema_version: u32,
    pub intent: PipelineIntent,
    pub nodes: Vec<NodeOutline>,
}

#[derive(Debug, Clone, PartialEq, Eq)]
pub enum PipelineError {
    Empty,
    InvalidSchemaVersion,
    InvalidNodeId(String),
    SourceMustBeFirst,
    MultipleSources,
    DomainMismatch { node_id: String, expected: SignalDomain, actual: SignalDomain },
    Incomplete { final_domain: SignalDomain },
}

/// A pipeline error as plain values.
pub enum PipelineFault {
    Empty,
    InvalidSchemaVersion,
    InvalidNodeId(Seq<char>),
    SourceMustBeFirst,
    MultipleSources,
    DomainMismatch { node_id: Seq<char>, expected: SignalDomain, actual: SignalDomain },
    Incomplete { final_domain: SignalDomain },
}

impl View for PipelineError {
    type V = PipelineFault;

    open spec fn view(&self) -> PipelineFault {
        match self {
            PipelineError::Empty => PipelineFault::Empty,
            PipelineError::InvalidSchemaVersion => PipelineFault::InvalidSchemaVersion,
            PipelineError::InvalidNodeId(id) => PipelineFault::InvalidNodeId(id@),
            PipelineError::SourceMustBeFirst => PipelineFault::SourceMustBeFirst,
            PipelineError::MultipleSources => PipelineFault::MultipleSources,
            PipelineError::DomainMismatch { node_id, expected, actual } => PipelineFault::DomainMismatch {
                node_id: node_id@,
                expected: *expected,
                actual: *actual,
            },
            PipelineError::Incomplete { final_domain } => PipelineFault::Incomplete { final_domain: *final_domain },
        }
    }
}

/// The domain a stage consumes; a source consumes none.
pub open spec fn input_domain_of(op: OperationOutline) -> Option<SignalDomain> {
    match op {
        OperationOutline::Source(_) => None,
        OperationOutline::Camera { .. } => Some(SignalDomain::SceneLight),
        OperationOutline::Lens { .. } => Some(SignalDomain::SceneLight),
        OperationOutline::CaptureMedium(_) => Some(SignalDomain::OpticalImage),
        OperationOutline::Development(d) => Some(
            match d {
                DevelopmentOutline::Chemical { .. } => SignalDomain::FilmLatentImage,
                DevelopmentOutline::DigitalRaw { .. } => SignalDomain::SensorRaw,
            },
        ),
        OperationOutline::Print(p) => Some(
            match p.process {
                PrintProcess::Photochemical { .. } => SignalDomain::FilmDensity,
                PrintProcess::DigitalIntermediate { .. } => SignalDomain::SceneLinear,
            },
        ),
        OperationOutline::OutputTransform(_) => Some(SignalDomain::SceneLinear),
        OperationOutline::Display { .. } => Some(SignalDomain::DisplayLinear),
    }
}

/// The domain a stage produces.
pub open spec fn output_domain_of(op: OperationOutline) -> SignalDomain {
    match op {
        OperationOutline::Source(s) => s.output_domain,
        OperationOutline::Camera { .. } => SignalDomain::SceneLight,
        OperationOutline::Lens { .. } => SignalDomain::OpticalImage,
        OperationOutline::CaptureMedium(m) => match m {
            MediumOutline::Film { .. } => SignalDomain::FilmLatentImage,
            MediumOutline::DigitalSensor { .. } => SignalDomain::SensorRaw,
        },
        OperationOutline::Development(d) => match d {
            DevelopmentOutline::Chemical { .. } => SignalDomain::FilmDensity,
            DevelopmentOutline::DigitalRaw { .. } => SignalDomain::SceneLinear,
        },
        OperationOutline::Print(_) => SignalDomain::DisplayLinear,
        OperationOutline::OutputTransform(_) => SignalDomain::DisplayLinear,
        OperationOutline::Display { .. } => SignalDomain::DisplayEncoded,
    }
}

impl OperationOutline {
    pub fn input_domain(&self) -> (r: Option<SignalDomain>)
        ensures
            r == input_domain_of(*self),
    {
        match self {
            OperationOutline::Source(_) => None,
            OperationOutline::Camera { .. } => Some(SignalDomain::SceneLight),
            OperationOutline::Lens { .. } => Some(SignalDomain::SceneLight),
            OperationOutline::CaptureMedium(_) => Some(SignalDomain::OpticalImage),
            OperationOutline::Development(d) => Some(
                match d {
                    DevelopmentOutline::Chemical { .. } => SignalDomain::FilmLatentImage,
                    DevelopmentOutline::DigitalRaw { .. } => SignalDomain::SensorRaw,
                },
            ),
            OperationOutline::Print(p) => Some(
                match p.process {
                    PrintProcess::Photochemical { .. } => SignalDomain::FilmDensity,
                    PrintProcess::DigitalIntermediate { .. } => SignalDomain::SceneLinear,
                },
            ),
            OperationOutline::OutputTransform(_) => Some(SignalDomain::SceneLinear),
            OperationOutline::Display { .. } => Some(SignalDomain::DisplayLinear),
        }
    }

    pub fn output_domain(&self) -> (r: SignalDomain)
        ensures
            r == output_domain_of(*self),
    {
        match self {
            OperationOutline::Source(s) => s.output_domain,
            OperationOutline::Camera { .. } => SignalDomain::SceneLight,
            OperationOutline::Lens { .. } => SignalDomain::OpticalImage,
            OperationOutline::CaptureMedium(m) => match m {
                MediumOutline::Film { .. } => SignalDomain::FilmLatentImage,
                MediumOutline::DigitalSensor { .. } => SignalDomain::SensorRaw,
            },
            OperationOutline::Development(d) => match d {
                DevelopmentOutline::Chemical { .. } => SignalDomain::FilmDensity,
                DevelopmentOutline::DigitalRaw { .. } => SignalDomain::SceneLinear,
            },
            OperationOutline::Print(_) => SignalDomain::DisplayLinear,
            OperationOutline::OutputTransform(_) => SignalDomain::DisplayLinear,
            OperationOutline::Display { .. } => SignalDomain::DisplayEncoded,
        }
    }
}

// ---------------------------------------------------------------------------
// Validation.

/// The index of the first enabled node at or after `i`, or the length.
pub open spec fn first_enabled_from(nodes: Seq<NodeOutline>, i: int) -> int
    decreases nodes.len() - i,
{
    if i >= nodes.len() {
        nodes.len() as int
    } else if nodes[i].enabled {
        i
    } else {
        first_enabled_from(nodes, i + 1)
    }
}

/// An enabled source follows position `i`.
pub open spec fn source_after(nodes: Seq<NodeOutline>, i: int) -> bool {
    exists|j: int| i < j < nodes.len() && nodes[j].enabled && nodes[j].operation is Source
}

/// A node's id is blank or repeats an earlier node's.
pub open spec fn id_rejected(nodes: Seq<NodeOutline>, i: int) -> bool {
    blank(nodes[i].id@) || exists|j: int| 0 <= j < i && nodes[j].id@ == nodes[i].id@
}

/// The index of the first rejected id at or after `i`, or the length.
pub open spec fn first_rejected_id_from(nodes: Seq<NodeOutline>, i: int) -> int
    decreases nodes.len() - i,
{
    if i >= nodes.len() {
        nodes.len() as int
    } else if id_rejected(nodes, i) {
        i
    } else {
        first_rejected_id_from(nodes, i + 1)
    }
}

/// Follows the signal through the enabled nodes from position `i`, holding
/// `domain`: the final domain, or the first stage that cannot accept it.
pub open spec fn domain_flow(nodes: Seq<NodeOutline>, i: int, domain: SignalDomain) -> Result<SignalDomain, PipelineFault>
    decreases nodes.len() - i,
{
    if i >= nodes.len() {
        Ok(domain)
    } else if !nodes[i].enabled {
        domain_flow(nodes, i + 1, domain)
    } else if input_domain_of(nodes[i].operation) != Some(domain) {
        Err(
            PipelineFault::DomainMismatch {
                node_id: nodes[i].id@,
                expected: input_domain_of(nodes[i].operation)->0,
                actual: domain,
            },
        )
    } else {
        domain_flow(nodes, i + 1, output_domain_of(nodes[i].operation))
    }
}

/// Why a pipeline is invalid, in the order the checks are made.
pub open spec fn pipeline_fault(schema_version: u32, nodes: Seq<NodeOutline>) -> Option<PipelineFault> {
    let first = first_enabled_from(nodes, 0);
    if schema_version == 0 {
        Some(PipelineFault::InvalidSchemaVersion)
    } else if nodes.len() == 0 || first == nodes.len() {
        Some(PipelineFault::Empty)
    } else if !(nodes[first].operation is Source) {
        Some(PipelineFault::SourceMustBeFirst)
    } else if source_after(nodes, first) {
        Some(PipelineFault::MultipleSources)
    } else if first_rejected_id_from(nodes, 0) < nodes.len() {
        Some(PipelineFault::InvalidNodeId(nodes[first_rejected_id_from(nodes, 0)].id@))
    } else {
        match domain_flow(nodes, first + 1, output_domain_of(nodes[first].operation)) {
            Err(f) => Some(f),
            Ok(d) => if d != SignalDomain::DisplayEncoded {
                Some(PipelineFault::Incomplete { final_domain: d })
            } else {
                None
            },
        }
    }
}

fn first_enabled(nodes: &Vec<NodeOutline>) -> (r: usize)
    ensures
        r == first_enabled_from(nodes@, 0),
        r <= nodes@.len(),
{
    let mut i: usize = 0;
    while i < nodes.len() && !nodes[i].enabled
        invariant
            i <= nodes@.len(),
            first_enabled_from(nodes@, 0) == first_enabled_from(nodes@, i as int),
        decreases nodes.len() - i,
    {
        i = i + 1;
    }
    i
}

fn has_source_after(nodes: &Vec<NodeOutline>, first: usize) -> (r: bool)
    requires
        first < nodes@.len(),
    ensures
        r == source_after(nodes@, first as int),
{
    let _n: usize = nodes.len();
    let mut j: usize = first + 1;
    while j < nodes.len()
        invariant
            first < j <= nodes@.len(),
            forall|k: int| first < k < j ==> !(nodes@[k].enabled && nodes@[k].operation is Source),
        decreases nodes.len() - j,
    {
        if nodes[j].enabled && matches!(nodes[j].operation, OperationOutline::Source(_)) {
            return true;
        }
        j = j + 1;
    }
    false
}

fn repeats_earlier(nodes: &Vec<NodeOutline>, i: usize) -> (r: bool)
    requires
        i < nodes@.len(),
    ensures
        r == exists|j: int| 0 <= j < i && nodes@[j].id@ == nodes@[i as int].id@,
{
    let mut j: usize = 0;
    while j < i
        invariant
            i < nodes@.len(),
            j <= i,
            forall|k: int| 0 <= k < j ==> nodes@[k].id@ != nodes@[i as int].id@,
        decreases i - j,
    {
        if str_eq(nodes[j].id.as_str(), nodes[i].id.as_str()) {
            return true;
        }
        j = j + 1;
    }
    false
}

fn first_rejected_id(nodes: &Vec<NodeOutline>) -> (r: usize)
    ensures
        r == first_rejected_id_from(nodes@, 0),
{
    let mut i: usize = 0;
    while i < nodes.len()
        invariant
            i <= nodes@.len(),
            first_rejected_id_from(nodes@, 0) == first_rejected_id_from(nodes@, i as int),
        decreases nodes.len() - i,
    {
        if is_blank(nodes[i].id.as_str()) || repeats_earlier(nodes, i) {
            return i;
        }
        i = i + 1;
    }
    i
}

impl PipelineOutline {
    /// Checks the chain's structure: a leading source, distinct ids, matching
    /// domains between consecutive enabled stages, and a display-encoded end.
    #[verifier::loop_isolation(false)]
    pub fn validate(&self) -> (r: Result<(), PipelineError>)
        ensures
            match pipeline_fault(self.schema_version, self.nodes@) {
                None => r is Ok,
                Some(f) => r matches Err(e) && e@ == f,
            },
    {
        if self.schema_version == 0 {
            return Err(PipelineError::InvalidSchemaVersion);
        }
        let nodes = &self.nodes;
        let first = first_enabled(nodes);
        if nodes.len() == 0 || first == nodes.len() {
            return Err(PipelineError::Empty);
        }
        if !matches!(nodes[first].operation, OperationOutline::Source(_)) {
            return Err(PipelineError::SourceMustBeFirst);
        }
        if has_source_after(nodes, first) {
            return Err(PipelineError::MultipleSources);
        }
        let rejected = first_rejected_id(nodes);
        if rejected < nodes.len() {
            return Err(PipelineError::InvalidNodeId(nodes[rejected].id.clone()));
        }
        let mut domain = nodes[first].operation.output_domain();
        let mut i: usize = first + 1;
        while i < nodes.len()
            invariant
                first < i <= nodes@.len(),
                !source_after(nodes@, first as int),
                domain_flow(nodes@, first + 1, output_domain_of(nodes@[first as int].operation)) == domain_flow(
                    nodes@,
                    i as int,
                    domain,
                ),
            decreases nodes.len() - i,
        {
            let node = &nodes[i];
            if node.enabled {
                assert(!(nodes@[i as int].operation is Source));
                match node.operation.input_domain() {
                    Some(expected) => {
                        if expected != domain {
                            return Err(
                                PipelineError::DomainMismatch { node_id: node.id.clone(), expected, actual: domain },
                            );
                        }
                    },
                    None => return Err(PipelineError::MultipleSources),
                }
                domain = node.operation.output_domain();
            }
            i = i + 1;
        }
        if domain != SignalDomain::DisplayEncoded {
            return Err(PipelineError::Incomplete { final_domain: domain });
        }
        Ok(())
    }
}

} // verus!
