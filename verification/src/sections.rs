//! Section lookup in a parsed model artifact and predictor-layout
//! resolution.

use vstd::prelude::*;

use crate::artifact::{
    decode_node_debug_stats_payload, decode_predictor_layout_payload, spec_decode_debug_records,
    spec_node_debug_stats_ok, spec_predictor_layout_ok, NodeDebugStatsRecord,
    PredictorLayoutPayload,
};
use crate::bytes::spec_read_u32;
use crate::error::{text_with_name, EngineError, EngineResult};

verus! {

/// Kind of a model artifact section.
#[derive(Debug, Clone, Copy, PartialEq, Eq, Structural)]
pub enum SectionKind {
    Trees,
    PredictorLayout,
    NodeDebugStats,
    MultiClassTrees,
    CategoricalState,
    MorphMetadata,
    DroMetadata,
    LinearLeafCoefficients,
    DartTreeWeights,
}

/// The name of a section kind.
pub open spec fn spec_section_kind_name(kind: SectionKind) -> Seq<char> {
    match kind {
        SectionKind::Trees => "Trees"@,
        SectionKind::PredictorLayout => "PredictorLayout"@,
        SectionKind::NodeDebugStats => "NodeDebugStats"@,
        SectionKind::MultiClassTrees => "MultiClassTrees"@,
        SectionKind::CategoricalState => "CategoricalState"@,
        SectionKind::MorphMetadata => "MorphMetadata"@,
        SectionKind::DroMetadata => "DroMetadata"@,
        SectionKind::LinearLeafCoefficients => "LinearLeafCoefficients"@,
        SectionKind::DartTreeWeights => "DartTreeWeights"@,
    }
}

impl SectionKind {
    /// The section kind's name, as error messages show it.
    pub fn name(&self) -> (r: &'static str)
        ensures
            r@ == spec_section_kind_name(*self),
    {
        match self {
            SectionKind::Trees => "Trees",
            SectionKind::PredictorLayout => "PredictorLayout",
            SectionKind::NodeDebugStats => "NodeDebugStats",
            SectionKind::MultiClassTrees => "MultiClassTrees",
            SectionKind::CategoricalState => "CategoricalState",
            SectionKind::MorphMetadata => "MorphMetadata",
            SectionKind::DroMetadata => "DroMetadata",
            SectionKind::LinearLeafCoefficients => "LinearLeafCoefficients",
            SectionKind::DartTreeWeights => "DartTreeWeights",
        }
    }
}

/// One section of a parsed artifact: its kind and raw payload.
#[derive(Debug, Clone)]
pub struct ArtifactSection {
    pub kind: SectionKind,
    pub payload: Vec<u8>,
}

/// How strictly a loader treats artifacts that lack newer sections.
#[derive(Debug, Clone, Copy, PartialEq, Eq, Structural)]
pub enum ArtifactCompatibilityMode {
    /// Every required section must be present.
    Strict,
    /// An artifact made of a single Trees section is accepted.
    AllowLegacyTreesOnly,
}

/// No section of `kind` is present.
pub open spec fn spec_no_section(s: Seq<ArtifactSection>, kind: SectionKind) -> bool {
    forall|j: int| 0 <= j < s.len() ==> (#[trigger] s[j]).kind != kind
}

/// Two or more sections of `kind` are present.
pub open spec fn spec_duplicate_sections(s: Seq<ArtifactSection>, kind: SectionKind) -> bool {
    exists|i: int, j: int|
        0 <= i < j < s.len() && (#[trigger] s[i]).kind == kind && (#[trigger] s[j]).kind == kind
}

/// Section `i` is the one and only section of `kind`.
pub open spec fn spec_only_section_at(s: Seq<ArtifactSection>, kind: SectionKind, i: int) -> bool {
    &&& 0 <= i < s.len()
    &&& s[i].kind == kind
    &&& forall|j: int| 0 <= j < s.len() && j != i ==> (#[trigger] s[j]).kind != kind
}

/// The single section of `kind`, if any; two or more are a contract
/// violation.
pub fn optional_single_section(sections: &[ArtifactSection], kind: SectionKind) -> (r: EngineResult<
    Option<&ArtifactSection>,
>)
    ensures
        r is Err <==> spec_duplicate_sections(sections@, kind),
        r matches Ok(None) <==> spec_no_section(sections@, kind),
        r matches Ok(Some(sec)) ==> exists|i: int|
            spec_only_section_at(sections@, kind, i) && sections@[i] == *sec,
        r matches Err(e) ==> e is ContractViolation,
{
    let mut found: Option<usize> = None;
    let mut i: usize = 0;
    while i < sections.len()
        invariant
            i <= sections@.len(),
            found is None ==> forall|j: int| 0 <= j < i ==> (#[trigger] sections@[j]).kind != kind,
            found matches Some(f) ==> f < i && sections@[f as int].kind == kind && forall|j: int|
                0 <= j < i && j != f ==> (#[trigger] sections@[j]).kind != kind,
        decreases sections.len() - i,
    {
        if sections[i].kind == kind {
            if let Some(f) = found {
                proof {
                    assert(sections@[f as int].kind == kind && sections@[i as int].kind == kind);
                }
                return Err(
                    EngineError::ContractViolation(
                        text_with_name(
                            "model artifact contains duplicate required ",
                            kind.name(),
                            " sections",
                        ),
                    ),
                );
            }
            found = Some(i);
        }
        i = i + 1;
    }
    match found {
        None => Ok(None),
        Some(f) => {
            proof {
                assert(spec_only_section_at(sections@, kind, f as int));
                assert forall|a: int, b: int|
                    0 <= a < b < sections@.len() && (#[trigger] sections@[a]).kind == kind implies (
                    #[trigger] sections@[b]).kind != kind by {
                    if a != f as int {
                        assert(sections@[a].kind != kind);
                    }
                }
            }
            Ok(Some(&sections[f]))
        },
    }
}

/// The single section of `kind`; none, or two or more, is a contract
/// violation.
pub fn required_single_section(sections: &[ArtifactSection], kind: SectionKind) -> (r: EngineResult<
    &ArtifactSection,
>)
    ensures
        r is Ok <==> !spec_no_section(sections@, kind) && !spec_duplicate_sections(sections@, kind),
        r matches Ok(sec) ==> exists|i: int|
            spec_only_section_at(sections@, kind, i) && sections@[i] == *sec,
        r matches Err(e) ==> e is ContractViolation,
{
    match optional_single_section(sections, kind) {
        Err(e) => Err(e),
        Ok(None) => Err(
            EngineError::ContractViolation(
                text_with_name("model artifact missing required ", kind.name(), " section"),
            ),
        ),
        Ok(Some(sec)) => {
            proof {
                let i = choose|i: int| spec_only_section_at(sections@, kind, i) && sections@[i] == *sec;
                assert(sections@[i].kind == kind);
            }
            Ok(sec)
        },
    }
}

/// The predictor layout an artifact implies: its single PredictorLayout
/// section, or, in legacy mode, the metadata's feature count for an artifact
/// made of one Trees section.
pub fn resolve_predictor_layout(
    sections: &[ArtifactSection],
    metadata_feature_count: usize,
    compatibility_mode: ArtifactCompatibilityMode,
) -> (r: EngineResult<PredictorLayoutPayload>)
    ensures
        spec_duplicate_sections(sections@, SectionKind::PredictorLayout) ==> r is Err,
        forall|i: int|
            #![trigger sections@[i]]
            spec_only_section_at(sections@, SectionKind::PredictorLayout, i) ==> {
                &&& r is Ok <==> spec_predictor_layout_ok(sections@[i].payload@)
                &&& r matches Ok(p) ==> p.feature_count == spec_read_u32(sections@[i].payload@, 4)
            },
        spec_no_section(sections@, SectionKind::PredictorLayout) ==> {
            &&& r is Ok <==> (compatibility_mode == ArtifactCompatibilityMode::AllowLegacyTreesOnly
                && sections@.len() == 1 && sections@[0].kind == SectionKind::Trees)
            &&& r matches Ok(p) ==> p.feature_count == metadata_feature_count
        },
        r matches Err(e) ==> e is ContractViolation,
{
    match optional_single_section(sections, SectionKind::PredictorLayout) {
        Err(e) => Err(e),
        Ok(Some(section)) => {
            let r = decode_predictor_layout_payload(section.payload.as_slice());
            proof {
                let w = choose|w: int|
                    spec_only_section_at(sections@, SectionKind::PredictorLayout, w) && sections@[w]
                        == *section;
                assert forall|i: int|
                    spec_only_section_at(
                        sections@,
                        SectionKind::PredictorLayout,
                        i,
                    ) implies #[trigger] sections@[i] == *section by {
                    if i != w {
                        assert(sections@[i].kind != SectionKind::PredictorLayout);
                    }
                }
            }
            r
        },
        Ok(None) => {
            if compatibility_mode == ArtifactCompatibilityMode::AllowLegacyTreesOnly
                && sections.len() == 1 && sections[0].kind == SectionKind::Trees {
                return Ok(PredictorLayoutPayload { feature_count: metadata_feature_count });
            }
            Err(
                EngineError::ContractViolation(
                    "model artifact missing required PredictorLayout section".to_string(),
                ),
            )
        },
    }
}

/// The records of the artifact's NodeDebugStats section, if it has one.
pub fn decode_optional_node_debug_stats_section(sections: &[ArtifactSection]) -> (r: EngineResult<
    Option<Vec<NodeDebugStatsRecord>>,
>)
    ensures
        spec_duplicate_sections(sections@, SectionKind::NodeDebugStats) ==> r is Err,
        spec_no_section(sections@, SectionKind::NodeDebugStats) ==> r matches Ok(None),
        forall|i: int|
            #![trigger sections@[i]]
            spec_only_section_at(sections@, SectionKind::NodeDebugStats, i) ==> {
                let b = sections@[i].payload@;
                &&& r is Ok <==> spec_node_debug_stats_ok(b)
                &&& r is Ok ==> (r matches Ok(Some(_)))
                &&& r matches Ok(Some(recs)) ==> recs@ == spec_decode_debug_records(
                    b,
                    8,
                    spec_read_u32(b, 4) as nat,
                )
            },
        r matches Err(e) ==> e is ContractViolation,
{
    match optional_single_section(sections, SectionKind::NodeDebugStats) {
        Err(e) => Err(e),
        Ok(None) => Ok(None),
        Ok(Some(section)) => {
            let r = decode_node_debug_stats_payload(section.payload.as_slice());
            proof {
                let w = choose|w: int|
                    spec_only_section_at(sections@, SectionKind::NodeDebugStats, w) && sections@[w]
                        == *section;
                assert forall|i: int|
                    spec_only_section_at(
                        sections@,
                        SectionKind::NodeDebugStats,
                        i,
                    ) implies #[trigger] sections@[i] == *section by {
                    if i != w {
                        assert(sections@[i].kind != SectionKind::NodeDebugStats);
                    }
                }
            }
            match r {
                Ok(recs) => Ok(Some(recs)),
                Err(e) => Err(e),
            }
        },
    }
}

} // verus!
