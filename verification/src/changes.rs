//! Change classification: what kind of change relates two code elements,
//! how much impact it has, and how it is described.
use vstd::prelude::*;
use crate::text::{is_substring, str_contains, usize_to_decimal, decimal, push_decimal};

verus! {

/// Kinds of change between a source and a target code element.
#[derive(Debug, Clone, Copy, PartialEq, Eq, Structural)]
pub enum ChangeType {
    Add,
    Delete,
    Modify,
    Rename,
    Move,
    CrossFileMove,
    Split,
    Merge,
}

/// A named element of code and where it stands.
#[derive(Debug, Clone)]
pub struct CodeElement {
    pub name: String,
    pub file_path: String,
    pub start_line: usize,
    pub end_line: usize,
    pub element_type: String,
}

/// Visibility of a function signature.
#[derive(Debug, Clone, Copy, PartialEq, Eq, Structural)]
pub enum SignatureVisibility {
    Public,
    Private,
    Protected,
    Internal,
    Package,
}

/// What change assessment reads of a function signature.
#[derive(Debug, Clone)]
pub struct SignatureInfo {
    pub name: String,
    pub parameter_count: usize,
    /// The return type, in its written form.
    pub return_type: String,
    pub visibility: SignatureVisibility,
    /// Cyclomatic complexity, where it was measured.
    pub cyclomatic_complexity: Option<u32>,
}

/// Levels of change impact.
#[derive(Debug, Clone, Copy, PartialEq, Eq, Structural)]
pub enum ImpactLevel {
    Minimal,
    Low,
    Medium,
    High,
    Critical,
}

/// Levels of implementation effort.
#[derive(Debug, Clone, Copy, PartialEq, Eq, Structural)]
pub enum EffortLevel {
    Trivial,
    Low,
    Medium,
    High,
    VeryHigh,
}

/// Levels of risk.
#[derive(Debug, Clone, Copy, PartialEq, Eq, Structural)]
pub enum RiskLevel {
    VeryLow,
    Low,
    Medium,
    High,
    VeryHigh,
}

/// Types of change characteristics.
#[derive(Debug, Clone, Copy, PartialEq, Eq, Structural)]
pub enum CharacteristicType {
    NameSimilarity,
    StructuralSimilarity,
    ContentSimilarity,
    LocationChange,
    SizeChange,
    ComplexityChange,
    DependencyChange,
    SignatureChange,
}

/// Types of classification evidence.
#[derive(Debug, Clone, Copy, PartialEq, Eq, Structural)]
pub enum EvidenceType {
    NameMatch,
    SignatureMatch,
    ASTMatch,
    ContentSimilarity,
    LocationEvidence,
    DependencyEvidence,
    TemporalEvidence,
}

/// Change impact assessment.
#[derive(Debug, Clone)]
pub struct ChangeImpact {
    pub impact_level: ImpactLevel,
    pub affected_components: Vec<String>,
    pub implementation_effort: EffortLevel,
    pub risk_level: RiskLevel,
    pub is_breaking_change: bool,
}

/// Where an overall similarity score stands against the bounds that impact
/// assessment uses: below 0.3, from 0.3 up to 0.6, or 0.6 and above.
#[derive(Debug, Clone, Copy, PartialEq, Eq, Structural)]
pub enum SimilarityBand {
    BelowThreeTenths,
    BelowSixTenths,
    SixTenthsOrMore,
}

// ---------------------------------------------------------------------------
// Classification
// ---------------------------------------------------------------------------

/// The kind of change between an optional source and an optional target.
pub open spec fn change_kind(source: Option<CodeElement>, target: Option<CodeElement>) -> ChangeType {
    match (source, target) {
        (None, Some(_)) => ChangeType::Add,
        (Some(_), None) => ChangeType::Delete,
        (Some(s), Some(t)) => {
            if s.name@ != t.name@ {
                if s.file_path@ != t.file_path@ {
                    ChangeType::CrossFileMove
                } else {
                    ChangeType::Rename
                }
            } else if s.file_path@ != t.file_path@ {
                ChangeType::CrossFileMove
            } else if s.start_line != t.start_line {
                ChangeType::Move
            } else {
                ChangeType::Modify
            }
        },
        (None, None) => ChangeType::Modify,
    }
}

pub open spec fn opt_elem(o: Option<&CodeElement>) -> Option<CodeElement> {
    match o {
        Some(e) => Some(*e),
        None => None,
    }
}

/// How two elements are classified: an element only in the target is
/// added, one only in the source deleted; across files the change is a
/// cross-file move; within one file a change of name is a rename wherever
/// the element stands, and an element keeping its name is moved when its
/// line changed and modified otherwise.
pub proof fn lemma_change_kind_laws(s: CodeElement, t: CodeElement)
    ensures
        change_kind(None, Some(t)) == ChangeType::Add,
        change_kind(Some(s), None) == ChangeType::Delete,
        s.file_path@ != t.file_path@ ==> change_kind(Some(s), Some(t)) == ChangeType::CrossFileMove,
        s.name@ != t.name@ && s.file_path@ == t.file_path@ ==> change_kind(Some(s), Some(t)) == ChangeType::Rename,
        (change_kind(Some(s), Some(t)) == ChangeType::Move) <==> (s.name@ == t.name@ && s.file_path@ == t.file_path@
            && s.start_line != t.start_line),
        (change_kind(Some(s), Some(t)) == ChangeType::Modify) <==> (s.name@ == t.name@ && s.file_path@ == t.file_path@
            && s.start_line == t.start_line),
{
}

/// Simple change classification of an optional source and target element.
pub fn classify_change(source: Option<&CodeElement>, target: Option<&CodeElement>) -> (res: ChangeType)
    ensures
        res == change_kind(opt_elem(source), opt_elem(target)),
        source is None && target is Some ==> res == ChangeType::Add,
        source is Some && target is None ==> res == ChangeType::Delete,
        source is Some && target is Some && source->0.file_path@ != target->0.file_path@
            ==> res == ChangeType::CrossFileMove,
        source is Some && target is Some && source->0.name@ != target->0.name@
            && source->0.file_path@ == target->0.file_path@ ==> res == ChangeType::Rename,
        source is Some && target is Some ==> ((res == ChangeType::Move) == (source->0.name@ == target->0.name@
            && source->0.file_path@ == target->0.file_path@ && source->0.start_line != target->0.start_line)),
        source is Some && target is Some ==> ((res == ChangeType::Modify) == (source->0.name@ == target->0.name@
            && source->0.file_path@ == target->0.file_path@ && source->0.start_line == target->0.start_line)),
{
    proof {
        match (source, target) {
            (Some(s), Some(t)) => lemma_change_kind_laws(*s, *t),
            (Some(s), None) => lemma_change_kind_laws(*s, *s),
            (None, Some(t)) => lemma_change_kind_laws(*t, *t),
            (None, None) => {},
        }
    }
    match (source, target) {
        (None, Some(_)) => ChangeType::Add,
        (Some(_), None) => ChangeType::Delete,
        (Some(src), Some(tgt)) => {
            if src.name != tgt.name {
                if src.file_path != tgt.file_path {
                    ChangeType::CrossFileMove
                } else {
                    ChangeType::Rename
                }
            } else if src.file_path != tgt.file_path {
                ChangeType::CrossFileMove
            } else if src.start_line != tgt.start_line {
                ChangeType::Move
            } else {
                ChangeType::Modify
            }
        },
        (None, None) => ChangeType::Modify,
    }
}

/// Each name of `names` contains `name` or is contained in it.
pub open spec fn all_names_related(names: Seq<CodeElement>, name: Seq<char>) -> bool {
    forall|i: int| 0 <= i < names.len() ==> (is_substring(#[trigger] names[i].name@, name) || is_substring(name, names[i].name@))
}

fn names_related(elems: &Vec<CodeElement>, name: &String) -> (res: bool)
    ensures
        res == all_names_related(elems@, name@),
{
    let mut i: usize = 0;
    while i < elems.len()
        invariant
            i <= elems.len(),
            forall|k: int| 0 <= k < i ==> (is_substring(#[trigger] elems@[k].name@, name@) || is_substring(name@, elems@[k].name@)),
        decreases elems.len() - i,
    {
        let e = &elems[i];
        if !(str_contains(e.name.as_str(), name.as_str()) || str_contains(name.as_str(), e.name.as_str())) {
            return false;
        }
        i += 1;
    }
    true
}

/// A change splits `source` into `targets` when there is more than one
/// target and every target name contains the source name or is contained in it.
pub fn detect_split(source: &CodeElement, targets: &Vec<CodeElement>) -> (res: bool)
    ensures
        res == (targets.len() > 1 && all_names_related(targets@, source.name@)),
{
    targets.len() > 1 && names_related(targets, &source.name)
}

/// Changes merge `sources` into `target` when there is more than one source
/// and every source name contains the target name or is contained in it.
pub fn detect_merge(sources: &Vec<CodeElement>, target: &CodeElement) -> (res: bool)
    ensures
        res == (sources.len() > 1 && all_names_related(sources@, target.name@)),
{
    sources.len() > 1 && names_related(sources, &target.name)
}

// ---------------------------------------------------------------------------
// Impact
// ---------------------------------------------------------------------------

/// One step up the impact scale from Low or Medium; other levels stay.
pub open spec fn raise_impact(l: ImpactLevel) -> ImpactLevel {
    match l {
        ImpactLevel::Low => ImpactLevel::Medium,
        ImpactLevel::Medium => ImpactLevel::High,
        other => other,
    }
}

fn raise_impact_exec(l: ImpactLevel) -> (res: ImpactLevel)
    ensures
        res == raise_impact(l),
{
    match l {
        ImpactLevel::Low => ImpactLevel::Medium,
        ImpactLevel::Medium => ImpactLevel::High,
        other => other,
    }
}

/// Impact of adding `target`: a complexity above 10 makes it Medium, above 20
/// High (impact, effort and risk alike); a public signature raises a Medium
/// impact to High, while a simple public function stays Low; with a
/// signature the element is the affected component.  Additions never break.
pub open spec fn addition_impact_levels(sig: Option<SignatureInfo>) -> (ImpactLevel, EffortLevel, RiskLevel) {
    match sig {
        None => (ImpactLevel::Low, EffortLevel::Low, RiskLevel::Low),
        Some(s) => {
            let base = match s.cyclomatic_complexity {
                Some(c) => if c > 20 {
                    (ImpactLevel::High, EffortLevel::High, RiskLevel::High)
                } else if c > 10 {
                    (ImpactLevel::Medium, EffortLevel::Medium, RiskLevel::Medium)
                } else {
                    (ImpactLevel::Low, EffortLevel::Low, RiskLevel::Low)
                },
                None => (ImpactLevel::Low, EffortLevel::Low, RiskLevel::Low),
            };
            if s.visibility == SignatureVisibility::Public && base.0 == ImpactLevel::Medium {
                (ImpactLevel::High, base.1, base.2)
            } else {
                base
            }
        },
    }
}

pub open spec fn opt_sig(o: Option<&SignatureInfo>) -> Option<SignatureInfo> {
    match o {
        Some(s) => Some(*s),
        None => None,
    }
}

/// How adding a function is assessed: with no signature everything is Low;
/// a complexity above 20 makes impact, effort and risk High; one above 10
/// (and at most 20) makes effort and risk Medium and the impact Medium, or
/// High for a public function; a function of complexity at most 10, or with
/// no complexity known, is Low on every count whatever its visibility.
pub proof fn lemma_addition_impact_laws(sig: SignatureInfo)
    ensures
        addition_impact_levels(None) == (ImpactLevel::Low, EffortLevel::Low, RiskLevel::Low),
        (sig.cyclomatic_complexity is Some && sig.cyclomatic_complexity->0 > 20) ==> addition_impact_levels(Some(sig))
            == (ImpactLevel::High, EffortLevel::High, RiskLevel::High),
        (sig.cyclomatic_complexity is Some && 10 < sig.cyclomatic_complexity->0 <= 20) ==> {
            &&& addition_impact_levels(Some(sig)).1 == EffortLevel::Medium
            &&& addition_impact_levels(Some(sig)).2 == RiskLevel::Medium
            &&& sig.visibility == SignatureVisibility::Public ==> addition_impact_levels(Some(sig)).0 == ImpactLevel::High
            &&& sig.visibility != SignatureVisibility::Public ==> addition_impact_levels(Some(sig)).0 == ImpactLevel::Medium
        },
        !(sig.cyclomatic_complexity is Some && sig.cyclomatic_complexity->0 > 10) ==> addition_impact_levels(Some(sig))
            == (ImpactLevel::Low, EffortLevel::Low, RiskLevel::Low),
{
}

/// Impact of adding `target`.
pub fn assess_addition_impact(target: &CodeElement, target_signature: Option<&SignatureInfo>) -> (res: ChangeImpact)
    ensures
        (res.impact_level, res.implementation_effort, res.risk_level) == addition_impact_levels(opt_sig(target_signature)),
        !res.is_breaking_change,
        (target_signature is Some && target_signature->0.cyclomatic_complexity is Some
            && target_signature->0.cyclomatic_complexity->0 > 20) ==> res.impact_level == ImpactLevel::High
            && res.implementation_effort == EffortLevel::High && res.risk_level == RiskLevel::High,
        !(target_signature is Some && target_signature->0.cyclomatic_complexity is Some
            && target_signature->0.cyclomatic_complexity->0 > 10) ==> res.impact_level == ImpactLevel::Low
            && res.implementation_effort == EffortLevel::Low && res.risk_level == RiskLevel::Low,
        target_signature is Some ==> res.affected_components@.len() == 1 && res.affected_components@[0]@ == target.name@,
        target_signature is None ==> res.affected_components@.len() == 0,
{
    let mut impact_level = ImpactLevel::Low;
    let mut effort_level = EffortLevel::Low;
    let mut risk_level = RiskLevel::Low;
    let mut affected_components: Vec<String> = Vec::new();
    proof {
        if let Some(signature) = target_signature {
            lemma_addition_impact_laws(*signature);
        }
    }
    if let Some(signature) = target_signature {
        if let Some(complexity) = signature.cyclomatic_complexity {
            if complexity > 10 {
                impact_level = ImpactLevel::Medium;
                effort_level = EffortLevel::Medium;
                risk_level = RiskLevel::Medium;
            }
            if complexity > 20 {
                impact_level = ImpactLevel::High;
                effort_level = EffortLevel::High;
                risk_level = RiskLevel::High;
            }
        }
        if signature.visibility == SignatureVisibility::Public && impact_level == ImpactLevel::Medium {
            impact_level = ImpactLevel::High;
        }
        affected_components.push(target.name.clone());
    }
    ChangeImpact {
        impact_level,
        affected_components,
        implementation_effort: effort_level,
        risk_level,
        is_breaking_change: false,
    }
}

/// Impact of deleting `source`: Medium impact, Low effort, Medium risk; a
/// public signature makes impact and risk High and the change breaking; a
/// complexity above 10 makes impact High and effort Medium.
pub open spec fn deletion_impact_levels(sig: Option<SignatureInfo>) -> (ImpactLevel, EffortLevel, RiskLevel, bool) {
    match sig {
        None => (ImpactLevel::Medium, EffortLevel::Low, RiskLevel::Medium, false),
        Some(s) => {
            let public = s.visibility == SignatureVisibility::Public;
            let complex = match s.cyclomatic_complexity {
                Some(c) => c > 10,
                None => false,
            };
            (
                if public || complex { ImpactLevel::High } else { ImpactLevel::Medium },
                if complex { EffortLevel::Medium } else { EffortLevel::Low },
                if public { RiskLevel::High } else { RiskLevel::Medium },
                public,
            )
        },
    }
}

/// What deleting a function costs: never less than Medium impact and risk;
/// a function more complex than 10 has High impact and Medium effort,
/// whatever its visibility; a public one has High impact and risk and its
/// deletion breaks callers; a deletion breaks callers only when the
/// function is public; simple functions take Low effort.
pub proof fn lemma_deletion_impact_laws(sig: SignatureInfo)
    ensures
        (sig.cyclomatic_complexity matches Some(c) && c > 10) ==> deletion_impact_levels(Some(sig)).0 == ImpactLevel::High
            && deletion_impact_levels(Some(sig)).1 == EffortLevel::Medium,
        !(sig.cyclomatic_complexity matches Some(c) && c > 10) ==> deletion_impact_levels(Some(sig)).1 == EffortLevel::Low,
        sig.visibility == SignatureVisibility::Public ==> deletion_impact_levels(Some(sig)).0 == ImpactLevel::High
            && deletion_impact_levels(Some(sig)).2 == RiskLevel::High && deletion_impact_levels(Some(sig)).3,
        sig.visibility != SignatureVisibility::Public ==> deletion_impact_levels(Some(sig)).2 == RiskLevel::Medium
            && !deletion_impact_levels(Some(sig)).3,
        sig.visibility != SignatureVisibility::Public && !(sig.cyclomatic_complexity matches Some(c) && c > 10)
            ==> deletion_impact_levels(Some(sig)).0 == ImpactLevel::Medium,
        deletion_impact_levels(None) == (ImpactLevel::Medium, EffortLevel::Low, RiskLevel::Medium, false),
{
}

/// Impact of deleting `source`.
pub fn assess_deletion_impact(source: &CodeElement, source_signature: Option<&SignatureInfo>) -> (res: ChangeImpact)
    ensures
        (res.impact_level, res.implementation_effort, res.risk_level, res.is_breaking_change)
            == deletion_impact_levels(opt_sig(source_signature)),
        (source_signature is Some && source_signature->0.cyclomatic_complexity is Some
            && source_signature->0.cyclomatic_complexity->0 > 10) ==> res.impact_level == ImpactLevel::High && res.implementation_effort == EffortLevel::Medium,
        (source_signature is Some && source_signature->0.visibility == SignatureVisibility::Public)
            ==> res.impact_level == ImpactLevel::High && res.risk_level == RiskLevel::High && res.is_breaking_change,
        res.is_breaking_change ==> (source_signature matches Some(sig) && sig.visibility == SignatureVisibility::Public),
        source_signature is Some ==> res.affected_components@.len() == 1 && res.affected_components@[0]@ == source.name@,
        source_signature is None ==> res.affected_components@.len() == 0,
{
    let mut impact_level = ImpactLevel::Medium;
    let mut effort_level = EffortLevel::Low;
    let mut risk_level = RiskLevel::Medium;
    let mut affected_components: Vec<String> = Vec::new();
    let mut is_breaking_change = false;
    if let Some(signature) = source_signature {
        if signature.visibility == SignatureVisibility::Public {
            impact_level = ImpactLevel::High;
            risk_level = RiskLevel::High;
            is_breaking_change = true;
        }
        if let Some(complexity) = signature.cyclomatic_complexity {
            if complexity > 10 {
                impact_level = ImpactLevel::High;
                effort_level = EffortLevel::Medium;
            }
        }
        affected_components.push(source.name.clone());
    }
    ChangeImpact {
        impact_level,
        affected_components,
        implementation_effort: effort_level,
        risk_level,
        is_breaking_change,
    }
}

/// Levels after the similarity and location steps of modification impact.
pub open spec fn modification_base(band: Option<SimilarityBand>, cross_file: bool) -> (ImpactLevel, EffortLevel, RiskLevel) {
    let b = match band {
        Some(SimilarityBand::BelowThreeTenths) => (ImpactLevel::High, EffortLevel::High, RiskLevel::High),
        Some(SimilarityBand::BelowSixTenths) => (ImpactLevel::Medium, EffortLevel::Medium, RiskLevel::Medium),
        _ => (ImpactLevel::Low, EffortLevel::Low, RiskLevel::Low),
    };
    if cross_file {
        (raise_impact(b.0), EffortLevel::Medium, b.2)
    } else {
        b
    }
}

/// Impact of modifying `source` into `target`: low similarity raises all
/// levels (High below 0.3, Medium below 0.6); a move to another file raises
/// the impact one step and makes the effort Medium; with both signatures, a
/// changed parameter count makes impact and risk High and the change
/// breaking, a changed return type makes impact High and the change
/// breaking, narrowing a public function makes impact High and the change
/// breaking, and publishing a function raises a Low impact to Medium.
pub open spec fn modification_impact_levels(
    band: Option<SimilarityBand>,
    cross_file: bool,
    sigs: Option<(SignatureInfo, SignatureInfo)>,
) -> (ImpactLevel, EffortLevel, RiskLevel, bool) {
    let b = modification_base(band, cross_file);
    match sigs {
        None => (b.0, b.1, b.2, false),
        Some((s, t)) => {
            let params_changed = s.parameter_count != t.parameter_count;
            let return_changed = s.return_type@ != t.return_type@;
            let narrowed = s.visibility != t.visibility && s.visibility == SignatureVisibility::Public;
            let published = s.visibility != t.visibility && s.visibility != SignatureVisibility::Public
                && t.visibility == SignatureVisibility::Public;
            let impact = if params_changed || return_changed || narrowed {
                ImpactLevel::High
            } else if published && b.0 == ImpactLevel::Low {
                ImpactLevel::Medium
            } else {
                b.0
            };
            (
                impact,
                b.1,
                if params_changed { RiskLevel::High } else { b.2 },
                params_changed || return_changed || narrowed,
            )
        },
    }
}

/// How a modification is assessed.  Without both signatures nothing is
/// breaking.  With both: a changed parameter count makes impact and risk High
/// and the change breaking; a changed return type, or a public function made
/// less visible, makes impact High and the change breaking; and the change is
/// breaking in no other case.  A similarity below 0.3 makes impact and risk
/// High, and the effort High within one file; a move to another
/// file makes the effort Medium and the impact at least Medium.  A close
/// match in one file whose signature kept its parameters, return type and
/// visibility is Low on every count.
pub proof fn lemma_modification_impact_laws(
    band: Option<SimilarityBand>,
    cross_file: bool,
    s: SignatureInfo,
    t: SignatureInfo,
)
    ensures
        !modification_impact_levels(band, cross_file, None).3,
        s.parameter_count != t.parameter_count ==> {
            let r = modification_impact_levels(band, cross_file, Some((s, t)));
            r.0 == ImpactLevel::High && r.2 == RiskLevel::High && r.3
        },
        s.return_type@ != t.return_type@ ==> {
            let r = modification_impact_levels(band, cross_file, Some((s, t)));
            r.0 == ImpactLevel::High && r.3
        },
        (s.visibility == SignatureVisibility::Public && t.visibility != SignatureVisibility::Public) ==> {
            let r = modification_impact_levels(band, cross_file, Some((s, t)));
            r.0 == ImpactLevel::High && r.3
        },
        modification_impact_levels(band, cross_file, Some((s, t))).3 <==> (s.parameter_count != t.parameter_count
            || s.return_type@ != t.return_type@ || (s.visibility == SignatureVisibility::Public && t.visibility
            != SignatureVisibility::Public)),
        band == Some(SimilarityBand::BelowThreeTenths) ==> {
            &&& modification_impact_levels(band, cross_file, None) == (ImpactLevel::High, if cross_file {
                EffortLevel::Medium
            } else {
                EffortLevel::High
            }, RiskLevel::High, false)
            &&& modification_impact_levels(band, cross_file, Some((s, t))).0 == ImpactLevel::High
            &&& modification_impact_levels(band, cross_file, Some((s, t))).2 == RiskLevel::High
        },
        cross_file ==> modification_impact_levels(band, cross_file, None).1 == EffortLevel::Medium
            && modification_impact_levels(band, cross_file, Some((s, t))).1 == EffortLevel::Medium,
        cross_file ==> modification_impact_levels(band, cross_file, None).0 != ImpactLevel::Low
            && modification_impact_levels(band, cross_file, Some((s, t))).0 != ImpactLevel::Low,
        (!cross_file && band != Some(SimilarityBand::BelowThreeTenths) && band != Some(SimilarityBand::BelowSixTenths))
            ==> modification_impact_levels(band, cross_file, None) == (ImpactLevel::Low, EffortLevel::Low, RiskLevel::Low, false),
        (!cross_file && band != Some(SimilarityBand::BelowThreeTenths) && band != Some(SimilarityBand::BelowSixTenths)
            && s.parameter_count == t.parameter_count && s.return_type@ == t.return_type@ && s.visibility == t.visibility)
            ==> modification_impact_levels(band, cross_file, Some((s, t))) == (ImpactLevel::Low, EffortLevel::Low,
            RiskLevel::Low, false),
        (s.visibility != SignatureVisibility::Public && t.visibility == SignatureVisibility::Public)
            ==> modification_impact_levels(band, cross_file, Some((s, t))).0 != ImpactLevel::Low,
{
}

pub open spec fn sig_pair(s: Option<&SignatureInfo>, t: Option<&SignatureInfo>) -> Option<(SignatureInfo, SignatureInfo)> {
    match (s, t) {
        (Some(a), Some(b)) => Some((*a, *b)),
        _ => None,
    }
}

/// Impact of modifying `source` into `target`; `similarity` is where the
/// overall similarity stands, when it was measured.
pub fn assess_modification_impact(
    source: &CodeElement,
    target: &CodeElement,
    similarity: Option<SimilarityBand>,
    source_signature: Option<&SignatureInfo>,
    target_signature: Option<&SignatureInfo>,
) -> (res: ChangeImpact)
    ensures
        (res.impact_level, res.implementation_effort, res.risk_level, res.is_breaking_change)
            == modification_impact_levels(
            similarity,
            source.file_path@ != target.file_path@,
            sig_pair(source_signature, target_signature),
        ),
        sig_pair(source_signature, target_signature) is None ==> !res.is_breaking_change,
        (source_signature is Some && target_signature is Some) ==> (res.is_breaking_change <==> (
            source_signature->0.parameter_count != target_signature->0.parameter_count
            || source_signature->0.return_type@ != target_signature->0.return_type@
            || (source_signature->0.visibility == SignatureVisibility::Public
                && target_signature->0.visibility != SignatureVisibility::Public))),
        (source_signature is Some && target_signature is Some && source_signature->0.parameter_count
            != target_signature->0.parameter_count) ==> res.impact_level == ImpactLevel::High && res.risk_level
            == RiskLevel::High,
        res.is_breaking_change ==> res.impact_level == ImpactLevel::High,
        similarity == Some(SimilarityBand::BelowThreeTenths) ==> res.impact_level == ImpactLevel::High
            && res.risk_level == RiskLevel::High,
        source.file_path@ != target.file_path@ ==> res.implementation_effort == EffortLevel::Medium
            && res.impact_level != ImpactLevel::Low,
        sig_pair(source_signature, target_signature) is None ==> res.affected_components@.len() == 0,
        sig_pair(source_signature, target_signature) is Some ==> {
            &&& res.affected_components@[0]@ == source.name@
            &&& if source.name@ == target.name@ {
                res.affected_components@.len() == 1
            } else {
                res.affected_components@.len() == 2 && res.affected_components@[1]@ == target.name@
            }
        },
{
    let mut impact_level = ImpactLevel::Low;
    let mut effort_level = EffortLevel::Low;
    let mut risk_level = RiskLevel::Low;
    let mut affected_components: Vec<String> = Vec::new();
    let mut is_breaking_change = false;
    proof {
        match sig_pair(source_signature, target_signature) {
            Some((a, b)) => lemma_modification_impact_laws(similarity, source.file_path@ != target.file_path@, a, b),
            None => {
                let a = vstd::pervasive::arbitrary::<SignatureInfo>();
                lemma_modification_impact_laws(similarity, source.file_path@ != target.file_path@, a, a);
            },
        }
    }
    match similarity {
        Some(SimilarityBand::BelowThreeTenths) => {
            impact_level = ImpactLevel::High;
            effort_level = EffortLevel::High;
            risk_level = RiskLevel::High;
        },
        Some(SimilarityBand::BelowSixTenths) => {
            impact_level = ImpactLevel::Medium;
            effort_level = EffortLevel::Medium;
            risk_level = RiskLevel::Medium;
        },
        _ => {},
    }
    if source.file_path != target.file_path {
        impact_level = raise_impact_exec(impact_level);
        effort_level = EffortLevel::Medium;
    }
    if let (Some(src_sig), Some(tgt_sig)) = (source_signature, target_signature) {
        if src_sig.parameter_count != tgt_sig.parameter_count {
            is_breaking_change = true;
            impact_level = ImpactLevel::High;
            risk_level = RiskLevel::High;
        }
        if src_sig.return_type != tgt_sig.return_type {
            is_breaking_change = true;
            impact_level = ImpactLevel::High;
        }
        if src_sig.visibility != tgt_sig.visibility {
            match (src_sig.visibility, tgt_sig.visibility) {
                (SignatureVisibility::Public, _) => {
                    is_breaking_change = true;
                    impact_level = ImpactLevel::High;
                },
                (_, SignatureVisibility::Public) => {
                    impact_level = match impact_level {
                        ImpactLevel::Low => ImpactLevel::Medium,
                        other => other,
                    };
                },
                _ => {},
            }
        }
        affected_components.push(source.name.clone());
        if source.name != target.name {
            affected_components.push(target.name.clone());
        }
    }
    ChangeImpact {
        impact_level,
        affected_components,
        implementation_effort: effort_level,
        risk_level,
        is_breaking_change,
    }
}

// ---------------------------------------------------------------------------
// Descriptions
// ---------------------------------------------------------------------------

/// The human-readable description of a change; `similarity_percent` is the
/// overall similarity as a percentage with one decimal, which the Rename and
/// Modify descriptions quote.
pub open spec fn change_description(
    change_type: ChangeType,
    source: CodeElement,
    target: CodeElement,
    similarity_percent: Seq<char>,
) -> Seq<char> {
    match change_type {
        ChangeType::Add => "Added new element '"@ + target.name@ + "'"@,
        ChangeType::Delete => "Deleted element '"@ + source.name@ + "'"@,
        ChangeType::Rename => "Renamed '"@ + source.name@ + "' to '"@ + target.name@ + "' (similarity: "@
            + similarity_percent + "%)"@,
        ChangeType::Move => if source.file_path@ != target.file_path@ {
            "Moved '"@ + source.name@ + "' from "@ + source.file_path@ + " to "@ + target.file_path@
        } else {
            "Moved '"@ + source.name@ + "' from line "@ + decimal(source.start_line as nat) + " to line "@
                + decimal(target.start_line as nat)
        },
        ChangeType::CrossFileMove => "Moved '"@ + source.name@ + "' from "@ + source.file_path@ + ":"@
            + decimal(source.start_line as nat) + " to "@ + target.file_path@ + ":"@ + decimal(
            target.start_line as nat,
        ),
        ChangeType::Modify => "Modified '"@ + source.name@ + "' (similarity: "@ + similarity_percent + "%)"@,
        ChangeType::Split => "Split '"@ + source.name@ + "' into multiple elements"@,
        ChangeType::Merge => "Merged multiple elements into '"@ + target.name@ + "'"@,
    }
}

proof fn lemma_infix(p: Seq<char>, x: Seq<char>, q: Seq<char>)
    ensures
        is_substring(p + x + q, x),
{
    assert((p + x + q).subrange(p.len() as int, (p.len() + x.len()) as int) =~= x);
    assert(crate::text::occurs_at(p + x + q, x, p.len() as int));
}

/// What a description names: an addition the added element, a deletion the
/// deleted one, a rename the word "Renamed" and both names, a move or a
/// modification the element's source name, a move across files both files,
/// a merge the resulting element.
pub proof fn lemma_description_mentions(source: CodeElement, target: CodeElement, similarity_percent: Seq<char>)
    ensures
        is_substring(change_description(ChangeType::Add, source, target, similarity_percent), target.name@),
        is_substring(change_description(ChangeType::Delete, source, target, similarity_percent), source.name@),
        is_substring(change_description(ChangeType::Rename, source, target, similarity_percent), "Renamed"@),
        is_substring(change_description(ChangeType::Rename, source, target, similarity_percent), source.name@),
        is_substring(change_description(ChangeType::Rename, source, target, similarity_percent), target.name@),
        is_substring(change_description(ChangeType::Rename, source, target, similarity_percent), similarity_percent),
        is_substring(change_description(ChangeType::Move, source, target, similarity_percent), source.name@),
        is_substring(change_description(ChangeType::CrossFileMove, source, target, similarity_percent), source.name@),
        is_substring(change_description(ChangeType::CrossFileMove, source, target, similarity_percent), source.file_path@),
        is_substring(change_description(ChangeType::CrossFileMove, source, target, similarity_percent), target.file_path@),
        is_substring(change_description(ChangeType::Modify, source, target, similarity_percent), source.name@),
        is_substring(change_description(ChangeType::Modify, source, target, similarity_percent), similarity_percent),
        is_substring(change_description(ChangeType::Split, source, target, similarity_percent), source.name@),
        is_substring(change_description(ChangeType::Merge, source, target, similarity_percent), target.name@),
{
    let sn = source.name@;
    let tn = target.name@;
    let sf = source.file_path@;
    let tf = target.file_path@;
    let pc = similarity_percent;
    lemma_infix("Added new element '"@, tn, "'"@);
    lemma_infix("Deleted element '"@, sn, "'"@);
    lemma_rename_mentions(sn, tn, pc);
    let m = change_description(ChangeType::Move, source, target, pc);
    if sf != tf {
        assert(m =~= "Moved '"@ + sn + ("' from "@ + sf + " to "@ + tf));
        lemma_infix("Moved '"@, sn, "' from "@ + sf + " to "@ + tf);
    } else {
        let sl = decimal(source.start_line as nat);
        let tl = decimal(target.start_line as nat);
        assert(m =~= "Moved '"@ + sn + ("' from line "@ + sl + " to line "@ + tl));
        lemma_infix("Moved '"@, sn, "' from line "@ + sl + " to line "@ + tl);
    }
    lemma_cross_move_mentions(sn, sf, tf, decimal(source.start_line as nat), decimal(target.start_line as nat));
    lemma_modify_mentions(sn, pc);
    lemma_infix("Split '"@, sn, "' into multiple elements"@);
    lemma_infix("Merged multiple elements into '"@, tn, "'"@);
}

proof fn lemma_rename_mentions(sn: Seq<char>, tn: Seq<char>, pc: Seq<char>)
    ensures
        ({
            let r = "Renamed '"@ + sn + "' to '"@ + tn + "' (similarity: "@ + pc + "%)"@;
            &&& is_substring(r, "Renamed"@)
            &&& is_substring(r, sn)
            &&& is_substring(r, tn)
            &&& is_substring(r, pc)
        }),
{
    let r = "Renamed '"@ + sn + "' to '"@ + tn + "' (similarity: "@ + pc + "%)"@;
    reveal_strlit("Renamed '");
    reveal_strlit("Renamed");
    assert(r =~= "Renamed '"@ + sn + ("' to '"@ + tn + "' (similarity: "@ + pc + "%)"@));
    lemma_infix("Renamed '"@, sn, "' to '"@ + tn + "' (similarity: "@ + pc + "%)"@);
    assert(r.subrange(0, 7) =~= "Renamed"@);
    assert(crate::text::occurs_at(r, "Renamed"@, 0));
    assert(r =~= ("Renamed '"@ + sn + "' to '"@) + tn + ("' (similarity: "@ + pc + "%)"@));
    lemma_infix("Renamed '"@ + sn + "' to '"@, tn, "' (similarity: "@ + pc + "%)"@);
    assert(r =~= ("Renamed '"@ + sn + "' to '"@ + tn + "' (similarity: "@) + pc + "%)"@);
    lemma_infix("Renamed '"@ + sn + "' to '"@ + tn + "' (similarity: "@, pc, "%)"@);
}

proof fn lemma_cross_move_mentions(sn: Seq<char>, sf: Seq<char>, tf: Seq<char>, sl: Seq<char>, tl: Seq<char>)
    ensures
        ({
            let c = "Moved '"@ + sn + "' from "@ + sf + ":"@ + sl + " to "@ + tf + ":"@ + tl;
            &&& is_substring(c, sn)
            &&& is_substring(c, sf)
            &&& is_substring(c, tf)
        }),
{
    let c = "Moved '"@ + sn + "' from "@ + sf + ":"@ + sl + " to "@ + tf + ":"@ + tl;
    assert(c =~= "Moved '"@ + sn + ("' from "@ + sf + ":"@ + sl + " to "@ + tf + ":"@ + tl));
    lemma_infix("Moved '"@, sn, "' from "@ + sf + ":"@ + sl + " to "@ + tf + ":"@ + tl);
    assert(c =~= ("Moved '"@ + sn + "' from "@) + sf + (":"@ + sl + " to "@ + tf + ":"@ + tl));
    lemma_infix("Moved '"@ + sn + "' from "@, sf, ":"@ + sl + " to "@ + tf + ":"@ + tl);
    assert(c =~= ("Moved '"@ + sn + "' from "@ + sf + ":"@ + sl + " to "@) + tf + (":"@ + tl));
    lemma_infix("Moved '"@ + sn + "' from "@ + sf + ":"@ + sl + " to "@, tf, ":"@ + tl);
}

proof fn lemma_modify_mentions(sn: Seq<char>, pc: Seq<char>)
    ensures
        is_substring("Modified '"@ + sn + "' (similarity: "@ + pc + "%)"@, sn),
        is_substring("Modified '"@ + sn + "' (similarity: "@ + pc + "%)"@, pc),
{
    let d = "Modified '"@ + sn + "' (similarity: "@ + pc + "%)"@;
    assert(d =~= "Modified '"@ + sn + ("' (similarity: "@ + pc + "%)"@));
    lemma_infix("Modified '"@, sn, "' (similarity: "@ + pc + "%)"@);
    lemma_infix("Modified '"@ + sn + "' (similarity: "@, pc, "%)"@);
}

/// The human-readable description of a change.
pub fn generate_change_description(
    change_type: ChangeType,
    source: &CodeElement,
    target: &CodeElement,
    similarity_percent: &str,
) -> (res: String)
    ensures
        res@ == change_description(change_type, *source, *target, similarity_percent@),
        change_type == ChangeType::Rename ==> is_substring(res@, "Renamed"@) && is_substring(res@, source.name@)
            && is_substring(res@, target.name@),
        change_type == ChangeType::Add || change_type == ChangeType::Merge ==> is_substring(res@, target.name@),
        change_type == ChangeType::Delete || change_type == ChangeType::Move || change_type == ChangeType::Modify
            || change_type == ChangeType::Split ==> is_substring(res@, source.name@),
        change_type == ChangeType::CrossFileMove ==> is_substring(res@, source.name@) && is_substring(res@, source.file_path@)
            && is_substring(res@, target.file_path@),
{
    proof {
        lemma_description_mentions(*source, *target, similarity_percent@);
    }
    match change_type {
        ChangeType::Add => {
            let mut s = String::from_str("Added new element '");
            s.append(target.name.as_str());
            s.append("'");
            s
        },
        ChangeType::Delete => {
            let mut s = String::from_str("Deleted element '");
            s.append(source.name.as_str());
            s.append("'");
            s
        },
        ChangeType::Rename => {
            let mut s = String::from_str("Renamed '");
            s.append(source.name.as_str());
            s.append("' to '");
            s.append(target.name.as_str());
            s.append("' (similarity: ");
            s.append(similarity_percent);
            s.append("%)");
            s
        },
        ChangeType::Move => {
            if source.file_path != target.file_path {
                let mut s = String::from_str("Moved '");
                s.append(source.name.as_str());
                s.append("' from ");
                s.append(source.file_path.as_str());
                s.append(" to ");
                s.append(target.file_path.as_str());
                s
            } else {
                let mut s = String::from_str("Moved '");
                s.append(source.name.as_str());
                s.append("' from line ");
                let a = usize_to_decimal(source.start_line);
                s.append(a.as_str());
                s.append(" to line ");
                let b = usize_to_decimal(target.start_line);
                s.append(b.as_str());
                s
            }
        },
        ChangeType::CrossFileMove => {
            let mut s = String::from_str("Moved '");
            s.append(source.name.as_str());
            s.append("' from ");
            s.append(source.file_path.as_str());
            s.append(":");
            let a = usize_to_decimal(source.start_line);
            s.append(a.as_str());
            s.append(" to ");
            s.append(target.file_path.as_str());
            s.append(":");
            let b = usize_to_decimal(target.start_line);
            s.append(b.as_str());
            s
        },
        ChangeType::Modify => {
            let mut s = String::from_str("Modified '");
            s.append(source.name.as_str());
            s.append("' (similarity: ");
            s.append(similarity_percent);
            s.append("%)");
            s
        },
        ChangeType::Split => {
            let mut s = String::from_str("Split '");
            s.append(source.name.as_str());
            s.append("' into multiple elements");
            s
        },
        ChangeType::Merge => {
            let mut s = String::from_str("Merged multiple elements into '");
            s.append(target.name.as_str());
            s.append("'");
            s
        },
    }
}

// ---------------------------------------------------------------------------
// Name and location of a modification
// ---------------------------------------------------------------------------

/// The description of a change of name, where the name changed.
pub open spec fn name_change_text(source: CodeElement, target: CodeElement) -> Option<Seq<char>> {
    if source.name@ != target.name@ {
        Some("Name changed from '"@ + source.name@ + "' to '"@ + target.name@ + "'"@)
    } else {
        None
    }
}

/// Describes the change of name between `source` and `target`, if any.
pub fn describe_name_change(source: &CodeElement, target: &CodeElement) -> (res: Option<String>)
    ensures
        match res {
            Some(s) => name_change_text(*source, *target) == Some(s@),
            None => name_change_text(*source, *target) is None,
        },
{
    if source.name != target.name {
        let mut s = String::from_str("Name changed from '");
        s.append(source.name.as_str());
        s.append("' to '");
        s.append(target.name.as_str());
        s.append("'");
        Some(s)
    } else {
        None
    }
}

/// What a modification did to the location of an element.
#[derive(Debug, Clone)]
pub struct LocationAnalysis {
    /// The value of the location characteristic.
    pub value: String,
    /// The description of the location evidence.
    pub description: String,
    /// Lines between the old and the new start, for a move within a file.
    pub line_distance: Option<usize>,
    /// The kind of change the location adds to the primary one, if any.
    pub secondary: Option<ChangeType>,
}

/// The distance from line `a` to line `b`, measured on the lines as `i32`
/// (each keeps its low 32 bits).
pub open spec fn line_gap(a: usize, b: usize) -> nat {
    let d = (b as i32) - (a as i32);
    if d >= 0 { d as nat } else { (-d) as nat }
}

/// The distance of two lines fits an `i32`.
pub open spec fn line_gap_fits(a: usize, b: usize) -> bool {
    i32::MIN < (b as i32) - (a as i32) <= i32::MAX
}

/// The location analysis of a modification from `source` to `target` whose
/// primary kind is `primary`: a change of file, else a change of start
/// line, else none.
pub open spec fn location_analysis(source: CodeElement, target: CodeElement, primary: ChangeType)
    -> Option<(Seq<char>, Seq<char>, Option<nat>, Option<ChangeType>)>
{
    if source.file_path@ != target.file_path@ {
        Some((
            "File: "@ + source.file_path@ + " \u{2192} "@ + target.file_path@,
            "Element moved to different file"@,
            None,
            if primary != ChangeType::CrossFileMove { Some(ChangeType::CrossFileMove) } else { None },
        ))
    } else if source.start_line != target.start_line {
        let d = line_gap(source.start_line, target.start_line);
        Some((
            "Line: "@ + decimal(source.start_line as nat) + " \u{2192} "@ + decimal(target.start_line as nat)
                + " (distance: "@ + decimal(d) + ")"@,
            "Element moved "@ + decimal(d) + " lines"@,
            Some(d),
            if primary != ChangeType::Move { Some(ChangeType::Move) } else { None },
        ))
    } else {
        None
    }
}

pub open spec fn location_view(a: LocationAnalysis) -> (Seq<char>, Seq<char>, Option<nat>, Option<ChangeType>) {
    (a.value@, a.description@, match a.line_distance { Some(d) => Some(d as nat), None => None }, a.secondary)
}

/// What a location analysis says: there is one exactly when the file or the
/// start line changed; a change of file gives no line distance and suggests
/// a cross-file move, a change of line within the file gives the distance
/// between the lines (for lines that fit an `i32`, their plain distance) and
/// suggests a move; the suggestion is never the primary kind itself.  The
/// distance is the same read in either direction.
pub proof fn lemma_location_laws(source: CodeElement, target: CodeElement, primary: ChangeType)
    ensures
        location_analysis(source, target, primary) is Some <==> (source.file_path@ != target.file_path@
            || source.start_line != target.start_line),
        source.file_path@ != target.file_path@ ==> ({
            let a = location_analysis(source, target, primary)->0;
            &&& a.2 is None
            &&& a.3 != Some(primary)
            &&& primary != ChangeType::CrossFileMove ==> a.3 == Some(ChangeType::CrossFileMove)
        }),
        source.file_path@ == target.file_path@ && source.start_line != target.start_line ==> ({
            let a = location_analysis(source, target, primary)->0;
            &&& a.2 == Some(line_gap(source.start_line, target.start_line))
            &&& a.3 != Some(primary)
            &&& primary != ChangeType::Move ==> a.3 == Some(ChangeType::Move)
        }),
        source.start_line <= i32::MAX && target.start_line <= i32::MAX ==> line_gap(source.start_line, target.start_line)
            == if source.start_line <= target.start_line { (target.start_line - source.start_line) as nat } else {
            (source.start_line - target.start_line) as nat
        },
        line_gap(source.start_line, target.start_line) == line_gap(target.start_line, source.start_line),
{
}

/// Analyses the change of location of a modification.
pub fn analyze_location(source: &CodeElement, target: &CodeElement, primary: ChangeType) -> (res: Option<LocationAnalysis>)
    requires
        source.file_path@ == target.file_path@ && source.start_line != target.start_line
            ==> line_gap_fits(source.start_line, target.start_line),
    ensures
        match res {
            Some(a) => location_analysis(*source, *target, primary) == Some(location_view(a)),
            None => location_analysis(*source, *target, primary) is None,
        },
        res is Some <==> (source.file_path@ != target.file_path@ || source.start_line != target.start_line),
        res matches Some(a) ==> a.secondary != Some(primary),
        res matches Some(a) ==> (a.line_distance is None <==> source.file_path@ != target.file_path@),
        res matches Some(a) ==> (source.file_path@ == target.file_path@ ==> (a.line_distance matches Some(d)
            && d == line_gap(source.start_line, target.start_line))),
{
    proof {
        lemma_location_laws(*source, *target, primary);
    }
    if source.file_path != target.file_path {
        let mut value = String::from_str("File: ");
        value.append(source.file_path.as_str());
        value.append(" \u{2192} ");
        value.append(target.file_path.as_str());
        let secondary = if primary != ChangeType::CrossFileMove { Some(ChangeType::CrossFileMove) } else { None };
        Some(LocationAnalysis {
            value,
            description: String::from_str("Element moved to different file"),
            line_distance: None,
            secondary,
        })
    } else if source.start_line != target.start_line {
        let a: i32 = source.start_line as i32;
        let b: i32 = target.start_line as i32;
        let diff: i32 = b - a;
        let gap: i32 = if diff < 0 { -diff } else { diff };
        let d: usize = gap as usize;
        let mut value = String::from_str("Line: ");
        push_decimal(&mut value, source.start_line);
        value.append(" \u{2192} ");
        push_decimal(&mut value, target.start_line);
        value.append(" (distance: ");
        push_decimal(&mut value, d);
        value.append(")");
        let mut description = String::from_str("Element moved ");
        push_decimal(&mut description, d);
        description.append(" lines");
        let secondary = if primary != ChangeType::Move { Some(ChangeType::Move) } else { None };
        let res = LocationAnalysis { value, description, line_distance: Some(d), secondary };
        let ghost want = location_analysis(*source, *target, primary)->0;
        assert(location_view(res).0 =~= want.0);
        assert(location_view(res).1 =~= want.1);
        Some(res)
    } else {
        None
    }
}

} // verus!
