//! Lesson frontmatter schema. The order of the fields is the order in which they are written.

use vstd::prelude::*;

use crate::engine::memory::MemoryId;
use crate::text::{opt_text, same_text, texts};

verus! {

/// The five states of a lesson, which are also the names of the directories that hold it.
#[derive(Debug, Clone, Copy, PartialEq, Eq, Structural)]
pub enum LessonStatus {
    Pending,
    Active,
    Promoted,
    Discarded,
    Superseded,
}

impl LessonStatus {
    pub open spec fn text(self) -> Seq<char> {
        match self {
            LessonStatus::Pending => "pending"@,
            LessonStatus::Active => "active"@,
            LessonStatus::Promoted => "promoted"@,
            LessonStatus::Discarded => "discarded"@,
            LessonStatus::Superseded => "superseded"@,
        }
    }

    pub fn as_str(self) -> (s: &'static str)
        ensures
            s@ == self.text(),
    {
        match self {
            LessonStatus::Pending => "pending",
            LessonStatus::Active => "active",
            LessonStatus::Promoted => "promoted",
            LessonStatus::Discarded => "discarded",
            LessonStatus::Superseded => "superseded",
        }
    }

    /// The status that `name` stands for.
    pub fn parse(name: &str) -> (status: Option<LessonStatus>)
        ensures
            match status {
                Some(st) => name@ == st.text(),
                None => forall|st: LessonStatus| name@ != #[trigger] st.text(),
            },
    {
        if same_text(name, "pending") {
            Some(LessonStatus::Pending)
        } else if same_text(name, "active") {
            Some(LessonStatus::Active)
        } else if same_text(name, "promoted") {
            Some(LessonStatus::Promoted)
        } else if same_text(name, "discarded") {
            Some(LessonStatus::Discarded)
        } else if same_text(name, "superseded") {
            Some(LessonStatus::Superseded)
        } else {
            None
        }
    }
}

/// No two states share a name.
pub proof fn law_status_names_are_distinct(a: LessonStatus, b: LessonStatus)
    requires
        a.text() == b.text(),
    ensures
        a == b,
{
    reveal_strlit("pending");
    reveal_strlit("active");
    reveal_strlit("promoted");
    reveal_strlit("discarded");
    reveal_strlit("superseded");
    assert("pending"@.len() == 7);
    assert("active"@.len() == 6);
    assert("promoted"@.len() == 8);
    assert("discarded"@.len() == 9);
    assert("superseded"@.len() == 10);
}

/// Confidence ladder of a narrative.
#[derive(Debug, Clone, Copy, PartialEq, Eq, Structural)]
pub enum Confidence {
    Observed,
    Inferred,
    Speculative,
}

impl Confidence {
    pub open spec fn text(self) -> Seq<char> {
        match self {
            Confidence::Observed => "observed"@,
            Confidence::Inferred => "inferred"@,
            Confidence::Speculative => "speculative"@,
        }
    }

    pub fn as_str(self) -> (s: &'static str)
        ensures
            s@ == self.text(),
    {
        match self {
            Confidence::Observed => "observed",
            Confidence::Inferred => "inferred",
            Confidence::Speculative => "speculative",
        }
    }
}

#[derive(Debug, Clone, Copy, PartialEq, Eq, Structural)]
pub enum GeneratedBy {
    User,
    Llm,
}

impl GeneratedBy {
    pub open spec fn text(self) -> Seq<char> {
        match self {
            GeneratedBy::User => "user"@,
            GeneratedBy::Llm => "llm"@,
        }
    }

    pub fn as_str(self) -> (s: &'static str)
        ensures
            s@ == self.text(),
    {
        match self {
            GeneratedBy::User => "user",
            GeneratedBy::Llm => "llm",
        }
    }
}

/// One piece of evidence of a narrative. A user-authored lesson that cites a memory makes that
/// memory immune from eviction.
#[derive(Debug, Clone, PartialEq, Eq)]
pub enum EvidenceRef {
    /// Free-text quote.
    Quote(String),
    /// Reference into the memory store.
    Memory(MemoryId),
}

/// The model of an evidence reference.
pub enum EvidenceModel {
    Quote(Seq<char>),
    Memory(Seq<char>),
}

impl View for EvidenceRef {
    type V = EvidenceModel;

    open spec fn view(&self) -> EvidenceModel {
        match self {
            EvidenceRef::Quote(s) => EvidenceModel::Quote(s@),
            EvidenceRef::Memory(id) => EvidenceModel::Memory(id@),
        }
    }
}

impl EvidenceModel {
    /// The text of the reference, whatever its kind.
    pub open spec fn text(self) -> Seq<char> {
        match self {
            EvidenceModel::Quote(s) => s,
            EvidenceModel::Memory(s) => s,
        }
    }
}

/// The models of a list of references.
pub open spec fn evidence_models(v: Seq<EvidenceRef>) -> Seq<EvidenceModel> {
    v.map_values(|r: EvidenceRef| r@)
}

/// The ids of the memories among the references, in order.
pub open spec fn memory_citations(refs: Seq<EvidenceModel>) -> Seq<Seq<char>>
    decreases refs.len(),
{
    if refs.len() == 0 {
        seq![]
    } else {
        match refs.last() {
            EvidenceModel::Memory(id) => memory_citations(refs.drop_last()).push(id),
            EvidenceModel::Quote(_) => memory_citations(refs.drop_last()),
        }
    }
}

/// The texts of a list of memory ids.
pub open spec fn memory_texts(ids: Seq<MemoryId>) -> Seq<Seq<char>> {
    ids.map_values(|id: MemoryId| id@)
}

/// The memories among the references, in order.
pub fn cited_memories(refs: &Vec<EvidenceRef>) -> (ids: Vec<MemoryId>)
    ensures
        memory_texts(ids@) == memory_citations(evidence_models(refs@)),
{
    let ghost models = evidence_models(refs@);
    let mut ids: Vec<MemoryId> = Vec::new();
    let mut i: usize = 0;
    proof {
        assert(memory_texts(ids@) =~= memory_citations(models.take(0)));
    }
    while i < refs.len()
        invariant
            i <= refs.len(),
            models == evidence_models(refs@),
            memory_texts(ids@) == memory_citations(models.take(i as int)),
        decreases refs.len() - i,
    {
        let ghost before = memory_texts(ids@);
        proof {
            assert(models.take(i + 1).drop_last() =~= models.take(i as int));
            assert(models.take(i + 1).last() == refs@[i as int]@);
        }
        if let Some(id) = refs[i].as_memory_id() {
            ids.push(id.duplicate());
            proof {
                assert(memory_texts(ids@) =~= before.push(id@));
            }
        }
        i += 1;
    }
    proof {
        assert(models.take(models.len() as int) =~= models);
    }
    ids
}

impl EvidenceRef {
    /// The underlying text, whatever the variant.
    pub fn as_str(&self) -> (s: &str)
        ensures
            s@ == self@.text(),
    {
        match self {
            EvidenceRef::Quote(s) => s.as_str(),
            EvidenceRef::Memory(id) => id.as_str(),
        }
    }

    /// True when this refers to a memory.
    pub fn is_memory(&self) -> (b: bool)
        ensures
            b == (self@ is Memory),
    {
        match self {
            EvidenceRef::Memory(_) => true,
            EvidenceRef::Quote(_) => false,
        }
    }

    /// The memory id, if this refers to a memory.
    pub fn as_memory_id(&self) -> (id: Option<&MemoryId>)
        ensures
            match self@ {
                EvidenceModel::Memory(text) => id is Some && id->0@ == text,
                EvidenceModel::Quote(_) => id is None,
            },
    {
        match self {
            EvidenceRef::Memory(id) => Some(id),
            EvidenceRef::Quote(_) => None,
        }
    }

    /// What a plain string in a document stands for.
    pub fn from_plain(text: String) -> (r: EvidenceRef)
        ensures
            r@ == EvidenceModel::Quote(text@),
    {
        EvidenceRef::Quote(text)
    }

    /// What a map with the single key `tag` stands for: `quote` and `memory` are known.
    pub fn from_tagged(tag: &str, text: String) -> (r: Option<EvidenceRef>)
        ensures
            r is Some <==> tag@ == "quote"@ || tag@ == "memory"@,
            tag@ == "quote"@ ==> r->0@ == EvidenceModel::Quote(text@),
            tag@ == "memory"@ ==> r->0@ == EvidenceModel::Memory(text@),
    {
        proof {
            reveal_strlit("quote");
            reveal_strlit("memory");
            assert("quote"@.len() != "memory"@.len());
        }
        if same_text(tag, "quote") {
            Some(EvidenceRef::Quote(text))
        } else if same_text(tag, "memory") {
            Some(EvidenceRef::Memory(MemoryId::new(text)))
        } else {
            None
        }
    }

    /// A copy of this reference.
    pub fn duplicate(&self) -> (r: EvidenceRef)
        ensures
            r == *self,
    {
        match self {
            EvidenceRef::Quote(s) => EvidenceRef::Quote(s.clone()),
            EvidenceRef::Memory(id) => EvidenceRef::Memory(id.duplicate()),
        }
    }
}

#[derive(Debug, Clone, PartialEq, Eq)]
pub struct CausalNarrative {
    pub trigger: String,
    pub failure_mode: String,
    pub correction: String,
    pub confidence: Confidence,
    pub evidence_refs: Vec<EvidenceRef>,
    pub generated_by: GeneratedBy,
    pub generated_at: String,
}

/// The model of a narrative.
#[verifier::ext_equal]
pub struct NarrativeModel {
    pub trigger: Seq<char>,
    pub failure_mode: Seq<char>,
    pub correction: Seq<char>,
    pub confidence: Confidence,
    pub evidence_refs: Seq<EvidenceModel>,
    pub generated_by: GeneratedBy,
    pub generated_at: Seq<char>,
}

impl View for CausalNarrative {
    type V = NarrativeModel;

    open spec fn view(&self) -> NarrativeModel {
        NarrativeModel {
            trigger: self.trigger@,
            failure_mode: self.failure_mode@,
            correction: self.correction@,
            confidence: self.confidence,
            evidence_refs: evidence_models(self.evidence_refs@),
            generated_by: self.generated_by,
            generated_at: self.generated_at@,
        }
    }
}

#[derive(Debug, Clone, Copy, PartialEq, Eq, Structural)]
pub enum IngestSourceType {
    AutoMemory,
    AutoDreamSignal,
    EccInstinct,
    LearningsMd,
}

impl IngestSourceType {
    pub open spec fn text(self) -> Seq<char> {
        match self {
            IngestSourceType::AutoMemory => "auto_memory"@,
            IngestSourceType::AutoDreamSignal => "auto_dream_signal"@,
            IngestSourceType::EccInstinct => "ecc_instinct"@,
            IngestSourceType::LearningsMd => "learnings_md"@,
        }
    }

    pub fn as_str(self) -> (s: &'static str)
        ensures
            s@ == self.text(),
    {
        match self {
            IngestSourceType::AutoMemory => "auto_memory",
            IngestSourceType::AutoDreamSignal => "auto_dream_signal",
            IngestSourceType::EccInstinct => "ecc_instinct",
            IngestSourceType::LearningsMd => "learnings_md",
        }
    }
}

/// Who authored an item. User-authored items are immune from cleanup that the engine starts.
#[derive(Debug, Clone, Copy, PartialEq, Eq, Structural)]
pub enum Authorship {
    /// The user wrote or endorsed it.
    User,
    /// Generated by a language model; what a file without the field means.
    Llm,
    /// Captured by the auto-memory pipeline.
    AutoMemory,
    /// Imported from an instinct file.
    EccInstinct,
    /// Shipped by an installed pack.
    Pack,
    /// Explicitly unknown.
    Unknown,
}

impl Default for Authorship {
    fn default() -> (a: Authorship)
        ensures
            a == Authorship::Llm,
    {
        Authorship::Llm
    }
}

impl Authorship {
    pub open spec fn text(self) -> Seq<char> {
        match self {
            Authorship::User => "user"@,
            Authorship::Llm => "llm"@,
            Authorship::AutoMemory => "auto_memory"@,
            Authorship::EccInstinct => "ecc_instinct"@,
            Authorship::Pack => "pack"@,
            Authorship::Unknown => "unknown"@,
        }
    }

    pub fn as_str(self) -> (s: &'static str)
        ensures
            s@ == self.text(),
    {
        match self {
            Authorship::User => "user",
            Authorship::Llm => "llm",
            Authorship::AutoMemory => "auto_memory",
            Authorship::EccInstinct => "ecc_instinct",
            Authorship::Pack => "pack",
            Authorship::Unknown => "unknown",
        }
    }

    /// True when the user is the author, which makes the item immune.
    pub fn is_user(self) -> (b: bool)
        ensures
            b == (self is User),
    {
        match self {
            Authorship::User => true,
            _ => false,
        }
    }
}

#[derive(Debug, Clone, PartialEq, Eq)]
pub struct IngestProvenance {
    pub source_type: IngestSourceType,
    pub source_path: String,
    pub source_external_id: Option<String>,
    pub extracted_at: String,
}

/// The model of an ingest provenance.
#[verifier::ext_equal]
pub struct ProvenanceModel {
    pub source_type: IngestSourceType,
    pub source_path: Seq<char>,
    pub source_external_id: Option<Seq<char>>,
    pub extracted_at: Seq<char>,
}

impl View for IngestProvenance {
    type V = ProvenanceModel;

    open spec fn view(&self) -> ProvenanceModel {
        ProvenanceModel {
            source_type: self.source_type,
            source_path: self.source_path@,
            source_external_id: opt_text(self.source_external_id),
            extracted_at: self.extracted_at@,
        }
    }
}

/// Full lesson frontmatter.
#[derive(Debug, Clone, PartialEq, Eq)]
pub struct LessonFrontmatter {
    pub id: String,
    pub description: String,
    pub status: LessonStatus,
    pub created_at: String,
    pub causal_narrative: Option<CausalNarrative>,
    pub target_skill: Option<String>,
    pub source_feedback_ids: Option<Vec<i64>>,
    pub applied_count: u64,
    pub last_applied_at: Option<String>,
    pub thumbs_up_count: u64,
    pub thumbs_down_count: u64,
    pub external_signal_sources: Vec<String>,
    pub applied_session_ids: Vec<String>,
    pub promotion_eligible_at: Option<String>,
    pub superseded_by: Option<String>,
    pub superseded_at: Option<String>,
    pub ingest_provenance: Option<IngestProvenance>,
    pub authored_by: Authorship,
    pub pack_id: Option<String>,
    pub external_id: Option<String>,
    pub updated_at: Option<String>,
}

/// The model of a lesson's frontmatter.
#[verifier::ext_equal]
pub struct LessonModel {
    pub id: Seq<char>,
    pub description: Seq<char>,
    pub status: LessonStatus,
    pub created_at: Seq<char>,
    pub causal_narrative: Option<NarrativeModel>,
    pub target_skill: Option<Seq<char>>,
    pub source_feedback_ids: Option<Seq<i64>>,
    pub applied_count: u64,
    pub last_applied_at: Option<Seq<char>>,
    pub thumbs_up_count: u64,
    pub thumbs_down_count: u64,
    pub external_signal_sources: Seq<Seq<char>>,
    pub applied_session_ids: Seq<Seq<char>>,
    pub promotion_eligible_at: Option<Seq<char>>,
    pub superseded_by: Option<Seq<char>>,
    pub superseded_at: Option<Seq<char>>,
    pub ingest_provenance: Option<ProvenanceModel>,
    pub authored_by: Authorship,
    pub pack_id: Option<Seq<char>>,
    pub external_id: Option<Seq<char>>,
    pub updated_at: Option<Seq<char>>,
}

/// The model of an optional narrative.
pub open spec fn opt_narrative(o: Option<CausalNarrative>) -> Option<NarrativeModel> {
    match o {
        Some(n) => Some(n@),
        None => None,
    }
}

impl View for LessonFrontmatter {
    type V = LessonModel;

    open spec fn view(&self) -> LessonModel {
        LessonModel {
            id: self.id@,
            description: self.description@,
            status: self.status,
            created_at: self.created_at@,
            causal_narrative: opt_narrative(self.causal_narrative),
            target_skill: opt_text(self.target_skill),
            source_feedback_ids: match self.source_feedback_ids {
                Some(ids) => Some(ids@),
                None => None,
            },
            applied_count: self.applied_count,
            last_applied_at: opt_text(self.last_applied_at),
            thumbs_up_count: self.thumbs_up_count,
            thumbs_down_count: self.thumbs_down_count,
            external_signal_sources: texts(self.external_signal_sources@),
            applied_session_ids: texts(self.applied_session_ids@),
            promotion_eligible_at: opt_text(self.promotion_eligible_at),
            superseded_by: opt_text(self.superseded_by),
            superseded_at: opt_text(self.superseded_at),
            ingest_provenance: match self.ingest_provenance {
                Some(p) => Some(p@),
                None => None,
            },
            authored_by: self.authored_by,
            pack_id: opt_text(self.pack_id),
            external_id: opt_text(self.external_id),
            updated_at: opt_text(self.updated_at),
        }
    }
}

/// What is cited are the memories among the references, in their order.
pub proof fn law_citations_are_the_memories(refs: Seq<EvidenceModel>)
    ensures
        memory_citations(refs) == refs.filter(|e: EvidenceModel| e is Memory).map_values(
            |e: EvidenceModel| e->Memory_0,
        ),
    decreases refs.len(),
{
    reveal(Seq::filter);
    let f = |e: EvidenceModel| e->Memory_0;
    let kept = refs.filter(|e: EvidenceModel| e is Memory);
    if refs.len() > 0 {
        law_citations_are_the_memories(refs.drop_last());
        let before = refs.drop_last().filter(|e: EvidenceModel| e is Memory);
        if let EvidenceModel::Memory(id) = refs.last() {
            assert(kept.map_values(f) =~= before.map_values(f).push(id));
        }
    } else {
        assert(kept.map_values(f) =~= memory_citations(refs));
    }
}

// ---- Laws --------------------------------------------------------------------

/// The words for the statuses of a lesson.
pub proof fn law_words_for_statuses(x: LessonStatus, s: &'static str)
    requires
        call_ensures(LessonStatus::as_str, (x,), s),
    ensures
        x is Pending ==> s@ == "pending"@,
        x is Active ==> s@ == "active"@,
        x is Promoted ==> s@ == "promoted"@,
        x is Discarded ==> s@ == "discarded"@,
        x is Superseded ==> s@ == "superseded"@,
{
}

/// The words for how sure a narrative is.
pub proof fn law_words_for_confidence(x: Confidence, s: &'static str)
    requires
        call_ensures(Confidence::as_str, (x,), s),
    ensures
        x is Observed ==> s@ == "observed"@,
        x is Inferred ==> s@ == "inferred"@,
        x is Speculative ==> s@ == "speculative"@,
{
}

/// The words for who wrote a narrative.
pub proof fn law_words_for_narrators(x: GeneratedBy, s: &'static str)
    requires
        call_ensures(GeneratedBy::as_str, (x,), s),
    ensures
        x is User ==> s@ == "user"@,
        x is Llm ==> s@ == "llm"@,
{
}

/// The words for where a lesson was taken from.
pub proof fn law_words_for_sources(x: IngestSourceType, s: &'static str)
    requires
        call_ensures(IngestSourceType::as_str, (x,), s),
    ensures
        x is AutoMemory ==> s@ == "auto_memory"@,
        x is AutoDreamSignal ==> s@ == "auto_dream_signal"@,
        x is EccInstinct ==> s@ == "ecc_instinct"@,
        x is LearningsMd ==> s@ == "learnings_md"@,
{
}

/// The words for the authors of a lesson.
pub proof fn law_words_for_authors(x: Authorship, s: &'static str)
    requires
        call_ensures(Authorship::as_str, (x,), s),
    ensures
        x is User ==> s@ == "user"@,
        x is Llm ==> s@ == "llm"@,
        x is AutoMemory ==> s@ == "auto_memory"@,
        x is EccInstinct ==> s@ == "ecc_instinct"@,
        x is Pack ==> s@ == "pack"@,
        x is Unknown ==> s@ == "unknown"@,
{
}

} // verus!
