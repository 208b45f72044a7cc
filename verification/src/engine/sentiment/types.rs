//! Value types of the sentiment layer.
//!
//! `Polarity` is closed; hazards, attribution methods and item kinds may grow. Three confidence
//! newtypes keep their meanings apart; each is clamped to the unit interval when it is made and
//! carries the bit pattern of a single-precision number (see `engine::single`).

use vstd::prelude::*;

use crate::engine::single::{clamp_unit, unit_clamped};
use crate::text::texts;

verus! {

/// The three polarities. Closed by design.
#[derive(Debug, Clone, Copy, PartialEq, Eq, Hash, Structural)]
pub enum Polarity {
    Positive,
    Negative,
    Neutral,
}

impl Polarity {
    pub open spec fn text(self) -> Seq<char> {
        match self {
            Polarity::Positive => "positive"@,
            Polarity::Negative => "negative"@,
            Polarity::Neutral => "neutral"@,
        }
    }

    /// The name written to signal files.
    pub fn as_str(self) -> (s: &'static str)
        ensures
            s@ == self.text(),
    {
        match self {
            Polarity::Positive => "positive",
            Polarity::Negative => "negative",
            Polarity::Neutral => "neutral",
        }
    }
}

/// Reasons why a classification carries uncertainty or risk.
#[derive(Debug, Clone, Copy, PartialEq, Eq, Hash, Structural)]
#[non_exhaustive]
pub enum Hazard {
    /// The surface polarity may be inverted.
    Sarcasm,
    /// Several loaded items could match.
    AmbiguousReferent,
    /// The signal may overstate the sentiment.
    Hyperbole,
    /// The model reported low confidence.
    LowConfidence,
    /// Personal or secret material may be in the text.
    PrivacyConcern,
    /// The input is unlike what the classifier knows.
    OutOfDistribution,
    /// The user speaks about themself.
    SelfDirected,
}

impl Hazard {
    pub open spec fn text(self) -> Seq<char> {
        match self {
            Hazard::Sarcasm => "sarcasm"@,
            Hazard::AmbiguousReferent => "ambiguous_referent"@,
            Hazard::Hyperbole => "hyperbole"@,
            Hazard::LowConfidence => "low_confidence"@,
            Hazard::PrivacyConcern => "privacy_concern"@,
            Hazard::OutOfDistribution => "out_of_distribution"@,
            Hazard::SelfDirected => "self_directed"@,
        }
    }

    /// The name written to signal files.
    pub fn as_str(self) -> (s: &'static str)
        ensures
            s@ == self.text(),
    {
        match self {
            Hazard::Sarcasm => "sarcasm",
            Hazard::AmbiguousReferent => "ambiguous_referent",
            Hazard::Hyperbole => "hyperbole",
            Hazard::LowConfidence => "low_confidence",
            Hazard::PrivacyConcern => "privacy_concern",
            Hazard::OutOfDistribution => "out_of_distribution",
            Hazard::SelfDirected => "self_directed",
        }
    }
}

/// Which attribution pass found the item. Abstention is the absence of an attribution.
#[derive(Debug, Clone, Copy, PartialEq, Eq, Hash, Structural)]
#[non_exhaustive]
pub enum AttributionMethod {
    /// The utterance names the item.
    DirectMention,
    /// A pronoun stands for what the last assistant turn was about.
    PronounResolved,
    /// Only one item was referenced recently.
    Recency,
    /// The classifier pointed at one of several candidates.
    Salience,
}

impl AttributionMethod {
    pub open spec fn text(self) -> Seq<char> {
        match self {
            AttributionMethod::DirectMention => "direct_mention"@,
            AttributionMethod::PronounResolved => "pronoun_resolved"@,
            AttributionMethod::Recency => "recency"@,
            AttributionMethod::Salience => "salience"@,
        }
    }

    /// The name written to signal files.
    pub fn as_str(self) -> (s: &'static str)
        ensures
            s@ == self.text(),
    {
        match self {
            AttributionMethod::DirectMention => "direct_mention",
            AttributionMethod::PronounResolved => "pronoun_resolved",
            AttributionMethod::Recency => "recency",
            AttributionMethod::Salience => "salience",
        }
    }
}

/// What a loaded item is.
#[derive(Debug, Clone, Copy, PartialEq, Eq, Hash, Structural)]
#[non_exhaustive]
pub enum LoadedItemKind {
    Lesson,
    Memory,
    Persona,
    Skill,
    Team,
}

/// Confidence in an attribution, set by the attribution algorithm.
#[derive(Debug, Clone, Copy, PartialEq, Eq, Structural)]
pub struct AttributionConfidence(u32);

impl AttributionConfidence {
    pub closed spec fn bits(self) -> u32 {
        self.0
    }

    /// Clamps to the unit interval.
    pub fn new(v: u32) -> (c: AttributionConfidence)
        ensures
            c.bits() == unit_clamped(v),
    {
        AttributionConfidence(clamp_unit(v))
    }

    pub fn value(self) -> (v: u32)
        ensures
            v == self.bits(),
    {
        self.0
    }
}

/// Raw confidence emitted by a classifier.
#[derive(Debug, Clone, Copy, PartialEq, Eq, Structural)]
pub struct ClassifierConfidence(u32);

impl ClassifierConfidence {
    pub closed spec fn bits(self) -> u32 {
        self.0
    }

    /// Clamps to the unit interval.
    pub fn new(v: u32) -> (c: ClassifierConfidence)
        ensures
            c.bits() == unit_clamped(v),
    {
        ClassifierConfidence(clamp_unit(v))
    }

    pub fn value(self) -> (v: u32)
        ensures
            v == self.bits(),
    {
        self.0
    }
}

/// Confidence calibrated by the orchestrator, used for promotion thresholds.
#[derive(Debug, Clone, Copy, PartialEq, Eq, Structural)]
pub struct CalibratedConfidence(u32);

impl CalibratedConfidence {
    pub closed spec fn bits(self) -> u32 {
        self.0
    }

    /// Clamps to the unit interval.
    pub fn new(v: u32) -> (c: CalibratedConfidence)
        ensures
            c.bits() == unit_clamped(v),
    {
        CalibratedConfidence(clamp_unit(v))
    }

    pub fn value(self) -> (v: u32)
        ensures
            v == self.bits(),
    {
        self.0
    }
}

/// Identifier of an item loaded into the manifest.
#[derive(Debug, Clone, PartialEq, Eq, Hash)]
pub struct LoadedItemId(String);

impl View for LoadedItemId {
    type V = Seq<char>;

    closed spec fn view(&self) -> Seq<char> {
        self.0@
    }
}

impl LoadedItemId {
    pub fn new(id: String) -> (r: LoadedItemId)
        ensures
            r@ == id@,
    {
        LoadedItemId(id)
    }

    pub fn as_str(&self) -> (s: &str)
        ensures
            s@ == self@,
    {
        self.0.as_str()
    }

    /// A copy of this id.
    pub fn duplicate(&self) -> (r: LoadedItemId)
        ensures
            r == *self,
    {
        LoadedItemId(self.0.clone())
    }

    /// Whether both are the same id.
    pub fn same(&self, other: &LoadedItemId) -> (b: bool)
        ensures
            b == (self@ == other@),
    {
        *self.0.as_str() == *other.0.as_str()
    }
}

/// The texts of a list of ids.
pub open spec fn id_texts(v: Seq<LoadedItemId>) -> Seq<Seq<char>> {
    v.map_values(|id: LoadedItemId| id@)
}

/// A manifest item that signals can be attributed to.
#[derive(Debug, Clone, PartialEq, Eq)]
pub struct LoadedItem {
    pub id: LoadedItemId,
    pub kind: LoadedItemKind,
    /// Short label for people.
    pub label: String,
    /// Distinctive words that name the item.
    pub keywords: Vec<String>,
}

/// The model of a loaded item.
#[verifier::ext_equal]
pub struct ItemModel {
    pub id: Seq<char>,
    pub kind: LoadedItemKind,
    pub label: Seq<char>,
    pub keywords: Seq<Seq<char>>,
}

impl View for LoadedItem {
    type V = ItemModel;

    open spec fn view(&self) -> ItemModel {
        ItemModel {
            id: self.id@,
            kind: self.kind,
            label: self.label@,
            keywords: texts(self.keywords@),
        }
    }
}

impl LoadedItem {
    /// A copy of this item.
    pub fn duplicate(&self) -> (r: LoadedItem)
        ensures
            r@ == self@,
    {
        LoadedItem {
            id: self.id.duplicate(),
            kind: self.kind,
            label: self.label.clone(),
            keywords: crate::text::clone_texts(&self.keywords),
        }
    }
}

/// The models of a list of items.
pub open spec fn item_models(v: Seq<LoadedItem>) -> Seq<ItemModel> {
    v.map_values(|i: LoadedItem| i@)
}

/// A copy of a list of items.
pub fn clone_items(v: &Vec<LoadedItem>) -> (out: Vec<LoadedItem>)
    ensures
        item_models(out@) == item_models(v@),
{
    let mut out: Vec<LoadedItem> = Vec::new();
    let mut i: usize = 0;
    while i < v.len()
        invariant
            i <= v.len(),
            item_models(out@) == item_models(v@).take(i as int),
        decreases v.len() - i,
    {
        out.push(v[i].duplicate());
        proof {
            assert(item_models(out@) =~= item_models(v@).take(i as int).push(v@[i as int]@));
            assert(item_models(v@).take(i + 1) =~= item_models(v@).take(i as int).push(
                v@[i as int]@,
            ));
        }
        i += 1;
    }
    proof {
        assert(item_models(v@).take(v@.len() as int) =~= item_models(v@));
    }
    out
}

/// A copy of a list of ids.
pub fn clone_ids(v: &Vec<LoadedItemId>) -> (out: Vec<LoadedItemId>)
    ensures
        out@ == v@,
{
    let mut out: Vec<LoadedItemId> = Vec::new();
    let mut i: usize = 0;
    while i < v.len()
        invariant
            i <= v.len(),
            out@ == v@.take(i as int),
        decreases v.len() - i,
    {
        out.push(v[i].duplicate());
        proof {
            assert(v@.take(i + 1) =~= v@.take(i as int).push(v@[i as int]));
        }
        i += 1;
    }
    proof {
        assert(v@.take(v@.len() as int) =~= v@);
    }
    out
}

/// Who spoke.
#[derive(Debug, Clone, Copy, PartialEq, Eq, Hash, Structural)]
#[non_exhaustive]
pub enum TurnRole {
    User,
    Assistant,
}

/// One recent conversation turn.
#[derive(Debug, Clone, PartialEq, Eq)]
pub struct RecentTurn {
    pub role: TurnRole,
    pub text: String,
    /// Items that were active during this turn.
    pub referenced_items: Vec<LoadedItemId>,
}

/// The model of a turn.
#[verifier::ext_equal]
pub struct TurnModel {
    pub role: TurnRole,
    pub text: Seq<char>,
    pub refs: Seq<Seq<char>>,
}

impl View for RecentTurn {
    type V = TurnModel;

    open spec fn view(&self) -> TurnModel {
        TurnModel {
            role: self.role,
            text: self.text@,
            refs: id_texts(self.referenced_items@),
        }
    }
}

impl RecentTurn {
    /// A copy of this turn.
    pub fn duplicate(&self) -> (r: RecentTurn)
        ensures
            r@ == self@,
    {
        RecentTurn {
            role: self.role,
            text: self.text.clone(),
            referenced_items: clone_ids(&self.referenced_items),
        }
    }
}

/// The models of a list of turns.
pub open spec fn turn_models(v: Seq<RecentTurn>) -> Seq<TurnModel> {
    v.map_values(|t: RecentTurn| t@)
}

/// A copy of a list of turns.
pub fn clone_turns(v: &Vec<RecentTurn>) -> (out: Vec<RecentTurn>)
    ensures
        turn_models(out@) == turn_models(v@),
{
    let mut out: Vec<RecentTurn> = Vec::new();
    let mut i: usize = 0;
    while i < v.len()
        invariant
            i <= v.len(),
            turn_models(out@) == turn_models(v@).take(i as int),
        decreases v.len() - i,
    {
        out.push(v[i].duplicate());
        proof {
            assert(turn_models(out@) =~= turn_models(v@).take(i as int).push(v@[i as int]@));
            assert(turn_models(v@).take(i + 1) =~= turn_models(v@).take(i as int).push(
                v@[i as int]@,
            ));
        }
        i += 1;
    }
    proof {
        assert(turn_models(v@).take(v@.len() as int) =~= turn_models(v@));
    }
    out
}

/// What a classifier is asked.
#[derive(Debug, Clone, PartialEq, Eq)]
pub struct ClassificationRequest {
    /// The user's words.
    pub utterance: String,
    /// Items that may be meant.
    pub loaded_items: Vec<LoadedItem>,
    /// The last few turns.
    pub recent_turns: Vec<RecentTurn>,
}

/// What a classifier says about one item.
#[derive(Debug, Clone, PartialEq, Eq)]
pub struct ItemClassification {
    pub item_id: LoadedItemId,
    pub polarity: Polarity,
    pub confidence: ClassifierConfidence,
    /// Quoted from the utterance.
    pub evidence: Option<String>,
    pub hazards: Vec<Hazard>,
}

/// What a classifier says. Empty when it abstains.
#[derive(Debug, Clone, PartialEq, Eq)]
pub struct RawClassification {
    pub per_item: Vec<ItemClassification>,
    pub global_hazards: Vec<Hazard>,
}

impl Default for RawClassification {
    fn default() -> (r: RawClassification)
        ensures
            r.per_item@.len() == 0,
            r.global_hazards@.len() == 0,
    {
        RawClassification { per_item: Vec::new(), global_hazards: Vec::new() }
    }
}

impl RawClassification {
    /// Whether the classifier had nothing to say.
    pub open spec fn abstains(self) -> bool {
        self.per_item@.len() == 0 && self.global_hazards@.len() == 0
    }

    /// Explicit abstention.
    pub fn abstain() -> (r: RawClassification)
        ensures
            r.abstains(),
    {
        RawClassification { per_item: Vec::new(), global_hazards: Vec::new() }
    }

    /// True when there are neither classifications nor global hazards.
    pub fn is_abstain(&self) -> (b: bool)
        ensures
            b == self.abstains(),
    {
        self.per_item.len() == 0 && self.global_hazards.len() == 0
    }
}

// ---- Laws --------------------------------------------------------------------

/// The words for the directions of a sentiment.
pub proof fn law_words_for_directions(x: Polarity, s: &'static str)
    requires
        call_ensures(Polarity::as_str, (x,), s),
    ensures
        x is Positive ==> s@ == "positive"@,
        x is Negative ==> s@ == "negative"@,
        x is Neutral ==> s@ == "neutral"@,
{
}

/// The words for the hazards.
pub proof fn law_words_for_hazards(x: Hazard, s: &'static str)
    requires
        call_ensures(Hazard::as_str, (x,), s),
    ensures
        x is Sarcasm ==> s@ == "sarcasm"@,
        x is AmbiguousReferent ==> s@ == "ambiguous_referent"@,
        x is Hyperbole ==> s@ == "hyperbole"@,
        x is LowConfidence ==> s@ == "low_confidence"@,
        x is PrivacyConcern ==> s@ == "privacy_concern"@,
        x is OutOfDistribution ==> s@ == "out_of_distribution"@,
        x is SelfDirected ==> s@ == "self_directed"@,
{
}

/// The words for the ways to tell what is meant.
pub proof fn law_words_for_attributions(x: AttributionMethod, s: &'static str)
    requires
        call_ensures(AttributionMethod::as_str, (x,), s),
    ensures
        x is DirectMention ==> s@ == "direct_mention"@,
        x is PronounResolved ==> s@ == "pronoun_resolved"@,
        x is Recency ==> s@ == "recency"@,
        x is Salience ==> s@ == "salience"@,
{
}

/// A classification abstains where it holds neither a verdict nor a hazard.
pub proof fn law_an_abstention_is_empty(c: &RawClassification, b: bool, a: RawClassification)
    requires
        call_ensures(RawClassification::is_abstain, (c,), b),
        call_ensures(RawClassification::abstain, (), a),
    ensures
        b <==> c.per_item@.len() + c.global_hazards@.len() == 0,
        a.per_item@.len() + a.global_hazards@.len() == 0,
{
}

} // verus!
