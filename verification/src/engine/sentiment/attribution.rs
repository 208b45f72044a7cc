//! Attribution: which item an utterance is about.
//!
//! A pure function in passes, each tried when the ones before found nothing:
//!
//! 1. Direct mention: the utterance names the item's id or one of its keywords. Confidence 0.95.
//! 2. Pronoun: the utterance begins with a pronoun, and the last assistant turn referenced exactly
//!    one item. Confidence 0.80.
//! 3. Recency: the recent turns reference one item only. Confidence 0.65.
//! 4. Salience: two to five candidates, and a judge points at one with enough confidence (only
//!    with `attribute_signal_with_fallback`).
//!
//! Otherwise there is no attribution.

use vstd::prelude::*;

use super::types::{
    AttributionConfidence, AttributionMethod, ItemModel, LoadedItem, LoadedItemId, RecentTurn,
    TurnModel, TurnRole, id_texts, item_models, turn_models,
};
use crate::engine::single::{at_least, not_below};
use crate::text::{
    contains_text, from_chars, is_space, is_space_char, lemma_leading_blanks, lemma_trimmed_start,
    occurs_in, same_text, texts, to_chars, trimmed_start,
};

verus! {

/// Least confidence of the judge for the salience pass: 0.8.
pub const PASS4_MIN_CONFIDENCE: u32 = 0x3f4c_cccd;

/// 0.95
pub const DIRECT_CONFIDENCE: u32 = 0x3f73_3333;

/// 0.80
pub const PRONOUN_CONFIDENCE: u32 = 0x3f4c_cccd;

/// 0.65
pub const RECENCY_CONFIDENCE: u32 = 0x3f26_6666;

// ---- Outside -----------------------------------------------------------------

/// The lower case of a text by Unicode's rules.
pub uninterp spec fn lowercase(s: Seq<char>) -> Seq<char>;

/// `str::to_lowercase`: the result is a function of the text alone.
#[verifier::external_body]
fn to_lowercase(s: &str) -> (l: String)
    ensures
        l@ == lowercase(s@),
{
    s.to_lowercase()
}

/// Whether a character is a letter or a number by Unicode's tables.
pub uninterp spec fn alphanumeric(c: char) -> bool;

/// `char::is_alphanumeric`: the answer is a function of the character alone.
#[verifier::external_body]
fn is_alphanumeric(c: char) -> (b: bool)
    ensures
        b == alphanumeric(c),
{
    c.is_alphanumeric()
}

// ---- Model -------------------------------------------------------------------

/// An attribution.
#[derive(Debug, Clone, PartialEq, Eq)]
pub struct Attribution {
    pub item_id: LoadedItemId,
    pub method: AttributionMethod,
    pub confidence: AttributionConfidence,
}

/// The model of an attribution.
#[verifier::ext_equal]
pub struct AttributionModel {
    pub item_id: Seq<char>,
    pub method: AttributionMethod,
    pub confidence: u32,
}

impl View for Attribution {
    type V = AttributionModel;

    open spec fn view(&self) -> AttributionModel {
        AttributionModel {
            item_id: self.item_id@,
            method: self.method,
            confidence: self.confidence.bits(),
        }
    }
}

/// The model of an optional attribution.
pub open spec fn opt_model(a: Option<Attribution>) -> Option<AttributionModel> {
    match a {
        Some(a) => Some(a@),
        None => None,
    }
}

/// Whether a lowered text holds the lowered id or one of the lowered keywords.
pub open spec fn names(lower: Seq<char>, id: Seq<char>, keywords: Seq<Seq<char>>) -> bool {
    occurs_in(lower, id) || exists|k: int|
        0 <= k < keywords.len() && occurs_in(lower, #[trigger] keywords[k])
}

/// The keywords in lower case, empty ones left out.
pub open spec fn lowered_keywords(keywords: Seq<Seq<char>>) -> Seq<Seq<char>>
    decreases keywords.len(),
{
    if keywords.len() == 0 {
        seq![]
    } else if keywords.last().len() == 0 {
        lowered_keywords(keywords.drop_last())
    } else {
        lowered_keywords(keywords.drop_last()).push(lowercase(keywords.last()))
    }
}

/// The id of the first item that a lowered utterance names.
pub open spec fn directly_mentioned(lower: Seq<char>, items: Seq<ItemModel>) -> Option<Seq<char>>
    decreases items.len(),
{
    if items.len() == 0 {
        None
    } else if names(lower, lowercase(items[0].id), lowered_keywords(items[0].keywords)) {
        Some(items[0].id)
    } else {
        directly_mentioned(lower, items.skip(1))
    }
}

/// How many characters come before the first white space.
pub open spec fn word_len(s: Seq<char>) -> int
    decreases s.len(),
{
    if s.len() == 0 || is_space(s[0]) {
        0
    } else {
        1 + word_len(s.skip(1))
    }
}

/// The first word of a text.
pub open spec fn first_word(s: Seq<char>) -> Seq<char> {
    let t = trimmed_start(s);
    t.take(word_len(t))
}

/// A word without what is neither letter nor number at its end.
pub open spec fn core_end(w: Seq<char>) -> Seq<char>
    decreases w.len(),
{
    if w.len() > 0 && !alphanumeric(w.last()) {
        core_end(w.drop_last())
    } else {
        w
    }
}

/// A word without what is neither letter nor number at its beginning.
pub open spec fn core_start(w: Seq<char>) -> Seq<char>
    decreases w.len(),
{
    if w.len() > 0 && !alphanumeric(w[0]) {
        core_start(w.skip(1))
    } else {
        w
    }
}

/// The first word, stripped and in lower case; empty where there is none.
pub open spec fn leading_word(s: Seq<char>) -> Seq<char> {
    lowercase(core_end(core_start(first_word(s))))
}

pub open spec fn is_pronoun_text(w: Seq<char>) -> bool {
    w == "that"@ || w == "it"@ || w == "this"@ || w == "those"@ || w == "these"@ || w == "they"@
}

/// What the most recent assistant turn referenced.
pub open spec fn last_assistant_refs(turns: Seq<TurnModel>) -> Option<Seq<Seq<char>>>
    decreases turns.len(),
{
    if turns.len() == 0 {
        None
    } else if turns.last().role == TurnRole::Assistant {
        Some(turns.last().refs)
    } else {
        last_assistant_refs(turns.drop_last())
    }
}

/// The item that a leading word stands for.
pub open spec fn pronoun_target(word: Seq<char>, turns: Seq<TurnModel>) -> Option<Seq<char>> {
    match last_assistant_refs(turns) {
        Some(refs) => if word.len() > 0 && is_pronoun_text(word) && refs.len() == 1 {
            Some(refs[0])
        } else {
            None
        },
        None => None,
    }
}

/// Everything that the turns reference, in order.
pub open spec fn all_refs(turns: Seq<TurnModel>) -> Seq<Seq<char>>
    decreases turns.len(),
{
    if turns.len() == 0 {
        seq![]
    } else {
        all_refs(turns.drop_last()) + turns.last().refs
    }
}

/// The one item that the turns reference, if there is exactly one.
pub open spec fn only_referenced(turns: Seq<TurnModel>) -> Option<Seq<char>> {
    let refs = all_refs(turns);
    if refs.len() > 0 && forall|i: int| 0 <= i < refs.len() ==> #[trigger] refs[i] == refs[0] {
        Some(refs[0])
    } else {
        None
    }
}

/// The attribution of an utterance, without a judge.
pub open spec fn attributed(
    utterance: Seq<char>,
    items: Seq<ItemModel>,
    turns: Seq<TurnModel>,
) -> Option<AttributionModel> {
    match directly_mentioned(lowercase(utterance), items) {
        Some(id) => Some(
            AttributionModel {
                item_id: id,
                method: AttributionMethod::DirectMention,
                confidence: DIRECT_CONFIDENCE,
            },
        ),
        None => match pronoun_target(leading_word(utterance), turns) {
            Some(id) => Some(
                AttributionModel {
                    item_id: id,
                    method: AttributionMethod::PronounResolved,
                    confidence: PRONOUN_CONFIDENCE,
                },
            ),
            None => match only_referenced(turns) {
                Some(id) => Some(
                    AttributionModel {
                        item_id: id,
                        method: AttributionMethod::Recency,
                        confidence: RECENCY_CONFIDENCE,
                    },
                ),
                None => None,
            },
        },
    }
}

/// The loaded items that the turns reference, in manifest order.
pub open spec fn referenced_items(items: Seq<ItemModel>, turns: Seq<TurnModel>) -> Seq<ItemModel>
    decreases items.len(),
{
    if items.len() == 0 {
        seq![]
    } else if all_refs(turns).contains(items.last().id) {
        referenced_items(items.drop_last(), turns).push(items.last())
    } else {
        referenced_items(items.drop_last(), turns)
    }
}

/// What the salience pass makes of the judge's answer.
pub open spec fn judged(
    answer: Option<(LoadedItemId, AttributionConfidence)>,
) -> Option<AttributionModel> {
    match answer {
        Some((id, confidence)) => if at_least(confidence.bits(), PASS4_MIN_CONFIDENCE) {
            Some(
                AttributionModel {
                    item_id: id@,
                    method: AttributionMethod::Salience,
                    confidence: confidence.bits(),
                },
            )
        } else {
            None
        },
        None => None,
    }
}

// ---- Executable --------------------------------------------------------------

/// Whether a lowered text holds the lowered id or one of the lowered keywords.
pub fn is_named(lower: &str, id: &str, keywords: &Vec<String>) -> (b: bool)
    ensures
        b == names(lower@, id@, texts(keywords@)),
{
    let ghost models = texts(keywords@);
    if contains_text(lower, id) {
        return true;
    }
    let mut k: usize = 0;
    while k < keywords.len()
        invariant
            k <= keywords.len(),
            models == texts(keywords@),
            !occurs_in(lower@, id@),
            forall|j: int| 0 <= j < k ==> !occurs_in(lower@, #[trigger] models[j]),
        decreases keywords.len() - k,
    {
        if contains_text(lower, keywords[k].as_str()) {
            proof {
                assert(models[k as int] == keywords@[k as int]@);
                assert(occurs_in(lower@, models[k as int]));
            }
            return true;
        }
        k += 1;
    }
    false
}

/// The keywords in lower case, empty ones left out.
fn lower_keywords(keywords: &Vec<String>) -> (out: Vec<String>)
    ensures
        texts(out@) == lowered_keywords(texts(keywords@)),
{
    let ghost models = texts(keywords@);
    let mut out: Vec<String> = Vec::new();
    let mut k: usize = 0;
    proof {
        assert(texts(out@) =~= lowered_keywords(models.take(0)));
    }
    while k < keywords.len()
        invariant
            k <= keywords.len(),
            models == texts(keywords@),
            texts(out@) == lowered_keywords(models.take(k as int)),
        decreases keywords.len() - k,
    {
        let ghost before = texts(out@);
        proof {
            assert(models.take(k + 1).drop_last() =~= models.take(k as int));
            assert(models.take(k + 1).last() == keywords@[k as int]@);
        }
        if !keywords[k].as_str().is_empty() {
            out.push(to_lowercase(keywords[k].as_str()));
            proof {
                assert(texts(out@) =~= before.push(lowercase(keywords@[k as int]@)));
            }
        }
        k += 1;
    }
    proof {
        assert(models.take(models.len() as int) =~= models);
    }
    out
}

fn pass1_direct_mention(utterance: &str, loaded_items: &Vec<LoadedItem>) -> (r: Option<
    LoadedItemId,
>)
    ensures
        match directly_mentioned(lowercase(utterance@), item_models(loaded_items@)) {
            Some(id) => r is Some && r->0@ == id,
            None => r is None,
        },
{
    let ghost models = item_models(loaded_items@);
    let lower = to_lowercase(utterance);
    let mut i: usize = 0;
    proof {
        assert(models.skip(0) =~= models);
    }
    while i < loaded_items.len()
        invariant
            i <= loaded_items.len(),
            models == item_models(loaded_items@),
            lower@ == lowercase(utterance@),
            directly_mentioned(lower@, models) == directly_mentioned(lower@, models.skip(i as int)),
        decreases loaded_items.len() - i,
    {
        let id = to_lowercase(loaded_items[i].id.as_str());
        let keywords = lower_keywords(&loaded_items[i].keywords);
        proof {
            assert(models.skip(i as int)[0] == loaded_items@[i as int]@);
            assert(models.skip(i as int).skip(1) =~= models.skip(i + 1));
        }
        if is_named(lower.as_str(), id.as_str(), &keywords) {
            return Some(loaded_items[i].id.duplicate());
        }
        i += 1;
    }
    None
}

/// The first word, stripped and in lower case.
fn first_word_lowercase(text: &str) -> (w: String)
    ensures
        w@ == leading_word(text@),
{
    let chars = to_chars(text);
    let n: usize = chars.len();
    let mut from: usize = 0;
    proof {
        assert(text@.skip(0) =~= text@);
    }
    while from < n && is_space_char(chars[from])
        invariant
            chars@ == text@,
            n == chars.len(),
            from <= n,
            trimmed_start(text@.skip(from as int)) == trimmed_start(text@),
        decreases n - from,
    {
        proof {
            assert(text@.skip(from as int).drop_first() =~= text@.skip(from + 1));
        }
        from += 1;
    }
    let ghost rest = text@.skip(from as int);
    proof {
        assert(trimmed_start(rest) == rest);
        assert(rest.skip(0) =~= rest);
    }
    let mut to: usize = from;
    while to < n && !is_space_char(chars[to])
        invariant
            chars@ == text@,
            n == chars.len(),
            from <= to <= n,
            rest == text@.skip(from as int),
            word_len(rest) == (to - from) + word_len(rest.skip(to - from)),
        decreases n - to,
    {
        proof {
            assert(rest.skip(to - from).skip(1) =~= rest.skip(to + 1 - from));
        }
        to += 1;
    }
    let ghost word = first_word(text@);
    proof {
        assert(word_len(rest.skip(to - from)) == 0);
        assert(word =~= text@.subrange(from as int, to as int));
    }
    let mut a: usize = from;
    while a < to && !is_alphanumeric(chars[a])
        invariant
            chars@ == text@,
            from <= a <= to <= chars.len(),
            core_start(text@.subrange(a as int, to as int)) == core_start(word),
        decreases to - a,
    {
        proof {
            assert(text@.subrange(a as int, to as int).skip(1) =~= text@.subrange(
                a + 1,
                to as int,
            ));
        }
        a += 1;
    }
    let ghost started = text@.subrange(a as int, to as int);
    proof {
        assert(core_start(started) == started);
    }
    let mut b: usize = to;
    while b > a && !is_alphanumeric(chars[b - 1])
        invariant
            chars@ == text@,
            a <= b <= to <= chars.len(),
            core_end(text@.subrange(a as int, b as int)) == core_end(started),
        decreases b,
    {
        proof {
            assert(text@.subrange(a as int, b as int).drop_last() =~= text@.subrange(
                a as int,
                b - 1,
            ));
        }
        b -= 1;
    }
    let core = from_chars(&chars, a, b);
    to_lowercase(core.as_str())
}

fn is_pronoun(w: &str) -> (b: bool)
    ensures
        b == is_pronoun_text(w@),
{
    same_text(w, "that") || same_text(w, "it") || same_text(w, "this") || same_text(w, "those")
        || same_text(w, "these") || same_text(w, "they")
}

/// The item that the leading word of an utterance, stripped and in lower case, stands for.
pub fn resolve_pronoun(word: &str, recent_turns: &Vec<RecentTurn>) -> (r: Option<LoadedItemId>)
    ensures
        match pronoun_target(word@, turn_models(recent_turns@)) {
            Some(id) => r is Some && r->0@ == id,
            None => r is None,
        },
{
    let ghost models = turn_models(recent_turns@);
    if word.is_empty() || !is_pronoun(word) {
        return None;
    }
    let mut i: usize = recent_turns.len();
    proof {
        assert(models.take(i as int) =~= models);
    }
    while i > 0
        invariant
            i <= recent_turns.len(),
            models == turn_models(recent_turns@),
            word@.len() > 0,
            is_pronoun_text(word@),
            last_assistant_refs(models) == last_assistant_refs(models.take(i as int)),
        decreases i,
    {
        let turn = &recent_turns[i - 1];
        proof {
            assert(models.take(i as int).last() == turn@);
            assert(models.take(i as int).drop_last() =~= models.take(i - 1));
        }
        if turn.role == TurnRole::Assistant {
            if turn.referenced_items.len() != 1 {
                return None;
            }
            return Some(turn.referenced_items[0].duplicate());
        }
        i -= 1;
    }
    None
}

/// The one item that the turns reference, if there is exactly one.
pub fn single_recent(recent_turns: &Vec<RecentTurn>) -> (r: Option<LoadedItemId>)
    ensures
        match only_referenced(turn_models(recent_turns@)) {
            Some(id) => r is Some && r->0@ == id,
            None => r is None,
        },
{
    let ghost models = turn_models(recent_turns@);
    let refs = collect_refs(recent_turns);
    let ghost texts_of = id_texts(refs@);
    if refs.len() == 0 {
        return None;
    }
    let mut i: usize = 0;
    while i < refs.len()
        invariant
            i <= refs.len(),
            refs.len() > 0,
            texts_of == id_texts(refs@),
            texts_of == all_refs(models),
            models == turn_models(recent_turns@),
            forall|j: int| 0 <= j < i ==> #[trigger] texts_of[j] == texts_of[0],
        decreases refs.len() - i,
    {
        if !refs[i].same(&refs[0]) {
            proof {
                assert(texts_of[i as int] != texts_of[0]);
            }
            return None;
        }
        i += 1;
    }
    Some(refs[0].duplicate())
}

/// Everything that the turns reference.
fn collect_refs(recent_turns: &Vec<RecentTurn>) -> (out: Vec<LoadedItemId>)
    ensures
        id_texts(out@) == all_refs(turn_models(recent_turns@)),
{
    let ghost models = turn_models(recent_turns@);
    let mut out: Vec<LoadedItemId> = Vec::new();
    let mut i: usize = 0;
    proof {
        assert(id_texts(out@) =~= all_refs(models.take(0)));
    }
    while i < recent_turns.len()
        invariant
            i <= recent_turns.len(),
            models == turn_models(recent_turns@),
            id_texts(out@) == all_refs(models.take(i as int)),
        decreases recent_turns.len() - i,
    {
        let refs = &recent_turns[i].referenced_items;
        let ghost before = id_texts(out@);
        let mut k: usize = 0;
        proof {
            assert(before + id_texts(refs@).take(0) =~= before);
        }
        while k < refs.len()
            invariant
                k <= refs.len(),
                id_texts(out@) == before + id_texts(refs@).take(k as int),
            decreases refs.len() - k,
        {
            let ghost mid = id_texts(out@);
            out.push(refs[k].duplicate());
            proof {
                assert(id_texts(out@) =~= mid.push(refs@[k as int]@));
                assert(id_texts(refs@).take(k + 1) =~= id_texts(refs@).take(k as int).push(
                    refs@[k as int]@,
                ));
            }
            k += 1;
        }
        proof {
            assert(id_texts(refs@).take(refs@.len() as int) =~= id_texts(refs@));
            assert(models.take(i + 1).drop_last() =~= models.take(i as int));
            assert(models.take(i + 1).last() == recent_turns@[i as int]@);
        }
        i += 1;
    }
    proof {
        assert(models.take(models.len() as int) =~= models);
    }
    out
}

/// Attribution without a judge. The same inputs always give the same result; nothing found is no
/// error.
pub fn attribute_signal(
    utterance: &str,
    loaded_items: &Vec<LoadedItem>,
    recent_turns: &Vec<RecentTurn>,
) -> (r: Option<Attribution>)
    ensures
        opt_model(r) == attributed(
            utterance@,
            item_models(loaded_items@),
            turn_models(recent_turns@),
        ),
{
    if let Some(item_id) = pass1_direct_mention(utterance, loaded_items) {
        return Some(
            Attribution {
                item_id,
                method: AttributionMethod::DirectMention,
                confidence: AttributionConfidence::new(DIRECT_CONFIDENCE),
            },
        );
    }
    let word = first_word_lowercase(utterance);
    if let Some(item_id) = resolve_pronoun(word.as_str(), recent_turns) {
        return Some(
            Attribution {
                item_id,
                method: AttributionMethod::PronounResolved,
                confidence: AttributionConfidence::new(PRONOUN_CONFIDENCE),
            },
        );
    }
    if let Some(item_id) = single_recent(recent_turns) {
        return Some(
            Attribution {
                item_id,
                method: AttributionMethod::Recency,
                confidence: AttributionConfidence::new(RECENCY_CONFIDENCE),
            },
        );
    }
    None
}

/// Whether `id` is among the references.
fn is_referenced(id: &LoadedItemId, refs: &Vec<LoadedItemId>) -> (b: bool)
    ensures
        b == id_texts(refs@).contains(id@),
{
    let ghost models = id_texts(refs@);
    let mut i: usize = 0;
    while i < refs.len()
        invariant
            i <= refs.len(),
            models == id_texts(refs@),
            forall|j: int| 0 <= j < i ==> #[trigger] models[j] != id@,
        decreases refs.len() - i,
    {
        if refs[i].same(id) {
            proof {
                assert(models[i as int] == id@);
            }
            return true;
        }
        i += 1;
    }
    false
}

/// The loaded items that the turns reference, in manifest order.
pub fn recently_referenced_items(
    loaded_items: &Vec<LoadedItem>,
    recent_turns: &Vec<RecentTurn>,
) -> (out: Vec<LoadedItem>)
    ensures
        item_models(out@) == referenced_items(
            item_models(loaded_items@),
            turn_models(recent_turns@),
        ),
{
    let ghost models = item_models(loaded_items@);
    let ghost turns = turn_models(recent_turns@);
    let refs = collect_refs(recent_turns);
    let mut out: Vec<LoadedItem> = Vec::new();
    let mut i: usize = 0;
    proof {
        assert(item_models(out@) =~= referenced_items(models.take(0), turns));
    }
    while i < loaded_items.len()
        invariant
            i <= loaded_items.len(),
            models == item_models(loaded_items@),
            id_texts(refs@) == all_refs(turns),
            item_models(out@) == referenced_items(models.take(i as int), turns),
        decreases loaded_items.len() - i,
    {
        let ghost before = item_models(out@);
        proof {
            assert(models.take(i + 1).drop_last() =~= models.take(i as int));
            assert(models.take(i + 1).last() == loaded_items@[i as int]@);
        }
        if is_referenced(&loaded_items[i].id, &refs) {
            out.push(loaded_items[i].duplicate());
            proof {
                assert(item_models(out@) =~= before.push(loaded_items@[i as int]@));
            }
        }
        i += 1;
    }
    proof {
        assert(models.take(models.len() as int) =~= models);
    }
    out
}

/// What the salience pass makes of the judge's answer: below the threshold it abstains rather
/// than guess.
pub fn accept_judgement(answer: Option<(LoadedItemId, AttributionConfidence)>) -> (r: Option<
    Attribution,
>)
    ensures
        opt_model(r) == judged(answer),
{
    match answer {
        Some((item_id, confidence)) => {
            if not_below(confidence.value(), PASS4_MIN_CONFIDENCE) {
                Some(Attribution { item_id, method: AttributionMethod::Salience, confidence })
            } else {
                None
            }
        },
        None => None,
    }
}

/// Whether the judge is asked about these candidates: nothing was attributed without it, and they are
/// the two to five items that recent turns reference.
pub open spec fn judge_is_asked(
    utterance: Seq<char>,
    items: Seq<ItemModel>,
    turns: Seq<TurnModel>,
    candidates: Seq<ItemModel>,
) -> bool {
    &&& attributed(utterance, items, turns) is None
    &&& 2 <= candidates.len() <= 5
    &&& candidates == referenced_items(items, turns)
}

/// Attribution with a judge for the salience pass. The judge is asked at most once, and only when
/// two to five items are candidates.
pub fn attribute_signal_with_fallback<F>(
    utterance: &str,
    loaded_items: &Vec<LoadedItem>,
    recent_turns: &Vec<RecentTurn>,
    fallback: F,
) -> (r: Option<Attribution>) where
    F: FnOnce(&Vec<LoadedItem>) -> Option<(LoadedItemId, AttributionConfidence)>,

    requires
        forall|candidates: &Vec<LoadedItem>|
            judge_is_asked(
                utterance@,
                item_models(loaded_items@),
                turn_models(recent_turns@),
                item_models(candidates@),
            ) ==> #[trigger] call_requires(fallback, (candidates,)),
    ensures
        ({
            let items = item_models(loaded_items@);
            let turns = turn_models(recent_turns@);
            let found = attributed(utterance@, items, turns);
            if found is Some {
                opt_model(r) == found
            } else if 2 <= referenced_items(items, turns).len() <= 5 {
                exists|candidates: Vec<LoadedItem>, answer: Option<
                    (LoadedItemId, AttributionConfidence),
                >|
                    {
                        &&& item_models(candidates@) == referenced_items(items, turns)
                        &&& #[trigger] call_ensures(fallback, (&candidates,), answer)
                        &&& opt_model(r) == judged(answer)
                    }
            } else {
                r is None
            }
        }),
{
    let found = attribute_signal(utterance, loaded_items, recent_turns);
    if found.is_some() {
        return found;
    }
    let candidates = recently_referenced_items(loaded_items, recent_turns);
    proof {
        assert(item_models(candidates@).len() == candidates@.len());
    }
    if 2 <= candidates.len() && candidates.len() <= 5 {
        let answer = fallback(&candidates);
        let r = accept_judgement(answer);
        return r;
    }
    None
}

// ---- Laws --------------------------------------------------------------------

proof fn lemma_mentioned_is_loaded(lower: Seq<char>, items: Seq<ItemModel>) -> (i: int)
    requires
        directly_mentioned(lower, items) is Some,
    ensures
        0 <= i < items.len(),
        items[i].id == directly_mentioned(lower, items)->0,
        names(lower, lowercase(items[i].id), lowered_keywords(items[i].keywords)),
        forall|j: int|
            0 <= j < i ==> !names(
                lower,
                lowercase((#[trigger] items[j]).id),
                lowered_keywords(items[j].keywords),
            ),
    decreases items.len(),
{
    if names(lower, lowercase(items[0].id), lowered_keywords(items[0].keywords)) {
        0
    } else {
        let i = lemma_mentioned_is_loaded(lower, items.skip(1));
        assert(items.skip(1)[i] == items[i + 1]);
        assert forall|j: int| 0 <= j < i + 1 implies !names(
            lower,
            lowercase((#[trigger] items[j]).id),
            lowered_keywords(items[j].keywords),
        ) by {
            if j > 0 {
                assert(items.skip(1)[j - 1] == items[j]);
            }
        }
        i + 1
    }
}

proof fn lemma_last_refs_are_refs(turns: Seq<TurnModel>, id: Seq<char>)
    requires
        last_assistant_refs(turns) is Some,
        last_assistant_refs(turns)->0.contains(id),
    ensures
        all_refs(turns).contains(id),
    decreases turns.len(),
{
    let before = all_refs(turns.drop_last());
    if turns.last().role == TurnRole::Assistant {
        let refs = turns.last().refs;
        let i = choose|i: int| 0 <= i < refs.len() && refs[i] == id;
        assert((before + refs)[before.len() + i] == id);
    } else {
        lemma_last_refs_are_refs(turns.drop_last(), id);
        let i = choose|i: int| 0 <= i < before.len() && before[i] == id;
        assert((before + turns.last().refs)[i] == id);
    }
}

/// An attribution never invents an item: it is one that the utterance names among the loaded
/// ones, or one that a recent turn referenced.
pub proof fn law_attribution_invents_nothing(
    utterance: Seq<char>,
    items: Seq<ItemModel>,
    turns: Seq<TurnModel>,
)
    requires
        attributed(utterance, items, turns) is Some,
    ensures
        ({
            let a = attributed(utterance, items, turns)->0;
            match a.method {
                AttributionMethod::DirectMention => exists|i: int|
                    0 <= i < items.len() && (#[trigger] items[i]).id == a.item_id && names(
                        lowercase(utterance),
                        lowercase(items[i].id),
                        lowered_keywords(items[i].keywords),
                    ),
                AttributionMethod::PronounResolved => all_refs(turns).contains(a.item_id),
                AttributionMethod::Recency => all_refs(turns).contains(a.item_id),
                AttributionMethod::Salience => false,
            }
        }),
{
    let a = attributed(utterance, items, turns)->0;
    let lower = lowercase(utterance);
    if directly_mentioned(lower, items) is Some {
        let i = lemma_mentioned_is_loaded(lower, items);
        assert(items[i].id == a.item_id);
    } else if pronoun_target(leading_word(utterance), turns) is Some {
        lemma_last_refs_are_refs(turns, a.item_id);
    } else {
        assert(all_refs(turns)[0] == a.item_id);
    }
}

/// A name beats everything else, and the first loaded item that is named wins.
pub proof fn law_direct_mention_wins(
    utterance: Seq<char>,
    items: Seq<ItemModel>,
    turns: Seq<TurnModel>,
    at: int,
)
    requires
        0 <= at < items.len(),
        names(
            lowercase(utterance),
            lowercase(items[at].id),
            lowered_keywords(items[at].keywords),
        ),
        forall|j: int|
            0 <= j < at ==> !names(
                lowercase(utterance),
                lowercase((#[trigger] items[j]).id),
                lowered_keywords(items[j].keywords),
            ),
    ensures
        attributed(utterance, items, turns) == Some(
            AttributionModel {
                item_id: items[at].id,
                method: AttributionMethod::DirectMention,
                confidence: DIRECT_CONFIDENCE,
            },
        ),
{
    let lower = lowercase(utterance);
    lemma_mention_found(lower, items, at);
}

proof fn lemma_mention_found(lower: Seq<char>, items: Seq<ItemModel>, at: int)
    requires
        0 <= at < items.len(),
        names(lower, lowercase(items[at].id), lowered_keywords(items[at].keywords)),
        forall|j: int|
            0 <= j < at ==> !names(
                lower,
                lowercase((#[trigger] items[j]).id),
                lowered_keywords(items[j].keywords),
            ),
    ensures
        directly_mentioned(lower, items) == Some(items[at].id),
    decreases items.len(),
{
    if at > 0 {
        assert(!names(lower, lowercase(items[0].id), lowered_keywords(items[0].keywords)));
        assert(items.skip(1)[at - 1] == items[at]);
        assert forall|j: int| 0 <= j < at - 1 implies !names(
            lower,
            lowercase((#[trigger] items.skip(1)[j]).id),
            lowered_keywords(items.skip(1)[j].keywords),
        ) by {
            assert(items.skip(1)[j] == items[j + 1]);
        }
        lemma_mention_found(lower, items.skip(1), at - 1);
    }
}

/// With no item named, no pronoun and nothing referenced, attribution abstains.
pub proof fn law_nothing_to_go_by(
    utterance: Seq<char>,
    items: Seq<ItemModel>,
    turns: Seq<TurnModel>,
)
    requires
        forall|j: int|
            0 <= j < items.len() ==> !names(
                lowercase(utterance),
                lowercase((#[trigger] items[j]).id),
                lowered_keywords(items[j].keywords),
            ),
        all_refs(turns).len() == 0,
    ensures
        attributed(utterance, items, turns) is None,
{
    let lower = lowercase(utterance);
    if directly_mentioned(lower, items) is Some {
        let i = lemma_mentioned_is_loaded(lower, items);
        assert(!names(lower, lowercase(items[i].id), lowered_keywords(items[i].keywords)));
    }
    if pronoun_target(leading_word(utterance), turns) is Some {
        lemma_last_refs_are_refs(turns, last_assistant_refs(turns)->0[0]);
    }
}

/// Whether an utterance names an item: the id, or a keyword that is not empty, stands in it, in
/// whatever case.
pub open spec fn mentions(utterance: Seq<char>, item: ItemModel) -> bool {
    ||| occurs_in(lowercase(utterance), lowercase(item.id))
    ||| exists|k: int|
        0 <= k < item.keywords.len() && (#[trigger] item.keywords[k]).len() > 0 && occurs_in(
            lowercase(utterance),
            lowercase(item.keywords[k]),
        )
}

/// Whether the first of the items that the utterance names is the one at `at`.
pub open spec fn first_mentioned(utterance: Seq<char>, items: Seq<ItemModel>, at: int) -> bool {
    &&& 0 <= at < items.len()
    &&& mentions(utterance, items[at])
    &&& forall|j: int| 0 <= j < at ==> !mentions(utterance, #[trigger] items[j])
}

/// Whether `word` is the lower case of the first word of a text without what stands at its two ends
/// and is neither letter nor number.
pub open spec fn leads_with(text: Seq<char>, word: Seq<char>) -> bool {
    exists|from: int, a: int, b: int, to: int|
        #[trigger] is_leading(text, from, a, b, to) && word == lowercase(text.subrange(a, b))
}

/// Whether the first word of a text stands between `from` and `to`, and its core between `a` and
/// `b`.
pub open spec fn is_leading(text: Seq<char>, from: int, a: int, b: int, to: int) -> bool {
    &&& 0 <= from <= a <= b <= to <= text.len()
    &&& forall|i: int| 0 <= i < from ==> is_space(#[trigger] text[i])
    &&& forall|i: int| from <= i < to ==> !is_space(#[trigger] text[i])
    &&& to < text.len() ==> is_space(text[to])
    &&& from == to ==> to == text.len()
    &&& forall|i: int| from <= i < a ==> !alphanumeric(#[trigger] text[i])
    &&& forall|i: int| b <= i < to ==> !alphanumeric(#[trigger] text[i])
    &&& a < b ==> alphanumeric(text[a]) && alphanumeric(text[b - 1])
    &&& a == b ==> a == to
}

/// Whether a pronoun opens the utterance and stands for the one item that the last assistant turn,
/// number `k`, was about.
pub open spec fn points_at(
    utterance: Seq<char>,
    turns: Seq<TurnModel>,
    word: Seq<char>,
    k: int,
) -> bool {
    &&& leads_with(utterance, word)
    &&& word == "that"@ || word == "it"@ || word == "this"@ || word == "those"@ || word == "these"@
        || word == "they"@
    &&& 0 <= k < turns.len()
    &&& turns[k].role == TurnRole::Assistant
    &&& turns[k].refs.len() == 1
    &&& forall|j: int| k < j < turns.len() ==> (#[trigger] turns[j]).role != TurnRole::Assistant
}

/// Whether some turn references the item `id`.
pub open spec fn is_in_play(turns: Seq<TurnModel>, id: Seq<char>) -> bool {
    exists|t: int| 0 <= t < turns.len() && (#[trigger] turns[t]).refs.contains(id)
}

proof fn lemma_lowered_keywords(keywords: Seq<Seq<char>>, lower: Seq<char>)
    ensures
        (exists|k: int|
            0 <= k < lowered_keywords(keywords).len() && occurs_in(
                lower,
                #[trigger] lowered_keywords(keywords)[k],
            )) <==> (exists|k: int|
            0 <= k < keywords.len() && (#[trigger] keywords[k]).len() > 0 && occurs_in(
                lower,
                lowercase(keywords[k]),
            )),
    decreases keywords.len(),
{
    if keywords.len() > 0 {
        let rest = keywords.drop_last();
        let before = lowered_keywords(rest);
        let now = lowered_keywords(keywords);
        let last = keywords.len() - 1;
        lemma_lowered_keywords(rest, lower);
        if exists|k: int| 0 <= k < now.len() && occurs_in(lower, #[trigger] now[k]) {
            let k = choose|k: int| 0 <= k < now.len() && occurs_in(lower, #[trigger] now[k]);
            if k < before.len() {
                assert(now[k] == before[k]);
                let j = choose|j: int|
                    0 <= j < rest.len() && (#[trigger] rest[j]).len() > 0 && occurs_in(
                        lower,
                        lowercase(rest[j]),
                    );
                assert(keywords[j] == rest[j]);
            } else {
                assert(keywords[last].len() > 0);
            }
        }
        if exists|k: int|
            0 <= k < keywords.len() && (#[trigger] keywords[k]).len() > 0 && occurs_in(
                lower,
                lowercase(keywords[k]),
            ) {
            let k = choose|k: int|
                0 <= k < keywords.len() && (#[trigger] keywords[k]).len() > 0 && occurs_in(
                    lower,
                    lowercase(keywords[k]),
                );
            if k < last {
                assert(rest[k] == keywords[k]);
                let j = choose|j: int| 0 <= j < before.len() && occurs_in(lower, #[trigger] before[j]);
                assert(now[j] == before[j]);
            } else {
                assert(now[now.len() - 1] == lowercase(keywords[k]));
            }
        }
    }
}

/// To name an item is to mention it.
proof fn lemma_mentions(utterance: Seq<char>, item: ItemModel)
    ensures
        mentions(utterance, item) <==> names(
            lowercase(utterance),
            lowercase(item.id),
            lowered_keywords(item.keywords),
        ),
{
    lemma_lowered_keywords(item.keywords, lowercase(utterance));
}

proof fn lemma_nothing_mentioned(utterance: Seq<char>, items: Seq<ItemModel>)
    requires
        forall|j: int| 0 <= j < items.len() ==> !mentions(utterance, #[trigger] items[j]),
    ensures
        directly_mentioned(lowercase(utterance), items) is None,
{
    if directly_mentioned(lowercase(utterance), items) is Some {
        let i = lemma_mentioned_is_loaded(lowercase(utterance), items);
        lemma_mentions(utterance, items[i]);
    }
}

proof fn lemma_word_len(s: Seq<char>, n: int)
    requires
        0 <= n <= s.len(),
        forall|i: int| 0 <= i < n ==> !is_space(#[trigger] s[i]),
        n < s.len() ==> is_space(s[n]),
    ensures
        word_len(s) == n,
    decreases n,
{
    if n > 0 {
        assert(!is_space(s[0]));
        let rest = s.skip(1);
        assert forall|i: int| 0 <= i < n - 1 implies !is_space(#[trigger] rest[i]) by {
            assert(rest[i] == s[i + 1]);
        }
        lemma_word_len(rest, n - 1);
    }
}

proof fn lemma_core_start(w: Seq<char>, n: int)
    requires
        0 <= n <= w.len(),
        forall|i: int| 0 <= i < n ==> !alphanumeric(#[trigger] w[i]),
        n < w.len() ==> alphanumeric(w[n]),
    ensures
        core_start(w) == w.skip(n),
    decreases n,
{
    if n > 0 {
        assert(!alphanumeric(w[0]));
        let rest = w.skip(1);
        assert forall|i: int| 0 <= i < n - 1 implies !alphanumeric(#[trigger] rest[i]) by {
            assert(rest[i] == w[i + 1]);
        }
        if n < w.len() {
            assert(rest[n - 1] == w[n]);
        }
        lemma_core_start(rest, n - 1);
        assert(rest.skip(n - 1) =~= w.skip(n));
    } else {
        assert(w.skip(0) =~= w);
    }
}

proof fn lemma_core_end(w: Seq<char>, n: int)
    requires
        0 <= n <= w.len(),
        forall|i: int| n <= i < w.len() ==> !alphanumeric(#[trigger] w[i]),
        n > 0 ==> alphanumeric(w[n - 1]),
    ensures
        core_end(w) == w.take(n),
    decreases w.len(),
{
    if n < w.len() {
        assert(!alphanumeric(w[w.len() - 1]));
        let rest = w.drop_last();
        assert forall|i: int| n <= i < rest.len() implies !alphanumeric(#[trigger] rest[i]) by {
            assert(rest[i] == w[i]);
        }
        lemma_core_end(rest, n);
        assert(rest.take(n) =~= w.take(n));
    } else {
        assert(w.take(n) =~= w);
    }
}

proof fn lemma_leading_word_at(text: Seq<char>, from: int, a: int, b: int, to: int)
    requires
        is_leading(text, from, a, b, to),
    ensures
        leading_word(text) == lowercase(text.subrange(a, b)),
{
    if from < text.len() {
        assert(from < to);
    }
    lemma_trimmed_start(text, from);
    let t = text.skip(from);
    assert forall|i: int| 0 <= i < to - from implies !is_space(#[trigger] t[i]) by {
        assert(t[i] == text[i + from]);
    }
    if to < text.len() {
        assert(t[to - from] == text[to]);
    }
    lemma_word_len(t, to - from);
    let w = t.take(to - from);
    assert(w =~= text.subrange(from, to));
    assert forall|i: int| 0 <= i < a - from implies !alphanumeric(#[trigger] w[i]) by {
        assert(w[i] == text[i + from]);
    }
    if a < to {
        assert(w[a - from] == text[a]);
    }
    lemma_core_start(w, a - from);
    let c = w.skip(a - from);
    assert(c =~= text.subrange(a, to));
    assert forall|i: int| b - a <= i < c.len() implies !alphanumeric(#[trigger] c[i]) by {
        assert(c[i] == text[i + a]);
    }
    if a < b {
        assert(c[b - a - 1] == text[b - 1]);
    }
    lemma_core_end(c, b - a);
    assert(c.take(b - a) =~= text.subrange(a, b));
}

proof fn lemma_word_end(text: Seq<char>, from: int) -> (to: int)
    requires
        0 <= from <= text.len(),
    ensures
        from <= to <= text.len(),
        forall|i: int| from <= i < to ==> !is_space(#[trigger] text[i]),
        to < text.len() ==> is_space(text[to]),
    decreases text.len() - from,
{
    if from < text.len() && !is_space(text[from]) {
        lemma_word_end(text, from + 1)
    } else {
        from
    }
}

proof fn lemma_core_from(text: Seq<char>, from: int, to: int) -> (a: int)
    requires
        0 <= from <= to <= text.len(),
    ensures
        from <= a <= to,
        forall|i: int| from <= i < a ==> !alphanumeric(#[trigger] text[i]),
        a < to ==> alphanumeric(text[a]),
    decreases to - from,
{
    if from < to && !alphanumeric(text[from]) {
        lemma_core_from(text, from + 1, to)
    } else {
        from
    }
}

proof fn lemma_core_to(text: Seq<char>, a: int, to: int) -> (b: int)
    requires
        0 <= a < to <= text.len(),
        alphanumeric(text[a]),
    ensures
        a < b <= to,
        forall|i: int| b <= i < to ==> !alphanumeric(#[trigger] text[i]),
        alphanumeric(text[b - 1]),
    decreases to - a,
{
    if !alphanumeric(text[to - 1]) {
        lemma_core_to(text, a, to - 1)
    } else {
        to
    }
}

/// Every text leads with exactly one word, though it may be empty.
proof fn lemma_leads_with(text: Seq<char>, word: Seq<char>)
    ensures
        leads_with(text, word) <==> word == leading_word(text),
{
    let from = lemma_leading_blanks(text);
    let to = lemma_word_end(text, from);
    let a = lemma_core_from(text, from, to);
    let b = if a < to {
        lemma_core_to(text, a, to)
    } else {
        a
    };
    assert(is_leading(text, from, a, b, to));
    lemma_leading_word_at(text, from, a, b, to);
    if leads_with(text, word) {
        let (f, x, y, t) = choose|f: int, x: int, y: int, t: int|
            #[trigger] is_leading(text, f, x, y, t) && word == lowercase(text.subrange(x, y));
        lemma_leading_word_at(text, f, x, y, t);
    }
}

proof fn lemma_last_assistant(turns: Seq<TurnModel>, k: int)
    requires
        0 <= k < turns.len(),
        turns[k].role == TurnRole::Assistant,
        forall|j: int| k < j < turns.len() ==> (#[trigger] turns[j]).role != TurnRole::Assistant,
    ensures
        last_assistant_refs(turns) == Some(turns[k].refs),
    decreases turns.len(),
{
    if k < turns.len() - 1 {
        let rest = turns.drop_last();
        assert(turns.last() == turns[turns.len() - 1]);
        assert(rest[k] == turns[k]);
        assert forall|j: int| k < j < rest.len() implies (#[trigger] rest[j]).role
            != TurnRole::Assistant by {
            assert(rest[j] == turns[j]);
        }
        lemma_last_assistant(rest, k);
    }
}

proof fn lemma_last_assistant_at(turns: Seq<TurnModel>) -> (k: int)
    requires
        last_assistant_refs(turns) is Some,
    ensures
        0 <= k < turns.len(),
        turns[k].role == TurnRole::Assistant,
        turns[k].refs == last_assistant_refs(turns)->0,
        forall|j: int| k < j < turns.len() ==> (#[trigger] turns[j]).role != TurnRole::Assistant,
    decreases turns.len(),
{
    if turns.last().role == TurnRole::Assistant {
        turns.len() - 1
    } else {
        let rest = turns.drop_last();
        let k = lemma_last_assistant_at(rest);
        assert(rest[k] == turns[k]);
        assert forall|j: int| k < j < turns.len() implies (#[trigger] turns[j]).role
            != TurnRole::Assistant by {
            if j < rest.len() {
                assert(rest[j] == turns[j]);
            }
        }
        k
    }
}

proof fn lemma_all_refs(turns: Seq<TurnModel>, id: Seq<char>)
    ensures
        all_refs(turns).contains(id) <==> is_in_play(turns, id),
    decreases turns.len(),
{
    if turns.len() > 0 {
        let rest = turns.drop_last();
        let before = all_refs(rest);
        let refs = turns.last().refs;
        let now = all_refs(turns);
        lemma_all_refs(rest, id);
        if now.contains(id) {
            let i = choose|i: int| 0 <= i < now.len() && now[i] == id;
            if i < before.len() {
                assert(before[i] == id);
                let t = choose|t: int| 0 <= t < rest.len() && (#[trigger] rest[t]).refs.contains(id);
                assert(turns[t] == rest[t]);
            } else {
                assert(refs[i - before.len()] == id);
                assert(turns[turns.len() - 1].refs.contains(id));
            }
        }
        if is_in_play(turns, id) {
            let t = choose|t: int| 0 <= t < turns.len() && (#[trigger] turns[t]).refs.contains(id);
            if t < rest.len() {
                assert(rest[t] == turns[t]);
                let i = choose|i: int| 0 <= i < before.len() && before[i] == id;
                assert(now[i] == id);
            } else {
                let i = choose|i: int| 0 <= i < refs.len() && refs[i] == id;
                assert(now[before.len() + i] == id);
            }
        }
    }
}

proof fn lemma_no_pronoun(utterance: Seq<char>, turns: Seq<TurnModel>)
    requires
        forall|word: Seq<char>, k: int| !#[trigger] points_at(utterance, turns, word, k),
    ensures
        pronoun_target(leading_word(utterance), turns) is None,
{
    if pronoun_target(leading_word(utterance), turns) is Some {
        let k = lemma_last_assistant_at(turns);
        lemma_leads_with(utterance, leading_word(utterance));
        assert(points_at(utterance, turns, leading_word(utterance), k));
    }
}

/// The first loaded item that the utterance mentions is the one it is about, whatever was said
/// before. Its id counts, and every keyword that is not empty.
pub proof fn law_the_first_mentioned_item_is_meant(
    utterance: &str,
    items: &Vec<LoadedItem>,
    turns: &Vec<RecentTurn>,
    r: Option<Attribution>,
    at: int,
)
    requires
        call_ensures(attribute_signal, (utterance, items, turns), r),
        first_mentioned(utterance@, item_models(items@), at),
    ensures
        r is Some,
        r->0.item_id@ == items@[at].id@,
        r->0.method == AttributionMethod::DirectMention,
        r->0.confidence.bits() == 0x3f73_3333,
{
    let models = item_models(items@);
    lemma_mentions(utterance@, models[at]);
    assert forall|j: int| 0 <= j < at implies !names(
        lowercase(utterance@),
        lowercase((#[trigger] models[j]).id),
        lowered_keywords(models[j].keywords),
    ) by {
        lemma_mentions(utterance@, models[j]);
    }
    lemma_mention_found(lowercase(utterance@), models, at);
    assert(models[at].id == items@[at].id@);
}

/// Where no item is mentioned, a pronoun at the beginning stands for the one item of the last
/// assistant turn; what earlier turns were about does not matter.
pub proof fn law_a_pronoun_points_at_the_last_assistant_turn(
    utterance: &str,
    items: &Vec<LoadedItem>,
    turns: &Vec<RecentTurn>,
    r: Option<Attribution>,
    word: Seq<char>,
    k: int,
)
    requires
        call_ensures(attribute_signal, (utterance, items, turns), r),
        forall|j: int|
            0 <= j < items@.len() ==> !mentions(utterance@, (#[trigger] items@[j])@),
        points_at(utterance@, turn_models(turns@), word, k),
    ensures
        r is Some,
        r->0.item_id@ == turns@[k].referenced_items@[0]@,
        r->0.method == AttributionMethod::PronounResolved,
        r->0.confidence.bits() == 0x3f4c_cccd,
{
    let models = item_models(items@);
    let seen = turn_models(turns@);
    assert forall|j: int| 0 <= j < models.len() implies !mentions(
        utterance@,
        #[trigger] models[j],
    ) by {
        assert(models[j] == items@[j]@);
    }
    lemma_nothing_mentioned(utterance@, models);
    lemma_leads_with(utterance@, word);
    lemma_last_assistant(seen, k);
    reveal_strlit("that");
    reveal_strlit("it");
    reveal_strlit("this");
    reveal_strlit("those");
    reveal_strlit("these");
    reveal_strlit("they");
    assert(seen[k].refs[0] == turns@[k].referenced_items@[0]@);
}

/// Where no item is mentioned and no pronoun helps, the utterance is about the one item in play, if
/// there is exactly one, and otherwise about none.
pub proof fn law_only_a_single_item_in_play_is_meant(
    utterance: &str,
    items: &Vec<LoadedItem>,
    turns: &Vec<RecentTurn>,
    r: Option<Attribution>,
    id: Seq<char>,
)
    requires
        call_ensures(attribute_signal, (utterance, items, turns), r),
        forall|j: int|
            0 <= j < items@.len() ==> !mentions(utterance@, (#[trigger] items@[j])@),
        forall|word: Seq<char>, k: int|
            !#[trigger] points_at(utterance@, turn_models(turns@), word, k),
    ensures
        r is Some && r->0.item_id@ == id <==> is_in_play(turn_models(turns@), id) && forall|
            other: Seq<char>,
        |
            #[trigger] is_in_play(turn_models(turns@), other) ==> other == id,
        r is Some ==> r->0.method == AttributionMethod::Recency && r->0.confidence.bits()
            == 0x3f26_6666,
{
    let models = item_models(items@);
    let seen = turn_models(turns@);
    assert forall|j: int| 0 <= j < models.len() implies !mentions(
        utterance@,
        #[trigger] models[j],
    ) by {
        assert(models[j] == items@[j]@);
    }
    lemma_nothing_mentioned(utterance@, models);
    lemma_no_pronoun(utterance@, seen);
    let refs = all_refs(seen);
    lemma_all_refs(seen, id);
    if r is Some && r->0.item_id@ == id {
        assert(refs[0] == id);
        assert(refs.contains(id));
        assert forall|other: Seq<char>| #[trigger] is_in_play(seen, other) implies other == id by {
            lemma_all_refs(seen, other);
            let i = choose|i: int| 0 <= i < refs.len() && refs[i] == other;
            assert(refs[i] == refs[0]);
        }
    }
    if is_in_play(seen, id) && forall|other: Seq<char>| #[trigger]
        is_in_play(seen, other) ==> other == id {
        assert forall|i: int| 0 <= i < refs.len() implies #[trigger] refs[i] == refs[0] by {
            assert(refs.contains(refs[i]) && refs.contains(refs[0]));
            lemma_all_refs(seen, refs[i]);
            lemma_all_refs(seen, refs[0]);
        }
        assert(refs.contains(refs[0]));
        lemma_all_refs(seen, refs[0]);
    }
}

/// The candidates for the judge are the loaded items in play, in the order they are loaded in.
pub proof fn law_candidates_are_the_items_in_play(items: Seq<ItemModel>, turns: Seq<TurnModel>)
    ensures
        referenced_items(items, turns) == items.filter(|item: ItemModel| is_in_play(turns, item.id)),
    decreases items.len(),
{
    reveal(Seq::filter);
    if items.len() > 0 {
        law_candidates_are_the_items_in_play(items.drop_last(), turns);
        lemma_all_refs(turns, items.last().id);
    }
}

/// The judge is only heard where nothing else decides and two to five items are in play, and only
/// believed from a confidence of 0.8 on. What it says is then taken as it is.
pub proof fn law_the_judge_has_the_last_word<F>(
    utterance: &str,
    items: &Vec<LoadedItem>,
    turns: &Vec<RecentTurn>,
    fallback: F,
    plain: Option<Attribution>,
    r: Option<Attribution>,
) where F: FnOnce(&Vec<LoadedItem>) -> Option<(LoadedItemId, AttributionConfidence)>
    requires
        call_ensures(attribute_signal, (utterance, items, turns), plain),
        call_ensures(attribute_signal_with_fallback::<F>, (utterance, items, turns, fallback), r),
    ensures
        ({
            let candidates = item_models(items@).filter(
                |item: ItemModel| is_in_play(turn_models(turns@), item.id),
            );
            let asked = plain is None && (candidates.len() == 2 || candidates.len() == 3
                || candidates.len() == 4 || candidates.len() == 5);
            &&& !asked ==> opt_model(r) == opt_model(plain)
            &&& asked ==> exists|shown: Vec<LoadedItem>, answer: Option<
                (LoadedItemId, AttributionConfidence),
            >|
                {
                    &&& item_models(shown@) == candidates
                    &&& #[trigger] call_ensures(fallback, (&shown,), answer)
                    &&& r is Some <==> answer is Some && at_least(
                        (answer->0).1.bits(),
                        0x3f4c_cccd,
                    )
                    &&& r is Some ==> r->0.item_id@ == (answer->0).0@ && r->0.confidence.bits()
                        == (answer->0).1.bits() && r->0.method == AttributionMethod::Salience
                }
        }),
{
    law_candidates_are_the_items_in_play(item_models(items@), turn_models(turns@));
}

/// The first mentioned item is the one attributed to.
pub proof fn lemma_first_mentioned(
    utterance: Seq<char>,
    items: Seq<ItemModel>,
    turns: Seq<TurnModel>,
    at: int,
)
    requires
        first_mentioned(utterance, items, at),
    ensures
        attributed(utterance, items, turns) == Some(
            AttributionModel {
                item_id: items[at].id,
                method: AttributionMethod::DirectMention,
                confidence: DIRECT_CONFIDENCE,
            },
        ),
{
    lemma_mentions(utterance, items[at]);
    assert forall|j: int| 0 <= j < at implies !names(
        lowercase(utterance),
        lowercase((#[trigger] items[j]).id),
        lowered_keywords(items[j].keywords),
    ) by {
        lemma_mentions(utterance, items[j]);
    }
    lemma_mention_found(lowercase(utterance), items, at);
}

} // verus!
