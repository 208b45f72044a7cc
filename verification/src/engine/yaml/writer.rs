//! YAML writer for lesson frontmatter.
//!
//! Scalar styles are decided in `scalar`; this module owns the order of the fields and the layout
//! of each section. The order is fixed, so that rewriting a lesson does not churn its diff.

use vstd::prelude::*;

use super::scalar::{render_scalar, rendered};
use super::schema::{
    CausalNarrative, EvidenceModel, EvidenceRef, IngestProvenance, LessonFrontmatter, LessonModel,
    NarrativeModel, ProvenanceModel, evidence_models, opt_narrative,
};
use crate::text::{decimal, occurs_at, push_i64, push_u64, signed_decimal, texts};

verus! {

// ---- What each line holds --------------------------------------------------

/// `key: value`, the value as it stands.
pub open spec fn plain_line(key: Seq<char>, value: Seq<char>) -> Seq<char> {
    key + ": "@ + value + "\n"@
}

/// `key: value`, the value rendered as a scalar.
pub open spec fn string_line(key: Seq<char>, value: Seq<char>) -> Seq<char> {
    plain_line(key, rendered(value, 2))
}

/// A plain line, where there is a value.
pub open spec fn opt_plain_line(key: Seq<char>, value: Option<Seq<char>>) -> Seq<char> {
    match value {
        Some(v) => plain_line(key, v),
        None => seq![],
    }
}

/// A string line, where there is a value.
pub open spec fn opt_string_line(key: Seq<char>, value: Option<Seq<char>>) -> Seq<char> {
    match value {
        Some(v) => string_line(key, v),
        None => seq![],
    }
}

/// `  key: value` inside a section.
pub open spec fn nested_line(key: Seq<char>, value: Seq<char>) -> Seq<char> {
    "  "@ + plain_line(key, rendered(value, 4))
}

/// One list item per line.
pub open spec fn string_items(items: Seq<Seq<char>>) -> Seq<char>
    decreases items.len(),
{
    if items.len() == 0 {
        seq![]
    } else {
        string_items(items.drop_last()) + "  - "@ + rendered(items.last(), 4) + "\n"@
    }
}

/// One number per line.
pub open spec fn number_items(items: Seq<i64>) -> Seq<char>
    decreases items.len(),
{
    if items.len() == 0 {
        seq![]
    } else {
        number_items(items.drop_last()) + "  - "@ + signed_decimal(items.last() as int) + "\n"@
    }
}

/// A list of strings; the empty one stands on the line of its key.
pub open spec fn string_list(key: Seq<char>, items: Seq<Seq<char>>) -> Seq<char> {
    if items.len() == 0 {
        key + ": []\n"@
    } else {
        key + ":\n"@ + string_items(items)
    }
}

/// A list of numbers; the empty one stands on the line of its key.
pub open spec fn number_list(key: Seq<char>, items: Seq<i64>) -> Seq<char> {
    if items.len() == 0 {
        key + ": []\n"@
    } else {
        key + ":\n"@ + number_items(items)
    }
}

/// One evidence reference, as a map with one key.
pub open spec fn evidence_item(r: EvidenceModel) -> Seq<char> {
    match r {
        EvidenceModel::Quote(s) => "    - quote: "@ + rendered(s, 8) + "\n"@,
        EvidenceModel::Memory(id) => "    - memory: "@ + id + "\n"@,
    }
}

/// One evidence reference per line.
pub open spec fn evidence_items(refs: Seq<EvidenceModel>) -> Seq<char>
    decreases refs.len(),
{
    if refs.len() == 0 {
        seq![]
    } else {
        evidence_items(refs.drop_last()) + evidence_item(refs.last())
    }
}

/// The evidence of a narrative.
pub open spec fn evidence_list(refs: Seq<EvidenceModel>) -> Seq<char> {
    if refs.len() == 0 {
        "  evidence_refs: []\n"@
    } else {
        "  evidence_refs:\n"@ + evidence_items(refs)
    }
}

/// The section of a narrative.
pub open spec fn narrative_section(n: NarrativeModel) -> Seq<char> {
    "causal_narrative:\n"@ + nested_line("trigger"@, n.trigger) + nested_line(
        "failure_mode"@,
        n.failure_mode,
    ) + nested_line("correction"@, n.correction) + ("  "@ + plain_line(
        "confidence"@,
        n.confidence.text(),
    )) + evidence_list(n.evidence_refs) + ("  "@ + plain_line(
        "generated_by"@,
        n.generated_by.text(),
    )) + ("  "@ + plain_line("generated_at"@, n.generated_at))
}

/// The section of an ingest provenance.
pub open spec fn provenance_section(p: ProvenanceModel) -> Seq<char> {
    "ingest_provenance:\n"@ + ("  "@ + plain_line("source_type"@, p.source_type.text()))
        + nested_line("source_path"@, p.source_path) + (match p.source_external_id {
        Some(id) => nested_line("source_external_id"@, id),
        None => seq![],
    }) + ("  "@ + plain_line("extracted_at"@, p.extracted_at))
}

/// The fields that every lesson has.
pub open spec fn core_text(fm: LessonModel) -> Seq<char> {
    plain_line("id"@, fm.id) + string_line("description"@, fm.description) + plain_line(
        "status"@,
        fm.status.text(),
    ) + plain_line("created_at"@, fm.created_at)
}

/// Narrative, skill and feedback.
pub open spec fn origin_text(fm: LessonModel) -> Seq<char> {
    (match fm.causal_narrative {
        Some(n) => narrative_section(n),
        None => seq![],
    }) + opt_string_line("target_skill"@, fm.target_skill) + (match fm.source_feedback_ids {
        Some(ids) => number_list("source_feedback_ids"@, ids),
        None => seq![],
    })
}

/// The counters and the signal sources.
pub open spec fn counters_text(fm: LessonModel) -> Seq<char> {
    plain_line("applied_count"@, decimal(fm.applied_count as nat)) + opt_plain_line(
        "last_applied_at"@,
        fm.last_applied_at,
    ) + plain_line("thumbs_up_count"@, decimal(fm.thumbs_up_count as nat)) + plain_line(
        "thumbs_down_count"@,
        decimal(fm.thumbs_down_count as nat),
    ) + string_list("external_signal_sources"@, fm.external_signal_sources) + (
    if fm.applied_session_ids.len() > 0 {
        string_list("applied_session_ids"@, fm.applied_session_ids)
    } else {
        seq![]
    })
}

/// The fields after the counters.
pub open spec fn tail_text(fm: LessonModel) -> Seq<char> {
    opt_plain_line("promotion_eligible_at"@, fm.promotion_eligible_at) + opt_string_line(
        "superseded_by"@,
        fm.superseded_by,
    ) + opt_plain_line("superseded_at"@, fm.superseded_at) + (match fm.ingest_provenance {
        Some(p) => provenance_section(p),
        None => seq![],
    }) + plain_line("authored_by"@, fm.authored_by.text()) + opt_string_line(
        "pack_id"@,
        fm.pack_id,
    ) + opt_string_line("external_id"@, fm.external_id) + opt_plain_line(
        "updated_at"@,
        fm.updated_at,
    )
}

/// The YAML of a lesson.
pub open spec fn lesson_yaml(fm: LessonModel) -> Seq<char> {
    core_text(fm) + origin_text(fm) + counters_text(fm) + tail_text(fm)
}

// ---- Emitting --------------------------------------------------------------

fn emit_u64(out: &mut String, key: &str, value: u64)
    ensures
        final(out)@ == old(out)@ + plain_line(key@, decimal(value as nat)),
{
    let ghost before = out@;
    out.append(key);
    out.append(": ");
    push_u64(out, value);
    out.append("\n");
    proof {
        assert(out@ =~= before + plain_line(key@, decimal(value as nat)));
    }
}

/// Emits a value as it stands. Only for values that are safe in plain style: enum names, numbers,
/// timestamps.
fn emit_plain(out: &mut String, key: &str, value: &str)
    ensures
        final(out)@ == old(out)@ + plain_line(key@, value@),
{
    let ghost before = out@;
    out.append(key);
    out.append(": ");
    out.append(value);
    out.append("\n");
    proof {
        assert(out@ =~= before + plain_line(key@, value@));
    }
}

fn emit_string(out: &mut String, key: &str, value: &str)
    ensures
        final(out)@ == old(out)@ + string_line(key@, value@),
{
    let scalar = render_scalar(value, 2);
    emit_plain(out, key, scalar.as_str());
}

fn emit_opt_plain(out: &mut String, key: &str, value: &Option<String>)
    ensures
        final(out)@ == old(out)@ + opt_plain_line(key@, crate::text::opt_text(*value)),
{
    let ghost before = out@;
    match value {
        Some(v) => emit_plain(out, key, v.as_str()),
        None => {
            proof {
                assert(before + seq![] =~= before);
            }
        },
    }
}

fn emit_opt_string(out: &mut String, key: &str, value: &Option<String>)
    ensures
        final(out)@ == old(out)@ + opt_string_line(key@, crate::text::opt_text(*value)),
{
    let ghost before = out@;
    match value {
        Some(v) => emit_string(out, key, v.as_str()),
        None => {
            proof {
                assert(before + seq![] =~= before);
            }
        },
    }
}

fn emit_string_array(out: &mut String, key: &str, items: &Vec<String>)
    ensures
        final(out)@ == old(out)@ + string_list(key@, texts(items@)),
{
    let ghost before = out@;
    let ghost models = texts(items@);
    out.append(key);
    if items.len() == 0 {
        out.append(": []\n");
        proof {
            assert(out@ =~= before + string_list(key@, models));
        }
        return;
    }
    out.append(":\n");
    let ghost head = out@;
    let mut i: usize = 0;
    proof {
        assert(head + string_items(models.take(0)) =~= head);
    }
    while i < items.len()
        invariant
            i <= items.len(),
            models == texts(items@),
            out@ == head + string_items(models.take(i as int)),
        decreases items.len() - i,
    {
        let ghost mid = out@;
        let scalar = render_scalar(items[i].as_str(), 4);
        out.append("  - ");
        out.append(scalar.as_str());
        out.append("\n");
        proof {
            assert(models.take(i + 1).drop_last() =~= models.take(i as int));
            assert(models.take(i + 1).last() == items@[i as int]@);
            assert(out@ =~= head + (string_items(models.take(i as int)) + "  - "@ + rendered(
                items@[i as int]@,
                4,
            ) + "\n"@));
        }
        i += 1;
    }
    proof {
        assert(models.take(models.len() as int) =~= models);
        assert(out@ =~= before + string_list(key@, models));
    }
}

fn emit_i64_array(out: &mut String, key: &str, items: &Vec<i64>)
    ensures
        final(out)@ == old(out)@ + number_list(key@, items@),
{
    let ghost before = out@;
    out.append(key);
    if items.len() == 0 {
        out.append(": []\n");
        proof {
            assert(out@ =~= before + number_list(key@, items@));
        }
        return;
    }
    out.append(":\n");
    let ghost head = out@;
    let mut i: usize = 0;
    proof {
        assert(head + number_items(items@.take(0)) =~= head);
    }
    while i < items.len()
        invariant
            i <= items.len(),
            out@ == head + number_items(items@.take(i as int)),
        decreases items.len() - i,
    {
        out.append("  - ");
        push_i64(out, items[i]);
        out.append("\n");
        proof {
            assert(items@.take(i + 1).drop_last() =~= items@.take(i as int));
            assert(items@.take(i + 1).last() == items@[i as int]);
            assert(out@ =~= head + (number_items(items@.take(i as int)) + "  - "@
                + signed_decimal(items@[i as int] as int) + "\n"@));
        }
        i += 1;
    }
    proof {
        assert(items@.take(items@.len() as int) =~= items@);
        assert(out@ =~= before + number_list(key@, items@));
    }
}

fn emit_nested_plain(out: &mut String, key: &str, value: &str)
    ensures
        final(out)@ == old(out)@ + ("  "@ + plain_line(key@, value@)),
{
    let ghost before = out@;
    out.append("  ");
    emit_plain(out, key, value);
    proof {
        assert(out@ =~= before + ("  "@ + plain_line(key@, value@)));
    }
}

fn emit_nested_string(out: &mut String, key: &str, value: &str)
    ensures
        final(out)@ == old(out)@ + nested_line(key@, value@),
{
    let scalar = render_scalar(value, 4);
    emit_nested_plain(out, key, scalar.as_str());
}

fn emit_evidence(out: &mut String, refs: &Vec<EvidenceRef>)
    ensures
        final(out)@ == old(out)@ + evidence_list(evidence_models(refs@)),
{
    let ghost before = out@;
    let ghost models = evidence_models(refs@);
    if refs.len() == 0 {
        out.append("  evidence_refs: []\n");
        return;
    }
    out.append("  evidence_refs:\n");
    let ghost head = out@;
    let mut i: usize = 0;
    proof {
        assert(head + evidence_items(models.take(0)) =~= head);
    }
    while i < refs.len()
        invariant
            i <= refs.len(),
            models == evidence_models(refs@),
            out@ == head + evidence_items(models.take(i as int)),
        decreases refs.len() - i,
    {
        let ghost mid = out@;
        match &refs[i] {
            EvidenceRef::Quote(s) => {
                let scalar = render_scalar(s.as_str(), 8);
                out.append("    - quote: ");
                out.append(scalar.as_str());
                out.append("\n");
            },
            EvidenceRef::Memory(id) => {
                out.append("    - memory: ");
                out.append(id.as_str());
                out.append("\n");
            },
        }
        proof {
            assert(out@ =~= mid + evidence_item(refs@[i as int]@));
            assert(models.take(i + 1).drop_last() =~= models.take(i as int));
            assert(models.take(i + 1).last() == refs@[i as int]@);
            assert(out@ =~= head + (evidence_items(models.take(i as int)) + evidence_item(
                refs@[i as int]@,
            )));
        }
        i += 1;
    }
    proof {
        assert(models.take(models.len() as int) =~= models);
        assert(out@ =~= before + evidence_list(models));
    }
}

fn emit_causal_narrative(out: &mut String, cn: &CausalNarrative)
    ensures
        final(out)@ == old(out)@ + narrative_section(cn@),
{
    let ghost before = out@;
    out.append("causal_narrative:\n");
    emit_nested_string(out, "trigger", cn.trigger.as_str());
    emit_nested_string(out, "failure_mode", cn.failure_mode.as_str());
    emit_nested_string(out, "correction", cn.correction.as_str());
    emit_nested_plain(out, "confidence", cn.confidence.as_str());
    emit_evidence(out, &cn.evidence_refs);
    emit_nested_plain(out, "generated_by", cn.generated_by.as_str());
    emit_nested_plain(out, "generated_at", cn.generated_at.as_str());
    proof {
        assert(out@ =~= before + narrative_section(cn@));
    }
}

fn emit_ingest_provenance(out: &mut String, p: &IngestProvenance)
    ensures
        final(out)@ == old(out)@ + provenance_section(p@),
{
    let ghost before = out@;
    out.append("ingest_provenance:\n");
    emit_nested_plain(out, "source_type", p.source_type.as_str());
    emit_nested_string(out, "source_path", p.source_path.as_str());
    if let Some(id) = &p.source_external_id {
        emit_nested_string(out, "source_external_id", id.as_str());
    }
    emit_nested_plain(out, "extracted_at", p.extracted_at.as_str());
    proof {
        assert(out@ =~= before + provenance_section(p@));
    }
}

fn emit_core(out: &mut String, fm: &LessonFrontmatter)
    ensures
        final(out)@ == old(out)@ + core_text(fm@),
{
    let ghost before = out@;
    emit_plain(out, "id", fm.id.as_str());
    emit_string(out, "description", fm.description.as_str());
    emit_plain(out, "status", fm.status.as_str());
    emit_plain(out, "created_at", fm.created_at.as_str());
    proof {
        assert(out@ =~= before + core_text(fm@));
    }
}

fn emit_origin(out: &mut String, fm: &LessonFrontmatter)
    ensures
        final(out)@ == old(out)@ + origin_text(fm@),
{
    let ghost before = out@;
    if let Some(cn) = &fm.causal_narrative {
        emit_causal_narrative(out, cn);
    }
    emit_opt_string(out, "target_skill", &fm.target_skill);
    if let Some(ids) = &fm.source_feedback_ids {
        emit_i64_array(out, "source_feedback_ids", ids);
    }
    proof {
        assert(out@ =~= before + origin_text(fm@));
    }
}

fn emit_counters(out: &mut String, fm: &LessonFrontmatter)
    ensures
        final(out)@ == old(out)@ + counters_text(fm@),
{
    let ghost before = out@;
    emit_u64(out, "applied_count", fm.applied_count);
    emit_opt_plain(out, "last_applied_at", &fm.last_applied_at);
    emit_u64(out, "thumbs_up_count", fm.thumbs_up_count);
    emit_u64(out, "thumbs_down_count", fm.thumbs_down_count);
    emit_string_array(out, "external_signal_sources", &fm.external_signal_sources);
    if fm.applied_session_ids.len() > 0 {
        emit_string_array(out, "applied_session_ids", &fm.applied_session_ids);
    }
    proof {
        assert(out@ =~= before + counters_text(fm@));
    }
}

fn emit_tail(out: &mut String, fm: &LessonFrontmatter)
    ensures
        final(out)@ == old(out)@ + tail_text(fm@),
{
    let ghost before = out@;
    emit_opt_plain(out, "promotion_eligible_at", &fm.promotion_eligible_at);
    emit_opt_string(out, "superseded_by", &fm.superseded_by);
    emit_opt_plain(out, "superseded_at", &fm.superseded_at);
    if let Some(p) = &fm.ingest_provenance {
        emit_ingest_provenance(out, p);
    }
    emit_plain(out, "authored_by", fm.authored_by.as_str());
    emit_opt_string(out, "pack_id", &fm.pack_id);
    emit_opt_string(out, "external_id", &fm.external_id);
    emit_opt_plain(out, "updated_at", &fm.updated_at);
    proof {
        assert(out@ =~= before + tail_text(fm@));
    }
}

/// Render a `LessonFrontmatter` to the YAML that goes between the `---` delimiters.
/// `combine_frontmatter` wraps it.
pub fn serialize_lesson_frontmatter(fm: &LessonFrontmatter) -> (out: String)
    ensures
        out@ == lesson_yaml(fm@),
{
    let mut out = String::new();
    emit_core(&mut out, fm);
    emit_origin(&mut out, fm);
    emit_counters(&mut out, fm);
    emit_tail(&mut out, fm);
    proof {
        assert(out@ =~= lesson_yaml(fm@));
    }
    out
}

// ---- Laws --------------------------------------------------------------------

/// Whether a text holds these lines, from the beginning of a line on.
#[verifier::opaque]
pub open spec fn has_lines(text: Seq<char>, lines: Seq<char>) -> bool {
    exists|at: int|
        #[trigger] occurs_at(text, lines, at) && (at == 0 || text[at - 1] == '\n')
}

/// Whether a text is empty or ends in a line break.
pub open spec fn ends_its_line(text: Seq<char>) -> bool {
    text.len() == 0 || text.last() == '\n'
}

/// What is written stays there when more is written behind it, and what is written behind it stands
/// there too.
proof fn lemma_write_on(before: Seq<char>, more: Seq<char>)
    requires
        ends_its_line(before),
        ends_its_line(more),
    ensures
        ends_its_line(before + more),
        has_lines(before + more, more),
        forall|l: Seq<char>| has_lines(before, l) ==> #[trigger] has_lines(before + more, l),
        forall|l: Seq<char>| has_lines(more, l) ==> #[trigger] has_lines(before + more, l),
{
    reveal(has_lines);
    let whole = before + more;
    let n = before.len() as int;
    assert(whole.subrange(n, whole.len() as int) =~= more);
    assert(occurs_at(whole, more, n));
    if n > 0 {
        assert(whole[n - 1] == before.last());
    }
    if more.len() > 0 {
        assert(whole.last() == more.last());
    } else {
        assert(whole =~= before);
    }
    assert forall|l: Seq<char>| has_lines(before, l) implies #[trigger] has_lines(whole, l) by {
        let at = choose|at: int|
            #[trigger] occurs_at(before, l, at) && (at == 0 || before[at - 1] == '\n');
        assert(whole.subrange(at, at + l.len()) =~= before.subrange(at, at + l.len()));
        assert(occurs_at(whole, l, at));
    }
    assert forall|l: Seq<char>| has_lines(more, l) implies #[trigger] has_lines(whole, l) by {
        let at = choose|at: int|
            #[trigger] occurs_at(more, l, at) && (at == 0 || more[at - 1] == '\n');
        assert(whole.subrange(n + at, n + at + l.len()) =~= more.subrange(at, at + l.len()));
        assert(occurs_at(whole, l, n + at));
        if at > 0 {
            assert(whole[n + at - 1] == more[at - 1]);
        }
    }
}

proof fn lemma_line_ends(key: Seq<char>, value: Seq<char>)
    ensures
        ends_its_line(plain_line(key, value)),
        ends_its_line("  "@ + plain_line(key, value)),
{
    reveal_strlit("\n");
}

proof fn lemma_items_end(items: Seq<Seq<char>>)
    ensures
        ends_its_line(string_items(items)),
        forall|i: int|
            0 <= i < items.len() ==> has_lines(
                string_items(items),
                "  - "@ + rendered(#[trigger] items[i], 4) + "\n"@,
            ),
    decreases items.len(),
{
    if items.len() > 0 {
        reveal_strlit("\n");
        let rest = items.drop_last();
        let last = "  - "@ + rendered(items.last(), 4) + "\n"@;
        lemma_items_end(rest);
        lemma_write_on(string_items(rest), last);
        assert(string_items(items) =~= string_items(rest) + last);
        assert forall|i: int| 0 <= i < items.len() implies has_lines(
            string_items(items),
            "  - "@ + rendered(#[trigger] items[i], 4) + "\n"@,
        ) by {
            if i < rest.len() {
                assert(rest[i] == items[i]);
            }
        }
    }
}

proof fn lemma_numbers_end(items: Seq<i64>)
    ensures
        ends_its_line(number_items(items)),
        forall|i: int|
            0 <= i < items.len() ==> has_lines(
                number_items(items),
                "  - "@ + signed_decimal(#[trigger] items[i] as int) + "\n"@,
            ),
    decreases items.len(),
{
    if items.len() > 0 {
        reveal_strlit("\n");
        let rest = items.drop_last();
        let last = "  - "@ + signed_decimal(items.last() as int) + "\n"@;
        lemma_numbers_end(rest);
        lemma_write_on(number_items(rest), last);
        assert(number_items(items) =~= number_items(rest) + last);
        assert forall|i: int| 0 <= i < items.len() implies has_lines(
            number_items(items),
            "  - "@ + signed_decimal(#[trigger] items[i] as int) + "\n"@,
        ) by {
            if i < rest.len() {
                assert(rest[i] == items[i]);
            }
        }
    }
}

proof fn lemma_evidence_end(refs: Seq<EvidenceModel>)
    ensures
        ends_its_line(evidence_items(refs)),
        forall|i: int|
            0 <= i < refs.len() ==> has_lines(
                evidence_items(refs),
                evidence_item(#[trigger] refs[i]),
            ),
    decreases refs.len(),
{
    if refs.len() > 0 {
        reveal_strlit("\n");
        let rest = refs.drop_last();
        let last = evidence_item(refs.last());
        lemma_evidence_end(rest);
        assert(ends_its_line(last));
        lemma_write_on(evidence_items(rest), last);
        assert forall|i: int| 0 <= i < refs.len() implies has_lines(
            evidence_items(refs),
            evidence_item(#[trigger] refs[i]),
        ) by {
            if i < rest.len() {
                assert(rest[i] == refs[i]);
            }
        }
    }
}

/// Lists are written item by item: first some items, then the others.
pub proof fn law_items_are_written_in_order(a: Seq<Seq<char>>, b: Seq<Seq<char>>)
    ensures
        string_items(a + b) == string_items(a) + string_items(b),
        a.len() == 1 ==> string_items(a) == "  - "@ + rendered(a[0], 4) + "\n"@,
    decreases b.len(),
{
    if b.len() > 0 {
        let all = a + b;
        assert(all.drop_last() =~= a + b.drop_last());
        assert(all.last() == b.last());
        law_items_are_written_in_order(a, b.drop_last());
        assert(string_items(all) =~= string_items(a) + string_items(b));
    } else {
        assert(a + b =~= a);
        assert(string_items(a) + string_items(b) =~= string_items(a));
    }
    if a.len() == 1 {
        assert(a.drop_last().len() == 0);
        assert(a.last() == a[0]);
        assert(string_items(a.drop_last()) =~= seq![]);
        assert(string_items(a) =~= "  - "@ + rendered(a[0], 4) + "\n"@);
    }
}

/// Pieces of evidence are written one after the other: first some, then the others.
pub proof fn law_evidence_is_written_in_order(a: Seq<EvidenceModel>, b: Seq<EvidenceModel>)
    ensures
        evidence_items(a + b) == evidence_items(a) + evidence_items(b),
        a.len() == 1 ==> (a[0] matches EvidenceModel::Memory(id) ==> evidence_items(a)
            == "    - memory: "@ + id + "\n"@),
        a.len() == 1 ==> (a[0] matches EvidenceModel::Quote(s) ==> evidence_items(a)
            == "    - quote: "@ + rendered(s, 8) + "\n"@),
    decreases b.len(),
{
    if b.len() > 0 {
        let all = a + b;
        assert(all.drop_last() =~= a + b.drop_last());
        assert(all.last() == b.last());
        law_evidence_is_written_in_order(a, b.drop_last());
        assert(evidence_items(all) =~= evidence_items(a) + evidence_items(b));
    } else {
        assert(a + b =~= a);
        assert(evidence_items(a) + evidence_items(b) =~= evidence_items(a));
    }
    if a.len() == 1 {
        assert(a.drop_last().len() == 0);
        assert(a.last() == a[0]);
        assert(evidence_items(a.drop_last()) =~= seq![]);
        assert(evidence_items(a) =~= evidence_item(a[0]));
    }
}

proof fn lemma_list_ends(key: Seq<char>, items: Seq<Seq<char>>)
    ensures
        ends_its_line(string_list(key, items)),
        items.len() > 0 ==> has_lines(string_list(key, items), key + ":\n"@)
            && has_lines(string_list(key, items), string_items(items)),
        forall|i: int|
            0 <= i < items.len() ==> has_lines(
                string_list(key, items),
                "  - "@ + rendered(#[trigger] items[i], 4) + "\n"@,
            ),
{
    reveal_strlit(":\n");
    reveal_strlit(": []\n");
    if items.len() > 0 {
        let head = key + ":\n"@;
        lemma_items_end(items);
        lemma_write_on(Seq::empty(), head);
        assert(Seq::<char>::empty() + head =~= head);
        lemma_write_on(head, string_items(items));
    }
}

proof fn lemma_number_list_ends(key: Seq<char>, items: Seq<i64>)
    ensures
        ends_its_line(number_list(key, items)),
        forall|i: int|
            0 <= i < items.len() ==> has_lines(
                number_list(key, items),
                "  - "@ + signed_decimal(#[trigger] items[i] as int) + "\n"@,
            ),
{
    reveal_strlit(":\n");
    reveal_strlit(": []\n");
    if items.len() > 0 {
        let head = key + ":\n"@;
        lemma_numbers_end(items);
        lemma_write_on(head, number_items(items));
    }
}

proof fn lemma_opt_line_ends(key: Seq<char>, value: Option<Seq<char>>)
    ensures
        ends_its_line(opt_plain_line(key, value)),
        ends_its_line(opt_string_line(key, value)),
{
    if let Some(v) = value {
        lemma_line_ends(key, v);
        lemma_line_ends(key, rendered(v, 2));
    }
}

proof fn lemma_narrative_lines(n: NarrativeModel)
    ensures
        ({
            let text = narrative_section(n);
            &&& ends_its_line(text)
            &&& has_lines(text, "causal_narrative:\n"@)
            &&& has_lines(text, nested_line("trigger"@, n.trigger))
            &&& has_lines(text, nested_line("failure_mode"@, n.failure_mode))
            &&& has_lines(text, nested_line("correction"@, n.correction))
            &&& has_lines(text, "  "@ + plain_line("confidence"@, n.confidence.text()))
            &&& has_lines(text, evidence_list(n.evidence_refs))
            &&& forall|i: int|
                0 <= i < n.evidence_refs.len() ==> has_lines(
                    text,
                    evidence_item(#[trigger] n.evidence_refs[i]),
                )
            &&& has_lines(text, "  "@ + plain_line("generated_by"@, n.generated_by.text()))
            &&& has_lines(text, "  "@ + plain_line("generated_at"@, n.generated_at))
        }),
{
    reveal_strlit("causal_narrative:\n");
    let s0 = "causal_narrative:\n"@;
    let x1 = nested_line("trigger"@, n.trigger);
    let x2 = nested_line("failure_mode"@, n.failure_mode);
    let x3 = nested_line("correction"@, n.correction);
    let x4 = "  "@ + plain_line("confidence"@, n.confidence.text());
    let x5 = evidence_list(n.evidence_refs);
    let x6 = "  "@ + plain_line("generated_by"@, n.generated_by.text());
    let x7 = "  "@ + plain_line("generated_at"@, n.generated_at);
    lemma_line_ends("trigger"@, rendered(n.trigger, 4));
    lemma_line_ends("failure_mode"@, rendered(n.failure_mode, 4));
    lemma_line_ends("correction"@, rendered(n.correction, 4));
    lemma_line_ends("confidence"@, n.confidence.text());
    lemma_line_ends("generated_by"@, n.generated_by.text());
    lemma_line_ends("generated_at"@, n.generated_at);
    lemma_evidence_list_ends(n.evidence_refs);
    lemma_write_on(Seq::empty(), s0);
    assert(Seq::<char>::empty() + s0 =~= s0);
    let s1 = s0 + x1;
    let s2 = s1 + x2;
    let s3 = s2 + x3;
    let s4 = s3 + x4;
    let s5 = s4 + x5;
    let s6 = s5 + x6;
    lemma_write_on(s0, x1);
    lemma_write_on(s1, x2);
    lemma_write_on(s2, x3);
    lemma_write_on(s3, x4);
    lemma_write_on(s4, x5);
    lemma_write_on(s5, x6);
    lemma_write_on(s6, x7);
    assert(narrative_section(n) == s6 + x7);
    assert forall|i: int| 0 <= i < n.evidence_refs.len() implies has_lines(
        narrative_section(n),
        evidence_item(#[trigger] n.evidence_refs[i]),
    ) by {
        let l = evidence_item(n.evidence_refs[i]);
        assert(has_lines(x5, l));
        assert(has_lines(s5, l));
        assert(has_lines(s6, l));
    }
}

proof fn lemma_evidence_list_ends(refs: Seq<EvidenceModel>)
    ensures
        ends_its_line(evidence_list(refs)),
        forall|i: int|
            0 <= i < refs.len() ==> has_lines(
                evidence_list(refs),
                evidence_item(#[trigger] refs[i]),
            ),
{
    reveal_strlit("  evidence_refs: []\n");
    reveal_strlit("  evidence_refs:\n");
    if refs.len() > 0 {
        lemma_evidence_end(refs);
        lemma_write_on("  evidence_refs:\n"@, evidence_items(refs));
    }
}

proof fn lemma_provenance_lines(p: ProvenanceModel)
    ensures
        ({
            let text = provenance_section(p);
            &&& ends_its_line(text)
            &&& has_lines(text, "ingest_provenance:\n"@)
            &&& has_lines(text, "  "@ + plain_line("source_type"@, p.source_type.text()))
            &&& has_lines(text, nested_line("source_path"@, p.source_path))
            &&& p.source_external_id matches Some(id) ==> has_lines(
                text,
                nested_line("source_external_id"@, id),
            )
            &&& has_lines(text, "  "@ + plain_line("extracted_at"@, p.extracted_at))
        }),
{
    reveal_strlit("ingest_provenance:\n");
    let s0 = "ingest_provenance:\n"@;
    let x1 = "  "@ + plain_line("source_type"@, p.source_type.text());
    let x2 = nested_line("source_path"@, p.source_path);
    let x3 = match p.source_external_id {
        Some(id) => nested_line("source_external_id"@, id),
        None => seq![],
    };
    let x4 = "  "@ + plain_line("extracted_at"@, p.extracted_at);
    lemma_line_ends("source_type"@, p.source_type.text());
    lemma_line_ends("source_path"@, rendered(p.source_path, 4));
    if let Some(id) = p.source_external_id {
        lemma_line_ends("source_external_id"@, rendered(id, 4));
    }
    lemma_line_ends("extracted_at"@, p.extracted_at);
    lemma_write_on(Seq::empty(), s0);
    assert(Seq::<char>::empty() + s0 =~= s0);
    let s1 = s0 + x1;
    let s2 = s1 + x2;
    let s3 = s2 + x3;
    lemma_write_on(s0, x1);
    lemma_write_on(s1, x2);
    lemma_write_on(s2, x3);
    lemma_write_on(s3, x4);
    assert(provenance_section(p) == s3 + x4);
}

proof fn lemma_core_lines(fm: LessonModel)
    ensures
        ({
            let text = core_text(fm);
            &&& ends_its_line(text)
            &&& has_lines(text, plain_line("id"@, fm.id))
            &&& has_lines(text, string_line("description"@, fm.description))
            &&& has_lines(text, plain_line("status"@, fm.status.text()))
            &&& has_lines(text, plain_line("created_at"@, fm.created_at))
        }),
{
    let s0 = plain_line("id"@, fm.id);
    let x1 = string_line("description"@, fm.description);
    let x2 = plain_line("status"@, fm.status.text());
    let x3 = plain_line("created_at"@, fm.created_at);
    lemma_line_ends("id"@, fm.id);
    lemma_line_ends("description"@, rendered(fm.description, 2));
    lemma_line_ends("status"@, fm.status.text());
    lemma_line_ends("created_at"@, fm.created_at);
    lemma_write_on(Seq::empty(), s0);
    assert(Seq::<char>::empty() + s0 =~= s0);
    let s1 = s0 + x1;
    let s2 = s1 + x2;
    lemma_write_on(s0, x1);
    lemma_write_on(s1, x2);
    lemma_write_on(s2, x3);
    assert(core_text(fm) == s2 + x3);
}

proof fn lemma_origin_lines(fm: LessonModel)
    ensures
        ({
            let text = origin_text(fm);
            &&& ends_its_line(text)
            &&& fm.causal_narrative matches Some(n) ==> has_lines(text, narrative_section(n))
            &&& fm.target_skill matches Some(v) ==> has_lines(text, string_line("target_skill"@, v))
            &&& fm.source_feedback_ids matches Some(ids) ==> has_lines(
                text,
                number_list("source_feedback_ids"@, ids),
            )
        }),
{
    let s0 = match fm.causal_narrative {
        Some(n) => narrative_section(n),
        None => seq![],
    };
    let x1 = opt_string_line("target_skill"@, fm.target_skill);
    let x2 = match fm.source_feedback_ids {
        Some(ids) => number_list("source_feedback_ids"@, ids),
        None => seq![],
    };
    if let Some(n) = fm.causal_narrative {
        lemma_narrative_lines(n);
    }
    lemma_opt_line_ends("target_skill"@, fm.target_skill);
    if let Some(ids) = fm.source_feedback_ids {
        lemma_number_list_ends("source_feedback_ids"@, ids);
    }
    lemma_write_on(Seq::empty(), s0);
    assert(Seq::<char>::empty() + s0 =~= s0);
    let s1 = s0 + x1;
    lemma_write_on(s0, x1);
    lemma_write_on(s1, x2);
    assert(origin_text(fm) == s1 + x2);
}

proof fn lemma_counter_lines(fm: LessonModel)
    ensures
        ({
            let text = counters_text(fm);
            &&& ends_its_line(text)
            &&& has_lines(text, plain_line("applied_count"@, decimal(fm.applied_count as nat)))
            &&& fm.last_applied_at matches Some(v) ==> has_lines(
                text,
                plain_line("last_applied_at"@, v),
            )
            &&& has_lines(text, plain_line("thumbs_up_count"@, decimal(fm.thumbs_up_count as nat)))
            &&& has_lines(
                text,
                plain_line("thumbs_down_count"@, decimal(fm.thumbs_down_count as nat)),
            )
            &&& has_lines(
                text,
                string_list("external_signal_sources"@, fm.external_signal_sources),
            )
            &&& fm.applied_session_ids.len() > 0 ==> has_lines(
                text,
                string_list("applied_session_ids"@, fm.applied_session_ids),
            )
        }),
{
    let s0 = plain_line("applied_count"@, decimal(fm.applied_count as nat));
    let x1 = opt_plain_line("last_applied_at"@, fm.last_applied_at);
    let x2 = plain_line("thumbs_up_count"@, decimal(fm.thumbs_up_count as nat));
    let x3 = plain_line("thumbs_down_count"@, decimal(fm.thumbs_down_count as nat));
    let x4 = string_list("external_signal_sources"@, fm.external_signal_sources);
    let x5 = if fm.applied_session_ids.len() > 0 {
        string_list("applied_session_ids"@, fm.applied_session_ids)
    } else {
        seq![]
    };
    lemma_line_ends("applied_count"@, decimal(fm.applied_count as nat));
    lemma_opt_line_ends("last_applied_at"@, fm.last_applied_at);
    lemma_line_ends("thumbs_up_count"@, decimal(fm.thumbs_up_count as nat));
    lemma_line_ends("thumbs_down_count"@, decimal(fm.thumbs_down_count as nat));
    lemma_list_ends("external_signal_sources"@, fm.external_signal_sources);
    lemma_list_ends("applied_session_ids"@, fm.applied_session_ids);
    lemma_write_on(Seq::empty(), s0);
    assert(Seq::<char>::empty() + s0 =~= s0);
    let s1 = s0 + x1;
    let s2 = s1 + x2;
    let s3 = s2 + x3;
    let s4 = s3 + x4;
    lemma_write_on(s0, x1);
    lemma_write_on(s1, x2);
    lemma_write_on(s2, x3);
    lemma_write_on(s3, x4);
    lemma_write_on(s4, x5);
    assert(counters_text(fm) == s4 + x5);
}

proof fn lemma_tail_lines(fm: LessonModel)
    ensures
        ({
            let text = tail_text(fm);
            &&& ends_its_line(text)
            &&& fm.promotion_eligible_at matches Some(v) ==> has_lines(
                text,
                plain_line("promotion_eligible_at"@, v),
            )
            &&& fm.superseded_by matches Some(v) ==> has_lines(
                text,
                string_line("superseded_by"@, v),
            )
            &&& fm.superseded_at matches Some(v) ==> has_lines(
                text,
                plain_line("superseded_at"@, v),
            )
            &&& fm.ingest_provenance matches Some(p) ==> has_lines(text, provenance_section(p))
            &&& has_lines(text, plain_line("authored_by"@, fm.authored_by.text()))
            &&& fm.pack_id matches Some(v) ==> has_lines(text, string_line("pack_id"@, v))
            &&& fm.external_id matches Some(v) ==> has_lines(text, string_line("external_id"@, v))
            &&& fm.updated_at matches Some(v) ==> has_lines(text, plain_line("updated_at"@, v))
        }),
{
    let s0 = opt_plain_line("promotion_eligible_at"@, fm.promotion_eligible_at);
    let x1 = opt_string_line("superseded_by"@, fm.superseded_by);
    let x2 = opt_plain_line("superseded_at"@, fm.superseded_at);
    let x3 = match fm.ingest_provenance {
        Some(p) => provenance_section(p),
        None => seq![],
    };
    let x4 = plain_line("authored_by"@, fm.authored_by.text());
    let x5 = opt_string_line("pack_id"@, fm.pack_id);
    let x6 = opt_string_line("external_id"@, fm.external_id);
    let x7 = opt_plain_line("updated_at"@, fm.updated_at);
    lemma_opt_line_ends("promotion_eligible_at"@, fm.promotion_eligible_at);
    lemma_opt_line_ends("superseded_by"@, fm.superseded_by);
    lemma_opt_line_ends("superseded_at"@, fm.superseded_at);
    if let Some(p) = fm.ingest_provenance {
        lemma_provenance_lines(p);
    }
    lemma_line_ends("authored_by"@, fm.authored_by.text());
    lemma_opt_line_ends("pack_id"@, fm.pack_id);
    lemma_opt_line_ends("external_id"@, fm.external_id);
    lemma_opt_line_ends("updated_at"@, fm.updated_at);
    lemma_write_on(Seq::empty(), s0);
    assert(Seq::<char>::empty() + s0 =~= s0);
    let s1 = s0 + x1;
    let s2 = s1 + x2;
    let s3 = s2 + x3;
    let s4 = s3 + x4;
    let s5 = s4 + x5;
    let s6 = s5 + x6;
    lemma_write_on(s0, x1);
    lemma_write_on(s1, x2);
    lemma_write_on(s2, x3);
    lemma_write_on(s3, x4);
    lemma_write_on(s4, x5);
    lemma_write_on(s5, x6);
    lemma_write_on(s6, x7);
    assert(tail_text(fm) == s6 + x7);
}

proof fn lemma_lines_nest(text: Seq<char>, part: Seq<char>, lines: Seq<char>)
    requires
        has_lines(text, part),
        has_lines(part, lines),
    ensures
        has_lines(text, lines),
{
    reveal(has_lines);
    let a = choose|a: int| #[trigger] occurs_at(text, part, a) && (a == 0 || text[a - 1] == '\n');
    let b = choose|b: int|
        #[trigger] occurs_at(part, lines, b) && (b == 0 || part[b - 1] == '\n');
    let whole = text.subrange(a, a + part.len());
    assert(text.subrange(a + b, a + b + lines.len()) =~= whole.subrange(b, b + lines.len()));
    assert(occurs_at(text, lines, a + b));
    if b > 0 {
        assert(text[a + b - 1] == whole[b - 1]);
    }
}

proof fn lemma_lesson_lines(fm: LessonModel)
    ensures
        ({
            let text = lesson_yaml(fm);
            &&& has_lines(text, core_text(fm))
            &&& has_lines(text, origin_text(fm))
            &&& has_lines(text, counters_text(fm))
            &&& has_lines(text, tail_text(fm))
            &&& forall|l: Seq<char>| has_lines(core_text(fm), l) ==> #[trigger] has_lines(text, l)
            &&& forall|l: Seq<char>| has_lines(origin_text(fm), l) ==> #[trigger] has_lines(text, l)
            &&& forall|l: Seq<char>| has_lines(counters_text(fm), l) ==> #[trigger] has_lines(text, l)
            &&& forall|l: Seq<char>| has_lines(tail_text(fm), l) ==> #[trigger] has_lines(text, l)
        }),
{
    let s0 = core_text(fm);
    let s1 = s0 + origin_text(fm);
    let s2 = s1 + counters_text(fm);
    lemma_core_lines(fm);
    lemma_origin_lines(fm);
    lemma_counter_lines(fm);
    lemma_tail_lines(fm);
    lemma_write_on(Seq::empty(), s0);
    assert(Seq::<char>::empty() + s0 =~= s0);
    lemma_write_on(s0, origin_text(fm));
    lemma_write_on(s1, counters_text(fm));
    lemma_write_on(s2, tail_text(fm));
    let text = lesson_yaml(fm);
    assert(text == s2 + tail_text(fm));
    assert forall|l: Seq<char>| has_lines(core_text(fm), l) implies #[trigger] has_lines(text, l) by {
        assert(has_lines(s1, l));
        assert(has_lines(s2, l));
    }
    assert forall|l: Seq<char>| has_lines(origin_text(fm), l) implies #[trigger] has_lines(
        text,
        l,
    ) by {
        assert(has_lines(s1, l));
        assert(has_lines(s2, l));
    }
    assert forall|l: Seq<char>| has_lines(counters_text(fm), l) implies #[trigger] has_lines(
        text,
        l,
    ) by {
        assert(has_lines(s2, l));
    }
}

/// A written lesson holds a line for each field that it has, under the field's name: free text as a
/// scalar that reads back, everything else as it is.
pub proof fn law_a_written_lesson_tells_its_fields(fm: &LessonFrontmatter, out: String)
    requires
        call_ensures(serialize_lesson_frontmatter, (fm,), out),
    ensures
        has_lines(out@, "id"@ + ": "@ + fm.id@ + "\n"@),
        has_lines(out@, "description"@ + ": "@ + rendered(fm.description@, 2) + "\n"@),
        has_lines(out@, "status"@ + ": "@ + fm.status.text() + "\n"@),
        has_lines(out@, "created_at"@ + ": "@ + fm.created_at@ + "\n"@),
        fm.target_skill matches Some(v) ==> has_lines(
            out@,
            "target_skill"@ + ": "@ + rendered(v@, 2) + "\n"@,
        ),
        has_lines(out@, "applied_count"@ + ": "@ + decimal(fm.applied_count as nat) + "\n"@),
        fm.last_applied_at matches Some(v) ==> has_lines(
            out@,
            "last_applied_at"@ + ": "@ + v@ + "\n"@,
        ),
        has_lines(out@, "thumbs_up_count"@ + ": "@ + decimal(fm.thumbs_up_count as nat) + "\n"@),
        has_lines(
            out@,
            "thumbs_down_count"@ + ": "@ + decimal(fm.thumbs_down_count as nat) + "\n"@,
        ),
        fm.promotion_eligible_at matches Some(v) ==> has_lines(
            out@,
            "promotion_eligible_at"@ + ": "@ + v@ + "\n"@,
        ),
        fm.superseded_by matches Some(v) ==> has_lines(
            out@,
            "superseded_by"@ + ": "@ + rendered(v@, 2) + "\n"@,
        ),
        fm.superseded_at matches Some(v) ==> has_lines(
            out@,
            "superseded_at"@ + ": "@ + v@ + "\n"@,
        ),
        has_lines(out@, "authored_by"@ + ": "@ + fm.authored_by.text() + "\n"@),
        fm.pack_id matches Some(v) ==> has_lines(
            out@,
            "pack_id"@ + ": "@ + rendered(v@, 2) + "\n"@,
        ),
        fm.external_id matches Some(v) ==> has_lines(
            out@,
            "external_id"@ + ": "@ + rendered(v@, 2) + "\n"@,
        ),
        fm.updated_at matches Some(v) ==> has_lines(out@, "updated_at"@ + ": "@ + v@ + "\n"@),
{
    let m = fm@;
    lemma_core_lines(m);
    lemma_origin_lines(m);
    lemma_counter_lines(m);
    lemma_tail_lines(m);
    lemma_lesson_lines(m);
}

/// A written lesson holds its lists under their names, with a line for each item: the sources of
/// signals, even where there are none, and the sessions and feedback where there are any.
pub proof fn law_a_written_lesson_tells_its_lists(fm: &LessonFrontmatter, out: String)
    requires
        call_ensures(serialize_lesson_frontmatter, (fm,), out),
    ensures
        fm.external_signal_sources@.len() == 0 ==> has_lines(
            out@,
            "external_signal_sources"@ + ": []\n"@,
        ),
        fm.external_signal_sources@.len() > 0 ==> has_lines(
            out@,
            "external_signal_sources"@ + ":\n"@ + string_items(texts(fm.external_signal_sources@)),
        ),
        fm.applied_session_ids@.len() > 0 ==> has_lines(
            out@,
            "applied_session_ids"@ + ":\n"@ + string_items(texts(fm.applied_session_ids@)),
        ),
        fm.source_feedback_ids matches Some(ids) ==> {
            &&& ids@.len() == 0 ==> has_lines(out@, "source_feedback_ids"@ + ": []\n"@)
            &&& ids@.len() > 0 ==> has_lines(
                out@,
                "source_feedback_ids"@ + ":\n"@ + number_items(ids@),
            )
        },
{
    let m = fm@;
    lemma_origin_lines(m);
    lemma_counter_lines(m);
    lemma_lesson_lines(m);
}

/// A written lesson tells why it came about and where from: each part of the narrative, each piece
/// of evidence, and each part of the provenance.
pub proof fn law_a_written_lesson_tells_its_origin(fm: &LessonFrontmatter, out: String)
    requires
        call_ensures(serialize_lesson_frontmatter, (fm,), out),
    ensures
        opt_narrative(fm.causal_narrative) matches Some(n) ==> {
            &&& has_lines(out@, "causal_narrative:\n"@)
            &&& has_lines(
                out@,
                "  "@ + ("trigger"@ + ": "@ + rendered(n.trigger, 4) + "\n"@),
            )
            &&& has_lines(
                out@,
                "  "@ + ("failure_mode"@ + ": "@ + rendered(n.failure_mode, 4) + "\n"@),
            )
            &&& has_lines(
                out@,
                "  "@ + ("correction"@ + ": "@ + rendered(n.correction, 4) + "\n"@),
            )
            &&& has_lines(
                out@,
                "  "@ + ("confidence"@ + ": "@ + n.confidence.text() + "\n"@),
            )
            &&& has_lines(
                out@,
                "  "@ + ("generated_by"@ + ": "@ + n.generated_by.text() + "\n"@),
            )
            &&& has_lines(out@, "  "@ + ("generated_at"@ + ": "@ + n.generated_at + "\n"@))
            &&& forall|i: int|
                #![trigger n.evidence_refs[i]]
                0 <= i < n.evidence_refs.len() ==> {
                    &&& n.evidence_refs[i] matches EvidenceModel::Memory(id) ==> has_lines(
                        out@,
                        "    - memory: "@ + id + "\n"@,
                    )
                    &&& n.evidence_refs[i] matches EvidenceModel::Quote(s) ==> has_lines(
                        out@,
                        "    - quote: "@ + rendered(s, 8) + "\n"@,
                    )
                }
        },
        fm.ingest_provenance matches Some(p) ==> {
            &&& has_lines(out@, "ingest_provenance:\n"@)
            &&& has_lines(
                out@,
                "  "@ + ("source_type"@ + ": "@ + p.source_type.text() + "\n"@),
            )
            &&& has_lines(
                out@,
                "  "@ + ("source_path"@ + ": "@ + rendered(p.source_path@, 4) + "\n"@),
            )
            &&& p.source_external_id matches Some(id) ==> has_lines(
                out@,
                "  "@ + ("source_external_id"@ + ": "@ + rendered(id@, 4) + "\n"@),
            )
            &&& has_lines(out@, "  "@ + ("extracted_at"@ + ": "@ + p.extracted_at@ + "\n"@))
        },
{
    let m = fm@;
    lemma_origin_lines(m);
    lemma_tail_lines(m);
    lemma_lesson_lines(m);
    if let Some(n) = opt_narrative(fm.causal_narrative) {
        let part = narrative_section(n);
        lemma_narrative_lines(n);
        assert(has_lines(out@, part));
        assert forall|l: Seq<char>| has_lines(part, l) implies #[trigger] has_lines(out@, l) by {
            lemma_lines_nest(out@, part, l);
        }
        assert forall|i: int| #![trigger n.evidence_refs[i]] 0 <= i < n.evidence_refs.len() implies {
            &&& n.evidence_refs[i] matches EvidenceModel::Memory(id) ==> has_lines(
                out@,
                "    - memory: "@ + id + "\n"@,
            )
            &&& n.evidence_refs[i] matches EvidenceModel::Quote(s) ==> has_lines(
                out@,
                "    - quote: "@ + rendered(s, 8) + "\n"@,
            )
        } by {
            let l = evidence_item(n.evidence_refs[i]);
            assert(has_lines(part, l));
            assert(has_lines(out@, l));
        }
    }
    if let Some(p) = fm.ingest_provenance {
        let part = provenance_section(p@);
        lemma_provenance_lines(p@);
        assert(has_lines(out@, part));
        assert forall|l: Seq<char>| has_lines(part, l) implies #[trigger] has_lines(out@, l) by {
            lemma_lines_nest(out@, part, l);
        }
    }
}

} // verus!
