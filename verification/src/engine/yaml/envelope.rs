//! Record files: YAML between delimiters, then the body.
//!
//! What was written opens again; for a lesson, no line of the YAML that the writer emits is taken
//! for the closing delimiter.

use vstd::prelude::*;
use vstd::utf8::{
    decode_utf8, encode_utf8, encode_utf8_decode_utf8, encode_utf8_valid_utf8, valid_utf8,
};

use super::frontmatter::{
    closes_at, combined, crlf_to_lf, final_newline, is_dash_line,
    law_a_file_is_split_at_its_dash_lines, law_lf_text_is_kept,
    law_line_breaks_become_one_character, law_split_after_combine, split_of, without_char,
    FrontmatterError,
};
use super::scalar::{
    law_block_lines_are_indented, law_inline_scalar_is_one_line, rendered, style_of, ScalarStyle,
};
use super::schema::{EvidenceModel, LessonModel, NarrativeModel, ProvenanceModel};
use super::writer::{
    core_text, counters_text, evidence_item, evidence_items, evidence_list, lesson_yaml,
    narrative_section, nested_line, number_items, number_list, opt_plain_line, opt_string_line,
    origin_text, plain_line, provenance_section, string_items, string_line, string_list, tail_text,
};
use crate::text::{decimal, repeated, signed_decimal, trimmed, without_trailing};

verus! {

/// What opening a record file gives: the normalized YAML and body.
pub open spec fn opened(bytes: Seq<u8>) -> Result<
    (Seq<char>, Seq<char>),
    FrontmatterError,
> {
    match split_of(decode_utf8(bytes)) {
        Ok((yaml, body)) => Ok((without_char(crlf_to_lf(yaml), '\r'), crlf_to_lf(body))),
        Err(e) => Err(e),
    }
}

/// Complete lines, none of which begins with a dash.
pub open spec fn dashless_lines(s: Seq<char>) -> bool {
    &&& s.len() > 0 ==> s.last() == '\n'
    &&& forall|i: int| 0 <= i < s.len() && #[trigger] s[i] == '-' ==> i > 0 && s[i - 1] != '\n'
}

/// A value whose continuation lines are indented.
pub open spec fn hangs(value: Seq<char>) -> bool {
    forall|i: int|
        0 <= i < value.len() && #[trigger] value[i] == '\n' ==> i + 1 < value.len() && value[i + 1]
            == ' '
}

/// A text on one line.
pub open spec fn one_line(s: Seq<char>) -> bool {
    !s.contains('\n')
}

/// A text on one line, where there is one.
pub open spec fn opt_one_line(o: Option<Seq<char>>) -> bool {
    match o {
        Some(s) => one_line(s),
        None => true,
    }
}

/// Whether what the writer emits as it stands (ids, timestamps, cited memory ids) stays on its
/// line.
pub open spec fn plain_fields_are_one_line(fm: LessonModel) -> bool {
    &&& one_line(fm.id)
    &&& one_line(fm.created_at)
    &&& opt_one_line(fm.last_applied_at)
    &&& opt_one_line(fm.promotion_eligible_at)
    &&& opt_one_line(fm.superseded_at)
    &&& opt_one_line(fm.updated_at)
    &&& fm.causal_narrative is Some ==> {
        &&& one_line(fm.causal_narrative->0.generated_at)
        &&& forall|i: int|
            0 <= i < fm.causal_narrative->0.evidence_refs.len() ==> (
            #[trigger] fm.causal_narrative->0.evidence_refs[i] matches EvidenceModel::Memory(id)
                ==> one_line(id))
    }
    &&& fm.ingest_provenance is Some ==> one_line(fm.ingest_provenance->0.extracted_at)
}

proof fn lemma_join(a: Seq<char>, b: Seq<char>)
    requires
        dashless_lines(a),
        dashless_lines(b),
    ensures
        dashless_lines(a + b),
{
    let s = a + b;
    assert forall|i: int| 0 <= i < s.len() && #[trigger] s[i] == '-' implies i > 0 && s[i - 1]
        != '\n' by {
        if i < a.len() {
            assert(a[i] == '-');
        } else {
            assert(b[i - a.len()] == '-');
            assert(s[i - 1] == b[i - a.len() - 1]);
        }
    }
}

/// A line made of a head, a hanging value and a newline.
proof fn lemma_line(head: Seq<char>, value: Seq<char>)
    requires
        head.len() > 0,
        head[0] != '-',
        one_line(head),
        hangs(value),
    ensures
        dashless_lines(head + value + "\n"@),
{
    reveal_strlit("\n");
    let s = head + value + "\n"@;
    assert forall|i: int| 0 <= i < s.len() && #[trigger] s[i] == '-' implies i > 0 && s[i - 1]
        != '\n' by {
        if i < head.len() {
            assert(head[i] == '-');
            assert(s[i - 1] == head[i - 1]);
        } else if i < head.len() + value.len() {
            if i == head.len() {
                assert(s[i - 1] == head[i - 1]);
            } else {
                assert(s[i - 1] == value[i - head.len() - 1]);
                assert(s[i] == value[i - head.len()]);
            }
        }
    }
}

proof fn lemma_one_line_hangs(s: Seq<char>)
    requires
        one_line(s),
    ensures
        hangs(s),
{
}

/// A rendered scalar hangs.
proof fn lemma_rendered_hangs(s: Seq<char>, indent: nat)
    requires
        indent > 0,
    ensures
        hangs(rendered(s, indent)),
{
    let out = rendered(s, indent);
    match style_of(s) {
        ScalarStyle::LiteralBlock { chomp_strip } => {
            assert forall|i: int| 0 <= i < out.len() && #[trigger] out[i] == '\n' implies i + 1
                < out.len() && out[i + 1] == ' ' by {
                law_block_lines_are_indented(s, indent, chomp_strip, i);
                let pad = repeated(' ', indent);
                assert(out.subrange(i + 1, i + 1 + pad.len())[0] == pad[0]);
            }
        },
        _ => {
            law_inline_scalar_is_one_line(s, indent);
            lemma_one_line_hangs(out);
        },
    }
}

/// A key that a field line may have.
spec fn is_key(key: Seq<char>) -> bool {
    key.len() > 0 && key[0] != '-' && one_line(key)
}

proof fn lemma_plain_line(key: Seq<char>, value: Seq<char>)
    requires
        is_key(key),
        hangs(value),
    ensures
        dashless_lines(plain_line(key, value)),
        dashless_lines("  "@ + plain_line(key, value)),
{
    reveal_strlit(": ");
    reveal_strlit("  ");
    lemma_line(key + ": "@, value);
    lemma_line("  "@ + key + ": "@, value);
    assert("  "@ + plain_line(key, value) =~= "  "@ + key + ": "@ + value + "\n"@);
}

proof fn lemma_string_line(key: Seq<char>, value: Seq<char>)
    requires
        is_key(key),
    ensures
        dashless_lines(string_line(key, value)),
        dashless_lines(nested_line(key, value)),
{
    lemma_rendered_hangs(value, 2);
    lemma_rendered_hangs(value, 4);
    lemma_plain_line(key, rendered(value, 2));
    lemma_plain_line(key, rendered(value, 4));
}

proof fn lemma_opt_plain_line(key: Seq<char>, value: Option<Seq<char>>)
    requires
        is_key(key),
        opt_one_line(value),
    ensures
        dashless_lines(opt_plain_line(key, value)),
{
    if let Some(v) = value {
        lemma_one_line_hangs(v);
        lemma_plain_line(key, v);
    }
}

proof fn lemma_opt_string_line(key: Seq<char>, value: Option<Seq<char>>)
    requires
        is_key(key),
    ensures
        dashless_lines(opt_string_line(key, value)),
{
    if let Some(v) = value {
        lemma_string_line(key, v);
    }
}

proof fn lemma_string_items(items: Seq<Seq<char>>)
    ensures
        dashless_lines(string_items(items)),
    decreases items.len(),
{
    if items.len() > 0 {
        reveal_strlit("  - ");
        lemma_string_items(items.drop_last());
        lemma_rendered_hangs(items.last(), 4);
        lemma_line("  - "@, rendered(items.last(), 4));
        lemma_join(
            string_items(items.drop_last()),
            "  - "@ + rendered(items.last(), 4) + "\n"@,
        );
        assert(string_items(items) =~= string_items(items.drop_last()) + ("  - "@ + rendered(
            items.last(),
            4,
        ) + "\n"@));
    }
}

proof fn lemma_decimal_is_one_line(n: nat)
    ensures
        one_line(decimal(n)),
    decreases n,
{
    if n >= 10 {
        lemma_decimal_is_one_line(n / 10);
        assert(forall|i: int|
            0 <= i < decimal(n / 10).len() ==> decimal(n)[i] == decimal(n / 10)[i]);
        if decimal(n).contains('\n') {
            let i = choose|i: int| 0 <= i < decimal(n).len() && decimal(n)[i] == '\n';
            if i < decimal(n / 10).len() {
                assert(decimal(n / 10)[i] == '\n');
                assert(decimal(n / 10).contains('\n'));
            }
        }
    }
}

proof fn lemma_number_items(items: Seq<i64>)
    ensures
        dashless_lines(number_items(items)),
    decreases items.len(),
{
    if items.len() > 0 {
        let n = items.last() as int;
        reveal_strlit("  - ");
        lemma_number_items(items.drop_last());
        if n < 0 {
            lemma_decimal_is_one_line((-n) as nat);
            let d = decimal((-n) as nat);
            let t = signed_decimal(n);
            if t.contains('\n') {
                let i = choose|i: int| 0 <= i < t.len() && t[i] == '\n';
                if i > 0 {
                    assert(d[i - 1] == '\n');
                    assert(d.contains('\n'));
                }
            }
        } else {
            lemma_decimal_is_one_line(n as nat);
        }
        lemma_one_line_hangs(signed_decimal(n));
        lemma_line("  - "@, signed_decimal(n));
        lemma_join(number_items(items.drop_last()), "  - "@ + signed_decimal(n) + "\n"@);
        assert(number_items(items) =~= number_items(items.drop_last()) + ("  - "@ + signed_decimal(
            n,
        ) + "\n"@));
    }
}

/// The line of the key of a list.
proof fn lemma_list_head(key: Seq<char>)
    requires
        is_key(key),
    ensures
        dashless_lines(key + ": []\n"@),
        dashless_lines(key + ":\n"@),
{
    reveal_strlit(": []\n");
    reveal_strlit(":\n");
    reveal_strlit("\n");
    reveal_strlit(": []");
    reveal_strlit(":");
    lemma_line(key, ": []"@);
    lemma_line(key, ":"@);
    assert(": []\n"@ =~= ": []"@ + "\n"@);
    assert(":\n"@ =~= ":"@ + "\n"@);
    assert(key + ": []\n"@ =~= key + ": []"@ + "\n"@);
    assert(key + ":\n"@ =~= key + ":"@ + "\n"@);
}

proof fn lemma_string_list(key: Seq<char>, items: Seq<Seq<char>>)
    requires
        is_key(key),
    ensures
        dashless_lines(string_list(key, items)),
{
    lemma_list_head(key);
    lemma_string_items(items);
    lemma_join(key + ":\n"@, string_items(items));
}

proof fn lemma_number_list(key: Seq<char>, items: Seq<i64>)
    requires
        is_key(key),
    ensures
        dashless_lines(number_list(key, items)),
{
    lemma_list_head(key);
    lemma_number_items(items);
    lemma_join(key + ":\n"@, number_items(items));
}

proof fn lemma_evidence_items(refs: Seq<EvidenceModel>)
    requires
        forall|i: int|
            0 <= i < refs.len() ==> (#[trigger] refs[i] matches EvidenceModel::Memory(id)
                ==> one_line(id)),
    ensures
        dashless_lines(evidence_items(refs)),
    decreases refs.len(),
{
    if refs.len() > 0 {
        assert forall|i: int| 0 <= i < refs.drop_last().len() implies (
        #[trigger] refs.drop_last()[i] matches EvidenceModel::Memory(id) ==> one_line(id)) by {
            assert(refs.drop_last()[i] == refs[i]);
        }
        lemma_evidence_items(refs.drop_last());
        assert(refs.last() == refs[refs.len() - 1]);
        match refs.last() {
            EvidenceModel::Quote(s) => {
                reveal_strlit("    - quote: ");
                lemma_rendered_hangs(s, 8);
                lemma_line("    - quote: "@, rendered(s, 8));
            },
            EvidenceModel::Memory(id) => {
                reveal_strlit("    - memory: ");
                lemma_one_line_hangs(id);
                lemma_line("    - memory: "@, id);
            },
        }
        lemma_join(evidence_items(refs.drop_last()), evidence_item(refs.last()));
    }
}

proof fn lemma_narrative(n: NarrativeModel)
    requires
        one_line(n.generated_at),
        forall|i: int|
            0 <= i < n.evidence_refs.len() ==> (
            #[trigger] n.evidence_refs[i] matches EvidenceModel::Memory(id) ==> one_line(id)),
    ensures
        dashless_lines(narrative_section(n)),
{
    reveal_strlit("causal_narrative:\n");
    reveal_strlit("trigger");
    reveal_strlit("failure_mode");
    reveal_strlit("correction");
    reveal_strlit("confidence");
    reveal_strlit("  evidence_refs: []\n");
    reveal_strlit("  evidence_refs:\n");
    reveal_strlit("generated_by");
    reveal_strlit("generated_at");
    reveal_strlit("observed");
    reveal_strlit("inferred");
    reveal_strlit("speculative");
    reveal_strlit("user");
    reveal_strlit("llm");
    let a = "causal_narrative:\n"@;
    let b = a + nested_line("trigger"@, n.trigger);
    let c = b + nested_line("failure_mode"@, n.failure_mode);
    let d = c + nested_line("correction"@, n.correction);
    let e = d + ("  "@ + plain_line("confidence"@, n.confidence.text()));
    let f = e + evidence_list(n.evidence_refs);
    let g = f + ("  "@ + plain_line("generated_by"@, n.generated_by.text()));
    lemma_string_line("trigger"@, n.trigger);
    lemma_string_line("failure_mode"@, n.failure_mode);
    lemma_string_line("correction"@, n.correction);
    lemma_one_line_hangs(n.confidence.text());
    lemma_plain_line("confidence"@, n.confidence.text());
    lemma_evidence_items(n.evidence_refs);
    lemma_one_line_hangs(n.generated_by.text());
    lemma_plain_line("generated_by"@, n.generated_by.text());
    lemma_one_line_hangs(n.generated_at);
    lemma_plain_line("generated_at"@, n.generated_at);
    assert(dashless_lines(a));
    assert(dashless_lines(evidence_list(n.evidence_refs))) by {
        if n.evidence_refs.len() > 0 {
            assert(dashless_lines("  evidence_refs:\n"@));
            lemma_join("  evidence_refs:\n"@, evidence_items(n.evidence_refs));
        }
    }
    lemma_join(a, nested_line("trigger"@, n.trigger));
    lemma_join(b, nested_line("failure_mode"@, n.failure_mode));
    lemma_join(c, nested_line("correction"@, n.correction));
    lemma_join(d, "  "@ + plain_line("confidence"@, n.confidence.text()));
    lemma_join(e, evidence_list(n.evidence_refs));
    lemma_join(f, "  "@ + plain_line("generated_by"@, n.generated_by.text()));
    lemma_join(g, "  "@ + plain_line("generated_at"@, n.generated_at));
}

proof fn lemma_provenance(p: ProvenanceModel)
    requires
        one_line(p.extracted_at),
    ensures
        dashless_lines(provenance_section(p)),
{
    reveal_strlit("ingest_provenance:\n");
    reveal_strlit("source_type");
    reveal_strlit("source_path");
    reveal_strlit("source_external_id");
    reveal_strlit("extracted_at");
    reveal_strlit("auto_memory");
    reveal_strlit("auto_dream_signal");
    reveal_strlit("ecc_instinct");
    reveal_strlit("learnings_md");
    let a = "ingest_provenance:\n"@;
    let b = a + ("  "@ + plain_line("source_type"@, p.source_type.text()));
    let c = b + nested_line("source_path"@, p.source_path);
    let ext: Seq<char> = match p.source_external_id {
        Some(id) => nested_line("source_external_id"@, id),
        None => seq![],
    };
    let d = c + ext;
    assert(dashless_lines(a));
    lemma_one_line_hangs(p.source_type.text());
    lemma_plain_line("source_type"@, p.source_type.text());
    lemma_string_line("source_path"@, p.source_path);
    if let Some(id) = p.source_external_id {
        lemma_string_line("source_external_id"@, id);
    }
    lemma_one_line_hangs(p.extracted_at);
    lemma_plain_line("extracted_at"@, p.extracted_at);
    lemma_join(a, "  "@ + plain_line("source_type"@, p.source_type.text()));
    lemma_join(b, nested_line("source_path"@, p.source_path));
    lemma_join(c, ext);
    lemma_join(d, "  "@ + plain_line("extracted_at"@, p.extracted_at));
}

proof fn lemma_core(fm: LessonModel)
    requires
        plain_fields_are_one_line(fm),
    ensures
        dashless_lines(core_text(fm)),
{
    reveal_strlit("id");
    reveal_strlit("description");
    reveal_strlit("status");
    reveal_strlit("created_at");
    reveal_strlit("pending");
    reveal_strlit("active");
    reveal_strlit("promoted");
    reveal_strlit("discarded");
    reveal_strlit("superseded");
    let a = plain_line("id"@, fm.id);
    let b = a + string_line("description"@, fm.description);
    let c = b + plain_line("status"@, fm.status.text());
    lemma_one_line_hangs(fm.id);
    lemma_plain_line("id"@, fm.id);
    lemma_string_line("description"@, fm.description);
    lemma_one_line_hangs(fm.status.text());
    lemma_plain_line("status"@, fm.status.text());
    lemma_one_line_hangs(fm.created_at);
    lemma_plain_line("created_at"@, fm.created_at);
    lemma_join(a, string_line("description"@, fm.description));
    lemma_join(b, plain_line("status"@, fm.status.text()));
    lemma_join(c, plain_line("created_at"@, fm.created_at));
}

proof fn lemma_origin(fm: LessonModel)
    requires
        plain_fields_are_one_line(fm),
    ensures
        dashless_lines(origin_text(fm)),
{
    reveal_strlit("target_skill");
    reveal_strlit("source_feedback_ids");
    let a: Seq<char> = match fm.causal_narrative {
        Some(n) => narrative_section(n),
        None => seq![],
    };
    let b = a + opt_string_line("target_skill"@, fm.target_skill);
    let ids: Seq<char> = match fm.source_feedback_ids {
        Some(ids) => number_list("source_feedback_ids"@, ids),
        None => seq![],
    };
    if let Some(n) = fm.causal_narrative {
        lemma_narrative(n);
    }
    lemma_opt_string_line("target_skill"@, fm.target_skill);
    if let Some(v) = fm.source_feedback_ids {
        lemma_number_list("source_feedback_ids"@, v);
    }
    lemma_join(a, opt_string_line("target_skill"@, fm.target_skill));
    lemma_join(b, ids);
}

proof fn lemma_counters(fm: LessonModel)
    requires
        plain_fields_are_one_line(fm),
    ensures
        dashless_lines(counters_text(fm)),
{
    reveal_strlit("applied_count");
    reveal_strlit("last_applied_at");
    reveal_strlit("thumbs_up_count");
    reveal_strlit("thumbs_down_count");
    reveal_strlit("external_signal_sources");
    reveal_strlit("applied_session_ids");
    let a = plain_line("applied_count"@, decimal(fm.applied_count as nat));
    let b = a + opt_plain_line("last_applied_at"@, fm.last_applied_at);
    let c = b + plain_line("thumbs_up_count"@, decimal(fm.thumbs_up_count as nat));
    let d = c + plain_line("thumbs_down_count"@, decimal(fm.thumbs_down_count as nat));
    let e = d + string_list("external_signal_sources"@, fm.external_signal_sources);
    lemma_decimal_is_one_line(fm.applied_count as nat);
    lemma_decimal_is_one_line(fm.thumbs_up_count as nat);
    lemma_decimal_is_one_line(fm.thumbs_down_count as nat);
    lemma_plain_line("applied_count"@, decimal(fm.applied_count as nat));
    lemma_opt_plain_line("last_applied_at"@, fm.last_applied_at);
    lemma_plain_line("thumbs_up_count"@, decimal(fm.thumbs_up_count as nat));
    lemma_plain_line("thumbs_down_count"@, decimal(fm.thumbs_down_count as nat));
    lemma_string_list("external_signal_sources"@, fm.external_signal_sources);
    lemma_string_list("applied_session_ids"@, fm.applied_session_ids);
    lemma_join(a, opt_plain_line("last_applied_at"@, fm.last_applied_at));
    lemma_join(b, plain_line("thumbs_up_count"@, decimal(fm.thumbs_up_count as nat)));
    lemma_join(c, plain_line("thumbs_down_count"@, decimal(fm.thumbs_down_count as nat)));
    lemma_join(d, string_list("external_signal_sources"@, fm.external_signal_sources));
    lemma_join(e, string_list("applied_session_ids"@, fm.applied_session_ids));
    assert(e + Seq::<char>::empty() =~= e);
}

proof fn lemma_tail(fm: LessonModel)
    requires
        plain_fields_are_one_line(fm),
    ensures
        dashless_lines(tail_text(fm)),
{
    reveal_strlit("promotion_eligible_at");
    reveal_strlit("superseded_by");
    reveal_strlit("superseded_at");
    reveal_strlit("authored_by");
    reveal_strlit("pack_id");
    reveal_strlit("external_id");
    reveal_strlit("updated_at");
    reveal_strlit("user");
    reveal_strlit("llm");
    reveal_strlit("auto_memory");
    reveal_strlit("ecc_instinct");
    reveal_strlit("pack");
    reveal_strlit("unknown");
    let a = opt_plain_line("promotion_eligible_at"@, fm.promotion_eligible_at);
    let b = a + opt_string_line("superseded_by"@, fm.superseded_by);
    let c = b + opt_plain_line("superseded_at"@, fm.superseded_at);
    let p: Seq<char> = match fm.ingest_provenance {
        Some(p) => provenance_section(p),
        None => seq![],
    };
    let d = c + p;
    let e = d + plain_line("authored_by"@, fm.authored_by.text());
    let f = e + opt_string_line("pack_id"@, fm.pack_id);
    let g = f + opt_string_line("external_id"@, fm.external_id);
    lemma_opt_plain_line("promotion_eligible_at"@, fm.promotion_eligible_at);
    lemma_opt_string_line("superseded_by"@, fm.superseded_by);
    lemma_opt_plain_line("superseded_at"@, fm.superseded_at);
    if let Some(v) = fm.ingest_provenance {
        lemma_provenance(v);
    }
    lemma_one_line_hangs(fm.authored_by.text());
    lemma_plain_line("authored_by"@, fm.authored_by.text());
    lemma_opt_string_line("pack_id"@, fm.pack_id);
    lemma_opt_string_line("external_id"@, fm.external_id);
    lemma_opt_plain_line("updated_at"@, fm.updated_at);
    lemma_join(a, opt_string_line("superseded_by"@, fm.superseded_by));
    lemma_join(b, opt_plain_line("superseded_at"@, fm.superseded_at));
    lemma_join(c, p);
    lemma_join(d, plain_line("authored_by"@, fm.authored_by.text()));
    lemma_join(e, opt_string_line("pack_id"@, fm.pack_id));
    lemma_join(f, opt_string_line("external_id"@, fm.external_id));
    lemma_join(g, opt_plain_line("updated_at"@, fm.updated_at));
}

/// The writer emits complete lines, and none begins with a dash.
pub proof fn law_written_yaml_has_no_dash_line(fm: LessonModel)
    requires
        plain_fields_are_one_line(fm),
    ensures
        dashless_lines(lesson_yaml(fm)),
{
    lemma_core(fm);
    lemma_origin(fm);
    lemma_counters(fm);
    lemma_tail(fm);
    lemma_join(core_text(fm), origin_text(fm));
    lemma_join(core_text(fm) + origin_text(fm), counters_text(fm));
    lemma_join(core_text(fm) + origin_text(fm) + counters_text(fm), tail_text(fm));
}

proof fn lemma_without_trailing_is_prefix(s: Seq<char>, c: char)
    ensures
        without_trailing(s, c).len() <= s.len(),
        without_trailing(s, c) == s.take(without_trailing(s, c).len() as int),
    decreases s.len(),
{
    if s.len() > 0 && s.last() == c {
        lemma_without_trailing_is_prefix(s.drop_last(), c);
        let n = without_trailing(s, c).len() as int;
        assert(s.drop_last().take(n) =~= s.take(n));
    } else {
        assert(s.take(s.len() as int) =~= s);
    }
}

/// A lesson file that was written splits into the YAML that was written and its body, whatever
/// the descriptions, narratives, quotes and bodies in it hold.
pub proof fn law_written_lesson_splits_back(fm: LessonModel, body: Seq<char>)
    requires
        plain_fields_are_one_line(fm),
    ensures
        split_of(combined(lesson_yaml(fm), body)) == Ok::<
            (Seq<char>, Seq<char>),
            FrontmatterError,
        >((without_trailing(lesson_yaml(fm), '\n'), seq!['\n'] + body + final_newline(body))),
{
    let yaml = lesson_yaml(fm);
    let kept = without_trailing(yaml, '\n');
    law_written_yaml_has_no_dash_line(fm);
    lemma_without_trailing_is_prefix(yaml, '\n');
    assert forall|i: int| !#[trigger] closes_at(kept.push('\n'), i) by {
        if closes_at(kept.push('\n'), i) {
            let s = kept.push('\n');
            let d = s.subrange(i, i + 3);
            assert(d[0] == s[i] && d[0] == '-');
            assert(yaml[i] == kept[i]);
            assert(s[i] == kept[i]);
            if i > 0 {
                assert(s[i - 1] == kept[i - 1] && kept[i - 1] == yaml[i - 1]);
            }
        }
    }
    law_split_after_combine(yaml, body);
}

/// A record file opens again to the YAML and the body that went into it, as long as the YAML holds
/// no closing delimiter of its own and neither holds a carriage return.
pub proof fn law_record_file_opens_again(yaml: Seq<char>, body: Seq<char>)
    requires
        forall|i: int|
            !#[trigger] closes_at(without_trailing(trimmed(yaml), '\n').push('\n'), i),
        forall|i: int| 0 <= i < trimmed(yaml).len() ==> #[trigger] trimmed(yaml)[i] != '\r',
        forall|i: int| 0 <= i < body.len() ==> #[trigger] body[i] != '\r',
    ensures
        ({
            let bytes = encode_utf8(combined(trimmed(yaml), body));
            &&& valid_utf8(bytes)
            &&& opened(bytes) == Ok::<(Seq<char>, Seq<char>), FrontmatterError>(
                (
                    without_trailing(trimmed(yaml), '\n'),
                    seq!['\n'] + body + final_newline(body),
                ),
            )
        }),
{
    let y = trimmed(yaml);
    let file = combined(y, body);
    encode_utf8_valid_utf8(file);
    encode_utf8_decode_utf8(file);
    law_split_after_combine(y, body);
    let kept = without_trailing(y, '\n');
    let tail = seq!['\n'] + body + final_newline(body);
    lemma_without_trailing_is_prefix(y, '\n');
    assert forall|i: int| 0 <= i < kept.len() implies #[trigger] kept[i] != '\r' by {
        assert(kept[i] == y[i]);
    }
    assert forall|i: int| 0 <= i < tail.len() implies #[trigger] tail[i] != '\r' by {
        if 0 < i <= body.len() {
            assert(tail[i] == body[i - 1]);
        }
    }
    law_lf_text_is_kept(kept);
    law_lf_text_is_kept(tail);
}

/// Whether a text is a record file of these two parts: the first between lines of three dashes, the
/// second behind them, and carriage returns nowhere.
pub open spec fn is_record_file(file: Seq<char>, yaml: Seq<char>, body: Seq<char>) -> bool {
    &&& file == seq!['-', '-', '-', '\n'] + (yaml + seq!['\n'] + seq!['-', '-', '-', '\n'] + body)
    &&& forall|i: int| !#[trigger] is_dash_line(yaml + seq!['\n'], i)
    &&& forall|i: int| 0 <= i < yaml.len() ==> #[trigger] yaml[i] != '\r'
    &&& forall|i: int| 0 <= i < body.len() ==> #[trigger] body[i] != '\r'
}

/// A record file opens into its two parts.
pub proof fn law_a_record_file_opens_into_its_parts(
    file: Seq<char>,
    yaml: Seq<char>,
    body: Seq<char>,
)
    requires
        is_record_file(file, yaml, body),
    ensures
        split_of(file) == Ok::<(Seq<char>, Seq<char>), FrontmatterError>((yaml, body)),
        without_char(crlf_to_lf(yaml), '\r') == yaml,
        crlf_to_lf(body) == body,
        valid_utf8(encode_utf8(file)),
        opened(encode_utf8(file)) == Ok::<(Seq<char>, Seq<char>), FrontmatterError>((yaml, body)),
{
    lemma_record_file_splits(file, yaml, body);
    law_lf_text_is_kept(yaml);
    law_lf_text_is_kept(body);
    lemma_encoded_text_decodes(file);
}

proof fn lemma_record_file_splits(file: Seq<char>, yaml: Seq<char>, body: Seq<char>)
    requires
        is_record_file(file, yaml, body),
    ensures
        split_of(file) == Ok::<(Seq<char>, Seq<char>), FrontmatterError>((yaml, body)),
{
    let line = seq!['-', '-', '-', '\n'];
    law_a_file_is_split_at_its_dash_lines(line, yaml, line, body);
}

proof fn lemma_encoded_text_decodes(file: Seq<char>)
    ensures
        valid_utf8(encode_utf8(file)),
        decode_utf8(encode_utf8(file)) == file,
{
    encode_utf8_valid_utf8(file);
    encode_utf8_decode_utf8(file);
}

/// A record file with line breaks of two characters opens into the same parts as one with line
/// breaks of one, as far as the lines of its body go.
pub proof fn law_bodies_are_read_with_plain_line_breaks(
    bytes: Seq<u8>,
    before: Seq<char>,
    after: Seq<char>,
)
    requires
        opened(bytes) is Ok,
        split_of(decode_utf8(bytes))->Ok_0.1 == before + seq!['\r', '\n'] + after,
    ensures
        opened(bytes)->Ok_0.1 == crlf_to_lf(before) + seq!['\n'] + crlf_to_lf(after),
{
    law_line_breaks_become_one_character(before, after, '\n');
}

} // verus!
