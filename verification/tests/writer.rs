//! The lesson writer, read back with a YAML reader.

use loop_engine::engine::memory::MemoryId;
use loop_engine::engine::yaml::frontmatter::{combine_frontmatter, split_frontmatter};
use loop_engine::engine::yaml::schema::{
    Authorship, CausalNarrative, Confidence, EvidenceRef, GeneratedBy, IngestProvenance,
    IngestSourceType, LessonFrontmatter, LessonStatus,
};
use loop_engine::engine::yaml::writer::serialize_lesson_frontmatter;
use serde_yml::Value;

fn text(v: &Value, key: &str) -> Option<String> {
    v.get(key).and_then(|x| x.as_str()).map(|s| s.to_string())
}

fn texts(v: &Value, key: &str) -> Vec<String> {
    match v.get(key).and_then(|x| x.as_sequence()) {
        Some(items) => items.iter().map(|x| x.as_str().unwrap().to_string()).collect(),
        None => vec![],
    }
}

fn parse_narrative(v: &Value) -> CausalNarrative {
    let mut evidence_refs = vec![];
    for item in v.get("evidence_refs").unwrap().as_sequence().unwrap() {
        let tag = if item.get("quote").is_some() { "quote" } else { "memory" };
        let value = text(item, tag).unwrap();
        evidence_refs.push(EvidenceRef::from_tagged(tag, value).unwrap());
    }
    let confidence = match text(v, "confidence").unwrap().as_str() {
        "observed" => Confidence::Observed,
        "inferred" => Confidence::Inferred,
        _ => Confidence::Speculative,
    };
    let generated_by = match text(v, "generated_by").unwrap().as_str() {
        "user" => GeneratedBy::User,
        _ => GeneratedBy::Llm,
    };
    CausalNarrative {
        trigger: text(v, "trigger").unwrap(),
        failure_mode: text(v, "failure_mode").unwrap(),
        correction: text(v, "correction").unwrap(),
        confidence,
        evidence_refs,
        generated_by,
        generated_at: text(v, "generated_at").unwrap(),
    }
}

fn parse_lesson_frontmatter(yaml: &str) -> Result<LessonFrontmatter, String> {
    let v: Value = serde_yml::from_str(yaml).map_err(|e| e.to_string())?;
    let status = LessonStatus::parse(&text(&v, "status").unwrap()).unwrap();
    let authored_by = match text(&v, "authored_by").unwrap().as_str() {
        "user" => Authorship::User,
        "llm" => Authorship::Llm,
        "pack" => Authorship::Pack,
        _ => Authorship::Unknown,
    };
    Ok(LessonFrontmatter {
        id: text(&v, "id").unwrap(),
        description: text(&v, "description").unwrap(),
        status,
        created_at: text(&v, "created_at").unwrap(),
        causal_narrative: v.get("causal_narrative").map(parse_narrative),
        target_skill: text(&v, "target_skill"),
        source_feedback_ids: v
            .get("source_feedback_ids")
            .map(|x| x.as_sequence().unwrap().iter().map(|n| n.as_i64().unwrap()).collect()),
        applied_count: v.get("applied_count").unwrap().as_u64().unwrap(),
        last_applied_at: text(&v, "last_applied_at"),
        thumbs_up_count: v.get("thumbs_up_count").unwrap().as_u64().unwrap(),
        thumbs_down_count: v.get("thumbs_down_count").unwrap().as_u64().unwrap(),
        external_signal_sources: texts(&v, "external_signal_sources"),
        applied_session_ids: texts(&v, "applied_session_ids"),
        promotion_eligible_at: text(&v, "promotion_eligible_at"),
        superseded_by: text(&v, "superseded_by"),
        superseded_at: text(&v, "superseded_at"),
        ingest_provenance: v.get("ingest_provenance").map(|p| IngestProvenance {
            source_type: match text(p, "source_type").unwrap().as_str() {
                "auto_memory" => IngestSourceType::AutoMemory,
                "auto_dream_signal" => IngestSourceType::AutoDreamSignal,
                "ecc_instinct" => IngestSourceType::EccInstinct,
                _ => IngestSourceType::LearningsMd,
            },
            source_path: text(p, "source_path").unwrap(),
            source_external_id: text(p, "source_external_id"),
            extracted_at: text(p, "extracted_at").unwrap(),
        }),
        authored_by,
        pack_id: text(&v, "pack_id"),
        external_id: text(&v, "external_id"),
        updated_at: text(&v, "updated_at"),
    })
}

fn minimum_fm() -> LessonFrontmatter {
    LessonFrontmatter {
        id: "les-aaaaaaaa".into(),
        description: "minimal".into(),
        status: LessonStatus::Active,
        created_at: "2026-05-13T00:00:00.000Z".into(),
        causal_narrative: None,
        target_skill: None,
        source_feedback_ids: None,
        applied_count: 0,
        last_applied_at: None,
        thumbs_up_count: 0,
        thumbs_down_count: 0,
        external_signal_sources: vec![],
        applied_session_ids: vec![],
        promotion_eligible_at: None,
        superseded_by: None,
        superseded_at: None,
        ingest_provenance: None,
        authored_by: Default::default(),
        pack_id: None,
        external_id: None,
        updated_at: None,
    }
}

#[test]
fn round_trips_minimum_lesson() {
    let fm = minimum_fm();
    let yaml = serialize_lesson_frontmatter(&fm);
    let parsed = parse_lesson_frontmatter(&yaml).unwrap();
    assert_eq!(parsed, fm);
}

#[test]
fn emits_fields_in_ts_load_path_order() {
    let mut fm = minimum_fm();
    fm.causal_narrative = Some(CausalNarrative {
        trigger: "t".into(),
        failure_mode: "f".into(),
        correction: "c".into(),
        confidence: Confidence::Inferred,
        evidence_refs: vec![],
        generated_by: GeneratedBy::Llm,
        generated_at: "2026-05-13T00:00:00.000Z".into(),
    });
    fm.target_skill = Some("skill-x".into());
    fm.source_feedback_ids = Some(vec![1]);
    fm.last_applied_at = Some("2026-05-13T01:00:00.000Z".into());
    fm.external_signal_sources = vec!["user_thumbs_up".into()];
    fm.promotion_eligible_at = Some("2026-05-14T00:00:00.000Z".into());
    fm.superseded_by = Some("les-bbbbbbbb".into());
    fm.superseded_at = Some("2026-05-14T01:00:00.000Z".into());
    fm.ingest_provenance = Some(IngestProvenance {
        source_type: IngestSourceType::AutoMemory,
        source_path: "/p".into(),
        source_external_id: None,
        extracted_at: "2026-05-13T00:00:00.000Z".into(),
    });
    fm.updated_at = Some("2026-05-14T02:00:00.000Z".into());

    let yaml = serialize_lesson_frontmatter(&fm);
    let top_level_keys: Vec<&str> = yaml
        .lines()
        .filter_map(|line| {
            if line.starts_with(' ') || line.starts_with('-') {
                return None;
            }
            line.split_once(':').map(|(k, _)| k)
        })
        .collect();

    let expected = vec![
        "id",
        "description",
        "status",
        "created_at",
        "causal_narrative",
        "target_skill",
        "source_feedback_ids",
        "applied_count",
        "last_applied_at",
        "thumbs_up_count",
        "thumbs_down_count",
        "external_signal_sources",
        "promotion_eligible_at",
        "superseded_by",
        "superseded_at",
        "ingest_provenance",
        "authored_by",
        "updated_at",
    ];
    assert_eq!(top_level_keys, expected);
}

#[test]
fn quoted_when_value_contains_colon_space() {
    let mut fm = minimum_fm();
    fm.description = "Always apply X: do not Y".into();
    let yaml = serialize_lesson_frontmatter(&fm);
    assert!(yaml.contains("description: \"Always apply X: do not Y\"\n"));
}

#[test]
fn quoted_when_value_starts_with_dash() {
    let mut fm = minimum_fm();
    fm.description = "-foo".into();
    let yaml = serialize_lesson_frontmatter(&fm);
    assert!(yaml.contains("description: \"-foo\"\n"));
}

#[test]
fn plain_when_value_simple() {
    let mut fm = minimum_fm();
    fm.description = "simple_description_no_specials".into();
    let yaml = serialize_lesson_frontmatter(&fm);
    assert!(yaml.contains("description: simple_description_no_specials\n"));
}

#[test]
fn quoted_when_value_parses_as_number() {
    let mut fm = minimum_fm();
    fm.description = "42".into();
    let yaml = serialize_lesson_frontmatter(&fm);
    assert!(yaml.contains("description: \"42\"\n"));
}

#[test]
fn quoted_for_yaml_extra_numerics() {
    for v in [".inf", ".nan", "0x10", "0o7", "+42"] {
        let mut fm = minimum_fm();
        fm.description = v.into();
        let yaml = serialize_lesson_frontmatter(&fm);
        assert!(
            yaml.contains(&format!("description: \"{v}\"\n")),
            "expected {v} to be quoted in: {yaml}"
        );
    }
}

#[test]
fn quoted_when_value_is_yaml_keyword() {
    let mut fm = minimum_fm();
    fm.description = "true".into();
    let yaml = serialize_lesson_frontmatter(&fm);
    assert!(yaml.contains("description: \"true\"\n"));
}

#[test]
fn plain_for_yaml_1_1_obsoleted_keywords() {
    for v in ["yes", "no", "on", "off"] {
        let mut fm = minimum_fm();
        fm.description = v.into();
        let yaml = serialize_lesson_frontmatter(&fm);
        assert!(
            yaml.contains(&format!("description: {v}\n")),
            "expected {v} plain in: {yaml}"
        );
    }
}

#[test]
fn plain_for_embedded_quotes() {
    let mut fm = minimum_fm();
    fm.description = "she said \"hi\"".into();
    let yaml = serialize_lesson_frontmatter(&fm);
    assert!(yaml.contains("description: she said \"hi\"\n"));
}

#[test]
fn multiline_string_uses_literal_block() {
    let mut fm = minimum_fm();
    fm.description = "line one\nline two".into();
    let yaml = serialize_lesson_frontmatter(&fm);
    assert!(yaml.contains("description: |-\n  line one\n  line two\n"));
}

#[test]
fn multiline_with_trailing_newline_uses_pipe_block() {
    let mut fm = minimum_fm();
    fm.description = "line one\nline two\n".into();
    let yaml = serialize_lesson_frontmatter(&fm);
    assert!(yaml.contains("description: |\n  line one\n  line two\n"));
}

#[test]
fn empty_array_inline() {
    let fm = minimum_fm();
    let yaml = serialize_lesson_frontmatter(&fm);
    assert!(yaml.contains("external_signal_sources: []\n"));
}

#[test]
fn nonempty_array_block_style() {
    let mut fm = minimum_fm();
    fm.external_signal_sources = vec!["user_thumbs_up".into(), "sentiment_positive".into()];
    let yaml = serialize_lesson_frontmatter(&fm);
    assert!(
        yaml.contains("external_signal_sources:\n  - user_thumbs_up\n  - sentiment_positive\n")
    );
}

#[test]
fn nested_causal_narrative_2_space_indent() {
    let mut fm = minimum_fm();
    fm.causal_narrative = Some(CausalNarrative {
        trigger: "unattested".into(),
        failure_mode: "unattested".into(),
        correction: "do X".into(),
        confidence: Confidence::Speculative,
        evidence_refs: vec![],
        generated_by: GeneratedBy::User,
        generated_at: "2026-05-13T00:00:00.000Z".into(),
    });
    let yaml = serialize_lesson_frontmatter(&fm);
    assert!(yaml.contains("causal_narrative:\n"));
    assert!(yaml.contains("  trigger: unattested\n"));
    assert!(yaml.contains("  confidence: speculative\n"));
    assert!(yaml.contains("  evidence_refs: []\n"));
    assert!(yaml.contains("  generated_by: user\n"));
}

#[test]
fn round_trips_with_narrative() {
    let mut fm = minimum_fm();
    fm.causal_narrative = Some(CausalNarrative {
        trigger: "commit attempt without typecheck".into(),
        failure_mode: "CI red".into(),
        correction: "run typecheck before commit".into(),
        confidence: Confidence::Inferred,
        evidence_refs: vec![EvidenceRef::Quote("\"some evidence quote\"".into())],
        generated_by: GeneratedBy::Llm,
        generated_at: "2026-05-13T00:00:00.000Z".into(),
    });
    let yaml = serialize_lesson_frontmatter(&fm);
    let parsed = parse_lesson_frontmatter(&yaml).unwrap();
    assert_eq!(parsed, fm);
}

#[test]
fn round_trips_with_ingest_provenance() {
    let mut fm = minimum_fm();
    fm.ingest_provenance = Some(IngestProvenance {
        source_type: IngestSourceType::AutoMemory,
        source_path: "/path/to/memory.md".into(),
        source_external_id: Some("ext-1".into()),
        extracted_at: "2026-05-13T10:00:00.000Z".into(),
    });
    let yaml = serialize_lesson_frontmatter(&fm);
    let parsed = parse_lesson_frontmatter(&yaml).unwrap();
    assert_eq!(parsed, fm);
}

#[test]
fn round_trips_with_all_optional_fields_set() {
    let mut fm = minimum_fm();
    fm.last_applied_at = Some("2026-05-13T11:00:00.000Z".into());
    fm.promotion_eligible_at = Some("2026-05-14T00:00:00.000Z".into());
    fm.target_skill = Some("testing-discipline".into());
    fm.source_feedback_ids = Some(vec![1, 2, 3]);
    fm.superseded_by = Some("les-bbbbbbbb".into());
    fm.superseded_at = Some("2026-05-14T01:00:00.000Z".into());
    fm.updated_at = Some("2026-05-14T02:00:00.000Z".into());
    fm.applied_count = 5;
    fm.thumbs_up_count = 1;
    fm.external_signal_sources = vec!["user_thumbs_up".into()];

    let yaml = serialize_lesson_frontmatter(&fm);
    let parsed = parse_lesson_frontmatter(&yaml).unwrap();
    assert_eq!(parsed, fm);
}

#[test]
fn full_lesson_byte_output() {
    let fm = LessonFrontmatter {
        id: "les-aaaaaaaa".into(),
        description: "Always run typecheck before committing".into(),
        status: LessonStatus::Active,
        created_at: "2026-05-13T00:00:00.000Z".into(),
        causal_narrative: Some(CausalNarrative {
            trigger: "commit attempt without typecheck".into(),
            failure_mode: "CI red on next push".into(),
            correction: "run npm run typecheck before commit".into(),
            confidence: Confidence::Inferred,
            evidence_refs: vec![EvidenceRef::Quote("\"CI broke again\"".into())],
            generated_by: GeneratedBy::Llm,
            generated_at: "2026-05-13T00:00:00.000Z".into(),
        }),
        target_skill: Some("testing-discipline".into()),
        source_feedback_ids: Some(vec![1, 2]),
        applied_count: 3,
        last_applied_at: Some("2026-05-13T01:00:00.000Z".into()),
        thumbs_up_count: 1,
        thumbs_down_count: 0,
        external_signal_sources: vec!["user_thumbs_up".into(), "sentiment_positive".into()],
        applied_session_ids: vec![],
        promotion_eligible_at: Some("2026-05-14T00:00:00.000Z".into()),
        superseded_by: None,
        superseded_at: None,
        ingest_provenance: Some(IngestProvenance {
            source_type: IngestSourceType::AutoMemory,
            source_path: "/Users/x/.host/projects/-Users-x-loop/memory/feedback_typecheck.md"
                .into(),
            source_external_id: Some("feedback-typecheck".into()),
            extracted_at: "2026-05-13T00:00:00.000Z".into(),
        }),
        authored_by: Default::default(),
        pack_id: None,
        external_id: None,
        updated_at: Some("2026-05-13T01:30:00.000Z".into()),
    };
    let expected = "\
id: les-aaaaaaaa
description: Always run typecheck before committing
status: active
created_at: 2026-05-13T00:00:00.000Z
causal_narrative:
  trigger: commit attempt without typecheck
  failure_mode: CI red on next push
  correction: run npm run typecheck before commit
  confidence: inferred
  evidence_refs:
    - quote: \"\\\"CI broke again\\\"\"
  generated_by: llm
  generated_at: 2026-05-13T00:00:00.000Z
target_skill: testing-discipline
source_feedback_ids:
  - 1
  - 2
applied_count: 3
last_applied_at: 2026-05-13T01:00:00.000Z
thumbs_up_count: 1
thumbs_down_count: 0
external_signal_sources:
  - user_thumbs_up
  - sentiment_positive
promotion_eligible_at: 2026-05-14T00:00:00.000Z
ingest_provenance:
  source_type: auto_memory
  source_path: /Users/x/.host/projects/-Users-x-loop/memory/feedback_typecheck.md
  source_external_id: feedback-typecheck
  extracted_at: 2026-05-13T00:00:00.000Z
authored_by: llm
updated_at: 2026-05-13T01:30:00.000Z
";
    assert_eq!(serialize_lesson_frontmatter(&fm), expected);
}

#[test]
fn memory_references_sessions_and_pack_are_written() {
    let mut fm = minimum_fm();
    fm.causal_narrative = Some(CausalNarrative {
        trigger: "t".into(),
        failure_mode: "f".into(),
        correction: "c".into(),
        confidence: Confidence::Observed,
        evidence_refs: vec![
            EvidenceRef::Memory(MemoryId::new("mem-1".into())),
            EvidenceRef::Quote("two\nlines".into()),
        ],
        generated_by: GeneratedBy::User,
        generated_at: "2026-05-13T00:00:00.000Z".into(),
    });
    fm.source_feedback_ids = Some(vec![-9223372036854775808, 0, 9223372036854775807]);
    fm.applied_count = 18446744073709551615;
    fm.applied_session_ids = vec!["s: 1".into()];
    fm.authored_by = Authorship::Pack;
    fm.pack_id = Some("codex".into());
    fm.external_id = Some("42".into());
    let yaml = serialize_lesson_frontmatter(&fm);
    assert!(yaml.contains("    - memory: mem-1\n    - quote: |-\n        two\n        lines\n"));
    assert!(yaml.contains("  - -9223372036854775808\n  - 0\n  - 9223372036854775807\n"));
    assert!(yaml.contains("applied_count: 18446744073709551615\n"));
    assert!(yaml.contains("applied_session_ids:\n  - \"s: 1\"\n"));
    assert!(yaml.contains("authored_by: pack\npack_id: codex\nexternal_id: \"42\"\n"));
    assert_eq!(parse_lesson_frontmatter(&yaml).unwrap(), fm);
}

#[test]
fn written_lesson_splits_back_whatever_the_description_holds() {
    for description in ["---", "a\n---\nb", "---\n", "- x\n---"] {
        let mut fm = minimum_fm();
        fm.description = description.into();
        let yaml = serialize_lesson_frontmatter(&fm);
        let file = combine_frontmatter(&yaml, "body\n");
        let split = split_frontmatter(&file).unwrap();
        assert_eq!(split.yaml, yaml.trim_end_matches('\n'));
        assert_eq!(split.body, "\nbody\n");
    }
}
