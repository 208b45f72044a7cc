//! Splitting and combining lesson files.

use loop_engine::engine::yaml::frontmatter::{
    combine_frontmatter, split_frontmatter, split_frontmatter_normalized, FrontmatterError,
};

#[test]
fn splits_minimal_file() {
    let source = "---\nid: a\n---\n\nbody\n";
    let split = split_frontmatter(source).unwrap();
    assert_eq!(split.yaml, "id: a");
    assert_eq!(split.body, "\nbody\n");
}

#[test]
fn splits_multi_line_frontmatter() {
    let source = "---\nid: a\ndescription: b\n---\n\nbody\n";
    let split = split_frontmatter(source).unwrap();
    assert_eq!(split.yaml, "id: a\ndescription: b");
    assert_eq!(split.body, "\nbody\n");
}

#[test]
fn splits_handles_crlf_open() {
    let source = "---\r\nid: a\r\n---\r\n\r\nbody\r\n";
    let split = split_frontmatter(source).unwrap();
    assert_eq!(split.yaml, "id: a\r");
    assert!(split.body.contains("body"));
}

#[test]
fn split_normalized_strips_carriage_returns() {
    let source = "---\r\nid: a\r\ndescription: b\r\n---\r\n\r\nbody\r\n";
    let split = split_frontmatter_normalized(source).unwrap();
    assert_eq!(split.yaml, "id: a\ndescription: b");
    assert!(!split.yaml.contains('\r'));
    assert!(!split.body.contains('\r'));
}

#[test]
fn split_normalized_passes_through_lf_input() {
    let source = "---\nid: a\n---\n\nbody\n";
    let split = split_frontmatter_normalized(source).unwrap();
    assert_eq!(split.yaml, "id: a");
    assert_eq!(split.body, "\nbody\n");
}

#[test]
fn split_normalized_yaml_parses_cleanly() {
    let source = "---\r\nid: les-aaaaaaaa\r\ndescription: minimal\r\nstatus: active\r\ncreated_at: 2026-05-13T00:00:00.000Z\r\napplied_count: 0\r\nthumbs_up_count: 0\r\nthumbs_down_count: 0\r\nexternal_signal_sources: []\r\n---\r\n\r\nbody\r\n";
    let split = split_frontmatter_normalized(source).unwrap();
    let fm: serde_yml::Value = serde_yml::from_str(&split.yaml).unwrap();
    assert_eq!(fm.get("id").unwrap().as_str().unwrap(), "les-aaaaaaaa");
}

#[test]
fn refuses_file_without_opening_delimiter() {
    let source = "id: a\n---\nbody";
    assert!(split_frontmatter(source).is_err());
}

#[test]
fn refuses_file_without_closing_delimiter() {
    let source = "---\nid: a\nbody no end";
    assert!(split_frontmatter(source).is_err());
}

#[test]
fn body_dashes_in_content_do_not_close_frontmatter() {
    let source = "---\nid: a\n---\n\nbody\n\n---\nmore body\n";
    let split = split_frontmatter(source).unwrap();
    assert_eq!(split.yaml, "id: a");
    assert!(split.body.contains("more body"));
}

#[test]
fn combines_round_trip() {
    let yaml = "id: a\ndescription: b\n";
    let body = "## Heading\n\ncontent\n";
    let combined = combine_frontmatter(yaml, body);
    let split = split_frontmatter(&combined).unwrap();
    assert_eq!(split.yaml, "id: a\ndescription: b");
    assert_eq!(split.body, "\n## Heading\n\ncontent\n");
}

#[test]
fn combines_preserves_body_starting_with_newline() {
    let yaml = "id: a";
    let body = "\nleading-newline body\n";
    let combined = combine_frontmatter(yaml, body);
    let split = split_frontmatter(&combined).unwrap();
    assert_eq!(split.yaml, "id: a");
    assert_eq!(split.body, "\n\nleading-newline body\n");
}

#[test]
fn combines_adds_trailing_newline_if_missing() {
    let yaml = "id: a";
    let body = "body without newline";
    let combined = combine_frontmatter(yaml, body);
    assert!(combined.ends_with('\n'));
}

#[test]
fn combines_strips_trailing_newlines_from_yaml() {
    let yaml = "id: a\n\n\n";
    let body = "body\n";
    let combined = combine_frontmatter(yaml, body);
    assert!(combined.contains("id: a\n---\n\n"));
}

#[test]
fn split_errors_name_the_missing_delimiter() {
    assert_eq!(split_frontmatter("id: a\n"), Err(FrontmatterError::MissingOpening));
    assert_eq!(split_frontmatter("---\nid: a\n"), Err(FrontmatterError::MissingClosing));
    assert_eq!(
        FrontmatterError::MissingOpening.message(),
        "file does not start with a `---` frontmatter delimiter"
    );
    assert_eq!(
        FrontmatterError::MissingClosing.message(),
        "frontmatter has no closing `---` delimiter"
    );
}

#[test]
fn closing_delimiter_may_end_the_file() {
    let split = split_frontmatter("---\nid: a\n---").unwrap();
    assert_eq!(split.yaml, "id: a");
    assert_eq!(split.body, "");
}

#[test]
fn closing_delimiter_may_follow_the_opening_at_once() {
    let split = split_frontmatter("---\n---\nbody").unwrap();
    assert_eq!(split.yaml, "");
    assert_eq!(split.body, "body");
}

#[test]
fn longer_and_indented_dash_lines_do_not_close() {
    let split = split_frontmatter("---\na: 1\n----\n ---\n--- x\n---\nb").unwrap();
    assert_eq!(split.yaml, "a: 1\n----\n ---\n--- x");
    assert_eq!(split.body, "b");
}

#[test]
fn split_counts_characters_beyond_ascii() {
    let split = split_frontmatter("---\nid: \u{e9}\u{1f600}\n---\n\u{fc}ber\n").unwrap();
    assert_eq!(split.yaml, "id: \u{e9}\u{1f600}");
    assert_eq!(split.body, "\u{fc}ber\n");
}

#[test]
fn a_load_and_save_cycle_adds_one_newline() {
    let file = combine_frontmatter("id: a", "body\n");
    let once = split_frontmatter(&file).unwrap();
    let again = combine_frontmatter(once.yaml, once.body);
    let twice = split_frontmatter(&again).unwrap();
    assert_eq!(twice.yaml, once.yaml);
    assert_eq!(twice.body, format!("\n{}", once.body));
}

#[test]
fn normalized_body_keeps_a_lone_carriage_return() {
    let split = split_frontmatter_normalized("---\nid: \ra\n---\na\rb\r\r\nc").unwrap();
    assert_eq!(split.yaml, "id: a");
    assert_eq!(split.body, "a\rb\r\nc");
}
