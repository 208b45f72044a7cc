//! Skills and their files.

use loop_engine::engine::context::Context;
use loop_engine::engine::error::EngineError;
use loop_engine::engine::memory::MemoryId;
use loop_engine::engine::skills::hooks::{HookEvent, HookHandler, HookMatcherGroup};
use loop_engine::engine::skills::model::{
    ActivationMode, Skill, SkillFrontmatter, SkillStatus,
};
use loop_engine::engine::skills::skill_ref::SkillRef;
use loop_engine::engine::skills::store::{
    archive, archived, delete, insert, is_skill_file, is_valid_skill_name, list, locate, not_found,
    open_skill_file, SKILL_CAS_MAX_RETRIES,
};
use loop_engine::engine::storage::key::StorageKey;
use loop_engine::engine::storage::memory::MemoryStorage;
use loop_engine::engine::storage::update::{UpdateLoop, UpdateStep};
use loop_engine::engine::yaml::schema::{Authorship, EvidenceRef};

fn ctx() -> Context {
    Context::single_user_local()
}

fn frontmatter(name: &str, description: &str) -> SkillFrontmatter {
    SkillFrontmatter::new(name.to_string(), description.to_string())
}

fn user_frontmatter() -> SkillFrontmatter {
    let mut fm = frontmatter("formatter", "x");
    fm.authored_by = Authorship::User;
    fm
}

/// Puts a skill into the store as a host does.
fn store(storage: &mut MemoryStorage, id: &str, fm: SkillFrontmatter, body: &str) -> Skill {
    let exists = storage.get(&StorageKey::skill(&ctx(), id)).is_some();
    let yaml = format!("name: {}", fm.name);
    let planned = insert(&ctx(), id, fm, body.to_string(), exists, Ok(yaml)).unwrap();
    assert!(storage.put_if_version(&planned.key, planned.content.into_bytes(), None));
    planned.skill
}

/// Deletes a skill by `author` as a host does.
fn delete_stored(
    storage: &mut MemoryStorage,
    id: &str,
    force: bool,
    author: Authorship,
) -> Result<(), EngineError> {
    let key = locate(&ctx(), id).unwrap();
    let stored = storage.get(&key).map(|_| author);
    delete(id, force, stored)?;
    storage.delete(&key);
    Ok(())
}

#[test]
fn hook_matcher_group_default_is_empty() {
    let g = HookMatcherGroup::default();
    assert!(g.matcher.is_none());
    assert!(g.hooks.is_empty());
    let g = HookMatcherGroup::new();
    assert!(g.matcher.is_none() && g.hooks.is_empty());
}

#[test]
fn hook_events_keep_their_name() {
    assert_eq!(HookEvent::new("PreToolUse".to_string()).as_str(), "PreToolUse");
    let h = HookHandler::McpTool {
        server: "loop".into(),
        tool: "loop_capture_lesson".into(),
        timeout: None,
        once: false,
    };
    assert_eq!(h.clone(), h);
}

#[test]
fn skill_frontmatter_new_populates_defaults() {
    let s = frontmatter("formatter", "auto-format on save");
    assert_eq!(s.name, "formatter");
    assert_eq!(s.description, "auto-format on save");
    assert!(s.hooks.is_empty());
    assert_eq!(s.status, SkillStatus::Draft);
    assert_eq!(s.authored_by, Authorship::Llm);
    assert!(matches!(s.activation, ActivationMode::UserTriggered));
}

#[test]
fn skill_status_default_is_draft() {
    assert_eq!(SkillStatus::default(), SkillStatus::Draft);
}

#[test]
fn activation_mode_default_is_user_triggered() {
    assert!(matches!(
        ActivationMode::default(),
        ActivationMode::UserTriggered
    ));
}

#[test]
fn skill_refs_start_as_drafts() {
    let r = SkillRef::new(
        "skl-aaaa".to_string(),
        "fmt".to_string(),
        "auto-format on save".to_string(),
    );
    assert_eq!(r.id, "skl-aaaa");
    assert_eq!(r.name, "fmt");
    assert_eq!(r.description, "auto-format on save");
    assert_eq!(r.status, SkillStatus::Draft);
    assert!(matches!(r.activation, ActivationMode::UserTriggered));
}

#[test]
fn insert_then_get_round_trips() {
    let mut storage = MemoryStorage::default();
    let fm = frontmatter("formatter", "auto-format on save");
    let s = store(&mut storage, "skl-fmt00001", fm, "body content");
    assert_eq!(s.frontmatter.name, "formatter");
    let bytes = storage
        .get(&StorageKey::skill(&ctx(), "skl-fmt00001"))
        .unwrap();
    let loaded = open_skill_file(&bytes).unwrap();
    assert_eq!(loaded.yaml, "name: formatter");
    assert_eq!(loaded.body.trim(), "body content");
}

#[test]
fn insert_rejects_existing_id() {
    let fm = frontmatter("formatter", "x");
    let r = insert(
        &ctx(),
        "skl-dupe0001",
        fm,
        "body again".to_string(),
        true,
        Ok("name: formatter".to_string()),
    );
    assert!(matches!(r, Err(EngineError::Parse(_))));
}

#[test]
fn insert_hands_on_a_failed_serialisation() {
    let r = insert(
        &ctx(),
        "skl-a",
        frontmatter("formatter", "x"),
        String::new(),
        false,
        Err("no yaml".to_string()),
    );
    match r {
        Err(error) => assert!(error.message().contains("no yaml")),
        Ok(_) => panic!("nothing to write"),
    }
}

#[test]
fn insert_reports_what_a_user_skill_cites() {
    let mut fm = user_frontmatter();
    fm.evidence_refs = vec![
        EvidenceRef::Memory(MemoryId::new("mem-1".into())),
        EvidenceRef::Quote("said so".into()),
        EvidenceRef::Memory(MemoryId::new("mem-2".into())),
    ];
    let mut llm = fm.clone();
    llm.authored_by = Authorship::Llm;
    let planned = insert(&ctx(), "skl-c", fm, "b".into(), false, Ok("y".into())).unwrap();
    let ids: Vec<&str> = planned.citations.iter().map(MemoryId::as_str).collect();
    assert_eq!(ids, vec!["mem-1", "mem-2"]);
    let planned = insert(&ctx(), "skl-c", llm, "b".into(), false, Ok("y".into())).unwrap();
    assert!(planned.citations.is_empty());
}

#[test]
fn insert_notices_a_long_description() {
    let planned = |length: usize| {
        let fm = frontmatter("formatter", &"d".repeat(length));
        insert(&ctx(), "skl-d", fm, "b".into(), false, Ok("y".into())).unwrap()
    };
    assert!(!planned(1024).description_is_long);
    assert!(planned(1025).description_is_long);
    let odd = frontmatter("Not A Slug", "d");
    let r = insert(&ctx(), "skl-d", odd, "b".into(), false, Ok("y".into()));
    assert!(matches!(r, Err(EngineError::Parse(m)) if m == "invalid skill name: Not A Slug"));
}

#[test]
fn get_by_id_returns_none_for_missing() {
    let storage = MemoryStorage::default();
    assert!(storage
        .get(&StorageKey::skill(&ctx(), "skl-noexist1"))
        .is_none());
    assert!(not_found("skl-noexist1").message().contains("skl-noexist1"));
}

#[test]
fn list_returns_all_skills() {
    let mut storage = MemoryStorage::default();
    for id in ["skl-list0001", "skl-list0002", "skl-list0003"] {
        store(&mut storage, id, frontmatter("name", "desc"), "body");
    }
    let keys = storage.list(&StorageKey::skills_prefix(&ctx()));
    let loaded = keys
        .iter()
        .filter(|k| is_skill_file(k))
        .map(|_| Ok(Skill::new(frontmatter("name", "desc"), "body".to_string())))
        .collect();
    let skills = list(loaded);
    assert_eq!(skills.len(), 3);
}

#[test]
fn list_leaves_out_what_does_not_open() {
    let skill = Skill::new(frontmatter("name", "desc"), String::new());
    let skills = list(vec![Err(EngineError::Parse("bad".into())), Ok(skill)]);
    assert_eq!(skills.len(), 1);
}

#[test]
fn an_update_gives_up_after_its_retries() {
    let key = locate(&ctx(), "skl-upd00001").unwrap();
    let mut update = UpdateLoop::new(key.duplicate(), SKILL_CAS_MAX_RETRIES);
    assert_eq!(
        update.storage_key().as_str(),
        StorageKey::skill(&ctx(), "skl-upd00001").as_str()
    );
    let mut retries = 0;
    loop {
        match update.wrote(false) {
            UpdateStep::Retry => retries += 1,
            UpdateStep::GiveUp(error) => {
                match error {
                    EngineError::CasContended { retries, .. } => {
                        assert_eq!(retries, SKILL_CAS_MAX_RETRIES)
                    }
                    other => panic!("expected CasContended, got {}", other.message()),
                }
                break;
            }
            UpdateStep::Done => panic!("nothing was written"),
        }
    }
    assert_eq!(retries, SKILL_CAS_MAX_RETRIES - 1);
    let mut update = UpdateLoop::new(key, SKILL_CAS_MAX_RETRIES);
    assert!(matches!(update.wrote(true), UpdateStep::Done));
}

#[test]
fn archive_force_false_blocks_user_authored() {
    let skill = store(
        &mut MemoryStorage::default(),
        "skl-usr00001",
        user_frontmatter(),
        "body",
    );
    let r = archive("skl-usr00001", false, Some(skill.frontmatter.authored_by));
    match r {
        Err(EngineError::UserSkillImmune { id, .. }) => assert_eq!(id, "skl-usr00001"),
        _ => panic!("expected UserSkillImmune"),
    }
    assert_eq!(skill.frontmatter.status, SkillStatus::Draft);
}

#[test]
fn archive_force_true_bypasses_immunity() {
    archive("skl-frc00001", true, Some(Authorship::User)).unwrap();
    let fm = archived(user_frontmatter());
    assert_eq!(fm.status, SkillStatus::Archived);
    assert_eq!(fm.name, "formatter");
}

#[test]
fn archive_force_false_succeeds_on_llm_authored() {
    archive("skl-llm00001", false, Some(Authorship::Llm)).unwrap();
    let fm = archived(frontmatter("formatter", "x"));
    assert_eq!(fm.status, SkillStatus::Archived);
}

#[test]
fn delete_force_false_blocks_user_authored() {
    let mut storage = MemoryStorage::default();
    store(&mut storage, "skl-del00001", user_frontmatter(), "body");
    let r = delete_stored(&mut storage, "skl-del00001", false, Authorship::User);
    assert!(matches!(r, Err(EngineError::UserSkillImmune { .. })));
    let key = locate(&ctx(), "skl-del00001").unwrap();
    assert!(storage.get(&key).is_some());
}

#[test]
fn delete_force_false_removes_what_the_user_did_not_author() {
    let mut storage = MemoryStorage::default();
    store(&mut storage, "skl-del00002", frontmatter("formatter", "x"), "body");
    store(&mut storage, "skl-del00003", frontmatter("formatter", "x"), "body");
    delete_stored(&mut storage, "skl-del00002", false, Authorship::Llm).unwrap();
    assert!(storage.get(&locate(&ctx(), "skl-del00002").unwrap()).is_none());
    assert!(storage.get(&locate(&ctx(), "skl-del00003").unwrap()).is_some());
}

#[test]
fn delete_force_true_removes_skill() {
    let mut storage = MemoryStorage::default();
    store(&mut storage, "skl-rmf00001", user_frontmatter(), "body");
    let key = StorageKey::skill(&ctx(), "skl-rmf00001");
    delete_stored(&mut storage, "skl-rmf00001", true, Authorship::User).unwrap();
    assert!(storage.get(&key).is_none());
}

#[test]
fn store_delete_idempotent_for_absent_id() {
    delete("skl-noexist1", false, None).unwrap();
    delete("skl-noexist1", true, None).unwrap();
}

#[test]
fn ids_that_lead_elsewhere_name_no_skill() {
    for bad in ["", "../x", "a/../b", "/a", "a/", "a//b", "a\\b"] {
        assert!(locate(&ctx(), bad).is_none(), "{bad}");
        let fm = frontmatter("formatter", "x");
        match insert(&ctx(), bad, fm, String::new(), false, Ok("y".into())) {
            Err(EngineError::Parse(m)) => assert_eq!(m, format!("invalid skill id: {bad}")),
            _ => panic!("expected Parse"),
        }
    }
    let elsewhere = Context::builder().tenant_id("../acme").user_id("alice").build();
    assert!(locate(&elsewhere, "skl-a").is_none());
}

#[test]
fn skill_names_are_short_slugs() {
    assert!(is_valid_skill_name("formatter"));
    assert!(is_valid_skill_name("code-review-2"));
    for bad in ["Upper", "under_score", "two words"] {
        assert!(!is_valid_skill_name(bad), "{bad}");
    }
    assert!(is_valid_skill_name(&"a".repeat(64)));
    assert!(!is_valid_skill_name(&"a".repeat(65)));
}

#[test]
fn files_that_are_no_text_do_not_open() {
    assert!(open_skill_file(&[0xff, 0xff]).is_err());
    assert!(open_skill_file(b"no frontmatter").is_err());
}
