//! Teams and their files.

use loop_engine::engine::context::Context;
use loop_engine::engine::error::EngineError;
use loop_engine::engine::storage::key::StorageKey;
use loop_engine::engine::storage::memory::MemoryStorage;
use loop_engine::engine::storage::update::{UpdateLoop, UpdateStep};
use loop_engine::engine::teams::model::{Team, TeamFrontmatter, TeamMember, TeamStatus};
use loop_engine::engine::teams::store::{
    archive, archived, delete, insert, is_team_file, list, locate, not_found, open_team_file,
    TEAM_CAS_MAX_RETRIES,
};
use loop_engine::engine::yaml::schema::Authorship;

fn ctx() -> Context {
    Context::single_user_local()
}

fn frontmatter(id: &str, name: &str, description: &str) -> TeamFrontmatter {
    TeamFrontmatter::new(id.to_string(), name.to_string(), description.to_string())
}

#[test]
fn team_member_id_and_kind() {
    let m = TeamMember::Persona("pers-aaaa".to_string());
    assert_eq!(m.id(), "pers-aaaa");
    assert_eq!(m.kind(), "persona");
    assert_eq!(TeamMember::Skill("s".into()).kind(), "skill");
    assert_eq!(TeamMember::User("u".into()).kind(), "user");
}

#[test]
fn bare_slugs_are_users() {
    let m = TeamMember::from_slug("user-1".to_string());
    assert!(matches!(m, TeamMember::User(_)));
    assert_eq!(m.id(), "user-1");
}

#[test]
fn insert_and_get_with_members() {
    let mut storage = MemoryStorage::default();
    let mut fm = frontmatter("tm-engng", "Eng Team", "engineers");
    fm.members = vec![
        TeamMember::Persona("pers-a".into()),
        TeamMember::Skill("skl-b".into()),
    ];
    let planned = insert(
        &ctx(),
        "tm-engng",
        fm,
        "charter body".to_string(),
        false,
        Ok("id: tm-engng".to_string()),
    )
    .unwrap();
    assert!(storage.put_if_version(&planned.key, planned.content.into_bytes(), None));
    let t = planned.team;
    assert_eq!(t.frontmatter.members.len(), 2);
    assert!(matches!(t.frontmatter.members[0], TeamMember::Persona(_)));
    let bytes = storage.get(&StorageKey::team(&ctx(), "tm-engng")).unwrap();
    let loaded = open_team_file(&bytes).unwrap();
    assert_eq!(loaded.yaml, "id: tm-engng");
    assert_eq!(loaded.body.trim(), "charter body");
}

#[test]
fn insert_refuses_a_team_that_exists() {
    let fm = frontmatter("tm-a", "n", "d");
    let r = insert(&ctx(), "tm-a", fm, String::new(), true, Ok("y".into()));
    assert!(matches!(r, Err(EngineError::Parse(_))));
    assert!(not_found("tm-a").message().contains("tm-a"));
}

#[test]
fn archive_blocks_user_authored() {
    let r = archive("tm-usr00", false, Some(Authorship::User));
    assert!(matches!(r, Err(EngineError::UserTeamImmune { .. })));
}

#[test]
fn archive_is_for_teams_that_exist() {
    assert!(archive("tm-none", false, None).is_err());
    archive("tm-usr00", true, Some(Authorship::User)).unwrap();
    let fm = archived(frontmatter("tm-usr00", "User Team", ""));
    assert_eq!(fm.status, TeamStatus::Archived);
    assert_eq!(fm.id, "tm-usr00");
}

#[test]
fn delete_goes_by_authorship() {
    assert!(matches!(
        delete("tm-a", false, Some(Authorship::User)),
        Err(EngineError::UserTeamImmune { .. })
    ));
    delete("tm-a", true, Some(Authorship::User)).unwrap();
    delete("tm-a", false, None).unwrap();
}

#[test]
fn list_returns_all_teams() {
    let mut storage = MemoryStorage::default();
    for id in ["tm-l001", "tm-l002", "tm-l003"] {
        let fm = frontmatter(id, "n", "d");
        let planned =
            insert(&ctx(), id, fm, "b".to_string(), false, Ok("y: 1".to_string())).unwrap();
        assert!(storage.put_if_version(&planned.key, planned.content.into_bytes(), None));
    }
    let keys = storage.list(&StorageKey::teams_prefix(&ctx()));
    let loaded = keys
        .iter()
        .filter(|k| is_team_file(k))
        .map(|_| Ok(Team::new(frontmatter("t", "n", "d"), "b".to_string())))
        .collect();
    assert_eq!(list(loaded).len(), 3);
}

#[test]
fn team_updates_give_up_after_their_retries() {
    assert!(locate(&ctx(), "../tm-a").is_none());
    let mut update = UpdateLoop::new(locate(&ctx(), "tm-a").unwrap(), TEAM_CAS_MAX_RETRIES);
    let mut tries = 0;
    while matches!(update.wrote(false), UpdateStep::Retry) {
        tries += 1;
    }
    assert_eq!(tries, TEAM_CAS_MAX_RETRIES - 1);
}
