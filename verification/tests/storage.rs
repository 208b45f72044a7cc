//! Keys, versions and the in-memory store.

use loop_engine::engine::context::Context;
use loop_engine::engine::storage::error::StorageError;
use loop_engine::engine::storage::filesystem::{
    path_to_key_string, temp_extension, LocalFsStorage,
};
use loop_engine::engine::storage::key::StorageKey;
use loop_engine::engine::storage::lock::sidecar_lock_path;
use loop_engine::engine::storage::memory::MemoryStorage;
use loop_engine::engine::storage::version::Version;

fn key(id: &str) -> StorageKey {
    StorageKey::lesson(&Context::single_user_local(), "active", id)
}

#[test]
fn single_user_lesson_key_matches_disk_layout() {
    let ctx = Context::single_user_local();
    let key = StorageKey::lesson(&ctx, "active", "les-abc123");
    assert_eq!(key.as_str(), "lessons/active/les-abc123.md");
}

#[test]
fn multi_tenant_lesson_key_prefixes_correctly() {
    let ctx = Context::builder()
        .tenant_id("acme")
        .user_id("alice")
        .session_id("s1")
        .build();
    let key = StorageKey::lesson(&ctx, "active", "les-abc123");
    assert_eq!(
        key.as_str(),
        "tenants/acme/users/alice/lessons/active/les-abc123.md"
    );
}

#[test]
fn pid_file_key_single_user() {
    let ctx = Context::single_user_local();
    assert_eq!(StorageKey::pid_file(&ctx).as_str(), "daemon.pid");
}

#[test]
fn keys_that_leave_the_store_are_not_canonical() {
    for bad in [
        "/absolute",
        "lessons/../etc/passwd",
        "lessons\\active\\foo",
    ] {
        assert!(!StorageKey::is_canonical(bad), "{bad}");
    }
    assert!(StorageKey::is_canonical("lessons/active/les-a.md"));
    let raw = StorageKey::from_raw("a/b".to_string());
    assert_eq!(raw.as_str(), "a/b");
}

#[test]
fn every_kind_of_record_has_its_place() {
    let ctx = Context::single_user_local();
    let placed = [
        (StorageKey::config(&ctx), "config.yaml"),
        (StorageKey::memory(&ctx, "mem-a"), "memories/mem-a.md"),
        (StorageKey::memories_prefix(&ctx), "memories"),
        (StorageKey::skill(&ctx, "skl-a"), "skills/skl-a/SKILL.md"),
        (StorageKey::skills_prefix(&ctx), "skills"),
        (StorageKey::teams_prefix(&ctx), "teams"),
        (StorageKey::personas_prefix(&ctx), "personas"),
        (
            StorageKey::lesson_status_prefix(&ctx, "draft"),
            "lessons/draft",
        ),
    ];
    for (key, expected) in placed {
        assert_eq!(key.as_str(), expected);
        assert!(StorageKey::is_canonical(key.as_str()));
    }
    let signal = StorageKey::sentiment_signal(&ctx, "s1", "e1");
    assert!(signal.as_str().contains("s1"));
    assert!(signal.as_str().contains("e1"));
}

#[test]
fn keys_are_built_from_fit_names_only() {
    for bad in ["../x", "a//b", "/a", "a\\b", "a/..", "a."] {
        assert!(!StorageKey::is_stem(bad), "{bad}");
    }
    for good in ["a.b", "les-a", ".a", "", "a/"] {
        assert!(StorageKey::is_stem(good), "{good}");
    }
    for bad in ["", "/a", "a/", "a//b", "..", "a\\b"] {
        assert!(!StorageKey::is_canonical(bad), "{bad}");
    }
    assert!(StorageKey::is_canonical("a."));

    let tenant = |id: &str| Context::builder().tenant_id(id).user_id("alice").build();
    assert!(StorageKey::routes(&Context::single_user_local()));
    assert!(StorageKey::routes(&tenant("acme")));
    for bad in ["", "..", "a//b", "/acme", "acme/"] {
        assert!(!StorageKey::routes(&tenant(bad)), "{bad}");
    }
    let odd_user = Context::builder().tenant_id("local").user_id("..").build();
    assert!(StorageKey::routes(&odd_user));

    for ctx in [&Context::single_user_local(), &tenant("acme")] {
        let keys = [
            StorageKey::daemon_log(ctx),
            StorageKey::lesson(ctx, "active", "a.b"),
            StorageKey::memory(ctx, ""),
            StorageKey::skill(ctx, "a."),
            StorageKey::sentiment_signal(ctx, "s", "e"),
        ];
        for key in keys {
            assert!(StorageKey::is_canonical(key.as_str()), "{}", key.as_str());
            assert_eq!(key.clone(), key);
        }
    }
}

#[test]
fn every_write_takes_a_fresh_version() {
    let mut s = MemoryStorage::new();
    let (a, b) = (key("a"), key("b"));
    s.put(&a, b"1".to_vec());
    let (_, first) = s.get_with_version(&a).unwrap();
    s.delete(&a);
    assert!(s.put_if_version(&a, b"1".to_vec(), None));
    let (_, second) = s.get_with_version(&a).unwrap();
    s.put(&b, b"1".to_vec());
    let (_, third) = s.get_with_version(&b).unwrap();
    assert!(first != second && second != third && first != third);
    assert!(!s.put_if_version(&a, b"2".to_vec(), Some(&first)));
    assert_eq!(s.get(&a).unwrap(), b"1");
}

#[test]
fn lock_sidecar_path_is_hidden_and_in_same_dir() {
    let target = "/tmp/foo/les-abc.md";
    let lock = sidecar_lock_path(target).unwrap();
    assert_eq!(lock, "/tmp/foo/.les-abc.md.lock");
}

#[test]
fn a_path_without_a_file_name_has_no_sidecar() {
    for bad in ["/", "", "/tmp/.."] {
        assert!(matches!(
            sidecar_lock_path(bad),
            Err(StorageError::Backend(_))
        ));
    }
    assert_eq!(sidecar_lock_path("plain.md").unwrap(), ".plain.md.lock");
}

#[test]
fn round_trip() {
    let mut s = MemoryStorage::new();
    let k = key("a");
    s.put(&k, b"hello".to_vec());
    assert_eq!(s.get(&k).unwrap(), b"hello");
}

#[test]
fn delete_then_get_returns_none() {
    let mut s = MemoryStorage::new();
    let k = key("a");
    s.put(&k, b"x".to_vec());
    s.delete(&k);
    assert!(s.get(&k).is_none());
}

#[test]
fn list_returns_keys_under_prefix() {
    let mut s = MemoryStorage::new();
    let ctx = Context::single_user_local();
    s.put(&StorageKey::lesson(&ctx, "active", "a"), b"1".to_vec());
    s.put(&StorageKey::lesson(&ctx, "active", "b"), b"2".to_vec());
    s.put(&StorageKey::lesson(&ctx, "archived", "c"), b"3".to_vec());

    let prefix = StorageKey::from_raw("lessons/active".into());
    let mut keys: Vec<String> = s
        .list(&prefix)
        .into_iter()
        .map(|k| k.as_str().to_string())
        .collect();
    keys.sort();
    assert_eq!(keys, vec!["lessons/active/a.md", "lessons/active/b.md"]);
}

#[test]
fn put_if_version_create_only_succeeds_on_absent() {
    let mut s = MemoryStorage::new();
    let k = key("a");
    let ok = s.put_if_version(&k, b"first".to_vec(), None);
    assert!(ok);
    let ok = s.put_if_version(&k, b"second".to_vec(), None);
    assert!(!ok);
    assert_eq!(s.get(&k).unwrap(), b"first");
}

#[test]
fn put_if_version_rmw_round_trip() {
    let mut s = MemoryStorage::new();
    let k = key("a");
    s.put(&k, b"v1".to_vec());
    let (_bytes, v1) = s.get_with_version(&k).unwrap();

    let ok = s.put_if_version(&k, b"v2".to_vec(), Some(&v1));
    assert!(ok);
    assert_eq!(s.get(&k).unwrap(), b"v2");

    let ok = s.put_if_version(&k, b"v3".to_vec(), Some(&v1));
    assert!(!ok);
    assert_eq!(s.get(&k).unwrap(), b"v2");
}

#[test]
fn a_version_is_wanted_of_an_absent_key_in_vain() {
    let mut s = MemoryStorage::new();
    let other = key("b");
    s.put(&other, b"x".to_vec());
    let (_, version) = s.get_with_version(&other).unwrap();
    assert!(!s.put_if_version(&key("a"), b"y".to_vec(), Some(&version)));
    assert!(s.get(&key("a")).is_none());
}

#[test]
fn every_write_gets_a_version_of_its_own() {
    let mut s = MemoryStorage::new();
    let k = key("a");
    s.put(&k, b"same".to_vec());
    let (_, first) = s.get_with_version(&k).unwrap();
    s.put(&k, b"same".to_vec());
    let (_, second) = s.get_with_version(&k).unwrap();
    assert!(!first.same(&second));
    assert!(first.same(&first.duplicate()));
}

#[test]
fn versions_are_bytes() {
    let v = Version::from_bytes(vec![1, 2, 3]);
    assert_eq!(v.as_bytes(), &[1, 2, 3]);
    assert!(!Version::from_counter(1).same(&Version::from_counter(2)));
    assert_eq!(
        Version::from_counter(258).as_bytes(),
        &258u64.to_be_bytes()
    );
}

#[test]
fn files_lie_below_the_root() {
    let fs = LocalFsStorage::new("/home/u/.loop".to_string());
    assert_eq!(fs.root(), "/home/u/.loop");
    assert_eq!(
        fs.resolve(&key("les-a")),
        "/home/u/.loop/lessons/active/les-a.md"
    );
}

#[test]
fn temporary_files_keep_the_extension() {
    assert_eq!(temp_extension("/x/les-a.md"), "md.tmp");
    assert_eq!(temp_extension("/x/daemon"), "tmp");
}

#[test]
fn paths_become_keys() {
    assert_eq!(path_to_key_string("lessons/active/a.md"), "lessons/active/a.md");
}

#[test]
fn storage_errors_have_messages() {
    let k = || "k1".to_string();
    let cases = [
        StorageError::NotFound { key: k() },
        StorageError::AlreadyExists { key: k() },
        StorageError::PermissionDenied { key: k() },
        StorageError::VersionMismatch { key: k() },
        StorageError::backend(k()),
    ];
    let mut seen: Vec<String> = vec![];
    for error in cases {
        let message = error.message();
        assert!(message.contains("k1"), "{message}");
        assert!(!seen.contains(&message));
        seen.push(message);
    }
}
