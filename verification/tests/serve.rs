//! Requests and what they are answered.

use loop_engine::engine::clock::Moment;
use loop_engine::engine::context::Context;
use loop_engine::engine::error::EngineError;
use loop_engine::engine::memory::{MemoryId, MemoryScope, MemoryScopeFilter, ScopeKind};
use loop_engine::engine::storage::key::StorageKey;
use loop_engine::engine::yaml::schema::{Authorship, LessonStatus};
use loop_engine::serve::ids::{new_lesson_id, new_memory_id, preview};
use loop_engine::serve::json::Json;
use loop_engine::serve::ledger::{
    ledger_to_dispatch, parse_phase, task_get_ledger, task_log_phase, LedgerEntry, LedgerError,
    Phase,
};
use loop_engine::serve::lesson_create::{
    authorship_str, build_narrative, check_create, cited_memory_ids, lesson_create,
    parse_authorship, ExistingLesson, LessonCreateParams,
};
use loop_engine::serve::lessons::{
    feedback_signal_id, lesson_capture_feedback, lesson_discard, lesson_list, lesson_promote,
    lesson_recall, lesson_supersede, list_statuses, page_limit, parse_polarity, require_lesson,
    require_query, FeedbackPolarity, FeedbackResult, LessonListParams, LessonRow, PromotedLesson,
    RecallCandidate,
};
use loop_engine::serve::manifest::{
    plan_manifest, serialize_manifest, AssemblyStats, GateDecision, Manifest,
    ManifestAssembleParams, ManifestLesson, ManifestMemory,
};
use loop_engine::serve::memories::{
    check_memory_create, check_memory_update, check_window, memory_compress, memory_consolidate,
    memory_create, memory_delete, memory_get, memory_id_of_key, memory_list,
    memory_recompute_citations, memory_search, memory_update, new_memory_scope, plan_search,
    CitationStats, Consolidation, MemoryHit, MemoryListParams, MemorySearchParams, MemoryView,
    ScopeFilterWire, SearchMode, WindowMethod,
};
use loop_engine::serve::order::page_bounds;
use loop_engine::serve::rpc::{
    accept, dispatch, ping, respond, DispatchError, Method, Outcome, Request, Response,
};
use loop_engine::serve::transport::{is_request, plan_bind, BindPlan, PathContent};

fn get<'a>(j: &'a Json, key: &str) -> &'a Json {
    match j {
        Json::Object(members) => {
            &members
                .iter()
                .find(|(k, _)| k == key)
                .unwrap_or_else(|| panic!("no member {key}"))
                .1
        }
        _ => panic!("not an object: {j:?}"),
    }
}

fn array(j: &Json) -> &Vec<Json> {
    match j {
        Json::Array(items) => items,
        _ => panic!("not an array: {j:?}"),
    }
}

fn text(j: &Json) -> &str {
    match j {
        Json::Text(s) => s,
        _ => panic!("not a text: {j:?}"),
    }
}

fn texts(j: &Json) -> Vec<&str> {
    array(j).iter().map(text).collect()
}

fn params_error<T>(r: Result<T, DispatchError>) -> String {
    match r {
        Err(DispatchError::InvalidParams(m)) => m,
        Err(other) => panic!("expected InvalidParams, got {other:?}"),
        Ok(_) => panic!("expected InvalidParams"),
    }
}

fn exact(scope: MemoryScope) -> ScopeFilterWire {
    ScopeFilterWire::Exact { scope }
}

fn of_kind(name: &str) -> ScopeFilterWire {
    ScopeFilterWire::Kind {
        kind_name: name.to_string(),
    }
}

#[test]
fn scope_filter_wire_exact_user() {
    let f = exact(MemoryScope::User).into_engine().unwrap();
    assert!(f.matches(&MemoryScope::User));
    assert!(!f.matches(&MemoryScope::Global));
}

#[test]
fn scope_filter_wire_exact_project() {
    let f = exact(MemoryScope::Project("loop".into()))
        .into_engine()
        .unwrap();
    assert!(f.matches(&MemoryScope::Project("loop".into())));
    assert!(!f.matches(&MemoryScope::Project("other".into())));
    assert!(!f.matches(&MemoryScope::User));
}

#[test]
fn scope_filter_wire_kind_known_discriminators() {
    for kind in ["user", "team", "skill", "project", "global"] {
        of_kind(kind).into_engine().unwrap_or_else(|_| {
            panic!("known discriminator {kind} should convert");
        });
    }
}

#[test]
fn scope_filter_wire_kind_matches_any_team() {
    let f = of_kind("team").into_engine().unwrap();
    assert!(f.matches(&MemoryScope::Team("acme".into())));
    assert!(f.matches(&MemoryScope::Team("other".into())));
    assert!(!f.matches(&MemoryScope::User));
}

#[test]
fn scope_filter_wire_kind_unknown_errors() {
    let msg = params_error(of_kind("nonsense").into_engine());
    assert!(
        msg.contains("nonsense"),
        "msg should name the offending kind: {msg}"
    );
}

#[test]
fn scope_filter_wire_any_of_matches_set() {
    let w = ScopeFilterWire::AnyOf {
        scopes: vec![MemoryScope::User, MemoryScope::Project("loop".into())],
    };
    let f = w.into_engine().unwrap();
    assert!(f.matches(&MemoryScope::User));
    assert!(f.matches(&MemoryScope::Project("loop".into())));
    assert!(!f.matches(&MemoryScope::Project("other".into())));
    assert!(!f.matches(&MemoryScope::Global));
}

#[test]
fn cited_memory_ids_extracts_only_memory_refs_in_order() {
    let narrative = build_narrative(
        &vec![
            "mem-aaa00001".to_string(),
            "a free-text quote".to_string(),
            "mem-bbb00002".to_string(),
        ],
        Authorship::User,
        "2026-05-27T00:00:00Z",
    );
    let ids = cited_memory_ids(narrative.as_ref());
    assert_eq!(ids, vec!["mem-aaa00001", "mem-bbb00002"]);
}

#[test]
fn cited_memory_ids_empty_for_no_narrative_or_no_memory_refs() {
    assert!(cited_memory_ids(None).is_empty());
    let quotes_only = build_narrative(
        &vec!["just a quote".to_string()],
        Authorship::User,
        "2026-05-27T00:00:00Z",
    );
    assert!(cited_memory_ids(quotes_only.as_ref()).is_empty());
    assert!(build_narrative(&vec![], Authorship::User, "now").is_none());
}

fn memory(id: &str, scope: MemoryScope, created_at: &str) -> MemoryView {
    MemoryView {
        id: MemoryId::new(id.to_string()),
        description: "gist".into(),
        content: "compressed".into(),
        created_at: created_at.into(),
        updated_at: None,
        scope,
        origin: None,
        consumed_by_user_lessons: 3,
        derived_from: vec![],
    }
}

#[test]
fn memory_compress_dispatch_returns_mc_with_derived_from_and_summed_citations() {
    let ids = vec!["mem-rpc00001".to_string(), "mem-rpc00002".to_string()];
    let window = check_window(WindowMethod::Compress, &ids, true).unwrap();
    let mut mc = memory("mem-c-1", MemoryScope::User, "2026-05-27T00:00:00Z");
    mc.derived_from = window;
    let result = memory_compress(Ok(mc)).unwrap();
    assert_eq!(
        texts(get(&result, "derived_from")),
        vec!["mem-rpc00001", "mem-rpc00002"]
    );
    assert_eq!(get(&result, "consumed_by_user_lessons"), &Json::Number(3));
    assert!(text(get(&result, "id")).starts_with("mem-c-"));
}

#[test]
fn memory_compress_dispatch_missing_ids_is_invalid_params() {
    params_error(check_window(WindowMethod::Compress, &vec![], true));
}

#[test]
fn memory_compress_dispatch_without_llm_errors_clearly() {
    let ids = vec!["mem-rpc00001".to_string()];
    match check_window(WindowMethod::Compress, &ids, false) {
        Err(DispatchError::Other(e)) => assert!(e.contains("LLM") && e.contains("memory.compress")),
        other => panic!("expected Other(no-LLM), got {other:?}"),
    }
}

#[test]
fn memory_compress_of_a_thin_window_is_refused() {
    let msg = params_error(memory_compress(Err(
        EngineError::CompressionInsufficientInput,
    )));
    assert!(msg.starts_with("compression refused"));
}

#[test]
fn memory_recompute_citations_dispatch_returns_stats() {
    let stats = CitationStats {
        lessons_scanned: 4,
        memories_recomputed: 2,
        counters_repaired: 0,
        orphan_citations: 0,
    };
    let result = memory_recompute_citations(Ok(stats)).unwrap();
    assert_eq!(get(&result, "counters_repaired"), &Json::Number(0));
    assert_eq!(get(&result, "orphan_citations"), &Json::Number(0));
    assert!(matches!(get(&result, "lessons_scanned"), Json::Number(_)));
}

#[test]
fn memory_consolidate_dispatch_verified_deletes_non_immune() {
    let done = Consolidation {
        mc_id: "mem-c-1".into(),
        deleted: vec!["mem-cns00001".into(), "mem-cns00002".into()],
        kept_immune: vec![],
        verified: true,
    };
    let result = memory_consolidate(Ok(done)).unwrap();
    assert_eq!(get(&result, "verified"), &Json::Bool(true));
    assert_eq!(
        texts(get(&result, "deleted")),
        vec!["mem-cns00001", "mem-cns00002"]
    );
    assert!(array(get(&result, "kept_immune")).is_empty());
    assert!(text(get(&result, "mc_id")).starts_with("mem-c-"));
}

#[test]
fn memory_consolidate_dispatch_missing_ids_is_invalid_params() {
    params_error(check_window(WindowMethod::Consolidate, &vec![], true));
}

#[test]
fn memory_consolidate_dispatch_without_llm_errors_clearly() {
    let ids = vec!["mem-cns00001".to_string()];
    match check_window(WindowMethod::Consolidate, &ids, false) {
        Err(DispatchError::Other(e)) => {
            assert!(e.contains("LLM") && e.contains("memory.consolidate"))
        }
        other => panic!("expected Other(no-LLM), got {other:?}"),
    }
}

fn entry(phase: Phase, note: Option<&str>) -> LedgerEntry {
    LedgerEntry {
        phase,
        logged_at: "2026-05-27T00:00:00Z".into(),
        note: note.map(str::to_string),
    }
}

#[test]
fn task_log_phase_records_and_reads_back() {
    let phase = parse_phase("audit").unwrap();
    let resp = task_log_phase("task-127", phase, Ok(true)).unwrap();
    assert_eq!(get(&resp, "ok"), &Json::Bool(true));
    assert_eq!(get(&resp, "newly_recorded"), &Json::Bool(true));
    assert_eq!(text(get(&resp, "phase")), "audit");

    let entries = vec![entry(phase, Some("13 retroactive findings"))];
    let ledger = task_get_ledger("task-127", Ok(entries)).unwrap();
    assert_eq!(texts(get(&ledger, "phases_logged")), vec!["audit"]);
    let entries = array(get(&ledger, "entries"));
    assert_eq!(text(get(&entries[0], "note")), "13 retroactive findings");
}

#[test]
fn task_log_phase_idempotent_relog() {
    let mut logged: Vec<LedgerEntry> = vec![];
    let mut log = |name: &str| {
        let phase = parse_phase(name).unwrap();
        let newly = logged.iter().all(|e| e.phase != phase);
        if newly {
            logged.push(entry(phase, None));
        }
        task_log_phase("task-127", phase, Ok(newly)).unwrap()
    };
    let first = log("code");
    assert_eq!(get(&first, "newly_recorded"), &Json::Bool(true));
    let second = log("code");
    assert_eq!(get(&second, "ok"), &Json::Bool(true));
    assert_eq!(get(&second, "newly_recorded"), &Json::Bool(false));
    let ledger = task_get_ledger("task-127", Ok(logged)).unwrap();
    assert_eq!(array(get(&ledger, "phases_logged")).len(), 1);
}

#[test]
fn task_log_phase_rejects_unknown_phase() {
    params_error(parse_phase("review"));
}

#[test]
fn an_unknown_phase_is_quoted() {
    let msg = params_error(parse_phase("not\"a\u{1b}phase"));
    assert!(msg.contains("\"not\\\"a\\u{1b}phase\""), "{msg}");
}

#[test]
fn task_ids_that_the_ledger_refuses_are_invalid_params() {
    let refused = LedgerError::InvalidId("task id must be a plain name".into());
    params_error(task_log_phase("../etc", Phase::Code, Err(refused)));
}

#[test]
fn notes_that_the_ledger_refuses_are_invalid_params() {
    let refused = LedgerError::NoteTooLong("note too long".into());
    params_error(task_log_phase("t1", Phase::Code, Err(refused)));
}

#[test]
fn task_get_ledger_empty_for_unknown_task() {
    let ledger = task_get_ledger("never-logged", Ok(vec![])).unwrap();
    assert!(array(get(&ledger, "phases_logged")).is_empty());
    assert!(array(get(&ledger, "entries")).is_empty());
}

#[test]
fn ledger_faults_are_internal() {
    for fault in [
        LedgerError::Storage("disk".into()),
        LedgerError::MalformedEntry("bad".into()),
    ] {
        assert!(matches!(ledger_to_dispatch(fault), DispatchError::Other(_)));
    }
}

#[test]
fn every_phase_has_its_name() {
    for name in [
        "pre_research",
        "learn",
        "code",
        "test",
        "audit",
        "post_research",
        "fix",
    ] {
        let phase = match Phase::parse(name) {
            Some(p) => p,
            None => panic!("{name} is a phase"),
        };
        assert_eq!(phase.as_str(), name);
    }
    assert!(Phase::parse("deploy").is_none());
}

fn ping_request(id: &str) -> Request {
    Request {
        jsonrpc: "2.0".into(),
        id: Some(id.into()),
        method: "ping".into(),
        params: "{}".into(),
    }
}

fn serve(parsed: Result<Request, String>) -> Response {
    let request = match accept(parsed) {
        Ok(request) => request,
        Err(response) => return response,
    };
    let outcome = match dispatch(&request.method) {
        Ok(Method::Ping) => Ok(ping("0.3.0")),
        Ok(_) => Err(DispatchError::Other("not wired".into())),
        Err(e) => Err(e),
    };
    respond(request.id, &request.method, outcome)
}

#[test]
fn stdio_regression_ping_roundtrip() {
    let response = serve(Ok(ping_request("1")));
    assert_eq!(response.jsonrpc, "2.0");
    assert_eq!(response.id.as_deref(), Some("1"));
    let result = response.result.unwrap();
    assert_eq!(get(&result, "ok"), &Json::Bool(true));
    assert_eq!(text(get(&result, "version")), "0.3.0");
    assert!(response.error.is_none());
}

#[test]
fn uds_concurrent_connections_no_id_crosstalk() {
    let a = serve(Ok(ping_request("1001")));
    let b = serve(Ok(ping_request("2002")));
    assert_eq!(a.id.as_deref(), Some("1001"));
    assert_eq!(b.id.as_deref(), Some("2002"));
}

#[test]
fn requests_that_are_none_are_refused() {
    let response = serve(Err("expected value".into()));
    let error = response.error.unwrap();
    assert_eq!(error.code, -32700);
    assert!(error.message.contains("expected value"));
    let mut old = ping_request("7");
    old.jsonrpc = "1.0".into();
    let error = serve(Ok(old)).error.unwrap();
    assert_eq!(error.code, -32600);
    let mut odd = ping_request("8");
    odd.method = "lesson.sing".into();
    let response = serve(Ok(odd));
    assert_eq!(response.id.as_deref(), Some("8"));
    let error = response.error.unwrap();
    assert_eq!(error.code, -32601);
    assert_eq!(error.message, "method not found: lesson.sing");
}

#[test]
fn every_refusal_has_its_code() {
    let cases: Vec<(DispatchError, i32)> = vec![
        (DispatchError::MethodNotFound, -32601),
        (DispatchError::InvalidParams("m".into()), -32602),
        (DispatchError::PromotionBlocked(vec!["r".into()]), -32000),
        (DispatchError::UserLessonImmune("les-a".into()), -32001),
        (DispatchError::NotFound("les-a".into()), -32002),
        (
            DispatchError::UserMemoryImmune {
                id: "mem-a".into(),
                cited_by: 2,
            },
            -32003,
        ),
        (DispatchError::SupersedeBlocked("r".into()), -32004),
        (DispatchError::Other("o".into()), -32603),
    ];
    for (refusal, code) in cases {
        let response = respond(Some("1".into()), "m", Err(refusal));
        assert!(response.result.is_none());
        assert_eq!(response.error.unwrap().code, code);
    }
    let immune = DispatchError::UserMemoryImmune {
        id: "mem-a".into(),
        cited_by: 2,
    };
    let data = respond(None, "m", Err(immune)).error.unwrap().data.unwrap();
    assert_eq!(text(get(&data, "memory_id")), "mem-a");
    assert_eq!(get(&data, "cited_by"), &Json::Number(2));
}

#[test]
fn ids_are_hexadecimal_and_differ() {
    assert_eq!(new_lesson_id(1, 0), "les-9e3779b1");
    assert_eq!(new_memory_id(0, 0), "mem-00000000");
    assert_ne!(new_lesson_id(5, 0), new_lesson_id(5, 1));
}

#[test]
fn previews_end_in_an_ellipsis() {
    assert_eq!(preview("  short \n", 10), "short");
    assert_eq!(preview("abcdef", 6), "abcdef");
    assert_eq!(preview("abcdefg", 6), "abcdef\u{2026}");
    assert_eq!(preview("żółw żółty", 4), "żółw\u{2026}");
}

fn create_params() -> LessonCreateParams {
    LessonCreateParams {
        description: "Use atomic renames".into(),
        body: "Write to a temporary file first.".into(),
        evidence: vec!["mem-aaa00001".into()],
        authored_by: Some("user".into()),
        pack_id: None,
        external_id: None,
        seed_as_promoted: false,
    }
}

#[test]
fn a_new_lesson_is_pending() {
    let p = create_params();
    assert!(check_create(&p).unwrap().is_none());
    let ctx = Context::single_user_local();
    let made = lesson_create(
        &p,
        &ctx,
        None,
        "2026-05-27T00:00:00.000Z",
        "les-00000001".into(),
    )
    .unwrap();
    assert_eq!(made.key.as_str(), "lessons/pending/les-00000001.md");
    assert!(made.content.starts_with("---\nid: les-00000001\n"));
    assert!(made.content.contains("status: pending\n"));
    assert!(made.content.ends_with("Write to a temporary file first.\n"));
    assert_eq!(text(get(&made.answer, "id")), "les-00000001");
    assert_eq!(text(get(&made.answer, "status")), "pending");
    assert_eq!(text(get(&made.answer, "authored_by")), "user");
    assert_eq!(get(&made.answer, "updated"), &Json::Bool(false));
}

#[test]
fn a_lesson_without_a_key_is_not_created() {
    let made = lesson_create(
        &create_params(),
        &Context::single_user_local(),
        None,
        "2026-05-27T00:00:00.000Z",
        "../les".into(),
    );
    match made {
        Err(DispatchError::Other(m)) => assert_eq!(m, "no key for lesson ../les"),
        _ => panic!("expected Other"),
    }
    let id = new_lesson_id(7, 9);
    let nowhere = Context::builder().tenant_id("..").build();
    assert!(lesson_create(&create_params(), &nowhere, None, "now", id.clone()).is_err());
    let local = Context::single_user_local();
    assert!(lesson_create(&create_params(), &local, None, "now", id).is_ok());
}

#[test]
fn a_pack_replaces_its_own_lesson() {
    let mut p = create_params();
    p.authored_by = Some("pack".into());
    p.pack_id = Some("pk".into());
    p.external_id = Some("x1".into());
    let key = check_create(&p).unwrap().unwrap();
    assert_eq!(key.pack_id, "pk");
    assert_eq!(key.external_id, "x1");
    let existing = ExistingLesson {
        id: "les-old".into(),
        created_at: "2026-01-01T00:00:00.000Z".into(),
        status: LessonStatus::Promoted,
        status_dir: "promoted".into(),
    };
    let made = lesson_create(
        &p,
        &Context::single_user_local(),
        Some(existing),
        "2026-05-27T00:00:00.000Z",
        "les-new".into(),
    )
    .unwrap();
    assert_eq!(made.key.as_str(), "lessons/promoted/les-old.md");
    assert_eq!(text(get(&made.answer, "id")), "les-old");
    assert_eq!(
        text(get(&made.answer, "created_at")),
        "2026-01-01T00:00:00.000Z"
    );
    assert_eq!(get(&made.answer, "updated"), &Json::Bool(true));
    assert_eq!(text(get(&made.answer, "external_id")), "x1");
}

#[test]
fn packs_may_seed_promoted_lessons() {
    let mut p = create_params();
    p.seed_as_promoted = true;
    assert_eq!(
        params_error(check_create(&p)),
        "seed_as_promoted requires authored_by = \"pack\""
    );
    p.authored_by = Some("pack".into());
    assert_eq!(
        params_error(check_create(&p)),
        "pack_id required when authored_by = \"pack\""
    );
    p.pack_id = Some("pk".into());
    let made = lesson_create(
        &p,
        &Context::single_user_local(),
        None,
        "2026-05-27T00:00:00.000Z",
        "les-seed".into(),
    )
    .unwrap();
    assert_eq!(made.key.as_str(), "lessons/promoted/les-seed.md");
    let mut blank = create_params();
    blank.body = " \n".into();
    assert_eq!(
        params_error(check_create(&blank)),
        "description and body required"
    );
}

#[test]
fn authors_have_names() {
    assert_eq!(parse_authorship(&Some("user".into())), Authorship::User);
    assert_eq!(parse_authorship(&Some("pack".into())), Authorship::Pack);
    assert_eq!(parse_authorship(&Some("robot".into())), Authorship::Llm);
    assert_eq!(parse_authorship(&None), Authorship::Llm);
    assert_eq!(authorship_str(Authorship::Llm), "agent");
    assert_eq!(authorship_str(Authorship::User), "user");
}

fn candidate(id: &str, score: f32) -> RecallCandidate {
    RecallCandidate {
        score: score.to_bits(),
        shown: score.to_bits(),
        id: id.into(),
        description: "d".into(),
        status: "active".into(),
        body: "b".into(),
        applied_count: 0,
    }
}

#[test]
fn recall_gives_the_best_matches_first() {
    let found = vec![
        candidate("les-low", 0.25),
        candidate("les-none", 0.0),
        candidate("les-high", 1.5),
        candidate("les-tie", 0.25),
    ];
    let answer = lesson_recall("q", 3, found).unwrap();
    assert_eq!(get(&answer, "returned"), &Json::Number(3));
    let ids: Vec<&str> = array(get(&answer, "results"))
        .iter()
        .map(|r| text(get(r, "id")))
        .collect();
    assert_eq!(ids, vec!["les-high", "les-low", "les-tie"]);
    assert_eq!(params_error(lesson_recall("  ", 3, vec![])), "query required");
    assert!(require_query("q").is_ok());
}

#[test]
fn lessons_are_required_to_exist() {
    assert!(require_lesson("les-a", Ok(true)).is_ok());
    assert!(matches!(
        require_lesson("les-a", Ok(false)),
        Err(DispatchError::NotFound(id)) if id == "les-a"
    ));
    assert!(matches!(
        require_lesson("les-a", Err(EngineError::Parse("p".into()))),
        Err(DispatchError::Other(_))
    ));
}

#[test]
fn promotion_is_answered() {
    let narrative = build_narrative(
        &vec!["mem-1".into(), "quote".into()],
        Authorship::User,
        "now",
    );
    let promoted = PromotedLesson {
        status_dir: "active".into(),
        narrative,
    };
    let answer = lesson_promote("les-a", Ok(promoted)).unwrap();
    assert_eq!(text(get(&answer, "from")), "active");
    assert_eq!(texts(get(&answer, "cited_memory_ids")), vec!["mem-1"]);
    let blocked = EngineError::PromotionBlocked {
        reasons: vec!["too new".into()],
    };
    assert!(matches!(
        lesson_promote("les-a", Err(blocked)),
        Err(DispatchError::PromotionBlocked(r)) if r == vec!["too new".to_string()]
    ));
    match lesson_promote("les-a", Err(EngineError::Other("odd".into()))) {
        Err(DispatchError::Other(m)) => assert_eq!(m, "promote failed: odd"),
        other => panic!("expected Other, got {other:?}"),
    }
}

#[test]
fn discards_respect_immunity() {
    let answer = lesson_discard("les-a", &Some("stale".into()), Ok("active".into())).unwrap();
    assert_eq!(text(get(&answer, "status")), "discarded");
    assert_eq!(text(get(&answer, "reason")), "stale");
    let answer = lesson_discard("les-a", &None, Ok("active".into())).unwrap();
    assert_eq!(get(&answer, "reason"), &Json::Null);
    let immune = EngineError::UserLessonImmune { id: "les-a".into() };
    assert!(matches!(
        lesson_discard("les-a", &None, Err(immune)),
        Err(DispatchError::UserLessonImmune(_))
    ));
    let missing = EngineError::LessonNotFound { id: "les-a".into() };
    assert!(matches!(
        lesson_discard("les-a", &None, Err(missing)),
        Err(DispatchError::NotFound(_))
    ));
}

fn row(id: &str, created_at: &str) -> LessonRow {
    LessonRow {
        id: id.into(),
        description: "d".into(),
        status: "active".into(),
        authored_by: Authorship::User,
        pack_id: None,
        external_id: None,
        applied_count: 1,
        thumbs_up_count: 2,
        thumbs_down_count: 3,
        created_at: created_at.into(),
        updated_at: None,
    }
}

#[test]
fn lists_come_in_order_and_in_pages() {
    let rows = || {
        vec![
            row("les-1", "2026-01-01"),
            row("les-3", "2026-03-01"),
            row("les-2", "2026-02-01"),
        ]
    };
    let page = |limit, offset| {
        let p = LessonListParams {
            statuses: None,
            limit,
            offset,
        };
        lesson_list(&p, rows())
    };
    let ids = |j: &Json| -> Vec<String> {
        array(get(j, "results"))
            .iter()
            .map(|r| text(get(r, "id")).to_string())
            .collect()
    };
    let all = page(None, None);
    assert_eq!(ids(&all), vec!["les-1", "les-2", "les-3"]);
    assert_eq!(get(&all, "total"), &Json::Number(3));
    assert_eq!(get(&all, "limit"), &Json::Number(50));
    let second = page(Some(2), Some(2));
    assert_eq!(ids(&second), vec!["les-3"]);
    assert_eq!(get(&second, "returned"), &Json::Number(1));
    assert!(ids(&page(Some(2), Some(9))).is_empty());
    assert_eq!(page_limit(Some(9_999)), 500);
    assert_eq!(page_bounds(10, 8, 5), (8, 10));
}

#[test]
fn unknown_statuses_are_refused() {
    assert_eq!(
        list_statuses(&Some(vec!["active".into()])).unwrap(),
        vec!["active"]
    );
    let msg = params_error(list_statuses(&Some(vec!["active".into(), "odd".into()])));
    assert!(msg.contains("odd"), "{msg}");
    assert!(!list_statuses(&None).unwrap().is_empty());
}

#[test]
fn feedback_is_captured() {
    for word in ["thumbs_up", "up", "+"] {
        assert_eq!(parse_polarity(word).unwrap(), FeedbackPolarity::ThumbsUp);
    }
    for word in ["thumbs_down", "down", "-"] {
        assert_eq!(parse_polarity(word).unwrap(), FeedbackPolarity::ThumbsDown);
    }
    assert_eq!(
        params_error(parse_polarity("meh")),
        "polarity must be 'thumbs_up' or 'thumbs_down', got 'meh'"
    );
    assert_eq!(feedback_signal_id(&None, "les-1"), "rpc-les-1");
    assert_eq!(feedback_signal_id(&Some("s".into()), "les-1"), "s");
    let captured = FeedbackResult {
        id: "les-1".into(),
        status_dir: "active".into(),
        thumbs_up_count: 4,
        thumbs_down_count: 1,
        external_signal_sources: vec!["rpc-les-1".into()],
    };
    let answer = lesson_capture_feedback(Ok(captured)).unwrap();
    assert_eq!(get(&answer, "thumbs_up_count"), &Json::Number(4));
    assert_eq!(
        texts(get(&answer, "external_signal_sources")),
        vec!["rpc-les-1"]
    );
}

#[test]
fn superseding_is_answered() {
    let answer = lesson_supersede("les-1", "les-2", Ok("superseded".into())).unwrap();
    assert_eq!(text(get(&answer, "old_id")), "les-1");
    assert_eq!(text(get(&answer, "new_id")), "les-2");
    let invalid = EngineError::LessonSupersedeInvalid {
        reason: "same lesson".into(),
    };
    assert!(matches!(
        lesson_supersede("les-1", "les-1", Err(invalid)),
        Err(DispatchError::SupersedeBlocked(r)) if r == "same lesson"
    ));
}

#[test]
fn memories_are_created_fetched_updated_and_deleted() {
    params_error(check_memory_create("", "c"));
    params_error(check_memory_create("d", " "));
    assert!(check_memory_create("d", "c").is_ok());
    assert_eq!(new_memory_scope(None).kind(), MemoryScope::default().kind());
    assert_eq!(
        new_memory_scope(Some(MemoryScope::Global)).kind(),
        ScopeKind::Global
    );
    let m = || memory("mem-1", MemoryScope::Project("loop".into()), "2026-01-01");
    let made = memory_create(Ok(m())).unwrap();
    assert_eq!(text(get(&made, "id")), "mem-1");
    let got = memory_get("mem-1", Ok(Some(m()))).unwrap();
    assert_eq!(text(get(&got, "content")), "compressed");
    assert_eq!(text(get(get(&got, "scope"), "project")), "loop");
    assert!(matches!(
        memory_get("mem-1", Ok(None)),
        Err(DispatchError::NotFound(_))
    ));
    assert_eq!(params_error(memory_get(" ", Ok(None))), "id required");
    params_error(check_memory_update("mem-1", &None, &None, &None));
    assert!(check_memory_update("mem-1", &Some("d".into()), &None, &None).is_ok());
    let updated = memory_update("mem-1", Ok(Some(m()))).unwrap();
    assert_eq!(get(&updated, "ok"), &Json::Bool(true));
    let deleted = memory_delete("mem-1", true, Ok(())).unwrap();
    assert_eq!(get(&deleted, "forced"), &Json::Bool(true));
    let immune = EngineError::UserMemoryImmune {
        id: "mem-1".into(),
        cited_by: 2,
    };
    assert!(matches!(
        memory_delete("mem-1", false, Err(immune)),
        Err(DispatchError::UserMemoryImmune { cited_by: 2, .. })
    ));
}

#[test]
fn memory_keys_give_ids() {
    let ctx = Context::single_user_local();
    let key = StorageKey::memory(&ctx, "mem-abc");
    assert_eq!(memory_id_of_key(&key).unwrap().as_str(), "mem-abc");
    let other = StorageKey::from_raw("memories/mem-abc.vec".into());
    assert!(memory_id_of_key(&other).is_none());
}

#[test]
fn memory_lists_respect_the_filter() {
    let memories = vec![
        memory("mem-1", MemoryScope::User, "2026-01-01"),
        memory("mem-2", MemoryScope::Global, "2026-02-01"),
        memory("mem-3", MemoryScope::User, "2026-03-01"),
    ];
    let p = MemoryListParams {
        scope_filter: Some(MemoryScopeFilter::Kind(ScopeKind::User)),
        limit: None,
        offset: None,
    };
    let answer = memory_list(&p, memories);
    assert_eq!(get(&answer, "total"), &Json::Number(2));
    let ids: Vec<&str> = array(get(&answer, "results"))
        .iter()
        .map(|r| text(get(r, "id")))
        .collect();
    assert_eq!(ids, vec!["mem-1", "mem-3"]);
}

fn search_params(query: &str) -> MemorySearchParams {
    MemorySearchParams {
        query: query.into(),
        limit: 5,
        include_body: false,
        scope_filter: None,
        mode: None,
        min_similarity: Some(0.5f32.to_bits()),
    }
}

fn hit(id: &str, similarity: f32) -> MemoryHit {
    MemoryHit {
        id: MemoryId::new(id.to_string()),
        description: "d".into(),
        body_preview: "b".into(),
        similarity: similarity.to_bits(),
        shown: similarity.to_bits(),
        source: None,
    }
}

#[test]
fn searches_leave_out_what_is_not_similar() {
    let plan = plan_search(search_params("q")).unwrap();
    assert!(matches!(plan.mode, SearchMode::Semantic));
    let hits = vec![hit("mem-1", 0.9), hit("mem-2", 0.4), hit("mem-3", 0.5)];
    let answer = memory_search(&plan, Ok(hits)).unwrap();
    let ids: Vec<&str> = array(get(&answer, "results"))
        .iter()
        .map(|r| text(get(r, "id")))
        .collect();
    assert_eq!(ids, vec!["mem-1", "mem-3"]);
    params_error(plan_search(search_params("")));
    match memory_search(&plan, Err(EngineError::Other("odd".into()))) {
        Err(DispatchError::Other(m)) => assert_eq!(m, "memory.search (semantic) failed: odd"),
        other => panic!("expected Other, got {other:?}"),
    }
}

fn manifest_params() -> ManifestAssembleParams {
    ManifestAssembleParams {
        statuses: None,
        lesson_limit: None,
        body_preview_len: None,
        annotate_with_gate: true,
        record_applied: false,
        memory_query: Some("  rename ".into()),
        memory_limit: None,
        memory_scope_filter: None,
    }
}

#[test]
fn manifests_are_planned() {
    let config = plan_manifest(manifest_params()).unwrap();
    assert_eq!(config.statuses, vec![LessonStatus::Active]);
    assert_eq!(config.lesson_limit, 5);
    assert_eq!(config.body_preview_len, 200);
    assert_eq!(config.memory_query.as_deref(), Some("rename"));
    let mut odd = manifest_params();
    odd.statuses = Some(vec!["odd".into()]);
    assert_eq!(
        params_error(plan_manifest(odd)),
        "unknown lesson status 'odd'"
    );
    let mut odd = manifest_params();
    odd.memory_scope_filter = Some(of_kind("odd"));
    params_error(plan_manifest(odd));
}

#[test]
fn manifests_are_shown() {
    let at = Moment {
        secs: 1_778_630_400,
        nanos: 0,
    };
    let manifest = Manifest {
        active_lessons: vec![ManifestLesson {
            id: "les-1".into(),
            description: "d".into(),
            status: LessonStatus::Active,
            body_preview: "b".into(),
            applied_count: 7,
            last_applied_at: Some(at),
            target_skill: None,
            gate: Some(GateDecision::Block { reasons: 2 }),
        }],
        memories: vec![ManifestMemory {
            id: MemoryId::new("mem-1".into()),
            description: "d".into(),
            body_preview: "b".into(),
            shown: 0.5f32.to_bits(),
        }],
        assembly_stats: AssemblyStats {
            assembled_at: at,
            total_listed: 1,
            skipped_count: 0,
            gate_skip_count: 0,
            record_applied_failures: 0,
            memories_returned: 1,
            memory_search_failures: 0,
            session_section_skips: 0,
        },
    };
    let shown = serialize_manifest(&manifest);
    let lesson = &array(get(&shown, "active_lessons"))[0];
    assert_eq!(
        text(get(lesson, "last_applied_at")),
        "2026-05-13T00:00:00+00:00"
    );
    let gate = get(lesson, "gate");
    assert_eq!(text(get(gate, "kind")), "block");
    assert_eq!(get(gate, "reason_count"), &Json::Number(2));
    let memory = &array(get(&shown, "memories"))[0];
    assert_eq!(get(memory, "similarity"), &Json::Single(0.5f32.to_bits()));
    for empty in ["active_skills", "active_personas", "active_teams"] {
        assert!(array(get(&shown, empty)).is_empty());
    }
    let stats = get(&shown, "assembly_stats");
    assert_eq!(
        text(get(stats, "assembled_at")),
        "2026-05-13T00:00:00+00:00"
    );
}

#[test]
fn outcomes_become_results() {
    let outcome: Outcome = Ok(Json::Bool(true));
    let response = respond(Some("9".into()), "ping", outcome);
    assert_eq!(response.result, Some(Json::Bool(true)));
}

#[test]
fn uds_refuses_non_socket_path() {
    let error = plan_bind("/tmp/x.txt", PathContent::Other).unwrap_err();
    assert!(error.contains("not a socket"), "{error}");
    assert!(error.contains("/tmp/x.txt"), "{error}");
}

#[test]
fn uds_cleans_stale_socket_file() {
    assert_eq!(
        plan_bind("/tmp/x.sock", PathContent::Socket),
        Ok(BindPlan::RemoveAndBind)
    );
    assert_eq!(
        plan_bind("/tmp/x.sock", PathContent::Nothing),
        Ok(BindPlan::Bind)
    );
}

#[test]
fn blank_lines_are_no_requests() {
    assert!(!is_request(" \t\r\n"));
    assert!(is_request("{}\n"));
}
