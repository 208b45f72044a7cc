//! `task.log_phase` and `task.get_ledger`: which phases of a task were gone through.

use vstd::prelude::*;

use super::json::{
    Fields, Items, JsonModel, boolean, has_member, no_members, opt, opt_value, text, text_array,
};
use super::rpc::{DispatchError, Outcome, OutcomeModel, RefusalModel, outcome_model};
use crate::text::{concat3, opt_text, same_text};

verus! {

/// The phases of a task.
#[derive(Debug, Clone, Copy, PartialEq, Eq, Structural)]
pub enum Phase {
    PreResearch,
    Learn,
    Code,
    Test,
    Audit,
    PostResearch,
    Fix,
}

impl Phase {
    pub open spec fn text(self) -> Seq<char> {
        match self {
            Phase::PreResearch => "pre_research"@,
            Phase::Learn => "learn"@,
            Phase::Code => "code"@,
            Phase::Test => "test"@,
            Phase::Audit => "audit"@,
            Phase::PostResearch => "post_research"@,
            Phase::Fix => "fix"@,
        }
    }

    pub fn as_str(self) -> (s: &'static str)
        ensures
            s@ == self.text(),
    {
        match self {
            Phase::PreResearch => "pre_research",
            Phase::Learn => "learn",
            Phase::Code => "code",
            Phase::Test => "test",
            Phase::Audit => "audit",
            Phase::PostResearch => "post_research",
            Phase::Fix => "fix",
        }
    }

    /// The phase of a name.
    pub fn parse(name: &str) -> (phase: Option<Phase>)
        ensures
            match phase {
                Some(p) => name@ == p.text(),
                None => forall|p: Phase| name@ != #[trigger] p.text(),
            },
    {
        if same_text(name, "pre_research") {
            Some(Phase::PreResearch)
        } else if same_text(name, "learn") {
            Some(Phase::Learn)
        } else if same_text(name, "code") {
            Some(Phase::Code)
        } else if same_text(name, "test") {
            Some(Phase::Test)
        } else if same_text(name, "audit") {
            Some(Phase::Audit)
        } else if same_text(name, "post_research") {
            Some(Phase::PostResearch)
        } else if same_text(name, "fix") {
            Some(Phase::Fix)
        } else {
            None
        }
    }
}

/// No two phases share a name.
pub proof fn law_phase_names_are_distinct(a: Phase, b: Phase)
    requires
        a.text() == b.text(),
    ensures
        a == b,
{
    reveal_strlit("pre_research");
    reveal_strlit("learn");
    reveal_strlit("code");
    reveal_strlit("test");
    reveal_strlit("audit");
    reveal_strlit("post_research");
    reveal_strlit("fix");
    assert("pre_research"@.len() == 12);
    assert("learn"@.len() == 5 && "learn"@[0] == 'l');
    assert("code"@.len() == 4 && "code"@[0] == 'c');
    assert("test"@.len() == 4 && "test"@[0] == 't');
    assert("audit"@.len() == 5 && "audit"@[0] == 'a');
    assert("post_research"@.len() == 13);
    assert("fix"@.len() == 3);
}

/// A text in quotes, as the `Debug` of `str` gives it.
pub uninterp spec fn quoted_text(s: Seq<char>) -> Seq<char>;

/// Formats with `<str as std::fmt::Debug>::fmt`. The contract only says that the result depends on
/// the text alone.
#[verifier::external_body]
fn debug_quote(s: &str) -> (q: String)
    ensures
        q@ == quoted_text(s@),
{
    format!("{:?}", s)
}

/// The complaint about a name that is no phase, given the name in quotes.
pub fn unknown_phase(quoted: &str) -> (e: DispatchError)
    ensures
        e@ == RefusalModel::InvalidParams(
            "unknown phase "@ + quoted@
                + " \u{2014} expected one of pre_research, learn, code, test, audit, post_research, fix"@,
        ),
{
    DispatchError::InvalidParams(
        concat3(
            "unknown phase ",
            quoted,
            " \u{2014} expected one of pre_research, learn, code, test, audit, post_research, fix",
        ),
    )
}

/// The phase that a request names.
pub fn parse_phase(name: &str) -> (r: Result<Phase, DispatchError>)
    ensures
        match r {
            Ok(p) => name@ == p.text(),
            Err(e) => {
                &&& forall|p: Phase| name@ != #[trigger] p.text()
                &&& e@ == RefusalModel::InvalidParams(
                    "unknown phase "@ + quoted_text(name@)
                        + " \u{2014} expected one of pre_research, learn, code, test, audit, post_research, fix"@,
                )
            },
        },
{
    match Phase::parse(name) {
        Some(p) => Ok(p),
        None => {
            let quoted = debug_quote(name);
            Err(unknown_phase(quoted.as_str()))
        },
    }
}

/// Failure of the ledger.
#[derive(Debug, Clone, PartialEq, Eq)]
pub enum LedgerError {
    /// The id of the task cannot be used.
    InvalidId(String),
    NoteTooLong(String),
    Storage(String),
    MalformedEntry(String),
}

/// The refusal for a failure of the ledger: what the caller did wrong is told apart from what went
/// wrong inside.
pub open spec fn ledger_refusal(e: LedgerError) -> RefusalModel {
    match e {
        LedgerError::InvalidId(m) => RefusalModel::InvalidParams(m@),
        LedgerError::NoteTooLong(m) => RefusalModel::InvalidParams(m@),
        LedgerError::Storage(m) => RefusalModel::Other(m@),
        LedgerError::MalformedEntry(m) => RefusalModel::Other(m@),
    }
}

/// The refusal for a failure of the ledger.
pub fn ledger_to_dispatch(err: LedgerError) -> (e: DispatchError)
    ensures
        e@ == ledger_refusal(err),
{
    match err {
        LedgerError::InvalidId(m) => DispatchError::InvalidParams(m),
        LedgerError::NoteTooLong(m) => DispatchError::InvalidParams(m),
        LedgerError::Storage(m) => DispatchError::Other(m),
        LedgerError::MalformedEntry(m) => DispatchError::Other(m),
    }
}

/// What logging a phase is answered; it yields whether the phase is new.
pub open spec fn log_outcome(
    task_id: Seq<char>,
    phase: Phase,
    written: Result<bool, LedgerError>,
) -> OutcomeModel {
    match written {
        Ok(new) => Ok(
            JsonModel::Object(
                no_members().push(("ok"@, JsonModel::Bool(true))).push(
                    ("task_id"@, JsonModel::Text(task_id)),
                ).push(("phase"@, JsonModel::Text(phase.text()))).push(
                    ("newly_recorded"@, JsonModel::Bool(new)),
                ),
            ),
        ),
        Err(e) => Err(ledger_refusal(e)),
    }
}

/// Answers logging a phase.
pub fn task_log_phase(task_id: &str, phase: Phase, written: Result<bool, LedgerError>) -> (o:
    Outcome)
    ensures
        outcome_model(o) == log_outcome(task_id@, phase, written),
{
    match written {
        Ok(new) => {
            let mut f = Fields::new();
            f.put("ok", boolean(true));
            f.put("task_id", text(task_id));
            f.put("phase", text(phase.as_str()));
            f.put("newly_recorded", boolean(new));
            Ok(f.done())
        },
        Err(e) => Err(ledger_to_dispatch(e)),
    }
}

/// An entry of the ledger.
#[derive(Debug, Clone, PartialEq, Eq)]
pub struct LedgerEntry {
    pub phase: Phase,
    pub logged_at: String,
    pub note: Option<String>,
}

/// An entry in the answer.
pub open spec fn entry_value(e: LedgerEntry) -> JsonModel {
    JsonModel::Object(
        no_members().push(("phase"@, JsonModel::Text(e.phase.text()))).push(
            ("logged_at"@, JsonModel::Text(e.logged_at@)),
        ).push(("note"@, opt_value(opt_text(e.note)))),
    )
}

/// What asking for a ledger is answered.
pub open spec fn ledger_outcome(
    task_id: Seq<char>,
    entries: Result<Seq<LedgerEntry>, LedgerError>,
) -> OutcomeModel {
    match entries {
        Ok(v) => Ok(
            JsonModel::Object(
                no_members().push(("task_id"@, JsonModel::Text(task_id))).push(
                    ("phases_logged"@, text_array(v.map_values(|e: LedgerEntry| e.phase.text()))),
                ).push(
                    (
                        "entries"@,
                        JsonModel::Array(v.map_values(|e: LedgerEntry| entry_value(e))),
                    ),
                ),
            ),
        ),
        Err(e) => Err(ledger_refusal(e)),
    }
}

/// Answers asking for a ledger.
pub fn task_get_ledger(task_id: &str, entries: Result<Vec<LedgerEntry>, LedgerError>) -> (o:
    Outcome)
    ensures
        outcome_model(o) == ledger_outcome(
            task_id@,
            match entries {
                Ok(v) => Ok(v@),
                Err(e) => Err(e),
            },
        ),
{
    let entries = match entries {
        Ok(v) => v,
        Err(e) => return Err(ledger_to_dispatch(e)),
    };
    let ghost names = entries@.map_values(|e: LedgerEntry| e.phase.text()).map_values(
        |s: Seq<char>| JsonModel::Text(s),
    );
    let ghost all = entries@.map_values(|e: LedgerEntry| entry_value(e));
    let mut phases = Items::new();
    let mut items = Items::new();
    let mut i: usize = 0;
    while i < entries.len()
        invariant
            i <= entries.len(),
            names == entries@.map_values(|e: LedgerEntry| e.phase.text()).map_values(
                |s: Seq<char>| JsonModel::Text(s),
            ),
            all == entries@.map_values(|e: LedgerEntry| entry_value(e)),
            phases@ == names.take(i as int),
            items@ == all.take(i as int),
        decreases entries.len() - i,
    {
        phases.put(text(entries[i].phase.as_str()));
        let mut f = Fields::new();
        f.put("phase", text(entries[i].phase.as_str()));
        f.put("logged_at", text(entries[i].logged_at.as_str()));
        f.put("note", opt(&entries[i].note));
        items.put(f.done());
        proof {
            assert(names.take(i + 1) =~= names.take(i as int).push(names[i as int]));
            assert(all.take(i + 1) =~= all.take(i as int).push(all[i as int]));
        }
        i += 1;
    }
    proof {
        assert(names.take(names.len() as int) =~= names);
        assert(all.take(all.len() as int) =~= all);
    }
    let mut f = Fields::new();
    f.put("task_id", text(task_id));
    f.put("phases_logged", phases.done());
    f.put("entries", items.done());
    Ok(f.done())
}

// ---- Laws --------------------------------------------------------------------

/// A phase that was logged is told back, and whether it was new; a refused one is refused for the
/// reason that the ledger gives.
pub proof fn law_logging_is_answered(
    task_id: &str,
    phase: Phase,
    written: Result<bool, LedgerError>,
    o: Outcome,
)
    requires
        call_ensures(task_log_phase, (task_id, phase, written), o),
    ensures
        outcome_model(o) is Ok <==> written is Ok,
        written matches Ok(new) ==> {
            let j = outcome_model(o)->Ok_0;
            &&& has_member(j, "ok"@, JsonModel::Bool(true))
            &&& has_member(j, "task_id"@, JsonModel::Text(task_id@))
            &&& has_member(j, "phase"@, JsonModel::Text(phase.text()))
            &&& has_member(j, "newly_recorded"@, JsonModel::Bool(new))
        },
        written matches Err(LedgerError::InvalidId(m)) ==> outcome_model(o)->Err_0
            == RefusalModel::InvalidParams(m@),
        written matches Err(LedgerError::NoteTooLong(m)) ==> outcome_model(o)->Err_0
            == RefusalModel::InvalidParams(m@),
        written matches Err(LedgerError::Storage(m)) ==> outcome_model(o)->Err_0
            == RefusalModel::Other(m@),
        written matches Err(LedgerError::MalformedEntry(m)) ==> outcome_model(o)->Err_0
            == RefusalModel::Other(m@),
{
    if written is Ok {
        let m = outcome_model(o)->Ok_0->Object_0;
        assert(m[0].0 == "ok"@ && m[1].0 == "task_id"@ && m[2].0 == "phase"@ && m[3].0
            == "newly_recorded"@);
    }
}

/// A ledger is shown whole: every entry in its order, and the phase of each.
pub proof fn law_a_ledger_is_shown_whole(task_id: &str, entries: Vec<LedgerEntry>, o: Outcome)
    requires
        call_ensures(task_get_ledger, (task_id, Ok(entries)), o),
    ensures
        outcome_model(o) is Ok,
        has_member(outcome_model(o)->Ok_0, "task_id"@, JsonModel::Text(task_id@)),
        exists|phases: Seq<JsonModel>, rows: Seq<JsonModel>|
            {
                &&& #[trigger] has_member(
                    outcome_model(o)->Ok_0,
                    "phases_logged"@,
                    JsonModel::Array(phases),
                )
                &&& #[trigger] has_member(
                    outcome_model(o)->Ok_0,
                    "entries"@,
                    JsonModel::Array(rows),
                )
                &&& phases.len() == entries@.len()
                &&& rows.len() == entries@.len()
                &&& forall|i: int|
                    #![trigger entries@[i]]
                    0 <= i < entries@.len() ==> {
                        let e = entries@[i];
                        &&& phases[i] == JsonModel::Text(e.phase.text())
                        &&& has_member(rows[i], "phase"@, JsonModel::Text(e.phase.text()))
                        &&& has_member(rows[i], "logged_at"@, JsonModel::Text(e.logged_at@))
                        &&& e.note matches Some(s) ==> has_member(
                            rows[i],
                            "note"@,
                            JsonModel::Text(s@),
                        )
                        &&& e.note is None ==> has_member(rows[i], "note"@, JsonModel::Null)
                    }
            },
{
    let v = entries@;
    let names = v.map_values(|e: LedgerEntry| e.phase.text());
    let phases = names.map_values(|s: Seq<char>| JsonModel::Text(s));
    let rows = v.map_values(|e: LedgerEntry| entry_value(e));
    let j = outcome_model(o)->Ok_0;
    let m = j->Object_0;
    assert(m[0] == ("task_id"@, JsonModel::Text(task_id@)));
    assert(m[1] == ("phases_logged"@, JsonModel::Array(phases)));
    assert(m[2] == ("entries"@, JsonModel::Array(rows)));
    assert forall|i: int| #![trigger entries@[i]] 0 <= i < entries@.len() implies {
        let e = entries@[i];
        &&& phases[i] == JsonModel::Text(e.phase.text())
        &&& has_member(rows[i], "phase"@, JsonModel::Text(e.phase.text()))
        &&& has_member(rows[i], "logged_at"@, JsonModel::Text(e.logged_at@))
        &&& e.note matches Some(s) ==> has_member(rows[i], "note"@, JsonModel::Text(s@))
        &&& e.note is None ==> has_member(rows[i], "note"@, JsonModel::Null)
    } by {
        let e = entries@[i];
        let row = entry_value(e)->Object_0;
        assert(row[0].0 == "phase"@ && row[1].0 == "logged_at"@ && row[2].0 == "note"@);
    }
    assert(has_member(j, "phases_logged"@, JsonModel::Array(phases)));
    assert(has_member(j, "entries"@, JsonModel::Array(rows)));
}

/// The words for the phases of a task.
pub proof fn law_words_for_phases(x: Phase, s: &'static str)
    requires
        call_ensures(Phase::as_str, (x,), s),
    ensures
        x is PreResearch ==> s@ == "pre_research"@,
        x is Learn ==> s@ == "learn"@,
        x is Code ==> s@ == "code"@,
        x is Test ==> s@ == "test"@,
        x is Audit ==> s@ == "audit"@,
        x is PostResearch ==> s@ == "post_research"@,
        x is Fix ==> s@ == "fix"@,
{
}

} // verus!
