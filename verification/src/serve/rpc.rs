//! Requests, answers and the error codes of the endpoint.

use vstd::prelude::*;

use super::json::{
    Fields, Json, JsonModel, boolean, has_member, no_members, number, owned, strings, text,
    text_array,
};
use crate::text::{
    concat2, has_prefix, has_suffix, law_a_part_occurs_in_the_whole, same_text, texts,
};

verus! {

/// A request.
#[derive(Debug, Clone, PartialEq, Eq)]
pub struct Request {
    pub jsonrpc: String,
    /// The id as JSON text, to be given back.
    pub id: Option<String>,
    pub method: String,
    /// The parameters as JSON text.
    pub params: String,
}

/// The error in an answer.
#[derive(Debug, PartialEq, Eq)]
pub struct RpcError {
    pub code: i32,
    pub message: String,
    pub data: Option<Json>,
}

/// An answer.
#[derive(Debug, PartialEq, Eq)]
pub struct Response {
    pub jsonrpc: &'static str,
    pub id: Option<String>,
    pub result: Option<Json>,
    pub error: Option<RpcError>,
}

/// The model of an answer: a result, or a code, a message and data.
pub enum AnswerModel {
    Result(JsonModel),
    Error { code: int, message: Seq<char>, data: Option<JsonModel> },
}

impl Response {
    /// Whether this is the answer `a` to the request with the given id: the protocol version, the
    /// id as it came, and either a result or an error.
    pub open spec fn answers(self, id: Option<String>, a: AnswerModel) -> bool {
        &&& self.jsonrpc@ == "2.0"@
        &&& self.id == id
        &&& match a {
            AnswerModel::Result(r) => {
                &&& self.error is None
                &&& self.result is Some
                &&& self.result->0.model() == r
            },
            AnswerModel::Error { code, message, data } => {
                &&& self.result is None
                &&& self.error is Some
                &&& self.error->0.code == code
                &&& self.error->0.message@ == message
                &&& match data {
                    Some(d) => self.error->0.data is Some && self.error->0.data->0.model() == d,
                    None => self.error->0.data is None,
                }
            },
        }
    }
}

/// An answer with a result.
pub fn ok(id: Option<String>, result: Json) -> (r: Response)
    ensures
        r.answers(id, AnswerModel::Result(result.model())),
{
    Response { jsonrpc: "2.0", id, result: Some(result), error: None }
}

/// An answer with an error.
pub fn err(id: Option<String>, code: i32, message: String) -> (r: Response)
    ensures
        r.answers(
            id,
            AnswerModel::Error { code: code as int, message: message@, data: None },
        ),
{
    Response {
        jsonrpc: "2.0",
        id,
        result: None,
        error: Some(RpcError { code, message, data: None }),
    }
}

/// An answer with an error and data about it.
pub fn err_with_data(id: Option<String>, code: i32, message: String, data: Json) -> (r: Response)
    ensures
        r.answers(
            id,
            AnswerModel::Error {
                code: code as int,
                message: message@,
                data: Some(data.model()),
            },
        ),
{
    Response {
        jsonrpc: "2.0",
        id,
        result: None,
        error: Some(RpcError { code, message, data: Some(data) }),
    }
}

/// Why a request was not served.
#[derive(Debug, Clone, PartialEq, Eq)]
pub enum DispatchError {
    MethodNotFound,
    InvalidParams(String),
    NotFound(String),
    PromotionBlocked(Vec<String>),
    UserLessonImmune(String),
    UserMemoryImmune { id: String, cited_by: u32 },
    SupersedeBlocked(String),
    Other(String),
}

/// The model of a refusal.
pub enum RefusalModel {
    MethodNotFound,
    InvalidParams(Seq<char>),
    NotFound(Seq<char>),
    PromotionBlocked(Seq<Seq<char>>),
    UserLessonImmune(Seq<char>),
    UserMemoryImmune { id: Seq<char>, cited_by: u32 },
    SupersedeBlocked(Seq<char>),
    Other(Seq<char>),
}

impl View for DispatchError {
    type V = RefusalModel;

    open spec fn view(&self) -> RefusalModel {
        match *self {
            DispatchError::MethodNotFound => RefusalModel::MethodNotFound,
            DispatchError::InvalidParams(m) => RefusalModel::InvalidParams(m@),
            DispatchError::NotFound(id) => RefusalModel::NotFound(id@),
            DispatchError::PromotionBlocked(reasons) => RefusalModel::PromotionBlocked(
                texts(reasons@),
            ),
            DispatchError::UserLessonImmune(id) => RefusalModel::UserLessonImmune(id@),
            DispatchError::UserMemoryImmune { id, cited_by } => RefusalModel::UserMemoryImmune {
                id: id@,
                cited_by,
            },
            DispatchError::SupersedeBlocked(reason) => RefusalModel::SupersedeBlocked(reason@),
            DispatchError::Other(m) => RefusalModel::Other(m@),
        }
    }
}

/// The refusal of parameters.
pub open spec fn invalid(message: Seq<char>) -> OutcomeModel {
    Err(RefusalModel::InvalidParams(message))
}

/// The refusal after something failed with a message.
pub open spec fn failed(what: Seq<char>, message: Seq<char>) -> RefusalModel {
    RefusalModel::Other(what + " failed: "@ + message)
}

/// Refuses parameters.
pub fn refuse(message: &str) -> (e: DispatchError)
    ensures
        e@ == RefusalModel::InvalidParams(message@),
{
    DispatchError::InvalidParams(message.to_owned())
}

/// Refuses because something failed with a message.
pub fn failure(what: &str, message: &str) -> (e: DispatchError)
    ensures
        e@ == failed(what@, message@),
{
    let mut m = concat2(what, " failed: ");
    m.append(message);
    DispatchError::Other(m)
}

/// What a handler yields.
pub type Outcome = Result<Json, DispatchError>;

/// The model of what a handler yields.
pub type OutcomeModel = Result<JsonModel, RefusalModel>;

/// The model of an outcome.
pub open spec fn outcome_model(o: Outcome) -> OutcomeModel {
    match o {
        Ok(j) => Ok(j.model()),
        Err(e) => Err(e@),
    }
}

/// The answer to a refused request.
pub open spec fn refusal(method: Seq<char>, e: RefusalModel) -> AnswerModel {
    match e {
        RefusalModel::MethodNotFound => AnswerModel::Error {
            code: -32601,
            message: "method not found: "@ + method,
            data: None,
        },
        RefusalModel::InvalidParams(m) => AnswerModel::Error {
            code: -32602,
            message: "invalid params: "@ + m,
            data: None,
        },
        RefusalModel::PromotionBlocked(reasons) => AnswerModel::Error {
            code: -32000,
            message: "promotion blocked"@,
            data: Some(JsonModel::Object(no_members().push(("reasons"@, text_array(reasons))))),
        },
        RefusalModel::UserLessonImmune(id) => AnswerModel::Error {
            code: -32001,
            message: "user-authored lesson is eviction-immune"@,
            data: Some(JsonModel::Object(no_members().push(("lesson_id"@, JsonModel::Text(id))))),
        },
        RefusalModel::NotFound(id) => AnswerModel::Error {
            code: -32002,
            message: "not found"@,
            data: Some(JsonModel::Object(no_members().push(("id"@, JsonModel::Text(id))))),
        },
        RefusalModel::UserMemoryImmune { id, cited_by } => AnswerModel::Error {
            code: -32003,
            message: "user-cited memory is eviction-immune"@,
            data: Some(
                JsonModel::Object(
                    no_members().push(("memory_id"@, JsonModel::Text(id))).push(
                        ("cited_by"@, JsonModel::Number(cited_by as u64)),
                    ),
                ),
            ),
        },
        RefusalModel::SupersedeBlocked(reason) => AnswerModel::Error {
            code: -32004,
            message: "supersede blocked"@,
            data: Some(JsonModel::Object(no_members().push(("reason"@, JsonModel::Text(reason))))),
        },
        RefusalModel::Other(m) => AnswerModel::Error {
            code: -32603,
            message: "internal: "@ + m,
            data: None,
        },
    }
}

/// The answer to what a handler yields.
pub open spec fn answer_to(method: Seq<char>, o: OutcomeModel) -> AnswerModel {
    match o {
        Ok(j) => AnswerModel::Result(j),
        Err(e) => refusal(method, e),
    }
}

fn single_field(key: &str, value: Json) -> (j: Json)
    ensures
        j.model() == JsonModel::Object(no_members().push((key@, value.model()))),
{
    let mut f = Fields::new();
    f.put(key, value);
    f.done()
}

/// The answer to a request that was handled.
pub fn respond(id: Option<String>, method: &str, outcome: Outcome) -> (r: Response)
    ensures
        r.answers(id, answer_to(method@, outcome_model(outcome))),
{
    let refused = match outcome {
        Ok(value) => {
            return ok(id, value);
        },
        Err(e) => e,
    };
    match refused {
        DispatchError::MethodNotFound => err(id, -32601, concat2("method not found: ", method)),
        DispatchError::InvalidParams(m) => err(
            id,
            -32602,
            concat2("invalid params: ", m.as_str()),
        ),
        DispatchError::PromotionBlocked(reasons) => err_with_data(
            id,
            -32000,
            "promotion blocked".to_owned(),
            single_field("reasons", strings(&reasons)),
        ),
        DispatchError::UserLessonImmune(lesson) => err_with_data(
            id,
            -32001,
            "user-authored lesson is eviction-immune".to_owned(),
            single_field("lesson_id", owned(lesson)),
        ),
        DispatchError::NotFound(what) => err_with_data(
            id,
            -32002,
            "not found".to_owned(),
            single_field("id", owned(what)),
        ),
        DispatchError::UserMemoryImmune { id: memory, cited_by } => {
            let mut f = Fields::new();
            f.put("memory_id", owned(memory));
            f.put("cited_by", number(cited_by as u64));
            err_with_data(
                id,
                -32003,
                "user-cited memory is eviction-immune".to_owned(),
                f.done(),
            )
        },
        DispatchError::SupersedeBlocked(reason) => err_with_data(
            id,
            -32004,
            "supersede blocked".to_owned(),
            single_field("reason", owned(reason)),
        ),
        DispatchError::Other(m) => err(id, -32603, concat2("internal: ", m.as_str())),
    }
}

/// Looks at a line that was read as a request, or at why it could not be: a request to serve, or
/// the answer right away.
pub fn accept(parsed: Result<Request, String>) -> (r: Result<Request, Response>)
    ensures
        match parsed {
            Err(e) => r is Err && r->Err_0.answers(
                None,
                AnswerModel::Error { code: -32700, message: "parse error: "@ + e@, data: None },
            ),
            Ok(request) => if request.jsonrpc@ == "2.0"@ {
                r == Ok::<Request, Response>(request)
            } else {
                r is Err && r->Err_0.answers(
                    request.id,
                    AnswerModel::Error {
                        code: -32600,
                        message: "jsonrpc must be \"2.0\""@,
                        data: None,
                    },
                )
            },
        },
{
    match parsed {
        Err(e) => Err(err(None, -32700, concat2("parse error: ", e.as_str()))),
        Ok(request) => {
            if same_text(request.jsonrpc.as_str(), "2.0") {
                Ok(request)
            } else {
                Err(err(request.id, -32600, "jsonrpc must be \"2.0\"".to_owned()))
            }
        },
    }
}

/// The methods of the endpoint.
#[derive(Debug, Clone, Copy, PartialEq, Eq, Structural)]
pub enum Method {
    Ping,
    LessonCreate,
    LessonRecall,
    LessonPromote,
    LessonDiscard,
    LessonList,
    LessonCaptureFeedback,
    LessonSupersede,
    MemoryCreate,
    MemorySearch,
    MemoryGet,
    MemoryList,
    ManifestAssemble,
    MemoryUpdate,
    MemoryDelete,
    MemoryCompress,
    MemoryConsolidate,
    MemoryRecomputeCitations,
    TaskLogPhase,
    TaskGetLedger,
}

impl Method {
    pub open spec fn text(self) -> Seq<char> {
        match self {
            Method::Ping => "ping"@,
            Method::LessonCreate => "lesson.create"@,
            Method::LessonRecall => "lesson.recall"@,
            Method::LessonPromote => "lesson.promote"@,
            Method::LessonDiscard => "lesson.discard"@,
            Method::LessonList => "lesson.list"@,
            Method::LessonCaptureFeedback => "lesson.capture_feedback"@,
            Method::LessonSupersede => "lesson.supersede"@,
            Method::MemoryCreate => "memory.create"@,
            Method::MemorySearch => "memory.search"@,
            Method::MemoryGet => "memory.get"@,
            Method::MemoryList => "memory.list"@,
            Method::ManifestAssemble => "manifest.assemble"@,
            Method::MemoryUpdate => "memory.update"@,
            Method::MemoryDelete => "memory.delete"@,
            Method::MemoryCompress => "memory.compress"@,
            Method::MemoryConsolidate => "memory.consolidate"@,
            Method::MemoryRecomputeCitations => "memory.recompute_citations"@,
            Method::TaskLogPhase => "task.log_phase"@,
            Method::TaskGetLedger => "task.get_ledger"@,
        }
    }
}

/// The method of a name.
pub fn dispatch(method: &str) -> (r: Result<Method, DispatchError>)
    ensures
        match r {
            Ok(m) => method@ == m.text(),
            Err(e) => e == DispatchError::MethodNotFound && forall|m: Method|
                method@ != #[trigger] m.text(),
        },
{
    if same_text(method, "ping") {
        Ok(Method::Ping)
    } else if same_text(method, "lesson.create") {
        Ok(Method::LessonCreate)
    } else if same_text(method, "lesson.recall") {
        Ok(Method::LessonRecall)
    } else if same_text(method, "lesson.promote") {
        Ok(Method::LessonPromote)
    } else if same_text(method, "lesson.discard") {
        Ok(Method::LessonDiscard)
    } else if same_text(method, "lesson.list") {
        Ok(Method::LessonList)
    } else if same_text(method, "lesson.capture_feedback") {
        Ok(Method::LessonCaptureFeedback)
    } else if same_text(method, "lesson.supersede") {
        Ok(Method::LessonSupersede)
    } else if same_text(method, "memory.create") {
        Ok(Method::MemoryCreate)
    } else if same_text(method, "memory.search") {
        Ok(Method::MemorySearch)
    } else if same_text(method, "memory.get") {
        Ok(Method::MemoryGet)
    } else if same_text(method, "memory.list") {
        Ok(Method::MemoryList)
    } else if same_text(method, "manifest.assemble") {
        Ok(Method::ManifestAssemble)
    } else if same_text(method, "memory.update") {
        Ok(Method::MemoryUpdate)
    } else if same_text(method, "memory.delete") {
        Ok(Method::MemoryDelete)
    } else if same_text(method, "memory.compress") {
        Ok(Method::MemoryCompress)
    } else if same_text(method, "memory.consolidate") {
        Ok(Method::MemoryConsolidate)
    } else if same_text(method, "memory.recompute_citations") {
        Ok(Method::MemoryRecomputeCitations)
    } else if same_text(method, "task.log_phase") {
        Ok(Method::TaskLogPhase)
    } else if same_text(method, "task.get_ledger") {
        Ok(Method::TaskGetLedger)
    } else {
        Err(DispatchError::MethodNotFound)
    }
}

/// The answer to a health check.
pub fn ping(version: &str) -> (j: Json)
    ensures
        j.model() == JsonModel::Object(
            no_members().push(("ok"@, JsonModel::Bool(true))).push(
                ("version"@, JsonModel::Text(version@)),
            ),
        ),
{
    let mut f = Fields::new();
    f.put("ok", boolean(true));
    f.put("version", text(version));
    f.done()
}

// ---- Laws --------------------------------------------------------------------

/// Every refusal has a code of its own.
pub proof fn law_codes_tell_refusals_apart(m: Seq<char>, a: RefusalModel, b: RefusalModel)
    requires
        refusal(m, a)->Error_code == refusal(m, b)->Error_code,
    ensures
        a is MethodNotFound <==> b is MethodNotFound,
        a is InvalidParams <==> b is InvalidParams,
        a is NotFound <==> b is NotFound,
        a is PromotionBlocked <==> b is PromotionBlocked,
        a is UserLessonImmune <==> b is UserLessonImmune,
        a is UserMemoryImmune <==> b is UserMemoryImmune,
        a is SupersedeBlocked <==> b is SupersedeBlocked,
        a is Other <==> b is Other,
{
}

/// A request is answered with a result exactly when its handler yields one.
pub proof fn law_results_and_errors_exclude_each_other(m: Seq<char>, o: OutcomeModel)
    ensures
        answer_to(m, o) is Result <==> o is Ok,
        answer_to(m, o) is Error <==> o is Err,
{
}

/// An answer carries the id of its request and either the result or an error; what kind of refusal
/// it is stands in the code, and what it is about in the data.
pub proof fn law_an_answer_tells_its_refusal(
    id: Option<String>,
    method: &str,
    outcome: Outcome,
    r: Response,
)
    requires
        call_ensures(respond, (id, method, outcome), r),
    ensures
        r.jsonrpc@ == "2.0"@,
        r.id == id,
        outcome matches Ok(j) ==> r.error is None && r.result is Some && r.result->0.model()
            == j.model(),
        outcome matches Err(e) ==> {
            let error = r.error->0;
            &&& r.result is None
            &&& r.error is Some
            &&& e is MethodNotFound <==> error.code == -32601
            &&& e is InvalidParams <==> error.code == -32602
            &&& e is PromotionBlocked <==> error.code == -32000
            &&& e is UserLessonImmune <==> error.code == -32001
            &&& e is NotFound <==> error.code == -32002
            &&& e is UserMemoryImmune <==> error.code == -32003
            &&& e is SupersedeBlocked <==> error.code == -32004
            &&& e is Other <==> error.code == -32603
            &&& e is MethodNotFound ==> has_suffix(error.message@, method@)
            &&& e matches DispatchError::InvalidParams(m) ==> has_suffix(error.message@, m@)
            &&& e matches DispatchError::Other(m) ==> has_suffix(error.message@, m@)
            &&& e matches DispatchError::PromotionBlocked(reasons) ==> has_member(
                error.data->0.model(),
                "reasons"@,
                text_array(texts(reasons@)),
            )
            &&& e matches DispatchError::UserLessonImmune(lesson) ==> has_member(
                error.data->0.model(),
                "lesson_id"@,
                JsonModel::Text(lesson@),
            )
            &&& e matches DispatchError::NotFound(missing) ==> has_member(
                error.data->0.model(),
                "id"@,
                JsonModel::Text(missing@),
            )
            &&& e matches DispatchError::UserMemoryImmune { id: memory, cited_by } ==> has_member(
                error.data->0.model(),
                "memory_id"@,
                JsonModel::Text(memory@),
            ) && has_member(
                error.data->0.model(),
                "cited_by"@,
                JsonModel::Number(cited_by as u64),
            )
            &&& e matches DispatchError::SupersedeBlocked(reason) ==> has_member(
                error.data->0.model(),
                "reason"@,
                JsonModel::Text(reason@),
            )
            &&& error.data is Some <==> !(e is MethodNotFound || e is InvalidParams || e is Other)
        },
{
    if let Err(e) = outcome {
        match e {
            DispatchError::MethodNotFound => {
                law_a_part_occurs_in_the_whole(
                    "method not found: "@,
                    method@,
                    Seq::empty(),
                    method@,
                );
            },
            DispatchError::InvalidParams(m) => {
                law_a_part_occurs_in_the_whole("invalid params: "@, m@, Seq::empty(), m@);
            },
            DispatchError::Other(m) => {
                law_a_part_occurs_in_the_whole("internal: "@, m@, Seq::empty(), m@);
            },
            DispatchError::UserMemoryImmune { id: memory, cited_by } => {
                let m = r.error->0.data->0.model()->Object_0;
                assert(m[0].0 == "memory_id"@ && m[1].0 == "cited_by"@);
            },
            _ => {
                let m = r.error->0.data->0.model()->Object_0;
                assert(m[0].0 == m[0].0);
            },
        }
    }
}

/// Only requests of version 2.0 are taken, as they are; all others are answered, under their own id
/// where they have one.
pub proof fn law_only_version_two_is_taken(
    parsed: Result<Request, String>,
    r: Result<Request, Response>,
)
    requires
        call_ensures(accept, (parsed,), r),
    ensures
        r is Ok <==> parsed is Ok && parsed->Ok_0.jsonrpc@ == "2.0"@,
        r is Ok ==> r->Ok_0 == parsed->Ok_0,
        r is Err ==> r->Err_0.result is None && r->Err_0.error is Some,
        parsed is Err ==> r->Err_0.id is None && r->Err_0.error->0.code == -32700,
        r is Err && parsed is Ok ==> r->Err_0.id == parsed->Ok_0.id && r->Err_0.error->0.code
            == -32600,
{
}

/// Every failure says what failed and why.
pub proof fn law_failures_say_what_failed(what: &str, message: &str, e: DispatchError)
    requires
        call_ensures(failure, (what, message), e),
    ensures
        e is Other,
        has_prefix(e@->Other_0, what@),
        has_suffix(e@->Other_0, message@),
{
    let m = e@->Other_0;
    assert(m =~= what@ + (" failed: "@ + message@));
    law_a_part_occurs_in_the_whole(Seq::empty(), what@, " failed: "@ + message@, m);
    law_a_part_occurs_in_the_whole(what@ + " failed: "@, message@, Seq::empty(), m);
}

/// No two methods have the same name.
pub proof fn law_method_names_are_distinct(a: Method, b: Method)
    requires
        a.text() == b.text(),
    ensures
        a == b,
{
    reveal_strlit("ping");
    reveal_strlit("lesson.create");
    reveal_strlit("lesson.recall");
    reveal_strlit("lesson.promote");
    reveal_strlit("lesson.discard");
    reveal_strlit("lesson.list");
    reveal_strlit("lesson.capture_feedback");
    reveal_strlit("lesson.supersede");
    reveal_strlit("memory.create");
    reveal_strlit("memory.search");
    reveal_strlit("memory.get");
    reveal_strlit("memory.list");
    reveal_strlit("manifest.assemble");
    reveal_strlit("memory.update");
    reveal_strlit("memory.delete");
    reveal_strlit("memory.compress");
    reveal_strlit("memory.consolidate");
    reveal_strlit("memory.recompute_citations");
    reveal_strlit("task.log_phase");
    reveal_strlit("task.get_ledger");
    assert("ping"@.len() == 4);
    assert("lesson.create"@.len() == 13);
    assert("lesson.create"@[0] == 'l');
    assert("lesson.create"@[7] == 'c');
    assert("lesson.recall"@.len() == 13);
    assert("lesson.recall"@[0] == 'l');
    assert("lesson.recall"@[7] == 'r');
    assert("lesson.promote"@.len() == 14);
    assert("lesson.promote"@[0] == 'l');
    assert("lesson.promote"@[7] == 'p');
    assert("lesson.discard"@.len() == 14);
    assert("lesson.discard"@[0] == 'l');
    assert("lesson.discard"@[7] == 'd');
    assert("lesson.list"@.len() == 11);
    assert("lesson.list"@[0] == 'l');
    assert("lesson.list"@[7] == 'l');
    assert("lesson.capture_feedback"@.len() == 23);
    assert("lesson.capture_feedback"@[0] == 'l');
    assert("lesson.capture_feedback"@[7] == 'c');
    assert("lesson.supersede"@.len() == 16);
    assert("lesson.supersede"@[0] == 'l');
    assert("lesson.supersede"@[7] == 's');
    assert("memory.create"@.len() == 13);
    assert("memory.create"@[0] == 'm');
    assert("memory.create"@[7] == 'c');
    assert("memory.search"@.len() == 13);
    assert("memory.search"@[0] == 'm');
    assert("memory.search"@[7] == 's');
    assert("memory.get"@.len() == 10);
    assert("memory.get"@[0] == 'm');
    assert("memory.get"@[7] == 'g');
    assert("memory.list"@.len() == 11);
    assert("memory.list"@[0] == 'm');
    assert("memory.list"@[7] == 'l');
    assert("manifest.assemble"@.len() == 17);
    assert("manifest.assemble"@[0] == 'm');
    assert("manifest.assemble"@[7] == 't');
    assert("memory.update"@.len() == 13);
    assert("memory.update"@[0] == 'm');
    assert("memory.update"@[7] == 'u');
    assert("memory.delete"@.len() == 13);
    assert("memory.delete"@[0] == 'm');
    assert("memory.delete"@[7] == 'd');
    assert("memory.compress"@.len() == 15);
    assert("memory.compress"@[0] == 'm');
    assert("memory.compress"@[7] == 'c');
    assert("memory.consolidate"@.len() == 18);
    assert("memory.consolidate"@[0] == 'm');
    assert("memory.consolidate"@[7] == 'c');
    assert("memory.recompute_citations"@.len() == 26);
    assert("memory.recompute_citations"@[0] == 'm');
    assert("memory.recompute_citations"@[7] == 'r');
    assert("task.log_phase"@.len() == 14);
    assert("task.log_phase"@[0] == 't');
    assert("task.log_phase"@[7] == 'g');
    assert("task.get_ledger"@.len() == 15);
    assert("task.get_ledger"@[0] == 't');
    assert("task.get_ledger"@[7] == 't');
    assert(a.text().len() == b.text().len());
    assert(a.text()[0] == b.text()[0]);
    assert(a.text()[7] == b.text()[7]);
}

/// A ping tells that the server is there, and its version.
pub proof fn law_a_ping_tells_the_version(version: &str, j: Json)
    requires
        call_ensures(ping, (version,), j),
    ensures
        has_member(j.model(), "ok"@, JsonModel::Bool(true)),
        has_member(j.model(), "version"@, JsonModel::Text(version@)),
{
    let m = j.model()->Object_0;
    assert(m[0].0 == "ok"@ && m[1].0 == "version"@);
}

} // verus!
