//! What the runtime answers to a request.
use crate::json::{bool_member, parse_or_empty, parsed_or_empty, text_member, Json, JsonView};
use crate::reasons::{
    decoded, failure_message, failure_text, failure_text_is_read_back, normalize_reason_code,
    normalized, RC_IDEMPOTENCY_REPLAY, RC_ORCH_DEPENDENCY_UNAVAILABLE,
};
use crate::records::{OperationView, RuntimeOperation};
use crate::text::{opt_text, same_text};
use vstd::prelude::*;

verus! {

/// The text, or `otherwise` where there is none.
pub open spec fn text_or(text: Option<Seq<char>>, otherwise: Seq<char>) -> Seq<char> {
    match text {
        Some(text) => text,
        None => otherwise,
    }
}

/// What an outcome holds: the operation, or the message of the failure.
pub open spec fn outcome_view(outcome: Result<RuntimeOperation, String>) -> Result<
    OperationView,
    Seq<char>,
> {
    match outcome {
        Ok(op) => Ok(op@),
        Err(message) => Err(message@),
    }
}

/// The operation that a document reports. Without a status it is accepted.
pub open spec fn reported(document: JsonView) -> OperationView {
    OperationView {
        operation_id: text_or(text_member(document, "operation_id"@), Seq::empty()),
        operation_type: text_member(document, "operation_type"@),
        status: text_or(text_member(document, "status"@), "accepted"@),
        reason_code: text_member(document, "reason_code"@),
        reason_message: text_member(document, "reason_message"@),
    }
}

/// The request was sent before, and the operation it started is named.
pub open spec fn is_replay(op: OperationView) -> bool {
    op.reason_code == Some(RC_IDEMPOTENCY_REPLAY@) && op.operation_id.len() > 0
}

/// What an answer says: with the status of a server error that the runtime is
/// unavailable, with that of a client error the reason, unless the request is
/// a replay, and otherwise the operation.
pub open spec fn answer(status: u16, body: Seq<char>, document: JsonView) -> Result<
    OperationView,
    Seq<char>,
> {
    let op = reported(document);
    if 500 <= status <= 599 {
        Err(failure_text(RC_ORCH_DEPENDENCY_UNAVAILABLE@, Some(true), body))
    } else if 400 <= status <= 499 && !is_replay(op) {
        Err(
            failure_text(
                normalized(op.reason_code),
                bool_member(document, "retryable"@),
                text_or(op.reason_message, "client_error"@),
            ),
        )
    } else {
        Ok(op)
    }
}

fn text_default(text: Option<String>, otherwise: &str) -> (result: String)
    ensures
        result@ == text_or(opt_text(text), otherwise@),
{
    match text {
        Some(text) => text,
        None => otherwise.to_owned(),
    }
}

/// What an answer says, whose body is `body` and holds `document`.
pub fn read_runtime_reply(status: u16, body: &str, document: &Json) -> (outcome: Result<
    RuntimeOperation,
    String,
>)
    ensures
        outcome_view(outcome) == answer(status, body@, document@),
{
    if 500 <= status && status <= 599 {
        return Err(failure_message(RC_ORCH_DEPENDENCY_UNAVAILABLE, Some(true), body));
    }
    let op = RuntimeOperation {
        operation_id: text_default(document.get_text("operation_id"), ""),
        operation_type: document.get_text("operation_type"),
        status: text_default(document.get_text("status"), "accepted"),
        reason_code: document.get_text("reason_code"),
        reason_message: document.get_text("reason_message"),
    };
    proof {
        reveal_strlit("");
        assert(""@ =~= Seq::empty());
    }
    if 400 <= status && status <= 499 {
        let replayed: bool = match &op.reason_code {
            Some(code) => same_text(code.as_str(), RC_IDEMPOTENCY_REPLAY),
            None => false,
        };
        if replayed && op.operation_id.as_str().unicode_len() > 0 {
            return Ok(op);
        }
        let code: String = match &op.reason_code {
            Some(code) => normalize_reason_code(Some(code.as_str())),
            None => normalize_reason_code(None),
        };
        let detail: String = match &op.reason_message {
            Some(message) => message.clone(),
            None => "client_error".to_owned(),
        };
        let hint: Option<bool> = document.get_bool("retryable");
        return Err(failure_message(code.as_str(), hint, detail.as_str()));
    }
    Ok(op)
}

/// What an answer with the status and the body says. A body that is no
/// document counts as the empty one.
pub fn parse_runtime_response(status: u16, body: String) -> (outcome: Result<
    RuntimeOperation,
    String,
>)
    ensures
        outcome_view(outcome) == answer(status, body@, parsed_or_empty(body@)),
{
    let document: Json = parse_or_empty(body.as_str());
    read_runtime_reply(status, body.as_str(), &document)
}

/// A replay counts as success whatever client error it comes with: the
/// operation that was started before is the outcome.
pub proof fn replay_is_success(status: u16, body: Seq<char>, document: JsonView)
    requires
        400 <= status <= 499,
        text_member(document, "reason_code"@) == Some(RC_IDEMPOTENCY_REPLAY@),
        text_member(document, "operation_id"@) matches Some(id) && id.len() > 0,
    ensures
        answer(status, body, document) == Ok::<OperationView, Seq<char>>(reported(document)),
        reported(document).operation_id == text_member(document, "operation_id"@)->0,
{
}

/// A server error is told apart from every other failure by its message: the
/// runtime is unavailable, the request may be tried again, and the detail is
/// the body.
pub proof fn server_error_is_read_back(status: u16, body: Seq<char>, document: JsonView)
    requires
        500 <= status <= 599,
    ensures
        answer(status, body, document) matches Err(message) && decoded(message) == (
            RC_ORCH_DEPENDENCY_UNAVAILABLE@,
            Some(true),
            body,
        ),
{
    reveal_strlit("ORCH_DEPENDENCY_UNAVAILABLE");
    failure_text_is_read_back(RC_ORCH_DEPENDENCY_UNAVAILABLE@, Some(true), body);
}

/// A refusal is read back from its message: the code that the runtime gave or
/// the general one, the hint it gave, and its own words or `client_error`. The
/// code that it gave holds no bar.
pub proof fn refusal_is_read_back(status: u16, body: Seq<char>, document: JsonView)
    requires
        400 <= status <= 499,
        !is_replay(reported(document)),
        text_member(document, "reason_code"@) matches Some(code) ==> forall|i: int|
            0 <= i < code.len() ==> code[i] != '|',
    ensures
        answer(status, body, document) matches Err(message) && decoded(message) == (
            normalized(text_member(document, "reason_code"@)),
            bool_member(document, "retryable"@),
            text_or(text_member(document, "reason_message"@), "client_error"@),
        ),
{
    reveal_strlit("ELASTICITY_OPERATION_FAILED");
    failure_text_is_read_back(
        normalized(text_member(document, "reason_code"@)),
        bool_member(document, "retryable"@),
        text_or(text_member(document, "reason_message"@), "client_error"@),
    );
}

/// The text that an object holds under a name, if it holds one.
pub open spec fn said(members: Map<Seq<char>, JsonView>, name: Seq<char>) -> Option<Seq<char>> {
    if members.contains_key(name) && members[name] is Text {
        Some(members[name]->Text_0)
    } else {
        None
    }
}

/// What the runtime answers with an object: a server error is an unavailable
/// dependency that may be tried again; a client error is the reason that it
/// gives, with its hint and its words, unless it names an operation that the
/// same request started before; and every other answer is the operation that it
/// reports, accepted where it says no more.
pub proof fn answers_are_told_apart(
    status: u16,
    body: Seq<char>,
    members: Map<Seq<char>, JsonView>,
)
    ensures
        ({
            let answered = answer(status, body, JsonView::Object(members));
            let replayed = said(members, "reason_code"@) == Some(
                "ELASTICITY_IDEMPOTENCY_REPLAY"@,
            ) && said(members, "operation_id"@) is Some && said(members, "operation_id"@)->0.len()
                > 0;
            &&& answered is Err <==> 500 <= status <= 599 || (400 <= status <= 499 && !replayed)
            &&& answered matches Ok(op) ==> {
                &&& said(members, "operation_id"@) matches Some(id) ==> op.operation_id == id
                &&& said(members, "operation_id"@) is None ==> op.operation_id.len() == 0
                &&& op.operation_type == said(members, "operation_type"@)
                &&& said(members, "status"@) matches Some(word) ==> op.status == word
                &&& said(members, "status"@) is None ==> op.status == "accepted"@
                &&& op.reason_code == said(members, "reason_code"@)
                &&& op.reason_message == said(members, "reason_message"@)
            }
            &&& 500 <= status <= 599 ==> answered->Err_0 == "ORCH_DEPENDENCY_UNAVAILABLE"@
                + "|retryable="@ + "true"@ + "|"@ + body
            &&& 400 <= status <= 499 && !replayed ==> answered->Err_0 == (match said(
                members,
                "reason_code"@,
            ) {
                Some(code) => code,
                None => "ELASTICITY_OPERATION_FAILED"@,
            }) + "|retryable="@ + (if members.contains_key("retryable"@) && members["retryable"@]
                == JsonView::Bool(true) {
                "true"@
            } else if members.contains_key("retryable"@) && members["retryable"@]
                == JsonView::Bool(false) {
                "false"@
            } else {
                "unknown"@
            }) + "|"@ + (match said(members, "reason_message"@) {
                Some(words) => words,
                None => "client_error"@,
            })
        }),
{
    match bool_member(JsonView::Object(members), "retryable"@) {
        Some(hint) => {
            assert(members["retryable"@] == JsonView::Bool(hint));
        },
        None => {},
    }
}

/// An outcome is the operation or the message that it holds.
pub proof fn outcome_is_what_it_holds(op: RuntimeOperation, message: String)
    ensures
        outcome_view(Ok(op)) == Ok::<OperationView, Seq<char>>(op@),
        outcome_view(Err(message)) == Err::<OperationView, Seq<char>>(message@),
{
}

} // verus!
