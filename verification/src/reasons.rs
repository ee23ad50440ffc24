//! Status words and reason codes of the runtime, and the text in which a
//! failed request travels: the code, a hint on retrying, and the detail, with
//! bars between them.
use crate::text::{same_text, starts_with};
use vstd::prelude::*;

verus! {

pub const PLATFORM_TENANT_ID: &'static str = "platform";

pub const RUNTIME_SUCCESS: &'static str = "succeeded";

pub const RC_TARGET_NOT_FOUND: &'static str = "ELASTICITY_TARGET_NOT_FOUND";

pub const RC_INVALID_ARGUMENT: &'static str = "ELASTICITY_INVALID_ARGUMENT";

pub const RC_RESOURCE_PRESSURE: &'static str = "ELASTICITY_RESOURCE_PRESSURE";

pub const RC_OPERATION_FAILED: &'static str = "ELASTICITY_OPERATION_FAILED";

pub const RC_IDEMPOTENCY_REPLAY: &'static str = "ELASTICITY_IDEMPOTENCY_REPLAY";

pub const RC_ORCH_TTL_EXPIRED: &'static str = "ORCH_TTL_EXPIRED";

pub const RC_ORCH_ROLLBACK_TRIGGERED: &'static str = "ORCH_ROLLBACK_TRIGGERED";

pub const RC_ORCH_ACTION_UNSUPPORTED: &'static str = "ORCH_ACTION_UNSUPPORTED";

pub const RC_ORCH_DEPENDENCY_UNAVAILABLE: &'static str = "ORCH_DEPENDENCY_UNAVAILABLE";

// ---------------------------------------------------------------------------
// Status words
// ---------------------------------------------------------------------------

/// The operation is under way.
pub open spec fn non_terminal(status: Seq<char>) -> bool {
    status == "accepted"@ || status == "queued"@ || status == "running"@
}

/// The operation has succeeded.
pub open spec fn terminal_success(status: Seq<char>) -> bool {
    status == RUNTIME_SUCCESS@
}

/// The operation has ended without success.
pub open spec fn terminal_failure(status: Seq<char>) -> bool {
    status == "failed"@ || status == "cancelled"@ || status == "timed_out"@
}

/// Whether the operation is under way.
pub fn is_runtime_non_terminal(status: &str) -> (yes: bool)
    ensures
        yes == non_terminal(status@),
{
    same_text(status, "accepted") || same_text(status, "queued") || same_text(status, "running")
}

/// Whether the operation has succeeded.
pub fn is_runtime_terminal_success(status: &str) -> (yes: bool)
    ensures
        yes == terminal_success(status@),
{
    same_text(status, RUNTIME_SUCCESS)
}

/// Whether the operation has ended without success.
pub fn is_runtime_terminal_failure(status: &str) -> (yes: bool)
    ensures
        yes == terminal_failure(status@),
{
    same_text(status, "failed") || same_text(status, "cancelled") || same_text(status, "timed_out")
}

/// No status word is of two kinds.
pub proof fn status_kinds_exclude_each_other(status: Seq<char>)
    ensures
        !(non_terminal(status) && terminal_success(status)),
        !(non_terminal(status) && terminal_failure(status)),
        !(terminal_success(status) && terminal_failure(status)),
        "pending"@ != status || !(non_terminal(status) || terminal_success(status)
            || terminal_failure(status)),
{
    reveal_strlit("accepted");
    reveal_strlit("queued");
    reveal_strlit("running");
    reveal_strlit("succeeded");
    reveal_strlit("failed");
    reveal_strlit("cancelled");
    reveal_strlit("timed_out");
    reveal_strlit("pending");
    assert("running"@[0] == 'r');
    assert("pending"@[0] == 'p');
    assert("accepted"@[0] == 'a');
    assert("succeeded"@[0] == 's');
    assert("cancelled"@[0] == 'c');
    assert("timed_out"@[0] == 't');
    assert("queued"@[0] == 'q');
    assert("failed"@[0] == 'f');
}

// ---------------------------------------------------------------------------
// Reason codes
// ---------------------------------------------------------------------------

/// The code of a failure: the one that was given, or the general one.
pub open spec fn normalized(code: Option<Seq<char>>) -> Seq<char> {
    match code {
        Some(code) => code,
        None => RC_OPERATION_FAILED@,
    }
}

/// What an optional text holds.
pub open spec fn opt_str(text: Option<&str>) -> Option<Seq<char>> {
    match text {
        Some(text) => Some(text@),
        None => None,
    }
}

/// The code of a failure: the one that was given, or the general one.
pub fn normalize_reason_code(code: Option<&str>) -> (normal: String)
    ensures
        normal@ == normalized(opt_str(code)),
{
    match code {
        Some(code) => code.to_owned(),
        None => RC_OPERATION_FAILED.to_owned(),
    }
}

// ---------------------------------------------------------------------------
// Failure messages
// ---------------------------------------------------------------------------

/// The word for a hint on retrying.
pub open spec fn hint_word(hint: Option<bool>) -> Seq<char> {
    match hint {
        Some(true) => "true"@,
        Some(false) => "false"@,
        None => "unknown"@,
    }
}

/// The text in which a failed request travels.
pub open spec fn failure_text(code: Seq<char>, hint: Option<bool>, detail: Seq<char>) -> Seq<char> {
    code + "|retryable="@ + hint_word(hint) + "|"@ + detail
}

/// The text in which a failed request travels.
pub fn failure_message(code: &str, hint: Option<bool>, detail: &str) -> (message: String)
    ensures
        message@ == failure_text(code@, hint, detail@),
{
    let mut message = code.to_owned();
    message.append("|retryable=");
    match hint {
        Some(true) => message.append("true"),
        Some(false) => message.append("false"),
        None => message.append("unknown"),
    }
    message.append("|");
    message.append(detail);
    message
}

/// How many characters stand before the first bar; all of them where there is
/// no bar.
pub open spec fn before_bar(s: Seq<char>) -> int
    decreases s.len(),
{
    if s.len() == 0 || s[0] == '|' {
        0
    } else {
        1 + before_bar(s.drop_first())
    }
}

/// `s` without `prefix` at its start, however often it stands there.
pub open spec fn without_prefix(s: Seq<char>, prefix: Seq<char>) -> Seq<char>
    decreases s.len(),
{
    if prefix.len() > 0 && prefix.is_prefix_of(s) {
        without_prefix(s.skip(prefix.len() as int), prefix)
    } else {
        s
    }
}

/// The hint that a word gives.
pub open spec fn word_hint(word: Seq<char>) -> Option<bool> {
    if word == "true"@ {
        Some(true)
    } else if word == "false"@ {
        Some(false)
    } else {
        None
    }
}

/// The code that a message without a hint begins with, if it is a known one.
pub open spec fn leading_code(message: Seq<char>) -> Seq<char> {
    if RC_INVALID_ARGUMENT@.is_prefix_of(message) {
        RC_INVALID_ARGUMENT@
    } else if RC_TARGET_NOT_FOUND@.is_prefix_of(message) {
        RC_TARGET_NOT_FOUND@
    } else if RC_RESOURCE_PRESSURE@.is_prefix_of(message) {
        RC_RESOURCE_PRESSURE@
    } else if RC_OPERATION_FAILED@.is_prefix_of(message) {
        RC_OPERATION_FAILED@
    } else if RC_IDEMPOTENCY_REPLAY@.is_prefix_of(message) {
        RC_IDEMPOTENCY_REPLAY@
    } else if RC_ORCH_ACTION_UNSUPPORTED@.is_prefix_of(message) {
        RC_ORCH_ACTION_UNSUPPORTED@
    } else {
        RC_ORCH_DEPENDENCY_UNAVAILABLE@
    }
}

/// The message has the form of a failure with a hint: two bars at least, and
/// the word for the hint announced between the first two.
pub open spec fn has_hint(message: Seq<char>) -> bool {
    let first = before_bar(message);
    let rest = message.skip(first + 1);
    let second = before_bar(rest);
    first < message.len() && second < rest.len() && "retryable="@.is_prefix_of(rest.take(second))
}

/// The code, the hint and the detail that a message carries.
pub open spec fn decoded(message: Seq<char>) -> (Seq<char>, Option<bool>, Seq<char>) {
    let first = before_bar(message);
    let rest = message.skip(first + 1);
    let second = before_bar(rest);
    if has_hint(message) {
        (
            message.take(first),
            word_hint(without_prefix(rest.take(second), "retryable="@)),
            rest.skip(second + 1),
        )
    } else {
        (leading_code(message), None, message)
    }
}

fn find_bar(s: &str) -> (at: usize)
    ensures
        at == before_bar(s@),
        at <= s@.len(),
{
    let chars: Vec<char> = crate::text::chars_of(s);
    let mut at: usize = 0;
    assert(s@.skip(0) =~= s@);
    while at < chars.len() && chars[at] != '|'
        invariant
            chars@ == s@,
            at <= s@.len(),
            before_bar(s@) == at + before_bar(s@.skip(at as int)),
        decreases s@.len() - at,
    {
        assert(s@.skip(at as int)[0] == s@[at as int]);
        assert(s@.skip(at as int).drop_first() =~= s@.skip(at + 1));
        at = at + 1;
    }
    proof {
        if at < s@.len() {
            assert(s@.skip(at as int)[0] == s@[at as int]);
        }
    }
    at
}

fn strip_hint_name(tag: &str) -> (word: String)
    ensures
        word@ == without_prefix(tag@, "retryable="@),
    decreases tag@.len(),
{
    if starts_with(tag, "retryable=") {
        proof {
            reveal_strlit("retryable=");
        }
        let rest = tag.substring_char(10, tag.unicode_len());
        assert(rest@ =~= tag@.skip(10));
        strip_hint_name(rest)
    } else {
        tag.to_owned()
    }
}

fn known_code(message: &str) -> (code: String)
    ensures
        code@ == leading_code(message@),
{
    if starts_with(message, RC_INVALID_ARGUMENT) {
        RC_INVALID_ARGUMENT.to_owned()
    } else if starts_with(message, RC_TARGET_NOT_FOUND) {
        RC_TARGET_NOT_FOUND.to_owned()
    } else if starts_with(message, RC_RESOURCE_PRESSURE) {
        RC_RESOURCE_PRESSURE.to_owned()
    } else if starts_with(message, RC_OPERATION_FAILED) {
        RC_OPERATION_FAILED.to_owned()
    } else if starts_with(message, RC_IDEMPOTENCY_REPLAY) {
        RC_IDEMPOTENCY_REPLAY.to_owned()
    } else if starts_with(message, RC_ORCH_ACTION_UNSUPPORTED) {
        RC_ORCH_ACTION_UNSUPPORTED.to_owned()
    } else {
        RC_ORCH_DEPENDENCY_UNAVAILABLE.to_owned()
    }
}

/// The code, the hint on retrying and the detail that a message carries. A
/// message without a hint is its own detail, and its code is the known one
/// that it begins with, or that of an unavailable dependency.
pub fn parse_dispatch_error(message: &str) -> (parts: (String, Option<bool>, String))
    ensures
        (parts.0@, parts.1, parts.2@) == decoded(message@),
{
    let len: usize = message.unicode_len();
    let first: usize = find_bar(message);
    if first < len {
        let rest = message.substring_char(first + 1, len);
        assert(rest@ =~= message@.skip(first + 1));
        let rest_len: usize = rest.unicode_len();
        let second: usize = find_bar(rest);
        if second < rest_len {
            let tag = rest.substring_char(0, second);
            assert(tag@ =~= rest@.take(second as int));
            if starts_with(tag, "retryable=") {
                let word = strip_hint_name(tag);
                let hint: Option<bool> = if same_text(word.as_str(), "true") {
                    Some(true)
                } else if same_text(word.as_str(), "false") {
                    Some(false)
                } else {
                    None
                };
                let code = message.substring_char(0, first);
                assert(code@ =~= message@.take(first as int));
                let detail = rest.substring_char(second + 1, rest_len);
                assert(detail@ =~= rest@.skip(second + 1));
                return (code.to_owned(), hint, detail.to_owned());
            }
        }
    }
    (known_code(message), None, message.to_owned())
}

proof fn lemma_bar_after(s: Seq<char>, tail: Seq<char>)
    requires
        forall|i: int| 0 <= i < s.len() ==> s[i] != '|',
        tail.len() > 0,
        tail[0] == '|',
    ensures
        before_bar(s + tail) == s.len(),
    decreases s.len(),
{
    if s.len() == 0 {
        assert(s + tail =~= tail);
    } else {
        assert((s + tail)[0] == s[0]);
        assert((s + tail).drop_first() =~= s.drop_first() + tail);
        lemma_bar_after(s.drop_first(), tail);
    }
}

/// A failure is read back from its text: the code, the hint and the detail,
/// for every code without a bar.
pub proof fn failure_text_is_read_back(code: Seq<char>, hint: Option<bool>, detail: Seq<char>)
    requires
        forall|i: int| 0 <= i < code.len() ==> code[i] != '|',
    ensures
        decoded(failure_text(code, hint, detail)) == (code, hint, detail),
{
    reveal_strlit("|retryable=");
    reveal_strlit("retryable=");
    reveal_strlit("|");
    reveal_strlit("true");
    reveal_strlit("false");
    reveal_strlit("unknown");
    let name = "retryable="@;
    let word = hint_word(hint);
    let message = failure_text(code, hint, detail);
    let tag = name + word;
    let rest = tag + "|"@ + detail;
    assert("|retryable="@ =~= seq!['|'] + name);
    assert(message =~= code + (seq!['|'] + rest));
    lemma_bar_after(code, seq!['|'] + rest);
    let first = before_bar(message);
    assert(message.take(first) =~= code);
    assert(message.skip(first + 1) =~= rest);
    assert(rest =~= tag + (seq!['|'] + detail));
    assert forall|i: int| 0 <= i < tag.len() implies tag[i] != '|' by {
        if i < name.len() {
            assert(tag[i] == name[i]);
        } else {
            assert(tag[i] == word[i - name.len()]);
        }
    }
    lemma_bar_after(tag, seq!['|'] + detail);
    let second = before_bar(rest);
    assert(rest.take(second) =~= tag);
    assert(rest.skip(second + 1) =~= detail);
    assert(name.is_prefix_of(tag));
    assert(tag.skip(name.len() as int) =~= word);
    assert(!name.is_prefix_of(word));
    assert(without_prefix(tag, name) == without_prefix(word, name));
    assert(word != "true"@ || hint == Some(true));
    assert("unknown"@.len() == 7 && "true"@.len() == 4 && "false"@.len() == 5);
}

/// A message that is a known code alone is read as that code, without a hint,
/// and is its own detail.
pub proof fn plain_code_is_kept(code: Seq<char>)
    requires
        code == RC_INVALID_ARGUMENT@ || code == RC_TARGET_NOT_FOUND@ || code
            == RC_RESOURCE_PRESSURE@ || code == RC_OPERATION_FAILED@ || code
            == RC_IDEMPOTENCY_REPLAY@ || code == RC_ORCH_ACTION_UNSUPPORTED@ || code
            == RC_ORCH_DEPENDENCY_UNAVAILABLE@,
    ensures
        decoded(code) == (code, None::<bool>, code),
{
    reveal_strlit("ELASTICITY_TARGET_NOT_FOUND");
    reveal_strlit("ELASTICITY_INVALID_ARGUMENT");
    reveal_strlit("ELASTICITY_RESOURCE_PRESSURE");
    reveal_strlit("ELASTICITY_OPERATION_FAILED");
    reveal_strlit("ELASTICITY_IDEMPOTENCY_REPLAY");
    reveal_strlit("ORCH_ACTION_UNSUPPORTED");
    reveal_strlit("ORCH_DEPENDENCY_UNAVAILABLE");
    assert(forall|i: int| 0 <= i < code.len() ==> code[i] != '|');
    lemma_no_bar(code);
    let t = RC_TARGET_NOT_FOUND@;
    let a = RC_INVALID_ARGUMENT@;
    let p = RC_RESOURCE_PRESSURE@;
    let f = RC_OPERATION_FAILED@;
    let r = RC_IDEMPOTENCY_REPLAY@;
    let u = RC_ORCH_ACTION_UNSUPPORTED@;
    let d = RC_ORCH_DEPENDENCY_UNAVAILABLE@;
    assert(t[11] == 'T' && a[11] == 'I' && a[12] == 'N' && p[11] == 'R' && f[11] == 'O' && r[11]
        == 'I' && r[12] == 'D' && u[0] == 'O' && u[5] == 'A' && d[0] == 'O' && d[5] == 'D' && t[0]
        == 'E' && a[0] == 'E' && p[0] == 'E' && f[0] == 'E' && r[0] == 'E');
}

proof fn lemma_no_bar(s: Seq<char>)
    requires
        forall|i: int| 0 <= i < s.len() ==> s[i] != '|',
    ensures
        before_bar(s) == s.len(),
    decreases s.len(),
{
    if s.len() > 0 {
        lemma_no_bar(s.drop_first());
    }
}

/// The status words: under way is what was accepted, is queued or is running;
/// over is what has succeeded, failed, was cancelled or ran out of time.
pub proof fn status_words(status: Seq<char>)
    ensures
        non_terminal(status) <==> (status == "accepted"@ || status == "queued"@ || status
            == "running"@),
        terminal_success(status) <==> status == "succeeded"@,
        terminal_failure(status) <==> (status == "failed"@ || status == "cancelled"@ || status
            == "timed_out"@),
{
}

/// A message of three parts with bars between them, whose second part announces
/// a hint, gives its first part as the code and its third as the detail,
/// however many bars that holds; the hint is that of the word, where it is one
/// of the two.
pub proof fn marked_message_is_taken_apart(
    code: Seq<char>,
    word: Seq<char>,
    detail: Seq<char>,
)
    requires
        forall|i: int| 0 <= i < code.len() ==> code[i] != '|',
        forall|i: int| 0 <= i < word.len() ==> word[i] != '|',
        !"retryable="@.is_prefix_of(word),
    ensures
        decoded(code + "|retryable="@ + word + "|"@ + detail) == (
            code,
            if word == "true"@ {
                Some(true)
            } else if word == "false"@ {
                Some(false)
            } else {
                None
            },
            detail,
        ),
{
    reveal_strlit("|retryable=");
    reveal_strlit("retryable=");
    reveal_strlit("|");
    reveal_strlit("true");
    reveal_strlit("false");
    let name = "retryable="@;
    let message = code + "|retryable="@ + word + "|"@ + detail;
    let tag = name + word;
    let rest = tag + "|"@ + detail;
    assert("|retryable="@ =~= seq!['|'] + name);
    assert(message =~= code + (seq!['|'] + rest));
    lemma_bar_after(code, seq!['|'] + rest);
    let first = before_bar(message);
    assert(message.take(first) =~= code);
    assert(message.skip(first + 1) =~= rest);
    assert(rest =~= tag + (seq!['|'] + detail));
    assert forall|i: int| 0 <= i < tag.len() implies tag[i] != '|' by {
        if i < name.len() {
            assert(tag[i] == name[i]);
        } else {
            assert(tag[i] == word[i - name.len()]);
        }
    }
    lemma_bar_after(tag, seq!['|'] + detail);
    let second = before_bar(rest);
    assert(rest.take(second) =~= tag);
    assert(rest.skip(second + 1) =~= detail);
    assert(name.is_prefix_of(tag));
    assert(tag.skip(name.len() as int) =~= word);
    assert(without_prefix(tag, name) == without_prefix(word, name));
    assert("true"@.len() == 4 && "false"@.len() == 5);
}

/// The message begins with the text.
pub open spec fn begins(message: Seq<char>, start: Seq<char>) -> bool {
    start.len() <= message.len() && message.subrange(0, start.len() as int) == start
}

/// A message without a bar, or with one bar only, carries no hint and is its
/// own detail; its code is the known code that it begins with, and where it
/// begins with none, that of an unavailable dependency.
pub proof fn unmarked_message_is_its_own_detail(message: Seq<char>, bar: int)
    requires
        forall|i: int| 0 <= i < message.len() && i != bar ==> message[i] != '|',
    ensures
        decoded(message).1 is None,
        decoded(message).2 == message,
        is_code_of(message, decoded(message).0),
{
    lemma_bars(message, bar);
    lemma_code(message);
}

/// A message whose second part announces no hint carries none, and is its own
/// detail.
pub proof fn unannounced_hint_is_none(message: Seq<char>, first: int, second: int)
    requires
        0 <= first < second < message.len(),
        message[first] == '|',
        message[second] == '|',
        forall|i: int| 0 <= i < second && i != first ==> message[i] != '|',
        !begins(message.subrange(first + 1, second), "retryable="@),
    ensures
        decoded(message).1 is None,
        decoded(message).2 == message,
        is_code_of(message, decoded(message).0),
{
    let head = message.take(first);
    let tail = message.skip(first);
    assert(message =~= head + tail);
    lemma_bar_after(head, tail);
    let rest = message.skip(first + 1);
    let middle = message.subrange(first + 1, second);
    let end = message.skip(second);
    assert(rest =~= middle + end);
    assert forall|i: int| 0 <= i < middle.len() implies middle[i] != '|' by {
        assert(middle[i] == message[first + 1 + i]);
    }
    lemma_bar_after(middle, end);
    assert(rest.take(second - first - 1) =~= middle);
    lemma_starts(middle, "retryable="@);
    lemma_code(message);
}

/// The code is the known one that the message begins with, and where it begins
/// with none, that of an unavailable dependency.
pub open spec fn is_code_of(message: Seq<char>, code: Seq<char>) -> bool {
    &&& begins(message, "ELASTICITY_INVALID_ARGUMENT"@) ==> code == "ELASTICITY_INVALID_ARGUMENT"@
    &&& begins(message, "ELASTICITY_TARGET_NOT_FOUND"@) ==> code == "ELASTICITY_TARGET_NOT_FOUND"@
    &&& begins(message, "ELASTICITY_RESOURCE_PRESSURE"@) ==> code
        == "ELASTICITY_RESOURCE_PRESSURE"@
    &&& begins(message, "ELASTICITY_OPERATION_FAILED"@) ==> code == "ELASTICITY_OPERATION_FAILED"@
    &&& begins(message, "ELASTICITY_IDEMPOTENCY_REPLAY"@) ==> code
        == "ELASTICITY_IDEMPOTENCY_REPLAY"@
    &&& begins(message, "ORCH_ACTION_UNSUPPORTED"@) ==> code == "ORCH_ACTION_UNSUPPORTED"@
    &&& !begins(message, "ELASTICITY_INVALID_ARGUMENT"@) && !begins(
        message,
        "ELASTICITY_TARGET_NOT_FOUND"@,
    ) && !begins(message, "ELASTICITY_RESOURCE_PRESSURE"@) && !begins(
        message,
        "ELASTICITY_OPERATION_FAILED"@,
    ) && !begins(message, "ELASTICITY_IDEMPOTENCY_REPLAY"@) && !begins(
        message,
        "ORCH_ACTION_UNSUPPORTED"@,
    ) ==> code == "ORCH_DEPENDENCY_UNAVAILABLE"@
}

proof fn lemma_code(message: Seq<char>)
    ensures
        is_code_of(message, leading_code(message)),
{
    lemma_starts(message, "ELASTICITY_INVALID_ARGUMENT"@);
    lemma_starts(message, "ELASTICITY_TARGET_NOT_FOUND"@);
    lemma_starts(message, "ELASTICITY_RESOURCE_PRESSURE"@);
    lemma_starts(message, "ELASTICITY_OPERATION_FAILED"@);
    lemma_starts(message, "ELASTICITY_IDEMPOTENCY_REPLAY"@);
    lemma_starts(message, "ORCH_ACTION_UNSUPPORTED"@);
    reveal_strlit("ELASTICITY_TARGET_NOT_FOUND");
    reveal_strlit("ELASTICITY_INVALID_ARGUMENT");
    reveal_strlit("ELASTICITY_RESOURCE_PRESSURE");
    reveal_strlit("ELASTICITY_OPERATION_FAILED");
    reveal_strlit("ELASTICITY_IDEMPOTENCY_REPLAY");
    reveal_strlit("ORCH_ACTION_UNSUPPORTED");
    let t = RC_TARGET_NOT_FOUND@;
    let a = RC_INVALID_ARGUMENT@;
    let p = RC_RESOURCE_PRESSURE@;
    let f = RC_OPERATION_FAILED@;
    let r = RC_IDEMPOTENCY_REPLAY@;
    let u = RC_ORCH_ACTION_UNSUPPORTED@;
    assert(t[11] == 'T' && a[11] == 'I' && a[12] == 'N' && p[11] == 'R' && f[11] == 'O' && r[11]
        == 'I' && r[12] == 'D' && u[0] == 'O' && t[0] == 'E' && a[0] == 'E' && p[0] == 'E' && f[0]
        == 'E' && r[0] == 'E');
}

proof fn lemma_starts(message: Seq<char>, start: Seq<char>)
    ensures
        begins(message, start) <==> start.is_prefix_of(message),
        begins(message, start) ==> forall|i: int|
            0 <= i < start.len() ==> #[trigger] message[i] == start[i],
{
    if begins(message, start) {
        assert forall|i: int| 0 <= i < start.len() implies #[trigger] message[i] == start[i] by {
            assert(message.subrange(0, start.len() as int)[i] == message[i]);
        }
    }
    if start.is_prefix_of(message) {
        assert(message.subrange(0, start.len() as int) =~= start);
    }
}

proof fn lemma_bars(message: Seq<char>, bar: int)
    requires
        forall|i: int| 0 <= i < message.len() && i != bar ==> message[i] != '|',
    ensures
        !has_hint(message),
{
    let first = before_bar(message);
    lemma_first_bar(message);
    if first < message.len() {
        let rest = message.skip(first + 1);
        assert(first == bar);
        assert forall|i: int| 0 <= i < rest.len() implies rest[i] != '|' by {
            assert(rest[i] == message[first + 1 + i]);
        }
        lemma_no_bar(rest);
    }
}

proof fn lemma_first_bar(s: Seq<char>)
    ensures
        0 <= before_bar(s) <= s.len(),
        before_bar(s) < s.len() ==> s[before_bar(s)] == '|',
    decreases s.len(),
{
    if s.len() > 0 && s[0] != '|' {
        lemma_first_bar(s.drop_first());
    }
}

/// A failure without a code counts as a failed operation, and one with a code
/// keeps it.
pub proof fn code_is_kept(code: Seq<char>)
    ensures
        normalized(Some(code)) == code,
        normalized(None) == "ELASTICITY_OPERATION_FAILED"@,
{
}

/// A hint that is announced twice counts as one that is announced once.
pub proof fn repeated_announcement_counts_once(
    code: Seq<char>,
    word: Seq<char>,
    detail: Seq<char>,
)
    requires
        forall|i: int| 0 <= i < code.len() ==> code[i] != '|',
        forall|i: int| 0 <= i < word.len() ==> word[i] != '|',
        !"retryable="@.is_prefix_of(word),
    ensures
        decoded(code + "|retryable="@ + ("retryable="@ + word) + "|"@ + detail) == decoded(
            code + "|retryable="@ + word + "|"@ + detail,
        ),
{
    reveal_strlit("|retryable=");
    reveal_strlit("retryable=");
    reveal_strlit("|");
    marked_message_is_taken_apart(code, word, detail);
    let name = "retryable="@;
    let twice = name + word;
    let message = code + "|retryable="@ + twice + "|"@ + detail;
    let tag = name + twice;
    let rest = tag + "|"@ + detail;
    assert("|retryable="@ =~= seq!['|'] + name);
    assert(message =~= code + (seq!['|'] + rest));
    lemma_bar_after(code, seq!['|'] + rest);
    let first = before_bar(message);
    assert(message.take(first) =~= code);
    assert(message.skip(first + 1) =~= rest);
    assert(rest =~= tag + (seq!['|'] + detail));
    assert forall|i: int| 0 <= i < tag.len() implies tag[i] != '|' by {
        if i < name.len() {
            assert(tag[i] == name[i]);
        } else if i < 2 * name.len() {
            assert(tag[i] == name[i - name.len()]);
        } else {
            assert(tag[i] == word[i - 2 * name.len()]);
        }
    }
    lemma_bar_after(tag, seq!['|'] + detail);
    let second = before_bar(rest);
    assert(rest.take(second) =~= tag);
    assert(rest.skip(second + 1) =~= detail);
    assert(name.is_prefix_of(tag));
    assert(tag.skip(name.len() as int) =~= twice);
    assert(name.is_prefix_of(twice));
    assert(twice.skip(name.len() as int) =~= word);
    assert(without_prefix(tag, name) == without_prefix(twice, name));
    assert(without_prefix(twice, name) == without_prefix(word, name));
    assert("true"@.len() == 4 && "false"@.len() == 5) by {
        reveal_strlit("true");
        reveal_strlit("false");
    }
}

/// An optional text is the text that it holds.
pub proof fn optional_text_is_what_it_holds(text: &str)
    ensures
        opt_str(Some(text)) == Some(text@),
        opt_str(None) is None,
{
}

} // verus!
