//! The wording of failures. Each message names the tool that failed; one
//! about ending a process also names the process.

use crate::text::{occurs_at, occurs_in, push_signed_numeral, signed_numeral};
use vstd::prelude::*;

verus! {

/// The number that stands for an exit code in a message: the code itself,
/// or -1 where the tool ended without one.
pub open spec fn reported_code(code: Option<i32>) -> int {
    match code {
        Some(c) => c as int,
        None => -1,
    }
}

/// The message for a discovery tool that could not be started.
pub open spec fn launch_failure(tool: Seq<char>, reason: Seq<char>) -> Seq<char> {
    "执行 "@ + tool + " 失败: "@ + reason
}

/// The message for a discovery tool that ran and reported failure.
pub open spec fn exit_failure(tool: Seq<char>, code: Option<i32>) -> Seq<char> {
    tool + " 返回非 0 状态码: "@ + signed_numeral(reported_code(code))
}

/// The message for a termination tool that could not be started on the
/// process `id`.
pub open spec fn termination_launch_failure(
    tool: Seq<char>,
    id: Seq<char>,
    reason: Seq<char>,
) -> Seq<char> {
    "执行 "@ + tool + " 失败 (PID="@ + id + "): "@ + reason
}

/// The message for a termination tool that ran on the process `id` and
/// reported failure.
pub open spec fn termination_exit_failure(
    tool: Seq<char>,
    id: Seq<char>,
    code: Option<i32>,
) -> Seq<char> {
    tool + " 返回非 0 状态码 (PID="@ + id + "): "@ + signed_numeral(reported_code(code))
}

/// A text stands in whatever is written around it.
pub proof fn lemma_occurs_between(before: Seq<char>, part: Seq<char>, after: Seq<char>)
    ensures
        occurs_in(before + part + after, part),
{
    let whole = before + part + after;
    assert(whole.subrange(before.len() as int, (before.len() + part.len()) as int) =~= part);
    assert(occurs_at(whole, part, before.len() as int));
}

/// Every failure message names the tool that failed.
pub proof fn lemma_failure_names_tool(
    tool: Seq<char>,
    id: Seq<char>,
    reason: Seq<char>,
    code: Option<i32>,
)
    ensures
        occurs_in(launch_failure(tool, reason), tool),
        occurs_in(exit_failure(tool, code), tool),
        occurs_in(termination_launch_failure(tool, id, reason), tool),
        occurs_in(termination_exit_failure(tool, id, code), tool),
{
    let numeral = signed_numeral(reported_code(code));
    lemma_occurs_between("执行 "@, tool, " 失败: "@ + reason);
    assert("执行 "@ + tool + (" 失败: "@ + reason) =~= launch_failure(tool, reason));
    lemma_occurs_between(Seq::empty(), tool, " 返回非 0 状态码: "@ + numeral);
    assert(Seq::empty() + tool + (" 返回非 0 状态码: "@ + numeral) =~= exit_failure(tool, code));
    lemma_occurs_between("执行 "@, tool, " 失败 (PID="@ + id + "): "@ + reason);
    assert("执行 "@ + tool + (" 失败 (PID="@ + id + "): "@ + reason)
        =~= termination_launch_failure(tool, id, reason));
    lemma_occurs_between(Seq::empty(), tool, " 返回非 0 状态码 (PID="@ + id + "): "@ + numeral);
    assert(Seq::empty() + tool + (" 返回非 0 状态码 (PID="@ + id + "): "@ + numeral)
        =~= termination_exit_failure(tool, id, code));
}

/// Every message about a failure to end a process names that process,
/// whatever its identifier, the tool and the cause are.
pub proof fn lemma_termination_failure_names_process(
    tool: Seq<char>,
    id: Seq<char>,
    reason: Seq<char>,
    code: Option<i32>,
)
    ensures
        occurs_in(termination_launch_failure(tool, id, reason), id),
        occurs_in(termination_exit_failure(tool, id, code), id),
{
    let numeral = signed_numeral(reported_code(code));
    lemma_occurs_between("执行 "@ + tool + " 失败 (PID="@, id, "): "@ + reason);
    assert("执行 "@ + tool + " 失败 (PID="@ + id + ("): "@ + reason)
        =~= termination_launch_failure(tool, id, reason));
    lemma_occurs_between(tool + " 返回非 0 状态码 (PID="@, id, "): "@ + numeral);
    assert(tool + " 返回非 0 状态码 (PID="@ + id + ("): "@ + numeral) =~= termination_exit_failure(
        tool,
        id,
        code,
    ));
}

/// Appends to `message` the number that stands for `code`.
fn push_reported_code(message: &mut String, code: Option<i32>)
    ensures
        final(message)@ == old(message)@ + signed_numeral(reported_code(code)),
{
    match code {
        Some(c) => push_signed_numeral(message, c as i64),
        None => push_signed_numeral(message, -1),
    }
}

/// Words [`launch_failure`].
pub fn report_launch_failure(tool: &str, reason: &str) -> (message: String)
    ensures
        message@ == launch_failure(tool@, reason@),
{
    let mut message = String::from_str("执行 ");
    message.append(tool);
    message.append(" 失败: ");
    message.append(reason);
    message
}

/// Words [`exit_failure`].
pub fn report_exit_failure(tool: &str, code: Option<i32>) -> (message: String)
    ensures
        message@ == exit_failure(tool@, code),
{
    let mut message = String::from_str(tool);
    message.append(" 返回非 0 状态码: ");
    push_reported_code(&mut message, code);
    message
}

/// Words [`termination_launch_failure`].
pub fn report_termination_launch_failure(tool: &str, id: &str, reason: &str) -> (message: String)
    ensures
        message@ == termination_launch_failure(tool@, id@, reason@),
        occurs_in(message@, id@),
{
    let mut message = String::from_str("执行 ");
    message.append(tool);
    message.append(" 失败 (PID=");
    message.append(id);
    message.append("): ");
    message.append(reason);
    proof {
        lemma_termination_failure_names_process(tool@, id@, reason@, None);
    }
    message
}

/// Words [`termination_exit_failure`].
pub fn report_termination_exit_failure(tool: &str, id: &str, code: Option<i32>) -> (message:
    String)
    ensures
        message@ == termination_exit_failure(tool@, id@, code),
        occurs_in(message@, id@),
{
    let mut message = String::from_str(tool);
    message.append(" 返回非 0 状态码 (PID=");
    message.append(id);
    message.append("): ");
    push_reported_code(&mut message, code);
    proof {
        lemma_termination_failure_names_process(tool@, id@, Seq::empty(), code);
    }
    message
}

} // verus!
