//! What the modal prompts say, and what their answers mean.

use crate::sizes::{format_size, size_text};
use crate::text::{contains_text, has_prefix, has_suffix, occurs_at, same};
use crate::types::{opt_text, ConflictDecision};
use vstd::prelude::*;
use vstd::string::*;

verus! {

/// What the conflict prompt says.
pub open spec fn conflict_text(name: Seq<char>, src: nat, dst: nat) -> Seq<char> {
    "\u{201c}"@ + name + "\u{201d} already exists in the destination.\n\nSource: "@ + size_text(src)
        + "\nDestination: "@ + size_text(dst)
}

/// What the conflict prompt says.
pub fn conflict_body(file_name: &str, src_size: u64, dst_size: u64) -> (r: String)
    ensures
        r@ == conflict_text(file_name@, src_size as nat, dst_size as nat),
{
    let mut s = "\u{201c}".to_owned();
    s.append(file_name);
    s.append("\u{201d} already exists in the destination.\n\nSource: ");
    s.append(format_size(src_size).as_str());
    s.append("\nDestination: ");
    s.append(format_size(dst_size).as_str());
    s
}

/// Whether there is something left to send.
pub open spec fn resumable(src: nat, dst: nat) -> bool {
    dst < src
}

/// Resuming is offered exactly when the destination is shorter than the source:
/// when there are bytes left to send.
pub proof fn law_resumable(src: nat, dst: nat, missing: nat)
    ensures
        missing > 0 ==> resumable(dst + missing, dst),
        !resumable(src, src + missing),
{
}

/// Whether resuming is offered: there is something left to send.
pub fn offers_resume(src_size: u64, dst_size: u64) -> (r: bool)
    ensures
        r == resumable(src_size as nat, dst_size as nat),
{
    dst_size < src_size
}

/// What a response to the conflict prompt means; closing it cancels the job.
pub open spec fn decision_of(response: Seq<char>) -> ConflictDecision {
    if response == "overwrite"@ {
        ConflictDecision::Overwrite
    } else if response == "overwrite_all"@ {
        ConflictDecision::OverwriteAll
    } else if response == "resume"@ {
        ConflictDecision::Resume
    } else if response == "skip"@ {
        ConflictDecision::Skip
    } else if response == "skip_all"@ {
        ConflictDecision::SkipAll
    } else {
        ConflictDecision::CancelJob
    }
}

/// What a response to the conflict prompt means.
pub fn conflict_decision(response: &str) -> (r: ConflictDecision)
    ensures
        r == decision_of(response@),
{
    if same(response, "overwrite") {
        ConflictDecision::Overwrite
    } else if same(response, "overwrite_all") {
        ConflictDecision::OverwriteAll
    } else if same(response, "resume") {
        ConflictDecision::Resume
    } else if same(response, "skip") {
        ConflictDecision::Skip
    } else if same(response, "skip_all") {
        ConflictDecision::SkipAll
    } else {
        ConflictDecision::CancelJob
    }
}

/// The answer to a secret prompt.
pub open spec fn accepted(response: Seq<char>, text: Seq<char>) -> Option<Seq<char>> {
    if response == "ok"@ {
        Some(text)
    } else {
        None
    }
}

/// The answer to a question.
pub open spec fn confirmed(response: Seq<char>) -> Option<Seq<char>> {
    if response == "yes"@ {
        Some("yes"@)
    } else {
        None
    }
}

/// The text that was entered.
pub open spec fn entered(response: Seq<char>, text: Seq<char>) -> Option<Seq<char>> {
    if response == "ok"@ && text.len() > 0 {
        Some(text)
    } else {
        None
    }
}

/// A prompt that was accepted gives the very text that was typed, an empty
/// secret too; where a name is wanted, an empty one gives nothing. A prompt
/// that was closed in any other way gives nothing, whatever was typed.
pub proof fn law_prompt_answers(response: Seq<char>, text: Seq<char>)
    ensures
        accepted("ok"@, text) == Some(text),
        response != "ok"@ ==> accepted(response, text) is None && entered(response, text) is None,
        text.len() > 0 ==> entered("ok"@, text) == Some(text),
        entered("ok"@, Seq::empty()) is None,
        confirmed(response) is Some <==> response == "yes"@,
{
}

/// The answer to a secret prompt: the text, unless it was cancelled.
pub fn secret_answer(response: &str, text: &str) -> (r: Option<String>)
    ensures
        opt_text(r) == accepted(response@, text@),
{
    if same(response, "ok") {
        Some(text.to_owned())
    } else {
        None
    }
}

/// The answer to a question: "yes", or none.
pub fn yes_no_answer(response: &str) -> (r: Option<String>)
    ensures
        opt_text(r) == confirmed(response@),
{
    if same(response, "yes") {
        Some("yes".to_owned())
    } else {
        None
    }
}

/// The text that was entered, where the prompt was accepted with one.
pub fn entered_text(response: &str, text: &str) -> (r: Option<String>)
    ensures
        opt_text(r) == entered(response@, text@),
{
    if same(response, "ok") && text.unicode_len() > 0 {
        Some(text.to_owned())
    } else {
        None
    }
}

/// Each response of the conflict prompt has a meaning of its own, and any
/// other, as when the prompt is closed, cancels the job: nothing is overwritten
/// unless that was the answer.
pub proof fn law_decisions(response: Seq<char>)
    ensures
        decision_of(response) is Overwrite <==> response == "overwrite"@,
        decision_of(response) is OverwriteAll <==> response == "overwrite_all"@,
        decision_of(response) is Resume <==> response == "resume"@,
        decision_of(response) is Skip <==> response == "skip"@,
        decision_of(response) is SkipAll <==> response == "skip_all"@,
{
    reveal_strlit("overwrite");
    reveal_strlit("overwrite_all");
    reveal_strlit("resume");
    reveal_strlit("skip");
    reveal_strlit("skip_all");
    assert("overwrite"@.len() == 9 && "overwrite_all"@.len() == 13 && "resume"@.len() == 6
        && "skip"@.len() == 4 && "skip_all"@.len() == 8);
}

/// The conflict prompt names the file and tells both sizes, the source's
/// before the destination's.
pub proof fn law_conflict_text(name: Seq<char>, src: nat, dst: nat)
    ensures
        has_prefix(conflict_text(name, src, dst), "\u{201c}"@ + name),
        contains_text(conflict_text(name, src, dst), "Source: "@ + size_text(src)),
        has_suffix(conflict_text(name, src, dst), "\nDestination: "@ + size_text(dst)),
{
    let text = conflict_text(name, src, dst);
    let head = "\u{201c}"@ + name;
    let middle = "\u{201d} already exists in the destination.\n\nSource: "@;
    let end = "\nDestination: "@ + size_text(dst);
    assert(text =~= head + middle + size_text(src) + end);
    assert(text.subrange(0, head.len() as int) =~= head);
    assert(text.subrange(text.len() - end.len(), text.len() as int) =~= end);
    reveal_strlit("\u{201d} already exists in the destination.\n\nSource: ");
    reveal_strlit("Source: ");
    let source = "Source: "@;
    let n = middle.len() as int;
    assert(middle.subrange(n - 8, n) =~= source);
    let at = head.len() + n - 8;
    let want = source + size_text(src);
    assert forall|i: int| 0 <= i < want.len() implies text.subrange(at, at + want.len())[i]
        == want[i] by {
        if i < 8 {
            assert(middle.subrange(n - 8, n)[i] == source[i]);
        }
    }
    assert(text.subrange(at, at + want.len()) =~= want);
    assert(occurs_at(text, want, at));
}

} // verus!
