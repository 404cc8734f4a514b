//! The exchange between ssh's askpass helper and the program: the helper
//! sends the prompt, the program sends back a status and an answer.
//!
//! Wire format (all lengths are u32 big-endian):
//!   request:  len ++ prompt-utf8
//!   response: status-byte ++ len ++ answer-utf8
//!     status 0 = answer follows (password text)
//!     status 1 = confirmed (print "yes", exit 0)
//!     status 2 = cancelled/denied (exit 1)

use crate::text::{
    after_prefix, ascii_lower, contains, contains_text, decimal, find_char, law_digits_read_back,
    law_parts, parse_i32, parted, signed_number_in, split_once, strip_prefix, to_ascii_lower, to_decimal,
};
use crate::types::PromptKind;
use vstd::prelude::*;
use vstd::string::*;
use vstd::utf8::*;

verus! {

/// Prompts this long or longer are refused.
pub const MAX_PROMPT: u32 = 65536;

/// What ssh asks for: host key confirmations are yes/no questions, anything
/// else wants a secret.
pub open spec fn kind_of_prompt(prompt: Seq<char>) -> PromptKind {
    let lower = ascii_lower(prompt);
    if contains_text(lower, "(yes/no"@) || contains_text(lower, "are you sure"@) {
        PromptKind::YesNo
    } else {
        PromptKind::Secret
    }
}

/// A prompt that offers yes and no, or asks whether the user is sure, wants a
/// confirmation, wherever in it that stands and in capital letters or small
/// ones. Every other prompt wants a secret.
pub proof fn law_prompt_kind(
    before: Seq<char>,
    after: Seq<char>,
    prompt: Seq<char>,
    other: Seq<char>,
)
    ensures
        ascii_lower(prompt) == before + "(yes/no"@ + after ==> kind_of_prompt(prompt) is YesNo,
        ascii_lower(prompt) == before + "are you sure"@ + after ==> kind_of_prompt(prompt) is YesNo,
        !contains_text(ascii_lower(prompt), "(yes/no"@) && !contains_text(
            ascii_lower(prompt),
            "are you sure"@,
        ) ==> kind_of_prompt(prompt) is Secret,
        ascii_lower(prompt) == ascii_lower(other) ==> kind_of_prompt(prompt) == kind_of_prompt(
            other,
        ),
{
    law_parts(before, "(yes/no"@, after);
    law_parts(before, "are you sure"@, after);
}

/// What kind of answer a prompt wants.
pub fn classify(prompt: &str) -> (r: PromptKind)
    ensures
        r == kind_of_prompt(prompt@),
{
    let lower = to_ascii_lower(prompt);
    if contains(lower.as_str(), "(yes/no") || contains(lower.as_str(), "are you sure") {
        PromptKind::YesNo
    } else {
        PromptKind::Secret
    }
}

/// A length in four bytes, the highest first; of a longer one, what fits.
pub open spec fn length_bytes(n: nat) -> Seq<u8> {
    seq![
        (n / 0x100_0000 % 256) as u8,
        (n / 0x1_0000 % 256) as u8,
        (n / 256 % 256) as u8,
        (n % 256) as u8,
    ]
}

/// The length that four bytes stand for.
pub open spec fn length_value(b: Seq<u8>) -> nat {
    (b[0] * 0x100_0000 + b[1] * 0x1_0000 + b[2] * 256 + b[3]) as nat
}

fn push_length(out: &mut Vec<u8>, n: usize)
    ensures
        final(out)@ == old(out)@ + length_bytes(n as nat),
{
    let n: u64 = n as u64;
    out.push((n / 0x100_0000 % 256) as u8);
    out.push((n / 0x1_0000 % 256) as u8);
    out.push((n / 256 % 256) as u8);
    out.push((n % 256) as u8);
    assert(out@ =~= old(out)@ + length_bytes(n as nat));
}

fn read_length(b: &[u8]) -> (r: u32)
    requires
        b@.len() == 4,
    ensures
        r == length_value(b@),
{
    b[0] as u32 * 0x100_0000 + b[1] as u32 * 0x1_0000 + b[2] as u32 * 256 + b[3] as u32
}

/// The bytes with their length before them.
pub open spec fn framed(payload: Seq<u8>) -> Seq<u8> {
    length_bytes(payload.len()) + payload
}

/// What the helper sends: the prompt, with its length before it.
pub fn request_frame(prompt: &str) -> (r: Vec<u8>)
    ensures
        r@ == framed(encode_utf8(prompt@)),
{
    let bytes = prompt.as_bytes();
    let mut out: Vec<u8> = Vec::new();
    push_length(&mut out, bytes.len());
    out.extend_from_slice(bytes);
    assert(out@ =~= framed(encode_utf8(prompt@)));
    out
}

/// The length of a prompt that is read, or `None` when it is too large.
pub open spec fn accepted_len(n: nat) -> Option<u32> {
    if n < MAX_PROMPT {
        Some(n as u32)
    } else {
        None
    }
}

/// Prompts below 64 KiB are read in full, and none above.
pub proof fn law_accepted_len(n: nat)
    ensures
        n < 65536 ==> accepted_len(n) is Some && accepted_len(n)->0 == n,
        n >= 65536 ==> accepted_len(n) is None,
{
}

/// The length of the prompt that follows a request's first four bytes, or
/// `None` when it is too large.
pub fn request_len(header: &[u8]) -> (r: Option<u32>)
    requires
        header@.len() == 4,
    ensures
        r == accepted_len(length_value(header@)),
{
    let len = read_length(header);
    if len < MAX_PROMPT {
        Some(len)
    } else {
        None
    }
}

/// What `String::from_utf8_lossy` makes of bytes.
pub uninterp spec fn lossy_text(bytes: Seq<u8>) -> Seq<char>;

/// `String::from_utf8_lossy`: the text that the bytes encode, if they are
/// valid UTF-8; of others the result, with replacement characters in it, is a
/// function of the bytes alone.
#[verifier::external_body]
pub(crate) fn text_from_utf8_lossy(bytes: &[u8]) -> (r: String)
    ensures
        r@ == lossy_text(bytes@),
        valid_utf8(bytes@) ==> r@ == decode_utf8(bytes@),
{
    String::from_utf8_lossy(bytes).into_owned()
}

/// What to do about a prompt.
#[derive(Debug)]
pub enum PromptStep {
    /// Send these bytes: the saved secret answers it.
    Reply(Vec<u8>),
    /// Ask the user.
    Ask { prompt: String, kind: PromptKind },
}

/// The reply with a status and what follows it.
pub open spec fn reply_bytes(status: u8, payload: Seq<u8>) -> Seq<u8> {
    seq![status] + framed(payload)
}

/// A status byte and the payload, with its length before it.
pub fn reply_frame(status: u8, payload: &[u8]) -> (r: Vec<u8>)
    ensures
        r@ == reply_bytes(status, payload@),
{
    let mut out: Vec<u8> = Vec::new();
    out.push(status);
    push_length(&mut out, payload.len());
    out.extend_from_slice(payload);
    assert(out@ =~= reply_bytes(status, payload@));
    out
}

/// Whether a saved credential answers a prompt: it is for the first secret
/// that is asked for.
pub open spec fn answers_itself(prompt: Seq<char>, preset: Option<String>) -> bool {
    kind_of_prompt(prompt) is Secret && preset is Some
}

/// The saved credential after a prompt: spent once it answered one.
pub open spec fn left_of_preset(prompt: Seq<char>, preset: Option<String>) -> Option<String> {
    if answers_itself(prompt, preset) {
        None
    } else {
        preset
    }
}

/// Whether `r` is what is done about a prompt.
pub open spec fn is_prompt_step(r: PromptStep, prompt: Seq<char>, preset: Option<String>) -> bool {
    if answers_itself(prompt, preset) {
        r matches PromptStep::Reply(b) && b@ == answer_bytes(Some(preset->0@), PromptKind::Secret)
    } else {
        r matches PromptStep::Ask { prompt: asked, kind } && asked@ == prompt && kind
            == kind_of_prompt(prompt)
    }
}

/// A secret prompt is answered with the saved credential while there is one:
/// ssh is handed that very secret. In every other case the user is asked, with
/// the words of the prompt, and for what it wants.
pub proof fn law_prompt_step(r: PromptStep, prompt: Seq<char>, preset: Option<String>)
    requires
        is_prompt_step(r, prompt, preset),
        preset is Some ==> encode_utf8(preset->0@).len() < 0x1_0000_0000,
    ensures
        r is Reply <==> preset is Some && kind_of_prompt(prompt) is Secret,
        r matches PromptStep::Reply(b) ==> {
            let reply = read_reply(b@);
            let (status, payload) = reply->0;
            &&& reply is Some
            &&& helper_result(status, payload) == (encode_utf8(preset->0@).push(10), 0u8)
        },
        r matches PromptStep::Ask { prompt: asked, kind } ==> asked@ == prompt && kind
            == kind_of_prompt(prompt),
{
    if preset is Some {
        law_answer_reaches_ssh(Some(preset->0@), PromptKind::Secret);
    }
}

/// Auto-answers the first secret prompt with a saved credential, if any. If
/// it is wrong, ssh asks again and the credential is spent, so the user is
/// asked.
pub fn handle_prompt(prompt: String, preset: &mut Option<String>) -> (r: PromptStep)
    ensures
        *final(preset) == left_of_preset(prompt@, *old(preset)),
        is_prompt_step(r, prompt@, *old(preset)),
        r matches PromptStep::Ask { prompt: asked, kind } ==> asked == prompt,
{
    let kind = classify(prompt.as_str());
    if kind == PromptKind::Secret {
        if let Some(secret) = preset.take() {
            return PromptStep::Reply(reply_frame(0, secret.as_str().as_bytes()));
        }
    }
    PromptStep::Ask { prompt, kind }
}

/// What [`handle_prompt`] does about the prompt that these bytes encode.
pub fn handle_request(bytes: &[u8], preset: &mut Option<String>) -> (r: PromptStep)
    ensures
        *final(preset) == left_of_preset(lossy_text(bytes@), *old(preset)),
        is_prompt_step(r, lossy_text(bytes@), *old(preset)),
{
    let prompt = text_from_utf8_lossy(bytes);
    handle_prompt(prompt, preset)
}

/// A saved credential answers one prompt at most: whatever ssh asks for
/// afterwards, the user is asked. A yes/no question leaves it alone.
pub proof fn law_preset_used_once(first: Seq<char>, second: Seq<char>, preset: Option<String>)
    ensures
        answers_itself(first, preset) ==> !answers_itself(second, left_of_preset(first, preset)),
        kind_of_prompt(first) is YesNo ==> left_of_preset(first, preset) == preset,
{
}

/// A saved credential answers every secret prompt for as long as it is there,
/// and no other: the user is asked exactly when there is none left or a
/// confirmation is wanted.
pub proof fn law_preset_answers(prompt: Seq<char>, secret: String)
    ensures
        kind_of_prompt(prompt) is Secret ==> answers_itself(prompt, Some(secret)) && left_of_preset(
            prompt,
            Some(secret),
        ) is None,
        kind_of_prompt(prompt) is YesNo ==> !answers_itself(prompt, Some(secret)) && left_of_preset(
            prompt,
            Some(secret),
        ) == Some(secret),
        !answers_itself(prompt, None),
        left_of_preset(prompt, None) is None,
{
}

/// The reply for the user's answer: a yes, the secret, or that there is none.
pub open spec fn answer_bytes(answer: Option<Seq<char>>, kind: PromptKind) -> Seq<u8> {
    match answer {
        Some(text) => match kind {
            PromptKind::YesNo => reply_bytes(1, seq![]),
            PromptKind::Secret => reply_bytes(0, encode_utf8(text)),
        },
        None => reply_bytes(2, seq![]),
    }
}

/// The reply for the user's answer.
pub fn answer_frame(answer: &Option<String>, kind: PromptKind) -> (r: Vec<u8>)
    ensures
        r@ == answer_bytes(
            match *answer {
                Some(t) => Some(t@),
                None => None,
            },
            kind,
        ),
{
    let none: Vec<u8> = Vec::new();
    match answer {
        Some(text) => match kind {
            PromptKind::YesNo => reply_frame(1, none.as_slice()),
            PromptKind::Secret => reply_frame(0, text.as_str().as_bytes()),
        },
        None => reply_frame(2, none.as_slice()),
    }
}

/// The length of the answer that follows a reply's status and the next four
/// bytes.
pub fn answer_len(header: &[u8]) -> (r: u32)
    requires
        header@.len() == 4,
    ensures
        r == length_value(header@),
{
    read_length(header)
}

/// What the helper prints for a reply, and the code it exits with.
pub open spec fn helper_result(status: u8, answer: Seq<u8>) -> (Seq<u8>, u8) {
    if status == 0 {
        (answer.push(10), 0)
    } else if status == 1 {
        (seq![121u8, 101u8, 115u8, 10u8], 0)
    } else {
        (seq![], 1)
    }
}

/// What the helper prints for a reply, and the code it exits with.
pub fn helper_output(status: u8, answer: Vec<u8>) -> (r: (Vec<u8>, u8))
    ensures
        (r.0@, r.1) == helper_result(status, answer@),
{
    let mut out = answer;
    if status == 0 {
        out.push(10);
        return (out, 0);
    }
    out.clear();
    if status == 1 {
        out.push(121);
        out.push(101);
        out.push(115);
        out.push(10);
        assert(out@ =~= seq![121u8, 101u8, 115u8, 10u8]);
        return (out, 0);
    }
    assert(out@ =~= seq![]);
    (out, 1)
}

/// What the helper reads of a reply: status and answer, if it is whole.
pub open spec fn read_reply(b: Seq<u8>) -> Option<(u8, Seq<u8>)> {
    if b.len() < 5 || b.len() < 5 + length_value(b.subrange(1, 5)) {
        None
    } else {
        Some((b[0], b.subrange(5, 5 + length_value(b.subrange(1, 5)) as int)))
    }
}

/// What is read of a request: the prompt's bytes, if it is whole and not too
/// large.
pub open spec fn read_request(b: Seq<u8>) -> Option<Seq<u8>> {
    if b.len() < 4 || length_value(b.take(4)) >= MAX_PROMPT || b.len() < 4 + length_value(
        b.take(4),
    ) {
        None
    } else {
        Some(b.subrange(4, 4 + length_value(b.take(4)) as int))
    }
}

proof fn lemma_length_back(n: nat)
    requires
        n < 0x1_0000_0000,
    ensures
        length_value(length_bytes(n)) == n,
{
}

/// A reply reads back as what was sent.
pub proof fn law_reply_read_back(status: u8, payload: Seq<u8>)
    requires
        payload.len() < 0x1_0000_0000,
    ensures
        read_reply(reply_bytes(status, payload)) == Some((status, payload)),
{
    let b = reply_bytes(status, payload);
    lemma_length_back(payload.len());
    assert(b.subrange(1, 5) =~= length_bytes(payload.len()));
    assert(b.subrange(5, 5 + payload.len() as int) =~= payload);
}

/// A prompt below the limit arrives as it was sent, and a longer one is
/// refused.
pub proof fn law_request_read_back(prompt: Seq<char>)
    requires
        encode_utf8(prompt).len() < 0x1_0000_0000,
    ensures
        read_request(framed(encode_utf8(prompt))) == if encode_utf8(prompt).len() < MAX_PROMPT {
            Some(encode_utf8(prompt))
        } else {
            None
        },
        decode_utf8(encode_utf8(prompt)) == prompt,
        valid_utf8(encode_utf8(prompt)),
{
    let p = encode_utf8(prompt);
    let b = framed(p);
    lemma_length_back(p.len());
    assert(b.take(4) =~= length_bytes(p.len()));
    assert(b.subrange(4, 4 + p.len() as int) =~= p);
    encode_utf8_decode_utf8(prompt);
    encode_utf8_valid_utf8(prompt);
}

/// What the helper prints for the user's answer: the secret and a line end,
/// "yes" for a confirmation; it fails only when there is no answer.
pub proof fn law_answer_reaches_ssh(answer: Option<Seq<char>>, kind: PromptKind)
    requires
        answer is Some ==> encode_utf8(answer->0).len() < 0x1_0000_0000,
    ensures
        ({
            let reply = read_reply(answer_bytes(answer, kind));
            let (status, payload) = reply->0;
            let (out, code) = helper_result(status, payload);
            &&& reply is Some
            &&& (code == 0) == (answer is Some)
            &&& answer is Some && kind is Secret ==> out == encode_utf8(answer->0).push(10)
            &&& answer is Some && kind is YesNo ==> out == seq![121u8, 101u8, 115u8, 10u8]
            &&& answer is None ==> out.len() == 0
        }),
{
    law_reply_read_back(1, seq![]);
    law_reply_read_back(2, seq![]);
    if answer is Some {
        law_reply_read_back(0, encode_utf8(answer->0));
    }
}

/// The name of the socket for a process and the number of its attempt.
pub open spec fn socket_name_text(pid: u32, n: u64) -> Seq<char> {
    "askpass-"@ + decimal(pid as nat) + "-"@ + decimal(n as nat) + ".sock"@
}

/// The name of the socket of a connection attempt.
pub fn socket_name(pid: u32, n: u64) -> (r: String)
    ensures
        r@ == socket_name_text(pid, n),
{
    let mut s = "askpass-".to_owned();
    s.append(to_decimal(pid as u64).as_str());
    s.append("-");
    s.append(to_decimal(n).as_str());
    s.append(".sock");
    s
}

/// The process that a socket's name says it belongs to.
pub open spec fn socket_owner(name: Seq<char>) -> Option<int> {
    match after_prefix(name, "askpass-"@) {
        Some(rest) => match parted(rest, '-') {
            Some((pid, _)) => signed_number_in(pid, i32::MAX as nat),
            None => None,
        },
        None => None,
    }
}

/// The process that a socket's name says it belongs to; where that is gone,
/// the socket is stale.
pub fn socket_pid(name: &str) -> (r: Option<i32>)
    ensures
        match r {
            Some(pid) => socket_owner(name@) == Some(pid as int),
            None => socket_owner(name@) is None,
        },
{
    match strip_prefix(name, "askpass-") {
        Some(rest) => match split_once(rest.as_str(), '-') {
            Some((pid, _)) => parse_i32(pid.as_str()),
            None => None,
        },
        None => None,
    }
}

proof fn lemma_find_after_digits(head: Seq<char>, tail: Seq<char>, i: int)
    requires
        0 <= i <= head.len(),
        tail.len() > 0,
        tail[0] == '-',
        forall|k: int| 0 <= k < head.len() ==> head[k] != '-',
    ensures
        find_char(head + tail, '-', i) == head.len(),
    decreases head.len() - i,
{
    if i < head.len() {
        lemma_find_after_digits(head, tail, i + 1);
    }
}

/// The process is read back from the name of its socket.
pub proof fn law_socket_owner(pid: u32, n: u64)
    requires
        pid <= i32::MAX,
    ensures
        socket_owner(socket_name_text(pid, n)) == Some(pid as int),
{
    let name = socket_name_text(pid, n);
    let prefix = "askpass-"@;
    let digits = decimal(pid as nat);
    let tail = "-"@ + decimal(n as nat) + ".sock"@;
    reveal_strlit("-");
    assert(name =~= prefix + digits + tail);
    assert(name.subrange(0, prefix.len() as int) =~= prefix);
    let rest = digits + tail;
    assert(name.skip(prefix.len() as int) =~= rest);
    law_digits_read_back(pid as nat, 10, i32::MAX as nat);
    crate::text::lemma_digits_back(pid as nat, 10);
    lemma_find_after_digits(digits, tail, 0);
    assert(rest.take(digits.len() as int) =~= digits);
    assert(digits[0] != '-');
}

} // verus!
