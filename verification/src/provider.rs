//! The provider adapter's data handling: the transcript items a reasoning
//! request is built from, their translation into role-tagged chat messages
//! for the conversational backend protocol, normalization of backend
//! replies into one response shape, and extraction of tool arguments.
//! The HTTP transport around these lives in the surrounding program.

use vstd::prelude::*;
use vstd::string::StringExecFns;
use vstd::string::StringSliceAdditionalSpecFns;

verus! {

/// Longest tool-result text a translated message may carry.
pub const MAX_TOOL_CONTENT: usize = 16000;

/// One part of a multimodal message: plain text, or an image by data URL.
pub enum ContentPart {
    Text(String),
    Image(String),
}

/// One raw tool call as a backend reply carries it.
pub struct WireCall {
    /// The backend's call id, when it gave one.
    pub id: Option<String>,
    /// The tool's name, when present.
    pub name: Option<String>,
    /// The argument object as JSON text, when present.
    pub arguments: Option<String>,
}

/// One item of the running reasoning input.
pub enum InputItem {
    /// A role-tagged plain message.
    Message { role: String, content: String },
    /// A role-tagged multimodal message.
    MessageParts { role: String, parts: Vec<ContentPart> },
    /// A tool's output, fed back under its call id.
    ToolOutput { call_id: String, name: String, output: String },
    /// The replayable record of an assistant turn that requested tools.
    AssistantCalls { text: Option<String>, calls: Vec<WireCall> },
}

/// One message of the conversational wire protocol.
pub struct ChatMessage {
    /// "system", "user", "assistant" or "tool".
    pub role: String,
    /// The plain text content, where the message has one.
    pub content: Option<String>,
    /// Multimodal parts, where the message has those instead.
    pub parts: Vec<ContentPart>,
    /// The call this tool-result message answers.
    pub tool_call_id: Option<String>,
    /// The tool calls an assistant turn carried.
    pub calls: Vec<WireCall>,
}

/// A tool-result text over the cap is cut and marked.
pub open spec fn tool_content_clip(s: Seq<char>) -> Seq<char> {
    if s.len() > MAX_TOOL_CONTENT {
        s.subrange(0, MAX_TOOL_CONTENT as int) + "\n...(truncated)"@
    } else {
        s
    }
}

fn clip_tool_content(s: &str) -> (r: String)
    ensures
        r@ == tool_content_clip(s@),
{
    let chars = crate::strutil::str_chars(s);
    if chars.len() > MAX_TOOL_CONTENT {
        let head = vstd::slice::slice_subrange(chars.as_slice(), 0, MAX_TOOL_CONTENT);
        let mut out: Vec<char> = Vec::new();
        let mut i: usize = 0;
        while i < head.len()
            invariant
                i <= head@.len(),
                out@ == head@.subrange(0, i as int),
            decreases head@.len() - i,
        {
            out.push(head[i]);
            proof {
                assert(out@ =~= head@.subrange(0, i + 1));
            }
            i += 1;
        }
        proof {
            assert(out@ =~= head@);
        }
        let mut r = crate::strutil::chars_to_string(&out);
        r.append("\n...(truncated)");
        r
    } else {
        s.to_owned()
    }
}

/// How one input item reads as a chat message: tool outputs become "tool"
/// messages with clipped content under their call id; everything else
/// keeps its role, content and parts.
pub open spec fn translated_ok(item: InputItem, m: ChatMessage) -> bool {
    match item {
        InputItem::Message { role, content } => {
            &&& m.role@ == role@
            &&& m.content is Some
            &&& m.content->Some_0@ == content@
            &&& m.tool_call_id is None
            &&& m.parts@.len() == 0
            &&& m.calls@.len() == 0
        },
        InputItem::MessageParts { role, parts } => {
            &&& m.role@ == role@
            &&& m.content is None
            &&& m.tool_call_id is None
            &&& m.parts@ == parts@
            &&& m.calls@.len() == 0
        },
        InputItem::ToolOutput { call_id, name, output } => {
            &&& m.role@ == "tool"@
            &&& m.content is Some
            &&& m.content->Some_0@ == tool_content_clip(output@)
            &&& m.tool_call_id is Some
            &&& m.tool_call_id->Some_0@ == call_id@
            &&& m.parts@.len() == 0
            &&& m.calls@.len() == 0
        },
        InputItem::AssistantCalls { text, calls } => {
            &&& m.role@ == "assistant"@
            &&& (match text {
                Some(t) => m.content is Some && m.content->Some_0@ == t@,
                None => m.content is None,
            })
            &&& m.tool_call_id is None
            &&& m.parts@.len() == 0
            &&& m.calls@ == calls@
        },
    }
}

/// Translate reasoning-input items into conversational-protocol messages:
/// the instructions lead as a system message, then one message per item in
/// order.
pub fn translate_input_to_messages(items: Vec<InputItem>, instructions: Option<&str>) -> (r: Vec<
    ChatMessage,
>)
    ensures
        ({
            let lead: int = if instructions is Some {
                1
            } else {
                0
            };
            &&& r@.len() == lead + items@.len()
            &&& (instructions matches Some(inst) ==> r@[0].role@ == "system"@ && r@[0].content
                is Some && r@[0].content->Some_0@ == inst@)
            &&& forall|i: int|
                0 <= i < items@.len() ==> translated_ok(items@[i], #[trigger] r@[lead + i])
        }),
{
    let mut out: Vec<ChatMessage> = Vec::new();
    let ghost lead: int = if instructions is Some {
        1int
    } else {
        0int
    };
    match instructions {
        Some(inst) => {
            out.push(
                ChatMessage {
                    role: String::from_str("system"),
                    content: Some(inst.to_owned()),
                    parts: Vec::new(),
                    tool_call_id: None,
                    calls: Vec::new(),
                },
            );
        },
        None => {},
    }
    let mut work = items;
    let ghost orig = work@;
    let n = work.len();
    let mut i: usize = 0;
    proof {
        assert(work@ =~= orig.skip(0));
    }
    while i < n
        invariant
            i <= n,
            n == orig.len(),
            work@ == orig.skip(i as int),
            out@.len() == lead + i,
            lead == if instructions is Some {
                1int
            } else {
                0int
            },
            instructions matches Some(inst) ==> out@[0].role@ == "system"@ && out@[0].content
                is Some && out@[0].content->Some_0@ == inst@,
            forall|j: int| 0 <= j < i ==> translated_ok(orig[j], #[trigger] out@[lead + j]),
        decreases n - i,
    {
        proof {
            assert(work@[0] == orig[i as int]);
        }
        let item = work.remove(0);
        proof {
            assert(work@ =~= orig.skip(i + 1));
        }
        let msg = match item {
            InputItem::Message { role, content } => ChatMessage {
                role,
                content: Some(content),
                parts: Vec::new(),
                tool_call_id: None,
                calls: Vec::new(),
            },
            InputItem::MessageParts { role, parts } => ChatMessage {
                role,
                content: None,
                parts,
                tool_call_id: None,
                calls: Vec::new(),
            },
            InputItem::ToolOutput { call_id, name, output } => ChatMessage {
                role: String::from_str("tool"),
                content: Some(clip_tool_content(output.as_str())),
                parts: Vec::new(),
                tool_call_id: Some(call_id),
                calls: Vec::new(),
            },
            InputItem::AssistantCalls { text, calls } => ChatMessage {
                role: String::from_str("assistant"),
                content: text,
                parts: Vec::new(),
                tool_call_id: None,
                calls,
            },
        };
        out.push(msg);
        i += 1;
    }
    proof {
        assert(orig == items@);
    }
    out
}

/// A normalized tool call: name, raw argument text, call id.
pub struct ToolCall {
    pub name: String,
    pub arguments: String,
    pub call_id: String,
}

/// A normalized reasoning response: the optional text, the ordered tool
/// calls, and the replayable assistant record for follow-up input.
pub struct LlmResponse {
    pub text: Option<String>,
    pub tool_calls: Vec<ToolCall>,
    pub replay: Option<InputItem>,
}

/// The decimal digit characters of `n`.
pub open spec fn dec_chars(n: nat) -> Seq<char>
    decreases n,
{
    if n < 10 {
        seq![((48 + n) as u8) as char]
    } else {
        dec_chars(n / 10) + seq![((48 + n % 10) as u8) as char]
    }
}

fn push_dec_chars(out: &mut Vec<char>, n: u64)
    ensures
        final(out)@ == old(out)@ + dec_chars(n as nat),
    decreases n,
{
    if n < 10 {
        out.push((48 + n as u8) as char);
        proof {
            assert(out@ =~= old(out)@ + dec_chars(n as nat));
        }
    } else {
        push_dec_chars(out, n / 10);
        out.push((48 + (n % 10) as u8) as char);
        proof {
            assert(out@ =~= old(out)@ + dec_chars(n as nat));
        }
    }
}

/// The synthesized id of the `i`-th call of a reply that came without one.
pub open spec fn fallback_call_id(name: Seq<char>, i: nat) -> Seq<char> {
    "call_"@ + name + "_"@ + dec_chars(i)
}

fn make_fallback_id(name: &str, i: u64) -> (r: String)
    ensures
        r@ == fallback_call_id(name@, i as nat),
{
    let mut out = String::from_str("call_");
    out.append(name);
    out.append("_");
    let mut digits: Vec<char> = Vec::new();
    push_dec_chars(&mut digits, i);
    let ds = crate::strutil::chars_to_string(&digits);
    out.append(ds.as_str());
    out
}

/// How one raw call normalizes: missing names and arguments become empty,
/// a missing id is synthesized from the name and position.
pub open spec fn normalized_call_ok(raw: WireCall, i: nat, c: ToolCall) -> bool {
    &&& c.name@ == (match raw.name {
        Some(n) => n@,
        None => Seq::<char>::empty(),
    })
    &&& c.arguments@ == (match raw.arguments {
        Some(a) => a@,
        None => Seq::<char>::empty(),
    })
    &&& c.call_id@ == (match raw.id {
        Some(id) => id@,
        None => fallback_call_id(
            match raw.name {
                Some(n) => n@,
                None => Seq::<char>::empty(),
            },
            i,
        ),
    })
}

/// Normalize a conversational-protocol reply: the text passes through,
/// each raw call gets a name, arguments and an id (synthesized when the
/// backend gave none), and a turn that requested tools leaves a replayable
/// assistant record.
pub fn normalize_completions_response(text: Option<String>, raw_calls: Vec<WireCall>) -> (r:
    LlmResponse)
    requires
        raw_calls@.len() < 1000000,
    ensures
        r.text == text,
        r.tool_calls@.len() == raw_calls@.len(),
        forall|i: int|
            0 <= i < raw_calls@.len() ==> normalized_call_ok(
                raw_calls@[i],
                i as nat,
                #[trigger] r.tool_calls@[i],
            ),
        raw_calls@.len() == 0 ==> r.replay is None,
        raw_calls@.len() > 0 ==> r.replay is Some,
{
    let mut raw = raw_calls;
    let ghost orig = raw@;
    let n = raw.len();
    let mut calls: Vec<ToolCall> = Vec::new();
    let mut replay_calls: Vec<WireCall> = Vec::new();
    let mut i: usize = 0;
    proof {
        assert(raw@ =~= orig.skip(0));
    }
    while i < n
        invariant
            i <= n,
            n == orig.len(),
            n < 1000000,
            raw@ == orig.skip(i as int),
            calls@.len() == i,
            forall|j: int|
                0 <= j < i ==> normalized_call_ok(orig[j], j as nat, #[trigger] calls@[j]),
            replay_calls@.len() == i,
        decreases n - i,
    {
        proof {
            assert(raw@[0] == orig[i as int]);
        }
        let rc = raw.remove(0);
        proof {
            assert(raw@ =~= orig.skip(i + 1));
        }
        let name: String = match rc.name {
            Some(nm) => nm,
            None => String::new(),
        };
        let arguments: String = match rc.arguments {
            Some(a) => a,
            None => String::new(),
        };
        let call_id: String = match rc.id {
            Some(id) => id,
            None => make_fallback_id(name.as_str(), i as u64),
        };
        let id_copy = call_id.as_str().to_owned();
        let name_copy = name.as_str().to_owned();
        let args_copy = arguments.as_str().to_owned();
        calls.push(ToolCall { name, arguments, call_id });
        replay_calls.push(
            WireCall { id: Some(id_copy), name: Some(name_copy), arguments: Some(args_copy) },
        );
        i += 1;
    }
    proof {
        assert(orig == raw_calls@);
    }
    let replay: Option<InputItem> = if calls.len() > 0 {
        let text_copy: Option<String> = match &text {
            Some(t) => Some(t.as_str().to_owned()),
            None => None,
        };
        Some(InputItem::AssistantCalls { text: text_copy, calls: replay_calls })
    } else {
        None
    };
    LlmResponse { text, tool_calls: calls, replay }
}

// ---------------------------------------------------------------------------
// Tool argument extraction
// ---------------------------------------------------------------------------

/// The first position where `pat` occurs in `s` at or after `from`.
pub open spec fn first_bytes_at(s: Seq<u8>, pat: Seq<u8>, from: int) -> Option<int>
    decreases s.len() - from,
    when 0 <= from
{
    if from + pat.len() > s.len() {
        None
    } else if pat.len() == 0 {
        Some(from)
    } else if s.subrange(from, from + pat.len()) == pat {
        Some(from)
    } else {
        first_bytes_at(s, pat, from + 1)
    }
}

fn find_bytes(s: &[u8], pat: &[u8], from: usize) -> (r: Option<usize>)
    ensures
        match r {
            Some(i) => first_bytes_at(s@, pat@, from as int) == Some(i as int) && from <= i
                && i + pat@.len() <= s@.len(),
            None => first_bytes_at(s@, pat@, from as int) is None,
        },
    decreases s@.len() - from,
{
    if from > s.len() || pat.len() > s.len() - from {
        return None;
    }
    if pat.len() == 0 {
        return Some(from);
    }
    let sub = vstd::slice::slice_subrange(s, from, from + pat.len());
    if crate::strutil::bytes_eq(sub, pat) {
        Some(from)
    } else {
        find_bytes(s, pat, from + 1)
    }
}

/// The string value of a key in a JSON argument object, as the encoder and
/// backends write it: the first `"key":"` occurrence, its value read with
/// the ledger's field scanner. Anything else yields nothing, and the
/// caller degrades to a default rather than failing the call.
pub open spec fn json_str_field(obj: Seq<u8>, keypat: Seq<u8>) -> Option<Seq<u8>> {
    match first_bytes_at(obj, keypat, 0) {
        None => None,
        Some(i) => match crate::ledger::scan_string(obj, i + keypat.len()) {
            Some((v, _)) => Some(v),
            None => None,
        },
    }
}

/// Extract a string field from a JSON argument object. `keypat` must be
/// the quoted key with its colon and opening quote, e.g. `"command":"`.
pub fn get_json_str_field(obj: &str, keypat: &[u8]) -> (r: Option<String>)
    ensures
        match r {
            Some(v) => json_str_field(obj.spec_bytes(), keypat@) is Some && vstd::utf8::encode_utf8(
                v@,
            ) == json_str_field(obj.spec_bytes(), keypat@)->Some_0,
            None => json_str_field(obj.spec_bytes(), keypat@) is None || !vstd::utf8::valid_utf8(
                json_str_field(obj.spec_bytes(), keypat@)->Some_0,
            ),
        },
{
    broadcast use vstd::utf8::decode_utf8_encode_utf8;

    let bytes = obj.as_bytes();
    let n = bytes.len();
    match find_bytes(bytes, keypat, 0) {
        None => None,
        Some(i) => {
            proof {
                assert(i + keypat@.len() <= n);
            }
            match crate::ledger::scan_string_exec(bytes, i + keypat.len()) {
                Some((v, _)) => {
                    match crate::ledger::vec_to_string(v) {
                        Some(s) => Some(s),
                        None => None,
                    }
                },
                None => None,
            }
        },
    }
}

/// The numeric value of a key in a JSON argument object.
pub open spec fn json_nat_field(obj: Seq<u8>, keypat: Seq<u8>) -> Option<nat> {
    match first_bytes_at(obj, keypat, 0) {
        None => None,
        Some(i) => {
            let (v, j) = crate::ledger::scan_digits(obj, i + keypat.len(), 0);
            if j == i + keypat.len() {
                None
            } else {
                Some(v)
            }
        },
    }
}

/// Extract a small numeric field from a JSON argument object; values past
/// `max` clamp to it.
pub fn get_json_nat_field(obj: &str, keypat: &[u8], max: u64) -> (r: Option<u64>)
    requires
        max <= 1000000,
    ensures
        match r {
            Some(v) => json_nat_field(obj.spec_bytes(), keypat@) is Some && v == (if json_nat_field(
                obj.spec_bytes(),
                keypat@,
            )->Some_0 > max {
                max as nat
            } else {
                json_nat_field(obj.spec_bytes(), keypat@)->Some_0
            }),
            None => json_nat_field(obj.spec_bytes(), keypat@) is None,
        },
{
    let bytes = obj.as_bytes();
    let n = bytes.len();
    match find_bytes(bytes, keypat, 0) {
        None => None,
        Some(i) => {
            proof {
                assert(i + keypat@.len() <= n);
            }
            let p = i + keypat.len();
            match crate::ledger::parse_number(bytes, p, 1000000000000000u64) {
                Some((v, _)) => {
                    if v > max {
                        Some(max)
                    } else {
                        Some(v)
                    }
                },
                None => {
                    if p < n && 48 <= bytes[p] && bytes[p] <= 57 {
                        proof {
                            crate::ledger::lemma_scan_digits_monotone(
                                bytes@,
                                p + 1,
                                (bytes@[p as int] - 48) as nat,
                            );
                        }
                        // digits are present, so the value passed the
                        // scanner's cap and clamps to the maximum
                        Some(max)
                    } else {
                        None
                    }
                },
            }
        },
    }
}

} // verus!
