//! One turn of the conversation with the model: the progress events it
//! reports, and the decisions it takes on each reply of the model. The
//! model and the tools are called by the caller.
use vstd::prelude::*;
use crate::text::{chars_of, push_chars, push_str, trim, trim_bounds};

verus! {

/// The progress of a turn, reported to the clients.
pub enum ChatEvent {
    /// A tool is called, with (a preview of) its arguments.
    ToolCall { name: String, arguments: String },
    /// A tool came back: whether it succeeded, and a preview of its result.
    ToolResult { name: String, ok: bool, preview: String },
    /// The model's answer.
    Answer { text: String },
    /// The turn failed.
    Error { text: String },
}

/// The most characters of a tool's arguments or result shown in an event.
pub const EVENT_PREVIEW_CHARS: usize = 500;

/// The most model requests in one turn.
pub const MAX_REACT_STEPS: usize = 360;

/// What a preview of `text` shows: the trimmed text, cut to
/// [`EVENT_PREVIEW_CHARS`] characters followed by `…` if longer.
pub open spec fn preview_of(text: Seq<char>) -> Seq<char> {
    let t = trim(text);
    if t.len() <= EVENT_PREVIEW_CHARS {
        t
    } else {
        t.take(EVENT_PREVIEW_CHARS as int) + "…"@
    }
}

/// A preview of `text` for an event.
pub fn preview(text: &str) -> (p: String)
    ensures
        p@ == preview_of(text@),
{
    let v = chars_of(text);
    assert(v@.subrange(0, v@.len() as int) == v@);
    let (a, b) = trim_bounds(v.as_slice(), 0, v.len());
    let mut out = String::new();
    if b - a <= EVENT_PREVIEW_CHARS {
        push_chars(&mut out, v.as_slice(), a, b);
    } else {
        push_chars(&mut out, v.as_slice(), a, a + EVENT_PREVIEW_CHARS);
        assert(v@.subrange(a as int, a + EVENT_PREVIEW_CHARS) == v@.subrange(a as int, b as int).take(
            EVENT_PREVIEW_CHARS as int,
        ));
        push_str(&mut out, "…");
    }
    out
}

/// The event that reports a call of the tool `name` with `arguments`.
pub fn tool_call_event(name: &str, arguments: &str) -> (e: ChatEvent)
    ensures
        e matches ChatEvent::ToolCall { name: n, arguments: a } && n@ == name@ && a@ == preview_of(
            arguments@,
        ),
{
    ChatEvent::ToolCall { name: String::from_str(name), arguments: preview(arguments) }
}

/// What the model is told a tool gave, and the event that reports it: the
/// tool's output, or the reason it failed after `工具执行失败: `.
pub fn tool_result(name: &str, outcome: Result<String, String>) -> (r: (String, ChatEvent))
    ensures
        r.0@ == match outcome {
            Ok(out) => out@,
            Err(e) => "工具执行失败: "@ + e@,
        },
        r.1 matches ChatEvent::ToolResult { name: n, ok, preview: p } && n@ == name@ && ok
            == outcome is Ok && p@ == preview_of(r.0@),
{
    let (text, ok) = match outcome {
        Ok(out) => (out, true),
        Err(e) => {
            let mut t = String::from_str("工具执行失败: ");
            push_str(&mut t, e.as_str());
            (t, false)
        },
    };
    let p = preview(text.as_str());
    (text, ChatEvent::ToolResult { name: String::from_str(name), ok, preview: p })
}

/// What a turn does with a reply of the model.
pub enum ReplyStep {
    /// Run the tools it calls and ask the model again.
    CallTools,
    /// The reply is the answer: report it and end the turn.
    Answer(String),
    /// The reply holds neither tool calls nor text: the turn fails.
    Fail(String),
}

/// The message of a turn that ends on a reply with neither tool calls nor
/// text.
pub const EMPTY_REPLY: &'static str = "模型既没有文本，也没有工具调用";

/// The message of a turn that runs out of steps.
pub const TOO_MANY_STEPS: &'static str = "ReAct 超过最大步数";

/// The message of a turn whose reply calls a custom tool.
pub const CUSTOM_TOOL: &'static str = "暂不支持 custom tool";

/// What to do with a reply of the model that calls `tool_calls` tools and
/// holds the text `content`: tool calls come first, then the text.
pub fn reply_step(tool_calls: usize, content: Option<String>) -> (s: ReplyStep)
    ensures
        tool_calls > 0 ==> s is CallTools,
        tool_calls == 0 ==> match content {
            Some(c) => s matches ReplyStep::Answer(a) && a == c,
            None => s matches ReplyStep::Fail(m) && m@ == EMPTY_REPLY@,
        },
{
    if tool_calls > 0 {
        return ReplyStep::CallTools;
    }
    match content {
        Some(c) => ReplyStep::Answer(c),
        None => ReplyStep::Fail(String::from_str(EMPTY_REPLY)),
    }
}

/// The line the plain TCP interface writes for an event: the answer after
/// `model:`, an error after `error: `, nothing for tool progress.
pub fn tcp_line(event: &ChatEvent) -> (line: Option<String>)
    ensures
        match event {
            ChatEvent::Answer { text } => line matches Some(l) && l@ == "model:"@ + text@ + "\n"@,
            ChatEvent::Error { text } => line matches Some(l) && l@ == "error: "@ + text@ + "\n"@,
            _ => line is None,
        },
{
    match event {
        ChatEvent::Answer { text } => {
            let mut l = String::from_str("model:");
            push_str(&mut l, text.as_str());
            push_str(&mut l, "\n");
            Some(l)
        },
        ChatEvent::Error { text } => {
            let mut l = String::from_str("error: ");
            push_str(&mut l, text.as_str());
            push_str(&mut l, "\n");
            Some(l)
        },
        _ => None,
    }
}

/// The count of the model requests of one turn.
pub struct Turn {
    pub requests: usize,
}

impl Turn {
    /// A turn before its first request.
    pub fn new() -> (t: Turn)
        ensures
            t.requests == 0,
    {
        Turn { requests: 0 }
    }

    /// Whether the turn may ask the model once more, counting that request:
    /// it may while fewer than [`MAX_REACT_STEPS`] were made.
    pub fn ask(&mut self) -> (allowed: bool)
        ensures
            allowed == (old(self).requests < MAX_REACT_STEPS),
            allowed ==> final(self).requests == old(self).requests + 1,
            !allowed ==> final(self).requests == old(self).requests,
            old(self).requests <= MAX_REACT_STEPS ==> final(self).requests <= MAX_REACT_STEPS,
    {
        if self.requests < MAX_REACT_STEPS {
            self.requests = self.requests + 1;
            true
        } else {
            false
        }
    }
}

} // verus!
