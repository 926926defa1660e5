//! The system prompt, and how the server answers a message that a web
//! client sends over its socket.
use vstd::prelude::*;
use crate::skills::{Skill, prompt_section, skills_section, views};
use crate::text::{parse_decimal, parse_unsigned, push_str, trim, trimmed};
use crate::tools::{from_utf8_lossy, utf8_lossy};

verus! {

/// The fixed part of the system prompt: who the assistant is and how it
/// writes.
pub const BASE_PROMPT: &'static str = "
                你是一个上海交通大学校园信息查询助手兼学习工作小助手，名字是“交我集”，自称“小集”
                *工作规则*
                1.始终把自己当作'小集'，性格平稳，除非用户显式指定你的角色和说话方式，否则不许改变
                2.会话的创建、时间戳、历史消息与工具调用由服务端自动保存，无需自行创建、重命名或修改 sessions 会话文件。

                *输出规则*
                - 禁止使用 LaTeX，不要出现 $...$、\\frac、\\varepsilon、\\mathrm 这类写法
                - 数学式用单行 Unicode：V(r) = Q₁/(4πε₀) · (1/r − 1/R₂)
                - 分式写成 a/b 或 (a)/(b)，括号该加就加
                - 上下标用 ₀₁₂₃ 和 ⁰¹²，希腊字母直接写 ε π ρ λ Ω
                - 多行推导每行两个空格缩进，不要用 \\[ \\] 块
                ";

/// The system prompt: the fixed part followed by the section that lists
/// `skills`.
pub fn system_prompt(skills: &[Skill]) -> (prompt: String)
    ensures
        prompt@ == BASE_PROMPT@ + skills_section(views(skills@)),
{
    let mut prompt = String::new();
    push_str(&mut prompt, BASE_PROMPT);
    let section = prompt_section(skills);
    push_str(&mut prompt, section.as_str());
    prompt
}

/// The port that the setting `value` names: the setting read as a port
/// number, or `default` where it is missing or is no port number.
pub fn port_or(value: Option<&str>, default: u16) -> (port: u16)
    ensures
        port == match value {
            Some(v) => match parse_unsigned(v@, 65535) {
                Some(n) => n as u16,
                None => default,
            },
            None => default,
        },
{
    match value {
        Some(v) => match parse_decimal(v, 65535) {
            Some(n) => n as u16,
            None => default,
        },
        None => default,
    }
}

/// The port of the web interface when none is set.
pub const DEFAULT_HTTP_PORT: u16 = 8080;

/// The port of the plain TCP interface when none is set.
pub const DEFAULT_TCP_PORT: u16 = 8081;

/// The word that ends a conversation, on either interface.
pub const QUIT: &'static str = "/quit";

/// The answer to a message whose session is no longer the selected one.
pub const SESSION_SWITCHED: &'static str = "会话已切换，请重新发送";

/// What the server does with a message that a web client sends.
pub enum SocketAction {
    /// Follow the session `session_id` from now on.
    Switch { session_id: String },
    /// Nothing.
    Ignore,
    /// Close the connection.
    Quit,
    /// Start a turn of the selected session on `prompt`.
    Start { prompt: String },
    /// Answer `text` as an error of the session `session_id`.
    Refuse { session_id: String, text: String },
}

/// Whether a message of type `kind` asks to follow another session.
pub open spec fn is_switch(kind: Option<&str>) -> bool {
    kind matches Some(k) && k@ == "switch_session"@
}

/// What the server does with a message of type `kind` that names
/// `session_id` and holds `text`, while `selected` is the session the
/// connection follows: a switch goes to the named session (and is ignored
/// without one); otherwise the trimmed text is ignored if empty, ends the
/// connection if it is [`QUIT`], and starts a turn if the message names the
/// selected session or none, else is refused.
pub fn route_message(kind: Option<&str>, session_id: Option<&str>, text: Option<&str>, selected: &str) -> (a:
    SocketAction)
    ensures
        is_switch(kind) ==> match session_id {
            Some(id) => a matches SocketAction::Switch { session_id: s } && s@ == id@,
            None => a is Ignore,
        },
        !is_switch(kind) ==> {
            let prompt = trim(
                match text {
                    Some(t) => t@,
                    None => Seq::<char>::empty(),
                },
            );
            let requested = match session_id {
                Some(id) => id@,
                None => selected@,
            };
            if prompt.len() == 0 {
                a is Ignore
            } else if prompt == QUIT@ {
                a is Quit
            } else if requested != selected@ {
                a matches SocketAction::Refuse { session_id: s, text: t } && s@ == requested
                    && t@ == SESSION_SWITCHED@
            } else {
                a matches SocketAction::Start { prompt: p } && p@ == prompt
            }
        },
{
    let is_switch = match kind {
        Some(k) => crate::text::str_eq(k, "switch_session"),
        None => false,
    };
    if is_switch {
        return match session_id {
            Some(id) => SocketAction::Switch { session_id: String::from_str(id) },
            None => SocketAction::Ignore,
        };
    }
    let prompt = match text {
        Some(t) => trimmed(t),
        None => String::new(),
    };
    if prompt.as_str().is_empty() {
        return SocketAction::Ignore;
    }
    if crate::text::str_eq(prompt.as_str(), QUIT) {
        return SocketAction::Quit;
    }
    let requested = match session_id {
        Some(id) => id,
        None => selected,
    };
    if !crate::text::str_eq(requested, selected) {
        return SocketAction::Refuse {
            session_id: String::from_str(requested),
            text: String::from_str(SESSION_SWITCHED),
        };
    }
    SocketAction::Start { prompt }
}

/// What the plain TCP interface makes of the bytes `input` that a client
/// sent: nothing if they spell [`QUIT`] (around white space), which ends the
/// connection; else the prompt, read as UTF-8 with each invalid sequence
/// replaced.
pub fn tcp_prompt(input: &[u8]) -> (r: Option<String>)
    ensures
        match r {
            None => trim(utf8_lossy(input@)) == QUIT@,
            Some(p) => p@ == utf8_lossy(input@) && trim(p@) != QUIT@,
        },
{
    let prompt = from_utf8_lossy(input);
    if is_quit(prompt.as_str()) {
        None
    } else {
        Some(prompt)
    }
}

/// Whether `text`, around white space, is [`QUIT`].
pub fn is_quit(text: &str) -> (b: bool)
    ensures
        b == (trim(text@) == QUIT@),
{
    let t = trimmed(text);
    crate::text::str_eq(t.as_str(), QUIT)
}

/// Which directory a setting and the working directory select.
pub enum DirChoice {
    /// The directory the setting names.
    Configured(String),
    /// The directory of that name in the working directory.
    Here,
    /// The directory of that name next to the working directory.
    Parent,
}

/// The directory of the web client or of the skills: the one the setting
/// names, else the one in the working directory if it is there, else the
/// one next to it.
pub fn dir_choice(configured: Option<String>, here_is_dir: bool) -> (d: DirChoice)
    ensures
        match configured {
            Some(c) => d matches DirChoice::Configured(p) && p == c,
            None => if here_is_dir {
                d is Here
            } else {
                d is Parent
            },
        },
{
    match configured {
        Some(c) => DirChoice::Configured(c),
        None => if here_is_dir {
            DirChoice::Here
        } else {
            DirChoice::Parent
        },
    }
}

/// The directory of the sessions: the one the setting names, else the one
/// in the working directory unless only the one next to it is there.
pub fn sessions_dir_choice(configured: Option<String>, here_is_dir: bool, parent_is_dir: bool) -> (d:
    DirChoice)
    ensures
        match configured {
            Some(c) => d matches DirChoice::Configured(p) && p == c,
            None => if here_is_dir || !parent_is_dir {
                d is Here
            } else {
                d is Parent
            },
        },
{
    match configured {
        Some(c) => DirChoice::Configured(c),
        None => if here_is_dir || !parent_is_dir {
            DirChoice::Here
        } else {
            DirChoice::Parent
        },
    }
}

} // verus!
