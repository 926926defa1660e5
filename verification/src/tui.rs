//! The terminal client's state: the session it shows, what the user is
//! typing, and how messages from the server and key presses change that
//! state. Drawing and the terminal and network I/O stay with the caller.
use vstd::prelude::*;
use crate::text::{
    chars_of, find_char, first_of, lines, lines_of, push_chars, push_str, string_from, trim,
    trimmed,
};

verus! {

/// What the client knows of the session it shows.
pub struct SessionSummary {
    pub id: String,
    pub title: String,
    pub busy: bool,
    pub revision: u64,
}

/// A session event as the client keeps it for the history.
pub enum ChatEvent {
    User { text: String },
    Answer { text: String },
    ToolCall { name: String },
    ToolResult,
    Error { text: String },
    Done,
    Unknown,
}

/// A message from the server.
pub enum ServerMessage {
    /// The whole session: replaces what the client shows.
    SessionSnapshot { session: SessionSummary, events: Vec<ChatEvent>, save_error: Option<String> },
    /// One new event of the session.
    SessionEvent { session: SessionSummary, event: ChatEvent },
    /// A message the client sent was refused.
    RequestError { text: String },
    /// A session could not be opened.
    SessionError { text: String },
}

/// What the connection to the server reports.
pub enum NetworkEvent {
    Message(ServerMessage),
    InvalidMessage(String),
    Disconnected(String),
}

/// A key press, as the client tells them apart.
pub enum Key {
    /// A character key; `control` tells whether Ctrl was held.
    Char { c: char, control: bool },
    Esc,
    Enter,
    Backspace,
    Delete,
    Left,
    Right,
    Home,
    End,
    Up,
    PageUp,
    Down,
    PageDown,
    Other,
}

/// What sending the typed message comes to.
pub enum SendDecision {
    /// Nothing is sent; the status says why.
    Refused,
    /// The client is ready but holds no session to send to.
    NoSession,
    /// Send `text` to the session `session_id`.
    Send { session_id: String, text: String },
}

/// The terminal client's state.
pub struct App {
    pub session: Option<SessionSummary>,
    pub events: Vec<ChatEvent>,
    pub input: String,
    pub cursor: usize,
    pub scroll: u16,
    pub follow_tail: bool,
    pub connected: bool,
    pub ready: bool,
    pub sending: bool,
    pub status: String,
    pub should_quit: bool,
}

/// The status shown when nothing more specific is to be said.
pub open spec fn status_for(connected: bool, ready: bool, busy: bool) -> Seq<char> {
    if !connected {
        "连接已断开"@
    } else if !ready {
        "正在同步会话…"@
    } else if busy {
        "正在处理…"@
    } else {
        "就绪"@
    }
}

/// Whether the session `s` (if any) is busy.
pub open spec fn session_busy(s: Option<SessionSummary>) -> bool {
    match s {
        Some(s) => s.busy,
        None => false,
    }
}

/// The revision of the session `s`, 0 without one.
pub open spec fn session_revision(s: Option<SessionSummary>) -> u64 {
    match s {
        Some(s) => s.revision,
        None => 0,
    }
}

/// The position of the cursor within a text of `len` characters.
pub open spec fn clamp_cursor(cursor: int, len: int) -> int {
    if cursor < len {
        cursor
    } else {
        len
    }
}

/// The state `after` is what `before` becomes once `message` is taken in.
pub open spec fn applied(before: App, message: ServerMessage, after: App) -> bool {
    match message {
        ServerMessage::SessionSnapshot { session, events, save_error } => if before.ready
            && session.revision < session_revision(before.session) {
            after == before
        } else {
            &&& after == (App {
                events,
                session: Some(session),
                ready: true,
                sending: false,
                status: after.status,
                follow_tail: true,
                ..before
            })
            &&& after.status@ == match save_error {
                Some(e) => e@,
                None => status_for(before.connected, true, session.busy),
            }
        },
        ServerMessage::SessionEvent { session, event } => if before.ready
            && session.revision <= session_revision(before.session) {
            after == before
        } else {
            let echo = event is User && before.sending;
            &&& after == (App {
                events: after.events,
                session: Some(session),
                status: after.status,
                input: if echo {
                    after.input
                } else {
                    before.input
                },
                cursor: if echo {
                    0
                } else {
                    before.cursor
                },
                sending: before.sending && !echo,
                ..before
            })
            &&& after.events@ == before.events@.push(event)
            &&& echo ==> after.input@ == Seq::<char>::empty()
            &&& after.status@ == status_for(
                before.connected,
                before.ready,
                session.busy,
            )
        },
        ServerMessage::RequestError { text } | ServerMessage::SessionError { text } => after == (App {
            sending: false,
            status: text,
            ..before
        }),
    }
}

/// The state `after` is `before` with `c` typed at the cursor (at the end
/// of the text if the cursor is beyond it) and the cursor one place on.
pub open spec fn typed(before: App, c: char, after: App) -> bool {
    let len = before.input@.len() as int;
    let at = clamp_cursor(before.cursor as int, len);
    &&& after == (App { input: after.input, cursor: after.cursor, ..before })
    &&& after.cursor == before.cursor + 1
    &&& after.input@ == before.input@.take(at).push(c) + before.input@.skip(at)
}

/// The state `after` is `before` with the character before the cursor
/// removed (none if the cursor is beyond the text) and the cursor one place
/// back; at the start of the text nothing changes.
pub open spec fn erased_back(before: App, after: App) -> bool {
    if before.cursor == 0 {
        after == before
    } else {
        &&& after == (App { input: after.input, cursor: after.cursor, ..before })
        &&& after.cursor == before.cursor - 1
        &&& after.input@ == if before.cursor <= before.input@.len() {
            before.input@.remove(before.cursor - 1)
        } else {
            before.input@
        }
    }
}

/// The state `after` is what `before` becomes once `key` is pressed.
pub open spec fn key_handled(before: App, key: Key, after: App) -> bool {
    let len = before.input@.len() as int;
    match key {
        Key::Char { c, control } => if control && c == 'c' {
            after == (App { should_quit: true, ..before })
        } else {
            typed(before, c, after)
        },
        Key::Esc => after == (App { should_quit: true, ..before }),
        Key::Enter => after == before,
        Key::Backspace => erased_back(before, after),
        Key::Delete => if before.cursor >= len {
            after == before
        } else {
            &&& after == (App { input: after.input, ..before })
            &&& after.input@ == before.input@.remove(before.cursor as int)
        },
        Key::Left => after == (App {
            cursor: if before.cursor > 0 {
                (before.cursor - 1) as usize
            } else {
                0
            },
            ..before
        }),
        Key::Right => after == (App {
            cursor: clamp_cursor(before.cursor + 1, len) as usize,
            ..before
        }),
        Key::Home => after == (App { cursor: 0, ..before }),
        Key::End => after == (App { cursor: len as usize, ..before }),
        Key::Up | Key::PageUp => after == (App {
            follow_tail: false,
            scroll: if before.scroll >= 5 {
                (before.scroll - 5) as u16
            } else {
                0
            },
            ..before
        }),
        Key::Down | Key::PageDown => after == (App {
            scroll: if before.scroll + 5 > u16::MAX {
                u16::MAX
            } else {
                (before.scroll + 5) as u16
            },
            ..before
        }),
        Key::Other => after == before,
    }
}

impl App {
    /// Whether the shown session is busy with a message.
    pub open spec fn spec_is_busy(&self) -> bool {
        session_busy(self.session)
    }

    /// Whether the typed message may be sent now.
    pub open spec fn spec_can_send(&self) -> bool {
        &&& self.connected
        &&& self.ready
        &&& !self.spec_is_busy()
        &&& !self.sending
        &&& trim(self.input@).len() > 0
    }

    /// A client that is still connecting: following the end of the history,
    /// everything else empty or off.
    pub fn new() -> (app: Self)
        ensures
            app.session is None,
            app.events@.len() == 0,
            app.input@ == Seq::<char>::empty(),
            app.cursor == 0,
            app.scroll == 0,
            app.follow_tail,
            !app.connected,
            !app.ready,
            !app.sending,
            app.status@ == "正在连接后端…"@,
            !app.should_quit,
    {
        App {
            session: None,
            events: Vec::new(),
            input: String::new(),
            cursor: 0,
            scroll: 0,
            follow_tail: true,
            connected: false,
            ready: false,
            sending: false,
            status: String::from_str("正在连接后端…"),
            should_quit: false,
        }
    }

    /// The status to show when nothing more specific is to be said.
    pub fn default_status(&self) -> (s: &'static str)
        ensures
            s@ == status_for(self.connected, self.ready, self.spec_is_busy()),
    {
        if !self.connected {
            "连接已断开"
        } else if !self.ready {
            "正在同步会话…"
        } else if self.is_busy() {
            "正在处理…"
        } else {
            "就绪"
        }
    }

    /// Whether the shown session is busy with a message.
    pub fn is_busy(&self) -> (b: bool)
        ensures
            b == self.spec_is_busy(),
    {
        match &self.session {
            Some(session) => session.busy,
            None => false,
        }
    }

    /// Whether the typed message may be sent now: connected, in sync, the
    /// session idle, nothing in flight, and some text typed.
    pub fn can_send(&self) -> (b: bool)
        ensures
            b == self.spec_can_send(),
    {
        self.connected && self.ready && !self.is_busy() && !self.sending
            && trimmed(self.input.as_str()).as_str().unicode_len() > 0
    }

    /// Types `character` at the cursor and moves the cursor past it (at the
    /// end of the text if the cursor is beyond it).
    pub fn insert(&mut self, character: char)
        requires
            old(self).cursor < usize::MAX,
        ensures
            typed(*old(self), character, *final(self)),
    {
        let v = chars_of(self.input.as_str());
        let at: usize = if self.cursor < v.len() {
            self.cursor
        } else {
            v.len()
        };
        let mut s = String::new();
        push_chars(&mut s, v.as_slice(), 0, at);
        crate::text::push_char(&mut s, character);
        push_chars(&mut s, v.as_slice(), at, v.len());
        assert(v@.subrange(0, at as int) == v@.take(at as int));
        assert(v@.subrange(at as int, v@.len() as int) == v@.skip(at as int));
        self.input = s;
        self.cursor = self.cursor + 1;
    }

    /// Removes the character before the cursor and moves the cursor back one
    /// place (nothing is removed if the cursor is beyond the text).
    pub fn backspace(&mut self)
        ensures
            erased_back(*old(self), *final(self)),
    {
        if self.cursor == 0 {
            return;
        }
        let v = chars_of(self.input.as_str());
        if self.cursor <= v.len() {
            let at = self.cursor - 1;
            let mut s = String::new();
            push_chars(&mut s, v.as_slice(), 0, at);
            push_chars(&mut s, v.as_slice(), at + 1, v.len());
            assert(s@ == v@.remove(at as int));
            self.input = s;
        }
        self.cursor = self.cursor - 1;
    }

    /// Removes the character at the cursor, if there is one.
    pub fn delete(&mut self)
        ensures
            old(self).cursor >= old(self).input@.len() ==> *final(self) == *old(self),
            old(self).cursor < old(self).input@.len() ==> {
                &&& *final(self) == (App { input: final(self).input, ..*old(self) })
                &&& final(self).input@ == old(self).input@.remove(old(self).cursor as int)
            },
    {
        let v = chars_of(self.input.as_str());
        if self.cursor >= v.len() {
            return;
        }
        let at = self.cursor;
        let mut s = String::new();
        push_chars(&mut s, v.as_slice(), 0, at);
        push_chars(&mut s, v.as_slice(), at + 1, v.len());
        assert(s@ == v@.remove(at as int));
        self.input = s;
    }

    /// Scrolls the history up by `amount` lines and stops following its end.
    pub fn scroll_up(&mut self, amount: u16)
        ensures
            *final(self) == (App {
                follow_tail: false,
                scroll: if old(self).scroll >= amount {
                    (old(self).scroll - amount) as u16
                } else {
                    0
                },
                ..*old(self)
            }),
    {
        self.follow_tail = false;
        self.scroll = self.scroll.saturating_sub(amount);
    }

    /// Scrolls the history down by `amount` lines.
    pub fn scroll_down(&mut self, amount: u16)
        ensures
            *final(self) == (App {
                scroll: if old(self).scroll + amount > u16::MAX {
                    u16::MAX
                } else {
                    (old(self).scroll + amount) as u16
                },
                ..*old(self)
            }),
    {
        self.scroll = self.scroll.saturating_add(amount);
    }

    /// Takes in a message from the server.
    ///
    /// A snapshot replaces the shown session and history, unless the client is
    /// already in sync with a newer revision; an event is appended unless its
    /// revision is not newer than the one shown (it was seen already), and the
    /// echo of the user's own message clears the input; an error ends any send
    /// in flight and becomes the status.
    pub fn apply(&mut self, message: ServerMessage)
        ensures
            applied(*old(self), message, *final(self)),
    {
        match message {
            ServerMessage::SessionSnapshot { session, events, save_error } => {
                let current_revision = match &self.session {
                    Some(current) => current.revision,
                    None => 0,
                };
                if self.ready && session.revision < current_revision {
                    return;
                }
                self.events = events;
                self.session = Some(session);
                self.ready = true;
                self.sending = false;
                self.status = match save_error {
                    Some(e) => e,
                    None => String::from_str(self.default_status()),
                };
                self.follow_tail = true;
            },
            ServerMessage::SessionEvent { session, event } => {
                let current_revision = match &self.session {
                    Some(current) => current.revision,
                    None => 0,
                };
                if self.ready && session.revision <= current_revision {
                    return;
                }
                let is_user = match &event {
                    ChatEvent::User { .. } => true,
                    _ => false,
                };
                if is_user && self.sending {
                    self.input = String::new();
                    self.cursor = 0;
                    self.sending = false;
                }
                self.events.push(event);
                self.session = Some(session);
                self.status = String::from_str(self.default_status());
            },
            ServerMessage::RequestError { text } | ServerMessage::SessionError { text } => {
                self.sending = false;
                self.status = text;
            },
        }
    }

    /// Takes in what the connection reports: a message is applied, a message
    /// that could not be read is reported in the status, and a lost
    /// connection leaves the client out of sync.
    pub fn on_network(&mut self, event: NetworkEvent)
        ensures
            match event {
                NetworkEvent::Message(m) => applied(*old(self), m, *final(self)),
                NetworkEvent::InvalidMessage(e) => {
                    &&& *final(self) == (App { status: final(self).status, ..*old(self) })
                    &&& final(self).status@ == "收到无法解析的消息："@ + e@
                },
                NetworkEvent::Disconnected(reason) => *final(self) == (App {
                    connected: false,
                    ready: false,
                    sending: false,
                    status: reason,
                    ..*old(self)
                }),
            },
    {
        match event {
            NetworkEvent::Message(message) => self.apply(message),
            NetworkEvent::InvalidMessage(error) => {
                let mut status = String::from_str("收到无法解析的消息：");
                crate::text::push_str(&mut status, error.as_str());
                self.status = status;
            },
            NetworkEvent::Disconnected(reason) => {
                self.connected = false;
                self.ready = false;
                self.sending = false;
                self.status = reason;
            },
        }
    }

    /// Takes in a key press and tells whether it asks to send the typed
    /// message (Enter). Ctrl+C and Esc quit; characters are typed at the
    /// cursor; the arrows, Home and End move the cursor within the text; the
    /// up and down keys scroll the history by five lines.
    pub fn handle_key(&mut self, key: Key) -> (send: bool)
        requires
            old(self).cursor < usize::MAX,
        ensures
            send <==> key is Enter,
            key_handled(*old(self), key, *final(self)),
            (key is Down || key is PageDown) ==> final(self).scroll >= old(self).scroll
                && final(self).follow_tail == old(self).follow_tail,
            (key is Up || key is PageUp) ==> final(self).scroll <= old(self).scroll && !final(self).follow_tail,
    {
        match key {
            Key::Char { c, control } => {
                if control && c == 'c' {
                    self.should_quit = true;
                } else {
                    self.insert(c);
                }
            },
            Key::Esc => self.should_quit = true,
            Key::Enter => return true,
            Key::Backspace => self.backspace(),
            Key::Delete => self.delete(),
            Key::Left => self.cursor = self.cursor.saturating_sub(1),
            Key::Right => {
                let count = chars_of(self.input.as_str()).len();
                let next = self.cursor + 1;
                self.cursor = if next < count {
                    next
                } else {
                    count
                };
            },
            Key::Home => self.cursor = 0,
            Key::End => self.cursor = chars_of(self.input.as_str()).len(),
            Key::Up | Key::PageUp => self.scroll_up(5),
            Key::Down | Key::PageDown => self.scroll_down(5),
            Key::Other => {},
        }
        false
    }

    /// Decides what sending the typed message comes to. When it may not be
    /// sent the status says why and nothing is sent; otherwise the trimmed
    /// text goes to the shown session. The state is left as it was but for
    /// that status.
    pub fn prepare_send(&mut self) -> (d: SendDecision)
        ensures
            !old(self).spec_can_send() ==> {
                &&& d is Refused
                &&& *final(self) == (App { status: final(self).status, ..*old(self) })
                &&& final(self).status@ == if trim(old(self).input@).len() == 0 {
                    "请输入消息"@
                } else {
                    status_for(old(self).connected, old(self).ready, old(self).spec_is_busy())
                }
            },
            old(self).spec_can_send() ==> {
                &&& *final(self) == *old(self)
                &&& match old(self).session {
                    None => d is NoSession,
                    Some(s) => d matches SendDecision::Send { session_id, text } && session_id@
                        == s.id@ && text@ == trim(old(self).input@),
                }
            },
    {
        if !self.can_send() {
            let blank = trimmed(self.input.as_str()).as_str().is_empty();
            self.status = if blank {
                String::from_str("请输入消息")
            } else {
                String::from_str(self.default_status())
            };
            return SendDecision::Refused;
        }
        match &self.session {
            None => SendDecision::NoSession,
            Some(session) => SendDecision::Send {
                session_id: session.id.clone(),
                text: trimmed(self.input.as_str()),
            },
        }
    }

    /// Records that the typed message was handed to the connection.
    pub fn mark_sending(&mut self)
        ensures
            *final(self) == (App { sending: true, status: final(self).status, ..*old(self) }),
            final(self).status@ == "正在发送…"@,
    {
        self.sending = true;
        self.status = String::from_str("正在发送…");
    }

    /// Fits the history's scroll position to a history of `content_height`
    /// rows shown in `viewport_height` rows: at the end when following it,
    /// else no further than the end, following it again once there.
    pub fn fit_history_scroll(&mut self, content_height: u16, viewport_height: u16)
        ensures
            ({
                let max_scroll = if content_height >= viewport_height {
                    (content_height - viewport_height) as u16
                } else {
                    0u16
                };
                if old(self).follow_tail {
                    *final(self) == (App { scroll: max_scroll, ..*old(self) })
                } else {
                    let scroll = if old(self).scroll < max_scroll {
                        old(self).scroll
                    } else {
                        max_scroll
                    };
                    *final(self) == (App {
                        scroll,
                        follow_tail: scroll >= max_scroll,
                        ..*old(self)
                    })
                }
            }),
    {
        let max_scroll = content_height.saturating_sub(viewport_height);
        if self.follow_tail {
            self.scroll = max_scroll;
        } else {
            self.scroll = if self.scroll < max_scroll {
                self.scroll
            } else {
                max_scroll
            };
            self.follow_tail = self.scroll >= max_scroll;
        }
    }

    /// How the input box shows the cursor when it is `inner_width` columns
    /// wide and `visible_rows` rows high: the row the box is scrolled to, and
    /// the row and column of the cursor within the text.
    pub fn input_view(&self, inner_width: u16, visible_rows: u16) -> (r: (u16, u16, u16))
        ensures
            ({
                let before = self.input@.take(clamp_cursor(self.cursor as int, self.input@.len() as int));
                let state = cursor_state(before, at_least_one(inner_width as int));
                let row = cap(state.0);
                let keep = if visible_rows >= 1 {
                    visible_rows - 1
                } else {
                    0
                };
                &&& r.1 == row
                &&& r.2 == cap(state.1)
                &&& r.0 == if row >= keep {
                    row - keep
                } else {
                    0
                }
            }),
    {
        let v = chars_of(self.input.as_str());
        let upto: usize = if self.cursor < v.len() {
            self.cursor
        } else {
            v.len()
        };
        let before = string_from(v.as_slice(), 0, upto);
        assert(v@.subrange(0, upto as int) == v@.take(upto as int));
        let (row, column) = cursor_position(before.as_str(), inner_width);
        let scroll = row.saturating_sub(visible_rows.saturating_sub(1));
        (scroll, row, column)
    }

    /// The title shown for the session: its own, or 新对话 if it has none.
    pub fn title(&self) -> (t: String)
        ensures
            t@ == match self.session {
                Some(s) => if s.title@.len() > 0 {
                    s.title@
                } else {
                    "新对话"@
                },
                None => "新对话"@,
            },
    {
        match &self.session {
            Some(session) => if session.title.as_str().is_empty() {
                String::from_str("新对话")
            } else {
                session.title.clone()
            },
            None => String::from_str("新对话"),
        }
    }
}

/// The number of terminal columns that `unicode-width` gives the character
/// `c` (`UnicodeWidthChar::width`), `None` for control characters.
pub uninterp spec fn char_columns(c: char) -> Option<usize>;

/// The number of terminal columns that `unicode-width` gives the text `s`
/// (`UnicodeWidthStr::width`).
pub uninterp spec fn text_columns(s: Seq<char>) -> usize;

/// Calls `UnicodeWidthChar::width` of `unicode-width`: the columns the
/// character takes. Its source gives `None` exactly for the control
/// characters below U+0020 and from U+007F to U+009F, 1 for the other ASCII
/// characters, and at most 3 for any character.
#[verifier::external_body]
fn char_width(c: char) -> (w: Option<usize>)
    ensures
        w == char_columns(c),
        w is None <==> ((c as u32) < 0x20 || (0x7f <= (c as u32) && (c as u32) < 0xa0)),
        0x20 <= (c as u32) && (c as u32) < 0x7f ==> w == Some(1usize),
        w matches Some(n) ==> n <= 3,
{
    unicode_width::UnicodeWidthChar::width(c)
}

/// Calls `UnicodeWidthStr::width` of `unicode-width`: the columns the text
/// takes, which is not always the sum of its characters' widths (emoji and
/// other ligatures). Its source gives 0 for the empty text.
#[verifier::external_body]
fn str_width(s: &str) -> (w: usize)
    ensures
        w == text_columns(s@),
        s@.len() == 0 ==> w == 0,
{
    unicode_width::UnicodeWidthStr::width(s)
}

/// The largest value a `u16` holds, as a count.
pub open spec fn cap(n: int) -> int {
    if n > u16::MAX {
        u16::MAX as int
    } else {
        n
    }
}

/// `w` if positive, else 1.
pub open spec fn at_least_one(w: int) -> int {
    if w < 1 {
        1
    } else {
        w
    }
}

/// The columns a character advances the cursor by.
pub open spec fn advance(c: char) -> int {
    match char_columns(c) {
        Some(n) => n as int,
        None => 0,
    }
}

/// Where the cursor stands, as `(row, column)`, after `c` is laid out from
/// `state` in lines of `width` columns: a newline starts a new row; a
/// character that does not fit in the rest of the row goes to the next one;
/// a row that fills up wraps.
pub open spec fn cursor_step(state: (int, int), c: char, width: int) -> (int, int) {
    cursor_step_by(state, c, advance(c), width)
}

/// Where the cursor stands after `c`, which takes `w` columns, is laid out
/// from `state` in lines of `width` columns.
pub open spec fn cursor_step_by(state: (int, int), c: char, w: int, width: int) -> (int, int) {
    if c == '\n' {
        (state.0 + 1, 0)
    } else {
        let moved = if state.1 > 0 && state.1 + w > width {
            (state.0 + 1, 0)
        } else {
            state
        };
        let column = moved.1 + w;
        if column >= width {
            (moved.0 + column / width, column % width)
        } else {
            (moved.0, column)
        }
    }
}

/// Where the cursor stands after `s` is laid out in lines of `width` columns.
pub open spec fn cursor_state(s: Seq<char>, width: int) -> (int, int)
    decreases s.len(),
{
    if s.len() == 0 {
        (0, 0)
    } else {
        cursor_step(cursor_state(s.drop_last(), width), s.last(), width)
    }
}

proof fn lemma_cursor_state_bounds(s: Seq<char>, width: int)
    requires
        width >= 1,
    ensures
        cursor_state(s, width).0 >= 0,
        0 <= cursor_state(s, width).1 < width,
    decreases s.len(),
{
    if s.len() > 0 {
        lemma_cursor_state_bounds(s.drop_last(), width);
    }
}

/// Moves the cursor from row `row` (counted up to `u16::MAX`) and column
/// `column` past the character `c`, to which `unicode-width` gives
/// `columns` columns, in lines of `width` columns.
pub fn cursor_advance(row: usize, column: usize, c: char, columns: Option<usize>, width: usize) -> (r: (
    usize,
    usize,
))
    requires
        1 <= width <= u16::MAX,
        column < width,
        row <= u16::MAX,
        columns matches Some(n) ==> n <= 3,
    ensures
        ({
            let w = match columns {
                Some(n) => n as int,
                None => 0,
            };
            let step = cursor_step_by((row as int, column as int), c, w, width as int);
            r.0 == cap(step.0) && r.1 == step.1
        }),
        r.1 < width,
{
    if c == '\n' {
        return (if row < 65535 {
            row + 1
        } else {
            65535
        }, 0);
    }
    let cw: usize = match columns {
        Some(n) => n,
        None => 0,
    };
    let mut row = row;
    let mut column = column;
    if column > 0 && column + cw > width {
        row = if row < 65535 {
            row + 1
        } else {
            65535
        };
        column = 0;
    }
    column = column + cw;
    if column >= width {
        let extra: usize = column / width;
        row = if row + extra < 65535 {
            row + extra
        } else {
            65535
        };
        column = column % width;
    }
    (row, column)
}

/// The row and column at which the cursor stands after `text`, laid out in
/// lines of `width` columns (at least one), each capped at `u16::MAX`.
pub fn cursor_position(text: &str, width: u16) -> (r: (u16, u16))
    ensures
        r.0 == cap(cursor_state(text@, at_least_one(width as int)).0),
        r.1 == cap(cursor_state(text@, at_least_one(width as int)).1),
{
    let w: usize = if width < 1 {
        1
    } else {
        width as usize
    };
    let v = chars_of(text);
    let ghost ww = w as int;
    let mut row: usize = 0;
    let mut column: usize = 0;
    let mut k: usize = 0;
    while k < v.len()
        invariant
            0 <= k <= v@.len(),
            v@ == text@,
            1 <= w <= u16::MAX,
            ww == w as int,
            row == cap(cursor_state(v@.take(k as int), ww).0),
            column == cursor_state(v@.take(k as int), ww).1,
            column < w,
        decreases v@.len() - k,
    {
        let c = v[k];
        proof {
            assert(v@.take(k + 1).drop_last() == v@.take(k as int));
            assert(v@.take(k + 1).last() == c);
            lemma_cursor_state_bounds(v@.take(k as int), ww);
        }
        let columns = char_width(c);
        let (r, col) = cursor_advance(row, column, c, columns, w);
        row = r;
        column = col;
        k += 1;
    }
    assert(v@.take(v@.len() as int) == v@);
    (row as u16, column as u16)
}

/// `n / w`, rounded up.
pub open spec fn ceil_div(n: int, w: int) -> int {
    n / w + if n % w == 0 {
        0int
    } else {
        1int
    }
}

/// The rows that `s` takes in lines of `width` columns: each of its
/// `'\n'`-separated parts takes its column count divided by the width,
/// rounded up, and at least one row.
pub open spec fn text_rows(s: Seq<char>, width: int) -> int
    decreases s.len(),
{
    let i = first_of(s, '\n');
    let here = ceil_div(at_least_one(text_columns(s.take(i as int)) as int), width);
    if i >= s.len() {
        here
    } else {
        here + text_rows(s.skip(i + 1int), width)
    }
}

proof fn lemma_text_rows_positive(s: Seq<char>, width: int)
    requires
        width >= 1,
    ensures
        text_rows(s, width) >= 1,
    decreases s.len(),
{
    let i = first_of(s, '\n');
    assert(at_least_one(text_columns(s.take(i as int)) as int) >= 1);
    assert(ceil_div(at_least_one(text_columns(s.take(i as int)) as int), width) >= 1) by (nonlinear_arith)
        requires
            at_least_one(text_columns(s.take(i as int)) as int) >= 1,
            width >= 1,
    ;
    if i < s.len() {
        lemma_text_rows_positive(s.skip(i + 1int), width);
    }
}

/// The rows that a line of `columns` columns takes in lines of `width`
/// columns: at least one.
pub fn rows_for(columns: usize, width: usize) -> (r: usize)
    requires
        width >= 1,
    ensures
        r == ceil_div(at_least_one(columns as int), width as int),
        r >= 1,
{
    let at_least: usize = if columns < 1 {
        1
    } else {
        columns
    };
    let q: usize = at_least / width;
    let rem: usize = at_least % width;
    assert(rem != 0 ==> q < usize::MAX) by (nonlinear_arith)
        requires
            q == at_least / width,
            rem == at_least % width,
            width >= 1,
    ;
    let here: usize = if rem == 0 {
        q
    } else {
        q + 1
    };
    assert(here >= 1) by (nonlinear_arith)
        requires
            at_least >= 1,
            width >= 1,
            here == at_least / width + if at_least % width == 0 {
                0int
            } else {
                1int
            },
    ;
    here
}

/// The rows that `text` takes in lines of `width` columns (at least one): one
/// for the empty text, else [`text_rows`], capped at `u16::MAX`.
pub fn visual_line_count(text: &str, width: u16) -> (n: u16)
    ensures
        n == if text@.len() == 0 {
            1
        } else {
            cap(text_rows(text@, at_least_one(width as int)))
        },
{
    let w: usize = if width < 1 {
        1
    } else {
        width as usize
    };
    let v = chars_of(text);
    if v.len() == 0 {
        return 1;
    }
    let ghost ww = w as int;
    let mut total: usize = 0;
    let mut start: usize = 0;
    let mut done = false;
    let ghost mut counted: int = 0;
    assert(v@.skip(0) == v@);
    while !done
        invariant
            0 <= start <= v@.len(),
            v@ == text@,
            1 <= w <= u16::MAX,
            ww == w as int,
            total <= 65535,
            counted >= 0,
            !done ==> text_rows(v@, ww) == counted + text_rows(v@.skip(start as int), ww),
            done ==> text_rows(v@, ww) == counted,
            total == cap(counted),
        decreases v@.len() - start + if done {
            0int
        } else {
            1int
        },
    {
        let ghost rest = v@.skip(start as int);
        let i: usize = find_char(v.as_slice(), start, v.len(), '\n');
        let part = string_from(v.as_slice(), start, i);
        proof {
            assert(v@.subrange(start as int, v@.len() as int) == rest);
            assert(rest.take(i - start) == v@.subrange(start as int, i as int));
        }
        let columns: usize = str_width(part.as_str());
        let here = rows_for(columns, w);
        proof {
            counted = counted + here;
        }
        total = if here >= 65535 - total {
            65535
        } else {
            total + here
        };
        if i == v.len() {
            done = true;
        } else {
            assert(rest.skip(i - start + 1) == v@.skip(i + 1));
            start = i + 1;
        }
    }
    total as u16
}

/// The rows of the input box for `input` in a terminal of `term_width` by
/// `term_height`: the input's rows inside the borders plus the two border
/// rows, at least 3 and at most the terminal height less 7 (or 3 if that
/// is less).
pub fn input_height(input: &str, term_width: u16, term_height: u16) -> (h: u16)
    ensures
        ({
            let width = at_least_one(if term_width >= 2 {
                term_width - 2
            } else {
                0
            });
            let rows = if input@.len() == 0 {
                1
            } else {
                cap(text_rows(input@, width))
            };
            let desired = cap(at_least_one(rows) + 2);
            let max_height = if term_height >= 10 {
                term_height - 7
            } else {
                3
            };
            h == if desired < 3 {
                3
            } else if desired > max_height {
                max_height
            } else {
                desired
            }
        }),
{
    let inner = term_width.saturating_sub(2);
    let width: u16 = if inner < 1 {
        1
    } else {
        inner
    };
    let rows = visual_line_count(input, width);
    let rows1: u16 = if rows < 1 {
        1
    } else {
        rows
    };
    let desired = rows1.saturating_add(2);
    let room = term_height.saturating_sub(7);
    let max_height: u16 = if room < 3 {
        3
    } else {
        room
    };
    if desired < 3 {
        3
    } else if desired > max_height {
        max_height
    } else {
        desired
    }
}

/// The rows that `lines` take together in lines of `width` columns, adding
/// each line's [`visual_line_count`] and stopping at `u16::MAX`.
pub open spec fn lines_rows(lines: Seq<Seq<char>>, width: int) -> int
    decreases lines.len(),
{
    if lines.len() == 0 {
        0
    } else {
        let l = lines.last();
        cap(lines_rows(lines.drop_last(), width) + if l.len() == 0 {
            1
        } else {
            cap(text_rows(l, width))
        })
    }
}

/// The rows that `lines` take together in lines of `width` columns.
pub fn wrapped_height(lines: &[String], width: u16) -> (h: u16)
    ensures
        h == lines_rows(lines@.map_values(|l: String| l@), at_least_one(width as int)),
{
    let ghost ls = lines@.map_values(|l: String| l@);
    let mut total: u16 = 0;
    let mut k: usize = 0;
    while k < lines.len()
        invariant
            0 <= k <= lines@.len(),
            ls == lines@.map_values(|l: String| l@),
            total == lines_rows(ls.take(k as int), at_least_one(width as int)),
        decreases lines@.len() - k,
    {
        let n = visual_line_count(lines[k].as_str(), width);
        assert(ls.take(k + 1).drop_last() == ls.take(k as int));
        assert(ls.take(k + 1).last() == lines@[k as int]@);
        total = total.saturating_add(n);
        k += 1;
    }
    assert(ls.take(lines@.len() as int) == ls);
    total
}

/// How a line of the history is shown.
#[derive(Clone, Copy, PartialEq, Eq, Debug)]
pub enum LineKind {
    /// The hint shown while the history is empty.
    Hint,
    /// The label over a message of the user.
    UserLabel,
    /// The label over an answer.
    AnswerLabel,
    /// The note that a tool was called.
    ToolCall,
    /// The label over an error.
    ErrorLabel,
    /// A line of a message.
    Body,
    /// The blank line after each entry.
    Blank,
}

/// A line of the history.
pub struct HistoryLine {
    pub kind: LineKind,
    pub text: String,
}

/// A history line as kind and text.
pub open spec fn line_view(l: HistoryLine) -> (LineKind, Seq<char>) {
    (l.kind, l.text@)
}

/// The lines of a labelled section: the label, then the lines of the
/// content, or 「（无内容）」 when it is empty.
pub open spec fn section_lines(kind: LineKind, label: Seq<char>, content: Seq<char>) -> Seq<
    (LineKind, Seq<char>),
> {
    seq![(kind, label)] + if content.len() == 0 {
        seq![(LineKind::Body, "（无内容）"@)]
    } else {
        lines(content).map_values(|l: Seq<char>| (LineKind::Body, l))
    }
}

/// The lines one event adds to the history: a section for a message of the
/// user, an answer or an error, a single line naming the tool for a tool
/// call (its arguments are not shown), each followed by a blank line; tool
/// results and other events add nothing.
pub open spec fn event_lines(e: ChatEvent) -> Seq<(LineKind, Seq<char>)> {
    let blank = seq![(LineKind::Blank, Seq::<char>::empty())];
    match e {
        ChatEvent::User { text } => section_lines(LineKind::UserLabel, "你"@, text@) + blank,
        ChatEvent::Answer { text } => section_lines(LineKind::AnswerLabel, "助手"@, text@) + blank,
        ChatEvent::ToolCall { name } => seq![(LineKind::ToolCall, "工具 · "@ + name@)] + blank,
        ChatEvent::Error { text } => section_lines(LineKind::ErrorLabel, "错误"@, text@) + blank,
        _ => seq![],
    }
}

/// The lines of the events, in order.
pub open spec fn events_lines(events: Seq<ChatEvent>) -> Seq<(LineKind, Seq<char>)>
    decreases events.len(),
{
    if events.len() == 0 {
        seq![]
    } else {
        events_lines(events.drop_last()) + event_lines(events.last())
    }
}

/// The history shown for `events`: a hint while there are none, else the
/// lines of each event in order.
pub open spec fn history(events: Seq<ChatEvent>) -> Seq<(LineKind, Seq<char>)> {
    if events.len() == 0 {
        seq![(LineKind::Hint, "输入消息开始对话。"@)]
    } else {
        events_lines(events)
    }
}

fn push_line(out: &mut Vec<HistoryLine>, kind: LineKind, text: String)
    ensures
        final(out)@.map_values(|l: HistoryLine| line_view(l)) == old(out)@.map_values(
            |l: HistoryLine| line_view(l),
        ).push((kind, text@)),
{
    let ghost before = out@.map_values(|l: HistoryLine| line_view(l));
    out.push(HistoryLine { kind, text });
    assert(out@.map_values(|l: HistoryLine| line_view(l)) == before.push((kind, text@)));
}

fn push_section(out: &mut Vec<HistoryLine>, kind: LineKind, label: &str, content: &String)
    ensures
        final(out)@.map_values(|l: HistoryLine| line_view(l)) == old(out)@.map_values(
            |l: HistoryLine| line_view(l),
        ) + section_lines(kind, label@, content@),
{
    let ghost start = out@.map_values(|l: HistoryLine| line_view(l));
    push_line(out, kind, String::from_str(label));
    if content.as_str().is_empty() {
        push_line(out, LineKind::Body, String::from_str("（无内容）"));
        assert(out@.map_values(|l: HistoryLine| line_view(l)) == start + section_lines(
            kind,
            label@,
            content@,
        ));
    } else {
        let ls = lines_of(content.as_str());
        let ghost body = lines(content@).map_values(|l: Seq<char>| (LineKind::Body, l));
        let mut k: usize = 0;
        while k < ls.len()
            invariant
                0 <= k <= ls@.len(),
                ls@.len() == lines(content@).len(),
                forall|m: int| 0 <= m < ls@.len() ==> (#[trigger] ls@[m])@ == lines(content@)[m],
                body == lines(content@).map_values(|l: Seq<char>| (LineKind::Body, l)),
                out@.map_values(|l: HistoryLine| line_view(l)) == start + seq![(kind, label@)]
                    + body.take(k as int),
            decreases ls@.len() - k,
        {
            push_line(out, LineKind::Body, ls[k].clone());
            assert(body.take(k + 1) == body.take(k as int).push(body[k as int]));
            k += 1;
        }
        assert(body.take(ls@.len() as int) == body);
    }
}

/// The lines of the history for `events`.
pub fn history_lines(events: &[ChatEvent]) -> (r: Vec<HistoryLine>)
    ensures
        r@.map_values(|l: HistoryLine| line_view(l)) == history(events@),
{
    let mut out: Vec<HistoryLine> = Vec::new();
    if events.len() == 0 {
        push_line(&mut out, LineKind::Hint, String::from_str("输入消息开始对话。"));
        return out;
    }
    let mut k: usize = 0;
    while k < events.len()
        invariant
            0 <= k <= events@.len(),
            out@.map_values(|l: HistoryLine| line_view(l)) == events_lines(events@.take(k as int)),
        decreases events@.len() - k,
    {
        let ghost before = out@.map_values(|l: HistoryLine| line_view(l));
        match &events[k] {
            ChatEvent::User { text } => {
                push_section(&mut out, LineKind::UserLabel, "你", text);
                push_line(&mut out, LineKind::Blank, String::new());
            },
            ChatEvent::Answer { text } => {
                push_section(&mut out, LineKind::AnswerLabel, "助手", text);
                push_line(&mut out, LineKind::Blank, String::new());
            },
            ChatEvent::ToolCall { name } => {
                let mut t = String::from_str("工具 · ");
                push_str(&mut t, name.as_str());
                push_line(&mut out, LineKind::ToolCall, t);
                push_line(&mut out, LineKind::Blank, String::new());
            },
            ChatEvent::Error { text } => {
                push_section(&mut out, LineKind::ErrorLabel, "错误", text);
                push_line(&mut out, LineKind::Blank, String::new());
            },
            _ => {},
        }
        assert(events@.take(k + 1).drop_last() == events@.take(k as int));
        assert(events@.take(k + 1).last() == events@[k as int]);
        assert(out@.map_values(|l: HistoryLine| line_view(l)) == before + event_lines(events@[k as int]));
        k += 1;
    }
    assert(events@.take(events@.len() as int) == events@);
    out
}

/// Where in the bytes of `text` its character number `char_index` starts
/// (the length of `text` if it has no such character).
pub fn char_to_byte_index(text: &str, char_index: usize) -> (r: usize)
    ensures
        r == crate::text::bytes_len(
            text@.take(clamp_cursor(char_index as int, text@.len() as int)),
        ),
{
    let v = chars_of(text);
    let total = text.as_bytes().len();
    proof {
        crate::text::lemma_bytes_len(text@);
    }
    let mut n: usize = 0;
    let mut k: usize = 0;
    assert(v@.skip(0) == v@);
    while k < v.len() && k < char_index
        invariant
            0 <= k <= v@.len(),
            k <= char_index,
            v@ == text@,
            total == crate::text::bytes_len(v@),
            n + crate::text::bytes_len(v@.skip(k as int)) == crate::text::bytes_len(v@),
        decreases v@.len() - k,
    {
        assert(v@.skip(k as int).drop_first() == v@.skip(k + 1));
        assert(v@.skip(k as int)[0] == v@[k as int]);
        n = n + crate::text::char_utf8_width(v[k]);
        k += 1;
    }
    proof {
        crate::text::lemma_bytes_len_split(v@, k as int);
        assert(k == clamp_cursor(char_index as int, v@.len() as int));
    }
    n
}

/// The connection state the header shows.
pub open spec fn connection_text(connected: bool) -> Seq<char> {
    if connected {
        "已连接"@
    } else {
        "已断开"@
    }
}

impl App {
    /// The connection state the header shows.
    pub fn connection_label(&self) -> (s: &'static str)
        ensures
            s@ == connection_text(self.connected),
    {
        if self.connected {
            "已连接"
        } else {
            "已断开"
        }
    }

    /// The title of the input box, which says when the session is busy.
    pub fn input_title(&self) -> (s: &'static str)
        ensures
            s@ == if self.spec_is_busy() {
                " 输入（处理中） "@
            } else {
                " 输入 "@
            },
    {
        if self.is_busy() {
            " 输入（处理中） "
        } else {
            " 输入 "
        }
    }

    /// The key help under the input box, which leaves out sending while the
    /// session is busy.
    pub fn help_hint(&self) -> (s: &'static str)
        ensures
            s@ == if self.spec_is_busy() {
                "模型处理中 · ↑↓/PgUp/PgDn 滚动 · Esc/Ctrl+C 退出"@
            } else {
                "Enter 发送 · ↑↓/PgUp/PgDn 滚动 · Esc/Ctrl+C 退出"@
            },
    {
        if self.is_busy() {
            "模型处理中 · ↑↓/PgUp/PgDn 滚动 · Esc/Ctrl+C 退出"
        } else {
            "Enter 发送 · ↑↓/PgUp/PgDn 滚动 · Esc/Ctrl+C 退出"
        }
    }

    /// Whether the terminal cursor is shown in the input box: while connected
    /// and the session is idle.
    pub fn shows_cursor(&self) -> (b: bool)
        ensures
            b == (self.connected && !self.spec_is_busy()),
    {
        self.connected && !self.is_busy()
    }
}

fn owned(t: Option<&str>) -> (r: Option<String>)
    ensures
        match t {
            Some(x) => r matches Some(y) && y@ == x@,
            None => r is None,
        },
{
    match t {
        Some(x) => Some(String::from_str(x)),
        None => None,
    }
}

/// The event that a session event of type `kind`, holding the fields
/// `name` and `text` where they are texts, reads as: the fields a type does
/// not use are dropped (a tool call keeps only the tool's name, a tool
/// result nothing), a type the client does not know is
/// [`ChatEvent::Unknown`], and nothing comes out when the type needs a field
/// that is missing.
pub fn event_of(kind: &str, name: Option<&str>, text: Option<&str>) -> (e: Option<ChatEvent>)
    ensures
        kind@ == "user"@ ==> match text {
            Some(t) => e matches Some(ChatEvent::User { text: x }) && x@ == t@,
            None => e is None,
        },
        kind@ == "answer"@ ==> match text {
            Some(t) => e matches Some(ChatEvent::Answer { text: x }) && x@ == t@,
            None => e is None,
        },
        kind@ == "tool_call"@ ==> match name {
            Some(n) => e matches Some(ChatEvent::ToolCall { name: x }) && x@ == n@,
            None => e is None,
        },
        kind@ == "tool_result"@ ==> e matches Some(ChatEvent::ToolResult),
        kind@ == "error"@ ==> match text {
            Some(t) => e matches Some(ChatEvent::Error { text: x }) && x@ == t@,
            None => e is None,
        },
        kind@ == "done"@ ==> e matches Some(ChatEvent::Done),
        (kind@ != "user"@ && kind@ != "answer"@ && kind@ != "tool_call"@ && kind@ != "tool_result"@
            && kind@ != "error"@ && kind@ != "done"@) ==> e matches Some(ChatEvent::Unknown),
{
    proof {
        reveal_strlit("user");
        reveal_strlit("answer");
        reveal_strlit("tool_call");
        reveal_strlit("tool_result");
        reveal_strlit("error");
        reveal_strlit("done");
        assert("user"@[0] != "answer"@[0] && "user"@[0] != "tool_call"@[0] && "user"@[0] != "tool_result"@[0]
            && "user"@[0] != "error"@[0] && "user"@[0] != "done"@[0]);
        assert("answer"@[0] != "tool_call"@[0] && "answer"@[0] != "tool_result"@[0] && "answer"@[0]
            != "error"@[0] && "answer"@[0] != "done"@[0]);
        assert("tool_call"@.len() != "tool_result"@.len() && "tool_call"@[0] != "error"@[0]
            && "tool_call"@[0] != "done"@[0]);
        assert("tool_result"@[0] != "error"@[0] && "tool_result"@[0] != "done"@[0]);
        assert("error"@[0] != "done"@[0]);
    }
    if crate::text::str_eq(kind, "user") {
        match owned(text) {
            Some(t) => Some(ChatEvent::User { text: t }),
            None => None,
        }
    } else if crate::text::str_eq(kind, "answer") {
        match owned(text) {
            Some(t) => Some(ChatEvent::Answer { text: t }),
            None => None,
        }
    } else if crate::text::str_eq(kind, "tool_call") {
        match owned(name) {
            Some(n) => Some(ChatEvent::ToolCall { name: n }),
            None => None,
        }
    } else if crate::text::str_eq(kind, "tool_result") {
        Some(ChatEvent::ToolResult)
    } else if crate::text::str_eq(kind, "error") {
        match owned(text) {
            Some(t) => Some(ChatEvent::Error { text: t }),
            None => None,
        }
    } else if crate::text::str_eq(kind, "done") {
        Some(ChatEvent::Done)
    } else {
        Some(ChatEvent::Unknown)
    }
}

/// How many times the client tries again to reach the server before it
/// gives up.
pub const CONNECT_RETRIES: u32 = 20;

/// How long the client waits between two tries, in milliseconds.
pub const RETRY_DELAY_MS: u64 = 50;

/// What the status says when the connection ends without a close frame.
pub const CONNECTION_ENDED: &'static str = "连接已结束";

/// Whether the client tries once more after `attempts` failed retries.
pub fn retry_connect(attempts: u32) -> (again: bool)
    ensures
        again == (attempts < CONNECT_RETRIES),
{
    attempts < CONNECT_RETRIES
}

/// Why the connection was closed, as the status shows it: the reason the
/// server gave, or 「后端关闭了连接」 when it gave none.
pub fn close_reason(reason: Option<&str>) -> (r: String)
    ensures
        r@ == match reason {
            Some(t) => if t@.len() > 0 {
                t@
            } else {
                "后端关闭了连接"@
            },
            None => "后端关闭了连接"@,
        },
{
    match reason {
        Some(t) => if t.is_empty() {
            String::from_str("后端关闭了连接")
        } else {
            String::from_str(t)
        },
        None => String::from_str("后端关闭了连接"),
    }
}

/// Whether the cursor of `app` is within its text.
pub open spec fn cursor_in_text(app: App) -> bool {
    app.cursor <= app.input@.len()
}

/// Once the client is in sync, an event of the session taken in twice is
/// kept once: the second time changes nothing.
pub proof fn lemma_event_kept_once(a: App, m: ServerMessage, b: App, c: App)
    requires
        a.ready,
        m is SessionEvent,
        applied(a, m, b),
        applied(b, m, c),
    ensures
        c == b,
{
}

/// A snapshot taken in twice shows what it shows when taken in once.
pub proof fn lemma_snapshot_idempotent(a: App, m: ServerMessage, b: App, c: App)
    requires
        m is SessionSnapshot,
        applied(a, m, b),
        applied(b, m, c),
    ensures
        c == (App { status: c.status, ..b }),
        c.status@ == b.status@,
{
}

/// [`App::insert`] of any character followed by [`App::backspace`] gives
/// back the text and the cursor as they were, when the cursor was within
/// the text (`typed` and `erased_back` are those two functions' contracts).
pub proof fn lemma_insert_then_backspace(a: App, ch: char, b: App, c: App)
    requires
        cursor_in_text(a),
        typed(a, ch, b),
        erased_back(b, c),
    ensures
        c == (App { input: c.input, ..a }),
        c.input@ == a.input@,
        c.cursor == a.cursor,
{
    let k = a.cursor as int;
    assert(clamp_cursor(k, a.input@.len() as int) == k);
    assert(b.input@.len() == a.input@.len() + 1);
    assert(c.input@ == b.input@.remove(k));
    assert(c.input@ =~= a.input@);
}

/// The same with keys: typing a character and then pressing Backspace gives
/// back the text and the cursor as they were, when the cursor was within
/// the text.
pub proof fn lemma_type_then_backspace(a: App, ch: char, b: App, c: App)
    requires
        cursor_in_text(a),
        key_handled(a, Key::Char { c: ch, control: false }, b),
        key_handled(b, Key::Backspace, c),
    ensures
        c == (App { input: c.input, ..a }),
        c.input@ == a.input@,
{
    lemma_insert_then_backspace(a, ch, b, c);
}

/// The down keys scroll the history down by five lines (up to the largest
/// position) and change nothing else, following the end included; the up
/// keys scroll it up by five lines (down to the top) and stop following
/// the end.
pub proof fn lemma_scroll_keys(a: App, key: Key, b: App)
    requires
        key_handled(a, key, b),
    ensures
        (key is Down || key is PageDown) ==> {
            &&& b == (App { scroll: b.scroll, ..a })
            &&& b.scroll >= a.scroll
            &&& b.scroll == if a.scroll + 5 <= u16::MAX {
                a.scroll + 5
            } else {
                u16::MAX as int
            }
        },
        (key is Up || key is PageUp) ==> {
            &&& b == (App { scroll: b.scroll, follow_tail: false, ..a })
            &&& b.scroll <= a.scroll
            &&& b.scroll == if a.scroll >= 5 {
                a.scroll - 5
            } else {
                0
            }
        },
{
}

/// No key press moves the cursor out of the text.
pub proof fn lemma_key_keeps_cursor(a: App, key: Key, b: App)
    requires
        cursor_in_text(a),
        key_handled(a, key, b),
    ensures
        cursor_in_text(b),
{
    let len = a.input@.len() as int;
    match key {
        Key::Char { c, control } => {
            if !(control && c == 'c') {
                assert(clamp_cursor(a.cursor as int, len) == a.cursor);
                assert(b.input@.len() == len + 1);
            }
        },
        Key::Backspace => {
            if a.cursor > 0 {
                assert(b.input@.len() == len - 1);
            }
        },
        Key::Delete => {
            if a.cursor < len {
                assert(b.input@.len() == len - 1);
            }
        },
        _ => {},
    }
}

/// No message from the server moves the cursor out of the text.
pub proof fn lemma_message_keeps_cursor(a: App, m: ServerMessage, b: App)
    requires
        cursor_in_text(a),
        applied(a, m, b),
    ensures
        cursor_in_text(b),
{
}

} // verus!
