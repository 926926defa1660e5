//! Chat sessions as the server keeps them: a record of the conversation and
//! its events, numbered by a revision that grows with every event, and the
//! rules for naming, opening, starting and finishing a session. Storage and
//! broadcasting stay with the caller.
use vstd::prelude::*;
use crate::text::{
    chars_of, decimal, is_digit, lemma_decimal_shape, lemma_insert_to_multiset, pow10, push_decimal,
    push_signed, push_str, signed_decimal, string_from,
};

verus! {

/// Whether `c` may appear in a session id: an ASCII letter or digit, `-` or
/// `_`.
pub open spec fn id_char(c: char) -> bool {
    ||| ('a' <= c && c <= 'z')
    ||| ('A' <= c && c <= 'Z')
    ||| ('0' <= c && c <= '9')
    ||| c == '-'
    ||| c == '_'
}

/// Whether `id` is a valid session id: 1 to 99 characters, each an
/// [`id_char`]. Such an id names a file in the sessions directory and
/// nothing outside it.
pub open spec fn is_valid_id(id: Seq<char>) -> bool {
    &&& 0 < id.len() < 100
    &&& forall|i: int| 0 <= i < id.len() ==> id_char(#[trigger] id[i])
}

/// Whether `id` is a valid session id.
pub fn valid_id(id: &str) -> (b: bool)
    ensures
        b == is_valid_id(id@),
{
    let v = chars_of(id);
    if v.len() == 0 || v.len() >= 100 {
        return false;
    }
    let mut k: usize = 0;
    while k < v.len()
        invariant
            0 <= k <= v@.len(),
            v@ == id@,
            forall|i: int| 0 <= i < k ==> id_char(#[trigger] v@[i]),
        decreases v@.len() - k,
    {
        let c = v[k];
        if !(('a' <= c && c <= 'z') || ('A' <= c && c <= 'Z') || ('0' <= c && c <= '9') || c == '-'
            || c == '_') {
            return false;
        }
        k += 1;
    }
    true
}

/// The session id that a file of the sessions directory holds: its name
/// without the `.json` extension, if it has that extension and the rest is a
/// valid id other than `config` (an old example file, not a session).
pub open spec fn listed_id_of(file_name: Seq<char>) -> Option<Seq<char>> {
    let n = file_name.len();
    if n >= 5 && file_name.skip(n - 5) == ".json"@ && is_valid_id(file_name.take(n - 5))
        && file_name.take(n - 5) != "config"@ {
        Some(file_name.take(n - 5))
    } else {
        None
    }
}

/// The session id that the file `file_name` of the sessions directory holds,
/// if any.
pub fn listed_id(file_name: &str) -> (r: Option<String>)
    ensures
        match r {
            Some(id) => listed_id_of(file_name@) == Some(id@),
            None => listed_id_of(file_name@) is None,
        },
{
    let v = chars_of(file_name);
    let n = v.len();
    if n < 5 {
        return None;
    }
    if !crate::text::range_eq(v.as_slice(), n - 5, n, ".json") {
        assert(v@.subrange(n - 5, n as int) == v@.skip(n - 5));
        return None;
    }
    assert(v@.subrange(n - 5, n as int) == v@.skip(n - 5));
    let stem = string_from(v.as_slice(), 0, n - 5);
    assert(v@.subrange(0, n - 5) == v@.take(n - 5));
    if !valid_id(stem.as_str()) {
        return None;
    }
    let config = String::from_str("config");
    if stem == config {
        return None;
    }
    Some(stem)
}

/// What opening the session `id` reads: the file `{id}.json` of the
/// sessions directory, if `id` is valid.
pub fn session_file(id: &str) -> (r: Result<String, String>)
    ensures
        is_valid_id(id@) ==> (r matches Ok(f) && f@ == id@ + ".json"@),
        !is_valid_id(id@) ==> (r matches Err(e) && e@ == "无效的会话 ID"@),
{
    if !valid_id(id) {
        return Err(String::from_str("无效的会话 ID"));
    }
    let mut f = String::from_str(id);
    push_str(&mut f, ".json");
    Ok(f)
}

/// Whether the record read for the session `id` is that session: its own id
/// must be `id`.
pub fn check_record_id(id: &str, record_id: &str) -> (r: Result<(), String>)
    ensures
        r is Ok <==> id@ == record_id@,
        r matches Err(e) ==> e@ == "会话 ID 与文件不一致"@,
{
    if crate::text::str_eq(id, record_id) {
        Ok(())
    } else {
        Err(String::from_str("会话 ID 与文件不一致"))
    }
}

/// The id of a session created at `nanos` nanoseconds since the epoch by
/// the process `pid` as its `counter`-th session: the three numbers joined
/// by `-`.
pub open spec fn new_id_of(nanos: i64, pid: u32, counter: u64) -> Seq<char> {
    signed_decimal(nanos as int) + "-"@ + decimal(pid as nat) + "-"@ + decimal(counter as nat)
}

proof fn lemma_pow10_bounds()
    ensures
        pow10(10) == 10_000_000_000,
        pow10(19) == 10_000_000_000_000_000_000,
        pow10(20) == 100_000_000_000_000_000_000,
{
    reveal_with_fuel(pow10, 21);
}

/// The id of a new session. Every such id is valid, so the session can be
/// opened again by it.
pub fn new_session_id(nanos: i64, pid: u32, counter: u64) -> (id: String)
    ensures
        id@ == new_id_of(nanos, pid, counter),
        is_valid_id(id@),
{
    let mut id = String::new();
    push_signed(&mut id, nanos as i64);
    push_str(&mut id, "-");
    push_decimal(&mut id, pid as u128);
    push_str(&mut id, "-");
    push_decimal(&mut id, counter as u128);
    proof {
        lemma_pow10_bounds();
        let a: nat = if nanos < 0 {
            (-nanos) as nat
        } else {
            nanos as nat
        };
        lemma_decimal_shape(a, 19);
        lemma_decimal_shape(pid as nat, 10);
        lemma_decimal_shape(counter as nat, 20);
        reveal_strlit("-");
        let t = signed_decimal(nanos as int);
        assert(t.len() <= 20);
        assert forall|i: int| 0 <= i < t.len() implies id_char(#[trigger] t[i]) by {
            if nanos < 0 && i == 0 {
            } else if nanos < 0 {
                assert(t[i] == decimal(a)[i - 1]);
                assert(is_digit(decimal(a)[i - 1]));
            } else {
                assert(is_digit(decimal(a)[i]));
            }
        }
        let p = decimal(pid as nat);
        let c = decimal(counter as nat);
        let whole = t + "-"@ + p + "-"@ + c;
        assert(whole.len() < 100);
        assert(p.len() >= 1 && c.len() >= 1);
        assert forall|i: int| 0 <= i < whole.len() implies id_char(#[trigger] whole[i]) by {
            if i < t.len() {
                assert(whole[i] == t[i]);
            } else if i == t.len() {
                assert(whole[i] == '-');
            } else if i < t.len() + 1 + p.len() {
                assert(whole[i] == p[i - t.len() - 1]);
                assert(is_digit(p[i - t.len() - 1]));
            } else if i == t.len() + 1 + p.len() {
                assert(whole[i] == '-');
            } else {
                assert(whole[i] == c[i - t.len() - 2 - p.len()]);
                assert(is_digit(c[i - t.len() - 2 - p.len()]));
            }
        }
    }
    id
}

/// Reads the system clock with `SystemTime::now` and gives the time since
/// the Unix epoch (`duration_since(UNIX_EPOCH)`) in milliseconds, or nothing
/// when the clock reads before the epoch (the error of `duration_since`).
/// Nothing is promised of the value: it is whatever the clock says.
#[verifier::external_body]
fn now_millis() -> (t: Option<i64>) {
    match std::time::SystemTime::now().duration_since(std::time::UNIX_EPOCH) {
        Ok(elapsed) => Some(elapsed.as_millis() as i64),
        Err(_) => None,
    }
}

/// The title of a new session.
pub const NEW_TITLE: &'static str = "新对话";

/// How many characters of the first message make the title of a session.
pub const TITLE_CHARS: usize = 28;

/// A session as it is stored: its id and title, when it was created and last
/// changed (milliseconds since the epoch), the conversation `messages` handed
/// to the model, the `events` shown to clients, and the revision, which
/// counts the events emitted.
pub struct Record<M, E> {
    pub id: String,
    pub title: String,
    pub create_time: i64,
    pub updated_at: i64,
    pub messages: Vec<M>,
    pub events: Vec<E>,
    pub revision: u64,
}

impl<M, E> Record<M, E> {
    /// A new, empty session `id` created at `now`, starting from `messages`.
    pub fn new(id: String, now: i64, messages: Vec<M>) -> (r: Self)
        ensures
            r.id == id,
            r.title@ == NEW_TITLE@,
            r.create_time == now,
            r.updated_at == now,
            r.messages == messages,
            r.events@.len() == 0,
            r.revision == 0,
    {
        Record {
            id,
            title: String::from_str(NEW_TITLE),
            create_time: now,
            updated_at: now,
            messages,
            events: Vec::new(),
            revision: 0,
        }
    }
}

/// A loaded session: its record, whether a message is being handled, and why
/// the last save failed, if it did.
pub struct Session<M, E> {
    pub record: Record<M, E>,
    pub busy: bool,
    pub save_error: Option<String>,
}

/// What a session list shows of a session.
pub struct Summary {
    pub id: String,
    pub title: String,
    pub create_time: i64,
    pub updated_at: i64,
    pub busy: bool,
    pub revision: u64,
}

/// The values a [`Summary`] holds.
pub struct SummaryView {
    pub id: Seq<char>,
    pub title: Seq<char>,
    pub create_time: i64,
    pub updated_at: i64,
    pub busy: bool,
    pub revision: u64,
}

impl View for Summary {
    type V = SummaryView;

    open spec fn view(&self) -> SummaryView {
        SummaryView {
            id: self.id@,
            title: self.title@,
            create_time: self.create_time,
            updated_at: self.updated_at,
            busy: self.busy,
            revision: self.revision,
        }
    }
}

/// Why a message could not be started.
#[derive(Clone, Copy, PartialEq, Eq, Debug)]
pub enum StartError {
    /// The session is still handling its previous message.
    Busy,
}

impl StartError {
    /// The message shown for this error.
    pub fn message(&self) -> (s: &'static str)
        ensures
            s@ == "这个会话仍在处理上一条消息"@,
    {
        "这个会话仍在处理上一条消息"
    }
}

/// What a snapshot of a session holds: its summary, its events and the
/// last save error.
pub struct Snapshot<'a, E> {
    pub summary: Summary,
    pub events: &'a [E],
    pub save_error: Option<String>,
}

/// The text that reports a failed save.
pub const SAVE_FAILED: &'static str = "会话保存失败：";

impl<M, E> Session<M, E> {
    /// A loaded session that is idle and has no save error.
    pub fn new(record: Record<M, E>) -> (s: Self)
        ensures
            s.record == record,
            !s.busy,
            s.save_error is None,
    {
        Session { record, busy: false, save_error: None }
    }

    /// The summary of the session.
    pub fn summary(&self) -> (s: Summary)
        ensures
            s@ == (SummaryView {
                id: self.record.id@,
                title: self.record.title@,
                create_time: self.record.create_time,
                updated_at: self.record.updated_at,
                busy: self.busy,
                revision: self.record.revision,
            }),
    {
        Summary {
            id: self.record.id.clone(),
            title: self.record.title.clone(),
            create_time: self.record.create_time,
            updated_at: self.record.updated_at,
            busy: self.busy,
            revision: self.record.revision,
        }
    }

    /// A snapshot of the session: its summary, all its events and its save
    /// error.
    pub fn snapshot(&self) -> (s: Snapshot<'_, E>)
        ensures
            s.summary@ == self.summary_view(),
            s.events@ == self.record.events@,
            match s.save_error {
                Some(e) => self.save_error matches Some(f) && e@ == f@,
                None => self.save_error is None,
            },
    {
        Snapshot {
            summary: self.summary(),
            events: self.record.events.as_slice(),
            save_error: match &self.save_error {
                Some(e) => Some(e.clone()),
                None => None,
            },
        }
    }

    /// The summary of the session, as values.
    pub open spec fn summary_view(&self) -> SummaryView {
        SummaryView {
            id: self.record.id@,
            title: self.record.title@,
            create_time: self.record.create_time,
            updated_at: self.record.updated_at,
            busy: self.busy,
            revision: self.record.revision,
        }
    }

    /// Adds `event` to the session now, by the system clock: as
    /// [`Session::emit_at`] at whatever time the clock gives (the time of the
    /// last change is kept if the clock reads before 1970).
    pub fn emit(&mut self, event: E)
        requires
            old(self).record.revision < u64::MAX,
        ensures
            final(self).record.revision == old(self).record.revision + 1,
            final(self).record.events@ == old(self).record.events@.push(event),
            final(self).record.id == old(self).record.id,
            final(self).record.title == old(self).record.title,
            final(self).record.create_time == old(self).record.create_time,
            final(self).record.messages == old(self).record.messages,
            final(self).busy == old(self).busy,
            final(self).save_error == old(self).save_error,
    {
        let now = match now_millis() {
            Some(t) => t,
            None => self.record.updated_at,
        };
        self.emit_at(event, now);
    }

    /// Adds `event` to the session at time `now`: the revision goes up by one
    /// and the event is appended; nothing else changes.
    pub fn emit_at(&mut self, event: E, now: i64)
        requires
            old(self).record.revision < u64::MAX,
        ensures
            final(self).record.revision == old(self).record.revision + 1,
            final(self).record.updated_at == now,
            final(self).record.events@ == old(self).record.events@.push(event),
            final(self).record.id == old(self).record.id,
            final(self).record.title == old(self).record.title,
            final(self).record.create_time == old(self).record.create_time,
            final(self).record.messages == old(self).record.messages,
            final(self).busy == old(self).busy,
            final(self).save_error == old(self).save_error,
    {
        self.record.revision = self.record.revision + 1;
        self.record.updated_at = now;
        self.record.events.push(event);
    }

    /// Adds `message` to the conversation of the session; nothing else
    /// changes.
    pub fn add_message(&mut self, message: M)
        ensures
            final(self).record.messages@ == old(self).record.messages@.push(message),
            final(self).record.id == old(self).record.id,
            final(self).record.title == old(self).record.title,
            final(self).record.create_time == old(self).record.create_time,
            final(self).record.updated_at == old(self).record.updated_at,
            final(self).record.events == old(self).record.events,
            final(self).record.revision == old(self).record.revision,
            final(self).busy == old(self).busy,
            final(self).save_error == old(self).save_error,
    {
        self.record.messages.push(message);
    }

    /// Records how saving the session went: no error after a successful
    /// save, else the reason it failed.
    pub fn record_save(&mut self, outcome: Result<(), String>)
        ensures
            final(self).record == old(self).record,
            final(self).busy == old(self).busy,
            match outcome {
                Ok(()) => final(self).save_error is None,
                Err(e) => final(self).save_error matches Some(s) && s@ == SAVE_FAILED@ + e@,
            },
    {
        self.save_error = match outcome {
            Ok(()) => None,
            Err(e) => {
                let mut text = String::from_str(SAVE_FAILED);
                push_str(&mut text, e.as_str());
                Some(text)
            },
        };
    }

    /// Starts handling the message `prompt`: refused while the session is
    /// busy (and then nothing changes); else the session becomes busy and, if
    /// it has no events yet, takes the first [`TITLE_CHARS`] characters of
    /// the message as its title.
    pub fn begin(&mut self, prompt: &str) -> (r: Result<(), StartError>)
        ensures
            old(self).busy ==> r == Err::<(), StartError>(StartError::Busy) && *final(self) == *old(
                self,
            ),
            !old(self).busy ==> {
                &&& r is Ok
                &&& final(self).busy
                &&& final(self).save_error == old(self).save_error
                &&& final(self).record.id == old(self).record.id
                &&& final(self).record.create_time == old(self).record.create_time
                &&& final(self).record.updated_at == old(self).record.updated_at
                &&& final(self).record.messages == old(self).record.messages
                &&& final(self).record.events == old(self).record.events
                &&& final(self).record.revision == old(self).record.revision
                &&& final(self).record.title@ == if old(self).record.events@.len() == 0 {
                    prompt@.take(if prompt@.len() < TITLE_CHARS {
                        prompt@.len() as int
                    } else {
                        TITLE_CHARS as int
                    })
                } else {
                    old(self).record.title@
                }
            },
    {
        if self.busy {
            return Err(StartError::Busy);
        }
        self.busy = true;
        if self.record.events.len() == 0 {
            let v = chars_of(prompt);
            let n: usize = if v.len() < TITLE_CHARS {
                v.len()
            } else {
                TITLE_CHARS
            };
            assert(v@.subrange(0, n as int) == v@.take(n as int));
            self.record.title = string_from(v.as_slice(), 0, n);
        }
        Ok(())
    }

    /// Ends the handling of a message now, by the system clock: as
    /// [`Session::finish_at`] at whatever time the clock gives (the time of
    /// the last change is kept if the clock reads before 1970).
    pub fn finish(&mut self, messages: Option<Vec<M>>, error: Option<E>, done: E) -> (during: Option<
        Summary,
    >)
        requires
            old(self).record.revision < u64::MAX - 1,
        ensures
            !final(self).busy,
            final(self).save_error == old(self).save_error,
            final(self).record.id == old(self).record.id,
            final(self).record.title == old(self).record.title,
            final(self).record.create_time == old(self).record.create_time,
            final(self).record.messages == match messages {
                Some(m) => m,
                None => old(self).record.messages,
            },
            final(self).record.events@ == match error {
                Some(e) => old(self).record.events@.push(e).push(done),
                None => old(self).record.events@.push(done),
            },
            final(self).record.revision == old(self).record.revision + match error {
                Some(_) => 2int,
                None => 1int,
            },
            during is Some <==> error is Some,
            during matches Some(d) ==> d@ == (SummaryView {
                busy: old(self).busy,
                revision: (final(self).record.revision - 1) as u64,
                ..final(self).summary_view()
            }),
    {
        let now = match now_millis() {
            Some(t) => t,
            None => self.record.updated_at,
        };
        self.finish_at(messages, error, done, now)
    }

    /// Ends the handling of a message at time `now`: the conversation becomes
    /// `messages` when the model run came back with them, the `error` event is
    /// emitted if there is one, the session becomes idle, and the `done` event
    /// is emitted. Gives the summary of the session as it stood right after
    /// the `error` event, if there was one.
    pub fn finish_at(&mut self, messages: Option<Vec<M>>, error: Option<E>, done: E, now: i64) -> (during:
        Option<Summary>)
        requires
            old(self).record.revision < u64::MAX - 1,
        ensures
            !final(self).busy,
            final(self).save_error == old(self).save_error,
            final(self).record.id == old(self).record.id,
            final(self).record.title == old(self).record.title,
            final(self).record.create_time == old(self).record.create_time,
            final(self).record.updated_at == now,
            final(self).record.messages == match messages {
                Some(m) => m,
                None => old(self).record.messages,
            },
            final(self).record.events@ == match error {
                Some(e) => old(self).record.events@.push(e).push(done),
                None => old(self).record.events@.push(done),
            },
            final(self).record.revision == old(self).record.revision + match error {
                Some(_) => 2int,
                None => 1int,
            },
            during is Some <==> error is Some,
            during matches Some(d) ==> d@ == (SummaryView {
                busy: old(self).busy,
                revision: (final(self).record.revision - 1) as u64,
                ..final(self).summary_view()
            }),
    {
        if let Some(m) = messages {
            self.record.messages = m;
        }
        let mut during: Option<Summary> = None;
        if let Some(e) = error {
            self.emit_at(e, now);
            during = Some(self.summary());
        }
        self.busy = false;
        self.emit_at(done, now);
        during
    }
}

/// Brings a resumed conversation up to date: its first message, when it is
/// a system message, becomes `system`, so that the current prompt (and the
/// skills installed since) applies; any other conversation is left as it is.
pub fn refresh_system<M>(messages: &mut Vec<M>, first_is_system: bool, system: M)
    ensures
        final(messages)@ == if first_is_system && old(messages)@.len() > 0 {
            old(messages)@.update(0, system)
        } else {
            old(messages)@
        },
{
    if first_is_system && messages.len() > 0 {
        messages.set(0, system);
    }
}

/// Whether the summaries run from the most recently changed to the least.
pub open spec fn recent_first(s: Seq<SummaryView>) -> bool {
    forall|i: int, j: int| 0 <= i < j < s.len() ==> s[i].updated_at >= s[j].updated_at
}

/// The views of a sequence of summaries.
pub open spec fn summary_views(s: Seq<Summary>) -> Seq<SummaryView> {
    s.map_values(|x: Summary| x@)
}

/// Whether a summary was last changed at `t`.
pub open spec fn changed_at(t: i64) -> spec_fn(SummaryView) -> bool {
    |s: SummaryView| s.updated_at == t
}

/// Whether `a` and `b` hold the same summaries changed at each time, in the
/// same order.
pub open spec fn same_ties(a: Seq<SummaryView>, b: Seq<SummaryView>) -> bool {
    forall|t: i64| #[trigger] a.filter(changed_at(t)) == b.filter(changed_at(t))
}

/// The summaries reordered from the most recently changed to the least;
/// summaries changed at the same time keep their order.
pub fn order_by_recent(summaries: Vec<Summary>) -> (r: Vec<Summary>)
    ensures
        r@.len() == summaries@.len(),
        summary_views(r@).to_multiset() == summary_views(summaries@).to_multiset(),
        recent_first(summary_views(r@)),
        same_ties(summary_views(r@), summary_views(summaries@)),
{
    broadcast use vstd::seq_lib::group_to_multiset_ensures;

    let ghost input = summary_views(summaries@);
    let mut out: Vec<Summary> = Vec::new();
    let mut rest = summaries;
    let ghost mut taken: Seq<SummaryView> = seq![];
    assert(summary_views(out@) =~= taken);
    while rest.len() > 0
        invariant
            input == taken + summary_views(rest@),
            summary_views(out@).to_multiset() == taken.to_multiset(),
            out@.len() == taken.len(),
            recent_first(summary_views(out@)),
            same_ties(summary_views(out@), taken),
        decreases rest@.len(),
    {
        let ghost rest_before = rest@;
        let x = rest.remove(0);
        let mut pos: usize = 0;
        while pos < out.len() && out[pos].updated_at >= x.updated_at
            invariant
                0 <= pos <= out@.len(),
                forall|i: int| 0 <= i < pos ==> out@[i].updated_at >= x.updated_at,
            decreases out@.len() - pos,
        {
            pos += 1;
        }
        let ghost before = summary_views(out@);
        proof {
            lemma_insert_to_multiset(before, pos as int, x@);
            taken.to_multiset_ensures();
            assert(summary_views(rest_before) == seq![x@] + summary_views(rest@));
            assert(input == taken.push(x@) + summary_views(rest@));
        }
        let ghost xv = x@;
        assert(forall|i: int| 0 <= i < pos ==> before[i].updated_at >= xv.updated_at);
        assert(pos < before.len() ==> before[pos as int].updated_at < xv.updated_at);
        out.insert(pos, x);
        assert(summary_views(out@) == before.insert(pos as int, xv));
        assert forall|i: int, j: int|
            0 <= i < j < before.len() + 1 implies before.insert(pos as int, xv)[i].updated_at
            >= before.insert(pos as int, xv)[j].updated_at by {
            before.insert_ensures(pos as int, xv);
            let t = before.insert(pos as int, xv);
            if i < pos && j > pos {
                assert(t[i] == before[i]);
                assert(t[j] == before[j - 1]);
                assert(before[i].updated_at >= xv.updated_at);
                assert(xv.updated_at > before[pos as int].updated_at);
            } else if i == pos {
                assert(t[j] == before[j - 1]);
                assert(xv.updated_at > before[pos as int].updated_at);
            } else if j == pos {
                assert(t[i] == before[i]);
            } else if j < pos {
                assert(t[i] == before[i]);
                assert(t[j] == before[j]);
            } else {
                assert(t[i] == before[i - 1]);
                assert(t[j] == before[j - 1]);
            }
        }
        proof {
            assert forall|j: int| pos <= j < before.len() implies before[j].updated_at < xv.updated_at by {
                if j > pos {
                    assert(before[pos as int].updated_at >= before[j].updated_at);
                }
            }
            assert forall|t: i64| #[trigger] summary_views(out@).filter(changed_at(t)) == taken.push(
                xv,
            ).filter(changed_at(t)) by {
                crate::text::lemma_insert_filter(before, pos as int, xv, changed_at(t));
                taken.lemma_filter_push(xv, changed_at(t));
            }
            taken = taken.push(x@);
        }
    }
    assert(input == taken);
    out
}

} // verus!
