//! The mail tool's reports: the newest mails of a folder, one mail in full,
//! and the folders. Each mail is read from its raw bytes with mail-parser;
//! the IMAP conversation stays with the caller.
use vstd::prelude::*;
use mail_parser::MimeHeaders;
use crate::text::{decimal, join, push_decimal, push_str, trim, trimmed};
use crate::tools::{clip, clipped, format_addr, one_line, words};

verus! {

/// A mail address as a header gives it: a display name and an address,
/// either of which may be missing.
pub struct Address {
    pub name: Option<String>,
    pub address: Option<String>,
}

/// The texts an [`Address`] holds.
pub struct AddressView {
    pub name: Option<Seq<char>>,
    pub address: Option<Seq<char>>,
}

/// The text of an optional string.
pub open spec fn opt_text(s: Option<String>) -> Option<Seq<char>> {
    match s {
        Some(t) => Some(t@),
        None => None,
    }
}

impl View for Address {
    type V = AddressView;

    open spec fn view(&self) -> AddressView {
        AddressView { name: opt_text(self.name), address: opt_text(self.address) }
    }
}

/// The header fields of a mail that the reports show: its first sender, its
/// subject, and its date in RFC 3339 form.
pub struct MailHead {
    pub from: Option<Address>,
    pub subject: Option<String>,
    pub date: Option<String>,
}

/// The texts a [`MailHead`] holds.
pub struct MailHeadView {
    pub from: Option<AddressView>,
    pub subject: Option<Seq<char>>,
    pub date: Option<Seq<char>>,
}

impl View for MailHead {
    type V = MailHeadView;

    open spec fn view(&self) -> MailHeadView {
        MailHeadView {
            from: match self.from {
                Some(a) => Some(a@),
                None => None,
            },
            subject: opt_text(self.subject),
            date: opt_text(self.date),
        }
    }
}

/// An attachment of a mail: its name, if it has one, and its size in bytes.
pub struct Attachment {
    pub name: Option<String>,
    pub size: usize,
}

/// The text and size an [`Attachment`] holds.
pub struct AttachmentView {
    pub name: Option<Seq<char>>,
    pub size: usize,
}

impl View for Attachment {
    type V = AttachmentView;

    open spec fn view(&self) -> AttachmentView {
        AttachmentView { name: opt_text(self.name), size: self.size }
    }
}

/// The rest of a mail that its full view shows: the recipients, the
/// attachments, and the first text body.
pub struct MailDetails {
    pub to: Vec<Address>,
    pub attachments: Vec<Attachment>,
    pub body: Option<String>,
}

/// The texts a [`MailDetails`] holds.
pub struct MailDetailsView {
    pub to: Seq<AddressView>,
    pub attachments: Seq<AttachmentView>,
    pub body: Option<Seq<char>>,
}

impl View for MailDetails {
    type V = MailDetailsView;

    open spec fn view(&self) -> MailDetailsView {
        MailDetailsView {
            to: self.to@.map_values(|a: Address| a@),
            attachments: self.attachments@.map_values(|a: Attachment| a@),
            body: opt_text(self.body),
        }
    }
}

/// The address with the display name `name` and the address `mailbox`.
pub fn address(name: Option<&str>, mailbox: Option<&str>) -> (a: Address)
    ensures
        a@.name == match name {
            Some(n) => Some(n@),
            None => None::<Seq<char>>,
        },
        a@.address == match mailbox {
            Some(m) => Some(m@),
            None => None::<Seq<char>>,
        },
{
    Address {
        name: match name {
            Some(n) => Some(String::from_str(n)),
            None => None,
        },
        address: match mailbox {
            Some(m) => Some(String::from_str(m)),
            None => None,
        },
    }
}

/// The attachment named `name` (if it has a name) of `size` bytes.
pub fn attachment(name: Option<&str>, size: usize) -> (a: Attachment)
    ensures
        a@.name == match name {
            Some(n) => Some(n@),
            None => None::<Seq<char>>,
        },
        a@.size == size,
{
    Attachment {
        name: match name {
            Some(n) => Some(String::from_str(n)),
            None => None,
        },
        size,
    }
}

/// What `MessageParser::parse` finds in the header fields of the mail `raw`.
pub uninterp spec fn parsed_head(raw: Seq<u8>) -> Option<MailHeadView>;

/// What `MessageParser::parse` finds in the rest of the mail `raw`.
pub uninterp spec fn parsed_details(raw: Seq<u8>) -> Option<MailDetailsView>;

/// Reads `raw` with mail-parser's `MessageParser::parse` (which never
/// panics, and gives nothing where it finds no header) and takes the first
/// address of `From`, the subject, and the date through `to_rfc3339`. The
/// contract names the result; what parsing gives is not stated.
#[verifier::external_body]
fn mail_head(raw: &[u8]) -> (h: Option<MailHead>)
    ensures
        match h {
            Some(x) => parsed_head(raw@) == Some(x@),
            None => parsed_head(raw@) is None,
        },
{
    let m = mail_parser::MessageParser::default().parse(raw)?;
    let from = m.from().and_then(|list| list.first());
    Some(MailHead {
        from: from.map(|a| address(a.name.as_deref(), a.address.as_deref())),
        subject: m.subject().map(String::from),
        date: m.date().map(|d| d.to_rfc3339()),
    })
}

/// Reads `raw` with mail-parser's `MessageParser::parse` and takes every
/// address of `To`, each attachment's name and length, and the first text
/// body (`body_text(0)`). The contract names the result; what parsing gives
/// is not stated.
#[verifier::external_body]
fn mail_details(raw: &[u8]) -> (d: Option<MailDetails>)
    ensures
        match d {
            Some(x) => parsed_details(raw@) == Some(x@),
            None => parsed_details(raw@) is None,
        },
{
    let m = mail_parser::MessageParser::default().parse(raw)?;
    let to = m.to().map(|list| list.iter().map(|a| address(a.name.as_deref(), a.address.as_deref())).collect());
    Some(MailDetails {
        to: to.unwrap_or_default(),
        attachments: m.attachments().map(|p| attachment(p.attachment_name(), p.len())).collect(),
        body: m.body_text(0).map(|b| b.into_owned()),
    })
}

/// An address as the reports show it: `name <address>` when both are given
/// and differ, else whichever is given, else 「(未知发件人)」.
pub open spec fn addr_text(a: AddressView) -> Seq<char> {
    match (a.name, a.address) {
        (Some(n), Some(m)) => if n != m {
            n + " <"@ + m + ">"@
        } else {
            m
        },
        (None, Some(m)) => m,
        (Some(n), None) => n,
        (None, None) => "(未知发件人)"@,
    }
}

/// `s` on one line: its words joined by single spaces.
pub open spec fn one_line_of(s: Seq<char>) -> Seq<char> {
    join(words(s), " "@)
}

fn opt_str(s: &Option<String>) -> (r: Option<&str>)
    ensures
        match r {
            Some(t) => opt_text(*s) == Some(t@),
            None => s is None,
        },
{
    match s {
        Some(t) => Some(t.as_str()),
        None => None,
    }
}

/// How an address is shown.
pub fn address_text(a: &Address) -> (r: String)
    ensures
        r@ == addr_text(a@),
{
    format_addr(opt_str(&a.name), opt_str(&a.address))
}

/// A mail as IMAP fetched it for the list: its UID, whether it was read, its
/// size, and the bytes of its header, each as far as the server gave them.
pub struct FetchedMail {
    pub uid: Option<u32>,
    pub seen: bool,
    pub size: Option<u32>,
    pub header: Option<Vec<u8>>,
}

/// The sender, subject and date that the list shows for a mail whose header
/// parsed to `head`.
pub open spec fn list_fields(head: Option<MailHeadView>) -> (Seq<char>, Seq<char>, Seq<char>) {
    match head {
        Some(h) => (
            match h.from {
                Some(a) => addr_text(a),
                None => Seq::<char>::empty(),
            },
            match h.subject {
                Some(s) => s,
                None => "(无主题)"@,
            },
            match h.date {
                Some(d) => d,
                None => "(无日期)"@,
            },
        ),
        None => ("(解析失败)"@, "(解析失败)"@, Seq::<char>::empty()),
    }
}

/// The entry of the list for the mail `uid` of `size` bytes, read or not,
/// whose header parsed to `head`.
pub open spec fn mail_line(uid: u32, seen: bool, size: u32, head: Option<MailHeadView>) -> Seq<char> {
    let f = list_fields(head);
    "  UID "@ + decimal(uid as nat) + " ["@ + (if seen {
        "已读"@
    } else {
        "未读"@
    }) + "] "@ + decimal(size as nat) + " 字节\n    发件人："@ + one_line_of(f.0) + "\n    主题："@
        + one_line_of(f.1) + "\n    时间："@ + f.2 + "\n"@
}

/// What the header bytes of a fetched mail parse to (nothing without them).
pub open spec fn head_of(m: FetchedMail) -> Option<MailHeadView> {
    match m.header {
        Some(h) => parsed_head(h@),
        None => None,
    }
}

/// The entry of the list for a fetched mail: UID and size 0 where the server
/// gave none.
pub open spec fn fetched_line(m: FetchedMail) -> Seq<char> {
    mail_line(
        match m.uid {
            Some(u) => u,
            None => 0,
        },
        m.seen,
        match m.size {
            Some(s) => s,
            None => 0,
        },
        head_of(m),
    )
}

/// The entries of the first `k` fetched mails.
pub open spec fn fetched_lines(ms: Seq<FetchedMail>, k: int) -> Seq<char>
    decreases k,
{
    if k <= 0 {
        seq![]
    } else {
        fetched_lines(ms, k - 1) + fetched_line(ms[k - 1])
    }
}

/// What the list action gives for `folder`, where `matched` mails matched
/// and the newest `shown` of them were fetched as `ms`.
pub open spec fn mail_list_text(folder: Seq<char>, matched: usize, shown: usize, ms: Seq<FetchedMail>) -> Seq<
    char,
> {
    if shown == 0 {
        folder + " 里没有符合条件的邮件。"@
    } else {
        clipped(
            folder + "：共匹配 "@ + decimal(matched as nat) + " 封，下面是最新的 "@ + decimal(shown as nat)
                + " 封\n"@ + fetched_lines(ms, ms.len() as int) + "\n要读某一封的正文，用 action=read 和对应的 uid。"@,
        )
    }
}

/// Appends the list entry of the mail `uid` to `out`.
pub fn push_mail_line(out: &mut String, uid: u32, seen: bool, size: u32, head: &Option<MailHead>)
    ensures
        final(out)@ == old(out)@ + mail_line(
            uid,
            seen,
            size,
            match head {
                Some(h) => Some(h@),
                None => None,
            },
        ),
{
    let ghost hv = match head {
        Some(h) => Some(h@),
        None => None::<MailHeadView>,
    };
    let ghost f = list_fields(hv);
    let (from, subject, date) = match head {
        Some(h) => {
            let from = match &h.from {
                Some(a) => address_text(a),
                None => String::new(),
            };
            let subject = match &h.subject {
                Some(s) => s.clone(),
                None => String::from_str("(无主题)"),
            };
            let date = match &h.date {
                Some(d) => d.clone(),
                None => String::from_str("(无日期)"),
            };
            proof {
                assert(from@ == f.0);
            }
            (from, subject, date)
        },
        None => (String::from_str("(解析失败)"), String::from_str("(解析失败)"), String::new()),
    };
    assert(from@ == f.0 && subject@ == f.1 && date@ == f.2);
    push_str(out, "  UID ");
    push_decimal(out, uid as u128);
    push_str(out, " [");
    if seen {
        push_str(out, "已读");
    } else {
        push_str(out, "未读");
    }
    push_str(out, "] ");
    push_decimal(out, size as u128);
    push_str(out, " 字节\n    发件人：");
    let from_line = one_line(from.as_str());
    push_str(out, from_line.as_str());
    push_str(out, "\n    主题：");
    let subject_line = one_line(subject.as_str());
    push_str(out, subject_line.as_str());
    push_str(out, "\n    时间：");
    push_str(out, date.as_str());
    push_str(out, "\n");
}

/// Appends the list entry of a fetched mail, its header read with
/// mail-parser.
fn push_fetched_line(out: &mut String, m: &FetchedMail)
    ensures
        final(out)@ == old(out)@ + fetched_line(*m),
{
    let parsed = match &m.header {
        Some(h) => mail_head(h.as_slice()),
        None => None,
    };
    let uid: u32 = match m.uid {
        Some(u) => u,
        None => 0,
    };
    let size: u32 = match m.size {
        Some(s) => s,
        None => 0,
    };
    push_mail_line(out, uid, m.seen, size, &parsed);
    proof {
        let hv = match parsed {
            Some(h) => Some(h@),
            None => None::<MailHeadView>,
        };
        assert(hv == head_of(*m));
    }
}

/// What the list action gives for `folder`: the newest `shown` of the
/// `matched` mails, fetched as `mails`, each header read with mail-parser.
pub fn mail_list_report(folder: &str, matched: usize, shown: usize, mails: &[FetchedMail]) -> (r: String)
    ensures
        r@ == mail_list_text(folder@, matched, shown, mails@),
{
    if shown == 0 {
        let mut t = String::from_str(folder);
        push_str(&mut t, " 里没有符合条件的邮件。");
        return t;
    }
    let mut text = String::from_str(folder);
    push_str(&mut text, "：共匹配 ");
    push_decimal(&mut text, matched as u128);
    push_str(&mut text, " 封，下面是最新的 ");
    push_decimal(&mut text, shown as u128);
    push_str(&mut text, " 封\n");
    let ghost head = text@;
    let mut k: usize = 0;
    while k < mails.len()
        invariant
            0 <= k <= mails@.len(),
            text@ == head + fetched_lines(mails@, k as int),
        decreases mails@.len() - k,
    {
        push_fetched_line(&mut text, &mails[k]);
        k += 1;
    }
    push_str(&mut text, "\n要读某一封的正文，用 action=read 和对应的 uid。");
    clip(text.as_str())
}

/// The lines that list `attachments`, each with its name (「(未命名)」 if it
/// has none) and size.
pub open spec fn attachment_lines(atts: Seq<AttachmentView>, k: int) -> Seq<char>
    decreases k,
{
    if k <= 0 {
        seq![]
    } else {
        let a = atts[k - 1];
        attachment_lines(atts, k - 1) + "  - "@ + match a.name {
            Some(n) => n,
            None => "(未命名)"@,
        } + "（"@ + decimal(a.size as nat) + " 字节）\n"@
    }
}

/// The attachment lines of `k` attachments are, in order, exactly one line
/// per attachment: its name (「(未命名)」 without one) and its size.
pub proof fn lemma_attachment_lines_each(atts: Seq<AttachmentView>, k: int)
    requires
        0 <= k <= atts.len(),
    ensures
        attachment_lines(atts, k) == Seq::new(
            k as nat,
            |i: int|
                "  - "@ + match atts[i].name {
                    Some(n) => n,
                    None => "(未命名)"@,
                } + "（"@ + decimal(atts[i].size as nat) + " 字节）\n"@,
        ).flatten(),
    decreases k,
{
    let f = |i: int|
        "  - "@ + match atts[i].name {
            Some(n) => n,
            None => "(未命名)"@,
        } + "（"@ + decimal(atts[i].size as nat) + " 字节）\n"@;
    if k > 0 {
        lemma_attachment_lines_each(atts, k - 1);
        let shorter = Seq::new((k - 1) as nat, f);
        assert(Seq::new(k as nat, f) =~= shorter.push(f(k - 1)));
        shorter.lemma_flatten_push(f(k - 1));
    } else {
        assert(Seq::new(0, f) =~= Seq::<Seq<char>>::empty());
    }
}

/// The subject, sender and date lines of a mail's full view.
pub open spec fn head_part(h: MailHeadView) -> Seq<char> {
    "主题："@ + match h.subject {
        Some(s) => s,
        None => "(无主题)"@,
    } + "\n发件人："@ + match h.from {
        Some(a) => addr_text(a),
        None => "(未知)"@,
    } + "\n"@ + match h.date {
        Some(t) => "时间："@ + t + "\n"@,
        None => Seq::<char>::empty(),
    }
}

/// The recipients' line of a mail's full view (nothing if nobody).
pub open spec fn to_part(to: Seq<AddressView>) -> Seq<char> {
    if to.len() > 0 {
        "收件人："@ + one_line_of(join(to.map_values(|a: AddressView| addr_text(a)), ", "@)) + "\n"@
    } else {
        Seq::<char>::empty()
    }
}

/// The attachment lines of a mail's full view (nothing without any).
pub open spec fn attachments_part(atts: Seq<AttachmentView>) -> Seq<char> {
    if atts.len() > 0 {
        "附件：\n"@ + attachment_lines(atts, atts.len() as int)
    } else {
        Seq::<char>::empty()
    }
}

/// The body of a mail's full view: its text body trimmed, or
/// 「(没有可显示的正文)」 if it has none or it is blank.
pub open spec fn body_part(body: Option<Seq<char>>) -> Seq<char> {
    match body {
        Some(b) => if trim(b).len() > 0 {
            trim(b)
        } else {
            "(没有可显示的正文)"@
        },
        None => "(没有可显示的正文)"@,
    }
}

/// The attachment section of a mail's full view is empty without
/// attachments; else it is the heading 「附件：」 and one line per
/// attachment, in order.
pub proof fn lemma_attachments_part(atts: Seq<AttachmentView>)
    ensures
        attachments_part(atts) == if atts.len() > 0 {
            "附件：\n"@ + Seq::new(
                atts.len(),
                |i: int|
                    "  - "@ + match atts[i].name {
                        Some(n) => n,
                        None => "(未命名)"@,
                    } + "（"@ + decimal(atts[i].size as nat) + " 字节）\n"@,
            ).flatten()
        } else {
            Seq::<char>::empty()
        },
{
    lemma_attachment_lines_each(atts, atts.len() as int);
}

/// The full view of a mail whose header parsed to `h` and the rest to `d`.
pub open spec fn mail_text(h: MailHeadView, d: MailDetailsView) -> Seq<char> {
    head_part(h) + to_part(d.to) + attachments_part(d.attachments) + "\n———— 正文 ————\n"@ + body_part(d.body)
}

/// What the read action gives for the mail `uid` of `folder`, whose raw
/// bytes are `raw` if the server had such a mail.
pub open spec fn mail_read_text(folder: Seq<char>, uid: u32, raw: Option<Seq<u8>>) -> Result<
    Seq<char>,
    Seq<char>,
> {
    match raw {
        None => Err(folder + " 里没有 uid 为 "@ + decimal(uid as nat) + " 的邮件"@),
        Some(r) => match (parsed_head(r), parsed_details(r)) {
            (Some(h), Some(d)) => Ok(clipped(mail_text(h, d))),
            _ => Err("这封邮件解析失败"@),
        },
    }
}

/// Appends the recipients' line of a mail sent to `to` (nothing if nobody).
fn push_recipients(out: &mut String, to: &Vec<Address>)
    ensures
        final(out)@ == old(out)@ + to_part(to@.map_values(|a: Address| a@)),
{
    if to.len() == 0 {
        assert(old(out)@ + Seq::<char>::empty() == old(out)@);
        return;
    }
    let ghost ts = to@.map_values(|a: Address| a@).map_values(|a: AddressView| addr_text(a));
    let mut shown: Vec<String> = Vec::new();
    let mut k: usize = 0;
    while k < to.len()
        invariant
            0 <= k <= to@.len(),
            shown@.len() == k,
            ts == to@.map_values(|a: Address| a@).map_values(|a: AddressView| addr_text(a)),
            forall|i: int| 0 <= i < k ==> #[trigger] shown@[i]@ == ts[i],
        decreases to@.len() - k,
    {
        let t = address_text(&to[k]);
        shown.push(t);
        k += 1;
    }
    assert(shown@.map_values(|s: String| s@) == ts);
    let joined = crate::text::join_strings(shown.as_slice(), ", ");
    push_str(out, "收件人：");
    let line = one_line(joined.as_str());
    push_str(out, line.as_str());
    push_str(out, "\n");
}

/// Appends the attachment lines of `atts` to `out`.
fn push_attachments(out: &mut String, atts: &Vec<Attachment>)
    ensures
        final(out)@ == old(out)@ + attachments_part(atts@.map_values(|a: Attachment| a@)),
{
    let ghost av = atts@.map_values(|a: Attachment| a@);
    if atts.len() == 0 {
        assert(old(out)@ + Seq::<char>::empty() == old(out)@);
        return;
    }
    push_str(out, "附件：\n");
    let ghost start = out@;
    let mut k: usize = 0;
    while k < atts.len()
        invariant
            0 <= k <= atts@.len(),
            av == atts@.map_values(|a: Attachment| a@),
            out@ == start + attachment_lines(av, k as int),
        decreases atts@.len() - k,
    {
        let a = &atts[k];
        push_str(out, "  - ");
        match &a.name {
            Some(n) => push_str(out, n.as_str()),
            None => push_str(out, "(未命名)"),
        }
        push_str(out, "（");
        push_decimal(out, a.size as u128);
        push_str(out, " 字节）\n");
        assert(av[k as int] == a@);
        k += 1;
    }
}

/// What the read action gives for the mail `uid` of `folder`: its subject,
/// sender, date, recipients, attachments and text body, read from `raw`
/// with mail-parser; or why it cannot be shown.
pub fn mail_read_report(folder: &str, uid: u32, raw: Option<&[u8]>) -> (r: Result<String, String>)
    ensures
        match r {
            Ok(t) => mail_read_text(
                folder@,
                uid,
                match raw {
                    Some(b) => Some(b@),
                    None => None,
                },
            ) == Ok::<Seq<char>, Seq<char>>(t@),
            Err(e) => mail_read_text(
                folder@,
                uid,
                match raw {
                    Some(b) => Some(b@),
                    None => None,
                },
            ) == Err::<Seq<char>, Seq<char>>(e@),
        },
{
    let raw = match raw {
        Some(b) => b,
        None => {
            let mut e = String::from_str(folder);
            push_str(&mut e, " 里没有 uid 为 ");
            push_decimal(&mut e, uid as u128);
            push_str(&mut e, " 的邮件");
            return Err(e);
        },
    };
    let head = mail_head(raw);
    let details = mail_details(raw);
    let (h, d) = match (head, details) {
        (Some(h), Some(d)) => (h, d),
        _ => {
            return Err(String::from_str("这封邮件解析失败"));
        },
    };
    let text = mail_view(&h, &d);
    Ok(clip(text.as_str()))
}

/// Appends the subject, sender and date lines of a mail to `out`.
fn push_head(out: &mut String, h: &MailHead)
    ensures
        final(out)@ == old(out)@ + head_part(h@),
{
    let ghost start = out@;
    push_str(out, "主题：");
    match &h.subject {
        Some(s) => push_str(out, s.as_str()),
        None => push_str(out, "(无主题)"),
    }
    push_str(out, "\n发件人：");
    match &h.from {
        Some(a) => {
            let t = address_text(a);
            push_str(out, t.as_str());
        },
        None => push_str(out, "(未知)"),
    }
    push_str(out, "\n");
    match &h.date {
        Some(t) => {
            push_str(out, "时间：");
            push_str(out, t.as_str());
            push_str(out, "\n");
        },
        None => {
            assert(out@ + Seq::<char>::empty() == out@);
        },
    }
}

/// The full view of a mail with header fields `h` and the rest `d`.
pub fn mail_view(h: &MailHead, d: &MailDetails) -> (r: String)
    ensures
        r@ == mail_text(h@, d@),
{
    let mut text = String::new();
    push_head(&mut text, h);
    push_recipients(&mut text, &d.to);
    push_attachments(&mut text, &d.attachments);
    push_str(&mut text, "\n———— 正文 ————\n");
    let body = match &d.body {
        Some(b) => {
            let t = trimmed(b.as_str());
            if t.as_str().is_empty() {
                String::from_str("(没有可显示的正文)")
            } else {
                t
            }
        },
        None => String::from_str("(没有可显示的正文)"),
    };
    push_str(&mut text, body.as_str());
    text
}

/// What the folders action gives for the folders named `names`.
pub open spec fn folder_lines(names: Seq<String>, k: int) -> Seq<char>
    decreases k,
{
    if k <= 0 {
        seq![]
    } else {
        folder_lines(names, k - 1) + "  "@ + names[k - 1]@ + "\n"@
    }
}

/// What the folders action gives: each folder's name on a line of its own.
pub fn folders_report(names: &[String]) -> (r: String)
    ensures
        r@ == "邮箱文件夹：\n"@ + folder_lines(names@, names@.len() as int),
{
    let mut text = String::from_str("邮箱文件夹：\n");
    let ghost head = text@;
    let mut k: usize = 0;
    while k < names.len()
        invariant
            0 <= k <= names@.len(),
            text@ == head + folder_lines(names@, k as int),
        decreases names@.len() - k,
    {
        push_str(&mut text, "  ");
        push_str(&mut text, names[k].as_str());
        push_str(&mut text, "\n");
        k += 1;
    }
    text
}

} // verus!
