//! The Canvas tools: what an answer's status means, the walk through the
//! pages of a course's file list, and the reports on assignments and files.
//! The HTTP requests stay with the caller.
use vstd::prelude::*;
use crate::text::{decimal, join, join_strings, push_decimal, push_signed, push_str, trim, trimmed};
use crate::tools::{CanvasFile, clip, clipped, lowercase, page_url, to_lowercase};

verus! {

/// The Canvas instance the tools talk to.
pub const CANVAS_BASE: &'static str = "https://oc.sjtu.edu.cn";

/// How many pages of a course's file list are fetched at most.
pub const FILES_MAX_PAGES: usize = 10;

/// What a Canvas tool answers when no API token is configured.
pub const TOKEN_MISSING: &'static str = "canvas apitoken not found ,please check your dotenv config";

/// Which list of the Canvas API a request asks for.
#[derive(Clone, Copy, PartialEq, Eq, Structural, Debug)]
pub enum CanvasApi {
    /// The active courses.
    Courses,
    /// The assignments of a course.
    Assignments,
    /// The files of a course.
    Files,
}

/// The error that an answer with status `code` (shown as `status`) gives for
/// a request to `api` about the course `course_id`, if any: an expired
/// token, a course without that page, or any status outside 200–299.
pub open spec fn status_error(api: CanvasApi, course_id: Seq<char>, code: u16, status: Seq<char>) -> Option<
    Seq<char>,
> {
    if code == 401 {
        Some(
            if api == CanvasApi::Courses {
                "认证失败 (401)：令牌无效或已过期，请重新生成"@
            } else {
                "认证失败 (401)：令牌无效或已过期"@
            },
        )
    } else if code == 404 && api == CanvasApi::Assignments {
        Some("课程 "@ + course_id + " 不存在，或该课程未启用「作业」页面"@)
    } else if code == 404 && api == CanvasApi::Files {
        Some("课程 "@ + course_id + " 不存在，或该课程未启用「文件」页面"@)
    } else if code < 200 || code >= 300 {
        Some("Canvas 返回 "@ + status)
    } else {
        None
    }
}

/// The error that a Canvas answer with status `code`, shown as `status`,
/// gives for a request to `api` about the course `course_id`.
pub fn canvas_status(api: CanvasApi, course_id: &str, code: u16, status: &str) -> (r: Option<String>)
    ensures
        match r {
            Some(e) => status_error(api, course_id@, code, status@) == Some(e@),
            None => status_error(api, course_id@, code, status@) is None,
        },
{
    if code == 401 {
        if api == CanvasApi::Courses {
            Some(String::from_str("认证失败 (401)：令牌无效或已过期，请重新生成"))
        } else {
            Some(String::from_str("认证失败 (401)：令牌无效或已过期"))
        }
    } else if code == 404 && api == CanvasApi::Assignments {
        let mut e = String::from_str("课程 ");
        push_str(&mut e, course_id);
        push_str(&mut e, " 不存在，或该课程未启用「作业」页面");
        Some(e)
    } else if code == 404 && api == CanvasApi::Files {
        let mut e = String::from_str("课程 ");
        push_str(&mut e, course_id);
        push_str(&mut e, " 不存在，或该课程未启用「文件」页面");
        Some(e)
    } else if code < 200 || code >= 300 {
        let mut e = String::from_str("Canvas 返回 ");
        push_str(&mut e, status);
        Some(e)
    } else {
        None
    }
}

/// The course the assignment tool is asked about: the `course_id` argument,
/// which must be a non-empty text.
pub fn exam_course(course_id: Option<&str>) -> (r: Result<String, String>)
    ensures
        match course_id {
            Some(id) => if id@.len() > 0 {
                r matches Ok(c) && c@ == id@
            } else {
                r matches Err(e) && e@ == "course not found"@
            },
            None => r matches Err(e) && e@ == "course not found"@,
        },
{
    match course_id {
        Some(id) => {
            if id.is_empty() {
                Err(String::from_str("course not found"))
            } else {
                Ok(String::from_str(id))
            }
        },
        None => Err(String::from_str("course not found")),
    }
}

/// An assignment as the course's assignment list gives it; its score, a
/// JSON number, is kept as the text it prints as.
pub struct Assignment {
    pub id: u64,
    pub name: String,
    pub due_at: Option<String>,
    pub points: Option<String>,
    pub html_url: Option<String>,
}

/// What an assignment's own page adds.
pub struct AssignmentDetail {
    pub description: Option<String>,
    pub submission_types: Vec<String>,
    pub allowed_attempts: Option<i64>,
    pub unlock_at: Option<String>,
    pub lock_at: Option<String>,
}

/// How the request for an assignment's own page went.
pub enum DetailOutcome {
    /// It came back and was read.
    Found(AssignmentDetail),
    /// It came back but could not be read, for the reason given.
    Unreadable(String),
    /// It failed, for the reason given.
    Unreachable(String),
}

/// An assignment and how the request for its own page went.
pub struct ExamEntry {
    pub assignment: Assignment,
    pub detail: DetailOutcome,
}

/// `label`, `v` and a line break if `v` is given, else nothing.
pub open spec fn opt_line(label: Seq<char>, v: Option<String>) -> Seq<char> {
    match v {
        Some(t) => label + t@ + "\n"@,
        None => Seq::<char>::empty(),
    }
}

/// The line on how many attempts an assignment allows (「不限」 if any
/// number), if its page says.
pub open spec fn attempts_part(attempts: Option<i64>) -> Seq<char> {
    match attempts {
        Some(a) => "允许尝试："@ + (if a < 0 {
            "不限"@
        } else {
            decimal(a as nat)
        }) + "\n"@,
        None => Seq::<char>::empty(),
    }
}

/// The line on how an assignment is handed in, if its page names any way.
pub open spec fn submission_part(types: Seq<String>) -> Seq<char> {
    if types.len() > 0 {
        "提交方式："@ + join(types.map_values(|s: String| s@), "、"@) + "\n"@
    } else {
        Seq::<char>::empty()
    }
}

/// The line with an assignment's description, trimmed, if it is not blank.
pub open spec fn description_part(description: Option<String>) -> Seq<char> {
    match description {
        Some(t) => if trim(t@).len() > 0 {
            "说明："@ + trim(t@) + "\n"@
        } else {
            Seq::<char>::empty()
        },
        None => Seq::<char>::empty(),
    }
}

/// The lines that an assignment's own page adds: when it opens and locks,
/// how many attempts it allows, how it is handed in, and its description.
pub open spec fn detail_found_text(d: AssignmentDetail) -> Seq<char> {
    opt_line("开始："@, d.unlock_at) + opt_line("锁定："@, d.lock_at) + attempts_part(d.allowed_attempts)
        + submission_part(d.submission_types@) + description_part(d.description)
}

/// The lines of the report for how the request for an assignment's own page
/// went.
pub open spec fn detail_text(d: DetailOutcome) -> Seq<char> {
    match d {
        DetailOutcome::Found(x) => detail_found_text(x),
        DetailOutcome::Unreadable(e) => "详情解析失败："@ + e@ + "\n"@,
        DetailOutcome::Unreachable(e) => "详情获取失败："@ + e@ + "\n"@,
    }
}

/// The part of the report on one assignment.
pub open spec fn entry_text(e: ExamEntry) -> Seq<char> {
    let a = e.assignment;
    "\n["@ + decimal(a.id as nat) + "] "@ + a.name@ + "\n截止："@ + match a.due_at {
        Some(d) => d@,
        None => "未设置"@,
    } + "\n"@ + opt_line("分值："@, a.points) + match a.html_url {
        Some(u) => "链接："@ + CANVAS_BASE@ + u@ + "\n"@,
        None => Seq::<char>::empty(),
    } + detail_text(e.detail)
}

/// The parts of the report on the first `k` assignments.
pub open spec fn entries_text(es: Seq<ExamEntry>, k: int) -> Seq<char>
    decreases k,
{
    if k <= 0 {
        seq![]
    } else {
        entries_text(es, k - 1) + entry_text(es[k - 1])
    }
}

/// What the assignment tool gives for the course `course_id` with the
/// assignments `es`.
pub open spec fn exam_text(course_id: Seq<char>, es: Seq<ExamEntry>) -> Seq<char> {
    if es.len() == 0 {
        "课程 "@ + course_id + " 还没有公布作业。"@
    } else {
        clipped(
            "课程 "@ + course_id + " 的作业（共 "@ + decimal(es.len()) + " 项）：\n"@ + entries_text(
                es,
                es.len() as int,
            ),
        )
    }
}

fn push_opt_line(out: &mut String, label: &str, v: &Option<String>)
    ensures
        final(out)@ == old(out)@ + opt_line(label@, *v),
{
    match v {
        Some(t) => {
            push_str(out, label);
            push_str(out, t.as_str());
            push_str(out, "\n");
        },
        None => {
            assert(old(out)@ + Seq::<char>::empty() == old(out)@);
        },
    }
}

fn push_attempts(out: &mut String, attempts: Option<i64>)
    ensures
        final(out)@ == old(out)@ + attempts_part(attempts),
{
    match attempts {
        Some(a) => {
            push_str(out, "允许尝试：");
            if a < 0 {
                push_str(out, "不限");
            } else {
                push_signed(out, a);
            }
            push_str(out, "\n");
        },
        None => {
            assert(old(out)@ + Seq::<char>::empty() == old(out)@);
        },
    }
}

fn push_submission(out: &mut String, types: &Vec<String>)
    ensures
        final(out)@ == old(out)@ + submission_part(types@),
{
    if types.len() > 0 {
        push_str(out, "提交方式：");
        let j = join_strings(types.as_slice(), "、");
        push_str(out, j.as_str());
        push_str(out, "\n");
    } else {
        assert(old(out)@ + Seq::<char>::empty() == old(out)@);
    }
}

fn push_description(out: &mut String, description: &Option<String>)
    ensures
        final(out)@ == old(out)@ + description_part(*description),
{
    match description {
        Some(t) => {
            let tt = trimmed(t.as_str());
            if !tt.as_str().is_empty() {
                push_str(out, "说明：");
                push_str(out, tt.as_str());
                push_str(out, "\n");
            } else {
                assert(old(out)@ + Seq::<char>::empty() == old(out)@);
            }
        },
        None => {
            assert(old(out)@ + Seq::<char>::empty() == old(out)@);
        },
    }
}

fn push_detail_found(out: &mut String, d: &AssignmentDetail)
    ensures
        final(out)@ == old(out)@ + detail_found_text(*d),
{
    push_opt_line(out, "开始：", &d.unlock_at);
    push_opt_line(out, "锁定：", &d.lock_at);
    push_attempts(out, d.allowed_attempts);
    push_submission(out, &d.submission_types);
    push_description(out, &d.description);
}

/// The part of the report on one assignment and its own page.
pub fn entry_report(e: &ExamEntry) -> (r: String)
    ensures
        r@ == entry_text(*e),
{
    let a = &e.assignment;
    let mut out = String::from_str("\n[");
    push_decimal(&mut out, a.id as u128);
    push_str(&mut out, "] ");
    push_str(&mut out, a.name.as_str());
    push_str(&mut out, "\n截止：");
    match &a.due_at {
        Some(d) => push_str(&mut out, d.as_str()),
        None => push_str(&mut out, "未设置"),
    }
    push_str(&mut out, "\n");
    push_opt_line(&mut out, "分值：", &a.points);
    match &a.html_url {
        Some(u) => {
            push_str(&mut out, "链接：");
            push_str(&mut out, CANVAS_BASE);
            push_str(&mut out, u.as_str());
            push_str(&mut out, "\n");
        },
        None => {},
    }
    match &e.detail {
        DetailOutcome::Found(d) => push_detail_found(&mut out, d),
        DetailOutcome::Unreadable(m) => {
            push_str(&mut out, "详情解析失败：");
            push_str(&mut out, m.as_str());
            push_str(&mut out, "\n");
        },
        DetailOutcome::Unreachable(m) => {
            push_str(&mut out, "详情获取失败：");
            push_str(&mut out, m.as_str());
            push_str(&mut out, "\n");
        },
    }
    out
}

/// What the assignment tool gives for the course `course_id` with the
/// assignments `entries`: each with its deadline, score, link and what its
/// own page adds.
pub fn exam_report(course_id: &str, entries: &[ExamEntry]) -> (r: String)
    ensures
        r@ == exam_text(course_id@, entries@),
{
    if entries.len() == 0 {
        let mut t = String::from_str("课程 ");
        push_str(&mut t, course_id);
        push_str(&mut t, " 还没有公布作业。");
        return t;
    }
    let mut text = String::from_str("课程 ");
    push_str(&mut text, course_id);
    push_str(&mut text, " 的作业（共 ");
    push_decimal(&mut text, entries.len() as u128);
    push_str(&mut text, " 项）：\n");
    let ghost head = text@;
    let mut k: usize = 0;
    while k < entries.len()
        invariant
            0 <= k <= entries@.len(),
            text@ == head + entries_text(entries@, k as int),
        decreases entries@.len() - k,
    {
        let part = entry_report(&entries[k]);
        push_str(&mut text, part.as_str());
        k += 1;
    }
    clip(text.as_str())
}

/// A file as the list action shows it; its size is already written out.
pub struct ListedFile {
    pub id: u64,
    pub display_name: String,
    pub content_type: Option<String>,
    pub size: String,
}

/// The line of the list for one file.
pub open spec fn listed_line(f: ListedFile) -> Seq<char> {
    "  ["@ + decimal(f.id as nat) + "] "@ + f.display_name@ + "  "@ + match f.content_type {
        Some(t) => t@,
        None => "未知类型"@,
    } + "  "@ + f.size@ + "\n"@
}

/// The lines of the list for the first `k` files.
pub open spec fn listed_lines(fs: Seq<ListedFile>, k: int) -> Seq<char>
    decreases k,
{
    if k <= 0 {
        seq![]
    } else {
        listed_lines(fs, k - 1) + listed_line(fs[k - 1])
    }
}

/// What the list action gives for the course `course_id` with the files
/// `fs`: each file, where to see them on the web, and a note if the list may
/// have been cut at its last page.
pub open spec fn files_text(course_id: Seq<char>, fs: Seq<ListedFile>) -> Seq<char> {
    if fs.len() == 0 {
        "课程 "@ + course_id + " 的文件列表是空的。"@
    } else {
        clipped(
            "课程 "@ + course_id + " 共 "@ + decimal(fs.len()) + " 个文件：\n"@ + listed_lines(fs, fs.len() as int)
                + "\n网页地址："@ + CANVAS_BASE@ + "/courses/"@ + course_id + "/files"@ + if fs.len()
                == FILES_MAX_PAGES * 100 {
                "\n（列表可能有截断，只取了前 1000 个文件）"@
            } else {
                Seq::<char>::empty()
            },
        )
    }
}

fn push_listed_line(out: &mut String, f: &ListedFile)
    ensures
        final(out)@ == old(out)@ + listed_line(*f),
{
    push_str(out, "  [");
    push_decimal(out, f.id as u128);
    push_str(out, "] ");
    push_str(out, f.display_name.as_str());
    push_str(out, "  ");
    match &f.content_type {
        Some(t) => push_str(out, t.as_str()),
        None => push_str(out, "未知类型"),
    }
    push_str(out, "  ");
    push_str(out, f.size.as_str());
    push_str(out, "\n");
}

/// What the list action gives for the course `course_id` with the files
/// `files`.
pub fn files_report(course_id: &str, files: &[ListedFile]) -> (r: String)
    ensures
        r@ == files_text(course_id@, files@),
{
    if files.len() == 0 {
        let mut t = String::from_str("课程 ");
        push_str(&mut t, course_id);
        push_str(&mut t, " 的文件列表是空的。");
        return t;
    }
    let mut text = String::from_str("课程 ");
    push_str(&mut text, course_id);
    push_str(&mut text, " 共 ");
    push_decimal(&mut text, files.len() as u128);
    push_str(&mut text, " 个文件：\n");
    let ghost head = text@;
    let mut k: usize = 0;
    while k < files.len()
        invariant
            0 <= k <= files@.len(),
            text@ == head + listed_lines(files@, k as int),
        decreases files@.len() - k,
    {
        push_listed_line(&mut text, &files[k]);
        k += 1;
    }
    push_str(&mut text, "\n网页地址：");
    push_str(&mut text, CANVAS_BASE);
    push_str(&mut text, "/courses/");
    push_str(&mut text, course_id);
    push_str(&mut text, "/files");
    if files.len() == FILES_MAX_PAGES * 100 {
        push_str(&mut text, "\n（列表可能有截断，只取了前 1000 个文件）");
    }
    clip(text.as_str())
}

/// The walk through the pages of a course's file list: the address of the
/// next page to fetch, if any, how many pages were fetched, and the files
/// so far.
pub struct FileListing {
    pub next_url: Option<String>,
    pub pages: usize,
    pub files: Vec<CanvasFile>,
}

impl FileListing {
    /// Whether the walk is within its bound: no page is asked for once
    /// [`FILES_MAX_PAGES`] pages were fetched.
    pub open spec fn wf(&self) -> bool {
        &&& self.pages <= FILES_MAX_PAGES
        &&& self.next_url is Some ==> self.pages < FILES_MAX_PAGES
    }

    /// The walk through the files of the course `course_id`, before its
    /// first page.
    pub fn new(course_id: &str) -> (l: FileListing)
        ensures
            l.wf(),
            l.pages == 0,
            l.files@.len() == 0,
            l.next_url matches Some(u) && u@ == CANVAS_BASE@ + "/api/v1/courses/"@ + course_id@ + "/files"@
                + "?per_page=100&page="@ + decimal(1),
    {
        let mut path = String::from_str("/api/v1/courses/");
        push_str(&mut path, course_id);
        push_str(&mut path, "/files");
        let url = page_url(CANVAS_BASE, path.as_str(), 1);
        FileListing { next_url: Some(url), pages: 0, files: Vec::new() }
    }

    /// Takes in a fetched page holding `batch`, whose `Link` header names the
    /// page `next` (if any): the walk goes on to `next` unless the page was
    /// empty or the last one allowed.
    pub fn add_page(&mut self, next: Option<String>, batch: Vec<CanvasFile>)
        requires
            old(self).wf(),
            old(self).next_url is Some,
        ensures
            final(self).wf(),
            final(self).pages == old(self).pages + 1,
            final(self).files@ == old(self).files@ + batch@,
            final(self).next_url == if final(self).pages < FILES_MAX_PAGES && batch@.len() > 0 {
                next
            } else {
                None
            },
    {
        let empty = batch.len() == 0;
        let mut batch = batch;
        self.files.append(&mut batch);
        self.pages = self.pages + 1;
        if self.pages < FILES_MAX_PAGES && !empty {
            self.next_url = next;
        } else {
            self.next_url = None;
        }
    }
}

/// A request to the file tool, its arguments read.
pub struct FilesRequest {
    pub action: String,
    pub file: Option<String>,
    pub save_path: Option<String>,
}

/// What the file tool is asked to do.
pub enum FilesPlan {
    /// List the files.
    List,
    /// Download the file that `file` names, and open it if asked.
    Download { file: String, open: bool },
}

/// A text argument trimmed, where it is given and not blank.
pub open spec fn given_text(v: Option<&str>) -> Option<Seq<char>> {
    match v {
        Some(t) => if trim(t@).len() > 0 {
            Some(trim(t@))
        } else {
            None
        },
        None => None,
    }
}

fn given(v: Option<&str>) -> (r: Option<String>)
    ensures
        match r {
            Some(t) => given_text(v) == Some(t@),
            None => given_text(v) is None,
        },
{
    match v {
        Some(t) => {
            let tt = trimmed(t);
            if tt.as_str().is_empty() {
                None
            } else {
                Some(tt)
            }
        },
        None => None,
    }
}

impl FilesRequest {
    /// The request that the arguments make: the action trimmed and
    /// lowercased (`list` if missing), and the file and the place to save
    /// it trimmed, where given and not blank.
    pub fn new(action: Option<&str>, file: Option<&str>, save_path: Option<&str>) -> (r: FilesRequest)
        ensures
            r.action@ == lowercase(
                trim(
                    match action {
                        Some(a) => a@,
                        None => "list"@,
                    },
                ),
            ),
            match r.file {
                Some(f) => given_text(file) == Some(f@),
                None => given_text(file) is None,
            },
            match r.save_path {
                Some(p) => given_text(save_path) == Some(p@),
                None => given_text(save_path) is None,
            },
    {
        let a = match action {
            Some(a) => trimmed(a),
            None => trimmed("list"),
        };
        FilesRequest { action: to_lowercase(a.as_str()), file: given(file), save_path: given(save_path) }
    }

    /// What the request asks for: `list`, or `download` or `open` of a named
    /// file; any other action, or a download without a file, is refused.
    pub fn plan(&self) -> (r: Result<FilesPlan, String>)
        ensures
            self.action@ == "list"@ ==> r is Ok && r matches Ok(FilesPlan::List),
            (self.action@ == "download"@ || self.action@ == "open"@) ==> match self.file {
                Some(f) => r matches Ok(FilesPlan::Download { file, open }) && file@ == f@ && open == (
                self.action@ == "open"@),
                None => r matches Err(e) && e@ == "action="@ + self.action@
                    + " 时必须给出 file（文件名或文件 id），可先用 action=list 查看"@,
            },
            (self.action@ != "list"@ && self.action@ != "download"@ && self.action@ != "open"@) ==> (
            r matches Err(e) && e@ == "未知的 action「"@ + self.action@ + "」，只支持 list / download / open"@),
    {
        proof {
            reveal_strlit("list");
            reveal_strlit("download");
            reveal_strlit("open");
            assert("list"@.len() != "download"@.len());
            assert("list"@[0] != "open"@[0]);
            assert("download"@.len() != "open"@.len());
        }
        let is_list = self.action == String::from_str("list");
        let is_download = self.action == String::from_str("download");
        let is_open = self.action == String::from_str("open");
        if is_list {
            return Ok(FilesPlan::List);
        }
        if !is_download && !is_open {
            let mut e = String::from_str("未知的 action「");
            push_str(&mut e, self.action.as_str());
            push_str(&mut e, "」，只支持 list / download / open");
            return Err(e);
        }
        match &self.file {
            Some(f) => Ok(FilesPlan::Download { file: f.clone(), open: is_open }),
            None => {
                let mut e = String::from_str("action=");
                push_str(&mut e, self.action.as_str());
                push_str(&mut e, " 时必须给出 file（文件名或文件 id），可先用 action=list 查看");
                Err(e)
            },
        }
    }
}

/// What the file tool answers once the file named `name` of size `size` was
/// saved to `saved_to` (and opened, if `opened`).
pub fn saved_report(saved_to: &str, name: &str, size: &str, opened: bool) -> (r: String)
    ensures
        r@ == "已保存到 "@ + saved_to@ + "("@ + size@ + ")"@ + "\n文件："@ + name@ + "（"@ + size@ + "）"@ + if opened {
            "\n已用系统默认程序打开。"@
        } else {
            Seq::<char>::empty()
        },
{
    let mut t = String::from_str("已保存到 ");
    push_str(&mut t, saved_to);
    push_str(&mut t, "(");
    push_str(&mut t, size);
    push_str(&mut t, ")");
    push_str(&mut t, "\n文件：");
    push_str(&mut t, name);
    push_str(&mut t, "（");
    push_str(&mut t, size);
    push_str(&mut t, "）");
    if opened {
        push_str(&mut t, "\n已用系统默认程序打开。");
    } else {
        assert(t@ + Seq::<char>::empty() == t@);
    }
    t
}

} // verus!
