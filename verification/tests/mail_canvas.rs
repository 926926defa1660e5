use agent_backend::canvas::{
    Assignment, AssignmentDetail, CanvasApi, DetailOutcome, ExamEntry, FileListing, FilesPlan, FilesRequest,
    ListedFile, canvas_status, exam_course, exam_report, files_report, saved_report,
};
use agent_backend::mail::{FetchedMail, folders_report, mail_list_report, mail_read_report};
use agent_backend::tools::CanvasFile;

const HEADER: &str = "From: Zhang San <zs@sjtu.edu.cn>\r\nSubject: Lab  report\r\n due\r\nDate: Mon, 1 Jan 2024 10:00:00 +0800\r\n\r\n";

#[test]
fn mail_list_shows_sender_subject_and_date() {
    let mails = vec![
        FetchedMail { uid: Some(12), seen: false, size: Some(345), header: Some(HEADER.as_bytes().to_vec()) },
        FetchedMail { uid: None, seen: true, size: None, header: None },
    ];
    let report = mail_list_report("INBOX", 5, 2, &mails);
    assert_eq!(
        report,
        "INBOX：共匹配 5 封，下面是最新的 2 封\n  UID 12 [未读] 345 字节\n    发件人：Zhang San <zs@sjtu.edu.cn>\n    主题：Lab report due\n    时间：2024-01-01T10:00:00+08:00\n  UID 0 [已读] 0 字节\n    发件人：(解析失败)\n    主题：(解析失败)\n    时间：\n\n要读某一封的正文，用 action=read 和对应的 uid。"
    );
}

#[test]
fn an_empty_folder_says_so() {
    assert_eq!(mail_list_report("Sent", 0, 0, &[]), "Sent 里没有符合条件的邮件。");
}

#[test]
fn reading_a_missing_mail_fails() {
    assert_eq!(
        mail_read_report("INBOX", 7, None),
        Err("INBOX 里没有 uid 为 7 的邮件".to_string())
    );
}

#[test]
fn a_mail_is_shown_in_full() {
    let raw = "From: Zhang San <zs@sjtu.edu.cn>\r\nTo: Li Si <ls@sjtu.edu.cn>, ww@sjtu.edu.cn\r\nSubject: Test\r\nDate: Mon, 1 Jan 2024 10:00:00 +0800\r\nContent-Type: text/plain; charset=utf-8\r\n\r\n  Hello body  \r\n";
    let text = mail_read_report("INBOX", 1, Some(raw.as_bytes())).unwrap();
    assert_eq!(
        text,
        "主题：Test\n发件人：Zhang San <zs@sjtu.edu.cn>\n时间：2024-01-01T10:00:00+08:00\n收件人：Li Si <ls@sjtu.edu.cn>, ww@sjtu.edu.cn\n\n———— 正文 ————\nHello body"
    );
}

#[test]
fn folders_are_listed() {
    assert_eq!(
        folders_report(&["INBOX".to_string(), "Sent".to_string()]),
        "邮箱文件夹：\n  INBOX\n  Sent\n"
    );
}

#[test]
fn canvas_statuses_become_errors() {
    assert_eq!(canvas_status(CanvasApi::Files, "5", 200, "200 OK"), None);
    assert_eq!(
        canvas_status(CanvasApi::Courses, "", 401, "401 Unauthorized"),
        Some("认证失败 (401)：令牌无效或已过期，请重新生成".to_string())
    );
    assert_eq!(
        canvas_status(CanvasApi::Assignments, "5", 401, "401 Unauthorized"),
        Some("认证失败 (401)：令牌无效或已过期".to_string())
    );
    assert_eq!(
        canvas_status(CanvasApi::Assignments, "5", 404, "404 Not Found"),
        Some("课程 5 不存在，或该课程未启用「作业」页面".to_string())
    );
    assert_eq!(
        canvas_status(CanvasApi::Files, "5", 404, "404 Not Found"),
        Some("课程 5 不存在，或该课程未启用「文件」页面".to_string())
    );
    assert_eq!(
        canvas_status(CanvasApi::Courses, "", 404, "404 Not Found"),
        Some("Canvas 返回 404 Not Found".to_string())
    );
    assert_eq!(
        canvas_status(CanvasApi::Courses, "", 500, "500 Internal Server Error"),
        Some("Canvas 返回 500 Internal Server Error".to_string())
    );
}

#[test]
fn the_exam_tool_needs_a_course() {
    assert_eq!(exam_course(Some("123")), Ok("123".to_string()));
    assert_eq!(exam_course(Some("")), Err("course not found".to_string()));
    assert_eq!(exam_course(None), Err("course not found".to_string()));
}

#[test]
fn assignments_are_reported_with_their_details() {
    assert_eq!(exam_report("9", &[]), "课程 9 还没有公布作业。");
    let entries = vec![
        ExamEntry {
            assignment: Assignment {
                id: 1,
                name: "HW1".to_string(),
                due_at: Some("2024-03-01T23:59:00Z".to_string()),
                points: Some("100".to_string()),
                html_url: Some("/courses/9/assignments/1".to_string()),
            },
            detail: DetailOutcome::Found(AssignmentDetail {
                description: Some("  <p>做题</p> ".to_string()),
                submission_types: vec!["online_upload".to_string(), "online_text_entry".to_string()],
                allowed_attempts: Some(-1),
                unlock_at: None,
                lock_at: Some("2024-03-02T00:00:00Z".to_string()),
            }),
        },
        ExamEntry {
            assignment: Assignment {
                id: 2,
                name: "HW2".to_string(),
                due_at: None,
                points: None,
                html_url: None,
            },
            detail: DetailOutcome::Unreachable("timeout".to_string()),
        },
    ];
    assert_eq!(
        exam_report("9", &entries),
        "课程 9 的作业（共 2 项）：\n\n[1] HW1\n截止：2024-03-01T23:59:00Z\n分值：100\n链接：https://oc.sjtu.edu.cn/courses/9/assignments/1\n锁定：2024-03-02T00:00:00Z\n允许尝试：不限\n提交方式：online_upload、online_text_entry\n说明：<p>做题</p>\n\n[2] HW2\n截止：未设置\n详情获取失败：timeout\n"
    );
}

#[test]
fn attempts_are_counted() {
    let entry = ExamEntry {
        assignment: Assignment { id: 3, name: "Quiz".to_string(), due_at: None, points: None, html_url: None },
        detail: DetailOutcome::Found(AssignmentDetail {
            description: Some("   ".to_string()),
            submission_types: vec![],
            allowed_attempts: Some(2),
            unlock_at: Some("u".to_string()),
            lock_at: None,
        }),
    };
    let report = exam_report("1", &[entry]);
    assert!(report.ends_with("\n[3] Quiz\n截止：未设置\n开始：u\n允许尝试：2\n"));
    let bad = ExamEntry {
        assignment: Assignment { id: 4, name: "X".to_string(), due_at: None, points: None, html_url: None },
        detail: DetailOutcome::Unreadable("bad json".to_string()),
    };
    assert!(exam_report("1", &[bad]).ends_with("详情解析失败：bad json\n"));
}

fn listed(id: u64, name: &str, kind: Option<&str>) -> ListedFile {
    ListedFile {
        id,
        display_name: name.to_string(),
        content_type: kind.map(str::to_string),
        size: "3 KB".to_string(),
    }
}

#[test]
fn file_lists_show_kind_and_size() {
    assert_eq!(files_report("5", &[]), "课程 5 的文件列表是空的。");
    let files = vec![listed(1, "a.pdf", Some("application/pdf")), listed(2, "b", None)];
    assert_eq!(
        files_report("5", &files),
        "课程 5 共 2 个文件：\n  [1] a.pdf  application/pdf  3 KB\n  [2] b  未知类型  3 KB\n\n网页地址：https://oc.sjtu.edu.cn/courses/5/files"
    );
}

#[test]
fn a_full_file_list_may_be_cut() {
    let files: Vec<ListedFile> = (0..1000).map(|i| listed(i, "f", None)).collect();
    let report = files_report("5", &files);
    assert!(report.contains("\n（列表可能有截断，只取了前 1000 个文件）") || report.ends_with("\n<output clipped>"));
    let few: Vec<ListedFile> = (0..3).map(|i| listed(i, "f", None)).collect();
    assert!(!files_report("5", &few).contains("截断"));
}

fn canvas_file(id: u64) -> CanvasFile {
    CanvasFile {
        id,
        display_name: format!("f{id}"),
        filename: None,
        content_type: None,
        size: None,
        url: None,
    }
}

#[test]
fn file_pages_are_followed_until_the_last() {
    let mut listing = FileListing::new("5");
    assert_eq!(
        listing.next_url.as_deref(),
        Some("https://oc.sjtu.edu.cn/api/v1/courses/5/files?per_page=100&page=1")
    );
    listing.add_page(Some("next-2".to_string()), vec![canvas_file(1), canvas_file(2)]);
    assert_eq!(listing.next_url.as_deref(), Some("next-2"));
    listing.add_page(Some("next-3".to_string()), vec![]);
    assert_eq!(listing.next_url, None);
    assert_eq!(listing.files.len(), 2);
    assert_eq!(listing.pages, 2);
}

#[test]
fn file_pages_stop_at_ten() {
    let mut listing = FileListing::new("5");
    let mut fetched = 0;
    while listing.next_url.is_some() {
        listing.add_page(Some("again".to_string()), vec![canvas_file(fetched)]);
        fetched += 1;
    }
    assert_eq!(fetched, 10);
    assert_eq!(listing.files.len(), 10);
}

#[test]
fn file_requests_read_their_arguments() {
    let r = FilesRequest::new(None, Some("  "), Some(" /tmp/x.pdf "));
    assert_eq!(r.action, "list");
    assert_eq!(r.file, None);
    assert_eq!(r.save_path, Some("/tmp/x.pdf".to_string()));
    assert!(matches!(r.plan(), Ok(FilesPlan::List)));

    let r = FilesRequest::new(Some(" OPEN "), Some(" 讲义 "), None);
    assert!(matches!(r.plan(), Ok(FilesPlan::Download { file, open: true }) if file == "讲义"));

    let r = FilesRequest::new(Some("download"), None, None);
    assert_eq!(
        r.plan().err(),
        Some("action=download 时必须给出 file（文件名或文件 id），可先用 action=list 查看".to_string())
    );
    let r = FilesRequest::new(Some("delete"), Some("a"), None);
    assert_eq!(
        r.plan().err(),
        Some("未知的 action「delete」，只支持 list / download / open".to_string())
    );
}

#[test]
fn saved_files_are_reported() {
    assert_eq!(
        saved_report("/home/u/Downloads/a.pdf", "a.pdf", "2.0 MB", false),
        "已保存到 /home/u/Downloads/a.pdf(2.0 MB)\n文件：a.pdf（2.0 MB）"
    );
    assert!(saved_report("p", "n", "1 B", true).ends_with("\n已用系统默认程序打开。"));
}
