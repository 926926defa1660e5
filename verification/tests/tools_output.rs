use agent_backend::tools::pick_by_names;
use agent_backend::tools::check_pdf_text;
use agent_backend::tools::{
    CanvasFile, Course, MailRequest, NumberArg, Tool, apply_edit, browser_plan, clip, command_output,
    courses_report, format_addr, listing, newest_uids, next_link, one_line, page_number, page_url,
    pages_blank, pdf_report, percent_decode, pick_file, read_lines, tool_for, uid_number, uid_set,
    write_report,
};

fn file(id: u64, display_name: &str) -> CanvasFile {
    CanvasFile {
        id,
        display_name: display_name.to_string(),
        filename: None,
        content_type: None,
        size: None,
        url: None,
    }
}

#[test]
fn tool_names_select_tools() {
    assert_eq!(tool_for("read"), Some(Tool::Read));
    assert_eq!(tool_for("mail_fetch"), Some(Tool::MailFetch));
    assert_eq!(tool_for("Read"), None);
    assert_eq!(tool_for("rm"), None);
}

#[test]
fn short_output_is_kept_whole() {
    assert_eq!(clip("abc"), "abc");
    let just_under = "a".repeat(15999);
    assert_eq!(clip(&just_under), just_under);
}

#[test]
fn long_output_is_cut_on_a_character_boundary() {
    let exact = "a".repeat(16000);
    assert_eq!(clip(&exact), format!("{exact}\n<output clipped>"));
    // 6000 three-byte characters: 5333 of them fit in 16000 bytes
    let wide = "你".repeat(6000);
    assert_eq!(clip(&wide), format!("{}\n<output clipped>", "你".repeat(5333)));
}

#[test]
fn edit_replaces_a_unique_match() {
    assert_eq!(
        apply_edit("f.txt", "let x = 1;\nlet y = 2;\n", "y = 2", "y = 3"),
        Ok("let x = 1;\nlet y = 3;\n".to_string())
    );
}

#[test]
fn edit_refuses_missing_or_repeated_context() {
    assert_eq!(
        apply_edit("f.txt", "a b a", "x", "y"),
        Err("old_context 在 f.txt 中未找到".to_string())
    );
    assert_eq!(
        apply_edit("f.txt", "a b a", "a", "y"),
        Err("old_context 在 f.txt 中匹配到 2 处，需唯一".to_string())
    );
}

#[test]
fn read_numbers_the_requested_lines() {
    let content = "one\ntwo\r\nthree\n";
    assert_eq!(read_lines(content, None, None), "1: one\n2: two\n3: three\n");
    assert_eq!(read_lines(content, Some(2), Some(1)), "2: two\n");
    assert_eq!(read_lines(content, Some(0), Some(1)), "1: one\n");
    assert_eq!(read_lines(content, Some(3), Some(10)), "3: three\n");
}

#[test]
fn read_past_the_end_says_so() {
    assert_eq!(
        read_lines("one\ntwo", Some(5), None),
        "文件共 2 行，offset 5 已超出范围"
    );
    assert_eq!(read_lines("", None, None), "文件共 0 行，offset 1 已超出范围");
}

#[test]
fn directory_listing_is_sorted() {
    let names = vec!["b.txt".to_string(), "a/".to_string(), "C".to_string()];
    assert_eq!(listing(names), "C\na/\nb.txt");
}

#[test]
fn write_reports_bytes() {
    assert_eq!(write_report("x.txt", "你好a"), "已写入 x.txt，7 字节");
}

#[test]
fn shell_output_shows_the_exit_code_of_a_failure() {
    assert_eq!(command_output("out\n", "err\n", true, Some(0)), "out\nerr\n");
    assert_eq!(
        command_output("", "boom\n", false, Some(2)),
        "boom\n\n[退出码: 2]"
    );
    assert_eq!(command_output("", "", false, None), "\n[退出码: -1]");
}

#[test]
fn percent_decoding_reads_canvas_names() {
    assert_eq!(
        percent_decode("01.+%E8%AF%BE%E7%A8%8B%E7%AE%80%E4%BB%8B.pdf"),
        "01. 课程简介.pdf"
    );
    assert_eq!(percent_decode("a+b.pdf"), "a+b.pdf");
    assert_eq!(percent_decode("100%"), "100%");
    assert_eq!(percent_decode("%zz%4"), "%zz%4");
    assert_eq!(percent_decode("%ff"), "\u{fffd}");
}

#[test]
fn local_names_come_from_the_decoded_name() {
    let f = file(7, "01.+%E8%AF%BE%E7%A8%8B%E7%AE%80%E4%BB%8B.pdf");
    assert_eq!(f.local_name(), "01. 课程简介.pdf");
    assert_eq!(file(7, "dir/notes.pdf").local_name(), "notes.pdf");
    assert_eq!(file(7, "..").local_name(), "canvas-file-7");
    assert_eq!(file(7, "../../x/a%20b.pdf").local_name(), "a b.pdf");
    assert_eq!(file(7, "notes+v2.pdf").local_name(), "notes+v2.pdf");
}

#[test]
fn blank_display_names_fall_back() {
    let mut f = file(1, "  ");
    assert_eq!(f.name(), "(未命名)");
    f.filename = Some("real.pdf".to_string());
    assert_eq!(f.name(), "real.pdf");
    assert_eq!(file(1, "shown.pdf").name(), "shown.pdf");
}

#[test]
fn file_list_pages_are_addressed() {
    assert_eq!(
        page_url("https://oc.sjtu.edu.cn", "/api/v1/courses/5/files", 3),
        "https://oc.sjtu.edu.cn/api/v1/courses/5/files?per_page=100&page=3"
    );
}

#[test]
fn next_page_comes_from_the_link_header() {
    let header = "<https://oc/x?page=1>; rel=\"current\", <https://oc/x?page=2>; rel=\"next\", <https://oc/x?page=9>; rel=\"last\"";
    assert_eq!(next_link(header), Some("https://oc/x?page=2".to_string()));
    assert_eq!(next_link("<https://oc/x?page=1>; rel=\"first\""), None);
    assert_eq!(next_link(""), None);
}

#[test]
fn files_are_picked_by_id_or_name() {
    let files = vec![file(1, "Lecture1.PDF"), file(2, "lecture2.pdf"), file(3, "HW.docx")];
    assert_eq!(pick_file(&files, "2").unwrap().id, 2);
    assert_eq!(pick_file(&files, "hw").unwrap().id, 3);
    assert_eq!(
        pick_file(&files, "99").err(),
        Some("课程里没有 id 为 99 的文件".to_string())
    );
    assert_eq!(
        pick_file(&files, "zzz").err(),
        Some("没有匹配「zzz」的文件，可先用 action=list 查看".to_string())
    );
    assert_eq!(
        pick_file(&files, "LECTURE").err(),
        Some("匹配到 2 个文件，请用更精确的名字或文件 id：\n  [1] Lecture1.PDF\n  [2] lecture2.pdf\n".to_string())
    );
}

#[test]
fn mail_fields_go_on_one_line() {
    assert_eq!(one_line("  Re:\n  hello\t world "), "Re: hello world");
    assert_eq!(one_line(" \n "), "");
}

#[test]
fn uid_sets_are_comma_separated() {
    assert_eq!(uid_set(&[12, 34, 56]), "12,34,56");
    assert_eq!(uid_set(&[]), "");
}

#[test]
fn newest_mails_come_first() {
    assert_eq!(newest_uids(vec![5, 1, 9, 3], 2), vec![9, 5]);
    assert_eq!(newest_uids(vec![5, 1], 10), vec![5, 1]);
    assert_eq!(newest_uids(vec![], 3), Vec::<u32>::new());
}

#[test]
fn addresses_are_shown_once() {
    assert_eq!(format_addr(Some("张三"), Some("a@b.c")), "张三 <a@b.c>");
    assert_eq!(format_addr(Some("a@b.c"), Some("a@b.c")), "a@b.c");
    assert_eq!(format_addr(Some("张三"), None), "张三");
    assert_eq!(format_addr(None, None), "(未知发件人)");
}

#[test]
fn page_arguments_must_be_positive() {
    assert_eq!(page_number(NumberArg::Number(Some(3))), Some(3));
    assert_eq!(page_number(NumberArg::Number(Some(0))), None);
    assert_eq!(page_number(NumberArg::Text(" 4 ".to_string())), Some(4));
    assert_eq!(page_number(NumberArg::Text("four".to_string())), None);
    assert_eq!(page_number(NumberArg::Number(None)), None);
    assert_eq!(page_number(NumberArg::Missing), None);
}

#[test]
fn uid_arguments_are_read_as_numbers_or_text() {
    assert_eq!(uid_number(NumberArg::Number(Some(42))), Some(42));
    assert_eq!(uid_number(NumberArg::Text(" 42 ".to_string())), Some(42));
    assert_eq!(uid_number(NumberArg::Text("4294967296".to_string())), None);
    assert_eq!(uid_number(NumberArg::Missing), None);
}

#[test]
fn mail_requests_take_defaults_and_bounds() {
    let r = MailRequest::new(None, None, None, NumberArg::Missing, None);
    assert_eq!(r.action, "list");
    assert_eq!(r.folder, "INBOX");
    assert_eq!(r.limit, 10);
    assert!(!r.unread_only);
    let r = MailRequest::new(Some(" READ "), Some("  "), Some(500), NumberArg::Number(Some(7)), Some(true));
    assert_eq!(r.action, "read");
    assert_eq!(r.folder, "INBOX");
    assert_eq!(r.limit, 50);
    assert_eq!(r.uid, Some(7));
    assert!(r.unread_only);
    assert_eq!(MailRequest::new(None, None, Some(0), NumberArg::Missing, None).limit, 1);
}

#[test]
fn mail_plans_refuse_what_they_cannot_do() {
    let read_without_uid = MailRequest::new(Some("read"), None, None, NumberArg::Missing, None);
    assert_eq!(
        read_without_uid.plan().err(),
        Some("action=read 时必须给出 uid，可先用 action=list 查看".to_string())
    );
    let unknown = MailRequest::new(Some("send"), None, None, NumberArg::Missing, None);
    assert_eq!(
        unknown.plan().err(),
        Some("未知的 action「send」，只支持 list / read / folders".to_string())
    );
    assert!(MailRequest::new(Some("folders"), None, None, NumberArg::Missing, None).plan().is_ok());
}

#[test]
fn scanned_pdfs_are_blank() {
    assert!(pages_blank(&[" ".to_string(), "\n".to_string()]));
    assert!(!pages_blank(&[" ".to_string(), "x".to_string()]));
}

#[test]
fn pdf_pages_are_read_by_range() {
    let pages = vec!["  first page  ".to_string(), " ".to_string(), "third".to_string()];
    assert_eq!(
        pdf_report("a.pdf", &pages, None, None),
        Ok("《a.pdf》第 1–3 页（全文共 3 页）：\n\n--- 第 1 页 ---\nfirst page\n\n--- 第 3 页 ---\nthird\n".to_string())
    );
    assert_eq!(
        pdf_report("a.pdf", &pages, Some(2), Some(3)),
        Ok("《a.pdf》第 2–3 页（全文共 3 页）：\n\n--- 第 3 页 ---\nthird\n".to_string())
    );
    assert_eq!(
        pdf_report("a.pdf", &pages, Some(3), Some(2)),
        Err("页范围无效：该 PDF 共 3 页，请求的是 3–2".to_string())
    );
    assert_eq!(
        pdf_report("a.pdf", &pages, None, Some(4)),
        Err("页范围无效：该 PDF 共 3 页，请求的是 1–4".to_string())
    );
}

#[test]
fn long_pdfs_get_an_outline() {
    let mut pages: Vec<String> = (1..=13).map(|i| format!("page {i}\n  text")).collect();
    pages[1] = "   ".to_string();
    let report = pdf_report("b.pdf", &pages, None, None).unwrap();
    assert!(report.starts_with("《b.pdf》共 13 页，内容较长。以下是各页开头，可当作目录：\n第 1 页：page 1 text\n第 3 页：page 3 text\n"));
    assert!(!report.contains("第 2 页"));
    assert!(report.ends_with("\n请确定需要的页码，再用 start_page / end_page 调用本工具读取原文。"));
}

#[test]
fn course_list_aligns_ids() {
    assert_eq!(courses_report(&[]), "没有进行中的课程。");
    let courses = vec![
        Course { id: 123, name: "数据结构".to_string(), term: Some("2024 秋".to_string()) },
        Course { id: 12345678, name: "Math".to_string(), term: None },
    ];
    assert_eq!(
        courses_report(&courses),
        "共 2 门课程：\n  [    123]  数据结构\n            2024 秋\n  [12345678]  Math\n"
    );
}

#[test]
fn browser_tools_open_their_pages() {
    assert_eq!(
        browser_plan(Tool::WatchShuiyuan, None),
        Ok(("https://shuiyuan.sjtu.edu.cn".to_string(), "open browser sucessful".to_string()))
    );
    assert_eq!(
        browser_plan(Tool::OpenUsualWebsite, Some("none")),
        Err("不可知用户指定的网站具体url，请求提供".to_string())
    );
    assert_eq!(
        browser_plan(Tool::OpenUsualWebsite, Some("https://www.sjtu.edu.cn")),
        Ok(("https://www.sjtu.edu.cn".to_string(), "open website sucessful".to_string()))
    );
}

#[test]
fn picking_uses_the_lowercased_names_given() {
    let files = vec![file(1, "Alpha"), file(2, "Beta")];
    let names = vec![
        ("alpha".to_string(), "alpha".to_string()),
        ("beta".to_string(), "beta".to_string()),
    ];
    assert_eq!(pick_by_names(&files, "BET", "bet", &names).unwrap().id, 2);
    assert_eq!(pick_by_names(&files, "1", "1", &names).unwrap().id, 1);
    assert!(pick_by_names(&files, "a", "a", &names).is_err());
}

#[test]
fn scanned_pdfs_are_refused() {
    assert_eq!(
        check_pdf_text(&["  ".to_string()]),
        Err("没有任何文字，可能是扫描版 PDF，需要 OCR".to_string())
    );
    assert_eq!(check_pdf_text(&["x".to_string()]), Ok(()));
    assert_eq!(check_pdf_text(&[]), Err("没有任何文字，可能是扫描版 PDF，需要 OCR".to_string()));
}
