use agent_backend::server::is_quit;
use agent_backend::chat::{ChatEvent, ReplyStep, Turn, preview, reply_step, tcp_line, tool_call_event, tool_result};
use agent_backend::server::{SocketAction, route_message, tcp_prompt};

#[test]
fn previews_are_trimmed_and_cut_at_500_characters() {
    assert_eq!(preview("  hi \n"), "hi");
    let long = "字".repeat(501);
    assert_eq!(preview(&long), format!("{}…", "字".repeat(500)));
    let exact = "a".repeat(500);
    assert_eq!(preview(&exact), exact);
}

#[test]
fn tool_calls_are_reported_with_a_preview() {
    match tool_call_event("read", " {\"path\": \"a\"} ") {
        ChatEvent::ToolCall { name, arguments } => {
            assert_eq!(name, "read");
            assert_eq!(arguments, "{\"path\": \"a\"}");
        }
        _ => panic!("not a tool call"),
    }
}

#[test]
fn failed_tools_tell_the_model_why() {
    let (text, event) = tool_result("bash", Err("no such file".to_string()));
    assert_eq!(text, "工具执行失败: no such file");
    assert!(matches!(event, ChatEvent::ToolResult { ok: false, .. }));
    let (text, event) = tool_result("bash", Ok(" done ".to_string()));
    assert_eq!(text, " done ");
    match event {
        ChatEvent::ToolResult { name, ok, preview } => {
            assert_eq!(name, "bash");
            assert!(ok);
            assert_eq!(preview, "done");
        }
        _ => panic!("not a tool result"),
    }
}

#[test]
fn tool_calls_come_before_the_answer() {
    assert!(matches!(reply_step(2, Some("text".to_string())), ReplyStep::CallTools));
    assert!(matches!(reply_step(0, Some("答案".to_string())), ReplyStep::Answer(a) if a == "答案"));
    assert!(
        matches!(reply_step(0, None), ReplyStep::Fail(m) if m == "模型既没有文本，也没有工具调用")
    );
}

#[test]
fn a_turn_asks_the_model_at_most_360_times() {
    let mut turn = Turn::new();
    let mut asked = 0;
    while turn.ask() {
        asked += 1;
    }
    assert_eq!(asked, 360);
    assert!(!turn.ask());
    assert_eq!(turn.requests, 360);
}

#[test]
fn tcp_clients_see_answers_and_errors_only() {
    assert_eq!(
        tcp_line(&ChatEvent::Answer { text: "你好".to_string() }),
        Some("model:你好\n".to_string())
    );
    assert_eq!(
        tcp_line(&ChatEvent::Error { text: "失败".to_string() }),
        Some("error: 失败\n".to_string())
    );
    assert_eq!(
        tcp_line(&ChatEvent::ToolCall { name: "read".to_string(), arguments: "{}".to_string() }),
        None
    );
}

#[test]
fn tcp_quit_ends_the_connection() {
    assert_eq!(tcp_prompt(b" /quit\r\n"), None);
    assert_eq!(tcp_prompt("你好\n".as_bytes()), Some("你好\n".to_string()));
    assert_eq!(tcp_prompt(b"a\xffb"), Some("a\u{fffd}b".to_string()));
}

#[test]
fn switching_sessions_needs_an_id() {
    assert!(matches!(
        route_message(Some("switch_session"), Some("s2"), None, "s1"),
        SocketAction::Switch { session_id } if session_id == "s2"
    ));
    assert!(matches!(route_message(Some("switch_session"), None, Some("hi"), "s1"), SocketAction::Ignore));
}

#[test]
fn messages_start_a_turn_of_the_selected_session() {
    assert!(matches!(
        route_message(Some("user"), Some("s1"), Some("  问题  "), "s1"),
        SocketAction::Start { prompt } if prompt == "问题"
    ));
    assert!(matches!(
        route_message(None, None, Some("问题"), "s1"),
        SocketAction::Start { prompt } if prompt == "问题"
    ));
    assert!(matches!(route_message(Some("user"), None, Some("   "), "s1"), SocketAction::Ignore));
    assert!(matches!(route_message(Some("user"), None, None, "s1"), SocketAction::Ignore));
    assert!(matches!(route_message(Some("user"), Some("s9"), Some(" /quit "), "s1"), SocketAction::Quit));
}

#[test]
fn messages_for_another_session_are_refused() {
    assert!(matches!(
        route_message(Some("user"), Some("s2"), Some("问题"), "s1"),
        SocketAction::Refuse { session_id, text } if session_id == "s2" && text == "会话已切换，请重新发送"
    ));
}

#[test]
fn quit_is_read_around_white_space() {
    assert!(is_quit("/quit"));
    assert!(is_quit("\t/quit \n"));
    assert!(!is_quit("/quit now"));
    assert!(!is_quit("/QUIT"));
}

#[test]
fn every_offered_tool_but_one_has_a_handler() {
    let specs = agent_backend::catalogue::tool_specs();
    let names: Vec<&str> = specs.iter().map(|t| t.name).collect();
    assert_eq!(
        names,
        vec![
            "get_num", "bash", "read", "write", "edit", "get_courses", "get_exam", "watch_shuiyuan",
            "pdf_analysis", "course_files", "watch_eduinfo", "mail_fetch"
        ]
    );
    assert!(agent_backend::tools::tool_for("get_num").is_none());
    for spec in &specs[1..] {
        assert!(agent_backend::tools::tool_for(spec.name).is_some());
    }
    for spec in &specs {
        let schema: serde_json::Value = serde_json::from_str(spec.parameters).unwrap();
        assert_eq!(schema["type"], "object");
    }
    let read: serde_json::Value = serde_json::from_str(specs[2].parameters).unwrap();
    assert_eq!(read["required"][0], "path");
    assert!(!specs[8].strict);
    assert!(specs[1].strict);
}
