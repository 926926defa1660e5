use agent_backend::tui::{close_reason, event_of, retry_connect};
use agent_backend::tui::{cursor_advance, rows_for};
use agent_backend::tui::{
    App, ChatEvent, Key, LineKind, NetworkEvent, SendDecision, ServerMessage, SessionSummary,
    char_to_byte_index, cursor_position, history_lines, input_height, visual_line_count,
    wrapped_height,
};

fn session(revision: u64, busy: bool) -> SessionSummary {
    SessionSummary {
        id: "session-1".into(),
        title: "测试".into(),
        busy,
        revision,
    }
}

#[test]
fn send_requires_ready_idle_session_and_text() {
    let mut app = App::new();
    app.connected = true;
    app.ready = true;
    app.session = Some(session(0, false));
    app.input = "你好".into();
    assert!(app.can_send());

    app.session.as_mut().unwrap().busy = true;
    assert!(!app.can_send());
}

#[test]
fn input_editing_handles_multibyte_characters() {
    let mut app = App::new();
    app.insert('你');
    app.insert('a');
    app.insert('好');
    app.cursor = 2;
    app.backspace();
    assert_eq!(app.input, "你好");
    app.delete();
    assert_eq!(app.input, "你");
    assert_eq!(app.cursor, 1);
}

#[test]
fn snapshot_replaces_events_and_ignores_older_revision() {
    let mut app = App::new();
    app.connected = true;
    app.apply(ServerMessage::SessionSnapshot {
        session: session(2, false),
        events: vec![ChatEvent::Answer { text: "新".into() }],
        save_error: None,
    });
    app.apply(ServerMessage::SessionSnapshot {
        session: session(1, false),
        events: vec![ChatEvent::Answer { text: "旧".into() }],
        save_error: None,
    });

    assert_eq!(app.events.len(), 1);
    assert!(matches!(&app.events[0], ChatEvent::Answer { text } if text == "新"));
}

#[test]
fn incremental_events_are_deduplicated_by_revision() {
    let mut app = App::new();
    app.connected = true;
    app.apply(ServerMessage::SessionSnapshot {
        session: session(1, true),
        events: vec![],
        save_error: None,
    });
    app.apply(ServerMessage::SessionEvent {
        session: session(2, true),
        event: ChatEvent::ToolCall {
            name: "read".into(),
        },
    });
    app.apply(ServerMessage::SessionEvent {
        session: session(2, true),
        event: ChatEvent::ToolCall {
            name: "read".into(),
        },
    });

    assert_eq!(app.events.len(), 1);
}

#[test]
fn input_layout_uses_terminal_width_for_chinese() {
    assert_eq!(visual_line_count("你好ab", 4), 2);
    assert_eq!(cursor_position("你好ab", 4), (1, 2));
    // a terminal area 12 columns wide and 20 rows high
    assert_eq!(input_height("你".repeat(30).as_str(), 12, 20), 8);
}

#[test]
fn tool_history_only_shows_the_tool_name() {
    let read = |json: &str| {
        let value: serde_json::Value = serde_json::from_str(json).unwrap();
        event_of(value["type"].as_str().unwrap(), value["name"].as_str(), value["text"].as_str()).unwrap()
    };
    let call = read(r#"{"type": "tool_call", "name": "read", "arguments": "secret"}"#);
    let result = read(r#"{"type": "tool_result", "name": "read", "ok": true, "preview": "secret result"}"#);
    let rendered = history_lines(&[call, result])
        .iter()
        .map(|line| line.text.clone())
        .collect::<Vec<_>>()
        .join("\n");
    assert!(rendered.contains("工具 · read"));
    assert!(!rendered.contains("secret"));
    assert!(!rendered.contains("完成"));
}

#[test]
fn events_need_the_fields_of_their_type() {
    assert!(event_of("user", None, None).is_none());
    assert!(event_of("tool_call", None, Some("x")).is_none());
    assert!(matches!(event_of("done", None, None), Some(ChatEvent::Done)));
    assert!(matches!(event_of("session_note", None, None), Some(ChatEvent::Unknown)));
    assert!(matches!(event_of("error", None, Some("坏")), Some(ChatEvent::Error { text }) if text == "坏"));
}

#[test]
fn reconnecting_gives_up_after_twenty_tries() {
    assert!(retry_connect(0));
    assert!(retry_connect(19));
    assert!(!retry_connect(20));
    assert_eq!(close_reason(Some("bye")), "bye");
    assert_eq!(close_reason(Some("")), "后端关闭了连接");
    assert_eq!(close_reason(None), "后端关闭了连接");
}

fn ready_app(busy: bool) -> App {
    let mut app = App::new();
    app.connected = true;
    app.apply(ServerMessage::SessionSnapshot {
        session: session(1, busy),
        events: vec![],
        save_error: None,
    });
    app
}

#[test]
fn a_new_client_is_connecting() {
    let app = App::new();
    assert_eq!(app.status, "正在连接后端…");
    assert!(app.follow_tail);
    assert_eq!(app.default_status(), "连接已断开");
    assert_eq!(app.title(), "新对话");
}

#[test]
fn statuses_follow_the_connection_and_the_session() {
    let mut app = App::new();
    app.connected = true;
    assert_eq!(app.default_status(), "正在同步会话…");
    let app = ready_app(false);
    assert_eq!(app.status, "就绪");
    assert_eq!(ready_app(true).status, "正在处理…");
    assert_eq!(app.title(), "测试");
    assert_eq!(app.connection_label(), "已连接");
    assert_eq!(app.input_title(), " 输入 ");
    assert_eq!(ready_app(true).input_title(), " 输入（处理中） ");
    assert!(ready_app(true).help_hint().starts_with("模型处理中"));
    assert!(app.help_hint().starts_with("Enter 发送"));
    assert!(app.shows_cursor());
    assert!(!ready_app(true).shows_cursor());
}

#[test]
fn a_snapshot_reports_a_failed_save() {
    let mut app = App::new();
    app.connected = true;
    app.apply(ServerMessage::SessionSnapshot {
        session: session(1, false),
        events: vec![],
        save_error: Some("会话保存失败：x".into()),
    });
    assert_eq!(app.status, "会话保存失败：x");
}

#[test]
fn the_echo_of_a_sent_message_clears_the_input() {
    let mut app = ready_app(false);
    app.input = "你好".into();
    app.cursor = 2;
    app.sending = true;
    app.apply(ServerMessage::SessionEvent {
        session: session(2, true),
        event: ChatEvent::User { text: "你好".into() },
    });
    assert_eq!(app.input, "");
    assert_eq!(app.cursor, 0);
    assert!(!app.sending);
    assert_eq!(app.status, "正在处理…");
    assert_eq!(app.events.len(), 1);
}

#[test]
fn errors_end_a_send() {
    let mut app = ready_app(false);
    app.sending = true;
    app.apply(ServerMessage::RequestError { text: "会话已切换，请重新发送".into() });
    assert!(!app.sending);
    assert_eq!(app.status, "会话已切换，请重新发送");
}

#[test]
fn network_troubles_are_shown() {
    let mut app = ready_app(false);
    app.on_network(NetworkEvent::InvalidMessage("bad".into()));
    assert_eq!(app.status, "收到无法解析的消息：bad");
    app.on_network(NetworkEvent::Disconnected("后端关闭了连接".into()));
    assert!(!app.connected);
    assert!(!app.ready);
    assert_eq!(app.status, "后端关闭了连接");
}

#[test]
fn keys_edit_move_and_scroll() {
    let mut app = ready_app(false);
    assert!(!app.handle_key(Key::Char { c: '你', control: false }));
    app.handle_key(Key::Char { c: 'b', control: false });
    app.handle_key(Key::Left);
    app.handle_key(Key::Char { c: 'a', control: false });
    assert_eq!(app.input, "你ab");
    assert_eq!(app.cursor, 2);
    app.handle_key(Key::End);
    assert_eq!(app.cursor, 3);
    app.handle_key(Key::Right);
    assert_eq!(app.cursor, 3);
    app.handle_key(Key::Home);
    app.handle_key(Key::Left);
    assert_eq!(app.cursor, 0);
    app.handle_key(Key::Delete);
    assert_eq!(app.input, "ab");
    app.scroll = 3;
    app.handle_key(Key::Up);
    assert_eq!(app.scroll, 0);
    assert!(!app.follow_tail);
    app.handle_key(Key::PageDown);
    assert_eq!(app.scroll, 5);
    assert!(app.handle_key(Key::Enter));
    assert!(!app.should_quit);
    app.handle_key(Key::Char { c: 'c', control: true });
    assert!(app.should_quit);
}

#[test]
fn typing_then_backspace_restores_the_input() {
    let mut app = ready_app(false);
    app.input = "你好".into();
    app.cursor = 1;
    app.handle_key(Key::Char { c: 'x', control: false });
    assert_eq!(app.input, "你x好");
    app.handle_key(Key::Backspace);
    assert_eq!(app.input, "你好");
    assert_eq!(app.cursor, 1);
}

#[test]
fn sending_checks_the_input_first() {
    let mut app = ready_app(false);
    app.input = "   ".into();
    assert!(matches!(app.prepare_send(), SendDecision::Refused));
    assert_eq!(app.status, "请输入消息");
    app.input = "  问题 ".into();
    match app.prepare_send() {
        SendDecision::Send { session_id, text } => {
            assert_eq!(session_id, "session-1");
            assert_eq!(text, "问题");
        }
        _ => panic!("should send"),
    }
    app.mark_sending();
    assert!(app.sending);
    assert_eq!(app.status, "正在发送…");
    assert!(matches!(app.prepare_send(), SendDecision::Refused));
    assert_eq!(app.status, "就绪");
}

#[test]
fn history_scroll_follows_the_end() {
    let mut app = ready_app(false);
    app.fit_history_scroll(30, 10);
    assert_eq!(app.scroll, 20);
    app.follow_tail = false;
    app.scroll = 25;
    app.fit_history_scroll(30, 10);
    assert_eq!(app.scroll, 20);
    assert!(app.follow_tail);
    app.follow_tail = false;
    app.scroll = 3;
    app.fit_history_scroll(30, 10);
    assert_eq!(app.scroll, 3);
    assert!(!app.follow_tail);
    app.fit_history_scroll(5, 10);
    assert_eq!(app.scroll, 0);
}

#[test]
fn the_input_box_scrolls_to_the_cursor() {
    let mut app = ready_app(false);
    app.input = "一二三四五六七八九十".into();
    app.cursor = 10;
    // 10 wide characters in a box 4 columns wide and 2 rows high
    assert_eq!(app.input_view(4, 2), (4, 5, 0));
    app.cursor = 1;
    assert_eq!(app.input_view(4, 2), (0, 0, 2));
}

#[test]
fn history_shows_labelled_sections() {
    let lines = history_lines(&[
        ChatEvent::User { text: "第一行\n第二行".into() },
        ChatEvent::Answer { text: String::new() },
        ChatEvent::Done,
        ChatEvent::Error { text: "坏了".into() },
    ]);
    let texts: Vec<&str> = lines.iter().map(|l| l.text.as_str()).collect();
    assert_eq!(
        texts,
        vec!["你", "第一行", "第二行", "", "助手", "（无内容）", "", "错误", "坏了", ""]
    );
    assert!(matches!(lines[0].kind, LineKind::UserLabel));
    assert!(matches!(lines[1].kind, LineKind::Body));
    let empty = history_lines(&[]);
    assert_eq!(empty.len(), 1);
    assert_eq!(empty[0].text, "输入消息开始对话。");
    assert!(matches!(empty[0].kind, LineKind::Hint));
}

#[test]
fn wrapped_height_adds_the_rows_of_each_line() {
    let lines = vec!["你好ab".to_string(), String::new(), "abcde".to_string()];
    assert_eq!(wrapped_height(&lines, 4), 2 + 1 + 2);
    assert_eq!(visual_line_count("", 4), 1);
    assert_eq!(visual_line_count("ab\ncd", 0), 4);
}

#[test]
fn cursor_wraps_before_a_wide_character() {
    assert_eq!(cursor_position("abc你", 4), (1, 2));
    assert_eq!(cursor_position("ab\n", 4), (1, 0));
    assert_eq!(cursor_position("abcd", 4), (1, 0));
}

#[test]
fn input_height_stays_within_the_terminal() {
    assert_eq!(input_height("", 20, 20), 3);
    assert_eq!(input_height(&"x".repeat(1000), 20, 20), 13);
    assert_eq!(input_height(&"x".repeat(1000), 20, 5), 3);
}

#[test]
fn character_positions_become_byte_positions() {
    assert_eq!(char_to_byte_index("你a好", 0), 0);
    assert_eq!(char_to_byte_index("你a好", 1), 3);
    assert_eq!(char_to_byte_index("你a好", 2), 4);
    assert_eq!(char_to_byte_index("你a好", 3), 7);
    assert_eq!(char_to_byte_index("你a好", 9), 7);
}

#[test]
fn cursor_steps_follow_character_widths() {
    assert_eq!(cursor_advance(0, 3, '你', Some(2), 4), (1, 2));
    assert_eq!(cursor_advance(0, 2, '你', Some(2), 4), (1, 0));
    assert_eq!(cursor_advance(5, 1, '\n', None, 4), (6, 0));
    assert_eq!(cursor_advance(0, 0, '\u{7}', None, 4), (0, 0));
    assert_eq!(cursor_advance(65535, 3, 'a', Some(1), 4), (65535, 0));
    assert_eq!(rows_for(0, 4), 1);
    assert_eq!(rows_for(8, 4), 2);
    assert_eq!(rows_for(9, 4), 3);
}
