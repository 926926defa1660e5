use agent_backend::server::{
    BASE_PROMPT, DEFAULT_HTTP_PORT, DEFAULT_TCP_PORT, DirChoice, dir_choice, port_or, sessions_dir_choice,
    system_prompt,
};
use agent_backend::sessions::{
    Record, Session, StartError, Summary, check_record_id, listed_id, new_session_id, order_by_recent,
    refresh_system, session_file, valid_id,
};
use agent_backend::skills::{Skill, SkillSource, load, parse, prompt_section, render};

fn record(id: &str) -> Record<String, String> {
    Record::new(id.to_string(), 1000, vec!["system".to_string()])
}

fn summary(id: &str, updated_at: i64) -> Summary {
    Summary {
        id: id.to_string(),
        title: String::new(),
        create_time: 0,
        updated_at,
        busy: false,
        revision: 0,
    }
}

#[test]
fn session_ids_stay_inside_the_sessions_directory() {
    assert!(valid_id("1700000000-42-0"));
    assert!(valid_id("a_B-9"));
    assert!(!valid_id(""));
    assert!(!valid_id("../config"));
    assert!(!valid_id("a.json"));
    assert!(!valid_id(&"x".repeat(100)));
    assert!(valid_id(&"x".repeat(99)));
}

#[test]
fn opening_an_invalid_id_is_refused() {
    assert_eq!(session_file("../config"), Err("无效的会话 ID".to_string()));
    assert_eq!(session_file("abc-1"), Ok("abc-1.json".to_string()));
}

#[test]
fn a_record_must_name_its_own_session() {
    assert_eq!(check_record_id("a", "a"), Ok(()));
    assert_eq!(check_record_id("a", "b"), Err("会话 ID 与文件不一致".to_string()));
}

#[test]
fn new_session_ids_join_time_process_and_counter() {
    let id = new_session_id(1700000000123456789, 4242, 3);
    assert_eq!(id, "1700000000123456789-4242-3");
    assert!(valid_id(&id));
    let extreme = new_session_id(i64::MIN, u32::MAX, u64::MAX);
    assert_eq!(extreme, "-9223372036854775808-4294967295-18446744073709551615");
    assert!(valid_id(&extreme));
}

#[test]
fn listing_keeps_session_files_only() {
    assert_eq!(listed_id("abc-1.json"), Some("abc-1".to_string()));
    assert_eq!(listed_id("config.json"), None);
    assert_eq!(listed_id("abc-1.json.tmp"), None);
    assert_eq!(listed_id("notes.txt"), None);
    assert_eq!(listed_id("bad name.json"), None);
    assert_eq!(listed_id(".json"), None);
}

#[test]
fn sessions_start_empty_and_untitled() {
    let r = record("s1");
    assert_eq!(r.title, "新对话");
    assert_eq!(r.create_time, 1000);
    assert_eq!(r.updated_at, 1000);
    assert!(r.events.is_empty());
    assert_eq!(r.revision, 0);
}

#[test]
fn each_event_raises_the_revision_by_one() {
    let mut s = Session::new(record("s1"));
    s.emit_at("user".to_string(), 2000);
    s.emit_at("answer".to_string(), 3000);
    assert_eq!(s.record.revision, 2);
    assert_eq!(s.record.updated_at, 3000);
    s.emit("tool".to_string());
    assert_eq!(s.record.revision, 3);
    assert!(s.record.updated_at > 1_600_000_000_000);
    assert_eq!(s.record.events, vec!["user".to_string(), "answer".to_string(), "tool".to_string()]);
    let summary = s.summary();
    assert_eq!(summary.revision, 3);
    assert_eq!(summary.id, "s1");
    let snapshot = s.snapshot();
    assert_eq!(snapshot.events.len(), 3);
    assert_eq!(snapshot.save_error, None);
}

#[test]
fn a_busy_session_refuses_a_second_message() {
    let mut s = Session::new(record("s1"));
    assert_eq!(s.begin("第一条消息"), Ok(()));
    assert!(s.busy);
    assert_eq!(s.record.title, "第一条消息");
    let before = s.record.revision;
    assert_eq!(s.begin("第二条"), Err(StartError::Busy));
    assert_eq!(StartError::Busy.message(), "这个会话仍在处理上一条消息");
    assert_eq!(s.record.revision, before);
    assert_eq!(s.record.title, "第一条消息");
}

#[test]
fn the_first_message_names_the_session() {
    let mut s = Session::new(record("s1"));
    let long = "一二三四五六七八九十".repeat(3);
    s.begin(&long).unwrap();
    assert_eq!(s.record.title.chars().count(), 28);
    assert!(long.starts_with(&s.record.title));

    let mut later = Session::new(record("s2"));
    later.emit_at("old".to_string(), 1);
    later.begin("不改标题").unwrap();
    assert_eq!(later.record.title, "新对话");
}

#[test]
fn finishing_a_message_leaves_the_session_idle() {
    let mut s = Session::new(record("s1"));
    s.begin("hi").unwrap();
    s.emit_at("user".to_string(), 10);
    let during = s
        .finish_at(Some(vec!["system".to_string(), "user".to_string()]), Some("error".to_string()), "done".to_string(), 20)
        .unwrap();
    assert!(during.busy);
    assert_eq!(during.revision, 2);
    assert_eq!(during.updated_at, 20);
    assert_eq!(s.record.updated_at, 20);
    assert!(!s.busy);
    assert_eq!(s.record.revision, 3);
    assert_eq!(s.record.events.last(), Some(&"done".to_string()));
    assert_eq!(s.record.events[1], "error");
    assert_eq!(s.record.messages.len(), 2);
    assert_eq!(s.begin("again"), Ok(()));
    assert!(s.finish(None, None, "done".to_string()).is_none());
    assert!(!s.busy);
    assert_eq!(s.record.revision, 4);
    assert_eq!(s.record.messages.len(), 2);
}

#[test]
fn failed_saves_are_reported() {
    let mut s = Session::new(record("s1"));
    s.record_save(Err("磁盘已满".to_string()));
    assert_eq!(s.save_error, Some("会话保存失败：磁盘已满".to_string()));
    s.record_save(Ok(()));
    assert_eq!(s.save_error, None);
}

#[test]
fn summaries_list_the_most_recent_first() {
    let ordered = order_by_recent(vec![summary("a", 5), summary("b", 9), summary("c", 5), summary("d", 1)]);
    let ids: Vec<&str> = ordered.iter().map(|s| s.id.as_str()).collect();
    assert_eq!(ids, vec!["b", "a", "c", "d"]);
}

#[test]
fn front_matter_gives_name_and_description() {
    let text = "---\nname: \"课表查询\"\ndescription: '查询本学期课表'\nother: x\n---\n# 标题\n";
    assert_eq!(parse(text, "dir"), ("课表查询".to_string(), "查询本学期课表".to_string()));
}

#[test]
fn missing_front_matter_falls_back_to_directory_and_heading() {
    assert_eq!(
        parse("\n\n## 发邮件\n正文", "mailer"),
        ("mailer".to_string(), "发邮件".to_string())
    );
    assert_eq!(
        parse("---\nname:\ndescription:\n---\n\n  # 下载文件  \n", "files"),
        ("files".to_string(), "下载文件".to_string())
    );
    assert_eq!(parse("", "empty"), ("empty".to_string(), String::new()));
}

#[test]
fn unclosed_front_matter_reads_every_line() {
    assert_eq!(
        parse("---\nname: a\ndescription: b", "dir"),
        ("a".to_string(), "b".to_string())
    );
}

fn source(dir: &str, text: &str) -> SkillSource {
    SkillSource {
        fallback: dir.to_string(),
        text: text.to_string(),
        path: format!("/skills/{dir}/SKILL.md"),
    }
}

#[test]
fn skills_load_in_name_order() {
    let skills = load(vec![
        source("b", "---\nname: zeta\n---\n"),
        source("a", "---\nname: alpha\ndescription: first\n---\n"),
        source("c", "# only a heading"),
    ]);
    let names: Vec<&str> = skills.iter().map(|s| s.name.as_str()).collect();
    assert_eq!(names, vec!["alpha", "c", "zeta"]);
    assert_eq!(skills[0].description, "first");
    assert_eq!(skills[1].description, "only a heading");
    assert_eq!(skills[2].path, "/skills/b/SKILL.md");
}

#[test]
fn no_skills_give_no_section() {
    assert_eq!(render(&[]), "");
    assert_eq!(prompt_section(&[]), "");
    assert_eq!(system_prompt(&[]), BASE_PROMPT);
}

#[test]
fn skill_entries_name_their_files() {
    let skills = vec![Skill {
        name: "课表".to_string(),
        description: String::new(),
        path: "/s/课表/SKILL.md".to_string(),
    }];
    let section = render(&skills);
    assert!(section.starts_with("\n                *可用技能*\n"));
    assert!(section.ends_with("技能列表：\n                - 课表：（无描述）\n                  文件：/s/课表/SKILL.md\n"));
    let prompt = system_prompt(&skills);
    assert!(prompt.starts_with(BASE_PROMPT));
    assert!(prompt.ends_with(&section));
    assert!(prompt.contains("交我集"));
}

#[test]
fn ports_come_from_settings_or_defaults() {
    assert_eq!(port_or(Some("8080"), 13376), 8080);
    assert_eq!(port_or(Some("+81"), 1), 81);
    assert_eq!(port_or(Some("65536"), 13376), 13376);
    assert_eq!(port_or(Some(" 80"), 13376), 13376);
    assert_eq!(port_or(Some(""), 8081), 8081);
    assert_eq!(port_or(None, 8081), 8081);
}

#[test]
fn directories_prefer_settings_then_the_working_directory() {
    assert!(matches!(dir_choice(Some("/x".to_string()), false), DirChoice::Configured(p) if p == "/x"));
    assert!(matches!(dir_choice(None, true), DirChoice::Here));
    assert!(matches!(dir_choice(None, false), DirChoice::Parent));
    assert!(matches!(sessions_dir_choice(None, false, false), DirChoice::Here));
    assert!(matches!(sessions_dir_choice(None, false, true), DirChoice::Parent));
    assert!(matches!(sessions_dir_choice(None, true, true), DirChoice::Here));
}

#[test]
fn skills_of_the_same_name_keep_their_order() {
    let skills = load(vec![
        source("x", "---\nname: same\ndescription: first\n---\n"),
        source("a", "---\nname: aaa\n---\n"),
        source("y", "---\nname: same\ndescription: second\n---\n"),
    ]);
    let descriptions: Vec<&str> = skills.iter().map(|s| s.description.as_str()).collect();
    assert_eq!(descriptions, vec!["", "first", "second"]);
}

#[test]
fn the_default_ports_are_8080_and_8081() {
    assert_eq!(DEFAULT_HTTP_PORT, 8080);
    assert_eq!(DEFAULT_TCP_PORT, 8081);
    assert_eq!(port_or(None, DEFAULT_HTTP_PORT), 8080);
}

#[test]
fn user_messages_join_the_conversation() {
    let mut s = Session::new(record("s1"));
    s.add_message("user: hi".to_string());
    assert_eq!(s.record.messages, vec!["system".to_string(), "user: hi".to_string()]);
    assert_eq!(s.record.revision, 0);
}

#[test]
fn a_resumed_conversation_gets_the_current_system_prompt() {
    let mut m = vec!["old system".to_string(), "user".to_string()];
    refresh_system(&mut m, true, "new system".to_string());
    assert_eq!(m, vec!["new system".to_string(), "user".to_string()]);
    let mut m = vec!["user".to_string()];
    refresh_system(&mut m, false, "new system".to_string());
    assert_eq!(m, vec!["user".to_string()]);
    let mut empty: Vec<String> = vec![];
    refresh_system(&mut empty, true, "new system".to_string());
    assert!(empty.is_empty());
}
