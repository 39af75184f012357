//! Text output.

use agentmux::catalog::SessionGroup;
use agentmux::domain::{
    Diagnostic, DiagnosticSeverity, InteractionType, ResumeStatus, ScanWarning, Session, SourceId, WarningKind,
};
use agentmux::output::{write_diagnostics, write_list, write_sources, write_warning};
use agentmux::provider::codex::CodexProvider;
use agentmux::time::Timestamp;
use chrono::TimeZone;

fn test_session() -> Session {
    let time = chrono::Utc
        .with_ymd_and_hms(2026, 7, 10, 12, 0, 0)
        .single()
        .expect("测试时间应有效");
    let timestamp = Timestamp::new(time.timestamp(), 0).expect("on the calendar");
    Session {
        id: "019f4a0b-a42e-7103-ac37-2ceffc73cb52".to_owned(),
        source: SourceId::new("codex"),
        title: Some("中文会话".to_owned()),
        summary: None,
        cwd: Some(r"D:\项目\agentmux".to_owned()),
        project: "agentmux".to_owned(),
        created_at: timestamp,
        updated_at: timestamp,
        model: Some("gpt-5".to_owned()),
        model_provider: Some("custom".to_owned()),
        interaction: InteractionType::Interactive,
        raw_path: "session.jsonl".to_owned(),
        warnings: Vec::new(),
        resume: ResumeStatus::ready(),
    }
}

#[test]
fn text_output_omits_raw_path() {
    let session = test_session();
    let groups = vec![SessionGroup { key: "agentmux".to_owned(), sessions: vec![&session] }];

    let text = write_list(&groups);
    assert!(text.contains(&session.id));
    assert!(text.contains("中文会话"));
    assert!(!text.contains("session.jsonl"));
}

#[test]
fn lists_are_laid_out_in_columns() {
    let session = test_session();
    let mut other = test_session();
    other.model_provider = None;
    other.title = Some("x".repeat(81));
    let groups = vec![SessionGroup { key: "agentmux".to_owned(), sessions: vec![&session, &other] }];
    let id = "019f4a0b-a42e-7103-ac37-2ceffc73cb52";
    assert_eq!(
        write_list(&groups),
        format!(
            "agentmux (2)\n  2026-07-10 12:00Z  codex custom       {id}  中文会话\n  2026-07-10 12:00Z  codex -            {id}  {}…\n\n",
            "x".repeat(80)
        )
    );
    let mut moved = test_session();
    moved.cwd = Some("/elsewhere".to_owned());
    moved.raw_path = "/elsewhere/other.jsonl".to_owned();
    let here = vec![SessionGroup { key: "g".to_owned(), sessions: vec![&session] }];
    let there = vec![SessionGroup { key: "g".to_owned(), sessions: vec![&moved] }];
    assert_eq!(write_list(&here), write_list(&there));
    assert_eq!(write_list(&Vec::new()), "未找到匹配的会话。\n");
}

#[test]
fn warnings_say_where_they_are() {
    let warning = ScanWarning::new(WarningKind::Io, "坏");
    assert_eq!(write_warning(&warning), "警告 [来源] 坏\n");
    assert_eq!(write_warning(&warning.clone().with_line(3)), "警告 [来源] 坏\n");
    assert_eq!(write_warning(&warning.clone().with_path("f")), "警告 [f] 坏\n");
    assert_eq!(write_warning(&warning.with_path("f").with_line(12)), "警告 [f:12] 坏\n");
}

#[test]
fn diagnostics_and_sources_are_listed() {
    let text = write_diagnostics(&vec![
        Diagnostic::plain("a", DiagnosticSeverity::Info, "m"),
        Diagnostic::advised("b", DiagnosticSeverity::Error, "n", "s"),
    ]);
    assert_eq!(text, "[正常] a: m\n[错误] b: n\n  建议: s\n");
    let text = write_sources(&vec![CodexProvider::with_home("/h", false).descriptor()]);
    assert_eq!(text, "codex  OpenAI Codex  扫描 Codex JSONL 会话并通过官方 codex resume 恢复\n");
}
