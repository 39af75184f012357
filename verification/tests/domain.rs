//! Sessions, warnings and commands.

use agentmux::domain::{
    quote_argument, CommandSpec, InteractionType, ResumeState, ResumeStatus, ScanReport, ScanWarning, Session, SourceId,
    WarningKind,
};
use agentmux::time::Timestamp;

fn bare(id: &str) -> Session {
    let zero = Timestamp::new(0, 0).expect("on the calendar");
    Session {
        id: id.to_owned(),
        source: SourceId::new("codex"),
        title: None,
        summary: None,
        cwd: None,
        project: "unknown".to_owned(),
        created_at: zero,
        updated_at: zero,
        model: None,
        model_provider: None,
        interaction: InteractionType::Unknown,
        raw_path: String::new(),
        warnings: Vec::new(),
        resume: ResumeStatus::ready(),
    }
}

#[test]
fn derives_project_name_from_chinese_path() {
    let path = r"C:\工作区\智能助手";
    assert_eq!(Session::project_from_cwd(Some(path), false), "智能助手");
    assert_eq!(Session::project_from_cwd(Some(path), true), "智能助手");
}

#[test]
fn displays_command_with_quoted_arguments() {
    let command = CommandSpec::new("codex", vec!["resume".to_owned(), "thread name".to_owned()]);
    assert_eq!(command.display(), "codex resume \"thread name\"");
}

#[test]
fn roots_and_missing_directories_have_no_project() {
    assert_eq!(Session::project_from_cwd(None, false), "unknown");
    assert_eq!(Session::project_from_cwd(Some("/"), false), "unknown");
    assert_eq!(Session::project_from_cwd(Some("C:\\"), false), "unknown");
    assert_eq!(Session::project_from_cwd(Some(""), false), "unknown");
    assert_eq!(Session::project_from_cwd(Some("/a/.."), false), "unknown");
    assert_eq!(Session::project_from_cwd(Some("/a/  "), false), "unknown");
    assert_eq!(Session::project_from_cwd(Some("/home/me/work/"), false), "work");
    assert_eq!(Session::project_from_cwd(Some("/home/me/work/."), false), "work");
    assert_eq!(Session::project_from_cwd(Some("work"), false), "work");
    assert_eq!(Session::project_from_cwd(Some("/home/me/a\\b"), false), "a\\b");
    assert_eq!(Session::project_from_cwd(Some("/home/me/a\\b"), true), "b");
    assert_eq!(Session::project_from_cwd(Some(r"\\server\share"), true), "unknown");
}

#[test]
fn quotes_only_where_needed() {
    assert_eq!(quote_argument("plain"), "plain");
    assert_eq!(quote_argument(""), "");
    assert_eq!(quote_argument("a\"b"), "\"a\\\"b\"");
    assert_eq!(quote_argument("a\u{3000}b"), "\"a\u{3000}b\"");
    assert_eq!(CommandSpec::new("my codex", Vec::new()).display(), "\"my codex\"");
}

#[test]
fn search_text_and_title_take_what_there_is() {
    let mut session = bare("id-1");
    assert_eq!(session.searchable_text(), "id-1   unknown ");
    assert_eq!(session.display_title(), "id-1");
    session.summary = Some("sum".to_owned());
    assert_eq!(session.display_title(), "sum");
    session.title = Some("tit".to_owned());
    session.cwd = Some("/w".to_owned());
    assert_eq!(session.display_title(), "tit");
    assert_eq!(session.searchable_text(), "id-1 tit sum unknown /w");
    assert_eq!(session.clone().searchable_text(), session.searchable_text());
}

#[test]
fn warnings_take_a_path_and_a_line() {
    let warning = ScanWarning::new(WarningKind::InvalidRecord, "bad").with_path("f").with_line(3);
    assert_eq!(warning.kind, WarningKind::InvalidRecord);
    assert_eq!(warning.path.as_deref(), Some("f"));
    assert_eq!(warning.line, Some(3));
    assert_eq!(warning.message, "bad");
    assert_eq!(warning.clone(), warning);
}

#[test]
fn statuses_say_whether_they_are_ready() {
    assert!(ResumeStatus::ready().is_ready());
    let blocked = ResumeStatus::blocked(ResumeState::CliMissing, "no");
    assert!(!blocked.is_ready());
    assert_eq!(blocked.message.as_deref(), Some("no"));
}

#[test]
fn reports_are_joined_in_order() {
    let mut report = ScanReport { sessions: vec![bare("a")], warnings: Vec::new() };
    report.extend(ScanReport {
        sessions: vec![bare("b")],
        warnings: vec![ScanWarning::new(WarningKind::Io, "w")],
    });
    assert_eq!(report.sessions[0].id, "a");
    assert_eq!(report.sessions[1].id, "b");
    assert_eq!(report.warnings.len(), 1);
    assert_eq!(SourceId::new("codex").as_str(), "codex");
}
