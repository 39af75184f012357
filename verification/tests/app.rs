//! What the commands decide.

use agentmux::app::{
    all_diagnostics, approve_command, conclude_resume, confirm_repair, doctor_exit_code, failure_prompt, follow_choice,
    list_groups, list_query, navigation_uri, navigation_warning, repair_output, repair_question, request_repair,
    resume_failure_requests_quit, wait_ends_program, AfterChoice, AppError, RepairRequest,
};
use agentmux::app_navigation::{
    diagnostic, is_available, open_command, open_uri, AppNavigationError, Launch, Platform,
};
use agentmux::catalog::GroupBy;
use agentmux::cli::{ListArgs, ResumeArgs};
use agentmux::domain::{
    CommandSpec, Diagnostic, DiagnosticSeverity, RepairReport, ResumeState, ResumeStatus, SourceId,
};
use agentmux::provider::ProviderError;
use agentmux::resume::{ResumeError, ResumeExecution};
use agentmux::time::Timestamp;

fn execution(executed: bool, exit_code: i32) -> ResumeExecution {
    ResumeExecution { command: "codex resume x".to_owned(), executed, exit_code }
}

fn args(repair_provider: bool, dry_run: bool, yes: bool) -> ResumeArgs {
    ResumeArgs { session_id: "x".to_owned(), dry_run, repair_provider, yes }
}

#[test]
fn parses_resume_failure_choice() {
    assert!(resume_failure_requests_quit("q\r\n"));
    assert!(resume_failure_requests_quit("QUIT"));
    assert!(!resume_failure_requests_quit("\r\n"));
    assert!(!resume_failure_requests_quit("return"));
}

#[test]
fn end_of_input_ends_the_wait() {
    assert!(wait_ends_program(0, ""));
    assert!(!wait_ends_program(1, "\n"));
    assert!(wait_ends_program(2, "q\n"));
    assert_eq!(
        failure_prompt("恢复失败"),
        "\n恢复失败\nCodex 的原始错误输出保留在上方。\n按 Enter 返回 agentmux，输入 q 后按 Enter 退出: "
    );
}

#[test]
fn repair_and_dry_run_exclude_each_other() {
    assert!(matches!(request_repair(&args(true, true, true), true), Err(AppError::RepairInDryRun)));
    assert_eq!(
        AppError::RepairInDryRun.message(),
        "--repair-provider 不能与 --dry-run 同时使用"
    );
    assert!(matches!(request_repair(&args(false, true, false), false), Ok(RepairRequest::Skip)));
    assert!(matches!(request_repair(&args(true, false, true), false), Ok(RepairRequest::Confirmed)));
    assert!(matches!(request_repair(&args(true, false, false), true), Ok(RepairRequest::Ask)));
    let refused = request_repair(&args(true, false, false), false).expect_err("nobody to ask");
    assert_eq!(refused.message(), "非交互环境执行 --repair-provider 时必须同时传入 --yes");
}

#[test]
fn only_yes_confirms_a_repair() {
    assert!(confirm_repair("y\n").is_ok());
    assert!(confirm_repair(" YES ").is_ok());
    let refused = confirm_repair("\n").expect_err("not confirmed");
    assert_eq!(refused.message(), "已取消 provider 配置修复");
    assert!(confirm_repair("yess").is_err());
}

#[test]
fn a_session_that_is_not_ready_gets_no_command() {
    let command = || Ok(CommandSpec::new("codex", Vec::new()));
    assert!(approve_command(&ResumeStatus::ready(), command()).is_ok());
    let blocked = ResumeStatus::blocked(ResumeState::CliMissing, "没有");
    assert_eq!(approve_command(&blocked, command()).expect_err("blocked").message(), "没有");
    let silent = ResumeStatus { state: ResumeState::Blocked, message: None };
    assert_eq!(
        approve_command(&silent, command()).expect_err("blocked").message(),
        "当前会话不可恢复"
    );
    let failed = approve_command(
        &ResumeStatus::ready(),
        Err(ProviderError::CommandUnavailable { program: "codex".to_owned() }),
    );
    assert_eq!(failed.expect_err("failed").message(), "找不到 Agent CLI: codex");
}

#[test]
fn dry_run_shows_command_and_uri() {
    let shown = conclude_resume("x", &execution(false, 0), Some("codex://threads/x".to_owned()));
    assert_eq!(shown.stdout, "将执行: codex resume x\n恢复成功后将打开: codex://threads/x\n");
    assert_eq!(shown.stderr, "");
    assert!(shown.open.is_none());
    assert_eq!(shown.exit_code, 0);
    let shown = conclude_resume("x", &execution(false, 0), None);
    assert_eq!(shown.stdout, "将执行: codex resume x\n");
}

#[test]
fn success_opens_the_app_and_failure_does_not() {
    let uri = || Some("codex://threads/x".to_owned());
    let done = conclude_resume("x", &execution(true, 0), uri());
    assert_eq!(done.open, uri());
    assert_eq!((done.stdout.as_str(), done.stderr.as_str(), done.exit_code), ("", "", 0));
    let done = conclude_resume("x", &execution(true, -7), uri());
    assert!(done.open.is_none());
    assert_eq!(done.stderr, "恢复命令失败，会话 x，退出码 -7\n");
    assert_eq!(done.exit_code, -7);
}

#[test]
fn navigation_can_be_switched_off() {
    let uri = || Ok(Some("u".to_owned()));
    assert_eq!(navigation_uri(false, uri()), Some("u".to_owned()));
    assert_eq!(navigation_uri(true, uri()), None);
    assert_eq!(navigation_uri(false, Ok(None)), None);
    let error = ProviderError::Unsupported { provider_id: SourceId::new("codex"), operation: "x" };
    assert_eq!(error.message(), "来源 codex 不支持 x");
    assert_eq!(navigation_uri(false, Err(error)), None);
}

#[test]
fn a_failed_choice_is_told() {
    assert!(matches!(follow_choice("x", &Ok(execution(true, 0))), AfterChoice::Leave));
    match follow_choice("x", &Ok(execution(true, 3))) {
        AfterChoice::Told { message, exit_code } => {
            assert_eq!(message, "恢复失败: x 退出码 3");
            assert_eq!(exit_code, 3);
        }
        AfterChoice::Leave => panic!("a failure is told"),
    }
    match follow_choice("x", &Err(AppError::Resume(ResumeError::MissingExitCode))) {
        AfterChoice::Told { message, exit_code } => {
            assert_eq!(message, "恢复失败: 恢复命令异常终止，未返回退出码");
            assert_eq!(exit_code, 1);
        }
        AfterChoice::Leave => panic!("a failure is told"),
    }
}

#[test]
fn doctor_fails_only_on_errors() {
    let make = |severity| Diagnostic::plain("n", severity, "m");
    let found = all_diagnostics(
        vec![vec![make(DiagnosticSeverity::Info)], vec![make(DiagnosticSeverity::Warning)]],
        diagnostic(false),
    );
    assert_eq!(found.len(), 3);
    assert_eq!(found[2].name, "codex-app-navigation");
    assert_eq!(doctor_exit_code(&found), 0);
    let found = all_diagnostics(vec![vec![make(DiagnosticSeverity::Error)]], diagnostic(true));
    assert_eq!(doctor_exit_code(&found), 1);
    assert_eq!(doctor_exit_code(&Vec::new()), 0);
}

#[test]
fn repairs_are_told_with_their_backup() {
    let mut report = RepairReport {
        config_path: "c".to_owned(),
        backup_path: Some("b".to_owned()),
        alias: "a".to_owned(),
        changed: true,
        message: "done".to_owned(),
    };
    assert_eq!(repair_output(&report), "done\n配置备份: b\n");
    report.backup_path = None;
    assert_eq!(repair_output(&report), "done\n");
}

#[test]
fn list_arguments_become_a_query() {
    let now = Timestamp::new(1_000_000, 0).expect("on the calendar");
    let mut args = ListArgs {
        source: Some("codex".to_owned()),
        project: None,
        provider: Some("p".to_owned()),
        since: Some("1h".to_owned()),
        group_by: GroupBy::Date,
        json: false,
        include_non_interactive: true,
        search: Some("s".to_owned()),
    };
    let query = list_query(&args, now).expect("a valid time");
    assert_eq!(query.source.as_deref(), Some("codex"));
    assert_eq!(query.project, None);
    assert_eq!(query.provider.as_deref(), Some("p"));
    assert_eq!(query.since, Timestamp::new(996_400, 0));
    assert!(query.include_non_interactive);
    assert_eq!(query.search.as_deref(), Some("s"));
    let catalog = agentmux::catalog::SessionCatalog::from_report(agentmux::domain::ScanReport::default());
    assert!(list_groups(&catalog, &args, now).expect("a valid time").is_empty());
    args.since = Some("later".to_owned());
    assert!(list_groups(&catalog, &args, now).is_err());
    assert_eq!(
        list_query(&args, now).expect_err("no time").message(),
        "无效的 --since 值: later"
    );
    args.since = None;
    assert!(list_query(&args, now).expect("no time needed").since.is_none());
}

#[test]
fn opening_a_uri_depends_on_the_platform() {
    let spec = open_command(Platform::Unix, "codex://threads/x").expect("an opener");
    assert_eq!(spec.display(), "xdg-open codex://threads/x");
    assert_eq!(open_command(Platform::MacOs, "u").expect("an opener").program, "open");
    assert!(open_command(Platform::Windows, "u").is_none());
    assert!(open_uri(Platform::Unix, true, Launch::Exited(Some(0))).is_ok());
    let failed = open_uri(Platform::Unix, true, Launch::Exited(None)).expect_err("failed");
    assert_eq!(failed.message(), "Codex App URL 处理器失败: xdg-open 退出码 -1");
    let failed = open_uri(Platform::MacOs, true, Launch::Exited(Some(2))).expect_err("failed");
    assert_eq!(failed.message(), "Codex App URL 处理器失败: open 退出码 2");
    let failed = open_uri(Platform::Unix, true, Launch::NotStarted { error: "e".to_owned() });
    let failed = failed.expect_err("failed");
    assert_eq!(failed.message(), "无法打开 Codex App URL: e");
    assert_eq!(navigation_warning(&failed), "警告: 无法打开 Codex App URL: e\n");
    assert!(matches!(
        open_uri(Platform::Windows, false, Launch::ShellCode(42)),
        Err(AppNavigationError::ProtocolUnavailable)
    ));
    assert!(open_uri(Platform::Windows, true, Launch::ShellCode(33)).is_ok());
    let failed = open_uri(Platform::Windows, true, Launch::ShellCode(32)).expect_err("failed");
    assert_eq!(failed.message(), "Codex App URL 处理器失败: ShellExecuteW 返回代码 32");
    let failed = open_uri(Platform::Other, true, Launch::Exited(Some(0))).expect_err("failed");
    assert_eq!(failed.message(), "当前系统不支持打开 Codex App URL");
    assert!(is_available(Platform::MacOs, false));
    assert!(!is_available(Platform::Unix, false));
    assert!(is_available(Platform::Windows, true));
    assert!(!is_available(Platform::Other, true));
    assert_eq!(diagnostic(true).severity, DiagnosticSeverity::Info);
    assert_eq!(diagnostic(false).severity, DiagnosticSeverity::Warning);
    assert!(diagnostic(false).suggestion.is_some());
}

#[test]
fn the_question_names_the_provider() {
    let zero = Timestamp::new(0, 0).expect("on the calendar");
    let mut session = agentmux::domain::Session {
        id: "x".to_owned(),
        source: SourceId::new("codex"),
        title: None,
        summary: None,
        cwd: None,
        project: String::new(),
        created_at: zero,
        updated_at: zero,
        model: None,
        model_provider: Some("legacy".to_owned()),
        interaction: agentmux::domain::InteractionType::Unknown,
        raw_path: String::new(),
        warnings: Vec::new(),
        resume: ResumeStatus::ready(),
    };
    assert_eq!(
        repair_question(&session),
        "将备份 config.toml 并创建 provider 兼容别名 legacy，继续吗？[y/N] "
    );
    session.model_provider = None;
    assert_eq!(
        repair_question(&session),
        "将备份 config.toml 并创建 provider 兼容别名 unknown，继续吗？[y/N] "
    );
}
