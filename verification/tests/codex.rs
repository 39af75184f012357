//! Scanning and resuming Codex sessions.

use agentmux::app::{
    all_diagnostics, approve_command, conclude_resume, doctor_exit_code, find_session, navigation_uri,
};
use agentmux::app_navigation::diagnostic;
use agentmux::catalog::{can_search, group_sessions, GroupBy, SessionCatalog, SessionQuery};
use agentmux::domain::{
    DiagnosticSeverity, InteractionType, ProviderCapability, ResumeState, ScanReport, Session, SourceId, WarningKind,
};
use agentmux::provider::codex::config::ConfigRead;
use agentmux::provider::codex::ids::session_id_from_filename;
use agentmux::provider::codex::records::{read_jsonl, FileRead};
use agentmux::provider::codex::redact::{redact, sanitize_text};
use agentmux::provider::codex::scan::is_session_file;
use agentmux::provider::codex::sessions::FileFacts;
use agentmux::provider::codex::{CodexProvider, DiagnoseFacts};
use agentmux::provider::ProviderError;
use agentmux::resume::{decide_resume, ResumeDecision};
use agentmux::time::Timestamp;

const SESSION_ID: &str = "019f4a0b-a42e-7103-ac37-2ceffc73cb52";
const NON_INTERACTIVE_ID: &str = "019f4a0c-9f71-72e3-94bd-93d2a1080936";
const HOME: &str = "/codex";

/// Files by path.
type Files = Vec<(String, Vec<u8>)>;

fn session_path(id: &str) -> String {
    format!("{HOME}/sessions/2026/07/10/rollout-2026-07-10T11-21-49-{id}.jsonl")
}

fn fixture(session_body: &str) -> Files {
    vec![(session_path(SESSION_ID), session_body.as_bytes().to_vec())]
}

fn read(bytes: &[u8]) -> FileRead {
    FileRead::Read { bytes: bytes.to_vec(), error: None }
}

fn lookup(files: &Files, path: &str) -> Option<FileRead> {
    files.iter().find(|(name, _)| name == path).map(|(_, bytes)| read(bytes))
}

fn instant(seconds: i64) -> Timestamp {
    Timestamp::new(seconds, 0).expect("on the calendar")
}

fn scan(provider: &CodexProvider, files: &Files, cli_available: bool) -> ScanReport {
    let index = lookup(files, &provider.session_index_path());
    let mut scan = provider.begin_scan(&index, cli_available);
    for root in provider.session_roots() {
        for (path, bytes) in files {
            if path.starts_with(&root) && is_session_file(path, true, false) {
                scan = scan.add_file(path, &read(bytes), Some(instant(7)), true, instant(9));
            }
        }
    }
    let config = match files.iter().find(|(name, _)| *name == provider.config_path()) {
        Some((_, bytes)) => ConfigRead::Bytes(bytes.clone()),
        None => ConfigRead::Missing,
    };
    scan.finish(&provider.config_path(), &config)
}

fn valid_session() -> String {
    concat_lines(&[
        "{\"timestamp\":\"2026-07-10T03:21:49Z\",\"type\":\"session_meta\",\"payload\":{",
        "\"id\":\"019f4a0b-a42e-7103-ac37-2ceffc73cb52\",",
        "\"timestamp\":\"2026-07-10T03:21:49Z\",",
        "\"cwd\":\"D:\\\\项目\\\\智能助手\",\"source\":\"vscode\",",
        "\"thread_source\":\"user\",\"model_provider\":\"custom\",\"future\":true}}\n",
        "{\"timestamp\":\"2026-07-10T03:22:49Z\",\"type\":\"turn_context\",\"payload\":{",
        "\"model\":\"gpt-5\",\"summary\":\"实现扫描 token=secret-value，保持安全\",",
        "\"unknown_field\":{\"nested\":true}}}\n",
    ])
}

fn concat_lines(parts: &[&str]) -> String {
    parts.concat()
}

#[test]
fn parses_valid_session_and_index() {
    let mut files = fixture(&valid_session());
    let index = format!(
        "{{\"id\":\"{SESSION_ID}\",\"thread_name\":\"中文标题\",\"updated_at\":\"2026-07-10T03:23:49Z\"}}\n"
    );
    files.push((format!("{HOME}/session_index.jsonl"), index.into_bytes()));
    let provider = CodexProvider::with_home(HOME, false).with_cli_program("missing-cli");

    let report = scan(&provider, &files, false);
    assert_eq!(report.sessions.len(), 1);
    let session = &report.sessions[0];
    assert_eq!(session.id, SESSION_ID);
    assert_eq!(session.title.as_deref(), Some("中文标题"));
    assert_eq!(session.project, "智能助手");
    assert_eq!(session.model.as_deref(), Some("gpt-5"));
    assert_eq!(session.model_provider.as_deref(), Some("custom"));
    assert_eq!(session.interaction, InteractionType::Interactive);
    assert_eq!(
        session.summary.as_deref(),
        Some("实现扫描 token=[REDACTED]，保持安全")
    );
    assert_eq!(session.resume.state, ResumeState::CliMissing);
    assert_eq!(session.created_at, instant(1_783_653_709));
    assert_eq!(session.updated_at, instant(1_783_653_829));
}

#[test]
fn skips_corrupt_jsonl_line() {
    let body = format!("{}not-json\n", valid_session());
    let files = fixture(&body);
    let provider = CodexProvider::with_home(HOME, false);

    let report = scan(&provider, &files, true);
    assert_eq!(report.sessions.len(), 1);
    assert!(report
        .warnings
        .iter()
        .any(|warning| warning.kind == WarningKind::InvalidRecord));
}

#[test]
fn handles_missing_and_unknown_fields() {
    let body = concat_lines(&[
        "{\"timestamp\":\"2026-07-10T03:21:49Z\",\"type\":\"future_record\",\"payload\":{}}\n",
        "{\"timestamp\":\"2026-07-10T03:22:49Z\",\"type\":\"turn_context\",\"payload\":{}}\n",
    ]);
    let files = fixture(&body);
    let provider = CodexProvider::with_home(HOME, false);

    let report = scan(&provider, &files, true);
    assert_eq!(report.sessions.len(), 1);
    assert_eq!(report.sessions[0].id, SESSION_ID);
    assert_eq!(report.sessions[0].interaction, InteractionType::Unknown);
}

#[test]
fn skips_invalid_utf8_line() {
    let mut files = fixture(&valid_session());
    files[0].1.extend_from_slice(&[0xff, b'\n']);
    let provider = CodexProvider::with_home(HOME, false);

    let report = scan(&provider, &files, true);
    assert_eq!(report.sessions.len(), 1);
    assert!(report
        .warnings
        .iter()
        .any(|warning| warning.kind == WarningKind::InvalidUtf8));
}

#[test]
fn scan_is_read_only() {
    let files = cli_fixture();
    let provider = CodexProvider::with_home(HOME, false);
    let index = lookup(&files, &provider.session_index_path());
    let handed: Vec<(String, FileRead)> = files.iter().map(|(path, bytes)| (path.clone(), read(bytes))).collect();
    let mut first = provider.begin_scan(&index, true);
    for (path, body) in &handed {
        if is_session_file(path, true, false) {
            first = first.add_file(path, body, Some(instant(7)), true, instant(9));
        }
    }
    let config = ConfigRead::Bytes(files[3].1.clone());
    let report = first.finish(&provider.config_path(), &config);
    assert!(!report.sessions.is_empty());

    // What was handed over holds what it held, and a second scan of it finds the same.
    for ((path, bytes), (_, body)) in files.iter().zip(&handed) {
        assert!(matches!(body, FileRead::Read { bytes: kept, error: None } if kept == bytes), "{path}");
    }
    assert!(matches!(&config, ConfigRead::Bytes(kept) if *kept == files[3].1));
    let mut second = provider.begin_scan(&index, true);
    for (path, body) in &handed {
        if is_session_file(path, true, false) {
            second = second.add_file(path, body, Some(instant(7)), true, instant(9));
        }
    }
    let again = second.finish(&provider.config_path(), &config);
    assert_eq!(format!("{report:?}"), format!("{again:?}"));
}

#[test]
fn builds_official_resume_command() {
    let files = fixture(&valid_session());
    let provider = CodexProvider::with_home(HOME, false);
    let session = scan(&provider, &files, true).sessions.remove(0);

    let command = provider.build_resume_command(&session).expect("应能构造恢复命令");
    assert_eq!(command.display(), format!("codex resume {SESSION_ID}"));
}

#[test]
fn filename_uuid_takes_precedence_over_payload_id() {
    let body = concat_lines(&[
        "{\"timestamp\":\"2026-07-10T03:21:49Z\",\"type\":\"session_meta\",\"payload\":{",
        "\"id\":\"unsafe & command\",\"timestamp\":\"2026-07-10T03:21:49Z\",",
        "\"cwd\":\"D:\\\\项目\\\\智能助手\",\"source\":\"vscode\",\"thread_source\":\"user\",",
        "\"model_provider\":\"custom\"}}\n",
    ]);
    let files = fixture(&body);
    let provider = CodexProvider::with_home(HOME, false);

    let session = scan(&provider, &files, true).sessions.remove(0);

    assert_eq!(session.id, SESSION_ID);
    assert!(
        provider.build_resume_command(&session).is_ok(),
        "文件名 UUID 应可安全构造恢复命令"
    );
}

#[test]
fn rejects_non_uuid_resume_id() {
    let files = fixture(&valid_session());
    let provider = CodexProvider::with_home(HOME, false);
    let mut session = scan(&provider, &files, true).sessions.remove(0);
    session.id = "unsafe & command".to_owned();

    assert!(matches!(
        provider.build_resume_command(&session),
        Err(ProviderError::InvalidData { .. })
    ));
    assert!(matches!(
        provider.build_app_uri(&session),
        Err(ProviderError::InvalidData { .. })
    ));
    session.source = SourceId::new("aider");
    let error = provider.build_resume_command(&session).expect_err("another source");
    assert_eq!(error.message(), "来源 codex 不支持 恢复其他来源会话");
}

fn written_session(id: &str, source: &str, thread_source: &str) -> (String, Vec<u8>) {
    let body = format!(
        "{{\"timestamp\":\"2026-07-10T03:00:00Z\",\"type\":\"session_meta\",\"payload\":{{\"id\":\"{id}\",\
         \"timestamp\":\"2026-07-10T03:00:00Z\",\"cwd\":\"{HOME}/中文项目\",\"source\":\"{source}\",\
         \"thread_source\":\"{thread_source}\",\"model_provider\":\"custom\"}}}}\n\
         {{\"timestamp\":\"2026-07-10T03:30:00Z\",\"type\":\"turn_context\",\"payload\":{{\"model\":\"gpt-5\",\
         \"summary\":\"安全摘要 token=test-secret\"}}}}\n"
    );
    (
        format!("{HOME}/sessions/2026/07/10/rollout-2026-07-10T03-00-00-{id}.jsonl"),
        body.into_bytes(),
    )
}

fn cli_fixture() -> Files {
    let index = format!(
        "{{\"id\":\"{SESSION_ID}\",\"thread_name\":\"中文交互会话\",\"updated_at\":\"2026-07-10T04:00:00Z\"}}\n\
         {{\"id\":\"{NON_INTERACTIVE_ID}\",\"thread_name\":\"后台会话\",\"updated_at\":\"2026-07-10T03:00:00Z\"}}\n"
    );
    let config = "model_provider = \"custom\"\n[model_providers.custom]\nname = \"Custom\"\n\
                  base_url = \"https://example.invalid/v1\"\nwire_api = \"responses\"\n";
    vec![
        written_session(SESSION_ID, "vscode", "user"),
        written_session(NON_INTERACTIVE_ID, "exec", "subagent"),
        (format!("{HOME}/session_index.jsonl"), index.into_bytes()),
        (format!("{HOME}/config.toml"), config.as_bytes().to_vec()),
    ]
}

fn cli_catalog() -> SessionCatalog {
    let provider = CodexProvider::with_home(HOME, false);
    let report = scan(&provider, &cli_fixture(), true);
    assert!(report.warnings.is_empty());
    let query = SessionQuery { search: Some("x".to_owned()), ..SessionQuery::default() };
    assert!(can_search(&report.sessions, &query));
    SessionCatalog::from_report(report)
}

#[test]
fn list_json_filters_non_interactive_by_default() {
    let catalog = cli_catalog();
    let found = catalog.query(&SessionQuery::default());
    let groups = group_sessions(found, GroupBy::Project);
    let sessions = &groups[0].sessions;
    assert_eq!(sessions.len(), 1);
    assert_eq!(sessions[0].id, SESSION_ID);
    assert_eq!(sessions[0].project, "中文项目");
    assert_eq!(sessions[0].summary.as_deref(), Some("安全摘要 token=[REDACTED]"));
}

#[test]
fn list_includes_non_interactive_when_requested() {
    let catalog = cli_catalog();
    let query = SessionQuery { include_non_interactive: true, ..SessionQuery::default() };
    let groups = group_sessions(catalog.query(&query), GroupBy::Project);
    let count: usize = groups.iter().map(|group| group.sessions.len()).sum();
    assert_eq!(count, 2);
}

fn dry_run(no_open_in_app: bool) -> String {
    let provider = CodexProvider::with_home(HOME, false);
    let session: Session = find_session(&cli_catalog(), SESSION_ID).expect("it was scanned");
    assert_eq!(session.resume.state, ResumeState::Ready);
    let status = provider.check_resume(
        &session,
        true,
        true,
        &ConfigRead::Bytes(cli_fixture().remove(3).1),
    );
    let command = approve_command(&status, provider.build_resume_command(&session)).expect("it is ready");
    let execution = match decide_resume(&command, true, false) {
        ResumeDecision::Finished(result) => result.expect("a dry run succeeds"),
        ResumeDecision::Run => panic!("a dry run runs nothing"),
    };
    let uri = navigation_uri(no_open_in_app, provider.build_app_uri(&session));
    let conclusion = conclude_resume(&session.id, &execution, uri);
    assert_eq!(conclusion.exit_code, 0);
    conclusion.stdout
}

#[test]
fn resume_dry_run_prints_official_command() {
    assert_eq!(
        dry_run(false).trim(),
        format!("将执行: codex resume {SESSION_ID}\n恢复成功后将打开: codex://threads/{SESSION_ID}")
    );
}

#[test]
fn resume_can_disable_app_navigation() {
    assert_eq!(dry_run(true).trim(), format!("将执行: codex resume {SESSION_ID}"));
}

#[test]
fn resume_rejects_missing_session() {
    let error = find_session(&cli_catalog(), "00000000-0000-0000-0000-000000000000").expect_err("no such session");
    assert!(error.message().contains("未找到会话"));
}

#[test]
fn doctor_and_sources_tell_about_codex() {
    let provider = CodexProvider::with_home(HOME, false);
    let config = cli_fixture().remove(3).1;
    let found = provider.diagnose(&DiagnoseFacts {
        cli_available: true,
        config: ConfigRead::Bytes(config),
        session_count: 2,
    });
    let messages: Vec<&str> = found.iter().map(|item| item.message.as_str()).collect();
    assert_eq!(
        messages,
        [
            "已找到 Codex CLI",
            "配置 TOML 有效，默认 provider: custom，已定义 1 个 provider",
            "已找到 2 个 Codex 会话文件: /codex"
        ]
    );
    assert!(found.iter().all(|item| item.severity == DiagnosticSeverity::Info));
    let found = provider.diagnose(&DiagnoseFacts {
        cli_available: false,
        config: ConfigRead::Missing,
        session_count: 0,
    });
    assert_eq!(found[0].severity, DiagnosticSeverity::Error);
    assert_eq!(found[1].message, "配置文件不存在: /codex/config.toml");
    assert_eq!(found[2].message, "未找到 Codex 会话目录: /codex");
    let found = provider.diagnose(&DiagnoseFacts {
        cli_available: true,
        config: ConfigRead::Bytes(b"= broken".to_vec()),
        session_count: 1,
    });
    assert_eq!(found[1].message, "配置文件无法解析: /codex/config.toml");
    assert_eq!(found[1].severity, DiagnosticSeverity::Error);
    let descriptor = provider.descriptor();
    assert_eq!(descriptor.id.as_str(), "codex");
    assert_eq!(descriptor.capabilities.len(), 5);
    assert_eq!(descriptor.capabilities[0], ProviderCapability::Scan);
}

#[test]
fn doctor_sources_and_completion_are_available() {
    let provider = CodexProvider::with_home(HOME, false);
    let config = cli_fixture().remove(3).1;
    let found = provider.diagnose(&DiagnoseFacts {
        cli_available: true,
        config: ConfigRead::Bytes(config),
        session_count: 2,
    });
    let diagnostics = all_diagnostics(vec![found], diagnostic(true));
    assert_eq!(doctor_exit_code(&diagnostics), 0);
    assert_eq!(diagnostics.len(), 4);

    let sources = [provider.descriptor()];
    assert_eq!(sources[0].id.as_str(), "codex");
}

#[test]
fn home_comes_from_the_configuration_or_the_user() {
    let found = CodexProvider::discover(Some("/a"), Some("/u"), false).expect("configured");
    assert_eq!(found.home(), "/a");
    assert_eq!(found.cli_program(), "codex");
    let found = CodexProvider::discover(Some(""), Some("/u"), false).expect("that of the user");
    assert_eq!(found.home(), "/u/.codex");
    assert_eq!(found.session_roots(), ["/u/.codex/sessions", "/u/.codex/archived_sessions"]);
    let found = CodexProvider::discover(None, Some(r"C:\Users\me"), true).expect("that of the user");
    assert_eq!(found.home(), r"C:\Users\me\.codex");
    assert_eq!(found.config_path(), r"C:\Users\me\.codex\config.toml");
    let error = CodexProvider::discover(None, None, false).expect_err("no home");
    assert_eq!(error.message(), "配置错误: 无法确定用户主目录，请设置 CODEX_HOME");
}

#[test]
fn file_names_hold_ids() {
    let id = session_id_from_filename("/x/rollout-2026-07-10T11-21-49-019F4A0B-A42E-7103-AC37-2CEFFC73CB52.jsonl", false);
    assert_eq!(id.as_deref(), Some(SESSION_ID));
    assert_eq!(session_id_from_filename("/x/rollout-019f4a0b.jsonl", false), None);
    assert_eq!(session_id_from_filename(&format!("{SESSION_ID}.jsonl"), false).as_deref(), Some(SESSION_ID));
    assert_eq!(
        session_id_from_filename("/x/rollout-zzzz4a0b-a42e-7103-ac37-2ceffc73cb52.jsonl", false),
        None
    );
    assert_eq!(session_id_from_filename("/", false), None);
    assert!(is_session_file("/x/a.jsonl", true, false));
    assert!(!is_session_file("/x/a.jsonl", false, false));
    assert!(!is_session_file("/x/a.JSONL", true, false));
    assert!(!is_session_file("/x/.jsonl", true, false));
    let odd = r"abc\019f4a0ba42e7103ac372ceffc73cb52.jsonl";
    assert_eq!(session_id_from_filename(odd, false), None);
    assert_eq!(session_id_from_filename(odd, true).as_deref(), Some(SESSION_ID));
}

#[test]
fn ids_of_every_form_are_accepted_and_others_are_not() {
    let provider = CodexProvider::with_home(HOME, false);
    let mut session = scan(&provider, &fixture(&valid_session()), true).sessions.remove(0);
    let mut accepted = |id: &str| {
        session.id = id.to_owned();
        provider.build_resume_command(&session).is_ok()
    };
    assert!(accepted("019f4a0ba42e7103ac372ceffc73cb52"));
    assert!(accepted("019F4A0B-a42e-7103-ac37-2ceffc73cb52"));
    assert!(accepted("{019f4a0b-a42e-7103-ac37-2ceffc73cb52}"));
    assert!(accepted("urn:uuid:019f4a0b-a42e-7103-ac37-2ceffc73cb52"));
    assert!(!accepted("019f4a0b-a42e-7103-ac372-ceffc73cb52"));
    assert!(!accepted("urn-uuid:019f4a0b-a42e-7103-ac37-2ceffc73cb52"));
    assert!(!accepted("{019f4a0ba42e7103ac372ceffc73cb52}"));
    assert!(accepted("URN:uuid:019f4a0b-a42e-7103-ac37-2ceffc73cb52"));
    assert!(!accepted("{019f4a0b-a42e-7103-ac37-2ceffc73cb52"));
    assert!(!accepted("019f4a0b-a42e-7103-ac37-2ceffc73cb5g"));
    assert!(!accepted("019f4a0b-a42e-7103-ac37-2ceffc73cb5"));
    assert!(!accepted("(019f4a0b-a42e-7103-ac37-2ceffc73cb52)"));
    assert!(!accepted("0 9f4a0ba42e7103ac372ceffc73cb52"));
    assert!(!accepted("019f4a0b-a42e-7103-ac37-2ceffc73cb中"));
    assert!(!accepted(""));
}

#[test]
fn secrets_are_blotted_out() {
    assert_eq!(redact("API_KEY : abc.def next"), "API_KEY=[REDACTED] next");
    assert_eq!(redact("use bearer  a.b-c now"), "use Bearer [REDACTED] now");
    assert_eq!(redact("key sk-abcdefghijkl end"), "key [REDACTED] end");
    assert_eq!(redact("key sk-short end"), "key sk-short end");
    assert_eq!(sanitize_text(" a \n\t b ", 10).as_deref(), Some("a b"));
    assert_eq!(sanitize_text(" \n ", 10), None);
    assert_eq!(sanitize_text("abcdef", 3).as_deref(), Some("abc…"));
    assert_eq!(sanitize_text("password=hunter2", 100).as_deref(), Some("password=[REDACTED]"));
}

#[test]
fn broken_lines_are_reported_with_their_numbers() {
    let mut warnings = Vec::new();
    let bytes = b"{\"a\":1}\n\n  \nnope\n\xff\n[1,{\"b\":\"x\"}]".to_vec();
    let records = read_jsonl("f", &FileRead::Read { bytes, error: None }, &mut warnings);
    assert_eq!(records.len(), 2);
    assert!(records[0].field("a").is_some());
    assert!(records[1].field("b").is_none());
    assert_eq!(warnings.len(), 3);
    assert_eq!(warnings[0].kind, WarningKind::InvalidRecord);
    assert_eq!(warnings[0].line, Some(3));
    assert_eq!(warnings[0].path.as_deref(), Some("f"));
    assert_eq!(warnings[1].kind, WarningKind::InvalidRecord);
    assert_eq!(warnings[1].line, Some(4));
    assert_eq!(warnings[2].kind, WarningKind::InvalidUtf8);
    assert_eq!(warnings[2].line, Some(5));
}

#[test]
fn a_read_that_breaks_off_keeps_what_was_read() {
    let mut warnings = Vec::new();
    let read = FileRead::Read { bytes: b"{}\n{}".to_vec(), error: Some("e".to_owned()) };
    let records = read_jsonl("f", &read, &mut warnings);
    assert_eq!(records.len(), 1);
    assert_eq!(warnings.len(), 1);
    assert_eq!(warnings[0].kind, WarningKind::Io);
    let records = read_jsonl("f", &FileRead::Unreadable { reason: "r".to_owned() }, &mut warnings);
    assert!(records.is_empty());
    assert_eq!(warnings.len(), 2);
    assert_eq!(warnings[1].kind, WarningKind::Io);
}

#[test]
fn summaries_are_read_again() {
    let provider = CodexProvider::with_home(HOME, false);
    let facts = || FileFacts {
        modified_at: None,
        is_file: true,
        cli_available: true,
        now: instant(3),
        windows: false,
    };
    let path = session_path(SESSION_ID);
    let body = read(valid_session().as_bytes());
    let summary = provider.read_summary(&path, &body, &None, facts()).expect("it can be read");
    assert_eq!(summary.summary.as_deref(), Some("实现扫描 token=[REDACTED]，保持安全"));
    let error = provider
        .read_summary("/x/none.jsonl", &read(b""), &None, facts())
        .expect_err("no session");
    assert!(matches!(error, ProviderError::InvalidData { .. }));
}

#[test]
fn a_session_of_an_undefined_provider_is_not_ready() {
    let provider = CodexProvider::with_home(HOME, false);
    let mut files = cli_fixture();
    files[3].1 = b"model_provider = \"other\"\n".to_vec();
    let report = scan(&provider, &files, true);
    assert_eq!(report.sessions[0].resume.state, ResumeState::ProviderMissing);
    let session = &report.sessions[0];
    let config = ConfigRead::Bytes(files.remove(3).1);
    assert_eq!(
        provider.check_resume(session, false, true, &config).state,
        ResumeState::SessionMissing
    );
    assert_eq!(provider.check_resume(session, true, false, &config).state, ResumeState::CliMissing);
    assert_eq!(
        provider.check_resume(session, true, true, &config).state,
        ResumeState::ProviderMissing
    );
}

#[test]
fn walk_errors_do_not_stop_a_scan() {
    let provider = CodexProvider::with_home(HOME, false);
    let scan = provider.begin_scan(&None, true).walk_failed("/codex/sessions", "denied");
    let path = session_path(SESSION_ID);
    let scan = scan.add_file(&path, &read(valid_session().as_bytes()), None, true, instant(9));
    let scan = scan.add_file("/codex/sessions/x.jsonl", &read(b"{}\n"), None, true, instant(9));
    let report = scan.finish("/codex/config.toml", &ConfigRead::Missing);
    assert_eq!(report.sessions.len(), 1);
    assert_eq!(report.warnings[0].message, "无法遍历 Codex 会话目录: denied");
    assert_eq!(report.warnings[0].path.as_deref(), Some("/codex/sessions"));
    assert!(report.warnings.len() >= 2);
}
