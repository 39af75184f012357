//! The registry of sources.

use agentmux::app::AppError;
use agentmux::dispatch::{describe_all, diagnose_all, prepare_resume_command, resumed_uri, source_of};
use agentmux::domain::{
    CommandSpec, Diagnostic, DiagnosticSeverity, InteractionType, ProviderCapability, RepairOptions, ResumeState,
    ResumeStatus, ScanReport, Session, SessionSummary, SourceDescriptor, SourceId, WarningKind,
};
use agentmux::provider::{combine_scans, ProviderError, ProviderRegistry, ScanOutcome, SessionProvider};
use agentmux::time::Timestamp;

struct MockProvider {
    id: &'static str,
    fail: bool,
}

impl SessionProvider for MockProvider {
    fn descriptor(&self) -> SourceDescriptor {
        SourceDescriptor {
            id: SourceId::new(self.id),
            display_name: self.id.to_owned(),
            description: "测试来源".to_owned(),
            capabilities: vec![ProviderCapability::Scan],
        }
    }

    fn scan_sessions(&self) -> Result<ScanReport, ProviderError> {
        if self.fail {
            return Err(ProviderError::Config { message: "模拟失败".to_owned() });
        }
        let time = chrono::Utc::now();
        let now = Timestamp::new(time.timestamp(), 0).expect("on the calendar");
        Ok(ScanReport {
            sessions: vec![Session {
                id: format!("{}-session", self.id),
                source: SourceId::new(self.id),
                title: None,
                summary: None,
                cwd: None,
                project: "unknown".to_owned(),
                created_at: now,
                updated_at: now,
                model: None,
                model_provider: None,
                interaction: InteractionType::Unknown,
                raw_path: "mock.jsonl".to_owned(),
                warnings: Vec::new(),
                resume: ResumeStatus::blocked(ResumeState::Unsupported, "测试来源"),
            }],
            warnings: Vec::new(),
        })
    }

    fn read_summary(&self, _raw_path: &str) -> Result<SessionSummary, ProviderError> {
        Ok(SessionSummary { title: None, summary: None })
    }

    fn check_resume(&self, _session: &Session) -> Result<ResumeStatus, ProviderError> {
        Ok(ResumeStatus::blocked(ResumeState::Unsupported, "测试来源"))
    }

    fn build_resume_command(&self, _session: &Session) -> Result<CommandSpec, ProviderError> {
        Err(ProviderError::Unsupported { provider_id: SourceId::new(self.id), operation: "恢复" })
    }

    fn diagnose(&self) -> Vec<Diagnostic> {
        vec![Diagnostic::plain("mock", DiagnosticSeverity::Info, "正常")]
    }
}

#[test]
fn registry_isolates_provider_failures() {
    let mut registry = ProviderRegistry::new();
    registry.register(MockProvider { id: "healthy", fail: false });
    registry.register(MockProvider { id: "broken", fail: true });

    let report = registry.scan_all();
    assert_eq!(report.sessions.len(), 1);
    assert_eq!(report.warnings.len(), 1);
    assert_eq!(report.sessions[0].id, "healthy-session");
}

#[test]
fn registry_finds_sources_by_id() {
    let mut registry = ProviderRegistry::default();
    assert!(registry.get(&SourceId::new("a")).is_none());
    registry.register(MockProvider { id: "a", fail: false });
    registry.register(MockProvider { id: "b", fail: true });
    let found = registry.get(&SourceId::new("b")).expect("it is registered");
    assert_eq!(found.provider.descriptor().id.as_str(), "b");
    assert!(registry.get(&SourceId::new("c")).is_none());
    let ids: Vec<String> = registry
        .providers()
        .iter()
        .map(|entry| entry.provider.descriptor().display_name)
        .collect();
    assert_eq!(ids, ["a", "b"]);
}

#[test]
fn sources_without_an_app_or_a_repair_say_so() {
    let provider = MockProvider { id: "a", fail: false };
    let session = provider.scan_sessions().expect("it is healthy").sessions.remove(0);
    assert!(matches!(provider.build_app_uri(&session), Ok(None)));
    let error = provider
        .repair_model_provider(&session, RepairOptions::default())
        .expect_err("not supported");
    assert_eq!(error.message(), "来源 a 不支持 模型提供商修复");
}

#[test]
fn a_failed_source_becomes_one_warning() {
    let report = combine_scans(vec![
        ScanOutcome::Failed {
            source: SourceId::new("broken"),
            error: ProviderError::Io { path: "p".to_owned(), source: "e".to_owned() },
        },
        ScanOutcome::Scanned(ScanReport::default()),
    ]);
    assert!(report.sessions.is_empty());
    assert_eq!(report.warnings.len(), 1);
    assert_eq!(report.warnings[0].kind, WarningKind::Provider);
    assert_eq!(report.warnings[0].message, "来源 broken 扫描失败: 无法访问 p: e");
}

#[test]
fn errors_tell_what_failed() {
    let data = ProviderError::InvalidData { path: "p".to_owned(), line: Some(1), reason: "r".to_owned() };
    assert_eq!(data.message(), "会话数据无效: r");
    let process = ProviderError::Process { program: "x".to_owned(), exit_code: None };
    assert_eq!(process.message(), "外部命令执行失败: x");
    let repair = ProviderError::Repair { message: "m".to_owned(), backup_path: None };
    assert_eq!(repair.message(), "配置修复失败: m");
    let config = ProviderError::Config { message: "m".to_owned() };
    assert_eq!(config.message(), "配置错误: m");
}

/// A source whose sessions can be resumed and opened.
struct ReadySource {
    id: &'static str,
    status: ResumeState,
}

impl SessionProvider for ReadySource {
    fn descriptor(&self) -> SourceDescriptor {
        MockProvider { id: self.id, fail: false }.descriptor()
    }

    fn scan_sessions(&self) -> Result<ScanReport, ProviderError> {
        MockProvider { id: self.id, fail: false }.scan_sessions()
    }

    fn read_summary(&self, _raw_path: &str) -> Result<SessionSummary, ProviderError> {
        Ok(SessionSummary { title: None, summary: None })
    }

    fn check_resume(&self, _session: &Session) -> Result<ResumeStatus, ProviderError> {
        Ok(ResumeStatus { state: self.status.clone(), message: None })
    }

    fn build_resume_command(&self, session: &Session) -> Result<CommandSpec, ProviderError> {
        Ok(CommandSpec::new(self.id, vec!["resume".to_owned(), session.id.clone()]))
    }

    fn build_app_uri(&self, session: &Session) -> Result<Option<String>, ProviderError> {
        Ok(Some(format!("{}://{}", self.id, session.id)))
    }

    fn diagnose(&self) -> Vec<Diagnostic> {
        vec![Diagnostic::plain(self.id, DiagnosticSeverity::Warning, "m")]
    }
}

fn mixed_registry() -> ProviderRegistry {
    let mut registry = ProviderRegistry::new();
    registry.register(MockProvider { id: "mock", fail: false });
    registry.register(ReadySource { id: "ready", status: ResumeState::Ready });
    registry.register(ReadySource { id: "blocked", status: ResumeState::Blocked });
    registry.register(ReadySource { id: "ready", status: ResumeState::Blocked });
    registry
}

fn session_of(source: &str) -> Session {
    let mut session = MockProvider { id: "mock", fail: false }
        .scan_sessions()
        .expect("it is healthy")
        .sessions
        .remove(0);
    session.id = "s".to_owned();
    session.source = SourceId::new(source);
    session
}

#[test]
fn commands_come_from_the_first_source_with_the_id() {
    let registry = mixed_registry();
    let command = prepare_resume_command(&registry, &session_of("ready")).expect("it is ready");
    assert_eq!(command.display(), "ready resume s");
    let error = prepare_resume_command(&registry, &session_of("blocked")).expect_err("it is blocked");
    assert!(matches!(error, AppError::NotResumable { .. }));
    assert_eq!(error.message(), "当前会话不可恢复");
    let error = prepare_resume_command(&registry, &session_of("mock")).expect_err("it is not supported");
    assert_eq!(error.message(), "测试来源");
    let error = prepare_resume_command(&registry, &session_of("none")).expect_err("no such source");
    assert_eq!(error.message(), "来源 none 未注册");
    assert!(source_of(&registry, &session_of("none")).is_err());
}

#[test]
fn uris_come_from_the_source_unless_switched_off() {
    let registry = mixed_registry();
    assert_eq!(
        resumed_uri(&registry, &session_of("ready"), false).as_deref(),
        Some("ready://s")
    );
    assert_eq!(resumed_uri(&registry, &session_of("ready"), true), None);
    assert_eq!(resumed_uri(&registry, &session_of("mock"), false), None);
    assert_eq!(resumed_uri(&registry, &session_of("none"), false), None);
}

#[test]
fn every_source_is_diagnosed_and_described() {
    let registry = mixed_registry();
    let navigation = Diagnostic::plain("navigation", DiagnosticSeverity::Info, "m");
    let names: Vec<String> = diagnose_all(&registry, navigation)
        .into_iter()
        .map(|item| item.name)
        .collect();
    assert_eq!(names, ["mock", "ready", "blocked", "ready", "navigation"]);
    let ids: Vec<String> = describe_all(&registry)
        .into_iter()
        .map(|item| item.id.as_str().to_owned())
        .collect();
    assert_eq!(ids, ["mock", "ready", "blocked", "ready"]);
}
