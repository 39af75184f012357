//! Local sessions of Codex: where they lie, how they are scanned and resumed, and what is checked.

pub mod config;
pub mod config_laws;
pub mod ids;
pub mod index;
pub mod laws;
pub mod metadata;
pub mod plan;
pub mod provider_laws;
pub mod record_laws;
pub mod records;
pub mod redact;
pub mod repair;
pub mod repair_laws;
pub mod scan;
pub mod scan_laws;
pub mod session_laws;
pub mod sessions;

use vstd::prelude::*;

use crate::domain::{
    CommandSpec, CommandView, DescriptorView, Diagnostic, DiagnosticSeverity, DiagnosticView, ProviderCapability,
    RepairOptions, ResumeStatus, Session, SessionSummary, SessionView, SourceDescriptor, SourceId, SummaryView,
};
use crate::model::{opt_view, or_text, text_or, views};
use crate::paths::{join, joined};
use crate::provider::{ErrorView, ProviderError};
use crate::text::{cat, cat4, cat5, chars_of, decimal, decimal_text, same_text, signed_decimal, signed_text};

use config::{config_tree, default_provider, inspect_config, is_valid_name, provider_total, ConfigRead, ConfigReadView};
use ids::{parse_uuid, session_id_from_filename, uuid_of};
use index::{index_in, index_warnings, read_index};
use records::FileRead;
use repair::{begun, config_directory, directory_of, EventView, Repair, RepairEvent};
use scan::{check_session, indexed_file, resume_check, scan_start, CodexScan};
use sessions::{parse_session_file, parsed, summary_of, take_summary, FileFacts, SOURCE_ID};

verus! {

/// The Codex source: its home directory and its CLI.
#[derive(Debug)]
pub struct CodexProvider {
    home: String,
    cli_program: String,
    windows: bool,
}

/// The model of a `CodexProvider`.
pub struct CodexView {
    pub home: Seq<char>,
    pub cli_program: Seq<char>,
    /// Whether paths are those of Windows.
    pub windows: bool,
}

impl View for CodexProvider {
    type V = CodexView;

    closed spec fn view(&self) -> CodexView {
        CodexView { home: self.home@, cli_program: self.cli_program@, windows: self.windows }
    }
}

impl Clone for CodexProvider {
    fn clone(&self) -> (r: CodexProvider)
        ensures
            r@ == self@,
    {
        CodexProvider {
            home: self.home.clone(),
            cli_program: self.cli_program.clone(),
            windows: self.windows,
        }
    }
}

/// The home directory of Codex: the one that is configured, unless it is empty, else `.codex` in
/// that of the user.
pub open spec fn codex_home(
    configured: Option<Seq<char>>,
    user_home: Option<Seq<char>>,
    windows: bool,
) -> Option<Seq<char>> {
    match configured {
        Some(path) if path.len() > 0 => Some(path),
        _ => match user_home {
            Some(path) => Some(joined(path, ".codex"@, windows)),
            None => None,
        },
    }
}

/// What is known of the source when it is diagnosed.
#[derive(Debug)]
pub struct DiagnoseFacts {
    /// Whether the CLI was found.
    pub cli_available: bool,
    /// What came of reading the configuration.
    pub config: ConfigRead,
    /// How many session files there are.
    pub session_count: usize,
}

/// The model of a `DiagnoseFacts`.
pub struct DiagnoseView {
    pub cli_available: bool,
    pub config: ConfigReadView,
    pub session_count: nat,
}

impl View for DiagnoseFacts {
    type V = DiagnoseView;

    open spec fn view(&self) -> DiagnoseView {
        DiagnoseView {
            cli_available: self.cli_available,
            config: self.config@,
            session_count: self.session_count as nat,
        }
    }
}

/// Whether the CLI is there.
pub open spec fn cli_diagnostic(cli_available: bool) -> DiagnosticView {
    if cli_available {
        DiagnosticView {
            name: "codex-cli"@,
            severity: DiagnosticSeverity::Info,
            message: "已找到 Codex CLI"@,
            suggestion: None,
        }
    } else {
        DiagnosticView {
            name: "codex-cli"@,
            severity: DiagnosticSeverity::Error,
            message: "未在 PATH 中找到 Codex CLI"@,
            suggestion: Some("安装 Codex CLI 后重新运行 agentmux doctor"@),
        }
    }
}

/// What is told about a configuration that can be read.
pub open spec fn config_message(default: Option<Seq<char>>, count: nat) -> Seq<char> {
    "配置 TOML 有效，默认 provider: "@ + or_text(default, "未设置"@) + "，已定义 "@ + decimal(
        count,
    ) + " 个 provider"@
}

/// What is told about a configuration that cannot be read.
pub open spec fn broken_config(path: Seq<char>) -> DiagnosticView {
    DiagnosticView {
        name: "codex-config"@,
        severity: DiagnosticSeverity::Error,
        message: "配置文件无法解析: "@ + path,
        suggestion: Some("修正 config.toml 后运行 codex --strict-config features list"@),
    }
}

/// Whether the configuration is in order.
pub open spec fn config_diagnostic(path: Seq<char>, read: ConfigReadView) -> DiagnosticView {
    match read {
        ConfigReadView::Missing => DiagnosticView {
            name: "codex-config"@,
            severity: DiagnosticSeverity::Warning,
            message: "配置文件不存在: "@ + path,
            suggestion: Some("先运行 codex 完成初始配置"@),
        },
        ConfigReadView::Unreadable { .. } => broken_config(path),
        ConfigReadView::Bytes(bytes) => match config_tree(path, bytes) {
            Ok(tree) => DiagnosticView {
                name: "codex-config"@,
                severity: DiagnosticSeverity::Info,
                message: config_message(default_provider(tree), provider_total(tree)),
                suggestion: None,
            },
            Err(_) => broken_config(path),
        },
    }
}

/// Whether there are sessions.
pub open spec fn sessions_diagnostic(home: Seq<char>, count: nat) -> DiagnosticView {
    if count > 0 {
        DiagnosticView {
            name: "codex-sessions"@,
            severity: DiagnosticSeverity::Info,
            message: "已找到 "@ + decimal(count) + " 个 Codex 会话文件: "@ + home,
            suggestion: None,
        }
    } else {
        DiagnosticView {
            name: "codex-sessions"@,
            severity: DiagnosticSeverity::Warning,
            message: "未找到 Codex 会话目录: "@ + home,
            suggestion: Some("先使用 Codex 创建至少一个本地会话"@),
        }
    }
}

/// Why no command or URI is made for the session `s`, if so: it is of another source, or its id is
/// no UUID.
pub open spec fn refusal(s: SessionView, operation: Seq<char>) -> Option<ErrorView> {
    if s.source != SOURCE_ID@ {
        Some(ErrorView::Unsupported { provider_id: SOURCE_ID@, operation })
    } else if uuid_of(s.id) is None {
        Some(
            ErrorView::InvalidData {
                path: s.raw_path,
                line: None,
                reason: "Codex 会话 ID 不是合法 UUID"@,
            },
        )
    } else {
        None
    }
}

/// What came of running the agent's own check of its configuration.
#[derive(Debug, Clone, Copy)]
pub enum CheckRun {
    /// There is no agent to run.
    NotFound,
    /// It could not be started.
    NotStarted,
    /// It ended, with this exit code where it ended by itself.
    Exited(Option<i32>),
}

/// What a repair makes of the agent's own check.
pub open spec fn check_event(run: CheckRun) -> EventView {
    match run {
        CheckRun::NotFound => EventView::Accepted { checked: false },
        CheckRun::NotStarted => EventView::Rejected("无法启动 Codex 严格配置校验"@),
        CheckRun::Exited(Some(0)) => EventView::Accepted { checked: true },
        CheckRun::Exited(code) => EventView::Rejected(
            "Codex 严格配置校验返回非零退出码 "@ + signed_decimal(
                match code {
                    Some(n) => n as int,
                    None => -1,
                },
            ),
        ),
    }
}

/// Tells a repair what came of the agent's own check.
pub fn check_outcome(run: CheckRun) -> (r: RepairEvent)
    ensures
        r@ == check_event(run),
{
    match run {
        CheckRun::NotFound => RepairEvent::Accepted { checked: false },
        CheckRun::NotStarted => RepairEvent::Rejected("无法启动 Codex 严格配置校验".to_owned()),
        CheckRun::Exited(Some(0)) => RepairEvent::Accepted { checked: true },
        CheckRun::Exited(code) => {
            let shown: i32 = match code {
                Some(n) => n,
                None => -1,
            };
            let digits = signed_text(shown as i64);
            RepairEvent::Rejected(
                cat("Codex 严格配置校验返回非零退出码 ", digits.as_str()),
            )
        },
    }
}

impl CodexProvider {
    /// Finds the home directory: `configured`, unless it is empty, else `.codex` in that of the user.
    pub fn discover(configured: Option<&str>, user_home: Option<&str>, windows: bool) -> (r: Result<
        CodexProvider,
        ProviderError,
    >)
        ensures
            match codex_home(opt_view(configured), opt_view(user_home), windows) {
                Some(home) => r matches Ok(provider) && provider@ == (CodexView {
                    home,
                    cli_program: "codex"@,
                    windows,
                }),
                None => r matches Err(e) && e@ == (ErrorView::Config {
                    message: "无法确定用户主目录，请设置 CODEX_HOME"@,
                }),
            },
    {
        if let Some(path) = configured {
            if chars_of(path).len() > 0 {
                return Ok(CodexProvider::with_home(path, windows));
            }
        }
        match user_home {
            Some(path) => Ok(
                CodexProvider::with_home(join(path, ".codex", windows).as_str(), windows),
            ),
            None => Err(
                ProviderError::Config {
                    message: "无法确定用户主目录，请设置 CODEX_HOME".to_owned(),
                },
            ),
        }
    }

    /// The source with this home directory and the CLI `codex`.
    pub fn with_home(home: &str, windows: bool) -> (r: CodexProvider)
        ensures
            r@ == (CodexView { home: home@, cli_program: "codex"@, windows }),
    {
        CodexProvider { home: home.to_owned(), cli_program: "codex".to_owned(), windows }
    }

    /// The same source with another CLI.
    pub fn with_cli_program(self, program: &str) -> (r: CodexProvider)
        ensures
            r@ == (CodexView { cli_program: program@, ..self@ }),
    {
        CodexProvider { home: self.home, cli_program: program.to_owned(), windows: self.windows }
    }

    /// The home directory.
    pub fn home(&self) -> (r: &str)
        ensures
            r@ == self@.home,
    {
        self.home.as_str()
    }

    /// The CLI.
    pub fn cli_program(&self) -> (r: &str)
        ensures
            r@ == self@.cli_program,
    {
        self.cli_program.as_str()
    }

    /// The configuration file.
    pub fn config_path(&self) -> (r: String)
        ensures
            r@ == joined(self@.home, "config.toml"@, self@.windows),
    {
        join(self.home.as_str(), "config.toml", self.windows)
    }

    /// The session index; sessions are scanned without it too.
    pub fn session_index_path(&self) -> (r: String)
        ensures
            r@ == joined(self@.home, "session_index.jsonl"@, self@.windows),
    {
        join(self.home.as_str(), "session_index.jsonl", self.windows)
    }

    /// The directories of current and archived sessions, in this order.
    pub fn session_roots(&self) -> (r: [String; 2])
        ensures
            r@[0]@ == joined(self@.home, "sessions"@, self@.windows),
            r@[1]@ == joined(self@.home, "archived_sessions"@, self@.windows),
    {
        [
            join(self.home.as_str(), "sessions", self.windows),
            join(self.home.as_str(), "archived_sessions", self.windows),
        ]
    }

    /// The id of the source, its description and what it can do.
    pub fn descriptor(&self) -> (r: SourceDescriptor)
        ensures
            r@ == (DescriptorView {
                id: SOURCE_ID@,
                display_name: "OpenAI Codex"@,
                description: "扫描 Codex JSONL 会话并通过官方 codex resume 恢复"@,
                capabilities: seq![
                    ProviderCapability::Scan,
                    ProviderCapability::Summary,
                    ProviderCapability::Resume,
                    ProviderCapability::Diagnose,
                    ProviderCapability::RepairProvider,
                ],
            }),
    {
        let mut capabilities: Vec<ProviderCapability> = Vec::new();
        capabilities.push(ProviderCapability::Scan);
        capabilities.push(ProviderCapability::Summary);
        capabilities.push(ProviderCapability::Resume);
        capabilities.push(ProviderCapability::Diagnose);
        capabilities.push(ProviderCapability::RepairProvider);
        proof {
            assert(capabilities@ =~= seq![
                ProviderCapability::Scan,
                ProviderCapability::Summary,
                ProviderCapability::Resume,
                ProviderCapability::Diagnose,
                ProviderCapability::RepairProvider,
            ]);
        }
        SourceDescriptor {
            id: SourceId::new(SOURCE_ID),
            display_name: "OpenAI Codex".to_owned(),
            description: "扫描 Codex JSONL 会话并通过官方 codex resume 恢复".to_owned(),
            capabilities,
        }
    }

    /// Begins a scan, given what came of reading the index file, where there is one.
    pub fn begin_scan(&self, index: &Option<FileRead>, cli_available: bool) -> (r: CodexScan)
        ensures
            r@ == scan_start(
                index_in(opt_view(*index)),
                index_warnings(joined(self@.home, "session_index.jsonl"@, self@.windows), opt_view(*index)),
                cli_available,
                self@.windows,
            ),
    {
        let (entries, warnings) = read_index(self.session_index_path().as_str(), index);
        CodexScan::begin(entries, warnings, cli_available, self.windows)
    }

    /// Reads the redacted title and summary of one session file, given what came of reading the
    /// index file, where there is one.
    pub fn read_summary(
        &self,
        raw_path: &str,
        read: &FileRead,
        index: &Option<FileRead>,
        facts: FileFacts,
    ) -> (r: Result<SessionSummary, ProviderError>)
        ensures
            ({
                let wanted = summary_of(
                    raw_path@,
                    parsed(
                        raw_path@,
                        read@,
                        indexed_file(index_in(opt_view(*index)), raw_path@, facts@.windows),
                        facts@,
                    ),
                );
                match r {
                    Ok(summary) => wanted == Ok::<SummaryView, ErrorView>(summary@),
                    Err(e) => wanted == Err::<SummaryView, ErrorView>(e@),
                }
            }),
    {
        let (entries, _) = read_index(self.session_index_path().as_str(), index);
        let entry = match session_id_from_filename(raw_path, facts.windows) {
            Some(id) => entries.get(id.as_str()),
            None => None,
        };
        take_summary(raw_path, parse_session_file(raw_path, read, entry, facts))
    }

    /// Checks whether a session can be resumed, given whether its file and the CLI are there and what
    /// came of reading the configuration.
    pub fn check_resume(
        &self,
        session: &Session,
        is_file: bool,
        cli_available: bool,
        config: &ConfigRead,
    ) -> (r: ResumeStatus)
        ensures
            r@ == resume_check(
                session@,
                is_file,
                cli_available,
                joined(self@.home, "config.toml"@, self@.windows),
                config@,
            ),
    {
        check_session(session, is_file, cli_available, self.config_path().as_str(), config)
    }

    fn refuse(&self, session: &Session, operation: &'static str) -> (r: Option<ProviderError>)
        ensures
            opt_view(r) == refusal(session@, operation@),
    {
        if !same_text(session.source.as_str(), SOURCE_ID) {
            return Some(
                ProviderError::Unsupported { provider_id: SourceId::new(SOURCE_ID), operation },
            );
        }
        if parse_uuid(session.id.as_str()).is_none() {
            return Some(
                ProviderError::InvalidData {
                    path: session.raw_path.clone(),
                    line: None,
                    reason: "Codex 会话 ID 不是合法 UUID".to_owned(),
                },
            );
        }
        None
    }

    /// Makes the official command that resumes a session, without reading or replaying what it holds.
    pub fn build_resume_command(&self, session: &Session) -> (r: Result<CommandSpec, ProviderError>)
        ensures
            match refusal(session@, "恢复其他来源会话"@) {
                Some(e) => r matches Err(error) && error@ == e,
                None => r matches Ok(command) && command@ == (CommandView {
                    program: self@.cli_program,
                    args: seq!["resume"@, session@.id],
                }),
            },
    {
        if let Some(error) = self.refuse(session, "恢复其他来源会话") {
            return Err(error);
        }
        let mut args: Vec<String> = Vec::new();
        args.push("resume".to_owned());
        args.push(session.id.clone());
        proof {
            assert(views(args@) =~= seq!["resume"@, session@.id]);
        }
        Ok(CommandSpec::new(self.cli_program.as_str(), args))
    }

    /// Makes the URI that opens a session in the desktop app.
    pub fn build_app_uri(&self, session: &Session) -> (r: Result<Option<String>, ProviderError>)
        ensures
            match refusal(session@, "打开其他来源会话"@) {
                Some(e) => r matches Err(error) && error@ == e,
                None => r matches Ok(Some(uri)) && uri@ == "codex://threads/"@ + session@.id,
            },
    {
        if let Some(error) = self.refuse(session, "打开其他来源会话") {
            return Err(error);
        }
        Ok(Some(cat("codex://threads/", session.id.as_str())))
    }

    fn diagnose_config(&self, read: &ConfigRead) -> (r: Diagnostic)
        ensures
            r@ == config_diagnostic(joined(self@.home, "config.toml"@, self@.windows), read@),
    {
        let path = self.config_path();
        let broken = Diagnostic::advised(
            "codex-config",
            DiagnosticSeverity::Error,
            cat("配置文件无法解析: ", path.as_str()).as_str(),
            "修正 config.toml 后运行 codex --strict-config features list",
        );
        match read {
            ConfigRead::Missing => Diagnostic::advised(
                "codex-config",
                DiagnosticSeverity::Warning,
                cat("配置文件不存在: ", path.as_str()).as_str(),
                "先运行 codex 完成初始配置",
            ),
            ConfigRead::Unreadable { .. } => broken,
            ConfigRead::Bytes(bytes) => match inspect_config(path.as_str(), bytes) {
                Ok(summary) => {
                    let count = decimal_text(summary.provider_count as u64);
                    let message = cat5(
                        "配置 TOML 有效，默认 provider: ",
                        text_or(&summary.default_provider, "未设置"),
                        "，已定义 ",
                        count.as_str(),
                        " 个 provider",
                    );
                    Diagnostic::plain("codex-config", DiagnosticSeverity::Info, message.as_str())
                },
                Err(_) => broken,
            },
        }
    }

    /// Checks the CLI, the configuration and the sessions, in this order.
    pub fn diagnose(&self, facts: &DiagnoseFacts) -> (r: Vec<Diagnostic>)
        ensures
            views(r@) == seq![
                cli_diagnostic(facts@.cli_available),
                config_diagnostic(joined(self@.home, "config.toml"@, self@.windows), facts@.config),
                sessions_diagnostic(self@.home, facts@.session_count),
            ],
    {
        let cli = if facts.cli_available {
            Diagnostic::plain("codex-cli", DiagnosticSeverity::Info, "已找到 Codex CLI")
        } else {
            Diagnostic::advised(
                "codex-cli",
                DiagnosticSeverity::Error,
                "未在 PATH 中找到 Codex CLI",
                "安装 Codex CLI 后重新运行 agentmux doctor",
            )
        };
        let config = self.diagnose_config(&facts.config);
        let sessions = if facts.session_count > 0 {
            let count = decimal_text(facts.session_count as u64);
            let message = cat4(
                "已找到 ",
                count.as_str(),
                " 个 Codex 会话文件: ",
                self.home.as_str(),
            );
            Diagnostic::plain("codex-sessions", DiagnosticSeverity::Info, message.as_str())
        } else {
            Diagnostic::advised(
                "codex-sessions",
                DiagnosticSeverity::Warning,
                cat("未找到 Codex 会话目录: ", self.home.as_str()).as_str(),
                "先使用 Codex 创建至少一个本地会话",
            )
        };
        let mut r: Vec<Diagnostic> = Vec::new();
        r.push(cli);
        r.push(config);
        r.push(sessions);
        proof {
            assert(views(r@) =~= seq![
                cli_diagnostic(facts@.cli_available),
                config_diagnostic(joined(self@.home, "config.toml"@, self@.windows), facts@.config),
                sessions_diagnostic(self@.home, facts@.session_count),
            ]);
        }
        r
    }

    /// Begins a repair that gives the model provider of a session as an alias to the default one.
    pub fn repair_model_provider(&self, session: &Session, options: RepairOptions) -> (r: Result<
        Repair,
        ProviderError,
    >)
        ensures
            match session@.model_provider {
                Some(alias) => match r {
                    Ok(repair) => options.confirmed && is_valid_name(alias) && repair@ == begun(
                        joined(self@.home, "config.toml"@, self@.windows),
                        directory_of(joined(self@.home, "config.toml"@, self@.windows), self@.windows),
                        alias,
                    ),
                    Err(e) => if !options.confirmed {
                        e@ == (ErrorView::Config { message: "provider 修复尚未确认"@ })
                    } else {
                        !is_valid_name(alias) && e@ == (ErrorView::Config {
                            message: "历史 provider 名称包含不支持的字符"@,
                        })
                    },
                },
                None => r matches Err(e) && e@ == (ErrorView::Config {
                    message: "会话历史未记录 model_provider，无法创建兼容别名"@,
                }),
            },
    {
        let config_path = self.config_path();
        match &session.model_provider {
            Some(alias) => Repair::start(
                config_path.as_str(),
                config_directory(config_path.as_str(), self.windows).as_str(),
                alias.as_str(),
                options.confirmed,
            ),
            None => Err(
                ProviderError::Config {
                    message: "会话历史未记录 model_provider，无法创建兼容别名".to_owned(),
                },
            ),
        }
    }

    /// The agent's own check of its configuration.
    pub fn validation_command(&self) -> (r: CommandSpec)
        ensures
            r@ == (CommandView {
                program: self@.cli_program,
                args: seq!["--strict-config"@, "features"@, "list"@],
            }),
    {
        let mut args: Vec<String> = Vec::new();
        args.push("--strict-config".to_owned());
        args.push("features".to_owned());
        args.push("list".to_owned());
        proof {
            assert(views(args@) =~= seq!["--strict-config"@, "features"@, "list"@]);
        }
        CommandSpec::new(self.cli_program.as_str(), args)
    }
}

} // verus!
