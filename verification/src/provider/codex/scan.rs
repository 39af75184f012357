//! A scan of session files, one file at a time.

use vstd::prelude::*;

use crate::catalog::{newest_first, sort_newest_first};
use crate::domain::{
    blocked_status, copy_warnings, ready_status, ReportView, ResumeState, ResumeStatus, ScanReport, ScanWarning, Session,
    SessionView, StatusView, WarningKind, WarningView,
};
use crate::model::{lemma_views_add, lemma_views_push, opt_view, views};
use crate::paths::{has_extension, path_extension};
use crate::text::{cat, cat3, same_text};

use super::config::{exists_in, provider_exists, ConfigRead, ConfigReadView};
use super::ids::{filename_id, session_id_from_filename};
use super::index::{indexed, IndexView, SessionIndex};
use super::records::{file_warning, FileRead, FileReadView};
use super::sessions::{file_status, parse_session_file, parsed, resume_status, FactsView, FileFacts, SOURCE_ID};

verus! {

/// Whether a directory entry is a session file.
pub fn is_session_file(path: &str, is_file: bool, windows: bool) -> (r: bool)
    ensures
        r == (is_file && path_extension(path@, windows) == Some("jsonl"@)),
{
    is_file && has_extension(path, "jsonl", windows)
}

/// Whether a session of the source `source` can be resumed, given whether its file and the CLI are
/// there, the model provider it names, and whether that is defined, where that is known.
pub open spec fn judged(
    source: Seq<char>,
    is_file: bool,
    cli_available: bool,
    provider: Option<Seq<char>>,
    defined: Option<bool>,
) -> StatusView {
    if source != SOURCE_ID@ {
        blocked_status(ResumeState::Unsupported, "会话不属于 Codex 来源"@)
    } else if !is_file || !cli_available {
        file_status(is_file, cli_available)
    } else {
        match (provider, defined) {
            (None, _) => ready_status(),
            (Some(_), Some(true)) => ready_status(),
            (Some(name), Some(false)) => blocked_status(
                ResumeState::ProviderMissing,
                "历史 provider "@ + name
                    + " 未在 config.toml 中定义；使用 --repair-provider 显式修复"@,
            ),
            (Some(_), None) => blocked_status(
                ResumeState::Blocked,
                "Codex config.toml 无法解析，请先运行 agentmux doctor"@,
            ),
        }
    }
}

/// Whether the configuration that `read` came of defines `provider`, where that is known.
pub open spec fn known_in(path: Seq<char>, read: ConfigReadView, provider: Option<Seq<char>>) -> Option<bool> {
    match provider {
        Some(name) => match exists_in(path, read, name) {
            Ok(found) => Some(found),
            Err(_) => None,
        },
        None => None,
    }
}

/// Whether the session `s` can be resumed.
pub open spec fn resume_check(
    s: SessionView,
    is_file: bool,
    cli_available: bool,
    config_path: Seq<char>,
    config: ConfigReadView,
) -> StatusView {
    judged(
        s.source,
        is_file,
        cli_available,
        s.model_provider,
        known_in(config_path, config, s.model_provider),
    )
}

/// Judges whether a session can be resumed, given whether its model provider is defined, where that
/// is known.
pub fn judge_resume(
    session: &Session,
    is_file: bool,
    cli_available: bool,
    defined: Option<bool>,
) -> (r: ResumeStatus)
    ensures
        r@ == judged(
            session@.source,
            is_file,
            cli_available,
            session@.model_provider,
            defined,
        ),
{
    if !same_text(session.source.as_str(), SOURCE_ID) {
        return ResumeStatus::blocked(ResumeState::Unsupported, "会话不属于 Codex 来源");
    }
    if !is_file || !cli_available {
        return resume_status(is_file, cli_available);
    }
    match &session.model_provider {
        Some(name) => match defined {
            Some(true) => ResumeStatus::ready(),
            Some(false) => {
                let message = cat3(
                    "历史 provider ",
                    name.as_str(),
                    " 未在 config.toml 中定义；使用 --repair-provider 显式修复",
                );
                ResumeStatus::blocked(ResumeState::ProviderMissing, message.as_str())
            },
            None => ResumeStatus::blocked(
                ResumeState::Blocked,
                "Codex config.toml 无法解析，请先运行 agentmux doctor",
            ),
        },
        None => ResumeStatus::ready(),
    }
}

/// Checks whether a session can be resumed.
pub fn check_session(
    session: &Session,
    is_file: bool,
    cli_available: bool,
    config_path: &str,
    config: &ConfigRead,
) -> (r: ResumeStatus)
    ensures
        r@ == resume_check(session@, is_file, cli_available, config_path@, config@),
{
    let defined = match &session.model_provider {
        Some(name) => match provider_exists(config_path, config, name.as_str()) {
            Ok(found) => Some(found),
            Err(_) => None,
        },
        None => None,
    };
    judge_resume(session, is_file, cli_available, defined)
}

/// A scan under way.
#[derive(Debug)]
pub struct CodexScan {
    index: SessionIndex,
    cli_available: bool,
    windows: bool,
    sessions: Vec<Session>,
    present: Vec<bool>,
    warnings: Vec<ScanWarning>,
}

/// The model of a `CodexScan`.
pub struct ScanState {
    /// What the index says.
    pub index: Seq<(Seq<char>, IndexView)>,
    /// Whether the CLI was found.
    pub cli_available: bool,
    /// Whether paths are those of Windows.
    pub windows: bool,
    /// The sessions so far.
    pub sessions: Seq<SessionView>,
    /// Whether the file of each is there.
    pub present: Seq<bool>,
    /// The warnings so far.
    pub warnings: Seq<WarningView>,
}

impl View for CodexScan {
    type V = ScanState;

    closed spec fn view(&self) -> ScanState {
        ScanState {
            index: self.index@,
            cli_available: self.cli_available,
            windows: self.windows,
            sessions: views(self.sessions@),
            present: self.present@,
            warnings: views(self.warnings@),
        }
    }
}

/// A scan that has seen no file.
pub open spec fn scan_start(
    index: Seq<(Seq<char>, IndexView)>,
    warnings: Seq<WarningView>,
    cli_available: bool,
    windows: bool,
) -> ScanState {
    ScanState {
        index,
        cli_available,
        windows,
        sessions: Seq::empty(),
        present: Seq::empty(),
        warnings,
    }
}

/// What the index says about the session in the file `path`.
pub open spec fn indexed_file(
    index: Seq<(Seq<char>, IndexView)>,
    path: Seq<char>,
    windows: bool,
) -> Option<IndexView> {
    match filename_id(path, windows) {
        Some(id) => indexed(index, id),
        None => None,
    }
}

/// The scan `s` once it has seen one file more, given what came of parsing it.
pub open spec fn with_parsed(
    s: ScanState,
    is_file: bool,
    parsed: Result<SessionView, Seq<WarningView>>,
) -> ScanState {
    match parsed {
        Ok(session) => ScanState {
            sessions: s.sessions.push(session),
            present: s.present.push(is_file),
            warnings: s.warnings + session.warnings,
            ..s
        },
        Err(warnings) => ScanState { warnings: s.warnings + warnings, ..s },
    }
}

/// What came of parsing the file `path` that `read` came of.
pub open spec fn file_result(
    s: ScanState,
    path: Seq<char>,
    read: FileReadView,
    modified_at: Option<(int, int)>,
    is_file: bool,
    now: (int, int),
) -> Result<SessionView, Seq<WarningView>> {
    parsed(
        path,
        read,
        indexed_file(s.index, path, s.windows),
        FactsView { modified_at, is_file, cli_available: s.cli_available, now, windows: s.windows },
    )
}

/// The scan `s` once a directory below `root` could not be walked.
pub open spec fn with_walk_error(s: ScanState, root: Seq<char>, error: Seq<char>) -> ScanState {
    ScanState {
        warnings: s.warnings.push(
            file_warning(WarningKind::Io, root, "无法遍历 Codex 会话目录: "@ + error),
        ),
        ..s
    }
}

/// The sessions of the scan `s`, each with whether it can be resumed.
pub open spec fn checked_sessions(s: ScanState, config_path: Seq<char>, config: ConfigReadView) -> Seq<
    SessionView,
> {
    Seq::new(
        s.sessions.len(),
        |i: int|
            SessionView {
                resume: resume_check(
                    s.sessions[i],
                    s.present[i],
                    s.cli_available,
                    config_path,
                    config,
                ),
                ..s.sessions[i]
            },
    )
}

/// What the scan `s` found.
pub open spec fn scan_report(s: ScanState, config_path: Seq<char>, config: ConfigReadView) -> ReportView {
    ReportView {
        sessions: newest_first(checked_sessions(s, config_path, config)),
        warnings: s.warnings,
    }
}

impl CodexScan {
    #[verifier::type_invariant]
    spec fn aligned(self) -> bool {
        self.present@.len() == self.sessions@.len()
    }

    /// Begins a scan with what the index says and the warnings about it.
    pub fn begin(
        index: SessionIndex,
        warnings: Vec<ScanWarning>,
        cli_available: bool,
        windows: bool,
    ) -> (r: CodexScan)
        ensures
            r@ == scan_start(index@, views(warnings@), cli_available, windows),
    {
        let r = CodexScan {
            index,
            cli_available,
            windows,
            sessions: Vec::new(),
            present: Vec::new(),
            warnings,
        };
        proof {
            assert(views(r.sessions@) =~= Seq::<SessionView>::empty());
            assert(r.present@ =~= Seq::<bool>::empty());
        }
        r
    }

    /// Notes that a directory below `root` could not be walked.
    pub fn walk_failed(self, root: &str, error: &str) -> (r: CodexScan)
        ensures
            r@ == with_walk_error(self@, root@, error@),
    {
        proof {
            use_type_invariant(&self);
        }
        let message = cat("无法遍历 Codex 会话目录: ", error);
        let mut warnings = self.warnings;
        let ghost before = warnings@;
        warnings.push(ScanWarning::new(WarningKind::Io, message.as_str()).with_path(root));
        proof {
            lemma_views_push(before, warnings@.last());
        }
        CodexScan {
            index: self.index,
            cli_available: self.cli_available,
            windows: self.windows,
            sessions: self.sessions,
            present: self.present,
            warnings,
        }
    }

    /// Adds what came of parsing a session file.
    pub fn add_parsed(self, is_file: bool, parsed: Result<Session, Vec<ScanWarning>>) -> (r: CodexScan)
        ensures
            r@ == with_parsed(
                self@,
                is_file,
                match parsed {
                    Ok(session) => Ok(session@),
                    Err(found) => Err(views(found@)),
                },
            ),
    {
        broadcast use lemma_views_add;

        proof {
            use_type_invariant(&self);
        }
        let mut sessions = self.sessions;
        let mut present = self.present;
        let mut warnings = self.warnings;
        match parsed {
            Ok(session) => {
                let mut own = copy_warnings(&session.warnings);
                warnings.append(&mut own);
                let ghost before = sessions@;
                sessions.push(session);
                present.push(is_file);
                proof {
                    lemma_views_push(before, sessions@.last());
                }
            },
            Err(found) => {
                let mut found = found;
                warnings.append(&mut found);
            },
        }
        CodexScan {
            index: self.index,
            cli_available: self.cli_available,
            windows: self.windows,
            sessions,
            present,
            warnings,
        }
    }

    /// Adds the session file `path`. Whatever is wrong with it becomes a warning.
    pub fn add_file(
        self,
        path: &str,
        read: &FileRead,
        modified_at: Option<crate::time::Timestamp>,
        is_file: bool,
        now: crate::time::Timestamp,
    ) -> (r: CodexScan)
        ensures
            r@ == with_parsed(
                self@,
                is_file,
                file_result(self@, path@, read@, opt_view(modified_at), is_file, now@),
            ),
    {
        let facts = FileFacts {
            modified_at,
            is_file,
            cli_available: self.cli_available,
            now,
            windows: self.windows,
        };
        let entry = match session_id_from_filename(path, self.windows) {
            Some(id) => self.index.get(id.as_str()),
            None => None,
        };
        let parsed = parse_session_file(path, read, entry, facts);
        self.add_parsed(is_file, parsed)
    }

    /// Ends the scan: every session is checked against the configuration, and the latest update
    /// comes first.
    pub fn finish(self, config_path: &str, config: &ConfigRead) -> (r: ScanReport)
        ensures
            r@ == scan_report(self@, config_path@, config@),
    {
        proof {
            use_type_invariant(&self);
        }
        let ghost start = self@;
        let ghost wanted = checked_sessions(start, config_path@, config@);
        let ghost given = self.sessions@;
        let present = self.present;
        let cli_available = self.cli_available;
        let warnings = self.warnings;
        let mut checked: Vec<Session> = Vec::new();
        let mut i: usize = 0;
        let count: usize = self.sessions.len();
        proof {
            assert(views(checked@) =~= wanted.take(0));
        }
        for session in it: self.sessions.into_iter()
            invariant
                it.seq() == given,
                count == given.len(),
                i == it.index(),
                present@.len() == given.len(),
                start.sessions == views(given),
                start.present == present@,
                start.cli_available == cli_available,
                wanted == checked_sessions(start, config_path@, config@),
                views(checked@) == wanted.take(i as int),
        {
            let status = check_session(&session, present[i], cli_available, config_path, config);
            let mut session = session;
            session.resume = status;
            let ghost before = checked@;
            checked.push(session);
            proof {
                lemma_views_push(before, checked@.last());
                assert(wanted.take(i + 1) == wanted.take(i as int).push(wanted[i as int]));
            }
            i = i + 1;
        }
        proof {
            assert(wanted.take(wanted.len() as int) == wanted);
        }
        ScanReport { sessions: sort_newest_first(checked), warnings }
    }
}

} // verus!
