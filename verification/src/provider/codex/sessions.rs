//! A session made of the records of its file.

use vstd::prelude::*;

use crate::domain::{
    blocked_status, project_name, ready_status, InteractionType, ResumeState, ResumeStatus, ScanWarning, Session,
    SessionSummary, SessionView, SourceId, StatusView, SummaryView, WarningKind, WarningView,
};
use crate::model::{copy_text, lemma_views_push, opt_view, views};
use crate::provider::{ErrorView, ProviderError};
use crate::text::blank;
use crate::time::Timestamp;

use super::ids::{filename_id, session_id_from_filename};
use super::index::{IndexEntry, IndexView};
use super::metadata::{
    gather, gathered, interaction_of, latest, or_else, select_metadata, selected, unless_blank, Gathered,
    GatheredView, NAME_LIMIT,
};
use super::records::{file_warning, jsonl_records, jsonl_warnings, read_jsonl, FileRead, FileReadView};
use super::redact::{sanitize_text, sanitized_option};

verus! {

/// The id of the source.
pub const SOURCE_ID: &'static str = "codex";

/// The longest summary that is shown.
pub const SUMMARY_LIMIT: usize = 240;

/// What the system says about a session file and its surroundings.
#[derive(Debug, Clone, Copy)]
pub struct FileFacts {
    /// When the file was last changed, where that is known.
    pub modified_at: Option<Timestamp>,
    /// Whether it is a file that is there.
    pub is_file: bool,
    /// Whether the CLI was found.
    pub cli_available: bool,
    /// The time now.
    pub now: Timestamp,
    /// Whether paths are those of Windows.
    pub windows: bool,
}

/// The model of a `FileFacts`.
pub struct FactsView {
    pub modified_at: Option<(int, int)>,
    pub is_file: bool,
    pub cli_available: bool,
    pub now: (int, int),
    pub windows: bool,
}

impl View for FileFacts {
    type V = FactsView;

    open spec fn view(&self) -> FactsView {
        FactsView {
            modified_at: opt_view(self.modified_at),
            is_file: self.is_file,
            cli_available: self.cli_available,
            now: self.now@,
            windows: self.windows,
        }
    }
}

/// Whether the file and the CLI allow a session to be resumed.
pub open spec fn file_status(is_file: bool, cli_available: bool) -> StatusView {
    if !is_file {
        blocked_status(ResumeState::SessionMissing, "原始会话文件不存在"@)
    } else if !cli_available {
        blocked_status(ResumeState::CliMissing, "未在 PATH 中找到 Codex CLI"@)
    } else {
        ready_status()
    }
}

/// The first of three instants that there is, else `last`.
pub open spec fn first_of(
    a: Option<(int, int)>,
    b: Option<(int, int)>,
    c: Option<(int, int)>,
    last: (int, int),
) -> (int, int) {
    match or_else(a, or_else(b, c)) {
        Some(at) => at,
        None => last,
    }
}

/// The id of the session in the file `path` of which `g` was gathered: the one that the file name
/// holds, else the one that the metadata gives, unless it is blank.
pub open spec fn session_id(path: Seq<char>, g: GatheredView, windows: bool) -> Option<Seq<char>> {
    let chosen = selected(g.metadata, filename_id(path, windows));
    unless_blank(
        or_else(
            filename_id(path, windows),
            match chosen {
                Some(m) => m.id,
                None => None,
            },
        ),
    )
}

/// The session `id` in the file `path` of which `g` was gathered, with its sanitized model and
/// summary, what the index says about it, and the warnings about its file.
pub open spec fn session_from(
    id: Seq<char>,
    path: Seq<char>,
    g: GatheredView,
    model: Option<Seq<char>>,
    summary: Option<Seq<char>>,
    index: Option<IndexView>,
    facts: FactsView,
    warnings: Seq<WarningView>,
) -> SessionView {
    let chosen = selected(g.metadata, filename_id(path, facts.windows));
    let cwd = match chosen {
        Some(m) => m.cwd,
        None => None,
    };
    let created_at = first_of(
        match chosen {
            Some(m) => m.created_at,
            None => None,
        },
        g.first_timestamp,
        facts.modified_at,
        facts.now,
    );
    let indexed_at = match index {
        Some(entry) => entry.updated_at,
        None => None,
    };
    SessionView {
        id,
        source: SOURCE_ID@,
        title: match index {
            Some(entry) => entry.title,
            None => None,
        },
        summary,
        cwd,
        project: project_name(cwd, facts.windows),
        created_at,
        updated_at: match latest(latest(g.latest_timestamp, indexed_at), facts.modified_at) {
            Some(at) => at,
            None => created_at,
        },
        model,
        model_provider: match chosen {
            Some(m) => m.model_provider,
            None => None,
        },
        interaction: match chosen {
            Some(m) => interaction_of(m.source, m.thread_source),
            None => InteractionType::Unknown,
        },
        raw_path: path,
        warnings,
        resume: file_status(facts.is_file, facts.cli_available),
    }
}

/// The session in the file `path` of which `g` was gathered, or the warnings where it has no id.
pub open spec fn composed(
    path: Seq<char>,
    g: GatheredView,
    model: Option<Seq<char>>,
    summary: Option<Seq<char>>,
    index: Option<IndexView>,
    facts: FactsView,
    warnings: Seq<WarningView>,
) -> Result<SessionView, Seq<WarningView>> {
    match session_id(path, g, facts.windows) {
        Some(id) => Ok(session_from(id, path, g, model, summary, index, facts, warnings)),
        None => Err(
            warnings.push(
                file_warning(
                    WarningKind::MissingField,
                    path,
                    "会话文件缺少 id，且文件名不包含 UUID"@,
                ),
            ),
        ),
    }
}

/// The session in the file `path` that `read` came of, or the warnings where it has no id.
pub open spec fn parsed(
    path: Seq<char>,
    read: FileReadView,
    index: Option<IndexView>,
    facts: FactsView,
) -> Result<SessionView, Seq<WarningView>> {
    let g = gathered(jsonl_records(read));
    composed(
        path,
        g,
        sanitized_option(g.model, NAME_LIMIT as int),
        sanitized_option(g.summary, SUMMARY_LIMIT as int),
        index,
        facts,
        jsonl_warnings(path, read),
    )
}

fn later(a: Option<Timestamp>, b: Option<Timestamp>) -> (r: Option<Timestamp>)
    ensures
        opt_view(r) == latest(opt_view(a), opt_view(b)),
{
    match (a, b) {
        (Some(x), Some(y)) => Some(x.max(y)),
        (Some(x), None) => Some(x),
        (None, y) => y,
    }
}

fn either(a: Option<Timestamp>, b: Option<Timestamp>) -> (r: Option<Timestamp>)
    ensures
        opt_view(r) == or_else(opt_view(a), opt_view(b)),
{
    match a {
        Some(x) => Some(x),
        None => b,
    }
}

/// Whether the file and the CLI allow a session to be resumed.
pub fn resume_status(is_file: bool, cli_available: bool) -> (r: ResumeStatus)
    ensures
        r@ == file_status(is_file, cli_available),
{
    if !is_file {
        ResumeStatus::blocked(ResumeState::SessionMissing, "原始会话文件不存在")
    } else if !cli_available {
        ResumeStatus::blocked(ResumeState::CliMissing, "未在 PATH 中找到 Codex CLI")
    } else {
        ResumeStatus::ready()
    }
}

/// Makes the session of what was gathered from its file, its sanitized model and summary, and what
/// the index says about it. A file without any id gives its warnings instead.
pub fn compose_session(
    path: &str,
    g: Gathered,
    model: Option<String>,
    summary: Option<String>,
    index: Option<&IndexEntry>,
    facts: FileFacts,
    warnings: Vec<ScanWarning>,
) -> (r: Result<Session, Vec<ScanWarning>>)
    ensures
        ({
            let wanted = composed(
                path@,
                g@,
                opt_view(model),
                opt_view(summary),
                opt_view(index),
                facts@,
                views(warnings@),
            );
            match r {
                Ok(session) => wanted == Ok::<SessionView, Seq<WarningView>>(session@),
                Err(found) => wanted == Err::<SessionView, Seq<WarningView>>(views(found@)),
            }
        }),
{
    let from_name = session_id_from_filename(path, facts.windows);
    let chosen = select_metadata(
        &g.metadata,
        match &from_name {
            Some(id) => Some(id.as_str()),
            None => None,
        },
    );
    let given = match from_name {
        Some(id) => Some(id),
        None => match &chosen {
            Some(m) => copy_text(&m.id),
            None => None,
        },
    };
    let id = match given {
        Some(id) => if blank(id.as_str()) {
            None
        } else {
            Some(id)
        },
        None => None,
    };
    let id = match id {
        Some(id) => id,
        None => {
            let ghost before = warnings@;
            let mut found = warnings;
            found.push(
                ScanWarning::new(
                    WarningKind::MissingField,
                    "会话文件缺少 id，且文件名不包含 UUID",
                ).with_path(path),
            );
            proof {
                lemma_views_push(before, found@.last());
            }
            return Err(found);
        },
    };
    let (stated, cwd, provider, interaction) = match &chosen {
        Some(m) => (m.created_at, copy_text(&m.cwd), copy_text(&m.model_provider), m.interaction_type()),
        None => (None, None, None, InteractionType::Unknown),
    };
    let created_at = match either(stated, either(g.first_timestamp, facts.modified_at)) {
        Some(at) => at,
        None => facts.now,
    };
    let (title, indexed_at) = match index {
        Some(entry) => (copy_text(&entry.title), entry.updated_at),
        None => (None, None),
    };
    let updated_at = match later(later(g.latest_timestamp, indexed_at), facts.modified_at) {
        Some(at) => at,
        None => created_at,
    };
    let project = Session::project_from_cwd(
        match &cwd {
            Some(path) => Some(path.as_str()),
            None => None,
        },
        facts.windows,
    );
    Ok(
        Session {
            id,
            source: SourceId::new(SOURCE_ID),
            title,
            summary,
            cwd,
            project,
            created_at,
            updated_at,
            model,
            model_provider: provider,
            interaction,
            raw_path: path.to_owned(),
            warnings,
            resume: resume_status(facts.is_file, facts.cli_available),
        },
    )
}

/// Makes the session of its file. A file without any id gives its warnings instead.
pub fn parse_session_file(
    path: &str,
    read: &FileRead,
    index: Option<&IndexEntry>,
    facts: FileFacts,
) -> (r: Result<Session, Vec<ScanWarning>>)
    ensures
        match r {
            Ok(session) => parsed(path@, read@, opt_view(index), facts@) == Ok::<
                SessionView,
                Seq<WarningView>,
            >(session@),
            Err(found) => parsed(path@, read@, opt_view(index), facts@) == Err::<
                SessionView,
                Seq<WarningView>,
            >(views(found@)),
        },
{
    let mut warnings: Vec<ScanWarning> = Vec::new();
    let records = read_jsonl(path, read, &mut warnings);
    proof {
        assert(views(warnings@) =~= jsonl_warnings(path@, read@));
    }
    let g = gather(&records);
    let model = match &g.model {
        Some(name) => sanitize_text(name.as_str(), NAME_LIMIT),
        None => None,
    };
    let summary = match &g.summary {
        Some(text) => sanitize_text(text.as_str(), SUMMARY_LIMIT),
        None => None,
    };
    compose_session(path, g, model, summary, index, facts, warnings)
}

/// The title and summary of what came of parsing the file `path`, or why there is none.
pub open spec fn summary_of(path: Seq<char>, parsed: Result<SessionView, Seq<WarningView>>) -> Result<
    SummaryView,
    ErrorView,
> {
    match parsed {
        Ok(session) => Ok(SummaryView { title: session.title, summary: session.summary }),
        Err(warnings) => Err(
            if warnings.len() > 0 {
                ErrorView::InvalidData {
                    path,
                    line: warnings[0].line,
                    reason: warnings[0].message,
                }
            } else {
                ErrorView::InvalidData { path, line: None, reason: "无法解析 Codex 会话"@ }
            },
        ),
    }
}

/// Takes the title and summary of what came of parsing a session file.
pub fn take_summary(path: &str, parsed: Result<Session, Vec<ScanWarning>>) -> (r: Result<
    SessionSummary,
    ProviderError,
>)
    ensures
        ({
            let wanted = summary_of(
                path@,
                match parsed {
                    Ok(session) => Ok(session@),
                    Err(found) => Err(views(found@)),
                },
            );
            match r {
                Ok(summary) => wanted == Ok::<SummaryView, ErrorView>(summary@),
                Err(error) => wanted == Err::<SummaryView, ErrorView>(error@),
            }
        }),
{
    match parsed {
        Ok(session) => Ok(SessionSummary { title: session.title, summary: session.summary }),
        Err(found) => {
            if found.len() > 0 {
                proof {
                    assert(views(found@)[0] == found@[0]@);
                }
                Err(
                    ProviderError::InvalidData {
                        path: path.to_owned(),
                        line: found[0].line,
                        reason: found[0].message.clone(),
                    },
                )
            } else {
                Err(
                    ProviderError::InvalidData {
                        path: path.to_owned(),
                        line: None,
                        reason: "无法解析 Codex 会话".to_owned(),
                    },
                )
            }
        },
    }
}

} // verus!
