//! What holds of a scan as a whole.

use vstd::prelude::*;

use super::config::ConfigReadView;
use super::ids::filename_id;
use super::index::{index_of, indexed, missing_ids, IndexView};
use super::metadata::{gathered, nothing_gathered};
use super::record_laws::{nameless, nameless_index_records_are_told_of};
use super::records::{jsonl_records, jsonl_warnings, FileRead, FileReadView};
use super::scan::{
    checked_sessions, file_result, scan_report, scan_start, with_parsed, with_walk_error, CodexScan, ScanState,
};
use super::session_laws::{read_defines, ready_needs_file_cli_and_provider};
use super::CodexProvider;
use crate::catalog_laws::catalog_stands_newest_first;
use crate::domain::{ResumeState, SessionView, WarningKind, WarningView};
use crate::paths::joined;
use crate::plain::{not_before, shows, shows_what_it_holds};

verus! {

/// A scan starts without a session, with what is known of the index and its problems.
pub proof fn scan_starts_without_sessions(
    index: Seq<(Seq<char>, IndexView)>,
    warnings: Seq<WarningView>,
    cli: bool,
    windows: bool,
)
    ensures
        ({
            let s = scan_start(index, warnings, cli, windows);
            &&& s.sessions.len() == 0 && s.present.len() == 0
            &&& s.warnings == warnings && s.index == index
            &&& s.cli_available == cli && s.windows == windows
        }),
{
}

/// A file that is a session adds it behind the others, with whether the file is there, and its
/// problems behind the others; one that is none adds its problems alone.
pub proof fn file_adds_its_session_and_its_problems(
    s: ScanState,
    is_file: bool,
    result: Result<SessionView, Seq<WarningView>>,
)
    ensures
        result matches Ok(session) ==> {
            let next = with_parsed(s, is_file, result);
            &&& next.sessions == s.sessions + seq![session]
            &&& next.present == s.present + seq![is_file]
            &&& next.warnings == s.warnings + session.warnings
        },
        result matches Err(warnings) ==> {
            let next = with_parsed(s, is_file, result);
            &&& next.sessions == s.sessions && next.present == s.present
            &&& next.warnings == s.warnings + warnings
        },
        with_parsed(s, is_file, result).cli_available == s.cli_available,
        with_parsed(s, is_file, result).windows == s.windows,
{
    if let Ok(session) = result {
        assert(s.sessions.push(session) =~= s.sessions + seq![session]);
        assert(s.present.push(is_file) =~= s.present + seq![is_file]);
    }
}

/// A directory that cannot be walked is told of by one warning, which names it and the error.
pub proof fn unwalkable_directory_is_named(s: ScanState, root: Seq<char>, error: Seq<char>)
    ensures
        ({
            let next = with_walk_error(s, root, error);
            &&& next.warnings.len() == s.warnings.len() + 1
            &&& next.warnings.last().kind == WarningKind::Io
            &&& next.warnings.last().path == Some(root)
            &&& next.warnings.last().line is None
            &&& shows(next.warnings.last().message, error)
            &&& next == (ScanState { warnings: next.warnings, ..s })
        }),
{
    shows_what_it_holds("无法遍历 Codex 会话目录: "@, error, Seq::empty());
    assert("无法遍历 Codex 会话目录: "@ + error =~= "无法遍历 Codex 会话目录: "@ + error + Seq::empty());
}

/// A session file is looked up in the index by the id in its name: its title is the one there, and it
/// was not updated before the index says; a file without an id in its name has no title.
pub proof fn file_is_indexed_by_the_id_in_its_name(
    s: ScanState,
    path: Seq<char>,
    read: FileReadView,
    modified_at: Option<(int, int)>,
    is_file: bool,
    now: (int, int),
    session: SessionView,
)
    requires
        file_result(s, path, read, modified_at, is_file, now) == Ok::<SessionView, Seq<WarningView>>(session),
    ensures
        filename_id(path, s.windows) is None ==> session.title is None,
        filename_id(path, s.windows) matches Some(id) ==> {
            &&& session.id == id
            &&& indexed(s.index, id) is None ==> session.title is None
            &&& indexed(s.index, id) matches Some(entry) ==> session.title == entry.title && (
            entry.updated_at is Some ==> not_before(session.updated_at, entry.updated_at->0))
        },
        session.raw_path == path,
        session.resume.state == ResumeState::Ready <==> is_file && s.cli_available,
        jsonl_records(read).len() == 0 && modified_at is None ==> session.created_at == now,
        modified_at matches Some(at) ==> not_before(session.updated_at, at),
{
    if jsonl_records(read).len() == 0 {
        assert(gathered(jsonl_records(read)) == nothing_gathered());
    }
}

/// Whether `a` and `b` are the same but for whether they can be resumed.
pub open spec fn same_but_status(a: SessionView, b: SessionView) -> bool {
    a == (SessionView { resume: a.resume, ..b })
}

/// A scan reports each session as it was read, with whether it can be resumed: exactly where it is one
/// of Codex, its own file is there, the CLI was found, and it names no model provider or a defined one.
pub proof fn scan_reports_whether_sessions_can_be_resumed(
    s: ScanState,
    config_path: Seq<char>,
    config: ConfigReadView,
    k: int,
) -> (i: int)
    requires
        s.present.len() == s.sessions.len(),
        0 <= k < scan_report(s, config_path, config).sessions.len(),
    ensures
        0 <= i < s.sessions.len(),
        ({
            let told = scan_report(s, config_path, config).sessions[k];
            &&& same_but_status(told, s.sessions[i])
            &&& told.resume.state == ResumeState::Ready <==> {
                &&& s.sessions[i].source == "codex"@
                &&& s.present[i]
                &&& s.cli_available
                &&& s.sessions[i].model_provider matches Some(name) ==> read_defines(config, name)
            }
        }),
{
    let all = checked_sessions(s, config_path, config);
    let places = catalog_stands_newest_first(all);
    let i = places[k];
    assert(scan_report(s, config_path, config).sessions[k] == all[i]);
    ready_needs_file_cli_and_provider(
        s.sessions[i],
        s.present[i],
        s.cli_available,
        config_path,
        config,
    );
    i
}

/// A scan begins with the index of the home; a missing index is no problem.
pub proof fn scan_begins_with_the_index(
    provider: CodexProvider,
    index: Option<FileRead>,
    cli: bool,
    r: CodexScan,
)
    requires
        call_ensures(CodexProvider::begin_scan, (&provider, &index, cli), r),
    ensures
        r@.sessions.len() == 0 && r@.present.len() == 0,
        r@.cli_available == cli && r@.windows == provider@.windows,
        index is None ==> r@.warnings.len() == 0 && r@.index.len() == 0,
        index matches Some(file) ==> r@.index == index_of(jsonl_records(file@)) && jsonl_warnings(
            joined(provider@.home, "session_index.jsonl"@, provider@.windows),
            file@,
        ).is_prefix_of(r@.warnings) && r@.warnings.len() == jsonl_warnings(
            joined(provider@.home, "session_index.jsonl"@, provider@.windows),
            file@,
        ).len() + nameless(jsonl_records(file@)),
{
    if let Some(file) = index {
        let path = joined(provider@.home, "session_index.jsonl"@, provider@.windows);
        let found = jsonl_warnings(path, file@);
        assert(r@.warnings == found + missing_ids(path, jsonl_records(file@)));
        assert(r@.warnings.take(found.len() as int) =~= found);
        nameless_index_records_are_told_of(path, jsonl_records(file@), 0);
    }
}

} // verus!
