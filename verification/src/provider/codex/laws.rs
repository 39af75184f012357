//! What holds of every scan and every session.

use vstd::prelude::*;

use crate::domain::{is_plain_argument, quoted, SessionView, WarningView};
use crate::provider::ErrorView;
use crate::tree::{field_of, text_field_of, NodeView};

use super::config::{holds_secret, ConfigReadView, PROVIDERS_TABLE};
use super::ids::{filename_id, is_canonical, is_hex, uuid_is_canonical, uuid_of};
use super::index::{index_entry, index_in, index_of, indexed, TITLE_LIMIT};
use super::metadata::{first_with_id, gathered, record_metadata, GatheredView, MetadataView, NAME_LIMIT};
use super::plan::{decided, DecisionView};
use super::records::{jsonl_records, line_warnings, records_in, FileReadView, LineView};
use super::redact::sanitized;
use super::refusal;
use super::scan::{
    checked_sessions, file_result, indexed_file, scan_report, with_parsed, with_walk_error, ScanState,
};
use super::sessions::{parsed, session_id, FactsView, SOURCE_ID, SUMMARY_LIMIT};

verus! {

/// Whether a line is broken: it is not text or holds no record.
pub open spec fn is_broken(line: LineView) -> bool {
    line is NotText || line is NotRecord
}

/// A line that holds no record takes no record of another line away.
pub proof fn broken_line_is_isolated(lines: Seq<LineView>, i: int)
    requires
        0 <= i < lines.len(),
        lines[i] !is Record,
    ensures
        records_in(lines.remove(i)) == records_in(lines),
    decreases lines.len(),
{
    let rest = lines.drop_last();
    if i == lines.len() - 1 {
        assert(lines.remove(i) =~= rest);
    } else {
        broken_line_is_isolated(rest, i);
        assert(lines.remove(i).drop_last() =~= rest.remove(i));
        assert(lines.remove(i).last() == lines.last());
    }
}

/// How many of `lines` are broken.
pub open spec fn broken_count(lines: Seq<LineView>) -> nat
    decreases lines.len(),
{
    if lines.len() == 0 {
        0
    } else {
        broken_count(lines.drop_last()) + if is_broken(lines.last()) {
            1nat
        } else {
            0nat
        }
    }
}

/// Every broken line has its warning, with its number counted from one, and no other line has one.
pub proof fn every_broken_line_is_reported(path: Seq<char>, lines: Seq<LineView>)
    requires
        lines.len() <= usize::MAX,
    ensures
        line_warnings(path, lines).len() == broken_count(lines),
        forall|i: int|
            0 <= i < lines.len() && is_broken(#[trigger] lines[i]) ==> exists|k: int|
                0 <= k < line_warnings(path, lines).len() && (#[trigger] line_warnings(path, lines)[k]).line
                    == Some((i + 1) as usize),
    decreases lines.len(),
{
    if lines.len() > 0 {
        let rest = lines.drop_last();
        every_broken_line_is_reported(path, rest);
        let before = line_warnings(path, rest);
        let all = line_warnings(path, lines);
        assert forall|i: int| 0 <= i < lines.len() && is_broken(#[trigger] lines[i]) implies exists|k: int|
            0 <= k < all.len() && (#[trigger] all[k]).line == Some((i + 1) as usize) by {
            if i < rest.len() {
                assert(is_broken(rest[i]));
                let k = choose|k: int|
                    0 <= k < before.len() && (#[trigger] before[k]).line == Some((i + 1) as usize);
                assert(all[k] == before[k]);
            } else {
                assert(all.last().line == Some((i + 1) as usize));
            }
        }
    }
}

/// Whatever comes of one file, the sessions found before it stay, in their places, and so do the
/// warnings.
pub proof fn file_is_isolated(s: ScanState, is_file: bool, result: Result<SessionView, Seq<WarningView>>)
    ensures
        s.sessions.is_prefix_of(with_parsed(s, is_file, result).sessions),
        s.warnings.is_prefix_of(with_parsed(s, is_file, result).warnings),
        result is Err ==> with_parsed(s, is_file, result).sessions == s.sessions,
        with_parsed(s, is_file, result).index == s.index,
{
}

/// Whatever comes of one file or directory, what comes of the next file is the same.
pub proof fn file_changes_no_other(
    s: ScanState,
    is_file: bool,
    result: Result<SessionView, Seq<WarningView>>,
    root: Seq<char>,
    error: Seq<char>,
    path: Seq<char>,
    read: FileReadView,
    facts: FactsView,
)
    ensures
        file_result(
            with_parsed(s, is_file, result),
            path,
            read,
            facts.modified_at,
            facts.is_file,
            facts.now,
        ) == file_result(s, path, read, facts.modified_at, facts.is_file, facts.now),
        file_result(
            with_walk_error(s, root, error),
            path,
            read,
            facts.modified_at,
            facts.is_file,
            facts.now,
        ) == file_result(s, path, read, facts.modified_at, facts.is_file, facts.now),
{
}

/// Whether `shown` is nothing, or a text that was put on one line, redacted and cut after `limit`
/// characters.
pub open spec fn is_sanitized(shown: Option<Seq<char>>, limit: int) -> bool {
    shown is None || exists|text: Seq<char>| shown == #[trigger] sanitized(text, limit)
}

/// The title, summary, model and model provider of every session that is read from a file are
/// redacted and short, whatever the file and the index hold.
pub proof fn what_is_shown_is_sanitized(
    path: Seq<char>,
    read: FileReadView,
    index: Option<FileReadView>,
    facts: FactsView,
    s: SessionView,
)
    requires
        parsed(path, read, indexed_file(index_in(index), path, facts.windows), facts) == Ok::<
            SessionView,
            Seq<WarningView>,
        >(s),
    ensures
        is_sanitized(s.title, TITLE_LIMIT as int),
        is_sanitized(s.summary, SUMMARY_LIMIT as int),
        is_sanitized(s.model, NAME_LIMIT as int),
        is_sanitized(s.model_provider, NAME_LIMIT as int),
{
    let g = gathered(jsonl_records(read));
    if let Some(text) = g.summary {
        assert(s.summary == sanitized(text, SUMMARY_LIMIT as int));
    }
    if let Some(text) = g.model {
        assert(s.model == sanitized(text, NAME_LIMIT as int));
    }
    lemma_gathered_is_sanitized(jsonl_records(read));
    if let Some(id) = filename_id(path, facts.windows) {
        if let Some(file) = index {
            lemma_indexed_is_sanitized(jsonl_records(file), id);
        }
        lemma_first_with_id_is_there(g.metadata, id);
    }
}

proof fn lemma_gathered_is_sanitized(records: Seq<NodeView>)
    ensures
        forall|i: int|
            0 <= i < gathered(records).metadata.len() ==> is_sanitized(
                (#[trigger] gathered(records).metadata[i]).model_provider,
                NAME_LIMIT as int,
            ),
    decreases records.len(),
{
    if records.len() > 0 {
        lemma_gathered_is_sanitized(records.drop_last());
        if let Some(m) = record_metadata(records.last()) {
            let payload = field_of(records.last(), "payload"@)->0;
            if let Some(text) = text_field_of(payload, "model_provider"@) {
                assert(m.model_provider == sanitized(text, NAME_LIMIT as int));
            }
        }
    }
}

proof fn lemma_first_with_id_is_there(all: Seq<MetadataView>, expected: Seq<char>)
    ensures
        first_with_id(all, expected) matches Some(m) ==> all.contains(m),
    decreases all.len(),
{
    if all.len() > 0 {
        let rest = all.drop_first();
        lemma_first_with_id_is_there(rest, expected);
        assert(all[0] == all[0]);
        if let Some(m) = first_with_id(rest, expected) {
            let i = choose|i: int| 0 <= i < rest.len() && rest[i] == m;
            assert(all[i + 1] == m);
        }
    }
}

proof fn lemma_indexed_is_sanitized(records: Seq<NodeView>, id: Seq<char>)
    ensures
        indexed(index_of(records), id) matches Some(entry) ==> is_sanitized(entry.title, TITLE_LIMIT as int),
    decreases records.len(),
{
    if records.len() > 0 {
        let rest = records.drop_last();
        lemma_indexed_is_sanitized(rest, id);
        if let Some(text) = text_field_of(records.last(), "thread_name"@) {
            assert(index_entry(records.last()).title == sanitized(text, TITLE_LIMIT as int));
        }
        if text_field_of(records.last(), "id"@) is Some {
            assert(index_of(records).drop_last() =~= index_of(rest));
        }
    }
}

/// A directory that cannot be walked costs no session.
pub proof fn walk_error_is_isolated(s: ScanState, root: Seq<char>, error: Seq<char>)
    ensures
        with_walk_error(s, root, error).sessions == s.sessions,
        s.warnings.is_prefix_of(with_walk_error(s, root, error).warnings),
{
}

/// The UUID that a file name holds is the id of its session, whatever its records say, and it is
/// canonical.
pub proof fn filename_id_takes_precedence(path: Seq<char>, g: GatheredView, windows: bool)
    requires
        filename_id(path, windows) is Some,
    ensures
        session_id(path, g, windows) == filename_id(path, windows),
        is_canonical(session_id(path, g, windows)->0),
        uuid_of(session_id(path, g, windows)->0) is Some,
{
    let name = crate::paths::name_of(path, windows)->0;
    uuid_is_canonical(super::ids::last_chars(crate::paths::stem(name), 36));
    let id = filename_id(path, windows)->0;
    assert(id[0] == id[0] && is_hex(id[0]));
    assert(!crate::text::is_space(id[0]));
}

/// A Codex session whose id was taken from its file name is never refused a command.
pub proof fn filename_id_can_be_resumed(
    s: SessionView,
    path: Seq<char>,
    g: GatheredView,
    windows: bool,
    operation: Seq<char>,
)
    requires
        s.source == SOURCE_ID@,
        filename_id(path, windows) is Some,
        session_id(path, g, windows) == Some(s.id),
    ensures
        refusal(s, operation) is None,
{
    filename_id_takes_precedence(path, g, windows);
}

/// Whether `c` can stand in a UUID in any of its forms.
pub open spec fn is_uuid_char(c: char) -> bool {
    is_hex(c) || c == '-' || c == '{' || c == '}' || c == ':' || 'a' <= c <= 'z' || 'A' <= c <= 'Z'
}

/// The id of a session that is not refused a command holds nothing but letters, digits, hyphens,
/// braces and colons: shown in a command, it stands unquoted.
pub proof fn resumed_id_is_plain(s: SessionView, operation: Seq<char>)
    requires
        refusal(s, operation) is None,
    ensures
        forall|i: int| 0 <= i < s.id.len() ==> is_uuid_char(#[trigger] s.id[i]),
        is_plain_argument(s.id),
        quoted(s.id) == s.id,
{
    let id = s.id;
    if id.len() == 38 {
        let inner = id.subrange(1, 37);
        assert forall|i: int| 0 <= i < id.len() implies is_uuid_char(#[trigger] id[i]) by {
            if 1 <= i < 37 {
                assert(inner[i - 1] == id[i]);
            }
        }
    } else if id.len() == 45 {
        let head = id.take(9);
        let tail = id.skip(9);
        reveal_strlit("urn:uuid:");
        assert forall|i: int| 0 <= i < id.len() implies is_uuid_char(#[trigger] id[i]) by {
            if i < 9 {
                assert(head[i] == id[i]);
                assert(crate::text::lower(head)[i] == crate::text::lower("urn:uuid:"@)[i]);
            } else {
                assert(tail[i - 9] == id[i]);
            }
        }
    } else {
        assert forall|i: int| 0 <= i < id.len() implies is_uuid_char(#[trigger] id[i]) by {}
    }
    assert forall|i: int| 0 <= i < id.len() implies !crate::text::is_space(#[trigger] id[i]) && id[i]
        != '"' by {
        assert(is_uuid_char(id[i]));
    }
}

/// A scan reports every session it found, and each with whether it can be resumed.
pub proof fn scan_reports_every_session(s: ScanState, config_path: Seq<char>, config: ConfigReadView)
    ensures
        scan_report(s, config_path, config).sessions.len() == s.sessions.len(),
        scan_report(s, config_path, config).sessions.to_multiset() == checked_sessions(
            s,
            config_path,
            config,
        ).to_multiset(),
        crate::catalog::is_newest_first(scan_report(s, config_path, config).sessions),
        scan_report(s, config_path, config).warnings == s.warnings,
{
    crate::catalog_laws::newest_first_rearranges(checked_sessions(s, config_path, config));
}

/// A model provider that holds a secret is never copied.
pub proof fn secrets_are_never_copied(tree: NodeView, alias: Seq<char>, from: Seq<char>)
    requires
        decided(tree, alias) == Ok::<DecisionView, ErrorView>(DecisionView::Copy { from }),
    ensures
        field_of(tree, PROVIDERS_TABLE@) matches Some(table) && field_of(table, from) matches Some(item)
            && !holds_secret(item),
{
}

} // verus!
