//! Sessions, diagnostics and sources as text for a terminal.

use vstd::prelude::*;

use crate::catalog::{GroupView, SessionGroup};
use crate::domain::{
    shown_title, DescriptorView, Diagnostic, DiagnosticSeverity, DiagnosticView, ScanWarning, Session, SessionView,
    SourceDescriptor, WarningView,
};
use crate::model::{or_text, text_or, views};
use crate::text::{cat3, cat5, decimal, decimal_text, pad, padded, shortened, truncate_chars};
use crate::time::{format_utc, utc_text, MINUTE_PATTERN};

verus! {

/// The longest title that a list shows.
pub const LISTED_TITLE: usize = 80;

/// The line about the session `s`, given its update time as it is shown: no path, no prompt.
pub open spec fn session_line(s: SessionView, updated: Seq<char>) -> Seq<char> {
    "  "@ + updated + "  "@ + s.source + " "@ + padded(or_text(s.model_provider, "-"@), 12) + " "@ + s.id + "  "@ + shortened(shown_title(s), LISTED_TITLE as int) + "\n"@
}

/// The update time of the session `s` as it is shown.
pub open spec fn shown_update(s: SessionView) -> Seq<char> {
    utc_text(s.updated_at.0, s.updated_at.1, MINUTE_PATTERN@)
}

/// The lines about `sessions`, in order.
pub open spec fn session_lines(sessions: Seq<SessionView>) -> Seq<char>
    decreases sessions.len(),
{
    if sessions.len() == 0 {
        Seq::empty()
    } else {
        session_lines(sessions.drop_last()) + session_line(
            sessions.last(),
            shown_update(sessions.last()),
        )
    }
}

/// The lines about the group `g`: its name and size, its sessions, and an empty line.
pub open spec fn group_lines(g: GroupView) -> Seq<char> {
    g.key + " ("@ + decimal(g.sessions.len()) + ")\n"@ + session_lines(g.sessions) + "\n"@
}

/// The lines about `groups`, in order.
pub open spec fn groups_lines(groups: Seq<GroupView>) -> Seq<char>
    decreases groups.len(),
{
    if groups.len() == 0 {
        Seq::empty()
    } else {
        groups_lines(groups.drop_last()) + group_lines(groups.last())
    }
}

/// A list of `groups` as text.
pub open spec fn list_text(groups: Seq<GroupView>) -> Seq<char> {
    if groups.len() == 0 {
        "未找到匹配的会话。\n"@
    } else {
        groups_lines(groups)
    }
}

/// The line about a session, given its update time as it is shown.
pub fn render_session(session: &Session, updated: &str) -> (r: String)
    ensures
        r@ == session_line(session@, updated@),
{
    let provider = pad(text_or(&session.model_provider, "-"), 12);
    let title = truncate_chars(session.display_title(), LISTED_TITLE);
    let head = cat5("  ", updated, "  ", session.source.as_str(), " ");
    let middle = cat5(head.as_str(), provider.as_str(), " ", session.id.as_str(), "  ");
    cat3(middle.as_str(), title.as_str(), "\n")
}

fn render_group(group: &SessionGroup<'_>) -> (r: String)
    ensures
        r@ == group_lines(group@),
{
    let ghost all = views(group.sessions@);
    let count = decimal_text(group.sessions.len() as u64);
    let mut r = String::new();
    r.append(group.key.as_str());
    r.append(" (");
    r.append(count.as_str());
    r.append(")\n");
    let ghost head = r@;
    proof {
        assert(head =~= group@.key + " ("@ + decimal(group@.sessions.len()) + ")\n"@);
        assert(head + session_lines(all.take(0)) =~= head);
    }
    let mut i: usize = 0;
    while i < group.sessions.len()
        invariant
            i <= group.sessions@.len(),
            all == views(group.sessions@),
            r@ == head + session_lines(all.take(i as int)),
        decreases group.sessions@.len() - i,
    {
        let session = group.sessions[i];
        let updated = format_utc(&session.updated_at, MINUTE_PATTERN);
        let line = render_session(session, updated.as_str());
        r.append(line.as_str());
        proof {
            let next = all.take(i + 1);
            assert(next.drop_last() == all.take(i as int));
            assert(next.last() == session@);
            assert(r@ =~= head + session_lines(next));
        }
        i = i + 1;
    }
    proof {
        assert(all.take(all.len() as int) == all);
    }
    r.append("\n");
    r
}

/// A list of groups as text for a terminal; it shows no path, prompt or secret.
pub fn write_list(groups: &Vec<SessionGroup<'_>>) -> (r: String)
    ensures
        r@ == list_text(views(groups@)),
{
    if groups.len() == 0 {
        return "未找到匹配的会话。\n".to_owned();
    }
    let ghost all = views(groups@);
    let mut r = String::new();
    let mut i: usize = 0;
    proof {
        assert(r@ =~= groups_lines(all.take(0)));
    }
    while i < groups.len()
        invariant
            i <= groups@.len(),
            all == views(groups@),
            r@ == groups_lines(all.take(i as int)),
        decreases groups@.len() - i,
    {
        let lines = render_group(&groups[i]);
        r.append(lines.as_str());
        proof {
            let next = all.take(i + 1);
            assert(next.drop_last() == all.take(i as int));
            assert(next.last() == groups@[i as int]@);
        }
        i = i + 1;
    }
    proof {
        assert(all.take(all.len() as int) == all);
    }
    r
}

/// Whether `s` and `t` are the same session but for where its files lie, its project, its model, and
/// what is known of its interaction, its problems and its resumption.
pub open spec fn same_but_files(s: SessionView, t: SessionView) -> bool {
    &&& s.id == t.id
    &&& s.source == t.source
    &&& s.title == t.title
    &&& s.summary == t.summary
    &&& s.updated_at == t.updated_at
    &&& s.model_provider == t.model_provider
}

/// Whether the groups `a` and `b` have the same names and sessions but for their files.
pub open spec fn same_groups_but_files(a: Seq<GroupView>, b: Seq<GroupView>) -> bool {
    &&& a.len() == b.len()
    &&& forall|i: int|
        0 <= i < a.len() ==> (#[trigger] a[i]).key == b[i].key && a[i].sessions.len()
            == b[i].sessions.len()
    &&& forall|i: int, k: int|
        0 <= i < a.len() && 0 <= k < a[i].sessions.len() ==> same_but_files(
            #[trigger] a[i].sessions[k],
            b[i].sessions[k],
        )
}

/// A list shows nothing of where the files and directories of its sessions lie: lists of sessions
/// that differ in that alone are the same text.
pub proof fn list_text_hides_files(a: Seq<GroupView>, b: Seq<GroupView>)
    requires
        same_groups_but_files(a, b),
    ensures
        list_text(a) == list_text(b),
{
    lemma_groups_lines_hide_files(a, b);
}

proof fn lemma_groups_lines_hide_files(a: Seq<GroupView>, b: Seq<GroupView>)
    requires
        same_groups_but_files(a, b),
    ensures
        groups_lines(a) == groups_lines(b),
    decreases a.len(),
{
    if a.len() > 0 {
        let x = a.drop_last();
        let y = b.drop_last();
        assert forall|i: int| 0 <= i < x.len() implies (#[trigger] x[i]).key == y[i].key
            && x[i].sessions.len() == y[i].sessions.len() by {
            assert(x[i] == a[i] && y[i] == b[i]);
        }
        assert forall|i: int, k: int|
            0 <= i < x.len() && 0 <= k < x[i].sessions.len() implies same_but_files(
            #[trigger] x[i].sessions[k],
            y[i].sessions[k],
        ) by {
            assert(same_but_files(a[i].sessions[k], b[i].sessions[k]));
        }
        lemma_groups_lines_hide_files(x, y);
        let last = a.len() - 1;
        assert(a[last].key == b[last].key);
        assert forall|k: int| 0 <= k < a[last].sessions.len() implies same_but_files(
            #[trigger] a[last].sessions[k],
            b[last].sessions[k],
        ) by {}
        lemma_session_lines_hide_files(a[last].sessions, b[last].sessions);
    }
}

proof fn lemma_session_lines_hide_files(s: Seq<SessionView>, t: Seq<SessionView>)
    requires
        s.len() == t.len(),
        forall|k: int| 0 <= k < s.len() ==> same_but_files(#[trigger] s[k], t[k]),
    ensures
        session_lines(s) == session_lines(t),
    decreases s.len(),
{
    if s.len() > 0 {
        let x = s.drop_last();
        let y = t.drop_last();
        assert forall|k: int| 0 <= k < x.len() implies same_but_files(#[trigger] x[k], y[k]) by {
            assert(same_but_files(s[k], t[k]));
        }
        lemma_session_lines_hide_files(x, y);
        assert(same_but_files(s[s.len() - 1], t[t.len() - 1]));
    }
}

/// Where the warning `w` points: a file and line, a file, or the source.
pub open spec fn warning_location(w: WarningView) -> Seq<char> {
    match (w.path, w.line) {
        (Some(path), Some(line)) => path + ":"@ + decimal(line as nat),
        (Some(path), None) => path,
        (None, _) => "来源"@,
    }
}

/// The line about the warning `w`.
pub open spec fn warning_line(w: WarningView) -> Seq<char> {
    "警告 ["@ + warning_location(w) + "] "@ + w.message + "\n"@
}

/// The line about a warning.
pub fn write_warning(warning: &ScanWarning) -> (r: String)
    ensures
        r@ == warning_line(warning@),
{
    let location = match &warning.path {
        Some(path) => match warning.line {
            Some(line) => {
                let number = decimal_text(line as u64);
                cat3(path.as_str(), ":", number.as_str())
            },
            None => path.clone(),
        },
        None => "来源".to_owned(),
    };
    cat5("警告 [", location.as_str(), "] ", warning.message.as_str(), "\n")
}

/// The mark of a severity.
pub open spec fn severity_mark(severity: DiagnosticSeverity) -> Seq<char> {
    match severity {
        DiagnosticSeverity::Info => "正常"@,
        DiagnosticSeverity::Warning => "警告"@,
        DiagnosticSeverity::Error => "错误"@,
    }
}

/// The lines about the diagnostic `d`.
pub open spec fn diagnostic_lines(d: DiagnosticView) -> Seq<char> {
    let head = "["@ + severity_mark(d.severity) + "] "@ + d.name + ": "@ + d.message + "\n"@;
    match d.suggestion {
        Some(text) => head + "  建议: "@ + text + "\n"@,
        None => head,
    }
}

/// The lines about `diagnostics`, in order.
pub open spec fn diagnostics_text(diagnostics: Seq<DiagnosticView>) -> Seq<char>
    decreases diagnostics.len(),
{
    if diagnostics.len() == 0 {
        Seq::empty()
    } else {
        diagnostics_text(diagnostics.drop_last()) + diagnostic_lines(diagnostics.last())
    }
}

/// Diagnostics as text for a terminal.
pub fn write_diagnostics(diagnostics: &Vec<Diagnostic>) -> (r: String)
    ensures
        r@ == diagnostics_text(views(diagnostics@)),
{
    let ghost all = views(diagnostics@);
    let mut r = String::new();
    let mut i: usize = 0;
    proof {
        assert(r@ =~= diagnostics_text(all.take(0)));
    }
    while i < diagnostics.len()
        invariant
            i <= diagnostics@.len(),
            all == views(diagnostics@),
            r@ == diagnostics_text(all.take(i as int)),
        decreases diagnostics@.len() - i,
    {
        let d = &diagnostics[i];
        let mark = match d.severity {
            DiagnosticSeverity::Info => "正常",
            DiagnosticSeverity::Warning => "警告",
            DiagnosticSeverity::Error => "错误",
        };
        let head = cat5("[", mark, "] ", d.name.as_str(), ": ");
        let mut lines = cat3(head.as_str(), d.message.as_str(), "\n");
        if let Some(text) = &d.suggestion {
            lines.append("  建议: ");
            lines.append(text.as_str());
            lines.append("\n");
        }
        r.append(lines.as_str());
        proof {
            let next = all.take(i + 1);
            assert(next.drop_last() == all.take(i as int));
            assert(next.last() == d@);
        }
        i = i + 1;
    }
    proof {
        assert(all.take(all.len() as int) == all);
    }
    r
}

/// The line about the source `d`.
pub open spec fn source_line(d: DescriptorView) -> Seq<char> {
    d.id + "  "@ + d.display_name + "  "@ + d.description + "\n"@
}

/// The lines about `sources`, in order.
pub open spec fn sources_text(sources: Seq<DescriptorView>) -> Seq<char>
    decreases sources.len(),
{
    if sources.len() == 0 {
        Seq::empty()
    } else {
        sources_text(sources.drop_last()) + source_line(sources.last())
    }
}

/// Sources as text for a terminal.
pub fn write_sources(sources: &Vec<SourceDescriptor>) -> (r: String)
    ensures
        r@ == sources_text(views(sources@)),
{
    let ghost all = views(sources@);
    let mut r = String::new();
    let mut i: usize = 0;
    proof {
        assert(r@ =~= sources_text(all.take(0)));
    }
    while i < sources.len()
        invariant
            i <= sources@.len(),
            all == views(sources@),
            r@ == sources_text(all.take(i as int)),
        decreases sources@.len() - i,
    {
        let d = &sources[i];
        let head = cat5(d.id.as_str(), "  ", d.display_name.as_str(), "  ", d.description.as_str());
        r.append(head.as_str());
        r.append("\n");
        proof {
            let next = all.take(i + 1);
            assert(next.drop_last() == all.take(i as int));
            assert(next.last() == d@);
            assert(r@ =~= sources_text(next));
        }
        i = i + 1;
    }
    proof {
        assert(all.take(all.len() as int) == all);
    }
    r
}

} // verus!
