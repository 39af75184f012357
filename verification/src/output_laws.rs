//! What the lists, warnings, diagnoses and details show.

use vstd::prelude::*;

use crate::catalog::{GroupBy, GroupView};
use crate::domain::{
    shown_title, DescriptorView, DiagnosticSeverity, DiagnosticView, InteractionType, ResumeState, SessionView,
    WarningView,
};
use crate::output::{
    diagnostic_lines, diagnostics_text, group_lines, groups_lines, list_text, session_line, session_lines,
    severity_mark, shown_update, source_line, sources_text, warning_line,
};
use crate::plain::{shows, shows_what_a_part_shows, shows_what_it_holds};
use crate::screen::{
    cursor_at, details_of, group_columns, group_width, grouping_label, header_line, interaction_text, less,
    resume_text, row_cells, shortcut_text, side_by_side, title_width, DetailView, RowCells,
};
use crate::text::{decimal, padded, shortened};
use crate::time::utc_text;
use crate::tui::{AppState, Layer, TuiView, VisibleSession};
use crate::tui_laws::rows_shown;
use crate::width::{columns_of, cut, text_width};

verus! {

/// The line of a session shows when it was updated, its source, its model provider or a hyphen, its
/// id, and its title, cut to 80 characters; it is one line.
pub proof fn session_line_shows_the_session(s: SessionView, updated: Seq<char>)
    ensures
        ({
            let line = session_line(s, updated);
            &&& shows(line, updated)
            &&& shows(line, s.source)
            &&& s.model_provider matches Some(name) ==> shows(line, padded(name, 12))
            &&& s.model_provider is None ==> shows(line, padded("-"@, 12))
            &&& shows(line, s.id)
            &&& shows(line, shortened(shown_title(s), 80))
            &&& line.last() == '\n'
        }),
{
    reveal_strlit("\n");
    let line = session_line(s, updated);
    let name = match s.model_provider {
        Some(name) => name,
        None => "-"@,
    };
    let provider = padded(name, 12);
    let title = shortened(shown_title(s), 80);
    let a = "  "@;
    let b = a + updated + "  "@;
    let c = b + s.source + " "@;
    let d = c + provider + " "@;
    let e = d + s.id + "  "@;
    assert(line == e + title + "\n"@);
    shows_what_it_holds(e, title, "\n"@);
    shows_what_it_holds(d, s.id, "  "@ + title + "\n"@);
    assert(line =~= d + s.id + ("  "@ + title + "\n"@));
    shows_what_it_holds(c, provider, " "@ + s.id + "  "@ + title + "\n"@);
    assert(line =~= c + provider + (" "@ + s.id + "  "@ + title + "\n"@));
    shows_what_it_holds(b, s.source, " "@ + provider + " "@ + s.id + "  "@ + title + "\n"@);
    assert(line =~= b + s.source + (" "@ + provider + " "@ + s.id + "  "@ + title + "\n"@));
    shows_what_it_holds(
        a,
        updated,
        "  "@ + s.source + " "@ + provider + " "@ + s.id + "  "@ + title + "\n"@,
    );
    assert(line =~= a + updated + ("  "@ + s.source + " "@ + provider + " "@ + s.id + "  "@ + title + "\n"@));
}

proof fn lemma_session_lines(sessions: Seq<SessionView>, k: int)
    requires
        0 <= k < sessions.len(),
    ensures
        shows(session_lines(sessions), session_line(sessions[k], shown_update(sessions[k]))),
    decreases sessions.len(),
{
    let less = sessions.drop_last();
    let all = session_lines(sessions);
    let none = Seq::<char>::empty();
    if k < less.len() {
        lemma_session_lines(less, k);
        let tail = session_line(sessions.last(), shown_update(sessions.last()));
        shows_what_it_holds(none, session_lines(less), tail);
        assert(all =~= none + session_lines(less) + tail);
        shows_what_a_part_shows(
            all,
            session_lines(less),
            session_line(sessions[k], shown_update(sessions[k])),
        );
    } else {
        let line = session_line(sessions[k], shown_update(sessions[k]));
        shows_what_it_holds(session_lines(less), line, none);
        assert(all =~= session_lines(less) + line + none);
    }
}

proof fn lemma_groups_lines(groups: Seq<GroupView>, i: int)
    requires
        0 <= i < groups.len(),
    ensures
        shows(groups_lines(groups), group_lines(groups[i])),
    decreases groups.len(),
{
    let less = groups.drop_last();
    let all = groups_lines(groups);
    let none = Seq::<char>::empty();
    if i < less.len() {
        lemma_groups_lines(less, i);
        let tail = group_lines(groups.last());
        shows_what_it_holds(none, groups_lines(less), tail);
        assert(all =~= none + groups_lines(less) + tail);
        shows_what_a_part_shows(all, groups_lines(less), group_lines(groups[i]));
    } else {
        shows_what_it_holds(groups_lines(less), group_lines(groups[i]), none);
        assert(all =~= groups_lines(less) + group_lines(groups[i]) + none);
    }
}

/// A list shows every group with its name and how many sessions it has, and every session of it with
/// its line, by the minute in UTC; a list of none says so.
pub proof fn list_shows_every_group_and_session(groups: Seq<GroupView>, i: int, k: int)
    ensures
        groups.len() == 0 ==> list_text(groups) == "未找到匹配的会话。\n"@,
        0 <= i < groups.len() ==> shows(
            list_text(groups),
            groups[i].key + " ("@ + decimal(groups[i].sessions.len()) + ")\n"@,
        ),
        0 <= i < groups.len() && 0 <= k < groups[i].sessions.len() ==> {
            let s = groups[i].sessions[k];
            shows(
                list_text(groups),
                session_line(s, utc_text(s.updated_at.0, s.updated_at.1, "%Y-%m-%d %H:%MZ"@)),
            )
        },
{
    if 0 <= i < groups.len() {
        let g = groups[i];
        let none = Seq::<char>::empty();
        lemma_groups_lines(groups, i);
        let head = g.key + " ("@ + decimal(g.sessions.len()) + ")\n"@;
        let body = session_lines(g.sessions);
        shows_what_it_holds(none, head, body + "\n"@);
        assert(group_lines(g) =~= none + head + (body + "\n"@));
        shows_what_a_part_shows(list_text(groups), group_lines(g), head);
        if 0 <= k < g.sessions.len() {
            lemma_session_lines(g.sessions, k);
            shows_what_it_holds(head, body, "\n"@);
            assert(group_lines(g) =~= head + body + "\n"@);
            shows_what_a_part_shows(list_text(groups), group_lines(g), body);
            shows_what_a_part_shows(
                list_text(groups),
                body,
                session_line(g.sessions[k], shown_update(g.sessions[k])),
            );
        }
    }
}

/// A warning shows its message and where it comes from: the file, with the line where it has one, or
/// the source.
pub proof fn warning_shows_where_it_comes_from(w: WarningView)
    ensures
        shows(warning_line(w), w.message),
        w.path matches Some(path) ==> shows(warning_line(w), path),
        w.path is Some && w.line is Some ==> shows(
            warning_line(w),
            w.path->0 + ":"@ + decimal(w.line->0 as nat),
        ),
        w.path is None ==> shows(warning_line(w), "来源"@),
{
    let place = match (w.path, w.line) {
        (Some(path), Some(line)) => path + ":"@ + decimal(line as nat),
        (Some(path), None) => path,
        (None, _) => "来源"@,
    };
    let line = warning_line(w);
    shows_what_it_holds("警告 ["@ + place + "] "@, w.message, "\n"@);
    shows_what_it_holds("警告 ["@, place, "] "@ + w.message + "\n"@);
    assert(line =~= "警告 ["@ + place + ("] "@ + w.message + "\n"@));
    if let (Some(path), Some(number)) = (w.path, w.line) {
        let none = Seq::<char>::empty();
        shows_what_it_holds(none, path, ":"@ + decimal(number as nat));
        assert(place =~= none + path + (":"@ + decimal(number as nat)));
        shows_what_a_part_shows(line, place, path);
    }
}

/// Severities are told apart, each by its own word.
pub proof fn severities_are_told_apart(a: DiagnosticSeverity, b: DiagnosticSeverity)
    ensures
        a != b ==> severity_mark(a) != severity_mark(b),
        severity_mark(a) == match a {
            DiagnosticSeverity::Info => "正常"@,
            DiagnosticSeverity::Warning => "警告"@,
            DiagnosticSeverity::Error => "错误"@,
        },
{
    reveal_strlit("正常");
    reveal_strlit("警告");
    reveal_strlit("错误");
    assert("正常"@[0] != "警告"@[0] && "正常"@[0] != "错误"@[0] && "警告"@[0] != "错误"@[0]);
}

/// A diagnostic shows how bad it is, its name, its message and, where there is one, the advice; the
/// text of a diagnosis shows each.
pub proof fn diagnosis_shows_every_diagnostic(diagnostics: Seq<DiagnosticView>, i: int)
    requires
        0 <= i < diagnostics.len(),
    ensures
        ({
            let d = diagnostics[i];
            let text = diagnostics_text(diagnostics);
            &&& shows(text, "["@ + severity_mark(d.severity) + "] "@ + d.name + ": "@ + d.message + "\n"@)
            &&& d.suggestion matches Some(advice) ==> shows(text, advice)
        }),
    decreases diagnostics.len(),
{
    let d = diagnostics[i];
    let less = diagnostics.drop_last();
    let text = diagnostics_text(diagnostics);
    let head = "["@ + severity_mark(d.severity) + "] "@ + d.name + ": "@ + d.message + "\n"@;
    let none = Seq::<char>::empty();
    if i < less.len() {
        diagnosis_shows_every_diagnostic(less, i);
        let tail = diagnostic_lines(diagnostics.last());
        shows_what_it_holds(none, diagnostics_text(less), tail);
        assert(text =~= none + diagnostics_text(less) + tail);
        shows_what_a_part_shows(text, diagnostics_text(less), head);
        if let Some(advice) = d.suggestion {
            shows_what_a_part_shows(text, diagnostics_text(less), advice);
        }
    } else {
        let before = diagnostics_text(less);
        match d.suggestion {
            Some(advice) => {
                let rest = "  建议: "@ + advice + "\n"@;
                shows_what_it_holds(before, head, rest);
                assert(text =~= before + head + rest);
                shows_what_it_holds(before + head + "  建议: "@, advice, "\n"@);
                assert(text =~= before + head + "  建议: "@ + advice + "\n"@);
            },
            None => {
                shows_what_it_holds(before, head, none);
                assert(text =~= before + head + none);
            },
        }
    }
}

/// The text of the sources shows each with its id, its name and its description.
pub proof fn every_source_is_shown(sources: Seq<DescriptorView>, i: int)
    requires
        0 <= i < sources.len(),
    ensures
        shows(
            sources_text(sources),
            sources[i].id + "  "@ + sources[i].display_name + "  "@ + sources[i].description + "\n"@,
        ),
    decreases sources.len(),
{
    let less = sources.drop_last();
    let text = sources_text(sources);
    let none = Seq::<char>::empty();
    if i < less.len() {
        every_source_is_shown(less, i);
        let tail = source_line(sources.last());
        shows_what_it_holds(none, sources_text(less), tail);
        assert(text =~= none + sources_text(less) + tail);
        shows_what_a_part_shows(text, sources_text(less), source_line(sources[i]));
    } else {
        shows_what_it_holds(sources_text(less), source_line(sources[i]), none);
        assert(text =~= sources_text(less) + source_line(sources[i]) + none);
    }
}

/// The header shows how many rows there are and how many problems the scan met; where groups are
/// shown, what they go by, and among the sessions of a directory, which it is.
pub proof fn header_shows_the_counts(s: TuiView)
    ensures
        shows(header_line(s), decimal(rows_shown(s)) + "  警告:"@ + decimal(s.warning_count)),
        s.layer == Layer::Grouped ==> shows(header_line(s), grouping_label(s.group_by)),
        s.layer == Layer::Sessions ==> shows(header_line(s), s.directory),
        grouping_label(GroupBy::Project) == "项目"@,
        grouping_label(GroupBy::Date) == "日期"@,
        grouping_label(GroupBy::Source) == "来源"@,
        grouping_label(GroupBy::Provider) == "Provider"@,
{
    let none = Seq::<char>::empty();
    let line = header_line(s);
    let counts = decimal(rows_shown(s)) + "  警告:"@ + decimal(s.warning_count);
    let what = match s.layer {
        Layer::Grouped => "  分组:"@ + grouping_label(s.group_by) + "  会话:"@,
        Layer::Directories => "  目录:"@,
        Layer::Sessions => "  目录:"@ + s.directory + "  会话:"@,
    };
    shows_what_it_holds(what, counts, none);
    assert(line =~= what + counts + none);
    match s.layer {
        Layer::Grouped => {
            shows_what_it_holds("  分组:"@, grouping_label(s.group_by), "  会话:"@ + counts);
            assert(line =~= "  分组:"@ + grouping_label(s.group_by) + ("  会话:"@ + counts));
        },
        Layer::Directories => {},
        Layer::Sessions => {
            shows_what_it_holds("  目录:"@, s.directory, "  会话:"@ + counts);
            assert(line =~= "  目录:"@ + s.directory + ("  会话:"@ + counts));
        },
    }
}

/// Whether `details` have a line with this label and value.
pub open spec fn tells(details: Seq<DetailView>, label: Seq<char>, value: Seq<char>) -> bool {
    exists|i: int|
        0 <= i < details.len() && (#[trigger] details[i]).label == label && details[i].value == value
}

/// The text `o` holds, or `other` where it holds none.
pub open spec fn given_or(o: Option<Seq<char>>, other: Seq<char>) -> Seq<char> {
    match o {
        Some(text) => text,
        None => other,
    }
}

/// The details of a session tell its title, id, source, project, directory, model, model provider,
/// times, interaction and state, a hyphen standing for what is not known; why it cannot be resumed,
/// where that is told; how many problems its file has, where it has any; and its summary.
pub proof fn details_tell_all_of_a_session(s: SessionView, created: Seq<char>, updated: Seq<char>)
    ensures
        ({
            let all = details_of(s, created, updated);
            &&& tells(all, "标题"@, shown_title(s))
            &&& tells(all, "会话 ID"@, s.id)
            &&& tells(all, "来源"@, s.source)
            &&& tells(all, "项目"@, s.project)
            &&& tells(all, "目录"@, given_or(s.cwd, "-"@))
            &&& tells(all, "模型"@, given_or(s.model, "-"@))
            &&& tells(all, "Provider"@, given_or(s.model_provider, "-"@))
            &&& tells(all, "交互"@, interaction_text(s.interaction))
            &&& tells(all, "创建"@, created)
            &&& tells(all, "更新"@, updated)
            &&& tells(all, "恢复"@, resume_text(s.resume.state))
            &&& s.resume.message is Some && s.resume.message->0.len() > 0 ==> tells(
                all,
                "说明"@,
                s.resume.message->0,
            )
            &&& s.warnings.len() > 0 ==> tells(all, "解析警告"@, decimal(s.warnings.len()))
            &&& s.summary matches Some(summary) ==> tells(all, "摘要"@, summary)
            &&& all.len() == 11 + (if s.resume.message is Some && s.resume.message->0.len() > 0 {
                1nat
            } else {
                0nat
            }) + (if s.warnings.len() > 0 {
                1nat
            } else {
                0nat
            }) + (if s.summary is Some {
                2nat
            } else {
                0nat
            })
        }),
{
    reveal_strlit("");
    let all = details_of(s, created, updated);
    assert(all[0].label == "标题"@);
    assert(all[1].label == "会话 ID"@);
    assert(all[2].label == "来源"@);
    assert(all[3].label == "项目"@);
    assert(all[4].label == "目录"@);
    assert(all[5].label == "模型"@);
    assert(all[6].label == "Provider"@);
    assert(all[7].label == "交互"@);
    assert(all[8].label == "创建"@);
    assert(all[9].label == "更新"@);
    assert(all[10].label == "恢复"@);
    let reason = s.resume.message is Some && s.resume.message->0.len() > 0;
    let n: int = if reason {
        12
    } else {
        11
    };
    if reason {
        assert(all[11].label == "说明"@);
    }
    let m: int = if s.warnings.len() > 0 {
        n + 1
    } else {
        n
    };
    if s.warnings.len() > 0 {
        assert(all[n].label == "解析警告"@);
    }
    if s.summary is Some {
        assert(all[m + 1].label == "摘要"@);
    }
}

/// States are told apart, each by its own word.
pub proof fn states_are_told_apart(a: ResumeState, b: ResumeState)
    ensures
        a != b ==> resume_text(a) != resume_text(b),
        resume_text(a) == match a {
            ResumeState::Ready => "可恢复"@,
            ResumeState::CliMissing => "CLI 缺失"@,
            ResumeState::SessionMissing => "会话缺失"@,
            ResumeState::ProviderMissing => "Provider 缺失"@,
            ResumeState::Unsupported => "不支持"@,
            ResumeState::Blocked => "已阻止"@,
        },
{
    reveal_strlit("可恢复");
    reveal_strlit("CLI 缺失");
    reveal_strlit("会话缺失");
    reveal_strlit("Provider 缺失");
    reveal_strlit("不支持");
    reveal_strlit("已阻止");
    assert(resume_text(a)[0] == resume_text(b)[0] ==> a == b);
}

/// Kinds of interaction are told apart, each by its own word.
pub proof fn interactions_are_told_apart(a: InteractionType, b: InteractionType)
    ensures
        a != b ==> interaction_text(a) != interaction_text(b),
        interaction_text(a) == match a {
            InteractionType::Interactive => "交互式"@,
            InteractionType::NonInteractive => "非交互"@,
            InteractionType::Unknown => "未知"@,
        },
{
    reveal_strlit("交互式");
    reveal_strlit("非交互");
    reveal_strlit("未知");
    assert(interaction_text(a)[0] == interaction_text(b)[0] ==> a == b);
}

/// List and details stand side by side exactly where the screen has 96 columns and 14 lines.  The
/// groups get from 8 to 18 columns, and all but 24 where these lie between; the titles get what groups
/// and times leave.
pub proof fn layout_follows_the_screen(width: u16, height: u16, beside: bool, groups: u16, titles: u16)
    requires
        call_ensures(side_by_side, (width, height), beside),
        call_ensures(group_width, (width,), groups),
        call_ensures(title_width, (width,), titles),
    ensures
        beside <==> width >= 96 && height >= 14,
        8 <= groups <= 18,
        32 <= width <= 42 ==> groups + 24 == width,
        width < 32 ==> groups == 8,
        width > 42 ==> groups == 18,
        titles == if width >= groups + 18 {
            width - groups - 18
        } else {
            0
        },
{
}

/// A row shows the group that starts there and the title, each cut to its columns, and the update.
pub proof fn row_shows_group_update_and_title(row: VisibleSession, width: u16, r: RowCells)
    requires
        call_ensures(row_cells, (&row, width), r),
    ensures
        row@.group is None ==> r.group@.len() == 0,
        row@.group matches Some(name) ==> (text_width(name) <= group_columns(width as int) ==> r.group@ == name),
        text_width(shown_title(row@.session)) <= less(width as int, group_columns(width as int) + 18)
            ==> r.title@ == shown_title(row@.session),
        r.updated@ == utc_text(row@.session.updated_at.0, row@.session.updated_at.1, "%m-%d %H:%M"@),
{
    reveal_strlit("");
    assert(""@ =~= Seq::<char>::empty());
    if row@.group is None {
        assert(columns_of(""@) =~= Seq::<nat>::empty());
    }
}

/// The header takes a second line exactly where a search is typed or kept, and the status one where
/// there is an error to show.
pub proof fn second_lines_are_for_search_and_error(state: AppState, header: u16, status: u16)
    requires
        call_ensures(AppState::header_height, (&state,), header),
        call_ensures(AppState::status_height, (&state,), status),
    ensures
        header == 2 <==> state@.search_mode || state@.search.len() > 0,
        header == 1 || header == 2,
        status == 2 <==> state@.status_error is Some,
        status == 1 || status == 2,
{
}

/// What an empty list says depends on whether something is searched for, and the search is marked as
/// being typed exactly while it is.
pub proof fn empty_list_says_why(state: AppState, empty: &'static str, mark: &'static str)
    requires
        call_ensures(AppState::empty_message, (&state,), empty),
        call_ensures(AppState::search_marker, (&state,), mark),
    ensures
        state@.search.len() == 0 ==> empty@ == "未找到可恢复的交互式会话。"@,
        state@.search.len() > 0 ==> empty@ == "没有会话匹配当前搜索。"@,
        state@.search_mode ==> mark@ == "搜索> "@,
        !state@.search_mode ==> mark@ == "搜索: "@,
{
}

/// The cursor stands behind the mark and the search, but never beyond the last column.
pub proof fn cursor_stands_behind_the_search(width: nat, screen: int)
    requires
        width < 60_000,
        0 <= screen <= u16::MAX,
    ensures
        6 + width < screen ==> cursor_at(width, screen) == 6 + width,
        0 < screen <= 6 + width ==> cursor_at(width, screen) == screen - 1,
        screen == 0 ==> cursor_at(width, screen) == 0,
{
}

/// The search is shown whole where the screen leaves eight columns beside it.
pub proof fn search_is_shown_whole_where_it_fits(state: AppState, screen: u16, r: String)
    requires
        call_ensures(AppState::shown_search, (&state, screen), r),
    ensures
        text_width(state@.search) + 8 <= screen ==> r@ == state@.search,
        screen <= 8 && text_width(state@.search) > 0 ==> r@.len() == 0,
{
}

/// The keys are told by what is shown, in a short form on screens of less than 72 columns and in a
/// long one on others.
pub proof fn keys_are_told_by_layer_and_width(layer: Layer, screen: int, other: int)
    ensures
        screen < 72 && other < 72 ==> shortcut_text(layer, screen) == shortcut_text(layer, other),
        screen >= 72 && other >= 72 ==> shortcut_text(layer, screen) == shortcut_text(layer, other),
        screen < 72 <= other ==> shortcut_text(layer, screen).len() < shortcut_text(layer, other).len(),
        shortcut_text(layer, screen) == match (layer, screen < 72) {
            (Layer::Grouped, true) => "↑↓/jk 移动  / 搜索  Tab 分组  Enter 恢复  q 退出"@,
            (Layer::Grouped, false) =>
                "方向键或 j/k 移动  / 搜索  Tab 切换分组  Enter 恢复  q/Esc 退出"@,
            (Layer::Directories, true) => "↑↓/jk 移动  / 搜索  Enter 进入  q 退出"@,
            (Layer::Directories, false) =>
                "方向键或 j/k 移动  / 搜索目录  Enter 进入目录  q/Esc/← 退出"@,
            (Layer::Sessions, true) => "↑↓/jk 移动  / 搜索  Enter 打开  c 恢复  Esc 返回"@,
            (Layer::Sessions, false) =>
                "方向键或 j/k 移动  / 搜索会话  Enter 在 App 打开  c 通过 CLI 恢复  Esc/← 返回  q 退出"@,
        },
{
    reveal_strlit("↑↓/jk 移动  / 搜索  Tab 分组  Enter 恢复  q 退出");
    reveal_strlit("方向键或 j/k 移动  / 搜索  Tab 切换分组  Enter 恢复  q/Esc 退出");
    reveal_strlit("↑↓/jk 移动  / 搜索  Enter 进入  q 退出");
    reveal_strlit("方向键或 j/k 移动  / 搜索目录  Enter 进入目录  q/Esc/← 退出");
    reveal_strlit("↑↓/jk 移动  / 搜索  Enter 打开  c 恢复  Esc 返回");
    reveal_strlit(
        "方向键或 j/k 移动  / 搜索会话  Enter 在 App 打开  c 通过 CLI 恢复  Esc/← 返回  q 退出",
    );
}

} // verus!
