//! What the interactive list writes on the screen, and how it is laid out.

use vstd::prelude::*;

use crate::catalog::GroupBy;
use crate::domain::{shown_title, InteractionType, ResumeState, Session, SessionView};
use crate::model::{lemma_views_push, or_text, text_or, views};
use crate::text::{cat3, cat4, decimal, decimal_text};
use crate::time::{format_utc, rfc3339_text, utc_rfc3339, utc_text, SHORT_PATTERN};
use crate::tui::{row_count, AppState, Layer, TuiView, VisibleSession};
use crate::width::{at_most_machine, columns_of, cut, display_width, text_width, truncate_width};

verus! {

/// The label of a grouping.
pub open spec fn grouping_label(g: GroupBy) -> Seq<char> {
    match g {
        GroupBy::Project => "项目"@,
        GroupBy::Date => "日期"@,
        GroupBy::Source => "来源"@,
        GroupBy::Provider => "Provider"@,
    }
}

/// The label of a grouping.
pub fn group_label(group_by: GroupBy) -> (r: &'static str)
    ensures
        r@ == grouping_label(group_by),
{
    match group_by {
        GroupBy::Project => "项目",
        GroupBy::Date => "日期",
        GroupBy::Source => "来源",
        GroupBy::Provider => "Provider",
    }
}

/// The label of an interaction type.
pub open spec fn interaction_text(i: InteractionType) -> Seq<char> {
    match i {
        InteractionType::Interactive => "交互式"@,
        InteractionType::NonInteractive => "非交互"@,
        InteractionType::Unknown => "未知"@,
    }
}

/// The label of an interaction type.
pub fn interaction_label(interaction: &InteractionType) -> (r: &'static str)
    ensures
        r@ == interaction_text(*interaction),
{
    match interaction {
        InteractionType::Interactive => "交互式",
        InteractionType::NonInteractive => "非交互",
        InteractionType::Unknown => "未知",
    }
}

/// The label of a resume state.
pub open spec fn resume_text(s: ResumeState) -> Seq<char> {
    match s {
        ResumeState::Ready => "可恢复"@,
        ResumeState::CliMissing => "CLI 缺失"@,
        ResumeState::SessionMissing => "会话缺失"@,
        ResumeState::ProviderMissing => "Provider 缺失"@,
        ResumeState::Unsupported => "不支持"@,
        ResumeState::Blocked => "已阻止"@,
    }
}

/// The label of a resume state.
pub fn resume_label(state: &ResumeState) -> (r: &'static str)
    ensures
        r@ == resume_text(*state),
{
    match state {
        ResumeState::Ready => "可恢复",
        ResumeState::CliMissing => "CLI 缺失",
        ResumeState::SessionMissing => "会话缺失",
        ResumeState::ProviderMissing => "Provider 缺失",
        ResumeState::Unsupported => "不支持",
        ResumeState::Blocked => "已阻止",
    }
}

/// Whether the search is shown: while it is typed, and where there is one.
pub open spec fn shows_search(s: TuiView) -> bool {
    s.search_mode || s.search.len() > 0
}

/// What the header says beside the name of the program.
pub open spec fn header_line(s: TuiView) -> Seq<char> {
    let what = match s.layer {
        Layer::Grouped => "  分组:"@ + grouping_label(s.group_by) + "  会话:"@,
        Layer::Directories => "  目录:"@,
        Layer::Sessions => "  目录:"@ + s.directory + "  会话:"@,
    };
    what + decimal(row_count(s)) + "  警告:"@ + decimal(s.warning_count)
}

/// What stands before the search.
pub open spec fn search_mark(s: TuiView) -> Seq<char> {
    if s.search_mode {
        "搜索> "@
    } else {
        "搜索: "@
    }
}

/// `a` less `b`, but not less than nothing.
pub open spec fn less(a: int, b: int) -> int {
    if a >= b {
        a - b
    } else {
        0
    }
}

/// The column of the cursor while a search `width` columns wide is typed on a screen of `screen`
/// columns.
pub open spec fn cursor_at(width: nat, screen: int) -> int {
    let wanted = at_most_machine(6 + at_most_machine(width));
    if wanted <= less(screen, 1) {
        wanted as int
    } else {
        less(screen, 1)
    }
}

impl AppState {
    /// How many lines the header takes.
    pub fn header_height(&self) -> (r: u16)
        ensures
            r == (if shows_search(self@) {
                2u16
            } else {
                1u16
            }),
    {
        if self.search_mode() || crate::text::chars_of(self.search()).len() > 0 {
            2
        } else {
            1
        }
    }

    /// How many lines the status takes.
    pub fn status_height(&self) -> (r: u16)
        ensures
            r == (if self@.status_error is Some {
                2u16
            } else {
                1u16
            }),
    {
        if self.status_error().is_some() {
            2
        } else {
            1
        }
    }

    /// What the header says beside the name of the program.
    pub fn header(&self) -> (r: String)
        requires
            self.wf(),
        ensures
            r@ == header_line(self@),
    {
        let what = match self.layer() {
            Layer::Grouped => cat3("  分组:", group_label(self.group_by()), "  会话:"),
            Layer::Directories => "  目录:".to_owned(),
            Layer::Sessions => cat3("  目录:", self.directory(), "  会话:"),
        };
        let visible = self.visible();
        let directories = self.directories();
        proof {
            assert(views(visible@).len() == visible@.len());
            assert(views(directories@).len() == directories@.len());
        }
        let count: usize = match self.layer() {
            Layer::Directories => directories.len(),
            _ => visible.len(),
        };
        let shown = decimal_text(count as u64);
        let warned = decimal_text(self.warning_count() as u64);
        cat4(what.as_str(), shown.as_str(), "  警告:", warned.as_str())
    }

    /// What stands before the search.
    pub fn search_marker(&self) -> (r: &'static str)
        ensures
            r@ == search_mark(self@),
    {
        if self.search_mode() {
            "搜索> "
        } else {
            "搜索: "
        }
    }

    /// The search, cut to what fits on a screen of `screen` columns.
    pub fn shown_search(&self, screen: u16) -> (r: String)
        ensures
            r@ == cut(self@.search, columns_of(self@.search), less(screen as int, 8)),
    {
        let room: u16 = screen.saturating_sub(8);
        truncate_width(self.search(), room as usize)
    }

    /// The column of the cursor while the search is typed, on a screen of `screen` columns.
    pub fn cursor_column(&self, screen: u16) -> (r: u16)
        ensures
            r == cursor_at(text_width(self@.search), screen as int),
    {
        let last: u16 = screen.saturating_sub(1);
        let wanted: usize = 6usize.saturating_add(display_width(self.search()));
        if wanted <= last as usize {
            wanted as u16
        } else {
            last
        }
    }

    /// What is said where there are no rows.
    pub fn empty_message(&self) -> (r: &'static str)
        ensures
            r@ == (if self@.search.len() == 0 {
                "未找到可恢复的交互式会话。"@
            } else {
                "没有会话匹配当前搜索。"@
            }),
    {
        if crate::text::chars_of(self.search()).len() == 0 {
            "未找到可恢复的交互式会话。"
        } else {
            "没有会话匹配当前搜索。"
        }
    }

    /// The keys and what they do, in short where the screen is narrow.
    pub fn shortcuts(&self, screen: u16) -> (r: &'static str)
        ensures
            r@ == shortcut_text(self@.layer, screen as int),
    {
        match self.layer() {
            Layer::Grouped => if screen < 72 {
                "↑↓/jk 移动  / 搜索  Tab 分组  Enter 恢复  q 退出"
            } else {
                "方向键或 j/k 移动  / 搜索  Tab 切换分组  Enter 恢复  q/Esc 退出"
            },
            Layer::Directories => if screen < 72 {
                "↑↓/jk 移动  / 搜索  Enter 进入  q 退出"
            } else {
                "方向键或 j/k 移动  / 搜索目录  Enter 进入目录  q/Esc/← 退出"
            },
            Layer::Sessions => if screen < 72 {
                "↑↓/jk 移动  / 搜索  Enter 打开  c 恢复  Esc 返回"
            } else {
                "方向键或 j/k 移动  / 搜索会话  Enter 在 App 打开  c 通过 CLI 恢复  Esc/← 返回  q 退出"
            },
        }
    }
}

/// The keys and what they do on a screen of `screen` columns.
pub open spec fn shortcut_text(layer: Layer, screen: int) -> Seq<char> {
    match layer {
        Layer::Grouped => if screen < 72 {
            "↑↓/jk 移动  / 搜索  Tab 分组  Enter 恢复  q 退出"@
        } else {
            "方向键或 j/k 移动  / 搜索  Tab 切换分组  Enter 恢复  q/Esc 退出"@
        },
        Layer::Directories => if screen < 72 {
            "↑↓/jk 移动  / 搜索  Enter 进入  q 退出"@
        } else {
            "方向键或 j/k 移动  / 搜索目录  Enter 进入目录  q/Esc/← 退出"@
        },
        Layer::Sessions => if screen < 72 {
            "↑↓/jk 移动  / 搜索  Enter 打开  c 恢复  Esc 返回"@
        } else {
            "方向键或 j/k 移动  / 搜索会话  Enter 在 App 打开  c 通过 CLI 恢复  Esc/← 返回  q 退出"@
        },
    }
}

/// Whether list and details stand side by side.
pub fn side_by_side(width: u16, height: u16) -> (r: bool)
    ensures
        r == (width >= 96 && height >= 14),
{
    width >= 96 && height >= 14
}

/// How wide the column of groups is in a list of `width` columns.
pub open spec fn group_columns(width: int) -> int {
    let room = less(width, 24);
    if room < 8 {
        8
    } else if room > 18 {
        18
    } else {
        room
    }
}

/// How wide the column of groups is in a list of `width` columns.
pub fn group_width(width: u16) -> (r: u16)
    ensures
        r == group_columns(width as int),
{
    let room: u16 = width.saturating_sub(24);
    if room < 8 {
        8
    } else if room > 18 {
        18
    } else {
        room
    }
}

/// How wide the column of titles is in a list of `width` columns.
pub fn title_width(width: u16) -> (r: u16)
    ensures
        r == less(width as int, group_columns(width as int) + 18),
{
    width.saturating_sub(group_width(width) + 18)
}

/// The cells of one row: group, update and title.
#[derive(Debug)]
pub struct RowCells {
    /// The name of the group that starts here, cut to its column.
    pub group: String,
    /// The last update.
    pub updated: String,
    /// The title, cut to its column.
    pub title: String,
}

/// The cells of a row in a list of `width` columns.
pub fn row_cells(row: &VisibleSession, width: u16) -> (r: RowCells)
    ensures
        ({
            let group = or_text(row@.group, ""@);
            let title = shown_title(row@.session);
            &&& r.group@ == cut(group, columns_of(group), group_columns(width as int))
            &&& r.updated@ == utc_text(
                row@.session.updated_at.0,
                row@.session.updated_at.1,
                SHORT_PATTERN@,
            )
            &&& r.title@ == cut(
                title,
                columns_of(title),
                less(width as int, group_columns(width as int) + 18),
            )
        }),
{
    RowCells {
        group: truncate_width(text_or(&row.group, ""), group_width(width) as usize),
        updated: format_utc(&row.session.updated_at, SHORT_PATTERN),
        title: truncate_width(row.session.display_title(), title_width(width) as usize),
    }
}

/// One line of the details: a label and a value, or nothing.
#[derive(Debug)]
pub struct DetailLine {
    /// The label; an empty line has none.
    pub label: String,
    /// The value.
    pub value: String,
}

/// The model of a `DetailLine`.
pub struct DetailView {
    pub label: Seq<char>,
    pub value: Seq<char>,
}

impl View for DetailLine {
    type V = DetailView;

    open spec fn view(&self) -> DetailView {
        DetailView { label: self.label@, value: self.value@ }
    }
}

/// A line with a label.
pub open spec fn labelled(label: Seq<char>, value: Seq<char>) -> DetailView {
    DetailView { label, value }
}

/// The lines that every session has, given its times as they are shown.
pub open spec fn fixed_details(s: SessionView, created: Seq<char>, updated: Seq<char>) -> Seq<DetailView> {
    seq![
        labelled("标题"@, shown_title(s)),
        labelled("会话 ID"@, s.id),
        labelled("来源"@, s.source),
        labelled("项目"@, s.project),
        labelled("目录"@, or_text(s.cwd, "-"@)),
        labelled("模型"@, or_text(s.model, "-"@)),
        labelled("Provider"@, or_text(s.model_provider, "-"@)),
        labelled("交互"@, interaction_text(s.interaction)),
        labelled("创建"@, created),
        labelled("更新"@, updated),
        labelled("恢复"@, resume_text(s.resume.state)),
    ]
}

/// The line about why the session `s` cannot be resumed, where there is something to say.
pub open spec fn reason_details(s: SessionView) -> Seq<DetailView> {
    if or_text(s.resume.message, ""@).len() > 0 {
        seq![labelled("说明"@, or_text(s.resume.message, ""@))]
    } else {
        Seq::empty()
    }
}

/// The line about the problems met while reading the session `s`, where there were any.
pub open spec fn warning_details(s: SessionView) -> Seq<DetailView> {
    if s.warnings.len() > 0 {
        seq![labelled("解析警告"@, decimal(s.warnings.len()))]
    } else {
        Seq::empty()
    }
}

/// The summary of the session `s` after an empty line, where there is one.
pub open spec fn summary_details(s: SessionView) -> Seq<DetailView> {
    match s.summary {
        Some(summary) => seq![labelled(Seq::empty(), Seq::empty()), labelled("摘要"@, summary)],
        None => Seq::empty(),
    }
}

/// The details of the session `s`, given its times as they are shown.
pub open spec fn details_of(s: SessionView, created: Seq<char>, updated: Seq<char>) -> Seq<DetailView> {
    fixed_details(s, created, updated) + reason_details(s) + warning_details(s) + summary_details(s)
}

fn add_line(lines: Vec<DetailLine>, label: &str, value: &str) -> (r: Vec<DetailLine>)
    ensures
        views(r@) == views(lines@).push(labelled(label@, value@)),
{
    let ghost before = lines@;
    let mut r = lines;
    r.push(DetailLine { label: label.to_owned(), value: value.to_owned() });
    proof {
        lemma_views_push(before, r@.last());
    }
    r
}

/// The details of a session, given its times as they are shown.
pub fn detail_lines(session: &Session, created: &str, updated: &str) -> (r: Vec<DetailLine>)
    ensures
        views(r@) == details_of(session@, created@, updated@),
{
    let none: Vec<DetailLine> = Vec::new();
    let lines = add_line(none, "标题", session.display_title());
    let lines = add_line(lines, "会话 ID", session.id.as_str());
    let lines = add_line(lines, "来源", session.source.as_str());
    let lines = add_line(lines, "项目", session.project.as_str());
    let lines = add_line(lines, "目录", text_or(&session.cwd, "-"));
    let lines = add_line(lines, "模型", text_or(&session.model, "-"));
    let lines = add_line(lines, "Provider", text_or(&session.model_provider, "-"));
    let lines = add_line(lines, "交互", interaction_label(&session.interaction));
    let lines = add_line(lines, "创建", created);
    let lines = add_line(lines, "更新", updated);
    let lines = add_line(lines, "恢复", resume_label(&session.resume.state));
    let ghost fixed = fixed_details(session@, created@, updated@);
    proof {
        assert(views(lines@) =~= fixed);
    }
    let reason = text_or(&session.resume.message, "");
    let lines = if crate::text::chars_of(reason).len() > 0 {
        add_line(lines, "说明", reason)
    } else {
        lines
    };
    proof {
        assert(views(lines@) =~= fixed + reason_details(session@));
        assert(views(session.warnings@).len() == session.warnings@.len());
    }
    let lines = if session.warnings.len() > 0 {
        let count = decimal_text(session.warnings.len() as u64);
        add_line(lines, "解析警告", count.as_str())
    } else {
        lines
    };
    proof {
        assert(views(lines@) =~= fixed + reason_details(session@) + warning_details(session@));
    }
    let lines = match &session.summary {
        Some(summary) => {
            let spaced = add_line(lines, "", "");
            add_line(spaced, "摘要", summary.as_str())
        },
        None => lines,
    };
    proof {
        reveal_strlit("");
        assert(""@ =~= Seq::<char>::empty());
        assert(views(lines@) =~= details_of(session@, created@, updated@));
    }
    lines
}

/// The details of a session.
pub fn session_details(session: &Session) -> (r: Vec<DetailLine>)
    ensures
        views(r@) == details_of(
            session@,
            utc_rfc3339(session@.created_at.0, session@.created_at.1),
            utc_rfc3339(session@.updated_at.0, session@.updated_at.1),
        ),
{
    let created = rfc3339_text(&session.created_at);
    let updated = rfc3339_text(&session.updated_at);
    detail_lines(session, created.as_str(), updated.as_str())
}

} // verus!
