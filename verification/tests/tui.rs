//! The interactive list.

use agentmux::catalog::GroupBy;
use agentmux::domain::{InteractionType, ResumeStatus, ScanReport, Session, SourceId};
use agentmux::screen::{group_width, row_cells, session_details, side_by_side, title_width};
use agentmux::time::Timestamp;
use agentmux::tui::{AppState, Key, Layer, TuiOutcome};
use agentmux::width::{cut_columns, display_width, truncate_width};
use chrono::TimeZone;

fn test_session(id: &str, hour: u32) -> Session {
    let time = chrono::Utc
        .with_ymd_and_hms(2026, 7, 10, hour, 0, 0)
        .single()
        .expect("测试时间应有效");
    let timestamp = Timestamp::new(time.timestamp(), 0).expect("on the calendar");
    Session {
        id: id.to_owned(),
        source: SourceId::new("codex"),
        title: Some("实现跨平台会话恢复".to_owned()),
        summary: Some("在窄终端中安全显示中文路径和摘要。".to_owned()),
        cwd: Some(r"D:\项目\智能助手".to_owned()),
        project: "智能助手".to_owned(),
        created_at: timestamp,
        updated_at: timestamp,
        model: Some("gpt-5".to_owned()),
        model_provider: Some("custom".to_owned()),
        interaction: InteractionType::Interactive,
        raw_path: format!("{id}.jsonl"),
        warnings: Vec::new(),
        resume: ResumeStatus::ready(),
    }
}

fn loaded_state() -> AppState {
    let mut state = AppState::new(Some("上次恢复失败，退出码 2".to_owned()));
    state.load(ScanReport {
        sessions: vec![test_session("newer", 14), test_session("older", 12)],
        warnings: Vec::new(),
    });
    state
}

fn browsing_state() -> AppState {
    let mut other = test_session("other", 13);
    other.cwd = Some("/home/work".to_owned());
    let mut lost = test_session("lost", 10);
    lost.cwd = None;
    let mut hidden = test_session("hidden", 15);
    hidden.interaction = InteractionType::NonInteractive;
    let mut state = AppState::browse(None);
    state.load(ScanReport {
        sessions: vec![test_session("newer", 14), test_session("older", 12), other, lost, hidden],
        warnings: Vec::new(),
    });
    state
}

#[test]
fn handles_navigation_search_and_grouping() {
    let mut state = loaded_state();
    state.handle_key(Key::Char('j'));
    assert_eq!(state.selected(), 1);
    state.handle_key(Key::Char('j'));
    assert_eq!(state.selected(), 0);
    state.handle_key(Key::Char('/'));
    state.handle_key(Key::Char('智'));
    assert!(state.search_mode());
    assert_eq!(state.visible().len(), 2);
    state.handle_key(Key::Esc);
    state.handle_key(Key::Tab);
    assert_eq!(state.group_by(), GroupBy::Date);
}

#[test]
fn only_a_search_needs_short_texts() {
    let mut huge = test_session("huge", 12);
    huge.summary = Some("x".repeat(67_108_862));
    let report = ScanReport { sessions: vec![huge], warnings: Vec::new() };
    let mut state = AppState::new(None);
    assert!(state.can_type('x'));
    assert!(state.can_load(&report));
    state.load(report);
    assert_eq!(state.visible().len(), 1);
    assert!(!state.can_type('x'));
    assert!(state.can_type(' '));
    assert!(loaded_state().can_type('x'));
}

#[test]
fn truncates_by_display_width() {
    assert_eq!(truncate_width("中文路径", 5), "中文…");
    assert_eq!(display_width("中文"), 4);
}

#[test]
fn grouped_list_resumes_on_enter_and_quits_on_escape() {
    let mut state = loaded_state();
    assert_eq!(state.visible()[0].group.as_deref(), Some("智能助手"));
    assert_eq!(state.visible()[1].group, None);
    match state.handle_key(Key::Enter) {
        Some(TuiOutcome::Resume(session)) => assert_eq!(session.id, "newer"),
        _ => panic!("Enter resumes"),
    }
    state.handle_key(Key::Up);
    assert_eq!(state.selected_session().map(|s| s.id.as_str()), Some("older"));
    assert!(state.handle_key(Key::Left).is_none());
    assert!(state.handle_key(Key::Char('c')).is_none());
    assert!(matches!(state.handle_key(Key::Esc), Some(TuiOutcome::Quit)));
    assert!(matches!(state.handle_key(Key::Char('q')), Some(TuiOutcome::Quit)));
}

#[test]
fn searching_narrows_and_widens_the_list() {
    let mut state = loaded_state();
    state.handle_key(Key::Down);
    state.handle_key(Key::Char('/'));
    for c in "newer".chars() {
        state.handle_key(Key::Char(c));
    }
    assert_eq!(state.visible().len(), 1);
    assert_eq!(state.selected(), 0);
    assert_eq!(state.search(), "newer");
    assert!(state.handle_key(Key::Char('q')).is_none());
    assert!(state.visible().is_empty());
    assert!(state.handle_key(Key::Tab).is_none());
    for _ in 0..7 {
        state.handle_key(Key::Backspace);
    }
    assert_eq!(state.visible().len(), 2);
    assert_eq!(state.search(), "");
    assert!(state.handle_key(Key::Enter).is_none());
    assert!(!state.search_mode());
}

#[test]
fn browsing_goes_from_directories_to_sessions_and_back() {
    let mut state = browsing_state();
    assert_eq!(state.layer(), Layer::Directories);
    assert_eq!(state.directories().len(), 3);
    assert_eq!(state.directories()[0], r"D:\项目\智能助手");
    assert_eq!(state.directories()[1], "/home/work");
    assert_eq!(state.directories()[2], "未知目录");
    assert!(state.selected_session().is_none());
    assert!(state.handle_key(Key::Char('c')).is_none());
    state.handle_key(Key::Down);
    assert!(state.handle_key(Key::Enter).is_none());
    assert_eq!(state.layer(), Layer::Sessions);
    assert_eq!(state.directory(), "/home/work");
    assert_eq!(state.visible().len(), 1);
    match state.handle_key(Key::Enter) {
        Some(TuiOutcome::OpenApp(session)) => assert_eq!(session.id, "other"),
        _ => panic!("Enter opens the app"),
    }
    match state.handle_key(Key::Char('c')) {
        Some(TuiOutcome::Resume(session)) => assert_eq!(session.id, "other"),
        _ => panic!("c resumes"),
    }
    assert!(state.handle_key(Key::Esc).is_none());
    assert_eq!(state.layer(), Layer::Directories);
    assert_eq!(state.selected(), 1);
    state.handle_key(Key::Enter);
    assert!(state.handle_key(Key::Left).is_none());
    assert_eq!(state.layer(), Layer::Directories);
    assert!(matches!(state.handle_key(Key::Left), Some(TuiOutcome::Quit)));
    assert!(matches!(state.handle_key(Key::Esc), Some(TuiOutcome::Quit)));
}

#[test]
fn browsing_searches_the_layer_that_is_shown() {
    let mut state = browsing_state();
    state.handle_key(Key::Char('/'));
    for c in "HOME".chars() {
        state.handle_key(Key::Char(c));
    }
    assert_eq!(state.directories().len(), 1);
    state.handle_key(Key::Enter);
    assert_eq!(state.layer(), Layer::Directories);
    state.handle_key(Key::Enter);
    assert_eq!(state.layer(), Layer::Sessions);
    assert_eq!(state.search(), "");
    state.handle_key(Key::Char('/'));
    for c in "zzzz".chars() {
        state.handle_key(Key::Char(c));
    }
    assert!(state.visible().is_empty());
    assert_eq!(state.empty_message(), "没有会话匹配当前搜索。");
    state.handle_key(Key::Esc);
    assert!(state.handle_key(Key::Enter).is_none());
}

#[test]
fn the_screen_tells_what_is_shown() {
    let mut state = loaded_state();
    assert_eq!(state.header(), "  分组:项目  会话:2  警告:0");
    assert_eq!(state.header_height(), 1);
    assert_eq!(state.status_height(), 2);
    assert_eq!(state.shortcuts(71), "↑↓/jk 移动  / 搜索  Tab 分组  Enter 恢复  q 退出");
    assert_eq!(
        state.shortcuts(72),
        "方向键或 j/k 移动  / 搜索  Tab 切换分组  Enter 恢复  q/Esc 退出"
    );
    state.handle_key(Key::Char('/'));
    assert_eq!(state.search_marker(), "搜索> ");
    assert_eq!(state.header_height(), 2);
    state.handle_key(Key::Char('智'));
    assert_eq!(state.cursor_column(80), 8);
    assert_eq!(state.cursor_column(5), 4);
    assert_eq!(state.cursor_column(0), 0);
    assert_eq!(state.shown_search(80), "智");
    assert_eq!(state.shown_search(9), "…");
    state.handle_key(Key::Enter);
    assert_eq!(state.search_marker(), "搜索: ");
    assert!(!state.loading());
    assert!(AppState::new(None).loading());
    assert_eq!(AppState::new(None).empty_message(), "未找到可恢复的交互式会话。");
    let mut state = browsing_state();
    assert_eq!(state.header(), "  目录:3  警告:0");
    state.handle_key(Key::Enter);
    assert_eq!(state.header(), "  目录:D:\\项目\\智能助手  会话:2  警告:0");
}

#[test]
fn columns_follow_the_width_of_the_screen() {
    assert_eq!(group_width(10), 8);
    assert_eq!(group_width(34), 10);
    assert_eq!(group_width(200), 18);
    assert_eq!(title_width(10), 0);
    assert_eq!(title_width(48), 12);
    assert!(side_by_side(96, 14));
    assert!(!side_by_side(95, 14));
    assert!(!side_by_side(96, 13));
    let state = loaded_state();
    let cells = row_cells(&state.visible()[0], 48);
    assert_eq!(cells.group, "智能助手");
    assert_eq!(cells.updated, "07-10 14:00");
    assert_eq!(cells.title, "实现跨平台…");
    assert_eq!(row_cells(&state.visible()[1], 48).group, "");
}

#[test]
fn details_leave_out_what_is_not_there() {
    let mut session = test_session("id", 14);
    let lines = session_details(&session);
    let labels: Vec<&str> = lines.iter().map(|line| line.label.as_str()).collect();
    assert_eq!(
        labels,
        [
            "标题", "会话 ID", "来源", "项目", "目录", "模型", "Provider", "交互", "创建", "更新", "恢复", "", "摘要"
        ]
    );
    assert_eq!(lines[8].value, "2026-07-10T14:00:00+00:00");
    assert_eq!(lines[7].value, "交互式");
    assert_eq!(lines[10].value, "可恢复");
    session.summary = None;
    session.model = None;
    session.resume = ResumeStatus::blocked(agentmux::domain::ResumeState::CliMissing, "没有");
    session.warnings = vec![agentmux::domain::ScanWarning::new(
        agentmux::domain::WarningKind::Io,
        "w",
    )];
    let lines = session_details(&session);
    assert_eq!(lines.len(), 13);
    assert_eq!(lines[5].value, "-");
    assert_eq!(lines[10].value, "CLI 缺失");
    assert_eq!((lines[11].label.as_str(), lines[11].value.as_str()), ("说明", "没有"));
    assert_eq!((lines[12].label.as_str(), lines[12].value.as_str()), ("解析警告", "1"));
}

#[test]
fn widths_count_columns() {
    assert_eq!(display_width("a中…"), 4);
    assert_eq!(display_width("\u{7}\u{300}"), 0);
    assert_eq!(display_width(""), 0);
    assert_eq!(truncate_width("abc", 3), "abc");
    assert_eq!(truncate_width("abcd", 3), "ab…");
    assert_eq!(truncate_width("中文", 3), "中…");
    assert_eq!(truncate_width("中文", 2), "…");
    assert_eq!(truncate_width("中文", 1), "…");
    assert_eq!(truncate_width("中文", 0), "");
    assert_eq!(truncate_width("", 0), "");
    let text: Vec<char> = "abcd".chars().collect();
    assert_eq!(cut_columns(&text, &vec![3, 3, 0, 3], 9), "abcd");
    assert_eq!(cut_columns(&text, &vec![3, 3, 0, 3], 8), "abc…");
    assert_eq!(cut_columns(&text, &vec![3, 3, 0, 3], 6), "a…");
    assert_eq!(cut_columns(&text, &vec![usize::MAX, 1, 1, 1], 5), "…");
}

#[test]
fn moving_by_more_than_one_row_goes_round() {
    let mut state = loaded_state();
    state.move_selection(5);
    assert_eq!(state.selected(), 1);
    state.move_selection(-4);
    assert_eq!(state.selected(), 1);
    state.move_selection(-3);
    assert_eq!(state.selected(), 0);
    let mut empty = AppState::new(None);
    empty.move_selection(1);
    assert_eq!(empty.selected(), 0);
}
