//! Queries, ordering and grouping.

use agentmux::catalog::{
    can_search, group_sessions, matches_filters, sort_newest_first, GroupBy, SessionCatalog, SessionQuery,
};
use agentmux::domain::{InteractionType, ResumeStatus, ScanReport, ScanWarning, Session, SourceId, WarningKind};
use agentmux::time::Timestamp;
use chrono::TimeZone;
use fuzzy_matcher::skim::SkimMatcherV2;
use fuzzy_matcher::FuzzyMatcher;

fn at(hour: u32) -> Timestamp {
    let time = chrono::Utc
        .with_ymd_and_hms(2026, 7, 10, hour, 0, 0)
        .single()
        .expect("测试时间应有效");
    Timestamp::new(time.timestamp(), 0).expect("on the calendar")
}

fn session(
    id: &str,
    project: &str,
    provider: Option<&str>,
    interaction: InteractionType,
    hour: u32,
) -> Session {
    Session {
        id: id.to_owned(),
        source: SourceId::new("codex"),
        title: Some(format!("处理 {project}")),
        summary: Some("统一会话检索".to_owned()),
        cwd: Some(format!(r"D:\项目\{project}")),
        project: project.to_owned(),
        created_at: at(hour),
        updated_at: at(hour),
        model: Some("gpt-5".to_owned()),
        model_provider: provider.map(ToOwned::to_owned),
        interaction,
        raw_path: format!("{id}.jsonl"),
        warnings: Vec::new(),
        resume: ResumeStatus::ready(),
    }
}

fn report(sessions: Vec<Session>) -> ScanReport {
    ScanReport { sessions, warnings: Vec::new() }
}

fn ids(sessions: &[&Session]) -> Vec<String> {
    sessions.iter().map(|session| session.id.clone()).collect()
}

#[test]
fn one_matcher_scores_all_sessions_of_a_query() {
    let texts = [
        "abcab", "xaXbXc", "a-b-c", "ABC", "aabbcc", "cab abc", "a b c", "foo/abc", "fooAbc", "acb", "aXbc", "abXc",
        "ab cabc", "zzz", "a/b/c abc", "bca abc bca",
    ];
    for wanted in ["abc", "ab", "cb", "a c", "ABC"] {
        let sessions: Vec<Session> = texts
            .iter()
            .enumerate()
            .map(|(i, text)| {
                let kind = if i % 5 == 4 { InteractionType::NonInteractive } else { InteractionType::Interactive };
                Session { title: Some((*text).to_owned()), ..session(&format!("s{i}"), "p", None, kind, 12) }
            })
            .collect();
        let matcher = SkimMatcherV2::default().ignore_case();
        let mut scored: Vec<(i64, String)> = sessions
            .iter()
            .filter(|session| session.interaction != InteractionType::NonInteractive)
            .filter_map(|session| {
                let score = matcher.fuzzy_match(&session.searchable_text(), wanted)?;
                Some((score, session.id.clone()))
            })
            .collect();
        scored.sort_by(|left, right| right.0.cmp(&left.0));
        let catalog = SessionCatalog::from_report(report(sessions));
        let query = SessionQuery { search: Some(wanted.to_owned()), ..SessionQuery::default() };
        let expected: Vec<String> = scored.into_iter().map(|(_, id)| id).collect();
        assert_eq!(ids(&catalog.query(&query)), expected, "{wanted}");
    }
}

#[test]
fn filters_sessions_with_combined_conditions() {
    let catalog = SessionCatalog::from_report(report(vec![
        session("interactive", "agentmux", Some("custom"), InteractionType::Interactive, 12),
        session("non-interactive", "agentmux", Some("custom"), InteractionType::NonInteractive, 13),
        session("other", "其他项目", Some("openai"), InteractionType::Interactive, 14),
    ]));
    let query = SessionQuery {
        source: Some("CODEX".to_owned()),
        project: Some("agentmux".to_owned()),
        provider: Some("CUSTOM".to_owned()),
        since: Some(at(11)),
        include_non_interactive: false,
        search: None,
    };

    let result = catalog.query(&query);
    assert_eq!(result.len(), 1);
    assert_eq!(result[0].id, "interactive");
}

#[test]
fn fuzzy_searches_title_path_and_id() {
    let catalog = SessionCatalog::from_report(report(vec![session(
        "019f-agentmux",
        "智能助手",
        Some("custom"),
        InteractionType::Interactive,
        12,
    )]));

    for needle in ["处理智能", "项目智能", "019f"] {
        let query = SessionQuery {
            search: Some(needle.to_owned()),
            ..SessionQuery::default()
        };
        assert_eq!(catalog.query(&query).len(), 1);
    }
}

#[test]
fn groups_by_project_in_recent_order() {
    let catalog = SessionCatalog::from_report(report(vec![
        session("older", "agentmux", Some("custom"), InteractionType::Interactive, 10),
        session("newer", "其他项目", Some("openai"), InteractionType::Interactive, 14),
        session("middle", "agentmux", Some("custom"), InteractionType::Interactive, 12),
    ]));
    let groups = group_sessions(catalog.query(&SessionQuery::default()), GroupBy::Project);

    assert_eq!(groups[0].key, "其他项目");
    assert_eq!(groups[1].key, "agentmux");
    assert_eq!(groups[1].sessions[0].id, "middle");
    assert_eq!(groups[1].sessions[1].id, "older");
}

#[test]
fn search_drops_what_does_not_match_and_ignores_case() {
    let catalog = SessionCatalog::from_report(report(vec![
        session("abc", "Alpha", None, InteractionType::Interactive, 10),
        session("xyz", "Beta", None, InteractionType::Interactive, 11),
    ]));
    let query = SessionQuery { search: Some("  ALPHA ".to_owned()), ..SessionQuery::default() };
    assert_eq!(ids(&catalog.query(&query)), ["abc"]);
    let query = SessionQuery { search: Some("zzzzzz".to_owned()), ..SessionQuery::default() };
    assert!(catalog.query(&query).is_empty());
    let query = SessionQuery { search: Some("   ".to_owned()), ..SessionQuery::default() };
    assert_eq!(ids(&catalog.query(&query)), ["xyz", "abc"]);
}

#[test]
fn given_scores_decide_before_updates_do() {
    let catalog = SessionCatalog::from_report(report(vec![
        session("a", "p", None, InteractionType::Interactive, 10),
        session("b", "p", None, InteractionType::Interactive, 12),
        session("c", "p", None, InteractionType::Interactive, 11),
        session("d", "p", None, InteractionType::NonInteractive, 13),
    ]));
    // The catalog holds d, b, c, a.
    let scores = vec![Some(100), Some(1), Some(7), Some(7)];
    assert_eq!(ids(&catalog.rank_matches(&SessionQuery::default(), &scores)), ["c", "a", "b"]);
    let scores = vec![Some(100), None, Some(7), Some(8)];
    assert_eq!(ids(&catalog.rank_matches(&SessionQuery::default(), &scores)), ["a", "c"]);
}

#[test]
fn catalog_keeps_warnings_and_puts_the_latest_first() {
    let catalog = SessionCatalog::from_report(ScanReport {
        sessions: vec![
            session("a", "p", None, InteractionType::Interactive, 10),
            session("b", "p", None, InteractionType::Interactive, 12),
            session("c", "p", None, InteractionType::Interactive, 12),
        ],
        warnings: vec![ScanWarning::new(WarningKind::Io, "x")],
    });
    assert_eq!(catalog.warnings().len(), 1);
    let order: Vec<&str> = catalog.sessions().iter().map(|s| s.id.as_str()).collect();
    assert_eq!(order, ["b", "c", "a"]);
    let again = sort_newest_first(catalog.sessions().to_vec());
    let order: Vec<&str> = again.iter().map(|s| s.id.as_str()).collect();
    assert_eq!(order, ["b", "c", "a"]);
}

#[test]
fn finds_by_id_and_source() {
    let catalog = SessionCatalog::from_report(report(vec![
        session("a", "p", None, InteractionType::Interactive, 10),
        session("b", "p", None, InteractionType::Interactive, 12),
    ]));
    assert_eq!(catalog.find("a", None).map(|s| s.id.as_str()), Some("a"));
    assert_eq!(catalog.find("a", Some("CODEX")).map(|s| s.id.as_str()), Some("a"));
    assert!(catalog.find("a", Some("aider")).is_none());
    assert!(catalog.find("A", None).is_none());
}

#[test]
fn each_condition_excludes_on_its_own() {
    let one = session("a", "p", Some("custom"), InteractionType::Interactive, 10);
    assert!(matches_filters(&one, &SessionQuery::default()));
    let query = SessionQuery { source: Some("other".to_owned()), ..SessionQuery::default() };
    assert!(!matches_filters(&one, &query));
    let query = SessionQuery { project: Some("other".to_owned()), ..SessionQuery::default() };
    assert!(!matches_filters(&one, &query));
    let query = SessionQuery { provider: Some("other".to_owned()), ..SessionQuery::default() };
    assert!(!matches_filters(&one, &query));
    let query = SessionQuery { since: Some(at(11)), ..SessionQuery::default() };
    assert!(!matches_filters(&one, &query));
    let query = SessionQuery { since: Some(at(10)), ..SessionQuery::default() };
    assert!(matches_filters(&one, &query));
    let without = session("a", "p", None, InteractionType::Unknown, 10);
    let query = SessionQuery { provider: Some("custom".to_owned()), ..SessionQuery::default() };
    assert!(!matches_filters(&without, &query));
    assert!(matches_filters(&without, &SessionQuery::default()));
}

#[test]
fn groups_by_date_source_and_provider() {
    let mut late = session("a", "p", None, InteractionType::Interactive, 10);
    late.source = SourceId::new("aider");
    let early = session("b", "q", Some("custom"), InteractionType::Interactive, 9);
    let groups = group_sessions(vec![&late, &early], GroupBy::Date);
    assert_eq!(groups.len(), 1);
    assert_eq!(groups[0].key, "2026-07-10");
    assert_eq!(groups[0].sessions.len(), 2);
    let groups = group_sessions(vec![&late, &early], GroupBy::Source);
    assert_eq!(groups[0].key, "aider");
    assert_eq!(groups[1].key, "codex");
    let groups = group_sessions(vec![&late, &early], GroupBy::Provider);
    assert_eq!(groups[0].key, "unknown");
    assert_eq!(groups[1].key, "custom");
    assert!(group_sessions(Vec::new(), GroupBy::Project).is_empty());
}

#[test]
fn groupings_come_round_after_four() {
    assert_eq!(GroupBy::Project.next(), GroupBy::Date);
    assert_eq!(GroupBy::Date.next(), GroupBy::Source);
    assert_eq!(GroupBy::Source.next(), GroupBy::Provider);
    assert_eq!(GroupBy::Provider.next(), GroupBy::Project);
}

#[test]
fn ordinary_sessions_can_be_searched() {
    let one = session("a", "p", None, InteractionType::Interactive, 10);
    let searching = SessionQuery { search: Some("x".to_owned()), ..SessionQuery::default() };
    assert!(can_search(&[one], &searching));
    let mut huge = session("a", "p", None, InteractionType::Interactive, 10);
    huge.summary = Some("x".repeat(67_108_862));
    let huge = [huge];
    assert!(!can_search(&huge, &searching));
    assert!(can_search(&huge, &SessionQuery::default()));
    let elsewhere = SessionQuery { project: Some("q".to_owned()), ..searching };
    assert!(can_search(&huge, &elsewhere));
}

#[test]
fn a_blank_search_is_no_search() {
    let catalog = SessionCatalog::from_report(report(vec![
        session("a", "p", None, InteractionType::Interactive, 10),
        session("b", "q", None, InteractionType::Interactive, 12),
    ]));
    let blank = SessionQuery { search: Some(" \t".to_owned()), ..SessionQuery::default() };
    assert_eq!(ids(&catalog.query(&blank)), ids(&catalog.query(&SessionQuery::default())));
    assert_eq!(ids(&catalog.query(&blank)), ["b", "a"]);
}

#[test]
fn search_finds_by_each_text_and_in_order_only() {
    let catalog = SessionCatalog::from_report(report(vec![session(
        "019f-ab",
        "智能助手",
        None,
        InteractionType::Interactive,
        12,
    )]));
    let finds = |text: &str| {
        let query = SessionQuery { search: Some(text.to_owned()), ..SessionQuery::default() };
        catalog.query(&query).len() == 1
    };
    assert!(finds("019f-ab"));
    assert!(finds("处理 智能助手"));
    assert!(finds("统一会话检索"));
    assert!(finds("智能助手"));
    assert!(finds(r"D:\项目\智能助手"));
    assert!(finds(" 019F-AB "));
    assert!(finds("09-b处会助"));
    assert!(finds("   "));
    assert!(!finds("ba"));
    assert!(!finds("019f-abc"));
    assert!(!finds("检索统一"));
}

#[test]
fn sessions_of_one_day_form_one_group() {
    let sessions = [
        session("late", "a", None, InteractionType::Interactive, 23),
        session("early", "b", None, InteractionType::Interactive, 0),
    ];
    let mut before = session("before", "c", None, InteractionType::Interactive, 0);
    before.updated_at = Timestamp::new(at(0).seconds() - 1, 999_999_999).expect("on the calendar");
    let groups = group_sessions(vec![&sessions[0], &sessions[1], &before], GroupBy::Date);
    assert_eq!(groups.len(), 2);
    assert_eq!((groups[0].key.as_str(), groups[0].sessions.len()), ("2026-07-10", 2));
    assert_eq!((groups[1].key.as_str(), groups[1].sessions.len()), ("2026-07-09", 1));
}
