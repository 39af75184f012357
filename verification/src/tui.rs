//! The interactive session list: what it shows and what each key does.

use vstd::prelude::*;

use crate::catalog::{
    asked, can_search, found, fuzzy_score, group_sessions, grouped, needle, new_matcher, newest_first, next_grouping,
    occurs_in, passes, plain_query, scores_for, searchable, update_ranks, GroupBy, GroupView, QueryView,
    SessionCatalog, SessionGroup, SessionQuery, MATCH_LIMIT,
};
use crate::catalog_laws::{qualifies, query_finds_exactly_what_qualifies};
use crate::domain::{search_text, ReportView, ScanReport, Session, SessionView};
use crate::model::{lemma_views_push, opt_view, or_empty, or_text, text_or, views};
use crate::order::{stable_order, stable_order_exists};
use crate::text::{chars_of, lemma_trimmed_is_no_longer, lemma_trimmed_of_less, same_text, text_between, trim, trimmed};

verus! {

/// A key that was pressed.
#[derive(Debug, Clone, Copy, PartialEq, Eq, Structural)]
pub enum Key {
    /// A character.
    Char(char),
    /// Escape.
    Esc,
    /// Enter.
    Enter,
    /// Backspace.
    Backspace,
    /// Arrow up.
    Up,
    /// Arrow down.
    Down,
    /// Arrow left.
    Left,
    /// Tab.
    Tab,
    /// Any other key.
    Other,
}

/// What the list shows.
#[derive(Debug, Clone, Copy, PartialEq, Eq, Structural)]
pub enum Layer {
    /// All sessions, in groups.
    Grouped,
    /// The working directories of the sessions.
    Directories,
    /// The sessions of one working directory.
    Sessions,
}

/// What the user chose.
#[derive(Debug)]
pub enum TuiOutcome {
    /// To quit.
    Quit,
    /// To resume a session in the terminal.
    Resume(Box<Session>),
    /// To open a session in the desktop app.
    OpenApp(Box<Session>),
}

/// The model of a `TuiOutcome`.
pub enum TuiOutcomeView {
    Quit,
    Resume(SessionView),
    OpenApp(SessionView),
}

impl View for TuiOutcome {
    type V = TuiOutcomeView;

    open spec fn view(&self) -> TuiOutcomeView {
        match self {
            TuiOutcome::Quit => TuiOutcomeView::Quit,
            TuiOutcome::Resume(session) => TuiOutcomeView::Resume(session@),
            TuiOutcome::OpenApp(session) => TuiOutcomeView::OpenApp(session@),
        }
    }
}

/// One row of a session list.
#[derive(Debug)]
pub struct VisibleSession {
    /// The name of the group that starts here, if one does.
    pub group: Option<String>,
    /// The session.
    pub session: Session,
}

/// The model of a `VisibleSession`.
pub struct RowView {
    pub group: Option<Seq<char>>,
    pub session: SessionView,
}

impl View for VisibleSession {
    type V = RowView;

    open spec fn view(&self) -> RowView {
        RowView { group: opt_view(self.group), session: self.session@ }
    }
}

/// The state of the list, without what follows from it.
pub struct TuiView {
    /// All sessions, once they were scanned.
    pub sessions: Option<Seq<SessionView>>,
    /// How many problems the scan met.
    pub warning_count: nat,
    /// What is shown.
    pub layer: Layer,
    /// The working directory whose sessions are shown.
    pub directory: Seq<char>,
    /// Where the selection stood among the directories.
    pub directory_selected: nat,
    /// What sessions are grouped by.
    pub group_by: GroupBy,
    /// The row that is selected.
    pub selected: nat,
    /// What is searched for.
    pub search: Seq<char>,
    /// Whether the search is being typed.
    pub search_mode: bool,
    /// The error to show.
    pub status_error: Option<Seq<char>>,
}

/// The query that finds what is shown for the search `search`.
pub open spec fn shown_query(search: Seq<char>) -> QueryView {
    QueryView {
        search: if search.len() > 0 {
            Some(search)
        } else {
            None
        },
        ..plain_query()
    }
}

fn query_for(search: &str) -> (r: SessionQuery)
    ensures
        r@ == shown_query(search@),
{
    let mut query = SessionQuery::default();
    if chars_of(search).len() > 0 {
        query.search = Some(search.to_owned());
    }
    query
}

/// Whether the search of the state `s` can be made among its sessions.
pub open spec fn search_fits(s: TuiView) -> bool {
    s.sessions matches Some(all) ==> searchable(all, shown_query(s.search))
}

proof fn lemma_less_fits(s: TuiView)
    requires
        search_fits(s),
        s.search.len() > 0,
    ensures
        search_fits(TuiView { search: s.search.drop_last(), ..s }),
{
    if let Some(all) = s.sessions {
        let q = shown_query(s.search);
        let less = shown_query(s.search.drop_last());
        lemma_trimmed_of_less(s.search);
        if needle(less) is Some {
            assert forall|i: int| 0 <= i < all.len() && passes(#[trigger] all[i], less) implies search_text(
                all[i],
            ).len() <= MATCH_LIMIT by {
                assert(passes(all[i], q));
            }
        }
    }
}

/// The rows of the group `g`: its name stands at the first.
pub open spec fn group_rows(g: GroupView) -> Seq<RowView> {
    Seq::new(
        g.sessions.len(),
        |i: int|
            RowView {
                group: if i == 0 {
                    Some(g.key)
                } else {
                    None
                },
                session: g.sessions[i],
            },
    )
}

/// The rows of `groups`, group by group.
pub open spec fn rows_of(groups: Seq<GroupView>) -> Seq<RowView>
    decreases groups.len(),
{
    if groups.len() == 0 {
        Seq::empty()
    } else {
        rows_of(groups.drop_last()) + group_rows(groups.last())
    }
}

/// The working directory of the session `s` as it is shown.
pub open spec fn directory_of(s: SessionView) -> Seq<char> {
    or_text(s.cwd, "未知目录"@)
}

/// The rows of `sessions` without groups.
pub open spec fn plain_rows(sessions: Seq<SessionView>) -> Seq<RowView> {
    Seq::new(sessions.len(), |i: int| RowView { group: None, session: sessions[i] })
}

/// The directories of `sessions`, each once, in the order of their first sessions.
pub open spec fn directories_of(sessions: Seq<SessionView>) -> Seq<Seq<char>>
    decreases sessions.len(),
{
    if sessions.len() == 0 {
        Seq::empty()
    } else {
        let before = directories_of(sessions.drop_last());
        let here = directory_of(sessions.last());
        if before.contains(here) {
            before
        } else {
            before.push(here)
        }
    }
}

/// Whether the directory `directory` is found by the search `search`; a blank search finds all.
pub open spec fn directory_matches(directory: Seq<char>, search: Seq<char>) -> bool {
    trimmed(search).len() == 0 || occurs_in(trimmed(search), directory)
}

/// Those of `directories` that the search `search` finds, in order.
pub open spec fn matching_directories(directories: Seq<Seq<char>>, search: Seq<char>) -> Seq<Seq<char>> {
    directories.filter(|directory: Seq<char>| directory_matches(directory, search))
}

/// Those of `sessions` whose working directory is `directory`, in order.
pub open spec fn sessions_in(sessions: Seq<SessionView>, directory: Seq<char>) -> Seq<SessionView> {
    sessions.filter(|s: SessionView| directory_of(s) == directory)
}

/// The session rows that the state `s` shows.
pub open spec fn shown_rows(s: TuiView) -> Seq<RowView> {
    match s.sessions {
        None => Seq::empty(),
        Some(all) => match s.layer {
            Layer::Grouped => rows_of(grouped(found(all, shown_query(s.search)), s.group_by)),
            Layer::Directories => Seq::empty(),
            Layer::Sessions => plain_rows(
                sessions_in(found(all, shown_query(s.search)), s.directory),
            ),
        },
    }
}

/// The directories that the state `s` shows.
pub open spec fn shown_directories(s: TuiView) -> Seq<Seq<char>> {
    match s.sessions {
        None => Seq::empty(),
        Some(all) => if s.layer == Layer::Directories {
            matching_directories(directories_of(found(all, plain_query())), s.search)
        } else {
            Seq::empty()
        },
    }
}

/// How many rows the state `s` shows.
pub open spec fn row_count(s: TuiView) -> nat {
    if s.layer == Layer::Directories {
        shown_directories(s).len()
    } else {
        shown_rows(s).len()
    }
}

/// `selected`, or the last of `count` rows where it is beyond them.
pub open spec fn clamped(selected: nat, count: nat) -> nat {
    if count == 0 {
        0
    } else if selected < count {
        selected
    } else {
        (count - 1) as nat
    }
}

/// The state `s` with its selection on a row that it shows.
pub open spec fn settled(s: TuiView) -> TuiView {
    TuiView { selected: clamped(s.selected, row_count(s)), ..s }
}

/// Whether the selection of `s` is on a row that it shows, or on the first place where it shows none.
pub open spec fn on_a_row(s: TuiView) -> bool {
    s.selected < row_count(s) || (s.selected == 0 && row_count(s) == 0)
}

/// The selection `delta` rows further, from the last row on at the first.
pub open spec fn moved(selected: nat, count: nat, delta: int) -> nat {
    if count == 0 {
        selected
    } else {
        ((selected + delta) % (count as int)) as nat
    }
}

/// The state `s` once its selection was moved by `delta` rows.
pub open spec fn with_move(s: TuiView, delta: int) -> TuiView {
    TuiView { selected: moved(s.selected, row_count(s), delta), ..s }
}

/// The session that the state `s` has selected, if any.
pub open spec fn selected_of(s: TuiView) -> Option<SessionView> {
    if s.selected < shown_rows(s).len() {
        Some(shown_rows(s)[s.selected as int].session)
    } else {
        None
    }
}

/// A list that has just been opened and waits for the scan.
pub open spec fn opened(layer: Layer, error: Option<Seq<char>>) -> TuiView {
    TuiView {
        sessions: None,
        warning_count: 0,
        layer,
        directory: Seq::empty(),
        directory_selected: 0,
        group_by: GroupBy::Project,
        selected: 0,
        search: Seq::empty(),
        search_mode: false,
        status_error: error,
    }
}

/// The state of a list that was `s` once a scan reported.
pub open spec fn loaded(s: TuiView, report: ReportView) -> TuiView {
    settled(
        TuiView {
            sessions: Some(newest_first(report.sessions)),
            warning_count: report.warnings.len(),
            ..s
        },
    )
}

/// The state `s` once `search` is searched for.
pub open spec fn with_search(s: TuiView, search: Seq<char>) -> TuiView {
    settled(TuiView { search, ..s })
}

/// What a key does to the state `s` while a search is typed.
pub open spec fn typed(s: TuiView, key: Key) -> TuiView {
    match key {
        Key::Esc | Key::Enter => TuiView { search_mode: false, ..s },
        Key::Backspace => if s.search.len() > 0 {
            with_search(s, s.search.drop_last())
        } else {
            with_search(s, s.search)
        },
        Key::Char(c) => with_search(s, s.search.push(c)),
        _ => s,
    }
}

/// The state `s` once the selected directory was entered.
pub open spec fn entered(s: TuiView) -> TuiView {
    if s.selected < shown_directories(s).len() {
        TuiView {
            layer: Layer::Sessions,
            directory: shown_directories(s)[s.selected as int],
            directory_selected: s.selected,
            selected: 0,
            search: Seq::empty(),
            ..s
        }
    } else {
        s
    }
}

/// The state `s` once its directory was left.
pub open spec fn left(s: TuiView) -> TuiView {
    settled(
        TuiView {
            layer: Layer::Directories,
            selected: s.directory_selected,
            search: Seq::empty(),
            ..s
        },
    )
}

/// The state that the key `key` leads to from `s`, and what the user chose by it, if anything.
pub open spec fn after_key(s: TuiView, key: Key) -> (TuiView, Option<TuiOutcomeView>) {
    if s.search_mode {
        (typed(s, key), None)
    } else {
        match key {
            Key::Char('q') => (s, Some(TuiOutcomeView::Quit)),
            Key::Esc => if s.layer == Layer::Sessions {
                (left(s), None)
            } else {
                (s, Some(TuiOutcomeView::Quit))
            },
            Key::Left => match s.layer {
                Layer::Grouped => (s, None),
                Layer::Directories => (s, Some(TuiOutcomeView::Quit)),
                Layer::Sessions => (left(s), None),
            },
            Key::Char('/') => (TuiView { search_mode: true, ..s }, None),
            Key::Char('j') | Key::Down => (with_move(s, 1), None),
            Key::Char('k') | Key::Up => (with_move(s, -1), None),
            Key::Tab => if s.layer == Layer::Grouped {
                (settled(TuiView { group_by: next_grouping(s.group_by), ..s }), None)
            } else {
                (s, None)
            },
            Key::Enter => match s.layer {
                Layer::Grouped => (
                    s,
                    match selected_of(s) {
                        Some(session) => Some(TuiOutcomeView::Resume(session)),
                        None => None,
                    },
                ),
                Layer::Directories => (entered(s), None),
                Layer::Sessions => (
                    s,
                    match selected_of(s) {
                        Some(session) => Some(TuiOutcomeView::OpenApp(session)),
                        None => None,
                    },
                ),
            },
            Key::Char('c') => if s.layer == Layer::Sessions {
                (
                    s,
                    match selected_of(s) {
                        Some(session) => Some(TuiOutcomeView::Resume(session)),
                        None => None,
                    },
                )
            } else {
                (s, None)
            },
            _ => (s, None),
        }
    }
}

/// Whether what a search looks at in each of `sessions` is within `MATCH_LIMIT`.
spec fn within_limit(sessions: Seq<SessionView>) -> bool {
    forall|i: int| 0 <= i < sessions.len() ==> search_text(#[trigger] sessions[i]).len() <= MATCH_LIMIT
}

proof fn lemma_found_is_within_limit(sessions: Seq<SessionView>, search: Seq<char>)
    requires
        searchable(sessions, shown_query(search)),
        trimmed(search).len() > 0,
    ensures
        within_limit(found(sessions, plain_query())),
{
    let q = plain_query();
    lemma_trimmed_is_no_longer(search);
    assert(needle(shown_query(search)) is Some);
    let places = query_finds_exactly_what_qualifies(sessions, q, scores_for(sessions, q));
    let result = found(sessions, q);
    assert forall|k: int| 0 <= k < result.len() implies search_text(#[trigger] result[k]).len()
        <= MATCH_LIMIT by {
        assert(result[k] == sessions[places[k]]);
        assert(qualifies(sessions, q, scores_for(sessions, q), places[k]));
        assert(passes(sessions[places[k]], shown_query(search)));
    }
}

proof fn lemma_directory_is_within_limit(s: SessionView)
    requires
        search_text(s).len() <= MATCH_LIMIT,
    ensures
        directory_of(s).len() <= MATCH_LIMIT,
{
    reveal_strlit("未知目录");
    let head = s.id + " "@ + or_empty(s.title) + " "@ + or_empty(s.summary) + " "@ + s.project + " "@;
    assert(search_text(s) == head + or_empty(s.cwd));
}

fn session_rows(groups: Vec<SessionGroup<'_>>) -> (r: Vec<VisibleSession>)
    ensures
        views(r@) == rows_of(views(groups@)),
{
    let ghost all = views(groups@);
    let mut r: Vec<VisibleSession> = Vec::new();
    let mut i: usize = 0;
    proof {
        assert(views(r@) =~= rows_of(all.take(0)));
    }
    while i < groups.len()
        invariant
            i <= groups@.len(),
            all == views(groups@),
            views(r@) == rows_of(all.take(i as int)),
        decreases groups@.len() - i,
    {
        let ghost start = views(r@);
        let ghost here = group_rows(groups@[i as int]@);
        let mut k: usize = 0;
        proof {
            assert(start + here.take(0) =~= start);
        }
        while k < groups[i].sessions.len()
            invariant
                i < groups@.len(),
                k <= groups@[i as int].sessions@.len(),
                here == group_rows(groups@[i as int]@),
                views(r@) == start + here.take(k as int),
            decreases groups@[i as int].sessions@.len() - k,
        {
            let group = if k == 0 {
                Some(groups[i].key.clone())
            } else {
                None
            };
            let ghost before = r@;
            r.push(VisibleSession { group, session: groups[i].sessions[k].clone() });
            proof {
                lemma_views_push(before, r@.last());
                assert(start + here.take(k + 1) =~= (start + here.take(k as int)).push(here[k as int]));
            }
            k = k + 1;
        }
        proof {
            assert(here.take(here.len() as int) == here);
            assert(all.take(i + 1).drop_last() == all.take(i as int));
            assert(all.take(i + 1).last() == groups@[i as int]@);
        }
        i = i + 1;
    }
    proof {
        assert(all.take(all.len() as int) == all);
    }
    r
}

fn directory_list(sessions: &Vec<&Session>) -> (r: Vec<String>)
    ensures
        views(r@) == directories_of(views(sessions@)),
{
    let ghost all = views(sessions@);
    let mut r: Vec<String> = Vec::new();
    let mut i: usize = 0;
    proof {
        assert(views(r@) =~= directories_of(all.take(0)));
    }
    while i < sessions.len()
        invariant
            i <= sessions@.len(),
            all == views(sessions@),
            views(r@) == directories_of(all.take(i as int)),
        decreases sessions@.len() - i,
    {
        let here = text_or(&sessions[i].cwd, "未知目录");
        let ghost names = views(r@);
        proof {
            assert(all.take(i + 1).drop_last() == all.take(i as int));
            assert(all.take(i + 1).last() == sessions@[i as int]@);
            assert(names.len() == r@.len());
        }
        let mut known = false;
        let mut k: usize = 0;
        while k < r.len() && !known
            invariant
                k <= r@.len(),
                names == views(r@),
                known ==> names.contains(here@),
                !known ==> forall|j: int| 0 <= j < k ==> #[trigger] names[j] != here@,
            decreases r@.len() - k,
        {
            proof {
                assert(names[k as int] == r@[k as int]@);
            }
            if same_text(r[k].as_str(), here) {
                known = true;
            }
            k = k + 1;
        }
        if !known {
            proof {
                assert(!names.contains(here@));
            }
            let ghost before = r@;
            r.push(here.to_owned());
            proof {
                lemma_views_push(before, r@.last());
            }
        }
        i = i + 1;
    }
    proof {
        assert(all.take(all.len() as int) == all);
    }
    r
}

proof fn lemma_directories_are_within_limit(sessions: Seq<SessionView>)
    requires
        within_limit(sessions),
    ensures
        forall|i: int|
            0 <= i < directories_of(sessions).len() ==> (#[trigger] directories_of(sessions)[i]).len()
                <= MATCH_LIMIT,
    decreases sessions.len(),
{
    if sessions.len() > 0 {
        let rest = sessions.drop_last();
        assert forall|i: int| 0 <= i < rest.len() implies search_text(#[trigger] rest[i]).len()
            <= MATCH_LIMIT by {
            assert(rest[i] == sessions[i]);
        }
        lemma_directories_are_within_limit(rest);
        assert(search_text(sessions[sessions.len() - 1]).len() <= MATCH_LIMIT);
        lemma_directory_is_within_limit(sessions.last());
        let before = directories_of(rest);
        let all = directories_of(sessions);
        assert forall|i: int| 0 <= i < all.len() implies (#[trigger] all[i]).len() <= MATCH_LIMIT by {
            if i < before.len() {
                assert(all[i] == before[i]);
            } else {
                assert(all[i] == directory_of(sessions.last()));
            }
        }
    }
}

fn filter_directories(directories: Vec<String>, search: &str) -> (r: Vec<String>)
    requires
        trimmed(search@).len() > 0 ==> trimmed(search@).len() <= MATCH_LIMIT && forall|i: int|
            0 <= i < directories@.len() ==> (#[trigger] directories@[i])@.len() <= MATCH_LIMIT,
    ensures
        views(r@) == matching_directories(views(directories@), search@),
{
    let wanted = trim(search);
    let all_match = chars_of(wanted.as_str()).len() == 0;
    let mut matcher = new_matcher();
    let ghost all = views(directories@);
    let ghost keep = |directory: Seq<char>| directory_matches(directory, search@);
    let mut r: Vec<String> = Vec::new();
    let mut i: usize = 0;
    proof {
        reveal(Seq::filter);
        assert(views(r@) =~= all.take(0).filter(keep));
    }
    while i < directories.len()
        invariant
            i <= directories@.len(),
            all == views(directories@),
            keep == (|directory: Seq<char>| directory_matches(directory, search@)),
            wanted@ == trimmed(search@),
            !all_match ==> wanted@.len() <= MATCH_LIMIT,
            all_match == (wanted@.len() == 0),
            asked(matcher) is Some,
            !all_match ==> forall|k: int|
                0 <= k < directories@.len() ==> (#[trigger] directories@[k])@.len() <= MATCH_LIMIT,
            views(r@) == all.take(i as int).filter(keep),
        decreases directories@.len() - i,
    {
        let here = &directories[i];
        proof {
            reveal(Seq::filter);
            assert(all.take(i + 1).drop_last() == all.take(i as int));
            assert(all.take(i + 1).last() == here@);
        }
        if all_match || fuzzy_score(&mut matcher, here.as_str(), wanted.as_str()).is_some() {
            let ghost before = r@;
            r.push(here.clone());
            proof {
                lemma_views_push(before, r@.last());
            }
        }
        i = i + 1;
    }
    proof {
        assert(all.take(all.len() as int) == all);
    }
    r
}

fn rows_in_directory(sessions: &Vec<&Session>, directory: &str) -> (r: Vec<VisibleSession>)
    ensures
        views(r@) == plain_rows(sessions_in(views(sessions@), directory@)),
{
    let ghost all = views(sessions@);
    let ghost keep = |s: SessionView| directory_of(s) == directory@;
    let mut r: Vec<VisibleSession> = Vec::new();
    let mut i: usize = 0;
    proof {
        reveal(Seq::filter);
        assert(views(r@) =~= plain_rows(all.take(0).filter(keep)));
    }
    while i < sessions.len()
        invariant
            i <= sessions@.len(),
            all == views(sessions@),
            keep == (|s: SessionView| directory_of(s) == directory@),
            views(r@) == plain_rows(all.take(i as int).filter(keep)),
        decreases sessions@.len() - i,
    {
        let session = sessions[i];
        proof {
            reveal(Seq::filter);
            assert(all.take(i + 1).drop_last() == all.take(i as int));
            assert(all.take(i + 1).last() == session@);
        }
        if same_text(text_or(&session.cwd, "未知目录"), directory) {
            let ghost before = r@;
            let ghost kept = all.take(i as int).filter(keep);
            r.push(VisibleSession { group: None, session: session.clone() });
            proof {
                lemma_views_push(before, r@.last());
                assert(plain_rows(kept.push(session@)) =~= plain_rows(kept).push(r@.last()@));
            }
        }
        i = i + 1;
    }
    proof {
        assert(all.take(all.len() as int) == all);
    }
    r
}

/// The state of the interactive session list.
#[derive(Debug)]
pub struct AppState {
    catalog: Option<SessionCatalog>,
    visible: Vec<VisibleSession>,
    directories: Vec<String>,
    warning_count: usize,
    layer: Layer,
    directory: String,
    directory_selected: usize,
    group_by: GroupBy,
    selected: usize,
    search: String,
    search_mode: bool,
    status_error: Option<String>,
}

impl View for AppState {
    type V = TuiView;

    closed spec fn view(&self) -> TuiView {
        TuiView {
            sessions: match self.catalog {
                Some(catalog) => Some(catalog@.sessions),
                None => None,
            },
            warning_count: self.warning_count as nat,
            layer: self.layer,
            directory: self.directory@,
            directory_selected: self.directory_selected as nat,
            group_by: self.group_by,
            selected: self.selected as nat,
            search: self.search@,
            search_mode: self.search_mode,
            status_error: opt_view(self.status_error),
        }
    }
}

impl AppState {
    /// Whether the rows are those that the state calls for, the selection is on one of them, and the
    /// search can be made.
    pub closed spec fn wf(&self) -> bool {
        &&& views(self.visible@) == shown_rows(self@)
        &&& views(self.directories@) == shown_directories(self@)
        &&& self@ == settled(self@)
        &&& search_fits(self@)
    }

    fn open(layer: Layer, initial_error: Option<String>) -> (r: AppState)
        ensures
            r@ == opened(layer, opt_view(initial_error)),
            r.wf(),
    {
        let r = AppState {
            catalog: None,
            visible: Vec::new(),
            directories: Vec::new(),
            warning_count: 0,
            layer,
            directory: String::new(),
            directory_selected: 0,
            group_by: GroupBy::Project,
            selected: 0,
            search: String::new(),
            search_mode: false,
            status_error: initial_error,
        };
        proof {
            assert(r@.directory =~= Seq::<char>::empty());
            assert(r@.search =~= Seq::<char>::empty());
            assert(views(r.visible@) =~= Seq::<RowView>::empty());
            assert(views(r.directories@) =~= Seq::<Seq<char>>::empty());
        }
        r
    }

    /// A list of all sessions in groups that waits for the scan.
    pub fn new(initial_error: Option<String>) -> (r: AppState)
        ensures
            r@ == opened(Layer::Grouped, opt_view(initial_error)),
            r.wf(),
            on_a_row(r@),
    {
        AppState::open(Layer::Grouped, initial_error)
    }

    /// A list of working directories that waits for the scan.
    pub fn browse(initial_error: Option<String>) -> (r: AppState)
        ensures
            r@ == opened(Layer::Directories, opt_view(initial_error)),
            r.wf(),
            on_a_row(r@),
    {
        AppState::open(Layer::Directories, initial_error)
    }

    fn rebuild_visible(&mut self)
        requires
            search_fits(old(self)@),
        ensures
            final(self)@ == settled(old(self)@),
            final(self).wf(),
    {
        let ghost start = self@;
        let mut visible: Vec<VisibleSession> = Vec::new();
        let mut directories: Vec<String> = Vec::new();
        proof {
            assert(views(visible@) =~= Seq::<RowView>::empty());
            assert(views(directories@) =~= Seq::<Seq<char>>::empty());
        }
        if let Some(catalog) = &self.catalog {
            match self.layer {
                Layer::Grouped => {
                    let query = query_for(self.search.as_str());
                    visible = session_rows(group_sessions(catalog.query(&query), self.group_by));
                },
                Layer::Directories => {
                    let found_sessions = catalog.query(&SessionQuery::default());
                    let all = directory_list(&found_sessions);
                    proof {
                        if trimmed(self.search@).len() > 0 {
                            lemma_trimmed_is_no_longer(self.search@);
                            lemma_found_is_within_limit(catalog@.sessions, self.search@);
                            lemma_directories_are_within_limit(found(catalog@.sessions, plain_query()));
                            assert forall|i: int| 0 <= i < all@.len() implies (#[trigger] all@[i])@.len()
                                <= MATCH_LIMIT by {
                                assert(views(all@)[i] == all@[i]@);
                            }
                        }
                    }
                    directories = filter_directories(all, self.search.as_str());
                },
                Layer::Sessions => {
                    let query = query_for(self.search.as_str());
                    let found_sessions = catalog.query(&query);
                    visible = rows_in_directory(&found_sessions, self.directory.as_str());
                },
            }
        }
        proof {
            assert(views(visible@) == shown_rows(start));
            assert(views(directories@) == shown_directories(start));
            assert(views(visible@).len() == visible@.len());
            assert(views(directories@).len() == directories@.len());
        }
        let count: usize = if self.layer == Layer::Directories {
            directories.len()
        } else {
            visible.len()
        };
        self.visible = visible;
        self.directories = directories;
        if count == 0 {
            self.selected = 0;
        } else if self.selected >= count {
            self.selected = count - 1;
        }
        proof {
            assert(shown_rows(self@) == shown_rows(start));
            assert(shown_directories(self@) == shown_directories(start));
        }
    }

    /// Takes the report of the scan and shows its sessions.
    pub fn load(&mut self, report: ScanReport)
        requires
            old(self).wf(),
            search_fits(TuiView { sessions: Some(report@.sessions), ..old(self)@ }),
        ensures
            final(self).wf(),
            final(self)@ == loaded(old(self)@, report@),
            on_a_row(final(self)@),
    {
        proof {
            assert(views(report.warnings@).len() == report.warnings@.len());
            lemma_newest_first_is_searchable(report@.sessions, shown_query(self.search@));
        }
        self.warning_count = report.warnings.len();
        self.catalog = Some(SessionCatalog::from_report(report));
        self.rebuild_visible();
    }

    /// Moves the selection by `delta` rows, from the last row on at the first and back.
    pub fn move_selection(&mut self, delta: isize)
        requires
            old(self).wf(),
        ensures
            final(self).wf(),
            final(self)@ == with_move(old(self)@, delta as int),
            on_a_row(final(self)@),
    {
        proof {
            assert(views(self.visible@).len() == self.visible@.len());
            assert(views(self.directories@).len() == self.directories@.len());
        }
        let count: usize = if self.layer == Layer::Directories {
            self.directories.len()
        } else {
            self.visible.len()
        };
        if count == 0 {
            return;
        }
        let sum: i128 = self.selected as i128 + delta as i128;
        let n: i128 = count as i128;
        let target: i128 = if sum >= 0 {
            sum % n
        } else {
            let over: i128 = (-sum) % n;
            proof {
                let k = -sum as int;
                let q = k / (n as int);
                vstd::arithmetic::div_mod::lemma_fundamental_div_mod(k, n as int);
                if over == 0 {
                    assert(sum as int == -q * (n as int) + 0) by (nonlinear_arith)
                        requires
                            k == n * q + over,
                            over == 0,
                            k == -sum,
                    ;
                    vstd::arithmetic::div_mod::lemma_fundamental_div_mod_converse(
                        sum as int,
                        n as int,
                        -q,
                        0,
                    );
                } else {
                    assert(sum as int == (-q - 1) * (n as int) + (n - over)) by (nonlinear_arith)
                        requires
                            k == n * q + over,
                            k == -sum,
                    ;
                    vstd::arithmetic::div_mod::lemma_fundamental_div_mod_converse(
                        sum as int,
                        n as int,
                        -q - 1,
                        n - over,
                    );
                }
            }
            if over == 0 {
                0
            } else {
                n - over
            }
        };
        let ghost start = self@;
        self.selected = target as usize;
        proof {
            assert(shown_rows(self@) == shown_rows(start));
            assert(shown_directories(self@) == shown_directories(start));
        }
    }

    /// The session that is selected, if any.
    pub fn selected_session(&self) -> (r: Option<&Session>)
        requires
            self.wf(),
        ensures
            opt_view(r) == selected_of(self@),
    {
        proof {
            assert(views(self.visible@).len() == self.visible@.len());
        }
        if self.selected < self.visible.len() {
            proof {
                assert(views(self.visible@)[self.selected as int] == self.visible@[self.selected as int]@);
            }
            Some(&self.visible[self.selected].session)
        } else {
            None
        }
    }

    fn type_key(&mut self, key: Key)
        requires
            old(self).wf(),
            key matches Key::Char(c) ==> search_fits(
                TuiView { search: old(self)@.search.push(c), ..old(self)@ },
            ),
        ensures
            final(self).wf(),
            final(self)@ == typed(old(self)@, key),
    {
        match key {
            Key::Esc | Key::Enter => {
                let ghost start = self@;
                self.search_mode = false;
                proof {
                    assert(shown_rows(self@) == shown_rows(start));
                    assert(shown_directories(self@) == shown_directories(start));
                }
            },
            Key::Backspace => {
                let v = chars_of(self.search.as_str());
                if v.len() > 0 {
                    let end: usize = v.len() - 1;
                    proof {
                        assert(v@.subrange(0, end as int) == self.search@.drop_last());
                    }
                    proof {
                        lemma_less_fits(self@);
                    }
                    self.search = text_between(&v, 0, end);
                }
                self.rebuild_visible();
            },
            Key::Char(c) => {
                let mut search = self.search.clone();
                search.push(c);
                self.search = search;
                self.rebuild_visible();
            },
            _ => {},
        }
    }

    fn leave_directory(&mut self)
        requires
            old(self).wf(),
        ensures
            final(self).wf(),
            final(self)@ == left(old(self)@),
    {
        self.layer = Layer::Directories;
        self.selected = self.directory_selected;
        self.search = String::new();
        proof {
            assert(self.search@ =~= Seq::<char>::empty());
        }
        self.rebuild_visible();
    }

    fn enter_directory(&mut self)
        requires
            old(self).wf(),
            old(self)@.layer == Layer::Directories,
        ensures
            final(self).wf(),
            final(self)@ == entered(old(self)@),
    {
        proof {
            assert(views(self.directories@).len() == self.directories@.len());
        }
        if self.selected < self.directories.len() {
            let directory = self.directories[self.selected].clone();
            proof {
                assert(views(self.directories@)[self.selected as int] == directory@);
            }
            self.layer = Layer::Sessions;
            self.directory = directory;
            self.directory_selected = self.selected;
            self.selected = 0;
            self.search = String::new();
            proof {
                assert(self.search@ =~= Seq::<char>::empty());
            }
            self.rebuild_visible();
        }
    }

    fn next_grouping(&mut self)
        requires
            old(self).wf(),
        ensures
            final(self).wf(),
            final(self)@ == settled(
                TuiView { group_by: next_grouping(old(self)@.group_by), ..old(self)@ },
            ),
    {
        self.group_by = self.group_by.next();
        self.rebuild_visible();
    }

    /// What is shown.
    pub fn layer(&self) -> (r: Layer)
        ensures
            r == self@.layer,
    {
        self.layer
    }

    /// The row that is selected.
    pub fn selected(&self) -> (r: usize)
        ensures
            r == self@.selected,
    {
        self.selected
    }

    /// What sessions are grouped by.
    pub fn group_by(&self) -> (r: GroupBy)
        ensures
            r == self@.group_by,
    {
        self.group_by
    }

    /// What is searched for.
    pub fn search(&self) -> (r: &str)
        ensures
            r@ == self@.search,
    {
        self.search.as_str()
    }

    /// Whether the search is being typed.
    pub fn search_mode(&self) -> (r: bool)
        ensures
            r == self@.search_mode,
    {
        self.search_mode
    }

    /// Whether the search can be made with one more character.
    pub fn can_type(&self, c: char) -> (r: bool)
        ensures
            r == search_fits(TuiView { search: self@.search.push(c), ..self@ }),
    {
        match &self.catalog {
            Some(catalog) => {
                let mut search = self.search.clone();
                search.push(c);
                can_search(catalog.sessions(), &query_for(search.as_str()))
            },
            None => true,
        }
    }

    /// Whether the search can be made among the sessions of a report.
    pub fn can_load(&self, report: &ScanReport) -> (r: bool)
        ensures
            r == search_fits(TuiView { sessions: Some(report@.sessions), ..self@ }),
    {
        can_search(report.sessions.as_slice(), &query_for(self.search.as_str()))
    }

    /// Whether the scan is still under way.
    pub fn loading(&self) -> (r: bool)
        ensures
            r == (self@.sessions is None),
    {
        self.catalog.is_none()
    }

    /// How many problems the scan met.
    pub fn warning_count(&self) -> (r: usize)
        ensures
            r == self@.warning_count,
    {
        self.warning_count
    }

    /// The error to show, if any.
    pub fn status_error(&self) -> (r: &Option<String>)
        ensures
            opt_view(*r) == self@.status_error,
    {
        &self.status_error
    }

    /// The session rows.
    pub fn visible(&self) -> (r: &Vec<VisibleSession>)
        requires
            self.wf(),
        ensures
            views(r@) == shown_rows(self@),
    {
        &self.visible
    }

    /// The directory rows.
    pub fn directories(&self) -> (r: &Vec<String>)
        requires
            self.wf(),
        ensures
            views(r@) == shown_directories(self@),
    {
        &self.directories
    }

    /// The working directory whose sessions are shown.
    pub fn directory(&self) -> (r: &str)
        ensures
            r@ == self@.directory,
    {
        self.directory.as_str()
    }

    /// Does what a key calls for, and hands out what the user chose by it, if anything. The selection
    /// stays on a row; while a search is typed no key hands anything out or changes the grouping; and
    /// a session that is handed out is the selected one.
    pub fn handle_key(&mut self, key: Key) -> (r: Option<TuiOutcome>)
        requires
            old(self).wf(),
            old(self)@.search_mode ==> (key matches Key::Char(c) ==> search_fits(
                TuiView { search: old(self)@.search.push(c), ..old(self)@ },
            )),
        ensures
            final(self).wf(),
            final(self)@ == after_key(old(self)@, key).0,
            opt_view(r) == after_key(old(self)@, key).1,
            on_a_row(final(self)@),
            old(self)@.search_mode ==> r is None && final(self)@.group_by == old(self)@.group_by,
            opt_view(r) matches Some(TuiOutcomeView::Resume(session)) ==> !old(self)@.search_mode
                && selected_of(old(self)@) == Some(session),
            opt_view(r) matches Some(TuiOutcomeView::OpenApp(session)) ==> !old(self)@.search_mode
                && selected_of(old(self)@) == Some(session),
    {
        if self.search_mode {
            self.type_key(key);
            return None;
        }
        match key {
            Key::Char('q') => Some(TuiOutcome::Quit),
            Key::Esc => {
                if self.layer == Layer::Sessions {
                    self.leave_directory();
                    None
                } else {
                    Some(TuiOutcome::Quit)
                }
            },
            Key::Left => match self.layer {
                Layer::Grouped => None,
                Layer::Directories => Some(TuiOutcome::Quit),
                Layer::Sessions => {
                    self.leave_directory();
                    None
                },
            },
            Key::Char('/') => {
                let ghost start = self@;
                self.search_mode = true;
                proof {
                    assert(shown_rows(self@) == shown_rows(start));
                    assert(shown_directories(self@) == shown_directories(start));
                }
                None
            },
            Key::Char('j') | Key::Down => {
                self.move_selection(1);
                None
            },
            Key::Char('k') | Key::Up => {
                self.move_selection(-1);
                None
            },
            Key::Tab => {
                if self.layer == Layer::Grouped {
                    self.next_grouping();
                }
                None
            },
            Key::Enter => match self.layer {
                Layer::Grouped => match self.selected_session() {
                    Some(session) => Some(TuiOutcome::Resume(Box::new(session.clone()))),
                    None => None,
                },
                Layer::Directories => {
                    self.enter_directory();
                    None
                },
                Layer::Sessions => match self.selected_session() {
                    Some(session) => Some(TuiOutcome::OpenApp(Box::new(session.clone()))),
                    None => None,
                },
            },
            Key::Char('c') => {
                if self.layer == Layer::Sessions {
                    match self.selected_session() {
                        Some(session) => Some(TuiOutcome::Resume(Box::new(session.clone()))),
                        None => None,
                    }
                } else {
                    None
                }
            },
            _ => None,
        }
    }
}

proof fn lemma_newest_first_is_searchable(sessions: Seq<SessionView>, q: QueryView)
    requires
        searchable(sessions, q),
    ensures
        searchable(newest_first(sessions), q),
{
    let ranks = update_ranks(sessions);
    stable_order_exists(ranks);
    let order = stable_order(ranks);
    let sorted = newest_first(sessions);
    if needle(q) is Some {
        assert forall|k: int| 0 <= k < sorted.len() && passes(#[trigger] sorted[k], q) implies search_text(
            sorted[k],
        ).len() <= MATCH_LIMIT by {
            assert(sorted[k] == sessions[order[k]]);
        }
    }
}

} // verus!
