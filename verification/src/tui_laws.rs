//! What holds of the session list, whatever keys are pressed.

use vstd::prelude::*;

use crate::catalog::{
    found, grouped, groupings_form_one_cycle, key_of, newest_first, plain_query, GroupBy, GroupView, QueryView,
};
use crate::catalog_laws::{
    found_sessions_meet_every_condition, grouping_partitions, newest_first_rearranges,
    no_session_that_meets_the_conditions_is_lost, occurring_is_standing_in_order, spells,
};
use crate::domain::{InteractionType, ReportView, SessionView};
use crate::order::what_is_kept_stands_in_order;
use crate::plain::not_before;
use crate::text::{blank_is_trimmed_to_nothing, is_blank, trimmed};
use crate::tui::{
    after_key, directories_of, directory_matches, directory_of, entered, left, loaded, on_a_row,
    opened, row_count, rows_of, selected_of, sessions_in, settled, shown_directories, shown_query,
    shown_rows, with_move, Key, Layer, RowView, TuiOutcomeView, TuiView,
};

verus! {

proof fn lemma_settled_is_on_a_row(s: TuiView)
    ensures
        on_a_row(settled(s)),
{
    assert(row_count(settled(s)) == row_count(s));
}

/// No key takes the selection off the rows.
pub proof fn selection_stays_on_a_row(s: TuiView, key: Key)
    requires
        on_a_row(s),
    ensures
        on_a_row(after_key(s, key).0),
{
    let next = after_key(s, key).0;
    if s.search_mode {
        match key {
            Key::Backspace => {
                let search = if s.search.len() > 0 {
                    s.search.drop_last()
                } else {
                    s.search
                };
                lemma_settled_is_on_a_row(TuiView { search, ..s });
            },
            Key::Char(c) => {
                lemma_settled_is_on_a_row(TuiView { search: s.search.push(c), ..s });
            },
            _ => {
                assert(row_count(next) == row_count(s));
            },
        }
    } else {
        match key {
            Key::Esc | Key::Left => {
                lemma_settled_is_on_a_row(
                    TuiView {
                        layer: Layer::Directories,
                        selected: s.directory_selected,
                        search: Seq::empty(),
                        ..s
                    },
                );
            },
            Key::Char('j') | Key::Down => {
                lemma_moved_is_on_a_row(s, 1);
            },
            Key::Char('k') | Key::Up => {
                lemma_moved_is_on_a_row(s, -1);
            },
            Key::Tab => {
                lemma_settled_is_on_a_row(
                    TuiView { group_by: crate::catalog::next_grouping(s.group_by), ..s },
                );
            },
            _ => {
                assert(next.layer == s.layer ==> row_count(next) == row_count(s));
            },
        }
    }
}

/// The state of a list that was `s` once `keys` were pressed, one after the other.
pub open spec fn after_keys(s: TuiView, keys: Seq<Key>) -> TuiView
    decreases keys.len(),
{
    if keys.len() == 0 {
        s
    } else {
        after_key(after_keys(s, keys.drop_last()), keys.last()).0
    }
}

/// Whatever keys are pressed, one after the other, in a list whose selection is on a row, the
/// selection is on a row then too.
pub proof fn selection_is_always_on_a_row(s: TuiView, keys: Seq<Key>)
    requires
        on_a_row(s),
    ensures
        on_a_row(after_keys(s, keys)),
    decreases keys.len(),
{
    if keys.len() > 0 {
        selection_is_always_on_a_row(s, keys.drop_last());
        selection_stays_on_a_row(after_keys(s, keys.drop_last()), keys.last());
    }
}

proof fn lemma_moved_is_on_a_row(s: TuiView, delta: int)
    requires
        on_a_row(s),
    ensures
        on_a_row(with_move(s, delta)),
{
    let next = with_move(s, delta);
    assert(row_count(next) == row_count(s));
    if row_count(s) > 0 {
        vstd::arithmetic::div_mod::lemma_mod_bound(s.selected + delta, row_count(s) as int);
    }
}

/// Moving the selection down and up again, or up and down again, leaves it where it was.
pub proof fn moves_cancel_out(s: TuiView, delta: int)
    requires
        on_a_row(s),
    ensures
        with_move(with_move(s, delta), -delta) == s,
{
    let count = row_count(s) as int;
    let next = with_move(s, delta);
    assert(row_count(next) == row_count(s));
    if count > 0 {
        let a = s.selected as int;
        vstd::arithmetic::div_mod::lemma_mod_bound(a + delta, count);
        vstd::arithmetic::div_mod::lemma_add_mod_noop(a + delta, -delta, count);
        vstd::arithmetic::div_mod::lemma_mod_twice(a + delta, count);
        vstd::arithmetic::div_mod::lemma_add_mod_noop((a + delta) % count, -delta, count);
        vstd::arithmetic::div_mod::lemma_small_mod(a as nat, count as nat);
        assert(((a + delta) % count + (-delta)) % count == a);
    }
}

/// Going down from the last row leads to the first, and up from the first to the last.
pub proof fn selection_goes_round(s: TuiView)
    requires
        on_a_row(s),
        row_count(s) > 0,
    ensures
        s.selected == row_count(s) - 1 ==> with_move(s, 1).selected == 0,
        s.selected == 0 ==> with_move(s, -1).selected == row_count(s) - 1,
        s.selected < row_count(s) - 1 ==> with_move(s, 1).selected == s.selected + 1,
{
    let count = row_count(s) as int;
    if s.selected == count - 1 {
        vstd::arithmetic::div_mod::lemma_mod_self_0(count);
    } else {
        vstd::arithmetic::div_mod::lemma_small_mod((s.selected + 1) as nat, count as nat);
    }
    if s.selected == 0 {
        vstd::arithmetic::div_mod::lemma_fundamental_div_mod_converse(-1, count, -1, count - 1);
    }
}

/// Leaving a directory that was entered without a search leads back to the same directories, with
/// the same one selected.
pub proof fn leaving_undoes_entering(s: TuiView)
    requires
        on_a_row(s),
        s.layer == Layer::Directories,
        s.search.len() == 0,
        s.selected < shown_directories(s).len(),
    ensures
        shown_directories(left(entered(s))) == shown_directories(s),
        left(entered(s)).selected == s.selected,
        left(entered(s)).layer == Layer::Directories,
{
    let back = TuiView {
        layer: Layer::Directories,
        selected: s.selected,
        search: Seq::empty(),
        ..entered(s)
    };
    assert(s.search =~= Seq::<char>::empty());
    assert(shown_directories(back) == shown_directories(s));
}

/// A session is only ever handed out when it is shown and selected: resumed in the terminal or, from
/// the sessions of a directory, opened in the app.
pub proof fn only_a_shown_session_is_chosen(s: TuiView, key: Key, session: SessionView)
    requires
        after_key(s, key).1 == Some(TuiOutcomeView::Resume(session)) || after_key(s, key).1 == Some(
            TuiOutcomeView::OpenApp(session),
        ),
    ensures
        selected_of(s) == Some(session),
        s.selected < shown_rows(s).len() && shown_rows(s)[s.selected as int].session == session,
        !s.search_mode,
        s.layer != Layer::Directories,
{
}

/// While a search is typed, no key ends the list, hands out a session or changes the grouping, the
/// layer or the directory; otherwise `q` always ends it.
pub proof fn quitting_needs_no_search(s: TuiView)
    ensures
        !s.search_mode ==> after_key(s, Key::Char('q')).1 == Some(TuiOutcomeView::Quit),
        s.search_mode ==> forall|key: Key|
            (#[trigger] after_key(s, key)).1 is None && after_key(s, key).0.group_by == s.group_by
                && after_key(s, key).0.layer == s.layer && after_key(s, key).0.directory
                == s.directory,
{
}

/// Pressing Tab four times leads through all groupings and back.
pub proof fn tab_cycles_groupings(s: TuiView)
    requires
        s.layer == Layer::Grouped,
        !s.search_mode,
    ensures
        ({
            let a = after_key(s, Key::Tab).0;
            let b = after_key(a, Key::Tab).0;
            let c = after_key(b, Key::Tab).0;
            after_key(c, Key::Tab).0.group_by == s.group_by
        }),
{
    groupings_form_one_cycle(s.group_by);
}

/// How many rows a list shows: its directories, or its sessions.
pub open spec fn rows_shown(s: TuiView) -> nat {
    match s.layer {
        Layer::Directories => shown_directories(s).len(),
        Layer::Grouped => shown_rows(s).len(),
        Layer::Sessions => shown_rows(s).len(),
    }
}

/// Whether `key` is one of those that go up.
pub open spec fn goes_up(key: Key) -> bool {
    key == Key::Up || key == Key::Char('k')
}

/// Whether `key` is one of those that go down.
pub open spec fn goes_down(key: Key) -> bool {
    key == Key::Down || key == Key::Char('j')
}

/// Outside the search, Up and `k` select the row just before, and from the first row the last, and
/// change nothing else.
pub proof fn up_selects_the_row_before(s: TuiView, key: Key)
    requires
        !s.search_mode,
        goes_up(key),
        s.selected < rows_shown(s),
    ensures
        s.selected > 0 ==> after_key(s, key).0.selected == s.selected - 1,
        s.selected == 0 ==> after_key(s, key).0.selected == rows_shown(s) - 1,
        after_key(s, key).0 == (TuiView { selected: after_key(s, key).0.selected, ..s }),
        after_key(s, key).1 is None,
{
    let count = rows_shown(s) as int;
    if s.selected == 0 {
        vstd::arithmetic::div_mod::lemma_fundamental_div_mod_converse(-1, count, -1, count - 1);
    } else {
        vstd::arithmetic::div_mod::lemma_small_mod((s.selected - 1) as nat, count as nat);
    }
}

/// Outside the search, Down and `j` select the row just after, and from the last row the first, and
/// change nothing else.
pub proof fn down_selects_the_row_after(s: TuiView, key: Key)
    requires
        !s.search_mode,
        goes_down(key),
        s.selected < rows_shown(s),
    ensures
        s.selected + 1 < rows_shown(s) ==> after_key(s, key).0.selected == s.selected + 1,
        s.selected + 1 == rows_shown(s) ==> after_key(s, key).0.selected == 0,
        after_key(s, key).0 == (TuiView { selected: after_key(s, key).0.selected, ..s }),
        after_key(s, key).1 is None,
{
    let count = rows_shown(s) as int;
    if s.selected + 1 == count {
        vstd::arithmetic::div_mod::lemma_mod_self_0(count);
    } else {
        vstd::arithmetic::div_mod::lemma_small_mod((s.selected + 1) as nat, count as nat);
    }
}

/// Going up after going down, or down after up, by whichever keys, leaves all as it was; and where no
/// row is shown, neither does anything.
pub proof fn going_back_undoes_going(s: TuiView, up: Key, down: Key)
    requires
        !s.search_mode,
        goes_up(up),
        goes_down(down),
    ensures
        s.selected < rows_shown(s) ==> after_key(after_key(s, down).0, up).0 == s,
        s.selected < rows_shown(s) ==> after_key(after_key(s, up).0, down).0 == s,
        rows_shown(s) == 0 ==> after_key(s, up).0 == s && after_key(s, down).0 == s,
{
    if s.selected < rows_shown(s) {
        let below = after_key(s, down).0;
        let above = after_key(s, up).0;
        down_selects_the_row_after(s, down);
        up_selects_the_row_before(s, up);
        assert(shown_directories(below) == shown_directories(s) && shown_rows(below) == shown_rows(s));
        assert(shown_directories(above) == shown_directories(s) && shown_rows(above) == shown_rows(s));
        up_selects_the_row_before(below, up);
        down_selects_the_row_after(above, down);
    }
}

/// Whether selection `n` of a list of `count` rows is where selection `old` has to go: it stays where
/// it is on a row, and goes to the last row where it is behind it.
pub open spec fn comes_to_rest(old: nat, n: nat, count: nat) -> bool {
    &&& old < count ==> n == old
    &&& 0 < count <= old ==> n + 1 == count
    &&& count == 0 ==> n == 0
}

/// Outside the search, Tab turns from projects to dates, sources, model providers and back, where
/// groups are shown, and does nothing elsewhere.
pub proof fn tab_turns_to_the_next_grouping(s: TuiView)
    requires
        !s.search_mode,
    ensures
        ({
            let next = after_key(s, Key::Tab).0;
            &&& after_key(s, Key::Tab).1 is None
            &&& s.layer != Layer::Grouped ==> next == s
            &&& s.layer == Layer::Grouped ==> {
                &&& s.group_by == GroupBy::Project ==> next.group_by == GroupBy::Date
                &&& s.group_by == GroupBy::Date ==> next.group_by == GroupBy::Source
                &&& s.group_by == GroupBy::Source ==> next.group_by == GroupBy::Provider
                &&& s.group_by == GroupBy::Provider ==> next.group_by == GroupBy::Project
                &&& next == (TuiView { group_by: next.group_by, selected: next.selected, ..s })
                &&& comes_to_rest(s.selected, next.selected, rows_shown(next))
            }
        }),
{
    let next = after_key(s, Key::Tab).0;
    let turned = TuiView { group_by: next.group_by, ..s };
    assert(shown_rows(next) == shown_rows(turned) && shown_directories(next) == shown_directories(turned));
}

/// A slash starts a search and keeps what was searched for; it does nothing else.
pub proof fn slash_starts_a_search(s: TuiView)
    requires
        !s.search_mode,
    ensures
        after_key(s, Key::Char('/')).0 == (TuiView { search_mode: true, ..s }),
        after_key(s, Key::Char('/')).1 is None,
{
}

/// While a search is typed, a character is added to it, Backspace takes the last one away, Enter and
/// Escape end the typing and keep the text, and no other key does anything.  What is typed changes
/// nothing but the search and the selection, which stays on a row.
pub proof fn typing_edits_the_search(s: TuiView, key: Key)
    requires
        s.search_mode,
    ensures
        ({
            let next = after_key(s, key).0;
            &&& after_key(s, key).1 is None
            &&& key matches Key::Char(c) ==> next.search == s.search.push(c)
            &&& key == Key::Backspace && s.search.len() > 0 ==> next.search == s.search.take(
                s.search.len() - 1,
            )
            &&& key == Key::Backspace && s.search.len() == 0 ==> next.search == s.search
            &&& key is Char || key == Key::Backspace ==> {
                &&& next == (TuiView { search: next.search, selected: next.selected, ..s })
                &&& comes_to_rest(s.selected, next.selected, rows_shown(next))
            }
            &&& key == Key::Enter || key == Key::Esc ==> next == (TuiView { search_mode: false, ..s })
            &&& key == Key::Up || key == Key::Down || key == Key::Left || key == Key::Tab || key == Key::Other
                ==> next == s
        }),
{
    let next = after_key(s, key).0;
    let edited = TuiView { search: next.search, ..s };
    assert(shown_rows(next) == shown_rows(edited) || next.search_mode != s.search_mode);
    assert(shown_directories(next) == shown_directories(edited) || next.search_mode != s.search_mode);
    if s.search.len() > 0 {
        assert(s.search.drop_last() =~= s.search.take(s.search.len() - 1));
    }
}

/// Taking the last character back undoes typing it, as far as the search goes.
pub proof fn backspace_undoes_typing(s: TuiView, c: char)
    requires
        s.search_mode,
    ensures
        after_key(after_key(s, Key::Char(c)).0, Key::Backspace).0.search == s.search,
{
    assert(s.search.push(c).drop_last() =~= s.search);
}

/// Outside the search, Enter hands out the selected session: to be resumed where groups are shown, to
/// be opened in the app where the sessions of a directory are; and `c` hands it out to be resumed
/// there.  Nothing is handed out where no row is selected, and the list stays as it is.
pub proof fn enter_hands_out_the_selected_session(s: TuiView)
    requires
        !s.search_mode,
        s.layer != Layer::Directories,
    ensures
        after_key(s, Key::Enter).0 == s,
        after_key(s, Key::Char('c')).0 == s,
        s.selected >= shown_rows(s).len() ==> after_key(s, Key::Enter).1 is None && after_key(
            s,
            Key::Char('c'),
        ).1 is None,
        s.selected < shown_rows(s).len() ==> {
            let session = shown_rows(s)[s.selected as int].session;
            &&& s.layer == Layer::Grouped ==> after_key(s, Key::Enter).1 == Some(
                TuiOutcomeView::Resume(session),
            )
            &&& s.layer == Layer::Sessions ==> after_key(s, Key::Enter).1 == Some(
                TuiOutcomeView::OpenApp(session),
            )
            &&& s.layer == Layer::Sessions ==> after_key(s, Key::Char('c')).1 == Some(
                TuiOutcomeView::Resume(session),
            )
            &&& s.layer == Layer::Grouped ==> after_key(s, Key::Char('c')).1 is None
        },
{
}

/// Outside the search, Enter on a directory shows its sessions, from the first, without a search, and
/// remembers which directory it was; `c` does nothing there.
pub proof fn enter_opens_the_selected_directory(s: TuiView)
    requires
        !s.search_mode,
        s.layer == Layer::Directories,
    ensures
        after_key(s, Key::Enter).1 is None,
        after_key(s, Key::Char('c')) == (s, None::<TuiOutcomeView>),
        s.selected >= shown_directories(s).len() ==> after_key(s, Key::Enter).0 == s,
        s.selected < shown_directories(s).len() ==> after_key(s, Key::Enter).0 == (TuiView {
            layer: Layer::Sessions,
            directory: shown_directories(s)[s.selected as int],
            directory_selected: s.selected,
            selected: 0,
            search: Seq::empty(),
            ..s
        }),
{
}

/// Outside the search, `q` ends the list everywhere; Escape ends it but among the sessions of a
/// directory; Left ends it among the directories and does nothing where groups are shown.
pub proof fn keys_that_end_the_list(s: TuiView)
    requires
        !s.search_mode,
    ensures
        after_key(s, Key::Char('q')) == (s, Some(TuiOutcomeView::Quit)),
        s.layer != Layer::Sessions ==> after_key(s, Key::Esc) == (s, Some(TuiOutcomeView::Quit)),
        s.layer == Layer::Directories ==> after_key(s, Key::Left) == (s, Some(TuiOutcomeView::Quit)),
        s.layer == Layer::Grouped ==> after_key(s, Key::Left) == (s, None::<TuiOutcomeView>),
        s.layer == Layer::Sessions ==> after_key(s, Key::Esc).1 is None && after_key(s, Key::Left).1 is None,
{
}

/// Outside the search, Escape and Left lead from the sessions of a directory back to the directories,
/// without a search, to the one that was entered as far as it is still shown.
pub proof fn going_left_leads_back_to_the_directories(s: TuiView, key: Key)
    requires
        !s.search_mode,
        s.layer == Layer::Sessions,
        key == Key::Esc || key == Key::Left,
    ensures
        ({
            let next = after_key(s, key).0;
            &&& next == (TuiView {
                layer: Layer::Directories,
                selected: next.selected,
                search: Seq::empty(),
                ..s
            })
            &&& comes_to_rest(s.directory_selected, next.selected, rows_shown(next))
        }),
{
    let next = after_key(s, key).0;
    let back = TuiView {
        layer: Layer::Directories,
        selected: s.directory_selected,
        search: Seq::empty(),
        ..s
    };
    assert(shown_directories(next) == shown_directories(back));
}

/// Outside the search, every other key does nothing.
pub proof fn other_keys_do_nothing(s: TuiView, key: Key)
    requires
        !s.search_mode,
        !goes_up(key),
        !goes_down(key),
        key != Key::Tab,
        key != Key::Enter,
        key != Key::Esc,
        key != Key::Left,
        key != Key::Char('q'),
        key != Key::Char('c'),
        key != Key::Char('/'),
    ensures
        after_key(s, key) == (s, None::<TuiOutcomeView>),
{
}

/// Whether session `s` belongs to directory `directory`: it is its working directory, and sessions
/// without one belong together.
pub open spec fn belongs_to(s: SessionView, directory: Seq<char>) -> bool {
    match s.cwd {
        Some(cwd) => cwd == directory,
        None => directory == "未知目录"@,
    }
}

/// The sessions that a list looks through: those a query finds that names nothing but the search.
pub open spec fn looked_through(s: TuiView, search: Seq<char>) -> Seq<SessionView> {
    found(
        s.sessions->0,
        QueryView {
            source: None,
            project: None,
            provider: None,
            since: None,
            include_non_interactive: false,
            search: if search.len() == 0 {
                None
            } else {
                Some(search)
            },
        },
    )
}

/// Among the sessions of a directory, the rows are the sessions that the search finds and that belong
/// to the directory, all of them, and none under a heading.
pub proof fn rows_of_a_directory_are_its_sessions(s: TuiView, session: SessionView)
    requires
        s.sessions is Some,
        s.layer == Layer::Sessions,
    ensures
        (exists|i: int| 0 <= i < shown_rows(s).len() && (#[trigger] shown_rows(s)[i]).session == session)
            <==> looked_through(s, s.search).contains(session) && belongs_to(session, s.directory),
        forall|i: int| 0 <= i < shown_rows(s).len() ==> (#[trigger] shown_rows(s)[i]).group is None,
{
    let all = looked_through(s, s.search);
    let kept = sessions_in(all, s.directory);
    let keep = |x: SessionView| directory_of(x) == s.directory;
    assert(all == found(s.sessions->0, shown_query(s.search)));
    lemma_filter_holds(all, keep, session);
    assert(belongs_to(session, s.directory) <==> keep(session));
    if exists|i: int| 0 <= i < shown_rows(s).len() && (#[trigger] shown_rows(s)[i]).session == session {
        let i = choose|i: int|
            0 <= i < shown_rows(s).len() && (#[trigger] shown_rows(s)[i]).session == session;
        assert(kept[i] == session);
        assert(kept.contains(session));
    }
    if all.contains(session) && keep(session) {
        assert(kept.contains(session));
        let i = choose|i: int| 0 <= i < kept.len() && kept[i] == session;
        assert(shown_rows(s)[i].session == session);
    }
}

/// The directories shown are those of the sessions that are not known to be non-interactive, each
/// once, as far as a search that is not blank is spelled in them in order.
pub proof fn directories_are_those_of_the_sessions(s: TuiView, directory: Seq<char>)
    requires
        s.sessions is Some,
        s.layer == Layer::Directories,
    ensures
        shown_directories(s).no_duplicates(),
        shown_directories(s).contains(directory) <==> {
            &&& exists|i: int|
                0 <= i < s.sessions->0.len() && (#[trigger] s.sessions->0[i]).interaction
                    != InteractionType::NonInteractive && belongs_to(s.sessions->0[i], directory)
            &&& is_blank(s.search) || exists|places: Seq<int>| #[trigger]
                spells(trimmed(s.search), directory, places)
        },
{
    let sessions = s.sessions->0;
    let all = looked_through(s, Seq::empty());
    assert(all == found(sessions, plain_query()));
    let names = directories_of(all);
    let keep = |d: Seq<char>| directory_matches(d, s.search);
    lemma_directories_of(all);
    lemma_filter_holds(names, keep, directory);
    blank_is_trimmed_to_nothing(s.search);
    occurring_is_standing_in_order(trimmed(s.search), directory);
    lemma_filter_keeps_distinct(names, keep);
    let shown = shown_directories(s);
    assert(shown == names.filter(keep));
    if shown.contains(directory) {
        assert(names.contains(directory));
        let k = choose|k: int| 0 <= k < all.len() && directory_of(#[trigger] all[k]) == directory;
        found_sessions_meet_every_condition(sessions, plain_query(), k);
        let j = choose|j: int| 0 <= j < sessions.len() && sessions[j] == all[k];
        assert(belongs_to(sessions[j], directory));
    }
    if (exists|i: int|
        0 <= i < sessions.len() && (#[trigger] sessions[i]).interaction != InteractionType::NonInteractive
            && belongs_to(sessions[i], directory)) && keep(directory) {
        let i = choose|i: int|
            0 <= i < sessions.len() && (#[trigger] sessions[i]).interaction
                != InteractionType::NonInteractive && belongs_to(sessions[i], directory);
        no_session_that_meets_the_conditions_is_lost(sessions, plain_query(), sessions[i]);
        let k = choose|k: int| 0 <= k < all.len() && all[k] == sessions[i];
        assert(directory_of(all[k]) == directory);
        assert(names.contains(directory));
    }
}

proof fn lemma_directories_of(sessions: Seq<SessionView>)
    ensures
        directories_of(sessions).no_duplicates(),
        forall|d: Seq<char>| #[trigger]
            directories_of(sessions).contains(d) <==> exists|i: int|
                0 <= i < sessions.len() && directory_of(#[trigger] sessions[i]) == d,
    decreases sessions.len(),
{
    if sessions.len() > 0 {
        let less = sessions.drop_last();
        lemma_directories_of(less);
        let before = directories_of(less);
        let here = directory_of(sessions.last());
        let now = directories_of(sessions);
        assert forall|d: Seq<char>| #[trigger] now.contains(d) <==> exists|i: int|
            0 <= i < sessions.len() && directory_of(#[trigger] sessions[i]) == d by {
            if now.contains(d) {
                if before.contains(d) {
                    let i = choose|i: int| 0 <= i < less.len() && directory_of(#[trigger] less[i]) == d;
                    assert(sessions[i] == less[i]);
                } else {
                    assert(d == here);
                    assert(directory_of(sessions[sessions.len() - 1]) == d);
                }
            }
            if exists|i: int| 0 <= i < sessions.len() && directory_of(#[trigger] sessions[i]) == d {
                let i = choose|i: int| 0 <= i < sessions.len() && directory_of(#[trigger] sessions[i]) == d;
                if i < less.len() {
                    assert(less[i] == sessions[i]);
                    assert(before.contains(d));
                    let k = choose|k: int| 0 <= k < before.len() && before[k] == d;
                    assert(now[k] == d);
                } else if before.contains(here) {
                    assert(now.contains(d));
                } else {
                    assert(now[before.len() as int] == d);
                }
            }
        }
    }
}

proof fn lemma_filter_holds<T>(all: Seq<T>, keep: spec_fn(T) -> bool, x: T)
    ensures
        all.filter(keep).contains(x) <==> all.contains(x) && keep(x),
    decreases all.len(),
{
    reveal(Seq::filter);
    if all.len() > 0 {
        let less = all.drop_last();
        lemma_filter_holds(less, keep, x);
        let kept = less.filter(keep);
        let now = all.filter(keep);
        if now.contains(x) {
            let i = choose|i: int| 0 <= i < now.len() && now[i] == x;
            if i < kept.len() {
                assert(kept[i] == x);
                let k = choose|k: int| 0 <= k < less.len() && less[k] == x;
                assert(all[k] == x);
            } else {
                assert(all[all.len() - 1] == x);
            }
        }
        if all.contains(x) && keep(x) {
            let k = choose|k: int| 0 <= k < all.len() && all[k] == x;
            if k < less.len() {
                assert(less[k] == x);
                let i = choose|i: int| 0 <= i < kept.len() && kept[i] == x;
                assert(now[i] == x);
            } else {
                assert(now[kept.len() as int] == x);
            }
        }
    }
}

proof fn lemma_filter_keeps_distinct(names: Seq<Seq<char>>, keep: spec_fn(Seq<char>) -> bool)
    requires
        names.no_duplicates(),
    ensures
        names.filter(keep).no_duplicates(),
    decreases names.len(),
{
    reveal(Seq::filter);
    if names.len() > 0 {
        let less = names.drop_last();
        lemma_filter_keeps_distinct(less, keep);
        let kept = less.filter(keep);
        if keep(names.last()) {
            assert forall|i: int| 0 <= i < kept.len() implies kept[i] != names.last() by {
                lemma_filter_holds(less, keep, kept[i]);
                assert(kept.contains(kept[i]));
                let k = choose|k: int| 0 <= k < less.len() && less[k] == kept[i];
                assert(names[k] == less[k]);
            }
        }
    }
}

/// Whether `row` shows session `k` of group `g`, with the name of the group on the first one.
spec fn is_row(groups: Seq<GroupView>, g: int, k: int, row: RowView) -> bool {
    &&& 0 <= g < groups.len()
    &&& 0 <= k < groups[g].sessions.len()
    &&& row.session == groups[g].sessions[k]
    &&& row.group == if k == 0 {
        Some(groups[g].key)
    } else {
        None
    }
}

proof fn lemma_row_is_of_a_group(groups: Seq<GroupView>, i: int) -> (at: (int, int))
    requires
        0 <= i < rows_of(groups).len(),
    ensures
        is_row(groups, at.0, at.1, rows_of(groups)[i]),
        at.1 > 0 ==> i > 0 && is_row(groups, at.0, at.1 - 1, rows_of(groups)[i - 1]),
        at.1 == 0 && i > 0 ==> exists|g: int, k: int|
            g < at.0 && #[trigger] is_row(groups, g, k, rows_of(groups)[i - 1]),
    decreases groups.len(),
{
    let less = groups.drop_last();
    let head = rows_of(less);
    if i < head.len() {
        let at = lemma_row_is_of_a_group(less, i);
        assert(rows_of(groups)[i] == head[i]);
        if i > 0 {
            assert(rows_of(groups)[i - 1] == head[i - 1]);
            if at.1 == 0 {
                let (g, k) = choose|g: int, k: int|
                    g < at.0 && #[trigger] is_row(less, g, k, head[i - 1]);
                assert(is_row(groups, g, k, rows_of(groups)[i - 1]));
            }
        }
        at
    } else {
        if i == head.len() && i > 0 {
            let (g, k) = lemma_row_is_of_a_group(less, i - 1);
            assert(rows_of(groups)[i - 1] == head[i - 1]);
            assert(is_row(groups, g, k, rows_of(groups)[i - 1]));
        }
        (groups.len() - 1, i - head.len())
    }
}

proof fn lemma_session_has_a_row(groups: Seq<GroupView>, g: int, k: int) -> (i: int)
    requires
        0 <= g < groups.len(),
        0 <= k < groups[g].sessions.len(),
    ensures
        0 <= i < rows_of(groups).len(),
        is_row(groups, g, k, rows_of(groups)[i]),
    decreases groups.len(),
{
    let less = groups.drop_last();
    let head = rows_of(less);
    if g < less.len() {
        let i = lemma_session_has_a_row(less, g, k);
        assert(rows_of(groups)[i] == head[i]);
        i
    } else {
        head.len() + k
    }
}

/// Where groups are shown, the rows are the sessions that the search finds, all of them; a row with a
/// heading has the key of its session for it and another than the row above, and one without a heading
/// belongs with the row above.
pub proof fn grouped_rows_stand_under_their_heading(s: TuiView, session: SessionView, i: int)
    requires
        s.sessions is Some,
        s.layer == Layer::Grouped,
    ensures
        looked_through(s, s.search).contains(session) ==> exists|j: int|
            0 <= j < shown_rows(s).len() && (#[trigger] shown_rows(s)[j]).session == session,
        0 <= i < shown_rows(s).len() ==> {
            let row = shown_rows(s)[i];
            &&& looked_through(s, s.search).contains(row.session)
            &&& row.group is Some ==> row.group == Some(key_of(row.session, s.group_by)) && (i > 0
                ==> key_of(row.session, s.group_by) != key_of(shown_rows(s)[i - 1].session, s.group_by))
            &&& row.group is None ==> i > 0 && key_of(row.session, s.group_by) == key_of(
                shown_rows(s)[i - 1].session,
                s.group_by,
            )
        },
{
    let all = looked_through(s, s.search);
    assert(all == found(s.sessions->0, shown_query(s.search)));
    let groups = grouped(all, s.group_by);
    let rows = shown_rows(s);
    grouping_partitions(all, s.group_by);
    if all.contains(session) {
        let j = choose|j: int| 0 <= j < all.len() && all[j] == session;
        let g = choose|g: int| 0 <= g < groups.len() && (#[trigger] groups[g]).sessions.contains(all[j]);
        let k = choose|k: int| 0 <= k < groups[g].sessions.len() && groups[g].sessions[k] == session;
        let m = lemma_session_has_a_row(groups, g, k);
        assert(rows[m].session == session);
    }
    if 0 <= i < rows.len() {
        let (g, k) = lemma_row_is_of_a_group(groups, i);
        assert(groups[g].sessions[k] == rows[i].session);
        assert(key_of(groups[g].sessions[k], s.group_by) == groups[g].key);
        if k > 0 {
            assert(groups[g].sessions[k - 1] == rows[i - 1].session);
            assert(key_of(groups[g].sessions[k - 1], s.group_by) == groups[g].key);
        } else if i > 0 {
            let (h, m) = choose|h: int, m: int| h < g && #[trigger] is_row(groups, h, m, rows[i - 1]);
            assert(groups[h].sessions[m] == rows[i - 1].session);
            assert(key_of(groups[h].sessions[m], s.group_by) == groups[h].key);
            assert(groups[h].key != groups[g].key);
        }
    }
}

/// A list that opens shows nothing yet, searches for nothing and groups by project; once a scan has
/// reported, it holds all its sessions, the latest update first, and counts its problems, and all else
/// is as it was, the selection on a row.
pub proof fn loading_brings_the_sessions(s: TuiView, report: ReportView, layer: Layer, error: Option<Seq<char>>)
    ensures
        ({
            let next = loaded(s, report);
            &&& next.sessions matches Some(all) && all.to_multiset() == report.sessions.to_multiset() && (
            forall|i: int, j: int|
                0 <= i < j < all.len() ==> not_before(
                    #[trigger] all[i].updated_at,
                    #[trigger] all[j].updated_at,
                ))
            &&& next.warning_count == report.warnings.len()
            &&& next == (TuiView {
                sessions: next.sessions,
                warning_count: next.warning_count,
                selected: next.selected,
                ..s
            })
            &&& comes_to_rest(s.selected, next.selected, rows_shown(next))
        }),
        ({
            let fresh = opened(layer, error);
            &&& fresh.sessions is None && fresh.warning_count == 0
            &&& fresh.layer == layer && fresh.group_by == GroupBy::Project
            &&& fresh.selected == 0 && fresh.directory_selected == 0
            &&& fresh.search.len() == 0 && !fresh.search_mode && fresh.directory.len() == 0
            &&& fresh.status_error == error
            &&& rows_shown(fresh) == 0
        }),
{
    let next = loaded(s, report);
    newest_first_rearranges(report.sessions);
    let all = newest_first(report.sessions);
    assert forall|i: int, j: int| 0 <= i < j < all.len() implies not_before(
        #[trigger] all[i].updated_at,
        #[trigger] all[j].updated_at,
    ) by {
        assert(!crate::time::earlier(all[i].updated_at, all[j].updated_at));
    }
    let filled = TuiView {
        sessions: Some(all),
        warning_count: report.warnings.len(),
        ..s
    };
    assert(shown_rows(next) == shown_rows(filled) && shown_directories(next) == shown_directories(filled));
}

/// The sessions of a directory stand in the order in which the search finds them.
pub proof fn rows_of_a_directory_keep_their_order(s: TuiView) -> (places: Seq<int>)
    requires
        s.sessions is Some,
        s.layer == Layer::Sessions,
    ensures
        places.len() == shown_rows(s).len(),
        forall|k: int|
            0 <= k < places.len() ==> 0 <= #[trigger] places[k] < looked_through(s, s.search).len()
                && looked_through(s, s.search)[places[k]] == shown_rows(s)[k].session,
        forall|j: int, k: int| 0 <= j < k < places.len() ==> #[trigger] places[j] < #[trigger] places[k],
{
    let all = looked_through(s, s.search);
    assert(all == found(s.sessions->0, shown_query(s.search)));
    what_is_kept_stands_in_order(all, |x: SessionView| directory_of(x) == s.directory)
}

/// Directories stand in the order of their first sessions: before each session of a directory there is
/// one of every directory that stands before it.
pub proof fn directories_stand_in_the_order_of_their_sessions(s: TuiView, i: int, j: int, q: int)
    requires
        s.sessions is Some,
        s.layer == Layer::Directories,
        0 <= i < j < shown_directories(s).len(),
        0 <= q < looked_through(s, Seq::empty()).len(),
        belongs_to(looked_through(s, Seq::empty())[q], shown_directories(s)[j]),
    ensures
        exists|p: int|
            0 <= p < q && belongs_to(
                #[trigger] looked_through(s, Seq::empty())[p],
                shown_directories(s)[i],
            ),
{
    let all = looked_through(s, Seq::empty());
    assert(all == found(s.sessions->0, plain_query()));
    let names = directories_of(all);
    let places = what_is_kept_stands_in_order(names, |d: Seq<char>| directory_matches(d, s.search));
    assert(places[i] < places[j]);
    assert(names[places[i]] == shown_directories(s)[i] && names[places[j]] == shown_directories(s)[j]);
    assert(directory_of(all[q]) == shown_directories(s)[j]);
    lemma_directories_stand_in_order(all, places[i], places[j], q);
    let p = choose|p: int| 0 <= p < q && directory_of(#[trigger] all[p]) == names[places[i]];
    assert(belongs_to(all[p], shown_directories(s)[i]));
}

proof fn lemma_directories_stand_in_order(sessions: Seq<SessionView>, i: int, j: int, q: int)
    requires
        0 <= i < j < directories_of(sessions).len(),
        0 <= q < sessions.len(),
        directory_of(sessions[q]) == directories_of(sessions)[j],
    ensures
        exists|p: int| 0 <= p < q && directory_of(#[trigger] sessions[p]) == directories_of(sessions)[i],
    decreases sessions.len(),
{
    let less = sessions.drop_last();
    let before = directories_of(less);
    let names = directories_of(sessions);
    lemma_directories_of(less);
    assert(before.contains(before[i]) || before.len() <= i);
    if j < before.len() {
        assert(names[i] == before[i] && names[j] == before[j]);
        assert(before.contains(before[j]));
        let at = choose|at: int| 0 <= at < less.len() && directory_of(#[trigger] less[at]) == before[j];
        if q < less.len() {
            assert(less[q] == sessions[q]);
            lemma_directories_stand_in_order(less, i, j, q);
            let p = choose|p: int| 0 <= p < q && directory_of(#[trigger] less[p]) == before[i];
            assert(sessions[p] == less[p]);
        } else {
            lemma_directories_stand_in_order(less, i, j, at);
            let p = choose|p: int| 0 <= p < at && directory_of(#[trigger] less[p]) == before[i];
            assert(sessions[p] == less[p]);
        }
    } else {
        assert(names[i] == before[i]);
        if q < less.len() {
            assert(less[q] == sessions[q]);
            assert(before.contains(directory_of(less[q])));
        }
        assert(before.contains(before[i]));
        let p = choose|p: int| 0 <= p < less.len() && directory_of(#[trigger] less[p]) == before[i];
        assert(sessions[p] == less[p]);
    }
}

/// The selected session is that of the selected row, where there is such a row.
pub proof fn selected_session_is_that_of_the_row(s: TuiView)
    ensures
        selected_of(s) is Some <==> s.selected < shown_rows(s).len(),
        selected_of(s) matches Some(session) ==> session == shown_rows(s)[s.selected as int].session,
{
}

/// Moving the selection by one amount and then by another is moving it by both together.
pub proof fn moves_add_up(s: TuiView, a: int, b: int)
    requires
        s.selected < rows_shown(s),
    ensures
        with_move(with_move(s, a), b) == with_move(s, a + b),
        with_move(s, 0) == s,
{
    let count = rows_shown(s) as int;
    let next = with_move(s, a);
    let at = s.selected as int;
    assert(row_count(next) == row_count(s));
    vstd::arithmetic::div_mod::lemma_mod_bound(at + a, count);
    vstd::arithmetic::div_mod::lemma_add_mod_noop(at + a, b, count);
    vstd::arithmetic::div_mod::lemma_mod_twice(at + a, count);
    vstd::arithmetic::div_mod::lemma_add_mod_noop((at + a) % count, b, count);
    vstd::arithmetic::div_mod::lemma_small_mod(s.selected, count as nat);
}

} // verus!
