//! What holds of every catalog: which sessions a query finds, and in what order and groups.

use vstd::prelude::*;

use crate::catalog::{
    first_named, found, group_names, grouped, hits, is_named, is_newest_first, key_of, lemma_group_names_cover,
    lemma_hits_are_places, lemma_members_empty, lemma_members_push, matches_filters, members, needle, newest_first,
    occurs_in, passes, rank_of, ranked, ranks_at, score_for, scores_for, update_ranks, GroupBy, QueryView,
    SessionCatalog, SessionQuery,
};
use crate::domain::{search_text, InteractionType, ScanReport, Session, SessionView};
use crate::model::or_empty;
use crate::order::{
    above, in_stable_order, is_stable_order, picked, picking_each_once_rearranges, precedes, stable_order,
    stable_order_exists, stable_order_is_unique, what_is_kept_stands_in_order,
};
use crate::plain::{
    alike_but_case, comparing_forgets_only_case, lowering_forgets_only_case, not_before, same_letter,
};
use crate::text::{ascii_lower, blank_is_trimmed_to_nothing, is_blank, trimmed};
use crate::time::{earlier, utc_text};

verus! {

/// Whether session `i` is to be found: it passes the query and has a score.
pub open spec fn qualifies(
    sessions: Seq<SessionView>,
    q: QueryView,
    scores: Seq<Option<i64>>,
    i: int,
) -> bool {
    0 <= i < sessions.len() && passes(sessions[i], q) && scores[i] is Some
}

/// Whether `places` lists the place of every qualifying session once, the best rank first and
/// equal ranks in the order they stand.
pub open spec fn lists_best_first(
    sessions: Seq<SessionView>,
    q: QueryView,
    scores: Seq<Option<i64>>,
    places: Seq<int>,
) -> bool {
    &&& forall|k: int| 0 <= k < places.len() ==> qualifies(sessions, q, scores, #[trigger] places[k])
    &&& forall|i: int| #[trigger] qualifies(sessions, q, scores, i) ==> places.contains(i)
    &&& forall|j: int, k: int|
        0 <= j < k < places.len() ==> {
            let a = #[trigger] places[j];
            let b = #[trigger] places[k];
            ||| above(rank_of(sessions, scores, a), rank_of(sessions, scores, b))
            ||| rank_of(sessions, scores, a) == rank_of(sessions, scores, b) && a < b
        }
}

/// A query finds exactly the sessions that pass its conditions and match its search, each once,
/// the best match first, then the latest update, then the order of the catalog.
pub proof fn query_finds_exactly_what_qualifies(
    sessions: Seq<SessionView>,
    q: QueryView,
    scores: Seq<Option<i64>>,
) -> (places: Seq<int>)
    requires
        scores.len() == sessions.len(),
    ensures
        lists_best_first(sessions, q, scores, places),
        ranked(sessions, q, scores) == Seq::new(places.len(), |k: int| sessions[places[k]]),
{
    let n = sessions.len() as int;
    let at = hits(sessions, q, scores, n);
    let ranks = ranks_at(sessions, scores, at);
    lemma_hits_are_places(sessions, q, scores, n);
    stable_order_exists(ranks);
    let order = stable_order(ranks);
    let places = in_stable_order(at, ranks);
    assert forall|k: int| 0 <= k < places.len() implies qualifies(
        sessions,
        q,
        scores,
        #[trigger] places[k],
    ) by {
        assert(places[k] == at[order[k]]);
    }
    assert forall|i: int| #[trigger] qualifies(sessions, q, scores, i) implies places.contains(i) by {
        assert(at.contains(i));
        let m = choose|m: int| 0 <= m < at.len() && at[m] == i;
        assert(order.contains(m));
        let k = choose|k: int| 0 <= k < order.len() && order[k] == m;
        assert(places[k] == i);
    }
    assert forall|j: int, k: int| 0 <= j < k < places.len() implies ({
        let a = #[trigger] places[j];
        let b = #[trigger] places[k];
        ||| above(rank_of(sessions, scores, a), rank_of(sessions, scores, b))
        ||| rank_of(sessions, scores, a) == rank_of(sessions, scores, b) && a < b
    }) by {
        assert(places[j] == at[order[j]] && places[k] == at[order[k]]);
        assert(precedes(ranks, order[j], order[k]));
    }
    places
}

/// A query with a search finds exactly the sessions that pass its other conditions and in whose id,
/// title, summary, project and directory, taken together, what is searched for occurs.
pub proof fn search_finds_where_it_occurs(sessions: Seq<SessionView>, q: QueryView, i: int)
    requires
        0 <= i < sessions.len(),
    ensures
        qualifies(sessions, q, scores_for(sessions, q), i) <==> {
            &&& passes(sessions[i], q)
            &&& needle(q) matches Some(wanted) ==> occurs_in(wanted, search_text(sessions[i]))
        },
{
}

/// A blank search is no search: the query finds the same, in the same order.
pub proof fn blank_search_is_no_search(sessions: Seq<SessionView>, q: QueryView, blank: Seq<char>)
    requires
        is_blank(blank),
    ensures
        found(sessions, QueryView { search: Some(blank), ..q }) == found(
            sessions,
            QueryView { search: None, ..q },
        ),
{
    blank_is_trimmed_to_nothing(blank);
    let a = QueryView { search: Some(blank), ..q };
    let b = QueryView { search: None, ..q };
    assert(scores_for(sessions, a) =~= scores_for(sessions, b));
    lemma_hits_ignore_the_search(sessions, a, b, scores_for(sessions, a), sessions.len() as int);
}

proof fn lemma_hits_ignore_the_search(
    sessions: Seq<SessionView>,
    a: QueryView,
    b: QueryView,
    scores: Seq<Option<i64>>,
    n: int,
)
    requires
        0 <= n <= sessions.len(),
        a == (QueryView { search: a.search, ..b }),
    ensures
        hits(sessions, a, scores, n) == hits(sessions, b, scores, n),
    decreases n,
{
    if n > 0 {
        lemma_hits_ignore_the_search(sessions, a, b, scores, n - 1);
    }
}

/// Along what a query finds, no score is above the one before it, and where two scores are the same
/// no update is later than the one before it.
pub proof fn found_sessions_fall_in_rank(
    sessions: Seq<SessionView>,
    q: QueryView,
) -> (places: Seq<int>)
    ensures
        found(sessions, q) == Seq::new(places.len(), |k: int| sessions[places[k]]),
        forall|j: int, k: int|
            0 <= j < k < places.len() ==> {
                let a = #[trigger] places[j];
                let b = #[trigger] places[k];
                let scores = scores_for(sessions, q);
                &&& a != b
                &&& scores[a]->0 >= scores[b]->0
                &&& scores[a]->0 == scores[b]->0 ==> !earlier(sessions[a].updated_at, sessions[b].updated_at)
            },
{
    query_finds_exactly_what_qualifies(sessions, q, scores_for(sessions, q))
}

/// A session is found by its id, its title, its summary, its project and its directory.
pub proof fn search_finds_by_each_text(s: SessionView, wanted: Seq<char>)
    requires
        s.id == wanted || s.title == Some(wanted) || s.summary == Some(wanted) || s.project == wanted || s.cwd
            == Some(wanted),
    ensures
        occurs_in(wanted, search_text(s)),
{
    let space = " "@;
    let a = s.id + space;
    let b = a + or_empty(s.title) + space;
    let c = b + or_empty(s.summary) + space;
    let d = c + s.project + space;
    lemma_itself_occurs(wanted);
    if s.cwd == Some(wanted) {
        lemma_occurs_further_on(d, wanted, wanted);
    } else {
        if s.project == wanted {
            lemma_occurs_further_on(c, wanted, wanted);
        } else {
            if s.summary == Some(wanted) {
                lemma_occurs_further_on(b, wanted, wanted);
            } else {
                if s.title == Some(wanted) {
                    lemma_occurs_further_on(a, wanted, wanted);
                } else {
                    lemma_occurs_in_longer(wanted, s.id, space);
                    lemma_occurs_in_longer(wanted, a, or_empty(s.title));
                }
                lemma_occurs_in_longer(wanted, a + or_empty(s.title), space);
                lemma_occurs_in_longer(wanted, b, or_empty(s.summary));
            }
            lemma_occurs_in_longer(wanted, b + or_empty(s.summary), space);
            lemma_occurs_in_longer(wanted, c, s.project);
        }
        lemma_occurs_in_longer(wanted, c + s.project, space);
        lemma_occurs_in_longer(wanted, d, or_empty(s.cwd));
    }
}

proof fn lemma_itself_occurs(needle: Seq<char>)
    ensures
        occurs_in(needle, needle),
    decreases needle.len(),
{
    if needle.len() > 0 {
        lemma_itself_occurs(needle.drop_first());
    }
}

proof fn lemma_occurs_in_longer(needle: Seq<char>, text: Seq<char>, tail: Seq<char>)
    requires
        occurs_in(needle, text),
    ensures
        occurs_in(needle, text + tail),
    decreases text.len(),
{
    if needle.len() > 0 {
        assert((text + tail).drop_first() =~= text.drop_first() + tail);
        if ascii_lower(text[0]) == ascii_lower(needle[0]) {
            lemma_occurs_in_longer(needle.drop_first(), text.drop_first(), tail);
        } else {
            lemma_occurs_in_longer(needle, text.drop_first(), tail);
        }
    }
}

proof fn lemma_less_occurs(needle: Seq<char>, text: Seq<char>)
    requires
        needle.len() > 0,
        occurs_in(needle, text),
    ensures
        occurs_in(needle.drop_first(), text),
    decreases text.len(),
{
    let rest = text.drop_first();
    if ascii_lower(text[0]) == ascii_lower(needle[0]) {
        let less = needle.drop_first();
        if less.len() > 0 && ascii_lower(text[0]) == ascii_lower(less[0]) {
            lemma_less_occurs(less, rest);
        }
    } else {
        lemma_less_occurs(needle, rest);
        let less = needle.drop_first();
        if less.len() > 0 && ascii_lower(text[0]) == ascii_lower(less[0]) {
            lemma_less_occurs(less, rest);
        }
    }
}

proof fn lemma_occurs_further_on(head: Seq<char>, needle: Seq<char>, text: Seq<char>)
    requires
        occurs_in(needle, text),
    ensures
        occurs_in(needle, head + text),
    decreases head.len(),
{
    if head.len() == 0 {
        assert(head + text =~= text);
    } else {
        lemma_occurs_further_on(head.drop_first(), needle, text);
        let all = head + text;
        assert(all.drop_first() =~= head.drop_first() + text);
        if needle.len() > 0 {
            lemma_less_occurs(needle, all.drop_first());
        }
    }
}

/// Putting the latest update first loses and adds no session and leaves none before a later one.
pub proof fn newest_first_rearranges(sessions: Seq<SessionView>)
    ensures
        is_newest_first(newest_first(sessions)),
        newest_first(sessions).len() == sessions.len(),
        newest_first(sessions).to_multiset() == sessions.to_multiset(),
{
    let ranks = update_ranks(sessions);
    stable_order_exists(ranks);
    let order = stable_order(ranks);
    let sorted = newest_first(sessions);
    assert forall|i: int, j: int| 0 <= i < j < sorted.len() implies !earlier(
        #[trigger] sorted[i].updated_at,
        #[trigger] sorted[j].updated_at,
    ) by {
        assert(precedes(ranks, order[i], order[j]));
    }
    assert forall|i: int, j: int| 0 <= i < order.len() && 0 <= j < order.len() && i != j implies order[i]
        != order[j] by {
        if i < j {
            assert(precedes(ranks, order[i], order[j]));
        } else {
            assert(precedes(ranks, order[j], order[i]));
        }
    }
    picking_each_once_rearranges(sessions, order);
    assert(sorted =~= picked(sessions, order));
}

/// Sessions that stand with the latest update first already keep their places.
pub proof fn newest_first_keeps_what_is_in_order(sessions: Seq<SessionView>)
    requires
        is_newest_first(sessions),
    ensures
        newest_first(sessions) == sessions,
{
    let ranks = update_ranks(sessions);
    let places = Seq::new(sessions.len(), |i: int| i);
    assert(is_stable_order(ranks, places)) by {
        assert forall|i: int| 0 <= i < ranks.len() implies #[trigger] places.contains(i) by {
            assert(places[i] == i);
        }
        assert forall|j: int, k: int| 0 <= j < k < places.len() implies precedes(
            ranks,
            #[trigger] places[j],
            #[trigger] places[k],
        ) by {
            assert(!earlier(sessions[j].updated_at, sessions[k].updated_at));
        }
    }
    stable_order_is_unique(ranks, places, stable_order(ranks));
    assert(newest_first(sessions) =~= sessions);
}

/// Without a search, a query keeps the sessions that pass in the order of the catalog.
pub proof fn query_without_search_keeps_order(sessions: Seq<SessionView>, q: QueryView)
    requires
        is_newest_first(sessions),
        needle(q) is None,
    ensures
        found(sessions, q) == sessions.filter(|s: SessionView| passes(s, q)),
{
    let scores = scores_for(sessions, q);
    let n = sessions.len() as int;
    let at = hits(sessions, q, scores, n);
    let ranks = ranks_at(sessions, scores, at);
    lemma_hits_are_places(sessions, q, scores, n);
    let same = Seq::new(at.len(), |i: int| i);
    assert(is_stable_order(ranks, same)) by {
        assert forall|i: int| 0 <= i < ranks.len() implies #[trigger] same.contains(i) by {
            assert(same[i] == i);
        }
        assert forall|j: int, k: int| 0 <= j < k < same.len() implies precedes(
            ranks,
            #[trigger] same[j],
            #[trigger] same[k],
        ) by {
            assert(at[j] < at[k]);
            assert(!earlier(sessions[at[j]].updated_at, sessions[at[k]].updated_at));
        }
    }
    stable_order_is_unique(ranks, same, stable_order(ranks));
    assert(in_stable_order(at, ranks) =~= at);
    lemma_hits_filter(sessions, q, n);
    assert(sessions.take(n) == sessions);
    assert(found(sessions, q) =~= Seq::new(at.len(), |k: int| sessions[at[k]]));
}

proof fn lemma_hits_filter(sessions: Seq<SessionView>, q: QueryView, n: int)
    requires
        0 <= n <= sessions.len(),
        needle(q) is None,
    ensures
        ({
            let at = hits(sessions, q, scores_for(sessions, q), n);
            Seq::new(at.len(), |k: int| sessions[at[k]]) == sessions.take(n).filter(
                |s: SessionView| passes(s, q),
            )
        }),
    decreases n,
{
    reveal(Seq::filter);
    let scores = scores_for(sessions, q);
    let at = hits(sessions, q, scores, n);
    let here = Seq::new(at.len(), |k: int| sessions[at[k]]);
    if n == 0 {
        assert(here =~= Seq::empty());
        assert(sessions.take(0).filter(|s: SessionView| passes(s, q)) =~= Seq::empty());
    } else {
        lemma_hits_filter(sessions, q, n - 1);
        assert(sessions.take(n).drop_last() == sessions.take(n - 1));
        assert(sessions.take(n).last() == sessions[n - 1]);
        let before = hits(sessions, q, scores, n - 1);
        let head = Seq::new(before.len(), |k: int| sessions[before[k]]);
        if passes(sessions[n - 1], q) {
            assert(here =~= head.push(sessions[n - 1]));
        } else {
            assert(here =~= head);
        }
    }
}

/// Grouping puts every session into the one group of its key and makes no empty group.
pub proof fn grouping_partitions(sessions: Seq<SessionView>, g: GroupBy)
    ensures
        forall|i: int, j: int|
            0 <= i < j < grouped(sessions, g).len() ==> (#[trigger] grouped(sessions, g)[i]).key != (
            #[trigger] grouped(sessions, g)[j]).key,
        forall|i: int|
            0 <= i < grouped(sessions, g).len() ==> (#[trigger] grouped(sessions, g)[i]).sessions.len()
                > 0,
        forall|i: int, k: int|
            0 <= i < grouped(sessions, g).len() && 0 <= k < grouped(sessions, g)[i].sessions.len()
                ==> {
                let s = #[trigger] grouped(sessions, g)[i].sessions[k];
                key_of(s, g) == grouped(sessions, g)[i].key && sessions.contains(s)
            },
        forall|k: int|
            0 <= k < sessions.len() ==> exists|i: int|
                0 <= i < grouped(sessions, g).len() && (#[trigger] grouped(
                    sessions,
                    g,
                )[i]).sessions.contains(#[trigger] sessions[k]),
        sizes(grouped(sessions, g)) == sessions.len(),
{
    let names = group_names(sessions, g);
    let groups = grouped(sessions, g);
    lemma_group_names_cover(sessions, g);
    lemma_groups_are_headed(sessions, g);
    assert forall|i: int, k: int|
        0 <= i < groups.len() && 0 <= k < groups[i].sessions.len() implies ({
        let s = #[trigger] groups[i].sessions[k];
        key_of(s, g) == groups[i].key && sessions.contains(s)
    }) by {
        lemma_member_is_of_group(sessions, g, names[i], k);
    }
    assert forall|k: int| 0 <= k < sessions.len() implies exists|i: int|
        0 <= i < groups.len() && (#[trigger] groups[i]).sessions.contains(#[trigger] sessions[k]) by {
        let key = key_of(sessions[k], g);
        assert(names.contains(key));
        let i = choose|i: int| 0 <= i < names.len() && names[i] == key;
        lemma_session_is_member(sessions, g, k);
        assert(groups[i].sessions == members(sessions, g, key));
        assert(groups[i].sessions.contains(sessions[k]));
    }
    lemma_sizes(sessions, g);
}

/// Sessions that were last updated on the same UTC day are of one group of a grouping by date.
pub proof fn one_day_is_one_group(sessions: Seq<SessionView>, i: int, j: int)
    requires
        0 <= i < sessions.len(),
        0 <= j < sessions.len(),
        sessions[i].updated_at.0 / 86_400 == sessions[j].updated_at.0 / 86_400,
    ensures
        key_of(sessions[i], GroupBy::Date) == key_of(sessions[j], GroupBy::Date),
        exists|k: int|
            0 <= k < grouped(sessions, GroupBy::Date).len() && (#[trigger] grouped(
                sessions,
                GroupBy::Date,
            )[k]).sessions.contains(sessions[i]) && grouped(sessions, GroupBy::Date)[k].sessions.contains(
                sessions[j],
            ),
{
    let a = sessions[i].updated_at.0;
    let b = sessions[j].updated_at.0;
    assert(a - a % 86_400 == 86_400 * (a / 86_400));
    assert(b - b % 86_400 == 86_400 * (b / 86_400));
    let key = key_of(sessions[i], GroupBy::Date);
    lemma_group_names_cover(sessions, GroupBy::Date);
    let names = group_names(sessions, GroupBy::Date);
    assert(names.contains(key));
    let k = choose|k: int| 0 <= k < names.len() && names[k] == key;
    lemma_session_is_member(sessions, GroupBy::Date, i);
    lemma_session_is_member(sessions, GroupBy::Date, j);
    assert(grouped(sessions, GroupBy::Date)[k].sessions.contains(sessions[i]));
}

/// How many sessions the groups hold together.
pub open spec fn sizes(groups: Seq<crate::catalog::GroupView>) -> nat
    decreases groups.len(),
{
    if groups.len() == 0 {
        0
    } else {
        sizes(groups.drop_last()) + groups.last().sessions.len()
    }
}

proof fn lemma_sizes_grow(
    a: Seq<crate::catalog::GroupView>,
    b: Seq<crate::catalog::GroupView>,
    place: int,
)
    requires
        a.len() == b.len(),
        0 <= place < a.len(),
        forall|i: int|
            0 <= i < a.len() ==> (#[trigger] b[i]).sessions.len() == a[i].sessions.len() + (if i == place {
                1nat
            } else {
                0nat
            }),
    ensures
        sizes(b) == sizes(a) + 1,
    decreases a.len(),
{
    if place < a.len() - 1 {
        let x = a.drop_last();
        let y = b.drop_last();
        assert forall|i: int| 0 <= i < x.len() implies (#[trigger] y[i]).sessions.len()
            == x[i].sessions.len() + (if i == place {
            1nat
        } else {
            0nat
        }) by {
            assert(b[i] == y[i]);
        }
        lemma_sizes_grow(x, y, place);
        assert(b[a.len() - 1].sessions.len() == a[a.len() - 1].sessions.len());
    } else {
        lemma_sizes_same(a.drop_last(), b.drop_last());
        assert(b[a.len() - 1].sessions.len() == a[a.len() - 1].sessions.len() + 1);
    }
}

proof fn lemma_sizes_same(a: Seq<crate::catalog::GroupView>, b: Seq<crate::catalog::GroupView>)
    requires
        a.len() == b.len(),
        forall|i: int|
            0 <= i < a.len() ==> (#[trigger] b[i]).sessions.len() == a[i].sessions.len(),
    ensures
        sizes(b) == sizes(a),
    decreases a.len(),
{
    if a.len() > 0 {
        let x = a.drop_last();
        let y = b.drop_last();
        assert forall|i: int| 0 <= i < x.len() implies (#[trigger] y[i]).sessions.len()
            == x[i].sessions.len() by {
            assert(b[i] == y[i]);
        }
        lemma_sizes_same(x, y);
        assert(b[a.len() - 1].sessions.len() == a[a.len() - 1].sessions.len());
    }
}

proof fn lemma_sizes(sessions: Seq<SessionView>, g: GroupBy)
    ensures
        sizes(grouped(sessions, g)) == sessions.len(),
    decreases sessions.len(),
{
    if sessions.len() == 0 {
        assert(grouped(sessions, g) =~= Seq::empty());
    } else {
        let rest = sessions.drop_last();
        let last = sessions.last();
        let before = grouped(rest, g);
        let after = grouped(sessions, g);
        let names = group_names(rest, g);
        lemma_sizes(rest, g);
        lemma_group_names_cover(rest, g);
        assert(rest.push(last) == sessions);
        let key = key_of(last, g);
        if names.contains(key) {
            let place = choose|place: int| 0 <= place < names.len() && names[place] == key;
            assert forall|i: int| 0 <= i < before.len() implies (#[trigger] after[i]).sessions.len()
                == before[i].sessions.len() + (if i == place {
                1nat
            } else {
                0nat
            }) by {
                lemma_members_push(rest, last, g, names[i]);
                if i != place {
                    assert(names[i] != names[place]);
                }
            }
            lemma_sizes_grow(before, after, place);
        } else {
            assert(group_names(sessions, g) == names.push(key));
            let kept = after.drop_last();
            assert forall|i: int| 0 <= i < before.len() implies (#[trigger] kept[i]).sessions.len()
                == before[i].sessions.len() by {
                lemma_members_push(rest, last, g, names[i]);
                assert(names.contains(names[i]));
                assert(kept[i] == after[i]);
            }
            lemma_sizes_same(before, kept);
            lemma_members_push(rest, last, g, key);
            lemma_members_empty(rest, g, key);
        }
    }
}

proof fn lemma_member_is_of_group(sessions: Seq<SessionView>, g: GroupBy, key: Seq<char>, k: int)
    requires
        0 <= k < members(sessions, g, key).len(),
    ensures
        key_of(members(sessions, g, key)[k], g) == key,
        sessions.contains(members(sessions, g, key)[k]),
    decreases sessions.len(),
{
    reveal(Seq::filter);
    if sessions.len() > 0 {
        let rest = sessions.drop_last();
        assert(rest.push(sessions.last()) == sessions);
        lemma_members_push(rest, sessions.last(), g, key);
        if k < members(rest, g, key).len() {
            lemma_member_is_of_group(rest, g, key, k);
            let s = members(rest, g, key)[k];
            let i = choose|i: int| 0 <= i < rest.len() && rest[i] == s;
            assert(sessions[i] == s);
        } else {
            assert(sessions[sessions.len() - 1] == sessions.last());
        }
    }
}

proof fn lemma_session_is_member(sessions: Seq<SessionView>, g: GroupBy, k: int)
    requires
        0 <= k < sessions.len(),
    ensures
        members(sessions, g, key_of(sessions[k], g)).contains(sessions[k]),
    decreases sessions.len(),
{
    let rest = sessions.drop_last();
    let key = key_of(sessions[k], g);
    assert(rest.push(sessions.last()) == sessions);
    lemma_members_push(rest, sessions.last(), g, key);
    let found = members(sessions, g, key);
    if k < rest.len() {
        lemma_session_is_member(rest, g, k);
        assert(rest[k] == sessions[k]);
        let before = members(rest, g, key);
        let i = choose|i: int| 0 <= i < before.len() && before[i] == sessions[k];
        assert(found[i] == before[i]);
    } else {
        assert(found.last() == sessions[k]);
    }
}

/// No group is empty.
proof fn lemma_groups_are_headed(sessions: Seq<SessionView>, g: GroupBy)
    ensures
        forall|i: int|
            0 <= i < grouped(sessions, g).len() ==> (#[trigger] grouped(sessions, g)[i]).sessions.len()
                > 0,
    decreases sessions.len(),
{
    if sessions.len() > 0 {
        let rest = sessions.drop_last();
        let last = sessions.last();
        lemma_groups_are_headed(rest, g);
        let before = grouped(rest, g);
        let after = grouped(sessions, g);
        let names = group_names(rest, g);
        assert(rest.push(last) == sessions);
        assert forall|i: int| 0 <= i < after.len() implies (#[trigger] after[i]).sessions.len() > 0 by {
            if i < before.len() {
                assert(before[i].sessions.len() > 0);
                lemma_members_push(rest, last, g, names[i]);
            } else {
                lemma_members_push(rest, last, g, key_of(last, g));
            }
        }
    }
}

/// The groups of newest-first sessions are each newest first, and the groups themselves stand in
/// the order of their newest sessions.
pub proof fn groups_of_newest_first_are_newest_first(sessions: Seq<SessionView>, g: GroupBy)
    requires
        is_newest_first(sessions),
    ensures
        forall|i: int|
            0 <= i < grouped(sessions, g).len() ==> is_newest_first(
                (#[trigger] grouped(sessions, g)[i]).sessions,
            ),
        forall|i: int, j: int|
            0 <= i < j < grouped(sessions, g).len() ==> !earlier(
                (#[trigger] grouped(sessions, g)[i]).sessions[0].updated_at,
                (#[trigger] grouped(sessions, g)[j]).sessions[0].updated_at,
            ),
    decreases sessions.len(),
{
    if sessions.len() > 0 {
        let rest = sessions.drop_last();
        let last = sessions.last();
        let before = grouped(rest, g);
        let after = grouped(sessions, g);
        let names = group_names(rest, g);
        let key = key_of(last, g);
        assert(rest.push(last) == sessions);
        assert forall|i: int, j: int| 0 <= i < j < rest.len() implies !earlier(
            #[trigger] rest[i].updated_at,
            #[trigger] rest[j].updated_at,
        ) by {
            assert(rest[i] == sessions[i] && rest[j] == sessions[j]);
        }
        groups_of_newest_first_are_newest_first(rest, g);
        lemma_groups_are_headed(rest, g);
        lemma_group_names_cover(rest, g);
        assert forall|i: int, k: int|
            0 <= i < before.len() && 0 <= k < before[i].sessions.len() implies !earlier(
            (#[trigger] before[i].sessions[k]).updated_at,
            last.updated_at,
        ) by {
            lemma_member_is_of_group(rest, g, names[i], k);
            let s = before[i].sessions[k];
            let m = choose|m: int| 0 <= m < rest.len() && rest[m] == s;
            assert(sessions[m] == s);
            assert(!earlier(sessions[m].updated_at, sessions[sessions.len() - 1].updated_at));
        }
        assert forall|i: int| 0 <= i < after.len() implies is_newest_first(
            (#[trigger] after[i]).sessions,
        ) by {
            if i < before.len() {
                lemma_members_push(rest, last, g, names[i]);
                let old = before[i].sessions;
                let new = after[i].sessions;
                assert(is_newest_first(old));
                assert forall|a: int, b: int| 0 <= a < b < new.len() implies !earlier(
                    #[trigger] new[a].updated_at,
                    #[trigger] new[b].updated_at,
                ) by {
                    assert(new[a] == old[a]);
                    if b < old.len() {
                        assert(new[b] == old[b]);
                    } else {
                        assert(!earlier(before[i].sessions[a].updated_at, last.updated_at));
                    }
                }
            } else {
                lemma_members_push(rest, last, g, key);
                lemma_members_empty(rest, g, key);
            }
        }
        assert forall|i: int, j: int| 0 <= i < j < after.len() implies !earlier(
            (#[trigger] after[i]).sessions[0].updated_at,
            (#[trigger] after[j]).sessions[0].updated_at,
        ) by {
            assert(before[i].sessions.len() > 0);
            lemma_members_push(rest, last, g, names[i]);
            assert(after[i].sessions[0] == before[i].sessions[0]);
            if j < before.len() {
                assert(before[j].sessions.len() > 0);
                lemma_members_push(rest, last, g, names[j]);
                assert(after[j].sessions[0] == before[j].sessions[0]);
            } else {
                lemma_members_push(rest, last, g, key);
                lemma_members_empty(rest, g, key);
                assert(!earlier(before[i].sessions[0].updated_at, last.updated_at));
            }
        }
    }
}

/// Whether a session meets what a query asks of its source, project, model provider and update, each
/// name taken but for the case of its letters.
pub open spec fn meets_conditions(s: SessionView, q: QueryView) -> bool {
    &&& q.source is Some ==> alike_but_case(s.source, q.source->0)
    &&& q.project is Some ==> alike_but_case(s.project, q.project->0)
    &&& q.provider is Some ==> s.model_provider is Some && alike_but_case(
        s.model_provider->0,
        q.provider->0,
    )
    &&& q.since is Some ==> not_before(s.updated_at, q.since->0)
}

proof fn lemma_passes(s: SessionView, q: QueryView)
    ensures
        passes(s, q) <==> meets_conditions(s, q) && (q.include_non_interactive || s.interaction
            != InteractionType::NonInteractive),
{
    if let Some(source) = q.source {
        comparing_forgets_only_case(s.source, source);
    }
    if let Some(project) = q.project {
        comparing_forgets_only_case(s.project, project);
    }
    if let (Some(named), Some(provider)) = (s.model_provider, q.provider) {
        comparing_forgets_only_case(named, provider);
    }
}

/// The filters let a session through exactly where it has the source, the project and the model
/// provider that the query names, was not updated before its time, and is not one known to be
/// non-interactive, unless these are asked for too.
pub proof fn filters_ask_for_every_condition(session: Session, query: SessionQuery, r: bool)
    requires
        call_ensures(matches_filters, (&session, &query), r),
    ensures
        r <==> meets_conditions(session@, query@) && (query@.include_non_interactive
            || session@.interaction != InteractionType::NonInteractive),
{
    lemma_passes(session@, query@);
}

/// Whatever else a query asks, each session it finds is one of the catalog, has the source, the
/// project and the model provider it names and was not updated before its time; and a session known to
/// be non-interactive is only found where these are asked for.
pub proof fn found_sessions_meet_every_condition(sessions: Seq<SessionView>, q: QueryView, k: int)
    requires
        0 <= k < found(sessions, q).len(),
    ensures
        sessions.contains(found(sessions, q)[k]),
        meets_conditions(found(sessions, q)[k], q),
        found(sessions, q)[k].interaction == InteractionType::NonInteractive ==> q.include_non_interactive,
{
    let places = query_finds_exactly_what_qualifies(sessions, q, scores_for(sessions, q));
    let i = places[k];
    assert(found(sessions, q)[k] == sessions[i]);
    assert(qualifies(sessions, q, scores_for(sessions, q), places[k]));
    lemma_passes(sessions[i], q);
}

/// Without a search, a query finds every session of the catalog that meets its conditions, but for
/// those known to be non-interactive where these are not asked for.
pub proof fn no_session_that_meets_the_conditions_is_lost(
    sessions: Seq<SessionView>,
    q: QueryView,
    s: SessionView,
)
    requires
        q.search is None,
        sessions.contains(s),
        meets_conditions(s, q),
        q.include_non_interactive || s.interaction != InteractionType::NonInteractive,
    ensures
        found(sessions, q).contains(s),
{
    let scores = scores_for(sessions, q);
    let places = query_finds_exactly_what_qualifies(sessions, q, scores);
    let i = choose|i: int| 0 <= i < sessions.len() && sessions[i] == s;
    lemma_passes(s, q);
    assert(qualifies(sessions, q, scores, i));
    let k = choose|k: int| 0 <= k < places.len() && places[k] == i;
    assert(found(sessions, q)[k] == s);
}

/// Asking for non-interactive sessions too loses none that is found without, and adds only sessions
/// that are known to be non-interactive and meet every other condition.
pub proof fn non_interactive_sessions_only_add(sessions: Seq<SessionView>, q: QueryView, s: SessionView)
    requires
        q.search is None,
    ensures
        ({
            let fewer = found(sessions, QueryView { include_non_interactive: false, ..q });
            let more = found(sessions, QueryView { include_non_interactive: true, ..q });
            &&& fewer.contains(s) ==> more.contains(s)
            &&& more.contains(s) && !fewer.contains(s) ==> s.interaction
                == InteractionType::NonInteractive && meets_conditions(s, q)
        }),
{
    let a = QueryView { include_non_interactive: false, ..q };
    let b = QueryView { include_non_interactive: true, ..q };
    assert(meets_conditions(s, a) == meets_conditions(s, q));
    assert(meets_conditions(s, b) == meets_conditions(s, q));
    if found(sessions, a).contains(s) {
        let k = choose|k: int| 0 <= k < found(sessions, a).len() && found(sessions, a)[k] == s;
        found_sessions_meet_every_condition(sessions, a, k);
        no_session_that_meets_the_conditions_is_lost(sessions, b, s);
    }
    if found(sessions, b).contains(s) {
        let k = choose|k: int| 0 <= k < found(sessions, b).len() && found(sessions, b)[k] == s;
        found_sessions_meet_every_condition(sessions, b, k);
        if s.interaction != InteractionType::NonInteractive {
            no_session_that_meets_the_conditions_is_lost(sessions, a, s);
        }
    }
}

/// Whether the characters of `needle` stand in `text` at `places`, in that order, but for the case of
/// letters.
pub open spec fn spells(needle: Seq<char>, text: Seq<char>, places: Seq<int>) -> bool {
    &&& places.len() == needle.len()
    &&& forall|k: int|
        0 <= k < places.len() ==> 0 <= #[trigger] places[k] < text.len() && same_letter(
            text[places[k]],
            needle[k],
        )
    &&& forall|j: int, k: int| 0 <= j < k < places.len() ==> #[trigger] places[j] < #[trigger] places[k]
}

/// What is searched for occurs in a text exactly where all its characters stand in the text in that
/// order, with or without others between them, but for the case of letters.
pub proof fn occurring_is_standing_in_order(needle: Seq<char>, text: Seq<char>)
    ensures
        occurs_in(needle, text) <==> exists|places: Seq<int>| #[trigger] spells(needle, text, places),
    decreases text.len(),
{
    if needle.len() == 0 {
        assert(spells(needle, text, Seq::empty()));
    } else if text.len() == 0 {
        assert forall|places: Seq<int>| !#[trigger] spells(needle, text, places) by {
            if spells(needle, text, places) {
                assert(0 <= places[0] < text.len());
            }
        }
    } else {
        let rest = text.drop_first();
        lowering_forgets_only_case(text[0], needle[0]);
        if same_letter(text[0], needle[0]) {
            let less = needle.drop_first();
            occurring_is_standing_in_order(less, rest);
            if occurs_in(less, rest) {
                let p = choose|p: Seq<int>| #[trigger] spells(less, rest, p);
                let places = Seq::new(needle.len(), |k: int| if k == 0 { 0 } else { p[k - 1] + 1 });
                assert forall|k: int| 0 <= k < places.len() implies 0 <= #[trigger] places[k] < text.len()
                    && same_letter(text[places[k]], needle[k]) by {
                    if k > 0 {
                        assert(0 <= p[k - 1] < rest.len());
                        assert(rest[p[k - 1]] == text[places[k]]);
                        assert(less[k - 1] == needle[k]);
                    }
                }
                assert forall|j: int, k: int| 0 <= j < k < places.len() implies #[trigger] places[j]
                    < #[trigger] places[k] by {
                    assert(0 <= p[k - 1]);
                    if j > 0 {
                        assert(p[j - 1] < p[k - 1]);
                    }
                }
                assert(spells(needle, text, places));
            }
            if exists|places: Seq<int>| #[trigger] spells(needle, text, places) {
                let places = choose|places: Seq<int>| #[trigger] spells(needle, text, places);
                let p = Seq::new(less.len(), |k: int| places[k + 1] - 1);
                assert forall|k: int| 0 <= k < p.len() implies 0 <= #[trigger] p[k] < rest.len()
                    && same_letter(rest[p[k]], less[k]) by {
                    assert(places[0] < places[k + 1]);
                    assert(text[places[k + 1]] == rest[p[k]]);
                    assert(less[k] == needle[k + 1]);
                }
                assert forall|j: int, k: int| 0 <= j < k < p.len() implies #[trigger] p[j] < #[trigger] p[k] by {
                    assert(places[j + 1] < places[k + 1]);
                }
                assert(spells(less, rest, p));
            }
        } else {
            occurring_is_standing_in_order(needle, rest);
            if occurs_in(needle, rest) {
                let p = choose|p: Seq<int>| #[trigger] spells(needle, rest, p);
                let places = Seq::new(needle.len(), |k: int| p[k] + 1);
                assert forall|k: int| 0 <= k < places.len() implies 0 <= #[trigger] places[k] < text.len()
                    && same_letter(text[places[k]], needle[k]) by {
                    assert(0 <= p[k] < rest.len());
                    assert(rest[p[k]] == text[places[k]]);
                }
                assert forall|j: int, k: int| 0 <= j < k < places.len() implies #[trigger] places[j]
                    < #[trigger] places[k] by {
                    assert(p[j] < p[k]);
                }
                assert(spells(needle, text, places));
            }
            if exists|places: Seq<int>| #[trigger] spells(needle, text, places) {
                let places = choose|places: Seq<int>| #[trigger] spells(needle, text, places);
                assert(places[0] != 0);
                let p = Seq::new(needle.len(), |k: int| places[k] - 1);
                assert forall|k: int| 0 <= k < p.len() implies 0 <= #[trigger] p[k] < rest.len()
                    && same_letter(rest[p[k]], needle[k]) by {
                    assert(k == 0 || places[0] < places[k]);
                    assert(0 <= places[0] && places[k] < text.len());
                    assert(text[places[k]] == rest[p[k]]);
                }
                assert forall|j: int, k: int| 0 <= j < k < p.len() implies #[trigger] p[j] < #[trigger] p[k] by {
                    assert(places[j] < places[k]);
                }
                assert(spells(needle, rest, p));
            }
        }
    }
}

/// A query with a search that is not blank finds a session of the catalog exactly where it meets the
/// conditions and the trimmed search stands, in order, in the texts of the session.
pub proof fn search_finds_what_is_spelled_in_order(
    sessions: Seq<SessionView>,
    q: QueryView,
    wanted: Seq<char>,
    i: int,
)
    requires
        0 <= i < sessions.len(),
        q.search matches Some(text) && trimmed(text) == wanted,
        wanted.len() > 0,
    ensures
        qualifies(sessions, q, scores_for(sessions, q), i) <==> {
            &&& meets_conditions(sessions[i], q)
            &&& q.include_non_interactive || sessions[i].interaction != InteractionType::NonInteractive
            &&& exists|places: Seq<int>| #[trigger]
                spells(wanted, search_text(sessions[i]), places)
        },
        qualifies(sessions, q, scores_for(sessions, q), i) ==> found(sessions, q).contains(sessions[i]),
{
    let scores = scores_for(sessions, q);
    lemma_passes(sessions[i], q);
    occurring_is_standing_in_order(wanted, search_text(sessions[i]));
    if qualifies(sessions, q, scores, i) {
        let places = query_finds_exactly_what_qualifies(sessions, q, scores);
        let k = choose|k: int| 0 <= k < places.len() && places[k] == i;
        assert(found(sessions, q)[k] == sessions[i]);
    }
}

/// Only the id, the title, the summary, the project and the directory of a session are searched.
pub proof fn nothing_else_is_searched(a: SessionView, b: SessionView)
    requires
        a.id == b.id,
        a.title == b.title,
        a.summary == b.summary,
        a.project == b.project,
        a.cwd == b.cwd,
    ensures
        search_text(a) == search_text(b),
        search_text(a).len() == a.id.len() + a.project.len() + 4 + (if a.title is Some {
            a.title->0.len()
        } else {
            0
        }) + (if a.summary is Some {
            a.summary->0.len()
        } else {
            0
        }) + (if a.cwd is Some {
            a.cwd->0.len()
        } else {
            0
        }),
{
    reveal_strlit(" ");
}

/// Without a search, no found session stands before one that was updated later.
pub proof fn later_update_stands_first(sessions: Seq<SessionView>, q: QueryView, j: int, k: int)
    requires
        q.search is None,
        0 <= j < k < found(sessions, q).len(),
    ensures
        not_before(found(sessions, q)[j].updated_at, found(sessions, q)[k].updated_at),
{
    let scores = scores_for(sessions, q);
    let places = query_finds_exactly_what_qualifies(sessions, q, scores);
    assert(qualifies(sessions, q, scores, places[j]) && qualifies(sessions, q, scores, places[k]));
    assert(scores[places[j]] == Some(0i64) && scores[places[k]] == Some(0i64));
}

/// A better match stands first, whatever the times; of two that match equally well, the one updated
/// later does; and two updated at the same time keep the order of the catalog.
pub proof fn better_match_stands_first(
    sessions: Seq<SessionView>,
    q: QueryView,
) -> (places: Seq<int>)
    ensures
        found(sessions, q).len() == places.len(),
        forall|k: int| 0 <= k < places.len() ==> found(sessions, q)[k] == sessions[#[trigger] places[k]],
        forall|j: int, k: int|
            0 <= j < k < places.len() ==> {
                let a = #[trigger] places[j];
                let b = #[trigger] places[k];
                let better = score_for(sessions, q, a)->0 as int;
                let worse = score_for(sessions, q, b)->0 as int;
                ||| better > worse
                ||| better == worse && not_before(sessions[a].updated_at, sessions[b].updated_at) && (
                sessions[a].updated_at == sessions[b].updated_at ==> a < b)
            },
{
    let scores = scores_for(sessions, q);
    let places = query_finds_exactly_what_qualifies(sessions, q, scores);
    assert forall|j: int, k: int| 0 <= j < k < places.len() implies ({
        let a = #[trigger] places[j];
        let b = #[trigger] places[k];
        let better = score_for(sessions, q, a)->0 as int;
        let worse = score_for(sessions, q, b)->0 as int;
        ||| better > worse
        ||| better == worse && not_before(sessions[a].updated_at, sessions[b].updated_at) && (
        sessions[a].updated_at == sessions[b].updated_at ==> a < b)
    }) by {
        assert(qualifies(sessions, q, scores, places[j]) && qualifies(sessions, q, scores, places[k]));
    }
    places
}

/// A catalog holds all sessions it is made of, the latest update first; sessions updated at the same
/// time keep their order.
pub proof fn catalog_stands_newest_first(sessions: Seq<SessionView>) -> (places: Seq<int>)
    ensures
        newest_first(sessions).len() == sessions.len() == places.len(),
        forall|k: int|
            0 <= k < places.len() ==> 0 <= #[trigger] places[k] < sessions.len() && newest_first(sessions)[k]
                == sessions[places[k]],
        forall|j: int, k: int|
            0 <= j < k < places.len() ==> {
                let a = sessions[#[trigger] places[j]].updated_at;
                let b = sessions[#[trigger] places[k]].updated_at;
                not_before(a, b) && (a == b ==> places[j] < places[k])
            },
{
    newest_first_rearranges(sessions);
    let ranks = update_ranks(sessions);
    stable_order_exists(ranks);
    let order = stable_order(ranks);
    assert forall|j: int, k: int| 0 <= j < k < order.len() implies ({
        let a = sessions[#[trigger] order[j]].updated_at;
        let b = sessions[#[trigger] order[k]].updated_at;
        not_before(a, b) && (a == b ==> order[j] < order[k])
    }) by {
        assert(precedes(ranks, order[j], order[k]));
    }
    order
}

/// Sessions are grouped by their project, by the UTC day of their update, by their source, or by their
/// model provider, for which `unknown` stands where there is none.
pub proof fn groups_go_by_one_thing(a: SessionView, b: SessionView)
    ensures
        key_of(a, GroupBy::Project) == key_of(b, GroupBy::Project) <==> a.project == b.project,
        key_of(a, GroupBy::Source) == key_of(b, GroupBy::Source) <==> a.source == b.source,
        a.updated_at.0 / 86_400 == b.updated_at.0 / 86_400 ==> key_of(a, GroupBy::Date) == key_of(
            b,
            GroupBy::Date,
        ),
        a.model_provider is Some && b.model_provider is Some ==> (key_of(a, GroupBy::Provider) == key_of(
            b,
            GroupBy::Provider,
        ) <==> a.model_provider == b.model_provider),
        a.model_provider is None ==> key_of(a, GroupBy::Provider) == "unknown"@,
        a.model_provider matches Some(name) ==> key_of(a, GroupBy::Provider) == name,
        key_of(a, GroupBy::Project) == a.project,
        key_of(a, GroupBy::Source) == a.source,
        exists|midnight: int|
            midnight <= a.updated_at.0 < midnight + 86_400 && midnight % 86_400 == 0 && key_of(
                a,
                GroupBy::Date,
            ) == #[trigger] utc_text(midnight, 0, "%Y-%m-%d"@),
{
    let x = a.updated_at.0;
    let y = b.updated_at.0;
    assert(x == 86_400 * (x / 86_400) + x % 86_400);
    assert(y == 86_400 * (y / 86_400) + y % 86_400);
    assert((x - x % 86_400) % 86_400 == 0);
    assert(key_of(a, GroupBy::Date) == utc_text(x - x % 86_400, 0, "%Y-%m-%d"@));
}

/// Looking a session up hands out the first of the catalog that has the id and, where a source is
/// named, that source but for case; nothing is handed out exactly where there is none.
pub proof fn lookup_needs_id_and_source(sessions: Seq<SessionView>, id: Seq<char>, source: Option<Seq<char>>) -> (i:
    int)
    ensures
        match first_named(sessions, id, source) {
            Some(s) => {
                &&& 0 <= i < sessions.len() && s == sessions[i]
                &&& s.id == id
                &&& source is Some ==> alike_but_case(s.source, source->0)
                &&& forall|j: int|
                    0 <= j < i ==> (#[trigger] sessions[j]).id != id || (source is Some && !alike_but_case(
                        sessions[j].source,
                        source->0,
                    ))
            },
            None => forall|j: int|
                0 <= j < sessions.len() ==> (#[trigger] sessions[j]).id != id || (source is Some
                    && !alike_but_case(sessions[j].source, source->0)),
        },
    decreases sessions.len(),
{
    if sessions.len() == 0 {
        0
    } else {
        if let Some(name) = source {
            comparing_forgets_only_case(sessions[0].source, name);
        }
        if is_named(sessions[0], id, source) {
            0
        } else {
            let rest = sessions.drop_first();
            let k = lookup_needs_id_and_source(rest, id, source);
            assert forall|j: int|
                0 <= j < sessions.len() && (j > 0 ==> rest[j - 1].id != id || (source is Some && !alike_but_case(
                    rest[j - 1].source,
                    source->0,
                ))) implies (#[trigger] sessions[j]).id != id || (source is Some && !alike_but_case(
                sessions[j].source,
                source->0,
            )) by {
                if j > 0 {
                    assert(rest[j - 1] == sessions[j]);
                }
            }
            k + 1
        }
    }
}

proof fn lemma_group_names_stand_in_order(sessions: Seq<SessionView>, g: GroupBy, i: int, j: int, q: int)
    requires
        0 <= i < j < group_names(sessions, g).len(),
        0 <= q < sessions.len(),
        key_of(sessions[q], g) == group_names(sessions, g)[j],
    ensures
        exists|p: int| 0 <= p < q && key_of(#[trigger] sessions[p], g) == group_names(sessions, g)[i],
    decreases sessions.len(),
{
    let less = sessions.drop_last();
    let before = group_names(less, g);
    let names = group_names(sessions, g);
    lemma_group_names_cover(less, g);
    if j < before.len() {
        assert(names[i] == before[i] && names[j] == before[j]);
        let at = lemma_name_has_a_session(less, g, j);
        if q < less.len() {
            assert(less[q] == sessions[q]);
            lemma_group_names_stand_in_order(less, g, i, j, q);
            let p = choose|p: int| 0 <= p < q && key_of(#[trigger] less[p], g) == before[i];
            assert(sessions[p] == less[p]);
        } else {
            lemma_group_names_stand_in_order(less, g, i, j, at);
            let p = choose|p: int| 0 <= p < at && key_of(#[trigger] less[p], g) == before[i];
            assert(sessions[p] == less[p]);
        }
    } else {
        assert(names[i] == before[i]);
        if q < less.len() {
            assert(less[q] == sessions[q]);
            assert(before.contains(key_of(less[q], g)));
        }
        let p = lemma_name_has_a_session(less, g, i);
        assert(sessions[p] == less[p]);
    }
}

proof fn lemma_name_has_a_session(sessions: Seq<SessionView>, g: GroupBy, j: int) -> (q: int)
    requires
        0 <= j < group_names(sessions, g).len(),
    ensures
        0 <= q < sessions.len(),
        key_of(sessions[q], g) == group_names(sessions, g)[j],
    decreases sessions.len(),
{
    let less = sessions.drop_last();
    if j < group_names(less, g).len() {
        lemma_name_has_a_session(less, g, j)
    } else {
        sessions.len() - 1
    }
}

/// Groups stand in the order of their first sessions: before each session of a group there is one of
/// every group that stands before it.
pub proof fn groups_stand_in_the_order_of_their_sessions(
    sessions: Seq<SessionView>,
    g: GroupBy,
    i: int,
    j: int,
    q: int,
)
    requires
        0 <= i < j < grouped(sessions, g).len(),
        0 <= q < sessions.len(),
        key_of(sessions[q], g) == grouped(sessions, g)[j].key,
    ensures
        exists|p: int| 0 <= p < q && key_of(#[trigger] sessions[p], g) == grouped(sessions, g)[i].key,
{
    lemma_group_names_stand_in_order(sessions, g, i, j, q);
}

/// Within a group the sessions keep their order, and none with its key is missing.
pub proof fn sessions_keep_their_order_within_a_group(
    sessions: Seq<SessionView>,
    g: GroupBy,
    i: int,
) -> (places: Seq<int>)
    requires
        0 <= i < grouped(sessions, g).len(),
    ensures
        places.len() == grouped(sessions, g)[i].sessions.len(),
        forall|k: int|
            0 <= k < places.len() ==> 0 <= #[trigger] places[k] < sessions.len() && sessions[places[k]]
                == grouped(sessions, g)[i].sessions[k],
        forall|k: int, m: int| 0 <= k < m < places.len() ==> #[trigger] places[k] < #[trigger] places[m],
        forall|k: int|
            0 <= k < sessions.len() && key_of(#[trigger] sessions[k], g) == grouped(sessions, g)[i].key
                ==> places.contains(k),
{
    let name = group_names(sessions, g)[i];
    what_is_kept_stands_in_order(sessions, |s: SessionView| key_of(s, g) == name)
}

/// A catalog keeps every warning of its report, in order, and as many sessions.
pub proof fn catalog_keeps_what_was_reported(report: ScanReport, r: SessionCatalog)
    requires
        call_ensures(SessionCatalog::from_report, (report,), r),
    ensures
        r@.warnings == report@.warnings,
        r@.sessions.len() == report@.sessions.len(),
        r@.sessions.to_multiset() == report@.sessions.to_multiset(),
{
    newest_first_rearranges(report@.sessions);
}

} // verus!
