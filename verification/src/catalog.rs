//! Filtering, fuzzy search, ordering and grouping of sessions, whatever their source.

use fuzzy_matcher::skim::SkimMatcherV2;
use fuzzy_matcher::FuzzyMatcher;
use vstd::prelude::*;

use crate::domain::{search_text, InteractionType, ReportView, ScanReport, ScanWarning, Session, SessionView};
use crate::model::{copy_text, lemma_views_push, opt_view, or_text, text_or, views};
use crate::order::{
    arranged, in_stable_order, indices, is_stable_order, rank_order, rank_views, stable_order, Rank, RankView,
};
use crate::text::{ascii_lower, chars_of, eq_ignore_case, same_but_case, same_text, trim, trimmed};
use crate::time::{day_of, earlier, format_utc, utc_text, Timestamp, DAY_PATTERN};

verus! {

/// What sessions are grouped by.
#[derive(Debug, Clone, Copy, PartialEq, Eq, Structural)]
pub enum GroupBy {
    /// The last component of the working directory.
    Project,
    /// The UTC date of the last update.
    Date,
    /// The agent source.
    Source,
    /// The model provider.
    Provider,
}

/// The grouping that follows `g` when groupings are cycled through.
pub open spec fn next_grouping(g: GroupBy) -> GroupBy {
    match g {
        GroupBy::Project => GroupBy::Date,
        GroupBy::Date => GroupBy::Source,
        GroupBy::Source => GroupBy::Provider,
        GroupBy::Provider => GroupBy::Project,
    }
}

impl GroupBy {
    /// The next grouping in the cycle.
    pub fn next(self) -> (r: GroupBy)
        ensures
            r == next_grouping(self),
    {
        match self {
            GroupBy::Project => GroupBy::Date,
            GroupBy::Date => GroupBy::Source,
            GroupBy::Source => GroupBy::Provider,
            GroupBy::Provider => GroupBy::Project,
        }
    }
}

/// Cycling through the groupings visits each of the four and comes back.
pub proof fn groupings_form_one_cycle(g: GroupBy)
    ensures
        next_grouping(next_grouping(next_grouping(next_grouping(g)))) == g,
        next_grouping(g) != g,
        next_grouping(next_grouping(g)) != g,
        next_grouping(next_grouping(next_grouping(g))) != g,
{
}

/// The conditions of a query; a condition that is not given excludes nothing.
#[derive(Debug)]
pub struct SessionQuery {
    /// Only sessions of this source.
    pub source: Option<String>,
    /// Only sessions of this project.
    pub project: Option<String>,
    /// Only sessions of this model provider.
    pub provider: Option<String>,
    /// Only sessions updated at this time or later.
    pub since: Option<Timestamp>,
    /// Whether to keep sessions that are known to be non-interactive.
    pub include_non_interactive: bool,
    /// What to search title, summary, directory and id for.
    pub search: Option<String>,
}

/// The model of a `SessionQuery`.
pub struct QueryView {
    pub source: Option<Seq<char>>,
    pub project: Option<Seq<char>>,
    pub provider: Option<Seq<char>>,
    pub since: Option<(int, int)>,
    pub include_non_interactive: bool,
    pub search: Option<Seq<char>>,
}

impl View for SessionQuery {
    type V = QueryView;

    open spec fn view(&self) -> QueryView {
        QueryView {
            source: opt_view(self.source),
            project: opt_view(self.project),
            provider: opt_view(self.provider),
            since: opt_view(self.since),
            include_non_interactive: self.include_non_interactive,
            search: opt_view(self.search),
        }
    }
}

/// The query that asks for nothing in particular.
pub open spec fn plain_query() -> QueryView {
    QueryView {
        source: None,
        project: None,
        provider: None,
        since: None,
        include_non_interactive: false,
        search: None,
    }
}

impl Default for SessionQuery {
    fn default() -> (r: SessionQuery)
        ensures
            r@ == plain_query(),
    {
        SessionQuery {
            source: None,
            project: None,
            provider: None,
            since: None,
            include_non_interactive: false,
            search: None,
        }
    }
}

impl Clone for SessionQuery {
    fn clone(&self) -> (r: SessionQuery)
        ensures
            r@ == self@,
    {
        SessionQuery {
            source: copy_text(&self.source),
            project: copy_text(&self.project),
            provider: copy_text(&self.provider),
            since: self.since,
            include_non_interactive: self.include_non_interactive,
            search: copy_text(&self.search),
        }
    }
}

/// Whether the session `s` meets the conditions of `q` other than the search.
pub open spec fn passes(s: SessionView, q: QueryView) -> bool {
    &&& q.include_non_interactive || s.interaction != InteractionType::NonInteractive
    &&& q.source matches Some(source) ==> same_but_case(s.source, source)
    &&& q.project matches Some(project) ==> same_but_case(s.project, project)
    &&& q.provider matches Some(provider) ==> (s.model_provider matches Some(named)
        && same_but_case(named, provider))
    &&& q.since matches Some(since) ==> !earlier(s.updated_at, since)
}

/// What `q` searches for; a blank search is none.
pub open spec fn needle(q: QueryView) -> Option<Seq<char>> {
    match q.search {
        Some(text) => if trimmed(text).len() > 0 {
            Some(trimmed(text))
        } else {
            None
        },
        None => None,
    }
}

/// The longest text that is searched, and the longest that is searched for. A character that is
/// searched for adds at most 32 to a match score, so every score stays within 32 bits.
pub const MATCH_LIMIT: usize = 67_108_862;

/// Whether the characters of `needle` occur in `text` in their order, be it with others between them
/// or in another case of ASCII letters.
pub open spec fn occurs_in(needle: Seq<char>, text: Seq<char>) -> bool
    decreases text.len(),
{
    if needle.len() == 0 {
        true
    } else if text.len() == 0 {
        false
    } else if ascii_lower(text[0]) == ascii_lower(needle[0]) {
        occurs_in(needle.drop_first(), text.drop_first())
    } else {
        occurs_in(needle, text.drop_first())
    }
}

/// A fuzzy matcher.
#[verifier::external_type_specification]
#[verifier::external_body]
pub struct ExMatcher(fuzzy_matcher::skim::SkimMatcherV2);

/// The texts and needles that a matcher which ignores case was asked about so far; nothing of
/// another matcher.
pub uninterp spec fn asked(matcher: fuzzy_matcher::skim::SkimMatcherV2) -> Option<Seq<(Seq<char>, Seq<char>)>>;

/// How well `needle` matches `text`, in which it occurs, to a matcher that was asked about `before`.
pub uninterp spec fn match_score(
    before: Seq<(Seq<char>, Seq<char>)>,
    text: Seq<char>,
    needle: Seq<char>,
) -> i64;

/// How well `needle` matches `text` to a matcher that was asked about `before`; nothing where it
/// does not occur in it.
pub open spec fn fuzzy_match(
    before: Seq<(Seq<char>, Seq<char>)>,
    text: Seq<char>,
    needle: Seq<char>,
) -> Option<i64> {
    if occurs_in(needle, text) {
        Some(match_score(before, text, needle))
    } else {
        None
    }
}

/// Calls `SkimMatcherV2::default` and its `ignore_case`: the matcher ignores case and was asked
/// about nothing.
#[verifier::external_body]
pub(crate) fn new_matcher() -> (r: SkimMatcherV2)
    ensures
        asked(r) == Some(Seq::<(Seq<char>, Seq<char>)>::empty()),
{
    SkimMatcherV2::default().ignore_case()
}

/// Calls `FuzzyMatcher::fuzzy_match`: there is a score exactly where the needle occurs in the text.
/// The matcher keeps its score matrix from call to call, and the bonuses left in it count, so the
/// score depends on the two texts and on what the matcher was asked about before; it is named
/// `match_score`.
#[verifier::external_body]
pub(crate) fn fuzzy_score(matcher: &mut SkimMatcherV2, text: &str, needle: &str) -> (r: Option<i64>)
    requires
        asked(*old(matcher)) is Some,
        text@.len() <= MATCH_LIMIT,
        needle@.len() <= MATCH_LIMIT,
    ensures
        r == fuzzy_match(asked(*old(matcher))->0, text@, needle@),
        r is Some ==> r == Some(match_score(asked(*old(matcher))->0, text@, needle@)),
        asked(*final(matcher)) == Some(asked(*old(matcher))->0.push((text@, needle@))),
{
    matcher.fuzzy_match(text, needle)
}

/// Whether a search for `q` among `sessions` stays within `MATCH_LIMIT`: what is searched for and what
/// is looked at in each session that passes. Without a search it does.
pub open spec fn searchable(sessions: Seq<SessionView>, q: QueryView) -> bool {
    needle(q) matches Some(wanted) ==> {
        &&& wanted.len() <= MATCH_LIMIT
        &&& forall|i: int|
            0 <= i < sessions.len() && passes(#[trigger] sessions[i], q) ==> search_text(sessions[i]).len()
                <= MATCH_LIMIT
    }
}

/// Whether a search for `query` among `sessions` stays within `MATCH_LIMIT`.
pub fn can_search(sessions: &[Session], query: &SessionQuery) -> (r: bool)
    ensures
        r == searchable(views(sessions@), query@),
{
    let ghost all = views(sessions@);
    let wanted = match search_needle(query) {
        Some(text) => text,
        None => {
            return true;
        },
    };
    if chars_of(wanted.as_str()).len() > MATCH_LIMIT {
        return false;
    }
    let mut i: usize = 0;
    while i < sessions.len()
        invariant
            i <= sessions@.len(),
            all == views(sessions@),
            needle(query@) is Some,
            forall|k: int|
                0 <= k < i && passes(#[trigger] all[k], query@) ==> search_text(all[k]).len()
                    <= MATCH_LIMIT,
        decreases sessions@.len() - i,
    {
        proof {
            assert(all[i as int] == sessions@[i as int]@);
        }
        if matches_filters(&sessions[i], query) {
            let text = sessions[i].searchable_text();
            if chars_of(text.as_str()).len() > MATCH_LIMIT {
                return false;
            }
        }
        i = i + 1;
    }
    true
}

/// What a matcher is asked about `wanted` once it has gone through those of the first `n` sessions
/// that pass `q`.
pub open spec fn asked_about(
    sessions: Seq<SessionView>,
    q: QueryView,
    wanted: Seq<char>,
    n: int,
) -> Seq<(Seq<char>, Seq<char>)>
    decreases n,
{
    if n <= 0 {
        Seq::empty()
    } else {
        let before = asked_about(sessions, q, wanted, n - 1);
        if passes(sessions[n - 1], q) {
            before.push((search_text(sessions[n - 1]), wanted))
        } else {
            before
        }
    }
}

/// The score of session `i` for the query `q`: that of a matcher which has gone through the sessions
/// before it that pass; zero without a search.
pub open spec fn score_for(sessions: Seq<SessionView>, q: QueryView, i: int) -> Option<i64> {
    match needle(q) {
        Some(wanted) => fuzzy_match(
            asked_about(sessions, q, wanted, i),
            search_text(sessions[i]),
            wanted,
        ),
        None => Some(0i64),
    }
}

/// The scores of `sessions` for the query `q`, in order.
pub open spec fn scores_for(sessions: Seq<SessionView>, q: QueryView) -> Seq<Option<i64>> {
    Seq::new(sessions.len(), |i: int| score_for(sessions, q, i))
}

/// Where those of the first `n` sessions stand that pass `q` and have a score.
pub open spec fn hits(
    sessions: Seq<SessionView>,
    q: QueryView,
    scores: Seq<Option<i64>>,
    n: int,
) -> Seq<int>
    decreases n,
{
    if n <= 0 {
        Seq::empty()
    } else {
        let before = hits(sessions, q, scores, n - 1);
        if passes(sessions[n - 1], q) && scores[n - 1] is Some {
            before.push(n - 1)
        } else {
            before
        }
    }
}

/// The rank of session `i`: its score, then its last update.
pub open spec fn rank_of(sessions: Seq<SessionView>, scores: Seq<Option<i64>>, i: int) -> RankView {
    (scores[i]->0 as int, sessions[i].updated_at.0, sessions[i].updated_at.1)
}

/// The ranks of the sessions that stand at `places`, in order.
pub open spec fn ranks_at(
    sessions: Seq<SessionView>,
    scores: Seq<Option<i64>>,
    places: Seq<int>,
) -> Seq<RankView> {
    Seq::new(places.len(), |k: int| rank_of(sessions, scores, places[k]))
}

/// The sessions that pass `q` and have a score, the best score first, then the latest update.
pub open spec fn ranked(
    sessions: Seq<SessionView>,
    q: QueryView,
    scores: Seq<Option<i64>>,
) -> Seq<SessionView> {
    let places = hits(sessions, q, scores, sessions.len() as int);
    let sorted = in_stable_order(places, ranks_at(sessions, scores, places));
    Seq::new(sorted.len(), |k: int| sessions[sorted[k]])
}

/// What the query `q` finds among `sessions`.
pub open spec fn found(sessions: Seq<SessionView>, q: QueryView) -> Seq<SessionView> {
    ranked(sessions, q, scores_for(sessions, q))
}

/// The ranks that order sessions by their last update alone.
pub open spec fn update_ranks(sessions: Seq<SessionView>) -> Seq<RankView> {
    Seq::new(sessions.len(), |i: int| (0int, sessions[i].updated_at.0, sessions[i].updated_at.1))
}

/// `sessions`, the latest update first; equals keep their places.
pub open spec fn newest_first(sessions: Seq<SessionView>) -> Seq<SessionView> {
    in_stable_order(sessions, update_ranks(sessions))
}

/// Whether no session stands before one with a later update.
pub open spec fn is_newest_first(sessions: Seq<SessionView>) -> bool {
    forall|i: int, j: int|
        0 <= i < j < sessions.len() ==> !earlier(
            #[trigger] sessions[i].updated_at,
            #[trigger] sessions[j].updated_at,
        )
}

/// The sessions of `sessions`, the latest update first; equals keep their places.
pub fn sort_newest_first(sessions: Vec<Session>) -> (r: Vec<Session>)
    ensures
        views(r@) == newest_first(views(sessions@)),
        is_newest_first(views(r@)),
{
    let mut ranks: Vec<Rank> = Vec::new();
    let mut i: usize = 0;
    while i < sessions.len()
        invariant
            i <= sessions@.len(),
            rank_views(ranks@) == update_ranks(views(sessions@)).take(i as int),
        decreases sessions@.len() - i,
    {
        let ghost before = ranks@;
        ranks.push(Rank { score: 0, updated_at: sessions[i].updated_at });
        proof {
            assert(rank_views(ranks@) == rank_views(before).push(ranks@.last()@));
            let all = update_ranks(views(sessions@));
            assert(all.take(i + 1) == all.take(i as int).push(all[i as int]));
        }
        i = i + 1;
    }
    proof {
        let all = update_ranks(views(sessions@));
        assert(all.take(all.len() as int) == all);
    }
    let order = rank_order(&ranks);
    let ghost given = sessions@;
    let ghost places = indices(order@);
    proof {
        assert forall|k: int| 0 <= k < order@.len() implies #[trigger] order@[k] < sessions@.len() by {
            assert(places[k] == order@[k] as int);
        }
        assert forall|j: int, k: int| 0 <= j < k < order@.len() implies order@[j] != order@[k] by {
            assert(places[j] == order@[j] as int && places[k] == order@[k] as int);
        }
    }
    let r = arranged(sessions, &order);
    proof {
        let ranks = update_ranks(views(given));
        assert(views(r@) =~= newest_first(views(given))) by {
            assert forall|k: int| 0 <= k < r@.len() implies #[trigger] views(r@)[k] == newest_first(
                views(given),
            )[k] by {
                assert(places[k] == order@[k] as int);
            }
        }
        assert forall|i: int, j: int| 0 <= i < j < r@.len() implies !earlier(
            #[trigger] views(r@)[i].updated_at,
            #[trigger] views(r@)[j].updated_at,
        ) by {
            assert(views(r@)[i] == views(given)[places[i]]);
            assert(views(r@)[j] == views(given)[places[j]]);
            assert(crate::order::precedes(ranks, places[i], places[j]));
        }
    }
    r
}

/// Scanned sessions, ready to be queried.
#[derive(Debug)]
pub struct SessionCatalog {
    sessions: Vec<Session>,
    warnings: Vec<ScanWarning>,
}

impl View for SessionCatalog {
    type V = ReportView;

    closed spec fn view(&self) -> ReportView {
        ReportView { sessions: views(self.sessions@), warnings: views(self.warnings@) }
    }
}

impl SessionCatalog {
    #[verifier::type_invariant]
    spec fn ordered(self) -> bool {
        is_newest_first(views(self.sessions@))
    }

    /// Makes a catalog of a scan report, the latest update first.
    pub fn from_report(report: ScanReport) -> (r: SessionCatalog)
        ensures
            r@.sessions == newest_first(report@.sessions),
            r@.warnings == report@.warnings,
    {
        SessionCatalog {
            sessions: sort_newest_first(report.sessions),
            warnings: report.warnings,
        }
    }

    /// The problems that the scan met.
    pub fn warnings(&self) -> (r: &[ScanWarning])
        ensures
            views(r@) == self@.warnings,
    {
        self.warnings.as_slice()
    }

    /// All sessions, the latest update first.
    pub fn sessions(&self) -> (r: &[Session])
        ensures
            views(r@) == self@.sessions,
            is_newest_first(views(r@)),
    {
        proof {
            use_type_invariant(&*self);
        }
        self.sessions.as_slice()
    }

    /// The sessions that meet `query`, the best match first, then the latest update.
    pub fn query<'a>(&'a self, query: &SessionQuery) -> (r: Vec<&'a Session>)
        requires
            searchable(self@.sessions, query@),
        ensures
            views(r@) == found(self@.sessions, query@),
    {
        let wanted = search_needle(query);
        let mut matcher = new_matcher();
        let mut scores: Vec<Option<i64>> = Vec::new();
        let ghost all = views(self.sessions@);
        let ghost full = scores_for(all, query@);
        let mut i: usize = 0;
        while i < self.sessions.len()
            invariant
                i <= self.sessions@.len(),
                all == views(self.sessions@),
                self@.sessions == all,
                full == scores_for(all, query@),
                searchable(self@.sessions, query@),
                opt_view(wanted) == needle(query@),
                needle(query@) matches Some(text) ==> asked(matcher) == Some(
                    asked_about(all, query@, text, i as int),
                ),
                scores@.len() == i,
                forall|k: int|
                    0 <= k < i && passes(all[k], query@) ==> #[trigger] scores@[k] == full[k],
            decreases self.sessions@.len() - i,
        {
            let session = &self.sessions[i];
            let mut score: Option<i64> = Some(0);
            proof {
                assert(all[i as int] == session@);
            }
            if let Some(text) = &wanted {
                if matches_filters(session, query) {
                    let looked_at = session.searchable_text();
                    score = fuzzy_score(&mut matcher, looked_at.as_str(), text.as_str());
                }
            }
            scores.push(score);
            i = i + 1;
        }
        proof {
            lemma_hits_look_only_at_passing(all, query@, scores@, full, all.len() as int);
            let places = hits(all, query@, full, all.len() as int);
            lemma_hits_are_places(all, query@, full, all.len() as int);
            assert(ranks_at(all, scores@, places) =~= ranks_at(all, full, places));
        }
        self.rank_matches(query, &scores)
    }

    /// The sessions that pass the conditions of `query` and have a score in `scores`, the best
    /// score first, then the latest update.
    pub fn rank_matches<'a>(&'a self, query: &SessionQuery, scores: &Vec<Option<i64>>) -> (r: Vec<
        &'a Session,
    >)
        requires
            scores@.len() == self@.sessions.len(),
        ensures
            views(r@) == ranked(self@.sessions, query@, scores@),
    {
        let ghost all = views(self.sessions@);
        let mut places: Vec<usize> = Vec::new();
        let mut ranks: Vec<Rank> = Vec::new();
        let mut i: usize = 0;
        while i < self.sessions.len()
            invariant
                i <= self.sessions@.len(),
                all == views(self.sessions@),
                scores@.len() == all.len(),
                indices(places@) == hits(all, query@, scores@, i as int),
                forall|k: int| 0 <= k < places@.len() ==> #[trigger] places@[k] < i,
                rank_views(ranks@) == ranks_at(all, scores@, indices(places@)),
            decreases self.sessions@.len() - i,
        {
            let session = &self.sessions[i];
            let ghost places_before = places@;
            let ghost ranks_before = ranks@;
            if matches_filters(session, query) {
                if let Some(score) = scores[i] {
                    places.push(i);
                    ranks.push(Rank { score, updated_at: session.updated_at });
                    proof {
                        assert(indices(places@) == indices(places_before).push(i as int));
                        assert(rank_views(ranks@) == rank_views(ranks_before).push(ranks@.last()@));
                        assert(ranks@.last()@ == rank_of(all, scores@, i as int));
                        assert(ranks_at(all, scores@, indices(places@)) =~= ranks_at(
                            all,
                            scores@,
                            indices(places_before),
                        ).push(rank_of(all, scores@, i as int)));
                    }
                }
            }
            i = i + 1;
        }
        let order = rank_order(&ranks);
        let ghost sorted = in_stable_order(indices(places@), rank_views(ranks@));
        let ghost picked = indices(order@);
        let mut r: Vec<&'a Session> = Vec::new();
        let mut k: usize = 0;
        while k < order.len()
            invariant
                k <= order@.len(),
                order@.len() == places@.len() == sorted.len(),
                all == views(self.sessions@),
                picked == indices(order@),
                is_stable_order(rank_views(ranks@), picked),
                picked == stable_order(rank_views(ranks@)),
                ranks@.len() == places@.len(),
                sorted == in_stable_order(indices(places@), rank_views(ranks@)),
                forall|k: int| 0 <= k < places@.len() ==> #[trigger] places@[k] < all.len(),
                views(r@) == Seq::new(k as nat, |k: int| all[sorted[k]]),
            decreases order@.len() - k,
        {
            proof {
                assert(picked[k as int] == order@[k as int] as int);
                assert(sorted[k as int] == places@[order@[k as int] as int] as int);
            }
            let ghost before = r@;
            r.push(&self.sessions[places[order[k]]]);
            proof {
                lemma_views_push(before, r@.last());
                assert(Seq::new((k + 1) as nat, |k: int| all[sorted[k]]) =~= Seq::new(
                    k as nat,
                    |k: int| all[sorted[k]],
                ).push(all[sorted[k as int]]));
            }
            k = k + 1;
        }
        r
    }

    /// The first session with the id `id`, of the source `source` where one is given.
    pub fn find<'a>(&'a self, id: &str, source: Option<&str>) -> (r: Option<&'a Session>)
        ensures
            match r {
                Some(s) => exists|i: int|
                    {
                        &&& 0 <= i < self@.sessions.len()
                        &&& s@ == #[trigger] self@.sessions[i]
                        &&& is_named(s@, id@, opt_view(source))
                        &&& forall|j: int|
                            0 <= j < i ==> !is_named(
                                #[trigger] self@.sessions[j],
                                id@,
                                opt_view(source),
                            )
                    },
                None => forall|j: int|
                    0 <= j < self@.sessions.len() ==> !is_named(
                        #[trigger] self@.sessions[j],
                        id@,
                        opt_view(source),
                    ),
            },
            opt_view(r) == first_named(self@.sessions, id@, opt_view(source)),
    {
        let ghost all = views(self.sessions@);
        let mut i: usize = 0;
        while i < self.sessions.len()
            invariant
                i <= self.sessions@.len(),
                all == views(self.sessions@),
                self@.sessions == all,
                forall|j: int|
                    0 <= j < i ==> !is_named(#[trigger] all[j], id@, opt_view(source)),
            decreases self.sessions@.len() - i,
        {
            let session = &self.sessions[i];
            proof {
                assert(all[i as int] == session@);
            }
            if same_text(session.id.as_str(), id) {
                let from_source = match source {
                    Some(wanted) => eq_ignore_case(session.source.as_str(), wanted),
                    None => true,
                };
                if from_source {
                    proof {
                        assert(is_named(self@.sessions[i as int], id@, opt_view(source)));
                        lemma_first_named_at(all, id@, opt_view(source), i as int);
                    }
                    return Some(session);
                }
            }
            i = i + 1;
        }
        proof {
            lemma_first_named_at(all, id@, opt_view(source), all.len() as int);
        }
        None
    }
}

/// Whether the session `s` has the id `id` and, where `source` is given, comes from it.
pub open spec fn is_named(s: SessionView, id: Seq<char>, source: Option<Seq<char>>) -> bool {
    s.id == id && (source matches Some(wanted) ==> same_but_case(s.source, wanted))
}

/// The first of `sessions` with the id `id`, of the source `source` where one is given.
pub open spec fn first_named(sessions: Seq<SessionView>, id: Seq<char>, source: Option<Seq<char>>) -> Option<
    SessionView,
>
    decreases sessions.len(),
{
    if sessions.len() == 0 {
        None
    } else if is_named(sessions[0], id, source) {
        Some(sessions[0])
    } else {
        first_named(sessions.drop_first(), id, source)
    }
}

proof fn lemma_first_named_at(sessions: Seq<SessionView>, id: Seq<char>, source: Option<Seq<char>>, n: int)
    requires
        0 <= n <= sessions.len(),
        forall|j: int| 0 <= j < n ==> !is_named(#[trigger] sessions[j], id, source),
        n < sessions.len() ==> is_named(sessions[n], id, source),
    ensures
        first_named(sessions, id, source) == if n < sessions.len() {
            Some(sessions[n])
        } else {
            None
        },
    decreases n,
{
    if n > 0 {
        let rest = sessions.drop_first();
        assert(!is_named(sessions[0], id, source));
        assert forall|j: int| 0 <= j < n - 1 implies !is_named(#[trigger] rest[j], id, source) by {
            assert(rest[j] == sessions[j + 1]);
        }
        lemma_first_named_at(rest, id, source, n - 1);
    }
}

proof fn lemma_hits_look_only_at_passing(
    sessions: Seq<SessionView>,
    q: QueryView,
    a: Seq<Option<i64>>,
    b: Seq<Option<i64>>,
    n: int,
)
    requires
        0 <= n <= sessions.len(),
        a.len() == b.len() == sessions.len(),
        forall|k: int| 0 <= k < n && passes(sessions[k], q) ==> #[trigger] a[k] == b[k],
    ensures
        hits(sessions, q, a, n) == hits(sessions, q, b, n),
    decreases n,
{
    if n > 0 {
        lemma_hits_look_only_at_passing(sessions, q, a, b, n - 1);
        if passes(sessions[n - 1], q) {
            assert(a[n - 1] == b[n - 1]);
        }
    }
}

/// Every hit is the place of a session that passes and has a score, and no place occurs twice.
pub proof fn lemma_hits_are_places(
    sessions: Seq<SessionView>,
    q: QueryView,
    scores: Seq<Option<i64>>,
    n: int,
)
    requires
        0 <= n <= sessions.len(),
    ensures
        ({
            let places = hits(sessions, q, scores, n);
            &&& forall|k: int|
                0 <= k < places.len() ==> 0 <= #[trigger] places[k] < n && passes(
                    sessions[places[k]],
                    q,
                ) && scores[places[k]] is Some
            &&& forall|j: int, k: int| 0 <= j < k < places.len() ==> places[j] < places[k]
            &&& forall|i: int|
                0 <= i < n && passes(sessions[i], q) && #[trigger] scores[i] is Some
                    ==> places.contains(i)
        }),
    decreases n,
{
    if n > 0 {
        lemma_hits_are_places(sessions, q, scores, n - 1);
        let before = hits(sessions, q, scores, n - 1);
        let places = hits(sessions, q, scores, n);
        assert forall|i: int|
            0 <= i < n && passes(sessions[i], q) && #[trigger] scores[i] is Some implies places.contains(
            i,
        ) by {
            if i == n - 1 {
                assert(places.last() == i);
            } else {
                assert(before.contains(i));
                let k = choose|k: int| 0 <= k < before.len() && before[k] == i;
                assert(places[k] == i);
            }
        }
    }
}

fn search_needle(query: &SessionQuery) -> (r: Option<String>)
    ensures
        opt_view(r) == needle(query@),
{
    match &query.search {
        Some(text) => {
            let wanted = trim(text.as_str());
            if chars_of(wanted.as_str()).len() > 0 {
                Some(wanted)
            } else {
                None
            }
        },
        None => None,
    }
}

/// Whether a session meets the conditions of a query other than the search.
pub fn matches_filters(session: &Session, query: &SessionQuery) -> (r: bool)
    ensures
        r == passes(session@, query@),
{
    if !query.include_non_interactive && session.interaction == InteractionType::NonInteractive {
        return false;
    }
    if let Some(source) = &query.source {
        if !eq_ignore_case(session.source.as_str(), source.as_str()) {
            return false;
        }
    }
    if let Some(project) = &query.project {
        if !eq_ignore_case(session.project.as_str(), project.as_str()) {
            return false;
        }
    }
    if let Some(provider) = &query.provider {
        let named = match &session.model_provider {
            Some(value) => eq_ignore_case(value.as_str(), provider.as_str()),
            None => false,
        };
        if !named {
            return false;
        }
    }
    if let Some(since) = &query.since {
        if session.updated_at.is_before(since) {
            return false;
        }
    }
    true
}

/// A group of sessions and what they have in common.
#[derive(Debug)]
pub struct SessionGroup<'a> {
    /// The name of the group.
    pub key: String,
    /// Its sessions.
    pub sessions: Vec<&'a Session>,
}

/// The model of a `SessionGroup`.
pub struct GroupView {
    pub key: Seq<char>,
    pub sessions: Seq<SessionView>,
}

impl<'a> View for SessionGroup<'a> {
    type V = GroupView;

    open spec fn view(&self) -> GroupView {
        GroupView { key: self.key@, sessions: views(self.sessions@) }
    }
}

/// The name of the group that the session `s` belongs to.
pub open spec fn key_of(s: SessionView, g: GroupBy) -> Seq<char> {
    match g {
        GroupBy::Project => s.project,
        GroupBy::Date => utc_text(day_of(s.updated_at.0), 0, DAY_PATTERN@),
        GroupBy::Source => s.source,
        GroupBy::Provider => or_text(s.model_provider, "unknown"@),
    }
}

/// The names of the groups of `sessions`, in the order of their first sessions.
pub open spec fn group_names(sessions: Seq<SessionView>, g: GroupBy) -> Seq<Seq<char>>
    decreases sessions.len(),
{
    if sessions.len() == 0 {
        Seq::empty()
    } else {
        let before = group_names(sessions.drop_last(), g);
        let key = key_of(sessions.last(), g);
        if before.contains(key) {
            before
        } else {
            before.push(key)
        }
    }
}

/// The sessions of `sessions` that belong to the group `key`, in order.
pub open spec fn members(sessions: Seq<SessionView>, g: GroupBy, key: Seq<char>) -> Seq<SessionView> {
    sessions.filter(|s: SessionView| key_of(s, g) == key)
}

/// The groups of `sessions`, in the order of their first sessions.
pub open spec fn grouped(sessions: Seq<SessionView>, g: GroupBy) -> Seq<GroupView> {
    let names = group_names(sessions, g);
    Seq::new(
        names.len(),
        |i: int| GroupView { key: names[i], sessions: members(sessions, g, names[i]) },
    )
}

/// The name of the group that a session belongs to.
pub fn group_key(session: &Session, group_by: GroupBy) -> (r: String)
    ensures
        r@ == key_of(session@, group_by),
{
    match group_by {
        GroupBy::Project => session.project.clone(),
        GroupBy::Date => format_utc(&session.updated_at, DAY_PATTERN),
        GroupBy::Source => session.source.as_str().to_owned(),
        GroupBy::Provider => text_or(&session.model_provider, "unknown").to_owned(),
    }
}

/// Every session belongs to a group, and no group is named twice.
pub proof fn lemma_group_names_cover(sessions: Seq<SessionView>, g: GroupBy)
    ensures
        group_names(sessions, g).no_duplicates(),
        forall|i: int|
            0 <= i < sessions.len() ==> group_names(sessions, g).contains(
                key_of(#[trigger] sessions[i], g),
            ),
    decreases sessions.len(),
{
    if sessions.len() > 0 {
        let rest = sessions.drop_last();
        lemma_group_names_cover(rest, g);
        let before = group_names(rest, g);
        let names = group_names(sessions, g);
        let key = key_of(sessions.last(), g);
        assert(forall|i: int| 0 <= i < rest.len() ==> rest[i] == sessions[i]);
        if before.contains(key) {
            assert(names == before);
        } else {
            assert(names == before.push(key));
            assert(names.last() == key);
            assert(names.contains(key));
        }
        assert forall|i: int| 0 <= i < sessions.len() implies names.contains(
            key_of(#[trigger] sessions[i], g),
        ) by {
            if i < rest.len() {
                assert(before.contains(key_of(rest[i], g)));
                let k = choose|k: int| 0 <= k < before.len() && before[k] == key_of(rest[i], g);
                assert(names[k] == before[k]);
            }
        }
    }
}

/// The members of a group once one session more is there.
pub proof fn lemma_members_push(sessions: Seq<SessionView>, s: SessionView, g: GroupBy, key: Seq<char>)
    ensures
        members(sessions.push(s), g, key) == (if key_of(s, g) == key {
            members(sessions, g, key).push(s)
        } else {
            members(sessions, g, key)
        }),
{
    reveal(Seq::filter);
    assert(sessions.push(s).drop_last() == sessions);
}

/// A group that no session belongs to has no members.
pub proof fn lemma_members_empty(sessions: Seq<SessionView>, g: GroupBy, key: Seq<char>)
    requires
        forall|i: int| 0 <= i < sessions.len() ==> key_of(#[trigger] sessions[i], g) != key,
    ensures
        members(sessions, g, key) == Seq::<SessionView>::empty(),
    decreases sessions.len(),
{
    reveal(Seq::filter);
    if sessions.len() > 0 {
        let rest = sessions.drop_last();
        assert forall|i: int| 0 <= i < rest.len() implies key_of(#[trigger] rest[i], g) != key by {
            assert(rest[i] == sessions[i]);
        }
        lemma_members_empty(rest, g, key);
        assert(key_of(sessions[sessions.len() - 1], g) != key);
    }
}

/// Groups sessions, the groups in the order of their first sessions and each in the order given.
pub fn group_sessions<'a>(sessions: Vec<&'a Session>, group_by: GroupBy) -> (r: Vec<
    SessionGroup<'a>,
>)
    ensures
        views(r@) == grouped(views(sessions@), group_by),
{
    let mut groups: Vec<SessionGroup<'a>> = Vec::new();
    let ghost all = views(sessions@);
    let mut i: usize = 0;
    while i < sessions.len()
        invariant
            i <= sessions@.len(),
            all == views(sessions@),
            views(groups@) == grouped(all.take(i as int), group_by),
        decreases sessions@.len() - i,
    {
        let session: &'a Session = sessions[i];
        let key = group_key(session, group_by);
        let ghost seen = all.take(i as int);
        let ghost next = all.take(i + 1);
        let ghost names = group_names(seen, group_by);
        proof {
            assert(next == seen.push(session@));
            assert(next.drop_last() == seen);
            assert(next.last() == session@);
            lemma_group_names_cover(seen, group_by);
            assert(views(groups@).len() == names.len());
            assert forall|k: int| 0 <= k < groups@.len() implies #[trigger] groups@[k]@ == grouped(
                seen,
                group_by,
            )[k] by {
                assert(views(groups@)[k] == groups@[k]@);
            }
        }
        let mut place: usize = 0;
        while place < groups.len() && !same_text(groups[place].key.as_str(), key.as_str())
            invariant
                place <= groups@.len(),
                groups@.len() == names.len(),
                key@ == key_of(session@, group_by),
                names == group_names(seen, group_by),
                forall|k: int|
                    0 <= k < groups@.len() ==> #[trigger] groups@[k]@ == grouped(seen, group_by)[k],
                forall|k: int| 0 <= k < place ==> #[trigger] names[k] != key@,
            decreases groups@.len() - place,
        {
            proof {
                assert(groups@[place as int]@.key == names[place as int]);
            }
            place = place + 1;
        }
        let ghost before = groups@;
        if place < groups.len() {
            proof {
                assert(groups@[place as int]@.key == names[place as int]);
                assert(names.contains(key@));
            }
            groups[place].sessions.push(session);
            proof {
                assert forall|k: int| 0 <= k < groups@.len() implies #[trigger] views(groups@)[k]
                    == grouped(next, group_by)[k] by {
                    lemma_members_push(seen, session@, group_by, names[k]);
                    assert(before[k]@ == grouped(seen, group_by)[k]);
                    if k == place {
                        lemma_views_push(before[k].sessions@, session);
                    } else {
                        assert(names[k] != names[place as int]);
                        assert(groups@[k] == before[k]);
                    }
                }
                assert(views(groups@) =~= grouped(next, group_by));
            }
        } else {
            let mut first: Vec<&'a Session> = Vec::new();
            first.push(session);
            let ghost first_seq = first@;
            groups.push(SessionGroup { key, sessions: first });
            proof {
                assert(!names.contains(key_of(session@, group_by)));
                lemma_members_empty(seen, group_by, key_of(session@, group_by));
                assert(views(first_seq) =~= Seq::<SessionView>::empty().push(session@));
                assert forall|k: int| 0 <= k < groups@.len() implies #[trigger] views(groups@)[k]
                    == grouped(next, group_by)[k] by {
                    if k < before.len() {
                        lemma_members_push(seen, session@, group_by, names[k]);
                        assert(before[k]@ == grouped(seen, group_by)[k]);
                        assert(names.contains(names[k]));
                        assert(groups@[k] == before[k]);
                    } else {
                        lemma_members_push(
                            seen,
                            session@,
                            group_by,
                            key_of(session@, group_by),
                        );
                    }
                }
                assert(views(groups@) =~= grouped(next, group_by));
            }
        }
        i = i + 1;
    }
    proof {
        assert(all.take(all.len() as int) == all);
    }
    groups
}

} // verus!
