//! The session index: titles and times of sessions by their ids.

use vstd::prelude::*;

use crate::domain::{ScanWarning, WarningKind, WarningView};
use crate::model::{copy_text, lemma_views_push, opt_view, views};
use crate::text::same_text;
use crate::time::Timestamp;
use crate::tree::{text_field_of, NodeView};

use super::metadata::{instant_in, parse_timestamp};
use super::records::{file_warning, jsonl_records, jsonl_warnings, read_jsonl, FileRead, FileReadView};
use super::redact::{sanitize_text, sanitized_option};

verus! {

/// The longest title that is shown.
pub const TITLE_LIMIT: usize = 100;

/// What the index says about one session.
#[derive(Debug)]
pub struct IndexEntry {
    /// Its title.
    pub title: Option<String>,
    /// When it was last updated.
    pub updated_at: Option<Timestamp>,
}

/// The model of an `IndexEntry`.
pub struct IndexView {
    pub title: Option<Seq<char>>,
    pub updated_at: Option<(int, int)>,
}

impl View for IndexEntry {
    type V = IndexView;

    open spec fn view(&self) -> IndexView {
        IndexView { title: opt_view(self.title), updated_at: opt_view(self.updated_at) }
    }
}

impl Clone for IndexEntry {
    fn clone(&self) -> (r: IndexEntry)
        ensures
            r@ == self@,
    {
        IndexEntry { title: copy_text(&self.title), updated_at: self.updated_at }
    }
}

/// What the index file says.
#[derive(Debug)]
pub struct SessionIndex {
    entries: Vec<(String, IndexEntry)>,
}

/// The ids and entries of `entries`, in order.
pub open spec fn indexed_views(entries: Seq<(String, IndexEntry)>) -> Seq<(Seq<char>, IndexView)> {
    Seq::new(entries.len(), |i: int| (entries[i].0@, entries[i].1@))
}

impl View for SessionIndex {
    type V = Seq<(Seq<char>, IndexView)>;

    closed spec fn view(&self) -> Seq<(Seq<char>, IndexView)> {
        indexed_views(self.entries@)
    }
}

/// The last of `entries` with the id `id`.
pub open spec fn indexed(entries: Seq<(Seq<char>, IndexView)>, id: Seq<char>) -> Option<IndexView>
    decreases entries.len(),
{
    if entries.len() == 0 {
        None
    } else if entries.last().0 == id {
        Some(entries.last().1)
    } else {
        indexed(entries.drop_last(), id)
    }
}

/// What the index record `record` says.
pub open spec fn index_entry(record: NodeView) -> IndexView {
    IndexView {
        title: sanitized_option(text_field_of(record, "thread_name"@), TITLE_LIMIT as int),
        updated_at: instant_in(text_field_of(record, "updated_at"@)),
    }
}

/// The ids and entries of those of `records` that have an id, in order.
pub open spec fn index_of(records: Seq<NodeView>) -> Seq<(Seq<char>, IndexView)>
    decreases records.len(),
{
    if records.len() == 0 {
        Seq::empty()
    } else {
        let before = index_of(records.drop_last());
        match text_field_of(records.last(), "id"@) {
            Some(id) => before.push((id, index_entry(records.last()))),
            None => before,
        }
    }
}

/// A warning for each of `records` that has no id.
pub open spec fn missing_ids(path: Seq<char>, records: Seq<NodeView>) -> Seq<WarningView>
    decreases records.len(),
{
    if records.len() == 0 {
        Seq::empty()
    } else {
        let before = missing_ids(path, records.drop_last());
        match text_field_of(records.last(), "id"@) {
            Some(_) => before,
            None => before.push(
                file_warning(WarningKind::MissingField, path, "会话索引记录缺少 id"@),
            ),
        }
    }
}

/// The index that `read` came of; no file is an empty index.
pub open spec fn index_in(read: Option<FileReadView>) -> Seq<(Seq<char>, IndexView)> {
    match read {
        Some(file) => index_of(jsonl_records(file)),
        None => Seq::empty(),
    }
}

/// The warnings about the index file `path` that `read` came of.
pub open spec fn index_warnings(path: Seq<char>, read: Option<FileReadView>) -> Seq<WarningView> {
    match read {
        Some(file) => jsonl_warnings(path, file) + missing_ids(path, jsonl_records(file)),
        None => Seq::empty(),
    }
}

impl SessionIndex {
    /// An index without entries.
    pub fn new() -> (r: SessionIndex)
        ensures
            r@ == Seq::<(Seq<char>, IndexView)>::empty(),
    {
        let r = SessionIndex { entries: Vec::new() };
        proof {
            assert(indexed_views(r.entries@) =~= Seq::<(Seq<char>, IndexView)>::empty());
        }
        r
    }

    /// Adds what the index says about the session `id`; it takes the place of what it said before.
    pub fn insert(&mut self, id: &str, entry: IndexEntry)
        ensures
            final(self)@ == old(self)@.push((id@, entry@)),
    {
        let ghost before = self.entries@;
        self.entries.push((id.to_owned(), entry));
        proof {
            assert(indexed_views(self.entries@) =~= indexed_views(before).push((id@, entry@)));
        }
    }

    /// What the index says about the session `id`, if anything.
    pub fn get(&self, id: &str) -> (r: Option<&IndexEntry>)
        ensures
            match r {
                Some(entry) => indexed(self@, id@) == Some(entry@),
                None => indexed(self@, id@) is None,
            },
    {
        let ghost all = indexed_views(self.entries@);
        let mut i: usize = self.entries.len();
        proof {
            assert(all.take(all.len() as int) == all);
        }
        while i > 0
            invariant
                i <= self.entries@.len(),
                all == indexed_views(self.entries@),
                indexed(all, id@) == indexed(all.take(i as int), id@),
                self@ == all,
            decreases i,
        {
            proof {
                assert(all.take(i as int).drop_last() == all.take(i - 1));
                assert(all.take(i as int).last() == all[i - 1]);
            }
            if same_text(self.entries[i - 1].0.as_str(), id) {
                return Some(&self.entries[i - 1].1);
            }
            i = i - 1;
        }
        None
    }
}

/// Reads the index file, where there is one; a broken record becomes a warning.
pub fn read_index(path: &str, read: &Option<FileRead>) -> (r: (SessionIndex, Vec<ScanWarning>))
    ensures
        r.0@ == index_in(opt_view(*read)),
        views(r.1@) == index_warnings(path@, opt_view(*read)),
{
    let mut index = SessionIndex::new();
    let mut warnings: Vec<ScanWarning> = Vec::new();
    proof {
        assert(views(warnings@) =~= Seq::<WarningView>::empty());
    }
    let file = match read {
        Some(file) => file,
        None => {
            return (index, warnings);
        },
    };
    let records = read_jsonl(path, file, &mut warnings);
    let ghost all = views(records@);
    let ghost read_warnings = jsonl_warnings(path@, file@);
    proof {
        assert(views(warnings@) =~= read_warnings);
        assert(read_warnings + missing_ids(path@, all.take(0)) =~= read_warnings);
        assert(index@ =~= index_of(all.take(0)));
    }
    let mut i: usize = 0;
    while i < records.len()
        invariant
            i <= records@.len(),
            all == views(records@),
            index@ == index_of(all.take(i as int)),
            views(warnings@) == read_warnings + missing_ids(path@, all.take(i as int)),
        decreases records@.len() - i,
    {
        let record = &records[i];
        let ghost next = all.take(i + 1);
        let ghost warned = warnings@;
        proof {
            assert(next.drop_last() == all.take(i as int));
            assert(next.last() == record@);
        }
        match record.text_field("id") {
            Some(id) => {
                let title = match record.text_field("thread_name") {
                    Some(name) => sanitize_text(name, TITLE_LIMIT),
                    None => None,
                };
                let updated_at = parse_timestamp(record.text_field("updated_at"));
                index.insert(id, IndexEntry { title, updated_at });
            },
            None => {
                warnings.push(
                    ScanWarning::new(WarningKind::MissingField, "会话索引记录缺少 id").with_path(path),
                );
                proof {
                    lemma_views_push(warned, warnings@.last());
                    assert(views(warnings@) =~= read_warnings + missing_ids(path@, next));
                }
            },
        }
        i = i + 1;
    }
    proof {
        assert(all.take(all.len() as int) == all);
    }
    (index, warnings)
}

} // verus!
