//! What holds of the lines of a file and of the index that is read from one.

use vstd::prelude::*;

use super::index::{index_entry, index_of, index_warnings, indexed, missing_ids, IndexView};
use super::laws::is_broken;
use super::records::{
    content_of, jsonl_records, jsonl_warnings, line_end, line_warnings, lines, read_contents,
    records_in, without_line_end, FileReadView, LineView,
};
use super::redact::sanitized;
use crate::domain::{WarningKind, WarningView};
use crate::json::json_tree;
use crate::plain::{field_is_the_first_of_its_name, holds_text_at};
use crate::text::utf8_text;
use crate::time::rfc3339_instant;
use crate::tree::{field_of, text_field_of, NodeView};

verus! {

/// The lines `all`, one behind the other, each with a line feed behind it.
pub open spec fn ended(all: Seq<Seq<u8>>) -> Seq<u8>
    decreases all.len(),
{
    if all.len() == 0 {
        Seq::empty()
    } else {
        ended(all.drop_last()) + all.last() + seq![10u8]
    }
}

/// Whether `bytes` hold no line feed.
pub open spec fn is_one_line(bytes: Seq<u8>) -> bool {
    forall|i: int| 0 <= i < bytes.len() ==> #[trigger] bytes[i] != 10
}

proof fn lemma_line_end(bytes: Seq<u8>)
    ensures
        0 <= line_end(bytes) <= bytes.len(),
        is_one_line(bytes.take(line_end(bytes))),
        line_end(bytes) < bytes.len() ==> bytes[line_end(bytes)] == 10,
    decreases bytes.len(),
{
    if bytes.len() > 0 && bytes[0] != 10 {
        let rest = bytes.drop_first();
        lemma_line_end(rest);
        let n = line_end(bytes);
        assert forall|i: int| 0 <= i < n implies #[trigger] bytes.take(n)[i] != 10 by {
            if i > 0 {
                assert(rest.take(n - 1)[i - 1] == bytes[i]);
            }
        }
    }
}

proof fn lemma_ended_front(first: Seq<u8>, rest: Seq<Seq<u8>>)
    ensures
        ended(seq![first] + rest) == first + seq![10u8] + ended(rest),
    decreases rest.len(),
{
    let all = seq![first] + rest;
    if rest.len() == 0 {
        assert(all.drop_last() =~= Seq::<Seq<u8>>::empty());
        assert(all.last() == first);
        assert(ended(Seq::<Seq<u8>>::empty()) =~= Seq::<u8>::empty());
        assert(rest =~= Seq::<Seq<u8>>::empty());
        assert(ended(all) =~= first + seq![10u8] + ended(rest));
    } else {
        lemma_ended_front(first, rest.drop_last());
        assert(all.drop_last() =~= seq![first] + rest.drop_last());
        assert(all.last() == rest.last());
        assert(ended(all) =~= first + seq![10u8] + ended(rest));
    }
}

/// The lines of a file, each with its line feed, and what stands behind the last line feed, make up
/// the file.  No line holds a line feed, and what stands behind the last one counts as a line only
/// where the file was read to its end.
pub proof fn lines_make_up_the_file(bytes: Seq<u8>) -> (rest: Seq<u8>)
    ensures
        bytes == ended(lines(bytes, false)) + rest,
        is_one_line(rest),
        forall|i: int| 0 <= i < lines(bytes, false).len() ==> is_one_line(#[trigger] lines(bytes, false)[i]),
        rest.len() == 0 ==> lines(bytes, true) == lines(bytes, false),
        rest.len() > 0 ==> lines(bytes, true) == lines(bytes, false).push(rest),
    decreases bytes.len(),
{
    let end = line_end(bytes);
    lemma_line_end(bytes);
    if bytes.len() == 0 {
        assert(bytes =~= ended(lines(bytes, false)) + bytes);
        bytes
    } else if end < bytes.len() {
        let first = bytes.take(end);
        let behind = bytes.skip(end + 1);
        let rest = lines_make_up_the_file(behind);
        lemma_ended_front(first, lines(behind, false));
        assert(bytes =~= first + seq![10u8] + behind);
        assert(bytes =~= ended(lines(bytes, false)) + rest);
        assert forall|i: int| 0 <= i < lines(bytes, false).len() implies is_one_line(
            #[trigger] lines(bytes, false)[i],
        ) by {
            if i > 0 {
                assert(lines(bytes, false)[i] == lines(behind, false)[i - 1]);
            }
        }
        if rest.len() > 0 {
            assert(lines(bytes, true) =~= lines(bytes, false).push(rest));
        }
        rest
    } else {
        assert(bytes.take(end) =~= bytes);
        assert(lines(bytes, true) =~= lines(bytes, false).push(bytes));
        assert(bytes =~= ended(lines(bytes, false)) + bytes);
        bytes
    }
}

proof fn lemma_without_line_end(line: Seq<u8>, tail: Seq<u8>)
    requires
        forall|i: int| 0 <= i < tail.len() ==> #[trigger] tail[i] == 10 || tail[i] == 13,
    ensures
        without_line_end(line + tail) == without_line_end(line),
    decreases tail.len(),
{
    if tail.len() == 0 {
        assert(line + tail =~= line);
    } else {
        let less = tail.drop_last();
        assert forall|i: int| 0 <= i < less.len() implies #[trigger] less[i] == 10 || less[i] == 13 by {
            assert(less[i] == tail[i]);
        }
        lemma_without_line_end(line, less);
        assert((line + tail).drop_last() =~= line + less);
        assert((line + tail).last() == tail[tail.len() - 1]);
    }
}

/// Carriage returns and line feeds behind a line are no part of what it holds.  A line with nothing
/// else is empty; else it is a record exactly where it is UTF-8 and JSON.
pub proof fn line_holds_what_stands_before_its_end(line: Seq<u8>, tail: Seq<u8>)
    requires
        forall|i: int| 0 <= i < tail.len() ==> #[trigger] tail[i] == 10 || tail[i] == 13,
        line.len() > 0 ==> line.last() != 10 && line.last() != 13,
    ensures
        line.len() == 0 ==> content_of(line + tail) is Empty,
        line.len() > 0 && utf8_text(line) is None ==> content_of(line + tail) is NotText,
        line.len() > 0 ==> (utf8_text(line) matches Some(text) ==> match json_tree(text) {
            Ok(node) => content_of(line + tail) == LineView::Record(node),
            Err(error) => content_of(line + tail) == LineView::NotRecord(error),
        }),
{
    lemma_without_line_end(line, tail);
}

/// The records of a file are those of its lines, in order, each once.
pub proof fn records_are_those_of_the_lines(contents: Seq<LineView>) -> (places: Seq<int>)
    ensures
        places.len() == records_in(contents).len(),
        forall|k: int|
            0 <= k < places.len() ==> 0 <= #[trigger] places[k] < contents.len() && contents[places[k]]
                == LineView::Record(records_in(contents)[k]),
        forall|j: int, k: int| 0 <= j < k < places.len() ==> #[trigger] places[j] < #[trigger] places[k],
        forall|i: int| 0 <= i < contents.len() && #[trigger] contents[i] is Record ==> places.contains(i),
    decreases contents.len(),
{
    if contents.len() == 0 {
        Seq::empty()
    } else {
        let less = contents.drop_last();
        let before = records_are_those_of_the_lines(less);
        let n = contents.len() - 1;
        if contents.last() is Record {
            let places = before.push(n);
            assert forall|i: int| 0 <= i < contents.len() && #[trigger] contents[i] is Record implies places.contains(
                i,
            ) by {
                if i < n {
                    assert(less[i] == contents[i]);
                    let k = choose|k: int| 0 <= k < before.len() && before[k] == i;
                    assert(places[k] == i);
                } else {
                    assert(places[before.len() as int] == i);
                }
            }
            assert forall|k: int| 0 <= k < places.len() implies 0 <= #[trigger] places[k] < contents.len()
                && contents[places[k]] == LineView::Record(records_in(contents)[k]) by {
                if k < before.len() {
                    assert(places[k] == before[k]);
                    assert(less[before[k]] == contents[before[k]]);
                }
            }
            assert forall|j: int, k: int| 0 <= j < k < places.len() implies #[trigger] places[j]
                < #[trigger] places[k] by {
                assert(places[j] == before[j]);
                if k < before.len() {
                    assert(places[k] == before[k]);
                }
            }
            places
        } else {
            assert forall|i: int| 0 <= i < contents.len() && #[trigger] contents[i] is Record implies before.contains(
                i,
            ) by {
                assert(less[i] == contents[i]);
            }
            assert forall|k: int| 0 <= k < before.len() implies 0 <= #[trigger] before[k] < contents.len()
                && contents[before[k]] == LineView::Record(records_in(contents)[k]) by {
                assert(less[before[k]] == contents[before[k]]);
            }
            before
        }
    }
}

/// Whether `w` is the warning about line `i`, counted from zero, of the file at `path`.
pub open spec fn warns_of_line(w: WarningView, path: Seq<char>, i: int, content: LineView) -> bool {
    &&& w.path == Some(path)
    &&& w.line matches Some(n) && n == i + 1
    &&& match content {
        LineView::NotText => w.kind == WarningKind::InvalidUtf8 && w.message
            == "JSONL 行不是合法 UTF-8，已跳过该行"@,
        LineView::NotRecord(error) => w.kind == WarningKind::InvalidRecord && w.message
            == "JSONL 记录格式错误，已跳过: "@ + error,
        LineView::Empty => false,
        LineView::Record(_) => false,
    }
}

/// The warnings about the lines of a file are one for each broken line, in order, with its number
/// counted from one, its kind, and why it is broken.
pub proof fn warnings_are_those_of_the_broken_lines(path: Seq<char>, contents: Seq<LineView>) -> (places: Seq<
    int,
>)
    requires
        contents.len() <= usize::MAX,
    ensures
        places.len() == line_warnings(path, contents).len(),
        forall|k: int|
            0 <= k < places.len() ==> 0 <= #[trigger] places[k] < contents.len() && warns_of_line(
                line_warnings(path, contents)[k],
                path,
                places[k],
                contents[places[k]],
            ),
        forall|j: int, k: int| 0 <= j < k < places.len() ==> #[trigger] places[j] < #[trigger] places[k],
        forall|i: int|
            0 <= i < contents.len() && is_broken(#[trigger] contents[i]) ==> places.contains(i),
    decreases contents.len(),
{
    if contents.len() == 0 {
        Seq::empty()
    } else {
        let less = contents.drop_last();
        let before = warnings_are_those_of_the_broken_lines(path, less);
        let n = contents.len() - 1;
        let all = line_warnings(path, contents);
        if is_broken(contents.last()) {
            let places = before.push(n);
            assert forall|i: int| 0 <= i < contents.len() && is_broken(#[trigger] contents[i]) implies places.contains(
                i,
            ) by {
                if i < n {
                    assert(less[i] == contents[i]);
                    let k = choose|k: int| 0 <= k < before.len() && before[k] == i;
                    assert(places[k] == i);
                } else {
                    assert(places[before.len() as int] == i);
                }
            }
            assert forall|k: int| 0 <= k < places.len() implies 0 <= #[trigger] places[k] < contents.len()
                && warns_of_line(all[k], path, places[k], contents[places[k]]) by {
                if k < before.len() {
                    assert(places[k] == before[k]);
                    assert(less[before[k]] == contents[before[k]]);
                }
            }
            assert forall|j: int, k: int| 0 <= j < k < places.len() implies #[trigger] places[j]
                < #[trigger] places[k] by {
                assert(places[j] == before[j]);
                if k < before.len() {
                    assert(places[k] == before[k]);
                }
            }
            places
        } else {
            assert forall|i: int| 0 <= i < contents.len() && is_broken(#[trigger] contents[i]) implies before.contains(
                i,
            ) by {
                assert(less[i] == contents[i]);
            }
            assert forall|k: int| 0 <= k < before.len() implies 0 <= #[trigger] before[k] < contents.len()
                && warns_of_line(all[k], path, before[k], contents[before[k]]) by {
                assert(less[before[k]] == contents[before[k]]);
            }
            before
        }
    }
}

/// What is read of a file: nothing where it cannot be opened, which is told; else the contents of its
/// lines, the last one without a line feed only where it was read to its end; and an error that ended
/// the reading is told last.
pub proof fn reading_ends_at_an_error(path: Seq<char>, read: FileReadView)
    ensures
        read matches FileReadView::Unreadable { reason } ==> jsonl_records(read).len() == 0
            && jsonl_warnings(path, read) == seq![
            WarningView {
                kind: WarningKind::Io,
                path: Some(path),
                line: None,
                message: "无法读取会话文件: "@ + reason,
            },
        ],
        read matches FileReadView::Read { bytes, error } ==> {
            &&& read_contents(read).len() == lines(bytes, error is None).len()
            &&& forall|i: int|
                0 <= i < read_contents(read).len() ==> #[trigger] read_contents(read)[i] == content_of(
                    lines(bytes, error is None)[i],
                )
            &&& jsonl_records(read) == records_in(read_contents(read))
            &&& error is None ==> jsonl_warnings(path, read) == line_warnings(path, read_contents(read))
            &&& error matches Some(reason) ==> jsonl_warnings(path, read) == line_warnings(
                path,
                read_contents(read),
            ) + seq![
                WarningView {
                    kind: WarningKind::Io,
                    path: Some(path),
                    line: None,
                    message: "读取 JSONL 失败: "@ + reason,
                },
            ]
        },
{
    if let FileReadView::Read { bytes, error } = read {
        if let Some(reason) = error {
            assert(jsonl_warnings(path, read) =~= line_warnings(path, read_contents(read)) + seq![
                WarningView {
                    kind: WarningKind::Io,
                    path: Some(path),
                    line: None,
                    message: "读取 JSONL 失败: "@ + reason,
                },
            ]);
        }
    }
}

/// Whether record `i` is the last one that tells of session `id`.
pub open spec fn is_last_record_of(records: Seq<NodeView>, id: Seq<char>, i: int) -> bool {
    &&& 0 <= i < records.len()
    &&& holds_text_at(records[i], "id"@, id)
    &&& forall|j: int| i < j < records.len() ==> !#[trigger] holds_text_at(records[j], "id"@, id)
}

proof fn lemma_indexed(records: Seq<NodeView>, id: Seq<char>)
    ensures
        match indexed(index_of(records), id) {
            Some(entry) => exists|i: int| #[trigger]
                is_last_record_of(records, id, i) && entry == index_entry(records[i]),
            None => forall|i: int|
                0 <= i < records.len() ==> !#[trigger] holds_text_at(records[i], "id"@, id),
        },
    decreases records.len(),
{
    if records.len() > 0 {
        let less = records.drop_last();
        let last = records.last();
        let n = records.len() - 1;
        lemma_indexed(less, id);
        field_is_the_first_of_its_name(last, "id"@);
        assert(holds_text_at(last, "id"@, id) <==> text_field_of(last, "id"@) == Some(id));
        let before = index_of(less);
        if let Some(named) = text_field_of(last, "id"@) {
            assert(index_of(records).drop_last() =~= before);
        }
        if holds_text_at(last, "id"@, id) {
            assert(is_last_record_of(records, id, n));
        } else {
            match indexed(before, id) {
                Some(entry) => {
                    let i = choose|i: int| #[trigger]
                        is_last_record_of(less, id, i) && entry == index_entry(less[i]);
                    assert forall|j: int| i < j < records.len() implies !#[trigger] holds_text_at(
                        records[j],
                        "id"@,
                        id,
                    ) by {
                        if j < n {
                            assert(less[j] == records[j]);
                        }
                    }
                    assert(less[i] == records[i]);
                    assert(is_last_record_of(records, id, i));
                },
                None => {
                    assert forall|i: int| 0 <= i < records.len() implies !#[trigger] holds_text_at(
                        records[i],
                        "id"@,
                        id,
                    ) by {
                        if i < n {
                            assert(less[i] == records[i]);
                        }
                    }
                },
            }
        }
    }
}

/// The index says of a session what the last record of its id says: its title, sanitized to 100
/// characters, and its update; and nothing where no record has its id.
pub proof fn last_index_record_counts(records: Seq<NodeView>, id: Seq<char>)
    ensures
        indexed(index_of(records), id) is Some <==> exists|i: int| #[trigger]
            is_last_record_of(records, id, i),
        forall|i: int, t: Seq<char>|
            #![trigger is_last_record_of(records, id, i), holds_text_at(records[i], "thread_name"@, t)]
            is_last_record_of(records, id, i) && holds_text_at(records[i], "thread_name"@, t) ==> indexed(
                index_of(records),
                id,
            )->0.title == sanitized(t, 100),
        forall|i: int, t: Seq<char>|
            #![trigger is_last_record_of(records, id, i), holds_text_at(records[i], "updated_at"@, t)]
            is_last_record_of(records, id, i) && holds_text_at(records[i], "updated_at"@, t) ==> indexed(
                index_of(records),
                id,
            )->0.updated_at == rfc3339_instant(t),
        indexed(index_of(records), id) matches Some(entry) && entry.title is Some ==> exists|
            i: int,
            t: Seq<char>,
        |
            #![trigger is_last_record_of(records, id, i), holds_text_at(records[i], "thread_name"@, t)]
            is_last_record_of(records, id, i) && holds_text_at(records[i], "thread_name"@, t),
{
    lemma_indexed(records, id);
    let found = indexed(index_of(records), id);
    if found is None {
        assert forall|i: int| !#[trigger] is_last_record_of(records, id, i) by {
            if is_last_record_of(records, id, i) {
                assert(holds_text_at(records[i], "id"@, id));
            }
        }
    } else {
        let k = choose|k: int| #[trigger]
            is_last_record_of(records, id, k) && found->0 == index_entry(records[k]);
        assert forall|i: int| #[trigger] is_last_record_of(records, id, i) implies i == k by {
            if i < k {
                assert(!holds_text_at(records[k], "id"@, id));
            } else if k < i {
                assert(!holds_text_at(records[i], "id"@, id));
            }
        }
        field_is_the_first_of_its_name(records[k], "thread_name"@);
        field_is_the_first_of_its_name(records[k], "updated_at"@);
        assert forall|i: int, t: Seq<char>|
            #![trigger is_last_record_of(records, id, i), holds_text_at(records[i], "thread_name"@, t)]
            is_last_record_of(records, id, i) && holds_text_at(records[i], "thread_name"@, t) implies found->0.title
            == sanitized(t, 100) by {
            assert(field_of(records[k], "thread_name"@) == Some(NodeView::Text(t)));
        }
        assert forall|i: int, t: Seq<char>|
            #![trigger is_last_record_of(records, id, i), holds_text_at(records[i], "updated_at"@, t)]
            is_last_record_of(records, id, i) && holds_text_at(records[i], "updated_at"@, t) implies found->0.updated_at
            == rfc3339_instant(t) by {
            assert(field_of(records[k], "updated_at"@) == Some(NodeView::Text(t)));
        }
        if let Some(t) = text_field_of(records[k], "thread_name"@) {
            assert(holds_text_at(records[k], "thread_name"@, t));
        }
    }
}

/// How many of `records` have no text under `id`.
pub open spec fn nameless(records: Seq<NodeView>) -> nat
    decreases records.len(),
{
    if records.len() == 0 {
        0
    } else {
        nameless(records.drop_last()) + if exists|id: Seq<char>| #[trigger]
            holds_text_at(records.last(), "id"@, id) {
            0nat
        } else {
            1nat
        }
    }
}

/// Each record of an index without an id is told of, behind the problems of the file, and a missing
/// index is no problem.
pub proof fn nameless_index_records_are_told_of(path: Seq<char>, records: Seq<NodeView>, k: int)
    ensures
        missing_ids(path, records).len() == nameless(records),
        0 <= k < missing_ids(path, records).len() ==> missing_ids(path, records)[k] == (WarningView {
            kind: WarningKind::MissingField,
            path: Some(path),
            line: None,
            message: "会话索引记录缺少 id"@,
        }),
        index_warnings(path, None).len() == 0,
    decreases records.len(),
{
    if records.len() > 0 {
        nameless_index_records_are_told_of(path, records.drop_last(), k);
        field_is_the_first_of_its_name(records.last(), "id"@);
        if let Some(id) = text_field_of(records.last(), "id"@) {
            assert(holds_text_at(records.last(), "id"@, id));
        }
    }
}

/// Of two entries for one session the index keeps the later one, and an entry for one session changes
/// nothing for another.
pub proof fn later_entry_counts(
    entries: Seq<(Seq<char>, IndexView)>,
    id: Seq<char>,
    entry: IndexView,
    other: Seq<char>,
)
    ensures
        indexed(entries.push((id, entry)), id) == Some(entry),
        other != id ==> indexed(entries.push((id, entry)), other) == indexed(entries, other),
        indexed(Seq::<(Seq<char>, IndexView)>::empty(), id) is None,
{
    assert(entries.push((id, entry)).drop_last() =~= entries);
}

} // verus!
