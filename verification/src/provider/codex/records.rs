//! JSONL files: one JSON record per line, with broken lines set aside as warnings.

use vstd::prelude::*;

use crate::domain::{ScanWarning, WarningKind, WarningView};
use crate::json::{json_tree, parse_json};
use crate::model::{lemma_views_push, opt_view, views};
use crate::text::{cat, text_in_bytes, utf8_text};
use crate::tree::{Node, NodeView};

verus! {

/// What came of reading a file.
#[derive(Debug)]
pub enum FileRead {
    /// It could not be opened.
    Unreadable {
        /// The error of the system.
        reason: String,
    },
    /// It was read to its end, or up to an error.
    Read {
        /// What was read.
        bytes: Vec<u8>,
        /// The error that ended it, if any.
        error: Option<String>,
    },
}

/// The model of a `FileRead`.
pub enum FileReadView {
    Unreadable { reason: Seq<char> },
    Read { bytes: Seq<u8>, error: Option<Seq<char>> },
}

impl View for FileRead {
    type V = FileReadView;

    open spec fn view(&self) -> FileReadView {
        match self {
            FileRead::Unreadable { reason } => FileReadView::Unreadable { reason: reason@ },
            FileRead::Read { bytes, error } => FileReadView::Read {
                bytes: bytes@,
                error: opt_view(*error),
            },
        }
    }
}

/// Where the first line feed of `bytes` stands, or their number where there is none.
pub open spec fn line_end(bytes: Seq<u8>) -> int
    decreases bytes.len(),
{
    if bytes.len() == 0 || bytes[0] == 10 {
        0
    } else {
        1 + line_end(bytes.drop_first())
    }
}

proof fn lemma_line_end_at(bytes: Seq<u8>, n: int)
    requires
        0 <= n <= bytes.len(),
        forall|i: int| 0 <= i < n ==> #[trigger] bytes[i] != 10,
        n < bytes.len() ==> bytes[n] == 10,
    ensures
        line_end(bytes) == n,
    decreases n,
{
    if n > 0 {
        let rest = bytes.drop_first();
        assert(bytes[0] != 10);
        assert forall|i: int| 0 <= i < n - 1 implies #[trigger] rest[i] != 10 by {
            assert(rest[i] == bytes[i + 1]);
        }
        lemma_line_end_at(rest, n - 1);
    }
}

/// The end of the first line lies within `bytes`.
pub proof fn lemma_line_end_within(bytes: Seq<u8>)
    ensures
        0 <= line_end(bytes) <= bytes.len(),
    decreases bytes.len(),
{
    if bytes.len() > 0 && bytes[0] != 10 {
        lemma_line_end_within(bytes.drop_first());
    }
}

/// The lines of `bytes`; what follows the last line feed is one too where `last` says so and it is
/// not empty.
pub open spec fn lines(bytes: Seq<u8>, last: bool) -> Seq<Seq<u8>>
    decreases bytes.len(),
{
    proof {
        lemma_line_end_within(bytes);
    }
    let end = line_end(bytes);
    if bytes.len() == 0 {
        Seq::empty()
    } else if end < bytes.len() {
        seq![bytes.take(end)] + lines(bytes.skip(end + 1), last)
    } else if last {
        seq![bytes]
    } else {
        Seq::empty()
    }
}

/// `line` without the carriage returns and line feeds at its end.
pub open spec fn without_line_end(line: Seq<u8>) -> Seq<u8>
    decreases line.len(),
{
    if line.len() > 0 && (line.last() == 10 || line.last() == 13) {
        without_line_end(line.drop_last())
    } else {
        line
    }
}

/// What one line holds.
#[derive(Debug)]
pub enum LineContent {
    /// Nothing.
    Empty,
    /// Bytes that are not UTF-8.
    NotText,
    /// A text that is not JSON, and why.
    NotRecord(String),
    /// A record.
    Record(Node),
}

/// The model of a `LineContent`.
pub enum LineView {
    Empty,
    NotText,
    NotRecord(Seq<char>),
    Record(NodeView),
}

impl View for LineContent {
    type V = LineView;

    open spec fn view(&self) -> LineView {
        match self {
            LineContent::Empty => LineView::Empty,
            LineContent::NotText => LineView::NotText,
            LineContent::NotRecord(error) => LineView::NotRecord(error@),
            LineContent::Record(node) => LineView::Record(node@),
        }
    }
}

/// What the line `line` holds.
pub open spec fn content_of(line: Seq<u8>) -> LineView {
    let bytes = without_line_end(line);
    if bytes.len() == 0 {
        LineView::Empty
    } else {
        match utf8_text(bytes) {
            Some(text) => match json_tree(text) {
                Ok(node) => LineView::Record(node),
                Err(error) => LineView::NotRecord(error),
            },
            None => LineView::NotText,
        }
    }
}

/// The records among `contents`, in order.
pub open spec fn records_in(contents: Seq<LineView>) -> Seq<NodeView>
    decreases contents.len(),
{
    if contents.len() == 0 {
        Seq::empty()
    } else {
        let before = records_in(contents.drop_last());
        match contents.last() {
            LineView::Record(node) => before.push(node),
            _ => before,
        }
    }
}

/// The warning that line `number` of the file `path` deserves, if any.
pub open spec fn line_warning(path: Seq<char>, number: usize, content: LineView) -> Option<
    WarningView,
> {
    match content {
        LineView::NotText => Some(
            WarningView {
                kind: WarningKind::InvalidUtf8,
                path: Some(path),
                line: Some(number),
                message: "JSONL 行不是合法 UTF-8，已跳过该行"@,
            },
        ),
        LineView::NotRecord(error) => Some(
            WarningView {
                kind: WarningKind::InvalidRecord,
                path: Some(path),
                line: Some(number),
                message: "JSONL 记录格式错误，已跳过: "@ + error,
            },
        ),
        _ => None,
    }
}

/// The warnings that the lines `contents` of the file `path` deserve, in order.
pub open spec fn line_warnings(path: Seq<char>, contents: Seq<LineView>) -> Seq<WarningView>
    decreases contents.len(),
{
    if contents.len() == 0 {
        Seq::empty()
    } else {
        let before = line_warnings(path, contents.drop_last());
        match line_warning(path, contents.len() as usize, contents.last()) {
            Some(warning) => before.push(warning),
            None => before,
        }
    }
}

/// The contents of the lines `all`, in order.
pub open spec fn contents_of(all: Seq<Seq<u8>>) -> Seq<LineView> {
    Seq::new(all.len(), |i: int| content_of(all[i]))
}

/// A warning about the file `path` as a whole.
pub open spec fn file_warning(kind: WarningKind, path: Seq<char>, message: Seq<char>) -> WarningView {
    WarningView { kind, path: Some(path), line: None, message }
}

/// The contents of the lines of a file that `read` came of. Of a file that was read up to an error,
/// only the lines that were read whole count.
pub open spec fn read_contents(read: FileReadView) -> Seq<LineView> {
    match read {
        FileReadView::Unreadable { .. } => Seq::empty(),
        FileReadView::Read { bytes, error } => contents_of(lines(bytes, error is None)),
    }
}

/// The records of a file that `read` came of.
pub open spec fn jsonl_records(read: FileReadView) -> Seq<NodeView> {
    records_in(read_contents(read))
}

/// The warnings about the file `path` that `read` came of.
pub open spec fn jsonl_warnings(path: Seq<char>, read: FileReadView) -> Seq<WarningView> {
    match read {
        FileReadView::Unreadable { reason } => seq![
            file_warning(WarningKind::Io, path, "无法读取会话文件: "@ + reason),
        ],
        FileReadView::Read { bytes, error } => {
            let found = line_warnings(path, read_contents(read));
            match error {
                Some(reason) => found.push(
                    file_warning(WarningKind::Io, path, "读取 JSONL 失败: "@ + reason),
                ),
                None => found,
            }
        },
    }
}

/// The bytes of `bytes` from `from` up to `to`.
fn bytes_between(bytes: &Vec<u8>, from: usize, to: usize) -> (r: Vec<u8>)
    requires
        from <= to <= bytes@.len(),
    ensures
        r@ == bytes@.subrange(from as int, to as int),
{
    let mut r: Vec<u8> = Vec::new();
    let mut i: usize = from;
    while i < to
        invariant
            from <= i <= to <= bytes@.len(),
            r@ == bytes@.subrange(from as int, i as int),
        decreases to - i,
    {
        r.push(bytes[i]);
        proof {
            assert(bytes@.subrange(from as int, i + 1) == bytes@.subrange(from as int, i as int).push(
                bytes@[i as int],
            ));
        }
        i = i + 1;
    }
    r
}

/// What the line of `bytes` from `from` up to `to` holds.
fn read_line(bytes: &Vec<u8>, from: usize, to: usize) -> (r: LineContent)
    requires
        from <= to <= bytes@.len(),
    ensures
        r@ == content_of(bytes@.subrange(from as int, to as int)),
{
    let ghost line = bytes@.subrange(from as int, to as int);
    let mut end: usize = to;
    while end > from && (bytes[end - 1] == 10 || bytes[end - 1] == 13)
        invariant
            from <= end <= to <= bytes@.len(),
            line == bytes@.subrange(from as int, to as int),
            without_line_end(line) == without_line_end(bytes@.subrange(from as int, end as int)),
        decreases end,
    {
        proof {
            let here = bytes@.subrange(from as int, end as int);
            assert(here.drop_last() == bytes@.subrange(from as int, end - 1));
            assert(here.last() == bytes@[end - 1]);
        }
        end = end - 1;
    }
    proof {
        let here = bytes@.subrange(from as int, end as int);
        assert(end > from ==> here.last() == bytes@[end - 1]);
        assert(without_line_end(line) == here);
    }
    if end == from {
        return LineContent::Empty;
    }
    let kept = bytes_between(bytes, from, end);
    match text_in_bytes(kept.as_slice()) {
        Some(text) => match parse_json(text) {
            Ok(node) => LineContent::Record(node),
            Err(error) => LineContent::NotRecord(error),
        },
        None => LineContent::NotText,
    }
}

/// What the lines of a file hold, in order.
pub fn read_lines(bytes: &Vec<u8>, last: bool) -> (r: Vec<LineContent>)
    ensures
        views(r@) == contents_of(lines(bytes@, last)),
{
    let mut r: Vec<LineContent> = Vec::new();
    let mut from: usize = 0;
    let ghost all = contents_of(lines(bytes@, last));
    proof {
        assert(bytes@.skip(0) == bytes@);
        assert(views(r@) + all =~= all);
    }
    while from < bytes.len()
        invariant
            from <= bytes@.len(),
            views(r@) + contents_of(lines(bytes@.skip(from as int), last)) == all,
        decreases bytes@.len() - from,
    {
        let ghost rest = bytes@.skip(from as int);
        let mut to: usize = from;
        while to < bytes.len() && bytes[to] != 10
            invariant
                from <= to <= bytes@.len(),
                rest == bytes@.skip(from as int),
                forall|i: int| 0 <= i < to - from ==> #[trigger] rest[i] != 10,
            decreases bytes@.len() - to,
        {
            proof {
                assert(rest[to - from] == bytes@[to as int]);
            }
            to = to + 1;
        }
        proof {
            if to < bytes@.len() {
                assert(rest[to - from] == bytes@[to as int]);
            }
            lemma_line_end_at(rest, to - from);
            assert(rest.take(to - from) == bytes@.subrange(from as int, to as int));
        }
        let ghost before = r@;
        if to < bytes.len() {
            r.push(read_line(bytes, from, to));
            proof {
                let line = bytes@.subrange(from as int, to as int);
                let after = bytes@.skip(to + 1);
                assert(rest.skip(to - from + 1) == after);
                assert(contents_of(lines(rest, last)) =~= seq![content_of(line)] + contents_of(
                    lines(after, last),
                ));
                lemma_views_push(before, r@.last());
                assert(views(r@) + contents_of(lines(after, last)) =~= views(before) + contents_of(
                    lines(rest, last),
                ));
            }
            from = to + 1;
        } else {
            if last {
                r.push(read_line(bytes, from, to));
                proof {
                    assert(rest == bytes@.subrange(from as int, to as int));
                    lemma_views_push(before, r@.last());
                    assert(contents_of(lines(rest, last)) =~= seq![content_of(rest)]);
                }
            } else {
                proof {
                    assert(contents_of(lines(rest, last)) =~= Seq::<LineView>::empty());
                }
            }
            proof {
                assert(bytes@.skip(to as int) =~= Seq::<u8>::empty());
                assert(contents_of(lines(bytes@.skip(to as int), last)) =~= Seq::<LineView>::empty());
                assert(views(r@) + Seq::<LineView>::empty() =~= views(before) + contents_of(
                    lines(rest, last),
                ));
            }
            from = to;
        }
    }
    proof {
        assert(bytes@.skip(from as int) =~= Seq::<u8>::empty());
        assert(contents_of(lines(bytes@.skip(from as int), last)) =~= Seq::<LineView>::empty());
        assert(views(r@) + Seq::<LineView>::empty() =~= views(r@));
    }
    r
}

/// Sorts out lines: the records of them, and a warning for every broken one.
pub fn sort_lines(
    path: &str,
    contents: Vec<LineContent>,
    warnings: &mut Vec<ScanWarning>,
) -> (r: Vec<Node>)
    ensures
        views(r@) == records_in(views(contents@)),
        views(final(warnings)@) == views(old(warnings)@) + line_warnings(path@, views(contents@)),
{
    let ghost all = contents@;
    let ghost given = views(warnings@);
    let mut r: Vec<Node> = Vec::new();
    let mut number: usize = 0;
    proof {
        assert(given + line_warnings(path@, views(all).take(0)) =~= given);
        assert(views(r@) =~= Seq::<NodeView>::empty());
    }
    let count: usize = contents.len();
    for content in it: contents.into_iter()
        invariant
            it.seq() == all,
            count == all.len(),
            number == it.index(),
            views(r@) == records_in(views(all).take(number as int)),
            views(warnings@) == given + line_warnings(path@, views(all).take(number as int)),
    {
        let ghost next = views(all).take(number + 1);
        let ghost before = r@;
        let ghost warned = warnings@;
        proof {
            assert(next.drop_last() == views(all).take(number as int));
            assert(next.last() == content@);
        }
        number = number + 1;
        match content {
            LineContent::Empty => {},
            LineContent::NotText => {
                let warning = ScanWarning::new(
                    WarningKind::InvalidUtf8,
                    "JSONL 行不是合法 UTF-8，已跳过该行",
                ).with_path(path).with_line(number);
                warnings.push(warning);
                proof {
                    lemma_views_push(warned, warnings@.last());
                    assert(views(warnings@) =~= given + line_warnings(path@, next));
                }
            },
            LineContent::NotRecord(error) => {
                let message = cat("JSONL 记录格式错误，已跳过: ", error.as_str());
                let warning = ScanWarning::new(
                    WarningKind::InvalidRecord,
                    message.as_str(),
                ).with_path(path).with_line(number);
                warnings.push(warning);
                proof {
                    lemma_views_push(warned, warnings@.last());
                    assert(views(warnings@) =~= given + line_warnings(path@, next));
                }
            },
            LineContent::Record(node) => {
                r.push(node);
                proof {
                    lemma_views_push(before, r@.last());
                }
            },
        }
    }
    proof {
        assert(views(all).take(all.len() as int) == views(all));
    }
    r
}

/// Reads the records of a JSONL file; a broken line becomes a warning and is skipped.
pub fn read_jsonl(path: &str, read: &FileRead, warnings: &mut Vec<ScanWarning>) -> (r: Vec<Node>)
    ensures
        views(r@) == jsonl_records(read@),
        views(final(warnings)@) == views(old(warnings)@) + jsonl_warnings(path@, read@),
{
    match read {
        FileRead::Unreadable { reason } => {
            let message = cat("无法读取会话文件: ", reason.as_str());
            let ghost before = warnings@;
            warnings.push(
                ScanWarning::new(WarningKind::Io, message.as_str()).with_path(path),
            );
            let r: Vec<Node> = Vec::new();
            proof {
                lemma_views_push(before, warnings@.last());
                assert(views(warnings@) =~= views(before) + jsonl_warnings(path@, read@));
                assert(views(r@) =~= Seq::<NodeView>::empty());
            }
            r
        },
        FileRead::Read { bytes, error } => {
            let contents = read_lines(bytes, error.is_none());
            let ghost given = warnings@;
            let r = sort_lines(path, contents, warnings);
            if let Some(reason) = error {
                let message = cat("读取 JSONL 失败: ", reason.as_str());
                let ghost before = warnings@;
                warnings.push(
                    ScanWarning::new(WarningKind::Io, message.as_str()).with_path(path),
                );
                proof {
                    lemma_views_push(before, warnings@.last());
                    assert(views(warnings@) =~= views(given) + jsonl_warnings(path@, read@));
                }
            }
            r
        },
    }
}

} // verus!
