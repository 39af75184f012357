//! What the records of a session file say about the session.

use vstd::prelude::*;

use crate::domain::InteractionType;
use crate::model::{copy_text, lemma_views_push, opt_view, views};
use crate::text::{blank, is_blank, same_text};
use crate::time::{later_of, parse_rfc3339, rfc3339_instant, Timestamp};
use crate::tree::{field_of, text_field_of, Node, NodeView};

use super::redact::{sanitize_text, sanitized_option};

verus! {

/// The longest name of a model or a model provider that is shown.
pub const NAME_LIMIT: usize = 80;

/// What a `session_meta` record says.
#[derive(Debug)]
pub struct SessionMetadata {
    /// The id of the session.
    pub id: Option<String>,
    /// When it was created.
    pub created_at: Option<Timestamp>,
    /// Its working directory.
    pub cwd: Option<String>,
    /// What started it.
    pub source: Option<String>,
    /// What started its thread.
    pub thread_source: Option<String>,
    /// Its model provider.
    pub model_provider: Option<String>,
}

/// The model of a `SessionMetadata`.
pub struct MetadataView {
    pub id: Option<Seq<char>>,
    pub created_at: Option<(int, int)>,
    pub cwd: Option<Seq<char>>,
    pub source: Option<Seq<char>>,
    pub thread_source: Option<Seq<char>>,
    pub model_provider: Option<Seq<char>>,
}

impl View for SessionMetadata {
    type V = MetadataView;

    open spec fn view(&self) -> MetadataView {
        MetadataView {
            id: opt_view(self.id),
            created_at: opt_view(self.created_at),
            cwd: opt_view(self.cwd),
            source: opt_view(self.source),
            thread_source: opt_view(self.thread_source),
            model_provider: opt_view(self.model_provider),
        }
    }
}

/// `a`, or `b` where there is no `a`.
pub open spec fn or_else<T>(a: Option<T>, b: Option<T>) -> Option<T> {
    match a {
        Some(_) => a,
        None => b,
    }
}

/// `text`, unless it is blank.
pub open spec fn unless_blank(text: Option<Seq<char>>) -> Option<Seq<char>> {
    match text {
        Some(s) => if is_blank(s) {
            None
        } else {
            text
        },
        None => None,
    }
}

/// The instant that the RFC 3339 text `text` writes, where there is one.
pub open spec fn instant_in(text: Option<Seq<char>>) -> Option<(int, int)> {
    match text {
        Some(s) => rfc3339_instant(s),
        None => None,
    }
}

/// The label of a session's origin: a text itself, or the only name of a table.
pub open spec fn label_of(n: NodeView) -> Option<Seq<char>> {
    match n {
        NodeView::Text(s) => Some(s),
        NodeView::Table(entries) => if entries.len() == 1 {
            Some(entries[0].0)
        } else {
            None
        },
        _ => None,
    }
}

/// What the payload `payload` of a `session_meta` record says, given the instant that its own
/// timestamp writes, that of its record, and its sanitized model provider.
pub open spec fn metadata_from(
    payload: NodeView,
    own_time: Option<(int, int)>,
    record_time: Option<(int, int)>,
    model_provider: Option<Seq<char>>,
) -> MetadataView {
    MetadataView {
        id: or_else(text_field_of(payload, "id"@), text_field_of(payload, "session_id"@)),
        created_at: or_else(own_time, record_time),
        cwd: unless_blank(text_field_of(payload, "cwd"@)),
        source: match field_of(payload, "source"@) {
            Some(value) => label_of(value),
            None => None,
        },
        thread_source: text_field_of(payload, "thread_source"@),
        model_provider,
    }
}

/// What the payload `payload` of a `session_meta` record of the instant `record_time` says.
pub open spec fn metadata_of(payload: NodeView, record_time: Option<(int, int)>) -> MetadataView {
    metadata_from(
        payload,
        instant_in(text_field_of(payload, "timestamp"@)),
        record_time,
        sanitized_option(text_field_of(payload, "model_provider"@), NAME_LIMIT as int),
    )
}

/// Whether `text` is `wanted`.
pub open spec fn says(text: Option<Seq<char>>, wanted: Seq<char>) -> bool {
    text == Some(wanted)
}

/// How a session was started, from its origin and that of its thread.
pub open spec fn interaction_of(source: Option<Seq<char>>, thread_source: Option<Seq<char>>) -> InteractionType {
    if says(thread_source, "subagent"@) || says(source, "exec"@) || says(source, "subagent"@) || says(
        source,
        "mcp"@,
    ) {
        InteractionType::NonInteractive
    } else if says(source, "cli"@) || says(source, "vscode"@) || says(source, "desktop"@) || says(
        source,
        "user"@,
    ) || says(thread_source, "user"@) {
        InteractionType::Interactive
    } else {
        InteractionType::Unknown
    }
}

fn is_text(text: &Option<String>, wanted: &str) -> (r: bool)
    ensures
        r == says(opt_view(*text), wanted@),
{
    match text {
        Some(s) => same_text(s.as_str(), wanted),
        None => false,
    }
}

fn owned(text: Option<&str>) -> (r: Option<String>)
    ensures
        opt_view(r) == opt_view(text),
{
    match text {
        Some(s) => Some(s.to_owned()),
        None => None,
    }
}

/// The instant that an RFC 3339 text writes, where there is one.
pub fn parse_timestamp(text: Option<&str>) -> (r: Option<Timestamp>)
    ensures
        opt_view(r) == instant_in(opt_view(text)),
{
    match text {
        Some(s) => parse_rfc3339(s),
        None => None,
    }
}

/// The label of a session's origin: a text itself, or the only name of a table.
pub fn source_label(value: &Node) -> (r: Option<String>)
    ensures
        opt_view(r) == label_of(value@),
{
    match value {
        Node::Text(label) => Some(label.clone()),
        Node::Table(fields) => {
            if fields.len() == 1 {
                Some(fields[0].0.clone())
            } else {
                None
            }
        },
        _ => None,
    }
}

impl SessionMetadata {
    /// Takes the known fields of a payload, given the instant that its own timestamp writes, that
    /// of its record, and its sanitized model provider.
    pub fn from_fields(
        payload: &Node,
        own_time: Option<Timestamp>,
        record_time: Option<Timestamp>,
        model_provider: Option<String>,
    ) -> (r: SessionMetadata)
        ensures
            r@ == metadata_from(
                payload@,
                opt_view(own_time),
                opt_view(record_time),
                opt_view(model_provider),
            ),
    {
        let id = match payload.text_field("id") {
            Some(id) => Some(id.to_owned()),
            None => owned(payload.text_field("session_id")),
        };
        let cwd = match payload.text_field("cwd") {
            Some(path) => if blank(path) {
                None
            } else {
                Some(path.to_owned())
            },
            None => None,
        };
        let source = match payload.field("source") {
            Some(value) => source_label(value),
            None => None,
        };
        SessionMetadata {
            id,
            created_at: match own_time {
                Some(at) => Some(at),
                None => record_time,
            },
            cwd,
            source,
            thread_source: owned(payload.text_field("thread_source")),
            model_provider,
        }
    }

    /// Takes the known fields of a payload and ignores all others.
    pub fn from_payload(payload: &Node, record_timestamp: Option<Timestamp>) -> (r: SessionMetadata)
        ensures
            r@ == metadata_of(payload@, opt_view(record_timestamp)),
    {
        let own = parse_timestamp(payload.text_field("timestamp"));
        let provider = match payload.text_field("model_provider") {
            Some(name) => sanitize_text(name, NAME_LIMIT),
            None => None,
        };
        SessionMetadata::from_fields(payload, own, record_timestamp, provider)
    }

    /// How the session was started.
    pub fn interaction_type(&self) -> (r: InteractionType)
        ensures
            r == interaction_of(self@.source, self@.thread_source),
    {
        if is_text(&self.thread_source, "subagent") || is_text(&self.source, "exec") || is_text(
            &self.source,
            "subagent",
        ) || is_text(&self.source, "mcp") {
            return InteractionType::NonInteractive;
        }
        if is_text(&self.source, "cli") || is_text(&self.source, "vscode") || is_text(
            &self.source,
            "desktop",
        ) || is_text(&self.source, "user") || is_text(&self.thread_source, "user") {
            return InteractionType::Interactive;
        }
        InteractionType::Unknown
    }
}

impl Clone for SessionMetadata {
    fn clone(&self) -> (r: SessionMetadata)
        ensures
            r@ == self@,
    {
        SessionMetadata {
            id: copy_text(&self.id),
            created_at: self.created_at,
            cwd: copy_text(&self.cwd),
            source: copy_text(&self.source),
            thread_source: copy_text(&self.thread_source),
            model_provider: copy_text(&self.model_provider),
        }
    }
}

/// The first of `all` with the id `expected`.
pub open spec fn first_with_id(all: Seq<MetadataView>, expected: Seq<char>) -> Option<MetadataView>
    decreases all.len(),
{
    if all.len() == 0 {
        None
    } else if says(all[0].id, expected) {
        Some(all[0])
    } else {
        first_with_id(all.drop_first(), expected)
    }
}

/// The metadata that counts: the first with the id that the file name holds, else the first.
pub open spec fn selected(all: Seq<MetadataView>, filename_id: Option<Seq<char>>) -> Option<
    MetadataView,
> {
    let first = if all.len() > 0 {
        Some(all[0])
    } else {
        None
    };
    match filename_id {
        Some(expected) => or_else(first_with_id(all, expected), first),
        None => first,
    }
}

proof fn lemma_first_with_id_at(all: Seq<MetadataView>, expected: Seq<char>, n: int)
    requires
        0 <= n <= all.len(),
        forall|i: int| 0 <= i < n ==> !says((#[trigger] all[i]).id, expected),
    ensures
        n == all.len() ==> first_with_id(all, expected) is None,
        n < all.len() && says(all[n].id, expected) ==> first_with_id(all, expected) == Some(all[n]),
    decreases n,
{
    if n > 0 {
        let rest = all.drop_first();
        assert(!says(all[0].id, expected));
        assert forall|i: int| 0 <= i < n - 1 implies !says((#[trigger] rest[i]).id, expected) by {
            assert(rest[i] == all[i + 1]);
        }
        lemma_first_with_id_at(rest, expected, n - 1);
    }
}

/// Picks the metadata that counts: the first with the id that the file name holds, else the first.
pub fn select_metadata(metadata: &Vec<SessionMetadata>, filename_id: Option<&str>) -> (r: Option<
    SessionMetadata,
>)
    ensures
        opt_view(r) == selected(views(metadata@), opt_view(filename_id)),
{
    let ghost all = views(metadata@);
    if let Some(expected) = filename_id {
        let mut i: usize = 0;
        while i < metadata.len()
            invariant
                i <= metadata@.len(),
                all == views(metadata@),
                filename_id == Some(expected),
                forall|k: int| 0 <= k < i ==> !says((#[trigger] all[k]).id, expected@),
            decreases metadata@.len() - i,
        {
            proof {
                assert(all[i as int] == metadata@[i as int]@);
            }
            if is_text(&metadata[i].id, expected) {
                proof {
                    lemma_first_with_id_at(all, expected@, i as int);
                }
                return Some(metadata[i].clone());
            }
            i = i + 1;
        }
        proof {
            lemma_first_with_id_at(all, expected@, all.len() as int);
        }
    }
    if metadata.len() > 0 {
        proof {
            assert(all[0] == metadata@[0]@);
        }
        Some(metadata[0].clone())
    } else {
        None
    }
}

/// What the records of a session file add up to.
#[derive(Debug)]
pub struct Gathered {
    /// What the `session_meta` records say, in order.
    pub metadata: Vec<SessionMetadata>,
    /// The instant of the first record that has one.
    pub first_timestamp: Option<Timestamp>,
    /// The latest instant of a record.
    pub latest_timestamp: Option<Timestamp>,
    /// The last model that a turn names, as it is written.
    pub model: Option<String>,
    /// The last summary that a turn holds, as it is written.
    pub summary: Option<String>,
}

/// The model of a `Gathered`.
pub struct GatheredView {
    pub metadata: Seq<MetadataView>,
    pub first_timestamp: Option<(int, int)>,
    pub latest_timestamp: Option<(int, int)>,
    pub model: Option<Seq<char>>,
    pub summary: Option<Seq<char>>,
}

impl View for Gathered {
    type V = GatheredView;

    open spec fn view(&self) -> GatheredView {
        GatheredView {
            metadata: views(self.metadata@),
            first_timestamp: opt_view(self.first_timestamp),
            latest_timestamp: opt_view(self.latest_timestamp),
            model: opt_view(self.model),
            summary: opt_view(self.summary),
        }
    }
}

/// What no record adds up to.
pub open spec fn nothing_gathered() -> GatheredView {
    GatheredView {
        metadata: Seq::empty(),
        first_timestamp: None,
        latest_timestamp: None,
        model: None,
        summary: None,
    }
}

/// The later of two instants, where there are two.
pub open spec fn latest(a: Option<(int, int)>, b: Option<(int, int)>) -> Option<(int, int)> {
    match (a, b) {
        (Some(x), Some(y)) => Some(later_of(x, y)),
        (Some(_), None) => a,
        _ => b,
    }
}

/// What `so_far` and one record more add up to, given the instant of the record and, where it is a
/// `session_meta` record with a payload, what it says.
pub open spec fn with_record(
    so_far: GatheredView,
    record: NodeView,
    time: Option<(int, int)>,
    metadata: Option<MetadataView>,
) -> GatheredView {
    let kind = text_field_of(record, "type"@);
    let turn = if says(kind, "turn_context"@) {
        field_of(record, "payload"@)
    } else {
        None
    };
    GatheredView {
        metadata: match metadata {
            Some(m) => so_far.metadata.push(m),
            None => so_far.metadata,
        },
        first_timestamp: or_else(so_far.first_timestamp, time),
        latest_timestamp: latest(so_far.latest_timestamp, time),
        model: match turn {
            Some(payload) => or_else(text_field_of(payload, "model"@), so_far.model),
            None => so_far.model,
        },
        summary: match turn {
            Some(payload) => or_else(text_field_of(payload, "summary"@), so_far.summary),
            None => so_far.summary,
        },
    }
}

/// The instant of the record `record`, where it has one.
pub open spec fn record_time(record: NodeView) -> Option<(int, int)> {
    instant_in(text_field_of(record, "timestamp"@))
}

/// What the record `record` says where it is a `session_meta` record with a payload.
pub open spec fn record_metadata(record: NodeView) -> Option<MetadataView> {
    if says(text_field_of(record, "type"@), "session_meta"@) {
        match field_of(record, "payload"@) {
            Some(payload) => Some(metadata_of(payload, record_time(record))),
            None => None,
        }
    } else {
        None
    }
}

/// What `records` add up to, in order.
pub open spec fn gathered(records: Seq<NodeView>) -> GatheredView
    decreases records.len(),
{
    if records.len() == 0 {
        nothing_gathered()
    } else {
        with_record(
            gathered(records.drop_last()),
            records.last(),
            record_time(records.last()),
            record_metadata(records.last()),
        )
    }
}

impl Gathered {
    /// What no record adds up to.
    pub fn new() -> (r: Gathered)
        ensures
            r@ == nothing_gathered(),
    {
        let r = Gathered {
            metadata: Vec::new(),
            first_timestamp: None,
            latest_timestamp: None,
            model: None,
            summary: None,
        };
        proof {
            assert(views(r.metadata@) =~= Seq::<MetadataView>::empty());
        }
        r
    }

    /// Adds one record, given its instant and, where it is a `session_meta` record with a payload,
    /// what it says.
    pub fn add_record(
        &mut self,
        record: &Node,
        time: Option<Timestamp>,
        metadata: Option<SessionMetadata>,
    )
        ensures
            final(self)@ == with_record(old(self)@, record@, opt_view(time), opt_view(metadata)),
    {
        if let Some(at) = time {
            self.first_timestamp = match self.first_timestamp {
                Some(first) => Some(first),
                None => Some(at),
            };
            self.latest_timestamp = match self.latest_timestamp {
                Some(current) => Some(current.max(at)),
                None => Some(at),
            };
        }
        if let Some(found) = metadata {
            let ghost before = self.metadata@;
            self.metadata.push(found);
            proof {
                lemma_views_push(before, self.metadata@.last());
            }
        }
        let is_turn = match record.text_field("type") {
            Some(kind) => same_text(kind, "turn_context"),
            None => false,
        };
        if is_turn {
            if let Some(payload) = record.field("payload") {
                if let Some(value) = payload.text_field("model") {
                    self.model = Some(value.to_owned());
                }
                if let Some(value) = payload.text_field("summary") {
                    self.summary = Some(value.to_owned());
                }
            }
        }
    }
}

/// Adds up what the records of a session file say.
pub fn gather(records: &Vec<Node>) -> (r: Gathered)
    ensures
        r@ == gathered(views(records@)),
{
    let ghost all = views(records@);
    let mut r = Gathered::new();
    let mut i: usize = 0;
    while i < records.len()
        invariant
            i <= records@.len(),
            all == views(records@),
            r@ == gathered(all.take(i as int)),
        decreases records@.len() - i,
    {
        let record = &records[i];
        proof {
            let next = all.take(i + 1);
            assert(next.drop_last() == all.take(i as int));
            assert(next.last() == record@);
        }
        let time = parse_timestamp(record.text_field("timestamp"));
        let is_meta = match record.text_field("type") {
            Some(kind) => same_text(kind, "session_meta"),
            None => false,
        };
        let metadata = if is_meta {
            match record.field("payload") {
                Some(payload) => Some(SessionMetadata::from_payload(payload, time)),
                None => None,
            }
        } else {
            None
        };
        r.add_record(record, time, metadata);
        i = i + 1;
    }
    proof {
        assert(all.take(all.len() as int) == all);
    }
    r
}

} // verus!
