//! Plain words in which the laws of this library are stated: letters, texts, instants and fields.

use vstd::prelude::*;

use crate::text::{ascii_lower, lower, same_but_case};
use crate::tree::{entry_named, field_of, NodeView};

verus! {

/// Whether two characters are the same, or one letter of ASCII in two cases.
pub open spec fn same_letter(a: char, b: char) -> bool {
    ||| a == b
    ||| 'A' <= a <= 'Z' && b as int == a as int + 32
    ||| 'A' <= b <= 'Z' && a as int == b as int + 32
}

/// Whether two texts are the same but for the case of letters of ASCII.
pub open spec fn alike_but_case(a: Seq<char>, b: Seq<char>) -> bool {
    a.len() == b.len() && forall|i: int| 0 <= i < a.len() ==> same_letter(#[trigger] a[i], b[i])
}

/// Whether instant `a` is `b` or later.
pub open spec fn not_before(a: (int, int), b: (int, int)) -> bool {
    a.0 > b.0 || (a.0 == b.0 && a.1 >= b.1)
}

/// Whether `part` stands somewhere in `text`.
pub open spec fn shows(text: Seq<char>, part: Seq<char>) -> bool {
    exists|head: Seq<char>, tail: Seq<char>| text == #[trigger] (head + part + tail)
}

/// A text shows what stands between a head and a tail.
pub proof fn shows_what_it_holds(head: Seq<char>, part: Seq<char>, tail: Seq<char>)
    ensures
        shows(head + part + tail, part),
{
}

/// What a part of a text shows, the text shows.
pub proof fn shows_what_a_part_shows(text: Seq<char>, part: Seq<char>, inner: Seq<char>)
    requires
        shows(text, part),
        shows(part, inner),
    ensures
        shows(text, inner),
{
    let (a, b) = choose|a: Seq<char>, b: Seq<char>| text == #[trigger] (a + part + b);
    let (c, d) = choose|c: Seq<char>, d: Seq<char>| part == #[trigger] (c + inner + d);
    assert(text =~= (a + c) + inner + (d + b));
}

/// Whether entry `i` is the first of `entries` under `key`.
pub open spec fn is_first_named(entries: Seq<(Seq<char>, NodeView)>, key: Seq<char>, i: int) -> bool {
    &&& 0 <= i < entries.len()
    &&& entries[i].0 == key
    &&& forall|j: int| 0 <= j < i ==> (#[trigger] entries[j]).0 != key
}

/// The values of `n` that have names, where it has such.
pub open spec fn named_values(n: NodeView) -> Option<Seq<(Seq<char>, NodeView)>> {
    match n {
        NodeView::Scalar(_) => None,
        NodeView::Text(_) => None,
        NodeView::List(_) => None,
        NodeView::Table(entries) => Some(entries),
        NodeView::Inline(entries) => Some(entries),
    }
}

/// Whether `value` is what `n` holds under `key`: `n` has named values, and it is the first of that
/// name.
pub open spec fn holds_at(n: NodeView, key: Seq<char>, value: NodeView) -> bool {
    match named_values(n) {
        Some(entries) => exists|i: int| #[trigger]
            is_first_named(entries, key, i) && entries[i].1 == value,
        None => false,
    }
}

/// Whether `n` holds nothing under `key`.
pub open spec fn holds_nothing_at(n: NodeView, key: Seq<char>) -> bool {
    match named_values(n) {
        Some(entries) => forall|i: int| 0 <= i < entries.len() ==> (#[trigger] entries[i]).0 != key,
        None => true,
    }
}

/// Whether `n` holds the text `s` under `key`.
pub open spec fn holds_text_at(n: NodeView, key: Seq<char>, s: Seq<char>) -> bool {
    holds_at(n, key, NodeView::Text(s))
}

/// Lower case makes two characters the same exactly where they are the same but for case.
pub proof fn lowering_forgets_only_case(a: char, b: char)
    ensures
        ascii_lower(a) == ascii_lower(b) <==> same_letter(a, b),
{
}

/// Two texts count as the same but for case exactly where each character is the same or one letter
/// of ASCII in two cases.
pub proof fn comparing_forgets_only_case(a: Seq<char>, b: Seq<char>)
    ensures
        same_but_case(a, b) <==> alike_but_case(a, b),
{
    if same_but_case(a, b) {
        assert(lower(a).len() == a.len() && lower(b).len() == b.len());
        assert forall|i: int| 0 <= i < a.len() implies same_letter(#[trigger] a[i], b[i]) by {
            assert(lower(a)[i] == lower(b)[i]);
            lowering_forgets_only_case(a[i], b[i]);
        }
    }
    if alike_but_case(a, b) {
        assert forall|i: int| 0 <= i < a.len() implies lower(a)[i] == lower(b)[i] by {
            lowering_forgets_only_case(a[i], b[i]);
        }
        assert(lower(a) =~= lower(b));
    }
}

proof fn lemma_entry_named_is_first(entries: Seq<(Seq<char>, NodeView)>, key: Seq<char>) -> (i: int)
    ensures
        entry_named(entries, key) is Some ==> is_first_named(entries, key, i) && entry_named(entries, key)
            == Some(entries[i].1),
        entry_named(entries, key) is None ==> forall|j: int|
            0 <= j < entries.len() ==> (#[trigger] entries[j]).0 != key,
    decreases entries.len(),
{
    if entries.len() == 0 {
        0
    } else if entries[0].0 == key {
        0
    } else {
        let rest = entries.drop_first();
        let k = lemma_entry_named_is_first(rest, key);
        if entry_named(entries, key) is Some {
            assert forall|j: int| 0 <= j < k + 1 implies (#[trigger] entries[j]).0 != key by {
                if j > 0 {
                    assert(rest[j - 1] == entries[j]);
                }
            }
        } else {
            assert forall|j: int| 0 <= j < entries.len() implies (#[trigger] entries[j]).0 != key by {
                if j > 0 {
                    assert(rest[j - 1] == entries[j]);
                }
            }
        }
        k + 1
    }
}

/// A field is the first value under its name, and missing exactly where there is none.
pub proof fn field_is_the_first_of_its_name(n: NodeView, key: Seq<char>)
    ensures
        forall|value: NodeView| field_of(n, key) == Some(value) <==> #[trigger] holds_at(n, key, value),
        field_of(n, key) is None <==> holds_nothing_at(n, key),
{
    if let Some(entries) = named_values(n) {
        let i = lemma_entry_named_is_first(entries, key);
        assert forall|value: NodeView| field_of(n, key) == Some(value) <==> #[trigger] holds_at(
            n,
            key,
            value,
        ) by {
            if holds_at(n, key, value) {
                let j = choose|j: int| #[trigger]
                    is_first_named(entries, key, j) && entries[j].1 == value;
                if entry_named(entries, key) is None {
                    assert(entries[j].0 != key);
                } else if i < j {
                    assert(entries[i].0 != key);
                } else if j < i {
                    assert(entries[j].0 != key);
                }
            }
        }
        if entry_named(entries, key) is Some {
            assert(entries[i].0 == key);
        }
    }
}

} // verus!
