//! Session ids: UUIDs, and where a file name holds one.

use vstd::prelude::*;

use crate::paths::{file_name, file_stem, name_of, stem};
use crate::text::{chars_of, lower, same_but_case, text_between};

verus! {

/// Whether `c` is a hexadecimal digit.
pub open spec fn is_hex(c: char) -> bool {
    '0' <= c <= '9' || 'a' <= c <= 'f' || 'A' <= c <= 'F'
}

/// Whether a hyphen stands at `i` in a hyphenated UUID.
pub open spec fn is_hyphen_place(i: int) -> bool {
    i == 8 || i == 13 || i == 18 || i == 23
}

/// Whether `s` is a UUID with hyphens between its groups of digits.
pub open spec fn is_hyphenated(s: Seq<char>) -> bool {
    &&& s.len() == 36
    &&& forall|i: int|
        0 <= i < 36 ==> if is_hyphen_place(i) {
            #[trigger] s[i] == '-'
        } else {
            is_hex(s[i])
        }
}

/// `s` with hyphens between the groups of its digits.
pub open spec fn with_hyphens(s: Seq<char>) -> Seq<char> {
    s.subrange(0, 8) + seq!['-'] + s.subrange(8, 12) + seq!['-'] + s.subrange(12, 16) + seq!['-']
        + s.subrange(16, 20) + seq!['-'] + s.subrange(20, 32)
}

/// The UUID that `text` writes, hyphenated and in lower case: as bare digits, with hyphens, with
/// hyphens in braces, or with hyphens after `urn:uuid:`.
pub open spec fn uuid_of(text: Seq<char>) -> Option<Seq<char>> {
    if text.len() == 32 && (forall|i: int| 0 <= i < 32 ==> is_hex(#[trigger] text[i])) {
        Some(lower(with_hyphens(text)))
    } else if is_hyphenated(text) {
        Some(lower(text))
    } else if text.len() == 38 && text[0] == '{' && text[37] == '}' && is_hyphenated(
        text.subrange(1, 37),
    ) {
        Some(lower(text.subrange(1, 37)))
    } else if text.len() == 45 && same_but_case(text.take(9), "urn:uuid:"@) && is_hyphenated(
        text.skip(9),
    ) {
        Some(lower(text.skip(9)))
    } else {
        None
    }
}

/// Calls `uuid::Uuid::parse_str` and the `to_string` of its result: the text is a UUID in one of
/// the four forms that the parser takes, and the result is hyphenated and in lower case.
#[verifier::external_body]
pub(crate) fn parse_uuid(text: &str) -> (r: Option<String>)
    ensures
        match r {
            Some(id) => uuid_of(text@) == Some(id@),
            None => uuid_of(text@) is None,
        },
{
    uuid::Uuid::parse_str(text).ok().map(|id| id.to_string())
}

/// Whether `s` is a hyphenated UUID in lower case: it holds nothing but digits, the letters `a` to
/// `f` and hyphens.
pub open spec fn is_canonical(s: Seq<char>) -> bool {
    &&& is_hyphenated(s)
    &&& forall|i: int| 0 <= i < s.len() ==> !('A' <= #[trigger] s[i] <= 'Z')
}

/// What is read from a UUID in any form is canonical, and reading it again changes nothing.
pub proof fn uuid_is_canonical(text: Seq<char>)
    requires
        uuid_of(text) is Some,
    ensures
        is_canonical(uuid_of(text)->0),
        uuid_of(uuid_of(text)->0) == uuid_of(text),
{
    if text.len() == 32 {
        let spaced = with_hyphens(text);
        assert forall|i: int| 0 <= i < 36 implies if is_hyphen_place(i) {
            #[trigger] spaced[i] == '-'
        } else {
            is_hex(spaced[i])
        } by {
            if !is_hyphen_place(i) {
                let k = if i < 8 {
                    i
                } else if i < 13 {
                    i - 1
                } else if i < 18 {
                    i - 2
                } else if i < 23 {
                    i - 3
                } else {
                    i - 4
                };
                assert(spaced[i] == text[k]);
            }
        }
        lemma_lower_is_canonical(spaced);
    } else if is_hyphenated(text) {
        lemma_lower_is_canonical(text);
    } else if text.len() == 38 {
        lemma_lower_is_canonical(text.subrange(1, 37));
    } else {
        lemma_lower_is_canonical(text.skip(9));
    }
}

proof fn lemma_lower_is_canonical(s: Seq<char>)
    requires
        is_hyphenated(s),
    ensures
        is_canonical(lower(s)),
        uuid_of(lower(s)) == Some(lower(s)),
{
    let t = lower(s);
    assert forall|i: int| 0 <= i < 36 implies if is_hyphen_place(i) {
        #[trigger] t[i] == '-'
    } else {
        is_hex(t[i])
    } by {
        if is_hyphen_place(i) {
            assert(s[i] == '-');
        } else {
            assert(s[i] == '-' || is_hex(s[i]));
        }
    }
    assert forall|i: int| 0 <= i < t.len() implies !('A' <= #[trigger] t[i] <= 'Z') by {}
    assert(lower(t) =~= t);
}

/// The last `n` characters of `s`, or all where there are fewer.
pub open spec fn last_chars(s: Seq<char>, n: int) -> Seq<char> {
    if s.len() > n {
        s.skip(s.len() - n)
    } else {
        s
    }
}

/// The UUID at the end of the name of the file `path`, if there is one.
pub open spec fn filename_id(path: Seq<char>, windows: bool) -> Option<Seq<char>> {
    match name_of(path, windows) {
        Some(name) => uuid_of(last_chars(stem(name), 36)),
        None => None,
    }
}

/// The UUID at the end of the name of a session file, whatever stands before it.
pub fn session_id_from_filename(path: &str, windows: bool) -> (r: Option<String>)
    ensures
        match r {
            Some(id) => filename_id(path@, windows) == Some(id@),
            None => filename_id(path@, windows) is None,
        },
{
    match file_name(path, windows) {
        Some(name) => {
            let base = file_stem(name.as_str());
            let v = chars_of(base.as_str());
            let from: usize = if v.len() > 36 {
                v.len() - 36
            } else {
                0
            };
            proof {
                assert(v@.subrange(from as int, v@.len() as int) == last_chars(base@, 36));
            }
            let end: usize = v.len();
            parse_uuid(text_between(&v, from, end).as_str())
        },
        None => None,
    }
}

} // verus!
