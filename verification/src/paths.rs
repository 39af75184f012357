//! Paths as text, read as Unix or as Windows reads them.

use vstd::prelude::*;

use crate::text::{cat, cat3, chars_of, same_text, text_between};

verus! {

/// How the components of a path are told apart.
#[derive(Debug, Clone, Copy, PartialEq, Eq, Structural)]
pub enum PathStyle {
    /// By `/`.
    Unix,
    /// By `/` and `\`.
    Windows,
    /// By `\` alone, behind `\\?\`; a component `.` is kept.
    Verbatim,
}

/// Whether `c` separates path components.
pub open spec fn is_separator(c: char, style: PathStyle) -> bool {
    match style {
        PathStyle::Unix => c == '/',
        PathStyle::Windows => c == '/' || c == '\\',
        PathStyle::Verbatim => c == '\\',
    }
}

/// Whether `path` starts with `\\?\`.
pub open spec fn is_verbatim(path: Seq<char>) -> bool {
    path.len() >= 4 && path[0] == '\\' && path[1] == '\\' && path[2] == '?' && path[3] == '\\'
}

/// How the components of `path` are told apart.
pub open spec fn style_of(path: Seq<char>, windows: bool) -> PathStyle {
    if !windows {
        PathStyle::Unix
    } else if is_verbatim(path) {
        PathStyle::Verbatim
    } else {
        PathStyle::Windows
    }
}

/// Whether `path` starts with a drive such as `C:`.
pub open spec fn has_drive(path: Seq<char>) -> bool {
    path.len() >= 2 && path[1] == ':' && ('a' <= path[0] <= 'z' || 'A' <= path[0] <= 'Z')
}

/// How many characters of `s` stand before its first separator.
pub open spec fn head_length(s: Seq<char>, style: PathStyle) -> int
    decreases s.len(),
{
    if s.len() == 0 || is_separator(s[0], style) {
        0
    } else {
        1 + head_length(s.drop_first(), style)
    }
}

/// How many characters of `s` stand between its first two separators.
pub open spec fn second_length(s: Seq<char>, style: PathStyle) -> int {
    let first = head_length(s, style);
    if first < s.len() {
        head_length(s.skip(first + 1), style)
    } else {
        0
    }
}

/// Whether `path` starts with two separators of Windows.
pub open spec fn starts_doubly(path: Seq<char>) -> bool {
    path.len() >= 2 && is_separator(path[0], PathStyle::Windows) && is_separator(
        path[1],
        PathStyle::Windows,
    )
}

/// How long the prefix of the verbatim path `path` is: `\\?\UNC\server\share`, `\\?\C:`, or `\\?\`
/// and one component.
pub open spec fn verbatim_prefix(path: Seq<char>) -> int {
    if path.len() >= 8 && path[4] == 'U' && path[5] == 'N' && path[6] == 'C' && is_separator(
        path[7],
        PathStyle::Windows,
    ) {
        let share = second_length(path.skip(8), PathStyle::Verbatim);
        8 + head_length(path.skip(8), PathStyle::Verbatim) + if share > 0 {
            1 + share
        } else {
            0
        }
    } else if has_drive(path.skip(4)) && (path.len() == 6 || is_separator(path[6], PathStyle::Windows)) {
        6
    } else {
        4 + head_length(path.skip(4), PathStyle::Verbatim)
    }
}

/// How long the part of `path` is that names a drive, a share or a device; Unix has none.
pub open spec fn prefix_length(path: Seq<char>, windows: bool) -> int {
    if !windows {
        0
    } else if is_verbatim(path) {
        verbatim_prefix(path)
    } else if starts_doubly(path) {
        if path.len() >= 4 && path[2] == '.' && is_separator(path[3], PathStyle::Windows) {
            4 + head_length(path.skip(4), PathStyle::Windows)
        } else {
            let server = head_length(path.skip(2), PathStyle::Windows);
            let share = second_length(path.skip(2), PathStyle::Windows);
            if server > 0 && share > 0 {
                2 + server + 1 + share
            } else {
                0
            }
        }
    } else if has_drive(path) {
        2
    } else {
        0
    }
}

/// `s` without trailing separators and without trailing components that name no place.
pub open spec fn without_tail(s: Seq<char>, style: PathStyle) -> Seq<char>
    decreases s.len(),
{
    if s.len() > 0 && is_separator(s.last(), style) {
        without_tail(s.drop_last(), style)
    } else if style != PathStyle::Verbatim && s.len() >= 2 && s.last() == '.' && is_separator(
        s[s.len() - 2],
        style,
    ) {
        without_tail(s.drop_last(), style)
    } else {
        s
    }
}

/// What follows the last separator of `s`.
pub open spec fn after_separator(s: Seq<char>, style: PathStyle) -> Seq<char>
    decreases s.len(),
{
    if s.len() == 0 || is_separator(s.last(), style) {
        Seq::empty()
    } else {
        after_separator(s.drop_last(), style).push(s.last())
    }
}

/// The last component of `path`, unless it is a root, a prefix or a step to a parent.
pub open spec fn name_of(path: Seq<char>, windows: bool) -> Option<Seq<char>> {
    let style = style_of(path, windows);
    let name = after_separator(
        without_tail(path.skip(prefix_length(path, windows)), style),
        style,
    );
    if name.len() == 0 || name == seq!['.'] || name == seq!['.', '.'] {
        None
    } else {
        Some(name)
    }
}

/// The directory that `path` lies in: what stands before its last component, or nothing where it has
/// none.
pub open spec fn parent_of(path: Seq<char>, windows: bool) -> Option<Seq<char>> {
    let style = style_of(path, windows);
    let prefix = prefix_length(path, windows);
    let place = without_tail(path.skip(prefix), style);
    let last = after_separator(place, style);
    let before = place.take(place.len() - last.len());
    if last.len() == 0 {
        None
    } else if before.len() > 0 && without_tail(before, style).len() == 0 {
        Some(path.take(prefix) + before.take(1))
    } else {
        Some(path.take(prefix) + without_tail(before, style))
    }
}

/// Where the last dot of `s` stands, or -1.
pub open spec fn last_dot(s: Seq<char>) -> int
    decreases s.len(),
{
    if s.len() == 0 {
        -1
    } else if s.last() == '.' {
        s.len() - 1
    } else {
        last_dot(s.drop_last())
    }
}

/// A file name without its extension; a dot at the start begins no extension.
pub open spec fn stem(name: Seq<char>) -> Seq<char> {
    if last_dot(name) > 0 {
        name.take(last_dot(name))
    } else {
        name
    }
}

/// The extension of a file name; a dot at the start begins none.
pub open spec fn extension(name: Seq<char>) -> Option<Seq<char>> {
    if last_dot(name) > 0 {
        Some(name.skip(last_dot(name) + 1))
    } else {
        None
    }
}

/// `s` with one `\` in place of several, and none at its end.
pub open spec fn squeezed(s: Seq<char>) -> Seq<char>
    decreases s.len(),
{
    if s.len() == 0 {
        Seq::empty()
    } else if s[0] == '\\' && (s.len() == 1 || s[1] == '\\') {
        squeezed(s.drop_first())
    } else {
        seq![s[0]] + squeezed(s.drop_first())
    }
}

/// `base` with `name` below it, as Unix has it; a `name` that starts at the root stands by itself.
pub open spec fn joined_on_unix(base: Seq<char>, name: Seq<char>) -> Seq<char> {
    if name.len() > 0 && name[0] == '/' {
        name
    } else if base.len() == 0 || base.last() == '/' {
        base + name
    } else {
        base + "/"@ + name
    }
}

/// `base` with `name` below it, as Windows has it; a `name` with a prefix stands by itself, and one
/// that starts at the root stands behind the prefix of `base`. A bare drive gets no separator: what
/// follows it is relative to where the drive stands.
pub open spec fn joined_on_windows(base: Seq<char>, name: Seq<char>) -> Seq<char> {
    let prefix = prefix_length(base, true);
    if prefix_length(name, true) > 0 {
        name
    } else if is_verbatim(base) && name.len() > 0 {
        base.take(prefix) + squeezed(base.skip(prefix)) + "\\"@ + name
    } else if name.len() > 0 && is_separator(name[0], PathStyle::Windows) {
        base.take(prefix) + name
    } else if base.len() == 0 || is_separator(base.last(), PathStyle::Windows) || (base.len() == 2
        && has_drive(base)) {
        base + name
    } else {
        base + "\\"@ + name
    }
}

/// `base` with `name` below it.
pub open spec fn joined(base: Seq<char>, name: Seq<char>, windows: bool) -> Seq<char> {
    if windows {
        joined_on_windows(base, name)
    } else {
        joined_on_unix(base, name)
    }
}

fn separates(c: char, style: PathStyle) -> (r: bool)
    ensures
        r == is_separator(c, style),
{
    match style {
        PathStyle::Unix => c == '/',
        PathStyle::Windows => c == '/' || c == '\\',
        PathStyle::Verbatim => c == '\\',
    }
}

fn verbatim(v: &Vec<char>) -> (r: bool)
    ensures
        r == is_verbatim(v@),
{
    v.len() >= 4 && v[0] == '\\' && v[1] == '\\' && v[2] == '?' && v[3] == '\\'
}

fn drive_at(v: &Vec<char>, from: usize) -> (r: bool)
    requires
        from <= v@.len(),
    ensures
        r == has_drive(v@.skip(from as int)),
{
    v.len() - from >= 2 && v[from + 1] == ':' && (('a' <= v[from] && v[from] <= 'z') || ('A' <= v[from]
        && v[from] <= 'Z'))
}

fn path_style(v: &Vec<char>, windows: bool) -> (r: PathStyle)
    ensures
        r == style_of(v@, windows),
{
    if !windows {
        PathStyle::Unix
    } else if verbatim(v) {
        PathStyle::Verbatim
    } else {
        PathStyle::Windows
    }
}

/// Where the component ends that starts at `from`.
fn head_end(v: &Vec<char>, from: usize, style: PathStyle) -> (r: usize)
    requires
        from <= v@.len(),
    ensures
        from <= r <= v@.len(),
        r - from == head_length(v@.skip(from as int), style),
        r < v@.len() ==> is_separator(v@[r as int], style),
{
    let mut i: usize = from;
    while i < v.len() && !separates(v[i], style)
        invariant
            from <= i <= v@.len(),
            head_length(v@.skip(from as int), style) == i - from + head_length(
                v@.skip(i as int),
                style,
            ),
        decreases v@.len() - i,
    {
        proof {
            assert(v@.skip(i as int).drop_first() == v@.skip(i + 1));
        }
        i = i + 1;
    }
    i
}

/// Where the second component behind `from` ends, where the first ends at `first`; no further than
/// `first` where there is no second.
fn second_end(v: &Vec<char>, from: usize, first: usize, style: PathStyle) -> (r: usize)
    requires
        from <= first <= v@.len(),
        first - from == head_length(v@.skip(from as int), style),
    ensures
        first <= r <= v@.len(),
        r == first + if second_length(v@.skip(from as int), style) > 0 {
            1 + second_length(v@.skip(from as int), style)
        } else {
            0
        },
{
    if first < v.len() {
        let end: usize = head_end(v, first + 1, style);
        proof {
            assert(v@.skip(from as int).skip(first - from + 1) =~= v@.skip(first + 1));
        }
        if end > first + 1 {
            return end;
        }
    }
    first
}

fn prefix_end(v: &Vec<char>, windows: bool) -> (r: usize)
    ensures
        r <= v@.len(),
        r == prefix_length(v@, windows),
{
    if !windows {
        return 0;
    }
    let style = PathStyle::Windows;
    if verbatim(v) {
        if v.len() >= 8 && v[4] == 'U' && v[5] == 'N' && v[6] == 'C' && separates(v[7], style) {
            let server: usize = head_end(v, 8, PathStyle::Verbatim);
            return second_end(v, 8, server, PathStyle::Verbatim);
        }
        if drive_at(v, 4) && (v.len() == 6 || separates(v[6], style)) {
            return 6;
        }
        return head_end(v, 4, PathStyle::Verbatim);
    }
    if v.len() >= 2 && separates(v[0], style) && separates(v[1], style) {
        if v.len() >= 4 && v[2] == '.' && separates(v[3], style) {
            return head_end(v, 4, style);
        }
        let server: usize = head_end(v, 2, style);
        let share: usize = second_end(v, 2, server, style);
        return if server > 2 && share > server {
            share
        } else {
            0
        };
    }
    proof {
        assert(v@.skip(0) =~= v@);
    }
    if drive_at(v, 0) {
        2
    } else {
        0
    }
}

proof fn lemma_after_separator_at(s: Seq<char>, n: int, style: PathStyle)
    requires
        0 <= n <= s.len(),
        forall|i: int| n <= i < s.len() ==> !is_separator(#[trigger] s[i], style),
        n > 0 ==> is_separator(s[n - 1], style),
    ensures
        after_separator(s, style) == s.skip(n),
    decreases s.len() - n,
{
    if n == s.len() {
        assert(s.skip(n) == Seq::<char>::empty());
    } else {
        lemma_after_separator_at(s.drop_last(), n, style);
        assert(s.drop_last().skip(n).push(s.last()) == s.skip(n));
    }
}

/// How long a path is without trailing separators and components that name no place.
fn place_length(v: &Vec<char>, style: PathStyle) -> (r: usize)
    ensures
        r <= v@.len(),
        without_tail(v@, style) == v@.take(r as int),
{
    let mut to: usize = v.len();
    proof {
        assert(v@.take(v@.len() as int) == v@);
    }
    while to > 0 && (separates(v[to - 1], style) || (style != PathStyle::Verbatim && to >= 2 && v[to - 1]
        == '.' && separates(v[to - 2], style)))
        invariant
            to <= v@.len(),
            without_tail(v@, style) == without_tail(v@.take(to as int), style),
        decreases to,
    {
        proof {
            assert(v@.take(to as int).drop_last() == v@.take(to - 1));
        }
        to = to - 1;
    }
    to
}

/// Whether a separator stands in `s`.
pub open spec fn has_separator(s: Seq<char>, style: PathStyle) -> bool {
    exists|i: int| 0 <= i < s.len() && is_separator(#[trigger] s[i], style)
}

/// Whether `path` starts at a root or leads through a directory or a drive, rather than being a bare
/// name: whether it has two components or is absolute. On Windows a root alone is not absolute.
pub open spec fn leads_somewhere(path: Seq<char>, windows: bool) -> bool {
    let prefix = prefix_length(path, windows);
    if prefix == 2 {
        path.len() > 2
    } else {
        ||| prefix > 0
        ||| !windows && path.len() > 0 && path[0] == '/'
        ||| has_separator(without_tail(path, style_of(path, windows)), style_of(path, windows))
    }
}

/// Whether a path starts at a root or leads through a directory or a drive, rather than being a bare
/// name.
pub fn is_path(path: &str, windows: bool) -> (r: bool)
    ensures
        r == leads_somewhere(path@, windows),
{
    let v = chars_of(path);
    let prefix: usize = prefix_end(&v, windows);
    if prefix > 0 {
        return prefix != 2 || v.len() > 2;
    }
    if !windows && v.len() > 0 && v[0] == '/' {
        return true;
    }
    let style = path_style(&v, windows);
    let end: usize = place_length(&v, style);
    let ghost place = without_tail(path@, style);
    let mut i: usize = 0;
    while i < end
        invariant
            i <= end <= v@.len(),
            v@ == path@,
            style == style_of(path@, windows),
            place == v@.take(end as int),
            place == without_tail(path@, style),
            prefix_length(path@, windows) == 0,
            forall|k: int| 0 <= k < i ==> !is_separator(#[trigger] place[k], style),
        decreases end - i,
    {
        proof {
            assert(place[i as int] == v@[i as int]);
        }
        if separates(v[i], style) {
            proof {
                assert(is_separator(place[i as int], style));
            }
            return true;
        }
        i = i + 1;
    }
    false
}

/// Where the last component of a path starts that ends at `to`.
fn last_start(v: &Vec<char>, to: usize, style: PathStyle) -> (r: usize)
    requires
        to <= v@.len(),
    ensures
        r <= to,
        after_separator(v@.take(to as int), style) == v@.subrange(r as int, to as int),
{
    let ghost place = v@.take(to as int);
    let mut from: usize = to;
    while from > 0 && !separates(v[from - 1], style)
        invariant
            from <= to <= v@.len(),
            forall|i: int| from <= i < to ==> !is_separator(#[trigger] v@[i], style),
        decreases from,
    {
        from = from - 1;
    }
    proof {
        assert forall|i: int| from <= i < place.len() implies !is_separator(#[trigger] place[i], style) by {
            assert(place[i] == v@[i]);
        }
        lemma_after_separator_at(place, from as int, style);
        assert(place.skip(from as int) == v@.subrange(from as int, to as int));
    }
    from
}

/// The directory that a path lies in: what stands before its last component, or nothing where it has
/// none.
pub fn parent(path: &str, windows: bool) -> (r: Option<String>)
    ensures
        match r {
            Some(directory) => parent_of(path@, windows) == Some(directory@),
            None => parent_of(path@, windows) is None,
        },
{
    let whole = chars_of(path);
    let style = path_style(&whole, windows);
    let prefix: usize = prefix_end(&whole, windows);
    let first = text_between(&whole, 0, prefix);
    let v = chars_of(text_between(&whole, prefix, whole.len()).as_str());
    proof {
        assert(v@ =~= path@.skip(prefix as int));
        assert(first@ =~= path@.take(prefix as int));
    }
    let to: usize = place_length(&v, style);
    let from: usize = last_start(&v, to, style);
    if from == to {
        return None;
    }
    let before = chars_of(text_between(&v, 0, from).as_str());
    let end: usize = place_length(&before, style);
    let kept: usize = if before.len() > 0 && end == 0 {
        1
    } else {
        end
    };
    let rest = text_between(&before, 0, kept);
    proof {
        let place = v@.take(to as int);
        assert(before@ =~= place.take(from as int));
        assert(rest@ =~= before@.take(kept as int));
    }
    Some(cat(first.as_str(), rest.as_str()))
}

/// The last component of `path`, unless it is a root, a prefix or a step to a parent.
pub fn file_name(path: &str, windows: bool) -> (r: Option<String>)
    ensures
        match r {
            Some(name) => name_of(path@, windows) == Some(name@),
            None => name_of(path@, windows) is None,
        },
{
    let whole = chars_of(path);
    let style = path_style(&whole, windows);
    let prefix: usize = prefix_end(&whole, windows);
    let v = chars_of(text_between(&whole, prefix, whole.len()).as_str());
    proof {
        assert(v@ =~= path@.skip(prefix as int));
    }
    let to: usize = place_length(&v, style);
    let from: usize = last_start(&v, to, style);
    let count: usize = to - from;
    let ghost name = v@.subrange(from as int, to as int);
    if count == 0 {
        return None;
    }
    if count == 1 && v[from] == '.' {
        assert(name == seq!['.']);
        return None;
    }
    if count == 2 && v[from] == '.' && v[from + 1] == '.' {
        assert(name == seq!['.', '.']);
        return None;
    }
    assert(name != seq!['.']) by {
        assert(count == 1 ==> name[0] != '.');
        assert(seq!['.'].len() == 1 && seq!['.'][0] == '.');
    }
    assert(name != seq!['.', '.']) by {
        assert(count == 2 ==> !(name[0] == '.' && name[1] == '.'));
        let dots = seq!['.', '.'];
        assert(dots.len() == 2 && dots[0] == '.' && dots[1] == '.');
    }
    Some(text_between(&v, from, to))
}

/// Where the last dot of `v` stands, if it has one.
fn find_dot(v: &Vec<char>) -> (r: Option<usize>)
    ensures
        match r {
            Some(i) => i < v@.len() && last_dot(v@) == i,
            None => last_dot(v@) == -1,
        },
{
    let mut i: usize = v.len();
    proof {
        assert(v@.take(v@.len() as int) == v@);
    }
    while i > 0
        invariant
            i <= v@.len(),
            last_dot(v@) == last_dot(v@.take(i as int)),
        decreases i,
    {
        proof {
            assert(v@.take(i as int).drop_last() == v@.take(i - 1));
        }
        if v[i - 1] == '.' {
            return Some(i - 1);
        }
        i = i - 1;
    }
    None
}

/// A file name without its extension.
pub fn file_stem(name: &str) -> (r: String)
    ensures
        r@ == stem(name@),
{
    let v = chars_of(name);
    match find_dot(&v) {
        Some(i) => {
            if i > 0 {
                proof {
                    assert(v@.subrange(0, i as int) == name@.take(i as int));
                }
                text_between(&v, 0, i)
            } else {
                name.to_owned()
            }
        },
        None => name.to_owned(),
    }
}

/// The extension of a file name.
pub fn file_extension(name: &str) -> (r: Option<String>)
    ensures
        match r {
            Some(e) => extension(name@) == Some(e@),
            None => extension(name@) is None,
        },
{
    let v = chars_of(name);
    let end: usize = v.len();
    match find_dot(&v) {
        Some(i) => {
            if i > 0 {
                proof {
                    assert(v@.subrange(i + 1, v@.len() as int) == name@.skip(i + 1));
                }
                Some(text_between(&v, i + 1, end))
            } else {
                None
            }
        },
        None => None,
    }
}

/// The extension of the file that `path` points to.
pub open spec fn path_extension(path: Seq<char>, windows: bool) -> Option<Seq<char>> {
    match name_of(path, windows) {
        Some(name) => extension(name),
        None => None,
    }
}

/// Whether the file that `path` points to has the extension `wanted`.
pub fn has_extension(path: &str, wanted: &str, windows: bool) -> (r: bool)
    ensures
        r == (path_extension(path@, windows) == Some(wanted@)),
{
    match file_name(path, windows) {
        Some(name) => match file_extension(name.as_str()) {
            Some(found) => same_text(found.as_str(), wanted),
            None => false,
        },
        None => false,
    }
}

fn squeeze(v: &Vec<char>, from: usize) -> (r: String)
    requires
        from <= v@.len(),
    ensures
        r@ == squeezed(v@.skip(from as int)),
{
    let mut r = String::new();
    let mut i: usize = from;
    proof {
        assert(r@ + squeezed(v@.skip(from as int)) =~= squeezed(v@.skip(from as int)));
    }
    while i < v.len()
        invariant
            from <= i <= v@.len(),
            r@ + squeezed(v@.skip(i as int)) == squeezed(v@.skip(from as int)),
        decreases v@.len() - i,
    {
        let ghost rest = v@.skip(i as int);
        let ghost before = r@;
        proof {
            assert(rest.drop_first() == v@.skip(i + 1));
            assert(rest[0] == v@[i as int]);
            assert(rest.len() > 1 ==> rest[1] == v@[i + 1]);
        }
        if v[i] != '\\' || (i + 1 < v.len() && v[i + 1] != '\\') {
            r.push(v[i]);
            proof {
                assert(before + (seq![rest[0]] + squeezed(rest.drop_first())) =~= r@ + squeezed(
                    rest.drop_first(),
                ));
            }
        }
        i = i + 1;
    }
    proof {
        assert(v@.skip(i as int).len() == 0);
        assert(r@ + squeezed(v@.skip(i as int)) =~= r@);
    }
    r
}

fn join_on_windows(base: &str, name: &str) -> (r: String)
    ensures
        r@ == joined_on_windows(base@, name@),
{
    let v = chars_of(base);
    let w = chars_of(name);
    let prefix: usize = prefix_end(&v, true);
    if prefix_end(&w, true) > 0 {
        return name.to_owned();
    }
    let before = text_between(&v, 0, prefix);
    proof {
        assert(before@ =~= base@.take(prefix as int));
        assert(v@.skip(0) =~= v@);
    }
    if verbatim(&v) && w.len() > 0 {
        let rest = squeeze(&v, prefix);
        return cat(before.as_str(), cat3(rest.as_str(), "\\", name).as_str());
    }
    if w.len() > 0 && separates(w[0], PathStyle::Windows) {
        return cat(before.as_str(), name);
    }
    if v.len() == 0 || separates(v[v.len() - 1], PathStyle::Windows) || (v.len() == 2 && drive_at(&v, 0)) {
        cat(base, name)
    } else {
        cat3(base, "\\", name)
    }
}

/// `base` with `name` below it.
pub fn join(base: &str, name: &str, windows: bool) -> (r: String)
    ensures
        r@ == joined(base@, name@, windows),
{
    if windows {
        return join_on_windows(base, name);
    }
    let v = chars_of(base);
    let w = chars_of(name);
    if w.len() > 0 && w[0] == '/' {
        name.to_owned()
    } else if v.len() == 0 || v[v.len() - 1] == '/' {
        cat(base, name)
    } else {
        cat3(base, "/", name)
    }
}

} // verus!
