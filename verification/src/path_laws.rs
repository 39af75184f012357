//! What holds of paths and of the names in them.

use vstd::prelude::*;

use crate::domain::{project_name, starts_at_drive};
use crate::paths::{
    after_separator, extension, has_drive, head_length, is_separator, is_verbatim, joined, last_dot, leads_somewhere, name_of,
    parent_of, prefix_length, starts_doubly, stem, style_of, without_tail, PathStyle,
};
use crate::provider::codex::scan::is_session_file;
use crate::text::is_blank;

verus! {

/// Whether `c` parts the components of a path: `/`, and on Windows `\` too.
pub open spec fn parts(c: char, windows: bool) -> bool {
    c == '/' || (windows && c == '\\')
}

/// Whether `name` is the name of a file or directory: it is neither empty nor `.` nor `..`, and
/// nothing in it parts components.
pub open spec fn is_name(name: Seq<char>, windows: bool) -> bool {
    &&& name.len() > 0
    &&& name != seq!['.']
    &&& name != seq!['.', '.']
    &&& forall|i: int| 0 <= i < name.len() ==> !parts(#[trigger] name[i], windows)
}

/// Whether `path` starts with two separators, as the path of a share does on Windows.
pub open spec fn is_shared(path: Seq<char>, windows: bool) -> bool {
    windows && path.len() >= 2 && parts(path[0], true) && parts(path[1], true)
}

proof fn lemma_after_separator(head: Seq<char>, sep: char, name: Seq<char>, style: PathStyle)
    requires
        is_separator(sep, style),
        forall|i: int| 0 <= i < name.len() ==> !is_separator(#[trigger] name[i], style),
    ensures
        after_separator(head.push(sep) + name, style) == name,
    decreases name.len(),
{
    let all = head.push(sep) + name;
    if name.len() == 0 {
        assert(all.last() == sep);
    } else {
        let less = name.drop_last();
        assert forall|i: int| 0 <= i < less.len() implies !is_separator(#[trigger] less[i], style) by {
            assert(less[i] == name[i]);
        }
        lemma_after_separator(head, sep, less, style);
        assert(all.drop_last() =~= head.push(sep) + less);
        assert(all.last() == name[name.len() - 1]);
        assert(after_separator(all, style) =~= name);
    }
}

proof fn lemma_after_nothing(name: Seq<char>, style: PathStyle)
    requires
        forall|i: int| 0 <= i < name.len() ==> !is_separator(#[trigger] name[i], style),
    ensures
        after_separator(name, style) == name,
    decreases name.len(),
{
    if name.len() > 0 {
        let less = name.drop_last();
        assert forall|i: int| 0 <= i < less.len() implies !is_separator(#[trigger] less[i], style) by {
            assert(less[i] == name[i]);
        }
        lemma_after_nothing(less, style);
        assert(name[name.len() - 1] == name.last());
        assert(after_separator(name, style) =~= name);
    }
}

proof fn lemma_style(path: Seq<char>, windows: bool)
    requires
        !is_shared(path, windows),
    ensures
        style_of(path, windows) == if windows {
            PathStyle::Windows
        } else {
            PathStyle::Unix
        },
        prefix_length(path, windows) == 0 || (windows && has_drive(path) && prefix_length(path, windows) == 2),
        forall|c: char| #[trigger] is_separator(c, style_of(path, windows)) <==> parts(c, windows),
{
}

/// The last component of a path is its name: what stands behind the last separator, or the whole of a
/// path without one; separators behind it make no difference.
pub proof fn name_stands_last(dir: Seq<char>, sep: char, name: Seq<char>, windows: bool)
    requires
        parts(sep, windows),
        is_name(name, windows),
        !is_shared(dir.push(sep) + name, windows),
    ensures
        name_of(dir.push(sep) + name, windows) == Some(name),
        name_of(dir.push(sep) + name.push(sep), windows) == Some(name),
        !has_drive(name) ==> name_of(name, windows) == Some(name),
{
    let path = dir.push(sep) + name;
    let longer = dir.push(sep) + name.push(sep);
    lemma_style(path, windows);
    assert forall|i: int| 0 <= i < 2 && i < path.len() implies longer[i] == path[i] by {}
    if longer.len() >= 2 && path.len() >= 2 {
        assert(longer[0] == path[0] && longer[1] == path[1]);
    }
    lemma_style(longer, windows);
    let style = style_of(path, windows);
    let n = prefix_length(path, windows);
    if n == 2 {
        assert(path[1] == ':');
        assert(dir.len() >= 2) by {
            if dir.len() == 0 {
                assert(path[0] == sep);
            } else if dir.len() == 1 {
                assert(path[1] == sep);
            }
        }
    }
    assert(prefix_length(longer, windows) == n);
    assert forall|i: int| 0 <= i < name.len() implies !is_separator(#[trigger] name[i], style) by {
        assert(!parts(name[i], windows));
    }
    let rest = dir.skip(n);
    assert(path.skip(n) =~= rest.push(sep) + name);
    assert(longer.skip(n) =~= rest.push(sep) + name.push(sep));
    let place = rest.push(sep) + name;
    assert(place.last() == name[name.len() - 1]);
    assert(without_tail(place, style) == place) by {
        if place.last() == '.' && is_separator(place[place.len() - 2], style) {
            if name.len() >= 2 {
                assert(place[place.len() - 2] == name[name.len() - 2]);
            } else {
                assert(name =~= seq!['.']);
            }
        }
    }
    assert((rest.push(sep) + name.push(sep)).drop_last() =~= place);
    assert((rest.push(sep) + name.push(sep)).last() == sep);
    lemma_after_separator(rest, sep, name, style);
    if !has_drive(name) {
        if windows && name.len() >= 2 {
            assert(!parts(name[0], windows));
        }
        lemma_style(name, windows);
        assert(name.skip(0) =~= name);
        assert(without_tail(name, style) == name) by {
            assert(name.last() == name[name.len() - 1]);
            if name.len() >= 2 {
                assert(!is_separator(name[name.len() - 2], style));
            }
        }
        lemma_after_nothing(name, style);
    }
}

/// A project has the name of the working directory, read as a path of Windows where it starts with a
/// drive, and is unknown where there is none or its name is blank.
pub proof fn project_is_named_after_its_directory(
    dir: Seq<char>,
    sep: char,
    name: Seq<char>,
    windows: bool,
)
    requires
        ({
            let as_windows = windows || starts_with_drive(dir.push(sep) + name);
            &&& parts(sep, as_windows)
            &&& is_name(name, as_windows)
            &&& !is_shared(dir.push(sep) + name, as_windows)
        }),
    ensures
        !is_blank(name) ==> project_name(Some(dir.push(sep) + name), windows) == name,
        is_blank(name) ==> project_name(Some(dir.push(sep) + name), windows) == "unknown"@,
        project_name(None, windows) == "unknown"@,
{
    let path = dir.push(sep) + name;
    assert(starts_at_drive(path) == starts_with_drive(path));
    name_stands_last(dir, sep, name, windows || starts_with_drive(path));
}

/// Whether `path` starts with a letter of ASCII, a colon and a backslash.
pub open spec fn starts_with_drive(path: Seq<char>) -> bool {
    path.len() >= 3 && ('a' <= path[0] <= 'z' || 'A' <= path[0] <= 'Z') && path[1] == ':' && path[2] == '\\'
}

proof fn lemma_last_dot(front: Seq<char>, ending: Seq<char>)
    requires
        forall|i: int| 0 <= i < ending.len() ==> #[trigger] ending[i] != '.',
    ensures
        last_dot(front + seq!['.'] + ending) == front.len(),
    decreases ending.len(),
{
    let all = front + seq!['.'] + ending;
    if ending.len() > 0 {
        let less = ending.drop_last();
        assert forall|i: int| 0 <= i < less.len() implies #[trigger] less[i] != '.' by {
            assert(less[i] == ending[i]);
        }
        lemma_last_dot(front, less);
        assert(all.drop_last() =~= front + seq!['.'] + less);
        assert(all.last() == ending[ending.len() - 1]);
    } else {
        assert(all.last() == '.');
    }
}

proof fn lemma_no_dot(name: Seq<char>)
    requires
        forall|i: int| 0 <= i < name.len() ==> #[trigger] name[i] != '.',
    ensures
        last_dot(name) == -1,
    decreases name.len(),
{
    if name.len() > 0 {
        let less = name.drop_last();
        assert forall|i: int| 0 <= i < less.len() implies #[trigger] less[i] != '.' by {
            assert(less[i] == name[i]);
        }
        lemma_no_dot(less);
        assert(name.last() == name[name.len() - 1]);
    }
}

/// The extension of a name stands behind its last dot, and the stem before it; a name without a dot,
/// or with none but in front, has no extension.
pub proof fn extension_stands_behind_the_last_dot(front: Seq<char>, ending: Seq<char>)
    requires
        forall|i: int| 0 <= i < ending.len() ==> #[trigger] ending[i] != '.',
    ensures
        front.len() > 0 ==> stem(front + seq!['.'] + ending) == front,
        front.len() > 0 ==> extension(front + seq!['.'] + ending) == Some(ending),
        stem(seq!['.'] + ending) == seq!['.'] + ending,
        extension(seq!['.'] + ending) is None,
        stem(ending) == ending,
        extension(ending) is None,
{
    let all = front + seq!['.'] + ending;
    lemma_last_dot(front, ending);
    assert(all.take(front.len() as int) =~= front);
    assert(all.skip(front.len() as int + 1) =~= ending);
    lemma_last_dot(Seq::empty(), ending);
    assert(Seq::<char>::empty() + seq!['.'] + ending =~= seq!['.'] + ending);
    lemma_no_dot(ending);
}

/// A session file is a file whose name ends in `.jsonl`, with something before it.
pub proof fn session_files_end_in_jsonl(
    dir: Seq<char>,
    sep: char,
    front: Seq<char>,
    ending: Seq<char>,
    path: &str,
    is_file: bool,
    windows: bool,
    r: bool,
)
    requires
        call_ensures(is_session_file, (path, is_file, windows), r),
        parts(sep, windows),
        path@ == dir.push(sep) + (front + seq!['.'] + ending),
        is_name(front + seq!['.'] + ending, windows),
        !is_shared(path@, windows),
        front.len() > 0,
        forall|i: int| 0 <= i < ending.len() ==> #[trigger] ending[i] != '.',
    ensures
        r <==> is_file && ending == "jsonl"@,
{
    name_stands_last(dir, sep, front + seq!['.'] + ending, windows);
    extension_stands_behind_the_last_dot(front, ending);
}

/// A name that is joined to a directory lies in it: the directory stands before it, one separator
/// between them, and it is the last component.
pub proof fn joined_name_lies_in_the_directory(base: Seq<char>, name: Seq<char>, windows: bool)
    requires
        base.len() > 0,
        is_name(name, windows),
        !has_drive(name),
        !parts(base.last(), windows),
        !(windows && (is_shared(base, true) || (base.len() == 2 && has_drive(base)))),
    ensures
        joined(base, name, windows) == base + seq![if windows {
            '\\'
        } else {
            '/'
        }] + name,
        name_of(joined(base, name, windows), windows) == Some(name),
{
    reveal_strlit("/");
    reveal_strlit("\\");
    assert("/"@ =~= seq!['/']);
    assert("\\"@ =~= seq!['\\']);
    assert(!parts(name[0], windows));
    let sep = if windows {
        '\\'
    } else {
        '/'
    };
    let path = base + seq![sep] + name;
    assert(path =~= base.push(sep) + name);
    if windows {
        if name.len() >= 2 {
            assert(!starts_doubly(name));
        }
        assert(prefix_length(name, true) == 0);
        assert(!is_verbatim(base));
        assert(!is_separator(base.last(), PathStyle::Windows));
    }
    assert(joined(base, name, windows) =~= path);
    assert(!is_shared(path, windows)) by {
        assert(path[0] == base[0]);
        if base.len() >= 2 {
            assert(path[1] == base[1]);
        } else {
            assert(base.last() == base[0]);
        }
    }
    name_stands_last(base, sep, name, windows);
}

/// On Unix, a rooted name replaces the directory it is joined to, and a directory that ends in a
/// separator gets no second one.
pub proof fn rooted_name_replaces_the_directory(base: Seq<char>, name: Seq<char>)
    ensures
        name.len() > 0 && name[0] == '/' ==> joined(base, name, false) == name,
        (name.len() == 0 || name[0] != '/') && base.len() > 0 && base.last() == '/' ==> joined(base, name, false)
            == base + name,
        (name.len() == 0 || name[0] != '/') && base.len() == 0 ==> joined(base, name, false) == name,
{
    if base.len() == 0 {
        assert(base + name =~= name);
    }
}

/// A bare name is never taken for a path; on Unix a rooted one is.
pub proof fn bare_name_is_no_path(name: Seq<char>, windows: bool)
    requires
        is_name(name, windows),
        !has_drive(name),
    ensures
        !leads_somewhere(name, windows),
        !windows ==> leads_somewhere(seq!['/'] + name, windows),
{
    if windows && name.len() >= 2 {
        assert(!parts(name[0], windows));
    }
    lemma_style(name, windows);
    let style = style_of(name, windows);
    assert(name.last() == name[name.len() - 1]);
    if name.len() >= 2 {
        assert(!parts(name[name.len() - 2], windows));
    }
    assert(without_tail(name, style) == name);
    assert forall|i: int| 0 <= i < name.len() implies !is_separator(#[trigger] name[i], style) by {
        assert(!parts(name[i], windows));
    }
    assert(!parts(name[0], windows));
    assert((seq!['/'] + name)[0] == '/');
}

/// The directory of a path is what stands before the last separator.
pub proof fn directory_stands_before_the_name(dir: Seq<char>, sep: char, name: Seq<char>, windows: bool)
    requires
        parts(sep, windows),
        is_name(name, windows),
        !is_shared(dir.push(sep) + name, windows),
        dir.len() > 0,
        windows && has_drive(dir) ==> dir.len() > 2,
        !parts(dir.last(), windows),
        !(dir.last() == '.' && dir.len() >= 2 && parts(dir[dir.len() - 2], windows)),
    ensures
        parent_of(dir.push(sep) + name, windows) == Some(dir),
{
    let path = dir.push(sep) + name;
    lemma_style(path, windows);
    let style = style_of(path, windows);
    let n = prefix_length(path, windows);
    if n == 2 {
        assert(path[1] == ':');
        assert(dir.len() >= 2) by {
            if dir.len() == 1 {
                assert(path[1] == sep);
            }
        }
        assert(path[0] == dir[0] && path[1] == dir[1]);
        assert(has_drive(dir));
    }
    assert forall|i: int| 0 <= i < name.len() implies !is_separator(#[trigger] name[i], style) by {
        assert(!parts(name[i], windows));
    }
    let rest = dir.skip(n);
    let place = rest.push(sep) + name;
    assert(path.skip(n) =~= place);
    assert(place.last() == name[name.len() - 1]);
    assert(without_tail(place, style) == place) by {
        if place.last() == '.' && is_separator(place[place.len() - 2], style) {
            if name.len() >= 2 {
                assert(place[place.len() - 2] == name[name.len() - 2]);
            } else {
                assert(name =~= seq!['.']);
            }
        }
    }
    lemma_after_separator(rest, sep, name, style);
    let before = place.take(place.len() - name.len());
    assert(before =~= rest.push(sep));
    assert(before.drop_last() =~= rest);
    assert(rest.last() == dir.last());
    if rest.len() >= 2 {
        assert(rest[rest.len() - 2] == dir[dir.len() - 2]);
    }
    assert(without_tail(rest, style) == rest);
    assert(without_tail(before, style) == rest);
    assert(path.take(n) + rest =~= dir);
}

/// Whether `word` is one component of a share: it is not empty, and nothing in it parts components.
pub open spec fn is_word(word: Seq<char>) -> bool {
    word.len() > 0 && forall|i: int| 0 <= i < word.len() ==> !parts(#[trigger] word[i], true)
}

/// The root of the share `share` of `server`, written with the separators `a`, `b` and `c`.
pub open spec fn share_root(a: char, b: char, server: Seq<char>, c: char, share: Seq<char>) -> Seq<char> {
    seq![a, b] + server + seq![c] + share
}

proof fn lemma_head_length(word: Seq<char>, rest: Seq<char>, style: PathStyle)
    requires
        forall|i: int| 0 <= i < word.len() ==> !is_separator(#[trigger] word[i], style),
        rest.len() > 0 ==> is_separator(rest[0], style),
    ensures
        head_length(word + rest, style) == word.len(),
    decreases word.len(),
{
    let all = word + rest;
    if word.len() == 0 {
        assert(all =~= rest);
    } else {
        let less = word.drop_first();
        assert forall|i: int| 0 <= i < less.len() implies !is_separator(#[trigger] less[i], style) by {
            assert(less[i] == word[i + 1]);
        }
        lemma_head_length(less, rest, style);
        assert(all[0] == word[0]);
        assert(all.drop_first() =~= less + rest);
    }
}

/// On Windows the root of a share has no name, and what lies directly in it has its own.
pub proof fn share_root_has_no_name(
    a: char,
    b: char,
    server: Seq<char>,
    c: char,
    share: Seq<char>,
    sep: char,
    name: Seq<char>,
)
    requires
        parts(a, true) && parts(b, true) && parts(c, true) && parts(sep, true),
        is_word(server) && server != seq!['?'] && server != seq!['.'],
        is_word(share),
        is_name(name, true),
    ensures
        name_of(share_root(a, b, server, c, share), true) is None,
        name_of(share_root(a, b, server, c, share).push(sep) + name, true) == Some(name),
{
    let root = share_root(a, b, server, c, share);
    let path = root.push(sep) + name;
    lemma_share_prefix(a, b, server, c, share, Seq::empty());
    assert(root + Seq::<char>::empty() =~= root);
    assert(root.skip(root.len() as int) =~= Seq::<char>::empty());
    lemma_share_prefix(a, b, server, c, share, seq![sep] + name);
    assert(path =~= root + (seq![sep] + name));
    let rest = Seq::<char>::empty();
    let place = rest.push(sep) + name;
    assert(path.skip(root.len() as int) =~= place);
    assert forall|i: int| 0 <= i < name.len() implies !is_separator(#[trigger] name[i], PathStyle::Windows) by {
        assert(!parts(name[i], true));
    }
    assert(place.last() == name[name.len() - 1]);
    assert(without_tail(place, PathStyle::Windows) == place) by {
        if place.last() == '.' && is_separator(place[place.len() - 2], PathStyle::Windows) {
            if name.len() >= 2 {
                assert(place[place.len() - 2] == name[name.len() - 2]);
            } else {
                assert(name =~= seq!['.']);
            }
        }
    }
    lemma_after_separator(rest, sep, name, PathStyle::Windows);
}

proof fn lemma_share_prefix(
    a: char,
    b: char,
    server: Seq<char>,
    c: char,
    share: Seq<char>,
    rest: Seq<char>,
)
    requires
        parts(a, true) && parts(b, true) && parts(c, true),
        is_word(server) && server != seq!['?'] && server != seq!['.'],
        is_word(share),
        rest.len() > 0 ==> parts(rest[0], true),
    ensures
        prefix_length(share_root(a, b, server, c, share) + rest, true) == share_root(
            a,
            b,
            server,
            c,
            share,
        ).len(),
        style_of(share_root(a, b, server, c, share) + rest, true) == PathStyle::Windows,
{
    let path = share_root(a, b, server, c, share) + rest;
    let style = PathStyle::Windows;
    assert(path[0] == a && path[1] == b && path[2] == server[0]);
    if server.len() == 1 {
        assert(path[3] == c);
        assert(server =~= seq![server[0]]);
    } else {
        assert(path[3] == server[1]);
        assert(!parts(server[1], true));
    }
    assert(!is_verbatim(path));
    assert forall|i: int| 0 <= i < server.len() implies !is_separator(#[trigger] server[i], style) by {
        assert(!parts(server[i], true));
    }
    assert forall|i: int| 0 <= i < share.len() implies !is_separator(#[trigger] share[i], style) by {
        assert(!parts(share[i], true));
    }
    let behind = seq![c] + share + rest;
    assert(path.skip(2) =~= server + behind);
    lemma_head_length(server, behind, style);
    assert(path.skip(2).skip(server.len() as int + 1) =~= share + rest);
    lemma_head_length(share, rest, style);
}

/// On Windows a drive alone leads nowhere, and with anything behind it somewhere; on every system a
/// name behind a separator does.
pub proof fn separators_and_drives_lead_somewhere(
    drive: char,
    rest: Seq<char>,
    dir: Seq<char>,
    sep: char,
    name: Seq<char>,
    windows: bool,
)
    requires
        'a' <= drive <= 'z' || 'A' <= drive <= 'Z',
        parts(sep, windows),
        is_name(name, windows),
        !is_shared(dir.push(sep) + name, windows),
        !(windows && has_drive(dir.push(sep) + name)),
    ensures
        leads_somewhere(seq![drive, ':'] + rest, true) <==> rest.len() > 0,
        leads_somewhere(dir.push(sep) + name, windows),
{
    let on_drive = seq![drive, ':'] + rest;
    assert(on_drive[0] == drive && on_drive[1] == ':');
    assert(prefix_length(on_drive, true) == 2);
    let path = dir.push(sep) + name;
    lemma_style(path, windows);
    let style = style_of(path, windows);
    assert forall|i: int| 0 <= i < name.len() implies !is_separator(#[trigger] name[i], style) by {
        assert(!parts(name[i], windows));
    }
    assert(path.last() == name[name.len() - 1]);
    assert(without_tail(path, style) == path) by {
        if path.last() == '.' && is_separator(path[path.len() - 2], style) {
            if name.len() >= 2 {
                assert(path[path.len() - 2] == name[name.len() - 2]);
            } else {
                assert(name =~= seq!['.']);
            }
        }
    }
    assert(path[dir.len() as int] == sep);
    assert(is_separator(path[dir.len() as int], style));
}

/// On Windows a name with a drive replaces the directory it is joined to; a rooted one keeps the drive
/// of the directory; and behind a drive alone no separator is put.
pub proof fn drives_are_kept_when_joining(
    drive: char,
    rest: Seq<char>,
    base: Seq<char>,
    other: char,
    behind: Seq<char>,
    name: Seq<char>,
)
    requires
        'a' <= drive <= 'z' || 'A' <= drive <= 'Z',
        'a' <= other <= 'z' || 'A' <= other <= 'Z',
        is_name(name, true),
        !has_drive(name),
    ensures
        joined(base, seq![drive, ':'] + rest, true) == seq![drive, ':'] + rest,
        joined(seq![other, ':'] + behind, seq!['\\'] + name, true) == seq![other, ':', '\\'] + name,
        joined(seq![other, ':'], name, true) == seq![other, ':'] + name,
{
    let replaced = seq![drive, ':'] + rest;
    assert(replaced[0] == drive && replaced[1] == ':');
    assert(prefix_length(replaced, true) == 2);
    let dir = seq![other, ':'] + behind;
    assert(dir[0] == other && dir[1] == ':');
    assert(prefix_length(dir, true) == 2);
    let rooted = seq!['\\'] + name;
    assert(!parts(name[0], true));
    assert(rooted[0] == '\\' && rooted[1] == name[0]);
    assert(prefix_length(rooted, true) == 0);
    assert(dir.take(2) + rooted =~= seq![other, ':', '\\'] + name);
    let bare = seq![other, ':'];
    assert(bare[0] == other && bare[1] == ':');
    if name.len() >= 2 {
        assert(!starts_doubly(name));
    }
    assert(prefix_length(name, true) == 0);
    assert(bare.last() == ':');
}

/// On Windows a path that starts with a verbatim drive has the name that stands behind its last
/// backslash, since `/` parts nothing there.
pub proof fn verbatim_paths_keep_their_names(drive: char, dir: Seq<char>, name: Seq<char>)
    requires
        'a' <= drive <= 'z' || 'A' <= drive <= 'Z',
        name.len() > 0,
        name != seq!['.'],
        name != seq!['.', '.'],
        forall|i: int| 0 <= i < name.len() ==> #[trigger] name[i] != '\\',
    ensures
        name_of(
            seq!['\\', '\\', '?', '\\', drive, ':', '\\'] + dir + seq!['\\'] + name,
            true,
        ) == Some(name),
{
    let head = seq!['\\', '\\', '?', '\\', drive, ':'];
    let path = seq!['\\', '\\', '?', '\\', drive, ':', '\\'] + dir + seq!['\\'] + name;
    let style = PathStyle::Verbatim;
    assert(path[0] == '\\' && path[1] == '\\' && path[2] == '?' && path[3] == '\\');
    assert(path[4] == drive && path[5] == ':' && path[6] == '\\');
    assert(path.skip(4)[0] == drive && path.skip(4)[1] == ':');
    assert(prefix_length(path, true) == 6);
    let rest = seq!['\\'] + dir;
    let place = rest.push('\\') + name;
    assert(path.skip(6) =~= place);
    assert forall|i: int| 0 <= i < name.len() implies !is_separator(#[trigger] name[i], style) by {}
    assert(place.last() == name[name.len() - 1]);
    assert(without_tail(place, style) == place);
    lemma_after_separator(rest, '\\', name, style);
}

} // verus!
