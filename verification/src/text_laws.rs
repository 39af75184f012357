//! What holds of the small operations on texts that all else is made of.

use vstd::prelude::*;

use crate::plain::same_letter;
use crate::text::{
    blank_is_trimmed_to_nothing, collapsed, decimal, digits_value, ends_with, is_blank, is_digits, is_space, lower, padded,
    shortened, signed_decimal, single_spaced, trim_end, trim_start, trimmed, whole_number,
};
use crate::time::{later_of, moved_back};
use crate::width::{column_count, columns_of, cut, fitting, text_width, total};

verus! {

/// White space is what Unicode counts as such, and nothing else: no letter, digit or mark of ASCII,
/// and no ideograph, is.
pub proof fn white_space_is_that_of_unicode(c: char)
    ensures
        ({
            let n = c as int;
            is_space(c) <==> {
                ||| n == 9 || n == 10 || n == 11 || n == 12 || n == 13 || n == 32
                ||| n == 0x85 || n == 0xa0 || n == 0x1680
                ||| 0x2000 <= n && n <= 0x200a
                ||| n == 0x2028 || n == 0x2029 || n == 0x202f || n == 0x205f || n == 0x3000
            }
        }),
        '!' <= c <= '~' ==> !is_space(c),
        '\u{4e00}' <= c <= '\u{9fff}' ==> !is_space(c),
{
}

proof fn lemma_trim_start_splits(s: Seq<char>) -> (head: Seq<char>)
    ensures
        s == head + trim_start(s),
        is_blank(head),
        trim_start(s).len() > 0 ==> !is_space(trim_start(s)[0]),
    decreases s.len(),
{
    if s.len() > 0 && is_space(s[0]) {
        let head = lemma_trim_start_splits(s.drop_first());
        let all = seq![s[0]] + head;
        assert forall|i: int| 0 <= i < all.len() implies is_space(#[trigger] all[i]) by {
            if i > 0 {
                assert(all[i] == head[i - 1]);
            }
        }
        assert(s =~= seq![s[0]] + s.drop_first());
        assert(all + trim_start(s) =~= seq![s[0]] + (head + trim_start(s)));
        all
    } else {
        assert(s =~= Seq::empty() + s);
        Seq::empty()
    }
}

proof fn lemma_trim_end_splits(s: Seq<char>) -> (tail: Seq<char>)
    ensures
        s == trim_end(s) + tail,
        is_blank(tail),
        trim_end(s).len() > 0 ==> !is_space(trim_end(s).last()),
    decreases s.len(),
{
    if s.len() > 0 && is_space(s.last()) {
        let tail = lemma_trim_end_splits(s.drop_last());
        let all = tail.push(s.last());
        assert forall|i: int| 0 <= i < all.len() implies is_space(#[trigger] all[i]) by {
            if i < tail.len() {
                assert(all[i] == tail[i]);
            }
        }
        assert(s =~= s.drop_last().push(s.last()));
        assert(trim_end(s) + all =~= (trim_end(s) + tail).push(s.last()));
        all
    } else {
        assert(s =~= s + Seq::empty());
        Seq::empty()
    }
}

/// Trimming takes the white space at both ends away, all of it, and nothing else.
pub proof fn trimming_takes_only_the_white_space_around(s: Seq<char>) -> (around: (Seq<char>, Seq<char>))
    ensures
        s == around.0 + trimmed(s) + around.1,
        is_blank(around.0),
        is_blank(around.1),
        trimmed(s).len() > 0 ==> !is_space(trimmed(s)[0]) && !is_space(trimmed(s).last()),
{
    let head = lemma_trim_start_splits(s);
    let rest = trim_start(s);
    let tail = lemma_trim_end_splits(rest);
    if trimmed(s).len() > 0 {
        assert(trimmed(s)[0] == rest[0]);
    }
    assert(s =~= head + trimmed(s) + tail);
    (head, tail)
}

/// Lower case changes only the case of letters of ASCII and leaves none of them in upper case.
pub proof fn lower_case_changes_only_case(s: Seq<char>, i: int)
    requires
        0 <= i < s.len(),
    ensures
        lower(s).len() == s.len(),
        same_letter(lower(s)[i], s[i]),
        !('A' <= lower(s)[i] <= 'Z'),
{
}

proof fn lemma_white_space_behind(a: Seq<char>, w: Seq<char>)
    requires
        is_blank(w),
    ensures
        collapsed(a + w) == collapsed(a),
    decreases w.len(),
{
    if w.len() == 0 {
        assert(a + w =~= a);
    } else {
        let less = w.drop_last();
        assert forall|i: int| 0 <= i < less.len() implies is_space(#[trigger] less[i]) by {
            assert(less[i] == w[i]);
        }
        lemma_white_space_behind(a, less);
        assert((a + w).drop_last() =~= a + less);
        assert((a + w).last() == w[w.len() - 1]);
    }
}

proof fn lemma_white_space_before(w: Seq<char>, a: Seq<char>)
    requires
        is_blank(w),
    ensures
        collapsed(w + a) == collapsed(a),
    decreases a.len(),
{
    let all = w + a;
    if a.len() == 0 {
        assert(all =~= Seq::empty() + w);
        lemma_white_space_behind(Seq::empty(), w);
        assert(a =~= Seq::empty());
    } else {
        let less = a.drop_last();
        lemma_white_space_before(w, less);
        assert(all.drop_last() =~= w + less);
        assert(all.last() == a.last());
        if a.len() >= 2 {
            assert(all[all.len() - 2] == a[a.len() - 2]);
        } else {
            assert(less =~= Seq::<char>::empty());
        }
    }
}

/// A line keeps its words: white space before and behind is dropped, and any run of it between two
/// words counts as one space.
pub proof fn collapsing_looks_only_at_words(a: Seq<char>, w: Seq<char>, b: Seq<char>)
    requires
        is_blank(w),
    ensures
        collapsed(w + a) == collapsed(a),
        collapsed(a + w) == collapsed(a),
        w.len() > 0 ==> collapsed(a + w + b) == collapsed(a + seq![' '] + b),
    decreases b.len(),
{
    lemma_white_space_behind(a, w);
    lemma_white_space_before(w, a);
    if w.len() > 0 {
        let one = seq![' '];
        let x = a + w + b;
        let y = a + one + b;
        if b.len() == 0 {
            assert(x =~= a + w);
            assert(y =~= a + one);
            lemma_white_space_behind(a, one);
        } else {
            let less = b.drop_last();
            collapsing_looks_only_at_words(a, w, less);
            assert(x.drop_last() =~= a + w + less);
            assert(y.drop_last() =~= a + one + less);
            assert(x.last() == b.last() && y.last() == b.last());
            if b.len() >= 2 {
                assert(x[x.len() - 2] == b[b.len() - 2]);
                assert(y[y.len() - 2] == b[b.len() - 2]);
            } else {
                assert(x[x.len() - 2] == w[w.len() - 1]);
                assert(is_space(w[w.len() - 1]));
                assert(y[y.len() - 2] == ' ');
            }
        }
    }
}

/// Whether `s` starts with no space and has only single, plain spaces.
spec fn is_spaced(s: Seq<char>) -> bool {
    &&& s.len() > 0 ==> !is_space(s[0])
    &&& forall|i: int| 0 <= i < s.len() && is_space(#[trigger] s[i]) ==> s[i] == ' '
    &&& forall|i: int, j: int|
        0 <= i && i + 1 == j && j < s.len() ==> !is_space(#[trigger] s[i]) || !is_space(#[trigger] s[j])
}

proof fn lemma_spaced_is_kept(s: Seq<char>)
    requires
        is_spaced(s),
    ensures
        collapsed(s) == if s.len() > 0 && is_space(s.last()) {
            s.drop_last()
        } else {
            s
        },
    decreases s.len(),
{
    if s.len() > 0 {
        let less = s.drop_last();
        assert forall|i: int| 0 <= i < less.len() && is_space(#[trigger] less[i]) implies less[i] == ' ' by {
            assert(less[i] == s[i]);
        }
        assert forall|i: int, j: int| 0 <= i && i + 1 == j && j < less.len() implies !is_space(
            #[trigger] less[i],
        ) || !is_space(#[trigger] less[j]) by {
            assert(less[i] == s[i] && less[j] == s[j]);
        }
        lemma_spaced_is_kept(less);
        let c = s.last();
        if less.len() > 0 {
            let d = s[s.len() - 2];
            assert(d == less.last());
            assert(s[s.len() - 1] == c);
            if is_space(d) {
                assert(d == ' ');
                assert(less.len() >= 2) by {
                    assert(s[0] == less[0]);
                }
                assert(collapsed(s) =~= s);
            } else if !is_space(c) {
                assert(collapsed(s) =~= s);
            }
        } else {
            assert(s =~= seq![c]);
            assert(collapsed(s) =~= s);
        }
    }
}

/// A text whose words are single spaced already is left as it is.
pub proof fn single_spaced_text_is_kept(s: Seq<char>)
    requires
        single_spaced(s),
    ensures
        collapsed(s) == s,
{
    lemma_spaced_is_kept(s);
}

/// A text is cut only where it is longer than the limit, after exactly as many characters, and then
/// an ellipsis stands for the rest.
pub proof fn only_long_texts_are_cut(s: Seq<char>, limit: int, i: int)
    requires
        limit >= 0,
    ensures
        s.len() <= limit ==> shortened(s, limit) == s,
        s.len() > limit ==> shortened(s, limit).len() == limit + 1 && shortened(s, limit)[limit] == '…',
        0 <= i < s.len() && i < limit ==> shortened(s, limit)[i] == s[i],
{
}

/// A text is filled up with spaces behind it to the width, and kept where it is as wide already.
pub proof fn padding_stands_behind(s: Seq<char>, width: int, i: int)
    ensures
        padded(s, width).len() >= s.len() && padded(s, width).len() >= width,
        padded(s, width).len() == s.len() || padded(s, width).len() == width,
        0 <= i < s.len() ==> padded(s, width)[i] == s[i],
        s.len() <= i < padded(s, width).len() ==> padded(s, width)[i] == ' ',
{
}

/// A text ends with another exactly where that stands behind some head.
pub proof fn ending_is_standing_last(head: Seq<char>, tail: Seq<char>, s: Seq<char>)
    ensures
        ends_with(head + tail, tail),
        ends_with(s, tail) ==> s == s.take(s.len() - tail.len()) + tail,
{
    assert((head + tail).skip(head.len() as int) =~= tail);
    if ends_with(s, tail) {
        assert(s =~= s.take(s.len() - tail.len()) + s.skip(s.len() - tail.len()));
    }
}

/// A number is written in tens: one more digit stands for ten times as much and what it says, and no
/// number but zero starts with a zero.
pub proof fn numbers_are_written_in_tens(n: nat, d: nat)
    requires
        d < 10,
    ensures
        decimal(d).len() == 1 && decimal(d)[0] as int == '0' as int + d,
        n > 0 ==> decimal(10 * n + d) == decimal(n) + decimal(d),
        n > 0 ==> decimal(n)[0] != '0',
        n > 0 ==> signed_decimal(-(n as int)) == seq!['-'] + decimal(n),
        signed_decimal(n as int) == decimal(n),
    decreases n,
{
    if n > 0 {
        assert((10 * n + d) / 10 == n && (10 * n + d) % 10 == d);
        assert(decimal(10 * n + d) =~= decimal(n) + decimal(d));
        if n >= 10 {
            numbers_are_written_in_tens(n / 10, d);
            lemma_decimal_is_not_empty(n / 10);
            assert(decimal(n)[0] == decimal(n / 10)[0]);
        }
    }
}

proof fn lemma_decimal_is_not_empty(n: nat)
    ensures
        decimal(n).len() > 0,
    decreases n,
{
    if n >= 10 {
        lemma_decimal_is_not_empty(n / 10);
    }
}

/// A whole number is read as ten times what stands before its last digit and that digit; a sign may
/// stand before it, and anything else makes it none.
pub proof fn numbers_are_read_in_tens(s: Seq<char>, c: char)
    requires
        is_digits(s),
    ensures
        '0' <= c <= '9' ==> digits_value(s.push(c)) == 10 * digits_value(s) + (c as int - '0' as int),
        whole_number(s) == (if digits_value(s) <= i64::MAX {
            Some(digits_value(s) as int)
        } else {
            None
        }),
        whole_number(seq!['+'] + s) == whole_number(s),
        whole_number(s) matches Some(n) ==> whole_number(seq!['-'] + s) == Some(-n),
        !('0' <= c <= '9') ==> whole_number(s.push(c)) is None,
        whole_number(Seq::<char>::empty()) is None,
        whole_number(seq!['-']) is None && whole_number(seq!['+']) is None,
{
    assert(s.push(c).drop_last() =~= s);
    assert((seq!['+'] + s).skip(1) =~= s);
    assert((seq!['-'] + s).skip(1) =~= s);
    assert(s[0] == s[0]);
    assert(s.push(c)[s.len() as int] == c);
    assert(s.push(c)[0] == s[0]);
    assert(seq!['-'].skip(1).len() == 0);
    assert(seq!['+'].skip(1).len() == 0);
}

/// The later of two instants is one of them and none of them is later.
pub proof fn later_instant_is_one_of_both(a: (int, int), b: (int, int))
    ensures
        later_of(a, b) == a || later_of(a, b) == b,
        crate::plain::not_before(later_of(a, b), a),
        crate::plain::not_before(later_of(a, b), b),
{
}

/// Going back by a span goes back by that many seconds, and by two spans as by their sum.
pub proof fn going_back_adds_up(at: (int, int), a: int, b: int)
    requires
        0 <= at.1 < 1_000_000_000,
        a >= 0,
        b >= 0,
    ensures
        moved_back(at, a).0 + a == at.0,
        moved_back(at, a).1 == at.1,
        moved_back(at, 0) == at,
        moved_back(moved_back(at, a), b) == moved_back(at, a + b),
{
}

/// The width of a text is that of its parts together.
pub proof fn widths_add_up(a: Seq<char>, b: Seq<char>)
    ensures
        text_width(a + b) == text_width(a) + text_width(b),
        text_width(Seq::<char>::empty()) == 0,
    decreases b.len(),
{
    if b.len() == 0 {
        assert(a + b =~= a);
        assert(columns_of(b) =~= Seq::<nat>::empty());
    } else {
        widths_add_up(a, b.drop_last());
        assert((a + b).drop_last() =~= a + b.drop_last());
        assert(columns_of(a + b).drop_last() =~= columns_of(a + b.drop_last()));
        assert(columns_of(b).drop_last() =~= columns_of(b.drop_last()));
        assert(columns_of(a + b).last() == columns_of(b).last());
    }
    assert(columns_of(Seq::<char>::empty()) =~= Seq::<nat>::empty());
}

proof fn lemma_fitting_is_most(widths: Seq<nat>, target: int)
    requires
        target >= 0,
        total(widths) > target,
    ensures
        0 <= fitting(widths, target) < widths.len(),
        total(widths.take(fitting(widths, target))) <= target,
        total(widths.take(fitting(widths, target) + 1)) > target,
    decreases widths.len(),
{
    let less = widths.drop_last();
    let n = widths.len() - 1;
    if total(less) <= target {
        lemma_fitting_all(less, target);
        assert(widths.take(n) =~= less);
        assert(widths.take(n + 1) =~= widths);
    } else {
        lemma_fitting_is_most(less, target);
        let k = fitting(less, target);
        assert(widths.take(k) =~= less.take(k));
        assert(widths.take(k + 1) =~= less.take(k + 1));
    }
}

proof fn lemma_fitting_all(widths: Seq<nat>, target: int)
    requires
        target >= 0,
        total(widths) <= target,
    ensures
        fitting(widths, target) == widths.len(),
    decreases widths.len(),
{
    if widths.len() > 0 {
        lemma_fitting_all(widths.drop_last(), target);
    }
}

/// A text that fits its columns is kept; else as many of its first characters are kept as leave one
/// column, and an ellipsis stands in that one.
pub proof fn cutting_keeps_as_much_as_fits(s: Seq<char>, max: int) -> (n: int)
    requires
        max >= 0,
    ensures
        text_width(s) <= max ==> cut(s, columns_of(s), max) == s,
        text_width(s) > max == 0 ==> cut(s, columns_of(s), max).len() == 0,
        text_width(s) > max > 0 ==> {
            &&& 0 <= n < s.len()
            &&& cut(s, columns_of(s), max) == s.take(n) + seq!['…']
            &&& text_width(s.take(n)) <= max - 1
            &&& text_width(s.take(n + 1)) > max - 1
        },
{
    if text_width(s) > max && max > 0 {
        lemma_fitting_is_most(columns_of(s), max - 1);
        let n = fitting(columns_of(s), max - 1);
        assert(columns_of(s).take(n) =~= columns_of(s.take(n)));
        assert(columns_of(s).take(n + 1) =~= columns_of(s.take(n + 1)));
        assert(s.take(n).push('…') =~= s.take(n) + seq!['…']);
        n
    } else {
        0
    }
}

/// A text is blank exactly where it holds nothing but white space; the empty text is.
pub proof fn blank_texts_hold_only_white_space(s: Seq<char>, c: char)
    ensures
        is_blank(Seq::<char>::empty()),
        is_blank(s.push(c)) <==> is_blank(s) && is_space(c),
        is_blank(s) <==> trimmed(s).len() == 0,
{
    blank_is_trimmed_to_nothing(s);
    if is_blank(s.push(c)) {
        assert(s.push(c)[s.len() as int] == c);
        assert forall|i: int| 0 <= i < s.len() implies is_space(#[trigger] s[i]) by {
            assert(s.push(c)[i] == s[i]);
        }
    }
    if is_blank(s) && is_space(c) {
        assert forall|i: int| 0 <= i < s.push(c).len() implies is_space(#[trigger] s.push(c)[i]) by {
            if i < s.len() {
                assert(s.push(c)[i] == s[i]);
            }
        }
    }
}

/// A character takes the columns that it is known to take, and none where that is not known, as for
/// control characters.
pub proof fn unknown_characters_take_no_columns(c: char)
    ensures
        column_count(c) matches Some(n) ==> text_width(seq![c]) == n,
        column_count(c) is None ==> text_width(seq![c]) == 0,
{
    let widths = columns_of(seq![c]);
    assert(widths.drop_last() =~= Seq::<nat>::empty());
    assert(total(widths.drop_last()) == 0);
    assert(widths.last() == columns_of(seq![c])[0]);
}

} // verus!
