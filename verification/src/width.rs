//! How wide text is on a terminal, and text cut to a width.

use unicode_width::UnicodeWidthChar;
use vstd::prelude::*;

use crate::text::{chars_of, text_between};

verus! {

/// Whether `c` is a control character.
pub open spec fn is_control(c: char) -> bool {
    c < '\u{20}' || '\u{7f}' <= c < '\u{a0}'
}

/// How many columns `c` takes on a terminal; a control character takes none.
pub uninterp spec fn column_count(c: char) -> Option<usize>;

/// Calls `unicode_width::UnicodeWidthChar::width`: the width depends on the character alone and is
/// named `column_count`. There is none exactly for control characters; printable ASCII takes one
/// column, and so does the ellipsis, whose width is ambiguous.
#[verifier::external_body]
pub(crate) fn char_width(c: char) -> (r: Option<usize>)
    ensures
        r == column_count(c),
        r is None <==> is_control(c),
        '\u{20}' <= c < '\u{7f}' ==> r == Some(1usize),
        c == '…' ==> r == Some(1usize),
{
    c.width()
}

/// How many columns `c` takes, none where it is a control character.
pub open spec fn columns(c: char) -> nat {
    match column_count(c) {
        Some(n) => n as nat,
        None => 0,
    }
}

/// How many columns each character of `s` takes.
pub open spec fn columns_of(s: Seq<char>) -> Seq<nat> {
    Seq::new(s.len(), |i: int| columns(s[i]))
}

/// The sum of `widths`.
pub open spec fn total(widths: Seq<nat>) -> nat
    decreases widths.len(),
{
    if widths.len() == 0 {
        0
    } else {
        total(widths.drop_last()) + widths.last()
    }
}

/// How many columns `s` takes.
pub open spec fn text_width(s: Seq<char>) -> nat {
    total(columns_of(s))
}

/// How many of the first of `widths` fit in `target` columns.
pub open spec fn fitting(widths: Seq<nat>, target: int) -> int
    decreases widths.len(),
{
    if widths.len() == 0 {
        0
    } else {
        let before = fitting(widths.drop_last(), target);
        if before == widths.len() - 1 && total(widths) <= target {
            widths.len() as int
        } else {
            before
        }
    }
}

/// `s`, whose characters are `widths` wide, cut to `max` columns, with an ellipsis in the last of
/// them where something was cut.
pub open spec fn cut(s: Seq<char>, widths: Seq<nat>, max: int) -> Seq<char> {
    if total(widths) <= max {
        s
    } else if max <= 0 {
        Seq::empty()
    } else {
        s.take(fitting(widths, max - 1)).push('…')
    }
}

/// `n`, or the largest machine number where it is larger.
pub open spec fn at_most_machine(n: nat) -> nat {
    if n <= usize::MAX {
        n
    } else {
        usize::MAX as nat
    }
}

/// The numbers of `widths`.
pub open spec fn numbers(widths: Seq<usize>) -> Seq<nat> {
    Seq::new(widths.len(), |i: int| widths[i] as nat)
}

/// How many columns each character of a text takes.
pub fn measure(v: &Vec<char>) -> (r: Vec<usize>)
    ensures
        numbers(r@) == columns_of(v@),
{
    let mut r: Vec<usize> = Vec::new();
    let mut i: usize = 0;
    while i < v.len()
        invariant
            i <= v@.len(),
            r@.len() == i,
            forall|k: int| 0 <= k < i ==> #[trigger] r@[k] as nat == columns(v@[k]),
        decreases v@.len() - i,
    {
        r.push(
            match char_width(v[i]) {
                Some(n) => n,
                None => 0,
            },
        );
        i = i + 1;
    }
    proof {
        assert(numbers(r@) =~= columns_of(v@));
    }
    r
}

proof fn lemma_total_grows(widths: Seq<nat>, n: int)
    requires
        0 <= n <= widths.len(),
    ensures
        total(widths.take(n)) <= total(widths),
    decreases widths.len() - n,
{
    if n == widths.len() {
        assert(widths.take(n) == widths);
    } else {
        assert(widths.take(n + 1).drop_last() == widths.take(n));
        lemma_total_grows(widths, n + 1);
    }
}

/// The sum of widths, or the largest machine number where it is larger.
pub fn sum_widths(widths: &Vec<usize>) -> (r: usize)
    ensures
        r as nat == at_most_machine(total(numbers(widths@))),
{
    let ghost all = numbers(widths@);
    let mut sum: usize = 0;
    let mut i: usize = 0;
    proof {
        assert(total(all.take(0)) == 0);
    }
    while i < widths.len()
        invariant
            i <= widths@.len(),
            all == numbers(widths@),
            sum as nat == total(all.take(i as int)),
        decreases widths@.len() - i,
    {
        proof {
            assert(all.take(i + 1).drop_last() == all.take(i as int));
            assert(all.take(i + 1).last() == widths@[i as int] as nat);
        }
        match sum.checked_add(widths[i]) {
            Some(next) => {
                sum = next;
            },
            None => {
                proof {
                    lemma_total_grows(all, i + 1);
                }
                return usize::MAX;
            },
        }
        i = i + 1;
    }
    proof {
        assert(all.take(all.len() as int) == all);
    }
    sum
}

/// How many columns a text takes on a terminal.
pub fn display_width(value: &str) -> (r: usize)
    ensures
        r as nat == at_most_machine(text_width(value@)),
{
    let v = chars_of(value);
    sum_widths(&measure(&v))
}

proof fn lemma_fitting(widths: Seq<nat>, target: int, n: int)
    requires
        0 <= n <= widths.len(),
        target >= 0,
        total(widths.take(n)) <= target,
        n < widths.len() ==> total(widths.take(n + 1)) > target,
    ensures
        fitting(widths, target) == n,
    decreases widths.len(),
{
    if widths.len() > 0 {
        let rest = widths.drop_last();
        if n == widths.len() {
            assert(widths.take(n) == widths);
            lemma_total_grows(widths, n - 1);
            assert(rest.take(n - 1) == widths.take(n - 1));
            lemma_fitting(rest, target, n - 1);
        } else {
            assert(rest.take(n) == widths.take(n));
            if n < rest.len() {
                assert(rest.take(n + 1) == widths.take(n + 1));
            }
            lemma_fitting(rest, target, n);
            lemma_total_grows(widths, n + 1);
        }
    }
}

/// Cuts a text, given how wide its characters are, to a number of columns, with an ellipsis in the
/// last of them where something was cut.
pub fn cut_columns(v: &Vec<char>, widths: &Vec<usize>, max_width: usize) -> (r: String)
    requires
        widths@.len() == v@.len(),
    ensures
        r@ == cut(v@, numbers(widths@), max_width as int),
{
    let end: usize = v.len();
    let ghost all = numbers(widths@);
    let mut sum: usize = 0;
    let mut i: usize = 0;
    let mut kept: usize = 0;
    proof {
        assert(total(all.take(0)) == 0);
    }
    while i < end
        invariant
            i <= end,
            end == v@.len() == widths@.len(),
            all == numbers(widths@),
            kept <= i,
            sum as nat == total(all.take(i as int)),
            sum <= max_width,
            max_width > 0 ==> total(all.take(kept as int)) <= max_width - 1,
            max_width > 0 && kept < i ==> total(all.take(kept + 1)) > max_width - 1,
            max_width == 0 ==> kept == 0,
        decreases end - i,
    {
        let room: usize = max_width - sum;
        proof {
            assert(all.take(i + 1).drop_last() == all.take(i as int));
            assert(all.take(i + 1).last() == widths@[i as int] as nat);
        }
        if widths[i] > room {
            proof {
                lemma_total_grows(all, i + 1);
            }
            if max_width == 0 {
                proof {
                    assert(cut(v@, all, 0) == Seq::<char>::empty());
                }
                return String::new();
            }
            proof {
                if kept < i {
                    lemma_fitting(all, max_width - 1, kept as int);
                } else {
                    lemma_fitting(all, max_width - 1, i as int);
                }
                assert(v@.subrange(0, kept as int) == v@.take(kept as int));
            }
            let mut r = text_between(v, 0, kept);
            r.push('…');
            return r;
        }
        sum = sum + widths[i];
        if max_width > 0 && sum <= max_width - 1 {
            kept = i + 1;
        }
        i = i + 1;
    }
    proof {
        assert(all.take(all.len() as int) == all);
        assert(v@.subrange(0, end as int) == v@);
    }
    text_between(v, 0, end)
}

proof fn lemma_fitting_fits(widths: Seq<nat>, target: int)
    requires
        target >= 0,
    ensures
        0 <= fitting(widths, target) <= widths.len(),
        total(widths.take(fitting(widths, target))) <= target,
    decreases widths.len(),
{
    if widths.len() > 0 {
        lemma_fitting_fits(widths.drop_last(), target);
        let n = fitting(widths, target);
        if n == widths.len() {
            assert(widths.take(n) == widths);
        } else {
            assert(widths.take(n) == widths.drop_last().take(n));
        }
    }
}

/// Cuts a text to a number of columns, with an ellipsis in the last of them where something was cut.
/// What is left is never wider than that.
pub fn truncate_width(value: &str, max_width: usize) -> (r: String)
    ensures
        r@ == cut(value@, columns_of(value@), max_width as int),
        text_width(r@) <= max_width,
{
    let v = chars_of(value);
    let widths = measure(&v);
    let ellipsis = char_width('…');
    let r = cut_columns(&v, &widths, max_width);
    proof {
        let all = columns_of(value@);
        if total(all) > max_width && max_width > 0 {
            lemma_fitting_fits(all, max_width - 1);
            let n = fitting(all, max_width - 1);
            assert(ellipsis == Some(1usize));
            assert(columns_of(r@) =~= all.take(n).push(1));
            assert(all.take(n).push(1).drop_last() == all.take(n));
        } else if total(all) > max_width {
            assert(columns_of(r@) =~= Seq::<nat>::empty());
        }
    }
    r
}

} // verus!
