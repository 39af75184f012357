//! Text primitives: every string is read through its characters, a `Seq<char>`.

use vstd::prelude::*;
use vstd::string::StrSliceExecFns;

verus! {

/// Specifies `String::push` of std: it appends one character at the end.
pub assume_specification[ String::push ](s: &mut String, c: char)
    ensures
        final(s)@ == old(s)@.push(c),
;

/// Calls `std::str::from_utf8`: the bytes are text exactly when they are valid UTF-8, and the
/// text then encodes to those bytes.
#[verifier::external_body]
pub(crate) fn decode_utf8(bytes: &[u8]) -> (r: Option<&str>)
    ensures
        r is Some <==> vstd::utf8::valid_utf8(bytes@),
        r matches Some(s) ==> vstd::utf8::encode_utf8(s@) == bytes@,
{
    std::str::from_utf8(bytes).ok()
}

/// The text that `bytes` encode in UTF-8, if they do.
pub open spec fn utf8_text(bytes: Seq<u8>) -> Option<Seq<char>> {
    if vstd::utf8::valid_utf8(bytes) {
        Some(vstd::utf8::decode_utf8(bytes))
    } else {
        None
    }
}

/// The text that `bytes` encode in UTF-8, if they do.
pub fn text_in_bytes(bytes: &[u8]) -> (r: Option<&str>)
    ensures
        match r {
            Some(s) => utf8_text(bytes@) == Some(s@),
            None => utf8_text(bytes@) is None,
        },
{
    match decode_utf8(bytes) {
        Some(s) => {
            proof {
                vstd::utf8::encode_utf8_decode_utf8(s@);
            }
            Some(s)
        },
        None => None,
    }
}

/// The bytes that encode `s` in UTF-8.
pub fn bytes_of(s: &str) -> (r: Vec<u8>)
    ensures
        r@ == vstd::utf8::encode_utf8(s@),
{
    s.as_bytes_vec()
}

/// Whether `c` has the Unicode property `White_Space`.
pub open spec fn is_space(c: char) -> bool {
    ||| '\u{9}' <= c <= '\u{d}'
    ||| c == '\u{20}' || c == '\u{85}' || c == '\u{a0}' || c == '\u{1680}'
    ||| '\u{2000}' <= c <= '\u{200a}'
    ||| c == '\u{2028}' || c == '\u{2029}' || c == '\u{202f}' || c == '\u{205f}' || c == '\u{3000}'
}

/// Whether `c` is whitespace.
pub fn is_whitespace(c: char) -> (r: bool)
    ensures
        r == is_space(c),
{
    ('\u{9}' <= c && c <= '\u{d}') || c == '\u{20}' || c == '\u{85}' || c == '\u{a0}' || c
        == '\u{1680}' || ('\u{2000}' <= c && c <= '\u{200a}') || c == '\u{2028}' || c == '\u{2029}'
        || c == '\u{202f}' || c == '\u{205f}' || c == '\u{3000}'
}

/// The characters of `s`, in order.
pub fn chars_of(s: &str) -> (r: Vec<char>)
    ensures
        r@ == s@,
{
    let mut r: Vec<char> = Vec::new();
    for c in it: s.chars()
        invariant
            r@ == s@.take(it.index() as int),
            it.seq() == s@,
    {
        r.push(c);
    }
    r
}

/// The string made of the characters of `v` from `from` up to `to`.
pub fn text_between(v: &Vec<char>, from: usize, to: usize) -> (r: String)
    requires
        from <= to <= v@.len(),
    ensures
        r@ == v@.subrange(from as int, to as int),
{
    let mut r = String::new();
    let mut i: usize = from;
    while i < to
        invariant
            from <= i <= to <= v@.len(),
            r@ == v@.subrange(from as int, i as int),
        decreases to - i,
    {
        r.push(v[i]);
        proof {
            assert(v@.subrange(from as int, i + 1) == v@.subrange(from as int, i as int).push(
                v@[i as int],
            ));
        }
        i = i + 1;
    }
    r
}

/// The string made of the characters of `v`.
pub fn text_of(v: &Vec<char>) -> (r: String)
    ensures
        r@ == v@,
{
    proof {
        assert(v@.subrange(0, v@.len() as int) == v@);
    }
    text_between(v, 0, v.len())
}

/// Whether two strings hold the same characters.
pub fn same_text(a: &str, b: &str) -> (r: bool)
    ensures
        r == (a@ == b@),
{
    let left = chars_of(a);
    let right = chars_of(b);
    if left.len() != right.len() {
        return false;
    }
    let mut i: usize = 0;
    while i < left.len()
        invariant
            i <= left@.len(),
            left@ == a@,
            right@ == b@,
            left@.len() == right@.len(),
            a@.take(i as int) == b@.take(i as int),
        decreases left@.len() - i,
    {
        if left[i] != right[i] {
            return false;
        }
        proof {
            assert(a@.take(i + 1) == a@.take(i as int).push(a@[i as int]));
            assert(b@.take(i + 1) == b@.take(i as int).push(b@[i as int]));
        }
        i = i + 1;
    }
    proof {
        assert(a@.take(a@.len() as int) == a@);
        assert(b@.take(b@.len() as int) == b@);
    }
    true
}

/// `a` followed by `b`.
pub fn cat(a: &str, b: &str) -> (r: String)
    ensures
        r@ == a@ + b@,
{
    let mut r = a.to_owned();
    r.append(b);
    r
}

/// `a`, `b` and `c`, one after another.
pub fn cat3(a: &str, b: &str, c: &str) -> (r: String)
    ensures
        r@ == a@ + b@ + c@,
{
    let mut r = cat(a, b);
    r.append(c);
    r
}

/// `a`, `b`, `c` and `d`, one after another.
pub fn cat4(a: &str, b: &str, c: &str, d: &str) -> (r: String)
    ensures
        r@ == a@ + b@ + c@ + d@,
{
    let mut r = cat3(a, b, c);
    r.append(d);
    r
}

/// `a`, `b`, `c`, `d` and `e`, one after another.
pub fn cat5(a: &str, b: &str, c: &str, d: &str, e: &str) -> (r: String)
    ensures
        r@ == a@ + b@ + c@ + d@ + e@,
{
    let mut r = cat4(a, b, c, d);
    r.append(e);
    r
}

/// `s` without the whitespace that it starts with.
pub open spec fn trim_start(s: Seq<char>) -> Seq<char>
    decreases s.len(),
{
    if s.len() > 0 && is_space(s[0]) {
        trim_start(s.drop_first())
    } else {
        s
    }
}

/// `s` without the whitespace that it ends with.
pub open spec fn trim_end(s: Seq<char>) -> Seq<char>
    decreases s.len(),
{
    if s.len() > 0 && is_space(s.last()) {
        trim_end(s.drop_last())
    } else {
        s
    }
}

/// `s` without the whitespace at either end.
pub open spec fn trimmed(s: Seq<char>) -> Seq<char> {
    trim_end(trim_start(s))
}

/// Whether `s` is made of whitespace alone.
pub open spec fn is_blank(s: Seq<char>) -> bool {
    forall|i: int| 0 <= i < s.len() ==> is_space(#[trigger] s[i])
}

proof fn lemma_trim_start_at(s: Seq<char>, n: int)
    requires
        0 <= n <= s.len(),
        forall|i: int| 0 <= i < n ==> is_space(#[trigger] s[i]),
        n < s.len() ==> !is_space(s[n]),
    ensures
        trim_start(s) == s.skip(n),
    decreases n,
{
    if n == 0 {
        assert(s.skip(0) == s);
    } else {
        let t = s.drop_first();
        assert forall|i: int| 0 <= i < n - 1 implies is_space(#[trigger] t[i]) by {
            assert(t[i] == s[i + 1]);
        }
        lemma_trim_start_at(t, n - 1);
        assert(t.skip(n - 1) == s.skip(n));
    }
}

proof fn lemma_trim_end_at(s: Seq<char>, n: int)
    requires
        0 <= n <= s.len(),
        forall|i: int| n <= i < s.len() ==> is_space(#[trigger] s[i]),
        n > 0 ==> !is_space(s[n - 1]),
    ensures
        trim_end(s) == s.take(n),
    decreases s.len() - n,
{
    if n == s.len() {
        assert(s.take(n) == s);
    } else {
        let t = s.drop_last();
        assert forall|i: int| n <= i < t.len() implies is_space(#[trigger] t[i]) by {
            assert(t[i] == s[i]);
        }
        lemma_trim_end_at(t, n);
        assert(t.take(n) == s.take(n));
    }
}

/// Trimming leaves nothing of a text exactly where it is made of whitespace alone.
pub proof fn blank_is_trimmed_to_nothing(s: Seq<char>)
    ensures
        is_blank(s) <==> trimmed(s).len() == 0,
    decreases s.len(),
{
    if s.len() == 0 {
    } else if is_space(s[0]) {
        let t = s.drop_first();
        blank_is_trimmed_to_nothing(t);
        assert(forall|i: int| 0 <= i < t.len() ==> t[i] == s[i + 1]);
        if is_blank(t) {
            assert forall|i: int| 0 <= i < s.len() implies is_space(#[trigger] s[i]) by {
                if i > 0 {
                    assert(is_space(t[i - 1]));
                }
            }
        }
    } else {
        assert(trim_start(s) == s);
        lemma_trim_end_keeps_first(s);
    }
}

/// Trimming leaves no more of a text that is one character shorter at its end.
pub proof fn lemma_trimmed_of_less(s: Seq<char>)
    requires
        s.len() > 0,
    ensures
        trimmed(s.drop_last()).len() <= trimmed(s).len(),
{
    let rest = s.drop_last();
    if is_blank(rest) {
        blank_is_trimmed_to_nothing(rest);
    } else {
        lemma_trim_start_of_less(s);
        let a = trim_start(s);
        if !is_space(a.last()) {
            lemma_trim_end_is_no_longer(a.drop_last());
        }
    }
}

proof fn lemma_trim_start_of_less(s: Seq<char>)
    requires
        s.len() > 0,
        !is_blank(s.drop_last()),
    ensures
        trim_start(s).len() > 0,
        trim_start(s.drop_last()) == trim_start(s).drop_last(),
    decreases s.len(),
{
    let rest = s.drop_last();
    if is_space(s[0]) {
        let t = s.drop_first();
        let k = choose|k: int| 0 <= k < rest.len() && !is_space(#[trigger] rest[k]);
        assert(rest[k] == t.drop_last()[k - 1]);
        lemma_trim_start_of_less(t);
        assert(t.drop_last() =~= rest.drop_first());
    }
}

/// A text that neither starts nor ends with whitespace is left as it is by trimming.
pub proof fn lemma_trimmed_is_itself(s: Seq<char>)
    requires
        s.len() > 0,
        !is_space(s[0]),
        !is_space(s.last()),
    ensures
        trimmed(s) == s,
{
}

/// Trimming makes no text longer.
pub proof fn lemma_trimmed_is_no_longer(s: Seq<char>)
    ensures
        trimmed(s).len() <= s.len(),
{
    lemma_trim_start_is_no_longer(s);
    lemma_trim_end_is_no_longer(trim_start(s));
}

proof fn lemma_trim_start_is_no_longer(s: Seq<char>)
    ensures
        trim_start(s).len() <= s.len(),
    decreases s.len(),
{
    if s.len() > 0 && is_space(s[0]) {
        lemma_trim_start_is_no_longer(s.drop_first());
    }
}

proof fn lemma_trim_end_is_no_longer(s: Seq<char>)
    ensures
        trim_end(s).len() <= s.len(),
    decreases s.len(),
{
    if s.len() > 0 && is_space(s.last()) {
        lemma_trim_end_is_no_longer(s.drop_last());
    }
}

proof fn lemma_trim_end_keeps_first(s: Seq<char>)
    requires
        s.len() > 0,
        !is_space(s[0]),
    ensures
        trim_end(s).len() > 0,
    decreases s.len(),
{
    if is_space(s.last()) {
        lemma_trim_end_keeps_first(s.drop_last());
    }
}

/// `s` without the whitespace at either end.
pub fn trim(s: &str) -> (r: String)
    ensures
        r@ == trimmed(s@),
{
    let v = chars_of(s);
    let mut from: usize = 0;
    while from < v.len() && is_whitespace(v[from])
        invariant
            v@ == s@,
            from <= v@.len(),
            forall|i: int| 0 <= i < from ==> is_space(#[trigger] v@[i]),
        decreases v@.len() - from,
    {
        from = from + 1;
    }
    proof {
        lemma_trim_start_at(s@, from as int);
    }
    let mut to: usize = v.len();
    while to > from && is_whitespace(v[to - 1])
        invariant
            v@ == s@,
            from <= to <= v@.len(),
            forall|i: int| to <= i < v@.len() ==> is_space(#[trigger] v@[i]),
        decreases to,
    {
        to = to - 1;
    }
    proof {
        let t = s@.skip(from as int);
        assert forall|i: int| to - from <= i < t.len() implies is_space(#[trigger] t[i]) by {
            assert(t[i] == v@[i + from]);
        }
        lemma_trim_end_at(t, to - from);
        assert(t.take(to - from) == v@.subrange(from as int, to as int));
    }
    text_between(&v, from, to)
}

/// Whether `s` is made of whitespace alone.
pub fn blank(s: &str) -> (r: bool)
    ensures
        r == is_blank(s@),
{
    for c in it: s.chars()
        invariant
            it.seq() == s@,
            forall|i: int| 0 <= i < it.index() ==> is_space(#[trigger] s@[i]),
    {
        if !is_whitespace(c) {
            return false;
        }
    }
    true
}

/// `s` with every run of whitespace between two words made one space, and none at either end.
pub open spec fn collapsed(s: Seq<char>) -> Seq<char>
    decreases s.len(),
{
    if s.len() == 0 {
        s
    } else {
        let head = collapsed(s.drop_last());
        let c = s.last();
        if is_space(c) {
            head
        } else if head.len() > 0 && is_space(s[s.len() - 2]) {
            head.push(' ').push(c)
        } else {
            head.push(c)
        }
    }
}

/// Whether the whitespace of `s` is single spaces between words.
pub open spec fn single_spaced(s: Seq<char>) -> bool {
    &&& s.len() > 0 ==> !is_space(s[0]) && !is_space(s.last())
    &&& forall|i: int| 0 <= i < s.len() && is_space(#[trigger] s[i]) ==> s[i] == ' '
    &&& forall|i: int, j: int|
        0 <= i && i + 1 == j && j < s.len() ==> !is_space(#[trigger] s[i]) || !is_space(#[trigger] s[j])
}

/// A collapsed text holds no whitespace but single spaces between words, and nothing is left of a
/// text exactly where it is made of whitespace alone.
pub proof fn collapsed_is_single_spaced(s: Seq<char>)
    ensures
        single_spaced(collapsed(s)),
        collapsed(s).len() == 0 <==> is_blank(s),
    decreases s.len(),
{
    if s.len() > 0 {
        let rest = s.drop_last();
        collapsed_is_single_spaced(rest);
        assert(forall|i: int| 0 <= i < rest.len() ==> rest[i] == s[i]);
        if is_space(s.last()) {
            if is_blank(rest) {
                assert forall|i: int| 0 <= i < s.len() implies is_space(#[trigger] s[i]) by {
                    if i < rest.len() {
                        assert(is_space(rest[i]));
                    }
                }
            }
        } else {
            assert(!is_space(s[s.len() - 1]));
        }
    }
}

/// `s` with every run of whitespace between two words made one space, and none at either end.
pub fn collapse(s: &str) -> (r: String)
    ensures
        r@ == collapsed(s@),
{
    let v = chars_of(s);
    let mut r: Vec<char> = Vec::new();
    let mut i: usize = 0;
    while i < v.len()
        invariant
            v@ == s@,
            i <= v@.len(),
            r@ == collapsed(s@.take(i as int)),
        decreases v@.len() - i,
    {
        proof {
            assert(s@.take(i + 1).drop_last() == s@.take(i as int));
        }
        let c = v[i];
        if !is_whitespace(c) {
            if r.len() > 0 && i > 0 && is_whitespace(v[i - 1]) {
                r.push(' ');
            }
            r.push(c);
        }
        proof {
            if i == 0 {
                assert(s@.take(0) == Seq::<char>::empty());
            }
        }
        i = i + 1;
    }
    proof {
        assert(s@.take(s@.len() as int) == s@);
    }
    text_of(&r)
}

/// `c` in lower case where it is an ASCII letter.
pub open spec fn ascii_lower(c: char) -> char {
    if 'A' <= c <= 'Z' {
        ((c as u8 + 32) as u8) as char
    } else {
        c
    }
}

/// `s` with its ASCII letters in lower case.
pub open spec fn lower(s: Seq<char>) -> Seq<char> {
    Seq::new(s.len(), |i: int| ascii_lower(s[i]))
}

/// Whether `a` and `b` differ at most in the case of ASCII letters.
pub open spec fn same_but_case(a: Seq<char>, b: Seq<char>) -> bool {
    lower(a) == lower(b)
}

/// `c` in lower case where it is an ASCII letter.
pub fn to_ascii_lower(c: char) -> (r: char)
    ensures
        r == ascii_lower(c),
{
    if 'A' <= c && c <= 'Z' {
        ((c as u8) + 32) as char
    } else {
        c
    }
}

/// `s` with its ASCII letters in lower case.
pub fn to_lower(s: &str) -> (r: String)
    ensures
        r@ == lower(s@),
{
    let v = chars_of(s);
    let mut r = String::new();
    let mut i: usize = 0;
    while i < v.len()
        invariant
            v@ == s@,
            i <= v@.len(),
            r@ == lower(s@.take(i as int)),
        decreases v@.len() - i,
    {
        r.push(to_ascii_lower(v[i]));
        proof {
            assert(lower(s@.take(i + 1)) == lower(s@.take(i as int)).push(ascii_lower(s@[i as int])));
        }
        i = i + 1;
    }
    proof {
        assert(s@.take(s@.len() as int) == s@);
    }
    r
}

/// Whether `a` and `b` differ at most in the case of ASCII letters.
pub fn eq_ignore_case(a: &str, b: &str) -> (r: bool)
    ensures
        r == same_but_case(a@, b@),
{
    same_text(to_lower(a).as_str(), to_lower(b).as_str())
}

/// Whether `s` ends in `tail`.
pub open spec fn ends_with(s: Seq<char>, tail: Seq<char>) -> bool {
    tail.len() <= s.len() && s.skip(s.len() - tail.len()) == tail
}

/// Whether `s` ends in `tail`.
pub fn has_suffix(s: &str, tail: &str) -> (r: bool)
    ensures
        r == ends_with(s@, tail@),
{
    let v = chars_of(s);
    let t = chars_of(tail);
    if t.len() > v.len() {
        return false;
    }
    proof {
        assert(v@.subrange(v@.len() - t@.len(), v@.len() as int) == s@.skip(
            s@.len() - tail@.len(),
        ));
    }
    same_text(text_between(&v, v.len() - t.len(), v.len()).as_str(), tail)
}

/// `s` cut after `limit` characters, with an ellipsis where something was cut.
pub open spec fn shortened(s: Seq<char>, limit: int) -> Seq<char> {
    if s.len() > limit {
        s.take(limit).push('…')
    } else {
        s
    }
}

/// `s` cut after `limit` characters, with an ellipsis where something was cut.
pub fn truncate_chars(value: &str, limit: usize) -> (r: String)
    ensures
        r@ == shortened(value@, limit as int),
{
    let v = chars_of(value);
    if v.len() > limit {
        let mut r = text_between(&v, 0, limit);
        r.push('…');
        proof {
            assert(v@.subrange(0, limit as int) == value@.take(limit as int));
        }
        r
    } else {
        value.to_owned()
    }
}

/// `s` filled up with spaces on the right to at least `width` characters.
pub open spec fn padded(s: Seq<char>, width: int) -> Seq<char> {
    if s.len() < width {
        s + Seq::new((width - s.len()) as nat, |i: int| ' ')
    } else {
        s
    }
}

/// `s` filled up with spaces on the right to at least `width` characters.
pub fn pad(s: &str, width: usize) -> (r: String)
    ensures
        r@ == padded(s@, width as int),
{
    let mut r = s.to_owned();
    let mut n: usize = chars_of(s).len();
    proof {
        assert(s@ + Seq::new(0, |i: int| ' ') == s@);
    }
    while n < width
        invariant
            n >= s@.len(),
            n <= width || n == s@.len(),
            r@ == s@ + Seq::new((n - s@.len()) as nat, |i: int| ' '),
        decreases width - n,
    {
        r.push(' ');
        proof {
            let k = (n - s@.len()) as nat;
            assert(Seq::new(k + 1, |i: int| ' ') == Seq::new(k, |i: int| ' ').push(' '));
        }
        n = n + 1;
    }
    r
}

/// The decimal digit `d`.
pub open spec fn digit(d: int) -> char {
    ((48 + d) as u8) as char
}

/// `n` in decimal notation.
pub open spec fn decimal(n: nat) -> Seq<char>
    decreases n,
{
    if n < 10 {
        seq![digit(n as int)]
    } else {
        decimal(n / 10).push(digit((n % 10) as int))
    }
}

/// `n` in decimal notation, with a minus sign where it is negative.
pub open spec fn signed_decimal(n: int) -> Seq<char> {
    if n < 0 {
        seq!['-'] + decimal((-n) as nat)
    } else {
        decimal(n as nat)
    }
}

/// `n` in decimal notation.
pub fn decimal_text(n: u64) -> (r: String)
    ensures
        r@ == decimal(n as nat),
    decreases n,
{
    let last = (48 + (n % 10) as u8) as char;
    if n < 10 {
        let mut r = String::new();
        r.push(last);
        r
    } else {
        let mut r = decimal_text(n / 10);
        r.push(last);
        r
    }
}

/// `n` in decimal notation, with a minus sign where it is negative.
pub fn signed_text(n: i64) -> (r: String)
    ensures
        r@ == signed_decimal(n as int),
{
    if n < 0 {
        let magnitude: u64 = if n == i64::MIN {
            0x8000_0000_0000_0000u64
        } else {
            (-n) as u64
        };
        let digits = decimal_text(magnitude);
        let mut r = String::new();
        r.push('-');
        r.append(digits.as_str());
        r
    } else {
        decimal_text(n as u64)
    }
}

/// Whether `c` is one of the ASCII digits.
pub open spec fn is_digit(c: char) -> bool {
    '0' <= c <= '9'
}

/// The number that the ASCII digits of `s` write in decimal notation.
pub open spec fn digits_value(s: Seq<char>) -> nat
    decreases s.len(),
{
    if s.len() == 0 {
        0
    } else {
        10 * digits_value(s.drop_last()) + (s.last() as u32 - 48) as nat
    }
}

/// Whether `s` is one or more ASCII digits.
pub open spec fn is_digits(s: Seq<char>) -> bool {
    s.len() > 0 && forall|i: int| 0 <= i < s.len() ==> is_digit(#[trigger] s[i])
}

/// The signed number that `s` writes in decimal notation, an optional sign before its digits,
/// where it fits in 64 bits.
pub open spec fn whole_number(s: Seq<char>) -> Option<int> {
    let signed = s.len() > 0 && (s[0] == '+' || s[0] == '-');
    let digits = if signed {
        s.skip(1)
    } else {
        s
    };
    let value = if signed && s[0] == '-' {
        -digits_value(digits)
    } else {
        digits_value(digits) as int
    };
    if is_digits(digits) && i64::MIN <= value <= i64::MAX {
        Some(value)
    } else {
        None
    }
}

proof fn lemma_decimal_is_read_back(n: nat)
    ensures
        is_digits(decimal(n)),
        digits_value(decimal(n)) == n,
    decreases n,
{
    let last = digit((n % 10) as int);
    assert(is_digit(last) && (last as u32 - 48) as nat == n % 10);
    if n < 10 {
        let all = decimal(n);
        assert(all.drop_last() =~= Seq::<char>::empty());
        assert(digits_value(all.drop_last()) == 0);
    } else {
        lemma_decimal_is_read_back(n / 10);
        let head = decimal(n / 10);
        assert(head.push(last).drop_last() =~= head);
        assert forall|i: int| 0 <= i < decimal(n).len() implies is_digit(#[trigger] decimal(n)[i]) by {
            if i < head.len() {
                assert(decimal(n)[i] == head[i]);
            }
        }
    }
}

/// A number in decimal notation is read back as what it is, where it fits in 64 bits.
pub proof fn decimal_is_read_back(n: nat)
    ensures
        is_digits(decimal(n)),
        whole_number(decimal(n)) == if n <= i64::MAX {
            Some(n as int)
        } else {
            None
        },
{
    lemma_decimal_is_read_back(n);
    assert(is_digit(decimal(n)[0]));
}

/// The number that the digits of `v` from `from` on write, where it is at most `limit`.
fn read_digits(v: &Vec<char>, from: usize, limit: u64) -> (r: Option<u64>)
    requires
        from <= v@.len(),
        limit <= 0x8000_0000_0000_0000,
    ensures
        ({
            let digits = v@.skip(from as int);
            match r {
                Some(n) => is_digits(digits) && n == digits_value(digits) && n <= limit,
                None => !is_digits(digits) || digits_value(digits) > limit,
            }
        }),
{
    let ghost digits = v@.skip(from as int);
    if from == v.len() {
        return None;
    }
    let mut n: u64 = 0;
    let mut over = false;
    let mut i: usize = from;
    while i < v.len()
        invariant
            from <= i <= v@.len(),
            from < v@.len(),
            limit <= 0x8000_0000_0000_0000,
            digits == v@.skip(from as int),
            forall|k: int| 0 <= k < i - from ==> is_digit(#[trigger] digits[k]),
            n <= limit,
            !over ==> n == digits_value(digits.take(i - from)),
            over ==> digits_value(digits.take(i - from)) > limit,
        decreases v@.len() - i,
    {
        let c = v[i];
        proof {
            assert(digits[i - from] == c);
            assert(digits.take(i + 1 - from).drop_last() == digits.take(i - from));
            assert(digits.take(i + 1 - from).last() == c);
        }
        if !('0' <= c && c <= '9') {
            proof {
                assert(!is_digit(digits[i - from]));
            }
            return None;
        }
        let d: u64 = (c as u32 - 48) as u64;
        if !over {
            if n > limit / 10 || n * 10 + d > limit {
                over = true;
            } else {
                n = n * 10 + d;
            }
        }
        i = i + 1;
    }
    proof {
        assert(digits.take(digits.len() as int) == digits);
    }
    if over {
        None
    } else {
        Some(n)
    }
}

/// The signed number that `s` writes in decimal notation, where it fits in 64 bits.
pub fn parse_whole(s: &str) -> (r: Option<i64>)
    ensures
        match r {
            Some(n) => whole_number(s@) == Some(n as int),
            None => whole_number(s@) is None,
        },
{
    let v = chars_of(s);
    proof {
        assert(s@.skip(0) == s@);
    }
    if v.len() > 0 && v[0] == '-' {
        match read_digits(&v, 1, 0x8000_0000_0000_0000) {
            Some(n) => if n == 0x8000_0000_0000_0000 {
                Some(i64::MIN)
            } else {
                Some(-(n as i64))
            },
            None => None,
        }
    } else {
        let from: usize = if v.len() > 0 && v[0] == '+' {
            1
        } else {
            0
        };
        match read_digits(&v, from, 0x7fff_ffff_ffff_ffff) {
            Some(n) => Some(n as i64),
            None => None,
        }
    }
}

} // verus!
