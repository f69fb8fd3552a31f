//! Character classes and the text primitives that the line shapes are
//! stated over.

use vstd::prelude::*;
use vstd::string::StringExecFns;

verus! {

/// The characters with the Unicode property `White_Space`.
pub open spec fn is_space(c: char) -> bool {
    let n = c as u32;
    ||| 0x09 <= n <= 0x0D
    ||| n == 0x20
    ||| n == 0x85
    ||| n == 0xA0
    ||| n == 0x1680
    ||| 0x2000 <= n <= 0x200A
    ||| n == 0x2028
    ||| n == 0x2029
    ||| n == 0x202F
    ||| n == 0x205F
    ||| n == 0x3000
}

/// The ASCII decimal digits.
pub open spec fn is_digit(c: char) -> bool {
    '0' <= c <= '9'
}

/// The ASCII letters.
pub open spec fn is_letter(c: char) -> bool {
    ('A' <= c <= 'Z') || ('a' <= c <= 'z')
}

pub fn space_char(c: char) -> (r: bool)
    ensures
        r == is_space(c),
{
    let n: u32 = c as u32;
    (0x09 <= n && n <= 0x0D) || n == 0x20 || n == 0x85 || n == 0xA0 || n == 0x1680 || (0x2000 <= n
        && n <= 0x200A) || n == 0x2028 || n == 0x2029 || n == 0x202F || n == 0x205F || n == 0x3000
}

pub fn digit_char(c: char) -> (r: bool)
    ensures
        r == is_digit(c),
{
    '0' <= c && c <= '9'
}

pub fn letter_char(c: char) -> (r: bool)
    ensures
        r == is_letter(c),
{
    ('A' <= c && c <= 'Z') || ('a' <= c && c <= 'z')
}

/// The characters of `s`, in order.
pub fn to_chars(s: &str) -> (v: Vec<char>)
    ensures
        v@ == s@,
{
    let mut v: Vec<char> = Vec::new();
    for c in it: s.chars()
        invariant
            v@ == it.seq().take(it.index()),
            it.seq() == s@,
    {
        v.push(c);
    }
    v
}

/// The positions `from..to` of `s` exist and hold spaces only.
pub open spec fn spaces(s: Seq<char>, from: int, to: int) -> bool {
    &&& 0 <= from <= to <= s.len()
    &&& forall|k: int| from <= k < to ==> is_space(#[trigger] s[k])
}

/// The positions `from..to` of `s` exist and hold digits only.
pub open spec fn digits(s: Seq<char>, from: int, to: int) -> bool {
    &&& 0 <= from <= to <= s.len()
    &&& forall|k: int| from <= k < to ==> is_digit(#[trigger] s[k])
}

/// The positions `from..to` of `s` exist and hold letters only.
pub open spec fn letters(s: Seq<char>, from: int, to: int) -> bool {
    &&& 0 <= from <= to <= s.len()
    &&& forall|k: int| from <= k < to ==> is_letter(#[trigger] s[k])
}

/// `word` stands in `s` at position `at`.
pub open spec fn word_at(s: Seq<char>, at: int, word: Seq<char>) -> bool {
    &&& 0 <= at
    &&& at + word.len() <= s.len()
    &&& forall|k: int| 0 <= k < word.len() ==> #[trigger] s[at + k] == word[k]
}

/// `word` stands somewhere in `s`.
pub open spec fn contains_word(s: Seq<char>, word: Seq<char>) -> bool {
    exists|at: int| word_at(s, at, word)
}

/// The end of the run of spaces that starts at `from`.
pub(crate) fn skip_spaces(v: &Vec<char>, from: usize) -> (to: usize)
    requires
        from <= v.len(),
    ensures
        spaces(v@, from as int, to as int),
        to < v.len() ==> !is_space(v@[to as int]),
{
    let mut to: usize = from;
    while to < v.len() && space_char(v[to])
        invariant
            spaces(v@, from as int, to as int),
        decreases v.len() - to,
    {
        to = to + 1;
    }
    to
}

/// The start of the run of spaces that ends at `to`.
pub(crate) fn skip_spaces_back(v: &Vec<char>, to: usize) -> (from: usize)
    requires
        to <= v.len(),
    ensures
        spaces(v@, from as int, to as int),
        from > 0 ==> !is_space(v@[from - 1]),
{
    let mut from: usize = to;
    while from > 0 && space_char(v[from - 1])
        invariant
            spaces(v@, from as int, to as int),
        decreases from,
    {
        from = from - 1;
    }
    from
}

/// The end of the run of digits that starts at `from`.
pub(crate) fn skip_digits(v: &Vec<char>, from: usize) -> (to: usize)
    requires
        from <= v.len(),
    ensures
        digits(v@, from as int, to as int),
        to < v.len() ==> !is_digit(v@[to as int]),
{
    let mut to: usize = from;
    while to < v.len() && digit_char(v[to])
        invariant
            digits(v@, from as int, to as int),
        decreases v.len() - to,
    {
        to = to + 1;
    }
    to
}

/// Whether `word` stands in `v` at position `at`.
pub(crate) fn has_word_at(v: &Vec<char>, at: usize, word: &Vec<char>) -> (r: bool)
    ensures
        r == word_at(v@, at as int, word@),
{
    if at > v.len() || word.len() > v.len() - at {
        return false;
    }
    let mut k: usize = 0;
    while k < word.len()
        invariant
            at + word.len() <= v.len(),
            k <= word.len(),
            forall|j: int| 0 <= j < k ==> #[trigger] v@[at + j] == word@[j],
        decreases word.len() - k,
    {
        if v[at + k] != word[k] {
            return false;
        }
        k = k + 1;
    }
    true
}

/// Whether `word` stands somewhere in `v`.
pub(crate) fn has_word(v: &Vec<char>, word: &Vec<char>) -> (r: bool)
    ensures
        r == contains_word(v@, word@),
{
    if word.len() > v.len() {
        return false;
    }
    let last: usize = v.len() - word.len();
    let mut at: usize = 0;
    while at <= last
        invariant
            last == v.len() - word.len(),
            at <= last + 1,
            forall|j: int| 0 <= j < at ==> !word_at(v@, j, word@),
        decreases last + 1 - at,
    {
        if has_word_at(v, at, word) {
            return true;
        }
        at = at + 1;
    }
    false
}

/// `s` without the spaces it starts with.
pub open spec fn trim_start(s: Seq<char>) -> Seq<char>
    decreases s.len(),
{
    if s.len() > 0 && is_space(s.first()) {
        trim_start(s.drop_first())
    } else {
        s
    }
}

/// `s` without the spaces it ends with.
pub open spec fn trim_end(s: Seq<char>) -> Seq<char>
    decreases s.len(),
{
    if s.len() > 0 && is_space(s.last()) {
        trim_end(s.drop_last())
    } else {
        s
    }
}

/// `s` without the spaces at either end.
pub open spec fn trim(s: Seq<char>) -> Seq<char> {
    trim_end(trim_start(s))
}

/// A run of spaces at the start of `s` that ends before a character that is
/// no space, or at the end of `s`, is what `trim_start` takes off.
pub proof fn lemma_trim_start(s: Seq<char>, lo: int)
    requires
        spaces(s, 0, lo),
        lo < s.len() ==> !is_space(s[lo]),
    ensures
        trim_start(s) == s.subrange(lo, s.len() as int),
    decreases lo,
{
    if lo == 0 {
        assert(s.subrange(0, s.len() as int) =~= s);
    } else {
        assert(is_space(s[0]));
        let t = s.drop_first();
        assert forall|k: int| 0 <= k < lo - 1 implies is_space(#[trigger] t[k]) by {
            assert(t[k] == s[k + 1]);
        }
        lemma_trim_start(t, lo - 1);
        assert(t.subrange(lo - 1, t.len() as int) =~= s.subrange(lo, s.len() as int));
    }
}

/// A run of spaces at the end of `s` that starts behind a character that is
/// no space, or at the start of `s`, is what `trim_end` takes off.
pub proof fn lemma_trim_end(s: Seq<char>, hi: int)
    requires
        spaces(s, hi, s.len() as int),
        hi > 0 ==> !is_space(s[hi - 1]),
    ensures
        trim_end(s) == s.subrange(0, hi),
    decreases s.len() - hi,
{
    if hi == s.len() {
        assert(s.subrange(0, s.len() as int) =~= s);
    } else {
        assert(is_space(s[s.len() - 1]));
        let t = s.drop_last();
        assert forall|k: int| hi <= k < t.len() implies is_space(#[trigger] t[k]) by {
            assert(t[k] == s[k]);
        }
        lemma_trim_end(t, hi);
        assert(t.subrange(0, hi) =~= s.subrange(0, hi));
    }
}

/// The stretch of `v` that `trim` keeps.
pub(crate) fn trim_span(v: &Vec<char>) -> (r: (usize, usize))
    ensures
        r.0 <= r.1 <= v.len(),
        v@.subrange(r.0 as int, r.1 as int) == trim(v@),
{
    let lo = skip_spaces(v, 0);
    proof {
        lemma_trim_start(v@, lo as int);
    }
    if lo == v.len() {
        proof {
            assert(trim_start(v@).len() == 0);
        }
        return (lo, lo);
    }
    let hi = skip_spaces_back(v, v.len());
    proof {
        let t = v@.subrange(lo as int, v.len() as int);
        if hi <= lo {
            assert(is_space(v@[lo as int]));
        }
        assert forall|k: int| hi - lo <= k < t.len() implies is_space(#[trigger] t[k]) by {
            assert(t[k] == v@[k + lo]);
        }
        assert(t[hi - lo - 1] == v@[hi - 1]);
        lemma_trim_end(t, hi - lo);
        assert(t.subrange(0, hi - lo) =~= v@.subrange(lo as int, hi as int));
    }
    (lo, hi)
}

/// The length of the first line of `s`: the number of characters before its
/// first line feed, or all of them where it has none.
pub open spec fn first_line_len(s: Seq<char>) -> nat
    decreases s.len(),
{
    if s.len() == 0 || s.first() == '\n' {
        0
    } else {
        1 + first_line_len(s.drop_first())
    }
}

/// The lines of `s` that hold more than spaces, each trimmed, in order.
/// A line ends at a line feed or at the end of the text.
pub open spec fn content_lines(s: Seq<char>) -> Seq<Seq<char>>
    decreases s.len(),
{
    let n = first_line_len(s) as int;
    let line = trim(s.take(n));
    let head = if line.len() > 0 {
        seq![line]
    } else {
        Seq::<Seq<char>>::empty()
    };
    if n >= s.len() {
        head
    } else {
        head + content_lines(s.skip(n + 1))
    }
}

/// The views of the texts in `lines`.
pub open spec fn line_views(lines: Seq<Vec<char>>) -> Seq<Seq<char>> {
    Seq::new(lines.len(), |i: int| lines[i]@)
}

/// The first line of `s` ends where its first line feed stands, or at its
/// end where it has none.
pub proof fn lemma_first_line_len(s: Seq<char>, n: int)
    requires
        0 <= n <= s.len(),
        forall|k: int| 0 <= k < n ==> #[trigger] s[k] != '\n',
        n < s.len() ==> s[n] == '\n',
    ensures
        first_line_len(s) == n,
    decreases n,
{
    if n > 0 {
        let t = s.drop_first();
        assert forall|k: int| 0 <= k < n - 1 implies #[trigger] t[k] != '\n' by {
            assert(t[k] == s[k + 1]);
        }
        lemma_first_line_len(t, n - 1);
    }
}

/// A copy of the stretch `from..to` of `v`.
pub(crate) fn copy_span(v: &Vec<char>, from: usize, to: usize) -> (r: Vec<char>)
    requires
        from <= to <= v.len(),
    ensures
        r@ == v@.subrange(from as int, to as int),
{
    let mut r: Vec<char> = Vec::new();
    let mut k: usize = from;
    while k < to
        invariant
            from <= k <= to <= v.len(),
            r@ == v@.subrange(from as int, k as int),
        decreases to - k,
    {
        r.push(v[k]);
        proof {
            assert(v@.subrange(from as int, k as int).push(v@[k as int]) =~= v@.subrange(
                from as int,
                k + 1,
            ));
        }
        k = k + 1;
    }
    r
}

/// The lines of `v` that hold more than spaces, each trimmed, in order.
pub fn split_content_lines(v: &Vec<char>) -> (lines: Vec<Vec<char>>)
    ensures
        line_views(lines@) == content_lines(v@),
{
    let mut lines: Vec<Vec<char>> = Vec::new();
    let mut start: usize = 0;
    let mut done: bool = false;
    proof {
        assert(v@.skip(0) =~= v@);
        assert(line_views(lines@) + content_lines(v@) =~= content_lines(v@));
    }
    while !done
        invariant
            start <= v.len(),
            !done ==> content_lines(v@) == line_views(lines@) + content_lines(
                v@.skip(start as int),
            ),
            done ==> content_lines(v@) == line_views(lines@),
        decreases v.len() - start + (if done { 0int } else { 1int }),
    {
        let mut end: usize = start;
        while end < v.len() && v[end] != '\n'
            invariant
                start <= end <= v.len(),
                forall|k: int| start <= k < end ==> #[trigger] v@[k] != '\n',
            decreases v.len() - end,
        {
            end = end + 1;
        }
        let line = copy_span(v, start, end);
        let span = trim_span(&line);
        let ghost rest = v@.skip(start as int);
        let ghost before = line_views(lines@);
        proof {
            assert forall|k: int| 0 <= k < end - start implies #[trigger] rest[k] != '\n' by {
                assert(rest[k] == v@[start + k]);
            }
            lemma_first_line_len(rest, end - start);
            assert(rest.take(end - start) =~= line@);
        }
        if span.0 < span.1 {
            let trimmed = copy_span(&line, span.0, span.1);
            lines.push(trimmed);
            proof {
                assert(line_views(lines@) =~= before + seq![trim(line@)]);
            }
        }
        if end == v.len() {
            done = true;
            proof {
                assert(line_views(lines@) =~= content_lines(v@));
            }
        } else {
            proof {
                assert(rest.skip(end - start + 1) =~= v@.skip(end + 1));
                assert(content_lines(v@) =~= line_views(lines@) + content_lines(
                    v@.skip(end + 1),
                ));
            }
            start = end + 1;
        }
    }
    lines
}

/// The number that the digit `c` stands for.
pub open spec fn digit_value(c: char) -> nat {
    (c as u32 - '0' as u32) as nat
}

/// The digit for a number below ten.
pub open spec fn digit_of(d: nat) -> char {
    (d + 48) as char
}

/// The text of one digit.
pub(crate) fn digit_str(d: u64) -> (r: &'static str)
    requires
        d < 10,
    ensures
        r@ == seq![digit_of(d as nat)],
{
    proof {
        reveal_strlit("0");
        reveal_strlit("1");
        reveal_strlit("2");
        reveal_strlit("3");
        reveal_strlit("4");
        reveal_strlit("5");
        reveal_strlit("6");
        reveal_strlit("7");
        reveal_strlit("8");
        reveal_strlit("9");
    }
    let r = if d == 0 {
        "0"
    } else if d == 1 {
        "1"
    } else if d == 2 {
        "2"
    } else if d == 3 {
        "3"
    } else if d == 4 {
        "4"
    } else if d == 5 {
        "5"
    } else if d == 6 {
        "6"
    } else if d == 7 {
        "7"
    } else if d == 8 {
        "8"
    } else {
        "9"
    };
    assert(r@ =~= seq![digit_of(d as nat)]);
    r
}

/// The digits at `from..to` of `v`, as a string.
pub(crate) fn digits_to_string(v: &Vec<char>, from: usize, to: usize) -> (r: String)
    requires
        digits(v@, from as int, to as int),
    ensures
        r@ == v@.subrange(from as int, to as int),
{
    let mut r = String::new();
    let mut k: usize = from;
    while k < to
        invariant
            from <= k <= to <= v.len(),
            digits(v@, from as int, to as int),
            r@ == v@.subrange(from as int, k as int),
        decreases to - k,
    {
        let c = v[k];
        assert(is_digit(c));
        let d: u64 = (c as u32 - '0' as u32) as u64;
        r.append(digit_str(d));
        proof {
            assert(digit_of(d as nat) == c);
            assert(v@.subrange(from as int, k as int) + seq![c] =~= v@.subrange(
                from as int,
                k + 1,
            ));
        }
        k = k + 1;
    }
    r
}

/// The number that the decimal digits `s` write; 0 for no digits.
pub open spec fn decimal_value(s: Seq<char>) -> nat
    decreases s.len(),
{
    if s.len() == 0 {
        0
    } else {
        decimal_value(s.drop_last()) * 10 + digit_value(s.last())
    }
}

/// The number that the digits at `from..to` of `v` write, where it is at
/// most `u64::MAX`.
pub(crate) fn read_decimal(v: &Vec<char>, from: usize, to: usize) -> (r: Option<u64>)
    requires
        digits(v@, from as int, to as int),
    ensures
        match r {
            Some(n) => n == decimal_value(v@.subrange(from as int, to as int)),
            None => decimal_value(v@.subrange(from as int, to as int)) > u64::MAX,
        },
{
    let mut n: u64 = 0;
    let mut k: usize = from;
    while k < to
        invariant
            from <= k <= to <= v.len(),
            digits(v@, from as int, to as int),
            n == decimal_value(v@.subrange(from as int, k as int)),
        decreases to - k,
    {
        let c = v[k];
        assert(is_digit(c));
        let d: u64 = (c as u32 - '0' as u32) as u64;
        proof {
            let next = v@.subrange(from as int, k + 1);
            assert(next.drop_last() =~= v@.subrange(from as int, k as int));
            assert(decimal_value(next) == n * 10 + d);
            lemma_decimal_value_grows(v@.subrange(from as int, to as int), k + 1 - from);
            assert(v@.subrange(from as int, to as int).take(k + 1 - from) =~= next);
        }
        if n > (u64::MAX - d) / 10 {
            return None;
        }
        n = n * 10 + d;
        k = k + 1;
    }
    proof {
        assert(v@.subrange(from as int, k as int) == v@.subrange(from as int, to as int));
    }
    Some(n)
}

/// Ten to the power of `n`.
pub open spec fn ten_to(n: nat) -> nat
    decreases n,
{
    if n == 0 {
        1
    } else {
        10 * ten_to((n - 1) as nat)
    }
}

/// A run of `n` digits writes a number below ten to the power of `n`.
pub proof fn lemma_decimal_value_bound(s: Seq<char>)
    requires
        digits(s, 0, s.len() as int),
    ensures
        decimal_value(s) < ten_to(s.len()),
    decreases s.len(),
{
    if s.len() > 0 {
        let t = s.drop_last();
        assert forall|k: int| 0 <= k < t.len() implies is_digit(#[trigger] t[k]) by {
            assert(t[k] == s[k]);
        }
        lemma_decimal_value_bound(t);
        assert(is_digit(s[s.len() - 1]));
    }
}

/// The digits that start a text write no more than the whole text does.
pub proof fn lemma_decimal_value_grows(s: Seq<char>, n: int)
    requires
        0 <= n <= s.len(),
    ensures
        decimal_value(s.take(n)) <= decimal_value(s),
    decreases s.len() - n,
{
    if n == s.len() {
        assert(s.take(n) =~= s);
    } else {
        lemma_decimal_value_grows(s.drop_last(), n);
        assert(s.drop_last().take(n) =~= s.take(n));
    }
}

} // verus!
