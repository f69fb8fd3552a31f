//! The shapes that a line of a shared result can have, and the classifier
//! that tells them apart.

use vstd::prelude::*;
use crate::glyphs::{
    header_chars, header_phrase, perfect_chars, perfect_word, CHECK, CLOCK, STAR, TARGET,
};
use crate::text::{
    contains_word, copy_span, digit_char, digits, digits_to_string, has_word, has_word_at,
    is_digit, is_letter, is_space, letter_char, letters, skip_digits, skip_spaces,
    skip_spaces_back, spaces, to_chars, trim, trim_span, word_at,
};
use crate::time::time_at;

verus! {

/// `s` is a header line: the header phrase stands somewhere in it.
pub open spec fn is_header(s: Seq<char>) -> bool {
    contains_word(s, header_phrase())
}

/// From `after` to the end of `s` stand spaces, the clock at `clock`, spaces,
/// and a time that starts at `from` and has its colon at `colon`.
pub open spec fn clock_time_at(s: Seq<char>, after: int, clock: int, from: int, colon: int) -> bool {
    &&& spaces(s, after, clock)
    &&& clock < s.len()
    &&& s[clock] == CLOCK
    &&& spaces(s, clock + 1, from)
    &&& time_at(s, from, colon, s.len() as int)
}

/// `s` is a perfect-score line: the star, the word at `word`, the clock at
/// `clock` and a time from `from` to its end, with spaces between them.
pub open spec fn perfect_at(s: Seq<char>, word: int, clock: int, from: int, colon: int) -> bool {
    &&& s.len() > 0
    &&& s[0] == STAR
    &&& spaces(s, 1, word)
    &&& word_at(s, word, perfect_word())
    &&& clock_time_at(s, word + 8, clock, from, colon)
}

/// `s` is a perfect-score line whose time starts at `from` and has its colon
/// at `colon`.
pub open spec fn perfect_time_at(s: Seq<char>, from: int, colon: int) -> bool {
    exists|word: int, clock: int| perfect_at(s, word, clock, from, colon)
}

/// `s` is a perfect-score line.
pub open spec fn is_perfect(s: Seq<char>) -> bool {
    exists|word: int, clock: int, from: int, colon: int| perfect_at(s, word, clock, from, colon)
}

/// `s` is an imperfect-score line: the target, a percentage at `pct..sign`
/// with its percent sign, the clock at `clock` and a time from `from` to its
/// end, with spaces between them.
pub open spec fn imperfect_at(
    s: Seq<char>,
    pct: int,
    sign: int,
    clock: int,
    from: int,
    colon: int,
) -> bool {
    &&& s.len() > 0
    &&& s[0] == TARGET
    &&& spaces(s, 1, pct)
    &&& pct < sign
    &&& digits(s, pct, sign)
    &&& sign < s.len()
    &&& s[sign] == '%'
    &&& clock_time_at(s, sign + 1, clock, from, colon)
}

/// `s` is an imperfect-score line whose percentage stands at `pct..sign`,
/// and whose time starts at `from` and has its colon at `colon`.
pub open spec fn imperfect_parts_at(s: Seq<char>, pct: int, sign: int, from: int, colon: int) -> bool {
    exists|clock: int| imperfect_at(s, pct, sign, clock, from, colon)
}

/// `s` is an imperfect-score line.
pub open spec fn is_imperfect(s: Seq<char>) -> bool {
    exists|pct: int, sign: int, clock: int, from: int, colon: int|
        imperfect_at(s, pct, sign, clock, from, colon)
}

/// `s` starts and ends with a checkmark, two of them.
pub open spec fn is_wrapped(s: Seq<char>) -> bool {
    &&& s.len() >= 2
    &&& s.first() == CHECK
    &&& s.last() == CHECK
}

/// A time starts at `from` in `s`.
pub open spec fn time_starts_at(s: Seq<char>, from: int) -> bool {
    exists|colon: int, to: int| time_at(s, from, colon, to)
}

/// The first time in `s` stands at `from..to`: no time starts before `from`,
/// and the seconds run on to `to`.
pub open spec fn first_time_at(s: Seq<char>, from: int, colon: int, to: int) -> bool {
    &&& 0 <= from
    &&& time_at(s, from, colon, to)
    &&& to < s.len() ==> !is_digit(s[to])
    &&& forall|before: int| 0 <= before < from ==> !time_starts_at(s, before)
}

/// `s` is a plain-completion line: wrapped in checkmarks, with a time
/// somewhere in it.
pub open spec fn is_normal(s: Seq<char>) -> bool {
    &&& is_wrapped(s)
    &&& exists|from: int, colon: int, to: int| first_time_at(s, from, colon, to)
}

/// Where the date of `s` ends: before the closing checkmark of a wrapped
/// line, else at the end of the line.
pub open spec fn date_end(s: Seq<char>) -> int {
    if is_wrapped(s) {
        s.len() - 1
    } else {
        s.len() as int
    }
}

/// `s` ends with a date: three letters at `month`, spaces, one or two digits
/// at `day`, a comma at `comma`, spaces, and four digits at `year`.
pub open spec fn date_at(s: Seq<char>, month: int, day: int, comma: int, year: int) -> bool {
    &&& letters(s, month, month + 3)
    &&& month + 3 < day
    &&& spaces(s, month + 3, day)
    &&& digits(s, day, comma)
    &&& (comma == day + 1 || comma == day + 2)
    &&& comma < s.len()
    &&& s[comma] == ','
    &&& comma + 1 < year
    &&& spaces(s, comma + 1, year)
    &&& digits(s, year, date_end(s))
    &&& year + 4 == date_end(s)
}

/// `s` is a date line.
pub open spec fn is_date(s: Seq<char>) -> bool {
    exists|month: int, day: int, comma: int, year: int| date_at(s, month, day, comma, year)
}

/// Two runs of spaces from one start that both end before a character that
/// is no space, or at the end of the text, end in one place.
pub proof fn lemma_spaces_end(s: Seq<char>, from: int, a: int, b: int)
    requires
        spaces(s, from, a),
        spaces(s, from, b),
        a < s.len() ==> !is_space(s[a]),
        b < s.len() ==> !is_space(s[b]),
    ensures
        a == b,
{
    if a < b {
        assert(is_space(s[a]));
    }
    if b < a {
        assert(is_space(s[b]));
    }
}

/// Two runs of spaces up to one end that both start behind a character that
/// is no space, or at the start of the text, start in one place.
pub proof fn lemma_spaces_start(s: Seq<char>, a: int, b: int, to: int)
    requires
        spaces(s, a, to),
        spaces(s, b, to),
        a > 0 ==> !is_space(s[a - 1]),
        b > 0 ==> !is_space(s[b - 1]),
    ensures
        a == b,
{
    if a < b {
        assert(is_space(s[b - 1]));
    }
    if b < a {
        assert(is_space(s[a - 1]));
    }
}

/// Two runs of digits from one start that both end before a character that
/// is no digit, or at the end of the text, end in one place.
pub proof fn lemma_digits_end(s: Seq<char>, from: int, a: int, b: int)
    requires
        digits(s, from, a),
        digits(s, from, b),
        a < s.len() ==> !is_digit(s[a]),
        b < s.len() ==> !is_digit(s[b]),
    ensures
        a == b,
{
    if a < b {
        assert(is_digit(s[a]));
    }
    if b < a {
        assert(is_digit(s[b]));
    }
}

/// What stands behind `after` as spaces, clock, spaces and time stands there
/// in one way only.
pub proof fn lemma_clock_time_unique(
    s: Seq<char>,
    after: int,
    c1: int,
    f1: int,
    k1: int,
    c2: int,
    f2: int,
    k2: int,
)
    requires
        clock_time_at(s, after, c1, f1, k1),
        clock_time_at(s, after, c2, f2, k2),
    ensures
        c1 == c2,
        f1 == f2,
        k1 == k2,
{
    lemma_spaces_end(s, after, c1, c2);
    assert(is_digit(s[f1]) && is_digit(s[f2]));
    lemma_spaces_end(s, c1 + 1, f1, f2);
    lemma_digits_end(s, f1, k1, k2);
}

/// A perfect-score line is one in one way only.
pub proof fn lemma_perfect_unique(
    s: Seq<char>,
    w1: int,
    c1: int,
    f1: int,
    k1: int,
    w2: int,
    c2: int,
    f2: int,
    k2: int,
)
    requires
        perfect_at(s, w1, c1, f1, k1),
        perfect_at(s, w2, c2, f2, k2),
    ensures
        w1 == w2,
        c1 == c2,
        f1 == f2,
        k1 == k2,
{
    assert(s[w1 + 0] == perfect_word()[0]);
    assert(s[w2 + 0] == perfect_word()[0]);
    lemma_spaces_end(s, 1, w1, w2);
    lemma_clock_time_unique(s, w1 + 8, c1, f1, k1, c2, f2, k2);
}

/// An imperfect-score line is one in one way only.
pub proof fn lemma_imperfect_unique(
    s: Seq<char>,
    pct1: int,
    g1: int,
    c1: int,
    f1: int,
    k1: int,
    pct2: int,
    g2: int,
    c2: int,
    f2: int,
    k2: int,
)
    requires
        imperfect_at(s, pct1, g1, c1, f1, k1),
        imperfect_at(s, pct2, g2, c2, f2, k2),
    ensures
        pct1 == pct2,
        g1 == g2,
        c1 == c2,
        f1 == f2,
        k1 == k2,
{
    assert(is_digit(s[pct1]) && is_digit(s[pct2]));
    lemma_spaces_end(s, 1, pct1, pct2);
    lemma_digits_end(s, pct1, g1, g2);
    lemma_clock_time_unique(s, g1 + 1, c1, f1, k1, c2, f2, k2);
}

/// The first time of a text stands in one place only.
pub proof fn lemma_first_time_unique(
    s: Seq<char>,
    f1: int,
    k1: int,
    t1: int,
    f2: int,
    k2: int,
    t2: int,
)
    requires
        first_time_at(s, f1, k1, t1),
        first_time_at(s, f2, k2, t2),
    ensures
        f1 == f2,
        k1 == k2,
        t1 == t2,
{
    if f1 < f2 {
        assert(time_starts_at(s, f1));
    }
    if f2 < f1 {
        assert(time_starts_at(s, f2));
    }
    lemma_digits_end(s, f1, k1, k2);
    lemma_digits_end(s, k1 + 1, t1, t2);
}

/// A date line carries its date in one place only.
pub proof fn lemma_date_unique(
    s: Seq<char>,
    m1: int,
    d1: int,
    c1: int,
    y1: int,
    m2: int,
    d2: int,
    c2: int,
    y2: int,
)
    requires
        date_at(s, m1, d1, c1, y1),
        date_at(s, m2, d2, c2, y2),
    ensures
        m1 == m2,
        d1 == d2,
        c1 == c2,
        y1 == y2,
{
    lemma_spaces_start(s, c1 + 1, c2 + 1, y1);
    assert(is_space(s[d1 - 1]) && is_space(s[d2 - 1]));
    assert(is_digit(s[c1 - 1]));
    if d1 < d2 {
        assert(is_digit(s[d2 - 1]));
    }
    if d2 < d1 {
        assert(is_digit(s[d1 - 1]));
    }
    assert(is_letter(s[m1 + 2]) && is_letter(s[m2 + 2]));
    lemma_spaces_start(s, m1 + 3, m2 + 3, d1);
}

/// Looks behind `after` for spaces, the clock, spaces and a time that runs to
/// the end of `v`: the places of the clock, of the time and of its colon.
fn find_clock_time(v: &Vec<char>, after: usize) -> (r: Option<(usize, usize, usize)>)
    requires
        after <= v.len(),
    ensures
        match r {
            Some((clock, from, colon)) => clock_time_at(
                v@,
                after as int,
                clock as int,
                from as int,
                colon as int,
            ),
            None => forall|clock: int, from: int, colon: int|
                !clock_time_at(v@, after as int, clock, from, colon),
        },
{
    let clock = skip_spaces(v, after);
    if clock >= v.len() || v[clock] != CLOCK {
        proof {
            assert forall|c: int, f: int, k: int| !clock_time_at(v@, after as int, c, f, k) by {
                if clock_time_at(v@, after as int, c, f, k) {
                    lemma_spaces_end(v@, after as int, clock as int, c);
                }
            }
        }
        return None;
    }
    let from = skip_spaces(v, clock + 1);
    let colon = skip_digits(v, from);
    let end = if colon < v.len() {
        skip_digits(v, colon + 1)
    } else {
        colon
    };
    if colon == from || colon >= v.len() || v[colon] != ':' || end == colon + 1 || end < v.len() {
        proof {
            assert forall|c: int, f: int, k: int| !clock_time_at(v@, after as int, c, f, k) by {
                if clock_time_at(v@, after as int, c, f, k) {
                    lemma_spaces_end(v@, after as int, clock as int, c);
                    assert(is_digit(v@[f]));
                    lemma_spaces_end(v@, clock + 1, from as int, f);
                    lemma_digits_end(v@, from as int, colon as int, k);
                    lemma_digits_end(v@, colon + 1, end as int, v.len() as int);
                }
            }
        }
        return None;
    }
    Some((clock, from, colon))
}

/// Looks for the shape of a perfect-score line: the places of its time and
/// of the time's colon.
fn find_perfect(v: &Vec<char>) -> (r: Option<(usize, usize)>)
    ensures
        match r {
            Some((from, colon)) => perfect_time_at(v@, from as int, colon as int),
            None => !is_perfect(v@),
        },
{
    if v.len() == 0 || v[0] != STAR {
        return None;
    }
    let word = skip_spaces(v, 1);
    let letters = perfect_chars();
    if !has_word_at(v, word, &letters) {
        proof {
            assert forall|w: int, c: int, f: int, k: int| !perfect_at(v@, w, c, f, k) by {
                if perfect_at(v@, w, c, f, k) {
                    assert(v@[w + 0] == perfect_word()[0]);
                    lemma_spaces_end(v@, 1, word as int, w);
                }
            }
        }
        return None;
    }
    proof {
        assert(v@[word + 0] == perfect_word()[0]);
    }
    match find_clock_time(v, word + 8) {
        Some((clock, from, colon)) => {
            proof {
                assert(perfect_at(v@, word as int, clock as int, from as int, colon as int));
            }
            Some((from, colon))
        },
        None => {
            proof {
                assert forall|w: int, c: int, f: int, k: int| !perfect_at(v@, w, c, f, k) by {
                    if perfect_at(v@, w, c, f, k) {
                        assert(v@[w + 0] == perfect_word()[0]);
                        lemma_spaces_end(v@, 1, word as int, w);
                        assert(clock_time_at(v@, (word + 8) as int, c, f, k));
                    }
                }
            }
            None
        },
    }
}

/// Looks for the shape of an imperfect-score line: the places of its
/// percentage, of the percent sign, of its time and of the time's colon.
fn find_imperfect(v: &Vec<char>) -> (r: Option<(usize, usize, usize, usize)>)
    ensures
        match r {
            Some((pct, sign, from, colon)) => imperfect_parts_at(
                v@,
                pct as int,
                sign as int,
                from as int,
                colon as int,
            ),
            None => !is_imperfect(v@),
        },
{
    if v.len() == 0 || v[0] != TARGET {
        return None;
    }
    let pct = skip_spaces(v, 1);
    let sign = skip_digits(v, pct);
    if sign == pct || sign >= v.len() || v[sign] != '%' {
        proof {
            assert forall|p: int, g: int, c: int, f: int, k: int|
                !imperfect_at(v@, p, g, c, f, k) by {
                if imperfect_at(v@, p, g, c, f, k) {
                    assert(is_digit(v@[p]));
                    lemma_spaces_end(v@, 1, pct as int, p);
                    lemma_digits_end(v@, pct as int, sign as int, g);
                }
            }
        }
        return None;
    }
    match find_clock_time(v, sign + 1) {
        Some((clock, from, colon)) => {
            proof {
                assert(imperfect_at(
                    v@,
                    pct as int,
                    sign as int,
                    clock as int,
                    from as int,
                    colon as int,
                ));
            }
            Some((pct, sign, from, colon))
        },
        None => {
            proof {
                assert forall|p: int, g: int, c: int, f: int, k: int|
                    !imperfect_at(v@, p, g, c, f, k) by {
                    if imperfect_at(v@, p, g, c, f, k) {
                        assert(is_digit(v@[p]));
                        lemma_spaces_end(v@, 1, pct as int, p);
                        lemma_digits_end(v@, pct as int, sign as int, g);
                        assert(clock_time_at(v@, (sign + 1) as int, c, f, k));
                    }
                }
            }
            None
        },
    }
}

/// Looks for the first time in `v`: its place, its colon and its end.
fn find_first_time(v: &Vec<char>) -> (r: Option<(usize, usize, usize)>)
    ensures
        match r {
            Some((from, colon, to)) => first_time_at(v@, from as int, colon as int, to as int),
            None => forall|from: int| 0 <= from ==> !time_starts_at(v@, from),
        },
{
    let mut at: usize = 0;
    while at < v.len()
        invariant
            at <= v.len(),
            forall|before: int| 0 <= before < at ==> !time_starts_at(v@, before),
        decreases v.len() - at,
    {
        let colon = skip_digits(v, at);
        if colon > at && colon < v.len() && v[colon] == ':' {
            let to = skip_digits(v, colon + 1);
            if to > colon + 1 {
                return Some((at, colon, to));
            }
        }
        proof {
            let stop = if colon > at {
                colon as int
            } else {
                at + 1
            };
            assert forall|before: int| at <= before < stop implies !time_starts_at(
                v@,
                before,
            ) by {
                assert forall|k: int, t: int| !time_at(v@, before, k, t) by {
                    if time_at(v@, before, k, t) {
                        if colon > at {
                            assert(digits(v@, before, colon as int));
                            lemma_digits_end(v@, before, colon as int, k);
                            assert(is_digit(v@[colon + 1]));
                        } else {
                            assert(is_digit(v@[before]));
                        }
                    }
                }
            }
        }
        at = if colon > at {
            colon
        } else {
            at + 1
        };
    }
    proof {
        assert forall|from: int| 0 <= from implies !time_starts_at(v@, from) by {
            if from >= v.len() {
                assert forall|k: int, t: int| !time_at(v@, from, k, t) by {}
            }
        }
    }
    None
}

/// Whether `v` starts and ends with a checkmark, two of them.
fn wrapped(v: &Vec<char>) -> (r: bool)
    ensures
        r == is_wrapped(v@),
{
    v.len() >= 2 && v[0] == CHECK && v[v.len() - 1] == CHECK
}

/// Looks for the shape of a plain-completion line: the place of its first
/// time, of the time's colon and of the time's end.
fn find_normal(v: &Vec<char>) -> (r: Option<(usize, usize, usize)>)
    ensures
        match r {
            Some((from, colon, to)) => is_wrapped(v@) && first_time_at(
                v@,
                from as int,
                colon as int,
                to as int,
            ),
            None => !is_normal(v@),
        },
{
    if !wrapped(v) {
        return None;
    }
    let r = find_first_time(v);
    proof {
        if r is None {
            assert forall|f: int, k: int, t: int| !first_time_at(v@, f, k, t) by {
                if first_time_at(v@, f, k, t) {
                    assert(time_starts_at(v@, f));
                }
            }
        }
    }
    r
}

/// Looks for a date at the end of `v`: the places of its month, of its day,
/// of its comma and of its year.
pub(crate) fn find_date(v: &Vec<char>) -> (r: Option<(usize, usize, usize, usize)>)
    ensures
        match r {
            Some((month, day, comma, year)) => date_at(
                v@,
                month as int,
                day as int,
                comma as int,
                year as int,
            ),
            None => !is_date(v@),
        },
{
    let end: usize = if wrapped(v) {
        v.len() - 1
    } else {
        v.len()
    };
    if end < 4 {
        return None;
    }
    let year: usize = end - 4;
    if !(digit_char(v[year]) && digit_char(v[year + 1]) && digit_char(v[year + 2]) && digit_char(
        v[year + 3],
    )) {
        proof {
            assert forall|m: int, d: int, c: int, y: int| !date_at(v@, m, d, c, y) by {
                if date_at(v@, m, d, c, y) {
                    assert(is_digit(v@[y]) && is_digit(v@[y + 1]) && is_digit(v@[y + 2])
                        && is_digit(v@[y + 3]));
                }
            }
        }
        return None;
    }
    let gap = skip_spaces_back(v, year);
    if gap == year || gap < 2 || v[gap - 1] != ',' || !digit_char(v[gap - 2]) {
        proof {
            assert forall|m: int, d: int, c: int, y: int| !date_at(v@, m, d, c, y) by {
                if date_at(v@, m, d, c, y) {
                    lemma_spaces_start(v@, gap as int, c + 1, year as int);
                    assert(is_digit(v@[c - 1]));
                }
            }
        }
        return None;
    }
    let comma: usize = gap - 1;
    let day: usize = if comma >= 2 && digit_char(v[comma - 2]) {
        comma - 2
    } else {
        comma - 1
    };
    let rest = skip_spaces_back(v, day);
    if rest == day || rest < 3 || !(letter_char(v[rest - 3]) && letter_char(v[rest - 2])
        && letter_char(v[rest - 1])) {
        proof {
            assert forall|m: int, d: int, c: int, y: int| !date_at(v@, m, d, c, y) by {
                if date_at(v@, m, d, c, y) {
                    lemma_spaces_start(v@, gap as int, c + 1, year as int);
                    assert(is_space(v@[d - 1]));
                    assert(is_digit(v@[d]));
                    assert(is_digit(v@[c - 1]));
                    assert(d == day);
                    assert(is_letter(v@[m + 2]));
                    lemma_spaces_start(v@, rest as int, m + 3, day as int);
                    assert(is_letter(v@[m]) && is_letter(v@[m + 1]));
                }
            }
        }
        return None;
    }
    proof {
        assert(date_at(v@, rest - 3, day as int, comma as int, year as int));
    }
    Some((rest - 3, day, comma, year))
}

/// What a line of a shared result is, with the digits that it carries.
pub enum LineShape {
    Header,
    DateLine,
    PerfectScore { minutes: Seq<char>, seconds: Seq<char> },
    ImperfectScore { percentage: Seq<char>, minutes: Seq<char>, seconds: Seq<char> },
    NormalScore { minutes: Seq<char>, seconds: Seq<char> },
    Unrecognized,
}

/// What the perfect-score line `s` carries.
pub open spec fn perfect_shape(s: Seq<char>) -> LineShape {
    let (word, clock, from, colon) = choose|word: int, clock: int, from: int, colon: int|
        perfect_at(s, word, clock, from, colon);
    LineShape::PerfectScore {
        minutes: s.subrange(from, colon),
        seconds: s.subrange(colon + 1, s.len() as int),
    }
}

/// What the imperfect-score line `s` carries.
pub open spec fn imperfect_shape(s: Seq<char>) -> LineShape {
    let (pct, sign, clock, from, colon) = choose|
        pct: int,
        sign: int,
        clock: int,
        from: int,
        colon: int,
    | imperfect_at(s, pct, sign, clock, from, colon);
    LineShape::ImperfectScore {
        percentage: s.subrange(pct, sign),
        minutes: s.subrange(from, colon),
        seconds: s.subrange(colon + 1, s.len() as int),
    }
}

/// What the plain-completion line `s` carries: its first time.
pub open spec fn normal_shape(s: Seq<char>) -> LineShape {
    let (from, colon, to) = choose|from: int, colon: int, to: int|
        first_time_at(s, from, colon, to);
    LineShape::NormalScore {
        minutes: s.subrange(from, colon),
        seconds: s.subrange(colon + 1, to),
    }
}

/// What the trimmed line `s` is. A line that holds the header phrase is a
/// header; else the three score shapes are tried, then the date.
pub open spec fn line_shape(s: Seq<char>) -> LineShape {
    if is_header(s) {
        LineShape::Header
    } else if is_perfect(s) {
        perfect_shape(s)
    } else if is_imperfect(s) {
        imperfect_shape(s)
    } else if is_normal(s) {
        normal_shape(s)
    } else if is_date(s) {
        LineShape::DateLine
    } else {
        LineShape::Unrecognized
    }
}

/// What a line of a shared result is, with the digits that it carries.
#[derive(Debug, PartialEq, Eq)]
pub enum LineKind {
    /// The line that names the game.
    Header,
    /// A line that ends with a date.
    DateLine,
    /// A flawless solve and the digits of its time.
    PerfectScore { minutes: String, seconds: String },
    /// A solve in part: the digits of its percentage and of its time.
    ImperfectScore { percentage: String, minutes: String, seconds: String },
    /// A solve without a precision and the digits of its time.
    NormalScore { minutes: String, seconds: String },
    /// None of these.
    Unrecognized,
}

impl View for LineKind {
    type V = LineShape;

    open spec fn view(&self) -> LineShape {
        match self {
            LineKind::Header => LineShape::Header,
            LineKind::DateLine => LineShape::DateLine,
            LineKind::PerfectScore { minutes, seconds } => LineShape::PerfectScore {
                minutes: minutes@,
                seconds: seconds@,
            },
            LineKind::ImperfectScore { percentage, minutes, seconds } => LineShape::ImperfectScore {
                percentage: percentage@,
                minutes: minutes@,
                seconds: seconds@,
            },
            LineKind::NormalScore { minutes, seconds } => LineShape::NormalScore {
                minutes: minutes@,
                seconds: seconds@,
            },
            LineKind::Unrecognized => LineShape::Unrecognized,
        }
    }
}

/// Whether `v` ends with a date.
pub(crate) fn has_date(v: &Vec<char>) -> (r: bool)
    ensures
        r == is_date(v@),
{
    find_date(v).is_some()
}

/// Classifies a trimmed line, given as its characters.
pub fn classify_chars(v: &Vec<char>) -> (kind: LineKind)
    ensures
        kind@ == line_shape(v@),
{
    let phrase = header_chars();
    if has_word(v, &phrase) {
        return LineKind::Header;
    }
    match find_perfect(v) {
        Some((from, colon)) => {
            proof {
                let (w, c) = choose|w: int, c: int| perfect_at(v@, w, c, from as int, colon as int);
                assert(perfect_at(v@, w, c, from as int, colon as int));
                assert(time_at(v@, from as int, colon as int, v@.len() as int));
                assert(colon < v.len());
                let (w2, c2, f2, k2) = choose|w2: int, c2: int, f2: int, k2: int|
                    perfect_at(v@, w2, c2, f2, k2);
                lemma_perfect_unique(v@, w, c, from as int, colon as int, w2, c2, f2, k2);
            }
            let minutes = digits_to_string(v, from, colon);
            let seconds = digits_to_string(v, colon + 1, v.len());
            return LineKind::PerfectScore { minutes, seconds };
        },
        None => {},
    }
    match find_imperfect(v) {
        Some((pct, sign, from, colon)) => {
            proof {
                let c = choose|c: int|
                    imperfect_at(v@, pct as int, sign as int, c, from as int, colon as int);
                assert(imperfect_at(v@, pct as int, sign as int, c, from as int, colon as int));
                assert(time_at(v@, from as int, colon as int, v@.len() as int));
                assert(colon < v.len());
                let (pct2, g2, c2, f2, k2) = choose|pct2: int, g2: int, c2: int, f2: int, k2: int|
                    imperfect_at(v@, pct2, g2, c2, f2, k2);
                lemma_imperfect_unique(
                    v@,
                    pct as int,
                    sign as int,
                    c,
                    from as int,
                    colon as int,
                    pct2,
                    g2,
                    c2,
                    f2,
                    k2,
                );
            }
            let percentage = digits_to_string(v, pct, sign);
            let minutes = digits_to_string(v, from, colon);
            let seconds = digits_to_string(v, colon + 1, v.len());
            return LineKind::ImperfectScore { percentage, minutes, seconds };
        },
        None => {},
    }
    match find_normal(v) {
        Some((from, colon, to)) => {
            proof {
                let (f2, k2, t2) = choose|f2: int, k2: int, t2: int| first_time_at(v@, f2, k2, t2);
                lemma_first_time_unique(v@, from as int, colon as int, to as int, f2, k2, t2);
            }
            let minutes = digits_to_string(v, from, colon);
            let seconds = digits_to_string(v, colon + 1, to);
            return LineKind::NormalScore { minutes, seconds };
        },
        None => {},
    }
    if has_date(v) {
        LineKind::DateLine
    } else {
        LineKind::Unrecognized
    }
}

/// Classifies one line of a shared result.
///
/// The line is trimmed first. A line that holds the header phrase is a
/// header. Else it is a perfect-score line, an imperfect-score line or a
/// plain-completion line where it has that shape, with the digits it carries;
/// else a date line where it ends with a date; else it is unrecognized.
pub fn classify_line(line: &str) -> (kind: LineKind)
    ensures
        kind@ == line_shape(trim(line@)),
{
    let chars = to_chars(line);
    let span = trim_span(&chars);
    let trimmed = copy_span(&chars, span.0, span.1);
    classify_chars(&trimmed)
}

} // verus!
