//! The parser: from a shared text to the score it stands for.

use vstd::prelude::*;
use crate::errors::AkariParserError;
use crate::line::{classify_chars, line_shape, LineKind, LineShape};
use crate::models::{AkariPrecisionScore, AkariScore};
use crate::text::{
    content_lines, decimal_value, digits, line_views, read_decimal, skip_digits,
    split_content_lines, to_chars,
};
use crate::time::{read_time_parts, time_seconds};

verus! {

/// `s` is a number: digits, and at least one.
pub open spec fn is_number(s: Seq<char>) -> bool {
    s.len() > 0 && digits(s, 0, s.len() as int)
}

/// The time of a score, in seconds, that the digits of minutes and seconds
/// stand for: none where they are no numbers, where the seconds are 60 or
/// more, or where the time exceeds `i64::MAX`.
pub open spec fn score_time(minutes: Seq<char>, seconds: Seq<char>) -> Option<i64> {
    if is_number(minutes) && is_number(seconds) {
        match time_seconds(minutes, seconds) {
            Some(t) => if t <= i64::MAX {
                Some(t as i64)
            } else {
                None
            },
            None => None,
        }
    } else {
        None
    }
}

/// The precision that a line states: none for a line that carries no score,
/// and for a percentage that is no number or exceeds 100.
pub open spec fn shape_precision(shape: LineShape) -> Option<AkariPrecisionScore> {
    match shape {
        LineShape::PerfectScore { .. } => Some(AkariPrecisionScore::Perfect),
        LineShape::ImperfectScore { percentage, .. } => if is_number(percentage) && decimal_value(
            percentage,
        ) <= 100 {
            Some(AkariPrecisionScore::ImperfectWithPercentage(decimal_value(percentage) as i64))
        } else {
            None
        },
        LineShape::NormalScore { .. } => Some(AkariPrecisionScore::NotAvailable),
        _ => None,
    }
}

/// The time that a line states, in seconds.
pub open spec fn shape_time(shape: LineShape) -> Option<i64> {
    match shape {
        LineShape::PerfectScore { minutes, seconds } => score_time(minutes, seconds),
        LineShape::ImperfectScore { minutes, seconds, .. } => score_time(minutes, seconds),
        LineShape::NormalScore { minutes, seconds } => score_time(minutes, seconds),
        _ => None,
    }
}

/// The score that a line states. A line that carries no score, or whose
/// numbers are out of range, is refused.
pub open spec fn shape_score(shape: LineShape) -> Result<AkariScore, AkariParserError> {
    match (shape_precision(shape), shape_time(shape)) {
        (Some(precision), Some(time_sec)) => Ok(AkariScore { precision, time_sec }),
        _ => Err(AkariParserError::InvalidScoreFormat),
    }
}

/// The rank of a line among the lines that carry a score: a perfect score
/// before an imperfect one, that before a plain completion. 3 for a line that
/// carries none.
pub open spec fn rank(shape: LineShape) -> int {
    match shape {
        LineShape::PerfectScore { .. } => 0,
        LineShape::ImperfectScore { .. } => 1,
        LineShape::NormalScore { .. } => 2,
        _ => 3,
    }
}

/// One of `lines` is a header.
pub open spec fn has_header(lines: Seq<Seq<char>>) -> bool {
    exists|i: int| 0 <= i < lines.len() && #[trigger] line_shape(lines[i]) is Header
}

/// Line `i` is the one whose score counts: it carries a score, no line has a
/// better rank, and it is the first of its rank.
pub open spec fn is_score_line(lines: Seq<Seq<char>>, i: int) -> bool {
    &&& 0 <= i < lines.len()
    &&& rank(line_shape(lines[i])) < 3
    &&& forall|j: int|
        0 <= j < lines.len() ==> {
            ||| rank(#[trigger] line_shape(lines[j])) > rank(line_shape(lines[i]))
            ||| rank(line_shape(lines[j])) == rank(line_shape(lines[i])) && j >= i
        }
}

/// One of `lines` carries a score.
pub open spec fn has_score_line(lines: Seq<Seq<char>>) -> bool {
    exists|i: int| is_score_line(lines, i)
}

/// The line of `lines` whose score counts.
pub open spec fn score_line(lines: Seq<Seq<char>>) -> int {
    choose|i: int| is_score_line(lines, i)
}

/// The score that trimmed lines stand for. Without a header they are no
/// shared result; with one, the score is that of the line whose score counts.
pub open spec fn lines_score(lines: Seq<Seq<char>>) -> Result<AkariScore, AkariParserError> {
    if !has_header(lines) {
        Err(AkariParserError::ScoreNotFound)
    } else if !has_score_line(lines) {
        Err(AkariParserError::InvalidScoreFormat)
    } else {
        shape_score(line_shape(lines[score_line(lines)]))
    }
}

/// The score that a shared text stands for.
pub open spec fn parsed_score(text: Seq<char>) -> Result<AkariScore, AkariParserError> {
    lines_score(content_lines(text))
}

/// Only one line is the one whose score counts.
pub proof fn lemma_score_line_unique(lines: Seq<Seq<char>>, i: int, j: int)
    requires
        is_score_line(lines, i),
        is_score_line(lines, j),
    ensures
        i == j,
{
}

/// Where a line of some rank stands at `k`, a first line of that rank stands
/// at or before `k`.
pub proof fn lemma_first_of_rank(lines: Seq<Seq<char>>, k: int) -> (i: int)
    requires
        0 <= k < lines.len(),
    ensures
        0 <= i <= k,
        rank(line_shape(lines[i])) == rank(line_shape(lines[k])),
        forall|j: int|
            0 <= j < i ==> rank(#[trigger] line_shape(lines[j])) != rank(line_shape(lines[k])),
    decreases k,
{
    if exists|j: int| 0 <= j < k && rank(#[trigger] line_shape(lines[j])) == rank(line_shape(lines[k])) {
        let j = choose|j: int|
            0 <= j < k && rank(#[trigger] line_shape(lines[j])) == rank(line_shape(lines[k]));
        lemma_first_of_rank(lines, j)
    } else {
        k
    }
}

/// Where some line carries a score, one line is the one whose score counts,
/// and no line that carries a score has a better rank than it.
pub proof fn lemma_score_line_exists(lines: Seq<Seq<char>>, k: int)
    requires
        0 <= k < lines.len(),
        rank(line_shape(lines[k])) < 3,
    ensures
        has_score_line(lines),
        is_score_line(lines, score_line(lines)),
        rank(line_shape(lines[score_line(lines)])) <= rank(line_shape(lines[k])),
{
    let of_rank = |r: int| exists|j: int| 0 <= j < lines.len() && rank(#[trigger] line_shape(lines[j])) == r;
    let r: int = if of_rank(0) {
        0
    } else if of_rank(1) {
        1
    } else {
        2
    };
    assert(of_rank(r)) by {
        if !of_rank(0) && !of_rank(1) {
            assert(rank(line_shape(lines[k])) == 2);
        }
    }
    let j = choose|j: int| 0 <= j < lines.len() && rank(#[trigger] line_shape(lines[j])) == r;
    let i = lemma_first_of_rank(lines, j);
    assert(is_score_line(lines, i)) by {
        assert forall|m: int| 0 <= m < lines.len() implies {
            ||| rank(#[trigger] line_shape(lines[m])) > rank(line_shape(lines[i]))
            ||| rank(line_shape(lines[m])) == rank(line_shape(lines[i])) && m >= i
        } by {
            let rm = rank(line_shape(lines[m]));
            if rm < r {
                assert(of_rank(rm));
            }
        }
    }
    lemma_score_line_unique(lines, i, score_line(lines));
    if rank(line_shape(lines[k])) < r {
        assert(of_rank(rank(line_shape(lines[k]))));
    }
}

/// A text without a header line is refused as no shared result, whatever
/// else it holds.
pub proof fn lemma_header_required(text: Seq<char>)
    requires
        !has_header(content_lines(text)),
    ensures
        parsed_score(text) == Err::<AkariScore, AkariParserError>(AkariParserError::ScoreNotFound),
{
}

/// Where a text with a header holds a perfect-score line, that line's score
/// is the result, whatever other score lines stand before or behind it: the
/// line whose score counts is the first perfect-score line.
pub proof fn lemma_perfect_line_wins(text: Seq<char>, perfect: int)
    requires
        has_header(content_lines(text)),
        0 <= perfect < content_lines(text).len(),
        line_shape(content_lines(text)[perfect]) is PerfectScore,
    ensures
        has_score_line(content_lines(text)),
        score_line(content_lines(text)) <= perfect,
        line_shape(content_lines(text)[score_line(content_lines(text))]) is PerfectScore,
        parsed_score(text) == shape_score(
            line_shape(content_lines(text)[score_line(content_lines(text))]),
        ),
        parsed_score(text) is Ok ==> parsed_score(text)->Ok_0.precision
            == AkariPrecisionScore::Perfect,
{
    let lines = content_lines(text);
    lemma_score_line_exists(lines, perfect);
}

/// The digits of `text`, where it is a number.
fn number_chars(text: &str) -> (r: Option<Vec<char>>)
    ensures
        match r {
            Some(v) => v@ == text@ && is_number(text@),
            None => !is_number(text@),
        },
{
    let v = to_chars(text);
    let end = skip_digits(&v, 0);
    if v.len() > 0 && end == v.len() {
        Some(v)
    } else {
        None
    }
}

/// The time of a score that the digits of minutes and seconds stand for.
fn time_of(minutes: &str, seconds: &str) -> (r: Option<i64>)
    ensures
        r == score_time(minutes@, seconds@),
{
    let m = match number_chars(minutes) {
        Some(m) => m,
        None => {
            return None;
        },
    };
    let s = match number_chars(seconds) {
        Some(s) => s,
        None => {
            return None;
        },
    };
    proof {
        assert(m@.subrange(0, m@.len() as int) =~= m@);
        assert(s@.subrange(0, s@.len() as int) =~= s@);
    }
    match read_time_parts(&m, 0, m.len(), &s, 0, s.len()) {
        Some(t) => {
            if t <= 0x7fff_ffff_ffff_ffff {
                Some(t as i64)
            } else {
                None
            }
        },
        None => None,
    }
}

/// The percentage that the digits stand for, where it is at most 100.
fn percentage_of(percentage: &str) -> (r: Option<i64>)
    ensures
        r == if is_number(percentage@) && decimal_value(percentage@) <= 100 {
            Some(decimal_value(percentage@) as i64)
        } else {
            None
        },
{
    let p = match number_chars(percentage) {
        Some(p) => p,
        None => {
            return None;
        },
    };
    proof {
        assert(p@.subrange(0, p@.len() as int) =~= p@);
    }
    match read_decimal(&p, 0, p.len()) {
        Some(n) => {
            if n <= 100 {
                Some(n as i64)
            } else {
                None
            }
        },
        None => None,
    }
}

/// The score that a classified line states.
///
/// A perfect-score line gives `Perfect`, an imperfect-score line its
/// percentage, a plain-completion line `NotAvailable`, each with the time in
/// seconds. The line is refused where it carries no score, where a field is
/// no number, where the seconds are 60 or more, where the percentage exceeds
/// 100, and where the time exceeds `i64::MAX`.
pub fn score_of_line(kind: &LineKind) -> (r: Result<AkariScore, AkariParserError>)
    ensures
        r == shape_score(kind@),
        r is Ok ==> r->Ok_0.wf(),
{
    match kind {
        LineKind::PerfectScore { minutes, seconds } => {
            match time_of(minutes.as_str(), seconds.as_str()) {
                Some(time_sec) => Ok(
                    AkariScore { precision: AkariPrecisionScore::Perfect, time_sec },
                ),
                None => Err(AkariParserError::InvalidScoreFormat),
            }
        },
        LineKind::ImperfectScore { percentage, minutes, seconds } => {
            let time = time_of(minutes.as_str(), seconds.as_str());
            match (percentage_of(percentage.as_str()), time) {
                (Some(p), Some(time_sec)) => Ok(
                    AkariScore {
                        precision: AkariPrecisionScore::ImperfectWithPercentage(p),
                        time_sec,
                    },
                ),
                _ => Err(AkariParserError::InvalidScoreFormat),
            }
        },
        LineKind::NormalScore { minutes, seconds } => {
            match time_of(minutes.as_str(), seconds.as_str()) {
                Some(time_sec) => Ok(
                    AkariScore { precision: AkariPrecisionScore::NotAvailable, time_sec },
                ),
                None => Err(AkariParserError::InvalidScoreFormat),
            }
        },
        _ => Err(AkariParserError::InvalidScoreFormat),
    }
}

/// The rank of a classified line.
fn kind_rank(kind: &LineKind) -> (r: u8)
    ensures
        r == rank(kind@),
{
    match kind {
        LineKind::PerfectScore { .. } => 0,
        LineKind::ImperfectScore { .. } => 1,
        LineKind::NormalScore { .. } => 2,
        _ => 3,
    }
}

/// Whether a classified line is a header.
fn kind_is_header(kind: &LineKind) -> (r: bool)
    ensures
        r == (kind@ is Header),
{
    match kind {
        LineKind::Header => true,
        _ => false,
    }
}

/// Parses a shared Daily Akari result into its score.
///
/// The text is split into lines; each is trimmed, and lines without content
/// are dropped. One line must be the header, else the text is refused with
/// `ScoreNotFound`. The score is that of the first perfect-score line if
/// there is one, else of the first imperfect-score line, else of the first
/// plain-completion line; without any the text is refused with
/// `InvalidScoreFormat`, as it is where the numbers of that line are out of
/// range. A date line is not read.
pub fn parse_akari_shared_score(shared_score: &str) -> (r: Result<AkariScore, AkariParserError>)
    ensures
        r == parsed_score(shared_score@),
        r is Ok ==> r->Ok_0.wf(),
{
    let chars = to_chars(shared_score);
    let lines = split_content_lines(&chars);
    let ghost ls = content_lines(shared_score@);
    let mut header: bool = false;
    let mut best: Option<LineKind> = None;
    let ghost mut at: int = 0;
    let mut i: usize = 0;
    while i < lines.len()
        invariant
            i <= lines.len(),
            ls == line_views(lines@),
            header == exists|j: int| 0 <= j < i && #[trigger] line_shape(ls[j]) is Header,
            match best {
                Some(kind) => {
                    &&& 0 <= at < i
                    &&& kind@ == line_shape(ls[at])
                    &&& rank(kind@) < 3
                    &&& forall|j: int|
                        0 <= j < i ==> {
                            ||| rank(#[trigger] line_shape(ls[j])) > rank(kind@)
                            ||| rank(line_shape(ls[j])) == rank(kind@) && j >= at
                        }
                },
                None => forall|j: int| 0 <= j < i ==> rank(#[trigger] line_shape(ls[j])) == 3,
            },
        decreases lines.len() - i,
    {
        let kind = classify_chars(&lines[i]);
        assert(kind@ == line_shape(ls[i as int]));
        if kind_is_header(&kind) {
            header = true;
        }
        let r = kind_rank(&kind);
        let better = match &best {
            Some(held) => r < kind_rank(held),
            None => r < 3,
        };
        if better {
            best = Some(kind);
            proof {
                at = i as int;
            }
        }
        i = i + 1;
    }
    if !header {
        return Err(AkariParserError::ScoreNotFound);
    }
    assert(has_header(ls));
    match best {
        Some(kind) => {
            proof {
                assert(is_score_line(ls, at));
                lemma_score_line_unique(ls, at, score_line(ls));
            }
            score_of_line(&kind)
        },
        None => {
            proof {
                assert forall|j: int| !is_score_line(ls, j) by {}
            }
            Err(AkariParserError::InvalidScoreFormat)
        },
    }
}

} // verus!
