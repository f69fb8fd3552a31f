//! The rows in which scores are kept, one for each user.

use std::collections::HashMap;
use vstd::prelude::*;
use vstd::string::StringExecFns;
use crate::errors::AkariParserError;
use crate::models::{AkariPrecisionScore, AkariScore};

verus! {

/// A score to be stored for a user.
#[derive(Debug, PartialEq, Eq)]
pub struct NewScore {
    pub user_id: String,
    pub has_precision: bool,
    pub is_perfect: bool,
    pub precision_percentage: i64,
    pub time_sec: i64,
}

/// A score as it is stored for a user.
#[derive(Debug, PartialEq, Eq)]
pub struct Score {
    pub user_id: String,
    pub has_precision: bool,
    pub is_perfect: bool,
    pub precision_percentage: i64,
    pub time_sec: i64,
}

/// The percentage that is stored for a precision: 100 for a perfect solve,
/// 0 where none is known.
pub open spec fn stored_percentage(precision: AkariPrecisionScore) -> i64 {
    match precision {
        AkariPrecisionScore::Perfect => 100,
        AkariPrecisionScore::ImperfectWithPercentage(p) => p,
        AkariPrecisionScore::NotAvailable => 0,
    }
}

/// The precision that a row stands for.
pub open spec fn row_precision(
    has_precision: bool,
    is_perfect: bool,
    precision_percentage: i64,
) -> AkariPrecisionScore {
    if has_precision {
        if is_perfect {
            AkariPrecisionScore::Perfect
        } else {
            AkariPrecisionScore::ImperfectWithPercentage(precision_percentage)
        }
    } else {
        AkariPrecisionScore::NotAvailable
    }
}

/// The text that `uuid::Uuid` writes for the user id with the number `id`.
pub uninterp spec fn user_id_text(id: u128) -> Seq<char>;

/// The number of the user id that `uuid::Uuid::parse_str` reads from `text`:
/// none where it refuses the text.
pub uninterp spec fn parsed_user_id(text: Seq<char>) -> Option<u128>;

/// Makes the `uuid::Uuid` with the number `id` and writes it with its
/// `to_string`. Not proved: that the text is the one named `user_id_text`,
/// that is, that it depends on the number alone.
#[verifier::external_body]
fn write_user_id(id: u128) -> (r: String)
    ensures
        r@ == user_id_text(id),
{
    uuid::Uuid::from_u128(id).to_string()
}

/// Calls `uuid::Uuid::parse_str` and gives the number of the id it read.
/// Not proved: that the outcome is the one named `parsed_user_id`, that is,
/// that it depends on the text alone.
#[verifier::external_body]
fn parse_user_id(text: &str) -> (r: Option<u128>)
    ensures
        r == parsed_user_id(text@),
{
    match uuid::Uuid::parse_str(text) {
        Ok(id) => Some(id.as_u128()),
        Err(_) => None,
    }
}

impl NewScore {
    /// The row that stores `score` for the user whose id is written in
    /// `user_id`.
    pub fn from_score(user_id: String, score: &AkariScore) -> (row: NewScore)
        ensures
            row.user_id == user_id,
            row.has_precision == !(score.precision is NotAvailable),
            row.is_perfect == (score.precision is Perfect),
            row.precision_percentage == stored_percentage(score.precision),
            row.time_sec == score.time_sec,
    {
        let has_precision = match score.precision {
            AkariPrecisionScore::Perfect => true,
            AkariPrecisionScore::ImperfectWithPercentage(_) => true,
            AkariPrecisionScore::NotAvailable => false,
        };
        let is_perfect = match score.precision {
            AkariPrecisionScore::Perfect => true,
            _ => false,
        };
        let precision_percentage = match score.precision {
            AkariPrecisionScore::Perfect => 100,
            AkariPrecisionScore::ImperfectWithPercentage(p) => p,
            AkariPrecisionScore::NotAvailable => 0,
        };
        NewScore { user_id, has_precision, is_perfect, precision_percentage, time_sec: score.time_sec }
    }

    /// The row that stores `score` for the user with the id number
    /// `user_id`: the row of the score, under the text of that id.
    pub fn for_user(user_id: u128, score: &AkariScore) -> (row: NewScore)
        ensures
            row.user_id@ == user_id_text(user_id),
            row.has_precision == !(score.precision is NotAvailable),
            row.is_perfect == (score.precision is Perfect),
            row.precision_percentage == stored_percentage(score.precision),
            row.time_sec == score.time_sec,
    {
        NewScore::from_score(write_user_id(user_id), score)
    }
}

impl Score {
    /// The score that this row stands for.
    pub open spec fn score(self) -> AkariScore {
        AkariScore {
            precision: row_precision(
                self.has_precision,
                self.is_perfect,
                self.precision_percentage,
            ),
            time_sec: self.time_sec,
        }
    }

    /// The score that this row stands for.
    pub fn to_score(&self) -> (score: AkariScore)
        ensures
            score == self.score(),
    {
        let precision = if self.has_precision {
            if self.is_perfect {
                AkariPrecisionScore::Perfect
            } else {
                AkariPrecisionScore::ImperfectWithPercentage(self.precision_percentage)
            }
        } else {
            AkariPrecisionScore::NotAvailable
        };
        AkariScore { precision, time_sec: self.time_sec }
    }
}

/// What is said of a row whose user id cannot be read.
pub open spec fn unreadable_user_id() -> Seq<char> {
    "Failed to parse user_id from score"@
}

/// The scores that stored rows stand for, by the id number of the user. A
/// later row of a user takes the place of an earlier one. None where the id
/// of a row cannot be read.
pub open spec fn stored_scores(rows: Seq<Score>) -> Option<Map<u128, AkariScore>>
    decreases rows.len(),
{
    if rows.len() == 0 {
        Some(Map::empty())
    } else {
        match (stored_scores(rows.drop_last()), parsed_user_id(rows.last().user_id@)) {
            (Some(scores), Some(id)) => Some(scores.insert(id, rows.last().score())),
            _ => None,
        }
    }
}

/// The entry of a stored row, given what was read of its user id: the id
/// number and the score of the row. A row whose id could not be read is
/// refused with an internal error.
pub fn keyed_score(id: Option<u128>, row: &Score) -> (r: Result<(u128, AkariScore), AkariParserError>)
    ensures
        match id {
            Some(id) => r == Ok::<(u128, AkariScore), AkariParserError>((id, row.score())),
            None => r is Err && r->Err_0 is InternalError && r->Err_0->InternalError_0@
                == unreadable_user_id(),
        },
{
    match id {
        Some(id) => Ok((id, row.to_score())),
        None => Err(
            AkariParserError::InternalError(String::from_str("Failed to parse user_id from score")),
        ),
    }
}

/// The scores that stored rows stand for, by the id number of the user.
///
/// A later row of a user takes the place of an earlier one. Where the user
/// id of a row cannot be read, the rows are refused with an internal error.
pub fn scores_by_user(rows: &Vec<Score>) -> (r: Result<HashMap<u128, AkariScore>, AkariParserError>)
    ensures
        match stored_scores(rows@) {
            Some(scores) => r is Ok && r->Ok_0@ == scores,
            None => r is Err && r->Err_0 is InternalError && r->Err_0->InternalError_0@
                == unreadable_user_id(),
        },
{
    broadcast use vstd::std_specs::hash::group_hash_axioms;

    let mut scores: HashMap<u128, AkariScore> = HashMap::new();
    let mut i: usize = 0;
    while i < rows.len()
        invariant
            i <= rows.len(),
            stored_scores(rows@.take(i as int)) == Some(scores@),
        decreases rows.len() - i,
    {
        let row = &rows[i];
        let id = parse_user_id(row.user_id.as_str());
        proof {
            assert(rows@.take(i + 1).drop_last() =~= rows@.take(i as int));
            assert(rows@.take(i + 1).last() == rows@[i as int]);
            if id is None {
                lemma_unreadable_row(rows@, i + 1);
            }
        }
        match keyed_score(id, row) {
            Ok((id, score)) => {
                scores.insert(id, score);
            },
            Err(refusal) => {
                return Err(refusal);
            },
        }
        i = i + 1;
    }
    proof {
        assert(rows@.take(rows@.len() as int) =~= rows@);
    }
    Ok(scores)
}

/// Rows that start with rows that cannot be read cannot be read.
pub proof fn lemma_unreadable_row(rows: Seq<Score>, n: int)
    requires
        0 <= n <= rows.len(),
        stored_scores(rows.take(n)) is None,
    ensures
        stored_scores(rows) is None,
    decreases rows.len() - n,
{
    if n < rows.len() {
        assert(rows.drop_last().take(n) =~= rows.take(n));
        lemma_unreadable_row(rows.drop_last(), n);
    } else {
        assert(rows.take(n) =~= rows);
    }
}

/// A score that is stored and read again is the same score: a stored row
/// with the fields of the row made from a score stands for that score.
pub proof fn lemma_stored_score_reads_back(score: AkariScore, made: NewScore, stored: Score)
    requires
        made.has_precision == !(score.precision is NotAvailable),
        made.is_perfect == (score.precision is Perfect),
        made.precision_percentage == stored_percentage(score.precision),
        made.time_sec == score.time_sec,
        stored.has_precision == made.has_precision,
        stored.is_perfect == made.is_perfect,
        stored.precision_percentage == made.precision_percentage,
        stored.time_sec == made.time_sec,
    ensures
        stored.score() == score,
{
}

} // verus!
