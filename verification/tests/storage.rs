use akari_score::errors::AkariParserError;
use akari_score::models::{AkariPrecisionScore, AkariScore};
use akari_score::storage::{keyed_score, scores_by_user, NewScore, Score};

fn stored(row: NewScore) -> Score {
    Score {
        user_id: row.user_id,
        has_precision: row.has_precision,
        is_perfect: row.is_perfect,
        precision_percentage: row.precision_percentage,
        time_sec: row.time_sec,
    }
}

#[test]
fn row_of_a_perfect_score() {
    let score = AkariScore { precision: AkariPrecisionScore::Perfect, time_sec: 80 };
    let row = NewScore::from_score("u1".to_string(), &score);
    assert_eq!(
        row,
        NewScore {
            user_id: "u1".to_string(),
            has_precision: true,
            is_perfect: true,
            precision_percentage: 100,
            time_sec: 80,
        }
    );
}

#[test]
fn row_of_an_imperfect_score() {
    let score = AkariScore { precision: AkariPrecisionScore::ImperfectWithPercentage(64), time_sec: 150 };
    let row = NewScore::from_score("u2".to_string(), &score);
    assert_eq!(
        row,
        NewScore {
            user_id: "u2".to_string(),
            has_precision: true,
            is_perfect: false,
            precision_percentage: 64,
            time_sec: 150,
        }
    );
}

#[test]
fn row_of_a_score_without_precision() {
    let score = AkariScore { precision: AkariPrecisionScore::NotAvailable, time_sec: 1304 };
    let row = NewScore::from_score("u3".to_string(), &score);
    assert_eq!(
        row,
        NewScore {
            user_id: "u3".to_string(),
            has_precision: false,
            is_perfect: false,
            precision_percentage: 0,
            time_sec: 1304,
        }
    );
}

#[test]
fn score_of_a_row() {
    let row = Score {
        user_id: "u".to_string(),
        has_precision: false,
        is_perfect: true,
        precision_percentage: 55,
        time_sec: 7,
    };
    assert_eq!(row.to_score(), AkariScore { precision: AkariPrecisionScore::NotAvailable, time_sec: 7 });
    let row = Score {
        user_id: "u".to_string(),
        has_precision: true,
        is_perfect: true,
        precision_percentage: 55,
        time_sec: 7,
    };
    assert_eq!(row.to_score(), AkariScore { precision: AkariPrecisionScore::Perfect, time_sec: 7 });
    let row = Score {
        user_id: "u".to_string(),
        has_precision: true,
        is_perfect: false,
        precision_percentage: 55,
        time_sec: 7,
    };
    assert_eq!(
        row.to_score(),
        AkariScore { precision: AkariPrecisionScore::ImperfectWithPercentage(55), time_sec: 7 }
    );
}

#[test]
fn stored_score_reads_back() {
    for precision in [
        AkariPrecisionScore::Perfect,
        AkariPrecisionScore::ImperfectWithPercentage(0),
        AkariPrecisionScore::ImperfectWithPercentage(64),
        AkariPrecisionScore::ImperfectWithPercentage(100),
        AkariPrecisionScore::NotAvailable,
    ] {
        let score = AkariScore { precision, time_sec: 1304 };
        assert_eq!(stored(NewScore::from_score("u".to_string(), &score)).to_score(), score);
    }
}

#[test]
fn error_messages() {
    assert_eq!(AkariParserError::ScoreNotFound.message(), "Daily Akari Score not found");
    assert_eq!(AkariParserError::InvalidDateFormat.message(), "Invalid date format");
    assert_eq!(AkariParserError::InvalidScoreFormat.message(), "Invalid score format");
    assert_eq!(
        AkariParserError::InternalError("lost".to_string()).message(),
        "Internal error: lost"
    );
}

fn row(user_id: &str, has_precision: bool, is_perfect: bool, percentage: i64, time_sec: i64) -> Score {
    Score {
        user_id: user_id.to_string(),
        has_precision,
        is_perfect,
        precision_percentage: percentage,
        time_sec,
    }
}

#[test]
fn row_for_a_user_holds_the_text_of_the_id() {
    let score = AkariScore { precision: AkariPrecisionScore::ImperfectWithPercentage(64), time_sec: 150 };
    let made = NewScore::for_user(0x67e55044_10b1_426f_9247_bb680e5fe0c8, &score);
    assert_eq!(
        made,
        NewScore {
            user_id: "67e55044-10b1-426f-9247-bb680e5fe0c8".to_string(),
            has_precision: true,
            is_perfect: false,
            precision_percentage: 64,
            time_sec: 150,
        }
    );
    assert_eq!(
        NewScore::for_user(0, &score).user_id,
        "00000000-0000-0000-0000-000000000000"
    );
}

#[test]
fn scores_by_user_reads_every_row() {
    let rows = vec![
        row("67e55044-10b1-426f-9247-bb680e5fe0c8", true, true, 100, 80),
        row("00000000-0000-0000-0000-000000000001", true, false, 64, 150),
        row("00000000000000000000000000000002", false, false, 0, 1304),
    ];
    let scores = scores_by_user(&rows).unwrap();
    assert_eq!(scores.len(), 3);
    assert_eq!(
        scores.get(&0x67e55044_10b1_426f_9247_bb680e5fe0c8),
        Some(&AkariScore { precision: AkariPrecisionScore::Perfect, time_sec: 80 })
    );
    assert_eq!(
        scores.get(&1),
        Some(&AkariScore { precision: AkariPrecisionScore::ImperfectWithPercentage(64), time_sec: 150 })
    );
    assert_eq!(
        scores.get(&2),
        Some(&AkariScore { precision: AkariPrecisionScore::NotAvailable, time_sec: 1304 })
    );
    assert_eq!(scores_by_user(&Vec::new()).unwrap().len(), 0);
}

#[test]
fn scores_by_user_keeps_the_later_row_of_a_user() {
    let rows = vec![
        row("00000000-0000-0000-0000-000000000001", true, true, 100, 80),
        row("00000000-0000-0000-0000-000000000002", false, false, 0, 7),
        row("00000000-0000-0000-0000-000000000001", true, false, 64, 150),
    ];
    let scores = scores_by_user(&rows).unwrap();
    assert_eq!(scores.len(), 2);
    assert_eq!(
        scores.get(&1),
        Some(&AkariScore { precision: AkariPrecisionScore::ImperfectWithPercentage(64), time_sec: 150 })
    );
}

#[test]
fn scores_by_user_refuses_an_unreadable_id() {
    let rows = vec![
        row("00000000-0000-0000-0000-000000000001", true, true, 100, 80),
        row("not an id", false, false, 0, 7),
    ];
    assert_eq!(
        scores_by_user(&rows),
        Err(AkariParserError::InternalError("Failed to parse user_id from score".to_string()))
    );
}

#[test]
fn keyed_score_by_what_was_read() {
    let stored = row("anything", true, false, 64, 150);
    assert_eq!(
        keyed_score(Some(9), &stored),
        Ok((9, AkariScore { precision: AkariPrecisionScore::ImperfectWithPercentage(64), time_sec: 150 }))
    );
    assert_eq!(
        keyed_score(None, &stored),
        Err(AkariParserError::InternalError("Failed to parse user_id from score".to_string()))
    );
}
