use akari_score::errors::AkariParserError;
use akari_score::models::{AkariPrecisionScore, AkariScore};
use akari_score::parser::{parse_akari_shared_score, score_of_line};
use akari_score::line::LineKind;

#[test]
fn test_parse_akari_shared_score() {
    let testcases = vec![
        (
            "
                    Daily Akari \u{1F60A}
                    Tue Jul 29, 2025
                    \u{2705}Solved in 21:44\u{2705}
                ",
            AkariScore { precision: AkariPrecisionScore::NotAvailable, time_sec: 1304 },
        ),
        (
            "
                    Daily Akari \u{1F60A}
                    \u{2705}Tue Jul 29, 2025\u{2705}
                    \u{1F3AF} 64% \u{1F553} 2:30
                ",
            AkariScore { precision: AkariPrecisionScore::ImperfectWithPercentage(64), time_sec: 150 },
        ),
        (
            "
                    Daily Akari \u{1F60A}
                    \u{2705}Tue Jul 29, 2025\u{2705}
                    \u{1F31F} Perfect! \u{1F553} 1:20
                ",
            AkariScore { precision: AkariPrecisionScore::Perfect, time_sec: 80 },
        ),
    ]
    .into_iter()
    .map(|(input, expected)| {
        (
            input
                .to_string()
                .lines()
                .filter_map(|line| if line.trim().is_empty() { None } else { Some(line.trim()) })
                .collect::<Vec<_>>()
                .join("\n"),
            expected,
        )
    })
    .collect::<Vec<_>>();
    for (input, expected) in testcases {
        let result = parse_akari_shared_score(input.as_str());
        assert_eq!(result.unwrap(), expected);
    }
}

#[test]
fn parse_reads_untrimmed_text() {
    let text = "\n   Daily Akari \u{1F60A}  \r\n\n  Tue Jul 29, 2025\r\n\t\u{2705}Solved in 21:44\u{2705} \n\n";
    assert_eq!(
        parse_akari_shared_score(text),
        Ok(AkariScore { precision: AkariPrecisionScore::NotAvailable, time_sec: 1304 })
    );
}

#[test]
fn parse_without_header_is_not_found() {
    assert_eq!(
        parse_akari_shared_score("just some unrelated text"),
        Err(AkariParserError::ScoreNotFound)
    );
    assert_eq!(parse_akari_shared_score(""), Err(AkariParserError::ScoreNotFound));
    assert_eq!(
        parse_akari_shared_score("Tue Jul 29, 2025\n\u{1F31F} Perfect! \u{1F553} 1:20"),
        Err(AkariParserError::ScoreNotFound)
    );
}

#[test]
fn parse_without_score_line_is_invalid() {
    assert_eq!(
        parse_akari_shared_score("Daily Akari \u{1F60A}\nTue Jul 29, 2025"),
        Err(AkariParserError::InvalidScoreFormat)
    );
    assert_eq!(
        parse_akari_shared_score("Daily Akari \u{1F60A}"),
        Err(AkariParserError::InvalidScoreFormat)
    );
}

#[test]
fn parse_all_on_one_line_has_no_score_line() {
    let text = "Daily Akari \u{1F60A}Tue Jul 29, 2025\u{2705}Solved in 21:44\u{2705}";
    assert_eq!(parse_akari_shared_score(text), Err(AkariParserError::InvalidScoreFormat));
}

#[test]
fn parse_prefers_perfect_over_normal() {
    let text = "Daily Akari \u{1F60A}\n\u{2705}Solved in 21:44\u{2705}\n\u{1F31F} Perfect! \u{1F553} 1:20";
    assert_eq!(
        parse_akari_shared_score(text),
        Ok(AkariScore { precision: AkariPrecisionScore::Perfect, time_sec: 80 })
    );
}

#[test]
fn parse_prefers_perfect_over_imperfect_and_imperfect_over_normal() {
    let text = "\u{1F3AF} 64% \u{1F553} 2:30\n\u{1F31F} Perfect! \u{1F553} 1:20\nDaily Akari \u{1F60A}";
    assert_eq!(
        parse_akari_shared_score(text),
        Ok(AkariScore { precision: AkariPrecisionScore::Perfect, time_sec: 80 })
    );
    let text = "Daily Akari \u{1F60A}\n\u{2705}3:00\u{2705}\n\u{1F3AF} 64% \u{1F553} 2:30";
    assert_eq!(
        parse_akari_shared_score(text),
        Ok(AkariScore { precision: AkariPrecisionScore::ImperfectWithPercentage(64), time_sec: 150 })
    );
}

#[test]
fn parse_takes_first_line_of_a_shape() {
    let text = "Daily Akari \u{1F60A}\n\u{2705}1:01\u{2705}\n\u{2705}2:02\u{2705}";
    assert_eq!(
        parse_akari_shared_score(text),
        Ok(AkariScore { precision: AkariPrecisionScore::NotAvailable, time_sec: 61 })
    );
}

#[test]
fn parse_refuses_numbers_out_of_range() {
    let seconds = "Daily Akari \u{1F60A}\n\u{1F31F} Perfect! \u{1F553} 1:60";
    assert_eq!(parse_akari_shared_score(seconds), Err(AkariParserError::InvalidScoreFormat));
    let percentage = "Daily Akari \u{1F60A}\n\u{1F3AF} 101% \u{1F553} 2:30";
    assert_eq!(parse_akari_shared_score(percentage), Err(AkariParserError::InvalidScoreFormat));
    let minutes = "Daily Akari \u{1F60A}\n\u{2705}999999999999999999999:00\u{2705}";
    assert_eq!(parse_akari_shared_score(minutes), Err(AkariParserError::InvalidScoreFormat));
}

#[test]
fn parse_does_not_fall_back_from_a_bad_perfect_line() {
    let text = "Daily Akari \u{1F60A}\n\u{1F31F} Perfect! \u{1F553} 1:75\n\u{2705}2:02\u{2705}";
    assert_eq!(parse_akari_shared_score(text), Err(AkariParserError::InvalidScoreFormat));
}

#[test]
fn parse_percentage_bounds() {
    let full = "Daily Akari \u{1F60A}\n\u{1F3AF} 100% \u{1F553} 0:00";
    assert_eq!(
        parse_akari_shared_score(full),
        Ok(AkariScore { precision: AkariPrecisionScore::ImperfectWithPercentage(100), time_sec: 0 })
    );
    let none = "Daily Akari \u{1F60A}\n\u{1F3AF} 0% \u{1F553} 0:59";
    assert_eq!(
        parse_akari_shared_score(none),
        Ok(AkariScore { precision: AkariPrecisionScore::ImperfectWithPercentage(0), time_sec: 59 })
    );
}

#[test]
fn parse_time_at_the_limit_of_the_record() {
    let most = "Daily Akari \u{1F60A}\n\u{2705}153722867280912930:07\u{2705}";
    assert_eq!(
        parse_akari_shared_score(most),
        Ok(AkariScore { precision: AkariPrecisionScore::NotAvailable, time_sec: i64::MAX })
    );
    let more = "Daily Akari \u{1F60A}\n\u{2705}153722867280912930:08\u{2705}";
    assert_eq!(parse_akari_shared_score(more), Err(AkariParserError::InvalidScoreFormat));
}

#[test]
fn score_of_line_by_kind() {
    let perfect = LineKind::PerfectScore { minutes: "1".to_string(), seconds: "20".to_string() };
    assert_eq!(
        score_of_line(&perfect),
        Ok(AkariScore { precision: AkariPrecisionScore::Perfect, time_sec: 80 })
    );
    let imperfect = LineKind::ImperfectScore {
        percentage: "64".to_string(),
        minutes: "2".to_string(),
        seconds: "30".to_string(),
    };
    assert_eq!(
        score_of_line(&imperfect),
        Ok(AkariScore { precision: AkariPrecisionScore::ImperfectWithPercentage(64), time_sec: 150 })
    );
    let normal = LineKind::NormalScore { minutes: "21".to_string(), seconds: "44".to_string() };
    assert_eq!(
        score_of_line(&normal),
        Ok(AkariScore { precision: AkariPrecisionScore::NotAvailable, time_sec: 1304 })
    );
    assert_eq!(score_of_line(&LineKind::Header), Err(AkariParserError::InvalidScoreFormat));
    assert_eq!(score_of_line(&LineKind::DateLine), Err(AkariParserError::InvalidScoreFormat));
    assert_eq!(score_of_line(&LineKind::Unrecognized), Err(AkariParserError::InvalidScoreFormat));
    let no_number = LineKind::NormalScore { minutes: "x".to_string(), seconds: "44".to_string() };
    assert_eq!(score_of_line(&no_number), Err(AkariParserError::InvalidScoreFormat));
    let empty = LineKind::PerfectScore { minutes: "".to_string(), seconds: "44".to_string() };
    assert_eq!(score_of_line(&empty), Err(AkariParserError::InvalidScoreFormat));
}
