use akari_score::errors::AkariParserError;
use akari_score::time::{decode_time, encode_time};

#[test]
fn decode_exact_values() {
    assert_eq!(decode_time("21:44"), Ok(1304));
    assert_eq!(decode_time("2:30"), Ok(150));
    assert_eq!(decode_time("1:20"), Ok(80));
    assert_eq!(decode_time("0:00"), Ok(0));
    assert_eq!(decode_time("1:5"), Ok(65));
    assert_eq!(decode_time("007:059"), Ok(479));
    assert_eq!(decode_time("100:00"), Ok(6000));
}

#[test]
fn decode_rejects_seconds_of_sixty_or_more() {
    assert_eq!(decode_time("1:60"), Err(AkariParserError::InvalidScoreFormat));
    assert_eq!(decode_time("0:99"), Err(AkariParserError::InvalidScoreFormat));
    assert_eq!(decode_time("12:100"), Err(AkariParserError::InvalidScoreFormat));
    assert_eq!(
        decode_time("1:99999999999999999999999999"),
        Err(AkariParserError::InvalidScoreFormat)
    );
}

#[test]
fn decode_rejects_other_shapes() {
    for text in ["", "abc", ":30", "1:", "1", " 1:20", "1:20 ", "1:2:3", "1 :20", "-1:20", "1:2a", "\u{0661}:20"] {
        assert_eq!(decode_time(text), Err(AkariParserError::InvalidScoreFormat), "{:?}", text);
    }
}

#[test]
fn decode_at_the_limit() {
    assert_eq!(decode_time("307445734561825860:15"), Ok(u64::MAX));
    assert_eq!(decode_time("307445734561825860:16"), Err(AkariParserError::InvalidScoreFormat));
    assert_eq!(decode_time("307445734561825861:00"), Err(AkariParserError::InvalidScoreFormat));
    assert_eq!(
        decode_time("99999999999999999999999999:00"),
        Err(AkariParserError::InvalidScoreFormat)
    );
}

#[test]
fn encode_exact_values() {
    assert_eq!(encode_time(0), "00:00");
    assert_eq!(encode_time(5), "00:05");
    assert_eq!(encode_time(80), "01:20");
    assert_eq!(encode_time(150), "02:30");
    assert_eq!(encode_time(1304), "21:44");
    assert_eq!(encode_time(6000), "100:00");
    assert_eq!(encode_time(u64::MAX), "307445734561825860:15");
}

#[test]
fn time_round_trip() {
    for minutes in [0u64, 1, 9, 10, 59, 60, 99, 100, 12345, 307445734561825859] {
        for seconds in 0u64..60 {
            let total = minutes * 60 + seconds;
            assert_eq!(decode_time(encode_time(total).as_str()), Ok(total));
        }
    }
    assert_eq!(decode_time(encode_time(u64::MAX).as_str()), Ok(u64::MAX));
}
