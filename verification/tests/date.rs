use akari_score::date::{
    check_date_is_today, is_date_line, month_str_to_number, Month, ReferenceDate,
};
use akari_score::errors::AkariParserError;

#[test]
fn test_month_str_to_number() {
    assert_eq!(month_str_to_number("Jan").unwrap(), Month::January);
    assert!(month_str_to_number("Invalid").is_err());
}

#[test]
fn month_names_and_numbers() {
    let names = ["Jan", "Feb", "Mar", "Apr", "May", "Jun", "Jul", "Aug", "Sep", "Oct", "Nov", "Dec"];
    for (index, name) in names.iter().enumerate() {
        let month = month_str_to_number(name).unwrap();
        assert_eq!(month.number_from_month(), index as u32 + 1);
    }
    for name in ["", "jan", "JAN", "January", "Ja", "Jan ", "Foo"] {
        assert_eq!(month_str_to_number(name), Err(AkariParserError::InvalidDateFormat));
    }
}

#[test]
fn test_check_date_is_today_same_day() {
    let today = ReferenceDate::from_ymd_opt(2024, 1, 1).unwrap();
    assert_eq!(check_date_is_today("Mon Jan 1, 2024", today).unwrap(), true);
}

#[test]
fn test_check_date_is_today_leap_day() {
    let today = ReferenceDate::from_ymd_opt(2024, 2, 29).unwrap();
    assert_eq!(check_date_is_today("Tue Feb 29, 2024", today).unwrap(), true);
}

#[test]
fn test_check_date_is_today_one_day_off() {
    let today = ReferenceDate::from_ymd_opt(2023, 3, 16).unwrap();
    assert_eq!(check_date_is_today("Wed Mar 15, 2023", today).unwrap(), false);
}

#[test]
fn test_check_date_is_today_no_such_day() {
    let today = ReferenceDate::from_ymd_opt(2023, 3, 16).unwrap();
    assert_eq!(
        check_date_is_today("Wed Mar 50, 2023", today),
        Err(AkariParserError::InvalidDateFormat)
    );
}

#[test]
fn check_date_differs_in_one_field() {
    let line = "Tue Jul 29, 2025";
    assert_eq!(check_date_is_today(line, ReferenceDate { year: 2025, month: 7, day: 29 }), Ok(true));
    assert_eq!(check_date_is_today(line, ReferenceDate { year: 2025, month: 7, day: 30 }), Ok(false));
    assert_eq!(check_date_is_today(line, ReferenceDate { year: 2025, month: 7, day: 28 }), Ok(false));
    assert_eq!(check_date_is_today(line, ReferenceDate { year: 2025, month: 8, day: 29 }), Ok(false));
    assert_eq!(check_date_is_today(line, ReferenceDate { year: 2024, month: 7, day: 29 }), Ok(false));
}

#[test]
fn check_date_refuses_days_the_calendar_lacks() {
    let today = ReferenceDate { year: 2023, month: 2, day: 28 };
    for line in ["Feb 30, 2024", "Feb 29, 2023", "Apr 31, 2023", "Jan 0, 2023", "Jan 00, 2023", "Feb 29, 1900", "Dec 32, 2023"] {
        assert_eq!(check_date_is_today(line, today), Err(AkariParserError::InvalidDateFormat), "{}", line);
    }
    assert_eq!(
        check_date_is_today("Feb 29, 2000", ReferenceDate { year: 2000, month: 2, day: 29 }),
        Ok(true)
    );
    assert_eq!(
        check_date_is_today("Jan 01, 0000", ReferenceDate { year: 0, month: 1, day: 1 }),
        Ok(true)
    );
}

#[test]
fn check_date_refuses_other_lines() {
    let today = ReferenceDate { year: 2024, month: 1, day: 1 };
    for line in ["", "Daily Akari \u{1F60A}", "Mon Foo 1, 2024", "Mon jan 1, 2024", "Mon Jan 1 2024", "Mon Jan 1, 24", "Mon Jan 1, 2024 ", "Jan 123, 2024", "Mon Jan 1,2024", "Mon Jan1, 2024", "Mon Jan 1, 20245"] {
        assert_eq!(check_date_is_today(line, today), Err(AkariParserError::InvalidDateFormat), "{:?}", line);
    }
}

#[test]
fn check_date_reads_a_wrapped_line() {
    let today = ReferenceDate { year: 2025, month: 7, day: 29 };
    assert_eq!(check_date_is_today("\u{2705}Tue Jul 29, 2025\u{2705}", today), Ok(true));
    assert_eq!(check_date_is_today("   Tue  Jul \t29,  2025", today), Ok(true));
    assert_eq!(check_date_is_today("xJul 29, 2025", today), Ok(true));
    assert_eq!(
        check_date_is_today("Tue Jul 29, 2025\u{2705}", today),
        Err(AkariParserError::InvalidDateFormat)
    );
}

#[test]
fn date_lines() {
    for line in ["Mon Jan 1, 2024", "Jan 1, 2024", "Tue Jul 29, 2025", "\u{2705}Tue Jul 29, 2025\u{2705}", "Foo 99, 0000", "anything at all Abc 1, 1234", "June 1, 2024"] {
        assert!(is_date_line(line), "{:?}", line);
    }
    for line in ["", "2024", "Jan 1, 2024.", "Jan 1, 2024 ", "Ja 1, 2024", "Jan , 2024", "Jan 1, 202", "Jan 1; 2024", "\u{2705}Solved in 21:44\u{2705}", "\u{1F31F} Perfect! \u{1F553} 1:20", "J4n 1, 2024", "Jan 1, 2024\u{2705}"] {
        assert!(!is_date_line(line), "{:?}", line);
    }
}

#[test]
fn reference_date_is_made_for_days_of_the_calendar() {
    assert_eq!(ReferenceDate::from_ymd_opt(2024, 2, 29), Some(ReferenceDate { year: 2024, month: 2, day: 29 }));
    assert_eq!(ReferenceDate::from_ymd_opt(2023, 2, 29), None);
    assert_eq!(ReferenceDate::from_ymd_opt(2023, 2, 30), None);
    assert_eq!(ReferenceDate::from_ymd_opt(1900, 2, 29), None);
    assert_eq!(ReferenceDate::from_ymd_opt(2000, 2, 29), Some(ReferenceDate { year: 2000, month: 2, day: 29 }));
    assert_eq!(ReferenceDate::from_ymd_opt(-4, 2, 29), Some(ReferenceDate { year: -4, month: 2, day: 29 }));
    assert_eq!(ReferenceDate::from_ymd_opt(2015, 0, 14), None);
    assert_eq!(ReferenceDate::from_ymd_opt(2015, 13, 14), None);
    assert_eq!(ReferenceDate::from_ymd_opt(2015, 3, 0), None);
    assert_eq!(ReferenceDate::from_ymd_opt(2015, 4, 31), None);
    assert_eq!(ReferenceDate::from_ymd_opt(2015, 12, 31), Some(ReferenceDate { year: 2015, month: 12, day: 31 }));
    assert_eq!(ReferenceDate::from_ymd_opt(262142, 12, 31), Some(ReferenceDate { year: 262142, month: 12, day: 31 }));
    assert_eq!(ReferenceDate::from_ymd_opt(262143, 1, 1), None);
    assert_eq!(ReferenceDate::from_ymd_opt(-262143, 1, 1), Some(ReferenceDate { year: -262143, month: 1, day: 1 }));
    assert_eq!(ReferenceDate::from_ymd_opt(-262144, 12, 31), None);
    assert_eq!(ReferenceDate::from_ymd_opt(400000, 1, 1), None);
}
