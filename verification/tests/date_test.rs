use fp::date::subtract_one_second;

#[test]
fn subtract_one_second_decrements_seconds() {
    assert_eq!(subtract_one_second("2024-01-15 10:30:45 +0000"), Some("2024-01-15 10:30:44 +0000".to_string()));
}

#[test]
fn subtract_one_second_rolls_over_minutes() {
    assert_eq!(subtract_one_second("2024-01-15 10:30:00 +0000"), Some("2024-01-15 10:29:59 +0000".to_string()));
}

#[test]
fn subtract_one_second_returns_none_on_bad_input() {
    assert_eq!(subtract_one_second("not-a-date"), None);
}

#[test]
fn subtract_one_second_rolls_over_hours() {
    assert_eq!(subtract_one_second("2024-01-15 10:00:00 +0200"), Some("2024-01-15 09:59:59 +0200".to_string()));
}

#[test]
fn subtract_one_second_stays_at_midnight() {
    assert_eq!(subtract_one_second("2024-01-15 00:00:00 +0000"), Some("2024-01-15 00:00:00 +0000".to_string()));
}

#[test]
fn unpadded_fields_come_back_one_second_earlier_and_padded() {
    assert_eq!(fp::date::subtract_one_second("2024-1-15 10:30:0 +0000"), Some("2024-01-15 10:29:59 +0000".to_string()));
    assert_eq!(fp::date::subtract_one_second("2024-01-15 10:30:00 +0000"), Some("2024-01-15 10:29:59 +0000".to_string()));
}
