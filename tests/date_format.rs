use version_control::date::{deserialize, serialize, Date, DateError};

fn date(year: u32, month: u32, day: u32) -> Date {
    Date { year, month, day }
}

#[test]
fn writes_zero_padded_fields() {
    assert_eq!(serialize(&date(2024, 1, 1)), "2024-01-01");
    assert_eq!(serialize(&date(7, 11, 30)), "0007-11-30");
    assert_eq!(serialize(&Date::epoch()), "1970-01-01");
}

#[test]
fn reads_a_valid_date() {
    assert_eq!(deserialize("2024-01-01"), Ok(date(2024, 1, 1)));
    assert_eq!(deserialize("2024-02-29"), Ok(date(2024, 2, 29)));
    assert_eq!(deserialize("2000-02-29"), Ok(date(2000, 2, 29)));
    assert_eq!(deserialize("9999-12-31"), Ok(date(9999, 12, 31)));
}

#[test]
fn rejects_malformed_text() {
    assert_eq!(deserialize(""), Err(DateError::Malformed));
    assert_eq!(deserialize("2024/01/01"), Err(DateError::Malformed));
    assert_eq!(deserialize("24-01-01"), Err(DateError::Malformed));
    assert_eq!(deserialize("2024-1-01"), Err(DateError::Malformed));
    assert_eq!(deserialize("20a4-01-01"), Err(DateError::Malformed));
    assert_eq!(deserialize("2024-01-011"), Err(DateError::Malformed));
    assert_eq!(deserialize("yyyy-MM-dd"), Err(DateError::Malformed));
}

#[test]
fn rejects_days_that_do_not_exist() {
    assert_eq!(deserialize("2023-02-29"), Err(DateError::NoSuchDay));
    assert_eq!(deserialize("1900-02-29"), Err(DateError::NoSuchDay));
    assert_eq!(deserialize("2024-13-01"), Err(DateError::NoSuchDay));
    assert_eq!(deserialize("2024-00-10"), Err(DateError::NoSuchDay));
    assert_eq!(deserialize("2024-04-31"), Err(DateError::NoSuchDay));
    assert_eq!(deserialize("2024-04-00"), Err(DateError::NoSuchDay));
}

#[test]
fn date_text_round_trips() {
    for d in [date(2024, 1, 1), date(1999, 12, 31), date(2024, 2, 29), date(0, 1, 1), date(9999, 6, 15)] {
        assert_eq!(deserialize(&serialize(&d)), Ok(d));
    }
}
