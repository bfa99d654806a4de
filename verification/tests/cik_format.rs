use pudb::cik::{format_cik, CIK_WIDTH};
use pudb::schema::{cik_from_json, CikError, CikJson};
use pudb::sec::facts_path;

#[test]
fn pads_short_cik_to_ten_digits() {
    assert_eq!(format_cik(320193), "0000320193");
    assert_eq!(format_cik(320193).len(), CIK_WIDTH);
}

#[test]
fn pads_zero() {
    assert_eq!(format_cik(0), "0000000000");
}

#[test]
fn ten_digit_cik_is_unchanged() {
    assert_eq!(format_cik(1234567890), "1234567890");
}

#[test]
fn wider_numbers_are_not_cut() {
    assert_eq!(format_cik(12345678901), "12345678901");
    assert_eq!(format_cik(i64::MAX), "9223372036854775807");
}

#[test]
fn negative_numbers_keep_sign_before_zeros() {
    assert_eq!(format_cik(-42), "-000000042");
    assert_eq!(format_cik(i64::MIN), "-9223372036854775808");
    assert_eq!(format_cik(-42), format!("{:010}", -42i64));
}

#[test]
fn matches_std_formatting_on_a_range() {
    for i in [-1_000_000_000i64, -7, 1, 9, 10, 99, 100, 65535, 999_999_999, 9_999_999_999] {
        assert_eq!(format_cik(i), format!("{:010}", i));
    }
}

#[test]
fn cik_number_is_padded() {
    assert_eq!(cik_from_json(CikJson::Number(Some(1750))), Ok("0000001750".to_string()));
}

#[test]
fn cik_string_is_taken_as_is() {
    assert_eq!(cik_from_json(CikJson::Text("0000001750".to_string())), Ok("0000001750".to_string()));
    assert_eq!(cik_from_json(CikJson::Text("abc".to_string())), Ok("abc".to_string()));
}

#[test]
fn cik_non_integer_number_is_refused() {
    assert_eq!(cik_from_json(CikJson::Number(None)), Err(CikError::NotAnInteger));
}

#[test]
fn cik_other_type_is_refused() {
    assert_eq!(cik_from_json(CikJson::Other), Err(CikError::InvalidType));
}

#[test]
fn cik_error_messages() {
    assert_eq!(CikError::NotAnInteger.message(), "ERROR! Unable to parse i32 from JSON");
    assert_eq!(CikError::InvalidType.message(), "ERROR! Invalid type for CIK");
}

#[test]
fn cik_reads_numbers_and_strings_alike() {
    let from_number = cik_from_json(CikJson::Number(Some(320193)));
    let from_text = cik_from_json(CikJson::Text("0000320193".to_string()));
    assert_eq!(from_number, Ok("0000320193".to_string()));
    assert_eq!(from_number, from_text);
}

#[test]
fn facts_path_names_padded_cik() {
    assert_eq!(facts_path(320193), "./data/facts/CIK0000320193.json");
    let cik = cik_from_json(CikJson::Number(Some(320193))).unwrap();
    assert_eq!(facts_path(320193), format!("./data/facts/CIK{}.json", cik));
}
