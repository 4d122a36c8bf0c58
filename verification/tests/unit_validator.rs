use sensitive_info_extractor::Validator;

#[test]
fn test_validate_id_card() {
    assert!(Validator::validate_id_card("110105199003072039"));

    assert!(!Validator::validate_id_card("11010519900307"));
    assert!(!Validator::validate_id_card("110105199013072039"));
    assert!(!Validator::validate_id_card("110105199003322039"));
    assert!(!Validator::validate_id_card("11010519900307203Y"));
    assert!(!Validator::validate_id_card("11010519900307203X"));
}

#[test]
fn test_validate_bank_card() {
    assert!(Validator::validate_bank_card("4111111111111111"));
    assert!(Validator::validate_bank_card("5500000000000004"));
    assert!(Validator::validate_bank_card("4111 1111 1111 1111"));

    assert!(!Validator::validate_bank_card("6225880123456780"));
    assert!(!Validator::validate_bank_card("622588012345678"));
    assert!(!Validator::validate_bank_card("62258801234567890123"));
}

#[test]
fn test_validate_phone() {
    assert!(Validator::validate_phone("13812345678"));
    assert!(Validator::validate_phone("138-1234-5678"));
    assert!(Validator::validate_phone("15912345678"));
    assert!(Validator::validate_phone("18612345678"));

    assert!(!Validator::validate_phone("12812345678"));
    assert!(!Validator::validate_phone("12345678"));
    assert!(!Validator::validate_phone("23812345678"));
}

#[test]
fn test_luhn_check() {
    assert!(Validator::luhn_check("79927398713"));
    assert!(Validator::luhn_check("4111111111111111"));
    assert!(!Validator::luhn_check("79927398710"));
}

#[test]
fn test_days_in_month() {
    assert_eq!(Validator::days_in_month(2020, 1), 31);
    assert_eq!(Validator::days_in_month(2020, 2), 29);
    assert_eq!(Validator::days_in_month(2021, 2), 28);
    assert_eq!(Validator::days_in_month(2020, 4), 30);
}
