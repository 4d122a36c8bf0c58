use sensitive_info_extractor::{clean_digits, extract_bank_cards, extract_id_cards, extract_phones};

#[test]
fn phone() {
    assert!(!extract_phones("13812345678").is_empty());
    assert!(!extract_phones("+86 138 1234 5678").is_empty());
    assert!(extract_phones("12812345678").is_empty());
}

#[test]
fn phone_chinese() {
    let r = extract_phones("联系13812345678请拨打");
    assert_eq!(r[0].0, "13812345678");
}

#[test]
fn id_card() {
    assert!(!extract_id_cards("11010519900307888X").is_empty());
    assert!(extract_id_cards("11010519901307888X").is_empty());
}

#[test]
fn id_card_chinese() {
    let r = extract_id_cards("身份证11010519900307888X核实");
    assert_eq!(r[0].0, "11010519900307888X");
}

#[test]
fn bank_card() {
    assert!(!extract_bank_cards("6225880123456789").is_empty());
    assert!(!extract_bank_cards("6225 8801 2345 6789").is_empty());
    assert!(extract_bank_cards("622588012345").is_empty());
}

#[test]
fn bank_card_chinese() {
    let r = extract_bank_cards("卡号6225880123456789绑定");
    assert_eq!(r[0].0, "6225880123456789");
}

#[test]
fn clean() {
    assert_eq!(clean_digits("138-1234-5678"), "13812345678");
    assert_eq!(clean_digits("6225 8801 2345 6789"), "6225880123456789");
}

#[test]
fn clean_empty_and_mixed() {
    assert_eq!(clean_digits(""), "");
    assert_eq!(clean_digits("电话：138"), "138");
}

#[test]
fn phone_offsets_are_byte_offsets() {
    let text = "联系13812345678请拨打";
    let r = extract_phones(text);
    assert_eq!(r.len(), 1);
    let (value, start, end) = (&r[0].0, r[0].1, r[0].2);
    assert_eq!(&text[start..end], value);
    assert_eq!(start, "联系".len());
}

#[test]
fn phone_not_inside_longer_digit_run() {
    assert!(extract_phones("1381234567890").is_empty());
    assert!(extract_phones("913812345678").is_empty());
}

#[test]
fn multiple_phones_in_order() {
    let r = extract_phones("甲13812345678乙15912345678丙");
    assert_eq!(r.len(), 2);
    assert_eq!(r[0].0, "13812345678");
    assert_eq!(r[1].0, "15912345678");
    assert!(r[0].2 <= r[1].1);
}

#[test]
fn bank_card_trailing_digits() {
    // The shape overmatches up to nineteen digits; twenty digits in a row
    // leave no bounded reading at all.
    let r = extract_bank_cards("卡6225880123456789012核对");
    assert_eq!(r.len(), 1);
    assert_eq!(r[0].0, "6225880123456789012");
    assert!(extract_bank_cards("62258801234567890123").is_empty());
}

#[test]
fn bank_card_before_separated_digit_run() {
    // A separator then another long digit run bounds the bare core, so the
    // leftmost card stays reported, and the second one follows it.
    let r = extract_bank_cards("4111111111111111 4111111111111111");
    assert_eq!(r.len(), 2);
    assert_eq!(r[0].0, "4111111111111111");
    assert_eq!((r[0].1, r[0].2), (0, 16));
    assert_eq!((r[1].1, r[1].2), (17, 33));
}

#[test]
fn id_card_needs_clean_right_boundary() {
    // A check-character-like neighbour on the right blocks the match.
    assert!(extract_id_cards("11010519900307888XX").is_empty());
    assert!(!extract_id_cards("11010519900307888X完").is_empty());
}
