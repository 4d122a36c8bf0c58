use sensitive_info_extractor::{Config, InfoExtractor};

fn create_extractor() -> InfoExtractor {
    InfoExtractor::new(Config::default())
}

#[test]
fn test_extract_phones() {
    let extractor = create_extractor();
    let text = "联系方式：13812345678，备用：15912345678";
    let (phones, _, _, _) = extractor.extract(text);

    assert_eq!(phones.len(), 2);
    assert!(phones[0].is_valid);
    assert!(phones[1].is_valid);
}

#[test]
fn extractor_test_extract_id_cards() {
    let extractor = create_extractor();
    let text = "身份证号：440308199901010012";
    let (_, id_cards, _, _) = extractor.extract(text);

    assert_eq!(id_cards.len(), 1);
    assert!(id_cards[0].is_valid);
}

#[test]
fn extractor_test_extract_bank_cards() {
    let extractor = create_extractor();
    let text = "银行卡：4111111111111111";
    let (_, _, bank_cards, _) = extractor.extract(text);

    assert_eq!(bank_cards.len(), 1);
    assert!(bank_cards[0].is_valid);
}

#[test]
fn extractor_test_valid_id_card_not_matched_as_bank_card() {
    let extractor = create_extractor();
    let text = "身份证：110105199003072039";
    let (_, id_cards, bank_cards, _) = extractor.extract(text);

    assert_eq!(id_cards.len(), 1);
    assert!(id_cards[0].is_valid);

    assert_eq!(bank_cards.len(), 0);
}

#[test]
fn extractor_test_invalid_id_card_can_be_matched_as_bank_card() {
    let extractor = create_extractor();
    let text = "号码：110105199003072030";
    let (_, id_cards, bank_cards, _) = extractor.extract(text);

    assert_eq!(id_cards.len(), 1);
    assert!(!id_cards[0].is_valid);

    assert!(!bank_cards.is_empty());
}

#[test]
fn extraction_runs_twice_identically() {
    let extractor = create_extractor();
    let text = "电话13812345678，卡号4111111111111111，证件110105199003072039";
    let (p1, i1, b1, n1) = extractor.extract(text);
    let (p2, i2, b2, n2) = extractor.extract(text);

    assert_eq!(p1.len(), p2.len());
    assert_eq!(i1.len(), i2.len());
    assert_eq!(b1.len(), b2.len());
    assert_eq!(n1.len(), n2.len());
    for (a, b) in p1.iter().zip(p2.iter()) {
        assert_eq!(a.value, b.value);
        assert_eq!(a.is_valid, b.is_valid);
        assert_eq!(a.position, b.position);
    }
    for (a, b) in i1.iter().zip(i2.iter()) {
        assert_eq!(a.value, b.value);
        assert_eq!(a.is_valid, b.is_valid);
        assert_eq!(a.position, b.position);
    }
    for (a, b) in b1.iter().zip(b2.iter()) {
        assert_eq!(a.value, b.value);
        assert_eq!(a.is_valid, b.is_valid);
        assert_eq!(a.position, b.position);
    }
}
