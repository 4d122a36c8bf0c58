use sensitive_info_extractor::{
    name_matches_from_response, progress_percent, update_interval, Config, ExtractResult,
    MatchInfo, ProcessingStatistics, Processor, SheetData,
};

#[test]
fn test_processing_statistics() {
    let mut stats = ProcessingStatistics::default();
    stats.total_results = 10;
    stats.total_phones = 20;
    stats.valid_phones = 18;
    stats.total_id_cards = 5;
    stats.valid_id_cards = 5;
    stats.total_bank_cards = 3;
    stats.valid_bank_cards = 2;
    stats.total_names = 8;
    stats.valid_names = 7;

    assert_eq!(stats.total_sensitive_info(), 36);
}

fn two_row_sheet() -> SheetData {
    SheetData {
        rows: vec![
            vec!["姓名".to_string(), "消息内容".to_string()],
            vec!["张三".to_string(), "电话13812345678".to_string()],
        ],
    }
}

#[test]
fn end_to_end_auto_detects_message_column() {
    let mut config = Config::default();
    config.target_column = String::new();
    let processor = Processor::new(config);

    let results = processor.process_sheet(&two_row_sheet(), "Sheet1", "demo.xlsx");

    assert_eq!(results.len(), 1);
    let rec = &results[0];
    assert_eq!(rec.source_file, "demo.xlsx");
    assert_eq!(rec.sheet_name, "Sheet1");
    assert_eq!(rec.row_number, 2);
    assert_eq!(rec.source_text, "电话13812345678");
    assert_eq!(rec.phone_numbers.len(), 1);
    let phone = &rec.phone_numbers[0];
    assert!(phone.is_valid);
    assert_eq!(phone.value, "13812345678");
    assert_eq!(phone.position, ("电话".len(), "电话13812345678".len()));
    assert!(rec.id_cards.is_empty());
    assert!(rec.bank_cards.is_empty());
    assert!(rec.names.is_empty());
}

#[test]
fn process_sheet_twice_yields_identical_results() {
    let processor = Processor::new(Config::default());
    let sheet = two_row_sheet();

    let a = processor.process_sheet(&sheet, "Sheet1", "demo.xlsx");
    let b = processor.process_sheet(&sheet, "Sheet1", "demo.xlsx");

    assert_eq!(a.len(), b.len());
    for (x, y) in a.iter().zip(b.iter()) {
        assert_eq!(x.source_text, y.source_text);
        assert_eq!(x.row_number, y.row_number);
        assert_eq!(x.phone_numbers.len(), y.phone_numbers.len());
        for (m, n) in x.phone_numbers.iter().zip(y.phone_numbers.iter()) {
            assert_eq!(m.value, n.value);
            assert_eq!(m.is_valid, n.is_valid);
            assert_eq!(m.position, n.position);
        }
    }
}

#[test]
fn process_sheet_skips_missing_configured_column() {
    let mut config = Config::default();
    config.target_column = "备注".to_string();
    let processor = Processor::new(config);

    let results = processor.process_sheet(&two_row_sheet(), "Sheet1", "demo.xlsx");
    assert!(results.is_empty());
}

#[test]
fn process_sheet_gathers_context_rows() {
    let mut config = Config::default();
    config.context_lines = 1;
    let processor = Processor::new(config);
    let sheet = SheetData {
        rows: vec![
            vec!["姓名".to_string(), "消息内容".to_string()],
            vec!["甲".to_string(), "上一行".to_string()],
            vec!["乙".to_string(), "电话13812345678".to_string()],
            vec!["丙".to_string(), "下一行".to_string()],
        ],
    };

    let results = processor.process_sheet(&sheet, "S", "f.xlsx");
    assert_eq!(results.len(), 1);
    assert_eq!(results[0].row_number, 3);
    assert_eq!(results[0].context_before, vec!["甲 | 上一行".to_string()]);
    assert_eq!(results[0].context_after, vec!["丙 | 下一行".to_string()]);
}

#[test]
fn process_rows_reports_name_only_rows() {
    let mut config = Config::default();
    config.enable_name = true;
    let processor = Processor::new(config);
    let sheet = SheetData {
        rows: vec![
            vec!["姓名".to_string(), "消息内容".to_string()],
            vec!["甲".to_string(), "请尽快回复".to_string()],
            vec!["乙".to_string(), "电话13812345678".to_string()],
        ],
    };
    // The service found a name in the first data row, nothing in the second.
    let row_names = vec![
        vec![MatchInfo::simple("张三".to_string(), true)],
        Vec::new(),
    ];

    let results = processor.process_rows(&sheet, "S", "f.xlsx", 1, 3, &row_names);

    assert_eq!(results.len(), 2);
    assert_eq!(results[0].row_number, 2);
    assert!(results[0].phone_numbers.is_empty());
    assert_eq!(results[0].names.len(), 1);
    assert_eq!(results[0].names[0].value, "张三");
    assert!(results[0].names[0].is_valid);
    assert_eq!(results[1].row_number, 3);
    assert_eq!(results[1].phone_numbers.len(), 1);
    assert!(results[1].names.is_empty());
}

#[test]
fn process_rows_names_ignored_when_disabled() {
    let processor = Processor::new(Config::default());
    let sheet = SheetData {
        rows: vec![
            vec!["姓名".to_string(), "消息内容".to_string()],
            vec!["甲".to_string(), "请尽快回复".to_string()],
        ],
    };
    let row_names = vec![vec![MatchInfo::simple("张三".to_string(), true)]];

    let results = processor.process_rows(&sheet, "S", "f.xlsx", 1, 2, &row_names);
    assert!(results.is_empty());
}

#[test]
fn process_rows_chunks_agree_with_whole_sheet() {
    let processor = Processor::new(Config::default());
    let sheet = SheetData {
        rows: vec![
            vec!["姓名".to_string(), "消息内容".to_string()],
            vec!["甲".to_string(), "电话13812345678".to_string()],
            vec!["乙".to_string(), "无".to_string()],
            vec!["丙".to_string(), "备用15912345678".to_string()],
        ],
    };

    let whole = processor.process_sheet(&sheet, "S", "f.xlsx");
    let mut chunked = processor.process_rows(&sheet, "S", "f.xlsx", 1, 2, &vec![Vec::new()]);
    chunked.extend(processor.process_rows(
        &sheet,
        "S",
        "f.xlsx",
        2,
        4,
        &vec![Vec::new(), Vec::new()],
    ));

    assert_eq!(whole.len(), chunked.len());
    for (a, b) in whole.iter().zip(chunked.iter()) {
        assert_eq!(a.row_number, b.row_number);
        assert_eq!(a.source_text, b.source_text);
        assert_eq!(a.phone_numbers.len(), b.phone_numbers.len());
    }
}

#[test]
fn generate_statistics_sums_categories() {
    let processor = Processor::new(Config::default());
    let results = processor.process_sheet(&two_row_sheet(), "Sheet1", "demo.xlsx");
    let stats = processor.generate_statistics(&results, 1500);

    assert_eq!(stats.total_results, 1);
    assert_eq!(stats.total_phones, 1);
    assert_eq!(stats.valid_phones, 1);
    assert_eq!(stats.total_id_cards, 0);
    assert_eq!(stats.valid_id_cards, 0);
    assert_eq!(stats.total_bank_cards, 0);
    assert_eq!(stats.valid_bank_cards, 0);
    assert_eq!(stats.total_names, 0);
    assert_eq!(stats.valid_names, 0);
    assert_eq!(stats.elapsed_ms, 1500);
}

#[test]
fn progress_is_monotone_and_ends_at_hundred() {
    let total = 2047usize;
    let mut last = 0u8;
    let mut processed = 0usize;
    while processed < total {
        processed = (processed + 300).min(total);
        let p = progress_percent(processed, total);
        assert!(p >= last);
        last = p;
    }
    assert_eq!(progress_percent(total, total), 100);
    assert_eq!(progress_percent(0, 0), 0);
    assert_eq!(progress_percent(5, 0), 0);
}

#[test]
fn update_interval_is_bounded() {
    assert_eq!(update_interval(50), 100);
    assert_eq!(update_interval(10_000), 100);
    assert_eq!(update_interval(30_000), 300);
    assert_eq!(update_interval(1_000_000), 500);
}

#[test]
fn name_matches_carry_service_verdict() {
    let names = vec!["张三".to_string(), "李四".to_string()];
    let matches = name_matches_from_response(names, true);
    assert_eq!(matches.len(), 2);
    assert_eq!(matches[0].value, "张三");
    assert!(matches[0].is_valid);
    assert_eq!(matches[0].position, (0, 0));

    let low = name_matches_from_response(vec!["王五".to_string()], false);
    assert!(!low[0].is_valid);
}

#[test]
fn extract_result_formats_matches() {
    let mut rec = ExtractResult::new("f.xlsx".to_string(), "S".to_string(), 2);
    rec.phone_numbers = vec![
        MatchInfo::new("13812345678".to_string(), true, 0, 11),
        MatchInfo::new("12812345678".to_string(), false, 12, 23),
    ];
    rec.context_before = vec!["甲".to_string(), "乙".to_string()];

    assert_eq!(rec.phone_numbers_str(), "13812345678, 12812345678");
    assert_eq!(rec.phone_validity_str(), "有效, 无效");
    assert_eq!(rec.id_cards_str(), "");
    assert_eq!(rec.id_card_validity_str(), "");
    assert_eq!(rec.bank_cards_str(), "");
    assert_eq!(rec.bank_card_validity_str(), "");
    assert_eq!(rec.names_str(), "");
    assert_eq!(rec.names_validity_str(), "");
    assert_eq!(rec.context_before_str(), "甲\n乙");
    assert_eq!(rec.context_after_str(), "");
}

#[test]
fn config_default_and_flags() {
    let config = Config::default();
    assert_eq!(config.context_lines, 2);
    assert_eq!(config.target_column, "消息内容");
    assert!(config.enable_phone);
    assert!(config.enable_id_card);
    assert!(config.enable_bank_card);
    assert!(!config.enable_name);
    assert_eq!(config.api_host, "localhost:8080");
    assert!(config.has_any_extraction_enabled());

    let mut off = Config::default();
    off.enable_phone = false;
    off.enable_id_card = false;
    off.enable_bank_card = false;
    off.enable_name = false;
    assert!(!off.has_any_extraction_enabled());
}
