use sensitive_info_extractor::{find_recommended_column, smart_select_column};

#[test]
fn test_find_recommended_column() {
    let columns = vec![
        "姓名".to_string(),
        "消息内容".to_string(),
        "时间".to_string(),
    ];

    let recommended = find_recommended_column(&columns);
    assert_eq!(recommended, Some(&"消息内容".to_string()));
}

#[test]
fn test_smart_select_column() {
    let columns = vec!["姓名".to_string(), "消息内容".to_string()];

    let mut selected = String::new();
    smart_select_column(&columns, &mut selected);
    assert_eq!(selected, "消息内容");

    selected = "姓名".to_string();
    smart_select_column(&columns, &mut selected);
    assert_eq!(selected, "姓名");
}

#[test]
fn smart_select_column_falls_back_to_first() {
    let columns = vec!["备注".to_string(), "时间".to_string()];

    let mut selected = String::new();
    smart_select_column(&columns, &mut selected);
    assert_eq!(selected, "备注");

    // A stale selection not in the header is replaced.
    let mut stale = "不存在".to_string();
    smart_select_column(&columns, &mut stale);
    assert_eq!(stale, "备注");
}

#[test]
fn find_recommended_column_embedded_marker() {
    let columns = vec!["编号".to_string(), "短信消息内容摘要".to_string()];
    assert_eq!(
        find_recommended_column(&columns),
        Some(&"短信消息内容摘要".to_string())
    );
    let none = vec!["编号".to_string()];
    assert_eq!(find_recommended_column(&none), None);
}
