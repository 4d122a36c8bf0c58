use sensitive_info_extractor::{ExcelInfo, SheetData, SheetError};

#[test]
fn test_sheet_data_column_names() {
    let sheet_data = SheetData {
        rows: vec![
            vec!["姓名".to_string(), "消息内容".to_string()],
            vec!["张三".to_string(), "电话13812345678".to_string()],
        ],
    };

    let columns = sheet_data.column_names();
    assert_eq!(columns.len(), 2);
    assert_eq!(columns[0], "姓名");
    assert_eq!(columns[1], "消息内容");
}

#[test]
fn test_sheet_data_get_column_index() {
    let sheet_data = SheetData {
        rows: vec![
            vec!["姓名".to_string(), "消息内容".to_string()],
            vec!["张三".to_string(), "电话13812345678".to_string()],
        ],
    };

    assert_eq!(sheet_data.get_column_index("姓名"), Some(0));
    assert_eq!(sheet_data.get_column_index("消息内容"), Some(1));
    assert_eq!(sheet_data.get_column_index("不存在"), None);
}

#[test]
fn sheet_data_get_column_by_name() {
    let sheet_data = SheetData {
        rows: vec![
            vec!["姓名".to_string(), "消息内容".to_string()],
            vec!["张三".to_string(), "电话13812345678".to_string()],
            vec!["李四".to_string()],
        ],
    };

    let cells = sheet_data.get_column_by_name("消息内容").unwrap();
    assert_eq!(cells.len(), 2);
    assert_eq!(cells[0], (1, "电话13812345678".to_string()));
    assert_eq!(cells[1], (2, "".to_string()));

    assert_eq!(
        sheet_data.get_column_by_name("不存在"),
        Err(SheetError::ColumnNotFound)
    );
}

#[test]
fn sheet_data_get_context_clips_at_boundaries() {
    let sheet_data = SheetData {
        rows: vec![
            vec!["头".to_string()],
            vec!["一".to_string(), "a".to_string()],
            vec!["二".to_string()],
            vec!["三".to_string()],
            vec!["四".to_string()],
        ],
    };

    let (before, after) = sheet_data.get_context(3, 2);
    assert_eq!(before, vec!["一 | a".to_string(), "二".to_string()]);
    assert_eq!(after, vec!["四".to_string()]);

    let (before, after) = sheet_data.get_context(1, 2);
    assert_eq!(before, Vec::<String>::new());
    assert_eq!(after, vec!["二".to_string(), "三".to_string()]);
}

#[test]
fn excel_info_totals() {
    let info = ExcelInfo::from_sheets(
        vec!["s1".to_string(), "s2".to_string()],
        vec![vec!["a".to_string()], vec!["b".to_string()]],
        vec![10, 32],
    );
    assert_eq!(info.total_row_count(), 42);
    assert_eq!(info.first_sheet_columns(), Some(&vec!["a".to_string()]));

    let empty = ExcelInfo::from_sheets(vec![], vec![], vec![]);
    assert_eq!(empty.total_row_count(), 0);
    assert_eq!(empty.first_sheet_columns(), None);
}
