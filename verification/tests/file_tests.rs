use sensitive_info_extractor::{
    is_xlsx_file, output_filename_with_timestamp, FileInfo, FileStatus,
};

#[test]
fn test_is_xlsx_file() {
    assert!(is_xlsx_file("test.xlsx"));
    assert!(is_xlsx_file("test.XLSX"));
    assert!(!is_xlsx_file("test.xls"));
    assert!(!is_xlsx_file("test.txt"));
}

#[test]
fn is_xlsx_file_needs_a_name_before_the_dot() {
    assert!(!is_xlsx_file(".xlsx"));
    assert!(!is_xlsx_file("dir/.xlsx"));
    assert!(is_xlsx_file("dir/数据.xlsx"));
}

#[test]
fn is_xlsx_file_ignores_one_trailing_separator() {
    assert!(is_xlsx_file("dir/a.xlsx/"));
    assert!(is_xlsx_file("dir\\a.XLSX\\"));
    assert!(!is_xlsx_file("dir/a.xlsx/more"));
}

#[test]
fn test_generate_output_filename_with_source() {
    let filename = output_filename_with_timestamp("测试文件", "20240101_093000");
    assert!(filename.starts_with("测试文件_"));
    assert!(filename.ends_with(".xlsx"));
    assert_eq!(filename, "测试文件_20240101_093000.xlsx");
}

#[test]
fn file_info_from_path_extracts_name() {
    let f = FileInfo::from_path("data/输入/表格.xlsx".to_string());
    assert_eq!(f.file_path, "data/输入/表格.xlsx");
    assert_eq!(f.file_name, "表格.xlsx");
    assert_eq!(f.row_count, 0);
    assert!(f.columns.is_empty());
    assert_eq!(f.status, FileStatus::Pending);
    assert!(f.selected);

    let bare = FileInfo::from_path("alone.xlsx".to_string());
    assert_eq!(bare.file_name, "alone.xlsx");
}

#[test]
fn file_info_from_path_final_component_rules() {
    // A trailing separator does not hide the component; dot components and
    // a bare root carry no name.
    assert_eq!(FileInfo::from_path("a/b/".to_string()).file_name, "b");
    assert_eq!(FileInfo::from_path("..".to_string()).file_name, "");
    assert_eq!(FileInfo::from_path("a/..".to_string()).file_name, "");
    assert_eq!(FileInfo::from_path(".".to_string()).file_name, "");
    assert_eq!(FileInfo::from_path("/".to_string()).file_name, "");
    assert_eq!(FileInfo::from_path("a/.hidden".to_string()).file_name, ".hidden");
}

#[test]
fn file_status_transitions() {
    assert_eq!(FileStatus::processing(40), FileStatus::Processing(40));
    assert_eq!(FileStatus::processing(150), FileStatus::Processing(100));
    assert_eq!(FileStatus::completed(), FileStatus::Completed);
    let err = FileStatus::error("坏".to_string());
    assert!(err.is_error());
    assert!(!FileStatus::completed().is_error());
    assert_eq!(FileStatus::default(), FileStatus::Pending);
}
