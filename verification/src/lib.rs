//! Extraction and validation of personally identifiable information
//! (mobile phone numbers, national identity numbers, bank card numbers)
//! from free-form text harvested out of spreadsheet rows.
//!
//! The scanners, validators and the row-processing pipeline are verified;
//! file access, the spreadsheet reader/writer, the optional name-extraction
//! service and the thread pool live in the surrounding application.

mod column_selector;
mod config;
mod extract_result;
mod extractor;
mod file_info;
mod file_utils;
mod patterns;
mod processor;
mod sheet;
mod text;
mod validator;

pub use column_selector::{find_recommended_column, smart_select_column};
pub use config::Config;
pub use extract_result::{ExtractResult, MatchInfo};
pub use extractor::{name_matches_from_response, InfoExtractor};
pub use file_info::{FileInfo, FileStatus};
pub use file_utils::{is_xlsx_file, output_filename_with_timestamp};
pub use patterns::{extract_bank_cards, extract_id_cards, extract_phones};
pub use processor::{progress_percent, update_interval, ProcessingStatistics, Processor};
pub use sheet::{ExcelInfo, SheetData, SheetError};
pub use text::clean_digits;
pub use validator::Validator;
