//! The extraction configuration, cloned into each worker.

use vstd::prelude::*;

verus! {

/// An immutable snapshot of what to extract and how.
///
/// `target_column` empty means the column is auto-detected from the sheet
/// header. At least one `enable_*` flag should be set for a run to be
/// meaningful; the caller enforces that, not this type.
#[derive(Debug)]
pub struct Config {
    /// Rows of context captured before and after a matching row.
    pub context_lines: u32,
    /// The column to scan; empty for auto-detection.
    pub target_column: String,
    pub enable_phone: bool,
    pub enable_id_card: bool,
    pub enable_bank_card: bool,
    pub enable_name: bool,
    /// Host of the name-extraction service.
    pub api_host: String,
}

impl Clone for Config {
    /// A field-for-field copy.
    fn clone(&self) -> (c: Self)
        ensures
            c == *self,
    {
        Config {
            context_lines: self.context_lines,
            target_column: self.target_column.clone(),
            enable_phone: self.enable_phone,
            enable_id_card: self.enable_id_card,
            enable_bank_card: self.enable_bank_card,
            enable_name: self.enable_name,
            api_host: self.api_host.clone(),
        }
    }
}

impl Config {
    /// Whether any category is enabled at all.
    pub fn has_any_extraction_enabled(&self) -> (r: bool)
        ensures
            r == (self.enable_phone || self.enable_id_card || self.enable_bank_card
                || self.enable_name),
    {
        self.enable_phone || self.enable_id_card || self.enable_bank_card || self.enable_name
    }
}

impl Default for Config {
    /// Two context rows, the canonical message-content column, every local
    /// category on, the name service off.
    fn default() -> (c: Config)
        ensures
            c.context_lines == 2,
            c.target_column@ == "消息内容"@,
            c.enable_phone && c.enable_id_card && c.enable_bank_card,
            !c.enable_name,
            c.api_host@ == "localhost:8080"@,
    {
        Config {
            context_lines: 2,
            target_column: "消息内容".to_owned(),
            enable_phone: true,
            enable_id_card: true,
            enable_bank_card: true,
            enable_name: false,
            api_host: "localhost:8080".to_owned(),
        }
    }
}

} // verus!
