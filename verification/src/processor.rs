//! The row-processing core of the pipeline, and the arithmetic the
//! surrounding application uses to drive it: which column to scan, which
//! rows yield a result record, how progress percentages are computed and
//! how the final statistics are summed.
//!
//! The application around the library opens the workbooks, fans the files
//! out over a thread pool and fires the progress callback; every decision
//! about the rows themselves is made here.

use vstd::prelude::*;
use vstd::string::StringSliceAdditionalSpecFns;

use crate::column_selector::{find_recommended_column, first_marker_index};
use crate::config::Config;
use crate::extract_result::{ExtractResult, MatchInfo};
use crate::extractor::{
    bank_results_ok, exclusion_spans, id_results_ok, kept_bank_spans, match_seqs_alike,
    phone_results_ok, InfoExtractor,
};
use crate::patterns::{id_matches, phone_matches};
use crate::sheet::{column_index_spec, row_text, SheetData, SheetError};

verus! {

/// The text of cell `ci` in row `i`; empty when the row is too short.
pub open spec fn cell_text(rows: Seq<Vec<String>>, i: int, ci: int) -> Seq<char> {
    if ci < rows[i]@.len() {
        rows[i]@[ci]@
    } else {
        Seq::empty()
    }
}

/// Whether a cell yields at least one match in some enabled category.
pub open spec fn config_has_row_match(cfg: Config, cell: Seq<char>) -> bool {
    let b = vstd::utf8::encode_utf8(cell);
    ||| (cfg.enable_phone && phone_matches(b).len() > 0)
    ||| (cfg.enable_id_card && id_matches(b).len() > 0)
    ||| (cfg.enable_bank_card && kept_bank_spans(b, exclusion_spans(b, cfg.enable_id_card)).len()
        > 0)
}

/// Whether data row `i` produces a result record: its target cell is
/// non-empty and some enabled category matches in it.
pub open spec fn row_selected(rows: Seq<Vec<String>>, ci: int, cfg: Config, i: int) -> bool {
    let cell = cell_text(rows, i, ci);
    cell.len() > 0 && config_has_row_match(cfg, cell)
}

/// The grid indices of the data rows: everything after the header.
pub open spec fn data_row_indices(rows: Seq<Vec<String>>) -> Seq<int> {
    if rows.len() == 0 {
        Seq::empty()
    } else {
        Seq::new((rows.len() - 1) as nat, |k: int| k + 1)
    }
}

/// The data rows that produce a result record, in row order.
pub open spec fn selected_indices(rows: Seq<Vec<String>>, ci: int, cfg: Config) -> Seq<int> {
    data_row_indices(rows).filter(|i: int| row_selected(rows, ci, cfg, i))
}

/// The column a run scans: the configured name when one is set, else the
/// first header cell carrying the message-content marker, else the first
/// column; `None` when the sheet offers no columns at all.
pub open spec fn target_column_spec(cfg: Config, rows: Seq<Vec<String>>) -> Option<Seq<char>> {
    if cfg.target_column@.len() > 0 {
        Some(cfg.target_column@)
    } else {
        auto_target_column(rows)
    }
}

/// The auto-detected target column of a grid.
pub open spec fn auto_target_column(rows: Seq<Vec<String>>) -> Option<Seq<char>> {
    if rows.len() == 0 {
        None
    } else if first_marker_index(rows[0]@, 0) is Some {
        Some(rows[0]@[first_marker_index(rows[0]@, 0)->Some_0]@)
    } else if rows[0]@.len() > 0 {
        Some(rows[0]@[0]@)
    } else {
        None
    }
}

/// The name-independent part of a result record for data row `i`: the
/// matches of every enabled local category in its target cell, the cell's
/// own text, and the neighbouring rows as context.
pub open spec fn record_fields(
    rec: ExtractResult,
    rows: Seq<Vec<String>>,
    ci: int,
    cfg: Config,
    i: int,
    file_name: Seq<char>,
    sheet_name: Seq<char>,
) -> bool {
    let cell = cell_text(rows, i, ci);
    let b = vstd::utf8::encode_utf8(cell);
    let cl = cfg.context_lines as int;
    let lo = if i > cl {
        i - cl
    } else {
        1int
    };
    let hi = if i + 1 + cl <= rows.len() {
        i + 1 + cl
    } else {
        rows.len() as int
    };
    &&& rec.source_file@ == file_name
    &&& rec.sheet_name@ == sheet_name
    &&& rec.row_number == (i + 1) as u32
    &&& rec.source_text@ == cell
    &&& (cfg.enable_phone ==> phone_results_ok(rec.phone_numbers@, b))
    &&& (!cfg.enable_phone ==> rec.phone_numbers@.len() == 0)
    &&& (cfg.enable_id_card ==> id_results_ok(rec.id_cards@, b))
    &&& (!cfg.enable_id_card ==> rec.id_cards@.len() == 0)
    &&& (cfg.enable_bank_card ==> bank_results_ok(
        rec.bank_cards@,
        b,
        exclusion_spans(b, cfg.enable_id_card),
    ))
    &&& (!cfg.enable_bank_card ==> rec.bank_cards@.len() == 0)
    &&& rec.context_before@.len() == (if i >= lo {
        i - lo
    } else {
        0int
    })
    &&& (forall|k: int|
        0 <= k < rec.context_before@.len() ==> (#[trigger] rec.context_before@[k])@ == row_text(
            rows[lo + k]@,
        ))
    &&& rec.context_after@.len() == hi - (i + 1)
    &&& (forall|k: int|
        0 <= k < rec.context_after@.len() ==> (#[trigger] rec.context_after@[k])@ == row_text(
            rows[i + 1 + k]@,
        ))
}

/// The record that data row `i` must produce when the name service is not
/// consulted: its name list is empty.
pub open spec fn record_ok(
    rec: ExtractResult,
    rows: Seq<Vec<String>>,
    ci: int,
    cfg: Config,
    i: int,
    file_name: Seq<char>,
    sheet_name: Seq<char>,
) -> bool {
    &&& record_fields(rec, rows, ci, cfg, i, file_name, sheet_name)
    &&& rec.names@.len() == 0
}

/// The record that data row `i` must produce when the name service
/// returned `names_i` for its cell: with the name category enabled the
/// record carries exactly those matches, otherwise none.
pub open spec fn record_with_names_ok(
    rec: ExtractResult,
    rows: Seq<Vec<String>>,
    ci: int,
    cfg: Config,
    i: int,
    file_name: Seq<char>,
    sheet_name: Seq<char>,
    names_i: Seq<MatchInfo>,
) -> bool {
    &&& record_fields(rec, rows, ci, cfg, i, file_name, sheet_name)
    &&& (cfg.enable_name ==> match_seqs_alike(rec.names@, names_i))
    &&& (!cfg.enable_name ==> rec.names@.len() == 0)
}

/// The grid indices `from` (inclusive) to `to` (exclusive).
pub open spec fn row_range(from: int, to: int) -> Seq<int> {
    if from <= to {
        Seq::new((to - from) as nat, |k: int| from + k)
    } else {
        Seq::empty()
    }
}

/// Whether data row `i` produces a record when the name service returned
/// `names[i - from]` for its cell: the cell is non-empty and some enabled
/// category has a match — the names counting as a category of their own.
pub open spec fn row_selected_with_names(
    rows: Seq<Vec<String>>,
    ci: int,
    cfg: Config,
    i: int,
    names: Seq<Vec<MatchInfo>>,
    from: int,
) -> bool {
    let cell = cell_text(rows, i, ci);
    cell.len() > 0 && (config_has_row_match(cfg, cell) || (cfg.enable_name && names[i - from]@.len()
        > 0))
}

/// The data rows of `[from, to)` that produce a record, in row order.
pub open spec fn selected_in_range(
    rows: Seq<Vec<String>>,
    ci: int,
    cfg: Config,
    from: int,
    to: int,
    names: Seq<Vec<MatchInfo>>,
) -> Seq<int> {
    row_range(from, to).filter(|i: int| row_selected_with_names(rows, ci, cfg, i, names, from))
}

/// A fresh list of the same matches, field for field.
fn clone_matches(ms: &Vec<MatchInfo>) -> (r: Vec<MatchInfo>)
    ensures
        match_seqs_alike(r@, ms@),
{
    let mut r: Vec<MatchInfo> = Vec::new();
    let mut i: usize = 0;
    while i < ms.len()
        invariant
            0 <= i <= ms@.len(),
            r@.len() == i,
            forall|j: int|
                0 <= j < i ==> {
                    &&& (#[trigger] r@[j]).value@ == ms@[j].value@
                    &&& r@[j].is_valid == ms@[j].is_valid
                    &&& r@[j].position == ms@[j].position
                },
        decreases ms@.len() - i,
    {
        r.push(ms[i].clone());
        i = i + 1;
    }
    r
}

/// How many of `ms` the validator accepted.
pub open spec fn count_valid(ms: Seq<MatchInfo>) -> int
    decreases ms.len(),
{
    if ms.len() == 0 {
        0
    } else {
        count_valid(ms.drop_last()) + if ms.last().is_valid {
            1int
        } else {
            0int
        }
    }
}

/// The sum of `f` over the records.
pub open spec fn sum_by(rs: Seq<ExtractResult>, f: spec_fn(ExtractResult) -> int) -> int
    decreases rs.len(),
{
    if rs.len() == 0 {
        0
    } else {
        sum_by(rs.drop_last(), f) + f(rs.last())
    }
}

/// All phone matches over the records.
pub open spec fn total_phones_of(rs: Seq<ExtractResult>) -> int {
    sum_by(rs, |r: ExtractResult| r.phone_numbers@.len() as int)
}

/// All valid phone matches over the records.
pub open spec fn valid_phones_of(rs: Seq<ExtractResult>) -> int {
    sum_by(rs, |r: ExtractResult| count_valid(r.phone_numbers@))
}

/// All identity-number matches over the records.
pub open spec fn total_id_cards_of(rs: Seq<ExtractResult>) -> int {
    sum_by(rs, |r: ExtractResult| r.id_cards@.len() as int)
}

/// All valid identity-number matches over the records.
pub open spec fn valid_id_cards_of(rs: Seq<ExtractResult>) -> int {
    sum_by(rs, |r: ExtractResult| count_valid(r.id_cards@))
}

/// All bank-card matches over the records.
pub open spec fn total_bank_cards_of(rs: Seq<ExtractResult>) -> int {
    sum_by(rs, |r: ExtractResult| r.bank_cards@.len() as int)
}

/// All valid bank-card matches over the records.
pub open spec fn valid_bank_cards_of(rs: Seq<ExtractResult>) -> int {
    sum_by(rs, |r: ExtractResult| count_valid(r.bank_cards@))
}

/// All name matches over the records.
pub open spec fn total_names_of(rs: Seq<ExtractResult>) -> int {
    sum_by(rs, |r: ExtractResult| r.names@.len() as int)
}

/// All valid name matches over the records.
pub open spec fn valid_names_of(rs: Seq<ExtractResult>) -> int {
    sum_by(rs, |r: ExtractResult| count_valid(r.names@))
}

/// A summed prefix grows one record at a time.
proof fn lemma_sum_by_step(rs: Seq<ExtractResult>, f: spec_fn(ExtractResult) -> int, i: int)
    requires
        0 <= i < rs.len(),
    ensures
        sum_by(rs.take(i + 1), f) == sum_by(rs.take(i), f) + f(rs[i]),
{
    assert(rs.take(i + 1).drop_last() =~= rs.take(i));
    assert(rs.take(i + 1).last() == rs[i]);
}

/// A prefix never outsums the whole phone count.
proof fn lemma_total_phones_prefix(rs: Seq<ExtractResult>, k: int)
    requires
        0 <= k <= rs.len(),
    ensures
        total_phones_of(rs.take(k)) <= total_phones_of(rs),
    decreases rs.len() - k,
{
    if k < rs.len() {
        lemma_total_phones_prefix(rs, k + 1);
        lemma_sum_by_step(rs, |r: ExtractResult| r.phone_numbers@.len() as int, k);
    } else {
        assert(rs.take(k) =~= rs);
    }
}

/// A prefix never outsums the whole identity-number count.
proof fn lemma_total_id_cards_prefix(rs: Seq<ExtractResult>, k: int)
    requires
        0 <= k <= rs.len(),
    ensures
        total_id_cards_of(rs.take(k)) <= total_id_cards_of(rs),
    decreases rs.len() - k,
{
    if k < rs.len() {
        lemma_total_id_cards_prefix(rs, k + 1);
        lemma_sum_by_step(rs, |r: ExtractResult| r.id_cards@.len() as int, k);
    } else {
        assert(rs.take(k) =~= rs);
    }
}

/// A prefix never outsums the whole bank-card count.
proof fn lemma_total_bank_cards_prefix(rs: Seq<ExtractResult>, k: int)
    requires
        0 <= k <= rs.len(),
    ensures
        total_bank_cards_of(rs.take(k)) <= total_bank_cards_of(rs),
    decreases rs.len() - k,
{
    if k < rs.len() {
        lemma_total_bank_cards_prefix(rs, k + 1);
        lemma_sum_by_step(rs, |r: ExtractResult| r.bank_cards@.len() as int, k);
    } else {
        assert(rs.take(k) =~= rs);
    }
}

/// A prefix never outsums the whole name count.
proof fn lemma_total_names_prefix(rs: Seq<ExtractResult>, k: int)
    requires
        0 <= k <= rs.len(),
    ensures
        total_names_of(rs.take(k)) <= total_names_of(rs),
    decreases rs.len() - k,
{
    if k < rs.len() {
        lemma_total_names_prefix(rs, k + 1);
        lemma_sum_by_step(rs, |r: ExtractResult| r.names@.len() as int, k);
    } else {
        assert(rs.take(k) =~= rs);
    }
}

/// How many of `ms` the validator accepted.
fn count_valid_matches(ms: &Vec<MatchInfo>) -> (c: usize)
    ensures
        c as int == count_valid(ms@),
        c <= ms@.len(),
{
    let mut c: usize = 0;
    let mut i: usize = 0;
    while i < ms.len()
        invariant
            0 <= i <= ms@.len(),
            c as int == count_valid(ms@.take(i as int)),
            c <= i,
        decreases ms@.len() - i,
    {
        proof {
            assert(ms@.take(i + 1).drop_last() =~= ms@.take(i as int));
            assert(ms@.take(i + 1).last() == ms@[i as int]);
        }
        if ms[i].is_valid {
            c = c + 1;
        }
        i = i + 1;
    }
    proof {
        assert(ms@.take(ms@.len() as int) =~= ms@);
    }
    c
}

/// The aggregate outcome of one run: per category, how many matches were
/// found and how many of them the validator accepted, plus the overall
/// record count and the elapsed wall-clock time.
#[derive(Clone, Copy, Debug, PartialEq, Eq, Structural)]
pub struct ProcessingStatistics {
    pub total_results: usize,
    pub total_phones: usize,
    pub valid_phones: usize,
    pub total_id_cards: usize,
    pub valid_id_cards: usize,
    pub total_bank_cards: usize,
    pub valid_bank_cards: usize,
    pub total_names: usize,
    pub valid_names: usize,
    /// Elapsed wall-clock milliseconds, as measured by the caller.
    pub elapsed_ms: u64,
}

impl Default for ProcessingStatistics {
    /// All counts zero, no time elapsed.
    fn default() -> (s: ProcessingStatistics)
        ensures
            s == (ProcessingStatistics {
                total_results: 0usize,
                total_phones: 0usize,
                valid_phones: 0usize,
                total_id_cards: 0usize,
                valid_id_cards: 0usize,
                total_bank_cards: 0usize,
                valid_bank_cards: 0usize,
                total_names: 0usize,
                valid_names: 0usize,
                elapsed_ms: 0u64,
            }),
    {
        ProcessingStatistics {
            total_results: 0,
            total_phones: 0,
            valid_phones: 0,
            total_id_cards: 0,
            valid_id_cards: 0,
            total_bank_cards: 0,
            valid_bank_cards: 0,
            total_names: 0,
            valid_names: 0,
            elapsed_ms: 0,
        }
    }
}

impl ProcessingStatistics {
    /// Every match found, over all four categories.
    pub fn total_sensitive_info(&self) -> (r: usize)
        requires
            self.total_phones + self.total_id_cards + self.total_bank_cards + self.total_names
                <= usize::MAX,
        ensures
            r == self.total_phones + self.total_id_cards + self.total_bank_cards
                + self.total_names,
    {
        self.total_phones + self.total_id_cards + self.total_bank_cards + self.total_names
    }
}

/// What a processed row count amounts to, as a whole percentage of the
/// total, never past one hundred; zero when nothing is to be done.
pub open spec fn spec_progress(processed: int, total: int) -> int {
    if total <= 0 {
        0
    } else if processed * 100 / total > 100 {
        100
    } else {
        processed * 100 / total
    }
}

/// The progress percentage for `processed` rows done out of `total`.
pub fn progress_percent(processed: usize, total: usize) -> (p: u8)
    ensures
        p as int == spec_progress(processed as int, total as int),
{
    if total == 0 {
        return 0;
    }
    let pct = (processed as u128) * 100 / (total as u128);
    if pct > 100 {
        100
    } else {
        pct as u8
    }
}

/// Law: progress never moves backwards as rows complete, and finished
/// work reports exactly one hundred.
pub proof fn lemma_progress_monotonic(p1: int, p2: int, total: int)
    requires
        0 <= p1 <= p2,
    ensures
        spec_progress(p1, total) <= spec_progress(p2, total),
        total > 0 ==> spec_progress(total, total) == 100,
{
    if total > 0 {
        assert(p1 * 100 <= p2 * 100) by (nonlinear_arith)
            requires
                0 <= p1 <= p2,
        ;
        vstd::arithmetic::div_mod::lemma_div_is_ordered(p1 * 100, p2 * 100, total);
        vstd::arithmetic::div_mod::lemma_div_multiples_vanish(100, total);
    }
}

/// How many rows to process between two progress reports for a file of
/// `row_count` rows: one percent of the file, held between one and five
/// hundred rows.
pub open spec fn spec_update_interval(row_count: int) -> int {
    let x = row_count / 100;
    let y = if x > 100 {
        x
    } else {
        100int
    };
    if y < 500 {
        y
    } else {
        500int
    }
}

/// The row interval between two progress reports for one file.
pub fn update_interval(row_count: u32) -> (n: usize)
    ensures
        n as int == spec_update_interval(row_count as int),
{
    let x = (row_count / 100) as usize;
    let y = if x > 100 {
        x
    } else {
        100
    };
    if y < 500 {
        y
    } else {
        500
    }
}

/// Drives extraction over the rows of the sheets the application reads in.
pub struct Processor {
    config: Config,
}

impl Processor {
    /// The configuration this processor applies.
    pub closed spec fn config(&self) -> Config {
        self.config
    }

    /// A processor for `config`.
    pub fn new(config: Config) -> (p: Processor)
        ensures
            p.config() == config,
    {
        Processor { config }
    }

    /// The column this run must scan in `sheet_data`, auto-detected from
    /// the header when no column is configured.
    pub fn find_target_column(&self, sheet_data: &SheetData) -> (r: Result<String, SheetError>)
        ensures
            match r {
                Ok(t) => auto_target_column(sheet_data.rows@) == Some(t@),
                Err(e) => e == SheetError::NoColumns && auto_target_column(
                    sheet_data.rows@,
                ) is None,
            },
    {
        if sheet_data.rows.len() == 0 {
            return Err(SheetError::NoColumns);
        }
        let header = &sheet_data.rows[0];
        match find_recommended_column(header) {
            Some(recommended) => Ok(recommended.clone()),
            None => {
                if header.len() > 0 {
                    Ok(header[0].clone())
                } else {
                    Err(SheetError::NoColumns)
                }
            },
        }
    }

    /// Process one sheet: pick the target column, scan every non-empty
    /// cell of it, and return one record per row with a match in some
    /// enabled category, in row order. A sheet without a usable target
    /// column yields no records (the sheet is skipped, never the file).
    pub fn process_sheet(&self, sheet_data: &SheetData, sheet_name: &str, file_name: &str) -> (r:
        Vec<ExtractResult>)
        ensures
            ({
                let rows = sheet_data.rows@;
                let cfg = self.config();
                match target_column_spec(cfg, rows) {
                    Some(t) => match column_index_spec(rows, t) {
                        Some(ci) => {
                            &&& r@.len() == selected_indices(rows, ci, cfg).len()
                            &&& forall|k: int|
                                0 <= k < r@.len() ==> record_ok(
                                    #[trigger] r@[k],
                                    rows,
                                    ci,
                                    cfg,
                                    selected_indices(rows, ci, cfg)[k],
                                    file_name@,
                                    sheet_name@,
                                )
                        },
                        None => r@.len() == 0,
                    },
                    None => r@.len() == 0,
                }
            }),
    {
        let ghost rows = sheet_data.rows@;
        let ghost cfg = self.config();
        let target: String = if !self.config.target_column.as_str().is_empty() {
            self.config.target_column.clone()
        } else {
            match self.find_target_column(sheet_data) {
                Ok(t) => t,
                Err(_) => {
                    return Vec::new();
                },
            }
        };
        let column_data = match sheet_data.get_column_by_name(target.as_str()) {
            Ok(data) => data,
            Err(_) => {
                return Vec::new();
            },
        };
        let ghost ci = column_index_spec(rows, target@)->Some_0;
        let extractor = InfoExtractor::new(self.config.clone());
        let n = sheet_data.rows.len();
        let m = column_data.len();
        let mut out: Vec<ExtractResult> = Vec::new();
        let mut k: usize = 0;
        proof {
            assert(data_row_indices(rows).take(0).filter(
                |i: int| row_selected(rows, ci, cfg, i),
            ) =~= Seq::<int>::empty());
        }
        while k < m
            invariant
                0 <= k <= m,
                rows == sheet_data.rows@,
                cfg == self.config(),
                extractor.config() == cfg,
                n == rows.len(),
                m == column_data@.len(),
                m + 1 == n,
                column_index_spec(rows, target@) == Some(ci),
                forall|j: int|
                    0 <= j < m ==> (#[trigger] column_data@[j]).0 == j + 1 && column_data@[j].1@
                        == cell_text(rows, j + 1, ci),
                out@.len() == data_row_indices(rows).take(k as int).filter(
                    |i: int| row_selected(rows, ci, cfg, i),
                ).len(),
                forall|j: int|
                    0 <= j < out@.len() ==> record_ok(
                        #[trigger] out@[j],
                        rows,
                        ci,
                        cfg,
                        data_row_indices(rows).take(k as int).filter(
                            |i: int| row_selected(rows, ci, cfg, i),
                        )[j],
                        file_name@,
                        sheet_name@,
                    ),
            decreases m - k,
        {
            proof {
                crate::text::lemma_filter_take_step(
                    data_row_indices(rows),
                    |i: int| row_selected(rows, ci, cfg, i),
                    k as int,
                );
                assert(data_row_indices(rows)[k as int] == k + 1);
            }
            let item = &column_data[k];
            let row_index = item.0;
            if !item.1.as_str().is_empty() {
                let (phones, id_cards, bank_cards, names) = extractor.extract(item.1.as_str());
                if phones.len() > 0 || id_cards.len() > 0 || bank_cards.len() > 0 || names.len()
                    > 0 {
                    let (context_before, context_after) = sheet_data.get_context(
                        row_index,
                        self.config.context_lines as usize,
                    );
                    let row_number = #[verifier::truncate] ((row_index + 1) as u32);
                    let mut rec = ExtractResult::new(
                        file_name.to_owned(),
                        sheet_name.to_owned(),
                        row_number,
                    );
                    rec.source_text = item.1.clone();
                    rec.context_before = context_before;
                    rec.context_after = context_after;
                    rec.phone_numbers = phones;
                    rec.id_cards = id_cards;
                    rec.bank_cards = bank_cards;
                    rec.names = names;
                    out.push(rec);
                }
            }
            k = k + 1;
        }
        proof {
            assert(data_row_indices(rows).take(m as int) =~= data_row_indices(rows));
        }
        out
    }

    /// Process the data rows `from_row` (inclusive) to `to_row` (exclusive)
    /// of one sheet, together with the name-service matches the caller
    /// fetched for each of those rows (one list per row, empty where the
    /// service was not consulted or found nothing). A record is emitted for
    /// a row whose non-empty target cell has a match in some enabled
    /// category, the names counting as one; an emitted record carries the
    /// row's name matches when the name category is enabled. The
    /// application drives this in bounded chunks so progress can be
    /// reported between them.
    pub fn process_rows(
        &self,
        sheet_data: &SheetData,
        sheet_name: &str,
        file_name: &str,
        from_row: usize,
        to_row: usize,
        row_names: &Vec<Vec<MatchInfo>>,
    ) -> (r: Vec<ExtractResult>)
        requires
            1 <= from_row <= to_row,
            to_row <= sheet_data.rows@.len(),
            row_names@.len() == to_row - from_row,
        ensures
            ({
                let rows = sheet_data.rows@;
                let cfg = self.config();
                match target_column_spec(cfg, rows) {
                    Some(t) => match column_index_spec(rows, t) {
                        Some(ci) => {
                            let sel = selected_in_range(
                                rows,
                                ci,
                                cfg,
                                from_row as int,
                                to_row as int,
                                row_names@,
                            );
                            &&& r@.len() == sel.len()
                            &&& forall|k: int|
                                0 <= k < r@.len() ==> record_with_names_ok(
                                    #[trigger] r@[k],
                                    rows,
                                    ci,
                                    cfg,
                                    sel[k],
                                    file_name@,
                                    sheet_name@,
                                    row_names@[sel[k] - from_row]@,
                                )
                        },
                        None => r@.len() == 0,
                    },
                    None => r@.len() == 0,
                }
            }),
    {
        let ghost rows = sheet_data.rows@;
        let ghost cfg = self.config();
        let target: String = if !self.config.target_column.as_str().is_empty() {
            self.config.target_column.clone()
        } else {
            match self.find_target_column(sheet_data) {
                Ok(t) => t,
                Err(_) => {
                    return Vec::new();
                },
            }
        };
        let column_data = match sheet_data.get_column_by_name(target.as_str()) {
            Ok(data) => data,
            Err(_) => {
                return Vec::new();
            },
        };
        let ghost ci = column_index_spec(rows, target@)->Some_0;
        let extractor = InfoExtractor::new(self.config.clone());
        let n = sheet_data.rows.len();
        let m = column_data.len();
        let ghost range = row_range(from_row as int, to_row as int);
        let mut out: Vec<ExtractResult> = Vec::new();
        let mut k: usize = from_row - 1;
        proof {
            assert(range.take(0).filter(
                |i: int| row_selected_with_names(rows, ci, cfg, i, row_names@, from_row as int),
            ) =~= Seq::<int>::empty());
        }
        while k < to_row - 1
            invariant
                from_row - 1 <= k <= to_row - 1,
                1 <= from_row <= to_row,
                to_row <= n,
                rows == sheet_data.rows@,
                cfg == self.config(),
                extractor.config() == cfg,
                n == rows.len(),
                m == column_data@.len(),
                m + 1 == n,
                row_names@.len() == to_row - from_row,
                column_index_spec(rows, target@) == Some(ci),
                forall|j: int|
                    0 <= j < m ==> (#[trigger] column_data@[j]).0 == j + 1 && column_data@[j].1@
                        == cell_text(rows, j + 1, ci),
                range == row_range(from_row as int, to_row as int),
                out@.len() == range.take(k + 1 - from_row).filter(
                    |i: int| row_selected_with_names(rows, ci, cfg, i, row_names@, from_row as int),
                ).len(),
                forall|j: int|
                    0 <= j < out@.len() ==> {
                        let i = range.take(k + 1 - from_row).filter(
                            |i: int|
                                row_selected_with_names(
                                    rows,
                                    ci,
                                    cfg,
                                    i,
                                    row_names@,
                                    from_row as int,
                                ),
                        )[j];
                        record_with_names_ok(
                            #[trigger] out@[j],
                            rows,
                            ci,
                            cfg,
                            i,
                            file_name@,
                            sheet_name@,
                            row_names@[i - from_row]@,
                        )
                    },
            decreases to_row - 1 - k,
        {
            proof {
                crate::text::lemma_filter_take_step(
                    range,
                    |i: int| row_selected_with_names(rows, ci, cfg, i, row_names@, from_row as int),
                    k + 1 - from_row,
                );
                assert(range[k + 1 - from_row] == k + 1);
            }
            let item = &column_data[k];
            let row_index = item.0;
            let names_idx = row_index - from_row;
            let has_names = self.config.enable_name && row_names[names_idx].len() > 0;
            if !item.1.as_str().is_empty() {
                let (phones, id_cards, bank_cards, _) = extractor.extract(item.1.as_str());
                if phones.len() > 0 || id_cards.len() > 0 || bank_cards.len() > 0 || has_names {
                    let (context_before, context_after) = sheet_data.get_context(
                        row_index,
                        self.config.context_lines as usize,
                    );
                    let row_number = #[verifier::truncate] ((row_index + 1) as u32);
                    let mut rec = ExtractResult::new(
                        file_name.to_owned(),
                        sheet_name.to_owned(),
                        row_number,
                    );
                    rec.source_text = item.1.clone();
                    rec.context_before = context_before;
                    rec.context_after = context_after;
                    rec.phone_numbers = phones;
                    rec.id_cards = id_cards;
                    rec.bank_cards = bank_cards;
                    rec.names = if self.config.enable_name {
                        clone_matches(&row_names[names_idx])
                    } else {
                        Vec::new()
                    };
                    out.push(rec);
                }
            }
            k = k + 1;
        }
        proof {
            assert(range.take(to_row - from_row) =~= range);
        }
        out
    }

    /// Sum the per-category counts over a run's records.
    pub fn generate_statistics(&self, results: &Vec<ExtractResult>, elapsed_ms: u64) -> (s:
        ProcessingStatistics)
        requires
            total_phones_of(results@) <= usize::MAX,
            total_id_cards_of(results@) <= usize::MAX,
            total_bank_cards_of(results@) <= usize::MAX,
            total_names_of(results@) <= usize::MAX,
        ensures
            s.total_results == results@.len(),
            s.total_phones == total_phones_of(results@),
            s.valid_phones == valid_phones_of(results@),
            s.total_id_cards == total_id_cards_of(results@),
            s.valid_id_cards == valid_id_cards_of(results@),
            s.total_bank_cards == total_bank_cards_of(results@),
            s.valid_bank_cards == valid_bank_cards_of(results@),
            s.total_names == total_names_of(results@),
            s.valid_names == valid_names_of(results@),
            s.elapsed_ms == elapsed_ms,
    {
        let rs = results;
        let n = rs.len();
        let mut tp: usize = 0;
        let mut vp: usize = 0;
        let mut ti: usize = 0;
        let mut vi: usize = 0;
        let mut tb: usize = 0;
        let mut vb: usize = 0;
        let mut tn: usize = 0;
        let mut vn: usize = 0;
        let mut i: usize = 0;
        while i < n
            invariant
                0 <= i <= n,
                n == rs@.len(),
                total_phones_of(rs@) <= usize::MAX,
                total_id_cards_of(rs@) <= usize::MAX,
                total_bank_cards_of(rs@) <= usize::MAX,
                total_names_of(rs@) <= usize::MAX,
                tp as int == total_phones_of(rs@.take(i as int)),
                vp as int == valid_phones_of(rs@.take(i as int)),
                ti as int == total_id_cards_of(rs@.take(i as int)),
                vi as int == valid_id_cards_of(rs@.take(i as int)),
                tb as int == total_bank_cards_of(rs@.take(i as int)),
                vb as int == valid_bank_cards_of(rs@.take(i as int)),
                tn as int == total_names_of(rs@.take(i as int)),
                vn as int == valid_names_of(rs@.take(i as int)),
                vp <= tp,
                vi <= ti,
                vb <= tb,
                vn <= tn,
            decreases n - i,
        {
            proof {
                lemma_sum_by_step(rs@, |r: ExtractResult| r.phone_numbers@.len() as int, i as int);
                lemma_sum_by_step(rs@, |r: ExtractResult| count_valid(r.phone_numbers@), i as int);
                lemma_sum_by_step(rs@, |r: ExtractResult| r.id_cards@.len() as int, i as int);
                lemma_sum_by_step(rs@, |r: ExtractResult| count_valid(r.id_cards@), i as int);
                lemma_sum_by_step(rs@, |r: ExtractResult| r.bank_cards@.len() as int, i as int);
                lemma_sum_by_step(rs@, |r: ExtractResult| count_valid(r.bank_cards@), i as int);
                lemma_sum_by_step(rs@, |r: ExtractResult| r.names@.len() as int, i as int);
                lemma_sum_by_step(rs@, |r: ExtractResult| count_valid(r.names@), i as int);
                lemma_total_phones_prefix(rs@, i + 1);
                lemma_total_id_cards_prefix(rs@, i + 1);
                lemma_total_bank_cards_prefix(rs@, i + 1);
                lemma_total_names_prefix(rs@, i + 1);
            }
            let rec = &rs[i];
            let cp = count_valid_matches(&rec.phone_numbers);
            let ci2 = count_valid_matches(&rec.id_cards);
            let cb = count_valid_matches(&rec.bank_cards);
            let cn = count_valid_matches(&rec.names);
            tp = tp + rec.phone_numbers.len();
            vp = vp + cp;
            ti = ti + rec.id_cards.len();
            vi = vi + ci2;
            tb = tb + rec.bank_cards.len();
            vb = vb + cb;
            tn = tn + rec.names.len();
            vn = vn + cn;
            i = i + 1;
        }
        proof {
            assert(rs@.take(n as int) =~= rs@);
        }
        ProcessingStatistics {
            total_results: n,
            total_phones: tp,
            valid_phones: vp,
            total_id_cards: ti,
            valid_id_cards: vi,
            total_bank_cards: tb,
            valid_bank_cards: vb,
            total_names: tn,
            valid_names: vn,
            elapsed_ms,
        }
    }
}

} // verus!
