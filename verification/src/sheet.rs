//! The in-memory picture of one spreadsheet sheet: a rectangular grid of
//! text cells, row zero being the header. The spreadsheet reader of the
//! surrounding application fills it; everything that reads it is verified
//! here.

use vstd::prelude::*;

use crate::text::{join_with, str_eq};

verus! {

/// Why a sheet could not serve a request.
#[derive(Clone, Copy, Debug, PartialEq, Eq, Structural)]
pub enum SheetError {
    /// The named column is not in the header row.
    ColumnNotFound,
    /// The sheet has no columns at all.
    NoColumns,
}

/// One row rendered as a single line, cells joined with `" | "`.
pub open spec fn row_text(row: Seq<String>) -> Seq<char> {
    join_with(row.map_values(|s: String| s@), " | "@)
}

/// The position of the first cell of `header` spelling `name`, searching
/// from `from` on.
pub open spec fn first_match_index(header: Seq<String>, name: Seq<char>, from: int) -> Option<
    int,
>
    decreases header.len() - from,
{
    if from < 0 || from >= header.len() {
        None
    } else if header[from]@ == name {
        Some(from)
    } else {
        first_match_index(header, name, from + 1)
    }
}

/// The index of the column named `name`, if the grid has a header row
/// holding it.
pub open spec fn column_index_spec(rows: Seq<Vec<String>>, name: Seq<char>) -> Option<int> {
    if rows.len() == 0 {
        None
    } else {
        first_match_index(rows[0]@, name, 0)
    }
}

/// One sheet as a grid of text cells; row zero is the header.
#[derive(Clone, Debug)]
pub struct SheetData {
    pub rows: Vec<Vec<String>>,
}

impl SheetData {
    /// The header row; empty for an empty grid.
    pub fn column_names(&self) -> (r: Vec<String>)
        ensures
            self.rows@.len() == 0 ==> r@.len() == 0,
            self.rows@.len() > 0 ==> {
                &&& r@.len() == self.rows@[0]@.len()
                &&& forall|j: int| 0 <= j < r@.len() ==> (#[trigger] r@[j])@ == self.rows@[0]@[j]@
            },
    {
        let mut r: Vec<String> = Vec::new();
        if self.rows.len() == 0 {
            return r;
        }
        let first = &self.rows[0];
        let mut j: usize = 0;
        while j < first.len()
            invariant
                0 <= j <= first@.len(),
                first@ == self.rows@[0]@,
                r@.len() == j,
                forall|i: int| 0 <= i < j ==> (#[trigger] r@[i])@ == self.rows@[0]@[i]@,
            decreases first@.len() - j,
        {
            r.push(first[j].clone());
            j = j + 1;
        }
        r
    }

    /// The index of the column whose header cell spells `column_name`.
    pub fn get_column_index(&self, column_name: &str) -> (r: Option<usize>)
        ensures
            match r {
                Some(j) => column_index_spec(self.rows@, column_name@) == Some(j as int),
                None => column_index_spec(self.rows@, column_name@) is None,
            },
    {
        if self.rows.len() == 0 {
            return None;
        }
        let header = &self.rows[0];
        let mut j: usize = 0;
        while j < header.len()
            invariant
                0 <= j <= header@.len(),
                self.rows@.len() > 0,
                header@ == self.rows@[0]@,
                first_match_index(header@, column_name@, 0) == first_match_index(
                    header@,
                    column_name@,
                    j as int,
                ),
            decreases header@.len() - j,
        {
            if str_eq(header[j].as_str(), column_name) {
                return Some(j);
            }
            j = j + 1;
        }
        None
    }

    /// The cells of the named column, one `(row index, text)` pair per data
    /// row, in row order; a row too short for the column yields empty text.
    /// Fails when the header holds no such column.
    pub fn get_column_by_name(&self, column_name: &str) -> (r: Result<
        Vec<(usize, String)>,
        SheetError,
    >)
        ensures
            match r {
                Ok(cells) => {
                    &&& column_index_spec(self.rows@, column_name@) is Some
                    &&& ({
                        let ci = column_index_spec(self.rows@, column_name@)->Some_0;
                        &&& cells@.len() + 1 == self.rows@.len()
                        &&& forall|k: int|
                            0 <= k < cells@.len() ==> {
                                &&& (#[trigger] cells@[k]).0 == k + 1
                                &&& cells@[k].1@ == (if ci < self.rows@[k + 1]@.len() {
                                    self.rows@[k + 1]@[ci]@
                                } else {
                                    Seq::<char>::empty()
                                })
                            }
                    })
                },
                Err(e) => e == SheetError::ColumnNotFound && column_index_spec(
                    self.rows@,
                    column_name@,
                ) is None,
            },
    {
        let col_index = match self.get_column_index(column_name) {
            Some(ci) => ci,
            None => {
                return Err(SheetError::ColumnNotFound);
            },
        };
        let ghost ci = col_index as int;
        proof {
            lemma_first_match_in_range(self.rows@[0]@, column_name@, 0);
        }
        let mut result: Vec<(usize, String)> = Vec::new();
        let mut row_index: usize = 1;
        let n = self.rows.len();
        while row_index < n
            invariant
                1 <= row_index <= n,
                n == self.rows@.len(),
                n >= 1,
                ci == col_index as int,
                0 <= ci < self.rows@[0]@.len(),
                result@.len() == row_index - 1,
                forall|k: int|
                    0 <= k < result@.len() ==> {
                        &&& (#[trigger] result@[k]).0 == k + 1
                        &&& result@[k].1@ == (if ci < self.rows@[k + 1]@.len() {
                            self.rows@[k + 1]@[ci]@
                        } else {
                            Seq::<char>::empty()
                        })
                    },
            decreases n - row_index,
        {
            let row = &self.rows[row_index];
            if col_index < row.len() {
                result.push((row_index, row[col_index].clone()));
            } else {
                result.push((row_index, String::new()));
            }
            row_index = row_index + 1;
        }
        Ok(result)
    }

    /// The rows just before and just after `row_index`, each rendered as
    /// one line, clipped at the header above and the grid's end below.
    pub fn get_context(&self, row_index: usize, context_lines: usize) -> (r: (
        Vec<String>,
        Vec<String>,
    ))
        requires
            row_index < self.rows@.len(),
        ensures
            ({
                let lo = if row_index > context_lines {
                    row_index as int - context_lines as int
                } else {
                    1int
                };
                &&& r.0@.len() == (if row_index as int >= lo {
                    row_index as int - lo
                } else {
                    0int
                })
                &&& forall|k: int|
                    0 <= k < r.0@.len() ==> (#[trigger] r.0@[k])@ == row_text(
                        self.rows@[lo + k]@,
                    )
            }),
            ({
                let hi = if row_index + 1 + context_lines <= self.rows@.len() {
                    row_index as int + 1 + context_lines as int
                } else {
                    self.rows@.len() as int
                };
                &&& r.1@.len() == hi - (row_index + 1)
                &&& forall|k: int|
                    0 <= k < r.1@.len() ==> (#[trigger] r.1@[k])@ == row_text(
                        self.rows@[row_index + 1 + k]@,
                    )
            }),
    {
        let mut before: Vec<String> = Vec::new();
        let mut after: Vec<String> = Vec::new();
        let lo: usize = if row_index > context_lines {
            row_index - context_lines
        } else {
            1
        };
        let mut i: usize = lo;
        while i < row_index
            invariant
                lo <= i <= row_index || (i == lo && lo > row_index),
                row_index < self.rows@.len(),
                before@.len() == (if i >= lo {
                    i as int - lo as int
                } else {
                    0int
                }),
                forall|k: int|
                    0 <= k < before@.len() ==> (#[trigger] before@[k])@ == row_text(
                        self.rows@[lo + k]@,
                    ),
            decreases row_index - i,
        {
            before.push(crate::text::join_strs(&self.rows[i], " | "));
            i = i + 1;
        }
        let n = self.rows.len();
        let start = row_index + 1;
        let avail = n - start;
        let count = if context_lines < avail {
            context_lines
        } else {
            avail
        };
        let mut k: usize = 0;
        while k < count
            invariant
                0 <= k <= count,
                n == self.rows@.len(),
                row_index < n,
                start == row_index + 1,
                start + count <= n,
                after@.len() == k,
                forall|j: int|
                    0 <= j < k ==> (#[trigger] after@[j])@ == row_text(
                        self.rows@[start + j]@,
                    ),
            decreases count - k,
        {
            after.push(crate::text::join_strs(&self.rows[start + k], " | "));
            k = k + 1;
        }
        (before, after)
    }
}

/// A found column index lies inside the header.
proof fn lemma_first_match_in_range(header: Seq<String>, name: Seq<char>, from: int)
    ensures
        first_match_index(header, name, from) matches Some(j) ==> from <= j < header.len()
            && header[j]@ == name,
    decreases header.len() - from,
{
    if 0 <= from < header.len() && header[from]@ != name {
        lemma_first_match_in_range(header, name, from + 1);
    }
}

/// What the application learnt about a workbook when it scanned it: the
/// sheets, each with its header names and its data-row count, in sheet
/// order.
#[derive(Clone, Debug)]
pub struct ExcelInfo {
    pub sheet_names: Vec<String>,
    /// Header names per sheet, parallel to `sheet_names`.
    pub sheet_columns: Vec<Vec<String>>,
    /// Data rows per sheet, parallel to `sheet_names`.
    pub sheet_row_counts: Vec<usize>,
}

/// The total of a row-count list.
pub open spec fn sum_of(counts: Seq<usize>) -> int
    decreases counts.len(),
{
    if counts.len() == 0 {
        0
    } else {
        sum_of(counts.drop_last()) + counts.last()
    }
}

impl ExcelInfo {
    /// The three lists run in step.
    pub open spec fn wf(&self) -> bool {
        &&& self.sheet_columns@.len() == self.sheet_names@.len()
        &&& self.sheet_row_counts@.len() == self.sheet_names@.len()
    }

    /// A summary from the three parallel lists.
    pub fn from_sheets(
        sheet_names: Vec<String>,
        sheet_columns: Vec<Vec<String>>,
        sheet_row_counts: Vec<usize>,
    ) -> (r: ExcelInfo)
        requires
            sheet_columns@.len() == sheet_names@.len(),
            sheet_row_counts@.len() == sheet_names@.len(),
        ensures
            r.wf(),
            r.sheet_names == sheet_names,
            r.sheet_columns == sheet_columns,
            r.sheet_row_counts == sheet_row_counts,
    {
        ExcelInfo { sheet_names, sheet_columns, sheet_row_counts }
    }

    /// The header names of the first sheet, if there is one.
    pub fn first_sheet_columns(&self) -> (r: Option<&Vec<String>>)
        requires
            self.wf(),
        ensures
            match r {
                Some(cols) => self.sheet_names@.len() > 0 && cols@ == self.sheet_columns@[0]@,
                None => self.sheet_names@.len() == 0,
            },
    {
        if self.sheet_names.len() == 0 {
            None
        } else {
            Some(&self.sheet_columns[0])
        }
    }

    /// The data rows of all sheets together.
    pub fn total_row_count(&self) -> (r: usize)
        requires
            sum_of(self.sheet_row_counts@) <= usize::MAX,
        ensures
            r == sum_of(self.sheet_row_counts@),
    {
        let mut total: usize = 0;
        let mut i: usize = 0;
        let n = self.sheet_row_counts.len();
        while i < n
            invariant
                0 <= i <= n,
                n == self.sheet_row_counts@.len(),
                total == sum_of(self.sheet_row_counts@.take(i as int)),
                sum_of(self.sheet_row_counts@) <= usize::MAX,
                total <= usize::MAX,
            decreases n - i,
        {
            proof {
                assert(self.sheet_row_counts@.take(i + 1).drop_last() =~= self.sheet_row_counts@
                    .take(i as int));
                lemma_sum_of_prefix_bound(self.sheet_row_counts@, i + 1);
                lemma_sum_of_nonneg(self.sheet_row_counts@.take(i as int));
            }
            total = total + self.sheet_row_counts[i];
            i = i + 1;
        }
        proof {
            assert(self.sheet_row_counts@.take(n as int) =~= self.sheet_row_counts@);
        }
        total
    }
}

/// A sum of counts is never negative.
proof fn lemma_sum_of_nonneg(counts: Seq<usize>)
    ensures
        sum_of(counts) >= 0,
    decreases counts.len(),
{
    if counts.len() > 0 {
        lemma_sum_of_nonneg(counts.drop_last());
    }
}

/// A prefix never outsums the whole.
proof fn lemma_sum_of_prefix_bound(counts: Seq<usize>, k: int)
    requires
        0 <= k <= counts.len(),
    ensures
        sum_of(counts.take(k)) <= sum_of(counts),
    decreases counts.len() - k,
{
    if k < counts.len() {
        lemma_sum_of_prefix_bound(counts, k + 1);
        assert(counts.take(k + 1).drop_last() =~= counts.take(k));
        assert(counts.take(k + 1).last() == counts[k] >= 0);
    } else {
        assert(counts.take(k) =~= counts);
    }
}

} // verus!
