//! Choosing the column to scan: the configured name when it is usable,
//! else the column whose header carries the canonical message-content
//! marker, else the first column.

use vstd::prelude::*;
use vstd::string::StringSliceAdditionalSpecFns;

use crate::text::{contains_bytes, contains_seq, str_eq};

verus! {

/// A header cell that carries the message-content marker.
pub open spec fn header_has_marker(col: Seq<char>) -> bool {
    contains_seq(vstd::utf8::encode_utf8(col), vstd::utf8::encode_utf8("消息内容"@))
}

/// The first column, from `from` on, whose header carries the marker.
pub open spec fn first_marker_index(columns: Seq<String>, from: int) -> Option<int>
    decreases columns.len() - from,
{
    if from < 0 || from >= columns.len() {
        None
    } else if header_has_marker(columns[from]@) {
        Some(from)
    } else {
        first_marker_index(columns, from + 1)
    }
}

/// Whether a header cell carries the message-content marker.
fn column_has_marker(column: &String) -> (r: bool)
    ensures
        r == header_has_marker(column@),
{
    let marker = "消息内容";
    contains_bytes(column.as_str().as_bytes(), marker.as_bytes())
}

/// The first column whose header carries the message-content marker.
pub fn find_recommended_column(columns: &Vec<String>) -> (r: Option<&String>)
    ensures
        match r {
            Some(c) => first_marker_index(columns@, 0) matches Some(j) && c@ == columns@[j]@,
            None => first_marker_index(columns@, 0) is None,
        },
{
    let mut j: usize = 0;
    while j < columns.len()
        invariant
            0 <= j <= columns@.len(),
            first_marker_index(columns@, 0) == first_marker_index(columns@, j as int),
        decreases columns@.len() - j,
    {
        if column_has_marker(&columns[j]) {
            return Some(&columns[j]);
        }
        j = j + 1;
    }
    None
}

/// Some column spells the same text as `name`.
pub open spec fn columns_contain(columns: Seq<String>, name: Seq<char>) -> bool {
    exists|i: int| 0 <= i < columns.len() && (#[trigger] columns[i])@ == name
}

/// Keep a still-usable selection; otherwise take the marker column if one
/// exists, else the first column if it has a name; an empty header changes
/// nothing.
pub fn smart_select_column(columns: &Vec<String>, current_selection: &mut String)
    ensures
        ({
            let sel = old(current_selection)@;
            if sel.len() > 0 && columns_contain(columns@, sel) {
                final (current_selection)@ == sel
            } else if first_marker_index(columns@, 0) is Some {
                final (current_selection)@ == columns@[first_marker_index(columns@, 0)->Some_0]@
            } else if columns@.len() > 0 && columns@[0]@.len() > 0 {
                final (current_selection)@ == columns@[0]@
            } else {
                final (current_selection)@ == sel
            }
        }),
{
    if !current_selection.as_str().is_empty() && columns_contain_exec(columns, current_selection) {
        return ;
    }
    match find_recommended_column(columns) {
        Some(recommended) => {
            *current_selection = recommended.clone();
            return ;
        },
        None => {},
    }
    if columns.len() > 0 {
        let first = &columns[0];
        if !first.as_str().is_empty() {
            *current_selection = first.clone();
        }
    }
}

/// Whether some column spells the same text as `name`.
fn columns_contain_exec(columns: &Vec<String>, name: &String) -> (r: bool)
    ensures
        r == columns_contain(columns@, name@),
{
    let mut i: usize = 0;
    while i < columns.len()
        invariant
            0 <= i <= columns@.len(),
            forall|k: int| 0 <= k < i ==> (#[trigger] columns@[k])@ != name@,
        decreases columns@.len() - i,
    {
        if str_eq(columns[i].as_str(), name.as_str()) {
            return true;
        }
        i = i + 1;
    }
    false
}

} // verus!
