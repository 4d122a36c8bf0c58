//! Path-as-text helpers: recognizing workbook files and naming the export.

use vstd::prelude::*;
use vstd::string::StringExecFns;
use vstd::string::StringSliceAdditionalSpecFns;

use crate::file_info::{file_name_start, trim_trailing_sep};

verus! {

/// A separator byte inside a path.
pub open spec fn is_path_sep(b: u8) -> bool {
    b == 0x2f || b == 0x5c
}

/// An upper-case ASCII letter folded to lower case.
pub open spec fn lower_byte(b: u8) -> u8 {
    if 0x41 <= b <= 0x5a {
        (b + 0x20) as u8
    } else {
        b
    }
}

/// The path names a workbook file: one trailing separator ignored, its
/// file name ends in `.xlsx` in any letter case, with something before
/// the dot.
pub open spec fn spec_is_xlsx_path(bytes: Seq<u8>) -> bool {
    let t = trim_trailing_sep(bytes);
    let n = t.len();
    &&& n >= 5
    &&& t[n - 5] == 0x2e
    &&& lower_byte(t[n - 4]) == 0x78
    &&& lower_byte(t[n - 3]) == 0x6c
    &&& lower_byte(t[n - 2]) == 0x73
    &&& lower_byte(t[n - 1]) == 0x78
    &&& file_name_start(t) < n - 5
}

/// The file-name start never lies past the end.
proof fn lemma_file_name_start_le_len(bytes: Seq<u8>)
    ensures
        0 <= file_name_start(bytes) <= bytes.len(),
    decreases bytes.len(),
{
    if bytes.len() > 0 && !(bytes.last() == 0x2f || bytes.last() == 0x5c) {
        lemma_file_name_start_le_len(bytes.drop_last());
    }
}

/// A separator-free tail does not move the file-name start.
proof fn lemma_file_name_start_tail(bytes: Seq<u8>, k: int)
    requires
        0 <= k <= bytes.len(),
        forall|j: int| k <= j < bytes.len() ==> !is_path_sep(#[trigger] bytes[j]),
    ensures
        file_name_start(bytes) == file_name_start(bytes.take(k)),
    decreases bytes.len() - k,
{
    if k < bytes.len() {
        let m = bytes.len() as int;
        assert(!is_path_sep(bytes[m - 1]));
        assert(bytes.drop_last() =~= bytes.take(m - 1));
        assert(bytes.take(m - 1).take(k) =~= bytes.take(k));
        lemma_file_name_start_tail(bytes.take(m - 1), k);
    } else {
        assert(bytes.take(k) =~= bytes);
    }
}

/// Whether `path` names a workbook file (a `.xlsx` suffix, in any letter
/// case, with a file name before the dot; one trailing separator is
/// ignored).
pub fn is_xlsx_file(path: &str) -> (r: bool)
    ensures
        r == spec_is_xlsx_path(path.spec_bytes()),
{
    let bytes = path.as_bytes();
    let n = bytes.len();
    let end: usize = if n > 0 && (bytes[n - 1] == 0x2f || bytes[n - 1] == 0x5c) {
        n - 1
    } else {
        n
    };
    let ghost t = trim_trailing_sep(bytes@);
    proof {
        assert(t =~= bytes@.take(end as int));
        lemma_file_name_start_le_len(t);
    }
    if end < 6 {
        return false;
    }
    let dot = bytes[end - 5];
    let e1 = bytes[end - 4];
    let e2 = bytes[end - 3];
    let e3 = bytes[end - 2];
    let e4 = bytes[end - 1];
    let l1 = if 0x41 <= e1 && e1 <= 0x5a {
        e1 + 0x20
    } else {
        e1
    };
    let l2 = if 0x41 <= e2 && e2 <= 0x5a {
        e2 + 0x20
    } else {
        e2
    };
    let l3 = if 0x41 <= e3 && e3 <= 0x5a {
        e3 + 0x20
    } else {
        e3
    };
    let l4 = if 0x41 <= e4 && e4 <= 0x5a {
        e4 + 0x20
    } else {
        e4
    };
    if !(dot == 0x2e && l1 == 0x78 && l2 == 0x6c && l3 == 0x73 && l4 == 0x78) {
        return false;
    }
    proof {
        assert(forall|j: int| end - 5 <= j < t.len() ==> !is_path_sep(#[trigger] t[j]));
        lemma_file_name_start_tail(t, end - 5);
    }
    let prev = bytes[end - 6];
    if prev == 0x2f || prev == 0x5c {
        proof {
            assert(t.take(end - 5).last() == bytes@[end - 6]);
            assert(file_name_start(t.take(end - 5)) == end - 5);
        }
        false
    } else {
        proof {
            assert(t.take(end - 5).last() == bytes@[end - 6]);
            assert(t.take(end - 5).drop_last() =~= t.take(end - 6));
            lemma_file_name_start_le_len(t.take(end - 6));
        }
        true
    }
}

/// The export file's name: the source name, an underscore, the timestamp
/// the caller rendered, and the workbook suffix.
pub fn output_filename_with_timestamp(source_name: &str, timestamp: &str) -> (r: String)
    ensures
        r@ == source_name@ + "_"@ + timestamp@ + ".xlsx"@,
{
    let mut r = source_name.to_owned();
    r.append("_");
    r.append(timestamp);
    r.append(".xlsx");
    r
}

} // verus!
