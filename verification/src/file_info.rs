//! One spreadsheet file as a unit of work, and its processing state.

use vstd::prelude::*;
use vstd::string::StringSliceAdditionalSpecFns;

verus! {

/// The state machine of one file task: waiting, running with a progress
/// percentage, done, or failed with a message.
#[derive(Clone, Debug, PartialEq)]
pub enum FileStatus {
    Pending,
    Processing(u8),
    Completed,
    Error(String),
}

impl FileStatus {
    /// Running, with the percentage clamped to one hundred.
    pub fn processing(progress: u8) -> (s: FileStatus)
        ensures
            s == FileStatus::Processing(
                if progress > 100 {
                    100u8
                } else {
                    progress
                },
            ),
    {
        if progress > 100 {
            FileStatus::Processing(100)
        } else {
            FileStatus::Processing(progress)
        }
    }

    /// Done.
    pub fn completed() -> (s: FileStatus)
        ensures
            s == FileStatus::Completed,
    {
        FileStatus::Completed
    }

    /// Failed, with a message for the user.
    pub fn error(message: String) -> (s: FileStatus)
        ensures
            s == FileStatus::Error(message),
    {
        FileStatus::Error(message)
    }

    /// Whether this is the failed state.
    pub fn is_error(&self) -> (r: bool)
        ensures
            r == (self is Error),
    {
        match self {
            FileStatus::Error(_) => true,
            _ => false,
        }
    }
}

impl Default for FileStatus {
    /// A fresh task waits.
    fn default() -> (s: FileStatus)
        ensures
            s == FileStatus::Pending,
    {
        FileStatus::Pending
    }
}

/// Where the file name begins in a path: right after the last separator
/// byte (`/` or `\`), or at the start when there is none.
pub open spec fn file_name_start(bytes: Seq<u8>) -> int
    decreases bytes.len(),
{
    if bytes.len() == 0 {
        0
    } else if bytes.last() == 0x2f || bytes.last() == 0x5c {
        bytes.len() as int
    } else {
        file_name_start(bytes.drop_last())
    }
}

/// A path with one trailing separator removed: the last component of a
/// path is named without the separator that may close it.
pub open spec fn trim_trailing_sep(bytes: Seq<u8>) -> Seq<u8> {
    if bytes.len() > 0 && (bytes.last() == 0x2f || bytes.last() == 0x5c) {
        bytes.drop_last()
    } else {
        bytes
    }
}

/// The file name a path carries: the text after the last separator, one
/// trailing separator ignored; empty when that component is `.` or `..`,
/// or when nothing is left (a bare root).
pub open spec fn spec_file_name(bytes: Seq<u8>) -> Seq<u8> {
    let t = trim_trailing_sep(bytes);
    let nm = t.skip(file_name_start(t));
    if (nm.len() == 1 && nm[0] == 0x2e) || (nm.len() == 2 && nm[0] == 0x2e && nm[1] == 0x2e) {
        Seq::empty()
    } else {
        nm
    }
}

/// A file queued for processing.
#[derive(Clone, Debug)]
pub struct FileInfo {
    /// The path as text.
    pub file_path: String,
    /// The last path component, shown to the user and attached to results.
    pub file_name: String,
    /// Header names of the first sheet, once read.
    pub columns: Vec<String>,
    /// Data rows of the file, once counted.
    pub row_count: u32,
    pub status: FileStatus,
    /// Whether the user keeps the file in the working set.
    pub selected: bool,
}

impl FileInfo {
    /// A fresh task for `path`: pending, selected, nothing read yet; the
    /// file name is the path's final component (`.` and `..` carry no
    /// name).
    pub fn from_path(path: String) -> (f: FileInfo)
        ensures
            f.file_path == path,
            vstd::utf8::encode_utf8(f.file_name@) == spec_file_name(
                vstd::utf8::encode_utf8(path@),
            ),
            f.columns@ =~= Seq::<String>::empty(),
            f.row_count == 0,
            f.status == FileStatus::Pending,
            f.selected,
    {
        let ps = path.as_str();
        let bytes = ps.as_bytes();
        let n = bytes.len();
        let end: usize = if n > 0 && (bytes[n - 1] == 0x2f || bytes[n - 1] == 0x5c) {
            n - 1
        } else {
            n
        };
        let ghost t = trim_trailing_sep(bytes@);
        proof {
            assert(t =~= bytes@.take(end as int));
            assert(t.take(end as int) =~= t);
        }
        let mut cut: usize = end;
        while cut > 0 && !(bytes[cut - 1] == 0x2f || bytes[cut - 1] == 0x5c)
            invariant
                0 <= cut <= end,
                end <= n == bytes@.len(),
                bytes@ == ps.spec_bytes(),
                t == trim_trailing_sep(bytes@),
                t =~= bytes@.take(end as int),
                file_name_start(t) == file_name_start(t.take(cut as int)),
            decreases cut,
        {
            proof {
                assert(t.take(cut as int).drop_last() =~= t.take(cut - 1));
                assert(t.take(cut as int).last() == bytes@[cut - 1]);
            }
            cut = cut - 1;
        }
        proof {
            if cut == 0 {
                assert(file_name_start(t.take(0)) == 0);
            } else {
                assert(t.take(cut as int).last() == bytes@[cut - 1]);
                assert(file_name_start(t.take(cut as int)) == cut);
            }
        }
        let name_len = end - cut;
        let file_name: String = if (name_len == 1 && bytes[cut] == 0x2e) || (name_len == 2
            && bytes[cut] == 0x2e && bytes[cut + 1] == 0x2e) {
            proof {
                assert(t.skip(cut as int) =~= bytes@.subrange(cut as int, end as int));
            }
            String::new()
        } else {
            proof {
                vstd::utf8::encode_utf8_valid_utf8(ps@);
                crate::text::lemma_boundary_after_ascii(ps.spec_bytes(), cut as int);
            }
            let (_, tail) = ps.split_at(cut);
            proof {
                vstd::utf8::encode_utf8_valid_utf8(tail@);
                crate::text::lemma_boundary_at_ascii(tail.spec_bytes(), name_len as int);
            }
            let (name, _) = tail.split_at(name_len);
            proof {
                assert(name.spec_bytes() =~= bytes@.subrange(cut as int, end as int));
                assert(t.skip(cut as int) =~= bytes@.subrange(cut as int, end as int));
            }
            name.to_owned()
        };
        proof {
            if file_name@.len() == 0 {
                assert(vstd::utf8::encode_utf8(file_name@) =~= Seq::<u8>::empty());
            }
        }
        FileInfo {
            file_path: path,
            file_name,
            columns: Vec::new(),
            row_count: 0,
            status: FileStatus::Pending,
            selected: true,
        }
    }
}

} // verus!
