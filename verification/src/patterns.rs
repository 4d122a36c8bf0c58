//! Scanners for the three number patterns.
//!
//! Each scanner walks the UTF-8 bytes of a text cell and reports every
//! non-overlapping, leftmost candidate as `(value, start, end)` with byte
//! offsets into the original text. A candidate must be bounded by
//! non-digit bytes (or the ends of the text), so a pattern never matches the
//! middle of a longer digit run. The byte view is exact here: every pattern
//! byte is ASCII, and a multi-byte character can neither start nor continue
//! a candidate.

use vstd::prelude::*;
use vstd::string::StringSliceAdditionalSpecFns;

use crate::text::{chars_of_bytes, is_digit_byte};
use crate::validator::is_check_byte;

verus! {

/// A separator byte tolerated inside phone and card numbers: `-` or space.
pub open spec fn is_sep_byte(b: u8) -> bool {
    b == 0x2d || b == 0x20
}

/// `k` digit bytes in a row starting at `p`.
pub open spec fn digits_at(b: Seq<u8>, p: int, k: int) -> bool {
    &&& 0 <= p
    &&& p + k <= b.len()
    &&& forall|i: int| p <= i < p + k ==> is_digit_byte(#[trigger] b[i])
}

/// No digit byte immediately before `p`: a candidate may start here.
pub open spec fn non_digit_before(b: Seq<u8>, p: int) -> bool {
    p == 0 || !is_digit_byte(b[p - 1])
}

/// No digit byte at `e`: a candidate may end here.
pub open spec fn non_digit_at_or_end(b: Seq<u8>, e: int) -> bool {
    e == b.len() || !is_digit_byte(b[e])
}

/// Position after an optional single separator byte at `q`.
pub open spec fn after_opt_sep(b: Seq<u8>, q: int) -> int {
    if q < b.len() && is_sep_byte(b[q]) {
        q + 1
    } else {
        q
    }
}

/// End of the phone core starting at `q`: `1`, `3`-`9`, digit, optional
/// separator, four digits, optional separator, four digits.
pub open spec fn phone_core_end(b: Seq<u8>, q: int) -> Option<int> {
    if q + 3 <= b.len() && b[q] == 0x31 && 0x33 <= b[q + 1] <= 0x39 && is_digit_byte(b[q + 2]) {
        let r1 = after_opt_sep(b, q + 3);
        if digits_at(b, r1, 4) {
            let r2 = after_opt_sep(b, r1 + 4);
            if digits_at(b, r2, 4) {
                Some(r2 + 4)
            } else {
                None
            }
        } else {
            None
        }
    } else {
        None
    }
}

/// Where the phone core must start, after the optional country prefix at
/// `p`. A leading `+` or `86` commits to the prefix (the core itself starts
/// with `1`, so no other reading exists); `None` when the committed prefix
/// is incomplete.
pub open spec fn phone_core_start(b: Seq<u8>, p: int) -> Option<int> {
    if p < b.len() && b[p] == 0x2b {
        if p + 3 <= b.len() && b[p + 1] == 0x38 && b[p + 2] == 0x36 {
            Some(after_opt_sep(b, p + 3))
        } else {
            None
        }
    } else if p + 2 <= b.len() && b[p] == 0x38 && b[p + 1] == 0x36 {
        Some(after_opt_sep(b, p + 2))
    } else {
        Some(p)
    }
}

/// End of a phone candidate whose reported value starts at `p`, if the
/// pattern and both its bounds hold there.
pub open spec fn phone_match_end(b: Seq<u8>, p: int) -> Option<int> {
    if non_digit_before(b, p) {
        match phone_core_start(b, p) {
            Some(q) => match phone_core_end(b, q) {
                Some(e) => if non_digit_at_or_end(b, e) {
                    Some(e)
                } else {
                    None
                },
                None => None,
            },
            None => None,
        }
    } else {
        None
    }
}

/// The non-overlapping, leftmost matches of `m` in `b` from position `p`
/// on: the earliest candidate is taken whole and the scan resumes at its
/// end. (The guard on `e` only shapes the recursion; every matcher here
/// returns an end inside the text and past `p`.)
pub open spec fn matches_from(
    b: Seq<u8>,
    p: int,
    m: spec_fn(Seq<u8>, int) -> Option<int>,
) -> Seq<(int, int)>
    decreases b.len() - p,
{
    if p < 0 || p >= b.len() {
        Seq::empty()
    } else {
        match m(b, p) {
            Some(e) => if p < e <= b.len() {
                seq![(p, e)] + matches_from(b, e, m)
            } else {
                matches_from(b, p + 1, m)
            },
            None => matches_from(b, p + 1, m),
        }
    }
}

/// All phone candidates of a text from position `p` on, in order.
pub open spec fn phone_matches_from(b: Seq<u8>, p: int) -> Seq<(int, int)> {
    matches_from(b, p, |bb: Seq<u8>, pp: int| phone_match_end(bb, pp))
}

/// All phone candidates of a text, in order.
pub open spec fn phone_matches(b: Seq<u8>) -> Seq<(int, int)> {
    phone_matches_from(b, 0)
}

/// One step of the phone scan.
proof fn lemma_phone_matches_step(b: Seq<u8>, p: int)
    requires
        0 <= p < b.len(),
    ensures
        match phone_match_end(b, p) {
            Some(e) => p < e <= b.len() ==> phone_matches_from(b, p) == seq![(p, e)]
                + phone_matches_from(b, e),
            None => phone_matches_from(b, p) == phone_matches_from(b, p + 1),
        },
{
}

/// The spans reported by a scanner result.
pub open spec fn spans_of(r: Seq<(String, usize, usize)>) -> Seq<(int, int)> {
    r.map_values(|t: (String, usize, usize)| (t.1 as int, t.2 as int))
}

/// The scanner output reports exactly the spans `ms` of the text `b`,
/// each with the text it covers.
pub open spec fn reported_matches(
    r: Seq<(String, usize, usize)>,
    b: Seq<u8>,
    ms: Seq<(int, int)>,
) -> bool {
    &&& r.len() == ms.len()
    &&& forall|k: int|
        0 <= k < r.len() ==> {
            &&& (#[trigger] r[k]).1 as int == ms[k].0
            &&& r[k].2 as int == ms[k].1
            &&& 0 <= ms[k].0 < ms[k].1 <= b.len()
            &&& r[k].0@ == chars_of_bytes(b.subrange(ms[k].0, ms[k].1))
            &&& forall|i: int| ms[k].0 <= i < ms[k].1 ==> #[trigger] b[i] < 0x80
        }
}

/// The structural shape of an eighteen-character identity number at `p`:
/// a nonzero digit, five digits, a year in 19xx or 20xx, a month 01 to 12,
/// a day 01 to 31, three digits, and a check character (digit, `X` or `x`).
pub open spec fn id_shape_at(b: Seq<u8>, p: int) -> bool {
    &&& 0 <= p
    &&& p + 18 <= b.len()
    &&& 0x31 <= b[p] <= 0x39
    &&& digits_at(b, p + 1, 5)
    &&& ((b[p + 6] == 0x31 && b[p + 7] == 0x39) || (b[p + 6] == 0x32 && b[p + 7] == 0x30))
    &&& digits_at(b, p + 8, 2)
    &&& ((b[p + 10] == 0x30 && 0x31 <= b[p + 11] <= 0x39) || (b[p + 10] == 0x31 && 0x30 <= b[p
        + 11] <= 0x32))
    &&& ((b[p + 12] == 0x30 && 0x31 <= b[p + 13] <= 0x39) || ((b[p + 12] == 0x31 || b[p + 12]
        == 0x32) && is_digit_byte(b[p + 13])) || (b[p + 12] == 0x33 && (b[p + 13] == 0x30 || b[p
        + 13] == 0x31)))
    &&& digits_at(b, p + 14, 3)
    &&& is_check_byte(b[p + 17])
}

/// End of an identity-number candidate at `p`: the shape holds, no digit
/// stands just before it, and no digit or check character just after it.
pub open spec fn id_match_end(b: Seq<u8>, p: int) -> Option<int> {
    if non_digit_before(b, p) && id_shape_at(b, p) && (p + 18 == b.len() || !is_check_byte(
        b[p + 18],
    )) {
        Some(p + 18)
    } else {
        None
    }
}

/// All identity-number candidates from `p` on, in order.
pub open spec fn id_matches_from(b: Seq<u8>, p: int) -> Seq<(int, int)> {
    matches_from(b, p, |bb: Seq<u8>, pp: int| id_match_end(bb, pp))
}

/// All identity-number candidates of a text, in order.
pub open spec fn id_matches(b: Seq<u8>) -> Seq<(int, int)> {
    id_matches_from(b, 0)
}

/// One step of the identity-number scan.
proof fn lemma_id_matches_step(b: Seq<u8>, p: int)
    requires
        0 <= p < b.len(),
    ensures
        match id_match_end(b, p) {
            Some(e) => p < e <= b.len() ==> id_matches_from(b, p) == seq![(p, e)]
                + id_matches_from(b, e),
            None => id_matches_from(b, p) == id_matches_from(b, p + 1),
        },
{
}

/// A matched identity-number span is made of ASCII bytes.
proof fn lemma_id_match_ascii(b: Seq<u8>, p: int, e: int)
    requires
        0 <= p < b.len(),
        id_match_end(b, p) == Some(e),
    ensures
        p < e <= b.len(),
        forall|i: int| p <= i < e ==> #[trigger] b[i] < 0x80,
{
    assert forall|i: int| p <= i < e implies #[trigger] b[i] < 0x80 by {
        if i == p || i == p + 6 || i == p + 7 || i == p + 10 || i == p + 11 || i == p + 12 || i == p
            + 13 || i == p + 17 {
        } else if i < p + 6 {
            assert(digits_at(b, p + 1, 5));
        } else if i < p + 10 {
            assert(digits_at(b, p + 8, 2));
        } else {
            assert(digits_at(b, p + 14, 3));
        }
    }
}

/// Sixteen digits in four groups of four with optional single separators
/// between the groups; the result is the end of the sixteenth digit.
pub open spec fn bank_core_end(b: Seq<u8>, p: int) -> Option<int> {
    if digits_at(b, p, 4) {
        let s1 = after_opt_sep(b, p + 4);
        if digits_at(b, s1, 4) {
            let s2 = after_opt_sep(b, s1 + 4);
            if digits_at(b, s2, 4) {
                let s3 = after_opt_sep(b, s2 + 4);
                if digits_at(b, s3, 4) {
                    Some(s3 + 4)
                } else {
                    None
                }
            } else {
                None
            }
        } else {
            None
        }
    } else {
        None
    }
}

/// End of the optional trailing one-to-three digit group after the core
/// ending at `e0`, greedy and bounded by a non-digit. Four or more digits
/// right after the core leave no bounded reading at all and the whole
/// candidate fails; four or more digits after a separator only drop the
/// tail, since the bare core still ends at the separator.
pub open spec fn bank_tail_end(b: Seq<u8>, e0: int) -> Option<int> {
    let t = after_opt_sep(b, e0);
    if t < b.len() && is_digit_byte(b[t]) {
        if digits_at(b, t, 4) {
            if t > e0 {
                Some(e0)
            } else {
                None
            }
        } else if digits_at(b, t, 3) {
            Some(t + 3)
        } else if digits_at(b, t, 2) {
            Some(t + 2)
        } else {
            Some(t + 1)
        }
    } else {
        Some(e0)
    }
}

/// End of a bank-card candidate at `p`: the sixteen-digit core, then the
/// greedy optional tail, bounded by non-digits on both sides.
pub open spec fn bank_match_end(b: Seq<u8>, p: int) -> Option<int> {
    if non_digit_before(b, p) {
        match bank_core_end(b, p) {
            Some(e0) => bank_tail_end(b, e0),
            None => None,
        }
    } else {
        None
    }
}

/// All bank-card candidates from `p` on, in order.
pub open spec fn bank_matches_from(b: Seq<u8>, p: int) -> Seq<(int, int)> {
    matches_from(b, p, |bb: Seq<u8>, pp: int| bank_match_end(bb, pp))
}

/// All bank-card candidates of a text, in order.
pub open spec fn bank_matches(b: Seq<u8>) -> Seq<(int, int)> {
    bank_matches_from(b, 0)
}

/// One step of the bank-card scan.
proof fn lemma_bank_matches_step(b: Seq<u8>, p: int)
    requires
        0 <= p < b.len(),
    ensures
        match bank_match_end(b, p) {
            Some(e) => p < e <= b.len() ==> bank_matches_from(b, p) == seq![(p, e)]
                + bank_matches_from(b, e),
            None => bank_matches_from(b, p) == bank_matches_from(b, p + 1),
        },
{
}

/// A matched bank-card span is made of ASCII bytes.
proof fn lemma_bank_match_ascii(b: Seq<u8>, p: int, e: int)
    requires
        0 <= p < b.len(),
        bank_match_end(b, p) == Some(e),
    ensures
        p < e <= b.len(),
        forall|i: int| p <= i < e ==> #[trigger] b[i] < 0x80,
{
    let s1 = after_opt_sep(b, p + 4);
    let s2 = after_opt_sep(b, s1 + 4);
    let s3 = after_opt_sep(b, s2 + 4);
    let e0 = s3 + 4;
    let t = after_opt_sep(b, e0);
    assert forall|i: int| p <= i < e implies #[trigger] b[i] < 0x80 by {
        if i < p + 4 {
            assert(digits_at(b, p, 4));
        } else if i < s1 {
            assert(i == p + 4 && is_sep_byte(b[i]));
        } else if i < s1 + 4 {
            assert(digits_at(b, s1, 4));
        } else if i < s2 {
            assert(i == s1 + 4 && is_sep_byte(b[i]));
        } else if i < s2 + 4 {
            assert(digits_at(b, s2, 4));
        } else if i < s3 {
            assert(i == s2 + 4 && is_sep_byte(b[i]));
        } else if i < e0 {
            assert(digits_at(b, s3, 4));
        } else if i < t {
            assert(i == e0 && is_sep_byte(b[i]));
        } else {
            assert(t <= i < e && is_digit_byte(b[i]));
        }
    }
}

/// A matched phone span lies inside the text and is made of ASCII bytes.
proof fn lemma_phone_match_ascii(b: Seq<u8>, p: int, e: int)
    requires
        0 <= p < b.len(),
        phone_match_end(b, p) == Some(e),
    ensures
        p < e <= b.len(),
        forall|i: int| p <= i < e ==> #[trigger] b[i] < 0x80,
{
    let q = phone_core_start(b, p)->Some_0;
    let r1 = after_opt_sep(b, q + 3);
    let r2 = after_opt_sep(b, r1 + 4);
    assert(e == r2 + 4);
    assert forall|i: int| p <= i < e implies #[trigger] b[i] < 0x80 by {
        if i < q {
            assert(b[p] == 0x2b || b[p] == 0x38);
            if b[p] == 0x2b {
                assert(i == p || i == p + 1 || i == p + 2 || (i == p + 3 && is_sep_byte(b[i])));
            } else {
                assert(i == p || i == p + 1 || (i == p + 2 && is_sep_byte(b[i])));
            }
        } else if i < q + 3 {
            assert(b[q] == 0x31 && 0x33 <= b[q + 1] <= 0x39 && is_digit_byte(b[q + 2]));
        } else if i < r1 {
            assert(i == q + 3 && is_sep_byte(b[i]));
        } else if i < r1 + 4 {
            assert(digits_at(b, r1, 4));
        } else if i < r2 {
            assert(i == r1 + 4 && is_sep_byte(b[i]));
        } else {
            assert(digits_at(b, r2, 4));
        }
    }
}

/// True when there is a separator byte at `q`; `r` is the position after it.
fn opt_sep(bytes: &[u8], q: usize) -> (r: usize)
    requires
        q <= bytes@.len(),
    ensures
        r as int == after_opt_sep(bytes@, q as int),
        q <= r <= bytes@.len(),
{
    if q < bytes.len() && (bytes[q] == 0x2d || bytes[q] == 0x20) {
        q + 1
    } else {
        q
    }
}

/// Whether `k` digit bytes stand in a row at `q`.
fn digits_at_exec(bytes: &[u8], q: usize, k: usize) -> (r: bool)
    ensures
        r == digits_at(bytes@, q as int, k as int),
{
    let n = bytes.len();
    if q > n || k > n - q {
        return false;
    }
    let mut i: usize = 0;
    while i < k
        invariant
            0 <= i <= k,
            n == bytes@.len(),
            q + k <= n,
            forall|j: int| q <= j < q + i ==> is_digit_byte(#[trigger] bytes@[j]),
        decreases k - i,
    {
        let b = bytes[q + i];
        if !(0x30 <= b && b <= 0x39) {
            return false;
        }
        i = i + 1;
    }
    true
}

/// The end of the phone candidate starting at `p`, if any.
fn try_phone(bytes: &[u8], p: usize) -> (r: Option<usize>)
    requires
        p < bytes@.len(),
    ensures
        match r {
            Some(e) => phone_match_end(bytes@, p as int) == Some(e as int) && p < e
                <= bytes@.len(),
            None => phone_match_end(bytes@, p as int) is None,
        },
{
    let n = bytes.len();
    if p > 0 && 0x30 <= bytes[p - 1] && bytes[p - 1] <= 0x39 {
        return None;
    }
    let q: usize = if bytes[p] == 0x2b {
        if n - p >= 3 && bytes[p + 1] == 0x38 && bytes[p + 2] == 0x36 {
            opt_sep(bytes, p + 3)
        } else {
            return None;
        }
    } else if n - p >= 2 && bytes[p] == 0x38 && bytes[p + 1] == 0x36 {
        opt_sep(bytes, p + 2)
    } else {
        p
    };
    if !(q <= n && n - q >= 3) {
        return None;
    }
    if !(bytes[q] == 0x31 && 0x33 <= bytes[q + 1] && bytes[q + 1] <= 0x39 && 0x30 <= bytes[q + 2]
        && bytes[q + 2] <= 0x39) {
        return None;
    }
    let r1 = opt_sep(bytes, q + 3);
    if !digits_at_exec(bytes, r1, 4) {
        return None;
    }
    let r2 = opt_sep(bytes, r1 + 4);
    if !digits_at_exec(bytes, r2, 4) {
        return None;
    }
    let e = r2 + 4;
    if e < n && 0x30 <= bytes[e] && bytes[e] <= 0x39 {
        return None;
    }
    Some(e)
}

/// The end of the identity-number candidate starting at `p`, if any.
fn try_id(bytes: &[u8], p: usize) -> (r: Option<usize>)
    requires
        p < bytes@.len(),
    ensures
        match r {
            Some(e) => id_match_end(bytes@, p as int) == Some(e as int) && p < e <= bytes@.len(),
            None => id_match_end(bytes@, p as int) is None,
        },
{
    let n = bytes.len();
    if p > 0 && 0x30 <= bytes[p - 1] && bytes[p - 1] <= 0x39 {
        return None;
    }
    if n - p < 18 {
        return None;
    }
    if !(0x31 <= bytes[p] && bytes[p] <= 0x39) {
        return None;
    }
    if !digits_at_exec(bytes, p + 1, 5) {
        return None;
    }
    let y0 = bytes[p + 6];
    let y1 = bytes[p + 7];
    if !((y0 == 0x31 && y1 == 0x39) || (y0 == 0x32 && y1 == 0x30)) {
        return None;
    }
    if !digits_at_exec(bytes, p + 8, 2) {
        return None;
    }
    let m0 = bytes[p + 10];
    let m1 = bytes[p + 11];
    if !((m0 == 0x30 && 0x31 <= m1 && m1 <= 0x39) || (m0 == 0x31 && 0x30 <= m1 && m1 <= 0x32)) {
        return None;
    }
    let d0 = bytes[p + 12];
    let d1 = bytes[p + 13];
    if !((d0 == 0x30 && 0x31 <= d1 && d1 <= 0x39) || ((d0 == 0x31 || d0 == 0x32) && 0x30 <= d1
        && d1 <= 0x39) || (d0 == 0x33 && (d1 == 0x30 || d1 == 0x31))) {
        return None;
    }
    if !digits_at_exec(bytes, p + 14, 3) {
        return None;
    }
    let c = bytes[p + 17];
    if !((0x30 <= c && c <= 0x39) || c == 0x58 || c == 0x78) {
        return None;
    }
    if p + 18 < n {
        let after = bytes[p + 18];
        if (0x30 <= after && after <= 0x39) || after == 0x58 || after == 0x78 {
            return None;
        }
    }
    Some(p + 18)
}

/// The end of the bank-card candidate starting at `p`, if any.
fn try_bank(bytes: &[u8], p: usize) -> (r: Option<usize>)
    requires
        p < bytes@.len(),
    ensures
        match r {
            Some(e) => bank_match_end(bytes@, p as int) == Some(e as int) && p < e
                <= bytes@.len(),
            None => bank_match_end(bytes@, p as int) is None,
        },
{
    let n = bytes.len();
    if p > 0 && 0x30 <= bytes[p - 1] && bytes[p - 1] <= 0x39 {
        return None;
    }
    if !digits_at_exec(bytes, p, 4) {
        return None;
    }
    let s1 = opt_sep(bytes, p + 4);
    if !digits_at_exec(bytes, s1, 4) {
        return None;
    }
    let s2 = opt_sep(bytes, s1 + 4);
    if !digits_at_exec(bytes, s2, 4) {
        return None;
    }
    let s3 = opt_sep(bytes, s2 + 4);
    if !digits_at_exec(bytes, s3, 4) {
        return None;
    }
    let e0 = s3 + 4;
    let t = opt_sep(bytes, e0);
    if t < n && 0x30 <= bytes[t] && bytes[t] <= 0x39 {
        if digits_at_exec(bytes, t, 4) {
            if t > e0 {
                return Some(e0);
            }
            return None;
        }
        if digits_at_exec(bytes, t, 3) {
            return Some(t + 3);
        }
        if digits_at_exec(bytes, t, 2) {
            return Some(t + 2);
        }
        Some(t + 1)
    } else {
        Some(e0)
    }
}

/// Every phone-shaped number of `text`, leftmost first, with its byte span.
pub fn extract_phones(text: &str) -> (r: Vec<(String, usize, usize)>)
    ensures
        reported_matches(r@, text.spec_bytes(), phone_matches(text.spec_bytes())),
{
    let bytes = text.as_bytes();
    let mut out: Vec<(String, usize, usize)> = Vec::new();
    let mut p: usize = 0;
    let n = bytes.len();
    while p < n
        invariant
            0 <= p <= n,
            n == bytes@.len(),
            bytes@ == text.spec_bytes(),
            phone_matches(bytes@) == spans_of(out@) + phone_matches_from(bytes@, p as int),
            reported_matches(out@, bytes@, spans_of(out@)),
        decreases n - p,
    {
        proof {
            lemma_phone_matches_step(bytes@, p as int);
        }
        match try_phone(bytes, p) {
            Some(e) => {
                proof {
                    lemma_phone_match_ascii(bytes@, p as int, e as int);
                }
                let value = crate::text::bytes_range_string(bytes, p, e);
                let ghost out0 = out@;
                out.push((value, p, e));
                proof {
                    assert(spans_of(out@) =~= spans_of(out0).push((p as int, e as int)));
                    assert(phone_matches(bytes@) =~= spans_of(out@) + phone_matches_from(
                        bytes@,
                        e as int,
                    ));
                }
                p = e;
            },
            None => {
                p = p + 1;
            },
        }
    }
    proof {
        assert(phone_matches_from(bytes@, p as int) =~= Seq::<(int, int)>::empty());
        assert(phone_matches(bytes@) =~= spans_of(out@));
    }
    out
}

/// Every identity-number-shaped string of `text`, leftmost first, with its
/// byte span.
pub fn extract_id_cards(text: &str) -> (r: Vec<(String, usize, usize)>)
    ensures
        reported_matches(r@, text.spec_bytes(), id_matches(text.spec_bytes())),
{
    let bytes = text.as_bytes();
    let mut out: Vec<(String, usize, usize)> = Vec::new();
    let mut p: usize = 0;
    let n = bytes.len();
    while p < n
        invariant
            0 <= p <= n,
            n == bytes@.len(),
            bytes@ == text.spec_bytes(),
            id_matches(bytes@) == spans_of(out@) + id_matches_from(bytes@, p as int),
            reported_matches(out@, bytes@, spans_of(out@)),
        decreases n - p,
    {
        proof {
            lemma_id_matches_step(bytes@, p as int);
        }
        match try_id(bytes, p) {
            Some(e) => {
                proof {
                    lemma_id_match_ascii(bytes@, p as int, e as int);
                }
                let value = crate::text::bytes_range_string(bytes, p, e);
                let ghost out0 = out@;
                out.push((value, p, e));
                proof {
                    assert(spans_of(out@) =~= spans_of(out0).push((p as int, e as int)));
                    assert(id_matches(bytes@) =~= spans_of(out@) + id_matches_from(
                        bytes@,
                        e as int,
                    ));
                }
                p = e;
            },
            None => {
                p = p + 1;
            },
        }
    }
    proof {
        assert(id_matches_from(bytes@, p as int) =~= Seq::<(int, int)>::empty());
        assert(id_matches(bytes@) =~= spans_of(out@));
    }
    out
}

/// Every bank-card-shaped number of `text`, leftmost first, with its byte
/// span. The shape deliberately overmatches (sixteen to nineteen digits):
/// the validator, not the scanner, is the source of truth for acceptance.
pub fn extract_bank_cards(text: &str) -> (r: Vec<(String, usize, usize)>)
    ensures
        reported_matches(r@, text.spec_bytes(), bank_matches(text.spec_bytes())),
{
    let bytes = text.as_bytes();
    let mut out: Vec<(String, usize, usize)> = Vec::new();
    let mut p: usize = 0;
    let n = bytes.len();
    while p < n
        invariant
            0 <= p <= n,
            n == bytes@.len(),
            bytes@ == text.spec_bytes(),
            bank_matches(bytes@) == spans_of(out@) + bank_matches_from(bytes@, p as int),
            reported_matches(out@, bytes@, spans_of(out@)),
        decreases n - p,
    {
        proof {
            lemma_bank_matches_step(bytes@, p as int);
        }
        match try_bank(bytes, p) {
            Some(e) => {
                proof {
                    lemma_bank_match_ascii(bytes@, p as int, e as int);
                }
                let value = crate::text::bytes_range_string(bytes, p, e);
                let ghost out0 = out@;
                out.push((value, p, e));
                proof {
                    assert(spans_of(out@) =~= spans_of(out0).push((p as int, e as int)));
                    assert(bank_matches(bytes@) =~= spans_of(out@) + bank_matches_from(
                        bytes@,
                        e as int,
                    ));
                }
                p = e;
            },
            None => {
                p = p + 1;
            },
        }
    }
    proof {
        assert(bank_matches_from(bytes@, p as int) =~= Seq::<(int, int)>::empty());
        assert(bank_matches(bytes@) =~= spans_of(out@));
    }
    out
}

} // verus!
