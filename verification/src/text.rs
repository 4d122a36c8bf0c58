//! Byte-level text model.
//!
//! The scanners and validators reason about the UTF-8 bytes of a text cell:
//! every pattern of interest is made of ASCII bytes, and the offsets the
//! scanners report are byte offsets, so the byte view is the exact one.

use vstd::prelude::*;
use vstd::string::StringExecFns;
use vstd::string::StringSliceAdditionalSpecFns;

verus! {

/// The pieces of `parts` glued together with `sep` between neighbours.
pub open spec fn join_with(parts: Seq<Seq<char>>, sep: Seq<char>) -> Seq<char>
    decreases parts.len(),
{
    if parts.len() == 0 {
        Seq::empty()
    } else if parts.len() == 1 {
        parts[0]
    } else {
        parts[0] + sep + join_with(parts.drop_first(), sep)
    }
}

/// Joining one more piece appends a separator and the piece.
pub proof fn lemma_join_with_push(parts: Seq<Seq<char>>, sep: Seq<char>, x: Seq<char>)
    ensures
        join_with(parts.push(x), sep) == if parts.len() == 0 {
            x
        } else {
            join_with(parts, sep) + sep + x
        },
    decreases parts.len(),
{
    if parts.len() == 0 {
        assert(parts.push(x)[0] == x);
    } else {
        lemma_join_with_push(parts.drop_first(), sep, x);
        assert(parts.push(x).drop_first() =~= parts.drop_first().push(x));
        assert(parts.push(x)[0] == parts[0]);
        if parts.len() == 1 {
            assert(join_with(parts.push(x), sep) == parts[0] + sep + x);
        } else {
            assert(parts[0] + sep + (join_with(parts.drop_first(), sep) + sep + x) =~= (parts[0]
                + sep + join_with(parts.drop_first(), sep)) + sep + x);
        }
    }
}

/// Glue the strings of `items` together with `sep` between neighbours.
pub fn join_strs(items: &Vec<String>, sep: &str) -> (r: String)
    ensures
        r@ == join_with(items@.map_values(|s: String| s@), sep@),
{
    let ghost views = items@.map_values(|s: String| s@);
    let mut r = String::new();
    let mut i: usize = 0;
    while i < items.len()
        invariant
            0 <= i <= items@.len(),
            views == items@.map_values(|s: String| s@),
            r@ == join_with(views.take(i as int), sep@),
        decreases items@.len() - i,
    {
        proof {
            lemma_join_with_push(views.take(i as int), sep@, views[i as int]);
            assert(views.take(i + 1) =~= views.take(i as int).push(views[i as int]));
        }
        if i > 0 {
            r.append(sep);
        }
        r.append(items[i].as_str());
        proof {
            if i == 0 {
                assert(r@ =~= views[0]);
                assert(join_with(views.take(1), sep@) == views.take(1)[0]);
                assert(views.take(1)[0] == views[0]);
            }
        }
        i = i + 1;
    }
    proof {
        assert(views.take(items@.len() as int) =~= views);
    }
    r
}

/// `needle` occurs as a contiguous run inside `hay`.
pub open spec fn contains_seq(hay: Seq<u8>, needle: Seq<u8>) -> bool {
    exists|p: int|
        0 <= p && p + needle.len() <= hay.len() && #[trigger] hay.subrange(p, p + needle.len())
            == needle
}

/// Whether `needle` stands at position `p` of `hay`.
fn match_at(hay: &[u8], p: usize, needle: &[u8]) -> (r: bool)
    requires
        p + needle@.len() <= hay@.len(),
    ensures
        r == (hay@.subrange(p as int, p + needle@.len()) == needle@),
{
    let m = needle.len();
    let n = hay.len();
    let mut i: usize = 0;
    while i < m
        invariant
            0 <= i <= m,
            m == needle@.len(),
            n == hay@.len(),
            p + m <= n,
            forall|j: int| 0 <= j < i ==> hay@[p + j] == needle@[j],
        decreases m - i,
    {
        if hay[p + i] != needle[i] {
            proof {
                assert(hay@.subrange(p as int, p + needle@.len())[i as int] == hay@[p + i]);
            }
            return false;
        }
        i = i + 1;
    }
    proof {
        assert(hay@.subrange(p as int, p + needle@.len()) =~= needle@);
    }
    true
}

/// Whether the bytes of `needle` occur inside the bytes of `hay`.
pub fn contains_bytes(hay: &[u8], needle: &[u8]) -> (r: bool)
    ensures
        r == contains_seq(hay@, needle@),
{
    let n = hay.len();
    let m = needle.len();
    if m > n {
        return false;
    }
    if m == 0 {
        proof {
            assert(hay@.subrange(0, 0 + needle@.len() as int) =~= needle@);
        }
        return true;
    }
    let mut p: usize = 0;
    while p <= n - m
        invariant
            0 <= p <= n - m + 1,
            1 <= m <= n,
            n == hay@.len(),
            m == needle@.len(),
            forall|q: int|
                0 <= q < p ==> #[trigger] hay@.subrange(q, q + needle@.len()) != needle@,
        decreases n - p,
    {
        if match_at(hay, p, needle) {
            return true;
        }
        p = p + 1;
    }
    proof {
        assert forall|q: int| 0 <= q && q + needle@.len() <= hay@.len() implies #[trigger] hay@
            .subrange(q, q + needle@.len()) != needle@ by {
            assert(q < p);
        }
    }
    false
}

/// Whether two texts spell the same characters. (Two texts are equal
/// exactly when their UTF-8 bytes are.)
pub fn str_eq(a: &str, b: &str) -> (r: bool)
    ensures
        r == (a@ == b@),
{
    let ab = a.as_bytes();
    let bb = b.as_bytes();
    proof {
        vstd::utf8::encode_utf8_decode_utf8(a@);
        vstd::utf8::encode_utf8_decode_utf8(b@);
    }
    if ab.len() != bb.len() {
        return false;
    }
    let n = ab.len();
    let mut i: usize = 0;
    while i < n
        invariant
            0 <= i <= n,
            n == ab@.len() == bb@.len(),
            ab@ == a.spec_bytes(),
            bb@ == b.spec_bytes(),
            forall|j: int| 0 <= j < i ==> ab@[j] == bb@[j],
        decreases n - i,
    {
        if ab[i] != bb[i] {
            proof {
                vstd::utf8::encode_utf8_decode_utf8(a@);
                vstd::utf8::encode_utf8_decode_utf8(b@);
            }
            return false;
        }
        i = i + 1;
    }
    proof {
        assert(a.spec_bytes() =~= b.spec_bytes());
        assert(a@ == b@);
    }
    true
}

/// In valid UTF-8, the position after an ASCII byte, like position zero,
/// is a character boundary.
pub proof fn lemma_boundary_after_ascii(bytes: Seq<u8>, i: int)
    requires
        vstd::utf8::valid_utf8(bytes),
        0 <= i <= bytes.len(),
        i == 0 || bytes[i - 1] < 0x80,
    ensures
        vstd::utf8::is_char_boundary(bytes, i),
    decreases bytes.len(),
{
    if i > 0 {
        let l = vstd::utf8::length_of_first_scalar(bytes);
        let rest = vstd::utf8::pop_first_scalar(bytes);
        assert(vstd::utf8::valid_first_scalar(bytes));
        assert(1 <= l <= 4);
        if i < l {
            assert(bytes[i - 1] >= 0x80);
            assert(false);
        } else if i == l {
            assert(vstd::utf8::is_char_boundary(rest, 0));
        } else {
            assert(rest[i - l - 1] == bytes[i - 1]);
            lemma_boundary_after_ascii(rest, i - l);
        }
    }
}

/// In valid UTF-8, the position of an ASCII byte, like the end of the
/// text, is a character boundary.
pub proof fn lemma_boundary_at_ascii(bytes: Seq<u8>, i: int)
    requires
        vstd::utf8::valid_utf8(bytes),
        0 <= i <= bytes.len(),
        i == bytes.len() || bytes[i] < 0x80,
    ensures
        vstd::utf8::is_char_boundary(bytes, i),
    decreases bytes.len(),
{
    if i > 0 {
        let l = vstd::utf8::length_of_first_scalar(bytes);
        let rest = vstd::utf8::pop_first_scalar(bytes);
        assert(vstd::utf8::valid_first_scalar(bytes));
        assert(1 <= l <= 4);
        if i < l {
            assert(bytes[i] >= 0x80);
            assert(false);
        } else if i == l {
            assert(vstd::utf8::is_char_boundary(rest, 0));
        } else {
            if i < bytes.len() {
                assert(rest[i - l] == bytes[i]);
            }
            lemma_boundary_at_ascii(rest, i - l);
        }
    }
}

/// An ASCII decimal digit byte (`'0'` to `'9'`).
pub open spec fn is_digit_byte(b: u8) -> bool {
    0x30 <= b <= 0x39
}

/// Every byte of `bytes` is an ASCII decimal digit.
pub open spec fn is_all_digit_bytes(bytes: Seq<u8>) -> bool {
    forall|i: int| 0 <= i < bytes.len() ==> is_digit_byte(#[trigger] bytes[i])
}

/// The digit bytes of `bytes`, in order, everything else removed.
pub open spec fn digits_of(bytes: Seq<u8>) -> Seq<u8> {
    bytes.filter(|b: u8| is_digit_byte(b))
}

/// What the digit filter keeps is made of digits.
pub proof fn lemma_digits_of_all_digits(bytes: Seq<u8>)
    ensures
        is_all_digit_bytes(digits_of(bytes)),
{
    broadcast use vstd::seq_lib::group_filter_ensures;

    assert forall|i: int| 0 <= i < digits_of(bytes).len() implies is_digit_byte(
        #[trigger] digits_of(bytes)[i],
    ) by {
        assert(digits_of(bytes) == bytes.filter(|b: u8| is_digit_byte(b)));
    }
}

/// The digit filter keeps a string of digits whole.
pub proof fn lemma_digits_of_identity(bytes: Seq<u8>)
    requires
        is_all_digit_bytes(bytes),
    ensures
        digits_of(bytes) == bytes,
    decreases bytes.len(),
{
    reveal(Seq::filter);
    if bytes.len() == 0 {
        assert(digits_of(bytes) =~= bytes);
    } else {
        lemma_digits_of_identity(bytes.drop_last());
        assert(is_digit_byte(bytes.last()));
        assert(digits_of(bytes) =~= bytes);
    }
}

/// A string whose characters come from bytes below 0x80 has exactly those
/// bytes as its UTF-8 encoding.
pub proof fn lemma_ascii_str_bytes(s: &str, bytes: Seq<u8>)
    requires
        s@ == chars_of_bytes(bytes),
        forall|i: int| 0 <= i < bytes.len() ==> #[trigger] bytes[i] < 0x80,
    ensures
        s.spec_bytes() == bytes,
        vstd::string::is_ascii(s),
{
    assert(vstd::utf8::is_ascii_chars(s@)) by {
        assert forall|i: int| 0 <= i < s@.len() implies '\0' <= #[trigger] s@[i] <= '\u{7f}' by {
            assert(s@[i] == bytes[i] as char);
        }
    }
    vstd::utf8::is_ascii_chars_encode_utf8(s@);
    assert(s.spec_bytes() =~= bytes) by {
        assert forall|i: int| 0 <= i < bytes.len() implies s.spec_bytes()[i] == bytes[i] by {
            assert(s@[i] as u8 == s.spec_bytes()[i]);
            assert(s@[i] == bytes[i] as char);
        }
    }
}

/// The characters that a sequence of ASCII bytes spells.
pub open spec fn chars_of_bytes(bytes: Seq<u8>) -> Seq<char> {
    Seq::new(bytes.len(), |i: int| bytes[i] as char)
}

/// Relies on `String::from_utf8`: bytes below 0x80 are valid UTF-8 and
/// decode to the characters with the same code points.
#[verifier::external_body]
pub(crate) fn ascii_string(bytes: Vec<u8>) -> (r: String)
    requires
        forall|i: int| 0 <= i < bytes@.len() ==> bytes@[i] < 0x80,
    ensures
        r@ == chars_of_bytes(bytes@),
{
    String::from_utf8(bytes).unwrap_or_default()
}

/// A filtered prefix grows by one element at a time.
pub proof fn lemma_filter_take_step<A>(s: Seq<A>, pred: spec_fn(A) -> bool, i: int)
    requires
        0 <= i < s.len(),
    ensures
        s.take(i + 1).filter(pred) == if pred(s[i]) {
            s.take(i).filter(pred).push(s[i])
        } else {
            s.take(i).filter(pred)
        },
{
    reveal(Seq::filter);
    assert(s.take(i + 1).drop_last() =~= s.take(i));
    assert(s.take(i + 1).last() == s[i]);
}

/// The digit bytes of a prefix grow by one filtered element at a time.
proof fn lemma_digits_of_step(bytes: Seq<u8>, i: int)
    requires
        0 <= i < bytes.len(),
    ensures
        digits_of(bytes.take(i + 1)) == if is_digit_byte(bytes[i]) {
            digits_of(bytes.take(i)).push(bytes[i])
        } else {
            digits_of(bytes.take(i))
        },
{
    lemma_filter_take_step(bytes, |b: u8| is_digit_byte(b), i);
}

/// The text a range of ASCII bytes spells, as an owned string.
pub(crate) fn bytes_range_string(bytes: &[u8], start: usize, end: usize) -> (r: String)
    requires
        start <= end <= bytes@.len(),
        forall|i: int| start <= i < end ==> #[trigger] bytes@[i] < 0x80,
    ensures
        r@ == chars_of_bytes(bytes@.subrange(start as int, end as int)),
{
    let mut v: Vec<u8> = Vec::new();
    let mut i: usize = start;
    while i < end
        invariant
            start <= i <= end <= bytes@.len(),
            v@ == bytes@.subrange(start as int, i as int),
            forall|j: int| start <= j < end ==> #[trigger] bytes@[j] < 0x80,
        decreases end - i,
    {
        v.push(bytes[i]);
        proof {
            assert(bytes@.subrange(start as int, i + 1) =~= bytes@.subrange(
                start as int,
                i as int,
            ).push(bytes@[i as int]));
        }
        i = i + 1;
    }
    ascii_string(v)
}

/// Keep only the decimal digits of `s`.
pub fn clean_digits(s: &str) -> (r: String)
    ensures
        r@ == chars_of_bytes(digits_of(s.spec_bytes())),
{
    let bytes = s.as_bytes();
    let mut digits: Vec<u8> = Vec::new();
    let mut i: usize = 0;
    while i < bytes.len()
        invariant
            0 <= i <= bytes@.len(),
            digits@ == digits_of(bytes@.take(i as int)),
        decreases bytes@.len() - i,
    {
        let b = bytes[i];
        proof {
            lemma_digits_of_step(bytes@, i as int);
        }
        if 0x30 <= b && b <= 0x39 {
            digits.push(b);
        }
        i = i + 1;
    }
    proof {
        assert(bytes@.take(bytes@.len() as int) =~= bytes@);
        assert(forall|j: int| 0 <= j < digits@.len() ==> is_digit_byte(#[trigger] digits@[j]))
            by {
            broadcast use vstd::seq_lib::group_filter_ensures;

        }
    }
    ascii_string(digits)
}

} // verus!
