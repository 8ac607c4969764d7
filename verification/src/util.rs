use vstd::prelude::*;
use vstd::string::StrSliceExecFns;
use vstd::string::StringSliceAdditionalSpecFns;
use vstd::utf8::{
    decode_utf8, encode_utf8, encode_utf8_decode_utf8, encode_utf8_valid_utf8, is_char_boundary,
    is_char_boundary_iff_not_is_continuation_byte, is_char_boundary_start_end_of_seq,
    valid_utf8_split,
};

verus! {

/// Relies on `String::push` of std: appends the given character to the
/// end of the string.
pub assume_specification[ String::push ](s: &mut String, c: char)
    ensures
        final(s)@ == old(s)@.push(c),
;

/// The characters encoded by the byte range `a..b` of `bytes`.
pub open spec fn slice_chars(bytes: Seq<u8>, a: int, b: int) -> Seq<char> {
    decode_utf8(bytes.subrange(a, b))
}

/// Copy out the characters of the byte range `a..b` of `s`; the range
/// must cut the text at character boundaries.
pub fn substr_by_bytes(s: &str, a: usize, b: usize) -> (r: String)
    requires
        a <= b <= s.spec_bytes().len(),
        is_char_boundary(s.spec_bytes(), a as int),
        is_char_boundary(s.spec_bytes(), b as int),
    ensures
        r@ == slice_chars(s.spec_bytes(), a as int, b as int),
{
    proof {
        encode_utf8_valid_utf8(s@);
        valid_utf8_split(s.spec_bytes(), b as int);
    }
    let (pre, _) = s.split_at(b);
    proof {
        assert(pre.spec_bytes() =~= s.spec_bytes().subrange(0, b as int));
        if a < b {
            assert(pre.spec_bytes()[a as int] == s.spec_bytes()[a as int]);
            is_char_boundary_iff_not_is_continuation_byte(s.spec_bytes(), a as int);
            is_char_boundary_iff_not_is_continuation_byte(pre.spec_bytes(), a as int);
        } else {
            is_char_boundary_start_end_of_seq(pre.spec_bytes());
        }
    }
    let (_, mid) = pre.split_at(a);
    proof {
        assert(mid.spec_bytes() =~= pre.spec_bytes().subrange(
            a as int,
            pre.spec_bytes().len() as int,
        ));
        assert(mid.spec_bytes() =~= s.spec_bytes().subrange(a as int, b as int));
        encode_utf8_decode_utf8(mid@);
        assert(mid@ == decode_utf8(s.spec_bytes().subrange(a as int, b as int)));
    }
    mid.to_owned()
}

/// Whether `c` may start a plain JS identifier: a letter, `_` or `$`.
pub open spec fn is_id_start(c: char) -> bool {
    (97 <= c as u32 && c as u32 <= 122)  // 'a'..='z'
    || (65 <= c as u32 && c as u32 <= 90)  // 'A'..='Z'
    || c as u32 == 95  // '_'
    || c as u32 == 36  // '$'
}

/// Whether `c` may continue a plain JS identifier: a start character or
/// a decimal digit.
pub open spec fn is_id_char(c: char) -> bool {
    is_id_start(c) || (48 <= c as u32 && c as u32 <= 57)  // '0'..='9'
}

/// Whether `s` is exactly one bare JS identifier.
pub open spec fn spec_is_simple_identifier(s: Seq<char>) -> bool {
    &&& s.len() > 0
    &&& is_id_start(s[0])
    &&& forall|i: int| 1 <= i < s.len() ==> is_id_char(#[trigger] s[i])
}

/// Whether the text of `s` is exactly one bare JS identifier.
pub fn is_simple_identifier(s: &str) -> (r: bool)
    ensures
        r == spec_is_simple_identifier(s@),
{
    let n = s.unicode_len();
    if n == 0 {
        return false;
    }
    let c0 = s.get_char(0);
    let u0 = c0 as u32;
    if !((97 <= u0 && u0 <= 122) || (65 <= u0 && u0 <= 90) || u0 == 95 || u0 == 36) {
        return false;
    }
    let mut i: usize = 1;
    while i < n
        invariant
            1 <= i <= n,
            n == s@.len(),
            is_id_start(s@[0]),
            forall|j: int| 1 <= j < i ==> is_id_char(#[trigger] s@[j]),
        decreases n - i,
    {
        let c = s.get_char(i);
        let u = c as u32;
        if !((97 <= u && u <= 122) || (65 <= u && u <= 90) || u == 95 || u == 36 || (48 <= u && u
            <= 57)) {
            return false;
        }
        i = i + 1;
    }
    true
}

/// Whether two string slices hold the same characters.
pub fn str_eq(a: &str, b: &str) -> (r: bool)
    ensures
        r == (a@ == b@),
{
    let n = a.unicode_len();
    let m = b.unicode_len();
    if n != m {
        return false;
    }
    let mut i: usize = 0;
    while i < n
        invariant
            0 <= i <= n,
            n == a@.len(),
            n == b@.len(),
            forall|j: int| 0 <= j < i ==> a@[j] == b@[j],
        decreases n - i,
    {
        if a.get_char(i) != b.get_char(i) {
            return false;
        }
        i = i + 1;
    }
    proof {
        assert(a@ =~= b@);
    }
    true
}

/// Whether `a` begins with the characters of `p`.
pub fn str_starts_with(a: &str, p: &str) -> (r: bool)
    ensures
        r == (a@.len() >= p@.len() && a@.subrange(0, p@.len() as int) == p@),
{
    let n = a.unicode_len();
    let m = p.unicode_len();
    if n < m {
        return false;
    }
    let mut i: usize = 0;
    while i < m
        invariant
            0 <= i <= m,
            m <= n,
            n == a@.len(),
            m == p@.len(),
            forall|j: int| 0 <= j < i ==> a@[j] == p@[j],
        decreases m - i,
    {
        if a.get_char(i) != p.get_char(i) {
            proof {
                assert(a@.subrange(0, p@.len() as int)[i as int] != p@[i as int]);
            }
            return false;
        }
        i = i + 1;
    }
    proof {
        assert(a@.subrange(0, p@.len() as int) =~= p@);
    }
    true
}

/// The fixed allow-list of global names that never need rewriting.
pub open spec fn spec_is_global_allow_listed(s: Seq<char>) -> bool {
    ||| s == "Infinity"@
    ||| s == "undefined"@
    ||| s == "NaN"@
    ||| s == "isFinite"@
    ||| s == "isNaN"@
    ||| s == "parseFloat"@
    ||| s == "parseInt"@
    ||| s == "decodeURI"@
    ||| s == "decodeURIComponent"@
    ||| s == "encodeURI"@
    ||| s == "encodeURIComponent"@
    ||| s == "Math"@
    ||| s == "Number"@
    ||| s == "Date"@
    ||| s == "Array"@
    ||| s == "Object"@
    ||| s == "Boolean"@
    ||| s == "String"@
    ||| s == "RegExp"@
    ||| s == "Map"@
    ||| s == "Set"@
    ||| s == "JSON"@
    ||| s == "Intl"@
    ||| s == "BigInt"@
}

/// Whether `s` is one of the globals on the fixed allow-list.
pub fn is_global_allow_listed(s: &str) -> (r: bool)
    ensures
        r == spec_is_global_allow_listed(s@),
{
    str_eq(s, "Infinity") || str_eq(s, "undefined") || str_eq(s, "NaN") || str_eq(s, "isFinite")
        || str_eq(s, "isNaN") || str_eq(s, "parseFloat") || str_eq(s, "parseInt") || str_eq(
        s,
        "decodeURI",
    ) || str_eq(s, "decodeURIComponent") || str_eq(s, "encodeURI") || str_eq(
        s,
        "encodeURIComponent",
    ) || str_eq(s, "Math") || str_eq(s, "Number") || str_eq(s, "Date") || str_eq(s, "Array")
        || str_eq(s, "Object") || str_eq(s, "Boolean") || str_eq(s, "String") || str_eq(s, "RegExp")
        || str_eq(s, "Map") || str_eq(s, "Set") || str_eq(s, "JSON") || str_eq(s, "Intl") || str_eq(
        s,
        "BigInt",
    )
}

/// Whether `s` is a JS literal keyword that needs no rewriting.
pub open spec fn spec_is_literal_keyword(s: Seq<char>) -> bool {
    s == "true"@ || s == "false"@ || s == "null"@ || s == "this"@
}

/// Whether `s` is one of the literal keywords `true`, `false`, `null`, `this`.
pub fn is_literal_keyword(s: &str) -> (r: bool)
    ensures
        r == spec_is_literal_keyword(s@),
{
    str_eq(s, "true") || str_eq(s, "false") || str_eq(s, "null") || str_eq(s, "this")
}

} // verus!
