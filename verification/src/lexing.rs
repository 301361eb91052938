//! Lexical primitives of the line grammar: character classes and
//! longest-match scanners over a byte slice.  Each executable scanner
//! mirrors a spec-level model function, so that every caller's contract
//! can be stated over the model.
use vstd::prelude::*;

verus! {

// Byte values of the punctuation the grammar knows.
pub const BYTE_SPACE: u8 = 32;
pub const BYTE_TAB: u8 = 9;
pub const BYTE_NEWLINE: u8 = 10;
pub const BYTE_SEMICOLON: u8 = 59;
pub const BYTE_COLON: u8 = 58;
pub const BYTE_COMMA: u8 = 44;
pub const BYTE_QUOTE: u8 = 34;
pub const BYTE_DOT: u8 = 46;
pub const BYTE_UNDERSCORE: u8 = 95;
pub const BYTE_QUESTION: u8 = 63;

// ---------------------------------------------------------------
// character classes
// ---------------------------------------------------------------

/// Insignificant whitespace between tokens: space or tab.
pub open spec fn is_space(c: u8) -> bool {
    c == BYTE_SPACE || c == BYTE_TAB
}

pub open spec fn is_digit(c: u8) -> bool {
    48 <= c <= 57
}

pub open spec fn is_alpha(c: u8) -> bool {
    (65 <= c <= 90) || (97 <= c <= 122)
}

pub open spec fn is_alnum(c: u8) -> bool {
    is_alpha(c) || is_digit(c)
}

/// A character that may open a label: a letter, `.`, `_` or `?`.
pub open spec fn is_label_start(c: u8) -> bool {
    is_alpha(c) || c == BYTE_DOT || c == BYTE_UNDERSCORE || c == BYTE_QUESTION
}

/// A character that may continue a label.
pub open spec fn is_label_cont(c: u8) -> bool {
    is_alnum(c) || c == BYTE_UNDERSCORE
}

pub fn space_char(c: u8) -> (r: bool)
    ensures
        r == is_space(c),
{
    c == BYTE_SPACE || c == BYTE_TAB
}

pub fn digit_char(c: u8) -> (r: bool)
    ensures
        r == is_digit(c),
{
    48 <= c && c <= 57
}

pub fn alpha_char(c: u8) -> (r: bool)
    ensures
        r == is_alpha(c),
{
    (65 <= c && c <= 90) || (97 <= c && c <= 122)
}

pub fn label_start_char(c: u8) -> (r: bool)
    ensures
        r == is_label_start(c),
{
    alpha_char(c) || c == BYTE_DOT || c == BYTE_UNDERSCORE || c == BYTE_QUESTION
}

pub fn label_cont_char(c: u8) -> (r: bool)
    ensures
        r == is_label_cont(c),
{
    alpha_char(c) || digit_char(c) || c == BYTE_UNDERSCORE
}

// ---------------------------------------------------------------
// longest-match scanners
// ---------------------------------------------------------------

/// End of the run of whitespace starting at `i`.
pub open spec fn space_end(s: Seq<u8>, i: int) -> int
    decreases s.len() - i,
{
    if 0 <= i < s.len() && is_space(s[i]) {
        space_end(s, i + 1)
    } else {
        i
    }
}

pub proof fn lemma_space_end(s: Seq<u8>, i: int)
    requires
        0 <= i <= s.len(),
    ensures
        i <= space_end(s, i) <= s.len(),
        forall|k: int| i <= k < space_end(s, i) ==> is_space(s[k]),
        space_end(s, i) < s.len() ==> !is_space(s[space_end(s, i)]),
    decreases s.len() - i,
{
    if i < s.len() && is_space(s[i]) {
        lemma_space_end(s, i + 1);
    }
}

pub fn skip_space(s: &[u8], i: usize) -> (j: usize)
    requires
        i <= s@.len(),
    ensures
        j == space_end(s@, i as int),
        i <= j <= s@.len(),
    decreases s@.len() - i,
{
    if i < s.len() && space_char(s[i]) {
        skip_space(s, i + 1)
    } else {
        i
    }
}

/// End of the run of label-continuation characters starting at `i`.
pub open spec fn label_cont_end(s: Seq<u8>, i: int) -> int
    decreases s.len() - i,
{
    if 0 <= i < s.len() && is_label_cont(s[i]) {
        label_cont_end(s, i + 1)
    } else {
        i
    }
}

pub proof fn lemma_label_cont_end(s: Seq<u8>, i: int)
    requires
        0 <= i <= s.len(),
    ensures
        i <= label_cont_end(s, i) <= s.len(),
        forall|k: int| i <= k < label_cont_end(s, i) ==> is_label_cont(s[k]),
        label_cont_end(s, i) < s.len() ==> !is_label_cont(s[label_cont_end(s, i)]),
    decreases s.len() - i,
{
    if i < s.len() && is_label_cont(s[i]) {
        lemma_label_cont_end(s, i + 1);
    }
}

pub fn scan_label_cont(s: &[u8], i: usize) -> (j: usize)
    requires
        i <= s@.len(),
    ensures
        j == label_cont_end(s@, i as int),
        i <= j <= s@.len(),
    decreases s@.len() - i,
{
    if i < s.len() && label_cont_char(s[i]) {
        scan_label_cont(s, i + 1)
    } else {
        i
    }
}

/// End of the run of alphabetic characters starting at `i`.
pub open spec fn alpha_end(s: Seq<u8>, i: int) -> int
    decreases s.len() - i,
{
    if 0 <= i < s.len() && is_alpha(s[i]) {
        alpha_end(s, i + 1)
    } else {
        i
    }
}

pub fn scan_alpha(s: &[u8], i: usize) -> (j: usize)
    requires
        i <= s@.len(),
    ensures
        j == alpha_end(s@, i as int),
        i <= j <= s@.len(),
    decreases s@.len() - i,
{
    if i < s.len() && alpha_char(s[i]) {
        scan_alpha(s, i + 1)
    } else {
        i
    }
}

/// End of the run of decimal digits starting at `i`.
pub open spec fn digit_end(s: Seq<u8>, i: int) -> int
    decreases s.len() - i,
{
    if 0 <= i < s.len() && is_digit(s[i]) {
        digit_end(s, i + 1)
    } else {
        i
    }
}

pub proof fn lemma_digit_end(s: Seq<u8>, i: int)
    requires
        0 <= i <= s.len(),
    ensures
        i <= digit_end(s, i) <= s.len(),
        forall|k: int| i <= k < digit_end(s, i) ==> is_digit(s[k]),
    decreases s.len() - i,
{
    if i < s.len() && is_digit(s[i]) {
        lemma_digit_end(s, i + 1);
    }
}

pub fn scan_digits(s: &[u8], i: usize) -> (j: usize)
    requires
        i <= s@.len(),
    ensures
        j == digit_end(s@, i as int),
        i <= j <= s@.len(),
    decreases s@.len() - i,
{
    if i < s.len() && digit_char(s[i]) {
        scan_digits(s, i + 1)
    } else {
        i
    }
}

/// Position of the first occurrence of `c` at or after `i`, if any.
pub open spec fn find_byte(s: Seq<u8>, i: int, c: u8) -> Option<int>
    decreases s.len() - i,
{
    if 0 <= i < s.len() {
        if s[i] == c {
            Some(i)
        } else {
            find_byte(s, i + 1, c)
        }
    } else {
        None
    }
}

pub fn scan_for_byte(s: &[u8], i: usize, c: u8) -> (r: Option<usize>)
    requires
        i <= s@.len(),
    ensures
        match r {
            Some(p) => find_byte(s@, i as int, c) == Some(p as int) && i <= p < s@.len(),
            None => find_byte(s@, i as int, c) is None,
        },
    decreases s@.len() - i,
{
    if i < s.len() {
        if s[i] == c {
            Some(i)
        } else {
            scan_for_byte(s, i + 1, c)
        }
    } else {
        None
    }
}

// ---------------------------------------------------------------
// exact results of the scanners on known content
// ---------------------------------------------------------------

/// Where the whitespace run is known, the scanner's end is known.
pub proof fn lemma_space_end_exact(s: Seq<u8>, i: int, e: int)
    requires
        0 <= i <= e <= s.len(),
        forall|k: int| i <= k < e ==> is_space(s[k]),
        e < s.len() ==> !is_space(s[e]),
    ensures
        space_end(s, i) == e,
    decreases e - i,
{
    if i < e {
        lemma_space_end_exact(s, i + 1, e);
    }
}

/// Where the label-character run is known, the scanner's end is known.
pub proof fn lemma_label_cont_end_exact(s: Seq<u8>, i: int, e: int)
    requires
        0 <= i <= e <= s.len(),
        forall|k: int| i <= k < e ==> is_label_cont(s[k]),
        e < s.len() ==> !is_label_cont(s[e]),
    ensures
        label_cont_end(s, i) == e,
    decreases e - i,
{
    if i < e {
        lemma_label_cont_end_exact(s, i + 1, e);
    }
}

/// Where the digit run is known, the scanner's end is known.
pub proof fn lemma_digit_end_exact(s: Seq<u8>, i: int, e: int)
    requires
        0 <= i <= e <= s.len(),
        forall|k: int| i <= k < e ==> is_digit(s[k]),
        e < s.len() ==> !is_digit(s[e]),
    ensures
        digit_end(s, i) == e,
    decreases e - i,
{
    if i < e {
        lemma_digit_end_exact(s, i + 1, e);
    }
}

// ---------------------------------------------------------------
// decimal integers
// ---------------------------------------------------------------

/// Value of a sequence of decimal digit characters, most significant first.
pub open spec fn digits_val(s: Seq<u8>) -> int
    decreases s.len(),
{
    if s.len() == 0 {
        0
    } else {
        digits_val(s.drop_last()) * 10 + (s.last() - 48)
    }
}

pub proof fn lemma_digits_val_nonneg(s: Seq<u8>)
    requires
        forall|k: int| 0 <= k < s.len() ==> is_digit(s[k]),
    ensures
        digits_val(s) >= 0,
    decreases s.len(),
{
    if s.len() > 0 {
        lemma_digits_val_nonneg(s.drop_last());
    }
}

/// A digit string's value never shrinks when more digits follow.
pub proof fn lemma_digits_val_prefix(s: Seq<u8>, m: int)
    requires
        forall|k: int| 0 <= k < s.len() ==> is_digit(s[k]),
        0 <= m <= s.len(),
    ensures
        digits_val(s.subrange(0, m)) <= digits_val(s),
    decreases s.len() - m,
{
    if m < s.len() {
        lemma_digits_val_prefix(s, m + 1);
        let p = s.subrange(0, m);
        let q = s.subrange(0, m + 1);
        assert(q.drop_last() =~= p);
        lemma_digits_val_nonneg(p);
        assert(digits_val(q) == digits_val(p) * 10 + (q.last() - 48));
        assert(digits_val(p) <= digits_val(p) * 10) by (nonlinear_arith)
            requires
                digits_val(p) >= 0,
        ;
    } else {
        assert(s.subrange(0, m) =~= s);
    }
}

/// Parse the digit run `s[i..j]` as an unsigned 64-bit value.  Fails,
/// without panicking, when the value does not fit.
pub fn parse_u64(s: &[u8], i: usize, j: usize) -> (r: Option<u64>)
    requires
        i <= j <= s@.len(),
        forall|k: int| i <= k < j ==> is_digit(s@[k]),
    ensures
        match r {
            Some(v) => digits_val(s@.subrange(i as int, j as int)) == v,
            None => digits_val(s@.subrange(i as int, j as int)) > u64::MAX,
        },
{
    let ghost whole = s@.subrange(i as int, j as int);
    let mut acc: u64 = 0;
    let mut k: usize = i;
    while k < j
        invariant
            i <= k <= j <= s@.len(),
            forall|m: int| i <= m < j ==> is_digit(s@[m]),
            whole == s@.subrange(i as int, j as int),
            acc == digits_val(s@.subrange(i as int, k as int)),
        decreases j - k,
    {
        let ghost sofar = s@.subrange(i as int, k as int);
        let ghost next = s@.subrange(i as int, k as int + 1);
        proof {
            assert(next.drop_last() =~= sofar);
        }
        let d = s[k] - 48;
        if acc > (u64::MAX - d as u64) / 10 {
            proof {
                assert(digits_val(next) == acc * 10 + d);
                assert(acc * 10 + d > u64::MAX) by (nonlinear_arith)
                    requires
                        acc > (u64::MAX - d as u64) / 10,
                        0 <= d <= 9,
                ;
                assert(next =~= whole.subrange(0, k - i + 1));
                assert(forall|m: int| 0 <= m < whole.len() ==> is_digit(whole[m]));
                lemma_digits_val_prefix(whole, k - i + 1);
            }
            return None;
        }
        proof {
            assert(acc * 10 + d <= u64::MAX) by (nonlinear_arith)
                requires
                    acc <= (u64::MAX - d as u64) / 10,
                    0 <= d <= 9,
            ;
            assert(digits_val(next) == acc * 10 + d);
        }
        acc = acc * 10 + d as u64;
        k = k + 1;
    }
    proof {
        assert(s@.subrange(i as int, k as int) =~= whole);
    }
    Some(acc)
}

/// The canonical decimal rendering of a non-negative value, most
/// significant digit first, no leading zeros.
pub open spec fn spec_decimal(v: int) -> Seq<u8>
    decreases v,
{
    if v < 10 {
        seq![(48 + v) as u8]
    } else {
        spec_decimal(v / 10) + seq![(48 + (v % 10)) as u8]
    }
}

/// The decimal rendering is all digits and reads back as the value.
pub proof fn lemma_spec_decimal(v: int)
    requires
        0 <= v,
    ensures
        spec_decimal(v).len() >= 1,
        forall|k: int| 0 <= k < spec_decimal(v).len() ==> is_digit(#[trigger] spec_decimal(v)[k]),
        digits_val(spec_decimal(v)) == v,
    decreases v,
{
    if v < 10 {
        let d = spec_decimal(v);
        assert(d.drop_last() =~= Seq::<u8>::empty());
        assert(digits_val(d) == digits_val(d.drop_last()) * 10 + (d.last() - 48));
    } else {
        lemma_spec_decimal(v / 10);
        let a = spec_decimal(v / 10);
        let d = spec_decimal(v);
        assert(d =~= a + seq![(48 + (v % 10)) as u8]);
        assert(d.drop_last() =~= a);
        assert(digits_val(d) == digits_val(a) * 10 + (d.last() - 48));
    }
}

// ---------------------------------------------------------------
// trimming
// ---------------------------------------------------------------

/// Start of the trailing run of whitespace that ends at `j`.
pub open spec fn rtrim_end(s: Seq<u8>, j: int) -> int
    decreases j,
{
    if 0 < j <= s.len() && is_space(s[j - 1]) {
        rtrim_end(s, j - 1)
    } else {
        j
    }
}

pub proof fn lemma_rtrim_end(s: Seq<u8>, j: int)
    requires
        0 <= j <= s.len(),
    ensures
        0 <= rtrim_end(s, j) <= j,
        rtrim_end(s, j) > 0 ==> !is_space(s[rtrim_end(s, j) - 1]),
    decreases j,
{
    if 0 < j && is_space(s[j - 1]) {
        lemma_rtrim_end(s, j - 1);
    }
}

/// Nothing to trim: no whitespace at either edge.
pub open spec fn is_trimmed(s: Seq<u8>) -> bool {
    s.len() > 0 ==> !is_space(s[0]) && !is_space(s[s.len() - 1])
}

/// Trimming leaves nothing to trim.
pub proof fn lemma_trimmed_is_trimmed(s: Seq<u8>)
    ensures
        is_trimmed(trimmed(s)),
{
    lemma_space_end(s, 0);
    lemma_rtrim_end(s, s.len() as int);
}

/// Trimming removes bytes, never adds them: a byte value absent from
/// the input is absent from the result.
pub proof fn lemma_trimmed_excludes(s: Seq<u8>, c: u8)
    requires
        forall|k: int| 0 <= k < s.len() ==> s[k] != c,
    ensures
        forall|k: int| 0 <= k < trimmed(s).len() ==> trimmed(s)[k] != c,
{
    lemma_space_end(s, 0);
    lemma_rtrim_end(s, s.len() as int);
}

/// Trimming a single leading space off an already-trimmed text gives
/// the text back.
pub proof fn lemma_trimmed_of_padded(c: Seq<u8>)
    requires
        is_trimmed(c),
    ensures
        trimmed(seq![32u8] + c) == c,
{
    let s = seq![32u8] + c;
    if c.len() == 0 {
        assert(s.len() == 1);
        assert(is_space(s[0]));
        assert(space_end(s, 0) == 1) by {
            lemma_space_end_exact(s, 0, 1);
        }
        assert(rtrim_end(s, 0) == 0);
        assert(rtrim_end(s, 1) == 0);
        assert(trimmed(s) =~= c);
    } else {
        assert(s[0] == 32 && is_space(s[0]));
        assert(s[1] == c[0] && !is_space(s[1]));
        assert(space_end(s, 0) == 1) by {
            lemma_space_end_exact(s, 0, 1);
        }
        assert(s[s.len() - 1] == c[c.len() - 1]);
        assert(rtrim_end(s, s.len() as int) == s.len());
        assert(trimmed(s) =~= c);
    }
}

/// `s` with leading and trailing whitespace removed.
pub open spec fn trimmed(s: Seq<u8>) -> Seq<u8> {
    let a = space_end(s, 0);
    let b = rtrim_end(s, s.len() as int);
    if a <= b {
        s.subrange(a, b)
    } else {
        Seq::empty()
    }
}

fn rtrim(s: &[u8], j: usize) -> (b: usize)
    requires
        j <= s@.len(),
    ensures
        b == rtrim_end(s@, j as int),
        b <= j,
    decreases j,
{
    if 0 < j && space_char(s[j - 1]) {
        rtrim(s, j - 1)
    } else {
        j
    }
}

/// Owned copy of `s` with leading and trailing whitespace removed.
pub fn trim_bytes(s: &[u8]) -> (r: Vec<u8>)
    ensures
        r@ == trimmed(s@),
{
    let a = skip_space(s, 0);
    let b = rtrim(s, s.len());
    if a <= b {
        copy_range(s, a, b)
    } else {
        let r: Vec<u8> = Vec::new();
        proof {
            assert(r@ =~= trimmed(s@));
        }
        r
    }
}

// ---------------------------------------------------------------
// copying a token out of the input
// ---------------------------------------------------------------

/// Byte-wise equality of two slices.
pub fn bytes_eq(a: &[u8], b: &[u8]) -> (r: bool)
    ensures
        r == (a@ == b@),
{
    if a.len() != b.len() {
        return false;
    }
    let mut i: usize = 0;
    while i < a.len()
        invariant
            i <= a@.len() == b@.len(),
            forall|k: int| 0 <= k < i ==> a@[k] == b@[k],
        decreases a@.len() - i,
    {
        if a[i] != b[i] {
            return false;
        }
        i = i + 1;
    }
    proof {
        assert(a@ =~= b@);
    }
    true
}

/// Copy of `s[i..j]` as an owned vector.
pub fn copy_range(s: &[u8], i: usize, j: usize) -> (r: Vec<u8>)
    requires
        i <= j <= s@.len(),
    ensures
        r@ == s@.subrange(i as int, j as int),
{
    vstd::slice::slice_to_vec(vstd::slice::slice_subrange(s, i, j))
}

} // verus!
