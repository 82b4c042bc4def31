use crate::common::{
    consistent, string_from_utf8, ClassicFEZone, DataBlock, Dataset, FileType, OrderedZone,
    ParseError, TecData, TecDataType, TecZone, ValueLocation, ZoneType, DataView, BlockView,
    ShapeView, ZoneView,
};
use super::plt::{block_views, name_views, view_cells, view_nodes, zone_views};
use vstd::prelude::*;
use vstd::slice::slice_subrange;
use vstd::string::StringSliceAdditionalSpecFns;
use vstd::utf8::{decode_utf8, valid_utf8};

verus! {

/// Name for what nom's `double` returns on a text: the length of the unread
/// rest and the bit pattern of the binary64 value read, or nothing.
pub uninterp spec fn nom_double_of(s: Seq<u8>) -> Option<(usize, u64)>;

/// Name for what nom's `float` returns on a text: the length of the unread
/// rest and the bit pattern of the binary32 value read, or nothing.
pub uninterp spec fn nom_float_of(s: Seq<u8>) -> Option<(usize, u32)>;

/// Relies on `nom::number::complete::double`: a function of the text alone,
/// whose unread rest is part of the text. Returns the length of the rest and
/// the value's bit pattern.
#[verifier::external_body]
fn nom_double(tok: &[u8]) -> (r: Option<(usize, u64)>)
    ensures
        r == nom_double_of(tok@),
        r matches Some((rest, _)) ==> rest <= tok@.len(),
{
    nom::number::complete::double::<&[u8], nom::error::Error<&[u8]>>(tok).ok().map(
        |(rest, v)| (rest.len(), v.to_bits()),
    )
}

/// Relies on `nom::number::complete::float`: a function of the text alone,
/// whose unread rest is part of the text. Returns the length of the rest and
/// the value's bit pattern.
#[verifier::external_body]
fn nom_float(tok: &[u8]) -> (r: Option<(usize, u32)>)
    ensures
        r == nom_float_of(tok@),
        r matches Some((rest, _)) ==> rest <= tok@.len(),
{
    nom::number::complete::float::<&[u8], nom::error::Error<&[u8]>>(tok).ok().map(
        |(rest, v)| (rest.len(), v.to_bits()),
    )
}

/// A number token in decimal or exponential notation: only digits, signs,
/// the decimal point and the exponent letter, so that words such as `nan`
/// or `inf` are not numbers.
pub open spec fn is_decimal_text(t: Seq<u8>) -> bool {
    forall|i: int|
        0 <= i < t.len() ==> is_digit(#[trigger] t[i]) || t[i] == 43 || t[i] == 45 || t[i] == 46
            || t[i] == 101 || t[i] == 69
}

/// Whether `b[s..e]` is made of decimal-notation characters only.
fn decimal_chars(b: &[u8], s: usize, e: usize) -> (r: bool)
    requires
        s <= e <= b@.len(),
    ensures
        r == is_decimal_text(b@.subrange(s as int, e as int)),
{
    let mut i = s;
    while i < e
        invariant
            s <= i <= e <= b@.len(),
            forall|k: int|
                s <= k < i ==> is_digit(#[trigger] b@[k]) || b@[k] == 43 || b@[k] == 45 || b@[k]
                    == 46 || b@[k] == 101 || b@[k] == 69,
        decreases e - i,
    {
        let c = b[i];
        if !((c >= 48 && c <= 57) || c == 43 || c == 45 || c == 46 || c == 101 || c == 69) {
            assert(!(is_digit(b@.subrange(s as int, e as int)[i - s])
                || b@.subrange(s as int, e as int)[i - s] == 43 || b@.subrange(s as int, e as int)[i
                - s] == 45 || b@.subrange(s as int, e as int)[i - s] == 46 || b@.subrange(
                s as int,
                e as int,
            )[i - s] == 101 || b@.subrange(s as int, e as int)[i - s] == 69));
            return false;
        }
        i += 1;
    }
    true
}

/// The binary64 bit pattern that a whole token reads as, if it reads as one.
pub open spec fn f64_text(t: Seq<u8>) -> Option<u64> {
    if !is_decimal_text(t) {
        None
    } else {
        match nom_double_of(t) {
            Some((rest, bits)) => if rest == 0 {
                Some(bits)
            } else {
                None
            },
            None => None,
        }
    }
}

/// The binary32 bit pattern that a whole token reads as, if it reads as one.
pub open spec fn f32_text(t: Seq<u8>) -> Option<u32> {
    if !is_decimal_text(t) {
        None
    } else {
        match nom_float_of(t) {
            Some((rest, bits)) => if rest == 0 {
                Some(bits)
            } else {
                None
            },
            None => None,
        }
    }
}

pub open spec fn is_space(c: u8) -> bool {
    c == 32 || c == 9 || c == 13 || c == 10
}

pub open spec fn is_digit(c: u8) -> bool {
    48 <= c <= 57
}

pub open spec fn is_alnum(c: u8) -> bool {
    is_digit(c) || (65 <= c <= 90) || (97 <= c <= 122)
}

/// ASCII lower case of one byte.
pub open spec fn lower(c: u8) -> u8 {
    if 65 <= c <= 90 {
        (c + 32) as u8
    } else {
        c
    }
}

/// Value of a run of decimal digits.
pub open spec fn digits_value(s: Seq<u8>) -> int
    decreases s.len(),
{
    if s.len() == 0 {
        0
    } else {
        digits_value(s.drop_last()) * 10 + (s.last() - 48)
    }
}

pub open spec fn all_digits(s: Seq<u8>) -> bool {
    s.len() > 0 && forall|i: int| 0 <= i < s.len() ==> is_digit(#[trigger] s[i])
}

/// A decimal integer token: an optional sign and at least one digit.
pub open spec fn is_int_text(s: Seq<u8>) -> bool {
    if s.len() > 0 && (s[0] == 45 || s[0] == 43) {
        all_digits(s.drop_first())
    } else {
        all_digits(s)
    }
}

pub open spec fn int_text_value(s: Seq<u8>) -> int {
    if s.len() > 0 && s[0] == 45 {
        -digits_value(s.drop_first())
    } else if s.len() > 0 && s[0] == 43 {
        digits_value(s.drop_first())
    } else {
        digits_value(s)
    }
}

pub open spec fn pow10(n: nat) -> int
    decreases n,
{
    if n == 0 {
        1
    } else {
        10 * pow10((n - 1) as nat)
    }
}

/// Number of digits of an integer token.
pub open spec fn digit_count(t: Seq<u8>) -> int {
    if t.len() > 0 && (t[0] == 45 || t[0] == 43) {
        t.len() - 1
    } else {
        t.len() as int
    }
}

/// The value of an integer token of at most eighteen digits.
pub open spec fn int_of_text(t: Seq<u8>) -> Option<int> {
    if is_int_text(t) && digit_count(t) <= 18 {
        Some(int_text_value(t))
    } else {
        None
    }
}

/// Value of the digits `b[s..e]`, for at most eighteen digits.
fn digits_at(b: &[u8], s: usize, e: usize) -> (r: i64)
    requires
        s <= e <= b@.len(),
        e - s <= 18,
        forall|i: int| s <= i < e ==> is_digit(#[trigger] b@[i]),
    ensures
        r == digits_value(b@.subrange(s as int, e as int)),
        0 <= r < pow10((e - s) as nat),
{
    let mut v: i64 = 0;
    let mut i = s;
    while i < e
        invariant
            s <= i <= e <= b@.len(),
            e - s <= 18,
            forall|k: int| s <= k < e ==> is_digit(#[trigger] b@[k]),
            v == digits_value(b@.subrange(s as int, i as int)),
            0 <= v < pow10((i - s) as nat),
        decreases e - i,
    {
        proof {
            assert(pow10((i - s) as nat) <= pow10(17)) by {
                lemma_pow10_mono((i - s) as nat, 17);
            }
            reveal_with_fuel(pow10, 18);
            assert(pow10(17) == 100000000000000000);
        }
        let d = (b[i] - 48) as i64;
        v = v * 10 + d;
        i += 1;
        assert(b@.subrange(s as int, i as int).drop_last() =~= b@.subrange(
            s as int,
            (i - 1) as int,
        ));
    }
    v
}

proof fn lemma_pow10_mono(a: nat, b: nat)
    requires
        a <= b,
    ensures
        1 <= pow10(a) <= pow10(b),
    decreases b,
{
    if a == b {
        lemma_pow10_pos(a);
    } else {
        lemma_pow10_mono(a, (b - 1) as nat);
    }
}

proof fn lemma_pow10_pos(a: nat)
    ensures
        1 <= pow10(a),
    decreases a,
{
    if a > 0 {
        lemma_pow10_pos((a - 1) as nat);
    }
}

/// Reads `b[s..e]` as a decimal integer of at most eighteen digits.
pub fn parse_int(b: &[u8], s: usize, e: usize) -> (r: Option<i64>)
    requires
        s <= e <= b@.len(),
    ensures
        match r {
            Some(v) => int_of_text(b@.subrange(s as int, e as int)) == Some(v as int),
            None => int_of_text(b@.subrange(s as int, e as int)) is None,
        },
{
    let ghost t = b@.subrange(s as int, e as int);
    if s == e {
        return None;
    }
    let neg = b[s] == 45;
    let start = if b[s] == 45 || b[s] == 43 {
        s + 1
    } else {
        s
    };
    assert(t.drop_first() =~= b@.subrange(s + 1, e as int));
    if start == e || e - start > 18 {
        return None;
    }
    assert(b@.subrange(start as int, e as int) == (if start == s {
        t
    } else {
        t.drop_first()
    }));
    let mut i = start;
    while i < e
        invariant
            start <= i <= e <= b@.len(),
            s < e,
            t == b@.subrange(s as int, e as int),
            start == s <==> !(b@[s as int] == 45 || b@[s as int] == 43),
            start == s || start == s + 1,
            b@.subrange(start as int, e as int) == (if start == s {
                t
            } else {
                t.drop_first()
            }),
            forall|k: int| start <= k < i ==> is_digit(#[trigger] b@[k]),
        decreases e - i,
    {
        if b[i] < 48 || b[i] > 57 {
            assert(!is_digit(b@.subrange(start as int, e as int)[i - start]));
            return None;
        }
        i += 1;
    }
    assert(forall|k: int|
        0 <= k < e - start ==> #[trigger] b@.subrange(start as int, e as int)[k] == b@[start + k]);
    let v = digits_at(b, start, e);
    if neg {
        Some(-v)
    } else {
        Some(v)
    }
}

/// Reads the whole of `b[s..e]` as a binary64 value, giving its bit pattern.
fn parse_f64_bits(b: &[u8], s: usize, e: usize) -> (r: Option<u64>)
    requires
        s <= e <= b@.len(),
    ensures
        r == f64_text(b@.subrange(s as int, e as int)),
{
    if !decimal_chars(b, s, e) {
        return None;
    }
    let tok = slice_subrange(b, s, e);
    match nom_double(tok) {
        Some((rest, bits)) => {
            if rest == 0 {
                Some(bits)
            } else {
                None
            }
        },
        None => None,
    }
}

/// Reads the whole of `b[s..e]` as a binary32 value, giving its bit pattern.
fn parse_f32_bits(b: &[u8], s: usize, e: usize) -> (r: Option<u32>)
    requires
        s <= e <= b@.len(),
    ensures
        r == f32_text(b@.subrange(s as int, e as int)),
{
    if !decimal_chars(b, s, e) {
        return None;
    }
    let tok = slice_subrange(b, s, e);
    match nom_float(tok) {
        Some((rest, bits)) => {
            if rest == 0 {
                Some(bits)
            } else {
                None
            }
        },
        None => None,
    }
}

/// First position at or after `p` that is not white space (nor a comma,
/// when `commas`).
pub open spec fn blank_end(s: Seq<u8>, p: int, commas: bool) -> int
    decreases s.len() - p,
{
    if p < 0 || p >= s.len() || !(is_space(s[p]) || (commas && s[p] == 44)) {
        p
    } else {
        blank_end(s, p + 1, commas)
    }
}

/// End of the run of letters and digits starting at `p`.
pub open spec fn alnum_end(s: Seq<u8>, p: int) -> int
    decreases s.len() - p,
{
    if p < 0 || p >= s.len() || !is_alnum(s[p]) {
        p
    } else {
        alnum_end(s, p + 1)
    }
}

/// First double quote at or after `p`, or the end of the text.
pub open spec fn quote_end(s: Seq<u8>, p: int) -> int
    decreases s.len() - p,
{
    if p < 0 || p >= s.len() || s[p] == 34 {
        p
    } else {
        quote_end(s, p + 1)
    }
}

pub open spec fn fold_byte(c: u8, fold: bool) -> u8 {
    if fold {
        lower(c)
    } else {
        c
    }
}

/// Whether `s[a..e]` spells `lit`, ignoring ASCII case when `fold`.
pub open spec fn text_eq(s: Seq<u8>, a: int, e: int, lit: Seq<u8>, fold: bool) -> bool {
    e - a == lit.len() && forall|i: int| 0 <= i < lit.len() ==> fold_byte(s[a + i], fold) == lit[i]
}

/// The grammar's reading of a quoted string at `p`.
pub open spec fn sp_quoted(s: Seq<u8>, p: int) -> Result<(Seq<char>, int), ParseError> {
    if p >= s.len() {
        Err(ParseError::UnexpectedEnd)
    } else if s[p] != 34 {
        Err(ParseError::Syntax)
    } else if quote_end(s, p + 1) >= s.len() {
        Err(ParseError::UnexpectedEnd)
    } else if !valid_utf8(s.subrange(p + 1, quote_end(s, p + 1))) {
        Err(ParseError::Utf8Error)
    } else {
        Ok((decode_utf8(s.subrange(p + 1, quote_end(s, p + 1))), quote_end(s, p + 1) + 1))
    }
}

/// The grammar's reading of `=` between optional white space at `p`.
pub open spec fn sp_equals(s: Seq<u8>, p: int) -> Result<int, ParseError> {
    if blank_end(s, p, false) >= s.len() {
        Err(ParseError::UnexpectedEnd)
    } else if s[blank_end(s, p, false)] != 61 {
        Err(ParseError::Syntax)
    } else {
        Ok(blank_end(s, blank_end(s, p, false) + 1, false))
    }
}

/// End of the token starting at `p`: the first white space (or, when
/// `in_list`, comma or closing parenthesis) at or after `p`.
pub open spec fn run_end(s: Seq<u8>, p: int, in_list: bool) -> int
    decreases s.len() - p,
{
    if p < 0 || p >= s.len() || is_space(s[p]) || (in_list && (s[p] == 44 || s[p] == 41)) {
        p
    } else {
        run_end(s, p + 1, in_list)
    }
}

/// Start and end of the next white-space separated token at or after `p`.
pub open spec fn next_tok(s: Seq<u8>, p: int) -> Result<(int, int), ParseError> {
    let st = blank_end(s, p, false);
    if st >= s.len() {
        Err(ParseError::UnexpectedEnd)
    } else if run_end(s, st, false) == st {
        Err(ParseError::Syntax)
    } else {
        Ok((st, run_end(s, st, false)))
    }
}

/// The next `n` tokens from `p` read as binary64 values.
pub open spec fn sp_f64s(s: Seq<u8>, p: int, n: int) -> Result<(Seq<u64>, int), ParseError>
    decreases n,
{
    if n <= 0 {
        Ok((seq![], p))
    } else {
        match sp_f64s(s, p, n - 1) {
            Err(e) => Err(e),
            Ok((v, q)) => match next_tok(s, q) {
                Err(e) => Err(e),
                Ok((a, e)) => match f64_text(s.subrange(a, e)) {
                    None => Err(ParseError::BadNumber),
                    Some(x) => Ok((v.push(x), e)),
                },
            },
        }
    }
}

/// The next `n` tokens from `p` read as binary32 values.
pub open spec fn sp_f32s(s: Seq<u8>, p: int, n: int) -> Result<(Seq<u32>, int), ParseError>
    decreases n,
{
    if n <= 0 {
        Ok((seq![], p))
    } else {
        match sp_f32s(s, p, n - 1) {
            Err(e) => Err(e),
            Ok((v, q)) => match next_tok(s, q) {
                Err(e) => Err(e),
                Ok((a, e)) => match f32_text(s.subrange(a, e)) {
                    None => Err(ParseError::BadNumber),
                    Some(x) => Ok((v.push(x), e)),
                },
            },
        }
    }
}

/// The next `n` tokens from `p` read as integers in `lo..=hi`.
pub open spec fn sp_ints(s: Seq<u8>, p: int, n: int, lo: int, hi: int) -> Result<(Seq<int>, int), ParseError>
    decreases n,
{
    if n <= 0 {
        Ok((seq![], p))
    } else {
        match sp_ints(s, p, n - 1, lo, hi) {
            Err(e) => Err(e),
            Ok((v, q)) => match next_tok(s, q) {
                Err(e) => Err(e),
                Ok((a, e)) => match int_of_text(s.subrange(a, e)) {
                    Some(x) => if lo <= x <= hi {
                        Ok((v.push(x), e))
                    } else {
                        Err(ParseError::BadNumber)
                    },
                    None => Err(ParseError::BadNumber),
                },
            },
        }
    }
}

/// The next `n` tokens from `p` read as values of element type `ty`.
pub open spec fn sp_values(s: Seq<u8>, p: int, n: int, ty: TecDataType) -> Result<(DataView, int), ParseError> {
    match ty {
        TecDataType::F64 => match sp_f64s(s, p, n) {
            Err(e) => Err(e),
            Ok((v, q)) => Ok((DataView::F64(v), q)),
        },
        TecDataType::F32 => match sp_f32s(s, p, n) {
            Err(e) => Err(e),
            Ok((v, q)) => Ok((DataView::F32(v), q)),
        },
        TecDataType::I32 => match sp_ints(s, p, n, -2147483648, 2147483647) {
            Err(e) => Err(e),
            Ok((v, q)) => Ok((DataView::I32(Seq::new(v.len(), |i: int| v[i] as i32)), q)),
        },
        TecDataType::I16 => match sp_ints(s, p, n, -32768, 32767) {
            Err(e) => Err(e),
            Ok((v, q)) => Ok((DataView::I16(Seq::new(v.len(), |i: int| v[i] as i16)), q)),
        },
        _ => Err(ParseError::NotSupportedFeature),
    }
}

pub open spec fn values_result(r: Result<(TecData, usize), ParseError>) -> Result<(DataView, int), ParseError> {
    match r {
        Ok((d, q)) => Ok((d.view(), q as int)),
        Err(e) => Err(e),
    }
}

proof fn lemma_f64s_err(s: Seq<u8>, p: int, k: int, m: int)
    requires
        0 < k <= m,
        sp_f64s(s, p, k) is Err,
    ensures
        sp_f64s(s, p, m) == sp_f64s(s, p, k),
    decreases m - k,
{
    if k < m {
        lemma_f64s_err(s, p, k, m - 1);
    }
}

proof fn lemma_f32s_err(s: Seq<u8>, p: int, k: int, m: int)
    requires
        0 < k <= m,
        sp_f32s(s, p, k) is Err,
    ensures
        sp_f32s(s, p, m) == sp_f32s(s, p, k),
    decreases m - k,
{
    if k < m {
        lemma_f32s_err(s, p, k, m - 1);
    }
}

proof fn lemma_ints_err(s: Seq<u8>, p: int, lo: int, hi: int, k: int, m: int)
    requires
        0 < k <= m,
        sp_ints(s, p, k, lo, hi) is Err,
    ensures
        sp_ints(s, p, m, lo, hi) == sp_ints(s, p, k, lo, hi),
    decreases m - k,
{
    if k < m {
        lemma_ints_err(s, p, lo, hi, k, m - 1);
    }
}

fn is_space_at(b: &[u8], p: usize) -> (r: bool)
    requires
        p < b@.len(),
    ensures
        r == is_space(b@[p as int]),
{
    let c = b[p];
    c == 32 || c == 9 || c == 13 || c == 10
}

/// Skips white space, and commas too when `commas`.
fn skip_blank(b: &[u8], p: usize, commas: bool) -> (q: usize)
    requires
        p <= b@.len(),
    ensures
        p <= q <= b@.len(),
        q < b@.len() ==> !is_space(b@[q as int]) && !(commas && b@[q as int] == 44),
        q == blank_end(b@, p as int, commas),
{
    let mut q = p;
    while q < b.len() && (is_space_at(b, q) || (commas && b[q] == 44))
        invariant
            p <= q <= b@.len(),
            blank_end(b@, p as int, commas) == blank_end(b@, q as int, commas),
        decreases b@.len() - q,
    {
        q += 1;
    }
    q
}

/// End of the run of letters and digits starting at `p`.
fn word_end(b: &[u8], p: usize) -> (q: usize)
    requires
        p <= b@.len(),
    ensures
        p <= q <= b@.len(),
        forall|i: int| p <= i < q ==> is_alnum(#[trigger] b@[i]),
        q == alnum_end(b@, p as int),
{
    let mut q = p;
    while q < b.len() && ((b[q] >= 48 && b[q] <= 57) || (b[q] >= 65 && b[q] <= 90) || (b[q] >= 97
        && b[q] <= 122))
        invariant
            p <= q <= b@.len(),
            forall|i: int| p <= i < q ==> is_alnum(#[trigger] b@[i]),
            alnum_end(b@, p as int) == alnum_end(b@, q as int),
        decreases b@.len() - q,
    {
        q += 1;
    }
    q
}

/// End of the token starting at `p`: a run of bytes that are neither white
/// space nor, when `in_list`, a comma or a closing parenthesis.
fn token_end(b: &[u8], p: usize, in_list: bool) -> (q: usize)
    requires
        p <= b@.len(),
    ensures
        p <= q <= b@.len(),
        q == run_end(b@, p as int, in_list),
{
    let mut q = p;
    while q < b.len() && !is_space_at(b, q) && !(in_list && (b[q] == 44 || b[q] == 41))
        invariant
            p <= q <= b@.len(),
            run_end(b@, p as int, in_list) == run_end(b@, q as int, in_list),
        decreases b@.len() - q,
    {
        q += 1;
    }
    q
}

/// Whether `b[s..e]` is `lit`, ignoring ASCII case when `fold`.
fn text_is(b: &[u8], s: usize, e: usize, lit: &str, fold: bool) -> (r: bool)
    requires
        s <= e <= b@.len(),
    ensures
        r == text_eq(b@, s as int, e as int, lit.spec_bytes(), fold),
{
    let l = lit.as_bytes();
    if e - s != l.len() {
        return false;
    }
    let mut i: usize = 0;
    while i < l.len()
        invariant
            s + l@.len() == e <= b@.len(),
            l@ == lit.spec_bytes(),
            i <= l@.len(),
            forall|k: int| 0 <= k < i ==> fold_byte(b@[s + k], fold) == l@[k],
        decreases l@.len() - i,
    {
        let c = b[s + i];
        let c = if fold && c >= 65 && c <= 90 {
            c + 32
        } else {
            c
        };
        if c != l[i] {
            return false;
        }
        i += 1;
    }
    true
}

/// Reads a string between double quotes starting at `p`.
fn read_quoted(b: &[u8], p: usize) -> (r: Result<(String, usize), ParseError>)
    requires
        p <= b@.len(),
    ensures
        r matches Ok((_, q)) ==> p < q <= b@.len(),
        match r {
            Ok((t, q)) => sp_quoted(b@, p as int) == Ok::<(Seq<char>, int), ParseError>(
                (t@, q as int),
            ),
            Err(e) => sp_quoted(b@, p as int) == Err::<(Seq<char>, int), ParseError>(e),
        },
{
    if p >= b.len() {
        return Err(ParseError::UnexpectedEnd);
    }
    if b[p] != 34 {
        return Err(ParseError::Syntax);
    }
    let mut q = p + 1;
    while q < b.len() && b[q] != 34
        invariant
            p < q <= b@.len(),
            quote_end(b@, p + 1) == quote_end(b@, q as int),
        decreases b@.len() - q,
    {
        q += 1;
    }
    if q >= b.len() {
        return Err(ParseError::UnexpectedEnd);
    }
    let text = slice_to_bytes(b, p + 1, q);
    match string_from_utf8(text) {
        Some(s) => Ok((s, q + 1)),
        None => Err(ParseError::Utf8Error),
    }
}

/// Copy of `b[s..e]`.
fn slice_to_bytes(b: &[u8], s: usize, e: usize) -> (r: Vec<u8>)
    requires
        s <= e <= b@.len(),
    ensures
        r@ == b@.subrange(s as int, e as int),
{
    let mut r: Vec<u8> = Vec::new();
    let mut i = s;
    while i < e
        invariant
            s <= i <= e <= b@.len(),
            r@ == b@.subrange(s as int, i as int),
        decreases e - i,
    {
        r.push(b[i]);
        i += 1;
        assert(r@ =~= b@.subrange(s as int, i as int));
    }
    r
}

/// Expects `=` after optional white space, and skips white space after it.
fn expect_equals(b: &[u8], p: usize) -> (r: Result<usize, ParseError>)
    requires
        p <= b@.len(),
    ensures
        r matches Ok(q) ==> p < q <= b@.len(),
        match r {
            Ok(q) => sp_equals(b@, p as int) == Ok::<int, ParseError>(q as int),
            Err(e) => sp_equals(b@, p as int) == Err::<int, ParseError>(e),
        },
{
    let q = skip_blank(b, p, false);
    if q >= b.len() {
        return Err(ParseError::UnexpectedEnd);
    }
    if b[q] != 61 {
        return Err(ParseError::Syntax);
    }
    Ok(skip_blank(b, q + 1, false))
}

/// The header of an ASCII file.
#[derive(Debug, Clone)]
pub struct DatHeader {
    pub title: String,
    pub filetype: FileType,
    pub var_list: Vec<String>,
}

/// What the header assignments read so far have set.
pub struct HeaderView {
    pub title: Option<Seq<char>>,
    pub filetype: FileType,
    pub vars: Option<Seq<Seq<char>>>,
}

pub open spec fn prepend_names(acc: Seq<Seq<char>>, r: Result<(Seq<Seq<char>>, int), ParseError>) -> Result<
    (Seq<Seq<char>>, int),
    ParseError,
> {
    match r {
        Ok((ns, q)) => Ok((acc + ns, q)),
        Err(e) => Err(e),
    }
}

/// The quoted names of a `VARIABLES` list from `q` on, separated by white
/// space or commas, and where the list ends.
pub open spec fn sp_name_list(s: Seq<u8>, q: int) -> Result<(Seq<Seq<char>>, int), ParseError>
    decreases s.len() - q,
{
    let st = blank_end(s, q, true);
    if st >= s.len() || s[st] != 34 {
        Ok((seq![], q))
    } else {
        match sp_quoted(s, st) {
            Err(e) => Err(e),
            Ok((n, next)) => if q < next <= s.len() {
                prepend_names(seq![n], sp_name_list(s, next))
            } else {
                Err(ParseError::UnexpectedEnd)
            },
        }
    }
}

/// The file type a `FILETYPE` token names; anything else reads as a full file.
pub open spec fn filetype_named(s: Seq<u8>, a: int, e: int) -> FileType {
    if text_eq(s, a, e, "GRID".spec_bytes(), false) {
        FileType::GridOnly
    } else if text_eq(s, a, e, "SOLUTION".spec_bytes(), false) {
        FileType::SolutionOnly
    } else {
        FileType::Full
    }
}

/// The header assignments from `p` up to the first `ZONE` keyword or the end
/// of the text, applied in order to `h`.
pub open spec fn sp_header_from(s: Seq<u8>, p: int, h: HeaderView) -> Result<(HeaderView, int), ParseError>
    decreases s.len() - p,
{
    let at = blank_end(s, p, true);
    let e = alnum_end(s, at);
    if at >= s.len() {
        Ok((h, at))
    } else if e == at {
        Err(ParseError::Syntax)
    } else if text_eq(s, at, e, "ZONE".spec_bytes(), false) {
        Ok((h, at))
    } else {
        match sp_equals(s, e) {
            Err(x) => Err(x),
            Ok(q) => if text_eq(s, at, e, "TITLE".spec_bytes(), false) {
                match sp_quoted(s, q) {
                    Err(x) => Err(x),
                    Ok((t, q2)) => if p < q2 <= s.len() {
                        sp_header_from(s, q2, HeaderView { title: Some(t), ..h })
                    } else {
                        Err(ParseError::UnexpectedEnd)
                    },
                }
            } else if text_eq(s, at, e, "VARIABLES".spec_bytes(), false) {
                match sp_name_list(s, q) {
                    Err(x) => Err(x),
                    Ok((ns, q2)) => if p < q2 <= s.len() {
                        sp_header_from(s, q2, HeaderView { vars: Some(ns), ..h })
                    } else {
                        Err(ParseError::UnexpectedEnd)
                    },
                }
            } else if text_eq(s, at, e, "FILETYPE".spec_bytes(), false) {
                let v = alnum_end(s, q);
                if v == q {
                    Err(ParseError::Syntax)
                } else if p < v <= s.len() {
                    sp_header_from(s, v, HeaderView { filetype: filetype_named(s, q, v), ..h })
                } else {
                    Err(ParseError::UnexpectedEnd)
                }
            } else {
                Err(ParseError::WrongHeaderTag)
            },
        }
    }
}

/// The grammar's reading of the header: title (`Dataset` where none is
/// given), file type, variable names, and where the header ends. A header
/// without `VARIABLES` is refused.
pub open spec fn sp_header(s: Seq<u8>) -> Result<
    (Seq<char>, FileType, Seq<Seq<char>>, int),
    ParseError,
> {
    match sp_header_from(s, 0, HeaderView { title: None, filetype: FileType::Full, vars: None }) {
        Err(e) => Err(e),
        Ok((h, p)) => match h.vars {
            None => Err(ParseError::Syntax),
            Some(v) => Ok(
                (
                    match h.title {
                        Some(t) => t,
                        None => "Dataset"@,
                    },
                    h.filetype,
                    v,
                    p,
                ),
            ),
        },
    }
}

pub open spec fn header_view(
    title: Option<String>,
    filetype: FileType,
    vars: Option<Vec<String>>,
) -> HeaderView {
    HeaderView {
        title: match title {
            Some(t) => Some(t@),
            None => None,
        },
        filetype,
        vars: match vars {
            Some(v) => Some(name_views(v@)),
            None => None,
        },
    }
}

proof fn lemma_prepend_names_assoc(
    a: Seq<Seq<char>>,
    b: Seq<Seq<char>>,
    r: Result<(Seq<Seq<char>>, int), ParseError>,
)
    ensures
        prepend_names(a, prepend_names(b, r)) == prepend_names(a + b, r),
{
    if let Ok((ns, q)) = r {
        assert((a + b) + ns =~= a + (b + ns));
    }
}

/// Reads the quoted names of a `VARIABLES` list from `q` on.
fn read_name_list(b: &[u8], q: usize) -> (r: Result<(Vec<String>, usize), ParseError>)
    requires
        q <= b@.len(),
    ensures
        match r {
            Ok((v, e)) => q <= e <= b@.len() && sp_name_list(b@, q as int) == Ok::<
                (Seq<Seq<char>>, int),
                ParseError,
            >((name_views(v@), e as int)),
            Err(x) => sp_name_list(b@, q as int) == Err::<(Seq<Seq<char>>, int), ParseError>(x),
        },
{
    let mut names: Vec<String> = Vec::new();
    let mut p = q;
    assert(name_views(names@) =~= Seq::<Seq<char>>::empty());
    assert(prepend_names(seq![], sp_name_list(b@, q as int)) == sp_name_list(b@, q as int)) by {
        if let Ok((ns, _)) = sp_name_list(b@, q as int) {
            assert(Seq::<Seq<char>>::empty() + ns =~= ns);
        }
    }
    loop
        invariant
            q <= p <= b@.len(),
            sp_name_list(b@, q as int) == prepend_names(name_views(names@), sp_name_list(b@, p as int)),
        decreases b@.len() - p,
    {
        let st = skip_blank(b, p, true);
        if st >= b.len() || b[st] != 34 {
            assert(name_views(names@) + seq![] =~= name_views(names@));
            return Ok((names, p));
        }
        let (name, next) = read_quoted(b, st)?;
        let ghost before = name_views(names@);
        proof {
            lemma_prepend_names_assoc(before, seq![name@], sp_name_list(b@, next as int));
        }
        names.push(name);
        assert(name_views(names@) =~= before + seq![name@]);
        p = next;
    }
}

/// Reads the header: `TITLE`, `VARIABLES` and `FILETYPE` assignments up to the
/// first `ZONE` keyword or the end of the text.
fn parse_header(b: &[u8]) -> (r: Result<(DatHeader, usize), ParseError>)
    ensures
        r matches Ok((_, q)) ==> q <= b@.len(),
        match r {
            Ok((h, q)) => sp_header(b@) == Ok::<
                (Seq<char>, FileType, Seq<Seq<char>>, int),
                ParseError,
            >((h.title@, h.filetype, name_views(h.var_list@), q as int)),
            Err(e) => sp_header(b@) == Err::<(Seq<char>, FileType, Seq<Seq<char>>, int), ParseError>(
                e,
            ),
        },
{
    let mut title: Option<String> = None;
    let mut filetype = FileType::Full;
    let mut var_list: Option<Vec<String>> = None;
    let mut p: usize = 0;
    let ghost init = HeaderView { title: None, filetype: FileType::Full, vars: None };
    assert(header_view(title, filetype, var_list) == init);
    loop
        invariant_except_break
            sp_header_from(b@, 0, init) == sp_header_from(
                b@,
                p as int,
                header_view(title, filetype, var_list),
            ),
        invariant
            p <= b@.len(),
            init == (HeaderView { title: None, filetype: FileType::Full, vars: None }),
        ensures
            sp_header_from(b@, 0, init) == Ok::<(HeaderView, int), ParseError>(
                (header_view(title, filetype, var_list), p as int),
            ),
        decreases b@.len() - p,
    {
        let ghost h = header_view(title, filetype, var_list);
        let at = skip_blank(b, p, true);
        if at >= b.len() {
            p = at;
            break ;
        }
        let e = word_end(b, at);
        if e == at {
            return Err(ParseError::Syntax);
        }
        if text_is(b, at, e, "ZONE", false) {
            p = at;
            break ;
        }
        let q = expect_equals(b, e)?;
        if text_is(b, at, e, "TITLE", false) {
            let (t, q) = read_quoted(b, q)?;
            title = Some(t);
            assert(header_view(title, filetype, var_list) == (HeaderView { title: Some(t@), ..h }));
            p = q;
        } else if text_is(b, at, e, "VARIABLES", false) {
            let (names, q) = read_name_list(b, q)?;
            assert(q > p);
            var_list = Some(names);
            assert(header_view(title, filetype, var_list) == (HeaderView {
                vars: Some(name_views(names@)),
                ..h
            }));
            p = q;
        } else if text_is(b, at, e, "FILETYPE", false) {
            let v = word_end(b, q);
            if v == q {
                return Err(ParseError::Syntax);
            }
            if text_is(b, q, v, "GRID", false) {
                filetype = FileType::GridOnly;
            } else if text_is(b, q, v, "SOLUTION", false) {
                filetype = FileType::SolutionOnly;
            } else {
                filetype = FileType::Full;
            }
            assert(filetype == filetype_named(b@, q as int, v as int));
            assert(header_view(title, filetype, var_list) == (HeaderView {
                filetype: filetype_named(b@, q as int, v as int),
                ..h
            }));
            p = v;
        } else {
            return Err(ParseError::WrongHeaderTag);
        }
    }
    let var_list = match var_list {
        Some(v) => v,
        None => {
            return Err(ParseError::Syntax);
        },
    };
    let title = match title {
        Some(t) => t,
        None => String::from_str("Dataset"),
    };
    Ok((DatHeader { title, filetype, var_list }, p))
}

/// One entry of a `VARLOCATION` pattern: the 1-based variables `first..=last`.
#[derive(Debug, PartialEq, Eq, Structural, Copy, Clone)]
pub struct VarRange {
    pub first: i64,
    pub last: i64,
}

pub open spec fn range_valid(r: VarRange, var_num: int) -> bool {
    1 <= r.first <= r.last <= var_num
}

pub open spec fn all_ranges_valid(
    clauses: Seq<(Vec<VarRange>, ValueLocation)>,
    var_num: int,
) -> bool {
    forall|c: int, i: int|
        0 <= c < clauses.len() && 0 <= i < clauses[c].0@.len() ==> range_valid(
            #[trigger] clauses[c].0@[i],
            var_num,
        )
}

/// Whether one of the ranges holds the 0-based variable `v`.
pub open spec fn covers(ranges: Seq<VarRange>, v: int) -> bool {
    exists|i: int| 0 <= i < ranges.len() && (#[trigger] ranges[i]).first <= v + 1 <= ranges[i].last
}

/// Location of the 0-based variable `v`: that of the last clause whose
/// pattern holds it, nodal where none does.
pub open spec fn location_of(clauses: Seq<(Vec<VarRange>, ValueLocation)>, v: int) -> ValueLocation
    decreases clauses.len(),
{
    if clauses.len() == 0 {
        ValueLocation::Nodal
    } else if covers(clauses.last().0@, v) {
        clauses.last().1
    } else {
        location_of(clauses.drop_last(), v)
    }
}

/// Location of the 0-based variable `v` under clauses: that of the last
/// clause whose pattern holds it, nodal where none does.
pub open spec fn location_in(cv: Seq<(Seq<VarRange>, ValueLocation)>, v: int) -> ValueLocation
    decreases cv.len(),
{
    if cv.len() == 0 {
        ValueLocation::Nodal
    } else if covers(cv.last().0, v) {
        cv.last().1
    } else {
        location_in(cv.drop_last(), v)
    }
}

pub open spec fn ranges_valid(cv: Seq<(Seq<VarRange>, ValueLocation)>, var_num: int) -> bool {
    forall|c: int, i: int|
        0 <= c < cv.len() && 0 <= i < cv[c].0.len() ==> range_valid(#[trigger] cv[c].0[i], var_num)
}

/// One location per variable as the clauses give them, or the range error.
pub open spec fn sp_resolve(cv: Seq<(Seq<VarRange>, ValueLocation)>, var_num: int) -> Result<
    Seq<ValueLocation>,
    ParseError,
> {
    if ranges_valid(cv, var_num) {
        Ok(Seq::new(var_num as nat, |v: int| location_in(cv, v)))
    } else {
        Err(ParseError::VarIndexOutOfRange)
    }
}

proof fn lemma_location_views(c: Seq<(Vec<VarRange>, ValueLocation)>, v: int)
    ensures
        location_of(c, v) == location_in(clause_views(c), v),
    decreases c.len(),
{
    if c.len() > 0 {
        assert(clause_views(c).drop_last() =~= clause_views(c.drop_last()));
        lemma_location_views(c.drop_last(), v);
    }
}

/// What `resolve_var_location` returns, read over clause views.
proof fn lemma_resolve_view(
    c: Seq<(Vec<VarRange>, ValueLocation)>,
    var_num: int,
    r: Result<Vec<ValueLocation>, ParseError>,
)
    requires
        0 <= var_num,
        r is Ok <==> all_ranges_valid(c, var_num),
        r matches Err(e) ==> e == ParseError::VarIndexOutOfRange,
        r matches Ok(locs) ==> locs@.len() == var_num && forall|v: int|
            0 <= v < var_num ==> #[trigger] locs@[v] == location_of(c, v),
    ensures
        match r {
            Ok(locs) => sp_resolve(clause_views(c), var_num) == Ok::<Seq<ValueLocation>, ParseError>(
                locs@,
            ),
            Err(e) => sp_resolve(clause_views(c), var_num) == Err::<Seq<ValueLocation>, ParseError>(e),
        },
{
    let cv = clause_views(c);
    assert(all_ranges_valid(c, var_num) == ranges_valid(cv, var_num)) by {
        if all_ranges_valid(c, var_num) {
            assert forall|i: int, k: int|
                0 <= i < cv.len() && 0 <= k < cv[i].0.len() implies range_valid(
                #[trigger] cv[i].0[k],
                var_num,
            ) by {
                assert(cv[i].0[k] == c[i].0@[k]);
            }
        }
        if ranges_valid(cv, var_num) {
            assert forall|i: int, k: int|
                0 <= i < c.len() && 0 <= k < c[i].0@.len() implies range_valid(
                #[trigger] c[i].0@[k],
                var_num,
            ) by {
                assert(cv[i].0[k] == c[i].0@[k]);
            }
        }
    }
    if let Ok(locs) = r {
        assert forall|v: int| 0 <= v < var_num implies locs@[v] == location_in(cv, v) by {
            lemma_location_views(c, v);
        }
        assert(locs@ =~= Seq::new(var_num as nat, |v: int| location_in(cv, v)));
    }
}

/// Resolves `VARLOCATION` clauses into one location per variable. Every index
/// and range must lie within `1..=var_num`.
pub fn resolve_var_location(var_loc: &[(Vec<VarRange>, ValueLocation)], var_num: usize) -> (r: Result<
    Vec<ValueLocation>,
    ParseError,
>)
    ensures
        r is Ok <==> all_ranges_valid(var_loc@, var_num as int),
        r matches Err(e) ==> e == ParseError::VarIndexOutOfRange,
        r matches Ok(locs) ==> locs@.len() == var_num && forall|v: int|
            0 <= v < var_num ==> #[trigger] locs@[v] == location_of(var_loc@, v),
{
    let mut c: usize = 0;
    while c < var_loc.len()
        invariant
            c <= var_loc@.len(),
            all_ranges_valid(var_loc@.subrange(0, c as int), var_num as int),
        decreases var_loc@.len() - c,
    {
        let ranges = &var_loc[c].0;
        let mut i: usize = 0;
        while i < ranges.len()
            invariant
                c < var_loc@.len(),
                ranges == var_loc@[c as int].0,
                i <= ranges@.len(),
                all_ranges_valid(var_loc@.subrange(0, c as int), var_num as int),
                forall|k: int| 0 <= k < i ==> range_valid(#[trigger] ranges@[k], var_num as int),
            decreases ranges@.len() - i,
        {
            let rg = ranges[i];
            if !(1 <= rg.first && rg.first <= rg.last && rg.last as u64 <= var_num as u64) {
                assert(!range_valid(var_loc@[c as int].0@[i as int], var_num as int));
                return Err(ParseError::VarIndexOutOfRange);
            }
            i += 1;
        }
        c += 1;
        assert forall|c2: int, k: int|
            0 <= c2 < c && 0 <= k < var_loc@.subrange(0, c as int)[c2].0@.len() implies range_valid(
            #[trigger] var_loc@.subrange(0, c as int)[c2].0@[k],
            var_num as int,
        ) by {
            if c2 < c - 1 {
                assert(var_loc@.subrange(0, c as int)[c2] == var_loc@.subrange(0, c - 1)[c2]);
            }
        }
    }
    assert(var_loc@.subrange(0, var_loc@.len() as int) =~= var_loc@);
    let mut locs: Vec<ValueLocation> = Vec::new();
    while locs.len() < var_num
        invariant
            locs@.len() <= var_num,
            forall|v: int| 0 <= v < locs@.len() ==> #[trigger] locs@[v] == ValueLocation::Nodal,
        decreases var_num - locs@.len(),
    {
        locs.push(ValueLocation::Nodal);
    }
    let mut c: usize = 0;
    while c < var_loc.len()
        invariant
            c <= var_loc@.len(),
            all_ranges_valid(var_loc@, var_num as int),
            locs@.len() == var_num,
            forall|v: int|
                0 <= v < var_num ==> #[trigger] locs@[v] == location_of(
                    var_loc@.subrange(0, c as int),
                    v,
                ),
        decreases var_loc@.len() - c,
    {
        let ranges = &var_loc[c].0;
        let loc = var_loc[c].1;
        let ghost before = locs@;
        let ghost prefix = var_loc@.subrange(0, c as int);
        let ghost next = var_loc@.subrange(0, c + 1);
        assert(next.drop_last() =~= prefix);
        assert(next.last() == var_loc@[c as int]);
        let mut i: usize = 0;
        while i < ranges.len()
            invariant
                c < var_loc@.len(),
                ranges == var_loc@[c as int].0,
                loc == var_loc@[c as int].1,
                all_ranges_valid(var_loc@, var_num as int),
                i <= ranges@.len(),
                locs@.len() == var_num,
                before.len() == var_num,
                forall|v: int|
                    0 <= v < var_num ==> #[trigger] locs@[v] == if covers(
                        ranges@.subrange(0, i as int),
                        v,
                    ) {
                        loc
                    } else {
                        before[v]
                    },
            decreases ranges@.len() - i,
        {
            let rg = ranges[i];
            assert(range_valid(var_loc@[c as int].0@[i as int], var_num as int));
            let ghost mid = locs@;
            let mut w = (rg.first - 1) as usize;
            while w < rg.last as usize
                invariant
                    1 <= rg.first <= rg.last <= var_num,
                    rg.first - 1 <= w <= rg.last,
                    locs@.len() == var_num,
                    forall|v: int|
                        0 <= v < var_num ==> #[trigger] locs@[v] == if rg.first - 1 <= v < w {
                            loc
                        } else {
                            mid[v]
                        },
                decreases rg.last - w,
            {
                locs.set(w, loc);
                w += 1;
            }
            assert forall|v: int| 0 <= v < var_num implies #[trigger] locs@[v] == if covers(
                ranges@.subrange(0, i + 1),
                v,
            ) {
                loc
            } else {
                before[v]
            } by {
                let sub = ranges@.subrange(0, i + 1);
                if covers(ranges@.subrange(0, i as int), v) {
                    let pre = ranges@.subrange(0, i as int);
                    let k = choose|k: int|
                        0 <= k < pre.len() && (#[trigger] pre[k]).first <= v + 1 <= pre[k].last;
                    assert(sub[k] == ranges@.subrange(0, i as int)[k]);
                }
                if rg.first <= v + 1 <= rg.last {
                    assert(sub[i as int] == rg);
                }
                if covers(sub, v) && !(rg.first <= v + 1 <= rg.last) {
                    let k = choose|k: int|
                        0 <= k < sub.len() && (#[trigger] sub[k]).first <= v + 1 <= sub[k].last;
                    assert(k != i);
                    assert(ranges@.subrange(0, i as int)[k] == sub[k]);
                }
            }
            i += 1;
        }
        assert(ranges@.subrange(0, ranges@.len() as int) =~= ranges@);
        c += 1;
    }
    assert(var_loc@.subrange(0, var_loc@.len() as int) =~= var_loc@);
    Ok(locs)
}

/// Keywords of the ASCII grammar.
#[derive(Debug, Copy, Clone, PartialEq, Eq, Structural)]
pub enum KeyWord {
    Title,
    FileType,
    Variables,
    T,
    ZoneType,
    I,
    J,
    K,
    Nodes,
    Elements,
    Faces,
    TotalNumFaceNodes,
    NumConnectedBoundaryFaces,
    TotalNumBoundaryConnections,
    FaceNeighborConnections,
    DT,
    DataPacking,
    VarLocation,
    VarShareList,
    NV,
    ConnectivityShareZone,
    StrandId,
    SolutionTime,
    ParentZone,
    PassiveVarList,
    AuxData,
}

/// The keyword that `t[a..e]` spells, if any.
pub open spec fn keyword_of(t: Seq<u8>, a: int, e: int) -> Option<KeyWord> {
    if text_eq(t, a, e, "TITLE".spec_bytes(), false) {
        Some(KeyWord::Title)
    } else if text_eq(t, a, e, "VARIABLES".spec_bytes(), false) {
        Some(KeyWord::Variables)
    } else if text_eq(t, a, e, "FILETYPE".spec_bytes(), false) {
        Some(KeyWord::FileType)
    } else if text_eq(t, a, e, "T".spec_bytes(), false) {
        Some(KeyWord::T)
    } else if text_eq(t, a, e, "ZONETYPE".spec_bytes(), false) {
        Some(KeyWord::ZoneType)
    } else if text_eq(t, a, e, "I".spec_bytes(), false) {
        Some(KeyWord::I)
    } else if text_eq(t, a, e, "J".spec_bytes(), false) {
        Some(KeyWord::J)
    } else if text_eq(t, a, e, "K".spec_bytes(), false) {
        Some(KeyWord::K)
    } else if text_eq(t, a, e, "Nodes".spec_bytes(), false) || text_eq(t, a, e, "N".spec_bytes(), false) || text_eq(t, a, e, "NODES".spec_bytes(), false) {
        Some(KeyWord::Nodes)
    } else if text_eq(t, a, e, "Elements".spec_bytes(), false) || text_eq(t, a, e, "ELEMENTS".spec_bytes(), false)
        || text_eq(t, a, e, "E".spec_bytes(), false) {
        Some(KeyWord::Elements)
    } else if text_eq(t, a, e, "FACES".spec_bytes(), false) {
        Some(KeyWord::Faces)
    } else if text_eq(t, a, e, "TOTALNUMFACENODES".spec_bytes(), false) {
        Some(KeyWord::TotalNumFaceNodes)
    } else if text_eq(t, a, e, "NUMCONNECTEDBOUNDARYFACES".spec_bytes(), false) {
        Some(KeyWord::NumConnectedBoundaryFaces)
    } else if text_eq(t, a, e, "TOTALNUMBOUNDARYCONNECTIONS".spec_bytes(), false) {
        Some(KeyWord::TotalNumBoundaryConnections)
    } else if text_eq(t, a, e, "FACENEIGHBORCONNECTIONS".spec_bytes(), false) {
        Some(KeyWord::FaceNeighborConnections)
    } else if text_eq(t, a, e, "DT".spec_bytes(), false) {
        Some(KeyWord::DT)
    } else if text_eq(t, a, e, "DATAPACKING".spec_bytes(), false) {
        Some(KeyWord::DataPacking)
    } else if text_eq(t, a, e, "VARLOCATION".spec_bytes(), false) {
        Some(KeyWord::VarLocation)
    } else if text_eq(t, a, e, "VARSHARELIST".spec_bytes(), false) {
        Some(KeyWord::VarShareList)
    } else if text_eq(t, a, e, "NV".spec_bytes(), false) {
        Some(KeyWord::NV)
    } else if text_eq(t, a, e, "CONNECTIVITYSHAREZONE".spec_bytes(), false) {
        Some(KeyWord::ConnectivityShareZone)
    } else if text_eq(t, a, e, "STRANDID".spec_bytes(), false) {
        Some(KeyWord::StrandId)
    } else if text_eq(t, a, e, "SOLUTIONTIME".spec_bytes(), false) {
        Some(KeyWord::SolutionTime)
    } else if text_eq(t, a, e, "PARENTZONE".spec_bytes(), false) {
        Some(KeyWord::ParentZone)
    } else if text_eq(t, a, e, "PASSIVEVARLIST".spec_bytes(), false) {
        Some(KeyWord::PassiveVarList)
    } else if text_eq(t, a, e, "AUXDATA".spec_bytes(), false) {
        Some(KeyWord::AuxData)
    } else {
        None
    }
}

/// The keyword spelled by `b[s..e]`, if any.
fn keyword(b: &[u8], s: usize, e: usize) -> (r: Option<KeyWord>)
    requires
        s <= e <= b@.len(),
    ensures
        r == keyword_of(b@, s as int, e as int),
{
    if text_is(b, s, e, "TITLE", false) {
        Some(KeyWord::Title)
    } else if text_is(b, s, e, "VARIABLES", false) {
        Some(KeyWord::Variables)
    } else if text_is(b, s, e, "FILETYPE", false) {
        Some(KeyWord::FileType)
    } else if text_is(b, s, e, "T", false) {
        Some(KeyWord::T)
    } else if text_is(b, s, e, "ZONETYPE", false) {
        Some(KeyWord::ZoneType)
    } else if text_is(b, s, e, "I", false) {
        Some(KeyWord::I)
    } else if text_is(b, s, e, "J", false) {
        Some(KeyWord::J)
    } else if text_is(b, s, e, "K", false) {
        Some(KeyWord::K)
    } else if text_is(b, s, e, "Nodes", false) || text_is(b, s, e, "N", false) || text_is(b, s, e, "NODES", false) {
        Some(KeyWord::Nodes)
    } else if text_is(b, s, e, "Elements", false) || text_is(b, s, e, "ELEMENTS", false)
        || text_is(b, s, e, "E", false) {
        Some(KeyWord::Elements)
    } else if text_is(b, s, e, "FACES", false) {
        Some(KeyWord::Faces)
    } else if text_is(b, s, e, "TOTALNUMFACENODES", false) {
        Some(KeyWord::TotalNumFaceNodes)
    } else if text_is(b, s, e, "NUMCONNECTEDBOUNDARYFACES", false) {
        Some(KeyWord::NumConnectedBoundaryFaces)
    } else if text_is(b, s, e, "TOTALNUMBOUNDARYCONNECTIONS", false) {
        Some(KeyWord::TotalNumBoundaryConnections)
    } else if text_is(b, s, e, "FACENEIGHBORCONNECTIONS", false) {
        Some(KeyWord::FaceNeighborConnections)
    } else if text_is(b, s, e, "DT", false) {
        Some(KeyWord::DT)
    } else if text_is(b, s, e, "DATAPACKING", false) {
        Some(KeyWord::DataPacking)
    } else if text_is(b, s, e, "VARLOCATION", false) {
        Some(KeyWord::VarLocation)
    } else if text_is(b, s, e, "VARSHARELIST", false) {
        Some(KeyWord::VarShareList)
    } else if text_is(b, s, e, "NV", false) {
        Some(KeyWord::NV)
    } else if text_is(b, s, e, "CONNECTIVITYSHAREZONE", false) {
        Some(KeyWord::ConnectivityShareZone)
    } else if text_is(b, s, e, "STRANDID", false) {
        Some(KeyWord::StrandId)
    } else if text_is(b, s, e, "SOLUTIONTIME", false) {
        Some(KeyWord::SolutionTime)
    } else if text_is(b, s, e, "PARENTZONE", false) {
        Some(KeyWord::ParentZone)
    } else if text_is(b, s, e, "PASSIVEVARLIST", false) {
        Some(KeyWord::PassiveVarList)
    } else if text_is(b, s, e, "AUXDATA", false) {
        Some(KeyWord::AuxData)
    } else {
        None
    }
}

pub open spec fn prepend_seq<T>(acc: Seq<T>, r: Result<(Seq<T>, int), ParseError>) -> Result<
    (Seq<T>, int),
    ParseError,
> {
    match r {
        Ok((xs, q)) => Ok((acc + xs, q)),
        Err(e) => Err(e),
    }
}

proof fn lemma_prepend_seq_assoc<T>(a: Seq<T>, b: Seq<T>, r: Result<(Seq<T>, int), ParseError>)
    ensures
        prepend_seq(a, prepend_seq(b, r)) == prepend_seq(a + b, r),
        prepend_seq(Seq::<T>::empty(), r) == r,
{
    if let Ok((xs, q)) = r {
        assert((a + b) + xs =~= a + (b + xs));
        assert(Seq::<T>::empty() + xs =~= xs);
    }
}

/// The grammar's reading of an integer keyword value at `p`: the token up to
/// white space, a comma or a closing parenthesis.
pub open spec fn sp_int_value(s: Seq<u8>, p: int) -> Result<(int, int), ParseError> {
    match int_of_text(s.subrange(p, run_end(s, p, true))) {
        Some(v) => Ok((v, run_end(s, p, true))),
        None => Err(ParseError::BadNumber),
    }
}

/// The element type a `DT` token `t[a..e]` names.
pub open spec fn dt_named(t: Seq<u8>, a: int, e: int) -> Option<TecDataType> {
    if text_eq(t, a, e, "SINGLE".spec_bytes(), false) {
        Some(TecDataType::F32)
    } else if text_eq(t, a, e, "DOUBLE".spec_bytes(), false) {
        Some(TecDataType::F64)
    } else if text_eq(t, a, e, "LONGINT".spec_bytes(), false) {
        Some(TecDataType::I32)
    } else if text_eq(t, a, e, "SHORTINT".spec_bytes(), false) {
        Some(TecDataType::I16)
    } else {
        None
    }
}

/// The element-type tokens of a `DT` list from `q` up to and past its
/// closing parenthesis.
pub open spec fn sp_dt_items(s: Seq<u8>, q: int) -> Result<(Seq<TecDataType>, int), ParseError>
    decreases s.len() - q,
{
    let a = blank_end(s, q, true);
    let e = alnum_end(s, a);
    if a >= s.len() {
        Err(ParseError::UnexpectedEnd)
    } else if s[a] == 41 {
        Ok((seq![], a + 1))
    } else if e == a {
        Err(ParseError::Syntax)
    } else {
        match dt_named(s, a, e) {
            None => Err(ParseError::Syntax),
            Some(t) => if q < e <= s.len() {
                prepend_seq(seq![t], sp_dt_items(s, e))
            } else {
                Err(ParseError::UnexpectedEnd)
            },
        }
    }
}

/// The grammar's reading of a parenthesized `DT` list at `p`.
pub open spec fn sp_dt(s: Seq<u8>, p: int) -> Result<(Seq<TecDataType>, int), ParseError> {
    if p >= s.len() || s[p] != 40 {
        Err(ParseError::Syntax)
    } else {
        sp_dt_items(s, p + 1)
    }
}

/// The entries of a `VARLOCATION` pattern from `q` up to and past its
/// closing bracket.
pub open spec fn sp_pattern_items(s: Seq<u8>, q: int) -> Result<(Seq<VarRange>, int), ParseError>
    decreases s.len() - q,
{
    let a = blank_end(s, q, true);
    let e = alnum_end(s, a);
    if a >= s.len() {
        Err(ParseError::UnexpectedEnd)
    } else if s[a] == 93 {
        Ok((seq![], a + 1))
    } else if e == a {
        Err(ParseError::Syntax)
    } else {
        match int_of_text(s.subrange(a, e)) {
            None => Err(ParseError::BadNumber),
            Some(first) => if e < s.len() && s[e] == 45 {
                match int_of_text(s.subrange(e + 1, alnum_end(s, e + 1))) {
                    None => Err(ParseError::BadNumber),
                    Some(last) => if q < alnum_end(s, e + 1) <= s.len() {
                        prepend_seq(
                            seq![VarRange { first: first as i64, last: last as i64 }],
                            sp_pattern_items(s, alnum_end(s, e + 1)),
                        )
                    } else {
                        Err(ParseError::UnexpectedEnd)
                    },
                }
            } else if q < e <= s.len() {
                prepend_seq(
                    seq![VarRange { first: first as i64, last: first as i64 }],
                    sp_pattern_items(s, e),
                )
            } else {
                Err(ParseError::UnexpectedEnd)
            },
        }
    }
}

/// The grammar's reading of a bracketed `VARLOCATION` pattern at `p`.
pub open spec fn sp_pattern(s: Seq<u8>, p: int) -> Result<(Seq<VarRange>, int), ParseError> {
    if p >= s.len() || s[p] != 91 {
        Err(ParseError::Syntax)
    } else {
        sp_pattern_items(s, p + 1)
    }
}

/// The location a `VARLOCATION` token `t[a..e]` names.
pub open spec fn location_named(t: Seq<u8>, a: int, e: int) -> Option<ValueLocation> {
    if text_eq(t, a, e, "CELLCENTERED".spec_bytes(), false) {
        Some(ValueLocation::CellCentered)
    } else if text_eq(t, a, e, "NODAL".spec_bytes(), false) {
        Some(ValueLocation::Nodal)
    } else {
        None
    }
}

/// The `[pattern] = LOCATION` clauses of a `VARLOCATION` list from `q` up to
/// and past its closing parenthesis.
pub open spec fn sp_clauses(s: Seq<u8>, q: int) -> Result<
    (Seq<(Seq<VarRange>, ValueLocation)>, int),
    ParseError,
>
    decreases s.len() - q,
{
    let a = blank_end(s, q, true);
    if a >= s.len() {
        Err(ParseError::UnexpectedEnd)
    } else if s[a] == 41 {
        Ok((seq![], a + 1))
    } else {
        match sp_pattern(s, a) {
            Err(x) => Err(x),
            Ok((rs, e)) => match sp_equals(s, e) {
                Err(x) => Err(x),
                Ok(e2) => match location_named(s, e2, alnum_end(s, e2)) {
                    None => Err(ParseError::Syntax),
                    Some(l) => if q < alnum_end(s, e2) <= s.len() {
                        prepend_seq(seq![(rs, l)], sp_clauses(s, alnum_end(s, e2)))
                    } else {
                        Err(ParseError::UnexpectedEnd)
                    },
                },
            },
        }
    }
}

/// The grammar's reading of a parenthesized `VARLOCATION` list at `p`.
pub open spec fn sp_varloc(s: Seq<u8>, p: int) -> Result<
    (Seq<(Seq<VarRange>, ValueLocation)>, int),
    ParseError,
> {
    if p >= s.len() || s[p] != 40 {
        Err(ParseError::Syntax)
    } else {
        sp_clauses(s, p + 1)
    }
}

pub open spec fn clause_views(c: Seq<(Vec<VarRange>, ValueLocation)>) -> Seq<(Seq<VarRange>, ValueLocation)> {
    Seq::new(c.len(), |i: int| (c[i].0@, c[i].1))
}

/// Reads an integer keyword value.
fn int_value(b: &[u8], p: usize) -> (r: Result<(i64, usize), ParseError>)
    requires
        p <= b@.len(),
    ensures
        r matches Ok((_, q)) ==> p < q <= b@.len(),
        match r {
            Ok((v, q)) => sp_int_value(b@, p as int) == Ok::<(int, int), ParseError>((v as int, q as int)),
            Err(x) => sp_int_value(b@, p as int) == Err::<(int, int), ParseError>(x),
        },
{
    let e = token_end(b, p, true);
    match parse_int(b, p, e) {
        Some(v) => {
            assert(e > p);
            Ok((v, e))
        },
        None => Err(ParseError::BadNumber),
    }
}

/// Reads a parenthesized list of element-type tokens.
fn parse_dt(b: &[u8], p: usize) -> (r: Result<(Vec<TecDataType>, usize), ParseError>)
    requires
        p <= b@.len(),
    ensures
        r matches Ok((_, q)) ==> p < q <= b@.len(),
        match r {
            Ok((t, q)) => sp_dt(b@, p as int) == Ok::<(Seq<TecDataType>, int), ParseError>(
                (t@, q as int),
            ),
            Err(x) => sp_dt(b@, p as int) == Err::<(Seq<TecDataType>, int), ParseError>(x),
        },
{
    if p >= b.len() || b[p] != 40 {
        return Err(ParseError::Syntax);
    }
    let mut types: Vec<TecDataType> = Vec::new();
    let mut q = p + 1;
    proof {
        lemma_prepend_seq_assoc(types@, types@, sp_dt_items(b@, q as int));
        assert(types@ =~= Seq::<TecDataType>::empty());
    }
    loop
        invariant
            p < q <= b@.len(),
            sp_dt(b@, p as int) == prepend_seq(types@, sp_dt_items(b@, q as int)),
        decreases b@.len() - q,
    {
        let ghost q0 = q as int;
        let ghost before = types@;
        q = skip_blank(b, q, true);
        if q >= b.len() {
            return Err(ParseError::UnexpectedEnd);
        }
        if b[q] == 41 {
            assert(before + seq![] =~= before);
            return Ok((types, q + 1));
        }
        let e = word_end(b, q);
        if e == q {
            return Err(ParseError::Syntax);
        }
        let t = if text_is(b, q, e, "SINGLE", false) {
            TecDataType::F32
        } else if text_is(b, q, e, "DOUBLE", false) {
            TecDataType::F64
        } else if text_is(b, q, e, "LONGINT", false) {
            TecDataType::I32
        } else if text_is(b, q, e, "SHORTINT", false) {
            TecDataType::I16
        } else {
            return Err(ParseError::Syntax);
        };
        proof {
            lemma_prepend_seq_assoc(before, seq![t], sp_dt_items(b@, e as int));
        }
        types.push(t);
        assert(types@ =~= before + seq![t]);
        q = e;
    }
}

/// Reads one bracketed `VARLOCATION` pattern of indices and `a-b` ranges.
fn parse_pattern(b: &[u8], p: usize) -> (r: Result<(Vec<VarRange>, usize), ParseError>)
    requires
        p <= b@.len(),
    ensures
        r matches Ok((_, q)) ==> p < q <= b@.len(),
        match r {
            Ok((v, q)) => sp_pattern(b@, p as int) == Ok::<(Seq<VarRange>, int), ParseError>(
                (v@, q as int),
            ),
            Err(x) => sp_pattern(b@, p as int) == Err::<(Seq<VarRange>, int), ParseError>(x),
        },
{
    if p >= b.len() || b[p] != 91 {
        return Err(ParseError::Syntax);
    }
    let mut ranges: Vec<VarRange> = Vec::new();
    let mut q = p + 1;
    proof {
        lemma_prepend_seq_assoc(ranges@, ranges@, sp_pattern_items(b@, q as int));
        assert(ranges@ =~= Seq::<VarRange>::empty());
    }
    loop
        invariant
            p < q <= b@.len(),
            sp_pattern(b@, p as int) == prepend_seq(ranges@, sp_pattern_items(b@, q as int)),
        decreases b@.len() - q,
    {
        let ghost before = ranges@;
        q = skip_blank(b, q, true);
        if q >= b.len() {
            return Err(ParseError::UnexpectedEnd);
        }
        if b[q] == 93 {
            assert(before + seq![] =~= before);
            return Ok((ranges, q + 1));
        }
        let e = word_end(b, q);
        if e == q {
            return Err(ParseError::Syntax);
        }
        let first = match parse_int(b, q, e) {
            Some(v) => v,
            None => {
                return Err(ParseError::BadNumber);
            },
        };
        if e < b.len() && b[e] == 45 {
            let e2 = word_end(b, e + 1);
            let last = match parse_int(b, e + 1, e2) {
                Some(v) => v,
                None => {
                    return Err(ParseError::BadNumber);
                },
            };
            let rg = VarRange { first, last };
            proof {
                lemma_prepend_seq_assoc(before, seq![rg], sp_pattern_items(b@, e2 as int));
            }
            ranges.push(rg);
            assert(ranges@ =~= before + seq![rg]);
            q = e2;
        } else {
            let rg = VarRange { first, last: first };
            proof {
                lemma_prepend_seq_assoc(before, seq![rg], sp_pattern_items(b@, e as int));
            }
            ranges.push(rg);
            assert(ranges@ =~= before + seq![rg]);
            q = e;
        }
    }
}

/// Reads the parenthesized clause list of `VARLOCATION`.
fn parse_var_location(b: &[u8], p: usize) -> (r: Result<
    (Vec<(Vec<VarRange>, ValueLocation)>, usize),
    ParseError,
>)
    requires
        p <= b@.len(),
    ensures
        r matches Ok((_, q)) ==> p < q <= b@.len(),
        match r {
            Ok((c, q)) => sp_varloc(b@, p as int) == Ok::<
                (Seq<(Seq<VarRange>, ValueLocation)>, int),
                ParseError,
            >((clause_views(c@), q as int)),
            Err(x) => sp_varloc(b@, p as int) == Err::<
                (Seq<(Seq<VarRange>, ValueLocation)>, int),
                ParseError,
            >(x),
        },
{
    if p >= b.len() || b[p] != 40 {
        return Err(ParseError::Syntax);
    }
    let mut clauses: Vec<(Vec<VarRange>, ValueLocation)> = Vec::new();
    let mut q = p + 1;
    proof {
        lemma_prepend_seq_assoc(clause_views(clauses@), clause_views(clauses@), sp_clauses(b@, q as int));
        assert(clause_views(clauses@) =~= Seq::<(Seq<VarRange>, ValueLocation)>::empty());
    }
    loop
        invariant
            p < q <= b@.len(),
            sp_varloc(b@, p as int) == prepend_seq(clause_views(clauses@), sp_clauses(b@, q as int)),
        decreases b@.len() - q,
    {
        let ghost before = clause_views(clauses@);
        q = skip_blank(b, q, true);
        if q >= b.len() {
            return Err(ParseError::UnexpectedEnd);
        }
        if b[q] == 41 {
            assert(before + seq![] =~= before);
            return Ok((clauses, q + 1));
        }
        let (ranges, e) = parse_pattern(b, q)?;
        let e = expect_equals(b, e)?;
        let w = word_end(b, e);
        let loc = if text_is(b, e, w, "CELLCENTERED", false) {
            ValueLocation::CellCentered
        } else if text_is(b, e, w, "NODAL", false) {
            ValueLocation::Nodal
        } else {
            return Err(ParseError::Syntax);
        };
        let ghost item = (ranges@, loc);
        proof {
            lemma_prepend_seq_assoc(before, seq![item], sp_clauses(b@, w as int));
        }
        clauses.push((ranges, loc));
        assert(clause_views(clauses@) =~= before + seq![item]);
        q = w;
    }
}

/// The next white-space separated token at or after `p`.
fn next_token(b: &[u8], p: usize) -> (r: Result<(usize, usize), ParseError>)
    requires
        p <= b@.len(),
    ensures
        r matches Ok((s, e)) ==> p <= s < e <= b@.len(),
        match r {
            Ok((s, e)) => next_tok(b@, p as int) == Ok::<(int, int), ParseError>((s as int, e as int)),
            Err(x) => next_tok(b@, p as int) == Err::<(int, int), ParseError>(x),
        },
{
    let s = skip_blank(b, p, false);
    if s >= b.len() {
        return Err(ParseError::UnexpectedEnd);
    }
    let e = token_end(b, s, false);
    assert(!is_space(b@[s as int]));
    if e == s {
        return Err(ParseError::Syntax);
    }
    Ok((s, e))
}

/// Reads `count` tokens as values of element type `ty`.
fn read_values(b: &[u8], p: usize, count: usize, ty: TecDataType) -> (r: Result<
    (TecData, usize),
    ParseError,
>)
    requires
        p <= b@.len(),
    ensures
        r matches Ok((d, q)) ==> p <= q <= b@.len() && d.spec_len() == count && d.has_type(ty),
        values_result(r) == sp_values(b@, p as int, count as int, ty),
{
    let mut q = p;
    match ty {
        TecDataType::F64 => {
            let mut v: Vec<u64> = Vec::new();
            while v.len() < count
                invariant
                    ty == TecDataType::F64,
                    p <= q <= b@.len(),
                    v@.len() <= count,
                    sp_f64s(b@, p as int, v@.len() as int) == Ok::<(Seq<u64>, int), ParseError>(
                        (v@, q as int),
                    ),
                decreases count - v@.len(),
            {
                let ghost k = v@.len() as int;
                let (s, e) = match next_token(b, q) {
                    Ok(t) => t,
                    Err(x) => {
                        proof {
                            lemma_f64s_err(b@, p as int, k + 1, count as int);
                        }
                        return Err(x);
                    },
                };
                match parse_f64_bits(b, s, e) {
                    Some(x) => v.push(x),
                    None => {
                        proof {
                            lemma_f64s_err(b@, p as int, k + 1, count as int);
                        }
                        return Err(ParseError::BadNumber);
                    },
                }
                q = e;
            }
            Ok((TecData::F64(v), q))
        },
        TecDataType::F32 => {
            let mut v: Vec<u32> = Vec::new();
            while v.len() < count
                invariant
                    ty == TecDataType::F32,
                    p <= q <= b@.len(),
                    v@.len() <= count,
                    sp_f32s(b@, p as int, v@.len() as int) == Ok::<(Seq<u32>, int), ParseError>(
                        (v@, q as int),
                    ),
                decreases count - v@.len(),
            {
                let ghost k = v@.len() as int;
                let (s, e) = match next_token(b, q) {
                    Ok(t) => t,
                    Err(x) => {
                        proof {
                            lemma_f32s_err(b@, p as int, k + 1, count as int);
                        }
                        return Err(x);
                    },
                };
                match parse_f32_bits(b, s, e) {
                    Some(x) => v.push(x),
                    None => {
                        proof {
                            lemma_f32s_err(b@, p as int, k + 1, count as int);
                        }
                        return Err(ParseError::BadNumber);
                    },
                }
                q = e;
            }
            Ok((TecData::F32(v), q))
        },
        TecDataType::I32 => {
            let mut v: Vec<i32> = Vec::new();
            let ghost lo = -2147483648int;
            let ghost hi = 2147483647int;
            while v.len() < count
                invariant
                    ty == TecDataType::I32,
                    lo == -2147483648,
                    hi == 2147483647,
                    p <= q <= b@.len(),
                    v@.len() <= count,
                    sp_ints(b@, p as int, v@.len() as int, lo, hi) matches Ok((w, e)) && e == q
                        && w.len() == v@.len() && forall|i: int|
                        0 <= i < w.len() ==> #[trigger] w[i] == v@[i] as int,
                decreases count - v@.len(),
            {
                let ghost k = v@.len() as int;
                let (s, e) = match next_token(b, q) {
                    Ok(t) => t,
                    Err(x) => {
                        proof {
                            lemma_ints_err(b@, p as int, lo, hi, k + 1, count as int);
                        }
                        return Err(x);
                    },
                };
                match parse_int(b, s, e) {
                    Some(x) => {
                        if x < -2147483648 || x > 2147483647 {
                            proof {
                                lemma_ints_err(b@, p as int, lo, hi, k + 1, count as int);
                            }
                            return Err(ParseError::BadNumber);
                        }
                        v.push(x as i32);
                    },
                    None => {
                        proof {
                            lemma_ints_err(b@, p as int, lo, hi, k + 1, count as int);
                        }
                        return Err(ParseError::BadNumber);
                    },
                }
                q = e;
            }
            proof {
                let w = sp_ints(b@, p as int, count as int, lo, hi)->Ok_0.0;
                assert(Seq::new(w.len(), |i: int| w[i] as i32) =~= v@);
            }
            Ok((TecData::I32(v), q))
        },
        TecDataType::I16 => {
            let mut v: Vec<i16> = Vec::new();
            let ghost lo = -32768int;
            let ghost hi = 32767int;
            while v.len() < count
                invariant
                    ty == TecDataType::I16,
                    lo == -32768,
                    hi == 32767,
                    p <= q <= b@.len(),
                    v@.len() <= count,
                    sp_ints(b@, p as int, v@.len() as int, lo, hi) matches Ok((w, e)) && e == q
                        && w.len() == v@.len() && forall|i: int|
                        0 <= i < w.len() ==> #[trigger] w[i] == v@[i] as int,
                decreases count - v@.len(),
            {
                let ghost k = v@.len() as int;
                let (s, e) = match next_token(b, q) {
                    Ok(t) => t,
                    Err(x) => {
                        proof {
                            lemma_ints_err(b@, p as int, lo, hi, k + 1, count as int);
                        }
                        return Err(x);
                    },
                };
                match parse_int(b, s, e) {
                    Some(x) => {
                        if x < -32768 || x > 32767 {
                            proof {
                                lemma_ints_err(b@, p as int, lo, hi, k + 1, count as int);
                            }
                            return Err(ParseError::BadNumber);
                        }
                        v.push(x as i16);
                    },
                    None => {
                        proof {
                            lemma_ints_err(b@, p as int, lo, hi, k + 1, count as int);
                        }
                        return Err(ParseError::BadNumber);
                    },
                }
                q = e;
            }
            proof {
                let w = sp_ints(b@, p as int, count as int, lo, hi)->Ok_0.0;
                assert(Seq::new(w.len(), |i: int| w[i] as i16) =~= v@);
            }
            Ok((TecData::I16(v), q))
        },
        _ => Err(ParseError::NotSupportedFeature),
    }
}

/// Start and end of each of the next `n` tokens from `p`.
pub open spec fn sp_tokens(s: Seq<u8>, p: int, n: int) -> Result<(Seq<(int, int)>, int), ParseError>
    decreases n,
{
    if n <= 0 {
        Ok((seq![], p))
    } else {
        match sp_tokens(s, p, n - 1) {
            Err(e) => Err(e),
            Ok((ts, q)) => match next_tok(s, q) {
                Err(e) => Err(e),
                Ok((a, e)) => Ok((ts.push((a, e)), e)),
            },
        }
    }
}

/// Column `v` of the first `rows` rows of a table of `nv` tokens per row,
/// read as binary64 values.
pub open spec fn sp_col_f64(s: Seq<u8>, ts: Seq<(int, int)>, nv: int, v: int, rows: int) -> Option<Seq<u64>>
    decreases rows,
{
    if rows <= 0 {
        Some(seq![])
    } else {
        match sp_col_f64(s, ts, nv, v, rows - 1) {
            None => None,
            Some(c) => match f64_text(s.subrange(ts[(rows - 1) * nv + v].0, ts[(rows - 1) * nv + v].1)) {
                None => None,
                Some(x) => Some(c.push(x)),
            },
        }
    }
}

/// Column `v` of the first `rows` rows of a table of `nv` tokens per row,
/// read as binary32 values.
pub open spec fn sp_col_f32(s: Seq<u8>, ts: Seq<(int, int)>, nv: int, v: int, rows: int) -> Option<Seq<u32>>
    decreases rows,
{
    if rows <= 0 {
        Some(seq![])
    } else {
        match sp_col_f32(s, ts, nv, v, rows - 1) {
            None => None,
            Some(c) => match f32_text(s.subrange(ts[(rows - 1) * nv + v].0, ts[(rows - 1) * nv + v].1)) {
                None => None,
                Some(x) => Some(c.push(x)),
            },
        }
    }
}

/// The first `k` columns of a point-packed table, each read as its type.
pub open spec fn sp_point_cols(
    s: Seq<u8>,
    ts: Seq<(int, int)>,
    rows: int,
    types: Seq<TecDataType>,
    k: int,
) -> Result<Seq<DataView>, ParseError>
    decreases k,
{
    if k <= 0 {
        Ok(seq![])
    } else {
        match sp_point_cols(s, ts, rows, types, k - 1) {
            Err(e) => Err(e),
            Ok(ds) => match types[k - 1] {
                TecDataType::F64 => match sp_col_f64(s, ts, types.len() as int, k - 1, rows) {
                    None => Err(ParseError::BadNumber),
                    Some(c) => Ok(ds.push(DataView::F64(c))),
                },
                TecDataType::F32 => match sp_col_f32(s, ts, types.len() as int, k - 1, rows) {
                    None => Err(ParseError::BadNumber),
                    Some(c) => Ok(ds.push(DataView::F32(c))),
                },
                _ => Err(ParseError::NotSupportedFeature),
            },
        }
    }
}

/// The grammar's reading of a point-packed table of `rows` rows at `p`.
pub open spec fn sp_point(s: Seq<u8>, p: int, rows: int, types: Seq<TecDataType>) -> Result<
    (Seq<DataView>, int),
    ParseError,
> {
    if rows * types.len() > usize::MAX {
        Err(ParseError::InvalidZoneSize)
    } else {
        match sp_tokens(s, p, rows * types.len()) {
            Err(e) => Err(e),
            Ok((ts, q)) => match sp_point_cols(s, ts, rows, types, types.len() as int) {
                Err(e) => Err(e),
                Ok(ds) => Ok((ds, q)),
            },
        }
    }
}

proof fn lemma_tokens_err(s: Seq<u8>, p: int, k: int, m: int)
    requires
        0 < k <= m,
        sp_tokens(s, p, k) is Err,
    ensures
        sp_tokens(s, p, m) == sp_tokens(s, p, k),
    decreases m - k,
{
    if k < m {
        lemma_tokens_err(s, p, k, m - 1);
    }
}

proof fn lemma_col_f64_none(s: Seq<u8>, ts: Seq<(int, int)>, nv: int, v: int, k: int, m: int)
    requires
        0 < k <= m,
        sp_col_f64(s, ts, nv, v, k) is None,
    ensures
        sp_col_f64(s, ts, nv, v, m) is None,
    decreases m - k,
{
    if k < m {
        lemma_col_f64_none(s, ts, nv, v, k, m - 1);
    }
}

proof fn lemma_col_f32_none(s: Seq<u8>, ts: Seq<(int, int)>, nv: int, v: int, k: int, m: int)
    requires
        0 < k <= m,
        sp_col_f32(s, ts, nv, v, k) is None,
    ensures
        sp_col_f32(s, ts, nv, v, m) is None,
    decreases m - k,
{
    if k < m {
        lemma_col_f32_none(s, ts, nv, v, k, m - 1);
    }
}

proof fn lemma_cols_err(
    s: Seq<u8>,
    ts: Seq<(int, int)>,
    rows: int,
    types: Seq<TecDataType>,
    k: int,
    m: int,
)
    requires
        0 < k <= m,
        sp_point_cols(s, ts, rows, types, k) is Err,
    ensures
        sp_point_cols(s, ts, rows, types, m) == sp_point_cols(s, ts, rows, types, k),
    decreases m - k,
{
    if k < m {
        lemma_cols_err(s, ts, rows, types, k, m - 1);
    }
}

pub open spec fn token_views(t: Seq<(usize, usize)>) -> Seq<(int, int)> {
    Seq::new(t.len(), |i: int| (t[i].0 as int, t[i].1 as int))
}

pub open spec fn data_views(d: Seq<(usize, TecData)>) -> Seq<DataView> {
    Seq::new(d.len(), |i: int| d[i].1.view())
}

/// Reads the values of a zone stored node by node: `nodes` rows of one token
/// per variable, every variable nodal and of a floating-point type.
fn read_point_data(b: &[u8], p: usize, nodes: usize, types: &Vec<TecDataType>) -> (r: Result<
    (Vec<(usize, TecData)>, usize),
    ParseError,
>)
    requires
        p <= b@.len(),
    ensures
        r matches Ok((data, q)) ==> {
            &&& p <= q <= b@.len()
            &&& data@.len() == types@.len()
            &&& forall|v: int|
                0 <= v < data@.len() ==> {
                    &&& (#[trigger] data@[v]).0 == v
                    &&& data@[v].1.spec_len() == nodes
                    &&& data@[v].1.has_type(types@[v])
                }
        },
        match r {
            Ok((data, q)) => sp_point(b@, p as int, nodes as int, types@) == Ok::<
                (Seq<DataView>, int),
                ParseError,
            >((data_views(data@), q as int)),
            Err(x) => sp_point(b@, p as int, nodes as int, types@) == Err::<
                (Seq<DataView>, int),
                ParseError,
            >(x),
        },
{
    let nv = types.len();
    let total = match nodes.checked_mul(nv) {
        Some(t) => t,
        None => {
            return Err(ParseError::InvalidZoneSize);
        },
    };
    let mut toks: Vec<(usize, usize)> = Vec::new();
    let mut q = p;
    assert(token_views(toks@) =~= Seq::<(int, int)>::empty());
    while toks.len() < total
        invariant
            p <= q <= b@.len(),
            nv == types@.len(),
            total == nodes * nv,
            toks@.len() <= total,
            forall|t: int|
                0 <= t < toks@.len() ==> (#[trigger] toks@[t]).0 <= toks@[t].1 <= b@.len(),
            sp_tokens(b@, p as int, toks@.len() as int) == Ok::<(Seq<(int, int)>, int), ParseError>(
                (token_views(toks@), q as int),
            ),
        decreases total - toks@.len(),
    {
        let ghost k = toks@.len() as int;
        let ghost before = token_views(toks@);
        let (s, e) = match next_token(b, q) {
            Ok(t) => t,
            Err(x) => {
                proof {
                    lemma_tokens_err(b@, p as int, k + 1, total as int);
                }
                return Err(x);
            },
        };
        toks.push((s, e));
        assert(token_views(toks@) =~= before.push((s as int, e as int)));
        q = e;
    }
    let ghost tv = token_views(toks@);
    let mut data: Vec<(usize, TecData)> = Vec::new();
    assert(data_views(data@) =~= Seq::<DataView>::empty());
    while data.len() < nv
        invariant
            nv == types@.len(),
            total == nodes * nv,
            toks@.len() == total,
            tv == token_views(toks@),
            p <= q <= b@.len(),
            sp_tokens(b@, p as int, total as int) == Ok::<(Seq<(int, int)>, int), ParseError>(
                (tv, q as int),
            ),
            forall|t: int|
                0 <= t < toks@.len() ==> (#[trigger] toks@[t]).0 <= toks@[t].1 <= b@.len(),
            data@.len() <= nv,
            forall|v: int|
                0 <= v < data@.len() ==> {
                    &&& (#[trigger] data@[v]).0 == v
                    &&& data@[v].1.spec_len() == nodes
                    &&& data@[v].1.has_type(types@[v])
                },
            sp_point_cols(b@, tv, nodes as int, types@, data@.len() as int) == Ok::<
                Seq<DataView>,
                ParseError,
            >(data_views(data@)),
        decreases nv - data@.len(),
    {
        let v = data.len();
        let ghost before = data_views(data@);
        let d = match types[v] {
            TecDataType::F64 => {
                let mut vals: Vec<u64> = Vec::new();
                while vals.len() < nodes
                    invariant
                        v < nv,
                        nv == types@.len(),
                        total == nodes * nv,
                        toks@.len() == total,
                        tv == token_views(toks@),
                        forall|t: int|
                            0 <= t < toks@.len() ==> (#[trigger] toks@[t]).0 <= toks@[t].1
                                <= b@.len(),
                        vals@.len() <= nodes,
                        sp_col_f64(b@, tv, nv as int, v as int, vals@.len() as int) == Some(vals@),
                        types@[v as int] == TecDataType::F64,
                        data@.len() == v,
                        sp_tokens(b@, p as int, total as int) == Ok::<(Seq<(int, int)>, int), ParseError>(
                            (tv, q as int),
                        ),
                        sp_point_cols(b@, tv, nodes as int, types@, v as int) == Ok::<
                            Seq<DataView>,
                            ParseError,
                        >(data_views(data@)),
                    decreases nodes - vals@.len(),
                {
                    let row = vals.len();
                    assert(row * nv + v < nodes * nv) by (nonlinear_arith)
                        requires
                            row < nodes,
                            v < nv,
                    ;
                    let (s, e) = toks[row * nv + v];
                    match parse_f64_bits(b, s, e) {
                        Some(x) => {
                            let ghost c = vals@;
                            vals.push(x);
                            assert(vals@ == c.push(x));
                        },
                        None => {
                            proof {
                                lemma_col_f64_none(b@, tv, nv as int, v as int, row + 1, nodes as int);
                                assert(sp_point_cols(b@, tv, nodes as int, types@, v + 1) == Err::<
                                    Seq<DataView>,
                                    ParseError,
                                >(ParseError::BadNumber));
                                lemma_cols_err(b@, tv, nodes as int, types@, v + 1, nv as int);
                            }
                            return Err(ParseError::BadNumber);
                        },
                    }
                }
                TecData::F64(vals)
            },
            TecDataType::F32 => {
                let mut vals: Vec<u32> = Vec::new();
                while vals.len() < nodes
                    invariant
                        v < nv,
                        nv == types@.len(),
                        total == nodes * nv,
                        toks@.len() == total,
                        tv == token_views(toks@),
                        forall|t: int|
                            0 <= t < toks@.len() ==> (#[trigger] toks@[t]).0 <= toks@[t].1
                                <= b@.len(),
                        vals@.len() <= nodes,
                        sp_col_f32(b@, tv, nv as int, v as int, vals@.len() as int) == Some(vals@),
                        types@[v as int] == TecDataType::F32,
                        data@.len() == v,
                        sp_tokens(b@, p as int, total as int) == Ok::<(Seq<(int, int)>, int), ParseError>(
                            (tv, q as int),
                        ),
                        sp_point_cols(b@, tv, nodes as int, types@, v as int) == Ok::<
                            Seq<DataView>,
                            ParseError,
                        >(data_views(data@)),
                    decreases nodes - vals@.len(),
                {
                    let row = vals.len();
                    assert(row * nv + v < nodes * nv) by (nonlinear_arith)
                        requires
                            row < nodes,
                            v < nv,
                    ;
                    let (s, e) = toks[row * nv + v];
                    match parse_f32_bits(b, s, e) {
                        Some(x) => {
                            let ghost c = vals@;
                            vals.push(x);
                            assert(vals@ == c.push(x));
                        },
                        None => {
                            proof {
                                lemma_col_f32_none(b@, tv, nv as int, v as int, row + 1, nodes as int);
                                assert(sp_point_cols(b@, tv, nodes as int, types@, v + 1) == Err::<
                                    Seq<DataView>,
                                    ParseError,
                                >(ParseError::BadNumber));
                                lemma_cols_err(b@, tv, nodes as int, types@, v + 1, nv as int);
                            }
                            return Err(ParseError::BadNumber);
                        },
                    }
                }
                TecData::F32(vals)
            },
            _ => {
                proof {
                    lemma_cols_err(b@, tv, nodes as int, types@, v + 1, nv as int);
                }
                return Err(ParseError::NotSupportedFeature);
            },
        };
        data.push((v, d));
        assert(data_views(data@) =~= before.push(d.view()));
    }
    Ok((data, q))
}

/// The topology that a `ZONETYPE` token `t[a..e]` names, ignoring case.
pub open spec fn zone_type_named_spec(t: Seq<u8>, a: int, e: int) -> Option<ZoneType> {
    if text_eq(t, a, e, "ordered".spec_bytes(), true) {
        Some(ZoneType::Ordered)
    } else if text_eq(t, a, e, "felineseg".spec_bytes(), true) {
        Some(ZoneType::FELine)
    } else if text_eq(t, a, e, "fetriangle".spec_bytes(), true) {
        Some(ZoneType::FETriangle)
    } else if text_eq(t, a, e, "fequadrilateral".spec_bytes(), true) {
        Some(ZoneType::FEQuad)
    } else if text_eq(t, a, e, "fetetrahedron".spec_bytes(), true) {
        Some(ZoneType::FETetra)
    } else if text_eq(t, a, e, "febrick".spec_bytes(), true) {
        Some(ZoneType::FEBrick)
    } else if text_eq(t, a, e, "fepolygon".spec_bytes(), true) {
        Some(ZoneType::FEPolygon)
    } else if text_eq(t, a, e, "fepolyhedral".spec_bytes(), true) {
        Some(ZoneType::FEPolyhedron)
    } else {
        None
    }
}

/// The topology that a `ZONETYPE` token names, ignoring case.
fn zone_type_named(b: &[u8], s: usize, e: usize) -> (r: Option<ZoneType>)
    requires
        s <= e <= b@.len(),
    ensures
        r == zone_type_named_spec(b@, s as int, e as int),
{
    if text_is(b, s, e, "ordered", true) {
        Some(ZoneType::Ordered)
    } else if text_is(b, s, e, "felineseg", true) {
        Some(ZoneType::FELine)
    } else if text_is(b, s, e, "fetriangle", true) {
        Some(ZoneType::FETriangle)
    } else if text_is(b, s, e, "fequadrilateral", true) {
        Some(ZoneType::FEQuad)
    } else if text_is(b, s, e, "fetetrahedron", true) {
        Some(ZoneType::FETetra)
    } else if text_is(b, s, e, "febrick", true) {
        Some(ZoneType::FEBrick)
    } else if text_is(b, s, e, "fepolygon", true) {
        Some(ZoneType::FEPolygon)
    } else if text_is(b, s, e, "fepolyhedral", true) {
        Some(ZoneType::FEPolyhedron)
    } else {
        None
    }
}

/// The assignments of a zone header, as numbers and sequences.
pub struct KeysView {
    pub title: Option<Seq<char>>,
    pub kind: ZoneType,
    pub i: int,
    pub j: int,
    pub k: int,
    pub nodes: int,
    pub cells: int,
    pub strand: int,
    pub time: u64,
    pub point: bool,
    pub dt: Option<Seq<TecDataType>>,
    pub var_loc: Option<Seq<(Seq<VarRange>, ValueLocation)>>,
}

/// What a zone header holds before any assignment: an ordered 1x1x1 zone,
/// block-packed, at strand and time zero.
pub open spec fn initial_keys() -> KeysView {
    KeysView {
        title: None,
        kind: ZoneType::Ordered,
        i: 1,
        j: 1,
        k: 1,
        nodes: 1,
        cells: 1,
        strand: 0,
        time: 0,
        point: false,
        dt: None,
        var_loc: None,
    }
}

/// The assignments of a zone header, as read so far.
pub struct ZoneKeys {
    pub title: Option<String>,
    pub zone_type: ZoneType,
    pub i_max: i64,
    pub j_max: i64,
    pub k_max: i64,
    pub nodes: i64,
    pub cells: i64,
    pub strand: i64,
    pub solution_time: u64,
    pub point: bool,
    pub dt: Option<Vec<TecDataType>>,
    pub var_loc: Option<Vec<(Vec<VarRange>, ValueLocation)>>,
}

impl ZoneKeys {
    pub open spec fn view(&self) -> KeysView {
        KeysView {
            title: match self.title {
                Some(t) => Some(t@),
                None => None,
            },
            kind: self.zone_type,
            i: self.i_max as int,
            j: self.j_max as int,
            k: self.k_max as int,
            nodes: self.nodes as int,
            cells: self.cells as int,
            strand: self.strand as int,
            time: self.solution_time,
            point: self.point,
            dt: match self.dt {
                Some(t) => Some(t@),
                None => None,
            },
            var_loc: match self.var_loc {
                Some(l) => Some(clause_views(l@)),
                None => None,
            },
        }
    }
}

/// The value of one zone assignment at `q`, applied to `k`.
pub open spec fn sp_key_value(s: Seq<u8>, q: int, kw: KeyWord, k: KeysView) -> Result<
    (KeysView, int),
    ParseError,
> {
    let w = alnum_end(s, q);
    match kw {
        KeyWord::T => match sp_quoted(s, q) {
            Err(x) => Err(x),
            Ok((t, e)) => Ok((KeysView { title: Some(t), ..k }, e)),
        },
        KeyWord::Title => match sp_quoted(s, q) {
            Err(x) => Err(x),
            Ok((_, e)) => Ok((k, e)),
        },
        KeyWord::ZoneType => match zone_type_named_spec(s, q, w) {
            None => Err(ParseError::Syntax),
            Some(t) => Ok((KeysView { kind: t, ..k }, w)),
        },
        KeyWord::DataPacking => if text_eq(s, q, w, "point".spec_bytes(), true) {
            Ok((KeysView { point: true, ..k }, w))
        } else if text_eq(s, q, w, "block".spec_bytes(), true) {
            Ok((KeysView { point: false, ..k }, w))
        } else {
            Err(ParseError::Syntax)
        },
        KeyWord::FileType => if w == q {
            Err(ParseError::Syntax)
        } else {
            Ok((k, w))
        },
        KeyWord::I => match sp_int_value(s, q) {
            Err(x) => Err(x),
            Ok((v, e)) => Ok((KeysView { i: v, ..k }, e)),
        },
        KeyWord::J => match sp_int_value(s, q) {
            Err(x) => Err(x),
            Ok((v, e)) => Ok((KeysView { j: v, ..k }, e)),
        },
        KeyWord::K => match sp_int_value(s, q) {
            Err(x) => Err(x),
            Ok((v, e)) => Ok((KeysView { k: v, ..k }, e)),
        },
        KeyWord::Nodes => match sp_int_value(s, q) {
            Err(x) => Err(x),
            Ok((v, e)) => Ok((KeysView { nodes: v, ..k }, e)),
        },
        KeyWord::Elements => match sp_int_value(s, q) {
            Err(x) => Err(x),
            Ok((v, e)) => Ok((KeysView { cells: v, ..k }, e)),
        },
        KeyWord::StrandId => match sp_int_value(s, q) {
            Err(x) => Err(x),
            Ok((v, e)) => Ok((KeysView { strand: v, ..k }, e)),
        },
        KeyWord::SolutionTime => match f64_text(s.subrange(q, run_end(s, q, true))) {
            None => Err(ParseError::BadNumber),
            Some(t) => Ok((KeysView { time: t, ..k }, run_end(s, q, true))),
        },
        KeyWord::DT => match sp_dt(s, q) {
            Err(x) => Err(x),
            Ok((t, e)) => Ok((KeysView { dt: Some(t), ..k }, e)),
        },
        KeyWord::VarLocation => match sp_varloc(s, q) {
            Err(x) => Err(x),
            Ok((l, e)) => Ok((KeysView { var_loc: Some(l), ..k }, e)),
        },
        _ => Err(ParseError::NotSupportedFeature),
    }
}

pub open spec fn is_letter(c: u8) -> bool {
    (65 <= c <= 90) || (97 <= c <= 122)
}

/// The assignments of a zone header from `p` on, applied in order to `k`, up
/// to the first token that does not start with a letter or the next `ZONE`.
pub open spec fn sp_zone_keys(s: Seq<u8>, p: int, k: KeysView) -> Result<(KeysView, int), ParseError>
    decreases s.len() - p,
{
    let a = blank_end(s, p, true);
    let e = alnum_end(s, a);
    if a >= s.len() || !is_letter(s[a]) {
        Ok((k, a))
    } else if text_eq(s, a, e, "ZONE".spec_bytes(), false) {
        Ok((k, a))
    } else {
        match keyword_of(s, a, e) {
            None => Err(ParseError::WrongHeaderTag),
            Some(kw) => match sp_equals(s, e) {
                Err(x) => Err(x),
                Ok(q) => match sp_key_value(s, q, kw, k) {
                    Err(x) => Err(x),
                    Ok((k2, w)) => if p < w <= s.len() {
                        sp_zone_keys(s, w, k2)
                    } else {
                        Err(ParseError::UnexpectedEnd)
                    },
                },
            },
        }
    }
}

/// The zone that the assignments describe, with 1-based position `id`.
pub open spec fn sp_build(k: KeysView, nv: int, id: int) -> Result<ZoneView, ParseError> {
    if k.strand < -2147483648 || k.strand > 2147483647 {
        Err(ParseError::BadNumber)
    } else {
        match sp_resolve(
            match k.var_loc {
                Some(l) => l,
                None => seq![],
            },
            nv,
        ) {
            Err(x) => Err(x),
            Ok(locs) => if k.dt is Some && k.dt->Some_0.len() != nv {
                Err(ParseError::Syntax)
            } else {
                let types = match k.dt {
                    Some(t) => t,
                    None => Seq::new(nv as nat, |i: int| TecDataType::F64),
                };
                let name = match k.title {
                    Some(t) => t,
                    None => "Unnamed zone"@,
                };
                if k.kind is Ordered {
                    if k.i < 1 || k.j < 1 || k.k < 1 || k.i * k.j * k.k > 0x7fff_ffff_ffff_ffff || k.i
                        * k.j * k.k > usize::MAX {
                        Err(ParseError::InvalidZoneSize)
                    } else {
                        Ok(
                            ZoneView {
                                name,
                                id,
                                time: k.time,
                                strand: k.strand,
                                shape: ShapeView::Grid { i: k.i, j: k.j, k: k.k },
                                locs,
                                types: Some(types),
                            },
                        )
                    }
                } else if k.kind.is_classic_fe() {
                    if k.nodes < 0 || k.cells < 0 || k.nodes > usize::MAX || k.cells
                        * k.kind.nodes_per_element() > usize::MAX {
                        Err(ParseError::InvalidZoneSize)
                    } else {
                        Ok(
                            ZoneView {
                                name,
                                id,
                                time: k.time,
                                strand: k.strand,
                                shape: ShapeView::Mesh { kind: k.kind, nodes: k.nodes, cells: k.cells },
                                locs,
                                types: Some(types),
                            },
                        )
                    }
                } else {
                    Err(ParseError::NotSupportedFeature)
                }
            },
        }
    }
}

pub open spec fn view_count(z: ZoneView, loc: ValueLocation) -> int {
    match loc {
        ValueLocation::Nodal => view_nodes(z),
        ValueLocation::CellCentered => view_cells(z),
    }
}

/// The block-packed payloads of the first `n` variables of `z` from `p`.
pub open spec fn sp_block_vars(s: Seq<u8>, p: int, z: ZoneView, n: int) -> Result<
    (Seq<DataView>, int),
    ParseError,
>
    decreases n,
{
    if n <= 0 {
        Ok((seq![], p))
    } else {
        match sp_block_vars(s, p, z, n - 1) {
            Err(x) => Err(x),
            Ok((ds, q)) => match sp_values(s, q, view_count(z, z.locs[n - 1]), z.types->Some_0[n - 1]) {
                Err(x) => Err(x),
                Ok((d, q)) => Ok((ds.push(d), q)),
            },
        }
    }
}

/// The values of the variables of zone `z` from `p`, block- or point-packed.
pub open spec fn sp_zone_values(s: Seq<u8>, p: int, z: ZoneView, point: bool, nv: int) -> Result<
    (Seq<DataView>, int),
    ParseError,
> {
    if !point {
        sp_block_vars(s, p, z, nv)
    } else if exists|w: int| 0 <= w < nv && #[trigger] z.locs[w] != ValueLocation::Nodal {
        Err(ParseError::NotSupportedFeature)
    } else {
        sp_point(s, p, view_nodes(z), z.types->Some_0)
    }
}

/// The values and connectivity of zone `z` from `p`.
pub open spec fn sp_zone_data(s: Seq<u8>, p: int, z: ZoneView, point: bool, nv: int) -> Result<
    (BlockView, int),
    ParseError,
> {
    let data = sp_zone_values(s, p, z, point, nv);
    let zeros = Seq::new(nv as nat, |i: int| (0u64, 0u64));
    match data {
        Err(x) => Err(x),
        Ok((ds, q)) => match z.shape {
            ShapeView::Grid { .. } => Ok((BlockView { data: ds, connectivity: None, min_max: zeros }, q)),
            ShapeView::Mesh { kind, cells, .. } => match sp_values(
                s,
                q,
                cells * kind.nodes_per_element(),
                TecDataType::I32,
            ) {
                Err(x) => Err(x),
                Ok((c, q)) => Ok((BlockView { data: ds, connectivity: Some(c), min_max: zeros }, q)),
            },
        },
    }
}

/// The grammar's reading of one zone after its `ZONE` keyword at `p`.
pub open spec fn sp_zone(s: Seq<u8>, p: int, nv: int, id: int) -> Result<
    (ZoneView, BlockView, int),
    ParseError,
> {
    match sp_zone_keys(s, p, initial_keys()) {
        Err(x) => Err(x),
        Ok((k, q)) => match sp_build(k, nv, id) {
            Err(x) => Err(x),
            Ok(z) => match sp_zone_data(s, q, z, k.point, nv) {
                Err(x) => Err(x),
                Ok((blk, q)) => Ok((z, blk, q)),
            },
        },
    }
}

proof fn lemma_block_vars_err(s: Seq<u8>, p: int, z: ZoneView, k: int, m: int)
    requires
        0 < k <= m,
        sp_block_vars(s, p, z, k) is Err,
    ensures
        sp_block_vars(s, p, z, m) == sp_block_vars(s, p, z, k),
    decreases m - k,
{
    if k < m {
        lemma_block_vars_err(s, p, z, k, m - 1);
    }
}

/// Applies one zone assignment whose value starts at `q`.
fn apply_key(b: &[u8], q: usize, kw: KeyWord, keys: &mut ZoneKeys) -> (r: Result<usize, ParseError>)
    requires
        q <= b@.len(),
    ensures
        match r {
            Ok(w) => q <= w <= b@.len() && sp_key_value(b@, q as int, kw, old(keys).view()) == Ok::<
                (KeysView, int),
                ParseError,
            >((final(keys).view(), w as int)),
            Err(x) => sp_key_value(b@, q as int, kw, old(keys).view()) == Err::<
                (KeysView, int),
                ParseError,
            >(x),
        },
{
    match kw {
        KeyWord::T => {
            let (t, w) = read_quoted(b, q)?;
            keys.title = Some(t);
            Ok(w)
        },
        KeyWord::Title => {
            let (_t, w) = read_quoted(b, q)?;
            Ok(w)
        },
        KeyWord::ZoneType => {
            let w = word_end(b, q);
            match zone_type_named(b, q, w) {
                Some(t) => {
                    keys.zone_type = t;
                    Ok(w)
                },
                None => Err(ParseError::Syntax),
            }
        },
        KeyWord::DataPacking => {
            let w = word_end(b, q);
            if text_is(b, q, w, "point", true) {
                keys.point = true;
                Ok(w)
            } else if text_is(b, q, w, "block", true) {
                keys.point = false;
                Ok(w)
            } else {
                Err(ParseError::Syntax)
            }
        },
        KeyWord::FileType => {
            let w = word_end(b, q);
            if w == q {
                return Err(ParseError::Syntax);
            }
            Ok(w)
        },
        KeyWord::I | KeyWord::J | KeyWord::K | KeyWord::Nodes | KeyWord::Elements
        | KeyWord::StrandId => {
            let (v, w) = int_value(b, q)?;
            match kw {
                KeyWord::I => keys.i_max = v,
                KeyWord::J => keys.j_max = v,
                KeyWord::K => keys.k_max = v,
                KeyWord::Nodes => keys.nodes = v,
                KeyWord::Elements => keys.cells = v,
                _ => keys.strand = v,
            }
            Ok(w)
        },
        KeyWord::SolutionTime => {
            let w = token_end(b, q, true);
            match parse_f64_bits(b, q, w) {
                Some(t) => {
                    keys.solution_time = t;
                    Ok(w)
                },
                None => Err(ParseError::BadNumber),
            }
        },
        KeyWord::DT => {
            let (t, w) = parse_dt(b, q)?;
            keys.dt = Some(t);
            Ok(w)
        },
        KeyWord::VarLocation => {
            let (l, w) = parse_var_location(b, q)?;
            keys.var_loc = Some(l);
            Ok(w)
        },
        _ => Err(ParseError::NotSupportedFeature),
    }
}

/// Reads the assignments of a zone header from `p` on.
fn parse_zone_keys(b: &[u8], p: usize) -> (r: Result<(ZoneKeys, usize), ParseError>)
    requires
        p <= b@.len(),
    ensures
        match r {
            Ok((k, q)) => p <= q <= b@.len() && sp_zone_keys(b@, p as int, initial_keys()) == Ok::<
                (KeysView, int),
                ParseError,
            >((k.view(), q as int)),
            Err(x) => sp_zone_keys(b@, p as int, initial_keys()) == Err::<(KeysView, int), ParseError>(
                x,
            ),
        },
{
    let mut keys = ZoneKeys {
        title: None,
        zone_type: ZoneType::Ordered,
        i_max: 1,
        j_max: 1,
        k_max: 1,
        nodes: 1,
        cells: 1,
        strand: 0,
        solution_time: 0,
        point: false,
        dt: None,
        var_loc: None,
    };
    assert(keys.view() == initial_keys());
    let mut q = p;
    loop
        invariant_except_break
            sp_zone_keys(b@, p as int, initial_keys()) == sp_zone_keys(b@, q as int, keys.view()),
        invariant
            p <= q <= b@.len(),
        ensures
            sp_zone_keys(b@, p as int, initial_keys()) == Ok::<(KeysView, int), ParseError>(
                (keys.view(), q as int),
            ),
        decreases b@.len() - q,
    {
        let at = skip_blank(b, q, true);
        if at >= b.len() || !((b[at] >= 65 && b[at] <= 90) || (b[at] >= 97 && b[at] <= 122)) {
            q = at;
            break ;
        }
        let e = word_end(b, at);
        if text_is(b, at, e, "ZONE", false) {
            q = at;
            break ;
        }
        let kw = match keyword(b, at, e) {
            Some(k) => k,
            None => {
                return Err(ParseError::WrongHeaderTag);
            },
        };
        let v = expect_equals(b, e)?;
        let w = apply_key(b, v, kw, &mut keys)?;
        q = w;
    }
    Ok((keys, q))
}

/// Reads the values of the variables of `zone` from `p`.
fn read_zone_values(b: &[u8], p: usize, zone: &TecZone, point: bool, var_num: usize) -> (r: Result<
    (Vec<(usize, TecData)>, usize),
    ParseError,
>)
    requires
        p <= b@.len(),
        zone.wf(),
        zone.locs().len() == var_num,
        zone.types() matches Some(t) && t@.len() == var_num,
    ensures
        r matches Ok((data, q)) ==> {
            &&& p <= q <= b@.len()
            &&& data@.len() == var_num
            &&& forall|v: int|
                0 <= v < data@.len() ==> {
                    &&& (#[trigger] data@[v]).0 == v
                    &&& data@[v].1.spec_len() == zone.count_at(zone.locs()[v])
                    &&& data@[v].1.has_type(zone.types()->Some_0@[v])
                }
        },
        match r {
            Ok((data, q)) => sp_zone_values(b@, p as int, zone.view(), point, var_num as int) == Ok::<
                (Seq<DataView>, int),
                ParseError,
            >((data_views(data@), q as int)),
            Err(x) => sp_zone_values(b@, p as int, zone.view(), point, var_num as int) == Err::<
                (Seq<DataView>, int),
                ParseError,
            >(x),
        },
{
    let ghost zv = zone.view();
    let ghost p_data = p as int;
    let mut pos = p;
    if !point {
        let mut data: Vec<(usize, TecData)> = Vec::new();
        assert(data_views(data@) =~= Seq::<DataView>::empty());
        while data.len() < var_num
            invariant
                !point,
                zone.wf(),
                zone.view() == zv,
                zone.locs().len() == var_num,
                zone.types() matches Some(t) && t@.len() == var_num,
                p_data == p,
                p_data <= pos <= b@.len(),
                data@.len() <= var_num,
                forall|v: int|
                    0 <= v < data@.len() ==> {
                        &&& (#[trigger] data@[v]).0 == v
                        &&& data@[v].1.spec_len() == zone.count_at(zone.locs()[v])
                        &&& data@[v].1.has_type(zone.types()->Some_0@[v])
                    },
                sp_block_vars(b@, p_data, zv, data@.len() as int) == Ok::<
                    (Seq<DataView>, int),
                    ParseError,
                >((data_views(data@), pos as int)),
            decreases var_num - data@.len(),
        {
            let v = data.len();
            let count = match zone.var_locs()[v] {
                ValueLocation::Nodal => zone.node_count(),
                ValueLocation::CellCentered => zone.cell_count(),
            };
            let ty = match zone.data_types() {
                Some(t) => t[v],
                None => {
                    return Err(ParseError::Syntax);
                },
            };
            let ghost before = data_views(data@);
            match read_values(b, pos, count, ty) {
                Ok((d, q)) => {
                    data.push((v, d));
                    assert(data_views(data@) =~= before.push(d.view()));
                    pos = q;
                },
                Err(x) => {
                    proof {
                        assert(count == view_count(zv, zv.locs[v as int]));
                        assert(ty == zv.types->Some_0[v as int]);
                        assert(sp_block_vars(b@, p_data, zv, v + 1) == Err::<(Seq<DataView>, int), ParseError>(
                            x,
                        ));
                        lemma_block_vars_err(b@, p_data, zv, v + 1, var_num as int);
                    }
                    return Err(x);
                },
            }
        }
        Ok((data, pos))
    } else {
        let mut v: usize = 0;
        while v < var_num
            invariant
                point,
                zone.locs().len() == var_num,
                zone.view() == zv,
                v <= var_num,
                forall|w: int| 0 <= w < v ==> zone.locs()[w] == ValueLocation::Nodal,
            decreases var_num - v,
        {
            if zone.var_locs()[v] != ValueLocation::Nodal {
                assert(zv.locs[v as int] != ValueLocation::Nodal);
                return Err(ParseError::NotSupportedFeature);
            }
            v += 1;
        }
        assert(!exists|w: int| 0 <= w < var_num && #[trigger] zv.locs[w] != ValueLocation::Nodal);
        match zone.data_types() {
            Some(t) => {
                let t = crate::common::copy_vec_from_slice(t);
                read_point_data(b, p, zone.node_count(), &t)
            },
            None => Err(ParseError::Syntax),
        }
    }
}

/// Reads one zone after its `ZONE` keyword: its assignments, its values and,
/// for a finite-element zone, its connectivity.
#[verifier::rlimit(40)]
fn parse_zone(b: &[u8], p: usize, var_num: usize, id: i32) -> (r: Result<
    (TecZone, DataBlock, usize),
    ParseError,
>)
    requires
        p <= b@.len(),
    ensures
        r matches Ok((z, blk, q)) ==> {
            &&& p <= q <= b@.len()
            &&& z.wf()
            &&& z.locs().len() == var_num
            &&& z.spec_id() == id
            &&& blk.matches_zone(&z)
        },
        match r {
            Ok((z, blk, q)) => sp_zone(b@, p as int, var_num as int, id as int) == Ok::<
                (ZoneView, BlockView, int),
                ParseError,
            >((z.view(), blk.view(), q as int)),
            Err(x) => sp_zone(b@, p as int, var_num as int, id as int) == Err::<
                (ZoneView, BlockView, int),
                ParseError,
            >(x),
        },
{
    let (keys, p) = parse_zone_keys(b, p)?;
    let ghost kv = keys.view();
    let ghost p_data = p as int;
    let ZoneKeys {
        title,
        zone_type,
        i_max,
        j_max,
        k_max,
        nodes,
        cells,
        strand,
        solution_time,
        point,
        dt,
        var_loc,
    } = keys;
    if strand < -2147483648 || strand > 2147483647 {
        return Err(ParseError::BadNumber);
    }
    let name = match title {
        Some(t) => t,
        None => String::from_str("Unnamed zone"),
    };
    let var_location = match var_loc {
        Some(l) => {
            let r = resolve_var_location(l.as_slice(), var_num);
            proof {
                lemma_resolve_view(l@, var_num as int, r);
            }
            r?
        },
        None => {
            let r = resolve_var_location(&[], var_num);
            proof {
                let empty: Seq<(Vec<VarRange>, ValueLocation)> = seq![];
                assert(clause_views(empty) =~= seq![]);
                lemma_resolve_view(empty, var_num as int, r);
            }
            r?
        },
    };
    let types = match dt {
        Some(t) => {
            if t.len() != var_num {
                return Err(ParseError::Syntax);
            }
            t
        },
        None => {
            let mut t: Vec<TecDataType> = Vec::new();
            while t.len() < var_num
                invariant
                    t@.len() <= var_num,
                    forall|i: int| 0 <= i < t@.len() ==> #[trigger] t@[i] == TecDataType::F64,
                decreases var_num - t@.len(),
            {
                t.push(TecDataType::F64);
            }
            assert(t@ =~= Seq::new(var_num as nat, |i: int| TecDataType::F64));
            t
        },
    };
    let zone = match zone_type {
        ZoneType::Ordered => {
            if i_max < 1 || j_max < 1 || k_max < 1 {
                return Err(ParseError::InvalidZoneSize);
            }
            assert(i_max * j_max <= i_max * j_max * k_max) by (nonlinear_arith)
                requires
                    i_max >= 1,
                    j_max >= 1,
                    k_max >= 1,
            ;
            let n = match (i_max as u64).checked_mul(j_max as u64) {
                Some(ij) => ij.checked_mul(k_max as u64),
                None => None,
            };
            match n {
                Some(n) => {
                    if n > 0x7fff_ffff_ffff_ffff || n > usize::MAX as u64 {
                        return Err(ParseError::InvalidZoneSize);
                    }
                },
                None => {
                    return Err(ParseError::InvalidZoneSize);
                },
            }
            TecZone::Ordered(
                OrderedZone {
                    name,
                    id,
                    solution_time,
                    strand: strand as i32,
                    i_max,
                    j_max,
                    k_max,
                    var_location,
                    var_types: Some(types),
                    passive_var_list: Vec::new(),
                },
            )
        },
        ZoneType::FELine | ZoneType::FETriangle | ZoneType::FEQuad | ZoneType::FETetra
        | ZoneType::FEBrick => {
            if nodes < 0 || cells < 0 || nodes as u64 > usize::MAX as u64 {
                return Err(ParseError::InvalidZoneSize);
            }
            match (cells as u64).checked_mul(zone_type.num_nodes() as u64) {
                Some(c) => {
                    if c > usize::MAX as u64 {
                        return Err(ParseError::InvalidZoneSize);
                    }
                },
                None => {
                    return Err(ParseError::InvalidZoneSize);
                },
            }
            TecZone::ClassicFE(
                ClassicFEZone {
                    name,
                    zone_type,
                    id,
                    solution_time,
                    strand: strand as i32,
                    nodes,
                    cells,
                    var_location,
                    var_types: Some(types),
                },
            )
        },
        _ => {
            return Err(ParseError::NotSupportedFeature);
        },
    };
    let ghost zv = zone.view();
    assert(sp_build(kv, var_num as int, id as int) == Ok::<ZoneView, ParseError>(zv));
    let (data, q) = read_zone_values(b, p, &zone, point, var_num)?;
    let mut p = q;
    let ghost p_conn = p as int;
    let connectivity = match &zone {
        TecZone::Ordered(_) => None,
        TecZone::ClassicFE(fe) => {
            let (c, q) = read_values(b, p, fe.num_connections(), TecDataType::I32)?;
            p = q;
            Some(c)
        },
    };
    let mut min_max: Vec<(u64, u64)> = Vec::new();
    while min_max.len() < var_num
        invariant
            min_max@.len() <= var_num,
            forall|i: int| 0 <= i < min_max@.len() ==> #[trigger] min_max@[i] == (0u64, 0u64),
        decreases var_num - min_max@.len(),
    {
        min_max.push((0, 0));
    }
    assert(min_max@ =~= Seq::new(var_num as nat, |i: int| (0u64, 0u64)));
    let blk = DataBlock { data, connectivity, min_max };
    assert(blk.view().data =~= data_views(blk.data@));
    Ok((zone, blk, p))
}

pub open spec fn prepend_zone_blocks(
    zs: Seq<ZoneView>,
    bs: Seq<BlockView>,
    r: Result<(Seq<ZoneView>, Seq<BlockView>), ParseError>,
) -> Result<(Seq<ZoneView>, Seq<BlockView>), ParseError> {
    match r {
        Ok((a, c)) => Ok((zs + a, bs + c)),
        Err(e) => Err(e),
    }
}

proof fn lemma_prepend_zone_blocks(
    zs: Seq<ZoneView>,
    bs: Seq<BlockView>,
    z2: Seq<ZoneView>,
    b2: Seq<BlockView>,
    r: Result<(Seq<ZoneView>, Seq<BlockView>), ParseError>,
)
    ensures
        prepend_zone_blocks(zs, bs, prepend_zone_blocks(z2, b2, r)) == prepend_zone_blocks(
            zs + z2,
            bs + b2,
            r,
        ),
        prepend_zone_blocks(Seq::<ZoneView>::empty(), Seq::<BlockView>::empty(), r) == r,
{
    if let Ok((a, c)) = r {
        assert((zs + z2) + a =~= zs + (z2 + a));
        assert((bs + b2) + c =~= bs + (b2 + c));
        assert(Seq::<ZoneView>::empty() + a =~= a);
        assert(Seq::<BlockView>::empty() + c =~= c);
    }
}

/// The zones of an ASCII file from `p` on, each opened by `ZONE` and
/// numbered from `done + 1`, with their data blocks.
pub open spec fn sp_dat_zones(s: Seq<u8>, p: int, nv: int, done: int) -> Result<
    (Seq<ZoneView>, Seq<BlockView>),
    ParseError,
>
    decreases s.len() - p,
{
    let a = blank_end(s, p, false);
    let e = alnum_end(s, a);
    if a >= s.len() {
        Ok((seq![], seq![]))
    } else if !text_eq(s, a, e, "ZONE".spec_bytes(), false) || e == a {
        Err(ParseError::Syntax)
    } else if done >= 0x7fff_fffe {
        Err(ParseError::InvalidZoneSize)
    } else {
        match sp_zone(s, e, nv, done + 1) {
            Err(x) => Err(x),
            Ok((z, blk, q)) => if p < q <= s.len() {
                prepend_zone_blocks(seq![z], seq![blk], sp_dat_zones(s, q, nv, done + 1))
            } else {
                Err(ParseError::UnexpectedEnd)
            },
        }
    }
}

/// Mathematical content of a decoded ASCII file.
pub struct DatView {
    pub title: Seq<char>,
    pub num_variables: int,
    pub var_names: Seq<Seq<char>>,
    pub zones: Seq<ZoneView>,
    pub blocks: Seq<BlockView>,
}

/// The grammar's reading of a whole ASCII file.
pub open spec fn sp_dat(s: Seq<u8>) -> Result<DatView, ParseError> {
    match sp_header(s) {
        Err(e) => Err(e),
        Ok((title, _, names, p)) => if names.len() > 0x7fff_ffff {
            Err(ParseError::InvalidZoneSize)
        } else {
            match sp_dat_zones(s, p, names.len() as int, 0) {
                Err(e) => Err(e),
                Ok((zs, bs)) => Ok(
                    DatView {
                        title,
                        num_variables: names.len() as int,
                        var_names: names,
                        zones: zs,
                        blocks: bs,
                    },
                ),
            }
        },
    }
}

pub open spec fn dat_result(r: Result<DatFormat, ParseError>) -> Result<DatView, ParseError> {
    match r {
        Ok(f) => Ok(f.view()),
        Err(e) => Err(e),
    }
}

/// A decoded ASCII file.
#[derive(Clone, Debug, PartialEq)]
pub struct DatFormat {
    pub dataset: Dataset,
    pub zones: Vec<TecZone>,
    pub data_blocks: Vec<DataBlock>,
}

impl DatFormat {
    pub open spec fn view(&self) -> DatView {
        DatView {
            title: self.dataset.title@,
            num_variables: self.dataset.num_variables as int,
            var_names: name_views(self.dataset.var_names@),
            zones: zone_views(self.zones@),
            blocks: block_views(self.data_blocks@),
        }
    }

    pub open spec fn wf(&self) -> bool {
        consistent(&self.dataset, self.zones@, self.data_blocks@)
    }

    /// Decodes the whole text of an ASCII file. Any malformed or unsupported
    /// construct aborts the decode.
    #[verifier::rlimit(40)]
    pub fn decode(text: &str) -> (r: Result<DatFormat, ParseError>)
        ensures
            dat_result(r) == sp_dat(text.spec_bytes()),
            r matches Ok(f) ==> f.wf(),
            match sp_header(text.spec_bytes()) {
                Err(e) => r == Err::<DatFormat, ParseError>(e),
                Ok((title, _, names, _)) => r matches Ok(f) ==> f.dataset.title@ == title
                    && name_views(f.dataset.var_names@) == names,
            },
    {
        let b = text.as_bytes();
        let (header, p) = parse_header(b)?;
        let ghost hdr = sp_header(b@);
        let var_num = header.var_list.len();
        if var_num > 0x7fff_ffff {
            return Err(ParseError::InvalidZoneSize);
        }
        let mut zones: Vec<TecZone> = Vec::new();
        let mut blocks: Vec<DataBlock> = Vec::new();
        let ghost p0 = p as int;
        let mut p = p;
        assert(zone_views(zones@) =~= Seq::<ZoneView>::empty());
        assert(block_views(blocks@) =~= Seq::<BlockView>::empty());
        proof {
            lemma_prepend_zone_blocks(
                seq![],
                seq![],
                seq![],
                seq![],
                sp_dat_zones(b@, p0, var_num as int, 0),
            );
        }
        loop
            invariant_except_break
                sp_dat_zones(b@, p0, var_num as int, 0) == prepend_zone_blocks(
                    zone_views(zones@),
                    block_views(blocks@),
                    sp_dat_zones(b@, p as int, var_num as int, zones@.len() as int),
                ),
            invariant
                hdr matches Ok((_, _, _, hp)) && hp == p0,
                b@ == text.spec_bytes(),
                hdr == sp_header(b@),
                hdr matches Ok((t, _, names, _)) && t == header.title@ && names == name_views(
                    header.var_list@,
                ),
                var_num == header.var_list@.len(),
                p <= b@.len(),
                var_num <= 0x7fff_ffff,
                blocks@.len() == zones@.len(),
                zones@.len() < 0x7fff_ffff,
                forall|z: int|
                    0 <= z < zones@.len() ==> {
                        &&& (#[trigger] zones@[z]).wf()
                        &&& zones@[z].locs().len() == var_num
                        &&& blocks@[z].matches_zone(&zones@[z])
                        &&& zones@[z].spec_id() == z + 1
                    },
            ensures
                sp_dat_zones(b@, p0, var_num as int, 0) == Ok::<
                    (Seq<ZoneView>, Seq<BlockView>),
                    ParseError,
                >((zone_views(zones@), block_views(blocks@))),
            decreases b@.len() - p,
        {
            let ghost zs0 = zone_views(zones@);
            let ghost bs0 = block_views(blocks@);
            let s = skip_blank(b, p, false);
            if s >= b.len() {
                assert(zs0 + seq![] =~= zs0);
                assert(bs0 + seq![] =~= bs0);
                break ;
            }
            let e = word_end(b, s);
            if !text_is(b, s, e, "ZONE", false) || e == s {
                return Err(ParseError::Syntax);
            }
            if zones.len() >= 0x7fff_fffe {
                return Err(ParseError::InvalidZoneSize);
            }
            let (zone, block, q) = parse_zone(b, e, var_num, (zones.len() + 1) as i32)?;
            proof {
                lemma_prepend_zone_blocks(
                    zs0,
                    bs0,
                    seq![zone.view()],
                    seq![block.view()],
                    sp_dat_zones(b@, q as int, var_num as int, zones@.len() as int + 1),
                );
            }
            zones.push(zone);
            blocks.push(block);
            assert(zone_views(zones@) =~= zs0 + seq![zone.view()]);
            assert(block_views(blocks@) =~= bs0 + seq![block.view()]);
            p = q;
        }
        let dataset = Dataset {
            num_variables: var_num as i32,
            num_zones: zones.len() as i32,
            title: header.title,
            var_names: header.var_list,
        };
        Ok(DatFormat { dataset, zones, data_blocks: blocks })
    }
}

} // verus!
