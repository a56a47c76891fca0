//! The shared header reader: consumes one `"Key: Value"` line at a time,
//! checks the label (exactly, or case-insensitively for the WLBI and
//! HEX/SINF formats), and hands back the trimmed value. Numeric conversion
//! wrappers turn a value into an integer or fixed-point field and report
//! `InvalidNumericField` with the raw text when it does not parse.

use vstd::prelude::*;
use vstd::string::StringExecFns;
use crate::errors::ErrorV;
use crate::errors::FormatError;
use crate::num::parse_scaled;
use crate::num::parse_scaled_spec;
use crate::num::parse_u32;
use crate::num::parse_u32_spec;
use crate::text::chars_of;
use crate::text::eq_ci_spec;
use crate::text::eq_ignore_ascii_case;
use crate::text::find_char;
use crate::text::find_char_spec;
use crate::text::lemma_find_char;
use crate::num::push_repeat;
use crate::text::starts_with;
use crate::text::starts_with_spec;
use crate::text::str_of;
use crate::text::subrange_vec;
use crate::text::trim_chars;
use crate::text::trim_spec;
use crate::num::char_repeat;
use crate::num::pad_right;

verus! {

/// The views of a line sequence.
pub open spec fn lines_view(ls: Seq<String>) -> Seq<Seq<char>> {
    ls.map_values(|s: String| s@)
}

/// Reading one ordered `"Key: Value"` header line: the line at `pos` must
/// carry exactly the expected label before its first colon, and the value is
/// everything after that colon, trimmed.
pub open spec fn kv_spec(lines: Seq<Seq<char>>, pos: int, key: Seq<char>) -> Result<
    Seq<char>,
    ErrorV,
> {
    if pos < 0 || pos >= lines.len() {
        Err(ErrorV::MissingHeaderLine { key })
    } else {
        let line = lines[pos];
        if starts_with_spec(line, key + seq![':']) {
            Ok(trim_spec(line.subrange(key.len() as int + 1, line.len() as int)))
        } else {
            Err(ErrorV::HeaderKeyMismatch { expected: key, found: line })
        }
    }
}

/// Reads the `"Key: Value"` line at `*pos`, advancing `*pos` past it on
/// success. The label check is exact and case-sensitive.
pub fn parse_kv(lines: &[String], pos: &mut usize, key: &str) -> (r: Result<String, FormatError>)
    ensures
        match r {
            Ok(v) => {
                &&& kv_spec(lines.deep_view(), *old(pos) as int, key@) == Ok::<Seq<char>, ErrorV>(
                    v@,
                )
                &&& *final(pos) == *old(pos) + 1
            },
            Err(e) => {
                &&& kv_spec(lines.deep_view(), *old(pos) as int, key@) == Err::<Seq<char>, ErrorV>(
                    e@,
                )
                &&& *final(pos) == *old(pos)
            },
        },
{
    if *pos >= lines.len() {
        return Err(FormatError::MissingHeaderLine { key: String::from_str(key) });
    }
    let line: &String = &lines[*pos];
    proof {
        assert(lines.deep_view()[*pos as int] == line@);
    }
    let lc = chars_of(line.as_str());
    let mut prefix = chars_of(key);
    prefix.push(':');
    proof {
        assert(prefix@ =~= key@ + seq![':']);
    }
    if starts_with(&lc, &prefix) {
        let vc = subrange_vec(&lc, prefix.len(), lc.len());
        let t = trim_chars(&vc);
        let v = str_of(&t);
        *pos = *pos + 1;
        Ok(v)
    } else {
        Err(
            FormatError::HeaderKeyMismatch {
                expected: String::from_str(key),
                found: line.clone(),
            },
        )
    }
}

/// Reading one keyed header line case-insensitively: the line at `pos` must
/// contain a colon, the text before the first colon must equal the key up to
/// ASCII case, and the value is everything after that colon, trimmed.
pub open spec fn kv_ci_spec(lines: Seq<Seq<char>>, pos: int, key: Seq<char>) -> Result<
    Seq<char>,
    ErrorV,
> {
    if pos < 0 || pos >= lines.len() {
        Err(ErrorV::MissingHeaderLine { key })
    } else {
        let line = lines[pos];
        let ci = find_char_spec(line, ':');
        if ci == -1 {
            Err(ErrorV::HeaderKeyMismatch { expected: key, found: line })
        } else if eq_ci_spec(line.subrange(0, ci), key) {
            Ok(trim_spec(line.subrange(ci + 1, line.len() as int)))
        } else {
            Err(ErrorV::HeaderKeyMismatch { expected: key, found: line })
        }
    }
}

/// Reads the keyed header line at `*pos` case-insensitively, advancing
/// `*pos` past it on success.
pub fn parse_kv_ci(lines: &Vec<Vec<char>>, pos: &mut usize, key: &str) -> (r: Result<
    Vec<char>,
    FormatError,
>)
    ensures
        match r {
            Ok(v) => {
                &&& kv_ci_spec(lines.deep_view(), *old(pos) as int, key@) == Ok::<
                    Seq<char>,
                    ErrorV,
                >(v@)
                &&& *final(pos) == *old(pos) + 1
            },
            Err(e) => {
                &&& kv_ci_spec(lines.deep_view(), *old(pos) as int, key@) == Err::<
                    Seq<char>,
                    ErrorV,
                >(e@)
                &&& *final(pos) == *old(pos)
            },
        },
{
    if *pos >= lines.len() {
        return Err(FormatError::MissingHeaderLine { key: String::from_str(key) });
    }
    let line: &Vec<char> = &lines[*pos];
    proof {
        assert(lines.deep_view()[*pos as int] == line@);
        lemma_find_char(line@, ':');
    }
    match find_char(line, ':') {
        None => Err(
            FormatError::HeaderKeyMismatch {
                expected: String::from_str(key),
                found: str_of(line),
            },
        ),
        Some(ci) => {
            let n = line.len();
            proof {
                assert(ci < line@.len());
                assert(n == line@.len());
            }
            let lhs = subrange_vec(line, 0, ci);
            let kc = chars_of(key);
            if eq_ignore_ascii_case(&lhs, &kc) {
                let vc = subrange_vec(line, ci + 1, n);
                let t = trim_chars(&vc);
                *pos = *pos + 1;
                Ok(t)
            } else {
                Err(
                    FormatError::HeaderKeyMismatch {
                        expected: String::from_str(key),
                        found: str_of(line),
                    },
                )
            }
        },
    }
}

/// A header value converted to `u32`; the error keeps the field label and
/// the raw text.
pub open spec fn to_u32_spec(v: Seq<char>, key: Seq<char>) -> Result<u32, ErrorV> {
    match parse_u32_spec(v) {
        Some(n) => Ok(n),
        None => Err(ErrorV::InvalidNumericField { field: key, text: v }),
    }
}

pub fn to_u32(v: &Vec<char>, key: &str) -> (r: Result<u32, FormatError>)
    ensures
        match r {
            Ok(n) => to_u32_spec(v@, key@) == Ok::<u32, ErrorV>(n),
            Err(e) => to_u32_spec(v@, key@) == Err::<u32, ErrorV>(e@),
        },
{
    match parse_u32(v) {
        Some(n) => Ok(n),
        None => Err(
            FormatError::InvalidNumericField { field: String::from_str(key), text: str_of(v) },
        ),
    }
}

/// A header value converted to a grid dimension: a `u32` that must also fit
/// an `i32`, since it feeds signed centered coordinates.
pub open spec fn to_dim_spec(v: Seq<char>, key: Seq<char>) -> Result<u32, ErrorV> {
    match parse_u32_spec(v) {
        Some(n) => if n <= i32::MAX as u32 {
            Ok(n)
        } else {
            Err(ErrorV::InvalidNumericField { field: key, text: v })
        },
        None => Err(ErrorV::InvalidNumericField { field: key, text: v }),
    }
}

pub fn to_dim(v: &Vec<char>, key: &str) -> (r: Result<u32, FormatError>)
    ensures
        match r {
            Ok(n) => to_dim_spec(v@, key@) == Ok::<u32, ErrorV>(n) && n <= i32::MAX as u32,
            Err(e) => to_dim_spec(v@, key@) == Err::<u32, ErrorV>(e@),
        },
{
    match parse_u32(v) {
        Some(n) => if n <= i32::MAX as u32 {
            Ok(n)
        } else {
            Err(
                FormatError::InvalidNumericField {
                    field: String::from_str(key),
                    text: str_of(v),
                },
            )
        },
        None => Err(
            FormatError::InvalidNumericField { field: String::from_str(key), text: str_of(v) },
        ),
    }
}

/// A header value converted to a fixed-point decimal with `scale` fraction
/// digits; the error keeps the field label and the raw text.
pub open spec fn to_scaled_spec(v: Seq<char>, key: Seq<char>, scale: nat) -> Result<i64, ErrorV> {
    match parse_scaled_spec(v, scale) {
        Some(n) => Ok(n),
        None => Err(ErrorV::InvalidNumericField { field: key, text: v }),
    }
}

pub fn to_scaled(v: &Vec<char>, key: &str, scale: u32) -> (r: Result<i64, FormatError>)
    requires
        1 <= scale <= 9,
    ensures
        match r {
            Ok(n) => to_scaled_spec(v@, key@, scale as nat) == Ok::<i64, ErrorV>(n),
            Err(e) => to_scaled_spec(v@, key@, scale as nat) == Err::<i64, ErrorV>(e@),
        },
{
    match parse_scaled(v, scale) {
        Some(n) => Ok(n),
        None => Err(
            FormatError::InvalidNumericField { field: String::from_str(key), text: str_of(v) },
        ),
    }
}

/// A label padded with spaces on the right to a fixed width, as the
/// extended-map and WLBI layouts write their header labels.
pub fn pad_label(label: &str, width: usize) -> (r: Vec<char>)
    ensures
        r@ == pad_right(label@, width as nat),
{
    let mut r = chars_of(label);
    if r.len() < width {
        let n = width - r.len();
        push_repeat(&mut r, ' ', n);
    }
    r
}

/// `s` with every trailing `%` removed, as `str::trim_end_matches('%')`
/// removes them.
pub open spec fn strip_pct_spec(s: Seq<char>) -> Seq<char>
    decreases s.len(),
{
    if s.len() > 0 && s.last() == '%' {
        strip_pct_spec(s.drop_last())
    } else {
        s
    }
}

pub fn strip_pct(v: &Vec<char>) -> (r: Vec<char>)
    ensures
        r@ == strip_pct_spec(v@),
{
    let mut b: usize = v.len();
    proof {
        assert(v@.subrange(0, b as int) =~= v@);
    }
    while b > 0 && v[b - 1] == '%'
        invariant
            b <= v@.len(),
            strip_pct_spec(v@) == strip_pct_spec(v@.subrange(0, b as int)),
        decreases b,
    {
        proof {
            assert(v@.subrange(0, b as int).last() == v@[b - 1]);
            assert(v@.subrange(0, b as int).drop_last() =~= v@.subrange(0, b - 1 as int));
        }
        b = b - 1;
    }
    proof {
        if b > 0 {
            assert(v@.subrange(0, b as int).last() == v@[b - 1]);
        }
        assert(strip_pct_spec(v@.subrange(0, b as int)) == v@.subrange(0, b as int));
    }
    subrange_vec(v, 0, b)
}

} // verus!
