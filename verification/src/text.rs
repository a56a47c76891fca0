//! Character-level helpers shared by all codecs: trimming, blank-line tests,
//! prefix tests, tokenising, and conversion between `&str`/`String` and
//! `Vec<char>`, each specified against a `Seq<char>` model.

use vstd::prelude::*;
use vstd::string::StrSliceExecFns;
use vstd::string::StringExecFns;

verus! {

/// Whitespace characters recognised by the trimming and tokenising helpers:
/// the ASCII whitespace set, which is what the equipment formats use.
pub open spec fn is_ws_char(c: char) -> bool {
    c == ' ' || c == '\t' || c == '\r' || c == '\n' || c == '\u{000B}' || c == '\u{000C}'
}

/// Two characters are equal exactly when their code points are equal.
pub proof fn lemma_char_eq_cp(a: char, b: char)
    ensures
        (a == b) <==> (a as u32 == b as u32),
{
    if a as u32 == b as u32 {
        vstd::utf8::char_u32_cast(a, a as u32);
        vstd::utf8::char_u32_cast(b, b as u32);
    }
}

pub fn is_ws(c: char) -> (r: bool)
    ensures
        r == is_ws_char(c),
{
    c == ' ' || c == '\t' || c == '\r' || c == '\n' || c == '\u{000B}' || c == '\u{000C}'
}

/// The characters of `s` with leading whitespace removed.
pub open spec fn trim_start_spec(s: Seq<char>) -> Seq<char>
    decreases s.len(),
{
    if s.len() > 0 && is_ws_char(s[0]) {
        trim_start_spec(s.drop_first())
    } else {
        s
    }
}

/// The characters of `s` with trailing whitespace removed.
pub open spec fn trim_end_spec(s: Seq<char>) -> Seq<char>
    decreases s.len(),
{
    if s.len() > 0 && is_ws_char(s.last()) {
        trim_end_spec(s.drop_last())
    } else {
        s
    }
}

/// The characters of `s` with whitespace removed from both ends.
pub open spec fn trim_spec(s: Seq<char>) -> Seq<char> {
    trim_end_spec(trim_start_spec(s))
}

/// A line is blank when it consists of whitespace alone.
pub open spec fn is_blank_spec(s: Seq<char>) -> bool {
    forall|i: int| 0 <= i < s.len() ==> is_ws_char(s[i])
}

/// The characters of a string slice, as a vector.
pub fn chars_of(s: &str) -> (v: Vec<char>)
    ensures
        v@ == s@,
{
    let n = s.unicode_len();
    let mut v: Vec<char> = Vec::new();
    let mut i: usize = 0;
    while i < n
        invariant
            n == s@.len(),
            i <= n,
            v@ == s@.subrange(0, i as int),
        decreases n - i,
    {
        v.push(s.get_char(i));
        proof {
            assert(v@ =~= s@.subrange(0, i + 1 as int));
        }
        i = i + 1;
    }
    proof {
        assert(v@ =~= s@);
    }
    v
}

/// Relies on `String::push`, which appends one character to the string.
#[verifier::external_body]
fn push_char(s: &mut String, c: char)
    ensures
        final(s)@ == old(s)@.push(c),
{
    s.push(c);
}

/// A `String` holding exactly the characters of `v`.
pub fn str_of(v: &Vec<char>) -> (s: String)
    ensures
        s@ == v@,
{
    let mut s = String::new();
    let mut i: usize = 0;
    while i < v.len()
        invariant
            i <= v@.len(),
            s@ == v@.subrange(0, i as int),
        decreases v@.len() - i,
    {
        push_char(&mut s, v[i]);
        proof {
            assert(s@ =~= v@.subrange(0, i + 1 as int));
        }
        i = i + 1;
    }
    proof {
        assert(s@ =~= v@);
    }
    s
}

/// A fresh copy of a character vector.
pub fn copy_chars(v: &Vec<char>) -> (r: Vec<char>)
    ensures
        r@ == v@,
{
    let mut r: Vec<char> = Vec::new();
    let mut i: usize = 0;
    while i < v.len()
        invariant
            i <= v@.len(),
            r@ == v@.subrange(0, i as int),
        decreases v@.len() - i,
    {
        r.push(v[i]);
        proof {
            assert(r@ =~= v@.subrange(0, i + 1 as int));
        }
        i = i + 1;
    }
    proof {
        assert(r@ =~= v@);
    }
    r
}

proof fn lemma_trim_start_skip(s: Seq<char>, i: int)
    requires
        0 <= i <= s.len(),
        forall|j: int| 0 <= j < i ==> is_ws_char(s[j]),
    ensures
        trim_start_spec(s) == trim_start_spec(s.subrange(i, s.len() as int)),
    decreases i,
{
    if i > 0 {
        assert(s.subrange(0, s.len() as int) =~= s);
        assert(trim_start_spec(s) == trim_start_spec(s.drop_first()));
        assert(s.drop_first() =~= s.subrange(1, s.len() as int));
        lemma_trim_start_skip(s.subrange(1, s.len() as int), i - 1);
        assert(s.subrange(1, s.len() as int).subrange(i - 1, s.len() - 1) =~= s.subrange(
            i,
            s.len() as int,
        ));
    } else {
        assert(s.subrange(0, s.len() as int) =~= s);
    }
}

proof fn lemma_trim_end_cut(s: Seq<char>, b: int)
    requires
        0 <= b <= s.len(),
        forall|j: int| b <= j < s.len() ==> is_ws_char(s[j]),
    ensures
        trim_end_spec(s) == trim_end_spec(s.subrange(0, b)),
    decreases s.len() - b,
{
    if b < s.len() {
        assert(is_ws_char(s.last()));
        assert(trim_end_spec(s) == trim_end_spec(s.drop_last()));
        lemma_trim_end_cut(s.drop_last(), b);
        assert(s.drop_last().subrange(0, b) =~= s.subrange(0, b));
    } else {
        assert(s.subrange(0, s.len() as int) =~= s);
    }
}

/// The characters of `v` with whitespace removed from both ends.
pub fn trim_chars(v: &Vec<char>) -> (r: Vec<char>)
    ensures
        r@ == trim_spec(v@),
{
    let n = v.len();
    let mut a: usize = 0;
    while a < n && is_ws(v[a])
        invariant
            n == v@.len(),
            a <= n,
            forall|j: int| 0 <= j < a ==> is_ws_char(v@[j]),
        decreases n - a,
    {
        a = a + 1;
    }
    proof {
        lemma_trim_start_skip(v@, a as int);
        if a < n {
            assert(v@.subrange(a as int, n as int)[0] == v@[a as int]);
        }
        assert(trim_start_spec(v@) == v@.subrange(a as int, n as int));
    }
    let ghost mid = v@.subrange(a as int, n as int);
    let mut b: usize = n;
    while b > a && is_ws(v[b - 1])
        invariant
            n == v@.len(),
            a <= b <= n,
            forall|j: int| b <= j < n ==> is_ws_char(v@[j]),
        decreases b,
    {
        b = b - 1;
    }
    proof {
        lemma_trim_end_cut(mid, b - a);
        if b > a {
            assert(mid.subrange(0, b - a).last() == v@[b - 1]);
        }
        assert(mid.subrange(0, b - a) =~= v@.subrange(a as int, b as int));
        assert(trim_end_spec(mid) == v@.subrange(a as int, b as int));
    }
    let mut r: Vec<char> = Vec::new();
    let mut j: usize = a;
    while j < b
        invariant
            a <= j <= b <= n,
            n == v@.len(),
            r@ == v@.subrange(a as int, j as int),
        decreases b - j,
    {
        r.push(v[j]);
        proof {
            assert(r@ =~= v@.subrange(a as int, j + 1 as int));
        }
        j = j + 1;
    }
    proof {
        assert(r@ =~= v@.subrange(a as int, b as int));
    }
    r
}

/// Whether `v` is blank (whitespace only, possibly empty).
pub fn is_blank(v: &Vec<char>) -> (r: bool)
    ensures
        r == is_blank_spec(v@),
{
    let mut i: usize = 0;
    while i < v.len()
        invariant
            i <= v@.len(),
            forall|j: int| 0 <= j < i ==> is_ws_char(v@[j]),
        decreases v@.len() - i,
    {
        if !is_ws(v[i]) {
            return false;
        }
        i = i + 1;
    }
    true
}

/// Whether `p` is a prefix of `s`.
pub open spec fn starts_with_spec(s: Seq<char>, p: Seq<char>) -> bool {
    p.len() <= s.len() && s.subrange(0, p.len() as int) == p
}

pub fn starts_with(v: &Vec<char>, p: &Vec<char>) -> (r: bool)
    ensures
        r == starts_with_spec(v@, p@),
{
    if p.len() > v.len() {
        proof {
            assert(!starts_with_spec(v@, p@));
        }
        return false;
    }
    let mut i: usize = 0;
    while i < p.len()
        invariant
            p@.len() <= v@.len(),
            i <= p@.len(),
            forall|j: int| 0 <= j < i ==> v@[j] == p@[j],
        decreases p@.len() - i,
    {
        if v[i] != p[i] {
            proof {
                assert(v@.subrange(0, p@.len() as int)[i as int] == v@[i as int]);
            }
            return false;
        }
        i = i + 1;
    }
    proof {
        assert(v@.subrange(0, p@.len() as int) =~= p@);
    }
    true
}

/// The index of the first occurrence of `c` in `s`, or -1 when `c` does not occur.
pub open spec fn find_char_spec(s: Seq<char>, c: char) -> int
    decreases s.len(),
{
    if s.len() == 0 {
        -1
    } else if s[0] == c {
        0
    } else {
        let r = find_char_spec(s.drop_first(), c);
        if r == -1 {
            -1
        } else {
            r + 1
        }
    }
}

pub proof fn lemma_find_char(s: Seq<char>, c: char)
    ensures
        find_char_spec(s, c) == -1 ==> forall|j: int| 0 <= j < s.len() ==> s[j] != c,
        find_char_spec(s, c) != -1 ==> {
            let r = find_char_spec(s, c);
            &&& 0 <= r < s.len()
            &&& s[r] == c
            &&& forall|j: int| 0 <= j < r ==> s[j] != c
        },
    decreases s.len(),
{
    if s.len() > 0 && s[0] != c {
        let t = s.drop_first();
        lemma_find_char(t, c);
        let rt = find_char_spec(t, c);
        if rt == -1 {
            assert forall|j: int| 0 <= j < s.len() implies s[j] != c by {
                if j > 0 {
                    assert(s[j] == t[j - 1]);
                }
            }
        } else {
            assert(s[rt + 1] == t[rt]);
            assert forall|j: int| 0 <= j < rt + 1 implies s[j] != c by {
                if j > 0 {
                    assert(s[j] == t[j - 1]);
                }
            }
        }
    }
}

/// When `c` first occurs at index `i`, `find_char_spec` returns `i`.
pub proof fn lemma_find_char_at(s: Seq<char>, c: char, i: int)
    requires
        0 <= i < s.len(),
        s[i] == c,
        forall|j: int| 0 <= j < i ==> s[j] != c,
    ensures
        find_char_spec(s, c) == i,
{
    lemma_find_char(s, c);
    let r = find_char_spec(s, c);
    if r == -1 {
        assert(s[i] != c);
        assert(false);
    } else if r < i {
        assert(s[r] != c);
        assert(false);
    } else if r > i {
        assert(s[i] != c);
        assert(false);
    }
}

/// The index of the first occurrence of `c` in `v`, if any.
pub fn find_char(v: &Vec<char>, c: char) -> (r: Option<usize>)
    ensures
        match r {
            Some(i) => find_char_spec(v@, c) == i as int,
            None => find_char_spec(v@, c) == -1,
        },
{
    proof {
        lemma_find_char(v@, c);
    }
    let mut i: usize = 0;
    while i < v.len()
        invariant
            i <= v@.len(),
            forall|j: int| 0 <= j < i ==> v@[j] != c,
            find_char_spec(v@, c) == -1 ==> forall|j: int| 0 <= j < v@.len() ==> v@[j] != c,
            find_char_spec(v@, c) != -1 ==> {
                let r = find_char_spec(v@, c);
                &&& 0 <= r < v@.len()
                &&& v@[r] == c
                &&& forall|j: int| 0 <= j < r ==> v@[j] != c
            },
        decreases v@.len() - i,
    {
        if v[i] == c {
            return Some(i);
        }
        i = i + 1;
    }
    None
}

/// The lower-cased code point of `c`: ASCII upper-case letters are shifted to
/// lower case, every other character is left as it is.
pub open spec fn lower_cp(c: char) -> int {
    if 65 <= c as u32 <= 90 {
        c as u32 + 32
    } else {
        c as u32 as int
    }
}

/// Whether `a` and `b` are equal when compared ASCII-case-insensitively.
pub open spec fn eq_ci_spec(a: Seq<char>, b: Seq<char>) -> bool {
    a.len() == b.len() && forall|i: int| 0 <= i < a.len() ==> lower_cp(a[i]) == lower_cp(b[i])
}

pub fn eq_ignore_ascii_case(a: &Vec<char>, b: &Vec<char>) -> (r: bool)
    ensures
        r == eq_ci_spec(a@, b@),
{
    if a.len() != b.len() {
        return false;
    }
    let mut i: usize = 0;
    while i < a.len()
        invariant
            a@.len() == b@.len(),
            i <= a@.len(),
            forall|j: int| 0 <= j < i ==> lower_cp(a@[j]) == lower_cp(b@[j]),
        decreases a@.len() - i,
    {
        let x = a[i] as u32;
        let y = b[i] as u32;
        let lx = if 65 <= x && x <= 90 {
            x + 32
        } else {
            x
        };
        let ly = if 65 <= y && y <= 90 {
            y + 32
        } else {
            y
        };
        if lx != ly {
            return false;
        }
        i = i + 1;
    }
    true
}

/// Whether `p` occurs in `s` as a contiguous substring.
pub open spec fn contains_seq(s: Seq<char>, p: Seq<char>) -> bool {
    exists|i: int|
        0 <= i && i + p.len() <= s.len() && #[trigger] s.subrange(i, i + p.len() as int) == p
}

fn match_at(v: &Vec<char>, p: &Vec<char>, i: usize) -> (r: bool)
    requires
        i + p@.len() <= v@.len(),
    ensures
        r == (v@.subrange(i as int, i as int + p@.len() as int) == p@),
{
    let n = v.len();
    let mut j: usize = 0;
    while j < p.len()
        invariant
            n == v@.len(),
            i + p@.len() <= n,
            j <= p@.len(),
            forall|t: int| 0 <= t < j ==> v@[i + t] == p@[t],
        decreases p@.len() - j,
    {
        if v[i + j] != p[j] {
            proof {
                assert(v@.subrange(i as int, i as int + p@.len() as int)[j as int] == v@[i + j]);
            }
            return false;
        }
        j = j + 1;
    }
    proof {
        assert(v@.subrange(i as int, i as int + p@.len() as int) =~= p@);
    }
    true
}

pub fn contains_sub(v: &Vec<char>, p: &Vec<char>) -> (r: bool)
    ensures
        r == contains_seq(v@, p@),
{
    if p.len() > v.len() {
        return false;
    }
    if p.len() == 0 {
        proof {
            assert(v@.subrange(0, 0 + p@.len() as int) =~= p@);
        }
        return true;
    }
    let bound = v.len() - p.len();
    let mut i: usize = 0;
    while i <= bound
        invariant
            1 <= p@.len() <= v@.len(),
            v@.len() <= usize::MAX,
            bound == v@.len() - p@.len(),
            i <= bound + 1,
            forall|k: int|
                0 <= k < i ==> #[trigger] v@.subrange(k, k + p@.len() as int) != p@,
        decreases bound + 1 - i,
    {
        if match_at(v, p, i) {
            return true;
        }
        i = i + 1;
    }
    proof {
        if contains_seq(v@, p@) {
            let k = choose|k: int|
                0 <= k && k + p@.len() <= v@.len() && #[trigger] v@.subrange(
                    k,
                    k + p@.len() as int,
                ) == p@;
            assert(v@.subrange(k, k + p@.len() as int) == p@);
            assert(false);
        }
    }
    false
}

/// A fresh vector holding `v[a..b]`.
pub fn subrange_vec(v: &Vec<char>, a: usize, b: usize) -> (r: Vec<char>)
    requires
        a <= b <= v@.len(),
    ensures
        r@ == v@.subrange(a as int, b as int),
{
    let mut r: Vec<char> = Vec::new();
    let mut j: usize = a;
    while j < b
        invariant
            a <= j <= b <= v@.len(),
            r@ == v@.subrange(a as int, j as int),
        decreases b - j,
    {
        r.push(v[j]);
        proof {
            assert(r@ =~= v@.subrange(a as int, j + 1 as int));
        }
        j = j + 1;
    }
    r
}

/// Appends the characters of the string slice `s` to `out`.
pub fn append_str(out: &mut Vec<char>, s: &str)
    ensures
        final(out)@ == old(out)@ + s@,
{
    let n = s.unicode_len();
    let mut i: usize = 0;
    while i < n
        invariant
            n == s@.len(),
            i <= n,
            out@ == old(out)@ + s@.subrange(0, i as int),
        decreases n - i,
    {
        out.push(s.get_char(i));
        proof {
            assert(out@ =~= old(out)@ + s@.subrange(0, i + 1 as int));
        }
        i = i + 1;
    }
    proof {
        assert(old(out)@ + s@.subrange(0, n as int) =~= old(out)@ + s@);
    }
}

/// Appends the characters of `s` to `out`.
pub fn append_chars(out: &mut Vec<char>, s: &Vec<char>)
    ensures
        final(out)@ == old(out)@ + s@,
{
    let mut i: usize = 0;
    while i < s.len()
        invariant
            i <= s@.len(),
            out@ == old(out)@ + s@.subrange(0, i as int),
        decreases s@.len() - i,
    {
        out.push(s[i]);
        proof {
            assert(out@ =~= old(out)@ + s@.subrange(0, i + 1 as int));
        }
        i = i + 1;
    }
    proof {
        assert(old(out)@ + s@.subrange(0, s@.len() as int) =~= old(out)@ + s@);
    }
}

/// `s` split on the character `c`, keeping empty pieces; there is always at
/// least one piece.
pub open spec fn split_char_spec(s: Seq<char>, c: char) -> Seq<Seq<char>>
    decreases s.len(),
{
    if s.len() == 0 {
        seq![Seq::<char>::empty()]
    } else {
        let r = split_char_spec(s.drop_last(), c);
        if s.last() == c {
            r.push(Seq::<char>::empty())
        } else {
            r.update(r.len() - 1, r.last().push(s.last()))
        }
    }
}

pub proof fn lemma_split_char_len(s: Seq<char>, c: char)
    ensures
        split_char_spec(s, c).len() >= 1,
    decreases s.len(),
{
    if s.len() > 0 {
        lemma_split_char_len(s.drop_last(), c);
    }
}

/// `v` split on `c`, keeping empty pieces.
pub fn split_char(v: &Vec<char>, c: char) -> (r: Vec<Vec<char>>)
    ensures
        r@.len() == split_char_spec(v@, c).len(),
        forall|k: int| 0 <= k < r@.len() ==> #[trigger] r@[k]@ == split_char_spec(v@, c)[k],
{
    let mut pieces: Vec<Vec<char>> = Vec::new();
    let mut cur: Vec<char> = Vec::new();
    let mut i: usize = 0;
    while i < v.len()
        invariant
            i <= v@.len(),
            pieces@.len() + 1 == split_char_spec(v@.subrange(0, i as int), c).len(),
            forall|k: int|
                0 <= k < pieces@.len() ==> #[trigger] pieces@[k]@ == split_char_spec(
                    v@.subrange(0, i as int),
                    c,
                )[k],
            cur@ == split_char_spec(v@.subrange(0, i as int), c).last(),
        decreases v@.len() - i,
    {
        proof {
            assert(v@.subrange(0, i + 1 as int).drop_last() =~= v@.subrange(0, i as int));
            assert(v@.subrange(0, i + 1 as int).last() == v@[i as int]);
            lemma_split_char_len(v@.subrange(0, i as int), c);
        }
        if v[i] == c {
            pieces.push(cur);
            cur = Vec::new();
        } else {
            cur.push(v[i]);
        }
        i = i + 1;
    }
    proof {
        assert(v@.subrange(0, i as int) =~= v@);
        lemma_split_char_len(v@, c);
    }
    pieces.push(cur);
    pieces
}

/// `s` with every trailing carriage return removed.
pub open spec fn strip_cr_spec(s: Seq<char>) -> Seq<char>
    decreases s.len(),
{
    if s.len() > 0 && s.last() == '\r' {
        strip_cr_spec(s.drop_last())
    } else {
        s
    }
}

/// The lines of a text, as a file reader yields them: split on newlines,
/// with a final empty piece dropped and trailing carriage returns stripped
/// from each line.
pub open spec fn split_lines_spec(text: Seq<char>) -> Seq<Seq<char>> {
    let ps = split_char_spec(text, '\n');
    let ps2 = if ps.len() > 0 && ps.last().len() == 0 {
        ps.drop_last()
    } else {
        ps
    };
    ps2.map_values(|p: Seq<char>| strip_cr_spec(p))
}

/// Every piece of a split is no longer than the text, and there is at most
/// one piece more than the text has characters.
pub proof fn lemma_split_char_bounds(s: Seq<char>, c: char)
    ensures
        split_char_spec(s, c).len() <= s.len() + 1,
        forall|k: int|
            0 <= k < split_char_spec(s, c).len() ==> #[trigger] split_char_spec(s, c)[k].len()
                <= s.len(),
    decreases s.len(),
{
    lemma_split_char_len(s, c);
    if s.len() > 0 {
        lemma_split_char_bounds(s.drop_last(), c);
        lemma_split_char_len(s.drop_last(), c);
        let r = split_char_spec(s.drop_last(), c);
        assert forall|k: int|
            0 <= k < split_char_spec(s, c).len() implies #[trigger] split_char_spec(
            s,
            c,
        )[k].len() <= s.len() by {
            if s.last() == c {
                if k < r.len() {
                    assert(split_char_spec(s, c)[k] == r[k]);
                }
            } else {
                if k < r.len() - 1 {
                    assert(split_char_spec(s, c)[k] == r[k]);
                }
            }
        }
    }
}

pub proof fn lemma_strip_cr_len(s: Seq<char>)
    ensures
        strip_cr_spec(s).len() <= s.len(),
    decreases s.len(),
{
    if s.len() > 0 && s.last() == '\r' {
        lemma_strip_cr_len(s.drop_last());
    }
}

/// `v` with every trailing carriage return removed.
pub fn strip_cr(v: &Vec<char>) -> (r: Vec<char>)
    ensures
        r@ == strip_cr_spec(v@),
{
    let mut b: usize = v.len();
    proof {
        assert(v@.subrange(0, b as int) =~= v@);
    }
    while b > 0 && v[b - 1] == '\r'
        invariant
            b <= v@.len(),
            strip_cr_spec(v@) == strip_cr_spec(v@.subrange(0, b as int)),
        decreases b,
    {
        proof {
            assert(v@.subrange(0, b as int).last() == v@[b - 1]);
            assert(v@.subrange(0, b as int).drop_last() =~= v@.subrange(0, b - 1 as int));
        }
        b = b - 1;
    }
    proof {
        if b > 0 {
            assert(v@.subrange(0, b as int).last() == v@[b - 1]);
        }
        assert(strip_cr_spec(v@.subrange(0, b as int)) == v@.subrange(0, b as int));
    }
    subrange_vec(v, 0, b)
}

/// The lines of a text, as the file readers of this library's callers
/// produce them.
pub fn split_lines(s: &str) -> (r: Vec<String>)
    ensures
        r.deep_view() == split_lines_spec(s@),
{
    let sc = chars_of(s);
    let ghost ps = split_char_spec(s@, '\n');
    let mut pieces = split_char(&sc, '\n');
    proof {
        lemma_split_char_len(s@, '\n');
        assert(pieces@.len() > 0);
        assert(pieces@[pieces@.len() - 1]@ == ps.last());
    }
    if pieces[pieces.len() - 1].len() == 0 {
        pieces.pop();
    }
    let ghost ps2 = if ps.len() > 0 && ps.last().len() == 0 {
        ps.drop_last()
    } else {
        ps
    };
    proof {
        assert(pieces@.len() == ps2.len());
        assert(forall|k: int| 0 <= k < pieces@.len() ==> (#[trigger] pieces@[k])@ == ps2[k]);
    }
    let mut out: Vec<String> = Vec::new();
    let mut i: usize = 0;
    while i < pieces.len()
        invariant
            i <= pieces@.len(),
            pieces@.len() == ps2.len(),
            forall|k: int| 0 <= k < pieces@.len() ==> (#[trigger] pieces@[k])@ == ps2[k],
            out@.len() == i,
            forall|k: int| 0 <= k < i ==> (#[trigger] out@[k])@ == strip_cr_spec(ps2[k]),
        decreases pieces@.len() - i,
    {
        let t = strip_cr(&pieces[i]);
        out.push(str_of(&t));
        i = i + 1;
    }
    proof {
        assert(out.deep_view() =~~= ps2.map_values(|p: Seq<char>| strip_cr_spec(p)));
    }
    out
}

/// The text of `ls` as consecutive lines, each terminated by a newline.
pub open spec fn join_lines(ls: Seq<Seq<char>>) -> Seq<char>
    decreases ls.len(),
{
    if ls.len() == 0 {
        Seq::<char>::empty()
    } else {
        join_lines(ls.drop_last()) + ls.last() + seq!['\n']
    }
}

/// `trim_start_spec` keeps a suffix: every kept character was in `s`, no
/// leading whitespace remains, and any character-free property carries over.
pub proof fn lemma_trim_start_props(s: Seq<char>)
    ensures
        trim_start_spec(s).len() <= s.len(),
        trim_start_spec(s).len() > 0 ==> !is_ws_char(trim_start_spec(s)[0]),
        trim_start_spec(s) == s.subrange(
            s.len() - trim_start_spec(s).len(),
            s.len() as int,
        ),
    decreases s.len(),
{
    if s.len() > 0 && is_ws_char(s[0]) {
        lemma_trim_start_props(s.drop_first());
        let t = trim_start_spec(s);
        assert(s.drop_first().subrange(
            s.drop_first().len() - t.len(),
            s.drop_first().len() as int,
        ) =~= s.subrange(s.len() - t.len(), s.len() as int));
    } else {
        assert(s.subrange(0, s.len() as int) =~= s);
    }
}

/// `trim_end_spec` keeps a prefix: no trailing whitespace remains.
pub proof fn lemma_trim_end_props(s: Seq<char>)
    ensures
        trim_end_spec(s).len() <= s.len(),
        trim_end_spec(s).len() > 0 ==> !is_ws_char(trim_end_spec(s).last()),
        trim_end_spec(s) == s.subrange(0, trim_end_spec(s).len() as int),
    decreases s.len(),
{
    if s.len() > 0 && is_ws_char(s.last()) {
        lemma_trim_end_props(s.drop_last());
        let t = trim_end_spec(s);
        assert(s.drop_last().subrange(0, t.len() as int) =~= s.subrange(0, t.len() as int));
    } else {
        assert(s.subrange(0, s.len() as int) =~= s);
    }
}

/// A trimmed string trims to itself.
pub proof fn lemma_trim_idempotent(s: Seq<char>)
    ensures
        trim_spec(trim_spec(s)) == trim_spec(s),
{
    let t1 = trim_start_spec(s);
    let t = trim_end_spec(t1);
    lemma_trim_start_props(s);
    lemma_trim_end_props(t1);
    if t.len() > 0 {
        assert(t[0] == t1[0]);
        assert(!is_ws_char(t[0]));
    }
    assert(trim_start_spec(t) == t);
    assert(trim_end_spec(t) == t);
}

/// Trimming a string that neither starts nor ends with whitespace is a
/// no-op; in particular, trimming whitespace-free text changes nothing.
pub proof fn lemma_trim_nonws(s: Seq<char>)
    requires
        s.len() > 0 ==> !is_ws_char(s[0]),
        s.len() > 0 ==> !is_ws_char(s.last()),
    ensures
        trim_spec(s) == s,
{
    assert(trim_start_spec(s) == s);
    assert(trim_end_spec(s) == s);
}

/// A single leading space disappears under trimming.
pub proof fn lemma_trim_space_prefix(v: Seq<char>)
    ensures
        trim_spec(seq![' '] + v) == trim_spec(v),
{
    let s = seq![' '] + v;
    assert(s.len() > 0 && is_ws_char(s[0]));
    assert(trim_start_spec(s) == trim_start_spec(s.drop_first()));
    assert(s.drop_first() =~= v);
}

/// Trimming keeps only characters of the original, so the absence of any
/// character carries over; and the result cannot end in whitespace.
pub proof fn lemma_trim_excludes(s: Seq<char>, c: char)
    requires
        forall|j: int| 0 <= j < s.len() ==> s[j] != c,
    ensures
        forall|i: int| 0 <= i < trim_spec(s).len() ==> #[trigger] trim_spec(s)[i] != c,
{
    lemma_trim_start_props(s);
    let t1 = trim_start_spec(s);
    lemma_trim_end_props(t1);
    let t = trim_spec(s);
    assert forall|i: int| 0 <= i < t.len() implies #[trigger] t[i] != c by {
        assert(t[i] == t1[i]);
        assert(t1[i] == s[s.len() - t1.len() + i]);
    }
}

/// The trimmed result does not end with a carriage return, so stripping
/// trailing carriage returns from it changes nothing.
pub proof fn lemma_trim_strip_cr(s: Seq<char>)
    ensures
        strip_cr_spec(trim_spec(s)) == trim_spec(s),
{
    lemma_trim_start_props(s);
    lemma_trim_end_props(trim_start_spec(s));
    let t = trim_spec(s);
    if t.len() > 0 {
        assert(!is_ws_char(t.last()));
        assert(t.last() != '\r');
    }
}

/// Appending newline-free text to a split extends its last piece.
pub proof fn lemma_split_append_no_nl(t: Seq<char>, w: Seq<char>)
    requires
        forall|j: int| 0 <= j < w.len() ==> w[j] != '\n',
    ensures
        ({
            let r = split_char_spec(t, '\n');
            split_char_spec(t + w, '\n') == r.update(r.len() - 1, r.last() + w)
        }),
    decreases w.len(),
{
    lemma_split_char_len(t, '\n');
    let r = split_char_spec(t, '\n');
    if w.len() == 0 {
        assert(t + w =~= t);
        assert(r.last() + w =~= r.last());
        assert(r.update(r.len() - 1, r.last() + w) =~= r);
    } else {
        lemma_split_append_no_nl(t, w.drop_last());
        let r1 = r.update(r.len() - 1, r.last() + w.drop_last());
        assert(split_char_spec(t + w.drop_last(), '\n') == r1);
        assert((t + w).drop_last() =~= t + w.drop_last());
        assert((t + w).last() == w.last());
        assert(w.last() != '\n') by {
            assert(w[w.len() - 1] != '\n');
        }
        assert(split_char_spec(t + w, '\n') == r1.update(r1.len() - 1, r1.last().push(w.last())));
        assert(r1.last().push(w.last()) =~= r.last() + w);
        assert(r1.update(r1.len() - 1, r1.last().push(w.last())) =~= r.update(
            r.len() - 1,
            r.last() + w,
        ));
    }
}

/// Splitting the joined lines gives the lines back, with one final empty
/// piece.
pub proof fn lemma_split_join(ls: Seq<Seq<char>>)
    requires
        forall|k: int, j: int|
            0 <= k < ls.len() && 0 <= j < ls[k].len() ==> #[trigger] ls[k][j] != '\n',
    ensures
        split_char_spec(join_lines(ls), '\n') == ls.push(Seq::<char>::empty()),
    decreases ls.len(),
{
    if ls.len() == 0 {
        assert(split_char_spec(join_lines(ls), '\n') =~= seq![Seq::<char>::empty()]);
        assert(ls.push(Seq::<char>::empty()) =~= seq![Seq::<char>::empty()]);
    } else {
        lemma_split_join(ls.drop_last());
        let a = join_lines(ls.drop_last());
        let pre = ls.drop_last().push(Seq::<char>::empty());
        assert(split_char_spec(a, '\n') == pre);
        assert(forall|j: int| 0 <= j < ls.last().len() ==> #[trigger] ls.last()[j] != '\n') by {
            assert(forall|j: int|
                0 <= j < ls.last().len() ==> ls.last()[j] == #[trigger] ls[ls.len() - 1][j]);
        }
        lemma_split_append_no_nl(a, ls.last());
        let mid = pre.update(pre.len() - 1, pre.last() + ls.last());
        assert(split_char_spec(a + ls.last(), '\n') == mid);
        assert(pre.last() + ls.last() =~= ls.last());
        let full = a + ls.last() + seq!['\n'];
        assert(join_lines(ls) == full);
        assert(full.drop_last() =~= a + ls.last());
        assert(full.last() == '\n');
        lemma_split_char_len(a + ls.last(), '\n');
        assert(split_char_spec(full, '\n') == mid.push(Seq::<char>::empty()));
        assert(mid.push(Seq::<char>::empty()) =~= ls.push(Seq::<char>::empty()));
    }
}

/// Splitting joined lines back into lines is the identity, when no line
/// holds a newline and none ends with a carriage return.
pub proof fn lemma_split_lines_join(ls: Seq<Seq<char>>)
    requires
        forall|k: int, j: int|
            0 <= k < ls.len() && 0 <= j < ls[k].len() ==> #[trigger] ls[k][j] != '\n',
        forall|k: int| 0 <= k < ls.len() ==> strip_cr_spec(#[trigger] ls[k]) == ls[k],
    ensures
        split_lines_spec(join_lines(ls)) == ls,
{
    lemma_split_join(ls);
    let ps = split_char_spec(join_lines(ls), '\n');
    assert(ps == ls.push(Seq::<char>::empty()));
    assert(ps.len() > 0 && ps.last().len() == 0);
    assert(ps.drop_last() =~= ls);
    assert(split_lines_spec(join_lines(ls)) =~= ls.map_values(|p: Seq<char>| strip_cr_spec(p)));
    assert(ls.map_values(|p: Seq<char>| strip_cr_spec(p)) =~= ls);
}

/// The whitespace-separated tokens of `s`, in order, each nonempty and free
/// of whitespace.
pub open spec fn tokens_spec(s: Seq<char>) -> Seq<Seq<char>>
    decreases s.len(),
{
    if s.len() == 0 {
        Seq::<Seq<char>>::empty()
    } else {
        let r = tokens_spec(s.drop_last());
        if is_ws_char(s.last()) {
            r
        } else if s.len() >= 2 && !is_ws_char(s[s.len() - 2]) {
            r.update(r.len() - 1, r.last().push(s.last()))
        } else {
            r.push(seq![s.last()])
        }
    }
}

pub proof fn lemma_tokens_last_nonempty(s: Seq<char>)
    requires
        s.len() > 0,
        !is_ws_char(s.last()),
    ensures
        tokens_spec(s).len() >= 1,
        tokens_spec(s).last().len() >= 1,
    decreases s.len(),
{
    if s.len() >= 2 && !is_ws_char(s[s.len() - 2]) {
        lemma_tokens_last_nonempty(s.drop_last());
    }
}

/// The whitespace-separated tokens of `v`.
pub fn tokens_of(v: &Vec<char>) -> (r: Vec<Vec<char>>)
    ensures
        r@.len() == tokens_spec(v@).len(),
        forall|k: int| 0 <= k < r@.len() ==> #[trigger] r@[k]@ == tokens_spec(v@)[k],
{
    let mut pieces: Vec<Vec<char>> = Vec::new();
    let mut cur: Vec<char> = Vec::new();
    let mut i: usize = 0;
    while i < v.len()
        invariant
            i <= v@.len(),
            cur@.len() == 0 ==> {
                &&& i == 0 || is_ws_char(v@[i - 1])
                &&& pieces@.len() == tokens_spec(v@.subrange(0, i as int)).len()
                &&& forall|k: int|
                    0 <= k < pieces@.len() ==> #[trigger] pieces@[k]@ == tokens_spec(
                        v@.subrange(0, i as int),
                    )[k]
            },
            cur@.len() > 0 ==> {
                &&& i > 0 && !is_ws_char(v@[i - 1])
                &&& pieces@.len() + 1 == tokens_spec(v@.subrange(0, i as int)).len()
                &&& forall|k: int|
                    0 <= k < pieces@.len() ==> #[trigger] pieces@[k]@ == tokens_spec(
                        v@.subrange(0, i as int),
                    )[k]
                &&& cur@ == tokens_spec(v@.subrange(0, i as int)).last()
            },
        decreases v@.len() - i,
    {
        proof {
            assert(v@.subrange(0, i + 1 as int).drop_last() =~= v@.subrange(0, i as int));
            assert(v@.subrange(0, i + 1 as int).last() == v@[i as int]);
            if i > 0 {
                assert(v@.subrange(0, i + 1 as int)[i - 1] == v@[i - 1]);
            }
            if cur@.len() > 0 {
                lemma_tokens_last_nonempty(v@.subrange(0, i as int));
            }
        }
        if is_ws(v[i]) {
            if cur.len() > 0 {
                pieces.push(cur);
                cur = Vec::new();
            }
        } else {
            cur.push(v[i]);
        }
        i = i + 1;
    }
    proof {
        assert(v@.subrange(0, i as int) =~= v@);
        if cur@.len() > 0 {
            lemma_tokens_last_nonempty(v@);
        }
    }
    if cur.len() > 0 {
        pieces.push(cur);
    }
    pieces
}

} // verus!
