//! Character classes and text helpers: whitespace trimming, the pascal-case
//! field renaming policy, and the grammar of fragments that read as a
//! floating-point number.
use vstd::prelude::*;

verus! {

/// The Unicode White_Space code points, as std documents them for
/// `char::is_whitespace`.
pub open spec fn is_ws(c: char) -> bool {
    ||| c == ' '
    ||| ('\u{09}' <= c && c <= '\u{0D}')
    ||| c == '\u{85}'
    ||| c == '\u{A0}'
    ||| c == '\u{1680}'
    ||| ('\u{2000}' <= c && c <= '\u{200A}')
    ||| c == '\u{2028}'
    ||| c == '\u{2029}'
    ||| c == '\u{202F}'
    ||| c == '\u{205F}'
    ||| c == '\u{3000}'
}

pub fn is_whitespace_char(c: char) -> (r: bool)
    ensures
        r == is_ws(c),
{
    c == ' ' || ('\u{09}' <= c && c <= '\u{0D}') || c == '\u{85}' || c == '\u{A0}' || c
        == '\u{1680}' || ('\u{2000}' <= c && c <= '\u{200A}') || c == '\u{2028}' || c == '\u{2029}'
        || c == '\u{202F}' || c == '\u{205F}' || c == '\u{3000}'
}

pub open spec fn is_ascii_upper(c: char) -> bool {
    'A' <= c && c <= 'Z'
}

pub open spec fn is_ascii_lower(c: char) -> bool {
    'a' <= c && c <= 'z'
}

pub open spec fn is_digit(c: char) -> bool {
    '0' <= c && c <= '9'
}

pub fn is_digit_char(c: char) -> (r: bool)
    ensures
        r == is_digit(c),
{
    '0' <= c && c <= '9'
}

/// An ASCII lowercase letter mapped to its uppercase form; any other
/// character kept as it is.
pub open spec fn upper_char(c: char) -> char {
    if is_ascii_lower(c) {
        ((c as u32) - 32) as char
    } else {
        c
    }
}

/// An ASCII uppercase letter mapped to its lowercase form; any other
/// character kept as it is.
pub open spec fn lower_char(c: char) -> char {
    if is_ascii_upper(c) {
        ((c as u32) + 32) as char
    } else {
        c
    }
}

pub fn to_upper_char(c: char) -> (r: char)
    ensures
        r == upper_char(c),
{
    if 'a' <= c && c <= 'z' {
        (((c as u32) - 32) as u8) as char
    } else {
        c
    }
}

pub fn to_lower_char(c: char) -> (r: char)
    ensures
        r == lower_char(c),
{
    if 'A' <= c && c <= 'Z' {
        (((c as u32) + 32) as u8) as char
    } else {
        c
    }
}

/// Relies on `String::push`: appends the given character at the end of the
/// string, as std documents.
#[verifier::external_body]
pub fn push_char(out: &mut String, c: char)
    ensures
        final(out)@ == old(out)@.push(c),
{
    out.push(c);
}

/// The identity renaming policy: a field keeps its name.
pub fn keep_as_is(s: &str) -> (r: String)
    ensures
        r@ == s@,
{
    s.to_owned()
}

/// The pascal-case transform after the first character: an underscore is
/// dropped and makes the next character uppercase; `last_us` says whether the
/// previous source character was an underscore.
pub open spec fn pascal_rec(s: Seq<char>, last_us: bool) -> Seq<char>
    decreases s.len(),
{
    if s.len() == 0 {
        Seq::empty()
    } else if s[0] == '_' {
        pascal_rec(s.drop_first(), true)
    } else if last_us {
        seq![upper_char(s[0])] + pascal_rec(s.drop_first(), false)
    } else {
        seq![s[0]] + pascal_rec(s.drop_first(), false)
    }
}

/// The pascal-case renaming policy: the first character is made uppercase;
/// afterwards, underscores are dropped and each character directly after an
/// underscore is made uppercase.
pub open spec fn pascal_of(s: Seq<char>) -> Seq<char> {
    if s.len() == 0 {
        Seq::empty()
    } else {
        seq![upper_char(s[0])] + pascal_rec(s.drop_first(), false)
    }
}

pub fn pascal_case(s: &str) -> (r: String)
    ensures
        r@ == pascal_of(s@),
{
    let n = s.unicode_len();
    let mut out = String::new();
    if n == 0 {
        return out;
    }
    push_char(&mut out, to_upper_char(s.get_char(0)));
    proof {
        assert(s@.skip(1) =~= s@.drop_first());
        assert(Seq::empty().push(upper_char(s@[0])) + pascal_rec(s@.skip(1), false) =~= pascal_of(
            s@,
        ));
    }
    let mut i: usize = 1;
    let mut last_us = false;
    while i < n
        invariant
            1 <= i <= n,
            n == s@.len(),
            out@ + pascal_rec(s@.skip(i as int), last_us) =~= pascal_of(s@),
        decreases n - i,
    {
        let c = s.get_char(i);
        proof {
            assert(s@.skip(i as int).drop_first() =~= s@.skip(i as int + 1));
            assert(s@.skip(i as int)[0] == s@[i as int]);
        }
        if c == '_' {
            last_us = true;
        } else if last_us {
            push_char(&mut out, to_upper_char(c));
            last_us = false;
            proof {
                assert(out@ + pascal_rec(s@.skip(i as int + 1), false) =~= pascal_of(s@));
            }
        } else {
            push_char(&mut out, c);
            proof {
                assert(out@ + pascal_rec(s@.skip(i as int + 1), false) =~= pascal_of(s@));
            }
        }
        i += 1;
    }
    proof {
        assert(s@.skip(n as int) =~= Seq::<char>::empty());
        assert(out@ =~= pascal_of(s@));
    }
    out
}

/// The fragment with its leading whitespace removed.
pub open spec fn trim_start(s: Seq<char>) -> Seq<char>
    decreases s.len(),
{
    if s.len() > 0 && is_ws(s[0]) {
        trim_start(s.drop_first())
    } else {
        s
    }
}

/// The fragment with its trailing whitespace removed.
pub open spec fn trim_end(s: Seq<char>) -> Seq<char>
    decreases s.len(),
{
    if s.len() > 0 && is_ws(s.last()) {
        trim_end(s.drop_last())
    } else {
        s
    }
}

/// The fragment with whitespace removed at both ends, as `str::trim` leaves
/// it.
pub open spec fn trim_spec(s: Seq<char>) -> Seq<char> {
    trim_end(trim_start(s))
}

pub proof fn lemma_trim_start_skip(s: Seq<char>, i: int)
    requires
        0 <= i <= s.len(),
        forall|k: int| 0 <= k < i ==> is_ws(#[trigger] s[k]),
        i == s.len() || !is_ws(s[i]),
    ensures
        trim_start(s) =~= s.skip(i),
    decreases i,
{
    if i == 0 {
        assert(s.skip(0) =~= s);
    } else {
        assert(is_ws(s[0]));
        let t = s.drop_first();
        assert(forall|k: int| 0 <= k < i - 1 ==> is_ws(#[trigger] t[k]));
        lemma_trim_start_skip(t, i - 1);
        assert(t.skip(i - 1) =~= s.skip(i));
    }
}

pub proof fn lemma_trim_end_take(s: Seq<char>, j: int)
    requires
        0 <= j <= s.len(),
        forall|k: int| j <= k < s.len() ==> is_ws(#[trigger] s[k]),
        j == 0 || !is_ws(s[j - 1]),
    ensures
        trim_end(s) =~= s.take(j),
    decreases s.len() - j,
{
    if j == s.len() {
        assert(s.take(j) =~= s);
    } else {
        assert(is_ws(s.last()));
        let t = s.drop_last();
        assert(forall|k: int| j <= k < t.len() ==> is_ws(#[trigger] t[k]));
        lemma_trim_end_take(t, j);
        assert(t.take(j) =~= s.take(j));
    }
}

/// A fragment with no whitespace at either end trims to itself.
pub proof fn lemma_trim_id(s: Seq<char>)
    requires
        s.len() == 0 || (!is_ws(s[0]) && !is_ws(s.last())),
    ensures
        trim_spec(s) == s,
{
    lemma_trim_start_skip(s, 0);
    assert(s.skip(0) =~= s);
    lemma_trim_end_take(s, s.len() as int);
    assert(s.take(s.len() as int) =~= s);
}

pub fn trim_fragment<'a>(s: &'a str) -> (r: &'a str)
    ensures
        r@ == trim_spec(s@),
{
    let n = s.unicode_len();
    let mut i: usize = 0;
    while i < n && is_whitespace_char(s.get_char(i))
        invariant
            0 <= i <= n,
            n == s@.len(),
            forall|k: int| 0 <= k < i ==> is_ws(#[trigger] s@[k]),
        decreases n - i,
    {
        i += 1;
    }
    let mut j: usize = n;
    while j > i && is_whitespace_char(s.get_char(j - 1))
        invariant
            i <= j <= n,
            n == s@.len(),
            forall|k: int| j <= k < n ==> is_ws(#[trigger] s@[k]),
        decreases j,
    {
        j -= 1;
    }
    let r = s.substring_char(i, j);
    proof {
        lemma_trim_start_skip(s@, i as int);
        let t = s@.skip(i as int);
        assert(forall|k: int| j - i <= k < t.len() ==> is_ws(#[trigger] t[k]));
        lemma_trim_end_take(t, j - i as int);
        assert(t.take(j - i as int) =~= s@.subrange(i as int, j as int));
    }
    r
}

/// Character-for-character equality of two text fragments.
pub fn str_eq(a: &str, b: &str) -> (r: bool)
    ensures
        r == (a@ == b@),
{
    let n = a.unicode_len();
    if n != b.unicode_len() {
        return false;
    }
    let mut i: usize = 0;
    while i < n
        invariant
            0 <= i <= n,
            n == a@.len(),
            n == b@.len(),
            forall|k: int| 0 <= k < i ==> a@[k] == b@[k],
        decreases n - i,
    {
        if a.get_char(i) != b.get_char(i) {
            return false;
        }
        i += 1;
    }
    proof {
        assert(a@ =~= b@);
    }
    true
}

/// The number of leading decimal digits of the fragment.
pub open spec fn digits_prefix(s: Seq<char>) -> int
    decreases s.len(),
{
    if s.len() > 0 && is_digit(s[0]) {
        1 + digits_prefix(s.drop_first())
    } else {
        0
    }
}

pub proof fn lemma_digits_prefix(s: Seq<char>, i: int)
    requires
        0 <= i <= s.len(),
        forall|k: int| 0 <= k < i ==> is_digit(#[trigger] s[k]),
        i == s.len() || !is_digit(s[i]),
    ensures
        digits_prefix(s) == i,
    decreases i,
{
    if i > 0 {
        let t = s.drop_first();
        assert(forall|k: int| 0 <= k < i - 1 ==> is_digit(#[trigger] t[k]));
        lemma_digits_prefix(t, i - 1);
    }
}

pub proof fn lemma_digits_prefix_bound(s: Seq<char>)
    ensures
        0 <= digits_prefix(s) <= s.len(),
    decreases s.len(),
{
    if s.len() > 0 && is_digit(s[0]) {
        lemma_digits_prefix_bound(s.drop_first());
    }
}

/// At least one character, and every character a decimal digit.
pub open spec fn all_digits(s: Seq<char>) -> bool {
    s.len() > 0 && forall|k: int| 0 <= k < s.len() ==> is_digit(#[trigger] s[k])
}

/// An exponent part: `e` or `E`, an optional sign, then one or more digits.
pub open spec fn is_exponent(s: Seq<char>) -> bool {
    s.len() >= 2 && (s[0] == 'e' || s[0] == 'E') && {
        let t = if s[1] == '+' || s[1] == '-' {
            s.skip(2)
        } else {
            s.skip(1)
        };
        all_digits(t)
    }
}

/// A decimal number without sign: digits with an optional fraction and an
/// optional exponent, or a fraction alone, with at least one digit overall.
pub open spec fn is_unsigned_number(s: Seq<char>) -> bool {
    let d = digits_prefix(s);
    if d > 0 {
        let rest = s.skip(d);
        ||| rest.len() == 0
        ||| (rest.len() > 0 && rest[0] == '.' && {
            let d2 = digits_prefix(rest.skip(1));
            let rest2 = rest.skip(1 + d2);
            rest2.len() == 0 || is_exponent(rest2)
        })
        ||| is_exponent(rest)
    } else {
        s.len() >= 2 && s[0] == '.' && {
            let d2 = digits_prefix(s.skip(1));
            d2 > 0 && {
                let rest2 = s.skip(1 + d2);
                rest2.len() == 0 || is_exponent(rest2)
            }
        }
    }
}

/// `inf`, `infinity` or `nan` in any letter case.
pub open spec fn is_special_number(s: Seq<char>) -> bool {
    ||| (s.len() == 3 && lower_char(s[0]) == 'i' && lower_char(s[1]) == 'n' && lower_char(s[2])
        == 'f')
    ||| (s.len() == 8 && lower_char(s[0]) == 'i' && lower_char(s[1]) == 'n' && lower_char(s[2])
        == 'f' && lower_char(s[3]) == 'i' && lower_char(s[4]) == 'n' && lower_char(s[5]) == 'i'
        && lower_char(s[6]) == 't' && lower_char(s[7]) == 'y')
    ||| (s.len() == 3 && lower_char(s[0]) == 'n' && lower_char(s[1]) == 'a' && lower_char(s[2])
        == 'n')
}

/// Whether the fragment reads as a floating-point number: an optional sign
/// followed by a decimal number or one of the special words. This is the
/// grammar std documents for parsing `3.5`, `.5`, `5.`, `2.5e10`, `inf`,
/// `NaN` and the like; parsing never fails for range reasons, so acceptance
/// depends on the text alone.
pub open spec fn is_float_literal(s: Seq<char>) -> bool {
    s.len() > 0 && {
        let t = if s[0] == '+' || s[0] == '-' {
            s.drop_first()
        } else {
            s
        };
        is_special_number(t) || is_unsigned_number(t)
    }
}

fn digits_prefix_from(v: &Vec<char>, start: usize) -> (d: usize)
    requires
        start <= v@.len(),
    ensures
        start + d <= v@.len(),
        d == digits_prefix(v@.skip(start as int)),
{
    let n = v.len();
    let mut i: usize = start;
    while i < n && is_digit_char(v[i])
        invariant
            start <= i <= n,
            n == v@.len(),
            forall|k: int| start <= k < i ==> is_digit(#[trigger] v@[k]),
        decreases n - i,
    {
        i += 1;
    }
    proof {
        let t = v@.skip(start as int);
        assert(forall|k: int| 0 <= k < i - start ==> is_digit(#[trigger] t[k]));
        lemma_digits_prefix(t, i - start);
    }
    i - start
}

fn all_digits_from(v: &Vec<char>, start: usize) -> (r: bool)
    requires
        start <= v@.len(),
    ensures
        r == all_digits(v@.skip(start as int)),
{
    let n = v.len();
    if start == n {
        return false;
    }
    let mut i: usize = start;
    while i < n
        invariant
            start <= i <= n,
            n == v@.len(),
            forall|k: int| start <= k < i ==> is_digit(#[trigger] v@[k]),
        decreases n - i,
    {
        if !is_digit_char(v[i]) {
            proof {
                let t = v@.skip(start as int);
                assert(!is_digit(t[i - start]));
            }
            return false;
        }
        i += 1;
    }
    proof {
        let t = v@.skip(start as int);
        assert(forall|k: int| 0 <= k < t.len() ==> is_digit(#[trigger] t[k]));
    }
    true
}

fn is_exponent_at(v: &Vec<char>, start: usize) -> (r: bool)
    requires
        start <= v@.len(),
    ensures
        r == is_exponent(v@.skip(start as int)),
{
    let n = v.len();
    if n - start < 2 {
        return false;
    }
    if !(v[start] == 'e' || v[start] == 'E') {
        return false;
    }
    let signed = v[start + 1] == '+' || v[start + 1] == '-';
    let dstart = if signed {
        start + 2
    } else {
        start + 1
    };
    let r = all_digits_from(v, dstart);
    proof {
        let t = v@.skip(start as int);
        if signed {
            assert(t.skip(2) =~= v@.skip(start as int + 2));
        } else {
            assert(t.skip(1) =~= v@.skip(start as int + 1));
        }
    }
    r
}

fn is_special_at(v: &Vec<char>, start: usize) -> (r: bool)
    requires
        start <= v@.len(),
    ensures
        r == is_special_number(v@.skip(start as int)),
{
    let n = v.len();
    let len = n - start;
    let ghost t = v@.skip(start as int);
    if len == 3 {
        let a = to_lower_char(v[start]);
        let b = to_lower_char(v[start + 1]);
        let c = to_lower_char(v[start + 2]);
        let inf = a == 'i' && b == 'n' && c == 'f';
        let nan = a == 'n' && b == 'a' && c == 'n';
        proof {
            assert(forall|k: int| 0 <= k < 3 ==> t[k] == v@[start + k]);
        }
        inf || nan
    } else if len == 8 {
        let r = to_lower_char(v[start]) == 'i' && to_lower_char(v[start + 1]) == 'n'
            && to_lower_char(v[start + 2]) == 'f' && to_lower_char(v[start + 3]) == 'i'
            && to_lower_char(v[start + 4]) == 'n' && to_lower_char(v[start + 5]) == 'i'
            && to_lower_char(v[start + 6]) == 't' && to_lower_char(v[start + 7]) == 'y';
        proof {
            assert(forall|k: int| 0 <= k < 8 ==> t[k] == v@[start + k]);
        }
        r
    } else {
        false
    }
}

/// The characters of the fragment, in order.
pub fn chars_of(s: &str) -> (v: Vec<char>)
    ensures
        v@ == s@,
{
    let n = s.unicode_len();
    let mut v: Vec<char> = Vec::new();
    let mut i: usize = 0;
    while i < n
        invariant
            0 <= i <= n,
            n == s@.len(),
            v@ =~= s@.take(i as int),
        decreases n - i,
    {
        v.push(s.get_char(i));
        proof {
            assert(v@ =~= s@.take(i as int + 1));
        }
        i += 1;
    }
    proof {
        assert(s@.take(n as int) =~= s@);
    }
    v
}

/// Whether the fragment reads as a floating-point number.
pub fn is_float_fragment(s: &str) -> (r: bool)
    ensures
        r == is_float_literal(s@),
{
    let v = chars_of(s);
    let n = v.len();
    if n == 0 {
        return false;
    }
    let start: usize = if v[0] == '+' || v[0] == '-' {
        1
    } else {
        0
    };
    proof {
        if start == 1 {
            assert(v@.skip(1) =~= v@.drop_first());
        } else {
            assert(v@.skip(0) =~= v@);
        }
    }
    if is_special_at(&v, start) {
        return true;
    }
    let ghost t = v@.skip(start as int);
    let d = digits_prefix_from(&v, start);
    if d > 0 {
        let rest = start + d;
        proof {
            assert(t.skip(d as int) =~= v@.skip(rest as int));
        }
        if rest == n {
            return true;
        }
        if v[rest] == '.' {
            let d2 = digits_prefix_from(&v, rest + 1);
            proof {
                assert(v@.skip(rest as int).skip(1) =~= v@.skip(rest as int + 1));
                assert(v@.skip(rest as int).skip(1 + d2 as int) =~= v@.skip(
                    rest as int + 1 + d2 as int,
                ));
            }
            let rest2 = rest + 1 + d2;
            if rest2 == n {
                return true;
            }
            return is_exponent_at(&v, rest2);
        }
        return is_exponent_at(&v, rest);
    } else {
        if n - start >= 2 && v[start] == '.' {
            let d2 = digits_prefix_from(&v, start + 1);
            proof {
                assert(t.skip(1) =~= v@.skip(start as int + 1));
                assert(t.skip(1 + d2 as int) =~= v@.skip(start as int + 1 + d2 as int));
            }
            if d2 > 0 {
                let rest2 = start + 1 + d2;
                if rest2 == n {
                    return true;
                }
                return is_exponent_at(&v, rest2);
            }
        }
        proof {
            lemma_digits_prefix_bound(t.skip(1));
        }
        return false;
    }
}

} // verus!
