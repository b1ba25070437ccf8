//! Character-level helpers: trimming, lowercasing, decimal and hex rendering.

use vstd::prelude::*;

verus! {

/// Whether `c` has the Unicode `White_Space` property (what
/// `char::is_whitespace` reports): tab to carriage return, space, next
/// line, no-break space, ogham space mark, the spaces from en quad to hair
/// space, line and paragraph separators, narrow no-break space, medium
/// mathematical space and ideographic space.
pub open spec fn is_white_space(c: char) -> bool {
    let x = c as u32;
    ||| 0x09 <= x <= 0x0d
    ||| x == 0x20
    ||| x == 0x85
    ||| x == 0xa0
    ||| x == 0x1680
    ||| 0x2000 <= x <= 0x200a
    ||| x == 0x2028
    ||| x == 0x2029
    ||| x == 0x202f
    ||| x == 0x205f
    ||| x == 0x3000
}

/// Whether `c` is alphabetic or numeric in the Unicode sense (what `char::is_alphanumeric` reports).
pub uninterp spec fn is_alphanumeric(c: char) -> bool;

/// The Unicode lowercase mapping of a whole string (what `str::to_lowercase` returns).
pub uninterp spec fn lowercase_of(s: Seq<char>) -> Seq<char>;

/// Whether `c` has the `White_Space` property.
fn char_is_whitespace(c: char) -> (b: bool)
    ensures
        b == is_white_space(c),
{
    let x = c as u32;
    (0x09 <= x && x <= 0x0d) || x == 0x20 || x == 0x85 || x == 0xa0 || x == 0x1680 || (0x2000 <= x && x <= 0x200a)
        || x == 0x2028 || x == 0x2029 || x == 0x202f || x == 0x205f || x == 0x3000
}

/// Calls `char::is_alphanumeric`; the result is the Unicode alphanumeric property of `c`.
#[verifier::external_body]
pub(crate) fn char_is_alphanumeric(c: char) -> (b: bool)
    ensures
        b == is_alphanumeric(c),
{
    c.is_alphanumeric()
}

/// Calls `str::to_lowercase`; the result is the Unicode lowercase mapping of `s`.
#[verifier::external_body]
fn str_to_lowercase(s: &str) -> (r: String)
    ensures
        r@ == lowercase_of(s@),
{
    s.to_lowercase()
}

/// Calls `String::push`; the character is appended.
#[verifier::external_body]
pub(crate) fn push_char(s: &mut String, c: char)
    ensures
        final(s)@ == old(s)@.push(c),
{
    s.push(c)
}

/// Number of leading white-space characters.
pub open spec fn leading_ws(s: Seq<char>) -> nat
    decreases s.len(),
{
    if s.len() > 0 && is_white_space(s[0]) {
        1 + leading_ws(s.drop_first())
    } else {
        0
    }
}

/// Number of trailing white-space characters.
pub open spec fn trailing_ws(s: Seq<char>) -> nat
    decreases s.len(),
{
    if s.len() > 0 && is_white_space(s.last()) {
        1 + trailing_ws(s.drop_last())
    } else {
        0
    }
}

/// `s` without leading and trailing white space (what `str::trim` returns).
pub open spec fn trimmed(s: Seq<char>) -> Seq<char> {
    let rest = s.skip(leading_ws(s) as int);
    rest.take(rest.len() - trailing_ws(rest))
}

proof fn lemma_leading_ws(s: Seq<char>, i: int)
    requires
        0 <= i <= s.len(),
        forall|k: int| 0 <= k < i ==> is_white_space(#[trigger] s[k]),
        i == s.len() || !is_white_space(s[i]),
    ensures
        leading_ws(s) == i,
    decreases i,
{
    if i > 0 {
        let t = s.drop_first();
        assert forall|k: int| 0 <= k < i - 1 implies is_white_space(#[trigger] t[k]) by {
            assert(t[k] == s[k + 1]);
        }
        if i - 1 < t.len() {
            assert(t[i - 1] == s[i]);
        }
        lemma_leading_ws(t, i - 1);
    }
}

proof fn lemma_trailing_ws(s: Seq<char>, j: int)
    requires
        0 <= j <= s.len(),
        forall|k: int| j <= k < s.len() ==> is_white_space(#[trigger] s[k]),
        j == 0 || !is_white_space(s[j - 1]),
    ensures
        trailing_ws(s) == s.len() - j,
    decreases s.len() - j,
{
    if j < s.len() {
        let t = s.drop_last();
        assert forall|k: int| j <= k < t.len() implies is_white_space(#[trigger] t[k]) by {
            assert(t[k] == s[k]);
        }
        if j > 0 {
            assert(t[j - 1] == s[j - 1]);
        }
        lemma_trailing_ws(t, j);
    }
}

/// `s` without leading and trailing white space.
pub fn trim_str(s: &str) -> (r: &str)
    ensures
        r@ == trimmed(s@),
{
    let n = s.unicode_len();
    let mut i: usize = 0;
    while i < n && char_is_whitespace(s.get_char(i))
        invariant
            n == s@.len(),
            i <= n,
            forall|k: int| 0 <= k < i ==> is_white_space(#[trigger] s@[k]),
        decreases n - i,
    {
        i = i + 1;
    }
    proof { lemma_leading_ws(s@, i as int); }
    let mut j: usize = n;
    while j > i && char_is_whitespace(s.get_char(j - 1))
        invariant
            n == s@.len(),
            i <= j <= n,
            forall|k: int| j <= k < n ==> is_white_space(#[trigger] s@[k]),
        decreases j - i,
    {
        j = j - 1;
    }
    proof {
        let rest = s@.skip(i as int);
        assert forall|k: int| j - i <= k < rest.len() implies is_white_space(#[trigger] rest[k]) by {
            assert(rest[k] == s@[k + i]);
        }
        if j > i {
            assert(rest[j - i - 1] == s@[j - 1]);
        }
        lemma_trailing_ws(rest, j - i);
        assert(rest.take(j - i) =~= s@.subrange(i as int, j as int));
    }
    s.substring_char(i, j)
}

/// `s` trimmed and lowercased (what `raw.trim().to_lowercase()` gives).
pub fn trim_lowercase(s: &str) -> (r: String)
    ensures
        r@ == lowercase_of(trimmed(s@)),
{
    str_to_lowercase(trim_str(s))
}

/// The characters of `s`.
pub fn chars_of(s: &str) -> (v: Vec<char>)
    ensures
        v@ == s@,
{
    let n = s.unicode_len();
    let mut v: Vec<char> = Vec::new();
    let mut i: usize = 0;
    while i < n
        invariant
            n == s@.len(),
            i <= n,
            v@ == s@.take(i as int),
        decreases n - i,
    {
        v.push(s.get_char(i));
        i = i + 1;
        proof { assert(v@ =~= s@.take(i as int)); }
    }
    proof { assert(s@.take(n as int) =~= s@); }
    v
}

/// Appends the characters of `v` to `s`.
pub fn push_chars(s: &mut String, v: &Vec<char>)
    ensures
        final(s)@ == old(s)@ + v@,
{
    let mut i: usize = 0;
    while i < v.len()
        invariant
            i <= v@.len(),
            s@ == old(s)@ + v@.take(i as int),
        decreases v@.len() - i,
    {
        push_char(s, v[i]);
        i = i + 1;
        proof { assert(s@ =~= old(s)@ + v@.take(i as int)); }
    }
    proof { assert(v@.take(v@.len() as int) =~= v@); }
}

/// Appends the characters of the string slice `t` to `s`.
pub fn push_str(s: &mut String, t: &str)
    ensures
        final(s)@ == old(s)@ + t@,
{
    s.append(t);
}

/// A new `String` with the text of `s`.
pub fn make_string(s: &str) -> (r: String)
    ensures
        r@ == s@,
{
    let mut r = String::new();
    push_str(&mut r, s);
    proof { assert(r@ =~= s@); }
    r
}

/// The digit character for `d` in base 16 (lowercase letters).
pub open spec fn hex_digit(d: nat) -> char {
    if d < 10 {
        (('0' as nat) + d) as char
    } else {
        (('a' as nat) + d - 10) as char
    }
}

/// `n` in base `base` (10 or 16), left-padded with zeros to at least `w` digits
/// (what `format!("{:0w$}", n)` and `format!("{:0w$x}", n)` print).
pub open spec fn digits(n: nat, base: nat, w: nat) -> Seq<char>
    recommends
        base >= 2,
    decreases w, n,
{
    if base < 2 {
        Seq::empty()
    } else if n < base && w <= 1 {
        seq![hex_digit(n)]
    } else {
        proof {
            if w == 0 {
                assert(n / base < n) by (nonlinear_arith)
                    requires
                        n >= base,
                        base >= 2,
                ;
            }
        }
        digits(n / base, base, if w > 0 { (w - 1) as nat } else { 0 }).push(hex_digit(n % base))
    }
}

/// Decimal rendering of `n`, at least `w` digits.
pub open spec fn decimal(n: nat, w: nat) -> Seq<char> {
    digits(n, 10, w)
}

/// Lowercase hexadecimal rendering of `n`, at least `w` digits.
pub open spec fn hexadecimal(n: nat, w: nat) -> Seq<char> {
    digits(n, 16, w)
}

fn digit_char(d: u64) -> (c: char)
    requires
        d < 16,
    ensures
        c == hex_digit(d as nat),
{
    if d < 10 {
        proof { assert(('0' as u32) + (d as u32) < 0x3a); }
        char_from_code((('0' as u32) + (d as u32)))
    } else {
        proof { assert(('a' as u32) + (d as u32) - 10 < 0x67); }
        char_from_code((('a' as u32) + (d as u32) - 10))
    }
}

fn char_from_code(x: u32) -> (c: char)
    requires
        0x30 <= x <= 0x39 || 0x61 <= x <= 0x66,
    ensures
        c as nat == x,
{
    // an ASCII digit or letter: the conversion from a byte is exact
    (x as u8) as char
}

/// Appends `n` rendered in base `base`, zero-padded to at least `w` digits.
pub fn push_digits(s: &mut String, n: u64, base: u64, w: u64)
    requires
        base == 10 || base == 16,
    ensures
        final(s)@ == old(s)@ + digits(n as nat, base as nat, w as nat),
    decreases w, n,
{
    if n < base && w <= 1 {
        push_char(s, digit_char(n));
        proof { assert(old(s)@.push(hex_digit(n as nat)) =~= old(s)@ + seq![hex_digit(n as nat)]); }
    } else {
        let w2: u64 = if w > 0 { w - 1 } else { 0 };
        push_digits(s, n / base, base, w2);
        push_char(s, digit_char(n % base));
        proof {
            let d = digits((n / base) as nat, base as nat, w2 as nat);
            assert((old(s)@ + d).push(hex_digit((n % base) as nat)) =~= old(s)@ + d.push(hex_digit((n % base) as nat)));
        }
    }
}

} // verus!
