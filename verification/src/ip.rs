//! Textual IPv4 / IPv6 address syntax, as accepted by the standard
//! library's address parsers: dotted-quad IPv4 with decimal octets
//! (at most three digits, no leading zero, at most 255), and IPv6 as up to
//! eight colon-separated groups of one to four hex digits, with at most one
//! `::` and an optional embedded IPv4 address in the last two groups.

use vstd::prelude::*;

verus! {

/// The value of `c` as a digit in base `radix` (10 or 16), if it is one.
pub open spec fn digit_value(c: char, radix: nat) -> Option<nat> {
    if '0' <= c && c <= '9' {
        Some(((c as nat) - ('0' as nat)) as nat)
    } else if radix == 16 && 'a' <= c && c <= 'f' {
        Some(((c as nat) - ('a' as nat) + 10) as nat)
    } else if radix == 16 && 'A' <= c && c <= 'F' {
        Some(((c as nat) - ('A' as nat) + 10) as nat)
    } else {
        None
    }
}

/// Number of consecutive digits in base `radix` starting at `pos`.
pub open spec fn digit_run(s: Seq<char>, pos: nat, radix: nat) -> nat
    decreases s.len() - pos,
{
    if pos < s.len() && digit_value(s[pos as int], radix) is Some {
        1 + digit_run(s, pos + 1, radix)
    } else {
        0
    }
}

/// The value of the `n` digits in base `radix` starting at `pos`.
pub open spec fn digits_value(s: Seq<char>, pos: nat, n: nat, radix: nat) -> nat
    decreases n,
{
    if n == 0 {
        0
    } else {
        digits_value(s, pos, (n - 1) as nat, radix) * radix
            + digit_value(s[pos + n - 1], radix).unwrap_or(0nat)
    }
}

/// A decimal octet at `pos`: one to three digits, no leading zero, at most 255.
/// Gives the position after it.
pub open spec fn read_octet(s: Seq<char>, pos: nat) -> Option<nat> {
    let n = digit_run(s, pos, 10);
    if n == 0 || n > 3 {
        None
    } else if n > 1 && s[pos as int] == '0' {
        None
    } else if digits_value(s, pos, n, 10) > 255 {
        None
    } else {
        Some(pos + n)
    }
}

/// A hex group at `pos`: one to four hex digits. Gives the position after it.
pub open spec fn read_hex_group(s: Seq<char>, pos: nat) -> Option<nat> {
    let n = digit_run(s, pos, 16);
    if n == 0 || n > 4 {
        None
    } else {
        Some(pos + n)
    }
}

/// `c` at `pos`; gives the position after it.
pub open spec fn read_char(s: Seq<char>, pos: nat, c: char) -> Option<nat> {
    if pos < s.len() && s[pos as int] == c {
        Some(pos + 1)
    } else {
        None
    }
}

/// The octets of an IPv4 address starting at `pos`, from octet `i` on.
pub open spec fn read_octets(s: Seq<char>, pos: nat, i: nat) -> Option<nat>
    decreases 4 - i,
{
    if i >= 4 {
        Some(pos)
    } else {
        let after_sep = if i == 0 { Some(pos) } else { read_char(s, pos, '.') };
        match after_sep {
            None => None,
            Some(p) => match read_octet(s, p) {
                None => None,
                Some(q) => read_octets(s, q, i + 1),
            },
        }
    }
}

/// An IPv4 address at `pos`; gives the position after it.
pub open spec fn read_ipv4(s: Seq<char>, pos: nat) -> Option<nat> {
    read_octets(s, pos, 0)
}

/// The whole of `s` is an IPv4 address.
pub open spec fn ipv4_syntax(s: Seq<char>) -> bool {
    read_ipv4(s, 0) == Some(s.len())
}

/// Colon-separated groups, as many as fit in `limit`, starting with group `i` at
/// `pos`: gives the number of groups read (an embedded IPv4 address counts
/// as two), whether it ended with an IPv4 address, and the position after it.
pub open spec fn read_groups(s: Seq<char>, pos: nat, i: nat, limit: nat) -> (nat, bool, nat)
    decreases limit - i,
{
    if i >= limit {
        (limit, false, pos)
    } else {
        let after_sep = if i == 0 { Some(pos) } else { read_char(s, pos, ':') };
        let v4 = if i + 1 < limit {
            match after_sep {
                Some(p) => read_ipv4(s, p),
                None => None,
            }
        } else {
            None
        };
        match v4 {
            Some(q) => (i + 2, true, q),
            None => match after_sep {
                None => (i, false, pos),
                Some(p) => match read_hex_group(s, p) {
                    None => (i, false, pos),
                    Some(q) => read_groups(s, q, i + 1, limit),
                },
            },
        }
    }
}

/// The whole of `s` is an IPv6 address.
pub open spec fn ipv6_syntax(s: Seq<char>) -> bool {
    let head = read_groups(s, 0, 0, 8);
    if head.0 == 8 {
        head.2 == s.len()
    } else if head.1 {
        false
    } else {
        match read_char(s, head.2, ':') {
            None => false,
            Some(p) => match read_char(s, p, ':') {
                None => false,
                Some(q) => read_groups(s, q, 0, (7 - head.0) as nat).2 == s.len(),
            },
        }
    }
}

fn digit_of(c: char, radix: u32) -> (r: Option<u32>)
    requires
        radix == 10 || radix == 16,
    ensures
        r matches Some(v) ==> digit_value(c, radix as nat) == Some(v as nat),
        r is None ==> digit_value(c, radix as nat) is None,
{
    if '0' <= c && c <= '9' {
        Some((c as u32) - ('0' as u32))
    } else if radix == 16 && 'a' <= c && c <= 'f' {
        Some((c as u32) - ('a' as u32) + 10)
    } else if radix == 16 && 'A' <= c && c <= 'F' {
        Some((c as u32) - ('A' as u32) + 10)
    } else {
        None
    }
}

/// Number of consecutive digits at `pos`, capped at `cap` (enough to tell an
/// over-long run from a valid one).
fn digit_run_capped(s: &Vec<char>, pos: usize, radix: u32, cap: usize) -> (n: usize)
    requires
        radix == 10 || radix == 16,
        pos <= s@.len(),
        cap < 8,
    ensures
        n == (if digit_run(s@, pos as nat, radix as nat) <= cap { digit_run(s@, pos as nat, radix as nat) } else { cap as nat }),
        n <= cap,
    decreases cap,
{
    if cap == 0 || pos >= s.len() {
        return 0;
    }
    match digit_of(s[pos], radix) {
        None => 0,
        Some(_) => 1 + digit_run_capped(s, pos + 1, radix, cap - 1),
    }
}

fn digits_value_exec(s: &Vec<char>, pos: usize, n: usize, radix: u32) -> (v: u32)
    requires
        radix == 10 || radix == 16,
        n <= 4,
        pos + n <= s@.len(),
        forall|k: int| pos <= k < pos + n ==> digit_value(#[trigger] s@[k], radix as nat) is Some,
    ensures
        v == digits_value(s@, pos as nat, n as nat, radix as nat),
        v < pow_bound(n as nat, radix as nat),
    decreases n,
{
    if n == 0 {
        0
    } else {
        let len = s.len();
        let prev = digits_value_exec(s, pos, n - 1, radix);
        let d = match digit_of(s[pos + (n - 1)], radix) {
            Some(d) => d,
            None => 0,
        };
        proof {
            assert(d < radix);
            lemma_pow_bound(n as nat, radix as nat);
            let b = pow_bound((n - 1) as nat, radix as nat);
            assert(prev * radix + d < b * radix) by (nonlinear_arith)
                requires
                    prev < b,
                    d < radix,
            ;
        }
        prev * radix + d
    }
}

/// `radix` to the `n`, for n up to 4.
pub open spec fn pow_bound(n: nat, radix: nat) -> nat
    decreases n,
{
    if n == 0 { 1 } else { pow_bound((n - 1) as nat, radix) * radix }
}

proof fn lemma_pow_bound(n: nat, radix: nat)
    requires
        n <= 4,
        radix == 10 || radix == 16,
    ensures
        pow_bound(n, radix) <= 65536,
{
    reveal_with_fuel(pow_bound, 5);
}

proof fn lemma_run_digits(s: Seq<char>, pos: nat, radix: nat, k: nat)
    requires
        k < digit_run(s, pos, radix),
    ensures
        pos + k < s.len(),
        digit_value(s[(pos + k) as int], radix) is Some,
    decreases k,
{
    if k > 0 {
        lemma_run_digits(s, pos + 1, radix, (k - 1) as nat);
    }
}

fn read_octet_exec(s: &Vec<char>, pos: usize) -> (r: Option<usize>)
    requires
        pos <= s@.len(),
    ensures
        r matches Some(p) ==> read_octet(s@, pos as nat) == Some(p as nat),
        r is None ==> read_octet(s@, pos as nat) is None,
{
    let len = s.len();
    let n = digit_run_capped(s, pos, 10, 4);
    if n == 0 || n > 3 {
        return None;
    }
    if n > 1 && s[pos] == '0' {
        return None;
    }
    proof {
        assert forall|k: int| pos <= k < pos + n implies digit_value(#[trigger] s@[k], 10) is Some by {
            lemma_run_digits(s@, pos as nat, 10, (k - pos) as nat);
        }
        lemma_pow_bound(n as nat, 10);
        lemma_run_digits(s@, pos as nat, 10, (n - 1) as nat);
    }
    let v = digits_value_exec(s, pos, n, 10);
    if v > 255 {
        return None;
    }
    Some(pos + n)
}

fn read_hex_group_exec(s: &Vec<char>, pos: usize) -> (r: Option<usize>)
    requires
        pos <= s@.len(),
    ensures
        r matches Some(p) ==> read_hex_group(s@, pos as nat) == Some(p as nat) && p <= s@.len(),
        r is None ==> read_hex_group(s@, pos as nat) is None,
{
    let len = s.len();
    let n = digit_run_capped(s, pos, 16, 5);
    if n == 0 || n > 4 {
        return None;
    }
    proof {
        lemma_run_digits(s@, pos as nat, 16, (n - 1) as nat);
    }
    Some(pos + n)
}

fn read_char_exec(s: &Vec<char>, pos: usize, c: char) -> (r: Option<usize>)
    ensures
        r matches Some(p) ==> read_char(s@, pos as nat, c) == Some(p as nat) && p <= s@.len(),
        r is None ==> read_char(s@, pos as nat, c) is None,
{
    if pos < s.len() && s[pos] == c {
        Some(pos + 1)
    } else {
        None
    }
}

proof fn lemma_octet_bound(s: Seq<char>, pos: nat)
    ensures
        read_octet(s, pos) matches Some(q) ==> q <= s.len(),
{
    let n = digit_run(s, pos, 10);
    if n > 0 && n <= 3 {
        lemma_run_digits(s, pos, 10, (n - 1) as nat);
    }
}

fn read_octets_exec(s: &Vec<char>, pos: usize, i: usize) -> (r: Option<usize>)
    requires
        pos <= s@.len(),
        i <= 4,
    ensures
        r matches Some(p) ==> read_octets(s@, pos as nat, i as nat) == Some(p as nat) && p <= s@.len(),
        r is None ==> read_octets(s@, pos as nat, i as nat) is None,
    decreases 4 - i,
{
    if i >= 4 {
        return Some(pos);
    }
    let after_sep = if i == 0 { Some(pos) } else { read_char_exec(s, pos, '.') };
    match after_sep {
        None => None,
        Some(p) => match read_octet_exec(s, p) {
            None => None,
            Some(q) => {
                proof { lemma_octet_bound(s@, p as nat); }
                read_octets_exec(s, q, i + 1)
            },
        },
    }
}

fn read_groups_exec(s: &Vec<char>, pos: usize, i: usize, limit: usize) -> (r: (usize, bool, usize))
    requires
        pos <= s@.len(),
        limit <= 8,
        i <= limit,
    ensures
        (r.0 as nat, r.1, r.2 as nat) == read_groups(s@, pos as nat, i as nat, limit as nat),
        r.2 <= s@.len(),
        r.0 <= limit,
    decreases limit - i,
{
    if i >= limit {
        return (limit, false, pos);
    }
    let after_sep = if i == 0 { Some(pos) } else { read_char_exec(s, pos, ':') };
    let v4 = if i + 1 < limit {
        match after_sep {
            Some(p) => read_octets_exec(s, p, 0),
            None => None,
        }
    } else {
        None
    };
    match v4 {
        Some(q) => (i + 2, true, q),
        None => match after_sep {
            None => (i, false, pos),
            Some(p) => match read_hex_group_exec(s, p) {
                None => (i, false, pos),
                Some(q) => read_groups_exec(s, q, i + 1, limit),
            },
        },
    }
}

/// Whether the whole of `s` is an IPv4 address.
pub fn is_ipv4(s: &Vec<char>) -> (b: bool)
    ensures
        b == ipv4_syntax(s@),
{
    match read_octets_exec(s, 0, 0) {
        Some(p) => p == s.len(),
        None => false,
    }
}

/// Whether the whole of `s` is an IPv6 address.
pub fn is_ipv6(s: &Vec<char>) -> (b: bool)
    ensures
        b == ipv6_syntax(s@),
{
    let head = read_groups_exec(s, 0, 0, 8);
    if head.0 == 8 {
        return head.2 == s.len();
    }
    if head.1 {
        return false;
    }
    match read_char_exec(s, head.2, ':') {
        None => false,
        Some(p) => match read_char_exec(s, p, ':') {
            None => false,
            Some(q) => {
                let tail = read_groups_exec(s, q, 0, 7 - head.0);
                tail.2 == s.len()
            },
        },
    }
}

} // verus!
