//! Window handles as text: `0x` followed by hexadecimal digits.
use vstd::prelude::*;
use vstd::string::*;

verus! {

/// The value of a hexadecimal digit of either case, or -1 for any other character.
pub open spec fn hex_digit_value(c: char) -> int {
    let u = c as u32;
    if 48 <= u <= 57 {
        u - 48
    } else if 97 <= u <= 102 {
        u - 87
    } else if 65 <= u <= 70 {
        u - 55
    } else {
        -1
    }
}

/// The number that a sequence of hexadecimal digits denotes.
pub open spec fn hex_value(cs: Seq<char>) -> int
    decreases cs.len(),
{
    if cs.len() == 0 {
        0
    } else {
        hex_value(cs.drop_last()) * 16 + hex_digit_value(cs.last())
    }
}

/// Every character is a hexadecimal digit.
pub open spec fn all_hex_digits(cs: Seq<char>) -> bool {
    forall|i: int| 0 <= i < cs.len() ==> hex_digit_value(#[trigger] cs[i]) >= 0
}

/// The digits of a handle's text, after an optional `0x` or `0X`.
pub open spec fn handle_digits(s: Seq<char>) -> Seq<char> {
    if s.len() >= 2 && s[0] == '0' && (s[1] == 'x' || s[1] == 'X') {
        s.skip(2)
    } else {
        s
    }
}

/// The handle that a text denotes: one or more hexadecimal digits, after an
/// optional `0x`, whose value fits in 64 bits.
pub open spec fn handle_of(s: Seq<char>) -> Option<u64> {
    let d = handle_digits(s);
    if d.len() > 0 && all_hex_digits(d) && hex_value(d) <= u64::MAX {
        Some(hex_value(d) as u64)
    } else {
        None
    }
}

/// The upper-case hexadecimal digit for `d`.
pub open spec fn upper_digit(d: int) -> char {
    seq!['0', '1', '2', '3', '4', '5', '6', '7', '8', '9', 'A', 'B', 'C', 'D', 'E', 'F'][d]
}

/// The upper-case hexadecimal digits of `n`, without leading zeros.
pub open spec fn hex_upper(n: nat) -> Seq<char>
    decreases n,
{
    if n < 16 {
        seq![upper_digit(n as int)]
    } else {
        hex_upper(n / 16) + seq![upper_digit((n % 16) as int)]
    }
}

proof fn lemma_hex_value_nonneg(cs: Seq<char>)
    requires
        all_hex_digits(cs),
    ensures
        hex_value(cs) >= 0,
    decreases cs.len(),
{
    if cs.len() > 0 {
        assert(hex_digit_value(cs[cs.len() - 1]) >= 0);
        lemma_hex_value_nonneg(cs.drop_last());
    }
}

proof fn lemma_hex_value_prefix(cs: Seq<char>, k: int)
    requires
        all_hex_digits(cs),
        0 <= k <= cs.len(),
    ensures
        hex_value(cs) >= hex_value(cs.take(k)),
    decreases cs.len(),
{
    if k < cs.len() {
        let p = cs.drop_last();
        assert(hex_digit_value(cs[cs.len() - 1]) >= 0);
        assert forall|i: int| 0 <= i < p.len() implies hex_digit_value(#[trigger] p[i]) >= 0 by {
            assert(p[i] == cs[i]);
        }
        lemma_hex_value_nonneg(p);
        lemma_hex_value_prefix(p, k);
        assert(p.take(k) =~= cs.take(k));
    } else {
        assert(cs.take(k) =~= cs);
    }
}

/// Reads a window handle written as `0x` and hexadecimal digits; the prefix
/// may be left out.
pub fn parse_window_handle(s: &str) -> (r: Option<u64>)
    ensures
        r == handle_of(s@),
{
    let n = s.unicode_len();
    let mut start: usize = 0;
    if n >= 2 && s.get_char(0) == '0' {
        let c = s.get_char(1);
        if c == 'x' || c == 'X' {
            start = 2;
        }
    }
    let ghost d = handle_digits(s@);
    assert(d == s@.skip(start as int));
    if start == n {
        return None;
    }
    let mut acc: u64 = 0;
    let mut i: usize = start;
    while i < n
        invariant
            start <= i <= n,
            n == s@.len(),
            d == s@.skip(start as int),
            d == handle_digits(s@),
            forall|j: int| 0 <= j < i - start ==> hex_digit_value(#[trigger] d[j]) >= 0,
            acc == hex_value(d.take(i - start)),
        decreases n - i,
    {
        let c = s.get_char(i);
        assert(c == d[i - start]);
        let v: u64 = if '0' <= c && c <= '9' {
            (c as u32 - 48) as u64
        } else if 'a' <= c && c <= 'f' {
            (c as u32 - 87) as u64
        } else if 'A' <= c && c <= 'F' {
            (c as u32 - 55) as u64
        } else {
            assert(hex_digit_value(d[i - start]) < 0);
            assert(!all_hex_digits(d));
            return None;
        };
        let ghost next = d.take(i - start + 1);
        assert(next.drop_last() =~= d.take(i - start));
        assert(next.last() == c);
        if acc > (u64::MAX - v) / 16 {
            proof {
                assert(v as int == hex_digit_value(c));
                assert(acc * 16 + v > u64::MAX) by (nonlinear_arith)
                    requires
                        acc > (u64::MAX - v) / 16,
                        v <= 15,
                ;
                if all_hex_digits(d) {
                    lemma_hex_value_prefix(d, i - start + 1);
                }
            }
            return None;
        }
        acc = acc * 16 + v;
        i = i + 1;
    }
    assert(d.take(n - start) =~= d);
    Some(acc)
}

/// Appends the upper-case hexadecimal digits of `n`.
fn push_hex(out: &mut String, n: u64)
    ensures
        final(out)@ == old(out)@ + hex_upper(n as nat),
    decreases n,
{
    if n >= 16 {
        push_hex(out, n / 16);
    }
    let d = (n % 16) as usize;
    let digits = "0123456789ABCDEF";
    proof {
        reveal_strlit("0123456789ABCDEF");
        assert(digits@ =~= seq!['0', '1', '2', '3', '4', '5', '6', '7', '8', '9', 'A', 'B', 'C', 'D', 'E', 'F']);
    }
    out.append(digits.substring_char(d, d + 1));
    proof {
        assert(digits@.subrange(d as int, d + 1) =~= seq![upper_digit(d as int)]);
    }
}

/// A handle as text: `0x` and its upper-case hexadecimal digits.
pub fn format_window_handle(handle: u64) -> (r: String)
    ensures
        r@ == seq!['0', 'x'] + hex_upper(handle as nat),
{
    let mut out = String::from_str("0x");
    proof {
        reveal_strlit("0x");
    }
    push_hex(&mut out, handle);
    out
}

} // verus!
