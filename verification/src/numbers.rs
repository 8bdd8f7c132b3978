//! Unsigned integer parsing with the rules of `u*::from_str_radix` and
//! `str::parse`: an optional `+`, then one or more digits, no overflow.
use vstd::prelude::*;

verus! {

/// Value of a digit character in the given radix (10 or 16).
pub open spec fn digit_value(c: char, radix: int) -> Option<int> {
    if '0' <= c && c <= '9' && (c as int) - ('0' as int) < radix {
        Some((c as int) - ('0' as int))
    } else if radix == 16 && 'a' <= c && c <= 'f' {
        Some((c as int) - ('a' as int) + 10)
    } else if radix == 16 && 'A' <= c && c <= 'F' {
        Some((c as int) - ('A' as int) + 10)
    } else {
        None
    }
}

pub open spec fn all_digits(s: Seq<char>, radix: int) -> bool {
    forall|i: int| 0 <= i < s.len() ==> (#[trigger] digit_value(s[i], radix)) is Some
}

/// Numeric value of a string of digits, most significant first.
pub open spec fn digits_value(s: Seq<char>, radix: int) -> int
    decreases s.len(),
{
    if s.len() == 0 {
        0
    } else {
        digits_value(s.drop_last(), radix) * radix + digit_value(s.last(), radix).unwrap()
    }
}

/// The digits after an optional leading `+`.
pub open spec fn unsigned_body(s: Seq<char>) -> Seq<char> {
    if s.len() > 0 && s[0] == '+' {
        s.skip(1)
    } else {
        s
    }
}

/// What `from_str_radix` / `parse` give for an unsigned type whose largest value is `max`.
pub open spec fn parse_unsigned(s: Seq<char>, radix: int, max: int) -> Option<int> {
    let body = unsigned_body(s);
    if body.len() > 0 && all_digits(body, radix) && digits_value(body, radix) <= max {
        Some(digits_value(body, radix))
    } else {
        None
    }
}

proof fn lemma_digits_value_nonneg(s: Seq<char>, radix: int)
    requires
        radix >= 2,
        all_digits(s, radix),
    ensures
        digits_value(s, radix) >= 0,
    decreases s.len(),
{
    if s.len() > 0 {
        assert(all_digits(s.drop_last(), radix)) by {
            assert forall|i: int| 0 <= i < s.drop_last().len() implies (#[trigger] digit_value(
                s.drop_last()[i],
                radix,
            )) is Some by {
                assert(s.drop_last()[i] == s[i]);
            }
        }
        lemma_digits_value_nonneg(s.drop_last(), radix);
        assert(digit_value(s[s.len() - 1], radix) is Some);
        assert(digits_value(s.drop_last(), radix) * radix >= 0) by (nonlinear_arith)
            requires
                digits_value(s.drop_last(), radix) >= 0,
                radix >= 2,
        ;
    }
}

/// A longer prefix of a digit string is worth at least as much as a shorter one.
proof fn lemma_digits_value_monotone(s: Seq<char>, k: int, radix: int)
    requires
        radix >= 2,
        all_digits(s, radix),
        0 <= k <= s.len(),
    ensures
        digits_value(s.take(k), radix) <= digits_value(s, radix),
    decreases s.len(),
{
    if k < s.len() {
        let p = s.drop_last();
        assert(all_digits(p, radix)) by {
            assert forall|i: int| 0 <= i < p.len() implies (#[trigger] digit_value(p[i], radix)) is Some by {
                assert(p[i] == s[i]);
            }
        }
        lemma_digits_value_monotone(p, k, radix);
        assert(p.take(k) =~= s.take(k));
        lemma_digits_value_nonneg(p, radix);
        assert(digit_value(s[s.len() - 1], radix) is Some);
        let v = digits_value(p, radix);
        assert(v * radix >= v) by (nonlinear_arith)
            requires
                v >= 0,
                radix >= 2,
        ;
    } else {
        assert(s.take(k) =~= s);
    }
}

/// Parses `s[start..end]` as an unsigned number in `radix` (10 or 16) no greater than `max`.
pub fn parse_unsigned_range(s: &Vec<char>, start: usize, end: usize, radix: u64, max: u64) -> (r:
    Option<u64>)
    requires
        start <= end <= s.len(),
        radix == 10 || radix == 16,
        max <= u32::MAX,
    ensures
        r matches Some(v) ==> parse_unsigned(s@.subrange(start as int, end as int), radix as int, max as int)
            == Some(v as int),
        r is None ==> parse_unsigned(s@.subrange(start as int, end as int), radix as int, max as int)
            is None,
{
    let ghost t = s@.subrange(start as int, end as int);
    let mut i = start;
    if i < end && s[i] == '+' {
        i += 1;
    }
    let ghost body = s@.subrange(i as int, end as int);
    assert(body =~= unsigned_body(t));
    if i == end {
        return None;
    }
    let mut acc: u64 = 0;
    let mut k = i;
    while k < end
        invariant
            start <= i <= k <= end <= s.len(),
            radix == 10 || radix == 16,
            max <= u32::MAX,
            body == s@.subrange(i as int, end as int),
            body == unsigned_body(s@.subrange(start as int, end as int)),
            body.len() > 0,
            all_digits(s@.subrange(i as int, k as int), radix as int),
            acc == digits_value(s@.subrange(i as int, k as int), radix as int),
            acc <= max,
        decreases end - k,
    {
        let c = s[k];
        let d: u64 = if '0' <= c && c <= '9' && (c as u64) - ('0' as u64) < radix {
            (c as u64) - ('0' as u64)
        } else if radix == 16 && 'a' <= c && c <= 'f' {
            (c as u64) - ('a' as u64) + 10
        } else if radix == 16 && 'A' <= c && c <= 'F' {
            (c as u64) - ('A' as u64) + 10
        } else {
            proof {
                assert(body[k - i] == c);
                assert(digit_value(c, radix as int) is None);
                assert(!all_digits(body, radix as int));
            }
            return None;
        };
        let ghost pre = s@.subrange(i as int, k as int);
        let ghost next = s@.subrange(i as int, k + 1);
        proof {
            assert(next.drop_last() =~= pre);
            assert(next.last() == c);
            assert(all_digits(next, radix as int)) by {
                assert forall|j: int| 0 <= j < next.len() implies (#[trigger] digit_value(
                    next[j],
                    radix as int,
                )) is Some by {
                    if j < pre.len() {
                        assert(next[j] == pre[j]);
                    }
                }
            }
        }
        assert(acc * radix <= u32::MAX * 16) by (nonlinear_arith)
            requires
                acc <= u32::MAX,
                radix <= 16,
        ;
        let nacc = acc * radix + d;
        proof {
            assert(digit_value(c, radix as int) == Some(d as int));
            assert(digits_value(next, radix as int) == nacc);
        }
        if nacc > max {
            proof {
                if all_digits(body, radix as int) {
                    assert(body.take(k + 1 - i) =~= next);
                    lemma_digits_value_monotone(body, k + 1 - i, radix as int);
                }
            }
            return None;
        }
        acc = nacc;
        k += 1;
    }
    proof {
        assert(s@.subrange(i as int, k as int) =~= body);
    }
    Some(acc)
}


/// `n` written in decimal.
pub open spec fn decimal_digits(n: nat) -> Seq<char>
    decreases n,
{
    if n < 10 {
        seq![(('0' as nat) + n) as char]
    } else {
        decimal_digits(n / 10) + seq![(('0' as nat) + n % 10) as char]
    }
}

/// A number written in decimal reads back as the number; so two numbers
/// are written alike only when they are equal.
pub proof fn lemma_decimal_digits_value(n: nat)
    ensures
        all_digits(decimal_digits(n), 10),
        digits_value(decimal_digits(n), 10) == n,
        decimal_digits(n).len() > 0,
    decreases n,
{
    let d = decimal_digits(n);
    if n < 10 {
        assert(d.drop_last() =~= Seq::<char>::empty());
        assert(digit_value(d[0], 10) == Some(n as int));
        assert(d.last() == d[0]);
        assert(digits_value(d.drop_last(), 10) == 0);
    } else {
        lemma_decimal_digits_value(n / 10);
        let c = (('0' as nat) + n % 10) as char;
        assert(d.drop_last() =~= decimal_digits(n / 10));
        assert(d.last() == c);
        assert(digit_value(c, 10) == Some((n % 10) as int));
        assert(n == (n / 10) * 10 + n % 10) by (nonlinear_arith);
        assert forall|i: int| 0 <= i < d.len() implies (#[trigger] digit_value(d[i], 10)) is Some by {
            if i < d.len() - 1 {
                assert(d[i] == decimal_digits(n / 10)[i]);
            }
        }
    }
}

pub proof fn lemma_decimal_digits_injective(a: nat, b: nat)
    requires
        decimal_digits(a) == decimal_digits(b),
    ensures
        a == b,
{
    lemma_decimal_digits_value(a);
    lemma_decimal_digits_value(b);
}

/// The digit character for `d < 10`.
pub fn digit_char(d: u64) -> (c: char)
    requires
        d < 10,
    ensures
        c == (('0' as nat) + d) as char,
{
    if d == 0 { '0' } else if d == 1 { '1' } else if d == 2 { '2' } else if d == 3 { '3' } else if d
        == 4 { '4' } else if d == 5 { '5' } else if d == 6 { '6' } else if d == 7 { '7' } else if d
        == 8 { '8' } else { '9' }
}

/// Appends `n` written in decimal (as `format!("{n}")`).
pub fn push_decimal(s: &mut String, n: u64)
    ensures
        final(s)@ == old(s)@ + decimal_digits(n as nat),
    decreases n,
{
    if n >= 10 {
        push_decimal(s, n / 10);
    }
    crate::text::push_char(s, digit_char(n % 10));
    proof {
        if n < 10 {
            assert(n % 10 == n);
        }
    }
}

/// Lowercase hexadecimal digit for `d < 16`.
pub open spec fn hex_char(d: nat) -> char {
    if d < 10 {
        (('0' as nat) + d) as char
    } else {
        (('a' as nat) + d - 10) as char
    }
}

/// The last `width` hexadecimal digits of `n`, lowercase, zero-padded.
pub open spec fn hex_digits(n: nat, width: nat) -> Seq<char>
    decreases width,
{
    if width == 0 {
        Seq::empty()
    } else {
        hex_digits(n / 16, (width - 1) as nat).push(hex_char(n % 16))
    }
}

fn hex_char_exec(d: u64) -> (c: char)
    requires
        d < 16,
    ensures
        c == hex_char(d as nat),
{
    if d < 10 {
        digit_char(d)
    } else if d == 10 { 'a' } else if d == 11 { 'b' } else if d == 12 { 'c' } else if d == 13 { 'd' } else if d
        == 14 { 'e' } else { 'f' }
}

/// Appends the last `width` hexadecimal digits of `n` (as `{:0width$x}` for a
/// `u64` when `width` is 16).
pub fn push_hex(s: &mut String, n: u64, width: u64)
    ensures
        final(s)@ == old(s)@ + hex_digits(n as nat, width as nat),
    decreases width,
{
    if width > 0 {
        push_hex(s, n / 16, width - 1);
        crate::text::push_char(s, hex_char_exec(n % 16));
    }
}
} // verus!
