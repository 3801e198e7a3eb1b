//! Decimal text for numeric ISO fields: parsing of unsigned decimal strings
//! (an optional `+` followed by ASCII digits) and zero-padded formatting.
use vstd::prelude::*;

verus! {

/// An ASCII decimal digit.
pub open spec fn is_digit(b: u8) -> bool {
    48 <= b && b <= 57
}

/// Every byte of `s` is an ASCII decimal digit.
pub open spec fn all_digits(s: Seq<u8>) -> bool {
    forall|i: int| 0 <= i < s.len() ==> is_digit(#[trigger] s[i])
}

/// The value of a string of digits, read most significant digit first.
pub open spec fn digits_value(s: Seq<u8>) -> nat
    decreases s.len(),
{
    if s.len() == 0 {
        0
    } else {
        digits_value(s.drop_last()) * 10 + (s.last() - 48) as nat
    }
}

/// The text of an unsigned integer read as decimal: an optional leading `+`
/// followed by at least one digit.  `None` for any other text.
pub open spec fn parse_unsigned(s: Seq<u8>) -> Option<nat> {
    let d = if s.len() > 0 && s[0] == 43u8 { s.drop_first() } else { s };
    if d.len() > 0 && all_digits(d) {
        Some(digits_value(d))
    } else {
        None
    }
}

/// The text read as an integer that fits in `max`.
pub open spec fn parse_bounded(s: Seq<u8>, max: nat) -> Option<nat> {
    match parse_unsigned(s) {
        Some(v) => if v <= max { Some(v) } else { None },
        None => None,
    }
}

/// The decimal digits of `n`, with no leading zero (a single `0` for zero).
pub open spec fn decimal_digits(n: nat) -> Seq<u8>
    decreases n,
{
    if n < 10 {
        seq![(n + 48) as u8]
    } else {
        decimal_digits(n / 10).push(((n % 10) + 48) as u8)
    }
}

/// `count` copies of the byte `b`.
pub open spec fn repeat_byte(b: u8, count: nat) -> Seq<u8> {
    Seq::new(count, |i: int| b)
}

/// `n` in decimal, left-padded with `0` to at least `width` characters.
pub open spec fn zero_padded(n: nat, width: nat) -> Seq<u8> {
    let d = decimal_digits(n);
    if d.len() >= width {
        d
    } else {
        repeat_byte(48u8, (width - d.len()) as nat) + d
    }
}

proof fn lemma_digits_value_monotone(s: Seq<u8>, i: int)
    requires
        0 <= i <= s.len(),
        all_digits(s),
    ensures
        digits_value(s.take(i)) <= digits_value(s),
    decreases s.len() - i,
{
    if i < s.len() {
        lemma_digits_value_monotone(s, i + 1);
        assert(s.take(i + 1).drop_last() =~= s.take(i));
    } else {
        assert(s.take(i) =~= s);
    }
}

/// Reads an unsigned decimal number from `s` that fits in a `u64`.
pub fn parse_u64(s: &[u8]) -> (r: Option<u64>)
    ensures
        r == (match parse_bounded(s@, u64::MAX as nat) {
            Some(v) => Some(v as u64),
            None => None::<u64>,
        }),
{
    let n = s.len();
    let mut start: usize = 0;
    if n > 0 && s[0] == 43u8 {
        start = 1;
    }
    let ghost d = if s@.len() > 0 && s@[0] == 43u8 { s@.drop_first() } else { s@ };
    assert(d =~= s@.subrange(start as int, n as int));
    if start >= n {
        return None;
    }
    let mut acc: u64 = 0;
    let mut i: usize = start;
    while i < n
        invariant
            start <= i <= n,
            n == s@.len(),
            d =~= s@.subrange(start as int, n as int),
            d == (if s@.len() > 0 && s@[0] == 43u8 { s@.drop_first() } else { s@ }),
            all_digits(s@.subrange(start as int, i as int)),
            acc as nat == digits_value(s@.subrange(start as int, i as int)),
        decreases n - i,
    {
        let b = s[i];
        if b < 48u8 || b > 57u8 {
            assert(!is_digit(d[(i - start) as int]));
            assert(!all_digits(d));
            return None;
        }
        let ghost pre = s@.subrange(start as int, i as int);
        let ghost next = s@.subrange(start as int, i + 1);
        assert(next.drop_last() =~= pre);
        let digit = (b - 48u8) as u64;
        if acc > (u64::MAX - digit) / 10 {
            proof {
                assert(acc * 10 + digit > u64::MAX) by (nonlinear_arith)
                    requires
                        acc > (u64::MAX - digit) / 10,
                        digit <= 9,
                ;
                assert(next.last() == b);
                assert(digits_value(next) == digits_value(pre) * 10 + digit);
                if all_digits(d) {
                    assert(next =~= d.take(i + 1 - start));
                    lemma_digits_value_monotone(d, i + 1 - start);
                }
            }
            return None;
        }
        acc = acc * 10 + digit;
        i = i + 1;
        assert(all_digits(next)) by {
            assert forall|k: int| 0 <= k < next.len() implies is_digit(#[trigger] next[k]) by {
                if k < next.len() - 1 {
                    assert(next[k] == pre[k]);
                }
            }
        }
    }
    assert(s@.subrange(start as int, n as int) =~= d);
    Some(acc)
}

/// Appends the bytes of `src` to `dst`.
pub fn append_bytes(dst: &mut Vec<u8>, src: &[u8])
    ensures
        final(dst)@ == old(dst)@ + src@,
{
    let ghost start = dst@;
    let mut i: usize = 0;
    while i < src.len()
        invariant
            i <= src@.len(),
            dst@ == start + src@.subrange(0, i as int),
        decreases src@.len() - i,
    {
        dst.push(src[i]);
        i = i + 1;
        assert(dst@ =~= start + src@.subrange(0, i as int));
    }
    assert(src@.subrange(0, src@.len() as int) =~= src@);
}

/// Appends `count` copies of `b` to `dst`.
pub fn append_repeat(dst: &mut Vec<u8>, b: u8, count: usize)
    ensures
        final(dst)@ == old(dst)@ + repeat_byte(b, count as nat),
{
    let ghost start = dst@;
    let mut i: usize = 0;
    while i < count
        invariant
            i <= count,
            dst@ =~= start + repeat_byte(b, i as nat),
        decreases count - i,
    {
        dst.push(b);
        i = i + 1;
        assert(dst@ =~= start + repeat_byte(b, i as nat));
    }
}

/// The decimal digits of `n`.
pub fn decimal_text(n: u64) -> (r: Vec<u8>)
    ensures
        r@ == decimal_digits(n as nat),
    decreases n,
{
    if n < 10 {
        let mut v: Vec<u8> = Vec::new();
        v.push((n as u8) + 48u8);
        assert(v@ =~= seq![((n as nat) + 48) as u8]);
        v
    } else {
        let mut v = decimal_text(n / 10);
        v.push(((n % 10) as u8) + 48u8);
        v
    }
}

/// `n` in decimal, left-padded with `0` to at least `width` characters
/// (the text `format!("{:0width$}", n)` gives).
pub fn zero_padded_text(n: u64, width: usize) -> (r: Vec<u8>)
    ensures
        r@ == zero_padded(n as nat, width as nat),
{
    let d = decimal_text(n);
    if d.len() >= width {
        d
    } else {
        let mut r: Vec<u8> = Vec::new();
        append_repeat(&mut r, 48u8, width - d.len());
        append_bytes(&mut r, d.as_slice());
        assert(r@ =~= repeat_byte(48u8, (width - d@.len()) as nat) + d@);
        r
    }
}

pub(crate) proof fn lemma_decimal_digits(n: nat)
    ensures
        all_digits(decimal_digits(n)),
        decimal_digits(n).len() > 0,
        digits_value(decimal_digits(n)) == n,
        decimal_digits(n)[0] != 43u8,
    decreases n,
{
    if n >= 10 {
        lemma_decimal_digits(n / 10);
        let d = decimal_digits(n);
        assert(d.drop_last() =~= decimal_digits(n / 10));
        assert forall|i: int| 0 <= i < d.len() implies is_digit(#[trigger] d[i]) by {
            if i < d.len() - 1 {
                assert(d[i] == decimal_digits(n / 10)[i]);
            }
        }
        assert(d[0] == decimal_digits(n / 10)[0]);
        assert(d.last() == ((n % 10) + 48) as u8);
        assert((n / 10) * 10 + n % 10 == n);
        assert(digits_value(d) == digits_value(d.drop_last()) * 10 + (d.last() - 48) as nat);
    } else {
        let d = decimal_digits(n);
        assert(d.drop_last() =~= Seq::<u8>::empty());
        assert(digits_value(d) == digits_value(d.drop_last()) * 10 + (d.last() - 48) as nat);
    }
}

proof fn lemma_leading_zeros(k: nat, d: Seq<u8>)
    requires
        all_digits(d),
    ensures
        all_digits(repeat_byte(48u8, k) + d),
        digits_value(repeat_byte(48u8, k) + d) == digits_value(d),
    decreases d.len(),
{
    let s = repeat_byte(48u8, k) + d;
    assert forall|i: int| 0 <= i < s.len() implies is_digit(#[trigger] s[i]) by {
        if i >= k {
            assert(s[i] == d[i - k]);
        }
    }
    if d.len() == 0 {
        assert(s =~= repeat_byte(48u8, k));
        lemma_zeros_value(k);
    } else {
        assert(s.drop_last() =~= repeat_byte(48u8, k) + d.drop_last());
        assert(all_digits(d.drop_last())) by {
            assert forall|i: int| 0 <= i < d.drop_last().len() implies is_digit(#[trigger] d.drop_last()[i]) by {
                assert(d.drop_last()[i] == d[i]);
            }
        }
        lemma_leading_zeros(k, d.drop_last());
    }
}

proof fn lemma_zeros_value(k: nat)
    ensures
        digits_value(repeat_byte(48u8, k)) == 0,
    decreases k,
{
    if k > 0 {
        assert(repeat_byte(48u8, k).drop_last() =~= repeat_byte(48u8, (k - 1) as nat));
        lemma_zeros_value((k - 1) as nat);
    }
}

/// Zero-padded decimal text reads back as the number it was written from.
pub proof fn lemma_zero_padded_parses(n: nat, width: nat)
    ensures
        parse_unsigned(zero_padded(n, width)) == Some(n),
        all_digits(zero_padded(n, width)),
        zero_padded(n, width).len() >= width,
        zero_padded(n, width).len() > 0,
{
    lemma_decimal_digits(n);
    let d = decimal_digits(n);
    if d.len() < width {
        lemma_leading_zeros((width - d.len()) as nat, d);
        let z = zero_padded(n, width);
        assert(z[0] == 48u8);
    }
}

/// Numbers below `10^k` have at most `k` digits.
pub proof fn lemma_decimal_digits_len(n: nat, k: nat, bound: nat)
    requires
        n < bound,
        bound == pow10(k),
        k > 0,
    ensures
        decimal_digits(n).len() <= k,
    decreases k,
{
    if n >= 10 {
        assert(k > 1) by {
            if k == 1 {
                assert(pow10(1) == 10 * pow10(0));
            }
        }
        assert(bound == 10 * pow10((k - 1) as nat));
        assert(n / 10 < pow10((k - 1) as nat));
        lemma_decimal_digits_len(n / 10, (k - 1) as nat, pow10((k - 1) as nat));
    }
}

/// Ten to the power `k`.
pub open spec fn pow10(k: nat) -> nat
    decreases k,
{
    if k == 0 { 1 } else { 10 * pow10((k - 1) as nat) }
}

} // verus!
