//! Coin amounts written in whole coins with up to six decimals, as in `0.025`.
use vstd::prelude::*;
use vstd::utf8::encode_utf8;

verus! {

/// Micro-units in one coin.
pub const MICRO_PER_COIN: u128 = 1_000_000;

/// The ASCII code of `.`.
pub const DOT: u8 = 46;

pub open spec fn is_digit(b: u8) -> bool {
    48 <= b <= 57
}

pub open spec fn all_digits(s: Seq<u8>) -> bool {
    forall|i: int| 0 <= i < s.len() ==> is_digit(#[trigger] s[i])
}

/// The number that the decimal digits `s` spell.
pub open spec fn digits_value(s: Seq<u8>) -> nat
    decreases s.len(),
{
    if s.len() == 0 {
        0
    } else {
        digits_value(s.drop_last()) * 10 + (s.last() - 48) as nat
    }
}

/// 10 to the power `n`.
pub open spec fn pow10(n: nat) -> nat
    decreases n,
{
    if n == 0 {
        1
    } else {
        10 * pow10((n - 1) as nat)
    }
}

/// The position of the first `.` in `b`, or its length when there is none.
pub open spec fn dot_index(b: Seq<u8>) -> int {
    if exists|i: int| 0 <= i < b.len() && b[i] == DOT && forall|j: int| 0 <= j < i ==> b[j] != DOT {
        choose|i: int| 0 <= i < b.len() && b[i] == DOT && forall|j: int| 0 <= j < i ==> b[j] != DOT
    } else {
        b.len() as int
    }
}

/// The amount, in micro-units, that the text `b` writes: digits, then optionally a dot
/// and one to six more digits.
pub open spec fn coin_amount(b: Seq<u8>) -> Option<nat> {
    let d = dot_index(b);
    let whole = b.take(d);
    let frac = if d < b.len() {
        b.skip(d + 1)
    } else {
        Seq::empty()
    };
    if whole.len() >= 1 && all_digits(whole) && all_digits(frac) && (d == b.len() || 1 <= frac.len()
        <= 6) {
        Some(digits_value(whole) * 1_000_000 + digits_value(frac) * pow10((6 - frac.len()) as nat))
    } else {
        None
    }
}

proof fn lemma_digits_grow(s: Seq<u8>, k: int)
    requires
        0 <= k <= s.len(),
    ensures
        digits_value(s.take(k)) <= digits_value(s),
    decreases s.len(),
{
    if k < s.len() {
        lemma_digits_grow(s.drop_last(), k);
        assert(s.drop_last().take(k) =~= s.take(k));
    } else {
        assert(s.take(k) =~= s);
    }
}

proof fn lemma_digits_below_pow10(s: Seq<u8>)
    requires
        all_digits(s),
    ensures
        digits_value(s) < pow10(s.len()),
    decreases s.len(),
{
    if s.len() > 0 {
        lemma_digits_below_pow10(s.drop_last());
        assert(is_digit(s[s.len() - 1]));
    }
}

/// Reads the value of the digits `b[start..end]`; `None` when it exceeds the largest value.
fn digits_u128(b: &[u8], start: usize, end: usize) -> (r: Option<u128>)
    requires
        start <= end <= b@.len(),
        all_digits(b@.subrange(start as int, end as int)),
    ensures
        match r {
            Some(v) => v == digits_value(b@.subrange(start as int, end as int)),
            None => digits_value(b@.subrange(start as int, end as int)) > u128::MAX,
        },
{
    let ghost s = b@.subrange(start as int, end as int);
    let mut v: u128 = 0;
    let mut k: usize = start;
    while k < end
        invariant
            start <= k <= end <= b@.len(),
            s == b@.subrange(start as int, end as int),
            all_digits(s),
            v == digits_value(s.take(k - start)),
        decreases end - k,
    {
        assert(s.take(k - start + 1).drop_last() =~= s.take(k - start));
        assert(s.take(k - start + 1).last() == b@[k as int]);
        assert(is_digit(s[k - start]));
        let digit = (b[k] - 48) as u128;
        match v.checked_mul(10) {
            None => {
                proof {
                    lemma_digits_grow(s, k - start + 1);
                }
                return None;
            },
            Some(t) => match t.checked_add(digit) {
                None => {
                    proof {
                        lemma_digits_grow(s, k - start + 1);
                    }
                    return None;
                },
                Some(n) => {
                    v = n;
                },
            },
        }
        k = k + 1;
    }
    assert(s.take(end - start) =~= s);
    Some(v)
}

/// The amount, in micro-units, that `text` writes in coins with up to six decimals;
/// `None` when it is not such an amount or does not fit.
pub fn parse_coin_amount(text: &str) -> (r: Option<u128>)
    ensures
        match coin_amount(encode_utf8(text@)) {
            Some(n) => if n <= u128::MAX { r == Some(n as u128) } else { r is None },
            None => r is None,
        },
{
    let b = text.as_bytes();
    let ghost bs = b@;
    assert(bs == encode_utf8(text@));
    let n = b.len();
    let mut d: usize = 0;
    while d < n && b[d] != DOT
        invariant
            d <= n == bs.len(),
            bs == b@,
            forall|j: int| 0 <= j < d ==> bs[j] != DOT,
        decreases n - d,
    {
        d = d + 1;
    }
    proof {
        if d < n {
            assert(bs[d as int] == DOT);
            let c = choose|i: int|
                0 <= i < bs.len() && bs[i] == DOT && forall|j: int| 0 <= j < i ==> bs[j] != DOT;
            assert(c == d);
        } else {
            assert(!exists|i: int|
                0 <= i < bs.len() && bs[i] == DOT && forall|j: int| 0 <= j < i ==> bs[j] != DOT);
        }
        assert(dot_index(bs) == d);
    }
    let frac_start: usize = if d < n { d + 1 } else { n };
    let frac_len: usize = n - frac_start;
    assert(bs.take(d as int) =~= bs.subrange(0, d as int));
    assert(d < n ==> bs.skip(d + 1) =~= bs.subrange(frac_start as int, n as int));
    assert(d == n ==> Seq::<u8>::empty() =~= bs.subrange(frac_start as int, n as int));
    if d == 0 {
        return None;
    }
    let mut k: usize = 0;
    while k < n
        invariant
            k <= n == bs.len(),
            bs == b@,
            1 <= d <= n,
            bs == encode_utf8(text@),
            dot_index(bs) == d,
            frac_start == (if d < n { d + 1 } else { n as int }),
            bs.take(d as int) == bs.subrange(0, d as int),
            d < n ==> bs.skip(d + 1) == bs.subrange(frac_start as int, n as int),
            d == n ==> Seq::<u8>::empty() == bs.subrange(frac_start as int, n as int),
            forall|j: int| 0 <= j < k && j != d ==> is_digit(bs[j]),
        decreases n - k,
    {
        if k != d && !(48 <= b[k] && b[k] <= 57) {
            proof {
                assert(!is_digit(bs[k as int]));
                if k < d {
                    assert(bs.take(d as int)[k as int] == bs[k as int]);
                    assert(!all_digits(bs.take(d as int)));
                } else {
                    let frac = bs.skip(d + 1);
                    assert(frac[k - frac_start] == bs[k as int]);
                    assert(!all_digits(frac));
                }
                assert(coin_amount(bs) is None);
            }
            return None;
        }
        k = k + 1;
    }
    assert(all_digits(bs.subrange(0, d as int)));
    assert(all_digits(bs.subrange(frac_start as int, n as int)));
    if d < n && (frac_len < 1 || frac_len > 6) {
        return None;
    }
    let whole = match digits_u128(b, 0, d) {
        Some(w) => w,
        None => return None,
    };
    proof {
        lemma_digits_below_pow10(bs.subrange(frac_start as int, n as int));
        assert(pow10(0) == 1 && pow10(1) == 10 && pow10(2) == 100 && pow10(3) == 1000 && pow10(4)
            == 10000 && pow10(5) == 100000 && pow10(6) == 1000000) by {
            reveal_with_fuel(pow10, 7);
        }
    }
    let frac = match digits_u128(b, frac_start, n) {
        Some(f) => f,
        None => return None,
    };
    let mut scale: u128 = 1;
    let mut m: usize = frac_len;
    while m < 6
        invariant
            frac_len <= m <= 6,
            scale == pow10((m - frac_len) as nat),
            scale <= 1000000,
        decreases 6 - m,
    {
        proof {
            assert(pow10((m + 1 - frac_len) as nat) == 10 * pow10((m - frac_len) as nat));
            lemma_pow10_bound((m + 1 - frac_len) as nat);
        }
        scale = scale * 10;
        m = m + 1;
    }
    proof {
        lemma_pow10_add(frac_len as nat, (6 - frac_len) as nat);
    }
    assert(frac * scale < 1000000) by (nonlinear_arith)
        requires
            frac < pow10(frac_len as nat),
            scale == pow10((6 - frac_len) as nat),
            pow10(frac_len as nat) * pow10((6 - frac_len) as nat) == 1000000,
    {
    }
    match whole.checked_mul(MICRO_PER_COIN) {
        None => None,
        Some(w) => w.checked_add(frac * scale),
    }
}

proof fn lemma_pow10_add(a: nat, b: nat)
    ensures
        pow10(a + b) == pow10(a) * pow10(b),
    decreases a,
{
    if a > 0 {
        let prev = (a - 1) as nat;
        lemma_pow10_add(prev, b);
        assert(pow10(a) == 10 * pow10(prev));
        assert(pow10(a + b) == 10 * pow10(prev + b));
        let x = pow10(prev);
        let y = pow10(b);
        assert(10 * (x * y) == (10 * x) * y) by (nonlinear_arith);
    } else {
        assert(pow10(0) == 1);
        assert(a + b == b);
    }
}

proof fn lemma_pow10_bound(n: nat)
    requires
        n <= 6,
    ensures
        pow10(n) <= 1000000,
{
    reveal_with_fuel(pow10, 7);
}

} // verus!
