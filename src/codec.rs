use vstd::arithmetic::div_mod::*;
use vstd::arithmetic::power::*;
use vstd::prelude::*;

verus! {

proof fn lemma_quotient_shrinks(n: nat, base: nat)
    requires
        base >= 2,
        n >= base,
    ensures
        n / base < n,
        n / base > 0,
{
    lemma_div_decreases(n as int, base as int);
    lemma_div_non_zero(n as int, base as int);
}

/// Digits of `n` in base `a.len()`, most significant first, written with the
/// characters of `a`; zero is the single character `a[0]`.
pub open spec fn encode_spec(n: nat, a: Seq<char>) -> Seq<char>
    decreases n,
    via encode_spec_decreases
{
    if a.len() < 2 {
        seq![]
    } else if n < a.len() {
        seq![a[n as int]]
    } else {
        encode_spec(n / a.len(), a).push(a[(n % a.len()) as int])
    }
}

#[via_fn]
proof fn encode_spec_decreases(n: nat, a: Seq<char>) {
    if a.len() >= 2 && n >= a.len() {
        lemma_quotient_shrinks(n, a.len());
    }
}

/// The position of `c` in `a`.
pub open spec fn digit_value(c: char, a: Seq<char>) -> int {
    choose|i: int| 0 <= i < a.len() && a[i] == c
}

/// The number that `s` writes in base `a.len()`, most significant digit first.
pub open spec fn decode_spec(s: Seq<char>, a: Seq<char>) -> int
    decreases s.len(),
{
    if s.len() == 0 {
        0
    } else {
        decode_spec(s.drop_last(), a) * a.len() + digit_value(s.last(), a)
    }
}

proof fn lemma_digit_value(a: Seq<char>, i: int)
    requires
        a.no_duplicates(),
        0 <= i < a.len(),
    ensures
        digit_value(a[i], a) == i,
{
    assert(0 <= i < a.len() && a[i] == a[i]);
    let j = digit_value(a[i], a);
    assert(0 <= j < a.len() && a[j] == a[i]);
}

/// Decoding what `encode_spec` wrote gives the number back, for every number
/// and every alphabet of two or more distinct characters.
pub proof fn lemma_decode_encode(n: nat, a: Seq<char>)
    requires
        a.len() >= 2,
        a.no_duplicates(),
    ensures
        decode_spec(encode_spec(n, a), a) == n,
    decreases n,
{
    let b = a.len();
    if n < b {
        let s = encode_spec(n, a);
        assert(s.drop_last() =~= Seq::<char>::empty());
        lemma_digit_value(a, n as int);
        assert(s.last() == a[n as int]);
        assert(decode_spec(s.drop_last(), a) == 0);
        assert(decode_spec(s, a) == 0 * b + n);
    } else {
        lemma_quotient_shrinks(n, b);
        lemma_decode_encode(n / b, a);
        lemma_mod_bound(n as int, b as int);
        let r = (n % b) as int;
        let s = encode_spec(n, a);
        assert(s.drop_last() =~= encode_spec(n / b, a));
        lemma_digit_value(a, r);
        assert(s.last() == a[r]);
        lemma_fundamental_div_mod(n as int, b as int);
        assert(decode_spec(s, a) == (n / b) * b + r);
        assert((n / b) * b == b * (n / b)) by (nonlinear_arith);
    }
}

/// Relies on `String::push`: appends the character at the end of the string.
#[verifier::external_body]
pub(crate) fn push_char(s: &mut String, c: char)
    ensures
        final(s)@ == old(s)@.push(c),
{
    s.push(c)
}

/// A string holding the characters of `v` in order.
pub fn string_from_chars(v: &Vec<char>) -> (r: String)
    ensures
        r@ == v@,
{
    let mut r = String::new();
    let mut i: usize = 0;
    while i < v.len()
        invariant
            i <= v.len(),
            r@ == v@.take(i as int),
        decreases v.len() - i,
    {
        push_char(&mut r, v[i]);
        i += 1;
        assert(r@ =~= v@.take(i as int));
    }
    assert(v@.take(i as int) =~= v@);
    r
}

/// Writes `number` in base `alphabet@.len()` with the characters of
/// `alphabet`, most significant digit first; zero is the alphabet's first
/// character alone.
pub fn encode_number(number: u64, alphabet: &str) -> (r: String)
    requires
        alphabet@.len() >= 2,
    ensures
        r@ == encode_spec(number as nat, alphabet@),
        number == 0 ==> r@ == seq![alphabet@[0]],
{
    let ghost a = alphabet@;
    let base = alphabet.unicode_len() as u64;
    let mut digits: Vec<char> = Vec::new();
    if number == 0 {
        digits.push(alphabet.get_char(0));
        assert(digits@ =~= encode_spec(0, a));
    } else {
        let mut rest = number;
        while rest > 0
            invariant
                base as nat == a.len(),
                a == alphabet@,
                a.len() <= usize::MAX,
                base >= 2,
                rest > 0 ==> encode_spec(number as nat, a) == encode_spec(rest as nat, a) + digits@,
                rest == 0 ==> encode_spec(number as nat, a) == digits@,
            decreases rest,
        {
            let ghost old_digits = digits@;
            let remainder = (rest % base) as usize;
            let c = alphabet.get_char(remainder);
            assert(c == a[(rest as nat % a.len()) as int]);
            digits.insert(0, c);
            assert(digits@ =~= seq![c] + old_digits);
            if rest < base {
                proof {
                    lemma_small_mod(rest as nat, base as nat);
                    lemma_basic_div(rest as int, base as int);
                }
                assert(encode_spec(rest as nat, a) == seq![a[rest as int]]);
                assert(digits@ =~= encode_spec(rest as nat, a) + old_digits);
            } else {
                proof {
                    lemma_quotient_shrinks(rest as nat, base as nat);
                }
                assert(encode_spec(rest as nat, a) == encode_spec((rest / base) as nat, a).push(c));
                assert(encode_spec(rest as nat, a) + old_digits =~= encode_spec(
                    (rest / base) as nat,
                    a,
                ) + digits@);
            }
            rest = rest / base;
        }
    }
    string_from_chars(&digits)
}

proof fn lemma_product_against_quotient(p: int, base: int, limit: int)
    requires
        base > 0,
        limit >= 0,
    ensures
        p >= 1 ==> p * base >= 1,
        p > limit / base ==> p * base > limit,
        p <= limit / base ==> p * base <= limit,
{
    lemma_fundamental_div_mod(limit, base);
    lemma_mod_bound(limit, base);
    let q = limit / base;
    assert(p >= 1 ==> p * base >= 1) by (nonlinear_arith)
        requires
            base > 0,
    ;
    if p > q {
        assert(p * base >= (q + 1) * base) by (nonlinear_arith)
            requires
                p >= q + 1,
                base > 0,
        ;
        assert((q + 1) * base == base * q + base) by (nonlinear_arith);
    } else {
        assert(p * base <= q * base) by (nonlinear_arith)
            requires
                p <= q,
                base > 0,
        ;
        assert(q * base == base * q) by (nonlinear_arith);
    }
}

/// `pow(base, length) - 1` where it fits in a `u64`, else `None`.
pub fn max_value_if_representable(length: usize, base: u64) -> (r: Option<u64>)
    requires
        base >= 2,
    ensures
        match r {
            Some(m) => m + 1 == pow(base as int, length as nat),
            None => pow(base as int, length as nat) > u64::MAX + 1,
        },
{
    let limit: u128 = 0x1_0000_0000_0000_0000;
    let mut p: u128 = 1;
    let mut i: usize = 0;
    proof {
        lemma_pow0(base as int);
    }
    while i < length
        invariant
            base >= 2,
            i <= length,
            limit == u64::MAX + 1,
            p == pow(base as int, i as nat),
            1 <= p <= limit,
        decreases length - i,
    {
        proof {
            lemma_pow1(base as int);
            lemma_pow_adds(base as int, i as nat, 1);
        }
        if p > limit / (base as u128) {
            proof {
                lemma_product_against_quotient(p as int, base as int, limit as int);
                lemma_pow_increases(base as nat, (i + 1) as nat, length as nat);
            }
            return None;
        }
        proof {
            lemma_product_against_quotient(p as int, base as int, limit as int);
        }
        p = p * (base as u128);
        i += 1;
    }
    Some((p - 1) as u64)
}

/// The largest number that `length` characters over `alphabet` can write:
/// `pow(alphabet@.len(), length) - 1`.
pub fn get_max_value_of_fixed_length(length: usize, alphabet: &str) -> (r: u64)
    requires
        alphabet@.len() >= 2,
        pow(alphabet@.len() as int, length as nat) <= u64::MAX + 1,
    ensures
        r + 1 == pow(alphabet@.len() as int, length as nat),
{
    let base = alphabet.unicode_len() as u64;
    match max_value_if_representable(length, base) {
        Some(m) => m,
        None => 0,
    }
}

} // verus!
