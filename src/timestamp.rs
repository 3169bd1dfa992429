use crate::codec::{encode_number, encode_spec, max_value_if_representable};
use crate::sampler::drawn_from;
use vstd::arithmetic::div_mod::*;
use vstd::arithmetic::power::*;
use vstd::prelude::*;

verus! {

/// The timestamp that the time segment writes: `t`, less `start_time` where
/// one is given, wrapping below zero as unsigned arithmetic does.
pub open spec fn effective_time(t: u64, start_time: Option<u64>) -> u64 {
    match start_time {
        Some(s) => t.wrapping_sub(s),
        None => t,
    }
}

/// The time segment: empty for a width of zero; else `t` reduced modulo
/// `pow(a.len(), time_length)` and written over `a`, left-padded with `a[0]`
/// up to `time_length` characters where `pad_left` asks for it.
pub open spec fn time_segment(time_length: nat, t: nat, pad_left: bool, a: Seq<char>) -> Seq<char> {
    if time_length == 0 {
        seq![]
    } else {
        let digits = encode_spec((t as int % pow(a.len() as int, time_length)) as nat, a);
        if pad_left && digits.len() < time_length {
            Seq::new((time_length - digits.len()) as nat, |_i: int| a[0]) + digits
        } else {
            digits
        }
    }
}

proof fn lemma_encode_fits(n: nat, a: Seq<char>, len: nat)
    requires
        a.len() >= 2,
        len >= 1,
        n < pow(a.len() as int, len),
    ensures
        1 <= encode_spec(n, a).len() <= len,
        drawn_from(encode_spec(n, a), a),
    decreases n,
{
    let b = a.len();
    if n >= b {
        lemma_pow1(b as int);
        if len == 1 {
            assert(false);
        }
        lemma_pow_adds(b as int, 1, (len - 1) as nat);
        lemma_pow_positive(b as int, (len - 1) as nat);
        lemma_multiply_divide_lt(n as int, b as int, pow(b as int, (len - 1) as nat));
        lemma_div_decreases(n as int, b as int);
        lemma_div_pos_is_pos(n as int, b as int);
        lemma_encode_fits(n / b, a, (len - 1) as nat);
        lemma_mod_bound(n as int, b as int);
        let e = encode_spec(n, a);
        let prev = encode_spec(n / b, a);
        assert forall|i: int| 0 <= i < e.len() implies a.contains(#[trigger] e[i]) by {
            if i < prev.len() {
                assert(e[i] == prev[i]);
            } else {
                assert(e[i] == a[(n % b) as int]);
            }
        }
    } else {
        assert(a.contains(encode_spec(n, a)[0]));
    }
}

/// A time segment of nonzero width, padded, is exactly `time_length`
/// characters long; every time segment is written over `a`.
pub proof fn lemma_time_segment_shape(time_length: nat, t: nat, pad_left: bool, a: Seq<char>)
    requires
        a.len() >= 2,
    ensures
        pad_left && time_length > 0 ==> time_segment(time_length, t, pad_left, a).len() == time_length,
        time_segment(time_length, t, pad_left, a).len() <= time_length,
        drawn_from(time_segment(time_length, t, pad_left, a), a),
{
    if time_length > 0 {
        let p = pow(a.len() as int, time_length);
        lemma_pow_positive(a.len() as int, time_length);
        lemma_mod_bound(t as int, p);
        let n = (t as int % p) as nat;
        lemma_encode_fits(n, a, time_length);
        let digits = encode_spec(n, a);
        if pad_left && digits.len() < time_length {
            let s = Seq::new((time_length - digits.len()) as nat, |_i: int| a[0]) + digits;
            let padding_len = time_length - digits.len();
            assert forall|i: int| 0 <= i < s.len() implies a.contains(#[trigger] s[i]) by {
                if i < padding_len {
                    assert(s[i] == a[0]);
                } else {
                    assert(s[i] == digits[i - padding_len]);
                }
            }
        }
    }
}

/// Relies on `std::time::SystemTime::elapsed` measured from `UNIX_EPOCH`: the
/// wall clock in milliseconds, or `None` where it is set before the epoch.
#[verifier::external_body]
fn wall_clock_millis() -> (r: Option<u64>) {
    match std::time::UNIX_EPOCH.elapsed() {
        Ok(d) => Some(d.as_millis() as u64),
        Err(_) => None,
    }
}

/// The time segment for timestamp `t`, which `effective_time` has already
/// adjusted.
pub fn format_time(time_length: usize, t: u64, pad_left: bool, alphabet: &str) -> (r: String)
    requires
        alphabet@.len() >= 2,
    ensures
        r@ == time_segment(time_length as nat, t as nat, pad_left, alphabet@),
{
    if time_length == 0 {
        return String::new();
    }
    let base = alphabet.unicode_len() as u64;
    let ghost p = pow(base as int, time_length as nat);
    let reduced = match max_value_if_representable(time_length, base) {
        Some(m) => {
            if m == u64::MAX {
                proof {
                    lemma_small_mod(t as nat, p as nat);
                }
                t
            } else {
                t % (m + 1)
            }
        },
        None => {
            proof {
                lemma_small_mod(t as nat, p as nat);
            }
            t
        },
    };
    let digits = encode_number(reduced, alphabet);
    if pad_left {
        let width = digits.as_str().unicode_len();
        let mut out = String::new();
        if width < time_length {
            let pad = alphabet.get_char(0);
            let count = time_length - width;
            let mut i: usize = 0;
            while i < count
                invariant
                    i <= count,
                    out@ == Seq::new(i as nat, |_j: int| pad),
                decreases count - i,
            {
                crate::codec::push_char(&mut out, pad);
                i += 1;
                assert(out@ =~= Seq::new(i as nat, |_j: int| pad));
            }
            assert(out@ =~= Seq::new(count as nat, |_j: int| alphabet@[0]));
        }
        out.append(digits.as_str());
        out
    } else {
        digits
    }
}

/// The time segment of an identifier: `time`, or the wall clock where it is
/// `None`, adjusted by `start_time` and written by `format_time`. A wall
/// clock set before the Unix epoch reads as 0 here, where it cannot be
/// measured in unsigned milliseconds.
pub fn generate_time(
    time_length: usize,
    time: Option<u64>,
    start_time: Option<u64>,
    pad_left: bool,
    alphabet: &str,
) -> (r: String)
    requires
        alphabet@.len() >= 2,
    ensures
        time_length == 0 ==> r@.len() == 0,
        match time {
            Some(t) => r@ == time_segment(
                time_length as nat,
                effective_time(t, start_time) as nat,
                pad_left,
                alphabet@,
            ),
            None => exists|now: u64|
                r@ == time_segment(
                    time_length as nat,
                    #[trigger] effective_time(now, start_time) as nat,
                    pad_left,
                    alphabet@,
                ),
        },
{
    let raw = match time {
        Some(t) => t,
        None => match wall_clock_millis() {
            Some(ms) => ms,
            None => 0,
        },
    };
    let t = match start_time {
        Some(s) => raw.wrapping_sub(s),
        None => raw,
    };
    let r = format_time(time_length, t, pad_left, alphabet);
    assert(r@ == time_segment(time_length as nat, effective_time(raw, start_time) as nat, pad_left, alphabet@));
    r
}

} // verus!
