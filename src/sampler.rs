use crate::codec::string_from_chars;
use crate::error::TempoIdError;
use crate::pool::{EntropyPool, MAX_TAKE};
use vstd::arithmetic::div_mod::*;
use vstd::arithmetic::power2::*;
use vstd::prelude::*;

verus! {

/// How many binary digits `x` has.
pub open spec fn bit_width(x: nat) -> nat
    decreases x,
{
    if x == 0 {
        0
    } else {
        1 + bit_width(x / 2)
    }
}

/// The mask that rejection sampling over `n` characters applies to a byte:
/// all ones, as many as `n - 1` has binary digits.
pub open spec fn selection_mask(n: nat) -> nat {
    (pow2(bit_width((n - 1) as nat)) - 1) as nat
}

/// The characters that `bytes` select from `a` under `mask`, in order: a
/// byte selects `a[b & mask]` where that index is below `a.len()`, and is
/// rejected otherwise.
pub open spec fn accepted(bytes: Seq<u8>, mask: u64, a: Seq<char>) -> Seq<char>
    decreases bytes.len(),
{
    if bytes.len() == 0 {
        seq![]
    } else {
        let rest = accepted(bytes.drop_last(), mask, a);
        let index = (bytes.last() as u64 & mask) as int;
        if index < a.len() {
            rest.push(a[index])
        } else {
            rest
        }
    }
}

/// `s` cut to at most `n` characters.
pub open spec fn at_most(s: Seq<char>, n: nat) -> Seq<char> {
    if s.len() <= n {
        s
    } else {
        s.take(n as int)
    }
}

/// Every character of `s` occurs in `a`.
pub open spec fn drawn_from(s: Seq<char>, a: Seq<char>) -> bool {
    forall|i: int| 0 <= i < s.len() ==> a.contains(#[trigger] s[i])
}

/// The mask for rejection sampling over `alphabet_size` characters.
pub fn selection_mask_for(alphabet_size: usize) -> (r: u64)
    requires
        alphabet_size >= 2,
    ensures
        r == selection_mask(alphabet_size as nat),
{
    let top = (alphabet_size - 1) as u64;
    let mut x: u64 = top;
    let mut m: u64 = 0;
    let ghost mut k: nat = 0;
    proof {
        lemma2_to64();
    }
    while x > 0
        invariant
            top as nat == alphabet_size - 1,
            m == pow2(k) - 1,
            bit_width(top as nat) == k + bit_width(x as nat),
            x * pow2(k) <= top,
        decreases x,
    {
        proof {
            lemma_pow2_pos(k);
            lemma_pow2_unfold(k + 1);
            lemma_fundamental_div_mod(x as int, 2);
            assert((x / 2) as int * pow2(k + 1) <= x * pow2(k)) by (nonlinear_arith)
                requires
                    pow2(k + 1) == 2 * pow2(k),
                    x == 2 * (x / 2) + x % 2,
                    x % 2 >= 0,
                    pow2(k) > 0,
            ;
            assert(pow2(k) <= x * pow2(k)) by (nonlinear_arith)
                requires
                    x >= 1,
                    pow2(k) > 0,
            ;
            lemma2_to64();
            if k > 64 {
                lemma_pow2_strictly_increases(64, k);
            }
            assert(k < 64);
            lemma_pow2_strictly_increases(k, 64);
            assert(pow2(k + 1) <= pow2(64)) by {
                if k + 1 < 64 {
                    lemma_pow2_strictly_increases(k + 1, 64);
                }
            }
        }
        m = m * 2 + 1;
        x = x / 2;
        proof {
            k = k + 1;
        }
    }
    m
}

/// Appends to `out` the characters that `bytes` select from `alphabet`
/// under `mask`, in order, and stops once `out` holds `length` characters.
pub fn append_accepted(bytes: &Vec<u8>, mask: u64, alphabet: &str, length: usize, out: &mut Vec<char>)
    requires
        old(out)@.len() <= length,
    ensures
        final(out)@ == at_most(old(out)@ + accepted(bytes@, mask, alphabet@), length as nat),
{
    let ghost start = out@;
    let n = alphabet.unicode_len();
    let mut j: usize = 0;
    while j < bytes.len()
        invariant
            n as nat == alphabet@.len(),
            j <= bytes.len(),
            start.len() <= length,
            out@ == at_most(start + accepted(bytes@.take(j as int), mask, alphabet@), length as nat),
        decreases bytes.len() - j,
    {
        let ghost before = start + accepted(bytes@.take(j as int), mask, alphabet@);
        let index = (bytes[j] as u64) & mask;
        assert(bytes@.take(j + 1).drop_last() =~= bytes@.take(j as int));
        if index < n as u64 {
            let c = alphabet.get_char(index as usize);
            if out.len() < length {
                out.push(c);
            }
            proof {
                let after = before.push(c);
                assert(start + accepted(bytes@.take(j + 1), mask, alphabet@) =~= after);
                if before.len() < length {
                    assert(out@ =~= at_most(after, length as nat));
                } else {
                    assert(at_most(after, length as nat) =~= at_most(before, length as nat));
                }
            }
        }
        j += 1;
    }
    assert(bytes@.take(j as int) =~= bytes@);
}

/// Sampling two runs of bytes one after the other gives the characters of
/// the first followed by those of the second.
proof fn lemma_accepted_concat(x: Seq<u8>, y: Seq<u8>, mask: u64, a: Seq<char>)
    ensures
        accepted(x + y, mask, a) == accepted(x, mask, a) + accepted(y, mask, a),
    decreases y.len(),
{
    if y.len() == 0 {
        assert(x + y =~= x);
        assert(accepted(x, mask, a) + accepted(y, mask, a) =~= accepted(x, mask, a));
    } else {
        lemma_accepted_concat(x, y.drop_last(), mask, a);
        assert((x + y).drop_last() =~= x + y.drop_last());
        assert((x + y).last() == y.last());
        let index = (y.last() as u64 & mask) as int;
        if index < a.len() {
            assert(accepted(x, mask, a) + accepted(y.drop_last(), mask, a).push(a[index])
                =~= (accepted(x, mask, a) + accepted(y.drop_last(), mask, a)).push(a[index]));
        }
    }
}

/// Accepted characters are drawn from the alphabet.
proof fn lemma_accepted_drawn(bytes: Seq<u8>, mask: u64, a: Seq<char>)
    ensures
        drawn_from(accepted(bytes, mask, a), a),
    decreases bytes.len(),
{
    if bytes.len() > 0 {
        lemma_accepted_drawn(bytes.drop_last(), mask, a);
        let rest = accepted(bytes.drop_last(), mask, a);
        let index = (bytes.last() as u64 & mask) as int;
        if index < a.len() {
            assert forall|i: int| 0 <= i < rest.len() + 1 implies a.contains(
                #[trigger] rest.push(a[index])[i],
            ) by {
                if i < rest.len() {
                    assert(a.contains(rest[i]));
                } else {
                    assert(a[index] == rest.push(a[index])[i]);
                }
            }
        }
    }
}

/// The largest random segment that can be asked for: its batches of
/// `2 * length` bytes must be accepted by the pool.
pub const MAX_RANDOM_LENGTH: usize = MAX_TAKE / 2;

/// How many batches one random segment may draw before the source is
/// deemed broken. A byte is rejected with probability below one half, so a
/// working source never comes near this bound.
pub const MAX_BATCHES: usize = 64;

/// The `size` bytes that the next request to `p` hands out where it needs
/// neither a new buffer nor a refill.
pub open spec fn next_batch(p: EntropyPool, size: nat) -> Seq<u8> {
    p.bytes().subrange(p.position() as int, (p.position() + size) as int)
}

/// The characters that rejection sampling over `a` makes of the next batch
/// of `2 * length` bytes of `p`.
pub open spec fn first_batch_accepted(p: EntropyPool, a: Seq<char>, length: nat) -> Seq<char> {
    accepted(next_batch(p, 2 * length), selection_mask(a.len()) as u64, a)
}

/// `p` serves the next batch of `2 * length` bytes without a new buffer or a
/// refill, and that batch yields at least `length` characters of `a`.
pub open spec fn first_batch_suffices(p: EntropyPool, a: Seq<char>, length: nat) -> bool {
    &&& !p.needs_new_buffer(2 * length)
    &&& !p.needs_refill(2 * length)
    &&& first_batch_accepted(p, a, length).len() >= length
}

/// The first `length` characters of `first_batch_accepted`.
pub open spec fn first_batch_text(p: EntropyPool, a: Seq<char>, length: nat) -> Seq<char> {
    first_batch_accepted(p, a, length).take(length as int)
}

/// `s` is the first `length` characters that rejection sampling over `a`
/// makes of `bytes`, which are `k` batches of `2 * length` bytes, each batch
/// drawn only after the ones before it fell short.
pub open spec fn batches_drawn(s: Seq<char>, bytes: Seq<u8>, k: nat, a: Seq<char>, length: nat) -> bool {
    let mask = selection_mask(a.len()) as u64;
    &&& 1 <= k <= MAX_BATCHES
    &&& bytes.len() == k * (2 * length)
    &&& s == accepted(bytes, mask, a).take(length as int)
    &&& accepted(bytes.take(bytes.len() - 2 * length), mask, a).len() < length
}

/// Where `length` is positive, `s` is what rejection sampling over `a` made
/// of some batches, as `batches_drawn` says.
pub open spec fn sampled_in_batches(s: Seq<char>, a: Seq<char>, length: nat) -> bool {
    length > 0 ==> exists|bytes: Seq<u8>, k: nat| #[trigger] batches_drawn(s, bytes, k, a, length)
}

/// Some `MAX_BATCHES` batches of `2 * length` bytes all fall short of
/// `length` accepted characters over `a`.
pub open spec fn exhausted(a: Seq<char>, length: nat) -> bool {
    exists|bytes: Seq<u8>|
        bytes.len() == MAX_BATCHES * (2 * length) && #[trigger] accepted(
            bytes,
            selection_mask(a.len()) as u64,
            a,
        ).len() < length
}

/// A string of `length` characters of `alphabet`, each chosen by rejection
/// sampling over bytes from `pool`, which are drawn in batches of
/// `2 * length`. A zero length draws nothing. Where the pool can serve the
/// first batch without a refill and that batch yields enough characters,
/// the result is taken from it alone.
pub fn generate_random_string(pool: &mut EntropyPool, length: usize, alphabet: &str) -> (r: Result<String, TempoIdError>)
    requires
        old(pool).wf(),
        alphabet@.len() >= 2,
        length <= MAX_RANDOM_LENGTH,
    ensures
        final(pool).wf(),
        length == 0 ==> (r matches Ok(s) && s@.len() == 0 && *final(pool) == *old(pool)),
        first_batch_suffices(*old(pool), alphabet@, length as nat) ==> {
            &&& (r matches Ok(s) && s@ == first_batch_text(*old(pool), alphabet@, length as nat))
            &&& final(pool).bytes() == old(pool).bytes()
            &&& final(pool).position() == old(pool).position() + 2 * length
        },
        match r {
            Ok(s) => {
                &&& s@.len() == length
                &&& drawn_from(s@, alphabet@)
                &&& sampled_in_batches(s@, alphabet@, length as nat)
            },
            Err(e) => e == TempoIdError::EntropyUnavailable || (e == TempoIdError::EntropyExhausted
                && exhausted(alphabet@, length as nat)),
        },
{
    let ghost start_pool = *pool;
    let ghost size = (2 * length) as nat;
    let mask = selection_mask_for(alphabet.unicode_len());
    let ghost first_fits = first_batch_suffices(start_pool, alphabet@, length as nat);
    let mut chars: Vec<char> = Vec::new();
    let mut batches: usize = 0;
    let ghost mut consumed: Seq<u8> = Seq::empty();
    while chars.len() < length
        invariant
            pool.wf(),
            size == 2 * length,
            mask == selection_mask(alphabet@.len()) as u64,
            chars@ == at_most(accepted(consumed, mask, alphabet@), length as nat),
            length <= MAX_RANDOM_LENGTH,
            chars@.len() <= length,
            drawn_from(chars@, alphabet@),
            batches <= MAX_BATCHES,
            consumed.len() == batches * size,
            batches > 0 ==> accepted(consumed.take(consumed.len() - size), mask, alphabet@).len()
                < length,
            start_pool == *old(pool),
            first_fits == first_batch_suffices(start_pool, alphabet@, length as nat),
            batches == 0 ==> *pool == start_pool,
            first_fits && batches > 0 ==> {
                &&& chars@ == accepted(next_batch(start_pool, size), mask, alphabet@).take(
                    length as int,
                )
                &&& chars@.len() == length
                &&& pool.bytes() == start_pool.bytes()
                &&& pool.position() == start_pool.position() + size
            },
        decreases MAX_BATCHES - batches,
    {
        if batches == MAX_BATCHES {
            proof {
                assert(accepted(consumed, mask, alphabet@).len() < length);
                assert(!first_fits);
            }
            return Err(TempoIdError::EntropyExhausted);
        }
        let ghost pool_before = *pool;
        let bytes = match pool.take(length * 2) {
            Ok(b) => b,
            Err(e) => {
                assert(!first_fits);
                return Err(e);
            },
        };
        let ghost before = chars@;
        append_accepted(&bytes, mask, alphabet, length, &mut chars);
        proof {
            assert(before == accepted(consumed, mask, alphabet@));
            lemma_accepted_concat(consumed, bytes@, mask, alphabet@);
            let prev = consumed;
            consumed = consumed + bytes@;
            assert(consumed.take(consumed.len() - size) =~= prev);
            assert(consumed.len() == (batches + 1) * size) by (nonlinear_arith)
                requires
                    consumed.len() == prev.len() + size,
                    prev.len() == batches * size,
            ;
            if first_fits && batches == 0 {
                assert(bytes@ =~= next_batch(start_pool, size));
                assert(prev =~= Seq::<u8>::empty());
                assert(accepted(prev, mask, alphabet@) =~= Seq::<char>::empty());
                assert(before + accepted(bytes@, mask, alphabet@) =~= accepted(bytes@, mask, alphabet@));
            }
            lemma_accepted_drawn(bytes@, mask, alphabet@);
            let all = before + accepted(bytes@, mask, alphabet@);
            assert forall|i: int| 0 <= i < all.len() implies alphabet@.contains(#[trigger] all[i]) by {
                if i >= before.len() {
                    assert(all[i] == accepted(bytes@, mask, alphabet@)[i - before.len()]);
                }
            }
            if all.len() > length {
                assert forall|i: int| 0 <= i < chars@.len() implies alphabet@.contains(
                    #[trigger] chars@[i],
                ) by {
                    assert(chars@[i] == all[i]);
                }
            }
        }
        batches += 1;
    }
    assert(chars@ =~= accepted(consumed, mask, alphabet@).take(length as int));
    proof {
        if length > 0 {
            assert(batches_drawn(chars@, consumed, batches as nat, alphabet@, length as nat));
            assert(sampled_in_batches(chars@, alphabet@, length as nat));
        }
    }
    Ok(string_from_chars(&chars))
}

} // verus!
