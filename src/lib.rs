//! Compact identifiers made of a time-derived prefix and a random suffix,
//! both written over a configurable alphabet.
pub mod alphabet;
pub mod codec;
pub mod error;
pub mod pool;
pub mod sampler;
pub mod timestamp;

use crate::alphabet::DEFAULT_ALPHABET;
use crate::error::TempoIdError;
use crate::pool::EntropyPool;
use crate::sampler::{drawn_from, sampled_in_batches, exhausted, generate_random_string, MAX_RANDOM_LENGTH};
use crate::timestamp::{effective_time, generate_time, lemma_time_segment_shape, time_segment};
use vstd::prelude::*;

verus! {

/// How an identifier is made: the widths of its two segments, the
/// timestamp (the wall clock where `time` is `None`), an offset subtracted
/// from it, whether the time segment is padded to its full width, and the
/// alphabet of both segments.
#[derive(Clone)]
pub struct TempoIdOptions {
    pub time_length: usize,
    pub random_length: usize,
    pub time: Option<u64>,
    pub start_time: Option<u64>,
    pub pad_left: bool,
    pub alphabet: &'static str,
}

impl Default for TempoIdOptions {
    fn default() -> (r: Self)
        ensures
            r == default_options(),
    {
        TempoIdOptions {
            time_length: 8,
            random_length: 13,
            time: None,
            start_time: None,
            pad_left: true,
            alphabet: DEFAULT_ALPHABET,
        }
    }
}

/// The defaults: a time segment of 8 characters, padded, over the wall
/// clock; a random segment of 13; the alphanumeric alphabet.
pub open spec fn default_options() -> TempoIdOptions {
    TempoIdOptions {
        time_length: 8,
        random_length: 13,
        time: None,
        start_time: None,
        pad_left: true,
        alphabet: DEFAULT_ALPHABET,
    }
}

/// `s` is an identifier made under `o`, with `now` as the wall clock where
/// `o` gives no time: the time segment followed by `o.random_length`
/// characters that rejection sampling drew from the alphabet.
pub open spec fn is_identifier(s: Seq<char>, o: TempoIdOptions, now: u64) -> bool {
    let t = match o.time {
        Some(t) => t,
        None => now,
    };
    let ts = time_segment(
        o.time_length as nat,
        effective_time(t, o.start_time) as nat,
        o.pad_left,
        o.alphabet@,
    );
    &&& s.len() == ts.len() + o.random_length
    &&& s.subrange(0, ts.len() as int) == ts
    &&& drawn_from(s.subrange(ts.len() as int, s.len() as int), o.alphabet@)
    &&& sampled_in_batches(
        s.subrange(ts.len() as int, s.len() as int),
        o.alphabet@,
        o.random_length as nat,
    )
}

/// What every identifier made under `o` satisfies, whatever the clock and
/// the random source gave.
pub open spec fn identifier_ok(s: Seq<char>, o: TempoIdOptions) -> bool {
    &&& exists|now: u64| #[trigger] is_identifier(s, o, now)
    &&& drawn_from(s, o.alphabet@)
    &&& o.pad_left ==> s.len() == o.time_length + o.random_length
}

/// What a call under `o` may return: the identifier, the alphabet error
/// exactly where the alphabet has fewer than two characters, or an entropy
/// error. With a valid alphabet and no random segment nothing is drawn, so
/// the call succeeds; the sampler gives up only after every allowed batch
/// fell short.
pub open spec fn outcome_ok(r: Result<Seq<char>, TempoIdError>, o: TempoIdOptions) -> bool {
    &&& (o.alphabet@.len() < 2 <==> r == Err::<Seq<char>, TempoIdError>(
        TempoIdError::InvalidAlphabet,
    ))
    &&& (o.alphabet@.len() >= 2 && o.random_length == 0 ==> r is Ok)
    &&& match r {
        Ok(s) => identifier_ok(s, o),
        Err(e) => e == TempoIdError::InvalidAlphabet || e == TempoIdError::EntropyUnavailable
            || (e == TempoIdError::EntropyExhausted && exhausted(
            o.alphabet@,
            o.random_length as nat,
        )),
    }
}

/// The characters of a returned string, or the error.
pub open spec fn text_of(r: Result<String, TempoIdError>) -> Result<Seq<char>, TempoIdError> {
    match r {
        Ok(s) => Ok(s@),
        Err(e) => Err(e),
    }
}

/// Makes an identifier under `options`, drawing its random bytes from
/// `pool`: the time segment followed by the random segment.
pub fn tempo_id_from_pool(pool: &mut EntropyPool, options: &TempoIdOptions) -> (r: Result<String, TempoIdError>)
    requires
        old(pool).wf(),
        options.random_length <= MAX_RANDOM_LENGTH,
    ensures
        final(pool).wf(),
        outcome_ok(text_of(r), *options),
{
    let alphabet = options.alphabet;
    if alphabet.unicode_len() < 2 {
        return Err(TempoIdError::InvalidAlphabet);
    }
    let random_part = match generate_random_string(pool, options.random_length, alphabet) {
        Ok(s) => s,
        Err(e) => {
            return Err(e);
        },
    };
    let mut id = generate_time(
        options.time_length,
        options.time,
        options.start_time,
        options.pad_left,
        alphabet,
    );
    let ghost ts = id@;
    id.append(random_part.as_str());
    proof {
        let o = *options;
        let a = alphabet@;
        let now: u64 = match o.time {
            Some(t) => t,
            None => choose|now: u64|
                ts == time_segment(
                    o.time_length as nat,
                    #[trigger] effective_time(now, o.start_time) as nat,
                    o.pad_left,
                    a,
                ),
        };
        let t = match o.time {
            Some(t) => t,
            None => now,
        };
        assert(ts == time_segment(o.time_length as nat, effective_time(t, o.start_time) as nat, o.pad_left, a));
        lemma_time_segment_shape(o.time_length as nat, effective_time(t, o.start_time) as nat, o.pad_left, a);
        assert(id@.subrange(0, ts.len() as int) =~= ts);
        assert(id@.subrange(ts.len() as int, id@.len() as int) =~= random_part@);
        assert(id@.subrange(ts.len() as int, id@.len() as int) == random_part@);
        assert(is_identifier(id@, o, now));
        assert forall|i: int| 0 <= i < id@.len() implies a.contains(#[trigger] id@[i]) by {
            if i < ts.len() {
                assert(id@[i] == ts[i]);
            } else {
                assert(id@[i] == random_part@[i - ts.len()]);
            }
        }
    }
    Ok(id)
}

/// Makes an identifier under `options`, or under the defaults where it is
/// `None`, with a pool of its own.
pub fn tempo_id(options: Option<TempoIdOptions>) -> (r: Result<String, TempoIdError>)
    requires
        match options {
            Some(o) => o.random_length <= MAX_RANDOM_LENGTH,
            None => true,
        },
    ensures
        match options {
            Some(o) => outcome_ok(text_of(r), o),
            None => outcome_ok(text_of(r), default_options()),
        },
{
    let options = match options {
        Some(o) => o,
        None => TempoIdOptions::default(),
    };
    let mut pool = EntropyPool::new();
    tempo_id_from_pool(&mut pool, &options)
}

/// An identifier: a time segment followed by a random segment.
#[derive(PartialEq, Eq, PartialOrd, Ord, Clone, Debug)]
pub struct TempoId {
    inner: String,
}

impl View for TempoId {
    type V = Seq<char>;

    closed spec fn view(&self) -> Seq<char> {
        self.inner@
    }
}

/// The characters of a returned identifier, or the error.
pub open spec fn id_text(r: Result<TempoId, TempoIdError>) -> Result<Seq<char>, TempoIdError> {
    match r {
        Ok(id) => Ok(id@),
        Err(e) => Err(e),
    }
}

proof fn lemma_default_alphabet_size()
    ensures
        DEFAULT_ALPHABET@.len() == 62,
{
    reveal_strlit("0123456789AaBbCcDdEeFfGgHhIiJjKkLlMmNnOoPpQqRrSsTtUuVvWwXxYyZz");
}

impl TempoId {
    /// An identifier under the defaults.
    pub fn generate() -> (r: Result<TempoId, TempoIdError>)
        ensures
            match r {
                Ok(id) => identifier_ok(id@, default_options()) && id@.len() == 21,
                Err(e) => e == TempoIdError::EntropyUnavailable || (e == TempoIdError::EntropyExhausted
                    && exhausted(DEFAULT_ALPHABET@, 13)),
            },
    {
        proof {
            lemma_default_alphabet_size();
        }
        match tempo_id(None) {
            Ok(inner) => Ok(TempoId { inner }),
            Err(e) => Err(e),
        }
    }

    /// An identifier under the defaults but for the alphabet.
    pub fn generate_with_alphabet(alphabet: &'static str) -> (r: Result<TempoId, TempoIdError>)
        ensures
            outcome_ok(
                id_text(r),
                TempoIdOptions { alphabet, ..default_options() },
            ),
    {
        let options = TempoIdOptions { alphabet, ..TempoIdOptions::default() };
        match tempo_id(Some(options)) {
            Ok(inner) => Ok(TempoId { inner }),
            Err(e) => Err(e),
        }
    }

    /// An identifier under `options`.
    pub fn generate_custom(options: TempoIdOptions) -> (r: Result<TempoId, TempoIdError>)
        requires
            options.random_length <= MAX_RANDOM_LENGTH,
        ensures
            outcome_ok(id_text(r), options),
            match r {
                Ok(id) => {
                    &&& options.pad_left ==> id@.len() == options.time_length
                        + options.random_length
                    &&& options.time_length == 0 ==> id@.len() == options.random_length
                        && drawn_from(id@, options.alphabet@)
                },
                Err(_) => true,
            },
    {
        match tempo_id(Some(options)) {
            Ok(inner) => Ok(TempoId { inner }),
            Err(e) => Err(e),
        }
    }

    /// An identifier under `options`, its random bytes drawn from `pool`,
    /// so that many identifiers share the pool's batches.
    pub fn generate_from_pool(pool: &mut EntropyPool, options: &TempoIdOptions) -> (r: Result<
        TempoId,
        TempoIdError,
    >)
        requires
            old(pool).wf(),
            options.random_length <= MAX_RANDOM_LENGTH,
        ensures
            final(pool).wf(),
            outcome_ok(id_text(r), *options),
    {
        match tempo_id_from_pool(pool, options) {
            Ok(inner) => Ok(TempoId { inner }),
            Err(e) => Err(e),
        }
    }

    /// Wraps `id` as it is, with no validation of its length or characters.
    pub fn parse(id: &str) -> (r: TempoId)
        ensures
            r@ == id@,
    {
        TempoId { inner: id.to_owned() }
    }

    /// The identifier's characters.
    pub fn to_string(&self) -> (r: String)
        ensures
            r@ == self@,
    {
        self.inner.clone()
    }
}

} // verus!
