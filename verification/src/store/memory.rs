//! Fingerprints of limiter parameters, by which the in-memory store notices
//! that a rule's limiter must be rebuilt.
use crate::algorithm::{AlgorithmConfig, AlgorithmType};
use std::collections::hash_map::DefaultHasher;
use std::hash::Hasher;
use vstd::bytes::{
    lemma_auto_spec_u128_to_from_le_bytes, lemma_auto_spec_u64_to_from_le_bytes,
    spec_u128_from_le_bytes, spec_u128_to_le_bytes, spec_u64_from_le_bytes, spec_u64_to_le_bytes,
    u128_to_le_bytes, u64_to_le_bytes,
};
use vstd::prelude::*;
use vstd::std_specs::hash::DefaultHasherAdditionalSpecFns;

verus! {

/// Number of an algorithm, in declaration order.
pub open spec fn algorithm_index(a: AlgorithmType) -> u64 {
    match a {
        AlgorithmType::FixedWindow => 0,
        AlgorithmType::SlidingWindow => 1,
        AlgorithmType::TokenBucket => 2,
    }
}

/// The bytes of an optional count: a tag, then the count when there is one.
pub open spec fn option_bytes(o: Option<u64>) -> Seq<Seq<u8>> {
    match o {
        Some(v) => seq![spec_u64_to_le_bytes(1), spec_u64_to_le_bytes(v)],
        None => seq![spec_u64_to_le_bytes(0)],
    }
}

/// The byte strings fed to the hasher for `config`, in order: algorithm,
/// limit, window in milliseconds, rate, capacity, and the warmup in
/// milliseconds when there is one.
pub open spec fn fingerprint_input(config: AlgorithmConfig) -> Seq<Seq<u8>> {
    seq![
        spec_u64_to_le_bytes(algorithm_index(config.algorithm)),
        spec_u64_to_le_bytes(config.limit),
        spec_u128_to_le_bytes(config.window_size.millis() as u128),
    ] + option_bytes(config.rate) + option_bytes(config.capacity) + match config.warmup_period {
        Some(w) => seq![spec_u128_to_le_bytes(w.millis() as u128)],
        None => Seq::empty(),
    }
}

/// Two configurations that a limiter treats alike: same algorithm, limit,
/// rate and capacity, and the same window and warmup in milliseconds.
pub open spec fn same_limiter_params(a: AlgorithmConfig, b: AlgorithmConfig) -> bool {
    &&& a.algorithm == b.algorithm
    &&& a.limit == b.limit
    &&& a.window_size.millis() == b.window_size.millis()
    &&& a.rate == b.rate
    &&& a.capacity == b.capacity
    &&& match (a.warmup_period, b.warmup_period) {
        (Some(x), Some(y)) => x.millis() == y.millis(),
        (None, None) => true,
        _ => false,
    }
}

proof fn lemma_u64_bytes_injective(x: u64, y: u64)
    requires
        spec_u64_to_le_bytes(x) == spec_u64_to_le_bytes(y),
    ensures
        x == y,
{
    lemma_auto_spec_u64_to_from_le_bytes();
    assert(spec_u64_from_le_bytes(spec_u64_to_le_bytes(x)) == x);
    assert(spec_u64_from_le_bytes(spec_u64_to_le_bytes(y)) == y);
}

proof fn lemma_millis_bytes_injective(a: crate::time::Duration, b: crate::time::Duration)
    requires
        spec_u128_to_le_bytes(a.millis() as u128) == spec_u128_to_le_bytes(b.millis() as u128),
    ensures
        a.millis() == b.millis(),
{
    lemma_auto_spec_u128_to_from_le_bytes();
    let x = a.millis() as u128;
    let y = b.millis() as u128;
    assert(spec_u128_to_le_bytes(x).len() == 16);
    assert(spec_u128_to_le_bytes(y).len() == 16);
    assert(a.millis() <= u64::MAX * 1000 + 4295);
    assert(b.millis() <= u64::MAX * 1000 + 4295);
}

proof fn lemma_option_bytes_split(x: Option<u64>, y: Option<u64>, rx: Seq<Seq<u8>>, ry: Seq<Seq<u8>>)
    requires
        option_bytes(x) + rx == option_bytes(y) + ry,
    ensures
        x == y,
        rx == ry,
{
    let s = option_bytes(x) + rx;
    assert(s[0] == option_bytes(x)[0]);
    assert(s[0] == option_bytes(y)[0]);
    match (x, y) {
        (Some(vx), Some(vy)) => {
            assert(s[1] == option_bytes(x)[1]);
            assert(s[1] == option_bytes(y)[1]);
            lemma_u64_bytes_injective(vx, vy);
        },
        (None, None) => {},
        (Some(_), None) => {
            lemma_u64_bytes_injective(1, 0);
        },
        (None, Some(_)) => {
            lemma_u64_bytes_injective(0, 1);
        },
    }
    assert(rx =~= s.subrange(option_bytes(x).len() as int, s.len() as int));
    assert(ry =~= s.subrange(option_bytes(y).len() as int, s.len() as int));
}

/// The bytes fed for the warmup: its milliseconds when there is one.
pub open spec fn warmup_bytes(w: Option<crate::time::Duration>) -> Seq<Seq<u8>> {
    match w {
        Some(d) => seq![spec_u128_to_le_bytes(d.millis() as u128)],
        None => Seq::empty(),
    }
}

proof fn lemma_input_parts(c: AlgorithmConfig)
    ensures
        fingerprint_input(c) =~= seq![
            spec_u64_to_le_bytes(algorithm_index(c.algorithm)),
            spec_u64_to_le_bytes(c.limit),
            spec_u128_to_le_bytes(c.window_size.millis() as u128),
        ] + (option_bytes(c.rate) + (option_bytes(c.capacity) + warmup_bytes(c.warmup_period))),
{
}

proof fn lemma_input_determines_params(a: AlgorithmConfig, b: AlgorithmConfig)
    requires
        fingerprint_input(a) == fingerprint_input(b),
    ensures
        same_limiter_params(a, b),
{
    lemma_input_parts(a);
    lemma_input_parts(b);
    let s = fingerprint_input(a);
    let tail_a = option_bytes(a.rate) + (option_bytes(a.capacity) + warmup_bytes(a.warmup_period));
    let tail_b = option_bytes(b.rate) + (option_bytes(b.capacity) + warmup_bytes(b.warmup_period));
    let head_a = seq![
        spec_u64_to_le_bytes(algorithm_index(a.algorithm)),
        spec_u64_to_le_bytes(a.limit),
        spec_u128_to_le_bytes(a.window_size.millis() as u128),
    ];
    let head_b = seq![
        spec_u64_to_le_bytes(algorithm_index(b.algorithm)),
        spec_u64_to_le_bytes(b.limit),
        spec_u128_to_le_bytes(b.window_size.millis() as u128),
    ];
    assert(s[0] == head_a[0] && s[0] == head_b[0]);
    assert(s[1] == head_a[1] && s[1] == head_b[1]);
    assert(s[2] == head_a[2] && s[2] == head_b[2]);
    lemma_u64_bytes_injective(algorithm_index(a.algorithm), algorithm_index(b.algorithm));
    lemma_u64_bytes_injective(a.limit, b.limit);
    lemma_millis_bytes_injective(a.window_size, b.window_size);
    assert(tail_a =~= s.subrange(3, s.len() as int));
    assert(tail_b =~= s.subrange(3, s.len() as int));
    lemma_option_bytes_split(
        a.rate,
        b.rate,
        option_bytes(a.capacity) + warmup_bytes(a.warmup_period),
        option_bytes(b.capacity) + warmup_bytes(b.warmup_period),
    );
    lemma_option_bytes_split(a.capacity, b.capacity, warmup_bytes(a.warmup_period), warmup_bytes(b.warmup_period));
    match (a.warmup_period, b.warmup_period) {
        (Some(x), Some(y)) => {
            assert(warmup_bytes(a.warmup_period)[0] == warmup_bytes(b.warmup_period)[0]);
            lemma_millis_bytes_injective(x, y);
        },
        (None, None) => {},
        _ => {
            assert(warmup_bytes(a.warmup_period).len() != warmup_bytes(b.warmup_period).len());
        },
    }
}

/// The hasher is fed the same bytes exactly when the limiter parameters are
/// alike: a change of algorithm, limit, window, rate, capacity or warmup
/// changes what is hashed, so only a hash collision can keep a limiter whose
/// parameters changed.
pub proof fn law_fingerprint_input_tells_configs_apart(a: AlgorithmConfig, b: AlgorithmConfig)
    ensures
        (fingerprint_input(a) == fingerprint_input(b)) <==> same_limiter_params(a, b),
{
    if fingerprint_input(a) == fingerprint_input(b) {
        lemma_input_determines_params(a, b);
    }
    if same_limiter_params(a, b) {
        lemma_input_parts(a);
        lemma_input_parts(b);
        assert(warmup_bytes(a.warmup_period) =~= warmup_bytes(b.warmup_period));
        assert(fingerprint_input(a) =~= fingerprint_input(b));
    }
}

fn write_option(hasher: &mut DefaultHasher, o: Option<u64>)
    ensures
        final(hasher)@ == old(hasher)@ + option_bytes(o),
{
    match o {
        Some(v) => {
            let tag = u64_to_le_bytes(1);
            hasher.write(tag.as_slice());
            let b = u64_to_le_bytes(v);
            hasher.write(b.as_slice());
        },
        None => {
            let tag = u64_to_le_bytes(0);
            hasher.write(tag.as_slice());
        },
    }
}

/// A hash of the parameters of a limiter: equal parameters give equal
/// fingerprints.
pub fn config_fingerprint(config: &AlgorithmConfig) -> (fp: u64)
    ensures
        fp == DefaultHasher::spec_finish(fingerprint_input(*config)),
{
    let mut hasher = DefaultHasher::new();
    let index: u64 = match config.algorithm {
        AlgorithmType::FixedWindow => 0,
        AlgorithmType::SlidingWindow => 1,
        AlgorithmType::TokenBucket => 2,
    };
    let b = u64_to_le_bytes(index);
    hasher.write(b.as_slice());
    let b = u64_to_le_bytes(config.limit);
    hasher.write(b.as_slice());
    let b = u128_to_le_bytes(config.window_size.as_millis());
    hasher.write(b.as_slice());
    write_option(&mut hasher, config.rate);
    write_option(&mut hasher, config.capacity);
    if let Some(w) = config.warmup_period {
        let b = u128_to_le_bytes(w.as_millis());
        hasher.write(b.as_slice());
    }
    proof {
        assert(hasher@ =~= fingerprint_input(*config));
    }
    hasher.finish()
}

} // verus!
