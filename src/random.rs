//! Random values for scripts: a number in a range, and identifiers of letters
//! and digits. A seed text makes the draws repeatable.
use vstd::prelude::*;
use crate::runtime::rand_range;

verus! {

#[verifier::external_type_specification]
#[verifier::external_body]
pub struct ExStdRng(rand::rngs::StdRng);

/// Relies on std's `BuildHasher::hash_one` with the default hasher: a number
/// derived from the seed text.
#[verifier::external_body]
fn seed_number(s: &str) -> u64 {
    std::hash::BuildHasher::hash_one(
        &std::hash::BuildHasherDefault::<std::collections::hash_map::DefaultHasher>::default(),
        s,
    )
}

/// Relies on rand's `SeedableRng::seed_from_u64`.
#[verifier::external_body]
fn seeded_generator(seed: u64) -> rand::rngs::StdRng {
    <rand::rngs::StdRng as rand::SeedableRng>::seed_from_u64(seed)
}

/// Relies on rand's `SeedableRng::from_entropy`: a generator seeded from the
/// operating system.
#[verifier::external_body]
fn fresh_generator() -> rand::rngs::StdRng {
    <rand::rngs::StdRng as rand::SeedableRng>::from_entropy()
}

/// Relies on rand's `Rng::gen_range` over `low..=high`: a value in the range
/// (it panics on an empty range, which `requires` leaves out).
#[verifier::external_body]
fn draw_between(rng: &mut rand::rngs::StdRng, low: usize, high: usize) -> (r: usize)
    requires
        low <= high,
    ensures
        low <= r <= high,
{
    rand::Rng::gen_range(rng, low..=high)
}

/// Relies on rand's `Alphanumeric` distribution, sampled through `Rng::sample`:
/// an ASCII letter or digit.
#[verifier::external_body]
fn draw_alphanumeric(rng: &mut rand::rngs::StdRng) -> (r: char)
    ensures
        is_alphanumeric(r),
{
    rand::Rng::sample(rng, rand::distributions::Alphanumeric) as char
}

/// An ASCII letter or digit.
pub open spec fn is_alphanumeric(c: char) -> bool {
    ('0' <= c && c <= '9') || ('a' <= c && c <= 'z') || ('A' <= c && c <= 'Z')
}

fn generator(seed: &Option<String>) -> rand::rngs::StdRng {
    match seed {
        Some(s) => seeded_generator(seed_number(s.as_str())),
        None => fresh_generator(),
    }
}

/// A random value between `min` and `max`, both included, in either order.
pub fn rand_from(min: usize, max: usize, seed: Option<String>) -> (r: usize)
    ensures
        min <= max ==> min <= r <= max,
        max <= min ==> max <= r <= min,
{
    match rand_range(min, max) {
        None => min,
        Some((low, high)) => {
            let mut rng = generator(&seed);
            draw_between(&mut rng, low, high)
        },
    }
}

/// `length` random letters and digits (none for a length below one).
pub fn gen_uid(length: i32, seed: Option<String>) -> (r: String)
    ensures
        r@.len() == if length > 0 { length as int } else { 0 },
        forall|i: int| 0 <= i < r@.len() ==> is_alphanumeric(#[trigger] r@[i]),
{
    let mut rng = generator(&seed);
    let mut out: Vec<char> = Vec::new();
    let mut i: i32 = 0;
    while i < length
        invariant
            0 <= i,
            length > 0 ==> i <= length,
            length <= 0 ==> i == 0,
            out@.len() == i,
            forall|k: int| 0 <= k < out@.len() ==> is_alphanumeric(#[trigger] out@[k]),
        decreases length - i,
    {
        out.push(draw_alphanumeric(&mut rng));
        i = i + 1;
    }
    crate::text::string_of(&out)
}

} // verus!
