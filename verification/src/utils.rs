//! Paths, tokens and the modem's signal report.

use nanorand::{Rng, WyRand};
use vstd::prelude::*;
use vstd::string::*;

pub use crate::signal::get_signal_strength;
use crate::LightDBType;

verus! {

/// What a path of the given kind of store starts with.
pub open spec fn path_prefix(db_type: LightDBType) -> Seq<char> {
    match db_type {
        LightDBType::State => seq!['.', 'd', '/'],
        LightDBType::Stream => seq!['.', 's', '/'],
    }
}

/// The full path of a value: the prefix of its store, then the path within it.
pub open spec fn formatted_path(db_type: LightDBType, path: Seq<char>) -> Seq<char> {
    path_prefix(db_type) + path
}

/// Puts the prefix of the store in front of `path`: `.d/` for state, `.s/` for stream.
pub fn get_formatted_path(db_type: LightDBType, path: &str) -> (formatted: String)
    ensures
        formatted@ == formatted_path(db_type, path@),
        formatted@ == seq![
            '.',
            if db_type is State {
                'd'
            } else {
                's'
            },
            '/',
        ] + path@,
{
    proof {
        reveal_strlit(".d/");
        reveal_strlit(".s/");
    }
    let mut formatted = match db_type {
        LightDBType::State => ".d/".to_owned(),
        LightDBType::Stream => ".s/".to_owned(),
    };
    formatted.append(path);
    assert(formatted@ =~= formatted_path(db_type, path@));
    formatted
}

/// The first number that WyRand gives when it starts from `seed`.
pub open spec fn wyrand(seed: u64) -> u64 {
    let state = ((seed + 0xa0761d6478bd642f) % 0x1_0000_0000_0000_0000) as u64;
    let product = (state * (state ^ 0xe7037ed1a0b428db)) as u128;
    ((product >> 64) ^ product) as u64
}

/// The memory representation of `value` on the machine that runs the code.
pub open spec fn native_bytes(value: u64) -> Seq<u8> {
    match vstd::endian::endianness() {
        vstd::endian::Endian::Little => vstd::bytes::spec_u64_to_le_bytes(value),
        vstd::endian::Endian::Big => vstd::bytes::spec_u64_to_le_bytes(value).reverse(),
    }
}

/// The token of a request that is made when the clock shows `ticks`.
pub open spec fn token_of(ticks: u64) -> Seq<u8> {
    native_bytes(wyrand(ticks))
}

/// `u64::to_ne_bytes` gives the number's bytes in the byte order of the machine.
#[verifier::external_body]
fn to_ne_bytes(value: u64) -> (bytes: [u8; 8])
    ensures
        bytes@ == native_bytes(value),
{
    value.to_ne_bytes()
}

/// Seeds nanorand's generator with `WyRand::new_seed` and draws one number with
/// `Rng::generate::<u64>`. The draw steps the seed, multiplies it in 128 bits with a mask of
/// itself, and folds the two halves of the product together.
#[verifier::external_body]
fn wyrand_u64(seed: u64) -> (number: u64)
    ensures
        number == wyrand(seed),
{
    WyRand::new_seed(seed).generate::<u64>()
}

/// Reads the clock with embassy-time's `Instant::now` and `Instant::as_ticks`. Nothing is said of
/// what it shows.
#[verifier::external_body]
fn now_ticks() -> (ticks: u64) {
    embassy_time::Instant::now().as_ticks()
}

/// The token of a request that is made when the clock shows `ticks`.
pub fn token_at(ticks: u64) -> (token: [u8; 8])
    ensures
        token@ == token_of(ticks),
{
    to_ne_bytes(wyrand_u64(ticks))
}

/// The nRF9160 does not have a RNG peripheral.  To bypass using the Cryptocell C-lib
/// we can just use the current uptime ticks u64 value as a way to create a unique "enough"
/// token as to not be easily spoofed.
pub fn create_token() -> (token: [u8; 8])
    ensures
        exists|ticks: u64| token@ == #[trigger] token_of(ticks),
{
    token_at(now_ticks())
}

} // verus!
