//! The full deck and its shuffle.

use crate::game::{Card, Suit};
use vstd::prelude::*;

verus! {

/// The suit of the `k`-th block of thirteen cards in a fresh deck.
pub open spec fn suit_at(k: int) -> Suit {
    if k == 0 {
        Suit::Clubs
    } else if k == 1 {
        Suit::Diamonds
    } else if k == 2 {
        Suit::Hearts
    } else {
        Suit::Spades
    }
}

/// A fresh deck: clubs, diamonds, hearts, spades, each from Ace (1) to
/// King (13).
pub open spec fn full_deck_seq() -> Seq<Card> {
    Seq::new(52, |i: int| Card { suit: suit_at(i / 13), rank: (i % 13 + 1) as u8 })
}

/// Builds a fresh, ordered deck of the fifty-two cards.
pub fn full_deck() -> (deck: Vec<Card>)
    ensures
        deck@ == full_deck_seq(),
{
    let mut deck: Vec<Card> = Vec::with_capacity(52);
    let suits = [Suit::Clubs, Suit::Diamonds, Suit::Hearts, Suit::Spades];
    let mut s: usize = 0;
    while s < 4
        invariant
            s <= 4,
            suits@ == seq![Suit::Clubs, Suit::Diamonds, Suit::Hearts, Suit::Spades],
            deck@.len() == 13 * s,
            forall|i: int| 0 <= i < deck@.len() ==> #[trigger] deck@[i] == full_deck_seq()[i],
        decreases 4 - s,
    {
        let suit = suits[s];
        let mut rank: u8 = 1;
        while rank <= 13
            invariant
                s < 4,
                suit == suit_at(s as int),
                1 <= rank <= 14,
                deck@.len() == 13 * s + rank - 1,
                forall|i: int| 0 <= i < deck@.len() ==> #[trigger] deck@[i] == full_deck_seq()[i],
            decreases 14 - rank,
        {
            deck.push(Card { suit, rank });
            assert(deck@[deck@.len() - 1] == full_deck_seq()[13 * s + rank - 1]);
            rank += 1;
        }
        s += 1;
    }
    assert(deck@ =~= full_deck_seq());
    deck
}

/// What `rand`'s Fisher-Yates shuffle, driven by a ChaCha20 generator seeded
/// with `seed`, makes of `deck`.
pub uninterp spec fn chacha_shuffle(deck: Seq<Card>, seed: Seq<u8>) -> Seq<Card>;

/// Seeds `rand_chacha::ChaCha20Rng` with `seed` (`SeedableRng::from_seed`)
/// and shuffles `deck` with it (`rand::seq::SliceRandom::shuffle`). Claimed:
/// the result is determined by the deck and the seed, and is a permutation
/// of the deck (the shuffle only swaps elements).
#[verifier::external_body]
fn shuffle_with_seed(deck: &mut Vec<Card>, seed: [u8; 32])
    ensures
        final(deck)@ == chacha_shuffle(old(deck)@, seed@),
        final(deck)@.to_multiset() == old(deck)@.to_multiset(),
{
    let mut rng = <rand_chacha::ChaCha20Rng as rand::SeedableRng>::from_seed(seed);
    rand::seq::SliceRandom::shuffle(deck.as_mut_slice(), &mut rng);
}

/// Fills `seed` from the operating system's randomness (`getrandom::fill`)
/// and reports whether that succeeded. Nothing is claimed of the bytes.
#[verifier::external_body]
fn fill_from_os(seed: &mut [u8; 32]) -> (ok: bool) {
    getrandom::fill(seed).is_ok()
}

/// A reading of the wall clock, taken by the caller where the game runs.
#[derive(Clone, Copy, Debug, PartialEq, Eq, Structural)]
pub enum ClockReading {
    /// The system clock: nanoseconds since the Unix epoch, or `None` for a
    /// time before it.
    System(Option<u128>),
    /// The browser clock: its milliseconds since the Unix epoch times a
    /// million, as a whole number of nanoseconds.
    Browser(u64),
}

/// `x` rotated left by `n` bits.
pub open spec fn rotl(x: u64, n: u32) -> u64 {
    if n == 0 {
        x
    } else {
        ((x << n) | (x >> (64 - n) as u32)) as u64
    }
}

fn rotate_left(x: u64, n: u32) -> (r: u64)
    requires
        n < 64,
    ensures
        r == rotl(x, n),
{
    if n == 0 {
        x
    } else {
        (x << n) | (x >> (64 - n))
    }
}

/// The word a fallback seed mixes: for the system clock, the nanoseconds
/// (truncated to 64 bits) xor a fixed constant, or another constant without
/// a reading; for the browser clock, its nanoseconds as they are.
pub open spec fn clock_word(clock: ClockReading) -> u64 {
    match clock {
        ClockReading::System(Some(n)) => (n as u64) ^ 0x9E37_79B9_7F4A_7C15u64,
        ClockReading::System(None) => 0xD1B5_4A32_CAF0_0042u64,
        ClockReading::Browser(n) => n,
    }
}

/// The odd factor each byte's position is multiplied by: 53 for the system
/// clock, 37 for the browser clock.
pub open spec fn clock_factor(clock: ClockReading) -> u8 {
    match clock {
        ClockReading::System(_) => 53u8,
        ClockReading::Browser(_) => 37u8,
    }
}

/// Byte `i` of a fallback seed made from `word` with `factor`.
pub open spec fn fallback_byte(word: u64, factor: u8, i: int) -> u8 {
    ((rotl(word, i as u32) as u8) ^ (i as u8).wrapping_mul(factor)) as u8
}

/// The thirty-two bytes of the fallback seed for a clock reading.
pub open spec fn clock_seed(clock: ClockReading) -> Seq<u8> {
    Seq::new(32, |i: int| fallback_byte(clock_word(clock), clock_factor(clock), i))
}

/// A seed from the clock, for when the operating system has no randomness:
/// byte `i` is the low byte of the clock word rotated left by `i`, xor `i`
/// times the clock's factor (mod 256).
pub fn fallback_seed(clock: ClockReading) -> (seed: [u8; 32])
    ensures
        seed@ == clock_seed(clock),
{
    let (word, factor): (u64, u8) = match clock {
        ClockReading::System(Some(n)) => ((n as u64) ^ 0x9E37_79B9_7F4A_7C15u64, 53),
        ClockReading::System(None) => (0xD1B5_4A32_CAF0_0042u64, 53),
        ClockReading::Browser(n) => (n, 37),
    };
    let mut seed = [0u8; 32];
    let mut idx: usize = 0;
    while idx < 32
        invariant
            idx <= 32,
            word == clock_word(clock),
            factor == clock_factor(clock),
            forall|i: int| 0 <= i < idx ==> #[trigger] seed@[i] == fallback_byte(word, factor, i),
        decreases 32 - idx,
    {
        let rotated = rotate_left(word, idx as u32);
        seed[idx] = (rotated as u8) ^ (idx as u8).wrapping_mul(factor);
        idx += 1;
    }
    assert(seed@ =~= clock_seed(clock));
    seed
}

/// A seed from the operating system's randomness, or from `clock` when
/// that fails. Any thirty-two bytes may come from the operating system, so
/// nothing is claimed of the result.
fn secure_seed(clock: ClockReading) -> [u8; 32] {
    let mut seed = [0u8; 32];
    let supplied = fill_from_os(&mut seed);
    let os = if supplied {
        Some(seed)
    } else {
        None
    };
    seed_or_fallback(os, clock)
}

/// The seed a deal uses: the bytes the operating system supplied, exactly
/// as supplied, or the clock's fallback seed when it supplied none.
pub fn seed_or_fallback(os: Option<[u8; 32]>, clock: ClockReading) -> (seed: [u8; 32])
    ensures
        os matches Some(bytes) ==> seed == bytes,
        os is None ==> seed@ == clock_seed(clock),
{
    match os {
        Some(bytes) => bytes,
        None => fallback_seed(clock),
    }
}

/// Shuffles `deck` with a fresh seed, falling back on a seed from `clock`
/// where the operating system has no randomness. Whatever the seed, the result is the
/// seeded shuffle of the deck and a permutation of it.
pub fn shuffle_deck(deck: &mut Vec<Card>, clock: ClockReading)
    ensures
        exists|seed: Seq<u8>|
            seed.len() == 32 && final(deck)@ == #[trigger] chacha_shuffle(old(deck)@, seed),
        final(deck)@.to_multiset() == old(deck)@.to_multiset(),
{
    let seed = secure_seed(clock);
    shuffle_with_seed(deck, seed);
}

} // verus!
