use vstd::prelude::*;
use rand::rngs::SmallRng;
use rand::{RngCore, SeedableRng};

verus! {

#[verifier::external_type_specification]
#[verifier::external_body]
pub struct ExSmallRng(SmallRng);

/// The random-number generator of a guest: rand's `SmallRng`, with the seed
/// it was built from, how many numbers it has given since and the last of
/// them. Only the calls into rand below set these three.
pub struct GuestRng {
    rng: SmallRng,
    seed: Ghost<u64>,
    drawn: Ghost<nat>,
    last: Ghost<u32>,
}

/// A generator as values: the seed it was built from, the count of numbers
/// drawn since, and the last number drawn (0 before the first). Which
/// numbers come next depends on the platform, since rand picks the
/// algorithm by pointer width, so the view stops at these.
pub struct GuestRngView {
    pub seed: u64,
    pub drawn: nat,
    pub last: u32,
}

impl GuestRng {
    /// The seed, the count of draws since seeding and the last draw.
    pub closed spec fn view(&self) -> GuestRngView {
        GuestRngView { seed: self.seed@, drawn: self.drawn@, last: self.last@ }
    }
}

/// rand's `SmallRng::seed_from_u64`: a generator built from `seed`, with
/// nothing drawn yet. Nothing is stated of the numbers it will give.
#[verifier::external_body]
fn small_rng_from_seed(seed: u64) -> (r: GuestRng)
    ensures
        r@ == (GuestRngView { seed, drawn: 0, last: 0 }),
{
    GuestRng { rng: SmallRng::seed_from_u64(seed), seed: Ghost(seed), drawn: Ghost(0), last: Ghost(0) }
}

/// rand's `RngCore::next_u32` on the generator: the next number of its
/// stream, which advances by one draw and is recorded as the last one;
/// nothing is stated of which number it is.
#[verifier::external_body]
fn small_rng_next_u32(rng: &mut GuestRng) -> (x: u32)
    ensures
        final(rng)@ == (GuestRngView { seed: old(rng)@.seed, drawn: old(rng)@.drawn + 1, last: x }),
{
    rng.rng.next_u32()
}

/// The generator a guest starts with: seeded with 1.
pub fn initial_rng() -> (r: GuestRng)
    ensures
        r@ == (GuestRngView { seed: 1, drawn: 0, last: 0 }),
{
    small_rng_from_seed(1)
}

/// The number the guest's `rng` returns for a raw 32-bit draw: its low 31
/// bits, so that it is never negative as an `i32`.
pub fn random_nonnegative(x: u32) -> (r: i32)
    ensures
        r == x % 0x8000_0000,
        r >= 0,
{
    let masked = x & 0x7FFF_FFFF;
    assert(masked == x % 0x8000_0000 && masked <= 0x7FFF_FFFF) by (bit_vector)
        requires
            masked == x & 0x7FFF_FFFF,
    ;
    masked as i32
}

/// The guest's `rng`: draws the next number of the generator and returns
/// its low 31 bits.
pub fn guest_rng(rng: &mut GuestRng) -> (r: i32)
    ensures
        final(rng)@.seed == old(rng)@.seed,
        final(rng)@.drawn == old(rng)@.drawn + 1,
        r == final(rng)@.last % 0x8000_0000,
        0 <= r <= 0x7FFF_FFFF,
{
    random_nonnegative(small_rng_next_u32(rng))
}

/// The guest's `seedrng(ptr)`: when the eight bytes at `ptr` lie inside the
/// memory, the generator is replaced by one seeded with them read as a
/// little-endian number (see `guest_seed`) and 0 is returned; otherwise the
/// generator is kept and -1 is returned.
pub fn guest_seedrng(memory: &tinywasm::MemoryRef, ptr: i32, rng: &mut GuestRng) -> (status: i32)
    ensures
        ({
            let bytes = crate::guest_memory::memory_ref_bytes(*memory);
            if crate::wasm::in_memory(bytes.len(), ptr as usize, 8) {
                &&& status == 0
                &&& final(rng)@ == (GuestRngView {
                    seed: crate::wasm::le_value(bytes.subrange(ptr as usize as int, ptr as usize + 8)) as u64,
                    drawn: 0,
                    last: 0,
                })
            } else {
                status == -1 && *final(rng) == *old(rng)
            }
        }),
{
    match crate::wasm::guest_seed(memory, ptr) {
        Some(seed) => {
            *rng = small_rng_from_seed(seed);
            0
        },
        None => -1,
    }
}

} // verus!
