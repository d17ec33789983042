//! Xorshift128 pseudo-random generator (Marsaglia), seeded with one word.
//!
//! Besides raw 32- and 64-bit draws, the generator hands out the IEEE-754 bit
//! pattern of a double in `[1, 2)`: subtracting one from that double gives a
//! uniform sample in `[0, 1)`.
use vstd::prelude::*;

verus! {

/// The four words of generator state, in the order `(x, y, z, w)`.
pub type XorshiftState = (u32, u32, u32, u32);

/// Sign and exponent bits of a double in `[1, 2)`: sign 0, biased exponent 0x3ff.
pub const ONE_BITS: u64 = 0x3ff0_0000_0000_0000;

/// Bit pattern of the double `2.0`, the first one past the unit interval's image.
pub const TWO_BITS: u64 = 0x4000_0000_0000_0000;

pub struct Xorshift {
    x: u32,
    y: u32,
    z: u32,
    w: u32,
}

/// The state a generator starts from for a given seed.
pub open spec fn seed_state(seed: u32) -> XorshiftState {
    (123456789u32, 362436069u32, 521288629u32, seed)
}

/// One step of the xorshift recurrence.
pub open spec fn step(s: XorshiftState) -> XorshiftState {
    let t = s.0 ^ (s.0 << 11u32);
    (s.1, s.2, s.3, (s.3 ^ (s.3 >> 19u32)) ^ (t ^ (t >> 8u32)))
}

/// The word a 32-bit draw returns from state `s`.
pub open spec fn draw(s: XorshiftState) -> u32 {
    step(s).3
}

/// The state after `n` steps.
pub open spec fn state_after(s: XorshiftState, n: nat) -> XorshiftState
    decreases n,
{
    if n == 0 {
        s
    } else {
        step(state_after(s, (n - 1) as nat))
    }
}

/// The first `n` words drawn from state `s`, in order.
pub open spec fn draws(s: XorshiftState, n: nat) -> Seq<u32>
    decreases n,
{
    if n == 0 {
        Seq::empty()
    } else {
        draws(s, (n - 1) as nat).push(draw(state_after(s, (n - 1) as nat)))
    }
}

/// The all-zero state is a fixed point of the recurrence; every other state is usable.
pub open spec fn nonzero(s: XorshiftState) -> bool {
    s != (0u32, 0u32, 0u32, 0u32)
}

/// Two consecutive 32-bit draws as one 64-bit word, the first draw in the low half.
pub open spec fn combine(lo: u32, hi: u32) -> u64 {
    (lo as u64 + hi as u64 * 0x1_0000_0000) as u64
}

/// The bit pattern of the double in `[1, 2)` whose 52 mantissa bits are the
/// top 52 bits of `v`.
pub open spec fn unit_bits(v: u64) -> u64 {
    (ONE_BITS + v / 0x1000) as u64
}

/// The recurrence never reaches the all-zero state from any other state.
pub proof fn lemma_step_keeps_nonzero(s: XorshiftState)
    requires
        nonzero(s),
    ensures
        nonzero(step(s)),
{
    let x = s.0;
    let w = s.3;
    let t = x ^ (x << 11u32);
    assert(t ^ (t >> 8u32) == 0u32 ==> t == 0u32) by (bit_vector);
    assert(x ^ (x << 11u32) == 0u32 ==> x == 0u32) by (bit_vector);
    assert(w == 0u32 ==> (w ^ (w >> 19u32)) ^ (t ^ (t >> 8u32)) == t ^ (t >> 8u32)) by (bit_vector);
}

/// Generators made from the same seed produce the same sequence of words,
/// and that sequence never passes through the all-zero state.
pub proof fn lemma_seed_determinism(a: Xorshift, b: Xorshift, seed: u32, n: nat)
    requires
        a@ == seed_state(seed),
        b@ == seed_state(seed),
    ensures
        draws(a@, n) == draws(b@, n),
        state_after(a@, n) == state_after(b@, n),
        nonzero(state_after(a@, n)),
    decreases n,
{
    if n > 0 {
        lemma_seed_determinism(a, b, seed, (n - 1) as nat);
        lemma_step_keeps_nonzero(state_after(a@, (n - 1) as nat));
    }
}

impl View for Xorshift {
    type V = XorshiftState;

    closed spec fn view(&self) -> XorshiftState {
        (self.x, self.y, self.z, self.w)
    }
}

impl Xorshift {
    /// A generator whose last state word is the seed.
    pub fn new(seed: u32) -> (r: Self)
        ensures
            r@ == seed_state(seed),
            nonzero(r@),
    {
        Xorshift { x: 123456789, y: 362436069, z: 521288629, w: seed }
    }

    /// Advances the state by one step and returns the new last word.
    pub fn gen_u32(&mut self) -> (r: u32)
        ensures
            final(self)@ == step(old(self)@),
            r == draw(old(self)@),
            nonzero(old(self)@) ==> nonzero(final(self)@),
    {
        proof {
            if nonzero(self@) {
                lemma_step_keeps_nonzero(self@);
            }
        }
        let t = self.x ^ (self.x << 11u32);
        let x = self.y;
        let y = self.z;
        let z = self.w;
        let w = (self.w ^ (self.w >> 19u32)) ^ (t ^ (t >> 8u32));
        *self = Xorshift { x, y, z, w };
        w
    }

    /// Two draws composed into one word, the first in the low 32 bits.
    pub fn gen_u64(&mut self) -> (r: u64)
        ensures
            final(self)@ == state_after(old(self)@, 2),
            r == combine(draw(old(self)@), draw(step(old(self)@))),
            nonzero(old(self)@) ==> nonzero(final(self)@),
    {
        let lo = self.gen_u32();
        let hi = self.gen_u32();
        proof {
            assert(state_after(old(self)@, 2) == step(step(old(self)@))) by {
                reveal_with_fuel(state_after, 3);
            }
        }
        let v = (lo as u64) | ((hi as u64) << 32u64);
        assert(v == combine(lo, hi)) by {
            assert((lo as u64) | ((hi as u64) << 32u64) == (lo as u64 + hi as u64 * 0x1_0000_0000) as u64)
                by (bit_vector);
        }
        v
    }

    /// Draws 64 bits and returns the bit pattern of a double in `[1, 2)`:
    /// sign 0, exponent 0x3ff, and the top 52 drawn bits as mantissa.
    pub fn gen_f64_bits(&mut self) -> (r: u64)
        ensures
            final(self)@ == state_after(old(self)@, 2),
            r == unit_bits(combine(draw(old(self)@), draw(step(old(self)@)))),
            ONE_BITS <= r < TWO_BITS,
            nonzero(old(self)@) ==> nonzero(final(self)@),
    {
        let v = self.gen_u64();
        let r = (v >> 12u64) | ONE_BITS;
        assert(r == unit_bits(v) && ONE_BITS <= r < TWO_BITS) by {
            assert((v >> 12u64) | 0x3ff0_0000_0000_0000u64 == (0x3ff0_0000_0000_0000u64 + v / 0x1000) as u64)
                by (bit_vector);
            assert(v / 0x1000 < 0x10_0000_0000_0000) by (bit_vector);
        }
        r
    }
}

} // verus!
