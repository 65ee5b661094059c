//! Deterministic PRNG (xorshift64*): the same seed gives the same library,
//! byte for byte.
use vstd::prelude::*;

verus! {

/// Replaces a zero seed, which would lock xorshift at zero forever.
pub const ZERO_SEED_REPLACEMENT: u64 = 0x9E37_79B9_7F4A_7C15;

/// Output multiplier of xorshift64*.
pub const MULTIPLIER: u64 = 0x2545_F491_4F6C_DD1D;

/// One xorshift step of the state.
pub open spec fn xorshift(x: u64) -> u64 {
    let x1 = x ^ (x >> 12u64);
    let x2 = x1 ^ ((x1 << 25u64) as u64);
    x2 ^ (x2 >> 27u64)
}

/// The output for a given new state.
pub open spec fn scramble(x: u64) -> u64 {
    vstd::wrapping::u64_specs::wrapping_mul(x, MULTIPLIER)
}

pub fn xorshift_step(x: u64) -> (r: u64)
    ensures
        r == xorshift(x),
{
    let mut y = x;
    y ^= y >> 12;
    y ^= y << 25;
    y ^= y >> 27;
    y
}

pub fn scramble_exec(x: u64) -> (r: u64)
    ensures
        r == scramble(x),
{
    x.wrapping_mul(MULTIPLIER)
}

/// A non-zero state stays non-zero: each xorshift step is invertible.
pub proof fn lemma_xorshift_nonzero(x: u64)
    requires
        x != 0,
    ensures
        xorshift(x) != 0,
{
    assert(x != 0u64 ==> (x ^ (x >> 12u64)) != 0u64) by (bit_vector);
    let x1 = x ^ (x >> 12u64);
    assert(x1 != 0u64 ==> (x1 ^ ((x1 << 25u64) as u64)) != 0u64) by (bit_vector);
    let x2 = x1 ^ ((x1 << 25u64) as u64);
    assert(x2 != 0u64 ==> (x2 ^ (x2 >> 27u64)) != 0u64) by (bit_vector);
}

/// The inverse of [`MULTIPLIER`] modulo 2^64, which exists because the
/// multiplier is odd.
pub const MULTIPLIER_INVERSE: u64 = 0x5907_1d96_d81e_cd35;

/// A non-zero state never gives a zero output: the multiplier is odd, so
/// multiplying by it modulo 2^64 loses nothing.
pub proof fn lemma_scramble_nonzero(x: u64)
    requires
        x != 0,
    ensures
        scramble(x) != 0,
{
    let p: int = 0x1_0000_0000_0000_0000;
    let m = MULTIPLIER as int;
    let inv = MULTIPLIER_INVERSE as int;
    assert((m * inv) % p == 1) by (nonlinear_arith)
        requires
            m == 0x2545_F491_4F6C_DD1D,
            inv == 0x5907_1d96_d81e_cd35,
            p == 0x1_0000_0000_0000_0000,
    ;
    if scramble(x) == 0 {
        assert((x as int * m) % p == 0);
        vstd::arithmetic::div_mod::lemma_mul_mod_noop_left(x as int * m, inv, p);
        assert(((x as int * m) % p) * inv % p == 0);
        vstd::arithmetic::mul::lemma_mul_is_associative(x as int, m, inv);
        vstd::arithmetic::div_mod::lemma_mul_mod_noop_right(x as int, m * inv, p);
        assert(x as int * ((m * inv) % p) % p == (x as int * (m * inv)) % p);
        assert(x as int * 1 % p == x as int);
        assert(false);
    }
}

pub struct Rng(pub u64);

impl Rng {
    pub closed spec fn state(&self) -> u64 {
        self.0
    }

    pub fn new(seed: u64) -> (r: Self)
        ensures
            r.state() == if seed == 0 { ZERO_SEED_REPLACEMENT } else { seed },
            r.state() != 0,
    {
        Rng(if seed == 0 { ZERO_SEED_REPLACEMENT } else { seed })
    }

    /// The next output. From a non-zero state (every state [`Rng::new`]
    /// gives) the output is never 0 and the state stays non-zero.
    pub fn next_u64(&mut self) -> (r: u64)
        ensures
            final(self).state() == xorshift(old(self).state()),
            r == scramble(xorshift(old(self).state())),
            old(self).state() != 0 ==> r != 0 && final(self).state() != 0,
    {
        proof {
            if self.0 != 0 {
                lemma_xorshift_nonzero(self.0);
                lemma_scramble_nonzero(xorshift(self.0));
            }
        }
        let x = xorshift_step(self.0);
        self.0 = x;
        scramble_exec(x)
    }

    /// An integer in `[0, n)`.
    pub fn below(&mut self, n: usize) -> (r: usize)
        requires
            n > 0,
        ensures
            final(self).state() == xorshift(old(self).state()),
            r == scramble(xorshift(old(self).state())) % (n as u64),
            r < n,
    {
        let x = self.next_u64();
        (x % n as u64) as usize
    }

    /// An integer in `[lo, hi]`.
    pub fn range(&mut self, lo: usize, hi: usize) -> (r: usize)
        requires
            lo <= hi,
            hi - lo + 1 <= usize::MAX,
        ensures
            final(self).state() == xorshift(old(self).state()),
            r == lo + scramble(xorshift(old(self).state())) % ((hi - lo + 1) as u64),
            lo <= r <= hi,
    {
        lo + self.below(hi - lo + 1)
    }

    pub fn pick<'a, T>(&mut self, items: &'a [T]) -> (r: &'a T)
        requires
            items@.len() > 0,
        ensures
            final(self).state() == xorshift(old(self).state()),
            *r == items@[(scramble(xorshift(old(self).state())) % (items@.len() as u64)) as int],
    {
        let i = self.below(items.len());
        &items[i]
    }
}

} // verus!
