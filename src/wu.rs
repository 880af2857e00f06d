//! The Woelfel family of universal hash functions, `h(x) = ((a·x + b) mod p) mod m`.

use rand::Rng;
use vstd::prelude::*;

verus! {

/// The default prime: the largest prime below `2^64`.
pub const DEFAULT_PRIME: u64 = 18446744073709551557;

/// What the affine-modular hash of `x` is, over the integers.
pub open spec fn wu_formula(a: u64, b: u64, prime: u64, modulus: u64, x: u64) -> nat
    recommends
        prime > 0,
        modulus > 0,
{
    ((((a as int) * (x as int) + (b as int)) % (prime as int)) % (modulus as int)) as nat
}

/// Why a hash function could not be built.
#[derive(Debug, Clone, Copy, PartialEq, Eq, Structural)]
pub enum WUHashError {
    ZeroModulus,
}

impl WUHashError {
    /// A human-readable account of the error.
    pub fn description(&self) -> (r: &'static str)
        ensures
            r@ == "The table size (modulus) is zero!"@,
    {
        match self {
            WUHashError::ZeroModulus => "The table size (modulus) is zero!",
        }
    }
}

/// One member of the family, with fixed coefficients.
#[derive(Debug, Clone, Copy)]
pub struct WUHash {
    prime: u64,
    modulus: u64,
    a: u64,
    b: u64,
}

/// Configuration from which a `WUHash` is built.
#[derive(Debug, Clone, Copy)]
pub struct WUHashBuilder {
    prime: u64,
    modulus: u64,
    a: u64,
    b: u64,
}

/// Relies on rand::Rng::gen_range (rand 0.7) on the thread-local generator: a value
/// drawn from `[low, high)`; it panics when `low >= high`, which `requires` excludes.
#[verifier::external_body]
fn random_in_range(low: u64, high: u64) -> (r: u64)
    requires
        low < high,
    ensures
        low <= r < high,
{
    rand::thread_rng().gen_range(low, high)
}

impl WUHash {
    pub closed spec fn spec_prime(&self) -> u64 {
        self.prime
    }

    pub closed spec fn spec_modulus(&self) -> u64 {
        self.modulus
    }

    pub closed spec fn spec_a(&self) -> u64 {
        self.a
    }

    pub closed spec fn spec_b(&self) -> u64 {
        self.b
    }

    /// A hash function that can be evaluated: a non-zero prime and modulus.
    pub open spec fn valid(&self) -> bool {
        self.spec_prime() > 0 && self.spec_modulus() > 0
    }

    /// A hash function whose values all fit an index of this machine.
    pub open spec fn indexable(&self) -> bool {
        self.valid() && self.spec_modulus() <= usize::MAX
    }

    /// The value of this function at `x`.
    pub open spec fn spec_eval(&self, x: u64) -> nat {
        wu_formula(self.spec_a(), self.spec_b(), self.spec_prime(), self.spec_modulus(), x)
    }

    /// The modulus, that is, the number of values.
    pub fn modulus(&self) -> (r: u64)
        ensures
            r == self.spec_modulus(),
    {
        self.modulus
    }

    /// The coefficients `(a, b)`.
    pub fn coefficients(&self) -> (r: (u64, u64))
        ensures
            r == (self.spec_a(), self.spec_b()),
    {
        (self.a, self.b)
    }

    /// Evaluates the function at `x`. The product and sum are taken in 128 bits,
    /// where they cannot overflow, so the result is exact for every input.
    pub fn eval(&self, x: u64) -> (r: usize)
        requires
            self.indexable(),
        ensures
            r == self.spec_eval(x),
            r < self.spec_modulus(),
    {
        let a: u128 = self.a as u128;
        let xx: u128 = x as u128;
        proof {
            assert((a as int) * (xx as int) <= 0xffff_ffff_ffff_ffffint * 0xffff_ffff_ffff_ffffint)
                by (nonlinear_arith)
                requires
                    a <= 0xffff_ffff_ffff_ffffu128,
                    xx <= 0xffff_ffff_ffff_ffffu128,
            ;
        }
        let v: u128 = (a * xx + self.b as u128) % (self.prime as u128);
        let r: u64 = (v as u64) % self.modulus;
        r as usize
    }
}

impl WUHashBuilder {
    pub closed spec fn spec_prime(&self) -> u64 {
        self.prime
    }

    pub closed spec fn spec_modulus(&self) -> u64 {
        self.modulus
    }

    pub closed spec fn spec_a(&self) -> u64 {
        self.a
    }

    pub closed spec fn spec_b(&self) -> u64 {
        self.b
    }

    /// A builder with the default prime, no modulus yet, and coefficients drawn
    /// at random from `[1, prime)`.
    pub fn new() -> (r: WUHashBuilder)
        ensures
            r.spec_prime() == DEFAULT_PRIME,
            r.spec_modulus() == 0,
            1 <= r.spec_a() < DEFAULT_PRIME,
            1 <= r.spec_b() < DEFAULT_PRIME,
    {
        WUHashBuilder {
            prime: DEFAULT_PRIME,
            modulus: 0,
            a: random_in_range(1, DEFAULT_PRIME),
            b: random_in_range(1, DEFAULT_PRIME),
        }
    }

    pub fn prime(&mut self, prime: u64) -> (r: &mut WUHashBuilder)
        ensures
            r.spec_prime() == prime,
            r.spec_modulus() == old(self).spec_modulus(),
            r.spec_a() == old(self).spec_a(),
            r.spec_b() == old(self).spec_b(),
            *final(self) == *final(r),
    {
        self.prime = prime;
        self
    }

    pub fn modulus(&mut self, r: u64) -> (res: &mut WUHashBuilder)
        ensures
            res.spec_prime() == old(self).spec_prime(),
            res.spec_modulus() == r,
            res.spec_a() == old(self).spec_a(),
            res.spec_b() == old(self).spec_b(),
            *final(self) == *final(res),
    {
        self.modulus = r;
        self
    }

    pub fn a(&mut self, a: u64) -> (r: &mut WUHashBuilder)
        ensures
            r.spec_prime() == old(self).spec_prime(),
            r.spec_modulus() == old(self).spec_modulus(),
            r.spec_a() == a,
            r.spec_b() == old(self).spec_b(),
            *final(self) == *final(r),
    {
        self.a = a;
        self
    }

    pub fn b(&mut self, b: u64) -> (r: &mut WUHashBuilder)
        ensures
            r.spec_prime() == old(self).spec_prime(),
            r.spec_modulus() == old(self).spec_modulus(),
            r.spec_a() == old(self).spec_a(),
            r.spec_b() == b,
            *final(self) == *final(r),
    {
        self.b = b;
        self
    }

    /// The hash function with the builder's current settings; an error exactly
    /// when no non-zero modulus was set.
    pub fn finalize(&self) -> (r: Result<WUHash, WUHashError>)
        ensures
            r is Ok <==> self.spec_modulus() != 0,
            r is Err ==> r->Err_0 == WUHashError::ZeroModulus,
            r is Ok ==> ({
                let h = r->Ok_0;
                &&& h.spec_prime() == self.spec_prime()
                &&& h.spec_modulus() == self.spec_modulus()
                &&& h.spec_a() == self.spec_a()
                &&& h.spec_b() == self.spec_b()
            }),
    {
        if self.modulus != 0 {
            Ok(WUHash { prime: self.prime, modulus: self.modulus, a: self.a, b: self.b })
        } else {
            Err(WUHashError::ZeroModulus)
        }
    }
}

/// Every valid member of the family maps every input into `[0, modulus)`.
pub proof fn lemma_eval_in_range(h: WUHash, x: u64)
    requires
        h.valid(),
    ensures
        h.spec_eval(x) < h.spec_modulus(),
{
}

} // verus!
