//! Modular integers: a residue that wraps around its modulus in both
//! directions, so that stepping backwards from zero lands on `modulus - 1`.

use vstd::prelude::*;

verus! {

/// A residue modulo a positive modulus. The residue is always reduced:
/// `0 <= remainder < modulus`.
#[derive(Debug, Clone, Copy)]
pub struct Modular {
    remainder: u32,
    modulus: u32,
}

/// The Euclidean residue of `value` modulo `modulus`: the one number in
/// `0 .. modulus` that differs from `value` by a multiple of `modulus`.
pub open spec fn residue(value: int, modulus: int) -> int
    recommends
        modulus > 0,
{
    value % modulus
}

impl Modular {
    #[verifier::type_invariant]
    spec fn reduced(&self) -> bool {
        self.remainder < self.modulus
    }

    /// The residue, as a mathematical integer.
    pub closed spec fn spec_remainder(&self) -> int {
        self.remainder as int
    }

    /// The modulus, as a mathematical integer.
    pub closed spec fn spec_modulus(&self) -> int {
        self.modulus as int
    }

    /// The residue of `remainder` modulo `modulus`. A negative `remainder`
    /// wraps around from the top: `new(-1, 7)` holds 6.
    pub fn new(remainder: i32, modulus: u32) -> (m: Self)
        requires
            modulus != 0,
        ensures
            m.spec_modulus() == modulus,
            m.spec_remainder() == residue(remainder as int, modulus as int),
            0 <= m.spec_remainder() < m.spec_modulus(),
    {
        Modular { remainder: Self::normalize_remainder(remainder as i64, modulus), modulus }
    }

    /// Reduces any signed value into `0 .. modulo`.
    fn normalize_remainder(remainder: i64, modulo: u32) -> (r: u32)
        requires
            modulo != 0,
        ensures
            r as int == residue(remainder as int, modulo as int),
            r < modulo,
    {
        let m: i64 = modulo as i64;
        if remainder < 0 {
            let below: i64 = (-(remainder + 1)) % m;
            proof {
                lemma_reflected_residue(remainder as int, m as int);
            }
            (m - 1 - below) as u32
        } else {
            (remainder % m) as u32
        }
    }

    /// The modulus that this residue wraps around.
    pub fn modulus(&self) -> (m: u32)
        ensures
            m as int == self.spec_modulus(),
            m > 0,
    {
        proof {
            use_type_invariant(self);
        }
        self.modulus
    }

    /// Whether two residues can be added or subtracted: they must share a modulus.
    pub open spec fn same_modulus(&self, other: &Self) -> bool {
        self.spec_modulus() == other.spec_modulus()
    }
}

/// For a negative `value`, its residue is the mirror image of the residue of
/// `-(value + 1)`, which is not negative.
proof fn lemma_reflected_residue(value: int, modulus: int)
    requires
        value < 0,
        modulus > 0,
    ensures
        residue(value, modulus) == modulus - 1 - (-(value + 1)) % modulus,
{
    let a = -(value + 1);
    let q = a / modulus;
    let k = a % modulus;
    vstd::arithmetic::div_mod::lemma_fundamental_div_mod(a, modulus);
    assert(value == modulus * (-q - 1) + (modulus - 1 - k)) by (nonlinear_arith)
        requires
            a == modulus * q + k,
            value == -a - 1,
    ;
    vstd::arithmetic::div_mod::lemma_fundamental_div_mod_converse(
        value,
        modulus,
        -q - 1,
        modulus - 1 - k,
    );
}

impl core::ops::Deref for Modular {
    type Target = u32;

    /// The residue itself.
    fn deref(&self) -> (r: &u32)
        ensures
            *r as int == self.spec_remainder(),
            (*r as int) < self.spec_modulus(),
    {
        proof {
            use_type_invariant(self);
        }
        &self.remainder
    }
}

impl vstd::std_specs::ops::AddSpecImpl<Modular> for Modular {
    open spec fn obeys_add_spec() -> bool {
        true
    }

    open spec fn add_req(self, rhs: Modular) -> bool {
        self.same_modulus(&rhs)
    }

    closed spec fn add_spec(self, rhs: Modular) -> Modular {
        Modular {
            remainder: residue(self.remainder + rhs.remainder, self.modulus as int) as u32,
            modulus: self.modulus,
        }
    }
}

impl core::ops::Add<Modular> for Modular {
    type Output = Modular;

    /// The sum of two residues of one modulus.
    fn add(self, rhs: Modular) -> (m: Modular)
        ensures
            m.spec_modulus() == self.spec_modulus(),
            m.spec_remainder() == residue(
                self.spec_remainder() + rhs.spec_remainder(),
                self.spec_modulus(),
            ),
            0 <= m.spec_remainder() < m.spec_modulus(),
    {
        proof {
            use_type_invariant(&self);
            use_type_invariant(&rhs);
        }
        Modular {
            remainder: Self::normalize_remainder(
                self.remainder as i64 + rhs.remainder as i64,
                self.modulus,
            ),
            modulus: self.modulus,
        }
    }
}

impl vstd::std_specs::ops::AddSpecImpl<i32> for Modular {
    open spec fn obeys_add_spec() -> bool {
        true
    }

    open spec fn add_req(self, rhs: i32) -> bool {
        true
    }

    closed spec fn add_spec(self, rhs: i32) -> Modular {
        Modular {
            remainder: residue(self.remainder + rhs, self.modulus as int) as u32,
            modulus: self.modulus,
        }
    }
}

impl core::ops::Add<i32> for Modular {
    type Output = Modular;

    /// The residue `rhs` steps further on; a negative `rhs` steps back.
    fn add(self, rhs: i32) -> (m: Modular)
        ensures
            m.spec_modulus() == self.spec_modulus(),
            m.spec_remainder() == residue(self.spec_remainder() + rhs, self.spec_modulus()),
            0 <= m.spec_remainder() < m.spec_modulus(),
    {
        proof {
            use_type_invariant(&self);
        }
        Modular {
            remainder: Self::normalize_remainder(self.remainder as i64 + rhs as i64, self.modulus),
            modulus: self.modulus,
        }
    }
}

impl vstd::std_specs::ops::AddSpecImpl<u32> for Modular {
    open spec fn obeys_add_spec() -> bool {
        true
    }

    open spec fn add_req(self, rhs: u32) -> bool {
        true
    }

    closed spec fn add_spec(self, rhs: u32) -> Modular {
        Modular {
            remainder: residue(self.remainder + rhs, self.modulus as int) as u32,
            modulus: self.modulus,
        }
    }
}

impl core::ops::Add<u32> for Modular {
    type Output = Modular;

    /// The residue `rhs` steps further on.
    fn add(self, rhs: u32) -> (m: Modular)
        ensures
            m.spec_modulus() == self.spec_modulus(),
            m.spec_remainder() == residue(self.spec_remainder() + rhs, self.spec_modulus()),
            0 <= m.spec_remainder() < m.spec_modulus(),
    {
        proof {
            use_type_invariant(&self);
        }
        Modular {
            remainder: Self::normalize_remainder(self.remainder as i64 + rhs as i64, self.modulus),
            modulus: self.modulus,
        }
    }
}

impl vstd::std_specs::ops::SubSpecImpl<Modular> for Modular {
    open spec fn obeys_sub_spec() -> bool {
        true
    }

    open spec fn sub_req(self, rhs: Modular) -> bool {
        self.same_modulus(&rhs)
    }

    closed spec fn sub_spec(self, rhs: Modular) -> Modular {
        Modular {
            remainder: residue(self.remainder - rhs.remainder, self.modulus as int) as u32,
            modulus: self.modulus,
        }
    }
}

impl core::ops::Sub<Modular> for Modular {
    type Output = Modular;

    /// The difference of two residues of one modulus.
    fn sub(self, rhs: Modular) -> (m: Modular)
        ensures
            m.spec_modulus() == self.spec_modulus(),
            m.spec_remainder() == residue(
                self.spec_remainder() - rhs.spec_remainder(),
                self.spec_modulus(),
            ),
            0 <= m.spec_remainder() < m.spec_modulus(),
    {
        proof {
            use_type_invariant(&self);
            use_type_invariant(&rhs);
        }
        Modular {
            remainder: Self::normalize_remainder(
                self.remainder as i64 - rhs.remainder as i64,
                self.modulus,
            ),
            modulus: self.modulus,
        }
    }
}

impl vstd::std_specs::ops::SubSpecImpl<i32> for Modular {
    open spec fn obeys_sub_spec() -> bool {
        true
    }

    open spec fn sub_req(self, rhs: i32) -> bool {
        true
    }

    closed spec fn sub_spec(self, rhs: i32) -> Modular {
        Modular {
            remainder: residue(self.remainder - rhs, self.modulus as int) as u32,
            modulus: self.modulus,
        }
    }
}

impl core::ops::Sub<i32> for Modular {
    type Output = Modular;

    /// The residue `rhs` steps back; a negative `rhs` steps forward.
    fn sub(self, rhs: i32) -> (m: Modular)
        ensures
            m.spec_modulus() == self.spec_modulus(),
            m.spec_remainder() == residue(self.spec_remainder() - rhs, self.spec_modulus()),
            0 <= m.spec_remainder() < m.spec_modulus(),
    {
        proof {
            use_type_invariant(&self);
        }
        Modular {
            remainder: Self::normalize_remainder(self.remainder as i64 - rhs as i64, self.modulus),
            modulus: self.modulus,
        }
    }
}

/// Stepping forward by `k` and then back by `k` returns to the start.
pub proof fn lemma_step_there_and_back(start: int, k: int, modulus: int)
    requires
        modulus > 0,
        0 <= start < modulus,
    ensures
        residue(residue(start + k, modulus) - k, modulus) == start,
{
    vstd::arithmetic::div_mod::lemma_sub_mod_noop(start + k, k, modulus);
    vstd::arithmetic::div_mod::lemma_mod_twice(start + k, modulus);
    vstd::arithmetic::div_mod::lemma_sub_mod_noop((start + k) % modulus, k, modulus);
    vstd::arithmetic::div_mod::lemma_small_mod(start as nat, modulus as nat);
}

/// A full turn changes nothing: stepping by the modulus itself is the identity.
pub proof fn lemma_full_turn(start: int, modulus: int)
    requires
        modulus > 0,
        0 <= start < modulus,
    ensures
        residue(start + modulus, modulus) == start,
        residue(start - modulus, modulus) == start,
{
    vstd::arithmetic::div_mod::lemma_mod_add_multiples_vanish(start, modulus);
    vstd::arithmetic::div_mod::lemma_mod_sub_multiples_vanish(start, modulus);
    vstd::arithmetic::div_mod::lemma_small_mod(start as nat, modulus as nat);
}

} // verus!
