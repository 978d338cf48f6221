use vstd::prelude::*;

verus! {

/// 2 to the 64th: the weight of one limb.
pub open spec fn limb_base() -> nat {
    18446744073709551616
}

/// The value of little-endian 64-bit limbs: `s[0] + 2^64 * s[1] + ...`.
pub open spec fn big_val(s: Seq<u64>) -> nat
    decreases s.len(),
{
    if s.len() == 0 {
        0
    } else {
        (s[0] + limb_base() * big_val(s.drop_first())) as nat
    }
}

/// A non-negative integer of any size, used as a scalar multiplier.
#[derive(Clone, Debug)]
pub struct BIG {
    /// Limbs, least significant first.
    pub w: Vec<u64>,
}

impl BIG {
    pub open spec fn value(&self) -> nat {
        big_val(self.w@)
    }

    /// The integer held by the given limbs, least significant first.
    pub fn from_limbs(w: Vec<u64>) -> (r: BIG)
        ensures
            r.w@ == w@,
            r.value() == big_val(w@),
    {
        BIG { w }
    }

    /// The integer `v`.
    pub fn new_int(v: u64) -> (r: BIG)
        ensures
            r.value() == v,
    {
        let mut w: Vec<u64> = Vec::new();
        w.push(v);
        proof {
            assert(w@.drop_first() =~= Seq::<u64>::empty());
            assert(big_val(w@.drop_first()) == 0);
        }
        BIG { w }
    }
}

} // verus!
