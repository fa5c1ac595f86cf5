//! Trusted interface to the `fixedbitset` crate, which holds the
//! exclusion sets this crate probes with.
//!
//! `fbs_bits` names what a set holds: one boolean per index below the
//! capacity it was created with. Every wrapper below states its effect
//! over that name, as the crate's source shows it.
use vstd::prelude::*;

verus! {

#[verifier::external_type_specification]
#[verifier::external_body]
pub struct ExFixedBitSet(fixedbitset::FixedBitSet);

/// The bits of `b`: one boolean per index below its capacity.
pub uninterp spec fn fbs_bits(b: fixedbitset::FixedBitSet) -> Seq<bool>;

/// Relies on `FixedBitSet::with_capacity`: a set of `bits` bits, all clear.
#[verifier::external_body]
pub fn fbs_with_capacity(bits: usize) -> (r: fixedbitset::FixedBitSet)
    ensures
        fbs_bits(r) == Seq::new(bits as nat, |i: int| false),
{
    fixedbitset::FixedBitSet::with_capacity(bits)
}

/// Relies on `FixedBitSet::len`: the number of bits the set was created with.
#[verifier::external_body]
pub fn fbs_len(b: &fixedbitset::FixedBitSet) -> (r: usize)
    ensures
        r as nat == fbs_bits(*b).len(),
{
    b.len()
}

/// Relies on `FixedBitSet::contains`: whether bit `i` is enabled; bits at or
/// beyond the capacity read as clear.
#[verifier::external_body]
pub fn fbs_contains(b: &fixedbitset::FixedBitSet, i: usize) -> (r: bool)
    ensures
        r == if (i as int) < fbs_bits(*b).len() {
            fbs_bits(*b)[i as int]
        } else {
            false
        },
{
    b.contains(i)
}

/// Relies on `FixedBitSet::insert`: enables bit `i`, which panics at or
/// beyond the capacity, so that case is required away.
#[verifier::external_body]
pub fn fbs_insert(b: &mut fixedbitset::FixedBitSet, i: usize)
    requires
        (i as int) < fbs_bits(*old(b)).len(),
    ensures
        fbs_bits(*final(b)) == fbs_bits(*old(b)).update(i as int, true),
{
    b.insert(i)
}

/// Relies on `FixedBitSet::set`: writes bit `i`, which panics at or beyond
/// the capacity, so that case is required away.
#[verifier::external_body]
pub fn fbs_set(b: &mut fixedbitset::FixedBitSet, i: usize, enabled: bool)
    requires
        (i as int) < fbs_bits(*old(b)).len(),
    ensures
        fbs_bits(*final(b)) == fbs_bits(*old(b)).update(i as int, enabled),
{
    b.set(i, enabled)
}

} // verus!
