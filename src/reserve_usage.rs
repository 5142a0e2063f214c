use vstd::prelude::*;

verus! {

/// Which reserves a user (or the pool's emission schedule) is active in,
/// packed into one integer: three bits per reserve index, the lowest for a
/// liability position, the next for a supply (collateral) position, the third unused.
#[derive(Clone, Copy, Debug, PartialEq, Eq, Structural)]
pub struct ReserveUsage {
    pub config: u128,
}

/// The largest number of reserves one `ReserveUsage` can describe.
pub const MAX_RESERVES: u32 = 42;

/// Whether bit `k` of `config` is set.
pub open spec fn bit_set(config: u128, k: u128) -> bool {
    (config >> k) & 1u128 == 1u128
}

/// The bit position of reserve `index`'s liability flag.
pub open spec fn liability_bit(index: u32) -> u128 {
    (3 * index) as u128
}

/// The bit position of reserve `index`'s supply flag.
pub open spec fn supply_bit(index: u32) -> u128 {
    (3 * index + 1) as u128
}

proof fn lemma_or_sets_bit(c: u128, k: u128, j: u128)
    requires
        k < 128,
        j < 128,
    ensures
        bit_set(c | (1u128 << k), j) == (j == k || bit_set(c, j)),
{
    assert(((c | (1u128 << k)) >> j) & 1u128 == 1u128 <==> (j == k || (c >> j) & 1u128 == 1u128))
        by (bit_vector)
        requires
            k < 128,
            j < 128,
    ;
}

proof fn lemma_and_not_clears_bit(c: u128, k: u128, j: u128)
    requires
        k < 128,
        j < 128,
    ensures
        bit_set(c & !(1u128 << k), j) == (j != k && bit_set(c, j)),
{
    assert(((c & !(1u128 << k)) >> j) & 1u128 == 1u128 <==> (j != k && (c >> j) & 1u128
        == 1u128)) by (bit_vector)
        requires
            k < 128,
            j < 128,
    ;
}

proof fn lemma_zero_has_no_bits(k: u128)
    requires
        k < 128,
    ensures
        !bit_set(0, k),
{
    assert((0u128 >> k) & 1u128 != 1u128) by (bit_vector);
}

impl ReserveUsage {
    pub open spec fn is_liability_spec(self, index: u32) -> bool {
        bit_set(self.config, liability_bit(index))
    }

    pub open spec fn is_supply_spec(self, index: u32) -> bool {
        bit_set(self.config, supply_bit(index))
    }

    /// A usage with no position in any reserve.
    pub fn new(config: u128) -> (r: Self)
        ensures
            r.config == config,
    {
        ReserveUsage { config }
    }

    /// The key under which reserve `index`'s liability token is addressed.
    pub fn liability_key(index: u32) -> (r: u32)
        requires
            index < MAX_RESERVES,
        ensures
            r == 3 * index,
    {
        index * 3
    }

    /// The key under which reserve `index`'s supply token is addressed.
    pub fn supply_key(index: u32) -> (r: u32)
        requires
            index < MAX_RESERVES,
        ensures
            r == 3 * index + 1,
    {
        index * 3 + 1
    }

    /// Whether the liability flag of reserve `index` is set.
    pub fn is_liability(&self, index: u32) -> (r: bool)
        requires
            index < MAX_RESERVES,
        ensures
            r == self.is_liability_spec(index),
    {
        (self.config >> (index as u128 * 3)) & 1 == 1
    }

    /// Whether the supply flag of reserve `index` is set.
    pub fn is_supply(&self, index: u32) -> (r: bool)
        requires
            index < MAX_RESERVES,
        ensures
            r == self.is_supply_spec(index),
    {
        (self.config >> (index as u128 * 3 + 1)) & 1 == 1
    }

    /// Whether the supply flag of reserve `index` is set: supplied tokens count as collateral.
    pub fn is_collateral(&self, index: u32) -> (r: bool)
        requires
            index < MAX_RESERVES,
        ensures
            r == self.is_supply_spec(index),
    {
        self.is_supply(index)
    }

    /// Whether either flag of reserve `index` is set.
    pub fn is_active_reserve(&self, index: u32) -> (r: bool)
        requires
            index < MAX_RESERVES,
        ensures
            r == (self.is_liability_spec(index) || self.is_supply_spec(index)),
    {
        self.is_liability(index) || self.is_supply(index)
    }

    fn set_bit(&mut self, k: u128, value: bool)
        requires
            k < 128,
        ensures
            value ==> final(self).config == old(self).config | (1u128 << k),
            forall|j: u128| #![trigger bit_set(final(self).config, j)]
                j < 128 ==> bit_set(final(self).config, j) == if j == k {
                    value
                } else {
                    bit_set(old(self).config, j)
                },
    {
        let c = self.config;
        if value {
            self.config = c | (1u128 << k);
            assert forall|j: u128| j < 128 implies bit_set(c | (1u128 << k), j) == (j == k
                || bit_set(c, j)) by {
                lemma_or_sets_bit(c, k, j);
            }
        } else {
            self.config = c & !(1u128 << k);
            assert forall|j: u128| j < 128 implies bit_set(c & !(1u128 << k), j) == (j != k
                && bit_set(c, j)) by {
                lemma_and_not_clears_bit(c, k, j);
            }
        }
    }

    /// Sets or clears the liability flag of reserve `index`; every other flag stays.
    pub fn set_liability(&mut self, index: u32, is_liability: bool)
        requires
            index < MAX_RESERVES,
        ensures
            is_liability ==> final(self).config == old(self).config | (1u128 << liability_bit(index)),
            final(self).is_liability_spec(index) == is_liability,
            forall|j: u128| #![trigger bit_set(final(self).config, j)]
                j < 128 && j != liability_bit(index) ==> bit_set(final(self).config, j)
                    == bit_set(old(self).config, j),
    {
        self.set_bit(index as u128 * 3, is_liability);
    }

    /// Sets or clears the supply flag of reserve `index`; every other flag stays.
    pub fn set_supply(&mut self, index: u32, is_supply: bool)
        requires
            index < MAX_RESERVES,
        ensures
            is_supply ==> final(self).config == old(self).config | (1u128 << supply_bit(index)),
            final(self).is_supply_spec(index) == is_supply,
            forall|j: u128| #![trigger bit_set(final(self).config, j)]
                j < 128 && j != supply_bit(index) ==> bit_set(final(self).config, j)
                    == bit_set(old(self).config, j),
    {
        self.set_bit(index as u128 * 3 + 1, is_supply);
    }
}

/// A usage whose integer is zero has no flag set, for any reserve.
pub proof fn lemma_empty_usage_inactive(index: u32)
    requires
        index < MAX_RESERVES,
    ensures
        !(ReserveUsage { config: 0 }).is_liability_spec(index),
        !(ReserveUsage { config: 0 }).is_supply_spec(index),
{
    lemma_zero_has_no_bits(liability_bit(index));
    lemma_zero_has_no_bits(supply_bit(index));
}

} // verus!
