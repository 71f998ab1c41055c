use vstd::prelude::*;

verus! {

/// A set of small non-negative integers (each below 32), one bit per member.
#[derive(Clone, Copy, Debug, PartialEq, Eq, Hash, Structural)]
pub struct BitSet(pub u32);

/// Whether bit `i` of `bits` is set.
pub open spec fn has_bit(bits: u32, i: u32) -> bool {
    (bits >> i) & 1u32 == 1u32
}

proof fn lemma_bit_of_or4(a: u32, b: u32, c: u32, d: u32, i: u32)
    by (bit_vector)
    requires
        a < 32,
        b < 32,
        c < 32,
        d < 32,
        i < 32,
    ensures
        has_bit((1u32 << a) | (1u32 << b) | (1u32 << c) | (1u32 << d), i) <==> (i == a || i == b
            || i == c || i == d),
{
}

proof fn lemma_bit_of_and(x: u32, y: u32, i: u32)
    by (bit_vector)
    requires
        i < 32,
    ensures
        has_bit(x & y, i) <==> (has_bit(x, i) && has_bit(y, i)),
{
}

proof fn lemma_no_bit_of_zero(i: u32)
    by (bit_vector)
    requires
        i < 32,
    ensures
        !has_bit(0u32, i),
{
}

proof fn lemma_next_bit(x: u32, n: u32)
    by (bit_vector)
    requires
        n < 32,
        x >> n != 0,
        !has_bit(x, n),
    ensures
        n + 1 < 32,
        x >> ((n + 1) as u32) != 0,
{
}

/// Some bit at position `n` or above is set in `x` when `x >> n` is not zero.
proof fn lemma_set_bit_from(x: u32, n: u32) -> (i: u32)
    requires
        n < 32,
        x >> n != 0,
    ensures
        n <= i < 32,
        has_bit(x, i),
    decreases 32 - n,
{
    if has_bit(x, n) {
        n
    } else {
        lemma_next_bit(x, n);
        lemma_set_bit_from(x, (n + 1) as u32)
    }
}

impl BitSet {
    /// The members of the set.
    pub open spec fn view(&self) -> Set<int> {
        Set::new(|i: int| 0 <= i < 32 && has_bit(self.0, i as u32))
    }

    /// The set `{a, b, c, d}`.
    pub fn from_4bits(a: u32, b: u32, c: u32, d: u32) -> (r: BitSet)
        requires
            a < 32,
            b < 32,
            c < 32,
            d < 32,
        ensures
            r@ == set![a as int, b as int, c as int, d as int],
    {
        let r = BitSet((1u32 << a) | (1u32 << b) | (1u32 << c) | (1u32 << d));
        assert forall|i: int| 0 <= i < 32 implies (#[trigger] has_bit(r.0, i as u32) <==> (i == a || i == b
            || i == c || i == d)) by {
            lemma_bit_of_or4(a, b, c, d, i as u32);
        }
        assert(r@ =~= set![a as int, b as int, c as int, d as int]);
        r
    }

    /// The members common to `self` and `other`.
    pub fn intersect(self, other: BitSet) -> (r: BitSet)
        ensures
            r@ == self@.intersect(other@),
    {
        let r = BitSet(self.0 & other.0);
        assert forall|i: int| 0 <= i < 32 implies (#[trigger] has_bit(r.0, i as u32) <==> (has_bit(
            self.0,
            i as u32,
        ) && has_bit(other.0, i as u32))) by {
            lemma_bit_of_and(self.0, other.0, i as u32);
        }
        assert(r@ =~= self@.intersect(other@));
        r
    }

    /// Whether the set has no members.
    pub fn empty(&self) -> (r: bool)
        ensures
            r == self@.is_empty(),
    {
        if self.0 == 0 {
            assert forall|i: int| 0 <= i < 32 implies !#[trigger] has_bit(self.0, i as u32) by {
                lemma_no_bit_of_zero(i as u32);
            }
            assert(self@ =~= Set::<int>::empty());
            true
        } else {
            let x = self.0;
            assert(x >> 0u32 != 0) by (bit_vector)
                requires
                    x != 0,
            ;
            let ghost i = lemma_set_bit_from(x, 0);
            assert(self@.contains(i as int));
            false
        }
    }

    /// The bit pattern of the set: bit `i` is set exactly when `i` is a member.
    pub fn as_u32(&self) -> (r: u32)
        ensures
            r == self.0,
    {
        self.0
    }
}

} // verus!
