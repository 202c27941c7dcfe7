use vstd::prelude::*;

verus! {

/// A growable vector of bits, backed by `bitvec::vec::BitVec`.
///
/// Verus cannot see inside the backing bit-vector, so the struct is opaque
/// and its contents are named by [`bit_seq`]; every method is specified over
/// that name.
#[verifier::external_body]
pub struct BitFlags {
    bits: bitvec::vec::BitVec,
}

/// The bits held by a [`BitFlags`], in index order.
pub uninterp spec fn bit_seq(b: BitFlags) -> Seq<bool>;

/// Number of `true` bits in a sequence.
pub open spec fn count_trues(s: Seq<bool>) -> nat
    decreases s.len(),
{
    if s.len() == 0 {
        0
    } else {
        count_trues(s.drop_last()) + if s.last() {
            1nat
        } else {
            0nat
        }
    }
}

/// Number of `false` bits in a sequence.
pub open spec fn count_falses(s: Seq<bool>) -> nat
    decreases s.len(),
{
    if s.len() == 0 {
        0
    } else {
        count_falses(s.drop_last()) + if s.last() {
            0nat
        } else {
            1nat
        }
    }
}

pub proof fn lemma_count_split(s: Seq<bool>)
    ensures
        count_trues(s) + count_falses(s) == s.len(),
    decreases s.len(),
{
    if s.len() > 0 {
        lemma_count_split(s.drop_last());
    }
}

/// Extending a prefix by one bit adds that bit's contribution to the count.
pub proof fn lemma_count_falses_take_succ(s: Seq<bool>, i: int)
    requires
        0 <= i < s.len(),
    ensures
        count_falses(s.take(i + 1)) == count_falses(s.take(i)) + if s[i] {
            0int
        } else {
            1int
        },
{
    assert(s.take(i + 1).drop_last() =~= s.take(i));
    assert(s.take(i + 1).last() == s[i]);
}

pub proof fn lemma_count_falses_take_full(s: Seq<bool>)
    ensures
        count_falses(s.take(s.len() as int)) == count_falses(s),
{
    assert(s.take(s.len() as int) =~= s);
}

impl BitFlags {
    /// Relies on `BitVec::new`: creates an empty bit-vector.
    #[verifier::external_body]
    pub(crate) fn new() -> (r: BitFlags)
        ensures
            bit_seq(r) == Seq::<bool>::empty(),
    {
        BitFlags { bits: bitvec::vec::BitVec::new() }
    }

    /// Relies on `BitVec::push`: appends one bit at the back.
    #[verifier::external_body]
    pub(crate) fn push(&mut self, v: bool)
        ensures
            bit_seq(*final(self)) == bit_seq(*old(self)).push(v),
    {
        self.bits.push(v)
    }

    /// Relies on `BitVec::remove`: removes the bit at `index`, shifting the
    /// later bits one position down, and returns it.
    #[verifier::external_body]
    pub(crate) fn remove(&mut self, index: usize) -> (r: bool)
        requires
            index < bit_seq(*old(self)).len(),
        ensures
            r == bit_seq(*old(self))[index as int],
            bit_seq(*final(self)) == bit_seq(*old(self)).remove(index as int),
    {
        self.bits.remove(index)
    }

    /// Relies on `BitVec::insert`: inserts a bit at `index`, shifting the
    /// later bits one position up.
    #[verifier::external_body]
    pub(crate) fn insert(&mut self, index: usize, v: bool)
        requires
            index <= bit_seq(*old(self)).len(),
        ensures
            bit_seq(*final(self)) == bit_seq(*old(self)).insert(index as int, v),
    {
        self.bits.insert(index, v)
    }

    /// Relies on `BitSlice::set` (reached through `BitVec`'s `DerefMut`):
    /// overwrites the bit at `index`.
    #[verifier::external_body]
    pub(crate) fn set(&mut self, index: usize, v: bool)
        requires
            index < bit_seq(*old(self)).len(),
        ensures
            bit_seq(*final(self)) == bit_seq(*old(self)).update(index as int, v),
    {
        self.bits.set(index, v)
    }

    /// Relies on `BitSlice::fill` (reached through `BitVec`'s `DerefMut`):
    /// writes `v` into every bit, keeping the length.
    #[verifier::external_body]
    pub(crate) fn fill(&mut self, v: bool)
        ensures
            bit_seq(*final(self)) == Seq::new(bit_seq(*old(self)).len(), |i: int| v),
    {
        self.bits.fill(v)
    }

    /// Relies on `BitVec::clear`: removes all bits.
    #[verifier::external_body]
    pub(crate) fn clear(&mut self)
        ensures
            bit_seq(*final(self)) == Seq::<bool>::empty(),
    {
        self.bits.clear()
    }

    /// Relies on `BitVec::len`: the number of bits held.
    #[verifier::external_body]
    pub(crate) fn len(&self) -> (r: usize)
        ensures
            r == bit_seq(*self).len(),
    {
        self.bits.len()
    }

    /// Relies on `BitSlice::count_ones` (reached through `BitVec`'s `Deref`):
    /// the number of bits set to `true`.
    #[verifier::external_body]
    pub(crate) fn count_ones(&self) -> (r: usize)
        ensures
            r == count_trues(bit_seq(*self)),
    {
        self.bits.count_ones()
    }

    /// Relies on `BitSlice`'s `Index` impl (reached through `BitVec`'s
    /// `Deref`): reads the bit at `index`.
    #[verifier::external_body]
    pub(crate) fn get(&self, index: usize) -> (r: bool)
        requires
            index < bit_seq(*self).len(),
        ensures
            r == bit_seq(*self)[index as int],
    {
        self.bits[index]
    }

    /// Index of the `k`-th (0-based) `false` bit, found by a linear scan.
    pub(crate) fn nth_zero(&self, k: usize) -> (r: usize)
        requires
            k < count_falses(bit_seq(*self)),
        ensures
            r < bit_seq(*self).len(),
            !bit_seq(*self)[r as int],
            count_falses(bit_seq(*self).take(r as int)) == k,
    {
        let ghost s = bit_seq(*self);
        let len = self.len();
        let mut i: usize = 0;
        let mut zeros: usize = 0;
        loop
            invariant
                s == bit_seq(*self),
                len == s.len(),
                i <= len,
                zeros == count_falses(s.take(i as int)),
                zeros <= k,
                k < count_falses(s),
            decreases len - i,
        {
            proof {
                if i as int == len {
                    lemma_count_falses_take_full(s);
                    assert(false);
                }
                lemma_count_falses_take_succ(s, i as int);
            }
            let bit = self.get(i);
            if !bit {
                if zeros == k {
                    return i;
                }
                zeros = zeros + 1;
            }
            i = i + 1;
        }
    }
}

} // verus!
