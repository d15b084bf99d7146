use vstd::prelude::*;
use vstd::wrapping::i64_specs;

verus! {

/// Number of data words that each kernel object carries.
pub const DATA_LEN: usize = 64;

/// Clears the sign bit of a 64-bit word.
pub const MASK: i64 = 0x7FFF_FFFF_FFFF_FFFF;

/// The value that `perform_work` stores at position `i` of an object with
/// identifier `id`: the wrapping sum `id + i`, with its sign bit cleared.
pub open spec fn work_value(id: i64, i: int) -> i64 {
    i64_specs::wrapping_add(id, i as i64) & MASK
}

/// The whole data array of an object with identifier `id` once it has been
/// worked on.
pub open spec fn worked_data(id: i64) -> Seq<i64> {
    Seq::new(DATA_LEN as nat, |i: int| work_value(id, i))
}

/// Masking any word gives a value in `0..=MASK`.
pub proof fn lemma_mask_in_range(x: i64)
    ensures
        0 <= x & MASK <= MASK,
{
    assert(0 <= x & 0x7FFF_FFFF_FFFF_FFFFi64 <= 0x7FFF_FFFF_FFFF_FFFFi64) by (bit_vector);
}

/// Masking a non-negative word leaves it unchanged.
pub proof fn lemma_mask_nonnegative(x: i64)
    requires
        0 <= x,
    ensures
        x & MASK == x,
{
    assert(x & 0x7FFF_FFFF_FFFF_FFFFi64 == x) by (bit_vector)
        requires
            0 <= x,
    ;
}

/// A unit of work: an identifier and a fixed-size block of data words.
pub struct KernelObject {
    pub id: i64,
    pub data: [i64; 64],
}

impl KernelObject {
    /// Creates an object with the given identifier and all data words zero.
    pub fn new(id: i64) -> (r: Self)
        ensures
            r.id == id,
            r.data@ == Seq::new(DATA_LEN as nat, |i: int| 0i64),
    {
        let r = KernelObject { id, data: [0; 64] };
        assert(r.data@ =~= Seq::new(DATA_LEN as nat, |i: int| 0i64));
        r
    }

    /// Sets every data word `i` to `(id + i) & MASK`, with a wrapping
    /// addition. The result depends on the identifier alone.
    pub fn perform_work(&mut self)
        ensures
            final(self).id == old(self).id,
            final(self).data@ == worked_data(old(self).id),
            forall|i: int| 0 <= i < DATA_LEN ==> 0 <= #[trigger] final(self).data@[i] <= MASK,
    {
        let mut i: usize = 0;
        while i < DATA_LEN
            invariant
                i <= DATA_LEN,
                self.id == old(self).id,
                forall|k: int| 0 <= k < i ==> self.data@[k] == work_value(self.id, k),
            decreases DATA_LEN - i,
        {
            self.data[i] = self.id.wrapping_add(i as i64) & MASK;
            i = i + 1;
        }
        assert(self.data@ =~= worked_data(self.id));
        assert forall|i: int| 0 <= i < DATA_LEN implies 0 <= #[trigger] self.data@[i] <= MASK by {
            lemma_mask_in_range(i64_specs::wrapping_add(self.id, i as i64));
        }
    }

    /// Returns the data word at `index`.
    pub fn get_data(&self, index: usize) -> (r: i64)
        requires
            index < DATA_LEN,
        ensures
            r == self.data@[index as int],
    {
        self.data[index]
    }
}

} // verus!
