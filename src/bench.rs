use vstd::prelude::*;
use vstd::arithmetic::div_mod::{
    lemma_add_mod_noop,
    lemma_fundamental_div_mod,
    lemma_fundamental_div_mod_converse_div,
    lemma_mod_sub_multiples_vanish,
    lemma_mod_twice,
    lemma_small_mod,
};
use vstd::wrapping::i64_specs;
use crate::kernel_object::{
    lemma_mask_in_range,
    lemma_mask_nonnegative,
    worked_data,
    DATA_LEN,
    KernelObject,
    MASK,
};

verus! {

/// The number of iterations of a full run.
pub const ITERATIONS: i64 = 100_000_000;

/// The number of slots in the pool.
pub const ARRAY_SIZE: usize = 1000;

/// One iteration in this many reports progress.
pub const REPORT_EVERY: i64 = 10_000_000;

/// The modulus that masking a sum of two non-negative words reduces by.
pub open spec fn checksum_modulus() -> int {
    MASK as int + 1
}

/// The accumulator after `n` iterations: each iteration `t` adds the first
/// data word of the object it worked on, which is `t`, and masks the sum.
pub open spec fn checksum(n: int) -> int
    decreases n,
{
    if n <= 0 {
        0
    } else {
        (checksum(n - 1) + (n - 1)) % checksum_modulus()
    }
}

/// The accumulator after `n` iterations is the sum `0 + 1 + ... + (n - 1)`
/// reduced modulo 2^63: it depends on `n` alone, not on the pool size nor on
/// anything else of the run.
pub proof fn lemma_checksum_closed_form(n: nat)
    ensures
        checksum(n as int) == (n * (n - 1) / 2) % checksum_modulus(),
    decreases n,
{
    if n > 0 {
        let m = (n - 1) as nat;
        lemma_checksum_closed_form(m);
        let x = m * (m - 1) / 2;
        assert(x + m == n * (n - 1) / 2) by (nonlinear_arith)
            requires
                x == m * (m - 1) / 2,
                n == m + 1,
                m >= 0,
        ;
        lemma_add_mod_noop(x, m as int, checksum_modulus());
        lemma_add_mod_noop(x % checksum_modulus(), m as int, checksum_modulus());
        lemma_mod_twice(x, checksum_modulus());
    } else {
        assert(n * (n - 1) == 0) by (nonlinear_arith)
            requires
                n == 0,
        ;
    }
}

/// Adding two non-negative words with wrap-around and clearing the sign bit
/// is addition modulo 2^63.
pub proof fn lemma_masked_sum(a: i64, b: i64)
    requires
        0 <= a,
        0 <= b,
    ensures
        i64_specs::wrapping_add(a, b) & MASK == (a + b) % checksum_modulus(),
{
    let w = i64_specs::wrapping_add(a, b);
    if a + b <= i64::MAX {
        lemma_mask_nonnegative(w);
        lemma_small_mod((a + b) as nat, checksum_modulus() as nat);
    } else {
        assert(w == a + b - 0x1_0000_0000_0000_0000);
        assert(w & 0x7FFF_FFFF_FFFF_FFFFi64 == w + 0x8000_0000_0000_0000) by (bit_vector)
            requires
                w < 0,
        ;
        lemma_small_mod((a + b - checksum_modulus()) as nat, checksum_modulus() as nat);
        lemma_mod_sub_multiples_vanish(a + b, checksum_modulus());
    }
}

/// Whether `id` is the latest iteration, among the first `n`, that selects
/// slot `slot` of a pool of `size` slots: it lies in `0..n`, within the last
/// `size` iterations, and selects that slot.
pub open spec fn is_latest_for_slot(id: int, n: int, size: int, slot: int) -> bool {
    &&& 0 <= id < n
    &&& n - size <= id
    &&& id % size == slot
}

/// Two iterations less than `size` apart that select the same slot are the
/// same iteration.
proof fn lemma_same_slot_in_window(t1: int, t2: int, size: int)
    requires
        0 <= t1,
        0 <= t2,
        0 < size,
        t1 % size == t2 % size,
        t1 - size < t2 < t1 + size,
    ensures
        t1 == t2,
{
    lemma_fundamental_div_mod(t1, size);
    lemma_fundamental_div_mod(t2, size);
    let q1 = t1 / size;
    let q2 = t2 / size;
    assert(q1 == q2) by (nonlinear_arith)
        requires
            t1 - t2 == size * q1 - size * q2,
            -size < t1 - t2 < size,
            0 < size,
    ;
}

/// Whether `pool` is what `n` iterations leave in a pool of `size` slots:
/// `min(n, size)` objects, each the latest to select its slot, worked on.
pub open spec fn is_pool_after(pool: Seq<KernelObject>, n: int, size: int) -> bool {
    &&& pool.len() == if n < size { n } else { size }
    &&& forall|j: int|
        0 <= j < pool.len() ==> {
            &&& is_latest_for_slot((#[trigger] pool[j]).id as int, n, size, j)
            &&& pool[j].data@ == worked_data(pool[j].id)
        }
}

/// The number of iterations among the first `n` that report progress, with
/// one in every `every` reporting, iteration 0 first.
pub open spec fn reports_within(n: int, every: int) -> int {
    if n <= 0 {
        0
    } else {
        (n - 1) / every + 1
    }
}

/// The progress record of iteration `t`.
pub open spec fn progress_at(t: int) -> Progress {
    Progress { iteration: t as i64, total: checksum(t + 1) as i64 }
}

/// One more iteration `t` adds a report exactly when `t` is a multiple of
/// `every`, and then the reports before it number `t / every`.
proof fn lemma_reports_step(t: int, every: int)
    requires
        0 <= t,
        0 < every,
    ensures
        reports_within(t + 1, every) == reports_within(t, every) + if t % every == 0 {
            1int
        } else {
            0int
        },
        t % every == 0 ==> reports_within(t, every) == t / every && t == (t / every) * every,
{
    lemma_fundamental_div_mod(t, every);
    let q = t / every;
    let r = t % every;
    assert(reports_within(t + 1, every) == q + 1);
    assert(0 <= r < every);
    assert(q * every == every * q) by (nonlinear_arith);
    assert((q - 1) * every == q * every - every) by (nonlinear_arith);
    if t > 0 {
        if r == 0 {
            lemma_fundamental_div_mod_converse_div(t - 1, every, q - 1, every - 1);
        } else {
            lemma_fundamental_div_mod_converse_div(t - 1, every, q, r - 1);
        }
    }
}

/// What one iteration reports: its number and the accumulator after it.
#[derive(PartialEq, Eq, Structural, Clone, Copy, Debug)]
pub struct Progress {
    pub iteration: i64,
    pub total: i64,
}

/// The running benchmark: the pool, the accumulator, the number of
/// iterations done, and the two sizes it was made with.
pub struct Benchmark {
    pool: Vec<KernelObject>,
    total: i64,
    iteration: i64,
    array_size: usize,
    report_every: i64,
}

impl Benchmark {
    /// The objects in the pool, by slot.
    pub closed spec fn pool_view(&self) -> Seq<KernelObject> {
        self.pool@
    }

    /// The accumulator.
    pub closed spec fn total_view(&self) -> int {
        self.total as int
    }

    /// The number of iterations done.
    pub closed spec fn iteration_view(&self) -> int {
        self.iteration as int
    }

    /// The number of slots in the pool.
    pub closed spec fn array_size_view(&self) -> int {
        self.array_size as int
    }

    /// The spacing of the iterations that report progress.
    pub closed spec fn report_every_view(&self) -> int {
        self.report_every as int
    }

    /// The state is the one that `iteration_view()` iterations lead to.
    pub open spec fn wf(&self) -> bool {
        &&& self.array_size_view() > 0
        &&& self.report_every_view() > 0
        &&& 0 <= self.iteration_view()
        &&& is_pool_after(self.pool_view(), self.iteration_view(), self.array_size_view())
        &&& self.total_view() == checksum(self.iteration_view())
    }

    /// What iteration `t` reports, if anything.
    pub open spec fn report_of(&self, t: int) -> Option<Progress> {
        if t % self.report_every_view() == 0 {
            Some(progress_at(t))
        } else {
            None
        }
    }

    /// An empty pool of `array_size` slots, an accumulator of zero, and no
    /// iteration done; every `report_every`-th iteration reports progress.
    pub fn new(array_size: usize, report_every: i64) -> (r: Self)
        requires
            array_size > 0,
            report_every > 0,
        ensures
            r.wf(),
            r.iteration_view() == 0,
            r.array_size_view() == array_size,
            r.report_every_view() == report_every,
            r.pool_view().len() == 0,
            r.total_view() == 0,
    {
        Benchmark {
            pool: Vec::with_capacity(array_size),
            total: 0,
            iteration: 0,
            array_size,
            report_every,
        }
    }

    /// The number of iterations done.
    pub fn iteration(&self) -> (r: i64)
        ensures
            r == self.iteration_view(),
    {
        self.iteration
    }

    /// The accumulator.
    pub fn total(&self) -> (r: i64)
        ensures
            r == self.total_view(),
    {
        self.total
    }

    /// The number of slots in the pool.
    pub fn array_size(&self) -> (r: usize)
        ensures
            r == self.array_size_view(),
    {
        self.array_size
    }

    /// The number of objects in the pool so far.
    pub fn pool_len(&self) -> (r: usize)
        ensures
            r == self.pool_view().len(),
    {
        self.pool.len()
    }

    /// The object in slot `index`.
    pub fn object(&self, index: usize) -> (r: &KernelObject)
        requires
            index < self.pool_view().len(),
        ensures
            *r == self.pool_view()[index as int],
    {
        &self.pool[index]
    }

    /// Runs one iteration `t`: a new object with identifier `t` takes slot
    /// `t % array_size` (appended while the pool is not full, replacing the
    /// old one after), is worked on, and its first data word is added to the
    /// accumulator, which is then masked. Returns the iteration and the new
    /// accumulator when `t` is a multiple of `report_every`.
    pub fn step(&mut self) -> (r: Option<Progress>)
        requires
            old(self).wf(),
            old(self).iteration_view() < i64::MAX,
        ensures
            final(self).wf(),
            final(self).iteration_view() == old(self).iteration_view() + 1,
            final(self).array_size_view() == old(self).array_size_view(),
            final(self).report_every_view() == old(self).report_every_view(),
            r == old(self).report_of(old(self).iteration_view()),
    {
        let n = self.iteration;
        let size = self.array_size;
        let index = ((n as u64) % (size as u64)) as usize;
        assert(index as int == (n as int) % (size as int));
        let ghost old_pool = self.pool@;

        proof {
            if n < size {
                lemma_small_mod(n as nat, size as nat);
            }
        }
        let mut obj = KernelObject::new(n);
        obj.perform_work();
        if index >= self.pool.len() {
            self.pool.push(obj);
        } else {
            self.pool.set(index, obj);
        }
        proof {
            assert forall|j: int| 0 <= j < self.pool@.len() implies {
                &&& is_latest_for_slot((#[trigger] self.pool@[j]).id as int, n + 1, size as int, j)
                &&& self.pool@[j].data@ == worked_data(self.pool@[j].id)
            } by {
                if j != index {
                    let t = old_pool[j].id as int;
                    if t == n - size {
                        lemma_mod_sub_multiples_vanish(n as int, size as int);
                    }
                }
            }
        }

        let v = self.pool[index].get_data(0);
        proof {
            lemma_mask_nonnegative(n);
            lemma_mask_in_range(self.total);
            lemma_masked_sum(self.total, v);
        }
        self.total = self.total.wrapping_add(v) & MASK;
        self.iteration = n + 1;

        if n % self.report_every == 0 {
            Some(Progress { iteration: n, total: self.total })
        } else {
            None
        }
    }
}

/// Two runs with the same pool size that have done the same number of
/// iterations agree: same accumulator, and in each slot an object with the
/// same identifier and the same data.
pub proof fn lemma_runs_agree(a: Benchmark, b: Benchmark)
    requires
        a.wf(),
        b.wf(),
        a.iteration_view() == b.iteration_view(),
        a.array_size_view() == b.array_size_view(),
    ensures
        a.total_view() == b.total_view(),
        a.pool_view().len() == b.pool_view().len(),
        forall|j: int|
            0 <= j < a.pool_view().len() ==> (#[trigger] a.pool_view()[j]).id == b.pool_view()[j].id
                && a.pool_view()[j].data@ == b.pool_view()[j].data@,
{
    assert forall|j: int| 0 <= j < a.pool_view().len() implies (#[trigger] a.pool_view()[j]).id
        == b.pool_view()[j].id && a.pool_view()[j].data@ == b.pool_view()[j].data@ by {
        lemma_same_slot_in_window(
            a.pool_view()[j].id as int,
            b.pool_view()[j].id as int,
            a.array_size_view(),
        );
    }
}

/// The accumulator and every data word in the pool lie in `0..=MASK`.
pub proof fn lemma_values_in_range(b: Benchmark)
    requires
        b.wf(),
    ensures
        0 <= b.total_view() <= MASK,
        forall|j: int, i: int|
            0 <= j < b.pool_view().len() && 0 <= i < DATA_LEN ==> 0 <= #[trigger] b.pool_view()[j].data@[i]
                <= MASK,
{
    assert forall|j: int, i: int| 0 <= j < b.pool_view().len() && 0 <= i < DATA_LEN implies 0
        <= #[trigger] b.pool_view()[j].data@[i] <= MASK by {
        let id = b.pool_view()[j].id;
        lemma_mask_in_range(i64_specs::wrapping_add(id, i as i64));
    }
}

/// The pool never holds more than `array_size` objects, and holds exactly
/// that many once at least `array_size` iterations have run.
pub proof fn lemma_pool_bounded(b: Benchmark)
    requires
        b.wf(),
    ensures
        b.pool_view().len() <= b.array_size_view(),
        b.iteration_view() >= b.array_size_view() ==> b.pool_view().len() == b.array_size_view(),
{
}

/// The object in each slot carries the largest iteration, among those run,
/// that selects that slot.
pub proof fn lemma_slot_is_latest(b: Benchmark, slot: int)
    requires
        b.wf(),
        0 <= slot < b.pool_view().len(),
    ensures
        ({
            let id = b.pool_view()[slot].id as int;
            &&& 0 <= id < b.iteration_view()
            &&& id % b.array_size_view() == slot
            &&& forall|t: int|
                id < t < b.iteration_view() ==> #[trigger] (t % b.array_size_view()) != slot
        }),
{
    let id = b.pool_view()[slot].id as int;
    assert forall|t: int| id < t < b.iteration_view() implies #[trigger] (t % b.array_size_view())
        != slot by {
        if t % b.array_size_view() == slot {
            lemma_same_slot_in_window(t, id, b.array_size_view());
        }
    }
}

/// Runs `iterations` iterations (none when it is not positive) on a new
/// pool of `array_size` slots, and returns the final state with the progress
/// records of the iterations that are multiples of `report_every`, in order.
pub fn run(iterations: i64, array_size: usize, report_every: i64) -> (r: (Benchmark, Vec<Progress>))
    requires
        array_size > 0,
        report_every > 0,
    ensures
        r.0.wf(),
        r.0.iteration_view() == if iterations < 0 { 0 } else { iterations as int },
        r.0.array_size_view() == array_size,
        r.0.report_every_view() == report_every,
        r.1@.len() == reports_within(iterations as int, report_every as int),
        forall|k: int| 0 <= k < r.1@.len() ==> #[trigger] r.1@[k] == progress_at(k * report_every),
{
    let mut bench = Benchmark::new(array_size, report_every);
    let mut progress: Vec<Progress> = Vec::new();
    while bench.iteration < iterations
        invariant
            bench.wf(),
            bench.array_size_view() == array_size,
            bench.report_every_view() == report_every,
            bench.iteration_view() <= if iterations < 0 { 0 } else { iterations as int },
            progress@.len() == reports_within(bench.iteration_view(), report_every as int),
            forall|k: int| 0 <= k < progress@.len() ==> #[trigger] progress@[k] == progress_at(k * report_every),
        decreases iterations - bench.iteration,
    {
        let ghost t = bench.iteration as int;
        proof {
            lemma_reports_step(t, report_every as int);
        }
        match bench.step() {
            Some(p) => {
                progress.push(p);
            }
            None => {}
        }
    }
    (bench, progress)
}

} // verus!
