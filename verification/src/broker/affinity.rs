//! Which processor cores a worker is bound to.

use smallvec::SmallVec;
use vstd::prelude::*;

verus! {

/// The cores that a worker is bound to: a `smallvec::SmallVec`.
#[verifier::external_body]
pub struct CpuSet {
    cores: SmallVec<[usize; 16]>,
}

/// The cores in `set`, in order.
pub uninterp spec fn cpu_set_cores(set: CpuSet) -> Seq<usize>;

impl View for CpuSet {
    type V = Seq<usize>;

    open spec fn view(&self) -> Seq<usize> {
        cpu_set_cores(*self)
    }
}

impl CpuSet {
    /// `smallvec::SmallVec::new` makes a vector that holds nothing.
    #[verifier::external_body]
    fn new() -> (set: CpuSet)
        ensures
            cpu_set_cores(set) == Seq::<usize>::empty(),
    {
        CpuSet { cores: SmallVec::new() }
    }

    /// `smallvec::SmallVec::push` appends an item. It panics where the vector would have to grow
    /// beyond what memory can be asked for: it grows to the next power of two, of items that have
    /// at most eight bytes.
    #[verifier::external_body]
    fn push(&mut self, core: usize)
        requires
            16 * (cpu_set_cores(*old(self)).len() + 1) <= isize::MAX,
        ensures
            cpu_set_cores(*final(self)) == cpu_set_cores(*old(self)).push(core),
    {
        self.cores.push(core);
    }

    /// `smallvec::SmallVec::as_slice` gives the items in order.
    #[verifier::external_body]
    fn items(&self) -> (items: &[usize])
        ensures
            items@ == cpu_set_cores(*self),
    {
        self.cores.as_slice()
    }

    /// The cores, in order.
    pub fn as_slice(&self) -> (cores: &[usize])
        ensures
            cores@ == self@,
    {
        self.items()
    }
}

/// What is done about the cores that a worker runs on.
pub enum Affinity {
    /// The worker runs wherever the system puts it.
    Unbound,
    /// The same, and the warning is reported.
    Ignored { warning: String },
    /// The worker is bound to these cores.
    Bound(CpuSet),
}

/// The cores of worker `worker_id`, where each worker gets `threads` of the `available` ones: the
/// workers take them in turn, and begin anew behind the last core.
pub open spec fn worker_cores(threads: nat, worker_id: nat, available: nat) -> Seq<int> {
    Seq::new(threads, |i: int| (threads * worker_id + i) % available as int)
}

/// Whether `cores` are the cores with these numbers, in this order.
pub open spec fn are_cores(cores: Seq<usize>, numbers: Seq<int>) -> bool {
    &&& cores.len() == numbers.len()
    &&& forall|i: int| 0 <= i < cores.len() ==> #[trigger] cores[i] == numbers[i]
}

/// What is said where the number of cores is not known.
pub open spec fn unknown_cores_warning(error: Seq<char>) -> Seq<char> {
    "Failed to get thread count: "@ + error + ". Thread affinity will not be set"@
}

/// Decides what is done about the cores that worker `worker_id` runs on, where each worker is to
/// get `set_thread_affinity` of the `available` ones.
pub fn worker_affinity(
    set_thread_affinity: Option<usize>,
    available: Result<usize, String>,
    worker_id: usize,
) -> (affinity: Affinity)
    requires
        match (set_thread_affinity, available) {
            (Some(threads), Ok(available)) => threads > 0 ==> {
                &&& available > 0
                &&& threads * worker_id <= usize::MAX
                &&& available - 1 + threads <= usize::MAX
                &&& 16 * threads <= isize::MAX
            },
            _ => true,
        },
    ensures
        match (set_thread_affinity, available) {
            (None, _) => affinity is Unbound,
            (Some(threads), available) => if threads == 0 {
                affinity matches Affinity::Ignored { warning } && warning@
                    == "Ignoring set_thread_affinity: Requested 0 threads"@
            } else {
                match available {
                    Ok(available) => affinity matches Affinity::Bound(set) && are_cores(
                        set@,
                        worker_cores(threads as nat, worker_id as nat, available as nat),
                    ) && set@.len() == threads && forall|i: int|
                        0 <= i < threads ==> #[trigger] set@[i] == (threads * worker_id + i)
                            % available as int,
                    Err(error) => affinity matches Affinity::Ignored { warning } && warning@
                        == unknown_cores_warning(error@) && warning@
                        == "Failed to get thread count: "@ + error@
                        + ". Thread affinity will not be set"@,
                }
            },
        },
{
    let threads: usize = match set_thread_affinity {
        Some(threads) => threads,
        None => {
            return Affinity::Unbound;
        },
    };
    if threads == 0 {
        return Affinity::Ignored {
            warning: "Ignoring set_thread_affinity: Requested 0 threads".to_owned(),
        };
    }
    match available {
        Ok(available) => {
            let start_thread: usize = (threads * worker_id) % available;
            let mut cpu_set: CpuSet = CpuSet::new();
            let mut taken: usize = 0;
            while taken < threads
                invariant
                    taken <= threads,
                    taken == cpu_set@.len(),
                    0 < available,
                    start_thread == (threads * worker_id) % available as int,
                    start_thread + threads <= usize::MAX,
                    16 * threads <= isize::MAX,
                    forall|i: int|
                        0 <= i < taken ==> #[trigger] cpu_set@[i] == (start_thread + i)
                            % available as int,
                decreases threads - taken,
            {
                cpu_set.push((start_thread + taken) % available);
                taken = taken + 1;
            }
            proof {
                let base = threads * worker_id;
                let cores = worker_cores(threads as nat, worker_id as nat, available as nat);
                assert forall|i: int| 0 <= i < threads implies #[trigger] cpu_set@[i]
                    == cores[i] by {
                    vstd::arithmetic::div_mod::lemma_add_mod_noop_right(
                        i,
                        base,
                        available as int,
                    );
                }
                assert(are_cores(cpu_set@, cores));
            }
            Affinity::Bound(cpu_set)
        },
        Err(error) => {
            let mut warning: String = "Failed to get thread count: ".to_owned();
            warning.append(error.as_str());
            warning.append(". Thread affinity will not be set");
            Affinity::Ignored { warning }
        },
    }
}

/// What is said where worker `worker_id` could not be bound to its cores.
pub open spec fn unbound_warning(worker_id: usize, error: Seq<char>) -> Seq<char> {
    "Failed to set thread affinity for worker "@ + crate::decimal::decimal(worker_id as nat)
        + ": "@ + error
}

/// What is said where worker `worker_id` could not be bound to its cores.
pub fn affinity_warning(worker_id: usize, error: &str) -> (warning: String)
    ensures
        warning@ == unbound_warning(worker_id, error@),
        warning@ == "Failed to set thread affinity for worker "@ + crate::decimal::decimal(
            worker_id as nat,
        ) + ": "@ + error@,
{
    let mut warning: String = "Failed to set thread affinity for worker ".to_owned();
    crate::decimal::push_decimal(&mut warning, worker_id as u64);
    warning.append(": ");
    warning.append(error);
    warning
}

/// A worker gets as many cores as were asked for, all of which there are. It gets none of them twice
/// where so many are there.
pub proof fn cores_exist_and_differ(threads: nat, worker_id: nat, available: nat)
    requires
        available > 0,
    ensures
        worker_cores(threads, worker_id, available).len() == threads,
        forall|i: int|
            0 <= i < threads ==> 0 <= #[trigger] worker_cores(threads, worker_id, available)[i]
                < available,
        threads <= available ==> worker_cores(threads, worker_id, available).no_duplicates(),
{
    let cores = worker_cores(threads, worker_id, available);
    let base = threads * worker_id;
    if threads <= available {
        assert forall|i: int, j: int| 0 <= i < j < cores.len() implies cores[i] != cores[j] by {
            let modulus = available as int;
            vstd::arithmetic::div_mod::lemma_fundamental_div_mod(base + i, modulus);
            vstd::arithmetic::div_mod::lemma_fundamental_div_mod(base + j, modulus);
            let low = (base + i) / modulus;
            let high = (base + j) / modulus;
            if cores[i] == cores[j] {
                assert(modulus * high - modulus * low == modulus * (high - low))
                    by (nonlinear_arith);
                assert(false) by (nonlinear_arith)
                    requires
                        modulus * (high - low) == j - i,
                        0 < j - i < modulus,
                ;
            }
        }
    }
}

/// Each worker begins behind the last core of the one before it.
pub proof fn workers_take_cores_in_turn(threads: nat, worker_id: nat, available: nat)
    requires
        threads > 0,
        available > 0,
    ensures
        worker_cores(threads, worker_id + 1, available)[0] == (worker_cores(
            threads,
            worker_id,
            available,
        )[threads - 1] + 1) % available as int,
{
    let last = threads * worker_id + threads - 1;
    vstd::arithmetic::div_mod::lemma_add_mod_noop_right(1, last, available as int);
    assert(threads * (worker_id + 1) == last + 1) by (nonlinear_arith)
        requires
            last == threads * worker_id + threads - 1,
    ;
}

/// The first worker begins with core zero, and each further core of a worker follows the one before it;
/// behind the last core comes the first.
pub proof fn cores_follow_each_other(threads: nat, worker_id: nat, available: nat, at: int)
    requires
        available > 0,
        0 <= at < threads,
    ensures
        worker_cores(threads, 0, available)[0] == 0,
        at + 1 < threads ==> worker_cores(threads, worker_id, available)[at + 1] == if worker_cores(
            threads,
            worker_id,
            available,
        )[at] + 1 == available {
            0
        } else {
            worker_cores(threads, worker_id, available)[at] + 1
        },
{
    let base = threads * worker_id;
    let modulus = available as int;
    assert(threads * 0 == 0) by (nonlinear_arith);
    vstd::arithmetic::div_mod::lemma_small_mod(0, available);
    vstd::arithmetic::div_mod::lemma_fundamental_div_mod(base + at, modulus);
    let core = (base + at) % modulus;
    let rounds = (base + at) / modulus;
    assert(base + at == modulus * rounds + core);
    if core + 1 == modulus {
        assert(base + at + 1 == modulus * (rounds + 1)) by (nonlinear_arith)
            requires
                base + at == modulus * rounds + core,
                core + 1 == modulus,
        ;
        vstd::arithmetic::div_mod::lemma_fundamental_div_mod_converse(
            base + at + 1,
            modulus,
            rounds + 1,
            0,
        );
    } else {
        vstd::arithmetic::div_mod::lemma_fundamental_div_mod_converse(
            base + at + 1,
            modulus,
            rounds,
            core + 1,
        );
    }
    assert(base + at + 1 == base + (at + 1));
}

} // verus!
