//! The scheduling instance: jobs with processing times, due dates and weights.
use vstd::prelude::*;

verus! {

/// Largest job count an instance may hold.
pub const MAX_JOBS: usize = 1000;

/// Largest processing time, due date or weight a job may hold.  Together with
/// `MAX_JOBS` this keeps every tardiness computation inside `u64`.
pub const MAX_VALUE: u64 = 1000000;

/// An immutable single-machine scheduling instance.  Job `0` is the virtual
/// start job: it is the fixed tour origin, and it is the only job whose
/// processing time may be zero.
#[derive(Debug)]
pub struct Problem {
    pub n: usize,
    pub processing_time: Vec<u64>,
    pub weight: Vec<u64>,
    pub due_date: Vec<u64>,
}

impl Problem {
    /// The instance invariant: the three attribute sequences are parallel
    /// arrays of length `n`, every value is bounded by `MAX_VALUE`, and every
    /// job other than the start job has a non-zero processing time (it is
    /// used as a divisor when computing visibility).
    pub open spec fn wf(self) -> bool {
        &&& 1 <= self.n <= MAX_JOBS
        &&& self.processing_time@.len() == self.n
        &&& self.weight@.len() == self.n
        &&& self.due_date@.len() == self.n
        &&& forall|j: int| 0 <= j < self.n ==> self.processing_time@[j] <= MAX_VALUE
        &&& forall|j: int| 0 <= j < self.n ==> self.weight@[j] <= MAX_VALUE
        &&& forall|j: int| 0 <= j < self.n ==> self.due_date@[j] <= MAX_VALUE
        &&& forall|j: int| 1 <= j < self.n ==> self.processing_time@[j] >= 1
    }

    pub fn new(n: usize, processing_time: Vec<u64>, weight: Vec<u64>, due_date: Vec<u64>) -> (p:
        Problem)
        requires
            1 <= n <= MAX_JOBS,
            processing_time@.len() == n,
            weight@.len() == n,
            due_date@.len() == n,
            forall|j: int| 0 <= j < n ==> processing_time@[j] <= MAX_VALUE,
            forall|j: int| 0 <= j < n ==> weight@[j] <= MAX_VALUE,
            forall|j: int| 0 <= j < n ==> due_date@[j] <= MAX_VALUE,
            forall|j: int| 1 <= j < n ==> processing_time@[j] >= 1,
        ensures
            p.wf(),
            p.n == n,
            p.processing_time@ == processing_time@,
            p.weight@ == weight@,
            p.due_date@ == due_date@,
    {
        Problem { n, processing_time, weight, due_date }
    }

    /// A fixed six-job instance used in examples and tests.
    pub fn get_toy_problem() -> (p: Problem)
        ensures
            p.wf(),
            p.n == 6,
            p.processing_time@ =~= seq![0u64, 2u64, 4u64, 3u64, 5u64, 1u64],
            p.weight@ =~= seq![0u64, 3u64, 1u64, 4u64, 2u64, 5u64],
            p.due_date@ =~= seq![0u64, 5u64, 3u64, 6u64, 4u64, 7u64],
    {
        let n: usize = 6;
        let processing_time: Vec<u64> = vec![0, 2, 4, 3, 5, 1];
        let weight: Vec<u64> = vec![0, 3, 1, 4, 2, 5];
        let due_date: Vec<u64> = vec![0, 5, 3, 6, 4, 7];
        Problem::new(n, processing_time, weight, due_date)
    }
}

/// A candidate schedule: a non-empty sequence of distinct job ids that starts
/// at the origin job `0`.  A tour may be partial (shorter than `n`): a dead
/// end during construction leaves the remaining jobs unscheduled.
pub open spec fn valid_tour(tour: Seq<usize>, n: int) -> bool {
    &&& 1 <= tour.len() <= n
    &&& tour[0] == 0
    &&& forall|k: int| 0 <= k < tour.len() ==> tour[k] < n
    &&& forall|k1: int, k2: int| 0 <= k1 < k2 < tour.len() ==> tour[k1] != tour[k2]
}

} // verus!
