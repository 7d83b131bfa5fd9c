//! The refinement schedule: which row is rendered next, and with how many samples.
//!
//! The picture is rendered in passes. Every pass visits all rows from top to bottom; the
//! first pass takes one sample per pixel and each later pass twice as many as the one
//! before it. The schedule is handed out job by job and cannot be rewound.

use vstd::prelude::*;
use vstd::arithmetic::power2::{lemma2_to64, pow2};
use vstd::bits::lemma_u32_shl_is_mul;

verus! {

/// Number of passes over the picture.
pub const PASSES: u32 = 11;

/// One unit of work: a row of the picture and the number of samples to average per pixel.
#[derive(Clone, Copy, Debug, PartialEq, Eq, Structural)]
pub struct Job {
    pub row: usize,
    pub samples: u32,
}

/// The jobs of pass `pass` (counted from zero): rows `0..rows` in increasing order, each
/// at `2^pass` samples.
pub open spec fn pass_jobs(rows: usize, pass: nat) -> Seq<Job> {
    Seq::new(rows as nat, |r: int| Job { row: r as usize, samples: pow2(pass) as u32 })
}

/// The jobs of the first `passes` passes, one whole pass after the other.
pub open spec fn schedule_upto(rows: usize, passes: nat) -> Seq<Job>
    decreases passes,
{
    if passes == 0 {
        Seq::empty()
    } else {
        schedule_upto(rows, (passes - 1) as nat) + pass_jobs(rows, (passes - 1) as nat)
    }
}

/// Every job of a render of `rows` rows, in the order in which they are handed out.
pub open spec fn full_schedule(rows: usize) -> Seq<Job> {
    schedule_upto(rows, PASSES as nat)
}

/// The sample counts of the passes, first pass first.
pub open spec fn sample_counts() -> Seq<nat> {
    Seq::new(PASSES as nat, |p: int| pow2(p as nat))
}

proof fn lemma_mul_step(p: int, rows: int)
    ensures
        (p + 1) * rows == p * rows + rows,
{
    assert((p + 1) * rows == p * rows + rows) by (nonlinear_arith);
}

proof fn lemma_block_bounds(p: int, passes: int, rows: int)
    requires
        0 <= p < passes,
        0 <= rows,
    ensures
        0 <= p * rows,
        (p + 1) * rows <= passes * rows,
{
    assert(0 <= p * rows && (p + 1) * rows <= passes * rows) by (nonlinear_arith)
        requires
            0 <= p < passes,
            0 <= rows,
    ;
}

/// The first `passes` passes hold `passes * rows` jobs, and pass `p` among them is the
/// block that starts at job `p * rows`.
pub proof fn lemma_schedule_upto(rows: usize, passes: nat)
    ensures
        schedule_upto(rows, passes).len() == passes * rows,
        forall|p: nat|
            p < passes ==> #[trigger] pass_jobs(rows, p) == schedule_upto(rows, passes).subrange(
                p * rows,
                (p + 1) * rows,
            ),
    decreases passes,
{
    if passes > 0 {
        let before = (passes - 1) as nat;
        lemma_schedule_upto(rows, before);
        lemma_mul_step(before as int, rows as int);
        let shorter = schedule_upto(rows, before);
        let whole = schedule_upto(rows, passes);
        assert forall|p: nat| p < passes implies #[trigger] pass_jobs(rows, p) == whole.subrange(
            p * rows,
            (p + 1) * rows,
        ) by {
            lemma_mul_step(p as int, rows as int);
            lemma_block_bounds(p as int, passes as int, rows as int);
            if p < before {
                lemma_block_bounds(p as int, before as int, rows as int);
                assert(whole.subrange(p * rows, (p + 1) * rows) =~= shorter.subrange(
                    p * rows,
                    (p + 1) * rows,
                ));
            } else {
                assert(whole.subrange(p * rows, (p + 1) * rows) =~= pass_jobs(rows, before));
            }
        }
    } else {
        assert(0 * rows == 0) by (nonlinear_arith);
    }
}

/// The shape of the whole schedule: it holds `PASSES * rows` jobs; each pass is one
/// unbroken block of it that visits the rows `0..rows` once each, in increasing order;
/// and the sample counts of the passes are 1, 2, 4, and so on up to 1024.
pub proof fn lemma_schedule_shape(rows: usize)
    ensures
        full_schedule(rows).len() == PASSES * rows,
        forall|p: nat|
            p < PASSES ==> #[trigger] pass_jobs(rows, p) == full_schedule(rows).subrange(
                p * rows,
                (p + 1) * rows,
            ),
        forall|p: nat, r: int|
            p < PASSES && 0 <= r < rows ==> (#[trigger] pass_jobs(rows, p)[r]).row == r,
        forall|p: nat, r: int|
            p < PASSES && 0 <= r < rows ==> (#[trigger] pass_jobs(rows, p)[r]).samples
                == sample_counts()[p as int],
        sample_counts() == seq![1nat, 2, 4, 8, 16, 32, 64, 128, 256, 512, 1024],
{
    lemma_schedule_upto(rows, PASSES as nat);
    lemma2_to64();
}

/// Job number `k` of the schedule is row `k % rows` of pass `k / rows`.
pub proof fn lemma_job_at(rows: usize, k: int)
    requires
        0 <= k < PASSES * rows,
    ensures
        rows > 0,
        0 <= k / (rows as int) < PASSES,
        full_schedule(rows)[k] == (Job {
            row: (k % (rows as int)) as usize,
            samples: pow2((k / (rows as int)) as nat) as u32,
        }),
{
    assert(rows > 0) by (nonlinear_arith)
        requires
            0 <= k < PASSES * rows,
    ;
    let p = k / (rows as int);
    let r = k % (rows as int);
    assert(k == p * rows + r && 0 <= r < rows && 0 <= p < PASSES) by (nonlinear_arith)
        requires
            0 <= k < PASSES * rows,
            rows > 0,
            p == k / (rows as int),
            r == k % (rows as int),
    ;
    lemma_schedule_upto(rows, PASSES as nat);
    lemma_mul_step(p, rows as int);
    lemma_block_bounds(p, PASSES as int, rows as int);
    assert(pass_jobs(rows, p as nat) == full_schedule(rows).subrange(p * rows, (p + 1) * rows));
    assert(full_schedule(rows).subrange(p * rows, (p + 1) * rows)[r] == full_schedule(rows)[k]);
}

/// Every job of the schedule is for a row of the picture, at one of the sample counts.
pub proof fn lemma_jobs_in_range(rows: usize, k: int)
    requires
        0 <= k < full_schedule(rows).len(),
    ensures
        full_schedule(rows)[k].row < rows,
        1 <= full_schedule(rows)[k].samples <= 1024,
{
    lemma_schedule_upto(rows, PASSES as nat);
    lemma_job_at(rows, k);
    lemma2_to64();
}

/// The part of a schedule that has not been handed out yet.
#[derive(Debug)]
pub struct Schedule {
    rows: usize,
    pass: u32,
    row: usize,
}

impl View for Schedule {
    type V = Seq<Job>;

    /// The jobs still to come, next one first.
    closed spec fn view(&self) -> Seq<Job> {
        full_schedule(self.rows).skip(self.handed_out() as int)
    }
}

impl Schedule {
    /// The number of rows of the picture that this schedule is for.
    pub closed spec fn spec_rows(&self) -> usize {
        self.rows
    }

    /// The number of jobs handed out so far.
    pub closed spec fn handed_out(&self) -> nat {
        (self.pass * self.rows + self.row) as nat
    }

    /// The position is inside the schedule or just past its end.
    #[verifier::type_invariant]
    pub closed spec fn wf(&self) -> bool {
        &&& self.pass <= PASSES
        &&& self.pass < PASSES && self.rows > 0 ==> self.row < self.rows
        &&& self.pass == PASSES || self.rows == 0 ==> self.row == 0
    }

    /// The schedule of a render of `rows` rows, with nothing handed out yet.
    pub fn new(rows: usize) -> (s: Self)
        ensures
            s.wf(),
            s.spec_rows() == rows,
            s.handed_out() == 0,
            s@ == full_schedule(rows),
    {
        let s = Schedule { rows, pass: 0, row: 0 };
        proof {
            assert(0 * rows + 0 == 0) by (nonlinear_arith);
        }
        s
    }

    /// The number of rows of the picture that this schedule is for.
    #[verifier::when_used_as_spec(spec_rows)]
    pub fn rows(&self) -> (n: usize)
        ensures
            n == self.spec_rows(),
    {
        self.rows
    }

    /// Whether every job has been handed out.
    pub fn is_exhausted(&self) -> (done: bool)
        ensures
            done == (self@.len() == 0),
    {
        proof {
            use_type_invariant(self);
            self.lemma_position();
        }
        self.pass >= PASSES || self.rows == 0
    }

    /// Hands out the next job, if there is one left.
    pub fn next(&mut self) -> (job: Option<Job>)
        ensures
            final(self).wf(),
            final(self).spec_rows() == old(self).spec_rows(),
            match job {
                Some(j) => {
                    &&& old(self)@.len() > 0
                    &&& j == old(self)@[0]
                    &&& j.row < old(self).spec_rows()
                    &&& final(self)@ == old(self)@.skip(1)
                    &&& final(self).handed_out() == old(self).handed_out() + 1
                },
                None => {
                    &&& old(self)@.len() == 0
                    &&& final(self)@ == old(self)@
                    &&& final(self).handed_out() == old(self).handed_out()
                },
            },
        no_unwind
    {
        proof {
            use_type_invariant(&*self);
            self.lemma_position();
        }
        if self.pass >= PASSES || self.rows == 0 {
            return None;
        }
        let ghost at: int = self.pass * self.rows + self.row;
        proof {
            lemma_block_bounds(self.pass as int, PASSES as int, self.rows as int);
            lemma_mul_step(self.pass as int, self.rows as int);
            lemma_job_at(self.rows, at);
            lemma2_to64();
            lemma_u32_shl_is_mul(1, self.pass);
            assert(at / (self.rows as int) == self.pass && at % (self.rows as int) == self.row)
                by (nonlinear_arith)
                requires
                    at == self.pass * self.rows + self.row,
                    0 <= self.row < self.rows,
                    0 <= self.pass,
            ;
        }
        let job = Job { row: self.row, samples: 1u32 << self.pass };
        if self.row + 1 == self.rows {
            self.row = 0;
            self.pass = self.pass + 1;
        } else {
            self.row = self.row + 1;
        }
        proof {
            lemma_mul_step(old(self).pass as int, self.rows as int);
        }
        Some(job)
    }

    /// What is still to come is the whole schedule without the jobs handed out.
    pub proof fn lemma_view(&self)
        requires
            self.wf(),
        ensures
            self.handed_out() <= full_schedule(self.spec_rows()).len(),
            self@ == full_schedule(self.spec_rows()).skip(self.handed_out() as int),
    {
        self.lemma_position();
    }

    /// Where the position stands in the whole schedule.
    proof fn lemma_position(&self)
        requires
            self.wf(),
        ensures
            0 <= self.pass * self.rows + self.row <= full_schedule(self.rows).len(),
            self@.len() == full_schedule(self.rows).len() - (self.pass * self.rows + self.row),
            (self@.len() == 0) <==> (self.pass >= PASSES || self.rows == 0),
    {
        lemma_schedule_upto(self.rows, PASSES as nat);
        let pass = self.pass as int;
        let rows = self.rows as int;
        if self.pass < PASSES {
            lemma_block_bounds(pass, PASSES as int, rows);
            lemma_mul_step(pass, rows);
        } else {
        }
        if self.rows == 0 {
            assert(pass * rows == 0 && PASSES * rows == 0) by (nonlinear_arith)
                requires
                    rows == 0,
            ;
        }
    }
}

} // verus!
