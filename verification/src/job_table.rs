//! The job table: the registry of tracked processes.
//!
//! The table is an ordered sequence of jobs addressed by 1-based
//! position.  Its order is stable: an insert appends, a removal only
//! makes the removed entry disappear, and positions after a removed
//! entry shift down by one.  The surrounding program guards one table
//! with a mutual-exclusion lock and shares it between the command loop
//! and the reaper; every operation here is a single non-blocking step,
//! so no lock is ever held across a blocking wait.
//!
//! The table holds the process id of each job, not the live process
//! handle: the handle is an operating-system resource owned by the
//! surrounding program, which keys it by that pid.

use vstd::prelude::*;

use crate::reaper::{reaped, survivors, PollOutcome, ReapEvent};

verus! {

/// Lifecycle state of a tracked job.  `Stopped` is reserved: no
/// operation of this library drives a job into or out of it.
#[derive(Clone, Copy, PartialEq, Eq, Structural, Debug)]
pub enum ProcessState {
    Background,
    Foreground,
    Stopped,
}

/// The operator-visible name of a state.
pub open spec fn state_name(s: ProcessState) -> Seq<char> {
    match s {
        ProcessState::Background => "background"@,
        ProcessState::Foreground => "foreground"@,
        ProcessState::Stopped => "stopped"@,
    }
}

impl ProcessState {
    /// The operator-visible name of the state.
    pub fn to_string(&self) -> (r: String)
        ensures
            r@ == state_name(*self),
    {
        match self {
            ProcessState::Background => "background".to_owned(),
            ProcessState::Foreground => "foreground".to_owned(),
            ProcessState::Stopped => "stopped".to_owned(),
        }
    }
}

/// What a job is mathematically: its name, its pid, and its state.
pub type JobView = (Seq<char>, u32, ProcessState);

/// A tracked job: the command name, the pid of its process, and its
/// lifecycle state.
pub struct Job {
    pub name: String,
    pub pid: u32,
    pub state: ProcessState,
}

impl View for Job {
    type V = JobView;

    open spec fn view(&self) -> JobView {
        (self.name@, self.pid, self.state)
    }
}

impl DeepView for Job {
    type V = JobView;

    open spec fn deep_view(&self) -> JobView {
        self.view()
    }
}

impl Clone for Job {
    fn clone(&self) -> (r: Self)
        ensures
            r@ == self@,
    {
        Job { name: self.name.clone(), pid: self.pid, state: self.state }
    }
}

/// One line of the `jobs` listing: the job's current 1-based position
/// and its displayed fields.
pub struct JobListing {
    pub position: usize,
    pub name: String,
    pub pid: u32,
    pub state: ProcessState,
}

/// The registry of tracked jobs, viewed as the sequence of their
/// [`JobView`]s in table order.
pub struct JobTable {
    jobs: Vec<Job>,
}

impl View for JobTable {
    type V = Seq<JobView>;

    closed spec fn view(&self) -> Seq<JobView> {
        self.jobs.deep_view()
    }
}

impl JobTable {
    /// An empty table.
    pub fn new() -> (r: JobTable)
        ensures
            r@ == Seq::<JobView>::empty(),
    {
        let r = JobTable { jobs: Vec::new() };
        proof {
            assert(r@ =~~= Seq::<JobView>::empty());
        }
        r
    }

    /// Number of jobs currently tracked.
    pub fn len(&self) -> (n: usize)
        ensures
            n == self@.len(),
    {
        self.jobs.len()
    }

    /// Appends a new background job and returns its 1-based position.
    pub fn insert(&mut self, name: String, pid: u32) -> (pos: usize)
        requires
            old(self)@.len() < usize::MAX,
        ensures
            final(self)@ == old(self)@.push((name@, pid, ProcessState::Background)),
            pos == old(self)@.len() + 1,
    {
        let ghost before = self@;
        self.jobs.push(Job { name, pid, state: ProcessState::Background });
        proof {
            assert(self@ =~~= before.push((name@, pid, ProcessState::Background)));
        }
        self.jobs.len()
    }

    /// A snapshot for display: 1-based position, name, pid and state of
    /// every job, in table order.  Positions are contiguous from 1, so
    /// each one is unique.
    pub fn list(&self) -> (r: Vec<JobListing>)
        ensures
            r@.len() == self@.len(),
            forall|i: int|
                0 <= i < r@.len() ==> {
                    &&& (#[trigger] r@[i]).position == i + 1
                    &&& r@[i].name@ == self@[i].0
                    &&& r@[i].pid == self@[i].1
                    &&& r@[i].state == self@[i].2
                },
    {
        let n = self.jobs.len();
        let mut r: Vec<JobListing> = Vec::new();
        let mut k: usize = 0;
        while k < n
            invariant
                n == self@.len(),
                k <= n,
                r@.len() == k,
                forall|i: int|
                    0 <= i < k ==> {
                        &&& (#[trigger] r@[i]).position == i + 1
                        &&& r@[i].name@ == self@[i].0
                        &&& r@[i].pid == self@[i].1
                        &&& r@[i].state == self@[i].2
                    },
            decreases n - k,
        {
            let j = &self.jobs[k];
            r.push(JobListing {
                position: k + 1,
                name: j.name.clone(),
                pid: j.pid,
                state: j.state,
            });
            k = k + 1;
        }
        r
    }

    /// Removes and returns the job at the given 1-based position;
    /// positions after it shift down by one.  An out-of-range position
    /// leaves the table unchanged and returns nothing.
    pub fn remove_at(&mut self, pos: usize) -> (r: Option<Job>)
        ensures
            1 <= pos <= old(self)@.len() ==> {
                &&& final(self)@ == old(self)@.remove(pos - 1)
                &&& r matches Some(j) && j@ == old(self)@[pos - 1]
            },
            !(1 <= pos <= old(self)@.len()) ==> final(self)@ == old(self)@ && r is None,
    {
        if 1 <= pos && pos <= self.jobs.len() {
            let ghost before = self@;
            let j = self.jobs.remove(pos - 1);
            proof {
                assert(self@ =~~= before.remove(pos - 1));
            }
            Some(j)
        } else {
            None
        }
    }

    /// Sets the state of the job at the given 1-based position; an
    /// out-of-range position is a no-op.
    pub fn set_state(&mut self, pos: usize, state: ProcessState)
        ensures
            1 <= pos <= old(self)@.len() ==> final(self)@ == old(self)@.update(
                pos - 1,
                (old(self)@[pos - 1].0, old(self)@[pos - 1].1, state),
            ),
            !(1 <= pos <= old(self)@.len()) ==> final(self)@ == old(self)@,
    {
        if 1 <= pos && pos <= self.jobs.len() {
            let ghost before = self@;
            self.jobs[pos - 1].state = state;
            proof {
                assert(self@ =~~= before.update(
                    pos - 1,
                    (before[pos - 1].0, before[pos - 1].1, state),
                ));
            }
        }
    }

    /// Pid of the job at the given 1-based position, if any.  This is
    /// how the surrounding program locates the process handle a
    /// blocking wait must be performed on.
    pub fn pid_at(&self, pos: usize) -> (r: Option<u32>)
        ensures
            1 <= pos <= self@.len() ==> r == Some(self@[pos - 1].1),
            !(1 <= pos <= self@.len()) ==> r is None,
    {
        if 1 <= pos && pos <= self.jobs.len() {
            Some(self.jobs[pos - 1].pid)
        } else {
            None
        }
    }

    /// Promotes the job at the given 1-based position to the
    /// foreground and hands back its pid.  An invalid position leaves
    /// the table exactly as it was and yields nothing.
    pub fn fg_begin(&mut self, pos: usize) -> (r: Option<u32>)
        ensures
            1 <= pos <= old(self)@.len() ==> {
                &&& final(self)@ == old(self)@.update(
                    pos - 1,
                    (old(self)@[pos - 1].0, old(self)@[pos - 1].1, ProcessState::Foreground),
                )
                &&& r == Some(old(self)@[pos - 1].1)
            },
            !(1 <= pos <= old(self)@.len()) ==> final(self)@ == old(self)@ && r is None,
    {
        let pid = self.pid_at(pos);
        self.set_state(pos, ProcessState::Foreground);
        pid
    }

    /// Removes all jobs whose poll observed an exit, in one atomic
    /// step, and reports one event per removed job, in table order.
    /// `polls[i]` must be the outcome of a non-blocking poll of the
    /// process of the job at position `i + 1`.  Jobs whose poll saw
    /// them still running, and jobs whose poll itself failed (their
    /// true state is unknown), are left exactly where they were.
    pub fn reap(&mut self, polls: &Vec<PollOutcome>) -> (removed: Vec<ReapEvent>)
        requires
            polls@.len() == old(self)@.len(),
        ensures
            final(self)@ == survivors(old(self)@, polls@),
            removed.deep_view() == reaped(old(self)@, polls@),
    {
        let ghost orig = self@;
        let n = self.jobs.len();
        let mut keep: Vec<Job> = Vec::new();
        let mut removed: Vec<ReapEvent> = Vec::new();
        let mut k: usize = 0;
        proof {
            assert(orig.take(0) =~~= Seq::<JobView>::empty());
            assert(polls@.take(0) =~~= Seq::<PollOutcome>::empty());
        }
        while k < n
            invariant
                self@ == orig,
                n == orig.len(),
                polls@.len() == orig.len(),
                k <= n,
                keep.deep_view() == survivors(orig.take(k as int), polls@.take(k as int)),
                removed.deep_view() == reaped(orig.take(k as int), polls@.take(k as int)),
            decreases n - k,
        {
            let j = self.jobs[k].clone();
            let ghost kept = keep.deep_view();
            let ghost events = removed.deep_view();
            match polls[k] {
                PollOutcome::Exited(code) => {
                    removed.push(ReapEvent { name: j.name, pid: j.pid, code });
                    proof {
                        assert(removed.deep_view() =~~= events.push((orig[k as int].0, orig[k as int].1, code)));
                    }
                },
                _ => {
                    keep.push(j);
                    proof {
                        assert(keep.deep_view() =~~= kept.push(orig[k as int]));
                    }
                },
            }
            proof {
                crate::reaper::lemma_survivors_push(
                    orig.take(k as int),
                    polls@.take(k as int),
                    orig[k as int],
                    polls@[k as int],
                );
                crate::reaper::lemma_reaped_push(
                    orig.take(k as int),
                    polls@.take(k as int),
                    orig[k as int],
                    polls@[k as int],
                );
                assert(orig.take(k + 1) =~~= orig.take(k as int).push(orig[k as int]));
                assert(polls@.take(k + 1) =~~= polls@.take(k as int).push(polls@[k as int]));
            }
            k = k + 1;
        }
        proof {
            assert(orig.take(n as int) =~~= orig);
            assert(polls@.take(n as int) =~~= polls@);
        }
        self.jobs = keep;
        removed
    }

    /// Removes the first job whose process has the given pid.  This is
    /// how a completed foreground wait is reconciled with the table:
    /// the pid stays valid even if positions shifted while the wait
    /// blocked outside the table's lock.
    pub fn remove_pid(&mut self, pid: u32) -> (r: Option<Job>)
        ensures
            first_index_with_pid(old(self)@, pid) < 0 ==> final(self)@ == old(self)@ && r is None,
            first_index_with_pid(old(self)@, pid) >= 0 ==> {
                let i = first_index_with_pid(old(self)@, pid);
                &&& final(self)@ == old(self)@.remove(i)
                &&& r matches Some(j) && j@ == old(self)@[i]
            },
    {
        let n = self.jobs.len();
        let mut k: usize = 0;
        while k < n
            invariant
                self@ == old(self)@,
                n == self@.len(),
                k <= n,
                forall|i: int| 0 <= i < k ==> (#[trigger] self@[i]).1 != pid,
            decreases n - k,
        {
            if self.jobs[k].pid == pid {
                proof {
                    lemma_first_index_found(self@, pid, k as int);
                }
                return self.remove_at(k + 1);
            }
            k = k + 1;
        }
        proof {
            lemma_first_index_missing(self@, pid);
        }
        None
    }
}

/// Index of the first job in `s` whose pid is `pid`, or a negative
/// value if no job has it.
pub open spec fn first_index_with_pid(s: Seq<JobView>, pid: u32) -> int
    decreases s.len(),
{
    if s.len() == 0 {
        -1
    } else if s[0].1 == pid {
        0
    } else {
        let rest = first_index_with_pid(s.drop_first(), pid);
        if rest < 0 {
            -1
        } else {
            1 + rest
        }
    }
}

proof fn lemma_first_index_found(s: Seq<JobView>, pid: u32, k: int)
    requires
        0 <= k < s.len(),
        s[k].1 == pid,
        forall|i: int| 0 <= i < k ==> (#[trigger] s[i]).1 != pid,
    ensures
        first_index_with_pid(s, pid) == k,
    decreases k,
{
    if k > 0 {
        lemma_first_index_found(s.drop_first(), pid, k - 1);
    }
}

proof fn lemma_first_index_missing(s: Seq<JobView>, pid: u32)
    requires
        forall|i: int| 0 <= i < s.len() ==> (#[trigger] s[i]).1 != pid,
    ensures
        first_index_with_pid(s, pid) < 0,
    decreases s.len(),
{
    if s.len() > 0 {
        lemma_first_index_missing(s.drop_first(), pid);
    }
}

/// The table's half of a foreground wait, at any valid position: after
/// the job there is promoted to the foreground ([`JobTable::fg_begin`]),
/// removal keyed by its pid ([`JobTable::remove_pid`]) takes out
/// exactly the promoted entry — every other job keeps its place and
/// relative order — so a subsequent listing no longer shows it.  The
/// hypothesis that no two jobs share a pid is the data model's
/// invariant: every tracked job corresponds to exactly one live
/// process.
pub proof fn lemma_fg_removes_exactly_target(s: Seq<JobView>, pos: usize)
    requires
        1 <= pos <= s.len(),
        forall|i: int, j: int| #![trigger s[i], s[j]]
            0 <= i < j < s.len() ==> s[i].1 != s[j].1,
    ensures
        ({
            let target_pid = s[pos - 1].1;
            let promoted = s.update(
                pos - 1,
                (s[pos - 1].0, s[pos - 1].1, ProcessState::Foreground),
            );
            &&& promoted[pos - 1].2 == ProcessState::Foreground
            &&& first_index_with_pid(promoted, target_pid) == pos - 1
            &&& promoted.remove(pos - 1) == s.remove(pos - 1)
        }),
{
    let target_pid = s[pos - 1].1;
    let promoted = s.update(pos - 1, (s[pos - 1].0, s[pos - 1].1, ProcessState::Foreground));
    assert forall|i: int| 0 <= i < pos - 1 implies (#[trigger] promoted[i]).1 != target_pid by {
        assert(s[i].1 != s[pos - 1].1);
    }
    lemma_first_index_found(promoted, target_pid, pos - 1);
    assert(promoted.remove(pos - 1) =~~= s.remove(pos - 1));
}

/// One table operation, as the length-accounting law sees it.
pub enum TableOp {
    /// Insert a background job with this name and pid.
    Insert(String, u32),
    /// Remove the job at this 1-based position, if it exists.
    RemoveAt(usize),
}

/// The table contents after one operation: exactly what [`JobTable::insert`]
/// and [`JobTable::remove_at`] promise in their contracts.
pub open spec fn apply_op(s: Seq<JobView>, op: TableOp) -> Seq<JobView> {
    match op {
        TableOp::Insert(name, pid) => s.push((name@, pid, ProcessState::Background)),
        TableOp::RemoveAt(pos) => if 1 <= pos <= s.len() {
            s.remove(pos - 1)
        } else {
            s
        },
    }
}

/// The table contents after a sequence of operations.
pub open spec fn apply_ops(s: Seq<JobView>, ops: Seq<TableOp>) -> Seq<JobView>
    decreases ops.len(),
{
    if ops.len() == 0 {
        s
    } else {
        apply_ops(apply_op(s, ops[0]), ops.drop_first())
    }
}

/// How many of the operations are inserts.
pub open spec fn insert_count(ops: Seq<TableOp>) -> nat
    decreases ops.len(),
{
    if ops.len() == 0 {
        0
    } else {
        (match ops[0] {
            TableOp::Insert(..) => 1 as nat,
            _ => 0 as nat,
        }) + insert_count(ops.drop_first())
    }
}

/// How many of the removals find a job at their position, given the
/// table the sequence of operations starts from.
pub open spec fn successful_remove_count(s: Seq<JobView>, ops: Seq<TableOp>) -> nat
    decreases ops.len(),
{
    if ops.len() == 0 {
        0
    } else {
        (match ops[0] {
            TableOp::RemoveAt(pos) => if 1 <= pos <= s.len() {
                1 as nat
            } else {
                0 as nat
            },
            _ => 0 as nat,
        }) + successful_remove_count(apply_op(s, ops[0]), ops.drop_first())
    }
}

/// After any sequence of insert and remove-at operations, the table's
/// length is the starting length plus the number of inserts minus the
/// number of removals that found a job.  Together with the contract of
/// [`JobTable::list`] — entry `i` carries position `i + 1` — this says
/// a listing's positions are always unique and contiguous from 1.
pub proof fn lemma_table_length_accounting(s: Seq<JobView>, ops: Seq<TableOp>)
    ensures
        apply_ops(s, ops).len() + successful_remove_count(s, ops) == s.len() + insert_count(ops),
    decreases ops.len(),
{
    if ops.len() > 0 {
        lemma_table_length_accounting(apply_op(s, ops[0]), ops.drop_first());
    }
}

} // verus!
