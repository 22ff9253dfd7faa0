//! The reaper's model: which jobs one wake cycle removes.
//!
//! On each wake the reaper polls every tracked job's process without
//! blocking, then removes exactly the jobs whose poll observed an exit
//! and emits one status event per removed job.  The spec functions
//! [`survivors`] and [`reaped`] are the mathematical statement of that
//! cycle; [`crate::job_table::JobTable::reap`] is proved against them.
//! Listening for the operating system's child-exit notification, and
//! the polls themselves, happen in the surrounding program, which
//! hands the outcomes in as plain values.

use vstd::prelude::*;

use crate::job_table::JobView;

verus! {

/// What one non-blocking poll of a job's process reported.
#[derive(Clone, Copy, PartialEq, Eq, Structural, Debug)]
pub enum PollOutcome {
    /// The process has not exited yet.
    Running,
    /// The process exited with this status code.
    Exited(i32),
    /// The status query itself failed, so the process's true state is
    /// unknown; the job must be left untouched, not guessed-removed.
    PollFailed,
}

/// One status report emitted for a reaped job.
pub struct ReapEvent {
    pub name: String,
    pub pid: u32,
    pub code: i32,
}

impl DeepView for ReapEvent {
    type V = (Seq<char>, u32, i32);

    open spec fn deep_view(&self) -> (Seq<char>, u32, i32) {
        (self.name@, self.pid, self.code)
    }
}

/// The jobs that survive one reaper cycle: exactly those whose poll
/// did not observe an exit, in their original order.
pub open spec fn survivors(jobs: Seq<JobView>, polls: Seq<PollOutcome>) -> Seq<JobView>
    decreases jobs.len(),
{
    if jobs.len() == 0 {
        Seq::empty()
    } else {
        let rest = survivors(jobs.drop_first(), polls.drop_first());
        if polls[0] is Exited {
            rest
        } else {
            seq![jobs[0]] + rest
        }
    }
}

/// The status events one reaper cycle emits: one per job whose poll
/// observed an exit, in table order, carrying the reported code.
pub open spec fn reaped(jobs: Seq<JobView>, polls: Seq<PollOutcome>) -> Seq<(Seq<char>, u32, i32)>
    decreases jobs.len(),
{
    if jobs.len() == 0 {
        Seq::empty()
    } else {
        let rest = reaped(jobs.drop_first(), polls.drop_first());
        match polls[0] {
            PollOutcome::Exited(code) => seq![(jobs[0].0, jobs[0].1, code)] + rest,
            _ => rest,
        }
    }
}

/// Appending one more job and its poll outcome extends a cycle's
/// survivors at the end: the new job survives exactly when its own
/// poll saw no exit, and the older jobs are unaffected.
pub proof fn lemma_survivors_push(jobs: Seq<JobView>, polls: Seq<PollOutcome>, j: JobView, p: PollOutcome)
    requires
        jobs.len() == polls.len(),
    ensures
        survivors(jobs.push(j), polls.push(p)) == (if p is Exited {
            survivors(jobs, polls)
        } else {
            survivors(jobs, polls).push(j)
        }),
    decreases jobs.len(),
{
    let js = jobs.push(j);
    let ps = polls.push(p);
    if jobs.len() == 0 {
        assert(js[0] == j);
        assert(ps[0] == p);
        assert(js.drop_first() =~~= Seq::<JobView>::empty());
        assert(ps.drop_first() =~~= Seq::<PollOutcome>::empty());
        assert(survivors(js.drop_first(), ps.drop_first()) =~~= Seq::<JobView>::empty());
        assert(survivors(jobs, polls) =~~= Seq::<JobView>::empty());
        if !(p is Exited) {
            assert(survivors(js, ps) =~~= seq![j] + Seq::<JobView>::empty());
            assert(seq![j] + Seq::<JobView>::empty() =~~= survivors(jobs, polls).push(j));
        }
    } else {
        assert(js.drop_first() =~~= jobs.drop_first().push(j));
        assert(ps.drop_first() =~~= polls.drop_first().push(p));
        lemma_survivors_push(jobs.drop_first(), polls.drop_first(), j, p);
        assert(js[0] == jobs[0]);
        assert(ps[0] == polls[0]);
        if !(polls[0] is Exited) && !(p is Exited) {
            assert(seq![jobs[0]] + survivors(jobs.drop_first(), polls.drop_first()).push(j)
                =~~= (seq![jobs[0]] + survivors(jobs.drop_first(), polls.drop_first())).push(j));
        }
    }
}

/// The same as [`lemma_survivors_push`], for the emitted events: the
/// new job adds one final event exactly when its poll saw an exit.
pub proof fn lemma_reaped_push(jobs: Seq<JobView>, polls: Seq<PollOutcome>, j: JobView, p: PollOutcome)
    requires
        jobs.len() == polls.len(),
    ensures
        reaped(jobs.push(j), polls.push(p)) == (match p {
            PollOutcome::Exited(code) => reaped(jobs, polls).push((j.0, j.1, code)),
            _ => reaped(jobs, polls),
        }),
    decreases jobs.len(),
{
    let js = jobs.push(j);
    let ps = polls.push(p);
    if jobs.len() == 0 {
        assert(js[0] == j);
        assert(ps[0] == p);
        assert(js.drop_first() =~~= Seq::<JobView>::empty());
        assert(ps.drop_first() =~~= Seq::<PollOutcome>::empty());
        assert(reaped(js.drop_first(), ps.drop_first()) =~~= Seq::<(Seq<char>, u32, i32)>::empty());
        assert(reaped(jobs, polls) =~~= Seq::<(Seq<char>, u32, i32)>::empty());
        if let PollOutcome::Exited(code) = p {
            assert(reaped(js, ps) =~~= seq![(j.0, j.1, code)] + Seq::<(Seq<char>, u32, i32)>::empty());
            assert(seq![(j.0, j.1, code)] + Seq::<(Seq<char>, u32, i32)>::empty()
                =~~= reaped(jobs, polls).push((j.0, j.1, code)));
        }
    } else {
        assert(js.drop_first() =~~= jobs.drop_first().push(j));
        assert(ps.drop_first() =~~= polls.drop_first().push(p));
        lemma_reaped_push(jobs.drop_first(), polls.drop_first(), j, p);
        assert(js[0] == jobs[0]);
        assert(ps[0] == polls[0]);
        if let PollOutcome::Exited(code0) = polls[0] {
            if let PollOutcome::Exited(code) = p {
                assert(seq![(jobs[0].0, jobs[0].1, code0)]
                    + reaped(jobs.drop_first(), polls.drop_first()).push((j.0, j.1, code))
                    =~~= (seq![(jobs[0].0, jobs[0].1, code0)]
                        + reaped(jobs.drop_first(), polls.drop_first())).push((j.0, j.1, code)));
            }
        }
    }
}

/// A cycle in which no poll observed an exit removes nothing and
/// reports nothing: still-running jobs, and jobs whose poll failed,
/// are left untouched and still enumerable.
pub proof fn lemma_reap_no_exits(jobs: Seq<JobView>, polls: Seq<PollOutcome>)
    requires
        jobs.len() == polls.len(),
        forall|i: int| 0 <= i < polls.len() ==> !((#[trigger] polls[i]) is Exited),
    ensures
        survivors(jobs, polls) == jobs,
        reaped(jobs, polls).len() == 0,
    decreases jobs.len(),
{
    if jobs.len() > 0 {
        assert(forall|i: int|
            0 <= i < polls.drop_first().len() ==> (#[trigger] polls.drop_first()[i]) == polls[i + 1]);
        lemma_reap_no_exits(jobs.drop_first(), polls.drop_first());
        assert(seq![jobs[0]] + jobs.drop_first() =~~= jobs);
    }
}

/// A cycle in which exactly one job's process was observed to have
/// exited removes exactly that job — every other job keeps its place
/// and relative order — and emits exactly one status event, carrying
/// that job's name, pid and exit code.
pub proof fn lemma_reap_single_exit(jobs: Seq<JobView>, polls: Seq<PollOutcome>, k: int, code: i32)
    requires
        jobs.len() == polls.len(),
        0 <= k < jobs.len(),
        polls[k] == PollOutcome::Exited(code),
        forall|i: int| 0 <= i < polls.len() && i != k ==> !((#[trigger] polls[i]) is Exited),
    ensures
        survivors(jobs, polls) == jobs.remove(k),
        reaped(jobs, polls) == seq![(jobs[k].0, jobs[k].1, code)],
    decreases k,
{
    assert(forall|i: int|
        0 <= i < polls.drop_first().len() ==> (#[trigger] polls.drop_first()[i]) == polls[i + 1]);
    if k == 0 {
        lemma_reap_no_exits(jobs.drop_first(), polls.drop_first());
        assert(jobs.remove(0) =~~= jobs.drop_first());
        assert(seq![(jobs[0].0, jobs[0].1, code)] + Seq::<(Seq<char>, u32, i32)>::empty()
            =~~= seq![(jobs[0].0, jobs[0].1, code)]);
    } else {
        lemma_reap_single_exit(jobs.drop_first(), polls.drop_first(), k - 1, code);
        assert(jobs.drop_first()[k - 1] == jobs[k]);
        assert(seq![jobs[0]] + jobs.drop_first().remove(k - 1) =~~= jobs.remove(k));
    }
}

/// Interleaving the insertion of a new, still-running job with a
/// reaper cycle over the older jobs never removes or disturbs the new
/// entry: the cycle acts on the older jobs exactly as it would have
/// without the insert, and the new job stays appended after their
/// survivors.
pub proof fn lemma_insert_then_reap_keeps_new_job(jobs: Seq<JobView>, polls: Seq<PollOutcome>, j: JobView)
    requires
        jobs.len() == polls.len(),
    ensures
        survivors(jobs.push(j), polls.push(PollOutcome::Running))
            == survivors(jobs, polls).push(j),
        reaped(jobs.push(j), polls.push(PollOutcome::Running)) == reaped(jobs, polls),
{
    lemma_survivors_push(jobs, polls, j, PollOutcome::Running);
    lemma_reaped_push(jobs, polls, j, PollOutcome::Running);
}

} // verus!
