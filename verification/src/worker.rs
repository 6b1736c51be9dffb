//! The bookkeeping of the parallel compile scheduler: the registry of live
//! compiler processes, the split of the tasks into stale and up-to-date
//! ones, and the collection of the workers' results under the fail-fast or
//! the aggregate policy.
//!
//! Threads, queues and processes are the caller's; the decisions are here.

use std::collections::HashSet;
use std::sync::Arc;
use vstd::prelude::*;
use vstd::std_specs::iter::IteratorSpec;
use crate::builder::{object_views, ObjectFile, ObjectView};
use crate::config::{BuildProfile, ProjectConfig};
use crate::error::{error_views, lemma_error_views, BuildError, ErrorView};
use crate::oracle::{needs_rebuild, should_recompile, Snapshot, SnapshotView};
use crate::platform::{cancel, is_cancelled, CancelToken};
use crate::text::{append_str, decimal, from_chars, push_decimal};

verus! {

// ---------------------------------------------------------------------------
// The registry of live children
// ---------------------------------------------------------------------------

/// Whom a termination signal is sent to.
#[derive(Debug, Clone, Copy, PartialEq, Eq, Structural)]
pub enum KillTarget {
    /// One process.
    Process(u32),
    /// Every process of a process group.
    Group(u32),
}

/// The target that ends the child `pid`: its process group where children
/// run in groups of their own, in which the group's id is the child's.
pub open spec fn kill_target(pid: u32, use_process_groups: bool) -> KillTarget {
    if use_process_groups {
        KillTarget::Group(pid)
    } else {
        KillTarget::Process(pid)
    }
}

/// The targets that end the children `pids`, one for each, in their order.
pub open spec fn kill_targets(pids: Seq<u32>, use_process_groups: bool) -> Seq<KillTarget> {
    pids.map_values(|pid: u32| kill_target(pid, use_process_groups))
}

/// The compiler processes that are running, so that they can be ended when
/// the build is cancelled.
#[derive(Debug)]
pub struct ActiveChildren {
    pids: HashSet<u32>,
}

impl View for ActiveChildren {
    type V = Set<u32>;

    /// The set of live children.
    closed spec fn view(&self) -> Set<u32> {
        self.pids@
    }
}

impl ActiveChildren {
    /// A registry without children.
    pub fn new() -> (r: ActiveChildren)
        ensures
            r@ == Set::<u32>::empty(),
    {
        ActiveChildren { pids: HashSet::new() }
    }

    /// Whether `pid` is a live child.
    pub fn contains(&self, pid: u32) -> (r: bool)
        ensures
            r == self@.contains(pid),
    {
        broadcast use vstd::std_specs::hash::group_hash_axioms;

        self.pids.contains(&pid)
    }

    /// The number of live children.
    pub fn len(&self) -> (r: usize)
        ensures
            r == self@.len(),
    {
        broadcast use vstd::std_specs::hash::group_hash_axioms;

        self.pids.len()
    }

    /// Whether no child is live.
    pub fn is_empty(&self) -> (r: bool)
        ensures
            r == (self@ == Set::<u32>::empty()),
    {
        broadcast use vstd::std_specs::hash::group_hash_axioms;

        self.pids.is_empty()
    }

    /// Registers the child `pid`.
    pub fn add(&mut self, pid: u32)
        ensures
            final(self)@ == old(self)@.insert(pid),
    {
        broadcast use vstd::std_specs::hash::group_hash_axioms;

        self.pids.insert(pid);
    }

    /// Takes the child `pid` out of the registry.
    pub fn remove(&mut self, pid: u32)
        ensures
            final(self)@ == old(self)@.remove(pid),
    {
        broadcast use vstd::std_specs::hash::group_hash_axioms;

        self.pids.remove(&pid);
    }

    /// The signals that end every live child: one target for each child,
    /// none twice. The order is that in which the set hands out its
    /// members, which is not fixed.
    pub fn kill_all(&self, use_process_groups: bool) -> (r: Vec<KillTarget>)
        ensures
            r.len() == self@.len(),
            exists|pids: Seq<u32>|
                pids.no_duplicates() && pids.to_set() == self@ && r@ == #[trigger] kill_targets(
                    pids,
                    use_process_groups,
                ),
    {
        broadcast use vstd::std_specs::hash::group_hash_axioms;

        let mut r: Vec<KillTarget> = Vec::new();
        let iter = self.pids.iter();
        let ghost pids = iter.remaining().unref();
        for pid in it: iter
            invariant
                it.seq().unref() == pids,
                r@ == kill_targets(pids.take(it.index()), use_process_groups),
        {
            proof {
                let done = pids.take(it.index());
                assert(pids.take(it.index() + 1) == done.push(*pid));
                assert(kill_targets(done.push(*pid), use_process_groups) == kill_targets(
                    done,
                    use_process_groups,
                ).push(kill_target(*pid, use_process_groups)));
            }
            if use_process_groups {
                r.push(KillTarget::Group(*pid));
            } else {
                r.push(KillTarget::Process(*pid));
            }
        }
        proof {
            assert(pids.take(pids.len() as int) == pids);
            assert(r@ == kill_targets(pids, use_process_groups));
        }
        r
    }
}

/// What happens to a child: it is started and registered, or it has ended
/// and is taken out.
pub enum ChildEvent {
    Started(u32),
    Ended(u32),
}

/// The live children after `events`, beginning with the children `live`.
pub open spec fn after_events(live: Set<u32>, events: Seq<ChildEvent>) -> Set<u32>
    decreases events.len(),
{
    if events.len() == 0 {
        live
    } else {
        match events.last() {
            ChildEvent::Started(pid) => after_events(live, events.drop_last()).insert(pid),
            ChildEvent::Ended(pid) => after_events(live, events.drop_last()).remove(pid),
        }
    }
}

/// Whether every start in `events` is followed by the end of that child.
pub open spec fn all_ended(events: Seq<ChildEvent>) -> bool {
    forall|i: int|
        0 <= i < events.len() && (#[trigger] events[i]) is Started ==> exists|j: int|
            i < j < events.len() && #[trigger] events[j] == ChildEvent::Ended(
                events[i]->Started_0,
            )
}

proof fn lemma_live_has_open_start(events: Seq<ChildEvent>, pid: u32)
    requires
        after_events(Set::empty(), events).contains(pid),
    ensures
        exists|i: int|
            0 <= i < events.len() && #[trigger] events[i] == ChildEvent::Started(pid) && forall|
                j: int,
            |
                i < j < events.len() ==> #[trigger] events[j] != ChildEvent::Ended(pid),
    decreases events.len(),
{
    if events.len() > 0 {
        let front = events.drop_last();
        let last = events.len() - 1;
        match events.last() {
            ChildEvent::Started(p) => {
                if p == pid {
                    assert(events[last] == ChildEvent::Started(pid));
                } else {
                    lemma_live_has_open_start(front, pid);
                    let i = choose|i: int|
                        0 <= i < front.len() && #[trigger] front[i] == ChildEvent::Started(pid)
                            && forall|j: int|
                            i < j < front.len() ==> #[trigger] front[j] != ChildEvent::Ended(pid);
                    assert(events[i] == front[i]);
                    assert forall|j: int| i < j < events.len() implies #[trigger] events[j]
                        != ChildEvent::Ended(pid) by {
                        if j < last {
                            assert(events[j] == front[j]);
                        }
                    }
                }
            },
            ChildEvent::Ended(p) => {
                lemma_live_has_open_start(front, pid);
                let i = choose|i: int|
                    0 <= i < front.len() && #[trigger] front[i] == ChildEvent::Started(pid)
                        && forall|j: int|
                        i < j < front.len() ==> #[trigger] front[j] != ChildEvent::Ended(pid);
                assert(events[i] == front[i]);
                assert forall|j: int| i < j < events.len() implies #[trigger] events[j]
                    != ChildEvent::Ended(pid) by {
                    if j < last {
                        assert(events[j] == front[j]);
                    }
                }
            },
        }
    }
}

/// When every child that was started has ended, no child is left in a
/// registry that began empty.
pub proof fn lemma_no_orphans(events: Seq<ChildEvent>)
    requires
        all_ended(events),
    ensures
        after_events(Set::empty(), events) == Set::<u32>::empty(),
{
    let left = after_events(Set::empty(), events);
    assert forall|pid: u32| !left.contains(pid) by {
        if left.contains(pid) {
            lemma_live_has_open_start(events, pid);
            let i = choose|i: int|
                0 <= i < events.len() && #[trigger] events[i] == ChildEvent::Started(pid)
                    && forall|j: int|
                    i < j < events.len() ==> #[trigger] events[j] != ChildEvent::Ended(pid);
            assert(events[i] is Started);
            let j = choose|j: int|
                i < j < events.len() && #[trigger] events[j] == ChildEvent::Ended(
                    events[i]->Started_0,
                );
            assert(events[j] != ChildEvent::Ended(pid));
        }
    }
    assert(left == Set::<u32>::empty());
}

// ---------------------------------------------------------------------------
// The pool
// ---------------------------------------------------------------------------

/// A task together with what was seen on disk for it.
#[derive(Debug)]
pub struct Observed {
    pub object: ObjectFile,
    pub seen: Snapshot,
}

/// The values of a list of observed tasks.
pub open spec fn observed_views(v: Seq<Observed>) -> Seq<(ObjectView, SnapshotView)> {
    v.map_values(|o: Observed| (o.object@, o.seen@))
}

/// The tasks among `tasks` that must be compiled, in their order.
pub open spec fn stale_tasks(tasks: Seq<(ObjectView, SnapshotView)>, incremental: bool) -> Seq<
    ObjectView,
>
    decreases tasks.len(),
{
    if tasks.len() == 0 {
        Seq::empty()
    } else if needs_rebuild(incremental, tasks.last().1) {
        stale_tasks(tasks.drop_last(), incremental).push(tasks.last().0)
    } else {
        stale_tasks(tasks.drop_last(), incremental)
    }
}

/// The tasks among `tasks` that are up to date, in their order.
pub open spec fn fresh_tasks(tasks: Seq<(ObjectView, SnapshotView)>, incremental: bool) -> Seq<
    ObjectView,
>
    decreases tasks.len(),
{
    if tasks.len() == 0 {
        Seq::empty()
    } else if needs_rebuild(incremental, tasks.last().1) {
        fresh_tasks(tasks.drop_last(), incremental)
    } else {
        fresh_tasks(tasks.drop_last(), incremental).push(tasks.last().0)
    }
}

/// Every task is either stale or up to date, never both.
pub proof fn lemma_plan_partitions(tasks: Seq<(ObjectView, SnapshotView)>, incremental: bool)
    ensures
        stale_tasks(tasks, incremental).len() + fresh_tasks(tasks, incremental).len()
            == tasks.len(),
    decreases tasks.len(),
{
    if tasks.len() > 0 {
        lemma_plan_partitions(tasks.drop_last(), incremental);
    }
}

/// The number of workers for `pending` tasks: one for each task, but no
/// more than `parallel_jobs`, which counts as one where it is zero.
pub open spec fn workers_for(parallel_jobs: usize, pending: usize) -> usize {
    let jobs = if parallel_jobs == 0 {
        1usize
    } else {
        parallel_jobs
    };
    if jobs <= pending {
        jobs
    } else {
        pending
    }
}

/// What a run of the pool compiles with.
#[derive(Debug)]
pub struct WorkerPool {
    pub config: Arc<ProjectConfig>,
    pub profile: BuildProfile,
    pub extra_flags: Arc<Vec<String>>,
    pub verbose: bool,
    pub aggregate: bool,
    pub active_children: ActiveChildren,
}

impl WorkerPool {
    /// A pool without live children.
    pub fn new(
        config: Arc<ProjectConfig>,
        profile: BuildProfile,
        extra_flags: Vec<String>,
        verbose: bool,
        aggregate: bool,
    ) -> (r: WorkerPool)
        ensures
            r.config == config,
            r.profile == profile,
            *r.extra_flags == extra_flags,
            r.verbose == verbose,
            r.aggregate == aggregate,
            r.active_children@ == Set::<u32>::empty(),
    {
        WorkerPool {
            config,
            profile,
            extra_flags: Arc::new(extra_flags),
            verbose,
            aggregate,
            active_children: ActiveChildren::new(),
        }
    }

    /// The number of workers to start for `pending` tasks.
    pub fn worker_count(&self, pending: usize) -> (r: usize)
        ensures
            r == workers_for(self.config@.parallel_jobs, pending),
            r <= pending,
            pending > 0 ==> 1 <= r,
            self.config@.parallel_jobs > 0 ==> r <= self.config@.parallel_jobs,
    {
        let jobs = if self.config.parallel_jobs == 0 {
            1
        } else {
            self.config.parallel_jobs
        };
        if jobs <= pending {
            jobs
        } else {
            pending
        }
    }

    /// The planning pass: splits `tasks` into those that must be compiled
    /// and those that are up to date, and begins a run that has received
    /// nothing yet.
    pub fn plan(&self, tasks: &Vec<Observed>) -> (run: PoolRun)
        ensures
            run@ == RunView::begin(
                self.aggregate,
                stale_tasks(observed_views(tasks@), self.config@.incremental),
                fresh_tasks(observed_views(tasks@), self.config@.incremental),
            ),
            run@.wf(),
            run@.pending.len() + run@.up_to_date.len() == tasks.len(),
    {
        proof {
            lemma_plan_partitions(observed_views(tasks@), self.config@.incremental);
        }
        let mut pending: Vec<ObjectFile> = Vec::new();
        let mut up_to_date: Vec<ObjectFile> = Vec::new();
        let ghost all = observed_views(tasks@);
        let ghost incremental = self.config@.incremental;
        let mut i: usize = 0;
        proof {
            assert(all.take(0) == Seq::<(ObjectView, SnapshotView)>::empty());
            assert(object_views(pending@) == Seq::<ObjectView>::empty());
            assert(object_views(up_to_date@) == Seq::<ObjectView>::empty());
        }
        while i < tasks.len()
            invariant
                i <= tasks.len(),
                all == observed_views(tasks@),
                incremental == self.config@.incremental,
                object_views(pending@) == stale_tasks(all.take(i as int), incremental),
                object_views(up_to_date@) == fresh_tasks(all.take(i as int), incremental),
            decreases tasks.len() - i,
        {
            let task = &tasks[i];
            proof {
                assert(all.take(i + 1).drop_last() == all.take(i as int));
                assert(all.take(i + 1).last() == (task.object@, task.seen@));
            }
            let object = task.object.clone();
            if should_recompile(&task.object, &self.config, &task.seen) {
                let ghost before = pending@;
                pending.push(object);
                assert(object_views(before.push(object)) == object_views(before).push(object@));
            } else {
                let ghost before = up_to_date@;
                up_to_date.push(object);
                assert(object_views(before.push(object)) == object_views(before).push(object@));
            }
            i = i + 1;
        }
        assert(all.take(tasks.len() as int) == all);
        let run = PoolRun {
            aggregate: self.aggregate,
            pending,
            up_to_date,
            compiled: Vec::new(),
            errors: Vec::new(),
            stopped: false,
        };
        proof {
            assert(object_views(run.compiled@) == Seq::<ObjectView>::empty());
            assert(error_views(run.errors@) == Seq::<ErrorView>::empty());
        }
        run
    }

    /// The run of the pool over `tasks` after the results `results` have
    /// arrived.
    pub open spec fn run_after(
        &self,
        tasks: Seq<Observed>,
        results: Seq<Result<ObjectFile, BuildError>>,
    ) -> RunView {
        RunView::begin(
            self.aggregate,
            stale_tasks(observed_views(tasks), self.config@.incremental),
            fresh_tasks(observed_views(tasks), self.config@.incremental),
        ).record_all(result_views(results))
    }

    /// Runs the pool over the results that its workers send: plans the
    /// tasks, records `results` in the order of their arrival, and ends the
    /// run. Under fail-fast the first failure cancels the build: the token
    /// is set when the run returns. The run ends as cancelled where the
    /// token is set and no failure was recorded.
    pub fn run(
        &self,
        tasks: &Vec<Observed>,
        results: Vec<Result<ObjectFile, BuildError>>,
        token: &mut CancelToken,
    ) -> (r: Result<(Vec<ObjectFile>, usize), BuildError>)
        ensures
            final(token).is_set() == (old(token).is_set() || self.run_after(
                tasks@,
                results@,
            ).gave_up()),
            self.run_after(tasks@, results@).wf(),
            self.run_after(tasks@, results@).gave_up() ==> (r matches Err(e) && e@
                == self.run_after(tasks@, results@).errors[0]),
            match self.run_after(tasks@, results@).outcome(final(token).is_set()) {
                Ok((objects, count)) => r matches Ok(done) && object_views(done.0@) == objects
                    && done.1 == count,
                Err(e) => r matches Err(err) && err@ == e,
            },
    {
        let mut run = self.plan(tasks);
        let ghost begin = run@;
        let ghost all = result_views(results@);
        let mut results = results;
        while results.len() > 0
            invariant
                begin.record_all(all) == run@.record_all(result_views(results@)),
                run@.wf(),
                token.is_set() == (old(token).is_set() || run@.gave_up()),
            decreases results.len(),
        {
            let ghost before = results@;
            let result = results.remove(0);
            proof {
                assert(results@ == before.drop_first());
                assert(result_views(before)[0] == result_view(result));
                assert(result_views(before).drop_first() == result_views(before.drop_first()));
            }
            if run.record(result) {
                cancel(token);
            }
        }
        let cancelled = is_cancelled(token);
        run.finish(cancelled)
    }
}

/// The mathematical value of a run of the pool.
pub struct RunView {
    /// Whether every error is collected (the aggregate policy) or the first
    /// one ends the run (fail-fast).
    pub aggregate: bool,
    /// The tasks handed to the workers.
    pub pending: Seq<ObjectView>,
    /// The tasks that need no compiling.
    pub up_to_date: Seq<ObjectView>,
    /// The tasks that were compiled, in the order of their arrival.
    pub compiled: Seq<ObjectView>,
    /// The errors that were recorded, in the order of their arrival.
    pub errors: Seq<ErrorView>,
    /// Whether the collection of results has been ended early.
    pub stopped: bool,
}

impl RunView {
    /// A run that has received nothing.
    pub open spec fn begin(aggregate: bool, pending: Seq<ObjectView>, up_to_date: Seq<ObjectView>) -> RunView {
        RunView {
            aggregate,
            pending,
            up_to_date,
            compiled: Seq::empty(),
            errors: Seq::empty(),
            stopped: false,
        }
    }

    /// The number of results received.
    pub open spec fn received(self) -> nat {
        self.compiled.len() + self.errors.len()
    }

    /// A run never receives more results than it handed out tasks, and
    /// under fail-fast it records at most one error, which ends it.
    pub open spec fn wf(self) -> bool {
        &&& self.received() <= self.pending.len()
        &&& !self.aggregate ==> self.errors.len() <= 1
        &&& !self.aggregate && self.errors.len() == 1 ==> self.stopped
    }

    /// Whether the run waits for another result.
    pub open spec fn collecting(self) -> bool {
        !self.stopped && self.received() < self.pending.len()
    }

    /// The run after the arrival of `result`. A run that is not collecting
    /// takes no notice of it.
    pub open spec fn record(self, result: Result<ObjectView, ErrorView>) -> RunView {
        if !self.collecting() {
            self
        } else {
            match result {
                Ok(object) => RunView { compiled: self.compiled.push(object), ..self },
                Err(e) => RunView {
                    errors: self.errors.push(e),
                    stopped: !self.aggregate,
                    ..self
                },
            }
        }
    }

    /// The run after the arrival of `results`, one after the other.
    pub open spec fn record_all(self, results: Seq<Result<ObjectView, ErrorView>>) -> RunView
        decreases results.len(),
    {
        if results.len() == 0 {
            self
        } else {
            self.record(results[0]).record_all(results.drop_first())
        }
    }

    /// Whether the run has given up: under fail-fast it does at the first
    /// failure.
    pub open spec fn gave_up(self) -> bool {
        !self.aggregate && self.errors.len() > 0
    }

    /// Whether the arrival of `result` makes the run cancel the build and
    /// end every live child: it does on an error under fail-fast.
    pub open spec fn gives_up_on(self, result: Result<ObjectView, ErrorView>) -> bool {
        self.collecting() && result is Err && !self.aggregate
    }

    /// The run after every worker has gone.
    pub open spec fn disconnect(self) -> RunView {
        RunView { stopped: true, ..self }
    }

    /// How the run ends, given whether the build was cancelled.
    ///
    /// A run without tasks succeeds with the up-to-date tasks. Otherwise a
    /// recorded error is the result, alone or as one of several; without an
    /// error a cancelled build is reported as cancelled; and in every other
    /// case the run succeeds with the compiled tasks followed by the
    /// up-to-date ones, and the number of compiled tasks.
    pub open spec fn outcome(self, cancelled: bool) -> Result<(Seq<ObjectView>, nat), ErrorView> {
        if self.pending.len() == 0 {
            Ok((self.up_to_date, 0))
        } else if self.errors.len() == 1 {
            Err(self.errors[0])
        } else if self.errors.len() > 1 {
            Err(ErrorView::Multiple(self.errors))
        } else if cancelled {
            Err(ErrorView::Cancelled)
        } else {
            Ok((self.compiled + self.up_to_date, self.compiled.len()))
        }
    }
}

/// A task that must be compiled is among the tasks handed to the workers.
pub proof fn lemma_stale_task_is_pending(
    tasks: Seq<(ObjectView, SnapshotView)>,
    incremental: bool,
    k: int,
)
    requires
        0 <= k < tasks.len(),
        needs_rebuild(incremental, tasks[k].1),
    ensures
        stale_tasks(tasks, incremental).contains(tasks[k].0),
        stale_tasks(tasks, incremental).len() >= 1,
    decreases tasks.len(),
{
    let stale = stale_tasks(tasks, incremental);
    if k == tasks.len() - 1 {
        assert(stale.last() == tasks[k].0);
        assert(stale[stale.len() - 1] == tasks[k].0);
    } else {
        let front = tasks.drop_last();
        lemma_stale_task_is_pending(front, incremental, k);
        let before = stale_tasks(front, incremental);
        let j = choose|j: int| 0 <= j < before.len() && before[j] == front[k].0;
        assert(stale[j] == before[j]);
    }
}

/// A run in which every task handed out has come back, and which succeeds,
/// has compiled every one of them. So a build with a task that must be
/// compiled, such as one whose manifest lists a file that is gone, counts
/// at least one compiled task when it succeeds.
pub proof fn lemma_complete_run_compiles_all(run: RunView, cancelled: bool)
    requires
        run.wf(),
        run.received() == run.pending.len(),
        run.outcome(cancelled) is Ok,
    ensures
        run.outcome(cancelled)->Ok_0.1 == run.pending.len(),
        run.compiled.len() == run.pending.len(),
{
}

/// Under fail-fast a run records at most one error; that error ends the
/// collection and is the result of the run, as it is.
pub proof fn lemma_fail_fast_one_error(run: RunView, cancelled: bool)
    requires
        run.wf(),
        !run.aggregate,
    ensures
        run.errors.len() <= 1,
        run.errors.len() == 1 ==> !run.collecting(),
        run.errors.len() == 1 ==> run.outcome(cancelled) == Err::<(Seq<ObjectView>, nat), ErrorView>(
            run.errors[0],
        ),
{
}

/// Only compiled and up-to-date tasks reach the linker: a run that
/// succeeds hands on exactly those, the compiled ones first.
pub proof fn lemma_outcome_objects(run: RunView, cancelled: bool)
    requires
        run.wf(),
        run.outcome(cancelled) is Ok,
    ensures
        run.errors.len() == 0,
        run.outcome(cancelled)->Ok_0.0 == run.compiled + run.up_to_date,
        run.outcome(cancelled)->Ok_0.1 == run.compiled.len(),
{
    if run.pending.len() == 0 {
        assert(run.compiled == Seq::<ObjectView>::empty());
        assert(run.compiled + run.up_to_date == run.up_to_date);
    }
}

/// A run of the pool: the tasks handed to the workers and what has come
/// back from them.
#[derive(Debug)]
pub struct PoolRun {
    aggregate: bool,
    pending: Vec<ObjectFile>,
    up_to_date: Vec<ObjectFile>,
    compiled: Vec<ObjectFile>,
    errors: Vec<BuildError>,
    stopped: bool,
}

impl View for PoolRun {
    type V = RunView;

    closed spec fn view(&self) -> RunView {
        RunView {
            aggregate: self.aggregate,
            pending: object_views(self.pending@),
            up_to_date: object_views(self.up_to_date@),
            compiled: object_views(self.compiled@),
            errors: error_views(self.errors@),
            stopped: self.stopped,
        }
    }
}

/// The value of a result that a worker sends.
pub open spec fn result_view(result: Result<ObjectFile, BuildError>) -> Result<ObjectView, ErrorView> {
    match result {
        Ok(object) => Ok(object@),
        Err(e) => Err(e@),
    }
}

/// The values of the results that the workers send.
pub open spec fn result_views(results: Seq<Result<ObjectFile, BuildError>>) -> Seq<
    Result<ObjectView, ErrorView>,
> {
    results.map_values(|r: Result<ObjectFile, BuildError>| result_view(r))
}

impl PoolRun {
    /// The tasks to hand to the workers, in the order of the plan.
    pub fn tasks(&self) -> (r: &Vec<ObjectFile>)
        ensures
            object_views(r@) == self@.pending,
    {
        &self.pending
    }

    /// The number of tasks to hand to the workers.
    pub fn pending(&self) -> (r: usize)
        ensures
            r == self@.pending.len(),
    {
        self.pending.len()
    }

    /// Whether the run waits for another result.
    pub fn is_collecting(&self) -> (r: bool)
        ensures
            r == self@.collecting(),
    {
        proof {
            lemma_error_views(self.errors@);
            assert(self@.received() == self.compiled.len() + self.errors.len());
            assert(self@.pending.len() == self.pending.len());
        }
        if self.stopped || self.compiled.len() >= self.pending.len() {
            return false;
        }
        self.errors.len() < self.pending.len() - self.compiled.len()
    }

    /// Records a result that a worker has sent. Returns whether the build
    /// is to be cancelled and every live child ended.
    pub fn record(&mut self, result: Result<ObjectFile, BuildError>) -> (give_up: bool)
        ensures
            final(self)@ == old(self)@.record(result_view(result)),
            old(self)@.wf() ==> final(self)@.wf(),
            give_up == old(self)@.gives_up_on(result_view(result)),
    {
        if !self.is_collecting() {
            return false;
        }
        proof {
            lemma_error_views(self.errors@);
        }
        match result {
            Ok(object) => {
                let ghost before = self.compiled@;
                self.compiled.push(object);
                assert(object_views(before.push(object)) == object_views(before).push(object@));
                false
            },
            Err(e) => {
                let ghost before = self.errors@;
                self.errors.push(e);
                proof {
                    assert(before.push(e).drop_last() == before);
                    lemma_error_views(self.errors@);
                }
                if !self.aggregate {
                    self.stopped = true;
                }
                !self.aggregate
            },
        }
    }

    /// Records that every worker has gone: no further result can arrive.
    pub fn disconnect(&mut self)
        ensures
            final(self)@ == old(self)@.disconnect(),
            old(self)@.wf() ==> final(self)@.wf(),
    {
        self.stopped = true;
    }

    /// Ends the run, once the workers are joined. `cancelled` tells whether
    /// the build was cancelled.
    pub fn finish(self, cancelled: bool) -> (r: Result<(Vec<ObjectFile>, usize), BuildError>)
        ensures
            match self@.outcome(cancelled) {
                Ok((objects, count)) => r matches Ok(done) && object_views(done.0@) == objects
                    && done.1 == count,
                Err(e) => r matches Err(err) && err@ == e,
            },
    {
        let mut run = self;
        proof {
            lemma_error_views(run.errors@);
        }
        if run.pending.len() == 0 {
            return Ok((run.up_to_date, 0));
        }
        if run.errors.len() == 1 {
            let e = run.errors.remove(0);
            return Err(e);
        }
        if run.errors.len() > 1 {
            return Err(BuildError::MultipleErrors(run.errors));
        }
        if cancelled {
            return Err(BuildError::Cancelled);
        }
        let count = run.compiled.len();
        let ghost compiled = run.compiled@;
        let ghost fresh = run.up_to_date@;
        let mut all = run.compiled;
        all.append(&mut run.up_to_date);
        assert(object_views(compiled + fresh) == object_views(compiled) + object_views(fresh));
        Ok((all, count))
    }
}

/// What a worker does with what it took from the queue.
#[derive(Debug)]
pub enum WorkerAction {
    /// The worker ends: the queue is closed or the build is cancelled.
    Stop,
    /// The worker compiles the task.
    Compile(ObjectFile),
}

/// What a worker does with the result of a compile step before it sends
/// the result and reaches for the queue again: under fail-fast a failure
/// cancels the build at once, so that no worker takes another task.
pub fn note_result(result: &Result<ObjectFile, BuildError>, aggregate: bool, token: &mut CancelToken)
    ensures
        final(token).is_set() == (old(token).is_set() || (result is Err && !aggregate)),
{
    if !aggregate && result.is_err() {
        cancel(token);
    }
}

/// Decides what a worker does next. `task` is what it took from the queue,
/// `None` for a closed queue; `cancelled` tells whether the build was
/// cancelled when the task was taken. A cancelled build compiles nothing.
pub fn worker_action(task: Option<ObjectFile>, cancelled: bool) -> (r: WorkerAction)
    ensures
        cancelled || task is None ==> r is Stop,
        !cancelled && task is Some ==> r == WorkerAction::Compile(task->0),
{
    if cancelled {
        WorkerAction::Stop
    } else {
        match task {
            Some(object) => WorkerAction::Compile(object),
            None => WorkerAction::Stop,
        }
    }
}

/// The progress line for the `index`-th of `total` tasks.
pub open spec fn progress_text(index: nat, total: nat, rel_path: Seq<char>) -> Seq<char> {
    "Compiling ["@ + decimal(index) + "/"@ + decimal(total) + "] "@ + rel_path
}

/// The progress line that a worker prints before it compiles a task.
pub fn progress_line(index: usize, total: usize, rel_path: &str) -> (r: String)
    ensures
        r@ == progress_text(index as nat, total as nat, rel_path@),
{
    let mut line: Vec<char> = Vec::new();
    append_str(&mut line, "Compiling [");
    push_decimal(&mut line, index as u64);
    append_str(&mut line, "/");
    push_decimal(&mut line, total as u64);
    append_str(&mut line, "] ");
    append_str(&mut line, rel_path);
    assert(line@ == progress_text(index as nat, total as nat, rel_path@));
    from_chars(&line)
}

// ---------------------------------------------------------------------------
// The workers of a fail-fast run
// ---------------------------------------------------------------------------

/// What a worker is doing.
pub enum WorkerState {
    /// It is at the queue, about to take a task.
    Waiting,
    /// It is running a compiler.
    Compiling,
    /// It has ended.
    Gone,
}

/// What a worker does next. The number says which worker.
pub enum WorkerEvent {
    /// It reaches for the queue: it takes a task, or ends if the build is
    /// cancelled.
    Takes(int),
    /// Its compiler has succeeded, and it has noted the result.
    Succeeds(int),
    /// Its compiler has failed, and it has noted the result: under
    /// fail-fast that cancels the build (`note_result`).
    Fails(int),
}

/// The workers of a fail-fast run. The worker whose compiler fails cancels
/// the build itself, in the same step in which it notes the failure
/// (`note_result`), and every worker reads the token when it reaches for the
/// queue (`worker_action`). The model rests on that: where only the
/// collector cancelled the build, a worker could take and fail further
/// tasks before the token is set, and the bound below would not hold.
pub struct Floor {
    pub workers: Seq<WorkerState>,
    pub cancelled: bool,
    /// The number of failures reported so far.
    pub failures: nat,
}

/// The number of workers that are running a compiler.
pub open spec fn compiling(workers: Seq<WorkerState>) -> nat
    decreases workers.len(),
{
    if workers.len() == 0 {
        0
    } else if workers.last() is Compiling {
        compiling(workers.drop_last()) + 1
    } else {
        compiling(workers.drop_last())
    }
}

impl Floor {
    /// A run that begins: `workers` workers at the queue, no failure yet.
    pub open spec fn begin(workers: nat) -> Floor {
        Floor {
            workers: Seq::new(workers, |i: int| WorkerState::Waiting),
            cancelled: false,
            failures: 0,
        }
    }

    /// The run after one event. An event that cannot happen, such as the
    /// failure of a worker that runs no compiler, changes nothing.
    pub open spec fn step(self, event: WorkerEvent) -> Floor {
        match event {
            WorkerEvent::Takes(i) => if 0 <= i < self.workers.len() && self.workers[i] is Waiting {
                Floor {
                    workers: self.workers.update(
                        i,
                        if self.cancelled {
                            WorkerState::Gone
                        } else {
                            WorkerState::Compiling
                        },
                    ),
                    ..self
                }
            } else {
                self
            },
            WorkerEvent::Succeeds(i) => if 0 <= i < self.workers.len()
                && self.workers[i] is Compiling {
                Floor { workers: self.workers.update(i, WorkerState::Waiting), ..self }
            } else {
                self
            },
            WorkerEvent::Fails(i) => if 0 <= i < self.workers.len() && self.workers[i] is Compiling {
                Floor {
                    workers: self.workers.update(i, WorkerState::Waiting),
                    cancelled: true,
                    failures: self.failures + 1,
                }
            } else {
                self
            },
        }
    }

    /// The run after a sequence of events.
    pub open spec fn after(self, events: Seq<WorkerEvent>) -> Floor
        decreases events.len(),
    {
        if events.len() == 0 {
            self
        } else {
            self.after(events.drop_last()).step(events.last())
        }
    }

    /// Every failure so far and every compiler still running has a worker
    /// of its own, and nothing has failed in a run that is not cancelled.
    pub open spec fn bounded(self) -> bool {
        &&& self.failures + compiling(self.workers) <= self.workers.len()
        &&& !self.cancelled ==> self.failures == 0
    }
}

proof fn lemma_compiling_bound(workers: Seq<WorkerState>)
    ensures
        compiling(workers) <= workers.len(),
    decreases workers.len(),
{
    if workers.len() > 0 {
        lemma_compiling_bound(workers.drop_last());
    }
}

proof fn lemma_compiling_update(workers: Seq<WorkerState>, i: int, state: WorkerState)
    requires
        0 <= i < workers.len(),
    ensures
        compiling(workers.update(i, state)) + (if workers[i] is Compiling {
            1nat
        } else {
            0nat
        }) == compiling(workers) + (if state is Compiling {
            1nat
        } else {
            0nat
        }),
    decreases workers.len(),
{
    let updated = workers.update(i, state);
    if i == workers.len() - 1 {
        assert(updated.drop_last() == workers.drop_last());
    } else {
        assert(updated.drop_last() == workers.drop_last().update(i, state));
        lemma_compiling_update(workers.drop_last(), i, state);
    }
}

proof fn lemma_step_keeps_bounded(floor: Floor, event: WorkerEvent)
    requires
        floor.bounded(),
    ensures
        floor.step(event).bounded(),
        floor.step(event).workers.len() == floor.workers.len(),
{
    let next = floor.step(event);
    lemma_compiling_bound(next.workers);
    match event {
        WorkerEvent::Takes(i) => {
            if 0 <= i < floor.workers.len() && floor.workers[i] is Waiting {
                lemma_compiling_update(floor.workers, i, next.workers[i]);
            }
        },
        WorkerEvent::Succeeds(i) => {
            if 0 <= i < floor.workers.len() && floor.workers[i] is Compiling {
                lemma_compiling_update(floor.workers, i, WorkerState::Waiting);
            }
        },
        WorkerEvent::Fails(i) => {
            if 0 <= i < floor.workers.len() && floor.workers[i] is Compiling {
                lemma_compiling_update(floor.workers, i, WorkerState::Waiting);
                lemma_compiling_bound(floor.workers);
            }
        },
    }
}

proof fn lemma_after_keeps_bounded(floor: Floor, events: Seq<WorkerEvent>)
    requires
        floor.bounded(),
    ensures
        floor.after(events).bounded(),
        floor.after(events).workers.len() == floor.workers.len(),
    decreases events.len(),
{
    if events.len() > 0 {
        lemma_after_keeps_bounded(floor, events.drop_last());
        lemma_step_keeps_bounded(floor.after(events.drop_last()), events.last());
    }
}

/// In a fail-fast run no more compilers fail than there are workers,
/// whatever the workers do and in whatever order: once the first failure
/// has cancelled the build, a worker takes no new task, so each worker
/// reports at most the failure of the compiler it was running.
///
/// With at least one job configured, the number of workers is at most the
/// number of jobs, and so is the number of failures.
pub proof fn lemma_fail_fast_bound(parallel_jobs: usize, pending: usize, events: Seq<WorkerEvent>)
    ensures
        Floor::begin(workers_for(parallel_jobs, pending) as nat).after(events).failures
            <= workers_for(parallel_jobs, pending),
        parallel_jobs >= 1 ==> Floor::begin(workers_for(parallel_jobs, pending) as nat).after(
            events,
        ).failures <= parallel_jobs,
{
    let start = Floor::begin(workers_for(parallel_jobs, pending) as nat);
    lemma_compiling_bound(start.workers);
    assert(compiling(start.workers) == 0) by {
        lemma_none_compiling(start.workers);
    }
    lemma_after_keeps_bounded(start, events);
}

proof fn lemma_none_compiling(workers: Seq<WorkerState>)
    requires
        forall|i: int| 0 <= i < workers.len() ==> !(workers[i] is Compiling),
    ensures
        compiling(workers) == 0,
    decreases workers.len(),
{
    if workers.len() > 0 {
        lemma_none_compiling(workers.drop_last());
    }
}

} // verus!
