//! The load scheduler's decisions: how many workers run, what a submission
//! queue allows in each state, what work each output needs when outputs may
//! already exist, and the progress count.

use crate::catalog::Dataset;
use crate::output::OutputTarget;
use vstd::prelude::*;

verus! {

/// What a load run works on: the datasets, where they go, and whether
/// outputs that exist already are skipped.
#[derive(Clone, Debug)]
pub struct Loader {
    pub datasets: Vec<Dataset>,
    pub output: OutputTarget,
    pub skip_if_exists: bool,
}

/// Why the scheduler refused a request.
#[derive(Clone, Copy, Debug, PartialEq, Eq, Structural)]
pub enum SchedulerError {
    /// The queue was drained already: nothing more can be submitted, and it
    /// cannot be drained again.
    AlreadyClosed,
}

/// Relies on `num_cpus::get`, which is documented to return at least 1.
#[verifier::external_body]
fn available_cpus() -> (r: usize)
    ensures
        r >= 1,
{
    num_cpus::get()
}

/// Workers for `cpus` processors: one fewer than there are, and at least
/// one.
pub fn worker_count(cpus: usize) -> (r: usize)
    ensures
        r == if cpus >= 2 {
            cpus - 1
        } else {
            1
        },
{
    if cpus >= 2 {
        cpus - 1
    } else {
        1
    }
}

/// The number of workers of this machine's pool (at least one).
pub fn pool_size() -> (r: usize)
    ensures
        r >= 1,
{
    worker_count(available_cpus())
}

/// The state of a submission queue: open until drained, and how many
/// datasets were submitted.
#[derive(Clone, Copy, Debug)]
pub struct QueueLifecycle {
    pub closed: bool,
    pub submitted: u64,
}

impl QueueLifecycle {
    pub fn new() -> (r: QueueLifecycle)
        ensures
            !r.closed && r.submitted == 0,
    {
        QueueLifecycle { closed: false, submitted: 0 }
    }

    /// Accepts one more dataset, unless the queue was drained.
    pub fn submit(&mut self) -> (r: Result<(), SchedulerError>)
        ensures
            old(self).closed ==> r == Err::<(), SchedulerError>(SchedulerError::AlreadyClosed)
                && *final(self) == *old(self),
            !old(self).closed ==> r is Ok && !final(self).closed && final(self).submitted == if old(
                self,
            ).submitted < u64::MAX {
                old(self).submitted + 1
            } else {
                u64::MAX as int
            },
    {
        if self.closed {
            return Err(SchedulerError::AlreadyClosed);
        }
        if self.submitted < u64::MAX {
            self.submitted = self.submitted + 1;
        }
        Ok(())
    }

    /// Closes the queue; a second drain is refused.
    pub fn drain(&mut self) -> (r: Result<(), SchedulerError>)
        ensures
            old(self).closed ==> r == Err::<(), SchedulerError>(SchedulerError::AlreadyClosed)
                && *final(self) == *old(self),
            !old(self).closed ==> r is Ok && final(self).closed && final(self).submitted == old(
                self,
            ).submitted,
    {
        if self.closed {
            return Err(SchedulerError::AlreadyClosed);
        }
        self.closed = true;
        Ok(())
    }
}

/// The progress indicator's count: work added and work finished.
#[derive(Clone, Debug)]
pub struct Progress {
    pub length: u64,
    pub position: u64,
    pub message: Option<String>,
}

pub open spec fn sat_add(a: u64, b: u64) -> u64 {
    if a + b > u64::MAX {
        u64::MAX
    } else {
        (a + b) as u64
    }
}

impl Progress {
    pub fn new() -> (r: Progress)
        ensures
            r.length == 0 && r.position == 0 && r.message is None,
    {
        Progress { length: 0, position: 0, message: None }
    }

    /// Takes in one update: `added` more items, `finished` more done, and
    /// the label of the item in flight when there is one.
    pub fn apply(&mut self, added: u64, finished: u64, message: Option<String>)
        ensures
            final(self).length == sat_add(old(self).length, added),
            final(self).position == sat_add(old(self).position, finished),
            message is Some ==> final(self).message == message,
            message is None ==> final(self).message == old(self).message,
    {
        self.length = if self.length > u64::MAX - added {
            u64::MAX
        } else {
            self.length + added
        };
        self.position = if self.position > u64::MAX - finished {
            u64::MAX
        } else {
            self.position + finished
        };
        if message.is_some() {
            self.message = message;
        }
    }
}

/// The count after applying `updates` (items added, items finished) one
/// after another to a fresh count, as `Progress::apply` does.
pub open spec fn progress_after(updates: Seq<(u64, u64)>) -> (u64, u64)
    decreases updates.len(),
{
    if updates.len() == 0 {
        (0, 0)
    } else {
        let (l, p) = progress_after(updates.drop_last());
        (sat_add(l, updates.last().0), sat_add(p, updates.last().1))
    }
}

pub open spec fn total_added(updates: Seq<(u64, u64)>) -> int
    decreases updates.len(),
{
    if updates.len() == 0 {
        0
    } else {
        total_added(updates.drop_last()) + updates.last().0
    }
}

pub open spec fn total_finished(updates: Seq<(u64, u64)>) -> int
    decreases updates.len(),
{
    if updates.len() == 0 {
        0
    } else {
        total_finished(updates.drop_last()) + updates.last().1
    }
}

/// The progress count adds up the updates: while the totals fit in a
/// `u64`, its length is the number of items added and its position the
/// number finished; so once every item added has finished, the count is
/// full.
pub proof fn law_progress_totals(updates: Seq<(u64, u64)>)
    requires
        total_added(updates) <= u64::MAX,
        total_finished(updates) <= u64::MAX,
    ensures
        progress_after(updates).0 == total_added(updates),
        progress_after(updates).1 == total_finished(updates),
        total_added(updates) == total_finished(updates) ==> progress_after(updates).0
            == progress_after(updates).1,
    decreases updates.len(),
{
    if updates.len() > 0 {
        let rest = updates.drop_last();
        lemma_totals_nonneg(rest);
        law_progress_totals(rest);
    }
}

proof fn lemma_totals_nonneg(updates: Seq<(u64, u64)>)
    ensures
        total_added(updates) >= 0,
        total_finished(updates) >= 0,
    decreases updates.len(),
{
    if updates.len() > 0 {
        lemma_totals_nonneg(updates.drop_last());
    }
}

/// The work one output needs.
#[derive(Clone, Copy, Debug, PartialEq, Eq, Structural)]
pub struct MappingPlan {
    /// Its Shapefiles are extracted from the archives.
    pub extract: bool,
    /// Its descriptor is written.
    pub build_descriptor: bool,
    /// The conversion tool materializes it.
    pub convert: bool,
    /// The schema of its file is read back.
    pub introspect: bool,
    /// Its metadata record is written to the sink.
    pub record_metadata: bool,
}

/// The work an output needs: an output that exists is skipped when
/// skip-if-exists is on; a skipped file output still needs its descriptor
/// (hence its Shapefiles) when its schema must be read back for the
/// metadata sink.
pub open spec fn plan_of(skip_if_exists: bool, exists: bool, is_file: bool, sink: bool) -> MappingPlan {
    let skipped = skip_if_exists && exists;
    let describe = is_file && sink;
    MappingPlan {
        extract: !skipped || describe,
        build_descriptor: !skipped || describe,
        convert: !skipped,
        introspect: describe,
        record_metadata: sink,
    }
}

pub fn plan_mapping(skip_if_exists: bool, exists: bool, is_file: bool, sink: bool) -> (r:
    MappingPlan)
    ensures
        r == plan_of(skip_if_exists, exists, is_file, sink),
{
    let skipped = skip_if_exists && exists;
    let describe = is_file && sink;
    MappingPlan {
        extract: !skipped || describe,
        build_descriptor: !skipped || describe,
        convert: !skipped,
        introspect: describe,
        record_metadata: sink,
    }
}

/// The work of each output of a dataset, in resolution order, given which
/// outputs the destination already has.
pub fn plan_dataset(exists: &Vec<bool>, skip_if_exists: bool, is_file: bool, sink: bool) -> (r: Vec<
    MappingPlan,
>)
    ensures
        r.len() == exists.len(),
        forall|i: int|
            0 <= i < r.len() ==> #[trigger] r@[i] == plan_of(skip_if_exists, exists@[i], is_file, sink),
{
    let mut out: Vec<MappingPlan> = Vec::new();
    let mut i: usize = 0;
    while i < exists.len()
        invariant
            i <= exists.len(),
            out.len() == i,
            forall|k: int|
                0 <= k < i ==> #[trigger] out@[k] == plan_of(skip_if_exists, exists@[k], is_file, sink),
        decreases exists.len() - i,
    {
        out.push(plan_mapping(skip_if_exists, exists[i], is_file, sink));
        i = i + 1;
    }
    out
}

/// A run against a destination that already holds every output, with
/// skip-if-exists on, converts nothing, and still writes every output's
/// metadata record when a sink is configured.
pub proof fn law_rerun_converts_nothing(exists: Seq<bool>, is_file: bool, sink: bool, plans: Seq<MappingPlan>)
    requires
        forall|i: int| 0 <= i < exists.len() ==> #[trigger] exists[i],
        plans.len() == exists.len(),
        forall|i: int| 0 <= i < plans.len() ==> #[trigger] plans[i] == plan_of(true, exists[i], is_file, sink),
    ensures
        forall|i: int| 0 <= i < plans.len() ==> !(#[trigger] plans[i]).convert,
        forall|i: int| 0 <= i < plans.len() ==> (#[trigger] plans[i]).record_metadata == sink,
{
    assert forall|i: int| 0 <= i < plans.len() implies !(#[trigger] plans[i]).convert by {
        assert(exists[i]);
    }
}

} // verus!
