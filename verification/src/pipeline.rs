//! The command pipeline and its fail-fast batch stepping.
//!
//! The pipeline is an ordered command list, fixed at startup. A triggered
//! batch runs the commands strictly in order; these functions decide which
//! command runs next and record each outcome, while the caller performs the
//! actual spawning and, after the batch, unconditionally clears the
//! aggregator's inhibition flag.

use vstd::prelude::*;

verus! {

/// One external command: an executable and its arguments.
pub struct Cmd {
    pub program: String,
    pub args: Vec<String>,
}

/// The ordered command list, fixed for the process lifetime.
pub struct Pipeline {
    commands: Vec<Cmd>,
}

/// Progress of one triggered batch through the pipeline.
pub struct Batch {
    /// Index of the next command to dispatch.
    pub next: usize,
    /// Set once a command failed: the rest of the batch is skipped.
    pub stopped: bool,
}

/// The index of the command a batch must dispatch next, or `None` when the
/// batch is over: every command ran, or one failed.
pub open spec fn next_command_spec(p: Pipeline, b: Batch) -> Option<int> {
    if !b.stopped && (b.next as int) < p.spec_commands().len() {
        Option::Some(b.next as int)
    } else {
        Option::None
    }
}

/// Recording an outcome advances the batch; a failure stops it.
pub open spec fn record_spec(b: Batch, success: bool) -> Batch {
    Batch { next: (b.next + 1) as usize, stopped: !success }
}

impl Pipeline {
    /// The command list, as the contracts speak of it.
    pub closed spec fn spec_commands(self) -> Seq<Cmd> {
        self.commands@
    }

    pub fn new(commands: Vec<Cmd>) -> (p: Pipeline)
        ensures
            p.spec_commands() == commands@,
    {
        Pipeline { commands }
    }

    /// How many commands are configured.
    pub fn len(&self) -> (n: usize)
        ensures
            n == self.spec_commands().len(),
    {
        self.commands.len()
    }

    /// A command of the pipeline.
    pub fn command(&self, i: usize) -> (c: &Cmd)
        requires
            i < self.spec_commands().len(),
        ensures
            *c == self.spec_commands()[i as int],
    {
        &self.commands[i]
    }

    /// Starts a batch at the first command with nothing failed yet.
    pub fn start_batch(&self) -> (b: Batch)
        ensures
            b.next == 0,
            !b.stopped,
    {
        Batch { next: 0, stopped: false }
    }

    /// The index of the command this batch must run next, or `None` when
    /// the batch is over — all commands ran, or one failed (fail-fast).
    pub fn next_command(&self, b: &Batch) -> (r: Option<usize>)
        ensures
            match r {
                Option::Some(i) => next_command_spec(*self, *b) == Option::Some(i as int),
                Option::None => next_command_spec(*self, *b) is None,
            },
    {
        if !b.stopped && b.next < self.commands.len() {
            Option::Some(b.next)
        } else {
            Option::None
        }
    }

    /// Records the outcome of the command just dispatched: the batch
    /// advances, and a failure — non-zero exit or launch error — stops it.
    pub fn record_outcome(&self, b: &mut Batch, success: bool)
        requires
            next_command_spec(*self, *old(b)) is Some,
        ensures
            *final(b) == record_spec(*old(b), success),
    {
        let n = self.commands.len();
        proof {
            assert(b.next < n);
        }
        b.next = b.next + 1;
        b.stopped = !success;
    }
}

/// Fail-fast: recording a failed command stops the batch, and a stopped
/// batch dispatches nothing further — the commands after the failed one are
/// never invoked. Clearing the aggregator's inhibition flag afterwards is
/// the runner's separate step, owed unconditionally however the batch ended.
pub proof fn lemma_fail_fast(p: Pipeline, b: Batch)
    ensures
        next_command_spec(p, record_spec(b, false)) is None,
        forall|b2: Batch| b2.stopped ==> next_command_spec(p, b2) is None,
{
}

} // verus!
