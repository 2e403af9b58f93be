//! Worker threads: how many, how far they may run ahead, and what became of them.
use vstd::prelude::*;

use crate::decimal::{
    decimal, is_numeral, law_decimal_reads_back, law_right_aligned_reads_back, push_decimal,
    push_right_aligned, right_aligned,
};

verus! {

/// How many items may wait for each worker.
pub const ITEMS_PER_WORKER: usize = 4;

/// The number of workers: the one asked for, or else one for each processor.
pub fn worker_count(asked: Option<usize>, processors: usize) -> (workers: usize)
    ensures
        workers == match asked {
            Some(n) => n,
            None => processors,
        },
{
    match asked {
        Some(n) => n,
        None => processors,
    }
}

/// How many items a queue between the workers and the main thread holds.
pub fn queue_capacity(workers: usize) -> (capacity: usize)
    requires
        workers * ITEMS_PER_WORKER <= usize::MAX,
    ensures
        capacity == workers * ITEMS_PER_WORKER,
{
    workers * ITEMS_PER_WORKER
}

/// What became of a worker.
#[derive(Debug, Clone, Copy, PartialEq, Eq, Structural)]
pub enum WorkerOutcome {
    /// It wrote this many items.
    Finished(u64),
    /// It gave up with an error.
    Failed,
    /// It panicked.
    Panicked,
}

/// Why the results of a run could not be gathered.
#[derive(Debug, Clone, Copy, PartialEq, Eq, Structural)]
pub enum JoinError {
    /// The worker with this number gave up with an error.
    Failed(usize),
    /// The worker with this number panicked.
    Panicked(usize),
}

impl JoinError {
    /// The message for the error.
    pub open spec fn text(self) -> Seq<char> {
        match self {
            JoinError::Failed(i) => "worker "@ + decimal(i as nat) + " failed"@,
            JoinError::Panicked(i) => "worker "@ + decimal(i as nat) + " panicked"@,
        }
    }

    /// The message for the error.
    pub fn message(&self) -> (text: String)
        ensures
            text@ == self.text(),
    {
        let mut text: String = "worker ".to_owned();
        match *self {
            JoinError::Failed(i) => {
                push_decimal(&mut text, i as u64);
                text.append(" failed");
            },
            JoinError::Panicked(i) => {
                push_decimal(&mut text, i as u64);
                text.append(" panicked");
            },
        }
        text
    }
}

/// How many items each worker wrote, for the workers that have been waited for so far.
#[derive(Debug)]
pub struct Tally {
    counts: Vec<u64>,
}

impl View for Tally {
    type V = Seq<u64>;

    closed spec fn view(&self) -> Seq<u64> {
        self.counts@
    }
}

impl Tally {
    /// No worker waited for yet.
    pub fn new() -> (r: Tally)
        ensures
            r@ == Seq::<u64>::empty(),
    {
        Tally { counts: Vec::new() }
    }

    /// Takes in what became of the next worker. A worker that did not finish ends the run, under
    /// its number.
    pub fn join(&mut self, outcome: WorkerOutcome) -> (r: Result<(), JoinError>)
        ensures
            match outcome {
                WorkerOutcome::Finished(count) => r is Ok && final(self)@ == old(self)@.push(count),
                WorkerOutcome::Failed => (r matches Err(JoinError::Failed(i)) && i == old(self)@.len())
                    && final(self)@ == old(self)@,
                WorkerOutcome::Panicked => (r matches Err(JoinError::Panicked(i)) && i == old(self)@.len())
                    && final(self)@ == old(self)@,
            },
    {
        match outcome {
            WorkerOutcome::Finished(count) => {
                self.counts.push(count);
                Ok(())
            },
            WorkerOutcome::Failed => Err(JoinError::Failed(self.counts.len())),
            WorkerOutcome::Panicked => Err(JoinError::Panicked(self.counts.len())),
        }
    }

    /// The report on each shard, in order.
    pub fn report(&self, width: usize) -> (lines: Vec<String>)
        ensures
            lines@.len() == self@.len(),
            forall|i: int|
                0 <= i < lines@.len() ==> (#[trigger] lines@[i])@ == shard_text(
                    i as nat,
                    self@[i],
                    width as nat,
                ),
    {
        let mut lines: Vec<String> = Vec::new();
        let mut i: usize = 0;
        while i < self.counts.len()
            invariant
                i <= self@.len(),
                self@ == self.counts@,
                lines@.len() == i,
                forall|k: int|
                    0 <= k < i ==> (#[trigger] lines@[k])@ == shard_text(
                        k as nat,
                        self@[k],
                        width as nat,
                    ),
            decreases self@.len() - i,
        {
            let mut text: String = "  shard ".to_owned();
            push_right_aligned(&mut text, i as u64, width);
            text.append(": ");
            push_decimal(&mut text, self.counts[i]);
            text.append(" items");
            lines.push(text);
            i = i + 1;
        }
        lines
    }
}

/// The report on one shard.
pub open spec fn shard_text(shard: nat, count: u64, width: nat) -> Seq<char> {
    "  shard "@ + right_aligned(shard, width) + ": "@ + decimal(count as nat) + " items"@
}

/// The report on a run.
pub open spec fn summary_text(total: u64, shards: usize, input: Seq<char>) -> Seq<char> {
    "sharded "@ + decimal(total as nat) + " items across "@ + decimal(shards as nat)
        + " files (input: "@ + input + ")"@
}

/// The report on a run.
pub fn summary(total: u64, shards: usize, input: &str) -> (text: String)
    ensures
        text@ == summary_text(total, shards, input@),
{
    let mut text: String = "sharded ".to_owned();
    push_decimal(&mut text, total);
    text.append(" items across ");
    push_decimal(&mut text, shards as u64);
    text.append(" files (input: ");
    text.append(input);
    text.append(")");
    text
}

/// The message for an error names the worker, by its number in digits, and what became of it.
pub proof fn law_join_error_reads(i: usize)
    ensures
        exists|numeral: Seq<char>|
            {
                &&& #[trigger] is_numeral(numeral, i as int)
                &&& JoinError::Failed(i).text() == "worker "@ + numeral + " failed"@
                &&& JoinError::Panicked(i).text() == "worker "@ + numeral + " panicked"@
            },
{
    law_decimal_reads_back(i as nat);
}

/// The report on a shard gives its number, right-aligned in the width, and its number of items, in
/// digits.
pub proof fn law_shard_report_reads(shard: nat, count: u64, width: nat)
    ensures
        exists|blanks: Seq<char>, number: Seq<char>, items: Seq<char>|
            {
                &&& shard_text(shard, count, width) == "  shard "@ + #[trigger] (blanks + number)
                    + ": "@ + items + " items"@
                &&& is_numeral(number, shard as int)
                &&& #[trigger] is_numeral(items, count as int)
                &&& forall|i: int| 0 <= i < blanks.len() ==> #[trigger] blanks[i] == ' '
                &&& width <= (blanks + number).len()
                &&& blanks.len() == 0 || (blanks + number).len() == width
            },
{
    law_decimal_reads_back(count as nat);
    law_right_aligned_reads_back(shard, width);
    let field = right_aligned(shard, width);
    let n = choose|blanks: nat|
        {
            &&& #[trigger] right_aligned(shard, width).skip(blanks as int).len() + blanks
                == right_aligned(shard, width).len()
            &&& is_numeral(right_aligned(shard, width).skip(blanks as int), shard as int)
            &&& forall|i: int| 0 <= i < blanks ==> #[trigger] right_aligned(shard, width)[i] == ' '
            &&& blanks == 0 || right_aligned(shard, width).len() == width
        };
    let blanks = field.take(n as int);
    let number = field.skip(n as int);
    assert(blanks + number =~= field);
    assert(is_numeral(decimal(count as nat), count as int));
    assert(shard_text(shard, count, width) =~= "  shard "@ + (blanks + number) + ": "@ + decimal(
        count as nat,
    ) + " items"@);
}

/// The report on a run gives the numbers of items and of files, in digits, and the input as it is.
pub proof fn law_summary_reads(total: u64, shards: usize, input: Seq<char>)
    ensures
        exists|items: Seq<char>, files: Seq<char>|
            {
                &&& #[trigger] is_numeral(items, total as int)
                &&& #[trigger] is_numeral(files, shards as int)
                &&& summary_text(total, shards, input) == "sharded "@ + items + " items across "@
                    + files + " files (input: "@ + input + ")"@
            },
{
    law_decimal_reads_back(total as nat);
    law_decimal_reads_back(shards as nat);
    assert(is_numeral(decimal(total as nat), total as int) && is_numeral(
        decimal(shards as nat),
        shards as int,
    ));
}

} // verus!
