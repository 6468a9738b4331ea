//! Settings of a batch run that compresses many inputs side by side.

use vstd::prelude::*;

verus! {

/// Limits of a batch run: how many inputs are compressed at once, in
/// pieces of which size, and how much output may be held in memory.
#[derive(Debug, Clone, Copy)]
pub struct AsyncBatchProcessor {
    /// Number of inputs compressed at the same time.
    pub concurrency_limit: usize,
    /// Size of the pieces in which an input is read.
    pub chunk_size: usize,
    /// Number of bytes of output that may be held before they are
    /// released.
    pub memory_limit: usize,
}

/// The number of processors that `num_cpus::get` reports for this
/// machine. Nothing is claimed of the number: it depends on the machine
/// and on the limits set for the process.
#[verifier::external_body]
fn available_cpus() -> (count: usize) {
    num_cpus::get()
}

impl AsyncBatchProcessor {
    /// The usual limits: pieces of 64 KiB, 256 MiB of output, and as many
    /// inputs at once as the machine reports processors.
    pub fn new() -> (processor: AsyncBatchProcessor)
        ensures
            processor.chunk_size == 64 * 1024,
            processor.memory_limit == 256 * 1024 * 1024,
    {
        let cpus = available_cpus();
        AsyncBatchProcessor {
            concurrency_limit: cpus,
            chunk_size: 64 * 1024,
            memory_limit: 256 * 1024 * 1024,
        }
    }

    /// The same limits with `limit` inputs at once.
    pub fn with_concurrency(self, limit: usize) -> (processor: AsyncBatchProcessor)
        ensures
            processor == (AsyncBatchProcessor { concurrency_limit: limit, ..self }),
    {
        let mut processor = self;
        processor.concurrency_limit = limit;
        processor
    }

    /// The same limits with pieces of `size` bytes.
    pub fn with_chunk_size(self, size: usize) -> (processor: AsyncBatchProcessor)
        ensures
            processor == (AsyncBatchProcessor { chunk_size: size, ..self }),
    {
        let mut processor = self;
        processor.chunk_size = size;
        processor
    }

    /// The same limits with `limit` bytes of output in memory.
    pub fn with_memory_limit(self, limit: usize) -> (processor: AsyncBatchProcessor)
        ensures
            processor == (AsyncBatchProcessor { memory_limit: limit, ..self }),
    {
        let mut processor = self;
        processor.memory_limit = limit;
        processor
    }

    /// Whether `current_memory` bytes of output are more than three
    /// quarters of the memory limit, so that output is to be released
    /// before more inputs are taken.
    pub fn over_budget(&self, current_memory: usize) -> (over: bool)
        ensures
            over == (current_memory > self.memory_limit * 3 / 4),
    {
        let budget = (self.memory_limit as u128) * 3 / 4;
        (current_memory as u128) > budget
    }
}

impl Default for AsyncBatchProcessor {
    fn default() -> (processor: AsyncBatchProcessor)
        ensures
            processor.chunk_size == 64 * 1024,
            processor.memory_limit == 256 * 1024 * 1024,
    {
        AsyncBatchProcessor::new()
    }
}

} // verus!
