//! Settings of a run that compresses one long input piece by piece.

use vstd::prelude::*;

verus! {

/// Compresses one long input piece by piece; the surrounding program does
/// the reading and the writing.
#[derive(Debug)]
pub struct AsyncStreamProcessor;

/// How a long input is read and how much of it is held.
#[derive(Debug, Clone, Copy)]
pub struct StreamOptions {
    /// Size of the pieces in which the input is read.
    pub chunk_size: usize,
    /// Number of buffers that are filled in turn.
    pub buffer_count: usize,
    /// Number of bytes taken before the output is handed on.
    pub memory_limit: usize,
    /// Whether progress is reported.
    pub show_progress: bool,
}

impl StreamOptions {
    /// Options for a large input: pieces of 1 MiB, three buffers, 512 MiB,
    /// with progress.
    pub fn large_file() -> (options: StreamOptions)
        ensures
            options.chunk_size == 1024 * 1024,
            options.buffer_count == 3,
            options.memory_limit == 512 * 1024 * 1024,
            options.show_progress == true,
    {
        StreamOptions {
            chunk_size: 1024 * 1024,
            buffer_count: 3,
            memory_limit: 512 * 1024 * 1024,
            show_progress: true,
        }
    }

    /// Options for little memory: pieces of 16 KiB, two buffers, 32 MiB,
    /// without progress.
    pub fn low_memory() -> (options: StreamOptions)
        ensures
            options.chunk_size == 16 * 1024,
            options.buffer_count == 2,
            options.memory_limit == 32 * 1024 * 1024,
            options.show_progress == false,
    {
        StreamOptions {
            chunk_size: 16 * 1024,
            buffer_count: 2,
            memory_limit: 32 * 1024 * 1024,
            show_progress: false,
        }
    }

    /// Whether `processed_bytes` bytes were taken since the output was
    /// last handed on, so that it is to be handed on now.
    pub fn is_flush_due(&self, processed_bytes: usize) -> (due: bool)
        ensures
            due == (processed_bytes >= self.memory_limit),
    {
        processed_bytes >= self.memory_limit
    }

    /// The buffer that is filled after buffer `current`.
    pub fn next_buffer(&self, current: usize) -> (next: usize)
        requires
            self.buffer_count > 0,
            current < self.buffer_count,
        ensures
            next == (current + 1) % (self.buffer_count as int),
            next < self.buffer_count,
    {
        (current + 1) % self.buffer_count
    }
}

impl Default for StreamOptions {
    /// The usual options: pieces of 64 KiB, four buffers, 128 MiB, without
    /// progress.
    fn default() -> (options: StreamOptions)
        ensures
            options.chunk_size == 64 * 1024,
            options.buffer_count == 4,
            options.memory_limit == 128 * 1024 * 1024,
            options.show_progress == false,
    {
        StreamOptions {
            chunk_size: 64 * 1024,
            buffer_count: 4,
            memory_limit: 128 * 1024 * 1024,
            show_progress: false,
        }
    }
}

} // verus!
