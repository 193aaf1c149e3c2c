//! The sizing of one run: how long the input is, how it is cut into chunks,
//! and which group size is asked for.

use vstd::prelude::*;
use crate::pass::effective_group_size;

verus! {

/// Why a configuration, or an input held against it, is refused.
#[derive(Clone, Copy, Debug, PartialEq, Eq, Structural)]
pub enum ConfigError {
    /// The chunk size is zero.
    EmptyChunk,
    /// The total length is not a multiple of the chunk size.
    UnevenLength,
    /// The total length is not the chunk count times the chunk size.
    ChunkCountMismatch,
    /// The input does not have the configured total length.
    InputLengthMismatch,
    /// Passes with this group size cannot bring a chunk down to one element.
    GroupSizeTooSmall,
}

/// What is wrong with these sizes, if anything: the first of the failures in
/// the order in which `ConfigError` lists them.
pub open spec fn sizing_error(
    list_size: int,
    chunk_size: int,
    num_chunks: int,
) -> Option<ConfigError> {
    if chunk_size == 0 {
        Some(ConfigError::EmptyChunk)
    } else if list_size % chunk_size != 0 {
        Some(ConfigError::UnevenLength)
    } else if list_size / chunk_size != num_chunks {
        Some(ConfigError::ChunkCountMismatch)
    } else {
        None
    }
}

/// Sizes without an error are those of whole chunks:
/// `list_size == num_chunks * chunk_size`, with chunks that are not empty.
pub proof fn lemma_sizing(list_size: int, chunk_size: int, num_chunks: int)
    requires
        list_size >= 0,
        chunk_size >= 0,
        num_chunks >= 0,
    ensures
        sizing_error(list_size, chunk_size, num_chunks).is_none() <==> (chunk_size >= 1
            && num_chunks * chunk_size == list_size),
{
    if chunk_size >= 1 {
        vstd::arithmetic::div_mod::lemma_fundamental_div_mod(list_size, chunk_size);
        vstd::arithmetic::div_mod::lemma_mod_bound(list_size, chunk_size);
        let q = list_size / chunk_size;
        let r = list_size % chunk_size;
        assert(chunk_size * q == q * chunk_size) by (nonlinear_arith);
        if num_chunks * chunk_size == list_size {
            assert(q == num_chunks && r == 0) by (nonlinear_arith)
                requires
                    num_chunks * chunk_size == list_size,
                    list_size == chunk_size * q + r,
                    0 <= r < chunk_size,
            ;
        }
    }
}

/// The sizing of one run.
#[derive(Clone, Copy, Debug, PartialEq, Eq, Structural)]
pub struct ReductionConfig {
    /// The length of the input, `L`.
    pub list_size: usize,
    /// The length of one chunk, `C`.
    pub chunk_size: usize,
    /// The number of chunks, `L / C`.
    pub num_chunks: usize,
    /// The preferred number of threads of one group.
    pub thread_group_size: u64,
}

impl ReductionConfig {
    /// The input is made of whole chunks that are not empty.
    pub open spec fn valid(&self) -> bool {
        &&& self.chunk_size >= 1
        &&& self.num_chunks * self.chunk_size == self.list_size
    }

    /// The configuration with these sizes, or why they are refused.
    pub fn new(
        list_size: usize,
        chunk_size: usize,
        num_chunks: usize,
        thread_group_size: u64,
    ) -> (config: Result<ReductionConfig, ConfigError>)
        ensures
            match config {
                Ok(c) => sizing_error(list_size as int, chunk_size as int, num_chunks as int)
                    .is_none() && c.valid() && c == (ReductionConfig {
                    list_size,
                    chunk_size,
                    num_chunks,
                    thread_group_size,
                }),
                Err(e) => sizing_error(list_size as int, chunk_size as int, num_chunks as int)
                    == Some(e),
            },
    {
        let config = ReductionConfig { list_size, chunk_size, num_chunks, thread_group_size };
        match config.validate() {
            Ok(()) => Ok(config),
            Err(e) => Err(e),
        }
    }

    /// Holds the sizes against each other.
    pub fn validate(&self) -> (checked: Result<(), ConfigError>)
        ensures
            checked.is_ok() <==> self.valid(),
            match checked {
                Ok(_) => sizing_error(
                    self.list_size as int,
                    self.chunk_size as int,
                    self.num_chunks as int,
                ).is_none(),
                Err(e) => sizing_error(
                    self.list_size as int,
                    self.chunk_size as int,
                    self.num_chunks as int,
                ) == Some(e),
            },
    {
        proof {
            lemma_sizing(self.list_size as int, self.chunk_size as int, self.num_chunks as int);
        }
        if self.chunk_size == 0 {
            Err(ConfigError::EmptyChunk)
        } else if self.list_size % self.chunk_size != 0 {
            Err(ConfigError::UnevenLength)
        } else if self.list_size / self.chunk_size != self.num_chunks {
            Err(ConfigError::ChunkCountMismatch)
        } else {
            Ok(())
        }
    }

    /// The group size that governs on a device: the preferred one, held to
    /// the device's and to the kernel's maximum of threads per group.
    pub fn group_size(&self, device_max: u64, kernel_max: u64) -> (size: u64)
        ensures
            size <= self.thread_group_size,
            size <= device_max,
            size <= kernel_max,
            size == self.thread_group_size || size == device_max || size == kernel_max,
    {
        effective_group_size(self.thread_group_size, device_max, kernel_max)
    }
}

} // verus!
