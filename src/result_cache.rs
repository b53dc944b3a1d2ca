use vstd::prelude::*;

use crate::engine::DataBlock;

verus! {

/// Collects result blocks for a cache entry and keeps count of their rows and memory size,
/// to tell when the entry grows past its byte limit.
pub struct ResultCacheWriter {
    pub location: String,
    pub current_bytes: usize,
    pub max_bytes: usize,
    pub num_rows: usize,
    pub blocks: Vec<DataBlock>,
}

impl ResultCacheWriter {
    pub fn create(location: String, max_bytes: usize) -> (r: ResultCacheWriter)
        ensures
            r.location == location,
            r.max_bytes == max_bytes,
            r.current_bytes == 0,
            r.num_rows == 0,
            r.blocks@.len() == 0,
    {
        ResultCacheWriter { location, current_bytes: 0, max_bytes, num_rows: 0, blocks: Vec::new() }
    }

    /// Adds a block whose in-memory size is `memory_size` bytes.
    pub fn append_block(&mut self, block: DataBlock, memory_size: usize)
        requires
            old(self).current_bytes + memory_size <= usize::MAX,
            old(self).num_rows + block.num_rows <= usize::MAX,
        ensures
            final(self).current_bytes == old(self).current_bytes + memory_size,
            final(self).num_rows == old(self).num_rows + block.num_rows,
            final(self).blocks@ == old(self).blocks@.push(block),
            final(self).max_bytes == old(self).max_bytes,
            final(self).location == old(self).location,
    {
        self.current_bytes = self.current_bytes + memory_size;
        self.num_rows = self.num_rows + block.num_rows;
        self.blocks.push(block);
    }

    /// Whether the blocks take more memory than the limit.
    pub fn over_limit(&self) -> (r: bool)
        ensures
            r == (self.current_bytes > self.max_bytes),
    {
        self.current_bytes > self.max_bytes
    }

    pub fn current_bytes(&self) -> (r: usize)
        ensures
            r == self.current_bytes,
    {
        self.current_bytes
    }

    pub fn num_rows(&self) -> (r: usize)
        ensures
            r == self.num_rows,
    {
        self.num_rows
    }
}

} // verus!
