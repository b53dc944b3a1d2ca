use vstd::prelude::*;

verus! {

/// Progress of the tokenizer across the buffers of one stream shard.
#[derive(Debug)]
pub struct CsvInputState {
    /// 0 outside a quoted field, else the quote byte that opened it.
    pub quotes: u8,
    /// Row-terminated bytes accepted and not yet deserialized.
    pub memory: Vec<u8>,
    pub accepted_rows: usize,
    pub accepted_bytes: usize,
    pub need_more_data: bool,
    /// A byte to drop if it starts the next buffer (the second half of a split CR/LF pair).
    pub ignore_if_first: Option<u8>,
}

/// The tokenizer's state without the accumulated bytes, over mathematical integers.
pub struct ScanState {
    pub quotes: u8,
    pub accepted_rows: int,
    pub accepted_bytes: int,
    pub need_more_data: bool,
    pub ignore_if_first: Option<u8>,
}

impl CsvInputState {
    pub open spec fn scan_view(&self) -> ScanState {
        ScanState {
            quotes: self.quotes,
            accepted_rows: self.accepted_rows as int,
            accepted_bytes: self.accepted_bytes as int,
            need_more_data: self.need_more_data,
            ignore_if_first: self.ignore_if_first,
        }
    }

    /// A state that has accepted nothing.
    pub open spec fn is_fresh(&self) -> bool {
        &&& self.quotes == 0
        &&& self.memory@.len() == 0
        &&& self.accepted_rows == 0
        &&& self.accepted_bytes == 0
        &&& !self.need_more_data
        &&& self.ignore_if_first.is_none()
    }

    pub fn fresh() -> (r: CsvInputState)
        ensures
            r.is_fresh(),
    {
        CsvInputState {
            quotes: 0,
            memory: Vec::new(),
            accepted_rows: 0,
            accepted_bytes: 0,
            need_more_data: false,
            ignore_if_first: None,
        }
    }
}

} // verus!
