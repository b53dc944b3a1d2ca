use vstd::prelude::*;

use crate::ascii::{COMMA, CR, LF};
use crate::error::ErrorCode;
use crate::schema::DataSchema;
use crate::schema::FormatSettings;
use crate::state::CsvInputState;

verus! {

/// The configuration of one CSV ingestion job, read-only once created.
#[derive(Debug)]
pub struct CsvInputFormat {
    pub schema: DataSchema,
    pub field_delimiter: u8,
    pub skip_rows: usize,
    pub record_delimiter: Option<u8>,
    pub min_accepted_rows: usize,
    pub min_accepted_bytes: usize,
    pub settings: FormatSettings,
}

/// The field delimiter that settings select: their first byte, else a comma.
pub open spec fn field_delimiter_of(s: FormatSettings) -> u8 {
    if s.field_delimiter@.len() >= 1 {
        s.field_delimiter@[0]
    } else {
        COMMA
    }
}

/// The record delimiter that settings select; CR and LF mean the default terminators.
pub open spec fn record_delimiter_of(s: FormatSettings) -> Option<u8> {
    if s.record_delimiter@.len() != 0 && s.record_delimiter@[0] != LF
        && s.record_delimiter@[0] != CR {
        Some(s.record_delimiter@[0])
    } else {
        None
    }
}

/// Rows to accept before a registered CSV format asks for a flush.
pub const DEFAULT_MIN_ACCEPTED_ROWS: usize = 8192;

/// Bytes to accept before a registered CSV format asks for a flush.
pub const DEFAULT_MIN_ACCEPTED_BYTES: usize = 10 * 1024 * 1024;

/// The input formats that a factory can create, by name: for each, the header rows it skips
/// and the row and byte thresholds that `CsvInputFormat::try_create` is given.
pub struct FormatFactory {
    pub inputs: Vec<(String, usize, usize, usize)>,
}

impl FormatFactory {
    pub fn new() -> (r: FormatFactory)
        ensures
            r.inputs@.len() == 0,
    {
        FormatFactory { inputs: Vec::new() }
    }

    /// Records a format name with the header rows it skips and its batching thresholds.
    pub fn register_input(
        &mut self,
        name: String,
        skip_rows: usize,
        min_accepted_rows: usize,
        min_accepted_bytes: usize,
    )
        ensures
            final(self).inputs@ == old(self).inputs@.push(
                (name, skip_rows, min_accepted_rows, min_accepted_bytes),
            ),
    {
        self.inputs.push((name, skip_rows, min_accepted_rows, min_accepted_bytes));
    }

    /// Creates the registered format at `index` for a schema and settings.
    pub fn create_input(&self, index: usize, schema: DataSchema, settings: FormatSettings) -> (r:
        Result<CsvInputFormat, ErrorCode>)
        requires
            index < self.inputs@.len(),
        ensures
            r is Ok,
            r->Ok_0.schema == schema,
            r->Ok_0.skip_rows == self.inputs@[index as int].1,
            r->Ok_0.min_accepted_rows == self.inputs@[index as int].2,
            r->Ok_0.min_accepted_bytes == self.inputs@[index as int].3,
            r->Ok_0.field_delimiter == field_delimiter_of(settings),
            r->Ok_0.record_delimiter == record_delimiter_of(settings),
    {
        let entry = &self.inputs[index];
        CsvInputFormat::try_create(entry.0.as_str(), schema, settings, entry.1, entry.2, entry.3)
    }
}

impl CsvInputFormat {
    /// Registers the three CSV variants: without header, with names, with names and types;
    /// all with the default batching thresholds.
    pub fn register(factory: &mut FormatFactory)
        ensures
            final(factory).inputs@.len() == old(factory).inputs@.len() + 3,
            final(factory).inputs@.subrange(0, old(factory).inputs@.len() as int)
                == old(factory).inputs@,
            final(factory).inputs@[old(factory).inputs@.len() as int].0@ == "Csv"@,
            final(factory).inputs@[old(factory).inputs@.len() + 1int].0@ == "CsvWithNames"@,
            final(factory).inputs@[old(factory).inputs@.len() + 2int].0@
                == "CsvWithNamesAndTypes"@,
            forall|k: int|
                0 <= k < 3 ==> {
                    let e = #[trigger] final(factory).inputs@[old(factory).inputs@.len() + k];
                    &&& e.1 == k
                    &&& e.2 == DEFAULT_MIN_ACCEPTED_ROWS
                    &&& e.3 == DEFAULT_MIN_ACCEPTED_BYTES
                },
    {
        let ghost n = factory.inputs@.len();
        factory.register_input("Csv".to_owned(), 0, DEFAULT_MIN_ACCEPTED_ROWS, DEFAULT_MIN_ACCEPTED_BYTES);
        factory.register_input(
            "CsvWithNames".to_owned(),
            1,
            DEFAULT_MIN_ACCEPTED_ROWS,
            DEFAULT_MIN_ACCEPTED_BYTES,
        );
        factory.register_input(
            "CsvWithNamesAndTypes".to_owned(),
            2,
            DEFAULT_MIN_ACCEPTED_ROWS,
            DEFAULT_MIN_ACCEPTED_BYTES,
        );
        assert(factory.inputs@.subrange(0, n as int) =~= old(factory).inputs@);
    }

    pub fn try_create(
        _name: &str,
        schema: DataSchema,
        settings: FormatSettings,
        skip_rows: usize,
        min_accepted_rows: usize,
        min_accepted_bytes: usize,
    ) -> (r: Result<CsvInputFormat, ErrorCode>)
        ensures
            r is Ok,
            r->Ok_0.schema == schema,
            r->Ok_0.field_delimiter == field_delimiter_of(settings),
            r->Ok_0.record_delimiter == record_delimiter_of(settings),
            r->Ok_0.skip_rows == skip_rows,
            r->Ok_0.min_accepted_rows == min_accepted_rows,
            r->Ok_0.min_accepted_bytes == min_accepted_bytes,
            r->Ok_0.settings.field_delimiter == settings.field_delimiter,
            r->Ok_0.settings.record_delimiter == settings.record_delimiter,
            r->Ok_0.settings.csv_null_bytes == settings.csv_null_bytes,
            r->Ok_0.settings.null_bytes@ == settings.csv_null_bytes@,
    {
        let mut settings = settings;
        let field_delimiter = if settings.field_delimiter.len() >= 1 {
            settings.field_delimiter[0]
        } else {
            COMMA
        };
        let mut record_delimiter = None;
        if settings.record_delimiter.len() != 0 && settings.record_delimiter[0] != LF
            && settings.record_delimiter[0] != CR {
            record_delimiter = Some(settings.record_delimiter[0]);
        }
        let mut null_bytes: Vec<u8> = Vec::new();
        let mut i: usize = 0;
        while i < settings.csv_null_bytes.len()
            invariant
                i <= settings.csv_null_bytes@.len(),
                null_bytes@ == settings.csv_null_bytes@.subrange(0, i as int),
            decreases settings.csv_null_bytes@.len() - i,
        {
            null_bytes.push(settings.csv_null_bytes[i]);
            i = i + 1;
        }
        assert(null_bytes@ == settings.csv_null_bytes@.subrange(0, i as int));
        assert(settings.csv_null_bytes@.subrange(0, i as int) == settings.csv_null_bytes@);
        settings.null_bytes = null_bytes;
        Ok(CsvInputFormat {
            schema,
            field_delimiter,
            skip_rows,
            record_delimiter,
            min_accepted_rows,
            min_accepted_bytes,
            settings,
        })
    }

    /// A CSV source can be split into ranges that are parsed independently.
    pub fn support_parallel(&self) -> (r: bool)
        ensures
            r,
    {
        true
    }

    pub fn create_state(&self) -> (r: CsvInputState)
        ensures
            r.is_fresh(),
    {
        CsvInputState::fresh()
    }
}

} // verus!
