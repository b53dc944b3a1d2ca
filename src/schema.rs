use vstd::prelude::*;

verus! {

/// The declared type of a column.
#[derive(Debug, Clone, Copy, PartialEq, Eq, Structural)]
pub enum DataType {
    Int64,
    UInt64,
    String,
}

impl DataType {
    pub fn is_integer(&self) -> (r: bool)
        ensures
            r == (*self == DataType::Int64 || *self == DataType::UInt64),
    {
        match self {
            DataType::Int64 => true,
            DataType::UInt64 => true,
            DataType::String => false,
        }
    }
}

/// One column of a schema: its name and declared type.
#[derive(Debug, Clone)]
pub struct DataField {
    pub name: Vec<u8>,
    pub data_type: DataType,
}

/// The ordered columns of a table.
#[derive(Debug, Clone)]
pub struct DataSchema {
    pub fields: Vec<DataField>,
}

impl DataSchema {
    pub fn empty() -> (r: DataSchema)
        ensures
            r.fields@.len() == 0,
    {
        DataSchema { fields: Vec::new() }
    }

    pub fn num_fields(&self) -> (r: usize)
        ensures
            r == self.fields@.len(),
    {
        self.fields.len()
    }
}

/// Text-format options shared by the tokenizer and the column deserializers.
#[derive(Debug, Clone)]
pub struct FormatSettings {
    pub field_delimiter: Vec<u8>,
    pub record_delimiter: Vec<u8>,
    pub null_bytes: Vec<u8>,
    pub csv_null_bytes: Vec<u8>,
}

} // verus!
