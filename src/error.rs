use vstd::prelude::*;
use vstd::string::StringSliceAdditionalSpecFns;

use crate::text::{decimal, push_decimal, push_text};

verus! {

/// What went wrong while ingesting CSV text.
#[derive(Debug, Clone, Copy, PartialEq, Eq, Structural)]
pub enum ErrorKind {
    /// A field delimiter or a row terminator is missing in the given row (0-based).
    MalformedRow { row: usize },
    /// A column deserializer rejected the text of a field.
    FieldParse,
}

/// An error, with a human-readable message (ASCII bytes) that diagnostics extend.
#[derive(Debug, Clone)]
pub struct ErrorCode {
    pub kind: ErrorKind,
    pub message: Vec<u8>,
}

/// The message that an error of each kind starts with.
pub open spec fn kind_message(kind: ErrorKind) -> Seq<u8> {
    match kind {
        ErrorKind::MalformedRow { row } => "Parse csv error at line ".spec_bytes() + decimal(
            row as nat,
        ),
        ErrorKind::FieldParse => "Cannot parse the field".spec_bytes(),
    }
}

impl ErrorCode {
    pub fn new(kind: ErrorKind) -> (r: ErrorCode)
        ensures
            r.kind == kind,
            r.message@ == kind_message(kind),
    {
        let mut message: Vec<u8> = Vec::new();
        match kind {
            ErrorKind::MalformedRow { row } => {
                push_text(&mut message, "Parse csv error at line ");
                push_decimal(&mut message, row);
            },
            ErrorKind::FieldParse => push_text(&mut message, "Cannot parse the field"),
        }
        ErrorCode { kind, message }
    }

    /// Appends text at the end of the message.
    pub fn add_message_back(self, msg: Vec<u8>) -> (r: ErrorCode)
        ensures
            r.kind == self.kind,
            r.message@ == self.message@ + msg@,
    {
        let mut message = self.message;
        let mut m = msg;
        message.append(&mut m);
        ErrorCode { kind: self.kind, message }
    }
}

} // verus!
