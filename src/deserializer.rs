use vstd::prelude::*;

use crate::ascii::{CR, DIGIT_NINE, DIGIT_ZERO, DOUBLE_QUOTE, LF, MINUS, PLUS, SINGLE_QUOTE};
use crate::error::{kind_message, ErrorCode, ErrorKind};
use crate::reader::CheckpointReader;
use crate::schema::DataType;
use crate::tokenizer::is_quote;

verus! {

/// One parsed field.
#[derive(Debug, Clone, PartialEq, Eq)]
pub enum Value {
    Int64(i64),
    UInt64(u64),
    String(Vec<u8>),
}

/// A parsed field as a mathematical value.
pub enum Cell {
    Int64(i64),
    UInt64(u64),
    String(Seq<u8>),
}

impl Value {
    pub open spec fn cell(&self) -> Cell {
        match self {
            Value::Int64(v) => Cell::Int64(*v),
            Value::UInt64(v) => Cell::UInt64(*v),
            Value::String(s) => Cell::String(s@),
        }
    }
}

/// The cells of a column of values.
pub open spec fn cells_of(vs: Seq<Value>) -> Seq<Cell> {
    vs.map_values(|v: Value| v.cell())
}

/// The value that an empty field takes.
pub open spec fn default_cell(t: DataType) -> Cell {
    match t {
        DataType::Int64 => Cell::Int64(0),
        DataType::UInt64 => Cell::UInt64(0),
        DataType::String => Cell::String(Seq::empty()),
    }
}

pub open spec fn is_digit(b: u8) -> bool {
    DIGIT_ZERO <= b <= DIGIT_NINE
}

/// The first index at or after `pos` that does not hold a decimal digit, else the length.
pub open spec fn digits_end(buf: Seq<u8>, pos: int) -> int
    decreases buf.len() - pos,
{
    if pos >= buf.len() {
        buf.len() as int
    } else if is_digit(buf[pos]) {
        digits_end(buf, pos + 1)
    } else {
        pos
    }
}

/// The number that the decimal digits `buf[start..end]` write.
pub open spec fn digits_value(buf: Seq<u8>, start: int, end: int) -> int
    decreases end - start,
{
    if end <= start {
        0
    } else {
        digits_value(buf, start, end - 1) * 10 + (buf[end - 1] - DIGIT_ZERO)
    }
}

/// The unsigned magnitude of an integer field at `pos`: an optional quote, an optional
/// sign, then at least one digit, then the closing quote if one opened. Gives whether the
/// sign is a minus, the magnitude and the position after the field.
pub open spec fn int_text(buf: Seq<u8>, pos: int) -> Option<(bool, int, int)> {
    let quoted = pos < buf.len() && is_quote(buf[pos]);
    let s = if quoted { pos + 1 } else { pos };
    let signed = s < buf.len() && (buf[s] == MINUS || buf[s] == PLUS);
    let neg = s < buf.len() && buf[s] == MINUS;
    let d = if signed { s + 1 } else { s };
    let e = digits_end(buf, d);
    if e == d {
        None
    } else if quoted && !(e < buf.len() && is_quote(buf[e])) {
        None
    } else {
        Some((neg, digits_value(buf, d, e), if quoted { e + 1 } else { e }))
    }
}

/// The first index at or after `pos` that ends an unquoted text field, else the length.
pub open spec fn text_end(buf: Seq<u8>, pos: int, fd: u8, rd: Option<u8>) -> int
    decreases buf.len() - pos,
{
    if pos >= buf.len() {
        buf.len() as int
    } else if buf[pos] == fd || buf[pos] == CR || buf[pos] == LF || rd == Some(buf[pos]) {
        pos
    } else {
        text_end(buf, pos + 1, fd, rd)
    }
}

/// The first index at or after `pos` that holds `q`, else the length.
pub open spec fn find_byte(buf: Seq<u8>, pos: int, q: u8) -> int
    decreases buf.len() - pos,
{
    if pos >= buf.len() {
        buf.len() as int
    } else if buf[pos] == q {
        pos
    } else {
        find_byte(buf, pos + 1, q)
    }
}

/// The field of type `t` that the text at `pos` holds, and the position after it.
pub open spec fn parse_field(t: DataType, buf: Seq<u8>, pos: int, fd: u8, rd: Option<u8>) -> Option<
    (Cell, int),
> {
    match t {
        DataType::Int64 => match int_text(buf, pos) {
            None => None,
            Some((neg, m, p)) => {
                let v = if neg {
                    -m
                } else {
                    m
                };
                if i64::MIN <= v <= i64::MAX {
                    Some((Cell::Int64(v as i64), p))
                } else {
                    None
                }
            },
        },
        DataType::UInt64 => match int_text(buf, pos) {
            None => None,
            Some((neg, m, p)) => {
                if neg || m > u64::MAX {
                    None
                } else {
                    Some((Cell::UInt64(m as u64), p))
                }
            },
        },
        DataType::String => {
            if pos < buf.len() && is_quote(buf[pos]) {
                let c = find_byte(buf, pos + 1, buf[pos]);
                if c < buf.len() {
                    Some((Cell::String(buf.subrange(pos + 1, c)), c + 1))
                } else {
                    None
                }
            } else {
                let e = text_end(buf, pos, fd, rd);
                Some((Cell::String(buf.subrange(pos, e)), e))
            }
        },
    }
}

/// Where the cursor stands after a field of type `t` at `pos` fails to parse: past the
/// digits of an integer that does not fit, else where the field starts.
pub open spec fn parse_stop(t: DataType, buf: Seq<u8>, pos: int) -> int {
    match t {
        DataType::String => pos,
        _ => match int_text(buf, pos) {
            None => pos,
            Some((neg, m, p)) => p,
        },
    }
}

proof fn lemma_digits_end_bounds(buf: Seq<u8>, pos: int)
    requires
        0 <= pos <= buf.len(),
    ensures
        pos <= digits_end(buf, pos) <= buf.len(),
        forall|i: int| pos <= i < digits_end(buf, pos) ==> is_digit(#[trigger] buf[i]),
    decreases buf.len() - pos,
{
    if pos < buf.len() && is_digit(buf[pos]) {
        lemma_digits_end_bounds(buf, pos + 1);
    }
}

proof fn lemma_digits_monotone(buf: Seq<u8>, start: int, mid: int, end: int)
    requires
        start <= mid <= end,
        forall|i: int| start <= i < end ==> is_digit(#[trigger] buf[i]),
    ensures
        0 <= digits_value(buf, start, mid) <= digits_value(buf, start, end),
    decreases end - mid,
{
    if mid < end {
        lemma_digits_monotone(buf, start, mid, end - 1);
        lemma_digits_nonneg(buf, start, end - 1);
    } else {
        lemma_digits_nonneg(buf, start, end);
    }
}

proof fn lemma_digits_nonneg(buf: Seq<u8>, start: int, end: int)
    requires
        start <= end,
        forall|i: int| start <= i < end ==> is_digit(#[trigger] buf[i]),
    ensures
        0 <= digits_value(buf, start, end),
    decreases end - start,
{
    if start < end {
        lemma_digits_nonneg(buf, start, end - 1);
    }
}

/// Reads the text of an integer field: whether it is negative, and its magnitude, which
/// `None` means does not fit in 64 bits.
fn read_int_text(reader: &mut CheckpointReader) -> (r: Result<(bool, Option<u64>), ErrorCode>)
    requires
        old(reader).wf(),
    ensures
        final(reader).wf(),
        final(reader).buf == old(reader).buf,
        final(reader).checkpoints == old(reader).checkpoints,
        final(reader).pos >= old(reader).pos,
        match int_text(old(reader).buf@, old(reader).pos as int) {
            None => {
                &&& r is Err
                &&& r->Err_0.kind == ErrorKind::FieldParse
                &&& r->Err_0.message@ == kind_message(ErrorKind::FieldParse)
                &&& final(reader).pos == old(reader).pos
            },
            Some((neg, m, p)) => {
                &&& r is Ok
                &&& r->Ok_0.0 == neg
                &&& m >= 0
                &&& final(reader).pos == p
                &&& (m <= u64::MAX ==> r->Ok_0.1 == Some(m as u64))
                &&& (m > u64::MAX ==> r->Ok_0.1 is None)
            },
        },
{
    let ghost buf = reader.buf@;
    let len = reader.buf.len();
    let mut p = reader.pos;
    let quoted = p < len && (reader.buf[p] == DOUBLE_QUOTE || reader.buf[p] == SINGLE_QUOTE);
    if quoted {
        p = p + 1;
    }
    let signed = p < len && (reader.buf[p] == MINUS || reader.buf[p] == PLUS);
    let neg = p < len && reader.buf[p] == MINUS;
    if signed {
        p = p + 1;
    }
    let d = p;
    proof {
        lemma_digits_end_bounds(buf, d as int);
    }
    let mut acc: Option<u64> = Some(0);
    while p < len && DIGIT_ZERO <= reader.buf[p] && reader.buf[p] <= DIGIT_NINE
        invariant
            reader.buf@ == buf,
            len == buf.len(),
            d <= p <= digits_end(buf, d as int),
            digits_end(buf, d as int) <= buf.len(),
            forall|i: int| d <= i < digits_end(buf, d as int) ==> is_digit(#[trigger] buf[i]),
            digits_end(buf, d as int) == digits_end(buf, p as int),
            match acc {
                Some(a) => a as int == digits_value(buf, d as int, p as int),
                None => digits_value(buf, d as int, p as int) > u64::MAX,
            },
        decreases len - p,
    {
        let digit = (reader.buf[p] - DIGIT_ZERO) as u64;
        proof {
            lemma_digits_nonneg(buf, d as int, p as int);
            lemma_digits_monotone(buf, d as int, p as int, p + 1);
            lemma_digits_end_bounds(buf, p + 1);
        }
        acc = match acc {
            Some(a) => match a.checked_mul(10) {
                Some(t) => t.checked_add(digit),
                None => None,
            },
            None => None,
        };
        p = p + 1;
    }
    proof {
        lemma_digits_end_bounds(buf, d as int);
        lemma_digits_nonneg(buf, d as int, p as int);
    }
    if p == d {
        return Err(ErrorCode::new(ErrorKind::FieldParse));
    }
    if quoted {
        if p < len && (reader.buf[p] == DOUBLE_QUOTE || reader.buf[p] == SINGLE_QUOTE) {
            p = p + 1;
        } else {
            return Err(ErrorCode::new(ErrorKind::FieldParse));
        }
    }
    reader.pos = p;
    Ok((neg, acc))
}

/// Reads one field of type `t` at the cursor, as CSV text.
pub fn de_text_csv(t: DataType, reader: &mut CheckpointReader, fd: u8, rd: Option<u8>) -> (r: Result<
    Value,
    ErrorCode,
>)
    requires
        old(reader).wf(),
    ensures
        final(reader).wf(),
        final(reader).buf == old(reader).buf,
        final(reader).checkpoints == old(reader).checkpoints,
        final(reader).pos >= old(reader).pos,
        match parse_field(t, old(reader).buf@, old(reader).pos as int, fd, rd) {
            None => {
                &&& r is Err
                &&& r->Err_0.kind == ErrorKind::FieldParse
                &&& r->Err_0.message@ == kind_message(ErrorKind::FieldParse)
                &&& final(reader).pos == parse_stop(t, old(reader).buf@, old(reader).pos as int)
            },
            Some((c, p)) => r is Ok && r->Ok_0.cell() == c && final(reader).pos == p,
        },
{
    match t {
        DataType::Int64 => {
            let (neg, m) = match read_int_text(reader) {
                Ok(x) => x,
                Err(e) => {
                    return Err(e);
                },
            };
            match m {
                Some(m) => {
                    if neg {
                        if m <= 9223372036854775807u64 {
                            let v = -(m as i64);
                            assert(v as int == -(m as int));
                            Ok(Value::Int64(v))
                        } else if m == 9223372036854775808u64 {
                            assert(i64::MIN as int == -(m as int));
                            Ok(Value::Int64(i64::MIN))
                        } else {
                            Err(ErrorCode::new(ErrorKind::FieldParse))
                        }
                    } else if m <= 9223372036854775807u64 {
                        Ok(Value::Int64(m as i64))
                    } else {
                        Err(ErrorCode::new(ErrorKind::FieldParse))
                    }
                },
                None => Err(ErrorCode::new(ErrorKind::FieldParse)),
            }
        },
        DataType::UInt64 => {
            let (neg, m) = match read_int_text(reader) {
                Ok(x) => x,
                Err(e) => {
                    return Err(e);
                },
            };
            match m {
                Some(m) => {
                    if neg {
                        Err(ErrorCode::new(ErrorKind::FieldParse))
                    } else {
                        Ok(Value::UInt64(m))
                    }
                },
                None => Err(ErrorCode::new(ErrorKind::FieldParse)),
            }
        },
        DataType::String => read_string_text(reader, fd, rd),
    }
}

fn read_string_text(reader: &mut CheckpointReader, fd: u8, rd: Option<u8>) -> (r: Result<
    Value,
    ErrorCode,
>)
    requires
        old(reader).wf(),
    ensures
        final(reader).wf(),
        final(reader).buf == old(reader).buf,
        final(reader).checkpoints == old(reader).checkpoints,
        final(reader).pos >= old(reader).pos,
        match parse_field(DataType::String, old(reader).buf@, old(reader).pos as int, fd, rd) {
            None => {
                &&& r is Err
                &&& r->Err_0.kind == ErrorKind::FieldParse
                &&& r->Err_0.message@ == kind_message(ErrorKind::FieldParse)
                &&& final(reader).pos == parse_stop(DataType::String, old(reader).buf@, old(reader).pos as int)
            },
            Some((c, p)) => r is Ok && r->Ok_0.cell() == c && final(reader).pos == p,
        },
{
    let ghost buf = reader.buf@;
    let len = reader.buf.len();
    let start = reader.pos;
    let quoted = start < len && (reader.buf[start] == DOUBLE_QUOTE || reader.buf[start] == SINGLE_QUOTE);
    let mut out: Vec<u8> = Vec::new();
    if quoted {
        let q = reader.buf[start];
        let mut i = start + 1;
        while i < len && reader.buf[i] != q
            invariant
                reader.buf@ == buf,
                len == buf.len(),
                start < i <= len,
                find_byte(buf, start + 1, q) == find_byte(buf, i as int, q),
                out@ == buf.subrange(start + 1, i as int),
            decreases len - i,
        {
            out.push(reader.buf[i]);
            i = i + 1;
            assert(out@ == buf.subrange(start + 1, i as int));
        }
        if i >= len {
            return Err(ErrorCode::new(ErrorKind::FieldParse));
        }
        reader.pos = i + 1;
    } else {
        let mut i = start;
        while i < len && reader.buf[i] != fd && reader.buf[i] != CR && reader.buf[i] != LF
            && rd != Some(reader.buf[i])
            invariant
                reader.buf@ == buf,
                len == buf.len(),
                start <= i <= len,
                text_end(buf, start as int, fd, rd) == text_end(buf, i as int, fd, rd),
                out@ == buf.subrange(start as int, i as int),
            decreases len - i,
        {
            out.push(reader.buf[i]);
            i = i + 1;
            assert(out@ == buf.subrange(start as int, i as int));
        }
        reader.pos = i;
    }
    Ok(Value::String(out))
}

/// The value of an empty field of type `t`.
pub fn de_default(t: DataType) -> (r: Value)
    ensures
        r.cell() == default_cell(t),
{
    match t {
        DataType::Int64 => Value::Int64(0),
        DataType::UInt64 => Value::UInt64(0),
        DataType::String => Value::String(Vec::new()),
    }
}

} // verus!
