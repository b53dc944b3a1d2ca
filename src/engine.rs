use vstd::prelude::*;

use crate::ascii::{CR, LF};
use crate::deserializer::{cells_of, de_default, de_text_csv, default_cell, parse_field, Cell, Value};
use crate::error::{kind_message, ErrorCode, ErrorKind};
use crate::format::CsvInputFormat;
use crate::reader::{has_ws_and_byte, skip_ws, skip_ws_and_byte, CheckpointReader};
use crate::state::CsvInputState;

verus! {

/// The columns that one flush produces, one `Vec` of values per schema field.
#[derive(Debug)]
pub struct DataBlock {
    /// The number of rows, which every column has (kept also when there are no columns).
    pub num_rows: usize,
    pub columns: Vec<Vec<Value>>,
}

/// The `c`-th cell of each row.
pub open spec fn column_of(rows: Seq<Seq<Cell>>, c: int) -> Seq<Cell> {
    rows.map_values(|row: Seq<Cell>| row[c])
}

/// `front` followed by the cells of a partial result.
pub open spec fn cells_then(front: Seq<Cell>, rest: Result<(Seq<Cell>, int), ErrorKind>) -> Result<
    (Seq<Cell>, int),
    ErrorKind,
> {
    match rest {
        Ok((cs, p)) => Ok((front + cs, p)),
        Err(e) => Err(e),
    }
}

/// The first row that does not parse: what went wrong, where the row starts and its index.
pub struct RowFailure {
    pub kind: ErrorKind,
    pub pos: int,
    pub row: int,
}

/// `front` followed by the rows of a partial result.
pub open spec fn rows_then(front: Seq<Seq<Cell>>, rest: Result<Seq<Seq<Cell>>, RowFailure>) -> Result<
    Seq<Seq<Cell>>,
    RowFailure,
> {
    match rest {
        Ok(rs) => Ok(front + rs),
        Err(e) => Err(e),
    }
}

impl CsvInputFormat {
    /// The cells of the fields from column `c` on, read from `pos`, and the position after
    /// them. An empty field takes its column's default; a field delimiter must follow each
    /// field but the last.
    pub open spec fn read_cols_spec(&self, buf: Seq<u8>, pos: int, c: int, row: int) -> Result<
        (Seq<Cell>, int),
        ErrorKind,
    >
        decreases self.schema.fields@.len() - c,
    {
        let n = self.schema.fields@.len() as int;
        let fd = self.field_delimiter;
        if c >= n || c < 0 {
            Ok((Seq::empty(), pos))
        } else {
            let t = self.schema.fields@[c].data_type;
            if has_ws_and_byte(buf, pos, fd) {
                cells_then(
                    seq![default_cell(t)],
                    self.read_cols_spec(buf, skip_ws_and_byte(buf, pos, fd), c + 1, row),
                )
            } else {
                match parse_field(t, buf, skip_ws(buf, pos), fd, self.record_delimiter) {
                    None => Err(ErrorKind::FieldParse),
                    Some((v, q)) => {
                        if c + 1 != n && !has_ws_and_byte(buf, q, fd) {
                            Err(ErrorKind::MalformedRow { row: row as usize })
                        } else {
                            let q2 = if c + 1 != n {
                                skip_ws_and_byte(buf, q, fd)
                            } else {
                                q
                            };
                            cells_then(seq![v], self.read_cols_spec(buf, q2, c + 1, row))
                        }
                    },
                }
            }
        }
    }

    /// Where a row ends after its last field: past an optional field delimiter and the row
    /// terminator (a CR absorbs one LF after it), or at the end of the data.
    pub open spec fn row_end_spec(&self, buf: Seq<u8>, pos: int, row: int) -> Result<int, ErrorKind> {
        let p1 = skip_ws_and_byte(buf, pos, self.field_delimiter);
        let p2 = skip_ws(buf, p1);
        match self.record_delimiter {
            Some(d) => {
                if has_ws_and_byte(buf, p1, d) {
                    Ok(p2 + 1)
                } else if p2 >= buf.len() {
                    Ok(p2)
                } else {
                    Err(ErrorKind::MalformedRow { row: row as usize })
                }
            },
            None => {
                if p2 < buf.len() && buf[p2] == LF {
                    Ok(p2 + 1)
                } else if p2 < buf.len() && buf[p2] == CR {
                    Ok(skip_ws_and_byte(buf, p2 + 1, LF))
                } else if p2 >= buf.len() {
                    Ok(p2)
                } else {
                    Err(ErrorKind::MalformedRow { row: row as usize })
                }
            },
        }
    }

    /// The cells of the row at `pos` and the position after it.
    pub open spec fn read_row_spec(&self, buf: Seq<u8>, pos: int, row: int) -> Result<
        (Seq<Cell>, int),
        ErrorKind,
    > {
        match self.read_cols_spec(buf, pos, 0, row) {
            Err(e) => Err(e),
            Ok((cs, p)) => match self.row_end_spec(buf, p, row) {
                Err(e) => Err(e),
                Ok(q) => Ok((cs, q)),
            },
        }
    }

    /// The rows from `pos` to the end of the data, the first of them numbered `row`, or the
    /// error of the first row that fails.
    pub open spec fn read_rows_spec(&self, buf: Seq<u8>, pos: int, row: int) -> Result<
        Seq<Seq<Cell>>,
        RowFailure,
    >
        decreases buf.len() - pos,
    {
        if pos >= buf.len() {
            Ok(Seq::empty())
        } else {
            match self.read_row_spec(buf, pos, row) {
                Err(e) => Err(RowFailure { kind: e, pos, row }),
                Ok((cs, q)) => {
                    if q <= pos || q > buf.len() {
                        Ok(seq![cs])
                    } else {
                        rows_then(seq![cs], self.read_rows_spec(buf, q, row + 1))
                    }
                },
            }
        }
    }
}

impl CsvInputFormat {
    /// Reads one row at the cursor and appends its fields to the columns.
    fn read_row(
        &self,
        reader: &mut CheckpointReader,
        columns: &mut Vec<Vec<Value>>,
        row_index: usize,
    ) -> (r: Result<(), ErrorCode>)
        requires
            old(reader).wf(),
            old(columns)@.len() == self.schema.fields@.len(),
        ensures
            final(reader).wf(),
            final(reader).buf == old(reader).buf,
            final(reader).checkpoints == old(reader).checkpoints,
            final(reader).pos >= old(reader).pos,
            final(columns)@.len() == old(columns)@.len(),
            match self.read_row_spec(old(reader).buf@, old(reader).pos as int, row_index as int) {
                Err(e) => r is Err && r->Err_0.kind == e && r->Err_0.message@ == kind_message(e),
                Ok((cs, p)) => {
                    &&& r is Ok
                    &&& final(reader).pos == p
                    &&& cs.len() == self.schema.fields@.len()
                    &&& forall|c: int|
                        0 <= c < cs.len() ==> cells_of(#[trigger] final(columns)@[c]@) == cells_of(
                            old(columns)@[c]@,
                        ).push(cs[c])
                },
            },
            r is Ok && old(reader).pos < old(reader).buf@.len() ==> final(reader).pos
                > old(reader).pos,
    {
        let ghost buf = reader.buf@;
        let ghost start = reader.pos as int;
        let ghost row = row_index as int;
        let ghost mut cs: Seq<Cell> = Seq::empty();
        let n = self.schema.fields.len();
        let fd = self.field_delimiter;
        let mut c: usize = 0;
        while c < n
            invariant
                reader.wf(),
                reader.buf == old(reader).buf,
                reader.checkpoints == old(reader).checkpoints,
                buf == reader.buf@,
                buf == old(reader).buf@,
                start == old(reader).pos,
                row == row_index,
                fd == self.field_delimiter,
                reader.pos >= start,
                n == self.schema.fields@.len(),
                c <= n,
                cs.len() == c,
                columns@.len() == n,
                old(columns)@.len() == n,
                forall|k: int|
                    0 <= k < c ==> cells_of(#[trigger] columns@[k]@) == cells_of(
                        old(columns)@[k]@,
                    ).push(cs[k]),
                forall|k: int| c <= k < n ==> #[trigger] columns@[k] == old(columns)@[k],
                self.read_cols_spec(buf, start, 0, row) == cells_then(
                    cs,
                    self.read_cols_spec(buf, reader.pos as int, c as int, row),
                ),
            decreases n - c,
        {
            let t = self.schema.fields[c].data_type;
            let ghost p0 = reader.pos as int;
            let v: Value;
            if reader.ignore_white_spaces_and_byte(fd) {
                v = de_default(t);
            } else {
                let res = de_text_csv(t, reader, fd, self.record_delimiter);
                if res.is_err() {
                    return Err(res.unwrap_err());
                }
                v = res.unwrap();
                if c + 1 != n {
                    if !reader.ignore_white_spaces_and_byte(fd) {
                        return Err(ErrorCode::new(ErrorKind::MalformedRow { row: row_index }));
                    }
                }
            }
            proof {
                let rest = self.read_cols_spec(buf, reader.pos as int, c + 1, row);
                assert(self.read_cols_spec(buf, p0, c as int, row) == cells_then(seq![v.cell()], rest));
                match rest {
                    Ok((ts, p)) => {
                        assert(cs + (seq![v.cell()] + ts) == cs.push(v.cell()) + ts);
                    },
                    Err(_) => {},
                }
            }
            columns[c].push(v);
            proof {
                cs = cs.push(v.cell());
                assert(cells_of(columns@[c as int]@) == cells_of(old(columns)@[c as int]@).push(cs[c as int]));
            }
            c = c + 1;
        }
        assert(cs + Seq::<Cell>::empty() == cs);
        let ghost cols_end = reader.pos as int;
        assert(self.read_cols_spec(buf, start, 0, row) == Ok::<(Seq<Cell>, int), ErrorKind>((cs, cols_end)));
        reader.ignore_white_spaces_and_byte(fd);
        let ghost p1 = reader.pos as int;
        proof {
            crate::reader::lemma_skip_ws_bounds(buf, p1);
        }
        match self.record_delimiter {
            Some(d) => {
                if !reader.ignore_white_spaces_and_byte(d) && !reader.eof() {
                    return Err(ErrorCode::new(ErrorKind::MalformedRow { row: row_index }));
                }
            },
            None => {
                if !reader.ignore_white_spaces_and_byte(LF) {
                    if reader.ignore_white_spaces_and_byte(CR) {
                        reader.ignore_white_spaces_and_byte(LF);
                    } else if !reader.eof() {
                        return Err(ErrorCode::new(ErrorKind::MalformedRow { row: row_index }));
                    }
                }
            },
        }
        proof {
            crate::reader::lemma_skip_ws_bounds(buf, cols_end);
        }
        Ok(())
    }
}

impl CsvInputFormat {
    /// Drains the accumulated bytes of `state`, which becomes fresh, and parses them into one
    /// block with a column per schema field; or fails on the first row that does not parse,
    /// with a message that explains that row.
    pub fn deserialize_data(&self, state: &mut CsvInputState) -> (r: Result<Vec<DataBlock>, ErrorCode>)
        ensures
            final(state).is_fresh(),
            match self.read_rows_spec(old(state).memory@, 0, 0) {
                Ok(rows) => {
                    &&& r is Ok
                    &&& r->Ok_0@.len() == 1
                    &&& r->Ok_0@[0].num_rows == rows.len()
                    &&& r->Ok_0@[0].columns@.len() == self.schema.fields@.len()
                    &&& forall|c: int|
                        0 <= c < self.schema.fields@.len() ==> cells_of(
                            #[trigger] r->Ok_0@[0].columns@[c]@,
                        ) == column_of(rows, c)
                },
                Err(f) => {
                    &&& r is Err
                    &&& r->Err_0.kind == f.kind
                    &&& r->Err_0.message@ == kind_message(f.kind) + self.diagnostic_spec(
                        old(state).memory@,
                        f.pos,
                    )
                },
            },
    {
        let mut taken = CsvInputState::fresh();
        std::mem::swap(state, &mut taken);
        let memory = taken.memory;
        let n = self.schema.fields.len();
        let mut columns: Vec<Vec<Value>> = Vec::new();
        let mut c: usize = 0;
        while c < n
            invariant
                c <= n,
                columns@.len() == c,
                forall|k: int| 0 <= k < c ==> (#[trigger] columns@[k])@.len() == 0,
            decreases n - c,
        {
            columns.push(Vec::new());
            c = c + 1;
        }
        let mut reader = CheckpointReader::new(memory);
        let ghost buf = reader.buf@;
        let ghost mut rows: Seq<Seq<Cell>> = Seq::empty();
        assert forall|k: int| 0 <= k < n implies cells_of(#[trigger] columns@[k]@) == column_of(rows, k) by {
            assert(cells_of(columns@[k]@) =~= column_of(rows, k));
        }
        let mut row_index: usize = 0;
        while !reader.eof()
            invariant
                reader.wf(),
                reader.buf@ == buf,
                reader.checkpoints@.len() == 0,
                buf == old(state).memory@,
                final(state).is_fresh(),
                n == self.schema.fields@.len(),
                columns@.len() == n,
                rows.len() == row_index,
                row_index <= reader.pos,
                forall|k: int| 0 <= k < n ==> cells_of(#[trigger] columns@[k]@) == column_of(rows, k),
                self.read_rows_spec(buf, 0, 0) == rows_then(
                    rows,
                    self.read_rows_spec(buf, reader.pos as int, row_index as int),
                ),
            decreases buf.len() - reader.pos,
        {
            let ghost pos = reader.pos as int;
            reader.push_checkpoint();
            let res = self.read_row(&mut reader, &mut columns, row_index);
            if res.is_err() {
                reader.pop_checkpoint();
                let msg = self.get_diagnostic_info(&mut reader);
                return Err(res.unwrap_err().add_message_back(msg));
            }
            reader.commit_checkpoint();
            proof {
                let (cs, p) = self.read_row_spec(buf, pos, row_index as int)->Ok_0;
                assert forall|k: int| 0 <= k < n implies cells_of(#[trigger] columns@[k]@) == column_of(rows.push(cs), k) by {
                    assert(column_of(rows.push(cs), k) =~= column_of(rows, k).push(cs[k]));
                }
                match self.read_rows_spec(buf, p, row_index + 1) {
                    Ok(rs) => {
                        assert(rows + (seq![cs] + rs) =~= rows.push(cs) + rs);
                    },
                    Err(_) => {},
                }
                rows = rows.push(cs);
            }
            row_index = row_index + 1;
        }
        assert(rows + Seq::<Seq<Cell>>::empty() =~= rows);
        Ok(vec![DataBlock { num_rows: row_index, columns }])
    }
}

} // verus!
