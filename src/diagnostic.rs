use vstd::prelude::*;
use vstd::string::StringSliceAdditionalSpecFns;

use crate::ascii::{CR, LF};
use crate::deserializer::{de_text_csv, parse_field, parse_stop};
use crate::format::CsvInputFormat;
use crate::reader::{has_ws_and_byte, skip_ws, skip_ws_and_byte, CheckpointReader};
use crate::schema::DataType;
use crate::text::{decimal, push_decimal, push_text, verbose, verbose_string};

verus! {

pub open spec fn data_type_label(t: DataType) -> Seq<u8> {
    match t {
        DataType::Int64 => "Int64".spec_bytes(),
        DataType::UInt64 => "UInt64".spec_bytes(),
        DataType::String => "String".spec_bytes(),
    }
}

/// At most `k` bytes of `buf` from `p` on.
pub open spec fn first_bytes(buf: Seq<u8>, p: int, k: int) -> Seq<u8> {
    buf.subrange(p, if p + k <= buf.len() { p + k } else { buf.len() as int })
}

fn single(b: u8) -> (r: Vec<u8>)
    ensures
        r@ == seq![b],
{
    let mut v: Vec<u8> = Vec::new();
    v.push(b);
    assert(v@ =~= seq![b]);
    v
}

impl CsvInputFormat {
    /// The label of column `c`: its index, name and declared type.
    pub open spec fn column_label(&self, c: int) -> Seq<u8> {
        "\tColumn: ".spec_bytes() + decimal(c as nat) + ", Name: ".spec_bytes()
            + self.schema.fields@[c].name@ + ", Type: ".spec_bytes() + data_type_label(
            self.schema.fields@[c].data_type,
        )
    }

    /// What the field delimiter after a field at `pos` adds to a diagnostic, and where the
    /// next field starts (`None` when the delimiter is missing).
    pub open spec fn diag_delimiter_spec(&self, buf: Seq<u8>, pos: int) -> (Seq<u8>, Option<int>) {
        let p = skip_ws(buf, pos);
        let fd = self.field_delimiter;
        if p < buf.len() && buf[p] == fd {
            (Seq::empty(), Some(p + 1))
        } else if p < buf.len() && (buf[p] == LF || buf[p] == CR) {
            (
                "\tError: Line feed found where delimiter (".spec_bytes() + verbose(seq![fd])
                    + ") is expected.\n".spec_bytes(),
                None,
            )
        } else {
            (
                "\tError: There is no delimiter (".spec_bytes() + verbose(seq![fd])
                    + "). ".spec_bytes() + verbose(first_bytes(buf, p, 1))
                    + " found instead.\n".spec_bytes(),
                None,
            )
        }
    }

    /// What the end of a row at `pos` adds to a diagnostic.
    pub open spec fn diag_row_end_spec(&self, buf: Seq<u8>, pos: int) -> Seq<u8> {
        let p = skip_ws(buf, skip_ws_and_byte(buf, pos, self.field_delimiter));
        if p >= buf.len() || buf[p] == LF || buf[p] == CR || self.record_delimiter == Some(buf[p]) {
            Seq::empty()
        } else {
            "\tError: There is no line feed. ".spec_bytes() + verbose(seq![buf[p]])
                + " found instead.\n".spec_bytes()
        }
    }

    /// The diagnostic of the fields of a row from column `c` on, read again from `pos`: for
    /// each column its label and what was read, up to the first field or delimiter that fails.
    #[verifier::opaque]
    pub open spec fn diag_cols_spec(&self, buf: Seq<u8>, pos: int, c: int) -> Seq<u8>
        decreases self.schema.fields@.len() - c,
    {
        let n = self.schema.fields@.len() as int;
        let fd = self.field_delimiter;
        if c >= n || c < 0 {
            self.diag_row_end_spec(buf, pos)
        } else {
            let t = self.schema.fields@[c].data_type;
            let label = self.column_label(c);
            if has_ws_and_byte(buf, pos, fd) {
                label + ", Empty field\n".spec_bytes() + self.diag_cols_spec(
                    buf,
                    skip_ws_and_byte(buf, pos, fd),
                    c + 1,
                )
            } else {
                let (line, next) = self.field_report(buf, skip_ws(buf, pos), c);
                match next {
                    None => line,
                    Some(q) => {
                        if c + 1 != n {
                            let (d, after) = self.diag_delimiter_spec(buf, q);
                            match after {
                                None => line + d,
                                Some(q2) => line + self.diag_cols_spec(buf, q2, c + 1),
                            }
                        } else {
                            line + self.diag_cols_spec(buf, q, c + 1)
                        }
                    },
                }
            }
        }
    }

    /// The text added to the error of the row that starts at `pos`.
    pub open spec fn diagnostic_spec(&self, buf: Seq<u8>, pos: int) -> Seq<u8> {
        "\n".spec_bytes() + self.diag_cols_spec(buf, pos, 0)
    }

    /// The report on the field of column `c` read again at `p`: its label, then the text it
    /// parsed, or why it failed; and where the field ends, when it parsed. An integer that
    /// made no progress shows the first ten bytes; any other failure shows the text consumed
    /// and a generic error line.
    pub open spec fn field_report(&self, buf: Seq<u8>, p: int, c: int) -> (Seq<u8>, Option<int>) {
        let t = self.schema.fields@[c].data_type;
        let label = self.column_label(c);
        match parse_field(t, buf, p, self.field_delimiter, self.record_delimiter) {
            None => {
                let stop = parse_stop(t, buf, p);
                if t != DataType::String && stop == p {
                    (
                        label + "\tError: text ".spec_bytes() + verbose(first_bytes(buf, p, 10))
                            + " is not like ".spec_bytes() + data_type_label(t) + "\n".spec_bytes(),
                        None,
                    )
                } else {
                    (
                        label + ", Parsed text: ".spec_bytes() + verbose(buf.subrange(p, stop))
                            + "\n".spec_bytes() + "\tERROR\n".spec_bytes(),
                        None,
                    )
                }
            },
            Some((v, q)) => (
                label + ", Parsed text: ".spec_bytes() + verbose(buf.subrange(p, q))
                    + "\n".spec_bytes(),
                Some(q),
            ),
        }
    }

    fn push_data_type_label(t: DataType, out: &mut Vec<u8>)
        ensures
            final(out)@ == old(out)@ + data_type_label(t),
    {
        match t {
            DataType::Int64 => push_text(out, "Int64"),
            DataType::UInt64 => push_text(out, "UInt64"),
            DataType::String => push_text(out, "String"),
        }
    }

    fn push_column_label(&self, c: usize, out: &mut Vec<u8>)
        requires
            c < self.schema.fields@.len(),
        ensures
            final(out)@ == old(out)@ + self.column_label(c as int),
    {
        push_text(out, "\tColumn: ");
        push_decimal(out, c);
        push_text(out, ", Name: ");
        let name = &self.schema.fields[c].name;
        let mut i: usize = 0;
        let ghost mid = out@;
        while i < name.len()
            invariant
                i <= name@.len(),
                out@ == mid + name@.subrange(0, i as int),
            decreases name@.len() - i,
        {
            out.push(name[i]);
            i = i + 1;
            assert(out@ =~= mid + name@.subrange(0, i as int));
        }
        assert(name@.subrange(0, i as int) =~= name@);
        push_text(out, ", Type: ");
        Self::push_data_type_label(self.schema.fields[c].data_type, out);
        assert(out@ =~= old(out)@ + self.column_label(c as int));
    }

    /// Reads the field delimiter after a field and reports on it; tells whether it was there.
    fn parse_field_delimiter_with_diagnostic_info(
        &self,
        reader: &mut CheckpointReader,
        out: &mut Vec<u8>,
    ) -> (r: bool)
        requires
            old(reader).wf(),
        ensures
            final(reader).wf(),
            final(reader).buf == old(reader).buf,
            final(reader).checkpoints == old(reader).checkpoints,
            ({
                let (d, next) = self.diag_delimiter_spec(old(reader).buf@, old(reader).pos as int);
                &&& final(out)@ == old(out)@ + d
                &&& r == next is Some
                &&& r ==> final(reader).pos == next->Some_0
            }),
    {
        let fd = self.field_delimiter;
        if reader.ignore_white_spaces_and_byte(fd) {
            assert(out@ =~= old(out)@ + Seq::<u8>::empty());
            return true;
        }
        let next = reader.position();
        match next {
            Some(b) => {
                if b == LF || b == CR {
                    push_text(out, "\tError: Line feed found where delimiter (");
                    verbose_string(single(fd).as_slice(), out);
                    push_text(out, ") is expected.\n");
                    assert(out@ =~= old(out)@ + self.diag_delimiter_spec(
                        old(reader).buf@,
                        old(reader).pos as int,
                    ).0);
                    return false;
                }
            },
            None => {},
        }
        push_text(out, "\tError: There is no delimiter (");
        verbose_string(single(fd).as_slice(), out);
        push_text(out, "). ");
        let head = reader.peek_n(1);
        verbose_string(head.as_slice(), out);
        push_text(out, " found instead.\n");
        assert(out@ =~= old(out)@ + self.diag_delimiter_spec(old(reader).buf@, old(reader).pos as int).0);
        false
    }

    /// Reads the end of a row and reports on it.
    fn parse_row_end_with_diagnostic_info(
        &self,
        reader: &mut CheckpointReader,
        out: &mut Vec<u8>,
    ) -> (r: bool)
        requires
            old(reader).wf(),
        ensures
            final(out)@ == old(out)@ + self.diag_row_end_spec(old(reader).buf@, old(reader).pos as int),
            r == (self.diag_row_end_spec(old(reader).buf@, old(reader).pos as int) == Seq::<
                u8,
            >::empty()),
    {
        reader.ignore_white_spaces_and_byte(self.field_delimiter);
        reader.ignore_white_spaces();
        match reader.position() {
            None => {
                assert(out@ =~= old(out)@ + Seq::<u8>::empty());
                true
            },
            Some(b) => {
                if b == LF || b == CR || self.record_delimiter == Some(b) {
                    assert(out@ =~= old(out)@ + Seq::<u8>::empty());
                    true
                } else {
                    push_text(out, "\tError: There is no line feed. ");
                    verbose_string(single(b).as_slice(), out);
                    push_text(out, " found instead.\n");
                    assert(out@ =~= old(out)@ + self.diag_row_end_spec(
                        old(reader).buf@,
                        old(reader).pos as int,
                    ));
                    assert(self.diag_row_end_spec(old(reader).buf@, old(reader).pos as int).len()
                        > 0);
                    false
                }
            },
        }
    }
}

impl CsvInputFormat {
    /// Reads the field of column `c` again at the cursor and reports on it, after the
    /// column's label; tells whether it parsed.
    fn deserialize_field_and_print_diagnositc_info(
        &self,
        c: usize,
        reader: &mut CheckpointReader,
        out: &mut Vec<u8>,
    ) -> (r: bool)
        requires
            old(reader).wf(),
            c < self.schema.fields@.len(),
        ensures
            final(reader).wf(),
            final(reader).buf == old(reader).buf,
            final(reader).checkpoints@ == old(reader).checkpoints@,
            ({
                let (text, next) = self.field_report(old(reader).buf@, old(reader).pos as int, c as int);
                &&& final(out)@ == old(out)@ + text
                &&& r == next is Some
                &&& r ==> final(reader).pos == next->Some_0
            }),
    {
        let ghost buf = reader.buf@;
        let t = self.schema.fields[c].data_type;
        let start = reader.pos;
        self.push_column_label(c, out);
        reader.push_checkpoint();
        let res = de_text_csv(t, reader, self.field_delimiter, self.record_delimiter);
        if res.is_err() {
            if t.is_integer() && reader.pos == start {
                reader.pop_checkpoint();
                push_text(out, "\tError: text ");
                let head = reader.peek_n(10);
                verbose_string(head.as_slice(), out);
                push_text(out, " is not like ");
                Self::push_data_type_label(t, out);
                push_text(out, "\n");
            } else {
                push_text(out, ", Parsed text: ");
                let text = reader.checkpoint_buffer();
                verbose_string(text.as_slice(), out);
                push_text(out, "\n");
                push_text(out, "\tERROR\n");
                reader.commit_checkpoint();
            }
            assert(out@ =~= old(out)@ + self.field_report(buf, start as int, c as int).0);
            return false;
        }
        push_text(out, ", Parsed text: ");
        let text = reader.checkpoint_buffer();
        verbose_string(text.as_slice(), out);
        push_text(out, "\n");
        reader.commit_checkpoint();
        assert(out@ =~= old(out)@ + self.field_report(buf, start as int, c as int).0);
        true
    }

    /// Reports on column `c` of a row read again at the cursor; tells whether the report
    /// goes on with the next column.
    #[verifier::rlimit(40)]
    fn diag_column(&self, c: usize, reader: &mut CheckpointReader, out: &mut Vec<u8>) -> (r: bool)
        requires
            old(reader).wf(),
            c < self.schema.fields@.len(),
        ensures
            final(reader).wf(),
            final(reader).buf == old(reader).buf,
            r ==> old(out)@ + self.diag_cols_spec(old(reader).buf@, old(reader).pos as int, c as int)
                == final(out)@ + self.diag_cols_spec(
                final(reader).buf@,
                final(reader).pos as int,
                c + 1,
            ),
            !r ==> old(out)@ + self.diag_cols_spec(old(reader).buf@, old(reader).pos as int, c as int)
                == final(out)@,
    {
        let ghost buf = reader.buf@;
        let ghost p0 = reader.pos as int;
        proof {
            reveal(CsvInputFormat::diag_cols_spec);
        }
        let n = self.schema.fields.len();
        let fd = self.field_delimiter;
        if reader.ignore_white_spaces_and_byte(fd) {
            self.push_column_label(c, out);
            push_text(out, ", Empty field\n");
            assert(old(out)@ + self.diag_cols_spec(buf, p0, c as int) =~= out@ + self.diag_cols_spec(
                buf,
                reader.pos as int,
                c + 1,
            ));
            return true;
        }
        if !self.deserialize_field_and_print_diagnositc_info(c, reader, out) {
            assert(old(out)@ + self.diag_cols_spec(buf, p0, c as int) =~= out@);
            return false;
        }
        if c + 1 != n {
            if !self.parse_field_delimiter_with_diagnostic_info(reader, out) {
                assert(old(out)@ + self.diag_cols_spec(buf, p0, c as int) =~= out@);
                return false;
            }
        }
        assert(old(out)@ + self.diag_cols_spec(buf, p0, c as int) =~= out@ + self.diag_cols_spec(
            buf,
            reader.pos as int,
            c + 1,
        ));
        true
    }

    /// Reads the row at the cursor again and explains, column by column, where it fails.
    pub fn get_diagnostic_info(&self, reader: &mut CheckpointReader) -> (r: Vec<u8>)
        requires
            old(reader).wf(),
        ensures
            r@ == self.diagnostic_spec(old(reader).buf@, old(reader).pos as int),
    {
        let mut out: Vec<u8> = Vec::new();
        push_text(&mut out, "\n");
        let ghost head = out@;
        let ghost buf = reader.buf@;
        let ghost start = reader.pos as int;
        let n = self.schema.fields.len();
        let fd = self.field_delimiter;
        let mut c: usize = 0;
        while c < n
            invariant
                reader.wf(),
                reader.buf@ == buf,
                buf == old(reader).buf@,
                start == old(reader).pos,
                head == "\n".spec_bytes(),
                n == self.schema.fields@.len(),
                fd == self.field_delimiter,
                c <= n,
                head + self.diag_cols_spec(buf, start, 0) == out@ + self.diag_cols_spec(
                    buf,
                    reader.pos as int,
                    c as int,
                ),
            decreases n - c,
        {
            if !self.diag_column(c, reader, &mut out) {
                assert(out@ =~= self.diagnostic_spec(buf, start));
                return out;
            }
            c = c + 1;
        }
        proof {
            reveal(CsvInputFormat::diag_cols_spec);
        }
        let _ = self.parse_row_end_with_diagnostic_info(reader, &mut out);
        assert(out@ =~= self.diagnostic_spec(buf, start));
        out
    }
}

} // verus!
