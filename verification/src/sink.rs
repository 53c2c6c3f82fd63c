//! The tabular sink: header and rows as lines of comma-separated text.

use crate::channel::{Idle, RowChannel};
use crate::error::Failure;
use vstd::prelude::*;

verus! {

/// The fields of a row as text.
pub open spec fn row_text(row: Vec<String>) -> Seq<Seq<char>> {
    Seq::new(row@.len(), |i: int| row@[i]@)
}

/// The line that `csv::Writer::write_record` writes for a record with these
/// fields when it is the first record of a writer with the default settings:
/// the fields with commas between them, quoted where they have to be, and the
/// line's end. `None` where the writer reports an error.
pub uninterp spec fn csv_record(fields: Seq<Seq<char>>) -> Option<Seq<u8>>;

/// The bytes of a line that may be missing.
pub open spec fn bytes_of(line: Option<Vec<u8>>) -> Option<Seq<u8>> {
    match line {
        Some(bytes) => Some(bytes@),
        None => None,
    }
}

/// Writes one record with a fresh `csv::Writer` into memory, with
/// `write_record`, and takes the bytes out with `into_inner`; `None` where
/// either reports an error. The claim: what comes out depends on the fields
/// alone.
#[verifier::external_body]
fn encode_record(fields: &Vec<String>) -> (line: Option<Vec<u8>>)
    ensures
        bytes_of(line) == csv_record(row_text(*fields)),
{
    let mut writer = csv::Writer::from_writer(Vec::new());
    match writer.write_record(fields) {
        Ok(()) => {},
        Err(_) => return None,
    }
    match writer.into_inner() {
        Ok(bytes) => Some(bytes),
        Err(_) => None,
    }
}

/// Whether a table of `columns` columns can take `row`: the row has as many
/// fields as the header, and a line can be written for it.
pub open spec fn writable(columns: nat, row: Vec<String>) -> bool {
    row@.len() == columns && csv_record(row_text(row)) is Some
}

/// The line of a row.
pub open spec fn line_of(row: Vec<String>) -> Seq<u8> {
    csv_record(row_text(row)).unwrap()
}

/// The lines of some rows, one after the other.
pub open spec fn lines_of(rows: Seq<Vec<String>>) -> Seq<u8>
    decreases rows.len(),
{
    if rows.len() == 0 {
        Seq::empty()
    } else {
        lines_of(rows.drop_last()) + line_of(rows.last())
    }
}

/// The text of a table: the line of the header, then those of the rows.
pub open spec fn table_of(header: Vec<String>, rows: Seq<Vec<String>>) -> Seq<u8> {
    line_of(header) + lines_of(rows)
}

/// What a sink has written, and how many columns its table has once the
/// header is written.
pub struct SinkState {
    pub written: Seq<u8>,
    pub columns: Option<nat>,
}

impl SinkState {
    /// Whether the next row `row` can be written.
    pub open spec fn takes(self, row: Vec<String>) -> bool {
        self.columns matches Some(n) && writable(n, row)
    }

    /// The sink after it was asked to write `row`: one line longer, or as it
    /// was where the row cannot be written.
    pub open spec fn with_row(self, row: Vec<String>) -> SinkState {
        if self.takes(row) {
            SinkState { written: self.written + line_of(row), ..self }
        } else {
            self
        }
    }

    /// The sink after it was asked to write `rows` one after the other, up to
    /// the first that cannot be written.
    pub open spec fn with_rows(self, rows: Seq<Vec<String>>) -> SinkState
        decreases rows.len(),
    {
        if rows.len() == 0 {
            self
        } else if self.takes(rows[0]) {
            self.with_row(rows[0]).with_rows(rows.drop_first())
        } else {
            self
        }
    }

    /// Whether each of `rows` can be written.
    pub open spec fn takes_all(self, rows: Seq<Vec<String>>) -> bool {
        forall|i: int| 0 <= i < rows.len() ==> self.takes(#[trigger] rows[i])
    }
}

/// A sink that keeps the table in memory as comma-separated text.
pub struct Print {
    out: Vec<u8>,
    columns: Option<usize>,
}

impl View for Print {
    type V = SinkState;

    closed spec fn view(&self) -> SinkState {
        SinkState {
            written: self.out@,
            columns: match self.columns {
                Some(n) => Some(n as nat),
                None => None,
            },
        }
    }
}

impl Print {
    /// A sink that has written nothing.
    pub fn new() -> (sink: Print)
        ensures
            sink@ == (SinkState { written: Seq::empty(), columns: None }),
    {
        Print { out: Vec::new(), columns: None }
    }

    /// Writes the header. From then on the table has as many columns as the
    /// header has names. Fails, and writes nothing, where a header was written
    /// before or no line can be written for this one.
    pub fn write_header(&mut self, column_names: &Vec<String>) -> (outcome: Result<(), Failure>)
        ensures
            old(self)@.columns is None && csv_record(row_text(*column_names)) is Some ==> outcome
                is Ok && final(self)@ == (SinkState {
                written: old(self)@.written + line_of(*column_names),
                columns: Some(column_names@.len()),
            }),
            !(old(self)@.columns is None && csv_record(row_text(*column_names)) is Some)
                ==> outcome == Err::<(), Failure>(Failure::SinkWriteError) && final(self)@ == old(
                self,
            )@,
    {
        if self.columns.is_some() {
            return Err(Failure::SinkWriteError);
        }
        match encode_record(column_names) {
            Some(mut line) => {
                self.out.append(&mut line);
                self.columns = Some(column_names.len());
                Ok(())
            },
            None => Err(Failure::SinkWriteError),
        }
    }

    /// Writes one row below what is written. Fails, and writes nothing, where
    /// no header was written, the row has not as many fields as the header
    /// has names, or no line can be written for it.
    pub fn write_row(&mut self, row: &Vec<String>) -> (outcome: Result<(), Failure>)
        ensures
            final(self)@ == old(self)@.with_row(*row),
            old(self)@.takes(*row) ==> outcome is Ok,
            !old(self)@.takes(*row) ==> outcome == Err::<(), Failure>(Failure::SinkWriteError),
    {
        match self.columns {
            Some(n) => {
                if row.len() != n {
                    return Err(Failure::SinkWriteError);
                }
            },
            None => {
                return Err(Failure::SinkWriteError);
            },
        }
        match encode_record(row) {
            Some(mut line) => {
                self.out.append(&mut line);
                Ok(())
            },
            None => Err(Failure::SinkWriteError),
        }
    }

    /// Receives the rows that wait in `rx`, oldest first, and writes each. It
    /// returns when nothing waits any more: `true` where nothing can come
    /// either, `false` where the producer may still send. The first row that
    /// cannot be written ends it with a failure; that row and those behind it
    /// are not written, and the receiving end is closed.
    pub fn consume(&mut self, rx: &mut RowChannel) -> (outcome: Result<bool, Failure>)
        requires
            old(rx)@.receiver_open,
        ensures
            final(self)@ == old(self)@.with_rows(old(rx)@.queued),
            final(rx)@.capacity == old(rx)@.capacity,
            final(rx)@.sender_open == old(rx)@.sender_open,
            final(rx)@.queued.len() == 0,
            old(self)@.takes_all(old(rx)@.queued) ==> outcome == Ok::<bool, Failure>(
                !old(rx)@.sender_open,
            ) && final(rx)@.receiver_open,
            !old(self)@.takes_all(old(rx)@.queued) ==> outcome == Err::<bool, Failure>(
                Failure::SinkWriteError,
            ) && !final(rx)@.receiver_open,
    {
        let ghost rows = rx@.queued;
        let ghost mut done: int = 0;
        proof {
            assert(rows.skip(0) =~= rows);
        }
        loop
            invariant
                rows == old(rx)@.queued,
                0 <= done <= rows.len(),
                rx@.receiver_open,
                rx@.capacity == old(rx)@.capacity,
                rx@.sender_open == old(rx)@.sender_open,
                rx@.queued == rows.skip(done),
                self@.with_rows(rows.skip(done)) == old(self)@.with_rows(rows),
                forall|i: int| 0 <= i < done ==> old(self)@.takes(#[trigger] rows[i]),
                self@.columns == old(self)@.columns,
            decreases rows.len() - done,
        {
            match rx.try_recv() {
                Ok(row) => {
                    proof {
                        assert(rows.skip(done)[0] == rows[done]);
                        assert(rows.skip(done).drop_first() =~= rows.skip(done + 1));
                    }
                    match self.write_row(&row) {
                        Ok(()) => {
                            proof {
                                done = done + 1;
                            }
                        },
                        Err(e) => {
                            rx.close_receiver();
                            proof {
                                assert(!old(self)@.takes(rows[done]));
                            }
                            return Err(e);
                        },
                    }
                },
                Err(idle) => {
                    proof {
                        assert(rows.skip(done).len() == 0);
                        assert(done == rows.len());
                    }
                    return Ok(
                        match idle {
                            Idle::Empty => false,
                            Idle::Disconnected => true,
                        },
                    );
                },
            }
        }
    }

    /// The text of the table as far as it is written.
    pub fn into_bytes(self) -> (bytes: Vec<u8>)
        ensures
            bytes@ == self@.written,
    {
        self.out
    }
}

/// A sink that takes each of `rows` has, after them, written their lines in
/// their order and nothing else.
pub proof fn lemma_rows_written_in_order(sink: SinkState, rows: Seq<Vec<String>>)
    requires
        sink.takes_all(rows),
    ensures
        sink.with_rows(rows) == (SinkState { written: sink.written + lines_of(rows), ..sink }),
    decreases rows.len(),
{
    if rows.len() == 0 {
        assert(sink.written + lines_of(rows) =~= sink.written);
    } else {
        let next = sink.with_row(rows[0]);
        let rest = rows.drop_first();
        assert(sink.takes(rows[0]));
        assert forall|i: int| 0 <= i < rest.len() implies next.takes(#[trigger] rest[i]) by {
            assert(rest[i] == rows[i + 1]);
            assert(sink.takes(rows[i + 1]));
        }
        lemma_rows_written_in_order(next, rest);
        lemma_lines_of_first(rows);
        assert(sink.written + line_of(rows[0]) + lines_of(rest) =~= sink.written + (line_of(rows[0])
            + lines_of(rest)));
    }
}

/// The lines of some rows are the line of the first, then the lines of the
/// others.
pub proof fn lemma_lines_of_first(rows: Seq<Vec<String>>)
    requires
        rows.len() > 0,
    ensures
        lines_of(rows) == line_of(rows[0]) + lines_of(rows.drop_first()),
    decreases rows.len(),
{
    if rows.len() == 1 {
        assert(rows.drop_last() =~= Seq::<Vec<String>>::empty());
        assert(rows.drop_first() =~= Seq::<Vec<String>>::empty());
        assert(lines_of(rows.drop_last()) =~= Seq::<u8>::empty());
        assert(lines_of(rows) =~= line_of(rows[0]));
        assert(line_of(rows[0]) + lines_of(rows.drop_first()) =~= line_of(rows[0]));
    } else {
        let front = rows.drop_last();
        lemma_lines_of_first(front);
        assert(front[0] == rows[0]);
        assert(front.drop_first() =~= rows.drop_first().drop_last());
        assert(rows.drop_first().last() == rows.last());
        assert(line_of(rows[0]) + lines_of(front.drop_first()) + line_of(rows.last()) =~= line_of(
            rows[0],
        ) + (lines_of(front.drop_first()) + line_of(rows.last())));
    }
}

} // verus!
