//! The pipeline of one metric: a producer's rows go through a bounded channel
//! to the sink. Producer and consumer take turns: the producer runs until the
//! channel is full, then waits while the consumer receives what is queued.

use crate::channel::{ChannelState, RowChannel};
use crate::error::Failure;
use crate::sink::{
    csv_record, lemma_rows_written_in_order, line_of, lines_of, row_text, table_of, writable,
    Print, SinkState,
};
use vstd::prelude::*;

verus! {

/// The state of a pipeline: what the sink has written and what the channel
/// holds. The consumer is alive as long as the receiving end is open.
pub struct PipelineState {
    pub sink: SinkState,
    pub channel: ChannelState,
}

impl PipelineState {
    /// The producer may send, the channel has room for at least one row and
    /// holds no more than it can, and a consumer that is gone left nothing
    /// queued.
    pub open spec fn well_formed(self) -> bool {
        &&& self.channel.capacity > 0
        &&& self.channel.sender_open
        &&& self.channel.bounded()
        &&& !self.channel.receiver_open ==> self.channel.queued.len() == 0
    }

    /// The pipeline after the consumer has had its turn: it has received what
    /// was queued and written it, up to the first row that cannot be written.
    /// Such a row ends the consumer.
    pub open spec fn drained(self) -> PipelineState {
        PipelineState {
            sink: self.sink.with_rows(self.channel.queued),
            channel: ChannelState {
                queued: Seq::empty(),
                receiver_open: self.sink.takes_all(self.channel.queued),
                ..self.channel
            },
        }
    }

    /// The pipeline after the producer has sent `row`. With room in the
    /// channel the row is queued. With a full channel the producer waits for
    /// the consumer's turn, and the row is queued behind it. Without a
    /// consumer nothing changes.
    pub open spec fn after_send(self, row: Vec<String>) -> PipelineState {
        if !self.channel.receiver_open {
            self
        } else if !self.channel.is_full() {
            PipelineState { channel: self.channel.with_row(row), ..self }
        } else if self.drained().channel.receiver_open {
            PipelineState { channel: self.drained().channel.with_row(row), ..self.drained() }
        } else {
            self.drained()
        }
    }

    /// What the producer learns when it sends `row`: `ChannelClosed` where the
    /// consumer is gone, or goes while the producer waits for it.
    pub open spec fn send_result(self, row: Vec<String>) -> Result<(), Failure> {
        if self.channel.receiver_open && (!self.channel.is_full() || self.sink.takes_all(
            self.channel.queued,
        )) {
            Ok(())
        } else {
            Err(Failure::ChannelClosed)
        }
    }

    /// The pipeline after `rows` have been sent one after the other.
    pub open spec fn after_sends(self, rows: Seq<Vec<String>>) -> PipelineState
        decreases rows.len(),
    {
        if rows.len() == 0 {
            self
        } else {
            self.after_sends(rows.drop_last()).after_send(rows.last())
        }
    }

    /// The pipeline after `rows` have been sent one after the other up to the
    /// first send that fails, and the outcome of that send, or `Ok` where
    /// every send succeeded.
    pub open spec fn after_all(self, rows: Seq<Vec<String>>) -> (PipelineState, Result<(), Failure>)
        decreases rows.len(),
    {
        if rows.len() == 0 {
            (self, Ok(()))
        } else if self.send_result(rows[0]) is Ok {
            self.after_send(rows[0]).after_all(rows.drop_first())
        } else {
            (self.after_send(rows[0]), self.send_result(rows[0]))
        }
    }

    /// How the pipeline ends once the producer has returned `produced`. The
    /// first failure is the one reported: that of a consumer that went while
    /// the producer was still at work, else that of the producer, else that of
    /// the consumer on the rows that were still queued. Without a failure the
    /// text of the whole table is the result.
    pub open spec fn finish_result(self, produced: Result<(), Failure>) -> Result<
        Seq<u8>,
        Failure,
    > {
        if !self.channel.receiver_open {
            Err(Failure::SinkWriteError)
        } else {
            match produced {
                Err(e) => Err(e),
                Ok(()) => if self.sink.takes_all(self.channel.queued) {
                    Ok(self.sink.with_rows(self.channel.queued).written)
                } else {
                    Err(Failure::SinkWriteError)
                },
            }
        }
    }
}

/// The pipeline at its start: the consumer has written the header, nothing is
/// queued. Where no line can be written for the header the consumer is gone
/// from the start.
pub open spec fn started(column_names: Vec<String>, capacity: nat) -> PipelineState {
    let header_written = csv_record(row_text(column_names)) is Some;
    PipelineState {
        sink: if header_written {
            SinkState { written: line_of(column_names), columns: Some(column_names@.len()) }
        } else {
            SinkState { written: Seq::empty(), columns: None }
        },
        channel: ChannelState {
            capacity,
            queued: Seq::empty(),
            sender_open: true,
            receiver_open: header_written,
        },
    }
}

/// A channel with the sink behind it.
pub struct Pipeline {
    channel: RowChannel,
    sink: Print,
}

impl View for Pipeline {
    type V = PipelineState;

    closed spec fn view(&self) -> PipelineState {
        PipelineState { sink: self.sink@, channel: self.channel@ }
    }
}

impl Pipeline {
    /// A pipeline for a table with the columns `column_names` and a channel
    /// for at most `capacity` rows.
    pub fn start(column_names: &Vec<String>, capacity: usize) -> (pipeline: Pipeline)
        requires
            capacity > 0,
        ensures
            pipeline@ == started(*column_names, capacity as nat),
            pipeline@.well_formed(),
    {
        let mut channel = RowChannel::new(capacity);
        let mut sink = Print::new();
        match sink.write_header(column_names) {
            Ok(()) => {
                proof {
                    assert(sink@.written =~= line_of(*column_names));
                }
            },
            Err(_) => {
                channel.close_receiver();
            },
        }
        Pipeline { channel, sink }
    }

    /// Sends `row` to the consumer. The row waits in the channel; where the
    /// channel is full, the producer first waits until the consumer has
    /// received what is queued.
    pub fn send(&mut self, row: Vec<String>) -> (outcome: Result<(), Failure>)
        requires
            old(self)@.well_formed(),
        ensures
            final(self)@ == old(self)@.after_send(row),
            outcome == old(self)@.send_result(row),
            final(self)@.well_formed(),
    {
        if !self.channel.receiver_open() {
            return Err(Failure::ChannelClosed);
        }
        if self.channel.is_full() {
            match self.sink.consume(&mut self.channel) {
                Ok(_) => {},
                Err(_) => {
                    proof {
                        assert(self.channel@.queued =~= Seq::<Vec<String>>::empty());
                    }
                    return Err(Failure::ChannelClosed);
                },
            }
            proof {
                assert(self.channel@.queued =~= Seq::<Vec<String>>::empty());
            }
        }
        match self.channel.try_send(row) {
            Ok(()) => Ok(()),
            Err(_) => {
                proof {
                    assert(false);
                }
                Err(Failure::ChannelClosed)
            },
        }
    }

    /// Sends `rows` one after the other, and stops at the first send that
    /// fails.
    pub fn send_all(&mut self, rows: Vec<Vec<String>>) -> (outcome: Result<(), Failure>)
        requires
            old(self)@.well_formed(),
        ensures
            (final(self)@, outcome) == old(self)@.after_all(rows@),
            final(self)@.well_formed(),
    {
        proof {
            assert(rows@.skip(0) =~= rows@);
        }
        for row in it: rows
            invariant
                it.seq() == rows@,
                self@.well_formed(),
                self@.after_all(rows@.skip(it.index() as int)) == old(self)@.after_all(rows@),
        {
            proof {
                let rest = rows@.skip(it.index() as int);
                assert(rest[0] == row);
                assert(rest.drop_first() =~= rows@.skip(it.index() as int + 1));
            }
            match self.send(row) {
                Ok(()) => {},
                Err(e) => {
                    return Err(e);
                },
            }
        }
        proof {
            assert(rows@.skip(rows@.len() as int).len() == 0);
        }
        Ok(())
    }

    /// Ends the pipeline after the producer has returned `produced`: closes
    /// the sending end, lets the consumer receive what is still queued, and
    /// reports the first failure or hands out the text of the table.
    pub fn finish(self, produced: Result<(), Failure>) -> (outcome: Result<Vec<u8>, Failure>)
        requires
            self@.well_formed(),
        ensures
            match outcome {
                Ok(bytes) => self@.finish_result(produced) == Ok::<Seq<u8>, Failure>(bytes@),
                Err(e) => self@.finish_result(produced) == Err::<Seq<u8>, Failure>(e),
            },
    {
        let mut pipeline = self;
        pipeline.channel.close_sender();
        if !pipeline.channel.receiver_open() {
            return Err(Failure::SinkWriteError);
        }
        match produced {
            Err(e) => Err(e),
            Ok(()) => match pipeline.sink.consume(&mut pipeline.channel) {
                Ok(_) => Ok(pipeline.sink.into_bytes()),
                Err(e) => Err(e),
            },
        }
    }
}

/// Sends that all succeed have the one outcome that says so.
pub proof fn lemma_all_sent(state: PipelineState, rows: Seq<Vec<String>>)
    ensures
        state.after_all(rows).1 is Ok ==> state.after_all(rows).1 == Ok::<(), Failure>(()),
    decreases rows.len(),
{
    if rows.len() > 0 && state.send_result(rows[0]) is Ok {
        lemma_all_sent(state.after_send(rows[0]), rows.drop_first());
    }
}

/// A pipeline stays well formed, with the same capacity and the same number of
/// columns, whatever is sent.
pub proof fn lemma_send_keeps_well_formed(state: PipelineState, row: Vec<String>)
    requires
        state.well_formed(),
    ensures
        state.after_send(row).well_formed(),
        state.after_send(row).channel.capacity == state.channel.capacity,
        state.after_send(row).sink.columns == state.sink.columns,
{
    lemma_with_rows_keeps_columns(state.sink, state.channel.queued);
}

/// Writing rows leaves the number of columns as it is.
pub proof fn lemma_with_rows_keeps_columns(sink: SinkState, rows: Seq<Vec<String>>)
    ensures
        sink.with_rows(rows).columns == sink.columns,
    decreases rows.len(),
{
    if rows.len() > 0 && sink.takes(rows[0]) {
        lemma_with_rows_keeps_columns(sink.with_row(rows[0]), rows.drop_first());
    }
}

/// What holds while rows that can all be written are sent: the consumer is
/// alive, and what is written and what is queued are together the table so
/// far.
spec fn carries(state: PipelineState, header: Vec<String>, capacity: nat, rows: Seq<Vec<String>>) -> bool {
    &&& state.well_formed()
    &&& state.channel.receiver_open
    &&& state.channel.capacity == capacity
    &&& state.sink.columns == Some(header@.len())
    &&& state.sink.takes_all(state.channel.queued)
    &&& state.sink.written + lines_of(state.channel.queued) == table_of(header, rows)
}

proof fn lemma_sends_carry(header: Vec<String>, capacity: nat, rows: Seq<Vec<String>>)
    requires
        capacity > 0,
        csv_record(row_text(header)) is Some,
        forall|i: int| 0 <= i < rows.len() ==> writable(header@.len(), #[trigger] rows[i]),
    ensures
        carries(started(header, capacity).after_sends(rows), header, capacity, rows),
        forall|i: int|
            0 <= i < rows.len() ==> started(header, capacity).after_sends(
                #[trigger] rows.take(i),
            ).send_result(rows[i]) == Ok::<(), Failure>(()),
    decreases rows.len(),
{
    let start = started(header, capacity);
    if rows.len() == 0 {
        assert(lines_of(start.channel.queued) =~= Seq::<u8>::empty());
        assert(start.sink.written + lines_of(start.channel.queued) =~= line_of(header) + lines_of(
            rows,
        ));
    } else {
        let front = rows.drop_last();
        let row = rows.last();
        assert forall|i: int| 0 <= i < front.len() implies writable(
            header@.len(),
            #[trigger] front[i],
        ) by {
            assert(front[i] == rows[i]);
        }
        lemma_sends_carry(header, capacity, front);
        let before = start.after_sends(front);
        let after = before.after_send(row);
        assert(writable(header@.len(), row));
        assert(rows =~= front.push(row));
        assert(lines_of(rows) == lines_of(front) + line_of(row));
        if !before.channel.is_full() {
            let queued = before.channel.queued.push(row);
            assert(queued.drop_last() =~= before.channel.queued);
            assert(lines_of(queued) == lines_of(before.channel.queued) + line_of(row));
            assert(before.sink.written + lines_of(queued) =~= (before.sink.written + lines_of(
                before.channel.queued,
            )) + line_of(row));
            assert(table_of(header, rows) =~= table_of(header, front) + line_of(row));
            assert forall|i: int| 0 <= i < queued.len() implies after.sink.takes(
                #[trigger] queued[i],
            ) by {
                if i < before.channel.queued.len() {
                    assert(queued[i] == before.channel.queued[i]);
                }
            }
        } else {
            lemma_rows_written_in_order(before.sink, before.channel.queued);
            let queued = Seq::<Vec<String>>::empty().push(row);
            assert(after.channel.queued == queued);
            assert(queued.drop_last() =~= Seq::<Vec<String>>::empty());
            assert(lines_of(queued.drop_last()) =~= Seq::<u8>::empty());
            assert(lines_of(queued) =~= line_of(row));
            assert(table_of(header, rows) =~= table_of(header, front) + line_of(row));
            assert(after.sink.written + lines_of(queued) =~= table_of(header, rows));
            assert forall|i: int| 0 <= i < queued.len() implies after.sink.takes(
                #[trigger] queued[i],
            ) by {
                assert(queued[i] == row);
            }
        }
        assert forall|i: int| 0 <= i < rows.len() implies start.after_sends(
            #[trigger] rows.take(i),
        ).send_result(rows[i]) == Ok::<(), Failure>(()) by {
            if i < front.len() {
                assert(rows.take(i) =~= front.take(i));
                assert(rows[i] == front[i]);
            } else {
                assert(rows.take(i) =~= front);
            }
        }
    }
}

/// Order: where the header and each of the rows sent can be written, every
/// send succeeds, whatever the capacity of the channel, and the pipeline ends
/// with the table of the header and exactly these rows, in the order in which
/// they were sent.
pub proof fn lemma_pipeline_keeps_rows_in_order(
    header: Vec<String>,
    capacity: nat,
    rows: Seq<Vec<String>>,
)
    requires
        capacity > 0,
        csv_record(row_text(header)) is Some,
        forall|i: int| 0 <= i < rows.len() ==> writable(header@.len(), #[trigger] rows[i]),
    ensures
        forall|i: int|
            0 <= i < rows.len() ==> started(header, capacity).after_sends(
                #[trigger] rows.take(i),
            ).send_result(rows[i]) == Ok::<(), Failure>(()),
        started(header, capacity).after_sends(rows).finish_result(Ok(())) == Ok::<
            Seq<u8>,
            Failure,
        >(table_of(header, rows)),
{
    lemma_sends_carry(header, capacity, rows);
    let end = started(header, capacity).after_sends(rows);
    lemma_rows_written_in_order(end.sink, end.channel.queued);
}

/// Back-pressure: the channel of a pipeline never holds more rows than its
/// capacity, and a row sent to a full channel is queued only after the
/// consumer has received every row that was queued before it.
pub proof fn lemma_full_pipeline_waits_for_consumer(state: PipelineState, row: Vec<String>)
    requires
        state.well_formed(),
        state.channel.receiver_open,
        state.channel.is_full(),
    ensures
        state.after_send(row).channel.bounded(),
        state.send_result(row) is Ok ==> state.after_send(row).channel.queued == seq![row]
            && state.after_send(row).sink == state.sink.with_rows(state.channel.queued),
        state.send_result(row) is Err ==> state.after_send(row).channel.queued.len() == 0
            && !state.after_send(row).channel.receiver_open,
{
    assert(Seq::<Vec<String>>::empty().push(row) =~= seq![row]);
}

} // verus!
