//! The row channel: a bounded queue of rows between one producer and one
//! consumer. Rows leave it in the order in which they entered it.

use std::collections::VecDeque;
use vstd::prelude::*;

verus! {

/// What a channel holds and which of its two ends are still there.
pub struct ChannelState {
    /// The most rows that the channel holds at a time.
    pub capacity: nat,
    /// The rows that were sent and not yet received, oldest first.
    pub queued: Seq<Vec<String>>,
    /// Whether the producer may still send.
    pub sender_open: bool,
    /// Whether the consumer may still receive.
    pub receiver_open: bool,
}

/// Why a row was not taken. The row comes back with the refusal.
#[derive(Debug)]
pub enum Refused {
    /// The channel holds as many rows as it can: the producer has to wait
    /// until the consumer has received one.
    Full(Vec<String>),
    /// One of the two ends is closed.
    Closed(Vec<String>),
}

/// Why no row was received.
#[derive(Debug, PartialEq, Eq, Clone, Copy)]
pub enum Idle {
    /// Nothing is queued, but the producer may still send.
    Empty,
    /// Nothing is queued and nothing will come, or the receiver is closed.
    Disconnected,
}

impl ChannelState {
    /// A row can be taken: both ends are open and there is room.
    pub open spec fn accepts(self) -> bool {
        self.sender_open && self.receiver_open && self.queued.len() < self.capacity
    }

    /// The channel holds no more rows than its capacity.
    pub open spec fn bounded(self) -> bool {
        self.queued.len() <= self.capacity
    }

    /// Nothing can be added before a row is received.
    pub open spec fn is_full(self) -> bool {
        self.queued.len() >= self.capacity
    }

    /// The channel after it has taken `row`.
    pub open spec fn with_row(self, row: Vec<String>) -> ChannelState {
        ChannelState { queued: self.queued.push(row), ..self }
    }

    /// The channel after its oldest row has been received.
    pub open spec fn without_first(self) -> ChannelState {
        ChannelState { queued: self.queued.drop_first(), ..self }
    }

    /// What `try_send` returns for `row`.
    pub open spec fn send_result(self, row: Vec<String>) -> Result<(), Refused> {
        if !self.sender_open || !self.receiver_open {
            Err(Refused::Closed(row))
        } else if self.is_full() {
            Err(Refused::Full(row))
        } else {
            Ok(())
        }
    }

    /// The channel after `try_send` of `row`: one row longer where the row was
    /// taken, unchanged where it was refused.
    pub open spec fn after_send(self, row: Vec<String>) -> ChannelState {
        if self.accepts() {
            self.with_row(row)
        } else {
            self
        }
    }

    /// What `try_recv` returns.
    pub open spec fn recv_result(self) -> Result<Vec<String>, Idle> {
        if !self.receiver_open {
            Err(Idle::Disconnected)
        } else if self.queued.len() > 0 {
            Ok(self.queued[0])
        } else if self.sender_open {
            Err(Idle::Empty)
        } else {
            Err(Idle::Disconnected)
        }
    }

    /// The channel after `try_recv`.
    pub open spec fn after_recv(self) -> ChannelState {
        if self.receiver_open && self.queued.len() > 0 {
            self.without_first()
        } else {
            self
        }
    }
}

/// A bounded queue of rows with a sending and a receiving end.
pub struct RowChannel {
    capacity: usize,
    queue: VecDeque<Vec<String>>,
    sender_open: bool,
    receiver_open: bool,
}

impl View for RowChannel {
    type V = ChannelState;

    closed spec fn view(&self) -> ChannelState {
        ChannelState {
            capacity: self.capacity as nat,
            queued: self.queue@,
            sender_open: self.sender_open,
            receiver_open: self.receiver_open,
        }
    }
}

impl RowChannel {
    /// An empty channel for at most `capacity` rows, both ends open.
    pub fn new(capacity: usize) -> (channel: RowChannel)
        requires
            capacity > 0,
        ensures
            channel@ == (ChannelState {
                capacity: capacity as nat,
                queued: Seq::empty(),
                sender_open: true,
                receiver_open: true,
            }),
    {
        RowChannel { capacity, queue: VecDeque::new(), sender_open: true, receiver_open: true }
    }

    /// The number of rows that wait to be received.
    pub fn len(&self) -> (n: usize)
        ensures
            n == self@.queued.len(),
    {
        self.queue.len()
    }

    pub fn capacity(&self) -> (n: usize)
        ensures
            n == self@.capacity,
    {
        self.capacity
    }

    pub fn is_full(&self) -> (full: bool)
        ensures
            full == self@.is_full(),
    {
        self.queue.len() >= self.capacity
    }

    pub fn sender_open(&self) -> (open: bool)
        ensures
            open == self@.sender_open,
    {
        self.sender_open
    }

    pub fn receiver_open(&self) -> (open: bool)
        ensures
            open == self@.receiver_open,
    {
        self.receiver_open
    }

    /// Queues `row` behind the rows that wait, unless the channel is full or
    /// closed: then the channel stays as it is and the row comes back.
    pub fn try_send(&mut self, row: Vec<String>) -> (outcome: Result<(), Refused>)
        ensures
            outcome == old(self)@.send_result(row),
            final(self)@ == old(self)@.after_send(row),
    {
        if !self.sender_open || !self.receiver_open {
            Err(Refused::Closed(row))
        } else if self.queue.len() >= self.capacity {
            Err(Refused::Full(row))
        } else {
            self.queue.push_back(row);
            Ok(())
        }
    }

    /// Takes the row that has waited longest.
    pub fn try_recv(&mut self) -> (outcome: Result<Vec<String>, Idle>)
        ensures
            outcome == old(self)@.recv_result(),
            final(self)@ == old(self)@.after_recv(),
    {
        if !self.receiver_open {
            return Err(Idle::Disconnected);
        }
        match self.queue.pop_front() {
            Some(row) => {
                proof {
                    assert(self.queue@ =~= old(self).queue@.drop_first());
                }
                Ok(row)
            },
            None => {
                proof {
                    assert(self.queue@ =~= old(self).queue@);
                }
                if self.sender_open {
                    Err(Idle::Empty)
                } else {
                    Err(Idle::Disconnected)
                }
            },
        }
    }

    /// Closes the sending end: the producer is done. The rows that wait can
    /// still be received.
    pub fn close_sender(&mut self)
        ensures
            final(self)@ == (ChannelState { sender_open: false, ..old(self)@ }),
    {
        self.sender_open = false;
    }

    /// Closes the receiving end: the consumer is gone, and with it the rows
    /// that it had not received.
    pub fn close_receiver(&mut self)
        ensures
            final(self)@ == (ChannelState {
                receiver_open: false,
                queued: Seq::empty(),
                ..old(self)@
            }),
    {
        self.receiver_open = false;
        self.queue.clear();
    }
}

/// The channel after the rows `rows` have been sent one after the other, each
/// with `try_send`.
pub open spec fn after_sends(channel: ChannelState, rows: Seq<Vec<String>>) -> ChannelState
    decreases rows.len(),
{
    if rows.len() == 0 {
        channel
    } else {
        after_sends(channel, rows.drop_last()).after_send(rows.last())
    }
}

/// The rows that `n` calls of `try_recv` hand out, in the order of the calls.
pub open spec fn received(channel: ChannelState, n: nat) -> Seq<Vec<String>>
    decreases n,
{
    if n == 0 || !(channel.receiver_open && channel.queued.len() > 0) {
        Seq::empty()
    } else {
        seq![channel.queued[0]] + received(channel.after_recv(), (n - 1) as nat)
    }
}

/// Back-pressure: a channel that holds as many rows as it can refuses the next
/// row and keeps what it holds, so nothing is lost and nothing grows; once the
/// consumer has received one row, the same row is taken.
pub proof fn lemma_full_channel_waits_for_receiver(channel: ChannelState, row: Vec<String>)
    requires
        channel.sender_open,
        channel.receiver_open,
        0 < channel.capacity,
        channel.queued.len() == channel.capacity,
    ensures
        channel.send_result(row) == Err::<(), Refused>(Refused::Full(row)),
        channel.after_send(row) == channel,
        channel.recv_result() == Ok::<Vec<String>, Idle>(channel.queued[0]),
        channel.after_recv().send_result(row) == Ok::<(), Refused>(()),
        channel.after_recv().after_send(row).queued == channel.queued.drop_first().push(row),
{
}

/// The channel never holds more than its capacity, whatever is sent.
pub proof fn lemma_sends_stay_bounded(channel: ChannelState, rows: Seq<Vec<String>>)
    requires
        channel.bounded(),
    ensures
        after_sends(channel, rows).bounded(),
        after_sends(channel, rows).capacity == channel.capacity,
    decreases rows.len(),
{
    if rows.len() > 0 {
        lemma_sends_stay_bounded(channel, rows.drop_last());
    }
}

/// Order: the rows that a channel with room for them has taken are received
/// as they were sent, the same rows in the same order.
pub proof fn lemma_rows_arrive_in_order(channel: ChannelState, rows: Seq<Vec<String>>)
    requires
        channel.sender_open,
        channel.receiver_open,
        channel.queued.len() == 0,
        rows.len() <= channel.capacity,
    ensures
        after_sends(channel, rows).queued == rows,
        received(after_sends(channel, rows), rows.len()) == rows,
    decreases rows.len(),
{
    lemma_sends_fill(channel, rows);
    lemma_received_is_queue(after_sends(channel, rows));
}

proof fn lemma_sends_fill(channel: ChannelState, rows: Seq<Vec<String>>)
    requires
        channel.sender_open,
        channel.receiver_open,
        channel.queued.len() == 0,
        rows.len() <= channel.capacity,
    ensures
        after_sends(channel, rows) == (ChannelState { queued: rows, ..channel }),
    decreases rows.len(),
{
    if rows.len() == 0 {
        assert(channel.queued =~= rows);
    } else {
        lemma_sends_fill(channel, rows.drop_last());
        assert(rows.drop_last().push(rows.last()) =~= rows);
    }
}

proof fn lemma_received_is_queue(channel: ChannelState)
    requires
        channel.receiver_open,
    ensures
        received(channel, channel.queued.len()) == channel.queued,
    decreases channel.queued.len(),
{
    if channel.queued.len() > 0 {
        lemma_received_is_queue(channel.after_recv());
        assert(seq![channel.queued[0]] + channel.queued.drop_first() =~= channel.queued);
    } else {
        assert(channel.queued =~= Seq::<Vec<String>>::empty());
    }
}

} // verus!
