//! Streams that are written in the background: the outbox between a sender and its writer.
use std::collections::VecDeque;
use vstd::prelude::*;

verus! {

/// A message on its way to the writer. `C` is what stands for the one who waits for it.
pub struct OutboundMessage<C> {
    pub bytes: Vec<u8>,
    pub kind: &'static str,
    pub encrypt: bool,
    pub completion: Option<C>,
}

/// A message in its place. A message with a key may be replaced by a later one.
pub struct OutboundEntry<C> {
    pub key: Option<u64>,
    pub message: OutboundMessage<C>,
}

/// Why an outbox does not take a message.
#[derive(Clone, Copy, Debug, Eq, PartialEq, Structural)]
pub enum OutboxError {
    Closed,
    Full,
}

/// What a writer finds in an outbox.
pub enum Dequeued<C> {
    Message(OutboundMessage<C>),
    /// There is nothing, but there may be something later.
    Empty,
    /// There is nothing, and there will be nothing.
    Closed,
}

/// The messages that wait for the writer, in order and not more than so many.
pub struct OutboundQueue<C> {
    entries: VecDeque<OutboundEntry<C>>,
    capacity: usize,
    closed: bool,
}

/// What an outbox holds.
#[verifier::ext_equal]
pub struct OutboxView<C> {
    pub entries: Seq<OutboundEntry<C>>,
    pub capacity: usize,
    pub closed: bool,
}

impl<C> View for OutboundQueue<C> {
    type V = OutboxView<C>;

    closed spec fn view(&self) -> OutboxView<C> {
        OutboxView { entries: self.entries@, capacity: self.capacity, closed: self.closed }
    }
}

/// Where the message with a key stands, if there is one.
pub open spec fn is_at<C>(entries: Seq<OutboundEntry<C>>, key: u64, index: int) -> bool {
    0 <= index < entries.len() && entries[index].key == Some(key)
}

/// Whether there is a message with a key.
pub open spec fn has_key<C>(entries: Seq<OutboundEntry<C>>, key: u64) -> bool {
    exists|index: int| #[trigger] is_at(entries, key, index)
}

/// The messages that cannot be replaced, in order.
pub open spec fn reliable_messages<C>(entries: Seq<OutboundEntry<C>>) -> Seq<OutboundMessage<C>>
    decreases entries.len(),
{
    if entries.len() == 0 {
        Seq::empty()
    } else if entries.last().key is None {
        reliable_messages(entries.drop_last()).push(entries.last().message)
    } else {
        reliable_messages(entries.drop_last())
    }
}

/// The messages that can be replaced, in order.
pub open spec fn latest_messages<C>(entries: Seq<OutboundEntry<C>>) -> Seq<OutboundMessage<C>>
    decreases entries.len(),
{
    if entries.len() == 0 {
        Seq::empty()
    } else if entries.last().key is Some {
        latest_messages(entries.drop_last()).push(entries.last().message)
    } else {
        latest_messages(entries.drop_last())
    }
}

impl<C> OutboxView<C> {
    /// Whether there are no more messages than fit, and no two with the same key.
    pub open spec fn is_orderly(self) -> bool {
        &&& 1 <= self.capacity
        &&& self.entries.len() <= self.capacity
        &&& forall|first: int, second: int, key: u64|
            #[trigger] is_at(self.entries, key, first) && #[trigger] is_at(
                self.entries,
                key,
                second,
            ) ==> first == second
    }

    /// What `enqueue` does and returns.
    pub open spec fn enqueued(self, message: OutboundMessage<C>) -> (
        OutboxView<C>,
        Result<(), OutboxError>,
    ) {
        if self.closed {
            (self, Err(OutboxError::Closed))
        } else if self.entries.len() >= self.capacity {
            (self, Err(OutboxError::Full))
        } else {
            (
                OutboxView {
                    entries: self.entries.push(OutboundEntry { key: None, message }),
                    ..self
                },
                Ok(()),
            )
        }
    }

    /// The place of the message with a key.
    pub open spec fn place(self, key: u64) -> int {
        choose|index: int| #[trigger] is_at(self.entries, key, index)
    }

    /// What `enqueue_latest` does and returns: a message takes the place of the one with the
    /// same key, even where the outbox is full.
    pub open spec fn enqueued_latest(self, key: u64, message: OutboundMessage<C>) -> (
        OutboxView<C>,
        Result<(), OutboxError>,
    ) {
        let entry = OutboundEntry { key: Some(key), message };
        if self.closed {
            (self, Err(OutboxError::Closed))
        } else if has_key(self.entries, key) {
            (
                OutboxView { entries: self.entries.update(self.place(key), entry), ..self },
                Ok(()),
            )
        } else if self.entries.len() >= self.capacity {
            (self, Err(OutboxError::Full))
        } else {
            (OutboxView { entries: self.entries.push(entry), ..self }, Ok(()))
        }
    }

    /// The outbox after its first message was taken.
    pub open spec fn without_first(self) -> OutboxView<C> {
        OutboxView { entries: self.entries.subrange(1, self.entries.len() as int), ..self }
    }

    /// The outbox after the writer failed.
    pub open spec fn failed(self) -> OutboxView<C> {
        OutboxView { entries: Seq::empty(), closed: true, ..self }
    }
}

impl<C> OutboundQueue<C> {
    pub open spec fn wf(self) -> bool {
        self@.is_orderly()
    }

    /// An empty outbox for so many messages, but at least one.
    pub fn new(capacity: usize) -> (queue: OutboundQueue<C>)
        ensures
            queue.wf(),
            queue@ == (OutboxView::<C> {
                entries: Seq::empty(),
                capacity: if capacity == 0 {
                    1
                } else {
                    capacity
                },
                closed: false,
            }),
    {
        let queue = OutboundQueue {
            entries: VecDeque::new(),
            capacity: if capacity == 0 {
                1
            } else {
                capacity
            },
            closed: false,
        };
        assert(queue@.entries =~= Seq::empty());
        queue
    }

    /// Puts a message behind all others.
    pub fn enqueue(&mut self, message: OutboundMessage<C>) -> (result: Result<(), OutboxError>)
        requires
            old(self).wf(),
        ensures
            final(self).wf(),
            (final(self)@, result) == old(self)@.enqueued(message),
    {
        if self.closed {
            return Err(OutboxError::Closed);
        }
        if self.entries.len() >= self.capacity {
            return Err(OutboxError::Full);
        }
        self.entries.push_back(OutboundEntry { key: None, message });
        proof {
            let before = old(self)@.entries;
            assert forall|key: u64, index: int| #[trigger] is_at(
                self@.entries,
                key,
                index,
            ) implies is_at(before, key, index) by {}
        }
        Ok(())
    }

    /// Where the message with a key stands, if there is one.
    fn find(&self, key: u64) -> (found: Option<usize>)
        requires
            self.wf(),
        ensures
            match found {
                Some(index) => is_at(self@.entries, key, index as int) && index == self@.place(key),
                None => !has_key(self@.entries, key),
            },
    {
        let mut index: usize = 0;
        while index < self.entries.len()
            invariant
                self.wf(),
                index <= self@.entries.len(),
                self@.entries == self.entries@,
                forall|before: int| 0 <= before < index ==> !is_at(self@.entries, key, before),
            decreases self@.entries.len() - index,
        {
            if let Some(own) = self.entries[index].key {
                if own == key {
                    assert(is_at(self@.entries, key, index as int));
                    assert(is_at(self@.entries, key, self@.place(key)));
                    return Some(index);
                }
            }
            index = index + 1;
        }
        None
    }

    /// Puts a message in the place of the one with the same key, or behind all others.
    pub fn enqueue_latest(&mut self, key: u64, message: OutboundMessage<C>) -> (result: Result<
        (),
        OutboxError,
    >)
        requires
            old(self).wf(),
        ensures
            final(self).wf(),
            (final(self)@, result) == old(self)@.enqueued_latest(key, message),
    {
        if self.closed {
            return Err(OutboxError::Closed);
        }
        let ghost before = self@.entries;
        if let Some(index) = self.find(key) {
            assert(is_at(before, key, index as int));
            assert(has_key(before, key));
            let _ = self.entries.remove(index);
            self.entries.insert(index, OutboundEntry { key: Some(key), message });
            proof {
                assert(self@.entries =~= before.update(
                    index as int,
                    OutboundEntry { key: Some(key), message },
                ));
                assert forall|other: u64, at: int| #[trigger] is_at(
                    self@.entries,
                    other,
                    at,
                ) implies is_at(before, other, at) by {}
            }
            return Ok(());
        }
        if self.entries.len() >= self.capacity {
            return Err(OutboxError::Full);
        }
        self.entries.push_back(OutboundEntry { key: Some(key), message });
        proof {
            assert forall|other: u64, at: int| #[trigger] is_at(self@.entries, other, at) && at
                < before.len() implies is_at(before, other, at) by {}
            assert forall|first: int, second: int, other: u64|
                #[trigger] is_at(self@.entries, other, first) && #[trigger] is_at(
                    self@.entries,
                    other,
                    second,
                ) implies first == second by {
                if first < before.len() {
                    assert(is_at(before, other, first));
                }
                if second < before.len() {
                    assert(is_at(before, other, second));
                }
            }
        }
        Ok(())
    }

    /// Takes the first message.
    pub fn dequeue(&mut self) -> (dequeued: Dequeued<C>)
        requires
            old(self).wf(),
        ensures
            final(self).wf(),
            if old(self)@.entries.len() > 0 {
                &&& dequeued == Dequeued::Message(old(self)@.entries[0].message)
                &&& final(self)@ == old(self)@.without_first()
            } else {
                &&& final(self)@ == old(self)@
                &&& dequeued == if old(self)@.closed {
                    Dequeued::Closed::<C>
                } else {
                    Dequeued::Empty::<C>
                }
            },
    {
        let ghost before = self@.entries;
        let entry = match self.entries.pop_front() {
            Some(entry) => entry,
            None => return if self.closed {
                Dequeued::Closed
            } else {
                Dequeued::Empty
            },
        };
        proof {
            assert(self@.entries =~= before.subrange(1, before.len() as int));
            assert forall|key: u64, index: int| #[trigger] is_at(
                self@.entries,
                key,
                index,
            ) implies is_at(before, key, index + 1) by {}
            assert forall|first: int, second: int, key: u64|
                #[trigger] is_at(self@.entries, key, first) && #[trigger] is_at(
                    self@.entries,
                    key,
                    second,
                ) implies first == second by {
                assert(is_at(before, key, first + 1));
                assert(is_at(before, key, second + 1));
            }
        }
        Dequeued::Message(entry.message)
    }

    /// Takes no more messages. Those that are there can still be taken out.
    pub fn close(&mut self)
        requires
            old(self).wf(),
        ensures
            final(self).wf(),
            final(self)@ == (OutboxView { closed: true, ..old(self)@ }),
    {
        self.closed = true;
    }

    pub fn len(&self) -> (length: usize)
        ensures
            length == self@.entries.len(),
    {
        self.entries.len()
    }

    /// Closes the outbox and hands out all that is in it: first what cannot be replaced, then
    /// what can.
    pub fn fail_pending(&mut self) -> (pending: Vec<OutboundMessage<C>>)
        requires
            old(self).wf(),
        ensures
            final(self).wf(),
            final(self)@ == old(self)@.failed(),
            pending@ == reliable_messages(old(self)@.entries) + latest_messages(
                old(self)@.entries,
            ),
    {
        self.closed = true;
        let ghost before = self@.entries;
        let mut reliable: Vec<OutboundMessage<C>> = Vec::new();
        let mut latest: Vec<OutboundMessage<C>> = Vec::new();
        let ghost mut done: int = 0;
        loop
            invariant
                0 <= done <= before.len(),
                self.closed,
                self.capacity == old(self).capacity,
                old(self).wf(),
                self.entries@ == before.subrange(done, before.len() as int),
                reliable@ == reliable_messages(before.take(done)),
                latest@ == latest_messages(before.take(done)),
            ensures
                done == before.len(),
            decreases self.entries@.len(),
        {
            let entry = match self.entries.pop_front() {
                Some(entry) => entry,
                None => break ,
            };
            proof {
                assert(before.take(done + 1).drop_last() =~= before.take(done));
                assert(before.take(done + 1).last() == entry);
            }
            if entry.key.is_none() {
                reliable.push(entry.message);
            } else {
                latest.push(entry.message);
            }
            proof {
                done = done + 1;
                assert(self.entries@ =~= before.subrange(done, before.len() as int));
            }
        }
        assert(before.take(done) =~= before);
        reliable.append(&mut latest);
        assert(self@.entries =~= Seq::empty());
        reliable
    }
}

/// What follows from a write: whom to tell of it, whether it went well, and what became of
/// the messages behind it.
pub struct SendReport<C> {
    /// Who waits for the message that was written, if anyone does.
    pub waiting: Option<C>,
    /// Whether the writer goes on.
    pub goes_on: bool,
    /// The messages that will not be written any more.
    pub abandoned: Vec<OutboundMessage<C>>,
}

impl<C> OutboundQueue<C> {
    /// Reports a write. After one that failed nothing more is written.
    pub fn sent(&mut self, completion: Option<C>, succeeded: bool) -> (report: SendReport<C>)
        requires
            old(self).wf(),
        ensures
            final(self).wf(),
            report.waiting == completion,
            report.goes_on == succeeded,
            if succeeded {
                &&& final(self)@ == old(self)@
                &&& report.abandoned@.len() == 0
            } else {
                &&& final(self)@ == old(self)@.failed()
                &&& report.abandoned@ == reliable_messages(old(self)@.entries) + latest_messages(
                    old(self)@.entries,
                )
            },
    {
        if succeeded {
            return SendReport { waiting: completion, goes_on: true, abandoned: Vec::new() };
        }
        let abandoned = self.fail_pending();
        SendReport { waiting: completion, goes_on: false, abandoned }
    }
}

/// What carries a stream.
#[derive(Clone, Copy, Debug, Eq, PartialEq, Structural)]
pub enum StreamTransport {
    WebRtc,
    WebSocket { tls: bool },
    Tcp,
}

impl StreamTransport {
    pub open spec fn is_secure(self) -> bool {
        match self {
            StreamTransport::WebRtc => true,
            StreamTransport::WebSocket { tls } => tls,
            StreamTransport::Tcp => false,
        }
    }

    /// Whether the transport itself is encrypted.
    pub fn has_secure_transport(self) -> (secure: bool)
        ensures
            secure == self.is_secure(),
    {
        match self {
            StreamTransport::WebRtc => true,
            StreamTransport::WebSocket { tls } => tls,
            StreamTransport::Tcp => false,
        }
    }
}

/// What a stream that is written in the background does next to be read.
#[derive(Clone, Copy, Debug, Eq, PartialEq, Structural)]
pub enum ReadSource {
    /// Wait for the reader and for an error of the writer.
    ReaderOrWriterError,
    /// Wait for the reader alone.
    Reader,
}

/// A stream that is written in the background.
pub struct DuplexStream<C> {
    outbox: OutboundQueue<C>,
    writer_error_channel_closed: bool,
    secure_transport: bool,
    secured: bool,
}

/// What such a stream holds.
#[verifier::ext_equal]
pub struct DuplexView<C> {
    pub outbox: OutboxView<C>,
    pub writer_error_channel_closed: bool,
    pub secure_transport: bool,
    pub secured: bool,
}

impl<C> View for DuplexStream<C> {
    type V = DuplexView<C>;

    closed spec fn view(&self) -> DuplexView<C> {
        DuplexView {
            outbox: self.outbox@,
            writer_error_channel_closed: self.writer_error_channel_closed,
            secure_transport: self.secure_transport,
            secured: self.secured,
        }
    }
}

impl<C> DuplexView<C> {
    /// What sending a message does and returns.
    pub open spec fn sending(self, message: OutboundMessage<C>) -> (
        DuplexView<C>,
        Result<(), OutboxError>,
    ) {
        (
            DuplexView { outbox: self.outbox.enqueued(message).0, ..self },
            self.outbox.enqueued(message).1,
        )
    }
}

impl<C> DuplexStream<C> {
    pub open spec fn wf(self) -> bool {
        self@.outbox.is_orderly()
    }

    /// Begins to write a stream in the background, with an outbox for so many messages.
    pub fn into_duplex(transport: StreamTransport, secured: bool, outbox_capacity: usize) -> (stream:
        DuplexStream<C>)
        ensures
            stream.wf(),
            stream@ == (DuplexView::<C> {
                outbox: OutboxView {
                    entries: Seq::empty(),
                    capacity: if outbox_capacity == 0 {
                        1
                    } else {
                        outbox_capacity
                    },
                    closed: false,
                },
                writer_error_channel_closed: false,
                secure_transport: transport.is_secure(),
                secured,
            }),
    {
        DuplexStream {
            outbox: OutboundQueue::new(outbox_capacity),
            writer_error_channel_closed: false,
            secure_transport: transport.has_secure_transport(),
            secured,
        }
    }

    pub fn has_secure_transport(&self) -> (secure: bool)
        ensures
            secure == self@.secure_transport,
    {
        self.secure_transport
    }

    pub fn is_secured(&self) -> (secured: bool)
        ensures
            secured == self@.secured,
    {
        self.secured
    }

    /// Sends bytes as they are.
    pub fn send_bytes(&mut self, bytes: Vec<u8>) -> (result: Result<(), OutboxError>)
        requires
            old(self).wf(),
        ensures
            final(self).wf(),
            (final(self)@, result) == old(self)@.sending(
                (OutboundMessage { bytes, kind: "Bytes", encrypt: false, completion: None }),
            ),
    {
        self.outbox.enqueue(
            OutboundMessage { bytes, kind: "Bytes", encrypt: false, completion: None },
        )
    }

    /// Sends bytes, encrypted where the stream is.
    pub fn send_raw(&mut self, bytes: Vec<u8>) -> (result: Result<(), OutboxError>)
        requires
            old(self).wf(),
        ensures
            final(self).wf(),
            (final(self)@, result) == old(self)@.sending(
                (OutboundMessage { bytes, kind: "Raw", encrypt: true, completion: None }),
            ),
    {
        self.outbox.enqueue(OutboundMessage { bytes, kind: "Raw", encrypt: true, completion: None })
    }

    /// Sends an encoded message, encrypted where the stream is.
    pub fn send(&mut self, bytes: Vec<u8>) -> (result: Result<(), OutboxError>)
        requires
            old(self).wf(),
        ensures
            final(self).wf(),
            (final(self)@, result) == old(self)@.sending(
                (OutboundMessage { bytes, kind: "Message", encrypt: true, completion: None }),
            ),
    {
        self.outbox.enqueue(
            OutboundMessage { bytes, kind: "Message", encrypt: true, completion: None },
        )
    }

    /// Sends an encoded message of a kind. Where someone waits for it, `completion` says who.
    pub fn send_tagged(&mut self, kind: &'static str, bytes: Vec<u8>, completion: Option<C>) -> (result:
        Result<(), OutboxError>)
        requires
            old(self).wf(),
        ensures
            final(self).wf(),
            (final(self)@, result) == old(self)@.sending(
                (OutboundMessage { bytes, kind, encrypt: true, completion }),
            ),
    {
        self.outbox.enqueue(OutboundMessage { bytes, kind, encrypt: true, completion })
    }

    /// Sends an encoded message in place of the one with the same key that still waits.
    pub fn send_latest(&mut self, key: u64, kind: &'static str, bytes: Vec<u8>) -> (result: Result<
        (),
        OutboxError,
    >)
        requires
            old(self).wf(),
        ensures
            final(self).wf(),
            ({
                let (outbox, outcome) = old(self)@.outbox.enqueued_latest(
                    key,
                    (OutboundMessage { bytes, kind, encrypt: true, completion: None }),
                );
                &&& final(self)@ == (DuplexView { outbox, ..old(self)@ })
                &&& result == outcome
            }),
    {
        self.outbox.enqueue_latest(
            key,
            OutboundMessage { bytes, kind, encrypt: true, completion: None },
        )
    }

    /// What is waited for when the stream is read.
    pub fn read_source(&self) -> (source: ReadSource)
        ensures
            source == if self@.writer_error_channel_closed {
                ReadSource::Reader
            } else {
                ReadSource::ReaderOrWriterError
            },
    {
        if self.writer_error_channel_closed {
            ReadSource::Reader
        } else {
            ReadSource::ReaderOrWriterError
        }
    }

    /// Notes that no error of the writer can come any more.
    pub fn writer_errors_closed(&mut self)
        requires
            old(self).wf(),
        ensures
            final(self).wf(),
            final(self)@ == (DuplexView { writer_error_channel_closed: true, ..old(self)@ }),
    {
        self.writer_error_channel_closed = true;
    }

    /// Takes the next message to write.
    pub fn dequeue(&mut self) -> (dequeued: Dequeued<C>)
        requires
            old(self).wf(),
        ensures
            final(self).wf(),
            if old(self)@.outbox.entries.len() > 0 {
                &&& dequeued == Dequeued::Message(old(self)@.outbox.entries[0].message)
                &&& final(self)@ == (DuplexView {
                    outbox: old(self)@.outbox.without_first(),
                    ..old(self)@
                })
            } else {
                &&& final(self)@ == old(self)@
                &&& dequeued == if old(self)@.outbox.closed {
                    Dequeued::Closed::<C>
                } else {
                    Dequeued::Empty::<C>
                }
            },
    {
        self.outbox.dequeue()
    }

    /// Reports a write.
    pub fn sent(&mut self, completion: Option<C>, succeeded: bool) -> (report: SendReport<C>)
        requires
            old(self).wf(),
        ensures
            final(self).wf(),
            report.waiting == completion,
            report.goes_on == succeeded,
            if succeeded {
                &&& final(self)@ == old(self)@
                &&& report.abandoned@.len() == 0
            } else {
                &&& final(self)@ == (DuplexView {
                    outbox: old(self)@.outbox.failed(),
                    ..old(self)@
                })
                &&& report.abandoned@ == reliable_messages(old(self)@.outbox.entries)
                    + latest_messages(old(self)@.outbox.entries)
            },
    {
        self.outbox.sent(completion, succeeded)
    }

    /// Takes no more messages.
    pub fn close(&mut self)
        requires
            old(self).wf(),
        ensures
            final(self).wf(),
            final(self)@ == (DuplexView {
                outbox: OutboxView { closed: true, ..old(self)@.outbox },
                ..old(self)@
            }),
    {
        self.outbox.close();
    }
}

/// A later message with the same key takes the place of the earlier one: the order of all
/// others and the number of messages stay as they are.
pub proof fn lemma_latest_replaces_in_place<C>(
    outbox: OutboxView<C>,
    key: u64,
    message: OutboundMessage<C>,
)
    requires
        outbox.is_orderly(),
        !outbox.closed,
        has_key(outbox.entries, key),
    ensures
        ({
            let after = outbox.enqueued_latest(key, message).0;
            let place = outbox.place(key);
            &&& outbox.enqueued_latest(key, message).1 is Ok
            &&& after.entries.len() == outbox.entries.len()
            &&& after.entries[place] == (OutboundEntry { key: Some(key), message })
            &&& forall|index: int|
                0 <= index < outbox.entries.len() && index != place ==> after.entries[index]
                    == outbox.entries[index]
        }),
{
    assert(is_at(outbox.entries, key, outbox.place(key)));
}

/// An outbox never holds more messages than it has room for, whatever is put in.
pub proof fn lemma_outbox_is_bounded<C>(
    outbox: OutboxView<C>,
    key: u64,
    message: OutboundMessage<C>,
)
    requires
        outbox.is_orderly(),
    ensures
        outbox.enqueued(message).0.entries.len() <= outbox.capacity,
        outbox.enqueued_latest(key, message).0.entries.len() <= outbox.capacity,
{
}

/// After the writer failed nothing is taken any more, and there is nothing to take out.
pub proof fn lemma_failed_outbox_stays_empty<C>(
    outbox: OutboxView<C>,
    key: u64,
    message: OutboundMessage<C>,
)
    ensures
        outbox.failed().entries.len() == 0,
        outbox.failed().enqueued(message) == (outbox.failed(), Err::<(), _>(OutboxError::Closed)),
        outbox.failed().enqueued_latest(key, message) == (
            outbox.failed(),
            Err::<(), _>(OutboxError::Closed),
        ),
{
}

/// A message that can be replaced stands in the way of none that cannot.
proof fn lemma_replacing_keeps_reliable<C>(
    entries: Seq<OutboundEntry<C>>,
    index: int,
    entry: OutboundEntry<C>,
)
    requires
        0 <= index < entries.len(),
        entries[index].key is Some,
        entry.key is Some,
    ensures
        reliable_messages(entries.update(index, entry)) == reliable_messages(entries),
    decreases entries.len(),
{
    let after = entries.update(index, entry);
    if index == entries.len() - 1 {
        assert(after.drop_last() =~= entries.drop_last());
    } else {
        assert(after.drop_last() =~= entries.drop_last().update(index, entry));
        lemma_replacing_keeps_reliable(entries.drop_last(), index, entry);
    }
}

/// The messages that cannot be replaced, by the first message and the rest.
proof fn lemma_reliable_of_rest<C>(entries: Seq<OutboundEntry<C>>)
    requires
        entries.len() > 0,
    ensures
        reliable_messages(entries) == if entries[0].key is None {
            seq![entries[0].message] + reliable_messages(
                entries.subrange(1, entries.len() as int),
            )
        } else {
            reliable_messages(entries.subrange(1, entries.len() as int))
        },
    decreases entries.len(),
{
    let rest = entries.subrange(1, entries.len() as int);
    if entries.len() == 1 {
        assert(reliable_messages(entries.drop_last()) =~= Seq::empty());
    } else {
        let shorter = entries.drop_last();
        lemma_reliable_of_rest(shorter);
        assert(rest.drop_last() =~= shorter.subrange(1, shorter.len() as int));
        assert(rest.last() == entries.last());
    }
    assert(reliable_messages(entries) =~= if entries[0].key is None {
        seq![entries[0].message] + reliable_messages(rest)
    } else {
        reliable_messages(rest)
    });
}

/// The messages that cannot be replaced leave in the order in which they came: a new one comes
/// last, one that can be replaced changes nothing of them, and the first to leave is the first
/// of them that is there.
pub proof fn lemma_reliable_messages_keep_their_order<C>(
    outbox: OutboxView<C>,
    key: u64,
    message: OutboundMessage<C>,
)
    requires
        outbox.is_orderly(),
    ensures
        outbox.enqueued(message).1 is Ok ==> reliable_messages(outbox.enqueued(message).0.entries)
            == reliable_messages(outbox.entries).push(message),
        reliable_messages(outbox.enqueued_latest(key, message).0.entries) == reliable_messages(
            outbox.entries,
        ),
        outbox.entries.len() > 0 ==> reliable_messages(outbox.entries) == if outbox.entries[0].key
            is None {
            seq![outbox.entries[0].message] + reliable_messages(outbox.without_first().entries)
        } else {
            reliable_messages(outbox.without_first().entries)
        },
{
    let added = outbox.entries.push(OutboundEntry { key: None, message });
    assert(added.drop_last() =~= outbox.entries);
    let entry = OutboundEntry { key: Some(key), message };
    if has_key(outbox.entries, key) {
        let place = outbox.place(key);
        assert(is_at(outbox.entries, key, place));
        lemma_replacing_keeps_reliable(outbox.entries, place, entry);
    } else {
        assert(outbox.entries.push(entry).drop_last() =~= outbox.entries);
    }
    if outbox.entries.len() > 0 {
        lemma_reliable_of_rest(outbox.entries);
    }
}


/// A message goes behind all others exactly where the outbox is open and not full. Nothing
/// changes where it is refused.
pub proof fn lemma_messages_go_behind_the_others<C>(
    outbox: OutboxView<C>,
    message: OutboundMessage<C>,
)
    ensures
        ({
            let (after, result) = outbox.enqueued(message);
            let length = outbox.entries.len() as int;
            &&& result is Ok <==> !outbox.closed && length < outbox.capacity
            &&& outbox.closed ==> result == Err::<(), _>(OutboxError::Closed)
            &&& !outbox.closed && length >= outbox.capacity ==> result == Err::<(), _>(
                OutboxError::Full,
            )
            &&& result is Err ==> after == outbox
            &&& result is Ok ==> {
                &&& after.entries.len() == length + 1
                &&& after.entries[length].message == message
                &&& after.entries[length].key is None
                &&& forall|index: int|
                    0 <= index < length ==> #[trigger] after.entries[index]
                        == outbox.entries[index]
            }
            &&& after.capacity == outbox.capacity
            &&& after.closed == outbox.closed
        }),
{
}

/// A message with a key replaces the one that waits with the same key, even where the outbox is
/// full. Without such a one it goes behind all others, where there is room.
pub proof fn lemma_latest_message_waits<C>(
    outbox: OutboxView<C>,
    key: u64,
    message: OutboundMessage<C>,
    place: int,
)
    requires
        outbox.is_orderly(),
        !outbox.closed,
    ensures
        ({
            let (after, result) = outbox.enqueued_latest(key, message);
            let length = outbox.entries.len() as int;
            &&& 0 <= place < length && outbox.entries[place].key == Some(key) ==> {
                &&& result is Ok
                &&& after.entries == outbox.entries.update(
                    place,
                    OutboundEntry { key: Some(key), message },
                )
            }
            &&& (forall|index: int|
                0 <= index < length ==> (#[trigger] outbox.entries[index]).key != Some(key)) ==> {
                &&& result is Ok <==> length < outbox.capacity
                &&& result is Ok ==> after.entries == outbox.entries.push(
                    OutboundEntry { key: Some(key), message },
                )
                &&& result is Err ==> after == outbox && result == Err::<(), _>(OutboxError::Full)
            }
            &&& after.capacity == outbox.capacity
            &&& !after.closed
        }),
{
    if 0 <= place < outbox.entries.len() && outbox.entries[place].key == Some(key) {
        assert(is_at(outbox.entries, key, place));
        assert(is_at(outbox.entries, key, outbox.place(key)));
    }
    if forall|index: int|
        0 <= index < outbox.entries.len() ==> (#[trigger] outbox.entries[index]).key != Some(key) {
        assert(!has_key(outbox.entries, key));
    }
}

/// A closed outbox refuses a message with a key too.
pub proof fn lemma_closed_outbox_takes_no_latest<C>(
    outbox: OutboxView<C>,
    key: u64,
    message: OutboundMessage<C>,
)
    requires
        outbox.closed,
    ensures
        outbox.enqueued_latest(key, message) == (outbox, Err::<(), _>(OutboxError::Closed)),
{
}

/// Once the first message is taken, the others stand one place further to the front, and
/// nothing else changes. After the writer failed none is left.
pub proof fn lemma_first_message_leaves<C>(outbox: OutboxView<C>)
    requires
        outbox.entries.len() > 0,
    ensures
        outbox.without_first().entries.len() == outbox.entries.len() - 1,
        forall|index: int|
            0 <= index < outbox.entries.len() - 1 ==> #[trigger] outbox.without_first().entries[index]
                == outbox.entries[index + 1],
        outbox.without_first().capacity == outbox.capacity,
        outbox.without_first().closed == outbox.closed,
        outbox.failed().entries.len() == 0,
        outbox.failed().closed,
        outbox.failed().capacity == outbox.capacity,
{
}

/// The messages that cannot be replaced are those without a key, and those that can are those
/// with one, each in the order in which they wait.
pub proof fn lemma_keys_tell_what_can_be_replaced<C>(entries: Seq<OutboundEntry<C>>)
    ensures
        reliable_messages(entries) == entries.filter(
            |entry: OutboundEntry<C>| entry.key is None,
        ).map_values(|entry: OutboundEntry<C>| entry.message),
        latest_messages(entries) == entries.filter(
            |entry: OutboundEntry<C>| entry.key is Some,
        ).map_values(|entry: OutboundEntry<C>| entry.message),
    decreases entries.len(),
{
    reveal(Seq::filter);
    let kept = |entry: OutboundEntry<C>| entry.key is None;
    let replaceable = |entry: OutboundEntry<C>| entry.key is Some;
    let content = |entry: OutboundEntry<C>| entry.message;
    if entries.len() == 0 {
        assert(entries.filter(kept).map_values(content) =~= Seq::empty());
        assert(entries.filter(replaceable).map_values(content) =~= Seq::empty());
    } else {
        let before = entries.drop_last();
        lemma_keys_tell_what_can_be_replaced(before);
        assert(reliable_messages(entries) =~= entries.filter(kept).map_values(content));
        assert(latest_messages(entries) =~= entries.filter(replaceable).map_values(content));
    }
}

/// Only what runs over WebRTC or over a web socket with TLS is secure by itself.
pub proof fn lemma_secure_transports(tls: bool)
    ensures
        StreamTransport::WebRtc.is_secure(),
        (StreamTransport::WebSocket { tls }).is_secure() <==> tls,
        !StreamTransport::Tcp.is_secure(),
{
}

/// Sending puts the message in the outbox and changes nothing else of the stream.
pub proof fn lemma_sending_fills_the_outbox<C>(stream: DuplexView<C>, message: OutboundMessage<C>)
    ensures
        ({
            let (after, result) = stream.sending(message);
            &&& (after.outbox, result) == stream.outbox.enqueued(message)
            &&& after.writer_error_channel_closed == stream.writer_error_channel_closed
            &&& after.secure_transport == stream.secure_transport
            &&& after.secured == stream.secured
        }),
{
}

} // verus!
