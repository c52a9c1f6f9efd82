//! The worker as a whole.
use crate::mqtt::{publication_of, state_json, Publication, PublicationModel};
use crate::pentair::decode::decoded;
use crate::pentair::laws::law_no_message_without_start_byte;
use crate::pentair::message::{MessageModel, PentairMessage};
use crate::pentair::packet::{big_endian, checksum, preamble, sealed, START_BYTE};
use crate::pool_worker::error::PentairError;
use crate::pool_worker::link::{
    finish_send, handle_message, incoming_step, link_wf, manage_outgoing, outgoing_step,
    process_package, sent_step, Outgoing, OutgoingModel, UartState,
};
use crate::pool_worker::queue::MessageQueue;
use crate::pool_worker::reader::{
    checked, fresh_reader, law_packet_is_read_whole, law_wrong_checksum_is_refused, lemma_read_part,
    read_step, PacketReader, ReaderModel, MAX_MID_PACKET_RETRIES,
};
use crate::pool_worker::scanner::{
    ends_with_header, header_inside, law_scan_ends_with_the_first_header,
    law_scanner_remembers_the_last_bytes, lemma_no_header_before, scan_step, scanned, HeaderScan,
    HeaderScanner,
};
use vstd::prelude::*;

verus! {

/// Ticks to wait in a read of the UART (approx. 50ms at a tick rate of 100Hz).
pub const UART_READ_TIMEOUT_TICKS: u32 = 5;

/// Milliseconds to sleep after each action but [`WorkerAction::ReadMore`].
pub const WORKER_LOOP_SLEEP: u64 = 10;

/// Reads packets, keeps track of the order under way, and says what to do.
pub struct PoolWorker {
    reading: bool,
    scanner: HeaderScanner,
    reader: PacketReader,
    link: UartState,
}

/// What is to be done after a read.
pub enum WorkerAction {
    /// Read on at once.
    ReadMore,
    /// The bus is free: see to the messages that go out.
    BusIdle,
    /// A message has come in. Publish the report, if there is one.
    Handled { message: PentairMessage, report: Option<Publication> },
    /// A packet has come in that holds no message.
    Discarded(PentairError),
    /// A packet could not be read.
    PacketFailed(PentairError),
    /// The UART failed between packets.
    ScanFailed(PentairError),
}

/// What a [`WorkerAction`] says.
#[verifier::ext_equal]
pub enum ActionModel {
    ReadMore,
    BusIdle,
    Handled { message: MessageModel, report: Option<PublicationModel> },
    Discarded(PentairError),
    PacketFailed(PentairError),
    ScanFailed(PentairError),
}

impl View for WorkerAction {
    type V = ActionModel;

    open spec fn view(&self) -> ActionModel {
        match *self {
            WorkerAction::ReadMore => ActionModel::ReadMore,
            WorkerAction::BusIdle => ActionModel::BusIdle,
            WorkerAction::Handled { message, report } => ActionModel::Handled {
                message: message@,
                report: match report {
                    Some(report) => Some(report@),
                    None => None,
                },
            },
            WorkerAction::Discarded(error) => ActionModel::Discarded(error),
            WorkerAction::PacketFailed(error) => ActionModel::PacketFailed(error),
            WorkerAction::ScanFailed(error) => ActionModel::ScanFailed(error),
        }
    }
}

/// What a [`PoolWorker`] knows: whether it reads a packet or looks for one, how far it has come
/// with either, and the order under way.
#[verifier::ext_equal]
pub struct WorkerModel {
    pub reading: bool,
    pub window: Seq<u8>,
    pub reader: ReaderModel,
    pub link: UartState,
}

/// A worker that looks for the next packet and has seen nothing of it.
pub open spec fn scanning(link: UartState) -> WorkerModel {
    WorkerModel { reading: false, window: Seq::empty(), reader: fresh_reader(), link }
}

/// What comes of the body of a packet: the link after it, and the action.
pub open spec fn packet_step(link: UartState, body: Seq<u8>) -> (UartState, ActionModel) {
    match decoded(body) {
        Some((message, _)) => (
            incoming_step(message, link),
            ActionModel::Handled { message, report: publication_of(message) },
        ),
        None => (link, ActionModel::Discarded(PentairError::InvalidMessage)),
    }
}

/// One step of the worker, from what a read brought.
pub open spec fn worker_step(worker: WorkerModel, read: Result<Option<u8>, PentairError>) -> (
    WorkerModel,
    ActionModel,
) {
    let link = worker.link;
    match read {
        Err(error) => (
            scanning(link),
            if worker.reading {
                ActionModel::PacketFailed(error)
            } else {
                ActionModel::ScanFailed(error)
            },
        ),
        Ok(read) => if worker.reading {
            let (reader, outcome) = read_step(worker.reader, read);
            match outcome {
                None => (WorkerModel { reader, ..worker }, ActionModel::ReadMore),
                Some(Err(error)) => (scanning(link), ActionModel::PacketFailed(error)),
                Some(Ok(body)) => {
                    let (link, action) = packet_step(link, body);
                    (scanning(link), action)
                },
            }
        } else {
            let (window, found) = scan_step(worker.window, read);
            match found {
                None => (WorkerModel { window, ..worker }, ActionModel::ReadMore),
                Some(HeaderScan::BusAvailable) => (
                    WorkerModel { window, ..worker },
                    ActionModel::BusIdle,
                ),
                Some(HeaderScan::GoodHeader) => (
                    WorkerModel { window, reading: true, ..worker },
                    ActionModel::ReadMore,
                ),
            }
        },
    }
}

/// What a turn of the worker's loop comes to.
#[verifier::ext_equal]
pub struct TurnModel {
    pub worker: WorkerModel,
    pub queue: Seq<PentairMessage>,
    pub action: ActionModel,
    pub outgoing: OutgoingModel,
}

/// One turn of the worker's loop. Messages go out only where the read says that the bus is free.
pub open spec fn turn_step(
    worker: WorkerModel,
    queue: Seq<PentairMessage>,
    read: Result<Option<u8>, PentairError>,
    now: u128,
) -> TurnModel {
    let (worker, action) = worker_step(worker, read);
    if action is BusIdle {
        let (queue, link, outgoing) = outgoing_step(queue, worker.link, now);
        TurnModel { worker: WorkerModel { link, ..worker }, queue, action, outgoing }
    } else {
        TurnModel { worker, queue, action, outgoing: OutgoingModel::Nothing }
    }
}

impl View for PoolWorker {
    type V = WorkerModel;

    closed spec fn view(&self) -> WorkerModel {
        WorkerModel {
            reading: self.reading,
            window: self.scanner.window(),
            reader: self.reader@,
            link: self.link,
        }
    }
}

impl PoolWorker {
    /// Scanner and reader are sound, and the one that is not at work has not begun.
    pub closed spec fn wf(&self) -> bool {
        &&& self.scanner.wf()
        &&& self.reader.wf()
        &&& self.reading ==> self.scanner.window() == Seq::<u8>::empty()
        &&& !self.reading ==> self.reader@ == fresh_reader()
    }

    /// A worker with nothing under way.
    pub fn new() -> (worker: Self)
        ensures
            worker.wf(),
            worker@ == scanning(UartState::Idle),
    {
        let worker = PoolWorker {
            reading: false,
            scanner: HeaderScanner::new(),
            reader: PacketReader::new(),
            link: UartState::Idle,
        };
        assert(worker@ =~= scanning(UartState::Idle));
        worker
    }

    /// Whether a header has gone by and the packet behind it is being read.
    pub fn is_reading(&self) -> (reading: bool)
        ensures
            reading == self@.reading,
    {
        self.reading
    }

    /// The order under way.
    pub fn link(&self) -> (link: &UartState)
        ensures
            *link == self@.link,
    {
        &self.link
    }

    /// Takes what a read of one byte brought, and says what to do about it.
    pub fn on_read(&mut self, read: Result<Option<u8>, PentairError>) -> (action: WorkerAction)
        requires
            old(self).wf(),
        ensures
            final(self).wf(),
            (final(self)@, action@) == worker_step(old(self)@, read),
    {
        let read: Option<u8> = match read {
            Ok(read) => read,
            Err(error) => {
                let was_reading: bool = self.reading;
                self.reading = false;
                self.scanner = HeaderScanner::new();
                self.reader = PacketReader::new();
                assert(self@ =~= scanning(old(self)@.link));
                return if was_reading {
                    WorkerAction::PacketFailed(error)
                } else {
                    WorkerAction::ScanFailed(error)
                };
            },
        };
        if self.reading {
            match self.reader.step(read) {
                None => WorkerAction::ReadMore,
                Some(Err(error)) => {
                    self.reading = false;
                    assert(self@ =~= scanning(old(self)@.link));
                    WorkerAction::PacketFailed(error)
                },
                Some(Ok(body)) => {
                    self.reading = false;
                    match process_package(&body) {
                        Ok(message) => {
                            let report: Option<Publication> = handle_message(
                                &message,
                                &mut self.link,
                            );
                            assert(self@ =~= scanning(packet_step(old(self)@.link, body@).0));
                            WorkerAction::Handled { message, report }
                        },
                        Err(error) => {
                            assert(self@ =~= scanning(old(self)@.link));
                            WorkerAction::Discarded(error)
                        },
                    }
                },
            }
        } else {
            match self.scanner.step(read) {
                None => WorkerAction::ReadMore,
                Some(HeaderScan::BusAvailable) => WorkerAction::BusIdle,
                Some(HeaderScan::GoodHeader) => {
                    self.reading = true;
                    WorkerAction::ReadMore
                },
            }
        }
    }

    /// Sees to the messages that go out. The bus is free: no byte of a packet has been seen.
    pub fn on_bus_idle(&mut self, queue: &mut MessageQueue, now: u128) -> (outgoing: Outgoing)
        requires
            old(self).wf(),
            !old(self)@.reading,
            old(self)@.window.len() == 0,
        ensures
            final(self).wf(),
            (final(queue)@, final(self)@.link, outgoing@) == outgoing_step(
                old(queue)@,
                old(self)@.link,
                now,
            ),
            final(self)@ == (WorkerModel { link: final(self)@.link, ..old(self)@ }),
    {
        manage_outgoing(queue, &mut self.link, now)
    }

    /// One turn of the worker's loop: takes what a read brought, and sees to the messages that go
    /// out if that says that the bus is free.
    pub fn turn(
        &mut self,
        read: Result<Option<u8>, PentairError>,
        queue: &mut MessageQueue,
        now: u128,
    ) -> (done: (WorkerAction, Outgoing))
        requires
            old(self).wf(),
        ensures
            final(self).wf(),
            (TurnModel {
                worker: final(self)@,
                queue: final(queue)@,
                action: done.0@,
                outgoing: done.1@,
            }) == turn_step(old(self)@, old(queue)@, read, now),
    {
        let action: WorkerAction = self.on_read(read);
        let outgoing: Outgoing = match action {
            WorkerAction::BusIdle => self.on_bus_idle(queue, now),
            _ => Outgoing::Nothing,
        };
        (action, outgoing)
    }

    /// Takes note of a first attempt to send `message`, and of whether it was written.
    pub fn on_sent(&mut self, message: PentairMessage, written: bool, now: u128)
        requires
            old(self).wf(),
        ensures
            final(self).wf(),
            final(self)@ == (WorkerModel {
                link: sent_step(old(self)@.link, message, written, now),
                ..old(self)@
            }),
    {
        finish_send(&mut self.link, message, written, now);
    }
}

/// A worker that has read `bytes`, and the action after the last of them.
pub open spec fn worker_after(worker: WorkerModel, bytes: Seq<u8>) -> (WorkerModel, ActionModel)
    decreases bytes.len(),
{
    if bytes.len() == 0 {
        (worker, ActionModel::ReadMore)
    } else {
        worker_step(worker_after(worker, bytes.drop_last()).0, Ok(Some(bytes.last())))
    }
}

/// While no header has gone by, the worker scans.
proof fn lemma_worker_scans(link: UartState, bytes: Seq<u8>)
    requires
        !header_inside(bytes),
        !ends_with_header(bytes),
    ensures
        worker_after(scanning(link), bytes) == (
            WorkerModel { window: scanned(bytes), ..scanning(link) },
            ActionModel::ReadMore,
        ),
    decreases bytes.len(),
{
    if bytes.len() == 0 {
        assert(bytes =~= Seq::<u8>::empty());
    } else {
        let before = bytes.drop_last();
        lemma_no_header_before(bytes);
        lemma_worker_scans(link, before);
        law_scan_ends_with_the_first_header(bytes);
    }
}

/// With the last byte of a header the worker starts to read.
proof fn lemma_worker_finds_header(link: UartState, bytes: Seq<u8>)
    requires
        !header_inside(bytes),
        ends_with_header(bytes),
    ensures
        worker_after(scanning(link), bytes) == (
            WorkerModel { reading: true, ..scanning(link) },
            ActionModel::ReadMore,
        ),
{
    lemma_no_header_before(bytes);
    lemma_worker_scans(link, bytes.drop_last());
    law_scan_ends_with_the_first_header(bytes);
    let (worker, _) = worker_after(scanning(link), bytes);
    assert(worker =~= WorkerModel { reading: true, ..scanning(link) });
}

/// Behind a header the worker reads on until the packet is complete.
proof fn lemma_worker_reads(link: UartState, header: Seq<u8>, packet: Seq<u8>, n: int)
    requires
        !header_inside(header),
        ends_with_header(header),
        packet.len() >= 5,
        packet.len() == 5 + packet[4] + 2,
        0 <= n < packet.len(),
    ensures
        worker_after(scanning(link), header + packet.take(n)) == (
            WorkerModel {
                reading: true,
                reader: ReaderModel { received: packet.take(n), pauses: 0 },
                ..scanning(link)
            },
            ActionModel::ReadMore,
        ),
    decreases n,
{
    let bytes = header + packet.take(n);
    if n == 0 {
        assert(bytes =~= header);
        lemma_worker_finds_header(link, header);
        assert(packet.take(0) =~= Seq::<u8>::empty());
    } else {
        lemma_worker_reads(link, header, packet, n - 1);
        assert(bytes.drop_last() =~= header + packet.take(n - 1));
        lemma_read_part(packet, n);
        lemma_read_part(packet, n - 1);
        assert(packet.take(n).drop_last() =~= packet.take(n - 1));
        assert(bytes.last() == packet.take(n).last());
    }
}

/// A packet on the bus, behind any bytes in which no header goes by, is read to its end without
/// any other action, and with its last byte the worker acts on its body. Then it is ready for
/// the next packet.
pub proof fn law_packet_is_acted_on(link: UartState, noise: Seq<u8>, body: Seq<u8>)
    requires
        !header_inside(noise + preamble()),
        body.len() >= 5,
        body.len() == 5 + body[4],
    ensures
        ({
            let bytes = noise + sealed(body);
            let (after, action) = packet_step(link, body);
            &&& worker_after(scanning(link), bytes) == (scanning(after), action)
            &&& forall|n: int|
                0 <= n < bytes.len() ==> (#[trigger] worker_after(scanning(link), bytes.take(n))).1
                    == ActionModel::ReadMore
        }),
{
    let bytes = noise + sealed(body);
    let header = noise + preamble();
    let packet = body + big_endian(checksum(seq![START_BYTE] + body));
    assert(bytes =~= header + packet);
    assert(header.skip(header.len() - 4) =~= preamble());
    let n = packet.len() - 1;
    lemma_worker_reads(link, header, packet, n);
    assert(bytes.drop_last() =~= header + packet.take(n));
    law_packet_is_read_whole(packet);
    lemma_read_part(packet, n);
    assert(packet.drop_last() =~= packet.take(n));
    assert(packet.take(packet.len() - 2) =~= body);
    assert(checked(packet) == Ok::<Seq<u8>, PentairError>(body));
    assert(bytes.last() == packet.last());
    assert forall|k: int| 0 <= k < bytes.len() implies (#[trigger] worker_after(
        scanning(link),
        bytes.take(k),
    )).1 == ActionModel::ReadMore by {
        if k < header.len() {
            let part = bytes.take(k);
            assert(part =~= header.take(k));
            assert(!ends_with_header(header.take(k)));
            assert forall|j: int| 0 <= j < part.len() implies !ends_with_header(
                #[trigger] part.take(j),
            ) by {
                assert(part.take(j) =~= header.take(j));
            }
            lemma_worker_scans(link, part);
        } else {
            lemma_worker_reads(link, header, packet, k - header.len());
            assert(bytes.take(k) =~= header + packet.take(k - header.len()));
        }
    }
}

/// The message is looked for within the body: one without a start byte holds none, and the
/// packet is discarded.
pub proof fn law_body_without_start_byte_is_discarded(link: UartState, body: Seq<u8>)
    requires
        !body.contains(START_BYTE),
    ensures
        packet_step(link, body) == (link, ActionModel::Discarded(PentairError::InvalidMessage)),
{
    law_no_message_without_start_byte(body);
}

/// Whatever is read, only orders are waited for, and none is repeated too often.
pub proof fn law_reading_keeps_the_link_well_formed(
    worker: WorkerModel,
    read: Result<Option<u8>, PentairError>,
)
    requires
        link_wf(worker.link),
    ensures
        link_wf(worker_step(worker, read).0.link),
{
}

/// A short pause between two bytes makes no difference to what the worker does next.
pub proof fn law_short_pause_makes_no_difference(worker: WorkerModel, byte: u8)
    requires
        worker.reading ==> worker.reader.pauses + 1 < MAX_MID_PACKET_RETRIES,
        !worker.reading ==> worker.window.len() > 0,
    ensures
        ({
            let (waited, action) = worker_step(worker, Ok(None));
            &&& action == ActionModel::ReadMore
            &&& worker_step(waited, Ok(Some(byte))) == worker_step(worker, Ok(Some(byte)))
        }),
{
}

/// The bus counts as free exactly when a read brings nothing and no byte of a packet has been
/// seen. Finding that out changes nothing.
pub proof fn law_bus_is_free_only_between_packets(
    worker: WorkerModel,
    read: Result<Option<u8>, PentairError>,
)
    ensures
        worker_step(worker, read).1 is BusIdle <==> {
            &&& read == Ok::<Option<u8>, PentairError>(None)
            &&& !worker.reading
            &&& worker.window.len() == 0
        },
        worker_step(worker, read).1 is BusIdle ==> worker_step(worker, read).0 == worker,
{
}

/// Whether bytes are to be written.
pub open spec fn writes(outgoing: OutgoingModel) -> bool {
    outgoing is Send || outgoing is Resend
}

/// Bytes go out, messages leave the queue and an order is given up only in a turn that finds the
/// bus free.
pub proof fn law_nothing_goes_out_unless_the_bus_is_free(
    worker: WorkerModel,
    queue: Seq<PentairMessage>,
    read: Result<Option<u8>, PentairError>,
    now: u128,
)
    ensures
        ({
            let turn = turn_step(worker, queue, read, now);
            &&& writes(turn.outgoing) ==> turn.action is BusIdle
            &&& !(turn.action is BusIdle) ==> {
                &&& turn.outgoing == OutgoingModel::Nothing
                &&& turn.queue == queue
            }
        }),
{
}

/// Whether something failed: the UART, the reading of a packet, its checksum or its decoding.
pub open spec fn failed(action: ActionModel) -> bool {
    action is ScanFailed || action is PacketFailed || action is Discarded
}

/// A failure of any kind changes neither the order under way nor the queue, publishes and sends
/// nothing, and leaves the worker looking for the next packet.
pub proof fn law_failure_changes_nothing(
    worker: WorkerModel,
    queue: Seq<PentairMessage>,
    read: Result<Option<u8>, PentairError>,
    now: u128,
)
    requires
        failed(turn_step(worker, queue, read, now).action),
    ensures
        ({
            let turn = turn_step(worker, queue, read, now);
            &&& turn.worker == scanning(worker.link)
            &&& turn.queue == queue
            &&& turn.outgoing == OutgoingModel::Nothing
            &&& !(turn.action is Handled)
        }),
{
}

/// What comes of a packet whose checksum is right: the message in its body, if there is one, is
/// handed on, a state is reported, and an acknowledgement ends the order under way. Nothing else
/// touches that order.
pub proof fn law_body_decides_what_is_done(link: UartState, body: Seq<u8>)
    ensures
        match (decoded(body), packet_step(link, body)) {
            (Some((found, _)), (after, ActionModel::Handled { message, report })) => {
                &&& message == found
                &&& found is CircuitChangeResponse ==> after is Idle
                &&& !(found is CircuitChangeResponse) ==> after == link
                &&& match (found, report) {
                    (MessageModel::Status(state), Some(report)) => {
                        &&& report.topic == "pool/state"@
                        &&& report.payload == state_json(state)
                    },
                    (MessageModel::Status(_), None) => false,
                    (_, report) => report is None,
                }
            },
            (None, (after, ActionModel::Discarded(error))) => {
                &&& after == link
                &&& error == PentairError::InvalidMessage
            },
            _ => false,
        },
{
}

/// A packet with a wrong checksum is read to its end and refused, whatever it holds. The order
/// under way stays, and the worker looks for the next packet.
pub proof fn law_wrong_checksum_fails_the_packet(
    link: UartState,
    noise: Seq<u8>,
    body: Seq<u8>,
    high: u8,
    low: u8,
)
    requires
        !header_inside(noise + seq![0xFFu8, 0x00u8, 0xFFu8, 0xA5u8]),
        body.len() >= 5,
        body.len() == 5 + body[4],
        checksum(seq![0xA5u8] + body) != 256 * high + low,
    ensures
        worker_after(
            scanning(link),
            noise + seq![0xFFu8, 0x00u8, 0xFFu8, 0xA5u8] + body + seq![high, low],
        ) == (scanning(link), ActionModel::PacketFailed(PentairError::CrcError)),
{
    let header = noise + preamble();
    let packet = body + seq![high, low];
    let bytes = noise + seq![0xFFu8, 0x00u8, 0xFFu8, 0xA5u8] + body + seq![high, low];
    assert(bytes =~= header + packet);
    assert(header.skip(header.len() - 4) =~= preamble());
    let n = packet.len() - 1;
    lemma_worker_reads(link, header, packet, n);
    assert(bytes.drop_last() =~= header + packet.take(n));
    law_wrong_checksum_is_refused(body, high, low);
    lemma_read_part(packet, n);
    assert(packet.drop_last() =~= packet.take(n));
    assert(bytes.last() == packet.last());
}

/// Each read that brings nothing in the middle of a packet counts, and changes nothing else. The
/// fortieth in a row ends the packet: the order under way stays, and the worker looks for the next
/// packet.
pub proof fn law_stalled_packet_is_given_up(worker: WorkerModel)
    requires
        worker.reading,
        worker.reader.pauses < 40,
    ensures
        worker.reader.pauses < 39 ==> {
            let (after, action) = worker_step(worker, Ok(None));
            &&& action is ReadMore
            &&& after.reading
            &&& after.reader.pauses == worker.reader.pauses + 1
            &&& after.reader.received == worker.reader.received
            &&& after.window == worker.window
            &&& after.link == worker.link
        },
        worker.reader.pauses == 39 ==> worker_step(worker, Ok(None)) == (
            scanning(worker.link),
            ActionModel::PacketFailed(PentairError::Timeout),
        ),
{
}

/// A failure of the UART is reported with its error, and as what it interrupted. The order under
/// way stays, and the worker looks for the next packet.
pub proof fn law_uart_failure_is_reported(worker: WorkerModel, error: PentairError)
    ensures
        ({
            let (after, action) = worker_step(worker, Err(error));
            &&& after == scanning(worker.link)
            &&& worker.reading ==> action == ActionModel::PacketFailed(error)
            &&& !worker.reading ==> action == ActionModel::ScanFailed(error)
        }),
{
}

/// A worker that looks for the next packet has seen nothing of it yet.
pub proof fn law_looking_for_a_packet_starts_from_nothing(link: UartState)
    ensures
        !scanning(link).reading,
        scanning(link).window.len() == 0,
        scanning(link).reader.received.len() == 0,
        scanning(link).reader.pauses == 0,
        scanning(link).link == link,
{
}

/// Once a byte has gone by, the bus is not free until a header has, however long the pause.
pub proof fn law_bus_is_not_free_behind_a_byte(link: UartState, bytes: Seq<u8>)
    requires
        bytes.len() > 0,
        !header_inside(bytes),
        !ends_with_header(bytes),
    ensures
        ({
            let worker = worker_after(scanning(link), bytes).0;
            worker_step(worker, Ok(None)) == (worker, ActionModel::ReadMore)
        }),
{
    lemma_worker_scans(link, bytes);
    law_scanner_remembers_the_last_bytes(bytes);
}

/// A turn that finds the bus free does for the link what is due at that time, and nothing else.
pub proof fn law_free_bus_is_used(
    link: UartState,
    queue: Seq<PentairMessage>,
    now: u128,
)
    ensures
        ({
            let turn = turn_step(scanning(link), queue, Ok(None), now);
            let (left, next, outgoing) = outgoing_step(queue, link, now);
            &&& turn.action is BusIdle
            &&& turn.queue == left
            &&& turn.outgoing == outgoing
            &&& turn.worker == scanning(next)
        }),
{
}

/// A turn does with the worker what its read says, and where the bus is not free it does no more.
pub proof fn law_busy_turn_only_reads(
    worker: WorkerModel,
    queue: Seq<PentairMessage>,
    read: Result<Option<u8>, PentairError>,
    now: u128,
)
    ensures
        ({
            let turn = turn_step(worker, queue, read, now);
            let (after, action) = worker_step(worker, read);
            &&& turn.action == action
            &&& !(action is BusIdle) ==> turn.worker == after
        }),
{
}

/// A stalled sender is waited for about two seconds: forty reads of five ticks, a hundred of
/// which make a second. The worker rests for ten milliseconds between two rounds.
pub proof fn law_timing()
    ensures
        MAX_MID_PACKET_RETRIES * UART_READ_TIMEOUT_TICKS * 10 == 2000,
        MAX_MID_PACKET_RETRIES == 40,
        WORKER_LOOP_SLEEP == 10,
{
}

/// What an action and its model say is the same.
pub proof fn law_model_says_what_the_action_says(action: WorkerAction)
    ensures
        match (action, action@) {
            (WorkerAction::ReadMore, ActionModel::ReadMore) => true,
            (WorkerAction::BusIdle, ActionModel::BusIdle) => true,
            (
                WorkerAction::Handled { message, report },
                ActionModel::Handled { message: m, report: r },
            ) => message@ == m && match (report, r) {
                (Some(report), Some(r)) => report@ == r,
                (None, None) => true,
                _ => false,
            },
            (WorkerAction::Discarded(a), ActionModel::Discarded(b)) => a == b,
            (WorkerAction::PacketFailed(a), ActionModel::PacketFailed(b)) => a == b,
            (WorkerAction::ScanFailed(a), ActionModel::ScanFailed(b)) => a == b,
            _ => false,
        },
{
}

} // verus!
