//! Reading a packet once its header has gone by.
use crate::pentair::laws::law_checksum_notices_one_wrong_byte;
use crate::pentair::packet::{
    big_endian, byte_sum, checksum, from_big_endian, join_bytes, sum_bytes, START_BYTE,
};
use crate::pool_worker::error::PentairError;
use vstd::prelude::*;

verus! {

/// How many consecutive read timeouts we tolerate in the middle of a packet before giving up on
/// it (about two seconds). Guards against a sender that stops transmitting partway through a
/// frame.
pub const MAX_MID_PACKET_RETRIES: u32 = 40;

/// Collects the remainder of a packet (past the header) and validates its checksum.
pub struct PacketReader {
    received: Vec<u8>,
    pauses: u32,
}

/// How far a [`PacketReader`] has come: the bytes received, and the pauses since the last one.
#[verifier::ext_equal]
pub struct ReaderModel {
    pub received: Seq<u8>,
    pub pauses: nat,
}

/// A reader that has received nothing.
pub open spec fn fresh_reader() -> ReaderModel {
    ReaderModel { received: Seq::empty(), pauses: 0 }
}

/// Whether bytes are missing. Five bytes come first (protocol, destination, source, command,
/// length), then as many as the fifth says, then two bytes of checksum.
pub open spec fn incomplete(received: Seq<u8>) -> bool {
    received.len() < 5 || received.len() < 5 + received[4] + 2
}

/// The body of a packet that is complete, if its checksum is right. The start byte in the header
/// counts too.
pub open spec fn checked(received: Seq<u8>) -> Result<Seq<u8>, PentairError> {
    let n = received.len() as int;
    let body = received.take(n - 2);
    if checksum(seq![START_BYTE] + body) == from_big_endian(received[n - 2], received[n - 1]) {
        Ok(body)
    } else {
        Err(PentairError::CrcError)
    }
}

/// One step of reading: what the reader has then, and what the reading comes to, if it is over.
pub open spec fn read_step(reader: ReaderModel, read: Option<u8>) -> (
    ReaderModel,
    Option<Result<Seq<u8>, PentairError>>,
) {
    match read {
        None => if reader.pauses + 1 >= MAX_MID_PACKET_RETRIES {
            (fresh_reader(), Some(Err(PentairError::Timeout)))
        } else {
            (ReaderModel { pauses: reader.pauses + 1, ..reader }, None)
        },
        Some(byte) => {
            let received = reader.received.push(byte);
            if incomplete(received) {
                (ReaderModel { received, pauses: 0 }, None)
            } else {
                (fresh_reader(), Some(checked(received)))
            }
        },
    }
}

/// What a finished reading says.
pub open spec fn reading(outcome: Option<Result<Vec<u8>, PentairError>>) -> Option<
    Result<Seq<u8>, PentairError>,
> {
    match outcome {
        Some(Ok(body)) => Some(Ok(body@)),
        Some(Err(error)) => Some(Err(error)),
        None => None,
    }
}

impl View for PacketReader {
    type V = ReaderModel;

    closed spec fn view(&self) -> ReaderModel {
        ReaderModel { received: self.received@, pauses: self.pauses as nat }
    }
}

/// The first byte counts like the others.
pub proof fn lemma_byte_sum_first(first: u8, rest: Seq<u8>)
    ensures
        byte_sum(seq![first] + rest) == first + byte_sum(rest),
    decreases rest.len(),
{
    let all = seq![first] + rest;
    if rest.len() == 0 {
        assert(all.drop_last() =~= rest);
    } else {
        assert(all.drop_last() =~= seq![first] + rest.drop_last());
        lemma_byte_sum_first(first, rest.drop_last());
    }
}

impl PacketReader {
    /// Something is missing still, and the reader has not given up.
    pub open spec fn wf(&self) -> bool {
        &&& incomplete(self@.received)
        &&& self@.pauses < MAX_MID_PACKET_RETRIES
    }

    /// A reader that has received nothing.
    pub fn new() -> (reader: Self)
        ensures
            reader.wf(),
            reader@ == fresh_reader(),
    {
        let reader = PacketReader { received: Vec::new(), pauses: 0 };
        assert(reader@ =~= fresh_reader());
        reader
    }

    /// Takes what a read brought. When the reading is over, with the body of a packet or an
    /// error, the reader starts anew.
    pub fn step(&mut self, read: Option<u8>) -> (outcome: Option<Result<Vec<u8>, PentairError>>)
        requires
            old(self).wf(),
        ensures
            final(self).wf(),
            (final(self)@, reading(outcome)) == read_step(old(self)@, read),
    {
        let byte: u8 = match read {
            Some(byte) => byte,
            None => {
                self.pauses = self.pauses + 1;
                if self.pauses >= MAX_MID_PACKET_RETRIES {
                    *self = PacketReader::new();
                    return Some(Err(PentairError::Timeout));
                }
                return None;
            },
        };
        self.received.push(byte);
        self.pauses = 0;
        let n: usize = self.received.len();
        if n < 5 || n < 5 + self.received[4] as usize + 2 {
            return None;
        }
        let ghost received = self.received@;
        let stated: u16 = join_bytes(self.received[n - 2], self.received[n - 1]);
        let mut body: Vec<u8> = Vec::new();
        std::mem::swap(&mut body, &mut self.received);
        body.truncate(n - 2);
        assert(body@ =~= received.take(n - 2));
        assert(self@ =~= fresh_reader());
        proof {
            lemma_byte_sum_first(START_BYTE, body@);
        }
        if sum_bytes(&body).wrapping_add(START_BYTE as u16) == stated {
            Some(Ok(body))
        } else {
            Some(Err(PentairError::CrcError))
        }
    }
}

/// A reader that has taken `bytes`, and what it comes to with the last of them.
pub open spec fn read_all(reader: ReaderModel, bytes: Seq<u8>) -> (
    ReaderModel,
    Option<Result<Seq<u8>, PentairError>>,
)
    decreases bytes.len(),
{
    if bytes.len() == 0 {
        (reader, None)
    } else {
        read_step(read_all(reader, bytes.drop_last()).0, Some(bytes.last()))
    }
}

/// Before the last byte of a packet the reader just keeps what it has received.
pub proof fn lemma_read_part(packet: Seq<u8>, n: int)
    requires
        packet.len() >= 5,
        packet.len() == 5 + packet[4] + 2,
        0 <= n < packet.len(),
    ensures
        read_all(fresh_reader(), packet.take(n)) == (
            ReaderModel { received: packet.take(n), pauses: 0 },
            None::<Result<Seq<u8>, PentairError>>,
        ),
    decreases n,
{
    let part = packet.take(n);
    if n == 0 {
        assert(part =~= Seq::<u8>::empty());
    } else {
        lemma_read_part(packet, n - 1);
        assert(part.drop_last() =~= packet.take(n - 1));
        assert(packet.take(n - 1).push(part.last()) =~= part);
        if n > 4 {
            assert(part[4] == packet[4]);
        }
    }
}

/// A packet is read up to its last byte and no further, and it is its checksum that decides.
pub proof fn law_packet_is_read_whole(packet: Seq<u8>)
    requires
        packet.len() >= 5,
        packet.len() == 5 + packet[4] + 2,
    ensures
        forall|n: int|
            0 <= n < packet.len() ==> (#[trigger] read_all(fresh_reader(), packet.take(n))).1
                is None,
        read_all(fresh_reader(), packet) == (fresh_reader(), Some(checked(packet))),
{
    assert forall|n: int| 0 <= n < packet.len() implies (#[trigger] read_all(
        fresh_reader(),
        packet.take(n),
    )).1 is None by {
        lemma_read_part(packet, n);
    }
    let n = packet.len() - 1;
    lemma_read_part(packet, n);
    assert(packet.drop_last() =~= packet.take(n));
    assert(packet.take(n).push(packet.last()) =~= packet);
}

/// A body with the checksum that is sent behind it comes out as it was.
pub proof fn law_sent_body_is_received(body: Seq<u8>)
    requires
        body.len() >= 5,
        body.len() == 5 + body[4],
    ensures
        read_all(
            fresh_reader(),
            body + big_endian(checksum(seq![START_BYTE] + body)),
        ).1 == Some(Ok::<Seq<u8>, PentairError>(body)),
{
    let packet = body + big_endian(checksum(seq![START_BYTE] + body));
    law_packet_is_read_whole(packet);
    assert(packet.take(packet.len() - 2) =~= body);
}

/// A reader after `n` pauses in a row.
pub open spec fn after_pauses(reader: ReaderModel, n: nat) -> ReaderModel
    decreases n,
{
    if n == 0 {
        reader
    } else {
        read_step(after_pauses(reader, (n - 1) as nat), None).0
    }
}

/// Fewer than forty pauses in a row between two bytes make no difference to what is read, and
/// the fortieth ends the reading.
pub proof fn law_short_pauses_are_tolerated(received: Seq<u8>, n: nat, byte: u8)
    requires
        n < MAX_MID_PACKET_RETRIES,
    ensures
        ({
            let reader = ReaderModel { received, pauses: 0 };
            let waited = after_pauses(reader, n);
            &&& waited == ReaderModel { received, pauses: n }
            &&& read_step(waited, Some(byte)) == read_step(reader, Some(byte))
            &&& read_step(waited, None).1 == if n + 1 == MAX_MID_PACKET_RETRIES {
                Some(Err::<Seq<u8>, PentairError>(PentairError::Timeout))
            } else {
                None
            }
        }),
    decreases n,
{
    if n > 0 {
        law_short_pauses_are_tolerated(received, (n - 1) as nat, byte);
    }
}

/// It is the checksum that decides, whatever the packet holds: where the last two bytes are that
/// of start byte and body, the body is received, and where they are not, the packet is refused.
/// Either way the reader starts anew.
pub proof fn law_wrong_checksum_is_refused(body: Seq<u8>, high: u8, low: u8)
    requires
        body.len() >= 5,
        body.len() == 5 + body[4],
    ensures
        read_all(fresh_reader(), body + seq![high, low]) == (
            fresh_reader(),
            Some(
                if checksum(seq![0xA5u8] + body) == 256 * high + low {
                    Ok::<Seq<u8>, PentairError>(body)
                } else {
                    Err::<Seq<u8>, PentairError>(PentairError::CrcError)
                },
            ),
        ),
{
    let packet = body + seq![high, low];
    law_packet_is_read_whole(packet);
    assert(packet.take(packet.len() - 2) =~= body);
}

/// A packet in which one byte was damaged on the line is refused, whichever it was, unless it was
/// the length byte, which decides where the checksum stands.
pub proof fn law_damaged_packet_is_refused(body: Seq<u8>, high: u8, low: u8, j: int, b: u8)
    requires
        body.len() >= 5,
        body.len() == 5 + body[4],
        checksum(seq![0xA5u8] + body) == 256 * high + low,
        0 <= j < body.len() + 2,
        j != 4,
        b != (body + seq![high, low])[j],
    ensures
        read_all(fresh_reader(), (body + seq![high, low]).update(j, b)).1 == Some(
            Err::<Seq<u8>, PentairError>(PentairError::CrcError),
        ),
{
    let packet = body + seq![high, low];
    let n = body.len() as int;
    if j < n {
        let damaged = body.update(j, b);
        assert(packet.update(j, b) =~= damaged + seq![high, low]);
        let summed = seq![0xA5u8] + body;
        assert(seq![0xA5u8] + damaged =~= summed.update(j + 1, b));
        law_checksum_notices_one_wrong_byte(summed, j + 1, b);
        law_wrong_checksum_is_refused(damaged, high, low);
    } else if j == n {
        assert(packet.update(j, b) =~= body + seq![b, low]);
        law_wrong_checksum_is_refused(body, b, low);
    } else {
        assert(packet.update(j, b) =~= body + seq![high, b]);
        law_wrong_checksum_is_refused(body, high, b);
    }
}

/// A sender that stalls is waited for through thirty-nine reads that bring nothing, with all that
/// it has sent kept. The fortieth in a row ends the reading, and the reader starts anew.
pub proof fn law_fortieth_pause_ends_the_reading(received: Seq<u8>, n: nat)
    requires
        n < 40,
    ensures
        ({
            let waiting = after_pauses(ReaderModel { received, pauses: 0 }, n);
            let (next, outcome) = read_step(waiting, None);
            &&& waiting.received == received
            &&& n < 39 ==> outcome is None && next.received == received
            &&& n == 39 ==> outcome == Some(Err::<Seq<u8>, PentairError>(PentairError::Timeout))
            &&& n == 39 ==> next.received.len() == 0 && next.pauses == 0
        }),
{
    law_short_pauses_are_tolerated(received, n, 0);
}

/// Each byte starts the waiting over: what comes of it does not depend on the pauses before it.
pub proof fn law_byte_ends_the_waiting(received: Seq<u8>, p: nat, q: nat, byte: u8)
    ensures
        read_step(ReaderModel { received, pauses: p }, Some(byte)) == read_step(
            ReaderModel { received, pauses: q },
            Some(byte),
        ),
        read_step(ReaderModel { received, pauses: p }, Some(byte)).0.pauses == 0,
{
}

/// A new reader has received nothing and waited for nothing.
pub proof fn law_new_reader_has_nothing()
    ensures
        fresh_reader().received.len() == 0,
        fresh_reader().pauses == 0,
{
}

/// What a reading comes to and its model are the same.
pub proof fn law_model_says_what_the_reading_says(outcome: Option<Result<Vec<u8>, PentairError>>)
    ensures
        match (outcome, reading(outcome)) {
            (Some(Ok(body)), Some(Ok(model))) => body@ == model,
            (Some(Err(error)), Some(Err(model))) => error == model,
            (None, None) => true,
            _ => false,
        },
{
}

} // verus!
