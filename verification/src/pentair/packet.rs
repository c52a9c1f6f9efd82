//! The frame every message travels in: a four byte preamble, a body, and a 16 bit checksum.
use vstd::prelude::*;

verus! {

/// The last byte of the preamble, and the first one that the checksum covers.
pub const START_BYTE: u8 = 0xA5;

/// The four bytes every packet starts with.
pub open spec fn preamble() -> Seq<u8> {
    seq![0xFFu8, 0x00u8, 0xFFu8, START_BYTE]
}

/// The sum of all bytes of `s`.
pub open spec fn byte_sum(s: Seq<u8>) -> nat
    decreases s.len(),
{
    if s.len() == 0 {
        0
    } else {
        byte_sum(s.drop_last()) + s.last() as nat
    }
}

/// The checksum of `s`: the sum of its bytes, modulo 2^16.
pub open spec fn checksum(s: Seq<u8>) -> u16 {
    (byte_sum(s) % 0x1_0000) as u16
}

/// The two bytes of `v`, high byte first.
pub open spec fn big_endian(v: u16) -> Seq<u8> {
    seq![(v / 256) as u8, (v % 256) as u8]
}

/// The number that two bytes make, high byte first.
pub open spec fn from_big_endian(high: u8, low: u8) -> u16 {
    (high * 256 + low) as u16
}

/// The packet with the given body. The checksum covers the body and the start byte before it.
pub open spec fn sealed(body: Seq<u8>) -> Seq<u8> {
    preamble() + body + big_endian(checksum(seq![START_BYTE] + body))
}

/// The body of a packet: protocol, destination, source, command, payload length and payload.
/// The length is one byte wide, so it is the length modulo 256 that is sent.
pub open spec fn packet_body(
    protocol: u8,
    dest: u8,
    source: u8,
    command: u8,
    data: Seq<u8>,
) -> Seq<u8> {
    seq![protocol, dest, source, command, (data.len() % 256) as u8] + data
}

/// The checksum of `bytes`.
pub fn sum_bytes(bytes: &[u8]) -> (sum: u16)
    ensures
        sum == checksum(bytes@),
{
    let mut sum: u16 = 0;
    let mut i: usize = 0;
    while i < bytes.len()
        invariant
            i <= bytes.len(),
            sum == checksum(bytes@.take(i as int)),
        decreases bytes.len() - i,
    {
        assert(bytes@.take(i + 1).drop_last() =~= bytes@.take(i as int));
        sum = sum.wrapping_add(bytes[i] as u16);
        i += 1;
    }
    assert(bytes@.take(bytes.len() as int) =~= bytes@);
    sum
}

/// The number that two bytes make, high byte first.
pub fn join_bytes(high: u8, low: u8) -> (v: u16)
    ensures
        v == from_big_endian(high, low),
{
    assert((((high as u16) << 8) | (low as u16)) == high * 256 + low) by (bit_vector);
    ((high as u16) << 8) | (low as u16)
}

/// Puts the preamble before `body` and the checksum behind it.
pub fn seal_packet(body: &[u8]) -> (packet: Vec<u8>)
    ensures
        packet@ == sealed(body@),
{
    let mut packet: Vec<u8> = vec![0xFF, 0x00, 0xFF, START_BYTE];
    packet.extend_from_slice(body);
    let sum: u16 = sum_bytes(&packet[3..packet.len()]);
    assert(packet@.subrange(3, packet@.len() as int) =~= seq![START_BYTE] + body@);
    let high: u8 = (sum >> 8) as u8;
    let low: u8 = (sum & 0xFF) as u8;
    assert((sum >> 8) as u8 == sum / 256) by (bit_vector);
    assert((sum & 0xFF) as u8 == sum % 256) by (bit_vector);
    packet.push(high);
    packet.push(low);
    assert(packet@ =~= sealed(body@));
    packet
}

/// Helper function to build a standard Pentair automation packet with header, lengths, and
/// checksums.
pub fn encode_pentair_packet(
    protocol: u8,
    dest: u8,
    source: u8,
    command: u8,
    data: &[u8],
) -> (packet: Vec<u8>)
    ensures
        packet@ == sealed(packet_body(protocol, dest, source, command, data@)),
{
    let len: usize = data.len();
    let mut body: Vec<u8> = vec![protocol, dest, source, command, len as u8];
    assert(len as u8 == len % 256) by (bit_vector);
    body.extend_from_slice(data);
    assert(body@ =~= packet_body(protocol, dest, source, command, data@));
    seal_packet(&body)
}

proof fn lemma_byte_sum_join(a: Seq<u8>, b: Seq<u8>)
    ensures
        byte_sum(a + b) == byte_sum(a) + byte_sum(b),
    decreases b.len(),
{
    if b.len() == 0 {
        assert(a + b =~= a);
    } else {
        assert((a + b).drop_last() =~= a + b.drop_last());
        lemma_byte_sum_join(a, b.drop_last());
    }
}

/// Checksums add up, modulo 2^16: that of one byte is the byte itself, and that of two pieces
/// put together is the sum of theirs.
pub proof fn law_checksums_add_up(byte: u8, a: Seq<u8>, b: Seq<u8>)
    ensures
        checksum(Seq::<u8>::empty()) == 0,
        checksum(seq![byte]) == byte,
        checksum(a + b) == (checksum(a) + checksum(b)) % 65536,
{
    assert(seq![byte].drop_last() =~= Seq::<u8>::empty());
    assert(byte_sum(Seq::<u8>::empty()) == 0);
    assert(byte_sum(seq![byte]) == byte);
    lemma_byte_sum_join(a, b);
}

/// Two bytes make the number that they stand for in base 256, and a number parts into the two
/// bytes that make it.
pub proof fn law_high_byte_comes_first(high: u8, low: u8)
    ensures
        from_big_endian(high, low) == 256 * high + low,
        big_endian(from_big_endian(high, low)) == seq![high, low],
{
    assert(big_endian(from_big_endian(high, low)) =~= seq![high, low]);
}

/// Where everything stands in a packet: the four bytes of the preamble, the body byte by byte,
/// and the checksum of start byte and body, high byte first.
pub proof fn law_layout_of_a_packet(body: Seq<u8>)
    ensures
        ({
            let packet = sealed(body);
            let n = packet.len() as int;
            &&& n == body.len() + 6
            &&& packet[0] == 0xFF && packet[1] == 0x00 && packet[2] == 0xFF && packet[3] == 0xA5
            &&& forall|i: int| 0 <= i < body.len() ==> #[trigger] body[i] == packet[i + 4]
            &&& 256 * packet[n - 2] + packet[n - 1] == checksum(packet.subrange(3, n - 2))
        }),
{
    let packet = sealed(body);
    let n = packet.len() as int;
    assert(packet.subrange(3, n - 2) =~= seq![START_BYTE] + body);
    let sum = checksum(seq![START_BYTE] + body);
    assert(packet[n - 2] == big_endian(sum)[0]);
    assert(packet[n - 1] == big_endian(sum)[1]);
}

/// Where everything stands in the packet that [`encode_pentair_packet`] makes: the four
/// addressing bytes in the order in which they are given, the length, and the payload.
pub proof fn law_layout_of_a_body(protocol: u8, dest: u8, source: u8, command: u8, data: Seq<u8>)
    ensures
        ({
            let packet = sealed(packet_body(protocol, dest, source, command, data));
            &&& packet.len() == data.len() + 11
            &&& packet[4] == protocol
            &&& packet[5] == dest
            &&& packet[6] == source
            &&& packet[7] == command
            &&& packet[8] == data.len() % 256
            &&& forall|i: int| 0 <= i < data.len() ==> #[trigger] data[i] == packet[i + 9]
        }),
{
}

} // verus!
