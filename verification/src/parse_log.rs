//! Reading packets back from a log of the bus.
//!
//! A line of the log may hold `Processing packet [1, 16, 72, ...]`: the body of a packet as a list
//! of decimal numbers.
use crate::pentair::decode::{body_at, decoded, first_frame_at, lemma_decoded_at, parsed};
use crate::pentair::laws::lemma_packet_is_frame;
use crate::pentair::message::{MessageModel, PentairMessage, WireDecoder};
use crate::pentair::packet::{seal_packet, sealed};
use crate::text::{chars_of, decimal, hex_line, law_hex_line_says_every_byte, to_hex_line};
use vstd::prelude::*;

verus! {

/// What stands before the list of bytes.
pub const MARKER: &'static str = "Processing packet [";

/// What ends the list of bytes.
pub const LIST_END: &'static str = "]";

/// Whether `needle` stands in `text` at `i`.
pub open spec fn occurs_at(text: Seq<char>, needle: Seq<char>, i: int) -> bool {
    0 <= i && i + needle.len() <= text.len() && text.subrange(i, i + needle.len()) == needle
}

/// The first place from `from` on where `needle` stands in `text`.
pub open spec fn first_place(text: Seq<char>, needle: Seq<char>, from: int) -> Option<int>
    decreases text.len() + 1 - from,
{
    if from < 0 || from + needle.len() > text.len() {
        None
    } else if occurs_at(text, needle, from) {
        Some(from)
    } else {
        first_place(text, needle, from + 1)
    }
}

/// The list of bytes in a line: what stands behind the first marker, up to the end of the list.
pub open spec fn logged_list(line: Seq<char>) -> Option<Seq<char>> {
    match first_place(line, MARKER@, 0) {
        Some(place) => {
            let start = place + MARKER@.len();
            match first_place(line, LIST_END@, start) {
                Some(end) => Some(line.subrange(start, end)),
                None => None,
            }
        },
        None => None,
    }
}

/// The fields of a list. There is one more than there are commas.
pub open spec fn fields(list: Seq<char>) -> Seq<Seq<char>>
    decreases list.len(),
{
    if list.len() == 0 {
        seq![Seq::empty()]
    } else {
        let before = fields(list.drop_last());
        if list.last() == ',' {
            before.push(Seq::empty())
        } else {
            before.drop_last().push(before.last().push(list.last()))
        }
    }
}

/// The characters with the Unicode property White_Space.
pub open spec fn is_white(c: char) -> bool {
    let n = c as u32;
    ||| 0x09 <= n <= 0x0D
    ||| n == 0x20
    ||| n == 0x85
    ||| n == 0xA0
    ||| n == 0x1680
    ||| 0x2000 <= n <= 0x200A
    ||| n == 0x2028
    ||| n == 0x2029
    ||| n == 0x202F
    ||| n == 0x205F
    ||| n == 0x3000
}

/// `s` without the white space around it.
pub open spec fn trimmed(s: Seq<char>) -> Seq<char>
    decreases s.len(),
{
    if s.len() > 0 && is_white(s.first()) {
        trimmed(s.drop_first())
    } else if s.len() > 0 && is_white(s.last()) {
        trimmed(s.drop_last())
    } else {
        s
    }
}

/// Whether `c` is a decimal digit.
pub open spec fn is_digit(c: char) -> bool {
    '0' <= c <= '9'
}

/// The number that the digits of `s` make.
pub open spec fn number(s: Seq<char>) -> nat
    decreases s.len(),
{
    if s.len() == 0 {
        0
    } else {
        10 * number(s.drop_last()) + if is_digit(s.last()) {
            (s.last() as u32 - 48) as nat
        } else {
            0
        }
    }
}

/// The byte that `s` stands for if it holds nothing but digits, which make at most 255.
pub open spec fn parsed_digits(s: Seq<char>) -> Option<u8> {
    if s.len() > 0 && (forall|i: int| 0 <= i < s.len() ==> is_digit(#[trigger] s[i])) && number(s)
        <= 255 {
        Some(number(s) as u8)
    } else {
        None
    }
}

/// The byte that `s` stands for. There may be a plus sign before the digits.
pub open spec fn parsed_byte(s: Seq<char>) -> Option<u8> {
    if s.len() > 1 && s[0] == '+' {
        parsed_digits(s.skip(1))
    } else {
        parsed_digits(s)
    }
}

/// The byte in a field.
pub open spec fn field_byte(field: Seq<char>) -> Option<u8> {
    parsed_byte(trimmed(field))
}

/// The bytes of a list, if every field holds one.
pub open spec fn parsed_list(list: Seq<char>) -> Option<Seq<u8>> {
    let fields = fields(list);
    if forall|i: int| 0 <= i < fields.len() ==> field_byte(#[trigger] fields[i]) is Some {
        Some(Seq::new(fields.len(), |i: int| field_byte(fields[i])->0))
    } else {
        None
    }
}

/// The body of the packet in a line, if there is one.
pub open spec fn logged_body(line: Seq<char>) -> Option<Seq<u8>> {
    match logged_list(line) {
        Some(list) => parsed_list(list),
        None => None,
    }
}

fn matches_at(text: &[char], needle: &[char], i: usize) -> (found: bool)
    requires
        i + needle.len() <= text.len(),
    ensures
        found == occurs_at(text@, needle@, i as int),
{
    let ghost here = text@.subrange(i as int, i + needle.len());
    let mut k: usize = 0;
    while k < needle.len()
        invariant
            k <= needle.len(),
            i + needle.len() <= text.len(),
            here == text@.subrange(i as int, i + needle.len()),
            forall|j: int| 0 <= j < k ==> here[j] == needle[j],
        decreases needle.len() - k,
    {
        if text[i + k] != needle[k] {
            assert(here[k as int] != needle[k as int]);
            return false;
        }
        assert(here[k as int] == needle[k as int]);
        k += 1;
    }
    assert(here =~= needle@);
    true
}

fn find(text: &[char], needle: &[char], from: usize) -> (place: Option<usize>)
    requires
        from <= text.len(),
    ensures
        match place {
            Some(place) => {
                &&& first_place(text@, needle@, from as int) == Some(place as int)
                &&& from <= place
                &&& place + needle.len() <= text.len()
            },
            None => first_place(text@, needle@, from as int) is None,
        },
{
    let mut i: usize = from;
    while text.len() - i >= needle.len()
        invariant
            from <= i <= text.len(),
            first_place(text@, needle@, from as int) == first_place(text@, needle@, i as int),
        decreases text.len() - i,
    {
        if matches_at(text, needle, i) {
            return Some(i);
        }
        if i == text.len() {
            assert(first_place(text@, needle@, i + 1) is None);
            return None;
        }
        i += 1;
    }
    None
}

fn is_whitespace(c: char) -> (white: bool)
    ensures
        white == is_white(c),
{
    let n: u32 = c as u32;
    (0x09 <= n && n <= 0x0D) || n == 0x20 || n == 0x85 || n == 0xA0 || n == 0x1680 || (0x2000 <= n
        && n <= 0x200A) || n == 0x2028 || n == 0x2029 || n == 0x202F || n == 0x205F || n == 0x3000
}

fn trim(s: &[char]) -> (inner: &[char])
    ensures
        inner@ == trimmed(s@),
{
    let mut start: usize = 0;
    let mut end: usize = s.len();
    assert(s@.subrange(0, s@.len() as int) =~= s@);
    while start < end && is_whitespace(s[start])
        invariant
            start <= end <= s.len(),
            trimmed(s@) == trimmed(s@.subrange(start as int, end as int)),
        decreases end - start,
    {
        let ghost inner = s@.subrange(start as int, end as int);
        assert(inner.drop_first() =~= s@.subrange(start + 1, end as int));
        start += 1;
    }
    while start < end && is_whitespace(s[end - 1])
        invariant
            start <= end <= s.len(),
            start < end ==> !is_white(s[start as int]),
            trimmed(s@) == trimmed(s@.subrange(start as int, end as int)),
        decreases end - start,
    {
        let ghost inner = s@.subrange(start as int, end as int);
        assert(inner.drop_last() =~= s@.subrange(start as int, end - 1));
        end -= 1;
    }
    &s[start..end]
}

fn parse_byte(s: &[char]) -> (byte: Option<u8>)
    ensures
        byte == parsed_byte(s@),
{
    let start: usize = if s.len() > 1 && s[0] == '+' {
        1
    } else {
        0
    };
    let digits: &[char] = &s[start..s.len()];
    assert(digits@ =~= if start == 1 {
        s@.skip(1)
    } else {
        s@
    });
    let mut all_digits: bool = true;
    let mut value: u32 = 0;
    let mut i: usize = 0;
    while i < digits.len()
        invariant
            i <= digits.len(),
            all_digits == forall|j: int| 0 <= j < i ==> is_digit(#[trigger] digits@[j]),
            value == if number(digits@.take(i as int)) < 256 {
                number(digits@.take(i as int))
            } else {
                256
            },
        decreases digits.len() - i,
    {
        let c: char = digits[i];
        assert(digits@.take(i + 1).drop_last() =~= digits@.take(i as int));
        if '0' <= c && c <= '9' {
            value = 10 * value + (c as u32 - 48);
        } else {
            value = 10 * value;
            all_digits = false;
        }
        if value > 256 {
            value = 256;
        }
        i += 1;
    }
    assert(digits@.take(digits.len() as int) =~= digits@);
    if digits.len() > 0 && all_digits && value <= 255 {
        Some(value as u8)
    } else {
        None
    }
}

proof fn lemma_fields_not_empty(list: Seq<char>)
    ensures
        fields(list).len() > 0,
    decreases list.len(),
{
    if list.len() > 0 {
        lemma_fields_not_empty(list.drop_last());
    }
}

fn parse_list(list: &[char]) -> (bytes: Option<Vec<u8>>)
    ensures
        match bytes {
            Some(bytes) => parsed_list(list@) == Some(bytes@),
            None => parsed_list(list@) is None,
        },
{
    let mut bytes: Vec<u8> = Vec::new();
    let mut valid: bool = true;
    let mut field: Vec<char> = Vec::new();
    let mut i: usize = 0;
    assert(list@.take(0) =~= Seq::<char>::empty());
    assert(field@ =~= Seq::<char>::empty());
    while i < list.len()
        invariant
            i <= list.len(),
            ({
                let done = fields(list@.take(i as int));
                &&& done.len() > 0
                &&& field@ == done.last()
                &&& valid == forall|j: int|
                    0 <= j < done.len() - 1 ==> field_byte(#[trigger] done[j]) is Some
                &&& valid ==> bytes.len() == done.len() - 1
                &&& valid ==> forall|j: int|
                    0 <= j < done.len() - 1 ==> field_byte(#[trigger] done[j]) == Some(bytes[j])
            }),
        decreases list.len() - i,
    {
        let ghost done = fields(list@.take(i as int));
        let ghost next = fields(list@.take(i + 1));
        assert(list@.take(i + 1).drop_last() =~= list@.take(i as int));
        if list[i] == ',' {
            assert(next =~= done.push(Seq::empty()));
            match parse_byte(trim(&field)) {
                Some(byte) => bytes.push(byte),
                None => {
                    assert(field_byte(next[next.len() - 2]) is None);
                    valid = false;
                },
            }
            field.clear();
            assert(field@ =~= next.last());
            assert(forall|j: int| 0 <= j < done.len() ==> next[j] == done[j]);
        } else {
            field.push(list[i]);
            assert(field@ =~= next.last());
            assert(forall|j: int| 0 <= j < done.len() - 1 ==> next[j] == done[j]);
        }
        i += 1;
    }
    let ghost done = fields(list@);
    assert(list@.take(list.len() as int) =~= list@);
    match parse_byte(trim(&field)) {
        Some(byte) => bytes.push(byte),
        None => {
            assert(field_byte(done[done.len() - 1]) is None);
            valid = false;
        },
    }
    if valid {
        assert(bytes@ =~= parsed_list(list@)->0);
        Some(bytes)
    } else {
        None
    }
}

/// The body of the packet in a line of the log.
pub fn packet_body_in(line: &str) -> (body: Option<Vec<u8>>)
    ensures
        match body {
            Some(body) => logged_body(line@) == Some(body@),
            None => logged_body(line@) is None,
        },
{
    let text: Vec<char> = chars_of(line);
    let marker: Vec<char> = chars_of(MARKER);
    let list_end: Vec<char> = chars_of(LIST_END);
    let start: usize = match find(&text, &marker, 0) {
        Some(place) => place + marker.len(),
        None => {
            return None;
        },
    };
    match find(&text, &list_end, start) {
        Some(end) => parse_list(&text[start..end]),
        None => None,
    }
}

/// A packet found in the log.
pub struct LogRecord {
    /// The packet, with preamble and checksum.
    pub packet: Vec<u8>,
    /// The packet in hexadecimal.
    pub hex: String,
    /// The message that the packet carries, if it is one we know.
    pub message: Option<PentairMessage>,
}

/// What a record of the packet with the given body says.
pub open spec fn is_record(record: LogRecord, body: Seq<u8>) -> bool {
    &&& record.packet@ == sealed(body)
    &&& record.hex@ == hex_line(sealed(body))
    &&& match record.message {
        Some(message) => decoded(sealed(body)) matches Some((decoded, _)) && decoded == message@,
        None => decoded(sealed(body)) is None,
    }
}

/// Rebuilds the packet in a line of the log and tries to decode it.
pub fn parse_line(line: &str) -> (record: Option<LogRecord>)
    ensures
        match record {
            Some(record) => logged_body(line@) matches Some(body) && is_record(record, body),
            None => logged_body(line@) is None,
        },
{
    let body: Vec<u8> = match packet_body_in(line) {
        Some(body) => body,
        None => {
            return None;
        },
    };
    let packet: Vec<u8> = seal_packet(&body);
    let hex: String = to_hex_line(&packet);
    let message: Option<PentairMessage> = match PentairMessage::decode(&packet) {
        Ok((message, _)) => Some(message),
        Err(_) => None,
    };
    Some(LogRecord { packet, hex, message })
}

/// How many packets were found, and how many of them carry a message.
#[derive(Debug, Clone, Copy, PartialEq, Eq, Structural)]
pub struct LogSummary {
    pub packets: u64,
    pub decoded: u64,
}

impl LogSummary {
    /// No more messages than packets.
    pub open spec fn wf(self) -> bool {
        self.decoded <= self.packets
    }

    pub fn new() -> (summary: Self)
        ensures
            summary.wf(),
            summary == (LogSummary { packets: 0, decoded: 0 }),
    {
        LogSummary { packets: 0, decoded: 0 }
    }

    /// The counts when one more packet was found, which carries a message or not.
    pub open spec fn counted(self, message: bool) -> LogSummary {
        LogSummary {
            packets: (self.packets + 1) as u64,
            decoded: if message {
                (self.decoded + 1) as u64
            } else {
                self.decoded
            },
        }
    }

    /// Counts a record.
    pub fn count(&mut self, record: &LogRecord)
        requires
            old(self).wf(),
            old(self).packets < u64::MAX,
        ensures
            final(self).wf(),
            final(self).packets == old(self).packets + 1,
            final(self).decoded == old(self).decoded + if record.message is Some {
                1int
            } else {
                0int
            },
            *final(self) == old(self).counted(record.message is Some),
    {
        self.packets = self.packets + 1;
        if record.message.is_some() {
            self.decoded = self.decoded + 1;
        }
    }
}

/// A logged body whose length byte is right is rebuilt to a packet that decodes to the message
/// that the body stands for, if it stands for one.
pub proof fn law_rebuilt_packet_decodes(body: Seq<u8>)
    requires
        body.len() >= 5,
        body.len() == 5 + body[4],
    ensures
        decoded(sealed(body)) == (match parsed(body) {
            Some(message) => Some((message, Seq::<u8>::empty())),
            None => None::<(MessageModel, Seq<u8>)>,
        }),
{
    let none = Seq::<u8>::empty();
    let data = none + sealed(body) + none;
    lemma_packet_is_frame(none, body, none);
    assert(data =~= sealed(body));
    assert(first_frame_at(data, 3));
    lemma_decoded_at(data, 3);
    assert(body_at(data, 3) == body);
}

/// Fields with a comma between two.
pub open spec fn joined(fields: Seq<Seq<char>>) -> Seq<char>
    decreases fields.len(),
{
    if fields.len() == 0 {
        Seq::empty()
    } else if fields.len() == 1 {
        fields[0]
    } else {
        joined(fields.drop_last()) + seq![','] + fields.last()
    }
}

/// The fields of a list are what its commas part: none holds a comma, and with the commas put
/// back they are the list.
pub proof fn law_fields_are_parted_by_commas(list: Seq<char>)
    ensures
        joined(fields(list)) == list,
        forall|i: int| 0 <= i < fields(list).len() ==> !(#[trigger] fields(list)[i]).contains(','),
    decreases list.len(),
{
    if list.len() == 0 {
        assert(joined(fields(list)) =~= list);
    } else {
        let shorter = list.drop_last();
        let before = fields(shorter);
        law_fields_are_parted_by_commas(shorter);
        lemma_fields_not_empty(shorter);
        assert(shorter.push(list.last()) =~= list);
        if list.last() == ',' {
            assert(fields(list).drop_last() =~= before);
            assert(joined(fields(list)) =~= list);
        } else {
            assert(fields(list).drop_last() =~= before.drop_last());
            let extended = before.last().push(list.last());
            assert(!before[before.len() - 1].contains(','));
            assert forall|k: int| 0 <= k < extended.len() implies extended[k] != ',' by {
                if k < before.last().len() {
                    assert(before.last()[k] == extended[k]);
                }
            }
            assert(joined(fields(list)) =~= joined(before).push(list.last()));
        }
    }
}

/// The bytes as a list of decimal numbers.
pub open spec fn list_text(bytes: Seq<u8>) -> Seq<char>
    decreases bytes.len(),
{
    if bytes.len() == 0 {
        Seq::empty()
    } else if bytes.len() == 1 {
        decimal(bytes[0] as nat)
    } else {
        list_text(bytes.drop_last()) + seq![',', ' '] + decimal(bytes.last() as nat)
    }
}

/// A decimal number is made of digits, and stands for the number it was made from.
pub proof fn lemma_decimal_reads_back(n: nat)
    ensures
        decimal(n).len() > 0,
        forall|i: int| 0 <= i < decimal(n).len() ==> is_digit(#[trigger] decimal(n)[i]),
        number(decimal(n)) == n,
    decreases n,
{
    if n < 10 {
        assert(decimal(n).drop_last() =~= Seq::<char>::empty());
        assert(number(decimal(n).drop_last()) == 0);
    } else {
        lemma_decimal_reads_back(n / 10);
        assert(decimal(n).drop_last() =~= decimal(n / 10));
    }
}

/// The spaces around a number in a list do not count.
proof fn lemma_number_field(b: u8)
    ensures
        field_byte(decimal(b as nat)) == Some(b),
        field_byte(seq![' '] + decimal(b as nat)) == Some(b),
{
    let digits = decimal(b as nat);
    lemma_decimal_reads_back(b as nat);
    assert(is_digit(digits[0]));
    assert(is_digit(digits[digits.len() - 1]));
    assert(trimmed(digits) == digits);
    let field = seq![' '] + digits;
    assert(field.drop_first() =~= digits);
    assert(trimmed(field) == digits);
}

/// Characters that are no commas belong to the last field.
proof fn lemma_fields_append(list: Seq<char>, more: Seq<char>)
    requires
        !more.contains(','),
    ensures
        fields(list + more) == fields(list).drop_last().push(fields(list).last() + more),
    decreases more.len(),
{
    lemma_fields_not_empty(list);
    let before = fields(list);
    if more.len() == 0 {
        assert(list + more =~= list);
        assert(before.last() + more =~= before.last());
        assert(before.drop_last().push(before.last()) =~= before);
    } else {
        let fewer = more.drop_last();
        assert(!fewer.contains(',')) by {
            assert(forall|i: int| 0 <= i < fewer.len() ==> fewer[i] == more[i]);
        }
        lemma_fields_append(list, fewer);
        assert((list + more).drop_last() =~= list + fewer);
        assert(more[more.len() - 1] != ',');
        assert((before.last() + fewer).push(more.last()) =~= before.last() + more);
        let middle = fields(list + fewer);
        assert(middle.drop_last() =~= before.drop_last());
    }
}

/// A list without a comma is one field.
pub proof fn lemma_field_of_one(field: Seq<char>)
    requires
        !field.contains(','),
    ensures
        fields(field) == seq![field],
{
    let none = Seq::<char>::empty();
    lemma_fields_append(none, field);
    assert(none + field =~= field);
    assert(fields(none) =~= seq![none]);
    assert(fields(field) =~= seq![field]);
}

/// What stands behind the last comma is the last field.
pub proof fn lemma_field_of_next(list: Seq<char>, field: Seq<char>)
    requires
        !field.contains(','),
    ensures
        fields(list + seq![','] + field) == fields(list).push(field),
{
    let with_comma = list + seq![','];
    assert(with_comma.drop_last() =~= list);
    assert(fields(with_comma) == fields(list).push(Seq::empty()));
    lemma_fields_append(with_comma, field);
    assert(Seq::<char>::empty() + field =~= field);
    assert(fields(with_comma + field) =~= fields(list).push(field));
}

/// A decimal number holds no comma, nor does one with a space before it.
pub proof fn lemma_no_comma(n: nat)
    ensures
        !decimal(n).contains(','),
        !(seq![' '] + decimal(n)).contains(','),
{
    lemma_decimal_reads_back(n);
    let spaced = seq![' '] + decimal(n);
    assert forall|i: int| 0 <= i < spaced.len() implies spaced[i] != ',' by {
        if i > 0 {
            assert(is_digit(decimal(n)[i - 1]));
        }
    }
    assert forall|i: int| 0 <= i < decimal(n).len() implies decimal(n)[i] != ',' by {
        assert(is_digit(decimal(n)[i]));
    }
}

/// A list of numbers has a field for each of them.
proof fn lemma_list_fields(bytes: Seq<u8>)
    requires
        bytes.len() > 0,
    ensures
        fields(list_text(bytes)).len() == bytes.len(),
        forall|i: int|
            0 <= i < bytes.len() ==> field_byte(#[trigger] fields(list_text(bytes))[i]) == Some(
                bytes[i],
            ),
    decreases bytes.len(),
{
    let last = decimal(bytes.last() as nat);
    lemma_no_comma(bytes.last() as nat);
    lemma_number_field(bytes.last());
    if bytes.len() == 1 {
        let none = Seq::<char>::empty();
        lemma_fields_append(none, last);
        assert(none + last =~= last);
        assert(fields(none) =~= seq![none]);
        assert(fields(last) =~= seq![last]);
    } else {
        let before = list_text(bytes.drop_last());
        lemma_list_fields(bytes.drop_last());
        lemma_fields_not_empty(before);
        let with_comma = before.push(',');
        assert(with_comma.drop_last() =~= before);
        assert(fields(with_comma) == fields(before).push(Seq::empty()));
        let spaced = seq![' '] + last;
        lemma_fields_append(with_comma, spaced);
        assert(with_comma + spaced =~= list_text(bytes));
        assert(Seq::<char>::empty() + spaced =~= spaced);
        assert(fields(list_text(bytes)) =~= fields(before).push(spaced));
        assert forall|i: int| 0 <= i < bytes.len() implies field_byte(
            #[trigger] fields(list_text(bytes))[i],
        ) == Some(bytes[i]) by {
            if i < bytes.len() - 1 {
                assert(fields(list_text(bytes))[i] == fields(before)[i]);
                assert(bytes.drop_last()[i] == bytes[i]);
            }
        }
    }
}

/// A list of numbers does not hold the character that ends the list.
proof fn lemma_list_is_open(bytes: Seq<u8>)
    ensures
        forall|i: int| 0 <= i < list_text(bytes).len() ==> #[trigger] list_text(bytes)[i] != ']',
    decreases bytes.len(),
{
    if bytes.len() > 0 {
        let last = decimal(bytes.last() as nat);
        lemma_decimal_reads_back(bytes.last() as nat);
        lemma_list_is_open(bytes.drop_last());
        let before = list_text(bytes.drop_last());
        assert forall|i: int| 0 <= i < list_text(bytes).len() implies #[trigger] list_text(
            bytes,
        )[i] != ']' by {
            if bytes.len() == 1 {
                assert(is_digit(last[i]));
            } else if i < before.len() {
                assert(list_text(bytes)[i] == before[i]);
            } else if i >= before.len() + 2 {
                assert(list_text(bytes)[i] == last[i - before.len() - 2]);
                assert(is_digit(last[i - before.len() - 2]));
            }
        }
    }
}

proof fn lemma_first_place(text: Seq<char>, needle: Seq<char>, from: int, place: int)
    requires
        0 <= from <= place,
        occurs_at(text, needle, place),
        forall|j: int| from <= j < place ==> !occurs_at(text, needle, j),
    ensures
        first_place(text, needle, from) == Some(place),
    decreases place - from,
{
    if from < place {
        lemma_first_place(text, needle, from + 1, place);
    }
}

/// A body that was logged as a list of numbers is read back as it was, whatever else stands in
/// the line, as long as the marker does not stand in it before.
pub proof fn law_logged_body_is_read_back(before: Seq<char>, body: Seq<u8>, behind: Seq<char>)
    requires
        body.len() > 0,
        ({
            let line = before + MARKER@ + list_text(body) + LIST_END@ + behind;
            forall|j: int| 0 <= j < before.len() ==> !occurs_at(line, MARKER@, j)
        }),
    ensures
        logged_body(before + MARKER@ + list_text(body) + LIST_END@ + behind) == Some(body),
{
    reveal_strlit("]");
    let list = list_text(body);
    let line = before + MARKER@ + list + LIST_END@ + behind;
    let place = before.len() as int;
    let start = place + MARKER@.len();
    let end = start + list.len();
    assert(line.subrange(place, start) =~= MARKER@);
    lemma_first_place(line, MARKER@, 0, place);
    assert(line.subrange(end, end + 1) =~= LIST_END@);
    lemma_list_is_open(body);
    assert forall|j: int| start <= j < end implies !occurs_at(line, LIST_END@, j) by {
        assert(line[j] == list[j - start]);
        assert(line.subrange(j, j + 1)[0] == line[j]);
        assert(LIST_END@[0] == ']');
    }
    lemma_first_place(line, LIST_END@, start, end);
    assert(line.subrange(start, end) =~= list);
    lemma_list_fields(body);
    assert(parsed_list(list)->0 =~= body);
}

/// A text stands at a place where each of its characters stands.
pub proof fn law_text_stands_character_by_character(text: Seq<char>, needle: Seq<char>, i: int)
    ensures
        occurs_at(text, needle, i) <==> {
            &&& 0 <= i
            &&& i + needle.len() <= text.len()
            &&& forall|k: int| 0 <= k < needle.len() ==> text[i + k] == #[trigger] needle[k]
        },
{
    if 0 <= i && i + needle.len() <= text.len() {
        let here = text.subrange(i, i + needle.len());
        assert((forall|k: int| 0 <= k < needle.len() ==> text[i + k] == #[trigger] needle[k])
            ==> here =~= needle);
        if here == needle {
            assert forall|k: int| 0 <= k < needle.len() implies text[i + k]
                == #[trigger] needle[k] by {
                assert(here[k] == text[i + k]);
            }
        }
    }
}

/// The place that is found is one where the text stands, and there is none before it. Where none
/// is found there is none.
pub proof fn law_first_place_is_the_first(text: Seq<char>, needle: Seq<char>, from: int)
    requires
        0 <= from,
    ensures
        match first_place(text, needle, from) {
            Some(place) => {
                &&& from <= place
                &&& occurs_at(text, needle, place)
                &&& forall|j: int| from <= j < place ==> !occurs_at(text, needle, j)
            },
            None => forall|j: int| from <= j ==> !occurs_at(text, needle, j),
        },
    decreases text.len() + 1 - from,
{
    if from + needle.len() <= text.len() && !occurs_at(text, needle, from) {
        law_first_place_is_the_first(text, needle, from + 1);
    }
}

/// There are twenty-five characters that count as white space.
pub proof fn law_white_space(c: char)
    ensures
        is_white(c) <==> seq![
            0x09u32, 0x0A, 0x0B, 0x0C, 0x0D, 0x20, 0x85, 0xA0, 0x1680, 0x2000, 0x2001, 0x2002,
            0x2003, 0x2004, 0x2005, 0x2006, 0x2007, 0x2008, 0x2009, 0x200A, 0x2028, 0x2029, 0x202F,
            0x205F, 0x3000,
        ].contains(c as u32),
{
    let all = seq![
        0x09u32, 0x0A, 0x0B, 0x0C, 0x0D, 0x20, 0x85, 0xA0, 0x1680, 0x2000, 0x2001, 0x2002, 0x2003,
        0x2004, 0x2005, 0x2006, 0x2007, 0x2008, 0x2009, 0x200A, 0x2028, 0x2029, 0x202F, 0x205F,
        0x3000,
    ];
    assert(all[0] == 0x09 && all[1] == 0x0A && all[2] == 0x0B && all[3] == 0x0C && all[4] == 0x0D);
    assert(all[5] == 0x20 && all[6] == 0x85 && all[7] == 0xA0 && all[8] == 0x1680);
    assert(all[9] == 0x2000 && all[10] == 0x2001 && all[11] == 0x2002 && all[12] == 0x2003);
    assert(all[13] == 0x2004 && all[14] == 0x2005 && all[15] == 0x2006 && all[16] == 0x2007);
    assert(all[17] == 0x2008 && all[18] == 0x2009 && all[19] == 0x200A && all[20] == 0x2028);
    assert(all[21] == 0x2029 && all[22] == 0x202F && all[23] == 0x205F && all[24] == 0x3000);
}

/// White space around a text is taken off, all of it, and nothing else.
pub proof fn law_trimming_takes_off_white_space_only(
    left: Seq<char>,
    inner: Seq<char>,
    right: Seq<char>,
)
    requires
        forall|i: int| 0 <= i < left.len() ==> is_white(#[trigger] left[i]),
        forall|i: int| 0 <= i < right.len() ==> is_white(#[trigger] right[i]),
        inner.len() > 0 ==> !is_white(inner.first()) && !is_white(inner.last()),
    ensures
        trimmed(left + inner + right) == inner,
        field_byte(left + inner + right) == parsed_byte(inner),
    decreases left.len() + right.len(),
{
    let s = left + inner + right;
    if left.len() > 0 {
        let less = left.drop_first();
        assert(s.first() == left[0]);
        assert(s.drop_first() =~= less + inner + right);
        assert forall|i: int| 0 <= i < less.len() implies is_white(#[trigger] less[i]) by {
            assert(less[i] == left[i + 1]);
        }
        law_trimming_takes_off_white_space_only(less, inner, right);
    } else if right.len() > 0 {
        let less = right.drop_last();
        assert forall|i: int| 0 <= i < less.len() implies is_white(#[trigger] less[i]) by {
            assert(less[i] == right[i]);
        }
        assert(s.last() == right[right.len() - 1]);
        if inner.len() > 0 {
            assert(s.first() == inner.first());
            assert(s.drop_last() =~= left + inner + less);
            law_trimming_takes_off_white_space_only(left, inner, less);
        } else {
            assert(s.first() == right[0]);
            let rest = right.drop_first();
            assert forall|i: int| 0 <= i < rest.len() implies is_white(#[trigger] rest[i]) by {
                assert(rest[i] == right[i + 1]);
            }
            assert(s.drop_first() =~= left + inner + rest);
            law_trimming_takes_off_white_space_only(left, inner, rest);
        }
    } else {
        assert(s =~= inner);
    }
}

/// A byte is read digit by digit: one digit stands for itself, and another behind a number makes
/// ten times as much and the digit, up to 255. One plus sign may stand before the digits. No
/// other character belongs to a number, and nothing at all is none.
pub proof fn law_byte_is_read_by_digits(s: Seq<char>, c: char)
    ensures
        parsed_byte(Seq::<char>::empty()) is None,
        parsed_byte(seq![c]) == if '0' <= c <= '9' {
            Some((c as u32 - '0' as u32) as u8)
        } else {
            None
        },
        s == seq!['+'] ==> parsed_byte(s.push(c)) == parsed_byte(seq![c]),
        s.len() > 0 && s != seq!['+'] ==> match (parsed_byte(s), parsed_byte(s.push(c))) {
            (Some(tens), Some(byte)) => '0' <= c <= '9' && byte == 10 * tens + (c as u32
                - '0' as u32),
            (Some(tens), None) => !('0' <= c <= '9') || 10 * tens + (c as u32 - '0' as u32) > 255,
            (None, byte) => byte is None,
        },
{
    let one = seq![c];
    assert(one.drop_last() =~= Seq::<char>::empty());
    assert(number(one.drop_last()) == 0);
    assert(one[0] == c);
    let longer = s.push(c);
    if s =~= seq!['+'] {
        assert(longer.skip(1) =~= one);
    } else if s.len() > 0 {
        if s[0] == '+' {
            assert(s.len() > 1) by {
                if s.len() == 1 {
                    assert(s =~= seq!['+']);
                }
            }
            lemma_digits_pushed(s.skip(1), c);
            assert(longer.skip(1) =~= s.skip(1).push(c));
        } else {
            lemma_digits_pushed(s, c);
        }
    }
}

proof fn lemma_digits_pushed(s: Seq<char>, c: char)
    requires
        s.len() > 0,
    ensures
        match (parsed_digits(s), parsed_digits(s.push(c))) {
            (Some(tens), Some(byte)) => '0' <= c <= '9' && byte == 10 * tens + (c as u32 - 48),
            (Some(tens), None) => !('0' <= c <= '9') || 10 * tens + (c as u32 - 48) > 255,
            (None, byte) => byte is None,
        },
{
    let longer = s.push(c);
    assert(longer.drop_last() =~= s);
    assert(longer[s.len() as int] == c);
    assert(forall|i: int| 0 <= i < s.len() ==> longer[i] == #[trigger] s[i]);
    if forall|i: int| 0 <= i < longer.len() ==> is_digit(#[trigger] longer[i]) {
        assert forall|i: int| 0 <= i < s.len() implies is_digit(#[trigger] s[i]) by {
            assert(is_digit(longer[i]));
        }
    }
}

/// A list is read field by field: one without a comma holds the byte of its only field, and a
/// field behind another comma adds its byte. One field that holds no byte spoils the list.
pub proof fn law_list_is_read_by_fields(list: Seq<char>, field: Seq<char>)
    requires
        !field.contains(','),
    ensures
        parsed_list(field) == (match field_byte(field) {
            Some(byte) => Some(seq![byte]),
            None => None,
        }),
        parsed_list(list + seq![','] + field) == (match (parsed_list(list), field_byte(field)) {
            (Some(bytes), Some(byte)) => Some(bytes.push(byte)),
            _ => None,
        }),
{
    lemma_field_of_one(field);
    assert(fields(field)[0] == field);
    if let Some(byte) = field_byte(field) {
        assert(parsed_list(field)->0 =~= seq![byte]);
    }
    let before = fields(list);
    let all = fields(list + seq![','] + field);
    lemma_field_of_next(list, field);
    assert(all[before.len() as int] == field);
    assert(forall|i: int| 0 <= i < before.len() ==> all[i] == #[trigger] before[i]);
    if parsed_list(list + seq![','] + field) is Some {
        assert forall|i: int| 0 <= i < before.len() implies field_byte(
            #[trigger] before[i],
        ) is Some by {
            assert(field_byte(all[i]) is Some);
        }
    }
    if parsed_list(list) is Some && field_byte(field) is Some {
        assert forall|i: int| 0 <= i < all.len() implies field_byte(#[trigger] all[i]) is Some by {
            if i < before.len() {
                assert(field_byte(before[i]) is Some);
            }
        }
        assert(parsed_list(list + seq![','] + field)->0 =~= parsed_list(list)->0.push(
            field_byte(field)->0,
        ));
    }
}

/// Where the list stands in a line: behind the first marker, up to the next bracket.
pub proof fn law_list_is_found_in_its_line(before: Seq<char>, list: Seq<char>, behind: Seq<char>)
    requires
        !list.contains(']'),
        forall|j: int|
            0 <= j < before.len() ==> !occurs_at(
                before + "Processing packet ["@ + list + "]"@ + behind,
                "Processing packet ["@,
                j,
            ),
    ensures
        logged_body(before + "Processing packet ["@ + list + "]"@ + behind) == parsed_list(list),
{
    reveal_strlit("]");
    let line = before + MARKER@ + list + LIST_END@ + behind;
    let place = before.len() as int;
    let start = place + MARKER@.len();
    let end = start + list.len();
    assert(line.subrange(place, start) =~= MARKER@);
    lemma_first_place(line, MARKER@, 0, place);
    assert(line.subrange(end, end + 1) =~= LIST_END@);
    assert forall|j: int| start <= j < end implies !occurs_at(line, LIST_END@, j) by {
        assert(line[j] == list[j - start]);
        assert(line.subrange(j, j + 1)[0] == line[j]);
    }
    lemma_first_place(line, LIST_END@, start, end);
    assert(line.subrange(start, end) =~= list);
}

/// A line without the marker, or without a bracket behind the first marker, holds no packet.
pub proof fn law_line_without_a_list_holds_no_packet(line: Seq<char>, place: int)
    requires
        (forall|j: int| !occurs_at(line, "Processing packet ["@, j)) || {
            &&& occurs_at(line, "Processing packet ["@, place)
            &&& forall|j: int| 0 <= j < place ==> !occurs_at(line, "Processing packet ["@, j)
            &&& forall|k: int| place + 19 <= k < line.len() ==> #[trigger] line[k] != ']'
        },
    ensures
        logged_body(line) is None,
{
    reveal_strlit("Processing packet [");
    reveal_strlit("]");
    law_first_place_is_the_first(line, MARKER@, 0);
    if let Some(found) = first_place(line, MARKER@, 0) {
        lemma_first_place(line, MARKER@, 0, place);
        law_first_place_is_the_first(line, LIST_END@, place + 19);
        if let Some(end) = first_place(line, LIST_END@, place + 19) {
            assert(line.subrange(end, end + 1)[0] == line[end]);
        }
    }
}

/// A record holds the packet around the body of the line, the packet once more as a line of hex
/// digits, and the message that decoding the packet gives.
pub proof fn law_record_says_what_the_line_says(record: LogRecord, body: Seq<u8>)
    requires
        is_record(record, body),
    ensures
        record.packet@.len() == body.len() + 6,
        record.packet@.subrange(4, 4int + body.len()) == body,
        record.packet@ == sealed(record.packet@.subrange(4, 4int + body.len())),
        record.hex@.len() == 3 * record.packet@.len() - 1,
        forall|i: int|
            0 <= i < record.packet@.len() ==> {
                let b = #[trigger] record.packet@[i] as int;
                &&& record.hex@[3 * i] == "0123456789ABCDEF"@[b / 16]
                &&& record.hex@[3 * i + 1] == "0123456789ABCDEF"@[b % 16]
                &&& i + 1 < record.packet@.len() ==> record.hex@[3 * i + 2] == ' '
            },
        match (record.message, decoded(record.packet@)) {
            (Some(message), Some((decoded, _))) => message@ == decoded,
            (None, None) => true,
            _ => false,
        },
{
    assert(record.packet@.subrange(4, 4int + body.len()) =~= body);
    law_hex_line_says_every_byte(record.packet@);
}

/// The counts after one packet after another was found.
pub open spec fn counted_all(summary: LogSummary, messages: Seq<bool>) -> LogSummary
    decreases messages.len(),
{
    if messages.len() == 0 {
        summary
    } else {
        counted_all(summary, messages.drop_last()).counted(messages.last())
    }
}

/// Every packet is counted once, and once more among the decoded ones exactly where it carries a
/// message.
pub proof fn law_every_packet_is_counted(summary: LogSummary, messages: Seq<bool>)
    requires
        summary.wf(),
        summary.packets + messages.len() <= u64::MAX,
    ensures
        counted_all(summary, messages).wf(),
        counted_all(summary, messages).packets == summary.packets + messages.len(),
        counted_all(summary, messages).decoded == summary.decoded + messages.filter(
            |message: bool| message,
        ).len(),
    decreases messages.len(),
{
    let is_message = |message: bool| message;
    reveal(Seq::filter);
    if messages.len() > 0 {
        law_every_packet_is_counted(summary, messages.drop_last());
    }
}

} // verus!
