//! Numbers and characters in text.
use vstd::prelude::*;
use vstd::string::StringExecFns;

verus! {

/// The character of a digit, for bases up to sixteen.
pub open spec fn digit(d: nat) -> char {
    if d < 10 {
        (48 + d) as u8 as char
    } else {
        (55 + d) as u8 as char
    }
}

/// `n` in decimal, without leading zeros.
pub open spec fn decimal(n: nat) -> Seq<char>
    decreases n,
{
    if n < 10 {
        seq![digit(n)]
    } else {
        decimal(n / 10).push(digit(n % 10))
    }
}

/// The words that stand for the two truth values.
pub open spec fn truth(b: bool) -> Seq<char> {
    if b {
        "true"@
    } else {
        "false"@
    }
}

/// `b` as two hexadecimal digits in upper case.
pub open spec fn hex_byte(b: u8) -> Seq<char> {
    seq![digit(b as nat / 16), digit(b as nat % 16)]
}

/// All bytes in hexadecimal, with a space between two.
pub open spec fn hex_line(bytes: Seq<u8>) -> Seq<char>
    decreases bytes.len(),
{
    if bytes.len() == 0 {
        Seq::empty()
    } else if bytes.len() == 1 {
        hex_byte(bytes[0])
    } else {
        hex_line(bytes.drop_last()) + " "@ + hex_byte(bytes.last())
    }
}

/// The characters of `s`.
pub fn chars_of(s: &str) -> (chars: Vec<char>)
    ensures
        chars@ == s@,
{
    let mut chars: Vec<char> = Vec::new();
    for c in it: s.chars()
        invariant
            it.seq() == s@,
            chars@ == s@.take(it.index()),
    {
        chars.push(c);
    }
    assert(s@.take(s@.len() as int) =~= s@);
    chars
}

/// Whether two texts are the same.
pub fn same_text(a: &str, b: &str) -> (same: bool)
    ensures
        same == (a@ == b@),
{
    a.to_owned() == b.to_owned()
}

fn digit_text(d: u8) -> (text: &'static str)
    requires
        d < 16,
    ensures
        text@ == seq![digit(d as nat)],
{
    proof {
        reveal_strlit("0");
        reveal_strlit("1");
        reveal_strlit("2");
        reveal_strlit("3");
        reveal_strlit("4");
        reveal_strlit("5");
        reveal_strlit("6");
        reveal_strlit("7");
        reveal_strlit("8");
        reveal_strlit("9");
        reveal_strlit("A");
        reveal_strlit("B");
        reveal_strlit("C");
        reveal_strlit("D");
        reveal_strlit("E");
        reveal_strlit("F");
    }
    let text: &'static str = match d {
        0 => "0",
        1 => "1",
        2 => "2",
        3 => "3",
        4 => "4",
        5 => "5",
        6 => "6",
        7 => "7",
        8 => "8",
        9 => "9",
        10 => "A",
        11 => "B",
        12 => "C",
        13 => "D",
        14 => "E",
        _ => "F",
    };
    assert(text@ =~= seq![digit(d as nat)]);
    text
}

/// Appends `n` in decimal.
pub fn append_decimal(out: &mut String, n: u32)
    ensures
        final(out)@ == old(out)@ + decimal(n as nat),
    decreases n,
{
    if n >= 10 {
        append_decimal(out, n / 10);
        out.append(digit_text((n % 10) as u8));
        assert(out@ =~= old(out)@ + decimal(n as nat));
    } else {
        out.append(digit_text(n as u8));
    }
}

/// Appends the word for `b`.
pub fn append_truth(out: &mut String, b: bool)
    ensures
        final(out)@ == old(out)@ + truth(b),
{
    if b {
        out.append("true");
    } else {
        out.append("false");
    }
}

/// All bytes in upper case hexadecimal, with a space between two.
pub fn to_hex_line(bytes: &[u8]) -> (line: String)
    ensures
        line@ == hex_line(bytes@),
{
    let mut line: String = String::new();
    let mut i: usize = 0;
    while i < bytes.len()
        invariant
            i <= bytes.len(),
            line@ == hex_line(bytes@.take(i as int)),
        decreases bytes.len() - i,
    {
        let ghost before = line@;
        let ghost done = bytes@.take(i + 1);
        assert(done.drop_last() =~= bytes@.take(i as int));
        if i > 0 {
            line.append(" ");
        }
        line.append(digit_text(bytes[i] / 16));
        line.append(digit_text(bytes[i] % 16));
        assert(line@ =~= hex_line(done)) by {
            if i > 0 {
                assert(line@ =~= before + " "@ + hex_byte(bytes[i as int]));
            } else {
                assert(line@ =~= hex_byte(bytes[i as int]));
            }
        }
        i += 1;
    }
    assert(bytes@.take(bytes.len() as int) =~= bytes@);
    line
}

proof fn lemma_digit(d: nat)
    requires
        d < 16,
    ensures
        "0123456789ABCDEF"@.len() == 16,
        digit(d) == "0123456789ABCDEF"@[d as int],
{
    reveal_strlit("0123456789ABCDEF");
    assert(digit(0) == '0' && digit(1) == '1' && digit(2) == '2' && digit(3) == '3');
    assert(digit(4) == '4' && digit(5) == '5' && digit(6) == '6' && digit(7) == '7');
    assert(digit(8) == '8' && digit(9) == '9' && digit(10) == 'A' && digit(11) == 'B');
    assert(digit(12) == 'C' && digit(13) == 'D' && digit(14) == 'E' && digit(15) == 'F');
}

/// A hex line says every byte: three characters for each but the last, which has two. The first
/// two are the digits of the byte, the third is a space.
pub proof fn law_hex_line_says_every_byte(bytes: Seq<u8>)
    ensures
        bytes.len() == 0 ==> hex_line(bytes).len() == 0,
        bytes.len() > 0 ==> hex_line(bytes).len() == 3 * bytes.len() - 1,
        forall|i: int|
            0 <= i < bytes.len() ==> {
                let b = #[trigger] bytes[i] as int;
                &&& hex_line(bytes)[3 * i] == "0123456789ABCDEF"@[b / 16]
                &&& hex_line(bytes)[3 * i + 1] == "0123456789ABCDEF"@[b % 16]
                &&& i + 1 < bytes.len() ==> hex_line(bytes)[3 * i + 2] == ' '
            },
    decreases bytes.len(),
{
    reveal_strlit(" ");
    if bytes.len() > 0 {
        lemma_digit(bytes.last() as nat / 16);
        lemma_digit(bytes.last() as nat % 16);
        let before = bytes.drop_last();
        law_hex_line_says_every_byte(before);
        assert forall|i: int| 0 <= i < bytes.len() implies {
            let b = #[trigger] bytes[i] as int;
            &&& hex_line(bytes)[3 * i] == "0123456789ABCDEF"@[b / 16]
            &&& hex_line(bytes)[3 * i + 1] == "0123456789ABCDEF"@[b % 16]
            &&& i + 1 < bytes.len() ==> hex_line(bytes)[3 * i + 2] == ' '
        } by {
            if i + 1 < bytes.len() {
                assert(before[i] == bytes[i]);
            }
        }
    }
}

/// Two lines are the same only if the bytes are.
pub proof fn law_hex_lines_tell_bytes_apart(a: Seq<u8>, b: Seq<u8>)
    requires
        hex_line(a) == hex_line(b),
    ensures
        a == b,
{
    law_hex_line_says_every_byte(a);
    law_hex_line_says_every_byte(b);
    assert(a.len() == b.len());
    reveal_strlit("0123456789ABCDEF");
    assert forall|i: int| 0 <= i < a.len() implies a[i] == b[i] by {
        lemma_digits_differ(a[i] as int / 16, b[i] as int / 16);
        lemma_digits_differ(a[i] as int % 16, b[i] as int % 16);
    }
    assert(a =~= b);
}

proof fn lemma_digits_differ(d: int, e: int)
    requires
        0 <= d < 16,
        0 <= e < 16,
        "0123456789ABCDEF"@[d] == "0123456789ABCDEF"@[e],
    ensures
        d == e,
{
    lemma_digit(d as nat);
    lemma_digit(e as nat);
}

/// A decimal number is written digit by digit: a number below ten is its digit, and another
/// digit behind a number makes ten times as much and the digit.
pub proof fn law_decimal_is_written_by_digits(n: nat, d: nat)
    requires
        d < 10,
    ensures
        decimal(d) == seq!["0123456789"@[d as int]],
        n > 0 ==> decimal(10 * n + d) == decimal(n) + decimal(d),
{
    reveal_strlit("0123456789");
    assert(digit(0) == '0' && digit(1) == '1' && digit(2) == '2' && digit(3) == '3');
    assert(digit(4) == '4' && digit(5) == '5' && digit(6) == '6' && digit(7) == '7');
    assert(digit(8) == '8' && digit(9) == '9');
    if n > 0 {
        assert((10 * n + d) / 10 == n && (10 * n + d) % 10 == d);
        assert(decimal(10 * n + d) =~= decimal(n) + decimal(d));
    }
}

/// The two truth values are written as JSON writes them.
pub proof fn law_words_for_truth(b: bool)
    ensures
        truth(b) == "true"@ <==> b,
        truth(b) == "false"@ <==> !b,
{
    reveal_strlit("true");
    reveal_strlit("false");
    assert("true"@.len() == 4 && "false"@.len() == 5);
}

} // verus!
