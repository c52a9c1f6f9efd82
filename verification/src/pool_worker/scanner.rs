//! Finding the header of a packet in the stream of bytes.
use crate::pentair::packet::{preamble, START_BYTE};
use vstd::prelude::*;

verus! {

/// Status from processing serial input.
#[derive(Debug, Clone, Copy, PartialEq, Eq, Structural)]
pub enum HeaderScan {
    /// Nothing is being sent.
    BusAvailable,
    /// The bytes of a header have just gone by.
    GoodHeader,
}

/// Looks for a header, byte by byte.
pub struct HeaderScanner {
    window: Vec<u8>,
}

/// One step of the scan: from the last bytes seen, and what a read brought, to the last bytes
/// seen then and what the scan comes to, if it is over. A pause is the end of the scan only
/// where no byte has been seen.
pub open spec fn scan_step(window: Seq<u8>, read: Option<u8>) -> (Seq<u8>, Option<HeaderScan>) {
    match read {
        None => if window.len() == 0 {
            (window, Some(HeaderScan::BusAvailable))
        } else {
            (window, None)
        },
        Some(byte) => {
            let seen = window.push(byte);
            if seen.len() < 4 {
                (seen, None)
            } else if seen == preamble() {
                (Seq::empty(), Some(HeaderScan::GoodHeader))
            } else {
                (seen.skip(1), None)
            }
        },
    }
}

impl HeaderScanner {
    /// The last bytes that were seen.
    pub closed spec fn window(&self) -> Seq<u8> {
        self.window@
    }

    /// Fewer bytes are kept than a header has.
    pub open spec fn wf(&self) -> bool {
        self.window().len() < 4
    }

    /// A scan that has seen nothing yet.
    pub fn new() -> (scanner: Self)
        ensures
            scanner.wf(),
            scanner.window() == Seq::<u8>::empty(),
    {
        HeaderScanner { window: Vec::new() }
    }

    /// Takes what a read brought. Once the scan is over a new one starts.
    pub fn step(&mut self, read: Option<u8>) -> (found: Option<HeaderScan>)
        requires
            old(self).wf(),
        ensures
            final(self).wf(),
            (final(self).window(), found) == scan_step(old(self).window(), read),
    {
        let byte: u8 = match read {
            Some(byte) => byte,
            None => {
                if self.window.len() == 0 {
                    return Some(HeaderScan::BusAvailable);
                }
                // Mid-header: keep waiting for the rest of it.
                return None;
            },
        };
        let ghost seen = old(self).window@.push(byte);
        self.window.push(byte);
        if self.window.len() < 4 {
            return None;
        }
        let good: bool = self.window[0] == 0xFF && self.window[1] == 0x00 && self.window[2] == 0xFF
            && self.window[3] == START_BYTE;
        assert(good == (seen =~= preamble()));
        if good {
            self.window.clear();
            Some(HeaderScan::GoodHeader)
        } else {
            self.window.remove(0);
            assert(self.window@ =~= seen.skip(1));
            None
        }
    }
}

/// Whether `bytes` end with a header.
pub open spec fn ends_with_header(bytes: Seq<u8>) -> bool {
    bytes.len() >= 4 && bytes.skip(bytes.len() - 4) == preamble()
}

/// Whether a header ends in `bytes` before their end.
pub open spec fn header_inside(bytes: Seq<u8>) -> bool {
    exists|k: int| 0 <= k < bytes.len() && ends_with_header(#[trigger] bytes.take(k))
}

/// The last bytes seen by a scan that has taken `bytes`.
pub open spec fn scanned(bytes: Seq<u8>) -> Seq<u8>
    decreases bytes.len(),
{
    if bytes.len() == 0 {
        bytes
    } else {
        scan_step(scanned(bytes.drop_last()), Some(bytes.last())).0
    }
}

/// What a scan comes to with the last of `bytes`.
pub open spec fn scan_result(bytes: Seq<u8>) -> Option<HeaderScan> {
    scan_step(scanned(bytes.drop_last()), Some(bytes.last())).1
}

/// Where no header has gone by before the end, none has before the last byte either.
pub proof fn lemma_no_header_before(bytes: Seq<u8>)
    requires
        bytes.len() > 0,
        !header_inside(bytes),
    ensures
        !header_inside(bytes.drop_last()),
        !ends_with_header(bytes.drop_last()),
{
    let before = bytes.drop_last();
    assert(before =~= bytes.take(bytes.len() - 1));
    assert(!ends_with_header(bytes.take(bytes.len() - 1)));
    assert forall|k: int| 0 <= k < before.len() implies !ends_with_header(
        #[trigger] before.take(k),
    ) by {
        assert(before.take(k) =~= bytes.take(k));
    }
}

/// Until a header has gone by, the scanner keeps the last three bytes.
pub proof fn lemma_scanned(bytes: Seq<u8>)
    requires
        !header_inside(bytes),
        !ends_with_header(bytes),
    ensures
        scanned(bytes) == if bytes.len() <= 3 {
            bytes
        } else {
            bytes.skip(bytes.len() - 3)
        },
    decreases bytes.len(),
{
    if bytes.len() > 0 {
        let before = bytes.drop_last();
        lemma_no_header_before(bytes);
        lemma_scanned(before);
        let seen = scanned(before).push(bytes.last());
        if bytes.len() <= 3 {
            assert(seen =~= bytes);
        } else {
            assert(seen =~= bytes.skip(bytes.len() - 4));
            assert(seen.skip(1) =~= bytes.skip(bytes.len() - 3));
        }
    }
}

/// A scan ends with the first header that goes by, and with nothing else that goes by.
pub proof fn law_scan_ends_with_the_first_header(bytes: Seq<u8>)
    requires
        bytes.len() > 0,
        !header_inside(bytes),
    ensures
        scan_result(bytes) == if ends_with_header(bytes) {
            Some(HeaderScan::GoodHeader)
        } else {
            None
        },
        ends_with_header(bytes) ==> scanned(bytes).len() == 0,
{
    let before = bytes.drop_last();
    lemma_no_header_before(bytes);
    lemma_scanned(before);
    let seen = scanned(before).push(bytes.last());
    if bytes.len() >= 4 {
        assert(seen =~= bytes.skip(bytes.len() - 4));
    }
}

/// A pause within a header changes nothing, and a pause before it says that the bus is free.
pub proof fn law_pause_frees_the_bus_only_before_the_first_byte(window: Seq<u8>)
    ensures
        window.len() > 0 ==> scan_step(window, None) == (window, None::<HeaderScan>),
        window.len() == 0 ==> scan_step(window, None) == (window, Some(HeaderScan::BusAvailable)),
{
}

/// A header is made of these four bytes and no others.
pub proof fn law_bytes_of_a_header(bytes: Seq<u8>)
    ensures
        ends_with_header(bytes) <==> {
            let n = bytes.len() as int;
            &&& n >= 4
            &&& bytes[n - 4] == 0xFF
            &&& bytes[n - 3] == 0x00
            &&& bytes[n - 2] == 0xFF
            &&& bytes[n - 1] == 0xA5
        },
{
    if bytes.len() >= 4 {
        let last = bytes.skip(bytes.len() - 4);
        let n = bytes.len() as int;
        assert(last[0] == bytes[n - 4] && last[1] == bytes[n - 3] && last[2] == bytes[n - 2]
            && last[3] == bytes[n - 1]);
        assert((last[0] == 0xFF && last[1] == 0x00 && last[2] == 0xFF && last[3] == 0xA5) ==> last
            =~= preamble());
    }
}

/// Once a byte has been seen the bus is not free until a header has gone by and its packet is
/// read: the scanner keeps the last three bytes, and a pause does not make it forget them.
pub proof fn law_scanner_remembers_the_last_bytes(bytes: Seq<u8>)
    requires
        bytes.len() > 0,
        !header_inside(bytes),
        !ends_with_header(bytes),
    ensures
        scanned(bytes).len() == if bytes.len() < 3 { bytes.len() } else { 3 },
        scanned(bytes) == bytes.skip(bytes.len() - scanned(bytes).len()),
        scan_step(scanned(bytes), None) == (scanned(bytes), None::<HeaderScan>),
{
    lemma_scanned(bytes);
    assert(bytes.skip(0) =~= bytes);
}

} // verus!
