//! Modem lines on a serial port: the settings as read, and spotting
//! "NO CARRIER" in what the modem sends.

use vstd::prelude::*;
use crate::text::{chars_of, eq_ignore_ascii_case, same_ignoring_case};

verus! {

/// Flow control on the serial port.
#[derive(Debug, Clone, Copy, PartialEq, Eq, Structural)]
pub enum Flow {
    Off,
    Hardware,
    Software,
}

/// The flow control a setting names, in any case: `hardware`, `hw`, `rts`;
/// `software`, `sw`, `xon`; anything else is none.
pub open spec fn flow_of(s: Seq<char>) -> Flow {
    if eq_ignore_ascii_case(s, "hardware"@) || eq_ignore_ascii_case(s, "hw"@) || eq_ignore_ascii_case(s, "rts"@) {
        Flow::Hardware
    } else if eq_ignore_ascii_case(s, "software"@) || eq_ignore_ascii_case(s, "sw"@)
        || eq_ignore_ascii_case(s, "xon"@) {
        Flow::Software
    } else {
        Flow::Off
    }
}

pub fn flow(s: &str) -> (r: Flow)
    ensures
        r == flow_of(s@),
{
    if same_ignoring_case(s, "hardware") || same_ignoring_case(s, "hw") || same_ignoring_case(s, "rts") {
        Flow::Hardware
    } else if same_ignoring_case(s, "software") || same_ignoring_case(s, "sw") || same_ignoring_case(s, "xon") {
        Flow::Software
    } else {
        Flow::Off
    }
}

/// How a lost carrier is noticed: by the DCD signal, by the text "NO
/// CARRIER", or both.
pub fn carrier_checks(setting: &str) -> (r: (bool, bool))
    ensures
        r.0 == (setting@ == "dcd"@ || setting@ == "both"@),
        r.1 == (setting@ == "text"@ || setting@ == "both"@),
{
    let s = chars_of(setting);
    let dcd = crate::session::chat::eq_lit(&s, "dcd");
    let text = crate::session::chat::eq_lit(&s, "text");
    let both = crate::session::chat::eq_lit(&s, "both");
    (dcd || both, text || both)
}

/// Whether the line is hung up by the escape sequence (`+++`, then `ATH0`)
/// rather than by dropping DTR.
pub fn hangup_by_escape(setting: &str) -> (r: bool)
    ensures
        r == (setting@ == "escape"@),
{
    crate::session::chat::eq_lit(&chars_of(setting), "escape")
}

/// What a modem says when the carrier is lost.
pub open spec fn no_carrier() -> Seq<u8> {
    seq![78u8, 79u8, 32u8, 67u8, 65u8, 82u8, 82u8, 73u8, 69u8, 82u8]
}

/// `s` holds `pat` at index `k`.
pub open spec fn occurs_at(s: Seq<u8>, pat: Seq<u8>, k: int) -> bool {
    0 <= k && k + pat.len() <= s.len() && s.subrange(k, k + pat.len()) == pat
}

/// `s` holds `pat` somewhere.
pub open spec fn holds(s: Seq<u8>, pat: Seq<u8>) -> bool {
    exists|k: int| occurs_at(s, pat, k)
}

/// How many bytes of the stream are kept to find a "NO CARRIER" that
/// arrives split over reads.
pub const KEEP: usize = 16;

/// The end of `s` that is kept: its last 16 bytes, or all of it.
pub open spec fn kept(s: Seq<u8>) -> Seq<u8> {
    if s.len() > 16 { s.skip(s.len() - 16) } else { s }
}

/// Looks for "NO CARRIER" in the bytes a modem sends while a session is on
/// line, read by read.
#[derive(Debug)]
pub struct CarrierScan {
    tail: Vec<u8>,
    reported: bool,
}

impl CarrierScan {
    /// The bytes kept from the reads so far.
    pub closed spec fn tail(&self) -> Seq<u8> {
        self.tail@
    }

    /// Whether the loss was reported already (it is reported once).
    pub closed spec fn reported(&self) -> bool {
        self.reported
    }

    pub fn new() -> (r: CarrierScan)
        ensures
            r.tail().len() == 0,
            !r.reported(),
    {
        CarrierScan { tail: Vec::new(), reported: false }
    }

    /// Off line: nothing is kept and nothing has been reported.
    pub fn reset(&mut self)
        ensures
            final(self).tail().len() == 0,
            !final(self).reported(),
    {
        self.tail = Vec::new();
        self.reported = false;
    }

    /// Takes the bytes of one read. Gives true when they complete a "NO
    /// CARRIER" (possibly begun in the bytes kept) that was not reported
    /// yet; afterwards the last 16 bytes are kept.
    pub fn feed(&mut self, data: &[u8]) -> (r: bool)
        ensures
            old(self).reported() ==> !r && *final(self) == *old(self),
            !old(self).reported() ==> {
                &&& r == holds(old(self).tail() + data@, no_carrier())
                &&& final(self).reported() == r
                &&& final(self).tail() == kept(old(self).tail() + data@)
            },
    {
        if self.reported {
            return false;
        }
        let ghost all = self.tail@ + data@;
        let mut i: usize = 0;
        while i < data.len()
            invariant
                i <= data@.len(),
                self.tail@ == old(self).tail@ + data@.subrange(0, i as int),
                self.reported == old(self).reported,
            decreases data.len() - i,
        {
            self.tail.push(data[i]);
            assert(data@.subrange(0, i + 1) == data@.subrange(0, i as int).push(data@[i as int]));
            i = i + 1;
        }
        assert(data@.subrange(0, data@.len() as int) == data@);
        assert(self.tail@ == all);
        let found = self.find();
        if found {
            self.reported = true;
        }
        let n = self.tail.len();
        if n > KEEP {
            let keep_from = n - KEEP;
            let mut rest: Vec<u8> = Vec::new();
            let mut j: usize = keep_from;
            while j < n
                invariant
                    keep_from <= j <= n,
                    n == self.tail@.len(),
                    self.tail@ == all,
                    rest@ == all.subrange(keep_from as int, j as int),
                decreases n - j,
            {
                rest.push(self.tail[j]);
                assert(all.subrange(keep_from as int, j + 1) == all.subrange(keep_from as int, j as int).push(all[j as int]));
                j = j + 1;
            }
            assert(all.subrange(keep_from as int, n as int) == all.skip(n - 16));
            self.tail = rest;
        }
        found
    }

    fn find(&self) -> (r: bool)
        ensures
            r == holds(self.tail@, no_carrier()),
    {
        let pat: [u8; 10] = [78, 79, 32, 67, 65, 82, 82, 73, 69, 82];
        assert(pat@ == no_carrier());
        if self.tail.len() < 10 {
            assert forall|k: int| !occurs_at(self.tail@, no_carrier(), k) by {}
            return false;
        }
        let n = self.tail.len();
        let mut k: usize = 0;
        while k <= n - 10
            invariant
                n == self.tail@.len(),
                n >= 10,
                pat@ == no_carrier(),
                forall|m: int| 0 <= m < k ==> !occurs_at(self.tail@, no_carrier(), m),
                k <= n - 9,
            decreases n - k,
        {
            let mut j: usize = 0;
            let mut same = true;
            while j < 10
                invariant
                    j <= 10,
                    n == self.tail@.len(),
                    k + 10 <= n,
                    pat@ == no_carrier(),
                    same == (forall|m: int| 0 <= m < j ==> self.tail@[k + m] == pat@[m]),
                decreases 10 - j,
            {
                if self.tail[k + j] != pat[j] {
                    same = false;
                }
                j = j + 1;
            }
            if same {
                assert(self.tail@.subrange(k as int, k + 10) =~= no_carrier());
                assert(occurs_at(self.tail@, no_carrier(), k as int));
                return true;
            }
            assert(!occurs_at(self.tail@, no_carrier(), k as int)) by {
                let m = choose|m: int| 0 <= m < 10 && self.tail@[k + m] != pat@[m];
                if occurs_at(self.tail@, no_carrier(), k as int) {
                    assert(self.tail@.subrange(k as int, k + 10)[m] == self.tail@[k + m]);
                }
            }
            k = k + 1;
        }
        assert forall|m: int| !occurs_at(self.tail@, no_carrier(), m) by {
            if occurs_at(self.tail@, no_carrier(), m) {
                assert(m < k);
            }
        }
        false
    }
}

/// A "NO CARRIER" that arrives split over two reads is still found: when
/// the stream so far (`before`) does not hold it but the stream with the
/// new bytes does, the bytes kept from `before` and the new bytes hold it.
pub proof fn lemma_split_no_carrier(before: Seq<u8>, data: Seq<u8>)
    requires
        !holds(before, no_carrier()),
        holds(before + data, no_carrier()),
    ensures
        holds(kept(before) + data, no_carrier()),
{
    let s = before + data;
    let p = no_carrier();
    let k = choose|k: int| occurs_at(s, p, k);
    if k + 10 <= before.len() {
        assert(before.subrange(k, k + 10) == s.subrange(k, k + 10));
        assert(occurs_at(before, p, k));
    }
    let off: int = if before.len() > 16 { before.len() - 16 } else { 0 };
    let t = kept(before) + data;
    assert(t == s.skip(off));
    assert(t.subrange(k - off, k - off + 10) == s.subrange(k, k + 10));
    assert(occurs_at(t, p, k - off));
}

} // verus!
