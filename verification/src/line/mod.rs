//! Lines (TCP / modem / WebSocket): what every line hands to a session and
//! the per-line information and counters.

pub mod serial;
pub mod telnet;
pub mod ws;

use vstd::prelude::*;

verus! {

/// What arrives from a line.
#[derive(Debug)]
pub enum InEvent {
    Data(Vec<u8>),
    /// Carrier lost (modem).
    CarrierLost,
    /// The connection closed.
    Closed,
}

/// What is sent to a line.
#[derive(Debug)]
pub enum OutCmd {
    Write(Vec<u8>),
    /// Hang the line up.
    Hangup,
}

#[derive(Debug, Clone, Copy, PartialEq, Eq, Structural)]
pub enum LineKind {
    Tcp,
    Modem,
    /// A WebSocket, such as from a software modem in a browser.
    Ws,
}

impl LineKind {
    pub fn label(self) -> (r: &'static str)
        ensures
            r@ == match self {
                LineKind::Tcp => "TCP"@,
                LineKind::Modem => "MODEM"@,
                LineKind::Ws => "WS"@,
            },
    {
        match self {
            LineKind::Tcp => "TCP",
            LineKind::Modem => "MODEM",
            LineKind::Ws => "WS",
        }
    }
}

/// Information on a line; the counters are updated as bytes pass.
#[derive(Debug)]
pub struct LineInfo {
    pub no: u16,
    pub kind: LineKind,
    /// Where the call comes from (TCP address / serial port).
    pub peer: String,
    /// Connection speed (the modem's CONNECT value).
    pub speed: String,
    pub rx_bytes: u64,
    pub tx_bytes: u64,
    /// While set, unsent data is dropped (to hang up quickly).
    pub abort: bool,
    /// A file transfer is running (telnet line-end folding is off).
    pub binary: bool,
}

impl LineInfo {
    pub fn new(no: u16, kind: LineKind, peer: &str) -> (r: LineInfo)
        ensures
            r.no == no,
            r.kind == kind,
            r.peer@ == peer@,
            r.speed@ == Seq::<char>::empty(),
            r.rx_bytes == 0,
            r.tx_bytes == 0,
            !r.abort,
            !r.binary,
    {
        LineInfo {
            no,
            kind,
            peer: String::from_str(peer),
            speed: String::new(),
            rx_bytes: 0,
            tx_bytes: 0,
            abort: false,
            binary: false,
        }
    }

    pub fn peer(&self) -> (r: String)
        ensures
            r@ == self.peer@,
    {
        self.peer.clone()
    }

    pub fn speed(&self) -> (r: String)
        ensures
            r@ == self.speed@,
    {
        self.speed.clone()
    }

    /// Counts received bytes (the counter wraps around at 2^64).
    pub fn add_rx(&mut self, n: usize)
        ensures
            final(self).rx_bytes == (old(self).rx_bytes + n) % 0x1_0000_0000_0000_0000,
            final(self).tx_bytes == old(self).tx_bytes,
            final(self).no == old(self).no,
            final(self).kind == old(self).kind,
            final(self).peer == old(self).peer,
            final(self).speed == old(self).speed,
            final(self).abort == old(self).abort,
            final(self).binary == old(self).binary,
    {
        self.rx_bytes = self.rx_bytes.wrapping_add(n as u64);
    }

    /// Counts sent bytes (the counter wraps around at 2^64).
    pub fn add_tx(&mut self, n: usize)
        ensures
            final(self).tx_bytes == (old(self).tx_bytes + n) % 0x1_0000_0000_0000_0000,
            final(self).rx_bytes == old(self).rx_bytes,
            final(self).no == old(self).no,
            final(self).kind == old(self).kind,
            final(self).peer == old(self).peer,
            final(self).speed == old(self).speed,
            final(self).abort == old(self).abort,
            final(self).binary == old(self).binary,
    {
        self.tx_bytes = self.tx_bytes.wrapping_add(n as u64);
    }
}

} // verus!
