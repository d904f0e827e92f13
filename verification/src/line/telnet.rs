//! The minimal telnet protocol, as a state machine without I/O.
//!
//! - on connect the server announces server-side echo (WILL ECHO) and SGA;
//! - IAC sequences are removed from the data and answered where needed;
//! - CR NUL and CR LF are folded into a single CR.

use vstd::prelude::*;

verus! {

pub const IAC: u8 = 255;
pub const DONT: u8 = 254;
pub const DO: u8 = 253;
pub const WONT: u8 = 252;
pub const WILL: u8 = 251;
pub const SB: u8 = 250;
pub const SE: u8 = 240;
pub const OPT_BINARY: u8 = 0;
pub const OPT_ECHO: u8 = 1;
pub const OPT_SGA: u8 = 3;

/// Where the parser stands between two bytes.
#[derive(Debug, Clone, Copy, PartialEq, Eq, Structural)]
pub enum State {
    Data,
    Iac,
    Opt(u8),
    Sub,
    SubIac,
}

pub struct Telnet {
    /// During a binary transfer the NUL / LF after a CR is kept.
    pub binary: bool,
    state: State,
    after_cr: bool,
    /// Answers already sent (the same answer is never sent twice).
    sent: Vec<(u8, u8)>,
}

/// The abstract state of a `Telnet`.
pub struct TelnetModel {
    pub binary: bool,
    pub state: State,
    pub after_cr: bool,
    pub sent: Seq<(u8, u8)>,
}

/// What one `feed` produces: the state after it, the bytes for the
/// application and the bytes to answer the peer with.
pub struct FeedResult {
    pub model: TelnetModel,
    pub data: Seq<u8>,
    pub replies: Seq<u8>,
}

impl View for Telnet {
    type V = TelnetModel;

    closed spec fn view(&self) -> TelnetModel {
        TelnetModel { binary: self.binary, state: self.state, after_cr: self.after_cr, sent: self.sent@ }
    }
}

/// The answer that a negotiation command asks for, if any: we do ECHO, SGA
/// and BINARY when asked, refuse every other option, accept SGA and BINARY
/// from the peer and refuse the rest; WONT needs no answer.
pub open spec fn negotiation_answer(cmd: u8, opt: u8) -> Option<(u8, u8)> {
    if cmd == DO {
        if opt == OPT_ECHO || opt == OPT_SGA || opt == OPT_BINARY {
            Some((WILL, opt))
        } else {
            Some((WONT, opt))
        }
    } else if cmd == DONT {
        Some((WONT, opt))
    } else if cmd == WILL {
        if opt == OPT_SGA || opt == OPT_BINARY {
            Some((DO, opt))
        } else {
            Some((DONT, opt))
        }
    } else {
        None
    }
}

/// Records `pair` and answers it, unless it was answered before.
pub open spec fn answer_once(t: TelnetModel, pair: (u8, u8)) -> (TelnetModel, Seq<u8>) {
    if t.sent.contains(pair) {
        (t, Seq::empty())
    } else {
        (TelnetModel { sent: t.sent.push(pair), ..t }, seq![IAC, pair.0, pair.1])
    }
}

/// One received byte: the next state, the data byte(s) for the application
/// and the answer bytes.
pub open spec fn step(t: TelnetModel, b: u8) -> (TelnetModel, Seq<u8>, Seq<u8>) {
    match t.state {
        State::Data => {
            if b == IAC {
                (TelnetModel { state: State::Iac, ..t }, Seq::empty(), Seq::empty())
            } else if t.after_cr && !t.binary && (b == 0 || b == 10) {
                (TelnetModel { after_cr: false, ..t }, Seq::empty(), Seq::empty())
            } else {
                (TelnetModel { after_cr: b == 13, ..t }, seq![b], Seq::empty())
            }
        },
        State::Iac => {
            if b == IAC {
                (TelnetModel { state: State::Data, after_cr: false, ..t }, seq![IAC], Seq::empty())
            } else if b == DO || b == DONT || b == WILL || b == WONT {
                (TelnetModel { state: State::Opt(b), ..t }, Seq::empty(), Seq::empty())
            } else if b == SB {
                (TelnetModel { state: State::Sub, ..t }, Seq::empty(), Seq::empty())
            } else {
                (TelnetModel { state: State::Data, ..t }, Seq::empty(), Seq::empty())
            }
        },
        State::Opt(cmd) => {
            let t1 = TelnetModel { state: State::Data, ..t };
            match negotiation_answer(cmd, b) {
                Some(pair) => {
                    let (t2, r) = answer_once(t1, pair);
                    (t2, Seq::empty(), r)
                },
                None => (t1, Seq::empty(), Seq::empty()),
            }
        },
        State::Sub => {
            if b == IAC {
                (TelnetModel { state: State::SubIac, ..t }, Seq::empty(), Seq::empty())
            } else {
                (t, Seq::empty(), Seq::empty())
            }
        },
        State::SubIac => {
            if b == SE {
                (TelnetModel { state: State::Data, ..t }, Seq::empty(), Seq::empty())
            } else {
                (TelnetModel { state: State::Sub, ..t }, Seq::empty(), Seq::empty())
            }
        },
    }
}

/// The bytes of `input`, taken in order from state `t`.
pub open spec fn run(t: TelnetModel, input: Seq<u8>) -> FeedResult
    decreases input.len(),
{
    if input.len() == 0 {
        FeedResult { model: t, data: Seq::empty(), replies: Seq::empty() }
    } else {
        let prev = run(t, input.drop_last());
        let (t2, d, r) = step(prev.model, input.last());
        FeedResult { model: t2, data: prev.data + d, replies: prev.replies + r }
    }
}

/// Every 0xFF doubled.
pub open spec fn escaped(data: Seq<u8>) -> Seq<u8>
    decreases data.len(),
{
    if data.len() == 0 {
        Seq::empty()
    } else {
        let b = data.last();
        escaped(data.drop_last()) + if b == IAC { seq![IAC, IAC] } else { seq![b] }
    }
}

/// The negotiation sent right after connecting.
pub open spec fn greeting_bytes() -> Seq<u8> {
    seq![IAC, WILL, OPT_ECHO, IAC, WILL, OPT_SGA, IAC, DO, OPT_SGA]
}

/// Each recorded answer as the three bytes IAC, command, option.
pub open spec fn answer_bytes(pairs: Seq<(u8, u8)>) -> Seq<u8>
    decreases pairs.len(),
{
    if pairs.len() == 0 {
        Seq::empty()
    } else {
        answer_bytes(pairs.drop_last()) + seq![IAC, pairs.last().0, pairs.last().1]
    }
}

/// Feeding input in two chunks gives what feeding it at once gives: the
/// data and the answers of the second chunk follow those of the first.
pub proof fn lemma_feed_in_chunks(t: TelnetModel, a: Seq<u8>, b: Seq<u8>)
    ensures
        run(t, a + b).model == run(run(t, a).model, b).model,
        run(t, a + b).data == run(t, a).data + run(run(t, a).model, b).data,
        run(t, a + b).replies == run(t, a).replies + run(run(t, a).model, b).replies,
    decreases b.len(),
{
    if b.len() == 0 {
        assert(a + b == a);
    } else {
        assert((a + b).drop_last() == a + b.drop_last());
        assert((a + b).last() == b.last());
        lemma_feed_in_chunks(t, a, b.drop_last());
    }
}

/// A feed never changes the binary flag.
pub proof fn lemma_feed_keeps_binary(t: TelnetModel, input: Seq<u8>)
    ensures
        run(t, input).model.binary == t.binary,
    decreases input.len(),
{
    if input.len() > 0 {
        lemma_feed_keeps_binary(t, input.drop_last());
    }
}

/// No CR in `d` is followed by NUL or LF (outside binary mode the parser
/// drops such a byte, as the Telnet line ending asks).
pub open spec fn no_cr_pair(d: Seq<u8>) -> bool {
    forall|i: int| 0 <= i && i + 1 < d.len() && #[trigger] d[i] == 13 ==> d[i + 1] != 0 && d[i + 1] != 10
}

/// Data escaped with `escape` and fed to a parser that stands between
/// commands comes out unchanged, with no answer, and leaves the parser
/// between commands with the same answers recorded: in binary mode for any
/// data, and otherwise for data in which no CR is followed by NUL or LF,
/// fed to a parser that has not just seen a CR.
pub proof fn lemma_escape_roundtrip(t: TelnetModel, d: Seq<u8>)
    requires
        t.state == State::Data,
        t.binary || (!t.after_cr && no_cr_pair(d)),
    ensures
        run(t, escaped(d)).data == d,
        run(t, escaped(d)).replies == Seq::<u8>::empty(),
        run(t, escaped(d)).model.state == State::Data,
        run(t, escaped(d)).model.binary == t.binary,
        run(t, escaped(d)).model.sent == t.sent,
        !t.binary ==> run(t, escaped(d)).model.after_cr == (d.len() > 0 && d.last() == 13),
    decreases d.len(),
{
    if d.len() > 0 {
        let pre = d.drop_last();
        let b = d.last();
        if !t.binary {
            assert forall|i: int| 0 <= i && i + 1 < pre.len() && #[trigger] pre[i] == 13
                implies pre[i + 1] != 0 && pre[i + 1] != 10 by {
                assert(pre[i] == d[i] && pre[i + 1] == d[i + 1]);
            }
        }
        lemma_escape_roundtrip(t, pre);
        let tail: Seq<u8> = if b == IAC { seq![IAC, IAC] } else { seq![b] };
        lemma_feed_in_chunks(t, escaped(pre), tail);
        let m = run(t, escaped(pre)).model;
        assert(escaped(d) == escaped(pre) + tail);
        let e = run(m, Seq::<u8>::empty());
        assert(e.model == m && e.data == Seq::<u8>::empty() && e.replies == Seq::<u8>::empty());
        if b == IAC {
            let one: Seq<u8> = seq![IAC];
            assert(tail.drop_last() == one);
            assert(one.drop_last() == Seq::<u8>::empty());
            assert(one.last() == IAC);
            assert(tail.last() == IAC);
            let r1 = run(m, one);
            assert(r1.model == TelnetModel { state: State::Iac, ..m });
            assert(r1.data == Seq::<u8>::empty());
            let r2 = run(m, tail);
            assert(r2.data == seq![IAC]);
            assert(r2.replies == Seq::<u8>::empty());
        } else {
            if !t.binary && m.after_cr {
                let k = pre.len() - 1;
                assert(d[k] == 13);
                assert(d[k + 1] == b);
            }
            assert(tail.drop_last() == Seq::<u8>::empty());
            assert(tail.last() == b);
            let r2 = run(m, tail);
            assert(r2.data == seq![b]);
            assert(r2.replies == Seq::<u8>::empty());
        }
        assert(pre.push(b) == d);
    }
}

/// How a negotiation command from the peer is answered, standing between
/// commands: a DO for ECHO, SGA or BINARY is agreed to with WILL and any
/// other DO refused with WONT; a DONT is answered WONT; a WILL for SGA or
/// BINARY is agreed to with DO and any other refused with DONT; each answer
/// is sent only the first time, and no data comes out.
pub proof fn lemma_negotiation(t: TelnetModel, cmd: u8, opt: u8)
    requires
        t.state == State::Data,
        cmd == DO || cmd == DONT || cmd == WILL,
    ensures
        ({
            let ans: u8 = if cmd == DO {
                if opt == OPT_ECHO || opt == OPT_SGA || opt == OPT_BINARY { WILL } else { WONT }
            } else if cmd == DONT {
                WONT
            } else {
                if opt == OPT_SGA || opt == OPT_BINARY { DO } else { DONT }
            };
            let r = run(t, seq![IAC, cmd, opt]);
            &&& r.data.len() == 0
            &&& r.model.state == State::Data
            &&& r.model.binary == t.binary
            &&& !t.sent.contains((ans, opt)) ==> r.replies == seq![IAC, ans, opt] && r.model.sent == t.sent.push((ans, opt))
            &&& t.sent.contains((ans, opt)) ==> r.replies.len() == 0 && r.model.sent == t.sent
        }),
{
    let input: Seq<u8> = seq![IAC, cmd, opt];
    assert(input.drop_last() == seq![IAC, cmd]);
    assert(input.drop_last().drop_last() == seq![IAC]);
    assert(input.drop_last().drop_last().drop_last() == Seq::<u8>::empty());
    reveal_with_fuel(run, 4);
}

/// The same answer is never sent twice: the answers of a feed are exactly
/// the pairs it newly records, each recorded once, after the pairs that
/// were recorded before.
pub proof fn lemma_answers_never_repeat(t: TelnetModel, input: Seq<u8>)
    requires
        t.sent.no_duplicates(),
    ensures
        run(t, input).model.sent.no_duplicates(),
        t.sent.len() <= run(t, input).model.sent.len(),
        run(t, input).model.sent.take(t.sent.len() as int) == t.sent,
        run(t, input).replies == answer_bytes(run(t, input).model.sent.skip(t.sent.len() as int)),
    decreases input.len(),
{
    if input.len() == 0 {
        assert(t.sent.take(t.sent.len() as int) == t.sent);
        assert(t.sent.skip(t.sent.len() as int) == Seq::<(u8, u8)>::empty());
    } else {
        lemma_answers_never_repeat(t, input.drop_last());
        let prev = run(t, input.drop_last());
        let m = prev.model;
        let b = input.last();
        let n = t.sent.len() as int;
        if let State::Opt(cmd) = m.state {
            if let Some(pair) = negotiation_answer(cmd, b) {
                if !m.sent.contains(pair) {
                    let s2 = m.sent.push(pair);
                    assert(s2.take(n) == m.sent.take(n));
                    assert(s2.skip(n).drop_last() == m.sent.skip(n));
                    assert(s2.skip(n).last() == pair);
                    assert forall|i: int, j: int| 0 <= i < s2.len() && 0 <= j < s2.len() && i != j
                        implies s2[i] != s2[j] by {
                        if i == s2.len() - 1 {
                            assert(!m.sent.contains(pair));
                            assert(m.sent[j] == s2[j]);
                        } else if j == s2.len() - 1 {
                            assert(m.sent[i] == s2[i]);
                        }
                    }
                }
            }
        }
    }
}

fn contains_pair(v: &Vec<(u8, u8)>, pair: (u8, u8)) -> (r: bool)
    ensures
        r == v@.contains(pair),
{
    let mut i: usize = 0;
    while i < v.len()
        invariant
            i <= v.len(),
            forall|j: int| 0 <= j < i ==> v@[j] != pair,
        decreases v.len() - i,
    {
        let p = v[i];
        if p.0 == pair.0 && p.1 == pair.1 {
            assert(v@[i as int] == pair);
            return true;
        }
        i = i + 1;
    }
    false
}

impl Telnet {
    pub fn new() -> (t: Telnet)
        ensures
            t@.binary == false,
            t@.state == State::Data,
            t@.after_cr == false,
            t@.sent == seq![(WILL, OPT_ECHO), (WILL, OPT_SGA)],
    {
        let mut sent = Vec::new();
        sent.push((WILL, OPT_ECHO));
        sent.push((WILL, OPT_SGA));
        Telnet { binary: false, state: State::Data, after_cr: false, sent }
    }

    /// The negotiation to send right after connecting.
    pub fn greeting() -> (g: Vec<u8>)
        ensures
            g@ == greeting_bytes(),
    {
        let mut g = Vec::new();
        g.push(IAC);
        g.push(WILL);
        g.push(OPT_ECHO);
        g.push(IAC);
        g.push(WILL);
        g.push(OPT_SGA);
        g.push(IAC);
        g.push(DO);
        g.push(OPT_SGA);
        g
    }

    /// Outgoing data with every 0xFF sent as IAC IAC.
    pub fn escape(data: &[u8]) -> (out: Vec<u8>)
        ensures
            out@ == escaped(data@),
    {
        let mut out: Vec<u8> = Vec::new();
        let mut i: usize = 0;
        while i < data.len()
            invariant
                i <= data.len(),
                out@ == escaped(data@.take(i as int)),
            decreases data.len() - i,
        {
            let b = data[i];
            assert(data@.take(i + 1).drop_last() == data@.take(i as int));
            out.push(b);
            if b == IAC {
                out.push(IAC);
            }
            i = i + 1;
        }
        assert(data@.take(data.len() as int) == data@);
        out
    }

    fn reply(&mut self, cmd: u8, opt: u8, replies: &mut Vec<u8>)
        ensures
            final(self)@ == answer_once(old(self)@, (cmd, opt)).0,
            final(replies)@ == old(replies)@ + answer_once(old(self)@, (cmd, opt)).1,
    {
        if !contains_pair(&self.sent, (cmd, opt)) {
            self.sent.push((cmd, opt));
            replies.push(IAC);
            replies.push(cmd);
            replies.push(opt);
        }
    }

    fn negotiate(&mut self, cmd: u8, opt: u8, replies: &mut Vec<u8>)
        ensures
            match negotiation_answer(cmd, opt) {
                Some(pair) => {
                    &&& final(self)@ == answer_once(old(self)@, pair).0
                    &&& final(replies)@ == old(replies)@ + answer_once(old(self)@, pair).1
                },
                None => final(self)@ == old(self)@ && final(replies)@ == old(replies)@,
            },
    {
        if cmd == DO {
            if opt == OPT_ECHO || opt == OPT_SGA || opt == OPT_BINARY {
                self.reply(WILL, opt, replies);
            } else {
                self.reply(WONT, opt, replies);
            }
        } else if cmd == DONT {
            self.reply(WONT, opt, replies);
        } else if cmd == WILL {
            if opt == OPT_SGA || opt == OPT_BINARY {
                self.reply(DO, opt, replies);
            } else {
                self.reply(DONT, opt, replies);
            }
        }
    }

    /// Processes received bytes: returns (data for the application, answer
    /// for the peer).
    pub fn feed(&mut self, input: &[u8]) -> (r: (Vec<u8>, Vec<u8>))
        ensures
            final(self)@ == run(old(self)@, input@).model,
            r.0@ == run(old(self)@, input@).data,
            r.1@ == run(old(self)@, input@).replies,
    {
        let mut data: Vec<u8> = Vec::new();
        let mut replies: Vec<u8> = Vec::new();
        let ghost start = self@;
        let mut i: usize = 0;
        while i < input.len()
            invariant
                i <= input.len(),
                self@ == run(start, input@.take(i as int)).model,
                data@ == run(start, input@.take(i as int)).data,
                replies@ == run(start, input@.take(i as int)).replies,
            decreases input.len() - i,
        {
            let b = input[i];
            assert(input@.take(i + 1).drop_last() == input@.take(i as int));
            assert(input@.take(i + 1).last() == b);
            match self.state {
                State::Data => {
                    if b == IAC {
                        self.state = State::Iac;
                    } else if self.after_cr && !self.binary && (b == 0 || b == 10) {
                        self.after_cr = false;
                    } else {
                        self.after_cr = b == 13;
                        data.push(b);
                    }
                },
                State::Iac => {
                    if b == IAC {
                        self.after_cr = false;
                        data.push(IAC);
                        self.state = State::Data;
                    } else if b == DO || b == DONT || b == WILL || b == WONT {
                        self.state = State::Opt(b);
                    } else if b == SB {
                        self.state = State::Sub;
                    } else {
                        self.state = State::Data;
                    }
                },
                State::Opt(cmd) => {
                    self.state = State::Data;
                    self.negotiate(cmd, b, &mut replies);
                },
                State::Sub => {
                    if b == IAC {
                        self.state = State::SubIac;
                    }
                },
                State::SubIac => {
                    if b == SE {
                        self.state = State::Data;
                    } else {
                        self.state = State::Sub;
                    }
                },
            }
            i = i + 1;
        }
        assert(input@.take(input.len() as int) == input@);
        (data, replies)
    }
}

} // verus!
