//! State shared by all lines: the line slots, the answer requests for modem
//! lines and the chat rooms, as plain data. Delivering notices is left to
//! the caller: the operations that notify say to whom and what.

use vstd::prelude::*;
use crate::line::{LineInfo, LineKind};
use crate::text::{all_ascii_digits, all_digits, digits_value, lemma_digits_value_prefix, sign_stripped, chars_of, chars_eq, chars_eq_ignore_ascii_case, lex_lt, lemma_lex_irreflexive, lemma_lex_transitive, lemma_lex_total, push_char, push_decimal2, str_lt};

verus! {

#[derive(Debug, Clone, Copy, PartialEq, Eq, Structural)]
pub enum LineState {
    /// Unused (a free TCP line).
    Free,
    /// Modem being initialised.
    Init,
    /// Waiting for a call.
    Idle,
    Ringing,
    Connecting,
    /// Connected, before login.
    Login,
    Online,
    Hangup,
    Error,
}

impl LineState {
    pub fn label(self) -> (r: &'static str)
        ensures
            r@ == match self {
                LineState::Free => "空き"@,
                LineState::Init => "初期化"@,
                LineState::Idle => "待機"@,
                LineState::Ringing => "着信"@,
                LineState::Connecting => "接続中"@,
                LineState::Login => "ログイン"@,
                LineState::Online => "利用中"@,
                LineState::Hangup => "切断中"@,
                LineState::Error => "エラー"@,
            },
    {
        match self {
            LineState::Free => "空き",
            LineState::Init => "初期化",
            LineState::Idle => "待機",
            LineState::Ringing => "着信",
            LineState::Connecting => "接続中",
            LineState::Login => "ログイン",
            LineState::Online => "利用中",
            LineState::Hangup => "切断中",
            LineState::Error => "エラー",
        }
    }
}

/// A notice that interrupts a session.
#[derive(Debug)]
pub enum Notice {
    /// A broadcast from the SYSOP.
    System(String),
    /// A telegram (a one-line message to one user).
    Telegram { from: String, text: String },
    Chat { room: String, text: String },
    /// Forced hang-up.
    Kick(String),
}

/// One line.
#[derive(Debug)]
pub struct Slot {
    pub kind: Option<LineKind>,
    /// The serial port of a modem line.
    pub modem_path: Option<String>,
    pub state: LineState,
    pub info: Option<LineInfo>,
    pub user_id: Option<i64>,
    pub login: String,
    pub handle: String,
    pub place: String,
    /// When the session started (UNIX seconds).
    pub connected_at: Option<i64>,
    /// A session is attached and takes notices.
    pub attached: bool,
    pub note: String,
}

/// A snapshot of a line, for display.
#[derive(Debug)]
pub struct SlotView {
    pub no: u16,
    pub kind: Option<LineKind>,
    pub state: LineState,
    pub port: String,
    pub peer: String,
    pub speed: String,
    pub user_id: Option<i64>,
    pub login: String,
    pub handle: String,
    pub place: String,
    pub connected_at: Option<i64>,
    pub rx: u64,
    pub tx: u64,
    pub note: String,
}

/// Members of a chat room, by line number.
#[derive(Debug)]
pub struct Room {
    pub name: String,
    pub members: Vec<u16>,
}

#[derive(Debug)]
pub struct Hub {
    bbs_name: String,
    slots: Vec<Slot>,
    /// Chat rooms, in order of name.
    rooms: Vec<Room>,
    /// Modem lines told by the console to answer now (ATA).
    answer_requests: Vec<u16>,
    /// Calls so far (wraps around).
    calls: u32,
}

/// The abstract state of a `Hub`.
pub struct HubModel {
    pub bbs_name: Seq<char>,
    pub calls: u32,
    pub slots: Seq<Slot>,
    pub rooms: Seq<(Seq<char>, Seq<u16>)>,
    pub answers: Seq<u16>,
}

impl View for Hub {
    type V = HubModel;

    closed spec fn view(&self) -> HubModel {
        HubModel {
            bbs_name: self.bbs_name@,
            calls: self.calls,
            slots: self.slots@,
            rooms: Seq::new(self.rooms@.len(), |i: int| (self.rooms@[i].name@, self.rooms@[i].members@)),
            answers: self.answer_requests@,
        }
    }
}

/// A line with nothing attached: a modem line waits for initialisation, any
/// other line is free.
pub open spec fn empty_slot(modem_path: Option<Seq<char>>, s: Slot) -> bool {
    &&& s.kind == (if modem_path is Some { Some(LineKind::Modem) } else { None::<LineKind> })
    &&& s.state == (if modem_path is Some { LineState::Init } else { LineState::Free })
    &&& (match s.modem_path {
        Some(p) => modem_path == Some(p@),
        None => modem_path is None,
    })
    &&& s.info is None
    &&& s.user_id is None
    &&& s.login@.len() == 0
    &&& s.handle@.len() == 0
    &&& s.place@.len() == 0
    &&& s.connected_at is None
    &&& !s.attached
    &&& s.note@.len() == 0
}

fn new_slot(modem_path: Option<String>) -> (s: Slot)
    ensures
        empty_slot(match modem_path { Some(p) => Some(p@), None => None }, s),
        s.modem_path == modem_path,
{
    let kind = match &modem_path {
        Some(_) => Some(LineKind::Modem),
        None => None,
    };
    let state = match &modem_path {
        Some(_) => LineState::Init,
        None => LineState::Free,
    };
    Slot {
        kind,
        modem_path,
        state,
        info: None,
        user_id: None,
        login: String::new(),
        handle: String::new(),
        place: String::new(),
        connected_at: None,
        attached: false,
        note: String::new(),
    }
}

/// The port of the first modem given for line `no`.
pub open spec fn modem_for(modems: Seq<(u16, String)>, no: int) -> Option<Seq<char>>
    decreases modems.len(),
{
    if modems.len() == 0 {
        None
    } else if modems[0].0 == no {
        Some(modems[0].1@)
    } else {
        modem_for(modems.drop_first(), no)
    }
}

fn find_modem(modems: &Vec<(u16, String)>, no: u16) -> (r: Option<String>)
    ensures
        match r {
            Some(p) => modem_for(modems@, no as int) == Some(p@),
            None => modem_for(modems@, no as int) is None,
        },
{
    let mut i: usize = 0;
    assert(modems@.skip(0) == modems@);
    while i < modems.len()
        invariant
            i <= modems.len(),
            modem_for(modems@, no as int) == modem_for(modems@.skip(i as int), no as int),
        decreases modems.len() - i,
    {
        assert(modems@.skip(i as int)[0] == modems@[i as int]);
        if modems[i].0 == no {
            return Some(modems[i].1.clone());
        }
        assert(modems@.skip(i as int).drop_first() == modems@.skip(i + 1));
        i = i + 1;
    }
    None
}

/// A line that `alloc` may take: not a modem line, and free.
pub open spec fn allocatable(s: Slot) -> bool {
    s.modem_path is None && s.state == LineState::Free
}

/// Every line is numbered from 1, so there are at most `u16::MAX` lines.
pub open spec fn slots_fit(slots: Seq<Slot>) -> bool {
    slots.len() <= u16::MAX
}

pub open spec fn increasing(s: Seq<u16>) -> bool {
    forall|i: int, j: int| 0 <= i < j < s.len() ==> s[i] < s[j]
}

/// The rooms are in strict order of name and the members of each room in
/// strict order of line number.
pub open spec fn rooms_wf(r: Seq<(Seq<char>, Seq<u16>)>) -> bool {
    &&& forall|i: int, j: int| 0 <= i < j < r.len() ==> lex_lt(r[i].0, r[j].0)
    &&& forall|i: int| 0 <= i < r.len() ==> increasing(#[trigger] r[i].1)
}

pub open spec fn has_room(r: Seq<(Seq<char>, Seq<u16>)>, name: Seq<char>) -> bool {
    exists|i: int| 0 <= i < r.len() && r[i].0 == name
}

/// The members of room `name`, in order (none for a room that does not
/// exist).
pub open spec fn members(r: Seq<(Seq<char>, Seq<u16>)>, name: Seq<char>) -> Seq<u16> {
    if has_room(r, name) {
        r[choose|i: int| 0 <= i < r.len() && r[i].0 == name].1
    } else {
        Seq::empty()
    }
}

proof fn lemma_members_at(r: Seq<(Seq<char>, Seq<u16>)>, i: int)
    requires
        rooms_wf(r),
        0 <= i < r.len(),
    ensures
        has_room(r, r[i].0),
        members(r, r[i].0) == r[i].1,
{
    let k = choose|k: int| 0 <= k < r.len() && r[k].0 == r[i].0;
    if k != i {
        if k < i {
            assert(lex_lt(r[k].0, r[i].0));
        } else {
            assert(lex_lt(r[i].0, r[k].0));
        }
        lemma_lex_irreflexive(r[i].0);
    }
}

/// `s` with `x` added, kept in order.
proof fn lemma_insert_increasing(s: Seq<u16>, q: int, x: u16)
    requires
        increasing(s),
        0 <= q <= s.len(),
        forall|k: int| 0 <= k < q ==> s[k] < x,
        forall|k: int| q <= k < s.len() ==> x < s[k],
    ensures
        increasing(s.insert(q, x)),
        s.insert(q, x).to_set() == s.to_set().insert(x),
{
    let t = s.insert(q, x);
    assert forall|a: u16| #[trigger] t.to_set().contains(a) == s.to_set().insert(x).contains(a) by {
        if t.to_set().contains(a) {
            let k = choose|k: int| 0 <= k < t.len() && t[k] == a;
            if k < q {
                assert(s[k] == a);
            } else if k > q {
                assert(s[k - 1] == a);
            }
        }
        if s.to_set().contains(a) {
            let k = choose|k: int| 0 <= k < s.len() && s[k] == a;
            if k < q {
                assert(t[k] == a);
            } else {
                assert(t[k + 1] == a);
            }
        }
        if a == x {
            assert(t[q] == x);
        }
    }
    assert(t.to_set() == s.to_set().insert(x));
}

/// Adds `x` to an ordered list of line numbers.
fn insert_sorted(v: &mut Vec<u16>, x: u16)
    requires
        increasing(old(v)@),
    ensures
        increasing(final(v)@),
        final(v)@.to_set() == old(v)@.to_set().insert(x),
{
    let mut q: usize = 0;
    while q < v.len() && v[q] < x
        invariant
            q <= v.len(),
            increasing(v@),
            forall|k: int| 0 <= k < q ==> v@[k] < x,
        decreases v.len() - q,
    {
        q = q + 1;
    }
    if q < v.len() && v[q] == x {
        assert(v@.to_set().contains(x));
        assert(v@.to_set().insert(x) == v@.to_set());
        return;
    }
    proof {
        lemma_insert_increasing(v@, q as int, x);
    }
    v.insert(q, x);
}

/// Removes `x` from an ordered list of line numbers.
fn remove_sorted(v: &mut Vec<u16>, x: u16)
    requires
        increasing(old(v)@),
    ensures
        increasing(final(v)@),
        final(v)@.to_set() == old(v)@.to_set().remove(x),
{
    let mut q: usize = 0;
    while q < v.len() && v[q] != x
        invariant
            q <= v.len(),
            forall|k: int| 0 <= k < q ==> v@[k] != x,
        decreases v.len() - q,
    {
        q = q + 1;
    }
    if q == v.len() {
        assert(!v@.to_set().contains(x));
        assert(v@.to_set().remove(x) == v@.to_set());
        return;
    }
    let ghost s = v@;
    v.remove(q);
    assert(v@ == s.remove(q as int));
    assert forall|i: int, j: int| 0 <= i < j < v@.len() implies v@[i] < v@[j] by {
        if i >= q {
            assert(v@[i] == s[i + 1] && v@[j] == s[j + 1]);
        } else if j >= q {
            assert(v@[i] == s[i] && v@[j] == s[j + 1]);
        }
    }
    assert forall|a: u16| #[trigger] v@.to_set().contains(a) == s.to_set().remove(x).contains(a) by {
        if v@.to_set().contains(a) {
            let k = choose|k: int| 0 <= k < v@.len() && v@[k] == a;
            if k < q {
                assert(s[k] == a);
            } else {
                assert(s[k + 1] == a);
                assert(s[k + 1] != s[q as int]);
            }
        }
        if s.to_set().remove(x).contains(a) {
            let k = choose|k: int| 0 <= k < s.len() && s[k] == a;
            if k < q {
                assert(v@[k] == a);
            } else if k > q {
                assert(v@[k - 1] == a);
            }
        }
    }
    assert(v@.to_set() == s.to_set().remove(x));
}

/// A message for the members of a chat room.
#[derive(Debug)]
pub struct ChatMessage {
    pub room: String,
    /// Lines to deliver it to, in order of line number.
    pub recipients: Vec<u16>,
    pub text: String,
}

/// A line number other than `except`.
pub open spec fn other_than(except: u16) -> spec_fn(u16) -> bool {
    |x: u16| x != except
}

/// The members of `name` other than `except`, in order.
pub open spec fn others(r: Seq<(Seq<char>, Seq<u16>)>, name: Seq<char>, except: u16) -> Seq<u16> {
    members(r, name).filter(other_than(except))
}

fn others_of(v: &Vec<u16>, except: u16) -> (r: Vec<u16>)
    ensures
        r@ == v@.filter(other_than(except)),
{
    let mut out: Vec<u16> = Vec::new();
    let mut i: usize = 0;
    while i < v.len()
        invariant
            i <= v.len(),
            out@ == v@.take(i as int).filter(other_than(except)),
        decreases v.len() - i,
    {
        assert(v@.take(i + 1).drop_last() == v@.take(i as int));
        reveal_with_fuel(Seq::<_>::filter, 1);
        if v[i] != except {
            out.push(v[i]);
        }
        i = i + 1;
    }
    assert(v@.take(v.len() as int) == v@);
    out
}

/// The label of a line state, as `LineState::label` gives it.
pub open spec fn state_label(s: LineState) -> Seq<char> {
    match s {
        LineState::Free => "空き"@,
        LineState::Init => "初期化"@,
        LineState::Idle => "待機"@,
        LineState::Ringing => "着信"@,
        LineState::Connecting => "接続中"@,
        LineState::Login => "ログイン"@,
        LineState::Online => "利用中"@,
        LineState::Hangup => "切断中"@,
        LineState::Error => "エラー"@,
    }
}

/// "CH" and the line number in two digits.
pub open spec fn channel_text(no: u16) -> Seq<char> {
    seq!['C', 'H'] + crate::text::decimal2(no as nat)
}

fn push_channel(s: &mut String, no: u16)
    ensures
        final(s)@ == old(s)@ + channel_text(no),
{
    push_char(s, 'C');
    push_char(s, 'H');
    push_decimal2(s, no as u64);
    assert(old(s)@.push('C').push('H') == old(s)@ + seq!['C', 'H']);
}

/// The refusal of an answer request for line `no`: a modem line in the
/// wrong state, or not a modem line.
pub open spec fn answer_refusal(no: u16, modem_state: Option<LineState>) -> Seq<char> {
    match modem_state {
        Some(st) => channel_text(no) + " は"@ + state_label(st) + "のため応答できません"@,
        None => channel_text(no) + " はモデム回線ではありません"@,
    }
}

fn contains_u16(v: &Vec<u16>, x: u16) -> (r: bool)
    ensures
        r == v@.contains(x),
{
    let mut i: usize = 0;
    while i < v.len()
        invariant
            i <= v.len(),
            forall|j: int| 0 <= j < i ==> v@[j] != x,
        decreases v.len() - i,
    {
        if v[i] == x {
            assert(v@[i as int] == x);
            return true;
        }
        i = i + 1;
    }
    false
}

/// After a member joins room `name`: the room exists, it has `no` as well,
/// and no other room changed.
pub open spec fn rooms_after_join(o: Seq<(Seq<char>, Seq<u16>)>, n: Seq<(Seq<char>, Seq<u16>)>, name: Seq<char>, no: u16) -> bool {
    &&& rooms_wf(n)
    &&& forall|k: Seq<char>| has_room(n, k) == (has_room(o, k) || k == name)
    &&& members(n, name).to_set() == members(o, name).to_set().insert(no)
    &&& forall|k: Seq<char>| k != name ==> members(n, k) == members(o, k)
}

/// After a member leaves room `name`: the same rooms exist (an empty room
/// stays), `no` is no longer in `name`, and no other room changed.
pub open spec fn rooms_after_leave(o: Seq<(Seq<char>, Seq<u16>)>, n: Seq<(Seq<char>, Seq<u16>)>, name: Seq<char>, no: u16) -> bool {
    &&& rooms_wf(n)
    &&& forall|k: Seq<char>| has_room(n, k) == has_room(o, k)
    &&& members(n, name).to_set() == members(o, name).to_set().remove(no)
    &&& forall|k: Seq<char>| k != name ==> members(n, k) == members(o, k)
}

/// Room `p` got new members `m`, with the members in order.
proof fn lemma_rooms_update(o: Seq<(Seq<char>, Seq<u16>)>, p: int, m: Seq<u16>)
    requires
        rooms_wf(o),
        0 <= p < o.len(),
        increasing(m),
    ensures
        rooms_wf(o.update(p, (o[p].0, m))),
        forall|k: Seq<char>| has_room(o.update(p, (o[p].0, m)), k) == has_room(o, k),
        members(o.update(p, (o[p].0, m)), o[p].0) == m,
        forall|k: Seq<char>| k != o[p].0 ==> members(o.update(p, (o[p].0, m)), k) == members(o, k),
{
    let n = o.update(p, (o[p].0, m));
    assert forall|k: Seq<char>| has_room(n, k) == has_room(o, k) by {
        if has_room(n, k) {
            let j = choose|j: int| 0 <= j < n.len() && n[j].0 == k;
            assert(o[j].0 == k);
        }
        if has_room(o, k) {
            let j = choose|j: int| 0 <= j < o.len() && o[j].0 == k;
            assert(n[j].0 == k);
        }
    }
    lemma_members_at(n, p);
    assert forall|k: Seq<char>| k != o[p].0 implies members(n, k) == members(o, k) by {
        if has_room(o, k) {
            let j = choose|j: int| 0 <= j < o.len() && o[j].0 == k;
            lemma_members_at(o, j);
            lemma_members_at(n, j);
        }
    }
}

/// A new room `name` with the single member `no`, placed at `p` in order.
proof fn lemma_rooms_insert(o: Seq<(Seq<char>, Seq<u16>)>, p: int, name: Seq<char>, no: u16)
    requires
        rooms_wf(o),
        0 <= p <= o.len(),
        forall|j: int| 0 <= j < p ==> lex_lt(#[trigger] o[j].0, name),
        p < o.len() ==> lex_lt(name, o[p].0),
    ensures
        rooms_after_join(o, o.insert(p, (name, seq![no])), name, no),
{
    let n = o.insert(p, (name, seq![no]));
    assert forall|j: int| p < j < o.len() implies lex_lt(name, #[trigger] o[j].0) by {
        lemma_lex_transitive(name, o[p].0, o[j].0);
    }
    assert forall|i: int, j: int| 0 <= i < j < n.len() implies lex_lt(n[i].0, n[j].0) by {
        if j == p {
            assert(n[i].0 == o[i].0);
        } else if i == p {
            assert(n[j].0 == o[j - 1].0);
            if j - 1 > p {
            }
        } else if i > p {
            assert(n[i].0 == o[i - 1].0 && n[j].0 == o[j - 1].0);
        } else if j > p {
            assert(n[i].0 == o[i].0 && n[j].0 == o[j - 1].0);
        } else {
            assert(n[i].0 == o[i].0 && n[j].0 == o[j].0);
        }
    }
    assert forall|i: int| 0 <= i < n.len() implies increasing(#[trigger] n[i].1) by {
        if i < p {
            assert(n[i] == o[i]);
        } else if i > p {
            assert(n[i] == o[i - 1]);
        }
    }
    assert(!has_room(o, name)) by {
        if has_room(o, name) {
            let j = choose|j: int| 0 <= j < o.len() && o[j].0 == name;
            lemma_lex_irreflexive(name);
            if j > p {
                assert(lex_lt(name, o[j].0));
            }
        }
    }
    assert forall|k: Seq<char>| has_room(n, k) == (has_room(o, k) || k == name) by {
        if has_room(n, k) {
            let j = choose|j: int| 0 <= j < n.len() && n[j].0 == k;
            if j < p {
                assert(o[j].0 == k);
            } else if j > p {
                assert(o[j - 1].0 == k);
            }
        }
        if has_room(o, k) {
            let j = choose|j: int| 0 <= j < o.len() && o[j].0 == k;
            if j < p {
                assert(n[j].0 == k);
            } else {
                assert(n[j + 1].0 == k);
            }
        }
        if k == name {
            assert(n[p].0 == k);
        }
    }
    lemma_members_at(n, p);
    assert(seq![no].to_set() == Set::<u16>::empty().insert(no)) by {
        assert forall|x: u16| seq![no].to_set().contains(x) == (x == no) by {
            if x == no {
                assert(seq![no][0] == x);
            }
        }
    }
    assert(members(o, name).to_set() == Set::<u16>::empty());
    assert forall|k: Seq<char>| k != name implies members(n, k) == members(o, k) by {
        if has_room(o, k) {
            let j = choose|j: int| 0 <= j < o.len() && o[j].0 == k;
            lemma_members_at(o, j);
            if j < p {
                assert(n[j] == o[j]);
                lemma_members_at(n, j);
            } else {
                assert(n[j + 1] == o[j]);
                lemma_members_at(n, j + 1);
            }
        }
    }
}

/// The text announcing that `handle` entered on line `no`.
pub open spec fn join_text(handle: Seq<char>, no: u16) -> Seq<char> {
    "*** "@ + handle + " さんが入室しました ("@ + channel_text(no) + ")"@
}

/// The text announcing that `handle` left.
pub open spec fn leave_text(handle: Seq<char>) -> Seq<char> {
    "*** "@ + handle + " さんが退室しました"@
}

/// What `handle` says in a room.
pub open spec fn say_text(handle: Seq<char>, text: Seq<char>) -> Seq<char> {
    handle + "> "@ + text
}

/// After line `no` leaves every room: the same rooms exist and no other
/// member changed.
pub open spec fn rooms_after_detach(o: Seq<(Seq<char>, Seq<u16>)>, n: Seq<(Seq<char>, Seq<u16>)>, no: u16) -> bool {
    &&& rooms_wf(n)
    &&& forall|k: Seq<char>| has_room(n, k) == has_room(o, k)
    &&& forall|k: Seq<char>| members(n, k).to_set() == #[trigger] members(o, k).to_set().remove(no)
}

/// `v` shows slot `s` as line `no`.
pub open spec fn shows(v: SlotView, no: int, s: Slot) -> bool {
    &&& v.no == no
    &&& v.kind == s.kind
    &&& v.state == s.state
    &&& v.port@ == (match s.modem_path { Some(p) => p@, None => Seq::<char>::empty() })
    &&& match s.info {
        Some(i) => v.peer@ == i.peer@ && v.speed@ == i.speed@ && v.rx == i.rx_bytes && v.tx == i.tx_bytes,
        None => v.peer@.len() == 0 && v.speed@.len() == 0 && v.rx == 0 && v.tx == 0,
    }
    &&& v.user_id == s.user_id
    &&& v.login@ == s.login@
    &&& v.handle@ == s.handle@
    &&& v.place@ == s.place@
    &&& v.connected_at == s.connected_at
    &&& v.note@ == s.note@
}

/// The numbers of the lines with a user logged in, in order.
pub open spec fn online_lines(slots: Seq<Slot>) -> Seq<u16>
    decreases slots.len(),
{
    if slots.len() == 0 {
        Seq::empty()
    } else if slots.last().user_id is Some {
        online_lines(slots.drop_last()).push(slots.len() as u16)
    } else {
        online_lines(slots.drop_last())
    }
}

/// The members `ms` that are logged in, with their handles.
pub open spec fn member_handles(ms: Seq<u16>, slots: Seq<Slot>) -> Seq<(u16, Seq<char>)>
    decreases ms.len(),
{
    if ms.len() == 0 {
        Seq::empty()
    } else {
        let rest = member_handles(ms.drop_last(), slots);
        let x = ms.last();
        if 1 <= x <= slots.len() && slots[x - 1].user_id is Some {
            rest.push((x, slots[x - 1].handle@))
        } else {
            rest
        }
    }
}

/// The rooms that have members, with how many, in order of name.
pub open spec fn listed_rooms(r: Seq<(Seq<char>, Seq<u16>)>) -> Seq<(Seq<char>, nat)>
    decreases r.len(),
{
    if r.len() == 0 {
        Seq::empty()
    } else if r.last().1.len() > 0 {
        listed_rooms(r.drop_last()).push((r.last().0, r.last().1.len()))
    } else {
        listed_rooms(r.drop_last())
    }
}

/// `str::parse::<u16>`: an optional `+`, then one or more decimal digits,
/// of value at most 65535.
pub open spec fn parse_u16(s: Seq<char>) -> Option<u16> {
    let d = sign_stripped(s);
    if d.len() > 0 && all_digits(d) && digits_value(d) <= u16::MAX {
        Some(digits_value(d) as u16)
    } else {
        None
    }
}

/// The lowest numbered line with a user whose login is `target`, ignoring
/// ASCII case.
pub open spec fn line_of_login(slots: Seq<Slot>, target: Seq<char>) -> Option<u16>
    decreases slots.len(),
{
    if slots.len() == 0 {
        None
    } else {
        match line_of_login(slots.drop_last(), target) {
            Some(n) => Some(n),
            None => if slots.last().user_id is Some && crate::text::eq_ignore_ascii_case(slots.last().login@, target) {
                Some(slots.len() as u16)
            } else {
                None
            },
        }
    }
}

/// Where a telegram to `target` goes: to the line with that number if it
/// is a number, else to the user with that login; only to a logged-in
/// user.
pub open spec fn telegram_dest(slots: Seq<Slot>, target: Seq<char>) -> Option<u16> {
    match parse_u16(target) {
        Some(n) => if 1 <= n <= slots.len() && slots[n - 1].user_id is Some { Some(n) } else { None },
        None => line_of_login(slots, target),
    }
}

/// The lines with a user logged in and a session that takes notices, in
/// order.
pub open spec fn reachable_lines(slots: Seq<Slot>) -> Seq<u16>
    decreases slots.len(),
{
    if slots.len() == 0 {
        Seq::empty()
    } else if slots.last().user_id is Some && slots.last().attached {
        reachable_lines(slots.drop_last()).push(slots.len() as u16)
    } else {
        reachable_lines(slots.drop_last())
    }
}

/// `str::parse::<u16>`.
pub fn parse_u16_of(s: &str) -> (r: Option<u16>)
    ensures
        r == parse_u16(s@),
{
    let v = chars_of(s);
    let start: usize = if v.len() > 0 && v[0] == '+' { 1 } else { 0 };
    let ghost d = sign_stripped(s@);
    assert(d == v@.skip(start as int));
    assert(d.len() == v@.len() - start);
    assert(forall|k: int| 0 <= k < d.len() ==> #[trigger] d[k] == v@[k + start]);
    if start >= v.len() {
        assert(d.len() == 0);
        return None;
    }
    if !all_ascii_digits(&v, start) {
        proof {
            let k = choose|k: int| start <= k < v@.len() && !crate::text::is_ascii_digit(#[trigger] v@[k]);
            assert(d[k - start] == v@[k]);
            assert(!all_digits(d));
        }
        return None;
    }
    assert(forall|k: int| 0 <= k < d.len() ==> crate::text::is_ascii_digit(#[trigger] d[k])) by {
        assert forall|k: int| 0 <= k < d.len() implies crate::text::is_ascii_digit(#[trigger] d[k]) by {
            assert(d[k] == v@[k + start]);
        }
    }
    let mut acc: u32 = 0;
    let mut i: usize = start;
    while i < v.len()
        invariant
            start <= i <= v@.len(),
            d == sign_stripped(s@),
            d.len() == v@.len() - start,
            forall|k: int| 0 <= k < d.len() ==> #[trigger] d[k] == v@[k + start],
            forall|k: int| 0 <= k < d.len() ==> crate::text::is_ascii_digit(#[trigger] d[k]),
            acc == digits_value(d.take(i - start)),
            acc <= u16::MAX,
        decreases v.len() - i,
    {
        let c = v[i];
        let ghost k = i - start;
        assert(d[k] == c);
        assert(d.take(k + 1).drop_last() == d.take(k));
        assert(d.take(k + 1).last() == c);
        let dv: u32 = (c as u32) - ('0' as u32);
        let next: u32 = acc * 10 + dv;
        if next > 65535 {
            assert(digits_value(d.take(k + 1)) == next);
            proof { lemma_digits_value_prefix(d, k + 1); }
            assert(digits_value(d) > u16::MAX);
            assert(parse_u16(s@) is None);
            return None;
        }
        acc = next;
        i = i + 1;
    }
    assert(d.take(i - start) == d);
    Some(acc as u16)
}

/// A telegram on its way to a line.
#[derive(Debug)]
pub struct Telegram {
    pub no: u16,
    pub notice: Notice,
    /// What the sender is told once it is delivered: the line and the handle.
    pub receipt: String,
    /// What the sender is told if it cannot be delivered.
    pub undelivered: String,
}

/// What the sender is told of a telegram to `target`, who is not there.
pub open spec fn absent_text(target: Seq<char>) -> Seq<char> {
    target + " は接続していません"@
}

/// What the sender is told of a telegram that `handle` could not be given.
pub open spec fn undelivered_text(handle: Seq<char>) -> Seq<char> {
    handle + " に届けられませんでした"@
}

proof fn lemma_line_of_login_prefix(s: Seq<Slot>, k: int, t: Seq<char>)
    requires
        0 <= k <= s.len(),
        line_of_login(s.take(k), t) is Some,
    ensures
        line_of_login(s, t) == line_of_login(s.take(k), t),
    decreases s.len() - k,
{
    if k < s.len() {
        assert(s.take(k + 1).drop_last() == s.take(k));
        lemma_line_of_login_prefix(s, k + 1, t);
    } else {
        assert(s.take(k) == s);
    }
}

impl Hub {
    /// `modems`: (line number, port); modem lines are fixed to those numbers.
    pub fn new(bbs_name: &str, max_lines: u16, modems: &Vec<(u16, String)>) -> (h: Hub)
        ensures
            h@.bbs_name == bbs_name@,
            h@.calls == 0,
            h@.slots.len() == max_lines,
            forall|i: int| 0 <= i < max_lines ==> empty_slot(modem_for(modems@, i + 1), #[trigger] h@.slots[i]),
            h@.rooms.len() == 0,
            h@.answers.len() == 0,
            h.wf(),
    {
        let mut slots: Vec<Slot> = Vec::new();
        let mut i: u16 = 0;
        while i < max_lines
            invariant
                i <= max_lines,
                slots@.len() == i,
                forall|k: int| 0 <= k < slots@.len() ==> empty_slot(modem_for(modems@, k + 1), #[trigger] slots@[k]),
            decreases max_lines - i,
        {
            let path = find_modem(modems, i + 1);
            slots.push(new_slot(path));
            i = i + 1;
        }
        let h = Hub { bbs_name: String::from_str(bbs_name), slots, rooms: Vec::new(), answer_requests: Vec::new(), calls: 0 };
        assert(h@.rooms == Seq::<(Seq<char>, Seq<u16>)>::empty());
        h
    }

    /// What the hub keeps true: at most `u16::MAX` lines, the rooms in order
    /// of name, the members of each room in order, and no line asked to
    /// answer twice.
    pub closed spec fn wf(&self) -> bool {
        &&& slots_fit(self.slots@)
        &&& rooms_wf(self@.rooms)
        &&& self.answer_requests@.no_duplicates()
    }

    pub fn bbs_name(&self) -> (r: String)
        ensures
            r@ == self@.bbs_name,
    {
        self.bbs_name.clone()
    }

    /// Calls so far.
    pub fn calls(&self) -> (r: u32)
        ensures
            r == self@.calls,
    {
        self.calls
    }

    /// Slot `no` (numbered from 1), if there is one.
    pub open spec fn is_line(self, no: u16) -> bool {
        1 <= no <= self@.slots.len()
    }

    /// Everything but slot `no` is as in `old`.
    pub open spec fn only_slot_changed(self, old: Hub, no: u16) -> bool {
        &&& self@.slots.len() == old@.slots.len()
        &&& forall|j: int| 0 <= j < self@.slots.len() && j != no - 1 ==> #[trigger] self@.slots[j] == old@.slots[j]
        &&& !old.is_line(no) ==> self@.slots == old@.slots
        &&& self@.rooms == old@.rooms
        &&& self@.answers == old@.answers
        &&& self@.bbs_name == old@.bbs_name
        &&& self@.calls == old@.calls
    }

    fn take_slot(&mut self, i: usize) -> (s: Slot)
        requires
            i < old(self)@.slots.len(),
        ensures
            s == old(self)@.slots[i as int],
            final(self)@.slots.len() == old(self)@.slots.len(),
            final(self)@.rooms == old(self)@.rooms,
            final(self)@.answers == old(self)@.answers,
            final(self)@.bbs_name == old(self)@.bbs_name,
            final(self)@.calls == old(self)@.calls,
            forall|j: int| 0 <= j < final(self)@.slots.len() && j != i ==> #[trigger] final(self)@.slots[j] == old(self)@.slots[j],
    {
        let mut s = new_slot(None);
        self.slots.set_and_swap(i, &mut s);
        s
    }

    fn put_slot(&mut self, i: usize, s: Slot)
        requires
            i < old(self)@.slots.len(),
        ensures
            final(self)@.slots == old(self)@.slots.update(i as int, s),
            final(self)@.rooms == old(self)@.rooms,
            final(self)@.answers == old(self)@.answers,
            final(self)@.bbs_name == old(self)@.bbs_name,
            final(self)@.calls == old(self)@.calls,
    {
        self.slots.set(i, s);
    }

    /// Takes a free line that is not a modem line, the lowest numbered one,
    /// for a connection of `kind`.
    pub fn alloc_line(&mut self, kind: LineKind) -> (r: Option<u16>)
        requires
            old(self).wf(),
        ensures
            final(self).wf(),
            match r {
                Some(no) => {
                    &&& old(self).is_line(no)
                    &&& allocatable(old(self)@.slots[no - 1])
                    &&& forall|j: int| 0 <= j < no - 1 ==> !allocatable(#[trigger] old(self)@.slots[j])
                    &&& final(self).only_slot_changed(*old(self), no)
                    &&& final(self)@.slots[no - 1] == (Slot { kind: Some(kind), state: LineState::Login, ..old(self)@.slots[no - 1] })
                },
                None => {
                    &&& forall|j: int| 0 <= j < old(self)@.slots.len() ==> !allocatable(#[trigger] old(self)@.slots[j])
                    &&& final(self)@ == old(self)@
                },
            },
    {
        let mut i: usize = 0;
        while i < self.slots.len()
            invariant
                i <= self@.slots.len(),
                self@ == old(self)@,
                self.wf(),
                forall|j: int| 0 <= j < i ==> !allocatable(#[trigger] self@.slots[j]),
            decreases self.slots.len() - i,
        {
            if self.slots[i].modem_path.is_none() && self.slots[i].state == LineState::Free {
                let mut s = self.take_slot(i);
                s.kind = Some(kind);
                s.state = LineState::Login;
                self.put_slot(i, s);
                return Some((i + 1) as u16);
            }
            i = i + 1;
        }
        None
    }

    /// Takes a free line for a TCP connection.
    pub fn alloc_tcp(&mut self) -> (r: Option<u16>)
        requires
            old(self).wf(),
        ensures
            final(self).wf(),
            match r {
                Some(no) => {
                    &&& old(self).is_line(no)
                    &&& allocatable(old(self)@.slots[no - 1])
                    &&& forall|j: int| 0 <= j < no - 1 ==> !allocatable(#[trigger] old(self)@.slots[j])
                    &&& final(self).only_slot_changed(*old(self), no)
                    &&& final(self)@.slots[no - 1] == (Slot { kind: Some(LineKind::Tcp), state: LineState::Login, ..old(self)@.slots[no - 1] })
                },
                None => {
                    &&& forall|j: int| 0 <= j < old(self)@.slots.len() ==> !allocatable(#[trigger] old(self)@.slots[j])
                    &&& final(self)@ == old(self)@
                },
            },
    {
        self.alloc_line(LineKind::Tcp)
    }

    /// Makes a line that is not a modem line free again.
    pub fn free_tcp(&mut self, no: u16)
        requires
            old(self).wf(),
        ensures
            final(self).wf(),
            final(self).only_slot_changed(*old(self), no),
            old(self).is_line(no) ==> if old(self)@.slots[no - 1].modem_path is None {
                empty_slot(None, final(self)@.slots[no - 1])
            } else {
                final(self)@.slots[no - 1] == old(self)@.slots[no - 1]
            },
    {
        if no >= 1 && (no as usize) <= self.slots.len() {
            let i = (no - 1) as usize;
            if self.slots[i].modem_path.is_none() {
                self.put_slot(i, new_slot(None));
            }
        }
    }

    pub fn set_state(&mut self, no: u16, state: LineState)
        requires
            old(self).wf(),
        ensures
            final(self).wf(),
            final(self).only_slot_changed(*old(self), no),
            old(self).is_line(no) ==> final(self)@.slots[no - 1] == (Slot { state, ..old(self)@.slots[no - 1] }),
    {
        if no >= 1 && (no as usize) <= self.slots.len() {
            let i = (no - 1) as usize;
            let mut s = self.take_slot(i);
            s.state = state;
            self.put_slot(i, s);
        }
    }

    pub fn set_note(&mut self, no: u16, note: &str)
        requires
            old(self).wf(),
        ensures
            final(self).wf(),
            final(self).only_slot_changed(*old(self), no),
            old(self).is_line(no) ==> {
                &&& final(self)@.slots[no - 1].note@ == note@
                &&& final(self)@.slots[no - 1] == (Slot { note: final(self)@.slots[no - 1].note, ..old(self)@.slots[no - 1] })
            },
    {
        if no >= 1 && (no as usize) <= self.slots.len() {
            let i = (no - 1) as usize;
            let mut s = self.take_slot(i);
            s.note = String::from_str(note);
            self.put_slot(i, s);
        }
    }

    /// A session starts on the line of `info` at time `now`: the line takes
    /// notices from now on.
    pub fn attach(&mut self, info: LineInfo, now: i64)
        requires
            old(self).wf(),
        ensures
            final(self).wf(),
            final(self)@.calls == (old(self)@.calls + 1) % 0x1_0000_0000,
            final(self)@.slots.len() == old(self)@.slots.len(),
            forall|j: int| 0 <= j < final(self)@.slots.len() && j != info.no - 1 ==> #[trigger] final(self)@.slots[j] == old(self)@.slots[j],
            !old(self).is_line(info.no) ==> final(self)@.slots == old(self)@.slots,
            old(self).is_line(info.no) ==> {
                &&& final(self)@.slots[info.no - 1].note@.len() == 0
                &&& final(self)@.slots[info.no - 1] == (Slot {
                    info: Some(info),
                    attached: true,
                    state: LineState::Login,
                    connected_at: Some(now),
                    note: final(self)@.slots[info.no - 1].note,
                    ..old(self)@.slots[info.no - 1]
                })
            },
            final(self)@.rooms == old(self)@.rooms,
            final(self)@.answers == old(self)@.answers,
            final(self)@.bbs_name == old(self)@.bbs_name,
    {
        self.calls = self.calls.wrapping_add(1);
        let no = info.no;
        if no >= 1 && (no as usize) <= self.slots.len() {
            let i = (no - 1) as usize;
            let mut s = self.take_slot(i);
            s.info = Some(info);
            s.attached = true;
            s.state = LineState::Login;
            s.connected_at = Some(now);
            s.note = String::new();
            self.put_slot(i, s);
        }
    }

    /// A user logged in on line `no`.
    pub fn set_user(&mut self, no: u16, user_id: i64, login: &str, handle: &str)
        requires
            old(self).wf(),
        ensures
            final(self).wf(),
            final(self).only_slot_changed(*old(self), no),
            old(self).is_line(no) ==> {
                let s = final(self)@.slots[no - 1];
                &&& s.login@ == login@
                &&& s.handle@ == handle@
                &&& s == (Slot { user_id: Some(user_id), state: LineState::Online, login: s.login, handle: s.handle, ..old(self)@.slots[no - 1] })
            },
    {
        if no >= 1 && (no as usize) <= self.slots.len() {
            let i = (no - 1) as usize;
            let mut s = self.take_slot(i);
            s.user_id = Some(user_id);
            s.login = String::from_str(login);
            s.handle = String::from_str(handle);
            s.state = LineState::Online;
            self.put_slot(i, s);
        }
    }

    /// Where the user of line `no` is now (shown by WHO).
    pub fn set_place(&mut self, no: u16, place: &str)
        requires
            old(self).wf(),
        ensures
            final(self).wf(),
            final(self).only_slot_changed(*old(self), no),
            old(self).is_line(no) ==> {
                &&& final(self)@.slots[no - 1].place@ == place@
                &&& final(self)@.slots[no - 1] == (Slot { place: final(self)@.slots[no - 1].place, ..old(self)@.slots[no - 1] })
            },
    {
        if no >= 1 && (no as usize) <= self.slots.len() {
            let i = (no - 1) as usize;
            let mut s = self.take_slot(i);
            s.place = String::from_str(place);
            self.put_slot(i, s);
        }
    }

    /// Whether line `no` has a session that takes notices.
    pub fn can_notify(&self, no: u16) -> (r: bool)
        ensures
            r == (self.is_line(no) && self@.slots[no - 1].attached),
    {
        no >= 1 && (no as usize) <= self.slots.len() && self.slots[(no - 1) as usize].attached
    }

    /// Tells modem line `no` to answer (ATA) without waiting for RING.
    /// Only a modem line that waits for or is receiving a call can be told.
    pub fn request_answer(&mut self, no: u16) -> (r: Result<(), String>)
        requires
            old(self).wf(),
        ensures
            final(self).wf(),
            final(self)@.slots == old(self)@.slots,
            final(self)@.rooms == old(self)@.rooms,
            final(self)@.bbs_name == old(self)@.bbs_name,
            final(self)@.calls == old(self)@.calls,
            ({
                let modem = old(self).is_line(no) && old(self)@.slots[no - 1].kind == Some(LineKind::Modem);
                let st = old(self)@.slots[no - 1].state;
                if modem && (st == LineState::Idle || st == LineState::Ringing) {
                    &&& r is Ok
                    &&& final(self)@.answers.to_set() == old(self)@.answers.to_set().insert(no)
                } else {
                    &&& final(self)@.answers == old(self)@.answers
                    &&& r matches Err(m) && m@ == answer_refusal(no, if modem { Some(st) } else { None })
                }
            }),
    {
        let modem = no >= 1 && (no as usize) <= self.slots.len()
            && self.slots[(no - 1) as usize].kind == Some(LineKind::Modem);
        if modem {
            let st = self.slots[(no - 1) as usize].state;
            if st == LineState::Idle || st == LineState::Ringing {
                if !contains_u16(&self.answer_requests, no) {
                    let ghost old_answers = self.answer_requests@;
                    self.answer_requests.push(no);
                    assert(self.answer_requests@ == old_answers.push(no));
                    proof { old_answers.lemma_push_to_set_commute(no); }
                } else {
                    assert(self.answer_requests@.to_set().insert(no) == self.answer_requests@.to_set());
                }
                return Ok(());
            }
            let mut m = String::new();
            push_channel(&mut m, no);
            m.append(" は");
            m.append(st.label());
            m.append("のため応答できません");
            Err(m)
        } else {
            let mut m = String::new();
            push_channel(&mut m, no);
            m.append(" はモデム回線ではありません");
            Err(m)
        }
    }

    /// Takes the answer request of line `no`, if there is one.
    pub fn take_answer_request(&mut self, no: u16) -> (r: bool)
        requires
            old(self).wf(),
        ensures
            final(self).wf(),
            r == old(self)@.answers.contains(no),
            final(self)@.answers.to_set() == old(self)@.answers.to_set().remove(no),
            final(self)@.slots == old(self)@.slots,
            final(self)@.rooms == old(self)@.rooms,
            final(self)@.bbs_name == old(self)@.bbs_name,
            final(self)@.calls == old(self)@.calls,
    {
        let mut i: usize = 0;
        while i < self.answer_requests.len()
            invariant
                i <= self.answer_requests@.len(),
                self@ == old(self)@,
                self.wf(),
                forall|j: int| 0 <= j < i ==> self.answer_requests@[j] != no,
            decreases self.answer_requests.len() - i,
        {
            if self.answer_requests[i] == no {
                let ghost a = self.answer_requests@;
                self.answer_requests.remove(i);
                assert(self.answer_requests@ == a.remove(i as int));
                assert forall|x: u16| #[trigger] self.answer_requests@.to_set().contains(x) == a.to_set().remove(no).contains(x) by {
                    if a.to_set().remove(no).contains(x) {
                        let k = choose|k: int| 0 <= k < a.len() && a[k] == x;
                        if k < i {
                            assert(self.answer_requests@[k] == x);
                        } else {
                            assert(k != i);
                            assert(self.answer_requests@[k - 1] == x);
                        }
                    }
                    if self.answer_requests@.to_set().contains(x) {
                        let k = choose|k: int| 0 <= k < self.answer_requests@.len() && self.answer_requests@[k] == x;
                        if k < i {
                            assert(a[k] == x);
                        } else {
                            assert(a[k + 1] == x);
                            assert(a[k + 1] != a[i as int]);
                        }
                    }
                }
                assert(self.answer_requests@.to_set() == a.to_set().remove(no));
                assert(self.answer_requests@.no_duplicates());
                return true;
            }
            i = i + 1;
        }
        assert(!self.answer_requests@.contains(no));
        assert(self.answer_requests@.to_set().remove(no) == self.answer_requests@.to_set());
        false
    }

    /// Where room `name` is, or would be, in the order of rooms.
    fn find_room(&self, name: &Vec<char>) -> (r: (usize, bool))
        requires
            self.wf(),
        ensures
            r.0 <= self@.rooms.len(),
            forall|j: int| 0 <= j < r.0 ==> lex_lt(#[trigger] self@.rooms[j].0, name@),
            r.1 == (r.0 < self@.rooms.len() && self@.rooms[r.0 as int].0 == name@),
            !r.1 && r.0 < self@.rooms.len() ==> lex_lt(name@, self@.rooms[r.0 as int].0),
    {
        let mut i: usize = 0;
        while i < self.rooms.len()
            invariant
                i <= self@.rooms.len(),
                forall|j: int| 0 <= j < i ==> lex_lt(#[trigger] self@.rooms[j].0, name@),
            decreases self.rooms.len() - i,
        {
            let nv = chars_of(self.rooms[i].name.as_str());
            assert(nv@ == self@.rooms[i as int].0);
            if !str_lt(&nv, name) {
                let same = chars_eq(&nv, name);
                if !same {
                    proof { lemma_lex_total(nv@, name@); }
                }
                return (i, same);
            }
            i = i + 1;
        }
        (i, false)
    }

    fn message(&self, room: &str, p: usize, except: u16, text: String) -> (m: ChatMessage)
        requires
            self.wf(),
            p < self@.rooms.len(),
            self@.rooms[p as int].0 == room@,
        ensures
            m.room@ == room@,
            m.recipients@ == others(self@.rooms, room@, except),
            m.text == text,
    {
        proof {
            lemma_members_at(self@.rooms, p as int);
            assert(self@.rooms[p as int].1 == self.rooms@[p as int].members@);
        }
        let recipients = others_of(&self.rooms[p].members, except);
        ChatMessage { room: String::from_str(room), recipients, text }
    }

    /// Line `no` (shown as `handle`) enters chat room `room`; the others in
    /// the room are told.
    pub fn chat_join(&mut self, room: &str, no: u16, handle: &str) -> (m: ChatMessage)
        requires
            old(self).wf(),
        ensures
            final(self).wf(),
            rooms_after_join(old(self)@.rooms, final(self)@.rooms, room@, no),
            final(self)@.slots == old(self)@.slots,
            final(self)@.answers == old(self)@.answers,
            final(self)@.bbs_name == old(self)@.bbs_name,
            final(self)@.calls == old(self)@.calls,
            m.room@ == room@,
            m.recipients@ == others(final(self)@.rooms, room@, no),
            m.text@ == join_text(handle@, no),
    {
        let name = chars_of(room);
        let (p, exists) = self.find_room(&name);
        let ghost o = self@.rooms;
        if exists {
            let mut r = Room { name: String::new(), members: Vec::new() };
            assert(self@.rooms[p as int] == (self.rooms@[p as int].name@, self.rooms@[p as int].members@));
            assert(increasing(self@.rooms[p as int].1));
            assert(increasing(self.rooms@[p as int].members@));
            self.rooms.set_and_swap(p, &mut r);
            insert_sorted(&mut r.members, no);
            let ghost m2 = r.members@;
            proof { lemma_members_at(o, p as int); }
            self.rooms.set(p, r);
            proof {
                lemma_rooms_update(o, p as int, m2);
                assert(self@.rooms == o.update(p as int, (o[p as int].0, m2)));
            }
        } else {
            let mut mem: Vec<u16> = Vec::new();
            mem.push(no);
            self.rooms.insert(p, Room { name: String::from_str(room), members: mem });
            proof {
                lemma_rooms_insert(o, p as int, room@, no);
                assert(self@.rooms == o.insert(p as int, (room@, seq![no])));
            }
        }
        let mut text = String::new();
        text.append("*** ");
        text.append(handle);
        text.append(" さんが入室しました (");
        push_channel(&mut text, no);
        text.append(")");
        self.message(room, p, no, text)
    }

    /// Line `no` (shown as `handle`) leaves chat room `room`; the others in
    /// the room are told.
    pub fn chat_leave(&mut self, room: &str, no: u16, handle: &str) -> (m: ChatMessage)
        requires
            old(self).wf(),
        ensures
            final(self).wf(),
            rooms_after_leave(old(self)@.rooms, final(self)@.rooms, room@, no),
            final(self)@.slots == old(self)@.slots,
            final(self)@.answers == old(self)@.answers,
            final(self)@.bbs_name == old(self)@.bbs_name,
            final(self)@.calls == old(self)@.calls,
            m.room@ == room@,
            m.recipients@ == others(final(self)@.rooms, room@, no),
            m.text@ == leave_text(handle@),
    {
        let name = chars_of(room);
        let (p, exists) = self.find_room(&name);
        let ghost o = self@.rooms;
        let mut text = String::new();
        text.append("*** ");
        text.append(handle);
        text.append(" さんが退室しました");
        if exists {
            let mut r = Room { name: String::new(), members: Vec::new() };
            assert(self@.rooms[p as int] == (self.rooms@[p as int].name@, self.rooms@[p as int].members@));
            assert(increasing(self@.rooms[p as int].1));
            assert(increasing(self.rooms@[p as int].members@));
            self.rooms.set_and_swap(p, &mut r);
            let ghost m1 = r.members@;
            assert(m1 == o[p as int].1);
            remove_sorted(&mut r.members, no);
            let ghost m2 = r.members@;
            proof { lemma_members_at(o, p as int); }
            self.rooms.set(p, r);
            proof {
                lemma_rooms_update(o, p as int, m2);
                assert(m2.to_set() == m1.to_set().remove(no));
                assert(members(o, room@) == m1);
                assert(self@.rooms == o.update(p as int, (o[p as int].0, m2)));
            }
            self.message(room, p, no, text)
        } else {
            proof {
                assert(!has_room(o, room@)) by {
                    if has_room(o, room@) {
                        let j = choose|j: int| 0 <= j < o.len() && o[j].0 == room@;
                        lemma_lex_irreflexive(room@);
                        if j > p {
                            assert(lex_lt(o[p as int].0, o[j].0));
                            lemma_lex_transitive(room@, o[p as int].0, o[j].0);
                        }
                    }
                }
                assert(members(o, room@) == Seq::<u16>::empty());
                assert(members(o, room@).to_set() == Set::<u16>::empty());
                assert(members(o, room@).to_set().remove(no) == Set::<u16>::empty());
                assert(members(o, room@).filter(other_than(no)) == Seq::<u16>::empty()) by {
                    reveal_with_fuel(Seq::<_>::filter, 1);
                }
            }
            ChatMessage { room: String::from_str(room), recipients: Vec::new(), text }
        }
    }

    /// What line `no` (shown as `handle`) says in `room`, for the others in
    /// the room.
    pub fn chat_say(&self, room: &str, no: u16, handle: &str, text: &str) -> (m: ChatMessage)
        requires
            self.wf(),
        ensures
            m.room@ == room@,
            m.recipients@ == others(self@.rooms, room@, no),
            m.text@ == say_text(handle@, text@),
    {
        let name = chars_of(room);
        let (p, exists) = self.find_room(&name);
        let mut t = String::new();
        t.append(handle);
        t.append("> ");
        t.append(text);
        if exists {
            self.message(room, p, no, t)
        } else {
            let ghost o = self@.rooms;
            proof {
                assert(!has_room(o, room@)) by {
                    if has_room(o, room@) {
                        let j = choose|j: int| 0 <= j < o.len() && o[j].0 == room@;
                        lemma_lex_irreflexive(room@);
                        if j > p {
                            assert(lex_lt(o[p as int].0, o[j].0));
                            lemma_lex_transitive(room@, o[p as int].0, o[j].0);
                        }
                    }
                }
                assert(members(o, room@).filter(other_than(no)) == Seq::<u16>::empty()) by {
                    reveal_with_fuel(Seq::<_>::filter, 1);
                }
            }
            ChatMessage { room: String::from_str(room), recipients: Vec::new(), text: t }
        }
    }

    /// The session on line `no` ends: it leaves every chat room and the line
    /// no longer shows a user.
    pub fn detach(&mut self, no: u16)
        requires
            old(self).wf(),
        ensures
            final(self).wf(),
            rooms_after_detach(old(self)@.rooms, final(self)@.rooms, no),
            final(self)@.answers == old(self)@.answers,
            final(self)@.bbs_name == old(self)@.bbs_name,
            final(self)@.calls == old(self)@.calls,
            final(self)@.slots.len() == old(self)@.slots.len(),
            forall|j: int| 0 <= j < final(self)@.slots.len() && j != no - 1 ==> #[trigger] final(self)@.slots[j] == old(self)@.slots[j],
            !old(self).is_line(no) ==> final(self)@.slots == old(self)@.slots,
            old(self).is_line(no) ==> {
                let s = final(self)@.slots[no - 1];
                &&& s.login@.len() == 0
                &&& s.handle@.len() == 0
                &&& s.place@.len() == 0
                &&& s == (Slot {
                    user_id: None,
                    login: s.login,
                    handle: s.handle,
                    place: s.place,
                    attached: false,
                    connected_at: None,
                    state: LineState::Hangup,
                    ..old(self)@.slots[no - 1]
                })
            },
    {
        let ghost o = self@.rooms;
        let mut i: usize = 0;
        while i < self.rooms.len()
            invariant
                i <= self@.rooms.len() == o.len(),
                rooms_wf(self@.rooms),
                self.wf(),
                forall|j: int| 0 <= j < o.len() ==> #[trigger] self@.rooms[j].0 == o[j].0,
                forall|j: int| 0 <= j < i ==> (#[trigger] self@.rooms[j].1).to_set() == o[j].1.to_set().remove(no),
                forall|j: int| i <= j < o.len() ==> #[trigger] self@.rooms[j] == o[j],
                self@.slots == old(self)@.slots,
                self@.answers == old(self)@.answers,
                self@.bbs_name == old(self)@.bbs_name,
                self@.calls == old(self)@.calls,
            decreases self.rooms.len() - i,
        {
            let ghost before = self@.rooms;
            let mut r = Room { name: String::new(), members: Vec::new() };
            assert(self@.rooms[i as int] == (self.rooms@[i as int].name@, self.rooms@[i as int].members@));
            assert(increasing(self@.rooms[i as int].1));
            self.rooms.set_and_swap(i, &mut r);
            remove_sorted(&mut r.members, no);
            let ghost m2 = r.members@;
            self.rooms.set(i, r);
            proof {
                lemma_rooms_update(before, i as int, m2);
                assert(self@.rooms == before.update(i as int, (before[i as int].0, m2)));
            }
            i = i + 1;
        }
        proof {
            let n = self@.rooms;
            assert forall|k: Seq<char>| has_room(n, k) == has_room(o, k) by {
                if has_room(n, k) {
                    let j = choose|j: int| 0 <= j < n.len() && n[j].0 == k;
                    assert(o[j].0 == k);
                }
                if has_room(o, k) {
                    let j = choose|j: int| 0 <= j < o.len() && o[j].0 == k;
                    assert(n[j].0 == k);
                }
            }
            assert forall|k: Seq<char>| members(n, k).to_set() == #[trigger] members(o, k).to_set().remove(no) by {
                if has_room(o, k) {
                    let j = choose|j: int| 0 <= j < o.len() && o[j].0 == k;
                    lemma_members_at(o, j);
                    lemma_members_at(n, j);
                } else {
                    assert(members(o, k) == Seq::<u16>::empty());
                    assert(members(n, k) == Seq::<u16>::empty());
                    assert(members(o, k).to_set() == Set::<u16>::empty());
                    assert(members(n, k).to_set() == Set::<u16>::empty());
                }
            }
        }
        if no >= 1 && (no as usize) <= self.slots.len() {
            let i = (no - 1) as usize;
            let mut s = self.take_slot(i);
            s.user_id = None;
            s.login = String::new();
            s.handle = String::new();
            s.place = String::new();
            s.attached = false;
            s.connected_at = None;
            s.state = LineState::Hangup;
            self.put_slot(i, s);
        }
    }

    fn view_of(no: u16, s: &Slot) -> (v: SlotView)
        ensures
            shows(v, no as int, *s),
    {
        let port = match &s.modem_path {
            Some(p) => p.clone(),
            None => String::new(),
        };
        let (peer, speed, rx, tx) = match &s.info {
            Some(i) => (i.peer(), i.speed(), i.rx_bytes, i.tx_bytes),
            None => (String::new(), String::new(), 0, 0),
        };
        SlotView {
            no,
            kind: s.kind,
            state: s.state,
            port,
            peer,
            speed,
            user_id: s.user_id,
            login: s.login.clone(),
            handle: s.handle.clone(),
            place: s.place.clone(),
            connected_at: s.connected_at,
            rx,
            tx,
            note: s.note.clone(),
        }
    }

    /// Every line, in order.
    pub fn snapshot(&self) -> (r: Vec<SlotView>)
        requires
            self.wf(),
        ensures
            r@.len() == self@.slots.len(),
            forall|i: int| 0 <= i < r@.len() ==> shows(#[trigger] r@[i], i + 1, self@.slots[i]),
    {
        let mut out: Vec<SlotView> = Vec::new();
        let mut i: usize = 0;
        while i < self.slots.len()
            invariant
                i <= self@.slots.len() <= u16::MAX,
                out@.len() == i,
                forall|k: int| 0 <= k < i ==> shows(#[trigger] out@[k], k + 1, self@.slots[k]),
            decreases self.slots.len() - i,
        {
            out.push(Self::view_of((i + 1) as u16, &self.slots[i]));
            i = i + 1;
        }
        out
    }

    /// The lines with a user logged in, in order.
    pub fn who(&self) -> (r: Vec<SlotView>)
        requires
            self.wf(),
        ensures
            r@.len() == online_lines(self@.slots).len(),
            forall|i: int| 0 <= i < r@.len() ==> shows(#[trigger] r@[i], online_lines(self@.slots)[i] as int,
                self@.slots[online_lines(self@.slots)[i] - 1]),
    {
        let mut out: Vec<SlotView> = Vec::new();
        let mut i: usize = 0;
        while i < self.slots.len()
            invariant
                i <= self@.slots.len() <= u16::MAX,
                out@.len() == online_lines(self@.slots.take(i as int)).len(),
                forall|k: int| 0 <= k < out@.len() ==> shows(#[trigger] out@[k], online_lines(self@.slots.take(i as int))[k] as int,
                    self@.slots[online_lines(self@.slots.take(i as int))[k] - 1]),
                forall|k: int| 0 <= k < online_lines(self@.slots.take(i as int)).len()
                    ==> 1 <= #[trigger] online_lines(self@.slots.take(i as int))[k] <= i,
            decreases self.slots.len() - i,
        {
            let ghost t = self@.slots.take(i + 1);
            assert(t.drop_last() == self@.slots.take(i as int));
            assert(t.last() == self@.slots[i as int]);
            if self.slots[i].user_id.is_some() {
                out.push(Self::view_of((i + 1) as u16, &self.slots[i]));
            }
            i = i + 1;
        }
        assert(self@.slots.take(self@.slots.len() as int) == self@.slots);
        out
    }

    /// The numbers of the lines with a user logged in, in order.
    pub fn who_lines(&self) -> (r: Vec<u16>)
        requires
            self.wf(),
        ensures
            r@ == online_lines(self@.slots),
    {
        let mut out: Vec<u16> = Vec::new();
        let mut i: usize = 0;
        while i < self.slots.len()
            invariant
                i <= self@.slots.len() <= u16::MAX,
                out@ == online_lines(self@.slots.take(i as int)),
            decreases self.slots.len() - i,
        {
            let ghost t = self@.slots.take(i + 1);
            assert(t.drop_last() == self@.slots.take(i as int));
            assert(t.last() == self@.slots[i as int]);
            if self.slots[i].user_id.is_some() {
                out.push((i + 1) as u16);
            }
            i = i + 1;
        }
        assert(self@.slots.take(self@.slots.len() as int) == self@.slots);
        out
    }

    /// The logged-in members of chat room `room`, with their handles, in
    /// order of line number.
    pub fn chat_members(&self, room: &str) -> (r: Vec<(u16, String)>)
        requires
            self.wf(),
        ensures
            r@.len() == member_handles(members(self@.rooms, room@), self@.slots).len(),
            forall|i: int| 0 <= i < r@.len() ==> (#[trigger] r@[i]).0 == member_handles(members(self@.rooms, room@), self@.slots)[i].0
                && r@[i].1@ == member_handles(members(self@.rooms, room@), self@.slots)[i].1,
    {
        let name = chars_of(room);
        let (p, exists) = self.find_room(&name);
        let mut out: Vec<(u16, String)> = Vec::new();
        if !exists {
            let ghost o = self@.rooms;
            proof {
                assert(!has_room(o, room@)) by {
                    if has_room(o, room@) {
                        let j = choose|j: int| 0 <= j < o.len() && o[j].0 == room@;
                        lemma_lex_irreflexive(room@);
                        if j > p {
                            assert(lex_lt(o[p as int].0, o[j].0));
                            lemma_lex_transitive(room@, o[p as int].0, o[j].0);
                        }
                    }
                }
            }
            return out;
        }
        proof {
            lemma_members_at(self@.rooms, p as int);
            assert(self@.rooms[p as int].1 == self.rooms@[p as int].members@);
        }
        let ms = &self.rooms[p].members;
        let ghost all = ms@;
        let mut i: usize = 0;
        while i < ms.len()
            invariant
                i <= ms@.len(),
                all == ms@,
                out@.len() == member_handles(all.take(i as int), self@.slots).len(),
                forall|k: int| 0 <= k < out@.len() ==> (#[trigger] out@[k]).0 == member_handles(all.take(i as int), self@.slots)[k].0
                    && out@[k].1@ == member_handles(all.take(i as int), self@.slots)[k].1,
            decreases ms.len() - i,
        {
            let x = ms[i];
            let ghost t = all.take(i + 1);
            assert(t.drop_last() == all.take(i as int));
            assert(t.last() == x);
            if x >= 1 && (x as usize) <= self.slots.len() && self.slots[(x - 1) as usize].user_id.is_some() {
                out.push((x, self.slots[(x - 1) as usize].handle.clone()));
            }
            i = i + 1;
        }
        assert(all.take(all.len() as int) == all);
        out
    }

    /// The chat rooms that have members, with how many, in order of name.
    pub fn chat_rooms(&self) -> (r: Vec<(String, usize)>)
        requires
            self.wf(),
        ensures
            r@.len() == listed_rooms(self@.rooms).len(),
            forall|i: int| 0 <= i < r@.len() ==> (#[trigger] r@[i]).0@ == listed_rooms(self@.rooms)[i].0
                && r@[i].1 == listed_rooms(self@.rooms)[i].1,
    {
        let mut out: Vec<(String, usize)> = Vec::new();
        let mut i: usize = 0;
        while i < self.rooms.len()
            invariant
                i <= self@.rooms.len(),
                out@.len() == listed_rooms(self@.rooms.take(i as int)).len(),
                forall|k: int| 0 <= k < out@.len() ==> (#[trigger] out@[k]).0@ == listed_rooms(self@.rooms.take(i as int))[k].0
                    && out@[k].1 == listed_rooms(self@.rooms.take(i as int))[k].1,
            decreases self.rooms.len() - i,
        {
            let ghost t = self@.rooms.take(i + 1);
            assert(t.drop_last() == self@.rooms.take(i as int));
            assert(t.last() == self@.rooms[i as int]);
            assert(self@.rooms[i as int] == (self.rooms@[i as int].name@, self.rooms@[i as int].members@));
            let n = self.rooms[i].members.len();
            if n > 0 {
                out.push((self.rooms[i].name.clone(), n));
            }
            i = i + 1;
        }
        assert(self@.rooms.take(self@.rooms.len() as int) == self@.rooms);
        out
    }

    /// The lowest numbered line with a user whose login is `target`.
    fn find_login(&self, target: &str) -> (r: Option<u16>)
        requires
            self.wf(),
        ensures
            r == line_of_login(self@.slots, target@),
            r matches Some(n) ==> 1 <= n <= self@.slots.len() && self@.slots[n - 1].user_id is Some,
    {
        let t = chars_of(target);
        let mut i: usize = 0;
        while i < self.slots.len()
            invariant
                i <= self@.slots.len() <= u16::MAX,
                t@ == target@,
                line_of_login(self@.slots.take(i as int), target@) is None,
            decreases self.slots.len() - i,
        {
            let ghost tk = self@.slots.take(i + 1);
            assert(tk.drop_last() == self@.slots.take(i as int));
            assert(tk.last() == self@.slots[i as int]);
            if self.slots[i].user_id.is_some() {
                let l = chars_of(self.slots[i].login.as_str());
                if chars_eq_ignore_ascii_case(&l, &t) {
                    proof { lemma_line_of_login_prefix(self@.slots, i + 1, target@); }
                    return Some((i + 1) as u16);
                }
            }
            i = i + 1;
        }
        assert(self@.slots.take(self@.slots.len() as int) == self@.slots);
        None
    }

    /// A telegram from `from` to `target`, a line number or a login. It
    /// goes to a logged-in user only, and only to a session that takes
    /// notices.
    pub fn telegram(&self, target: &str, from: &str, text: &str) -> (r: Result<Telegram, String>)
        requires
            self.wf(),
        ensures
            match telegram_dest(self@.slots, target@) {
                None => r matches Err(m) && m@ == absent_text(target@),
                Some(no) => {
                    let s = self@.slots[no - 1];
                    if s.attached {
                        r matches Ok(t) && {
                            &&& t.no == no
                            &&& t.notice matches Notice::Telegram { from: f, text: x } && f@ == from@ && x@ == text@
                            &&& t.receipt@ == channel_text(no) + " "@ + s.handle@
                            &&& t.undelivered@ == undelivered_text(s.handle@)
                        }
                    } else {
                        r matches Err(m) && m@ == undelivered_text(s.handle@)
                    }
                },
            },
    {
        let dest = match parse_u16_of(target) {
            Some(n) => if n >= 1 && (n as usize) <= self.slots.len() && self.slots[(n - 1) as usize].user_id.is_some() {
                Some(n)
            } else {
                None
            },
            None => self.find_login(target),
        };
        match dest {
            None => {
                let mut m = String::from_str(target);
                m.append(" は接続していません");
                Err(m)
            }
            Some(no) => {
                let s = &self.slots[(no - 1) as usize];
                let mut undelivered = s.handle.clone();
                undelivered.append(" に届けられませんでした");
                if !s.attached {
                    return Err(undelivered);
                }
                let mut receipt = String::new();
                push_channel(&mut receipt, no);
                receipt.append(" ");
                receipt.append(s.handle.as_str());
                let notice = Notice::Telegram { from: String::from_str(from), text: String::from_str(text) };
                Ok(Telegram { no, notice, receipt, undelivered })
            }
        }
    }

    /// The notice that hangs up line `no`, if a session there takes notices.
    pub fn kick(&self, no: u16, reason: &str) -> (r: Option<Notice>)
        ensures
            match r {
                Some(n) => {
                    &&& self.is_line(no) && self@.slots[no - 1].attached
                    &&& n matches Notice::Kick(m) && m@ == reason@
                },
                None => !(self.is_line(no) && self@.slots[no - 1].attached),
            },
    {
        if self.can_notify(no) {
            Some(Notice::Kick(String::from_str(reason)))
        } else {
            None
        }
    }

    /// A broadcast from the SYSOP: one notice for each line it reaches.
    pub fn broadcast(&self, text: &str) -> (r: Vec<(u16, Notice)>)
        requires
            self.wf(),
        ensures
            r@.len() == reachable_lines(self@.slots).len(),
            forall|i: int| 0 <= i < r@.len() ==> (#[trigger] r@[i]).0 == reachable_lines(self@.slots)[i]
                && (r@[i].1 matches Notice::System(m) && m@ == text@),
    {
        let mut out: Vec<(u16, Notice)> = Vec::new();
        let mut i: usize = 0;
        while i < self.slots.len()
            invariant
                i <= self@.slots.len() <= u16::MAX,
                out@.len() == reachable_lines(self@.slots.take(i as int)).len(),
                forall|k: int| 0 <= k < out@.len() ==> (#[trigger] out@[k]).0 == reachable_lines(self@.slots.take(i as int))[k]
                    && (out@[k].1 matches Notice::System(m) && m@ == text@),
            decreases self.slots.len() - i,
        {
            let ghost t = self@.slots.take(i + 1);
            assert(t.drop_last() == self@.slots.take(i as int));
            assert(t.last() == self@.slots[i as int]);
            if self.slots[i].user_id.is_some() && self.slots[i].attached {
                out.push(((i + 1) as u16, Notice::System(String::from_str(text))));
            }
            i = i + 1;
        }
        assert(self@.slots.take(self@.slots.len() as int) == self@.slots);
        out
    }

    pub fn max_lines(&self) -> (r: u16)
        requires
            self.wf(),
        ensures
            r == self@.slots.len(),
    {
        self.slots.len() as u16
    }
}

/// A line that `free_tcp` freed can be allocated again, and the next
/// allocation takes it unless a lower numbered line is free as well: the
/// line it returns, being the lowest allocatable one, is not above it.
pub proof fn lemma_free_then_alloc(slots: Seq<Slot>, no: u16)
    requires
        1 <= no <= slots.len(),
        empty_slot(None, slots[no - 1]),
    ensures
        allocatable(slots[no - 1]),
        forall|got: u16| 1 <= got <= slots.len() && allocatable(#[trigger] slots[got - 1])
            && (forall|j: int| 0 <= j < got - 1 ==> !allocatable(#[trigger] slots[j])) ==> got <= no,
{
}

} // verus!
