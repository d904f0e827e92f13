//! Chat rooms: room names, what a line typed in a room means, and the
//! texts shown there.

use vstd::prelude::*;
use crate::text::{chars_of, decimal, push_decimal, trim, trim_str};
use crate::session::util::{command_parts, split_cmd, to_uppercase, unicode_upper};
use crate::session::login::{join, joined};
use crate::hub::channel_text;

verus! {

/// The help shown in a room.
pub open spec fn chat_help() -> Seq<char> {
    "/Q:退室 /W:在室者 /R 部屋名:部屋を移動 /L:部屋の一覧 /T 相手 本文:電報 /?:ヘルプ"@
}

pub fn help_text() -> (r: &'static str)
    ensures
        r@ == chat_help(),
{
    "/Q:退室 /W:在室者 /R 部屋名:部屋を移動 /L:部屋の一覧 /T 相手 本文:電報 /?:ヘルプ"
}

/// A room name as typed, made a room's name: without white space at the
/// ends, in upper case, at most 16 characters; the lobby when empty.
pub open spec fn room_of(s: Seq<char>) -> Seq<char> {
    let u = unicode_upper(trim(s));
    if u.len() == 0 {
        "LOBBY"@
    } else if u.len() > 16 {
        u.take(16)
    } else {
        u
    }
}

pub fn room_name(s: &str) -> (r: String)
    ensures
        r@ == room_of(s@),
{
    let t = trim_str(s);
    let u = to_uppercase(t.as_str());
    let v = chars_of(u.as_str());
    if v.len() == 0 {
        String::from_str("LOBBY")
    } else if v.len() > 16 {
        let mut out = String::new();
        crate::text::push_chars(&mut out, &v, 0, 16);
        out
    } else {
        u
    }
}

/// What a line typed in a chat room means.
#[derive(Debug)]
pub enum ChatInput {
    /// Nothing but white space.
    Nothing,
    /// `/Q`, `/E`, `/EXIT`: leave the room.
    Leave,
    /// `/G`: log off.
    Logoff,
    /// `/W`: who is in the room.
    Who,
    /// `/R name`: move to that room.
    Move(String),
    /// `/L`: the list of rooms.
    Rooms,
    /// `/T target text`: a telegram.
    Telegram(String),
    /// Any other command: the help.
    Help,
    /// Anything else is said in the room.
    Say(String),
}

/// Reads a line typed in a chat room.
pub fn chat_input(line: &str) -> (r: ChatInput)
    ensures
        ({
            let t = trim(line@);
            if t.len() == 0 {
                r is Nothing
            } else if t[0] == '/' {
                let (c, arg) = command_parts(t.drop_first());
                if c == "Q"@ || c == "E"@ || c == "EXIT"@ {
                    r is Leave
                } else if c == "G"@ {
                    r is Logoff
                } else if c == "W"@ {
                    r is Who
                } else if c == "R"@ && arg.len() > 0 {
                    r matches ChatInput::Move(m) && m@ == room_of(arg)
                } else if c == "L"@ {
                    r is Rooms
                } else if c == "T"@ {
                    r matches ChatInput::Telegram(a) && a@ == arg
                } else {
                    r is Help
                }
            } else {
                r matches ChatInput::Say(s) && s@ == t
            }
        }),
{
    let t = trim_str(line);
    let v = chars_of(t.as_str());
    if v.len() == 0 {
        return ChatInput::Nothing;
    }
    if v[0] != '/' {
        return ChatInput::Say(t);
    }
    let mut rest = String::new();
    crate::text::push_chars(&mut rest, &v, 1, v.len());
    assert(v@.subrange(1, v@.len() as int) == t@.drop_first());
    let (c, arg) = split_cmd(rest.as_str());
    let cv = chars_of(c.as_str());
    if eq_lit(&cv, "Q") || eq_lit(&cv, "E") || eq_lit(&cv, "EXIT") {
        ChatInput::Leave
    } else if eq_lit(&cv, "G") {
        ChatInput::Logoff
    } else if eq_lit(&cv, "W") {
        ChatInput::Who
    } else if eq_lit(&cv, "R") && arg.unicode_len() > 0 {
        ChatInput::Move(room_name(arg.as_str()))
    } else if eq_lit(&cv, "L") {
        ChatInput::Rooms
    } else if eq_lit(&cv, "T") {
        ChatInput::Telegram(arg)
    } else {
        ChatInput::Help
    }
}

/// Whether `v` holds exactly the literal `lit`.
pub fn eq_lit(v: &Vec<char>, lit: &str) -> (r: bool)
    ensures
        r == (v@ == lit@),
{
    crate::text::chars_eq(v, &chars_of(lit))
}

/// What is shown on entering a room.
pub open spec fn entered_text(room: Seq<char>) -> Seq<char> {
    "\n*** チャット "@ + room + " に入室しました ***\n"@ + chat_help()
}

pub fn entered(room: &str) -> (r: String)
    ensures
        r@ == entered_text(room@),
{
    let mut s = String::from_str("\n*** チャット ");
    s.append(room);
    s.append(" に入室しました ***\n");
    s.append(help_text());
    s
}

/// What is shown on leaving a room.
pub open spec fn left_text(room: Seq<char>) -> Seq<char> {
    "*** "@ + room + " から退室しました ***"@
}

pub fn left(room: &str) -> (r: String)
    ensures
        r@ == left_text(room@),
{
    let mut s = String::from_str("*** ");
    s.append(room);
    s.append(" から退室しました ***");
    s
}

/// A member as the room's list shows it: "handle(CHnn)".
pub open spec fn member_text(no: u16, handle: Seq<char>) -> Seq<char> {
    handle + "("@ + channel_text(no) + ")"@
}

/// The members of a room as listed there.
pub open spec fn who_text(members: Seq<(u16, Seq<char>)>) -> Seq<char> {
    "*** 在室者 "@ + decimal(members.len()) + "人: "@
        + joined(members.map_values(|m: (u16, Seq<char>)| member_text(m.0, m.1)), " "@)
}

pub fn who_in_room(members: &Vec<(u16, String)>) -> (r: String)
    ensures
        r@ == who_text(members@.map_values(|m: (u16, String)| (m.0, m.1@))),
{
    let ghost ms = members@.map_values(|m: (u16, String)| (m.0, m.1@));
    let mut parts: Vec<String> = Vec::new();
    let mut i: usize = 0;
    while i < members.len()
        invariant
            i <= members@.len(),
            ms == members@.map_values(|m: (u16, String)| (m.0, m.1@)),
            parts@.len() == i,
            forall|k: int| 0 <= k < i ==> (#[trigger] parts@[k])@ == member_text(ms[k].0, ms[k].1),
        decreases members.len() - i,
    {
        let mut p = members[i].1.clone();
        p.append("(");
        let mut ch = String::new();
        push_channel_text(&mut ch, members[i].0);
        p.append(ch.as_str());
        p.append(")");
        parts.push(p);
        i = i + 1;
    }
    assert(parts@.map_values(|p: String| p@) == ms.map_values(|m: (u16, Seq<char>)| member_text(m.0, m.1)));
    let mut s = String::from_str("*** 在室者 ");
    push_decimal(&mut s, members.len() as u64);
    s.append("人: ");
    let j = join(&parts, " ");
    s.append(j.as_str());
    s
}

fn push_channel_text(s: &mut String, no: u16)
    ensures
        final(s)@ == old(s)@ + channel_text(no),
{
    crate::text::push_char(s, 'C');
    crate::text::push_char(s, 'H');
    crate::text::push_decimal2(s, no as u64);
    assert(old(s)@.push('C').push('H') == old(s)@ + seq!['C', 'H']);
}

/// A room as the list of rooms shows it: "name(n人)".
pub open spec fn room_entry_text(name: Seq<char>, n: nat) -> Seq<char> {
    name + "("@ + decimal(n) + "人)"@
}

/// The list of rooms.
pub open spec fn rooms_text(rooms: Seq<(Seq<char>, nat)>) -> Seq<char> {
    "*** 部屋: "@ + joined(rooms.map_values(|r: (Seq<char>, nat)| room_entry_text(r.0, r.1)), " "@)
}

pub fn rooms_list(rooms: &Vec<(String, usize)>) -> (r: String)
    ensures
        r@ == rooms_text(rooms@.map_values(|r: (String, usize)| (r.0@, r.1 as nat))),
{
    let ghost rs = rooms@.map_values(|r: (String, usize)| (r.0@, r.1 as nat));
    let mut parts: Vec<String> = Vec::new();
    let mut i: usize = 0;
    while i < rooms.len()
        invariant
            i <= rooms@.len(),
            rs == rooms@.map_values(|r: (String, usize)| (r.0@, r.1 as nat)),
            parts@.len() == i,
            forall|k: int| 0 <= k < i ==> (#[trigger] parts@[k])@ == room_entry_text(rs[k].0, rs[k].1),
        decreases rooms.len() - i,
    {
        let mut p = rooms[i].0.clone();
        p.append("(");
        push_decimal(&mut p, rooms[i].1 as u64);
        p.append("人)");
        parts.push(p);
        i = i + 1;
    }
    assert(parts@.map_values(|p: String| p@) == rs.map_values(|r: (Seq<char>, nat)| room_entry_text(r.0, r.1)));
    let mut s = String::from_str("*** 部屋: ");
    let j = join(&parts, " ");
    s.append(j.as_str());
    s
}

} // verus!
