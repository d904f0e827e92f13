//! Mail between members: commands, choosing a message, and the texts
//! shown.

use vstd::prelude::*;
use crate::text::{
    chars_of, decimal, parse_unsigned, parse_usize, push_decimal, repeat, right_aligned, trim, is_ascii_char,
    is_ascii_digit, all_digits, sign_stripped,
};
use crate::db::repo::{Mail, User, LEVEL_GUEST};
use crate::session::util::{command_parts, command_words, lemma_one_char_command, pad, padded, split_cmd};
use crate::session::chat::eq_lit;

verus! {

/// The entry that a number typed names in a list of `len` entries: the
/// number counts from 1.
pub open spec fn picked(s: Seq<char>, len: nat) -> Option<usize> {
    match parse_unsigned(s, usize::MAX as nat) {
        Some(n) => if 1 <= n <= len { Some((n - 1) as usize) } else { None },
        None => None,
    }
}

pub fn pick_index(s: &str, len: usize) -> (r: Option<usize>)
    ensures
        r == picked(s@, len as nat),
{
    match parse_usize(s) {
        Some(n) => if n >= 1 && n <= len { Some(n - 1) } else { None },
        None => None,
    }
}

/// A command at the mail prompt, with the message it names when it names
/// one in the list.
#[derive(Debug, Clone, Copy, PartialEq, Eq, Structural)]
pub enum MailCmd {
    Back,
    Logoff,
    List,
    /// `S`, `SEND`: write to the member given as argument.
    Send,
    /// `R n`, `READ n`.
    Read(Option<usize>),
    /// Just a number: read that message.
    Numbered(Option<usize>),
    /// `RE n`: reply.
    Reply(Option<usize>),
    /// `D n`, `DEL n`.
    Delete(Option<usize>),
    Unknown,
}

pub open spec fn mail_cmd_of(c: Seq<char>, arg: Seq<char>, len: nat) -> MailCmd {
    if c.len() == 0 || c == "Q"@ {
        MailCmd::Back
    } else if c == "G"@ {
        MailCmd::Logoff
    } else if c == "L"@ {
        MailCmd::List
    } else if c == "S"@ || c == "SEND"@ {
        MailCmd::Send
    } else if c == "R"@ || c == "READ"@ {
        MailCmd::Read(picked(arg, len))
    } else if parse_unsigned(c, usize::MAX as nat) is Some {
        MailCmd::Numbered(picked(c, len))
    } else if c == "RE"@ {
        MailCmd::Reply(picked(arg, len))
    } else if c == "D"@ || c == "DEL"@ {
        MailCmd::Delete(picked(arg, len))
    } else {
        MailCmd::Unknown
    }
}

/// Reads a command at the mail prompt, with `len` messages in the inbox.
pub fn mail_command(line: &str, len: usize) -> (r: MailCmd)
    ensures
        r == mail_cmd_of(command_parts(line@).0, command_parts(line@).1, len as nat),
        r == mail_cmd_of(command_words(line@).0, command_words(line@).1, len as nat),
{
    let (c, arg) = split_cmd(line);
    let cv = chars_of(c.as_str());
    if cv.len() == 0 || eq_lit(&cv, "Q") {
        MailCmd::Back
    } else if eq_lit(&cv, "G") {
        MailCmd::Logoff
    } else if eq_lit(&cv, "L") {
        MailCmd::List
    } else if eq_lit(&cv, "S") || eq_lit(&cv, "SEND") {
        MailCmd::Send
    } else if eq_lit(&cv, "R") || eq_lit(&cv, "READ") {
        MailCmd::Read(pick_index(arg.as_str(), len))
    } else if parse_usize(c.as_str()).is_some() {
        MailCmd::Numbered(pick_index(c.as_str(), len))
    } else if eq_lit(&cv, "RE") {
        MailCmd::Reply(pick_index(arg.as_str(), len))
    } else if eq_lit(&cv, "D") || eq_lit(&cv, "DEL") {
        MailCmd::Delete(pick_index(arg.as_str(), len))
    } else {
        MailCmd::Unknown
    }
}

/// R, READ, RE, D and DEL pick a message the same way: the one whose
/// number, counting from 1, is typed as the argument, and none when the
/// argument is not such a number of the list.
pub proof fn lemma_mail_pick(arg: Seq<char>, len: nat)
    ensures
        mail_cmd_of("R"@, arg, len) matches MailCmd::Read(x)
            && mail_cmd_of("READ"@, arg, len) == MailCmd::Read(x)
            && mail_cmd_of("RE"@, arg, len) == MailCmd::Reply(x)
            && mail_cmd_of("D"@, arg, len) == MailCmd::Delete(x)
            && mail_cmd_of("DEL"@, arg, len) == MailCmd::Delete(x)
            && (x matches Some(i) ==> i < len && parse_unsigned(arg, usize::MAX as nat) == Some((i + 1) as nat))
            && (parse_unsigned(arg, usize::MAX as nat) is Some && 1 <= parse_unsigned(arg, usize::MAX as nat)->0 <= len
                ==> x == Some((parse_unsigned(arg, usize::MAX as nat)->0 - 1) as usize)),
{
    reveal_strlit("Q");
    assert("Q"@.len() == 1 && "Q"@[0] == 'Q');
    reveal_strlit("G");
    assert("G"@.len() == 1 && "G"@[0] == 'G');
    reveal_strlit("L");
    assert("L"@.len() == 1 && "L"@[0] == 'L');
    reveal_strlit("S");
    assert("S"@.len() == 1 && "S"@[0] == 'S');
    reveal_strlit("SEND");
    assert("SEND"@.len() == 4 && "SEND"@[0] == 'S' && "SEND"@[1] == 'E' && "SEND"@[2] == 'N' && "SEND"@[3] == 'D');
    reveal_strlit("R");
    assert("R"@.len() == 1 && "R"@[0] == 'R');
    reveal_strlit("READ");
    assert("READ"@.len() == 4 && "READ"@[0] == 'R' && "READ"@[1] == 'E' && "READ"@[2] == 'A' && "READ"@[3] == 'D');
    reveal_strlit("RE");
    assert("RE"@.len() == 2 && "RE"@[0] == 'R' && "RE"@[1] == 'E');
    reveal_strlit("D");
    assert("D"@.len() == 1 && "D"@[0] == 'D');
    reveal_strlit("DEL");
    assert("DEL"@.len() == 3 && "DEL"@[0] == 'D' && "DEL"@[1] == 'E' && "DEL"@[2] == 'L');
    assert(!is_ascii_digit("R"@[0]) && !is_ascii_digit("D"@[0]));
    assert(sign_stripped("RE"@) == "RE"@ && sign_stripped("D"@) == "D"@ && sign_stripped("DEL"@) == "DEL"@);
    assert(!all_digits("RE"@) && !all_digits("D"@) && !all_digits("DEL"@));
}

/// Each one-letter command of the mail prompt, typed alone in either case,
/// is read as that command; R or D without a number pick no message.
pub proof fn lemma_mail_letters(s: Seq<char>, len: nat)
    requires
        trim(s).len() == 1,
        is_ascii_char(trim(s)[0]),
    ensures
        (trim(s)[0] == 'q' || trim(s)[0] == 'Q') ==> mail_cmd_of(command_words(s).0, command_words(s).1, len) == MailCmd::Back,
        (trim(s)[0] == 'g' || trim(s)[0] == 'G') ==> mail_cmd_of(command_words(s).0, command_words(s).1, len) == MailCmd::Logoff,
        (trim(s)[0] == 'l' || trim(s)[0] == 'L') ==> mail_cmd_of(command_words(s).0, command_words(s).1, len) == MailCmd::List,
        (trim(s)[0] == 's' || trim(s)[0] == 'S') ==> mail_cmd_of(command_words(s).0, command_words(s).1, len) == MailCmd::Send,
        (trim(s)[0] == 'r' || trim(s)[0] == 'R') ==> mail_cmd_of(command_words(s).0, command_words(s).1, len) == MailCmd::Read(None),
        (trim(s)[0] == 'd' || trim(s)[0] == 'D') ==> mail_cmd_of(command_words(s).0, command_words(s).1, len) == MailCmd::Delete(None),
{
    lemma_one_char_command(s);
    let t = trim(s);
    reveal_strlit("Q");
    assert("Q"@.len() == 1 && "Q"@[0] == 'Q');
    reveal_strlit("G");
    assert("G"@.len() == 1 && "G"@[0] == 'G');
    reveal_strlit("L");
    assert("L"@.len() == 1 && "L"@[0] == 'L');
    reveal_strlit("S");
    assert("S"@.len() == 1 && "S"@[0] == 'S');
    reveal_strlit("SEND");
    assert("SEND"@.len() == 4 && "SEND"@[0] == 'S' && "SEND"@[1] == 'E' && "SEND"@[2] == 'N' && "SEND"@[3] == 'D');
    reveal_strlit("R");
    assert("R"@.len() == 1 && "R"@[0] == 'R');
    reveal_strlit("READ");
    assert("READ"@.len() == 4 && "READ"@[0] == 'R' && "READ"@[1] == 'E' && "READ"@[2] == 'A' && "READ"@[3] == 'D');
    reveal_strlit("RE");
    assert("RE"@.len() == 2 && "RE"@[0] == 'R' && "RE"@[1] == 'E');
    reveal_strlit("D");
    assert("D"@.len() == 1 && "D"@[0] == 'D');
    reveal_strlit("DEL");
    assert("DEL"@.len() == 3 && "DEL"@[0] == 'D' && "DEL"@[1] == 'E' && "DEL"@[2] == 'L');
    assert(Seq::<char>::empty().len() == 0);
    if t[0] == 'q' || t[0] == 'Q' {
        let c: Seq<char> = seq!['Q'];
        assert(c[0] == 'Q');
        assert(command_words(s).0 =~= c);
        assert(c =~= "Q"@);
        assert(!is_ascii_digit(c[0]));
        assert(sign_stripped(c) == c);
        assert(!all_digits(c));
    }
    if t[0] == 'g' || t[0] == 'G' {
        let c: Seq<char> = seq!['G'];
        assert(c[0] == 'G');
        assert(command_words(s).0 =~= c);
        assert(c =~= "G"@);
        assert(!is_ascii_digit(c[0]));
        assert(sign_stripped(c) == c);
        assert(!all_digits(c));
    }
    if t[0] == 'l' || t[0] == 'L' {
        let c: Seq<char> = seq!['L'];
        assert(c[0] == 'L');
        assert(command_words(s).0 =~= c);
        assert(c =~= "L"@);
        assert(!is_ascii_digit(c[0]));
        assert(sign_stripped(c) == c);
        assert(!all_digits(c));
    }
    if t[0] == 's' || t[0] == 'S' {
        let c: Seq<char> = seq!['S'];
        assert(c[0] == 'S');
        assert(command_words(s).0 =~= c);
        assert(c =~= "S"@);
        assert(!is_ascii_digit(c[0]));
        assert(sign_stripped(c) == c);
        assert(!all_digits(c));
    }
    if t[0] == 'r' || t[0] == 'R' {
        let c: Seq<char> = seq!['R'];
        assert(c[0] == 'R');
        assert(command_words(s).0 =~= c);
        assert(c =~= "R"@);
        assert(!is_ascii_digit(c[0]));
        assert(sign_stripped(c) == c);
        assert(!all_digits(c));
    }
    if t[0] == 'd' || t[0] == 'D' {
        let c: Seq<char> = seq!['D'];
        assert(c[0] == 'D');
        assert(command_words(s).0 =~= c);
        assert(c =~= "D"@);
        assert(!is_ascii_digit(c[0]));
        assert(sign_stripped(c) == c);
        assert(!all_digits(c));
    }
}

/// Mail can go to a member only: the user found must not be the guest.
pub fn can_receive(u: &User) -> (r: bool)
    ensures
        r == (u.level > LEVEL_GUEST),
{
    !u.is_guest()
}

/// A message's line in the inbox: `*` when unread, the number, the time,
/// the sender and the subject.
pub open spec fn mail_line_text(no: nat, m: Mail, time: Seq<char>) -> Seq<char> {
    (if m.read { seq![' '] } else { seq!['*'] }) + right_aligned(decimal(no), 3) + "  "@ + time + "  "@
        + padded(m.from_handle@, 12) + " "@ + m.subject@
}

pub fn mail_line(no: usize, m: &Mail, time: &str) -> (r: String)
    ensures
        r@ == mail_line_text(no as nat, *m, time@),
{
    let mut s = String::new();
    crate::text::push_char(&mut s, if m.read { ' ' } else { '*' });
    let mut n = String::new();
    push_decimal(&mut n, no as u64);
    crate::text::push_right(&mut s, n.as_str(), 3);
    s.append("  ");
    s.append(time);
    s.append("  ");
    let h = pad(m.from_handle.as_str(), 12);
    s.append(h.as_str());
    s.append(" ");
    s.append(m.subject.as_str());
    s
}

/// A message as it is read, with the time it was sent as `time`.
pub open spec fn mail_text(m: Mail, time: Seq<char>) -> Seq<char> {
    "\n差出人: "@ + m.from_handle@ + " ("@ + m.from_login@ + ")\n日付  : "@ + time + "\n件名  : "@ + m.subject@
        + "\n"@ + repeat('-', 60) + "\n"@ + m.body@ + "\n"@ + repeat('-', 60)
}

pub fn mail_view(m: &Mail, time: &str) -> (r: String)
    ensures
        r@ == mail_text(*m, time@),
{
    let mut s = String::from_str("\n差出人: ");
    s.append(m.from_handle.as_str());
    s.append(" (");
    s.append(m.from_login.as_str());
    s.append(")\n日付  : ");
    s.append(time);
    s.append("\n件名  : ");
    s.append(m.subject.as_str());
    s.append("\n");
    crate::text::push_repeat(&mut s, '-', 60);
    s.append("\n");
    s.append(m.body.as_str());
    s.append("\n");
    crate::text::push_repeat(&mut s, '-', 60);
    s
}

/// The notice a member on line gets of new mail from `handle`.
pub open spec fn new_mail_text(handle: Seq<char>) -> Seq<char> {
    handle + " さんから新しいメールが届きました"@
}

pub fn new_mail_notice(handle: &str) -> (r: String)
    ensures
        r@ == new_mail_text(handle@),
{
    let mut s = String::from_str(handle);
    s.append(" さんから新しいメールが届きました");
    s
}

} // verus!
