//! The main menu: its text and what a command there chooses.

use vstd::prelude::*;
use crate::text::{chars_of, trim, is_ascii_char, ascii_upper_char};
use crate::db::repo::LEVEL_SYSOP;
use crate::session::util::{command_parts, command_words, lemma_one_char_command, split_cmd};
use crate::session::chat::eq_lit;

verus! {

/// The main menu of the BBS called `name`; a SYSOP sees the SYSOP menu too.
pub open spec fn menu_text_of(name: Seq<char>, level: i64) -> Seq<char> {
    "\n== "@ + name
        + " メインメニュー ==\n 1.掲示板 BBS    2.メール MAIL   3.チャット CHAT\n 4.在室者 WHO    5.足跡 LOG      6.登録情報 PROF\n 7.ファイル FILE  T.電報 TEL\n"@
        + (if level >= LEVEL_SYSOP { " 9.SYSOP SYS\n"@ } else { Seq::empty() }) + " 0.終了 BYE\n"@
}

pub fn menu_text(name: &str, level: i64) -> (r: String)
    ensures
        r@ == menu_text_of(name@, level),
{
    let mut s = String::from_str("\n== ");
    s.append(name);
    s.append(
        " メインメニュー ==\n 1.掲示板 BBS    2.メール MAIL   3.チャット CHAT\n 4.在室者 WHO    5.足跡 LOG      6.登録情報 PROF\n 7.ファイル FILE  T.電報 TEL\n",
    );
    if level >= LEVEL_SYSOP {
        s.append(" 9.SYSOP SYS\n");
    }
    s.append(" 0.終了 BYE\n");
    s
}

/// What a command at the main menu chooses.
#[derive(Debug, Clone, Copy, PartialEq, Eq, Structural)]
pub enum MenuCmd {
    /// Nothing typed: ask again.
    Nothing,
    /// Show the menu.
    Menu,
    Boards,
    Mail,
    Chat,
    Who,
    Log,
    Profile,
    Files,
    Telegram,
    /// The SYSOP menu (for a SYSOP only).
    Sysop,
    /// Leave.
    Bye,
    Unknown,
}

pub open spec fn menu_cmd_of(c: Seq<char>, level: i64) -> MenuCmd {
    if c.len() == 0 {
        MenuCmd::Nothing
    } else if c == "?"@ || c == "H"@ || c == "HELP"@ || c == "MENU"@ {
        MenuCmd::Menu
    } else if c == "1"@ || c == "BBS"@ || c == "B"@ {
        MenuCmd::Boards
    } else if c == "2"@ || c == "MAIL"@ || c == "M"@ {
        MenuCmd::Mail
    } else if c == "3"@ || c == "CHAT"@ || c == "C"@ {
        MenuCmd::Chat
    } else if c == "4"@ || c == "WHO"@ || c == "W"@ {
        MenuCmd::Who
    } else if c == "5"@ || c == "LOG"@ || c == "L"@ {
        MenuCmd::Log
    } else if c == "6"@ || c == "PROF"@ || c == "P"@ {
        MenuCmd::Profile
    } else if c == "7"@ || c == "FILE"@ || c == "F"@ {
        MenuCmd::Files
    } else if c == "T"@ || c == "TEL"@ {
        MenuCmd::Telegram
    } else if (c == "9"@ || c == "SYS"@ || c == "SYSOP"@) && level >= LEVEL_SYSOP {
        MenuCmd::Sysop
    } else if c == "0"@ || c == "BYE"@ || c == "G"@ || c == "OFF"@ || c == "Q"@ || c == "QUIT"@ {
        MenuCmd::Bye
    } else {
        MenuCmd::Unknown
    }
}

/// Reads a command at the main menu; the argument that follows it goes to
/// the chosen part (a chat room, a telegram).
pub fn menu_command(line: &str, level: i64) -> (r: (MenuCmd, String))
    ensures
        r.0 == menu_cmd_of(command_parts(line@).0, level),
        r.1@ == command_parts(line@).1,
        r.0 == menu_cmd_of(command_words(line@).0, level),
{
    let (c, arg) = split_cmd(line);
    let v = chars_of(c.as_str());
    let m = if v.len() == 0 {
        MenuCmd::Nothing
    } else if eq_lit(&v, "?") || eq_lit(&v, "H") || eq_lit(&v, "HELP") || eq_lit(&v, "MENU") {
        MenuCmd::Menu
    } else if eq_lit(&v, "1") || eq_lit(&v, "BBS") || eq_lit(&v, "B") {
        MenuCmd::Boards
    } else if eq_lit(&v, "2") || eq_lit(&v, "MAIL") || eq_lit(&v, "M") {
        MenuCmd::Mail
    } else if eq_lit(&v, "3") || eq_lit(&v, "CHAT") || eq_lit(&v, "C") {
        MenuCmd::Chat
    } else if eq_lit(&v, "4") || eq_lit(&v, "WHO") || eq_lit(&v, "W") {
        MenuCmd::Who
    } else if eq_lit(&v, "5") || eq_lit(&v, "LOG") || eq_lit(&v, "L") {
        MenuCmd::Log
    } else if eq_lit(&v, "6") || eq_lit(&v, "PROF") || eq_lit(&v, "P") {
        MenuCmd::Profile
    } else if eq_lit(&v, "7") || eq_lit(&v, "FILE") || eq_lit(&v, "F") {
        MenuCmd::Files
    } else if eq_lit(&v, "T") || eq_lit(&v, "TEL") {
        MenuCmd::Telegram
    } else if (eq_lit(&v, "9") || eq_lit(&v, "SYS") || eq_lit(&v, "SYSOP")) && level >= LEVEL_SYSOP {
        MenuCmd::Sysop
    } else if eq_lit(&v, "0") || eq_lit(&v, "BYE") || eq_lit(&v, "G") || eq_lit(&v, "OFF") || eq_lit(&v, "Q")
        || eq_lit(&v, "QUIT") {
        MenuCmd::Bye
    } else {
        MenuCmd::Unknown
    };
    (m, arg)
}

/// Each number of the main menu chooses the entry printed beside it, as
/// the word printed there does, whatever the user's level; 9 and SYS
/// choose the SYSOP menu for a SYSOP only.
pub proof fn lemma_menu_entries(level: i64)
    ensures
        menu_cmd_of("1"@, level) == MenuCmd::Boards && menu_cmd_of("BBS"@, level) == MenuCmd::Boards,
        menu_cmd_of("2"@, level) == MenuCmd::Mail && menu_cmd_of("MAIL"@, level) == MenuCmd::Mail,
        menu_cmd_of("3"@, level) == MenuCmd::Chat && menu_cmd_of("CHAT"@, level) == MenuCmd::Chat,
        menu_cmd_of("4"@, level) == MenuCmd::Who && menu_cmd_of("WHO"@, level) == MenuCmd::Who,
        menu_cmd_of("5"@, level) == MenuCmd::Log && menu_cmd_of("LOG"@, level) == MenuCmd::Log,
        menu_cmd_of("6"@, level) == MenuCmd::Profile && menu_cmd_of("PROF"@, level) == MenuCmd::Profile,
        menu_cmd_of("7"@, level) == MenuCmd::Files && menu_cmd_of("FILE"@, level) == MenuCmd::Files,
        menu_cmd_of("T"@, level) == MenuCmd::Telegram && menu_cmd_of("TEL"@, level) == MenuCmd::Telegram,
        menu_cmd_of("0"@, level) == MenuCmd::Bye && menu_cmd_of("BYE"@, level) == MenuCmd::Bye,
        level >= LEVEL_SYSOP ==> menu_cmd_of("9"@, level) == MenuCmd::Sysop && menu_cmd_of("SYS"@, level) == MenuCmd::Sysop,
        level < LEVEL_SYSOP ==> menu_cmd_of("9"@, level) == MenuCmd::Unknown,
{
    reveal_strlit("?");
    assert("?"@.len() == 1 && "?"@[0] == '?');
    reveal_strlit("H");
    assert("H"@.len() == 1 && "H"@[0] == 'H');
    reveal_strlit("HELP");
    assert("HELP"@.len() == 4 && "HELP"@[0] == 'H' && "HELP"@[1] == 'E' && "HELP"@[2] == 'L' && "HELP"@[3] == 'P');
    reveal_strlit("MENU");
    assert("MENU"@.len() == 4 && "MENU"@[0] == 'M' && "MENU"@[1] == 'E' && "MENU"@[2] == 'N' && "MENU"@[3] == 'U');
    reveal_strlit("1");
    assert("1"@.len() == 1 && "1"@[0] == '1');
    reveal_strlit("BBS");
    assert("BBS"@.len() == 3 && "BBS"@[0] == 'B' && "BBS"@[1] == 'B' && "BBS"@[2] == 'S');
    reveal_strlit("B");
    assert("B"@.len() == 1 && "B"@[0] == 'B');
    reveal_strlit("2");
    assert("2"@.len() == 1 && "2"@[0] == '2');
    reveal_strlit("MAIL");
    assert("MAIL"@.len() == 4 && "MAIL"@[0] == 'M' && "MAIL"@[1] == 'A' && "MAIL"@[2] == 'I' && "MAIL"@[3] == 'L');
    reveal_strlit("M");
    assert("M"@.len() == 1 && "M"@[0] == 'M');
    reveal_strlit("3");
    assert("3"@.len() == 1 && "3"@[0] == '3');
    reveal_strlit("CHAT");
    assert("CHAT"@.len() == 4 && "CHAT"@[0] == 'C' && "CHAT"@[1] == 'H' && "CHAT"@[2] == 'A' && "CHAT"@[3] == 'T');
    reveal_strlit("C");
    assert("C"@.len() == 1 && "C"@[0] == 'C');
    reveal_strlit("4");
    assert("4"@.len() == 1 && "4"@[0] == '4');
    reveal_strlit("WHO");
    assert("WHO"@.len() == 3 && "WHO"@[0] == 'W' && "WHO"@[1] == 'H' && "WHO"@[2] == 'O');
    reveal_strlit("W");
    assert("W"@.len() == 1 && "W"@[0] == 'W');
    reveal_strlit("5");
    assert("5"@.len() == 1 && "5"@[0] == '5');
    reveal_strlit("LOG");
    assert("LOG"@.len() == 3 && "LOG"@[0] == 'L' && "LOG"@[1] == 'O' && "LOG"@[2] == 'G');
    reveal_strlit("L");
    assert("L"@.len() == 1 && "L"@[0] == 'L');
    reveal_strlit("6");
    assert("6"@.len() == 1 && "6"@[0] == '6');
    reveal_strlit("PROF");
    assert("PROF"@.len() == 4 && "PROF"@[0] == 'P' && "PROF"@[1] == 'R' && "PROF"@[2] == 'O' && "PROF"@[3] == 'F');
    reveal_strlit("P");
    assert("P"@.len() == 1 && "P"@[0] == 'P');
    reveal_strlit("7");
    assert("7"@.len() == 1 && "7"@[0] == '7');
    reveal_strlit("FILE");
    assert("FILE"@.len() == 4 && "FILE"@[0] == 'F' && "FILE"@[1] == 'I' && "FILE"@[2] == 'L' && "FILE"@[3] == 'E');
    reveal_strlit("F");
    assert("F"@.len() == 1 && "F"@[0] == 'F');
    reveal_strlit("T");
    assert("T"@.len() == 1 && "T"@[0] == 'T');
    reveal_strlit("TEL");
    assert("TEL"@.len() == 3 && "TEL"@[0] == 'T' && "TEL"@[1] == 'E' && "TEL"@[2] == 'L');
    reveal_strlit("9");
    assert("9"@.len() == 1 && "9"@[0] == '9');
    reveal_strlit("SYS");
    assert("SYS"@.len() == 3 && "SYS"@[0] == 'S' && "SYS"@[1] == 'Y' && "SYS"@[2] == 'S');
    reveal_strlit("SYSOP");
    assert("SYSOP"@.len() == 5 && "SYSOP"@[0] == 'S' && "SYSOP"@[1] == 'Y' && "SYSOP"@[2] == 'S' && "SYSOP"@[3] == 'O' && "SYSOP"@[4] == 'P');
    reveal_strlit("0");
    assert("0"@.len() == 1 && "0"@[0] == '0');
    reveal_strlit("BYE");
    assert("BYE"@.len() == 3 && "BYE"@[0] == 'B' && "BYE"@[1] == 'Y' && "BYE"@[2] == 'E');
    reveal_strlit("G");
    assert("G"@.len() == 1 && "G"@[0] == 'G');
    reveal_strlit("OFF");
    assert("OFF"@.len() == 3 && "OFF"@[0] == 'O' && "OFF"@[1] == 'F' && "OFF"@[2] == 'F');
    reveal_strlit("Q");
    assert("Q"@.len() == 1 && "Q"@[0] == 'Q');
    reveal_strlit("QUIT");
    assert("QUIT"@.len() == 4 && "QUIT"@[0] == 'Q' && "QUIT"@[1] == 'U' && "QUIT"@[2] == 'I' && "QUIT"@[3] == 'T');
}

/// A line of one character typed at the main menu (white space around it
/// aside) chooses as that character in upper case does; so each number
/// shown chooses the entry beside it, for any level.
pub proof fn lemma_menu_line(s: Seq<char>, level: i64)
    requires
        trim(s).len() == 1,
        is_ascii_char(trim(s)[0]),
    ensures
        menu_cmd_of(command_words(s).0, level) == menu_cmd_of(seq![ascii_upper_char(trim(s)[0])], level),
        trim(s) == "1"@ ==> menu_cmd_of(command_words(s).0, level) == MenuCmd::Boards,
        trim(s) == "2"@ ==> menu_cmd_of(command_words(s).0, level) == MenuCmd::Mail,
        trim(s) == "3"@ ==> menu_cmd_of(command_words(s).0, level) == MenuCmd::Chat,
        trim(s) == "4"@ ==> menu_cmd_of(command_words(s).0, level) == MenuCmd::Who,
        trim(s) == "5"@ ==> menu_cmd_of(command_words(s).0, level) == MenuCmd::Log,
        trim(s) == "6"@ ==> menu_cmd_of(command_words(s).0, level) == MenuCmd::Profile,
        trim(s) == "7"@ ==> menu_cmd_of(command_words(s).0, level) == MenuCmd::Files,
        trim(s) == "0"@ ==> menu_cmd_of(command_words(s).0, level) == MenuCmd::Bye,
{
    lemma_one_char_command(s);
    lemma_menu_entries(level);
    let t = trim(s);
    reveal_strlit("1");
    if t == "1"@ {
        assert(t[0] == '1');
        assert(seq![ascii_upper_char(t[0])] =~= "1"@);
    }
    reveal_strlit("2");
    if t == "2"@ {
        assert(t[0] == '2');
        assert(seq![ascii_upper_char(t[0])] =~= "2"@);
    }
    reveal_strlit("3");
    if t == "3"@ {
        assert(t[0] == '3');
        assert(seq![ascii_upper_char(t[0])] =~= "3"@);
    }
    reveal_strlit("4");
    if t == "4"@ {
        assert(t[0] == '4');
        assert(seq![ascii_upper_char(t[0])] =~= "4"@);
    }
    reveal_strlit("5");
    if t == "5"@ {
        assert(t[0] == '5');
        assert(seq![ascii_upper_char(t[0])] =~= "5"@);
    }
    reveal_strlit("6");
    if t == "6"@ {
        assert(t[0] == '6');
        assert(seq![ascii_upper_char(t[0])] =~= "6"@);
    }
    reveal_strlit("7");
    if t == "7"@ {
        assert(t[0] == '7');
        assert(seq![ascii_upper_char(t[0])] =~= "7"@);
    }
    reveal_strlit("0");
    if t == "0"@ {
        assert(t[0] == '0');
        assert(seq![ascii_upper_char(t[0])] =~= "0"@);
    }
}

} // verus!
