//! The message boards: commands, permissions, the post body editor's
//! decisions and the texts shown.

use vstd::prelude::*;
use crate::text::{
    chars_of, decimal, eq_ignore_ascii_case, int_text, parse_i64, parse_signed, parse_unsigned, parse_usize,
    push_int, push_int_right, push_repeat, repeat, right_aligned, same_ignoring_case, starts_with, trim, trim_str,
    all_digits, is_ascii_char, is_ascii_digit, sign_stripped,
};
use crate::db::repo::{Board, Post, User, LEVEL_GUEST, LEVEL_SYSOP};
use crate::session::util::{command_parts, command_words, lemma_one_char_command, fmt_time, pad, padded, split_cmd, time_text, valid_time, LocalTime};
use crate::session::chat::eq_lit;

verus! {

// ------------------------------------------------------------ the body editor

/// What a line typed into a post body means.
#[derive(Debug, Clone, Copy, PartialEq, Eq, Structural)]
pub enum BodyLine {
    /// `.` alone: the body is done.
    End,
    /// `/A`: give up.
    Abort,
    /// `/L`: show the lines so far.
    Review,
    /// Any other line is part of the body.
    Add,
}

pub fn body_line(line: &str) -> (r: BodyLine)
    ensures
        ({
            let t = trim(line@);
            r == if t == "."@ {
                BodyLine::End
            } else if t == "/A"@ || t == "/a"@ {
                BodyLine::Abort
            } else if t == "/L"@ || t == "/l"@ {
                BodyLine::Review
            } else {
                BodyLine::Add
            }
        }),
{
    let t = chars_of(trim_str(line).as_str());
    if eq_lit(&t, ".") {
        BodyLine::End
    } else if eq_lit(&t, "/A") || eq_lit(&t, "/a") {
        BodyLine::Abort
    } else if eq_lit(&t, "/L") || eq_lit(&t, "/l") {
        BodyLine::Review
    } else {
        BodyLine::Add
    }
}

/// The most lines a body holds.
pub const MAX_BODY_LINES: usize = 300;

/// The prompt for line `n` (counted from 1) of a body: the number in three
/// columns.
pub open spec fn body_prompt_text(n: nat) -> Seq<char> {
    right_aligned(decimal(n), 3) + ": "@
}

pub fn body_prompt(n: usize) -> (r: String)
    ensures
        r@ == body_prompt_text(n as nat),
{
    let mut s = String::new();
    let mut t = String::new();
    crate::text::push_decimal(&mut t, n as u64);
    crate::text::push_right(&mut s, t.as_str(), 3);
    s.append(": ");
    s
}

/// The lines so far, each numbered as its prompt was.
pub fn review_lines(lines: &Vec<String>) -> (r: Vec<String>)
    requires
        lines@.len() < usize::MAX,
    ensures
        r@.len() == lines@.len(),
        forall|i: int| 0 <= i < r@.len() ==> (#[trigger] r@[i])@ == body_prompt_text((i + 1) as nat) + lines@[i]@,
{
    let mut out: Vec<String> = Vec::new();
    let mut i: usize = 0;
    while i < lines.len()
        invariant
            i <= lines@.len() < usize::MAX,
            out@.len() == i,
            forall|k: int| 0 <= k < i ==> (#[trigger] out@[k])@ == body_prompt_text((k + 1) as nat) + lines@[k]@,
        decreases lines.len() - i,
    {
        let mut l = body_prompt(i + 1);
        l.append(lines[i].as_str());
        out.push(l);
        i = i + 1;
    }
    out
}

/// How many lines are left once the blank lines at the end are dropped.
pub open spec fn kept_lines(lines: Seq<Seq<char>>) -> nat
    decreases lines.len(),
{
    if lines.len() > 0 && trim(lines.last()).len() == 0 { kept_lines(lines.drop_last()) } else { lines.len() }
}

/// The body made of `lines`: the blank lines at the end dropped, the rest
/// joined by LF; nothing when no line is left.
pub open spec fn body_of(lines: Seq<Seq<char>>) -> Option<Seq<char>> {
    let n = kept_lines(lines);
    if n == 0 {
        None
    } else {
        Some(crate::session::login::joined(lines.take(n as int), "\n"@))
    }
}

proof fn lemma_kept_lines_bound(lines: Seq<Seq<char>>)
    ensures
        kept_lines(lines) <= lines.len(),
    decreases lines.len(),
{
    if lines.len() > 0 {
        lemma_kept_lines_bound(lines.drop_last());
    }
}

pub fn finish_body(lines: Vec<String>) -> (r: Option<String>)
    ensures
        match body_of(lines@.map_values(|l: String| l@)) {
            Some(b) => r matches Some(s) && s@ == b,
            None => r is None,
        },
{
    let ghost all = lines@.map_values(|l: String| l@);
    let mut lines = lines;
    let ghost orig = all;
    assert(orig.take(orig.len() as int) == orig);
    while lines.len() > 0 && trim_str(lines[lines.len() - 1].as_str()).unicode_len() == 0
        invariant
            lines@.len() <= orig.len(),
            lines@.map_values(|l: String| l@) == orig.take(lines@.len() as int),
            kept_lines(orig) == kept_lines(orig.take(lines@.len() as int)),
        decreases lines.len(),
    {
        let ghost t = orig.take(lines@.len() as int);
        assert(t.drop_last() == orig.take(lines@.len() - 1));
        assert(t.last() == lines@[lines@.len() - 1]@);
        lines.pop();
        assert(lines@.map_values(|l: String| l@) == orig.take(lines@.len() as int));
    }
    let ghost t = orig.take(lines@.len() as int);
    proof {
        if lines@.len() > 0 {
            assert(t.last() == lines@[lines@.len() - 1]@);
        }
        assert(kept_lines(t) == t.len());
        assert(t.take(t.len() as int) == t);
    }
    if lines.len() == 0 {
        return None;
    }
    Some(crate::session::login::join(&lines, "\n"))
}

// ------------------------------------------------------------ boards

/// A board's line in the list of boards: its number, title, posts and
/// unread posts (`-` for the guest).
pub open spec fn board_line_text(no: nat, b: Board, guest: bool) -> Seq<char> {
    right_aligned(decimal(no), 3) + "  "@ + padded(b.title@, 22) + " "@ + right_aligned(int_text(b.count as int), 5)
        + " "@ + right_aligned(if guest { "-"@ } else { int_text(b.unread as int) }, 5)
}

pub fn board_line(no: usize, b: &Board, guest: bool) -> (r: String)
    ensures
        r@ == board_line_text(no as nat, *b, guest),
{
    let mut s = String::new();
    let mut n = String::new();
    crate::text::push_decimal(&mut n, no as u64);
    crate::text::push_right(&mut s, n.as_str(), 3);
    s.append("  ");
    let t = pad(b.title.as_str(), 22);
    s.append(t.as_str());
    s.append(" ");
    push_int_right(&mut s, b.count, 5);
    s.append(" ");
    if guest {
        crate::text::push_right(&mut s, "-", 5);
    } else {
        push_int_right(&mut s, b.unread, 5);
    }
    s
}

/// The board that `cmd` names: its number in the list (from 1), or else its
/// name in any case, the first one that has it.
pub open spec fn chosen_board(boards: Seq<Board>, cmd: Seq<char>) -> Option<int> {
    match parse_unsigned(cmd, usize::MAX as nat) {
        Some(n) if 1 <= n <= boards.len() => Some(n - 1),
        _ => first_named(boards, cmd),
    }
}

/// The first board whose name is `name` in any case.
pub open spec fn first_named(boards: Seq<Board>, name: Seq<char>) -> Option<int>
    decreases boards.len(),
{
    if boards.len() == 0 {
        None
    } else {
        match first_named(boards.drop_last(), name) {
            Some(i) => Some(i),
            None => if eq_ignore_ascii_case(boards.last().name@, name) { Some(boards.len() - 1) } else { None },
        }
    }
}

proof fn lemma_first_named_prefix(s: Seq<Board>, k: int, name: Seq<char>)
    requires
        0 <= k <= s.len(),
        first_named(s.take(k), name) is Some,
    ensures
        first_named(s, name) == first_named(s.take(k), name),
    decreases s.len() - k,
{
    if k < s.len() {
        assert(s.take(k + 1).drop_last() == s.take(k));
        lemma_first_named_prefix(s, k + 1, name);
    } else {
        assert(s.take(k) == s);
    }
}

pub fn choose_board(boards: &Vec<Board>, cmd: &str) -> (r: Option<usize>)
    ensures
        match chosen_board(boards@, cmd@) {
            Some(i) => r == Some(i as usize),
            None => r is None,
        },
{
    match parse_usize(cmd) {
        Some(n) => {
            if n >= 1 && n <= boards.len() {
                return Some(n - 1);
            }
        },
        None => {},
    }
    assert(chosen_board(boards@, cmd@) == first_named(boards@, cmd@));
    let mut i: usize = 0;
    while i < boards.len()
        invariant
            i <= boards@.len(),
            chosen_board(boards@, cmd@) == first_named(boards@, cmd@),
            first_named(boards@.take(i as int), cmd@) is None,
        decreases boards.len() - i,
    {
        let ghost t = boards@.take(i + 1);
        assert(t.drop_last() == boards@.take(i as int));
        assert(t.last() == boards@[i as int]);
        if same_ignoring_case(boards[i].name.as_str(), cmd) {
            proof { lemma_first_named_prefix(boards@, i + 1, cmd@); }
            return Some(i);
        }
        i = i + 1;
    }
    assert(boards@.take(boards@.len() as int) == boards@);
    None
}

/// A command at a board's prompt.
#[derive(Debug, Clone, Copy, PartialEq, Eq, Structural)]
pub enum BoardCmd {
    /// `Q` or nothing: back to the list of boards.
    Back,
    /// `G`: log off.
    Logoff,
    Help,
    /// `L`: the list of posts.
    List,
    /// `R n`, `READ n`, or just the number.
    Read(Option<i64>),
    /// `N`, `NEW`: read the unread posts in turn.
    Unread,
    /// `W`, `WRITE`.
    Write,
    /// `RE n`: reply to a post.
    Reply(Option<i64>),
    /// `D n`, `DEL n`.
    Delete(Option<i64>),
    Unknown,
}

/// The number of a post as typed: `Some` when it reads as an `i64`.
pub open spec fn post_number(arg: Seq<char>) -> Option<i64> {
    match parse_signed(arg) {
        Some(n) => Some(n as i64),
        None => None,
    }
}

/// Reads a command at a board's prompt.
pub open spec fn board_cmd_of(c: Seq<char>, arg: Seq<char>) -> BoardCmd {
    if c == "Q"@ || c.len() == 0 {
        BoardCmd::Back
    } else if c == "G"@ {
        BoardCmd::Logoff
    } else if c == "?"@ {
        BoardCmd::Help
    } else if c == "L"@ {
        BoardCmd::List
    } else if c == "R"@ || c == "READ"@ {
        BoardCmd::Read(post_number(arg))
    } else if parse_signed(c) is Some {
        BoardCmd::Read(post_number(c))
    } else if c == "N"@ || c == "NEW"@ {
        BoardCmd::Unread
    } else if c == "W"@ || c == "WRITE"@ {
        BoardCmd::Write
    } else if c == "RE"@ {
        BoardCmd::Reply(post_number(arg))
    } else if c == "D"@ || c == "DEL"@ {
        BoardCmd::Delete(post_number(arg))
    } else {
        BoardCmd::Unknown
    }
}

pub fn board_command(line: &str) -> (r: BoardCmd)
    ensures
        r == board_cmd_of(command_parts(line@).0, command_parts(line@).1),
        r == board_cmd_of(command_words(line@).0, command_words(line@).1),
{
    let (c, arg) = split_cmd(line);
    let cv = chars_of(c.as_str());
    let num = parse_i64(arg.as_str());
    if eq_lit(&cv, "Q") || cv.len() == 0 {
        BoardCmd::Back
    } else if eq_lit(&cv, "G") {
        BoardCmd::Logoff
    } else if eq_lit(&cv, "?") {
        BoardCmd::Help
    } else if eq_lit(&cv, "L") {
        BoardCmd::List
    } else if eq_lit(&cv, "R") || eq_lit(&cv, "READ") {
        BoardCmd::Read(num)
    } else if let Some(n) = parse_i64(c.as_str()) {
        BoardCmd::Read(Some(n))
    } else if eq_lit(&cv, "N") || eq_lit(&cv, "NEW") {
        BoardCmd::Unread
    } else if eq_lit(&cv, "W") || eq_lit(&cv, "WRITE") {
        BoardCmd::Write
    } else if eq_lit(&cv, "RE") {
        BoardCmd::Reply(num)
    } else if eq_lit(&cv, "D") || eq_lit(&cv, "DEL") {
        BoardCmd::Delete(num)
    } else {
        BoardCmd::Unknown
    }
}

/// Each one-letter command of the board prompt, typed alone in either
/// case, is read as that command: L lists, N reads the unread posts, W
/// writes, Q goes back, G logs off, ? shows the help, and R or D without a
/// number ask for one.
pub proof fn lemma_board_letters(s: Seq<char>)
    requires
        trim(s).len() == 1,
        is_ascii_char(trim(s)[0]),
    ensures
        (trim(s)[0] == 'l' || trim(s)[0] == 'L') ==> board_cmd_of(command_words(s).0, command_words(s).1) == BoardCmd::List,
        (trim(s)[0] == 'n' || trim(s)[0] == 'N') ==> board_cmd_of(command_words(s).0, command_words(s).1) == BoardCmd::Unread,
        (trim(s)[0] == 'w' || trim(s)[0] == 'W') ==> board_cmd_of(command_words(s).0, command_words(s).1) == BoardCmd::Write,
        (trim(s)[0] == 'q' || trim(s)[0] == 'Q') ==> board_cmd_of(command_words(s).0, command_words(s).1) == BoardCmd::Back,
        (trim(s)[0] == 'g' || trim(s)[0] == 'G') ==> board_cmd_of(command_words(s).0, command_words(s).1) == BoardCmd::Logoff,
        (trim(s)[0] == 'r' || trim(s)[0] == 'R') ==> board_cmd_of(command_words(s).0, command_words(s).1) == BoardCmd::Read(None),
        (trim(s)[0] == 'd' || trim(s)[0] == 'D') ==> board_cmd_of(command_words(s).0, command_words(s).1) == BoardCmd::Delete(None),
        trim(s)[0] == '?' ==> board_cmd_of(command_words(s).0, command_words(s).1) == BoardCmd::Help,
{
    lemma_one_char_command(s);
    let t = trim(s);
    reveal_strlit("Q");
    assert("Q"@.len() == 1 && "Q"@[0] == 'Q');
    reveal_strlit("G");
    assert("G"@.len() == 1 && "G"@[0] == 'G');
    reveal_strlit("?");
    assert("?"@.len() == 1 && "?"@[0] == '?');
    reveal_strlit("L");
    assert("L"@.len() == 1 && "L"@[0] == 'L');
    reveal_strlit("R");
    assert("R"@.len() == 1 && "R"@[0] == 'R');
    reveal_strlit("READ");
    assert("READ"@.len() == 4 && "READ"@[0] == 'R' && "READ"@[1] == 'E' && "READ"@[2] == 'A' && "READ"@[3] == 'D');
    reveal_strlit("N");
    assert("N"@.len() == 1 && "N"@[0] == 'N');
    reveal_strlit("NEW");
    assert("NEW"@.len() == 3 && "NEW"@[0] == 'N' && "NEW"@[1] == 'E' && "NEW"@[2] == 'W');
    reveal_strlit("W");
    assert("W"@.len() == 1 && "W"@[0] == 'W');
    reveal_strlit("WRITE");
    assert("WRITE"@.len() == 5 && "WRITE"@[0] == 'W' && "WRITE"@[1] == 'R' && "WRITE"@[2] == 'I' && "WRITE"@[3] == 'T' && "WRITE"@[4] == 'E');
    reveal_strlit("RE");
    assert("RE"@.len() == 2 && "RE"@[0] == 'R' && "RE"@[1] == 'E');
    reveal_strlit("D");
    assert("D"@.len() == 1 && "D"@[0] == 'D');
    reveal_strlit("DEL");
    assert("DEL"@.len() == 3 && "DEL"@[0] == 'D' && "DEL"@[1] == 'E' && "DEL"@[2] == 'L');
    if t[0] == 'l' || t[0] == 'L' {
        let c: Seq<char> = seq!['L'];
        assert(c[0] == 'L');
        assert(command_words(s).0 =~= c);
        assert(c =~= "L"@);
        assert(!is_ascii_digit(c[0]));
        assert(sign_stripped(c) == c);
        assert(!all_digits(c));
        assert(parse_signed(c) is None);
    }
    if t[0] == 'n' || t[0] == 'N' {
        let c: Seq<char> = seq!['N'];
        assert(c[0] == 'N');
        assert(command_words(s).0 =~= c);
        assert(c =~= "N"@);
        assert(!is_ascii_digit(c[0]));
        assert(sign_stripped(c) == c);
        assert(!all_digits(c));
        assert(parse_signed(c) is None);
    }
    if t[0] == 'w' || t[0] == 'W' {
        let c: Seq<char> = seq!['W'];
        assert(c[0] == 'W');
        assert(command_words(s).0 =~= c);
        assert(c =~= "W"@);
        assert(!is_ascii_digit(c[0]));
        assert(sign_stripped(c) == c);
        assert(!all_digits(c));
        assert(parse_signed(c) is None);
    }
    if t[0] == 'q' || t[0] == 'Q' {
        let c: Seq<char> = seq!['Q'];
        assert(c[0] == 'Q');
        assert(command_words(s).0 =~= c);
        assert(c =~= "Q"@);
        assert(!is_ascii_digit(c[0]));
        assert(sign_stripped(c) == c);
        assert(!all_digits(c));
        assert(parse_signed(c) is None);
    }
    if t[0] == 'g' || t[0] == 'G' {
        let c: Seq<char> = seq!['G'];
        assert(c[0] == 'G');
        assert(command_words(s).0 =~= c);
        assert(c =~= "G"@);
        assert(!is_ascii_digit(c[0]));
        assert(sign_stripped(c) == c);
        assert(!all_digits(c));
        assert(parse_signed(c) is None);
    }
    if t[0] == 'r' || t[0] == 'R' {
        let c: Seq<char> = seq!['R'];
        assert(c[0] == 'R');
        assert(command_words(s).0 =~= c);
        assert(c =~= "R"@);
        assert(!is_ascii_digit(c[0]));
        assert(sign_stripped(c) == c);
        assert(!all_digits(c));
        assert(parse_signed(c) is None);
    }
    if t[0] == 'd' || t[0] == 'D' {
        let c: Seq<char> = seq!['D'];
        assert(c[0] == 'D');
        assert(command_words(s).0 =~= c);
        assert(c =~= "D"@);
        assert(!is_ascii_digit(c[0]));
        assert(sign_stripped(c) == c);
        assert(!all_digits(c));
        assert(parse_signed(c) is None);
    }
    if t[0] == '?' {
        assert(command_words(s).0 =~= "?"@);
    }
}

/// R, READ, RE, D and DEL name a post the same way: the number typed as
/// the argument, which is none unless the argument reads as an `i64`.
pub proof fn lemma_board_numbered(arg: Seq<char>)
    ensures
        board_cmd_of("R"@, arg) matches BoardCmd::Read(x)
            && board_cmd_of("READ"@, arg) == BoardCmd::Read(x)
            && board_cmd_of("RE"@, arg) == BoardCmd::Reply(x)
            && board_cmd_of("D"@, arg) == BoardCmd::Delete(x)
            && board_cmd_of("DEL"@, arg) == BoardCmd::Delete(x)
            && (x is Some <==> parse_signed(arg) is Some)
            && (x matches Some(n) ==> n as int == parse_signed(arg)->0),
{
    reveal_strlit("Q");
    assert("Q"@.len() == 1 && "Q"@[0] == 'Q');
    reveal_strlit("G");
    assert("G"@.len() == 1 && "G"@[0] == 'G');
    reveal_strlit("?");
    assert("?"@.len() == 1 && "?"@[0] == '?');
    reveal_strlit("L");
    assert("L"@.len() == 1 && "L"@[0] == 'L');
    reveal_strlit("R");
    assert("R"@.len() == 1 && "R"@[0] == 'R');
    reveal_strlit("READ");
    assert("READ"@.len() == 4 && "READ"@[0] == 'R' && "READ"@[1] == 'E' && "READ"@[2] == 'A' && "READ"@[3] == 'D');
    reveal_strlit("N");
    assert("N"@.len() == 1 && "N"@[0] == 'N');
    reveal_strlit("NEW");
    assert("NEW"@.len() == 3 && "NEW"@[0] == 'N' && "NEW"@[1] == 'E' && "NEW"@[2] == 'W');
    reveal_strlit("W");
    assert("W"@.len() == 1 && "W"@[0] == 'W');
    reveal_strlit("WRITE");
    assert("WRITE"@.len() == 5 && "WRITE"@[0] == 'W' && "WRITE"@[1] == 'R' && "WRITE"@[2] == 'I' && "WRITE"@[3] == 'T' && "WRITE"@[4] == 'E');
    reveal_strlit("RE");
    assert("RE"@.len() == 2 && "RE"@[0] == 'R' && "RE"@[1] == 'E');
    reveal_strlit("D");
    assert("D"@.len() == 1 && "D"@[0] == 'D');
    reveal_strlit("DEL");
    assert("DEL"@.len() == 3 && "DEL"@[0] == 'D' && "DEL"@[1] == 'E' && "DEL"@[2] == 'L');
    assert(!all_digits("READ"@) && !all_digits("RE"@) && !all_digits("D"@) && !all_digits("DEL"@)) by {
        assert(!is_ascii_digit("READ"@[0]) && !is_ascii_digit("D"@[0]));
    }
    assert(sign_stripped("RE"@) == "RE"@ && sign_stripped("D"@) == "D"@ && sign_stripped("DEL"@) == "DEL"@);
}

/// Who may write on a board: a member of at least its write level.
pub fn can_write(user: &User, b: &Board) -> (r: bool)
    ensures
        r == (user.level > LEVEL_GUEST && user.level >= b.write_level),
{
    !user.is_guest() && user.level >= b.write_level
}

/// Who may delete a post: its author (the login in any case) or a SYSOP.
pub fn can_delete(author_login: &str, user: &User) -> (r: bool)
    ensures
        r == (eq_ignore_ascii_case(author_login@, user.login@) || user.level >= LEVEL_SYSOP),
{
    same_ignoring_case(author_login, user.login.as_str()) || user.level >= LEVEL_SYSOP
}

/// The title of a reply: that of the post replied to, with `Re: ` in front unless it
/// starts with `Re:` already.
pub open spec fn reply_title_text(t: Seq<char>) -> Seq<char> {
    if t.len() >= 3 && t.subrange(0, 3) == "Re:"@ { t } else { "Re: "@ + t }
}

pub fn reply_title(t: &str) -> (r: String)
    ensures
        r@ == reply_title_text(t@),
{
    proof { reveal_strlit("Re:"); }
    if starts_with(t, "Re:") {
        String::from_str(t)
    } else {
        let mut s = String::from_str("Re: ");
        s.append(t);
        s
    }
}

/// The prompt for a title, offering the default when there is one.
pub open spec fn title_prompt_text(default: Seq<char>) -> Seq<char> {
    if default.len() == 0 { "題名: "@ } else { "題名 (Enter で「"@ + default + "」): "@ }
}

pub fn title_prompt(default: &str) -> (r: String)
    ensures
        r@ == title_prompt_text(default@),
{
    if default.unicode_len() == 0 {
        String::from_str("題名: ")
    } else {
        let mut s = String::from_str("題名 (Enter で「");
        s.append(default);
        s.append("」): ");
        s
    }
}

/// The title a post gets: what was typed, without white space at the
/// ends, or the default when nothing was typed; nothing when both are
/// empty (the post is given up).
pub fn chosen_title(typed: &str, default: &str) -> (r: Option<String>)
    ensures
        ({
            let t = trim(typed@);
            let c = if t.len() == 0 { default@ } else { t };
            if c.len() == 0 { r is None } else { r matches Some(s) && s@ == c }
        }),
{
    let t = trim_str(typed);
    let c = if t.unicode_len() == 0 { String::from_str(default) } else { t };
    if c.unicode_len() == 0 { None } else { Some(c) }
}

/// A post as it is shown, with the time it was written as `time`.
pub open spec fn post_text(board_title: Seq<char>, p: Post, time: Seq<char>) -> Seq<char> {
    let re = match p.parent_seq {
        Some(s) => " (#"@ + int_text(s as int) + " へのコメント)"@,
        None => Seq::empty(),
    };
    "\n#"@ + int_text(p.seq as int) + " ["@ + board_title + "] "@ + time + "  "@ + p.author_handle@ + " ("@
        + p.author_login@ + ")"@ + re + "\n題名: "@ + p.title@ + "\n"@ + repeat('-', 60) + "\n"@ + p.body@ + "\n"@
        + repeat('-', 60) + "\n"@
}

/// A post as it is shown, with the given text for its time.
pub fn post_with_time(board_title: &str, p: &Post, time: &str) -> (r: String)
    ensures
        r@ == post_text(board_title@, *p, time@),
{
    let mut s = String::from_str("\n#");
    push_int(&mut s, p.seq);
    s.append(" [");
    s.append(board_title);
    s.append("] ");
    s.append(time);
    s.append("  ");
    s.append(p.author_handle.as_str());
    s.append(" (");
    s.append(p.author_login.as_str());
    s.append(")");
    match p.parent_seq {
        Some(q) => {
            s.append(" (#");
            push_int(&mut s, q);
            s.append(" へのコメント)");
        },
        None => {},
    }
    s.append("\n題名: ");
    s.append(p.title.as_str());
    s.append("\n");
    push_repeat(&mut s, '-', 60);
    s.append("\n");
    s.append(p.body.as_str());
    s.append("\n");
    push_repeat(&mut s, '-', 60);
    s.append("\n");
    s
}

/// A post as it is shown: its number, the board, when and by whom it was
/// written, what it replies to, its title and its body between rules.
pub fn show_post(b: &Board, p: &Post) -> (r: String)
    ensures
        exists|time: Seq<char>| r@ == post_text(b.title@, *p, time)
            && (time.len() == 0 || exists|t: LocalTime| valid_time(t) && time == time_text(t)),
{
    let time = fmt_time(p.created_at);
    post_with_time(b.title.as_str(), p, time.as_str())
}

/// A post's line in the list of posts: number, time, author and title.
pub open spec fn post_line_text(p: Post, time: Seq<char>) -> Seq<char> {
    let n = int_text(p.seq as int);
    "#"@ + (if n.len() < 4 { n + repeat(' ', (4 - n.len()) as nat) } else { n }) + " "@ + time + " "@
        + padded(p.author_handle@, 12) + " "@ + p.title@
}

pub fn post_line(p: &Post, time: &str) -> (r: String)
    ensures
        r@ == post_line_text(*p, time@),
{
    let mut n = String::new();
    push_int(&mut n, p.seq);
    let mut s = String::from_str("#");
    let len = n.unicode_len();
    s.append(n.as_str());
    if len < 4 {
        push_repeat(&mut s, ' ', 4 - len);
    }
    s.append(" ");
    s.append(time);
    s.append(" ");
    let h = pad(p.author_handle.as_str(), 12);
    s.append(h.as_str());
    s.append(" ");
    s.append(p.title.as_str());
    s
}

/// The question between unread posts: how many are left.
pub open spec fn unread_prompt_text(left: nat) -> Seq<char> {
    "-- 未読あと "@ + decimal(left) + " 件 (Enter:次 Q:やめる) --"@
}

pub fn unread_prompt(left: usize) -> (r: String)
    ensures
        r@ == unread_prompt_text(left as nat),
{
    let mut s = String::from_str("-- 未読あと ");
    crate::text::push_decimal(&mut s, left as u64);
    s.append(" 件 (Enter:次 Q:やめる) --");
    s
}

} // verus!
