//! The command line tools: adding members and listing members and boards.

use vstd::prelude::*;
use crate::text::{chars_of, int_text, left_aligned, push_int, push_int_right, push_left, right_aligned, string_of};
use crate::db::repo::{Board, User, LEVEL_MEMBER, LEVEL_SYSOP};

verus! {

/// A line read from the terminal without the CR and LF characters that end
/// it.
pub open spec fn without_line_end(s: Seq<char>) -> Seq<char>
    decreases s.len(),
{
    if s.len() > 0 && (s.last() == '\r' || s.last() == '\n') { without_line_end(s.drop_last()) } else { s }
}

/// The refusal of a password shorter than four characters.
pub open spec fn short_password_text() -> Seq<char> {
    "パスワードは 4 文字以上にしてください"@
}

/// The password typed on a line: its line end taken off, and refused when
/// shorter than four characters.
pub fn password_from_line(line: &str) -> (r: Result<String, String>)
    ensures
        ({
            let p = without_line_end(line@);
            if p.len() >= 4 {
                r matches Ok(s) && s@ == p
            } else {
                r matches Err(m) && m@ == short_password_text()
            }
        }),
{
    let mut v = chars_of(line);
    while v.len() > 0 && (v[v.len() - 1] == '\r' || v[v.len() - 1] == '\n')
        invariant
            without_line_end(line@) == without_line_end(v@),
        decreases v.len(),
    {
        v.pop();
    }
    if v.len() < 4 {
        return Err(String::from_str("パスワードは 4 文字以上にしてください"));
    }
    Ok(string_of(&v))
}

/// The level of a member added from the command line.
pub fn added_level(sysop: bool) -> (r: i64)
    ensures
        r == (if sysop { LEVEL_SYSOP } else { LEVEL_MEMBER }),
{
    if sysop { LEVEL_SYSOP } else { LEVEL_MEMBER }
}

/// What is said when a member was added.
pub open spec fn user_added_text(id: int) -> Seq<char> {
    "会員を追加しました (id "@ + int_text(id) + ")"@
}

pub fn user_added(id: i64) -> (r: String)
    ensures
        r@ == user_added_text(id as int),
{
    let mut s = String::from_str("会員を追加しました (id ");
    push_int(&mut s, id);
    s.append(")");
    s
}

/// A member in the list of members: number, login, handle, level, and
/// whether suspended.
pub open spec fn user_list_text(u: User) -> Seq<char> {
    right_aligned(int_text(u.id as int), 4) + " "@ + left_aligned(u.login@, 12) + " "@ + left_aligned(u.handle@, 16)
        + " level "@ + right_aligned(int_text(u.level as int), 3) + (if u.banned { " (停止中)"@ } else { ""@ })
}

pub fn user_list_line(u: &User) -> (r: String)
    ensures
        r@ == user_list_text(*u),
{
    let mut s = String::new();
    push_int_right(&mut s, u.id, 4);
    s.append(" ");
    push_left(&mut s, u.login.as_str(), 12);
    s.append(" ");
    push_left(&mut s, u.handle.as_str(), 16);
    s.append(" level ");
    push_int_right(&mut s, u.level, 3);
    if u.banned {
        s.append(" (停止中)");
    } else {
        s.append("");
    }
    s
}

/// A board in the list of boards: name, title, posts and write level.
pub open spec fn board_list_text(b: Board) -> Seq<char> {
    left_aligned(b.name@, 10) + " "@ + left_aligned(b.title@, 20) + " 記事 "@ + right_aligned(int_text(b.count as int), 4)
        + "  書込レベル "@ + int_text(b.write_level as int)
}

pub fn board_list_line(b: &Board) -> (r: String)
    ensures
        r@ == board_list_text(*b),
{
    let mut s = String::new();
    push_left(&mut s, b.name.as_str(), 10);
    s.append(" ");
    push_left(&mut s, b.title.as_str(), 20);
    s.append(" 記事 ");
    push_int_right(&mut s, b.count, 4);
    s.append("  書込レベル ");
    push_int(&mut s, b.write_level);
    s
}

} // verus!
