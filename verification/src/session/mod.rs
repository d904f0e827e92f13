//! What a user's session decides: command parsing, column layout, the
//! checks on what users type and the texts shown.

pub mod bbs;
pub mod chat;
pub mod dialog;
pub mod files;
pub mod info;
pub mod login;
pub mod mail;
pub mod menu;
pub mod sysop;
pub mod util;

use vstd::prelude::*;
use crate::term::SessionError;

verus! {

/// What is said on leaving when there is no goodbye file.
pub open spec fn goodbye_text(name: Seq<char>) -> Seq<char> {
    "\nご利用ありがとうございました。"@ + name + " でした。\n"@
}

pub fn default_goodbye(name: &str) -> (r: String)
    ensures
        r@ == goodbye_text(name@),
{
    let mut s = String::from_str("\nご利用ありがとうございました。");
    s.append(name);
    s.append(" でした。\n");
    s
}

/// How a session that ended with `e` says so on the screen.
pub open spec fn ended_text(message: Seq<char>) -> Seq<char> {
    "\n\n*** "@ + message + " ***"@
}

pub fn ended(e: &SessionError) -> (r: String)
    ensures
        r@ == ended_text(e.message_text()),
{
    let mut s = String::from_str("\n\n*** ");
    s.append(e.message().as_str());
    s.append(" ***");
    s
}

/// The reason written to the access log when a session ends: leaving by
/// choice is a log-off.
pub fn end_reason(result: &Result<(), SessionError>) -> (r: &'static str)
    ensures
        r@ == match result {
            Ok(()) => "ログオフ"@,
            Err(e) => e.reason_text(),
        },
{
    match result {
        Ok(()) => "ログオフ",
        Err(e) => e.reason(),
    }
}

/// Who is on a line, as the system log names them.
pub open spec fn user_label_text(handle: Seq<char>, login: Seq<char>) -> Seq<char> {
    handle + " ("@ + login + ")"@
}

pub fn user_label(handle: &str, login: &str) -> (r: String)
    ensures
        r@ == user_label_text(handle@, login@),
{
    let mut s = String::from_str(handle);
    s.append(" (");
    s.append(login);
    s.append(")");
    s
}

/// The rows of a user's screen as stored, brought into `8..=100`.
pub fn screen_rows(rows: i64) -> (r: usize)
    ensures
        r == crate::config::clamp(rows as int, 8, 100),
{
    if rows < 8 { 8 } else if rows > 100 { 100 } else { rows as usize }
}

/// A text file shown to callers, with `{name}` standing for the BBS name.
pub open spec fn filled_text(text: Seq<char>, name: Seq<char>) -> Seq<char> {
    crate::text::replaced(text, "{name}"@, name)
}

pub fn fill_name(text: &str, name: &str) -> (r: String)
    ensures
        r@ == filled_text(text@, name@),
{
    proof { reveal_strlit("{name}"); }
    crate::text::replace_text(text, "{name}", name)
}

/// The name of a new board: in upper case.
pub fn board_name(typed: &str) -> (r: String)
    ensures
        r@ == crate::session::util::unicode_upper(typed@),
{
    crate::session::util::to_uppercase(typed)
}

} // verus!
