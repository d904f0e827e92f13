//! The SYSOP menu on a line: its commands and what they report.

use vstd::prelude::*;
use crate::text::{chars_of, decimal, push_decimal};
use crate::hub::parse_u16;
use crate::session::util::{command_parts, split_cmd};
use crate::session::chat::eq_lit;

verus! {

/// A command at the SYSOP prompt.
#[derive(Debug, Clone, PartialEq, Eq)]
pub enum SysopCmd {
    /// `Q` or nothing.
    Back,
    /// `B`: a broadcast, with the text typed after it.
    Broadcast(String),
    /// `K n`: hang up line `n` (not the SYSOP's own).
    Kick(u16),
    /// `K` without a line that may be hung up.
    KickUsage,
    /// `A`: add a board.
    AddBoard,
    Unknown,
}

/// Reads a command at the SYSOP prompt typed on line `own`.
pub fn sysop_command(line: &str, own: u16) -> (r: SysopCmd)
    ensures
        ({
            let (c, arg) = command_parts(line@);
            if c.len() == 0 || c == "Q"@ {
                r is Back
            } else if c == "B"@ {
                r matches SysopCmd::Broadcast(t) && t@ == arg
            } else if c == "K"@ {
                match parse_u16(arg) {
                    Some(no) if no != own => r == SysopCmd::Kick(no),
                    _ => r is KickUsage,
                }
            } else if c == "A"@ {
                r is AddBoard
            } else {
                r is Unknown
            }
        }),
{
    let (c, arg) = split_cmd(line);
    let v = chars_of(c.as_str());
    if v.len() == 0 || eq_lit(&v, "Q") {
        SysopCmd::Back
    } else if eq_lit(&v, "B") {
        SysopCmd::Broadcast(arg)
    } else if eq_lit(&v, "K") {
        match crate::hub::parse_u16_of(arg.as_str()) {
            Some(no) => if no != own { SysopCmd::Kick(no) } else { SysopCmd::KickUsage },
            None => SysopCmd::KickUsage,
        }
    } else if eq_lit(&v, "A") {
        SysopCmd::AddBoard
    } else {
        SysopCmd::Unknown
    }
}

/// What the SYSOP is told after a broadcast reached `n` users.
pub open spec fn broadcast_text(n: nat) -> Seq<char> {
    decimal(n) + " 人に送りました。"@
}

pub fn broadcast_report(n: usize) -> (r: String)
    ensures
        r@ == broadcast_text(n as nat),
{
    let mut s = String::new();
    push_decimal(&mut s, n as u64);
    s.append(" 人に送りました。");
    s
}

/// What the SYSOP is told after hanging a line up, or failing to.
pub fn kick_report(done: bool) -> (r: &'static str)
    ensures
        r@ == if done { "切断しました。"@ } else { "その回線は使われていません。"@ },
{
    if done { "切断しました。" } else { "その回線は使われていません。" }
}

} // verus!
