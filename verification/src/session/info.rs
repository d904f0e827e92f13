//! WHO, the access log, the profile and telegrams: what is shown and what
//! is typed.

use vstd::prelude::*;
use crate::text::{
    chars_of, decimal, decimal2, int_text, parse_i64, parse_signed, push_decimal, push_decimal2, push_int,
    right_aligned, same_text, trim, trim_str,
};
use crate::hub::{channel_text, SlotView};
use crate::line::LineKind;
use crate::db::repo::{Access, User};
use crate::session::util::{elapsed_text, fmt_elapsed, pad, padded, to_uppercase, unicode_upper};
use crate::session::chat::eq_lit;

verus! {

/// The heading of the WHO list.
pub open spec fn who_heading_text(n: nat) -> Seq<char> {
    "\n== 在室者 "@ + decimal(n) + "人 =="@
}

pub fn who_heading(n: usize) -> (r: String)
    ensures
        r@ == who_heading_text(n as nat),
{
    let mut s = String::from_str("\n== 在室者 ");
    push_decimal(&mut s, n as u64);
    s.append("人 ==");
    s
}

/// The column titles of the WHO list.
pub fn who_columns() -> (r: &'static str)
    ensures
        r@ == "CH  ID           ハンドル        接続          場所              時間"@,
{
    "CH  ID           ハンドル        接続          場所              時間"
}

/// How a line is connected, as WHO shows it: a modem's speed when it has
/// one, else the kind of line.
pub open spec fn via_text(kind: Option<LineKind>, speed: Seq<char>) -> Seq<char> {
    match kind {
        Some(LineKind::Modem) if speed.len() > 0 => speed,
        Some(LineKind::Tcp) => "TCP"@,
        Some(LineKind::Modem) => "MODEM"@,
        Some(LineKind::Ws) => "WS"@,
        None => Seq::empty(),
    }
}

/// How long a line has been connected at `now`.
pub open spec fn connected_for(v: SlotView, now: i64) -> int {
    match v.connected_at {
        Some(t) => now - t,
        None => 0,
    }
}

/// A line of the WHO list.
pub open spec fn who_line_text(v: SlotView, now: i64) -> Seq<char> {
    decimal2(v.no as nat) + "  "@ + padded(v.login@, 12) + " "@ + padded(v.handle@, 15) + " "@
        + padded(via_text(v.kind, v.speed@), 13) + " "@ + padded(v.place@, 17) + " "@
        + elapsed_text(connected_for(v, now))
}

pub fn who_line(v: &SlotView, now: i64) -> (r: String)
    requires
        i64::MIN <= connected_for(*v, now) <= i64::MAX,
    ensures
        r@ == who_line_text(*v, now),
{
    let via = match v.kind {
        Some(LineKind::Modem) if v.speed.unicode_len() > 0 => v.speed.clone(),
        Some(k) => String::from_str(k.label()),
        None => String::new(),
    };
    let elapsed: i64 = match v.connected_at {
        Some(t) => now - t,
        None => 0,
    };
    let mut s = String::new();
    push_decimal2(&mut s, v.no as u64);
    s.append("  ");
    s.append(pad(v.login.as_str(), 12).as_str());
    s.append(" ");
    s.append(pad(v.handle.as_str(), 15).as_str());
    s.append(" ");
    s.append(pad(via.as_str(), 13).as_str());
    s.append(" ");
    s.append(pad(v.place.as_str(), 17).as_str());
    s.append(" ");
    s.append(fmt_elapsed(elapsed).as_str());
    s
}

/// The heading and column titles of the access log.
pub fn log_heading() -> (r: (&'static str, &'static str))
    ensures
        r.0@ == "\n== 足跡 (最近の 20 件) =="@,
        r.1@ == "日時         CH  ハンドル            利用時間  終了"@,
{
    ("\n== 足跡 (最近の 20 件) ==", "日時         CH  ハンドル            利用時間  終了")
}

/// How many entries of the access log are shown.
pub const LOG_ENTRIES: i64 = 20;

/// A line of the access log, with the login time as `time`: the line, who,
/// how long (or that the session goes on) and how it ended.
pub open spec fn log_line_text(a: Access, time: Seq<char>) -> Seq<char> {
    let (dur, reason) = match a.logout_at {
        Some(out) => (elapsed_text(out - a.login_at), match a.reason { Some(r) => r@, None => Seq::empty() }),
        None => ("接続中"@, Seq::empty()),
    };
    time + "  "@ + crate::session::login::line_text(a.line_no as int) + "  "@
        + padded(a.handle@ + "("@ + a.login@ + ")"@, 19) + " "@ + right_aligned(dur, 8) + "  "@ + reason
}

pub fn log_line(a: &Access, time: &str) -> (r: String)
    requires
        a.logout_at matches Some(out) ==> i64::MIN <= out - a.login_at <= i64::MAX,
    ensures
        r@ == log_line_text(*a, time@),
{
    let (dur, reason) = match &a.logout_at {
        Some(out) => (fmt_elapsed(*out - a.login_at), match &a.reason { Some(r) => r.clone(), None => String::new() }),
        None => (String::from_str("接続中"), String::new()),
    };
    let mut s = String::from_str(time);
    s.append("  ");
    if 0 <= a.line_no && a.line_no < 10 {
        s.append("0");
        proof { reveal_strlit("0"); }
    }
    push_int(&mut s, a.line_no);
    s.append("  ");
    let mut who = a.handle.clone();
    who.append("(");
    who.append(a.login.as_str());
    who.append(")");
    s.append(pad(who.as_str(), 19).as_str());
    s.append(" ");
    crate::text::push_right(&mut s, dur.as_str(), 8);
    s.append("  ");
    s.append(reason.as_str());
    s
}

/// The profile page, with the registration time as `created`.
pub open spec fn profile_text(u: User, created: Seq<char>) -> Seq<char> {
    "\n== 登録情報 ==\n会員番号 : "@ + int_text(u.id as int) + "\nID       : "@ + u.login@ + "\nハンドル : "@
        + u.handle@ + "\n登録日   : "@ + created + "\nログイン : "@ + int_text(u.login_count + 1) + " 回\n画面行数 : "@
        + int_text(u.screen_rows as int) + "\n自己紹介 : "@ + u.profile@
        + "\n\n1.ハンドル変更 2.パスワード変更 3.画面行数 4.自己紹介 Q.戻る"@
}

pub fn profile_page(u: &User, created: &str) -> (r: String)
    requires
        u.login_count < i64::MAX,
    ensures
        r@ == profile_text(*u, created@),
{
    let mut s = String::from_str("\n== 登録情報 ==\n会員番号 : ");
    push_int(&mut s, u.id);
    s.append("\nID       : ");
    s.append(u.login.as_str());
    s.append("\nハンドル : ");
    s.append(u.handle.as_str());
    s.append("\n登録日   : ");
    s.append(created);
    s.append("\nログイン : ");
    push_int(&mut s, u.login_count + 1);
    s.append(" 回\n画面行数 : ");
    push_int(&mut s, u.screen_rows);
    s.append("\n自己紹介 : ");
    s.append(u.profile.as_str());
    s.append("\n\n1.ハンドル変更 2.パスワード変更 3.画面行数 4.自己紹介 Q.戻る");
    s
}

/// A choice on the profile page.
#[derive(Debug, Clone, Copy, PartialEq, Eq, Structural)]
pub enum ProfileCmd {
    Back,
    Handle,
    Password,
    Rows,
    Intro,
    /// Anything else: show the page again.
    Other,
}

pub open spec fn profile_cmd_of(u: Seq<char>) -> ProfileCmd {
    if u.len() == 0 || u == "Q"@ {
        ProfileCmd::Back
    } else if u == "1"@ {
        ProfileCmd::Handle
    } else if u == "2"@ {
        ProfileCmd::Password
    } else if u == "3"@ {
        ProfileCmd::Rows
    } else if u == "4"@ {
        ProfileCmd::Intro
    } else {
        ProfileCmd::Other
    }
}

/// Reads a choice on the profile page (in any case).
pub fn profile_command(answer: &str) -> (r: ProfileCmd)
    ensures
        r == profile_cmd_of(unicode_upper(answer@)),
{
    let up = to_uppercase(answer);
    let u = chars_of(up.as_str());
    if u.len() == 0 || eq_lit(&u, "Q") {
        ProfileCmd::Back
    } else if eq_lit(&u, "1") {
        ProfileCmd::Handle
    } else if eq_lit(&u, "2") {
        ProfileCmd::Password
    } else if eq_lit(&u, "3") {
        ProfileCmd::Rows
    } else if eq_lit(&u, "4") {
        ProfileCmd::Intro
    } else {
        ProfileCmd::Other
    }
}

/// A new handle as typed: without white space at the ends; nothing when
/// empty (the handle stays).
pub fn new_handle(typed: &str) -> (r: Option<String>)
    ensures
        trim(typed@).len() == 0 ==> r is None,
        trim(typed@).len() > 0 ==> (r matches Some(h) && h@ == trim(typed@)),
{
    let h = trim_str(typed);
    if h.unicode_len() == 0 { None } else { Some(h) }
}

/// A new password is taken when typed the same twice and four characters
/// or more long.
pub fn new_password_ok(p1: &str, p2: &str) -> (r: bool)
    ensures
        r == (p1@ == p2@ && p1@.len() >= 4),
{
    same_text(p1, p2) && p1.unicode_len() >= 4
}

/// The rows of a screen as typed: a number, brought into `8..=100`;
/// nothing when it is not a number.
pub fn screen_rows_typed(typed: &str) -> (r: Option<i64>)
    ensures
        match parse_signed(typed@) {
            Some(n) => r == Some(crate::config::clamp(n, 8, 100) as i64),
            None => r is None,
        },
{
    match parse_i64(typed) {
        Some(n) => Some(if n < 8 { 8 } else if n > 100 { 100 } else { n }),
        None => None,
    }
}

/// Who a telegram is from: the handle and the line.
pub open spec fn sender_text(handle: Seq<char>, no: u16) -> Seq<char> {
    handle + "("@ + channel_text(no) + ")"@
}

pub fn telegram_sender(handle: &str, no: u16) -> (r: String)
    ensures
        r@ == sender_text(handle@, no),
{
    let mut s = String::from_str(handle);
    s.append("(");
    crate::text::push_char(&mut s, 'C');
    crate::text::push_char(&mut s, 'H');
    push_decimal2(&mut s, no as u64);
    s.append(")");
    assert(s@ == handle@ + "("@ + channel_text(no) + ")"@);
    s
}

/// What the sender is told once a telegram is delivered.
pub open spec fn sent_text(receipt: Seq<char>) -> Seq<char> {
    receipt + " に送りました。"@
}

pub fn telegram_sent(receipt: &str) -> (r: String)
    ensures
        r@ == sent_text(receipt@),
{
    let mut s = String::from_str(receipt);
    s.append(" に送りました。");
    s
}

} // verus!
