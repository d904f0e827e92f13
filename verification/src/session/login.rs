//! Logging in and registering: the checks on what is typed, the decisions
//! that follow, and the greeting after login.

use vstd::prelude::*;
use crate::text::{
    chars_of, eq_ignore_ascii_case, is_ascii_alnum, is_ascii_alpha, push_int, int_text, same_ignoring_case,
    trim, trim_str,
};
use crate::session::util::{to_uppercase, unicode_upper, uw_str_width, width};

verus! {

/// A login ID that may be registered: 3 to 12 ASCII letters, digits or
/// underscores, starting with a letter, and not one of the reserved words
/// (in any case).
pub open spec fn login_ok(s: Seq<char>) -> bool {
    &&& 3 <= s.len() <= 12
    &&& forall|i: int| 0 <= i < s.len() ==> is_ascii_alnum(#[trigger] s[i]) || s[i] == '_'
    &&& is_ascii_alpha(s[0])
    &&& !eq_ignore_ascii_case(s, "NEW"@)
    &&& !eq_ignore_ascii_case(s, "GUEST"@)
    &&& !eq_ignore_ascii_case(s, "SYSOP"@)
    &&& !eq_ignore_ascii_case(s, "ALL"@)
}

/// Whether `s` may be registered as a login ID.
pub fn valid_login(s: &str) -> (r: bool)
    ensures
        r == login_ok(s@),
{
    let v = chars_of(s);
    if v.len() < 3 || v.len() > 12 {
        return false;
    }
    let mut i: usize = 0;
    while i < v.len()
        invariant
            i <= v@.len(),
            v@ == s@,
            forall|k: int| 0 <= k < i ==> is_ascii_alnum(#[trigger] v@[k]) || v@[k] == '_',
        decreases v.len() - i,
    {
        let c = v[i];
        if !(('0' <= c && c <= '9') || ('A' <= c && c <= 'Z') || ('a' <= c && c <= 'z') || c == '_') {
            return false;
        }
        i = i + 1;
    }
    let c0 = v[0];
    if !(('A' <= c0 && c0 <= 'Z') || ('a' <= c0 && c0 <= 'z')) {
        return false;
    }
    proof {
        reveal_strlit("NEW");
        reveal_strlit("GUEST");
        reveal_strlit("SYSOP");
        reveal_strlit("ALL");
    }
    !(same_ignoring_case(s, "NEW") || same_ignoring_case(s, "GUEST") || same_ignoring_case(s, "SYSOP")
        || same_ignoring_case(s, "ALL"))
}

/// What the ID typed at the login prompt asks for.
#[derive(Debug, Clone, Copy, PartialEq, Eq, Structural)]
pub enum LoginChoice {
    /// Nothing typed: ask again.
    Ask,
    /// `NEW`: register.
    Register,
    /// `GUEST`, when guests are allowed: log in as the guest.
    Guest,
    /// Anything else: an ID, so ask for its password.
    Password,
}

/// Reads the ID typed at the login prompt.
pub fn login_choice(id: &str, allow_guest: bool) -> (r: LoginChoice)
    ensures
        r == (if id@.len() == 0 {
            LoginChoice::Ask
        } else if unicode_upper(id@) == "NEW"@ {
            LoginChoice::Register
        } else if unicode_upper(id@) == "GUEST"@ && allow_guest {
            LoginChoice::Guest
        } else {
            LoginChoice::Password
        }),
{
    let v = chars_of(id);
    if v.len() == 0 {
        return LoginChoice::Ask;
    }
    let up = to_uppercase(id);
    let u = chars_of(up.as_str());
    let new = chars_of("NEW");
    let guest = chars_of("GUEST");
    if crate::text::chars_eq(&u, &new) {
        LoginChoice::Register
    } else if crate::text::chars_eq(&u, &guest) && allow_guest {
        LoginChoice::Guest
    } else {
        LoginChoice::Password
    }
}

/// How a password attempt ends.
#[derive(Debug, Clone, Copy, PartialEq, Eq, Structural)]
pub enum LoginOutcome {
    /// The user is in.
    Welcome,
    /// The password is right but the ID is suspended: the session ends.
    Banned,
    /// Wrong ID or password: ask again.
    Retry,
    /// Wrong too many times: the session ends.
    GiveUp,
}

/// Whether the password of a user of `level` is checked at all: the guest
/// (level 0 or below) cannot log in with a password.
pub fn password_checked(level: i64) -> (r: bool)
    ensures
        r == (level > 0),
{
    level > 0
}

/// Decides a password attempt. `found` is the level and the suspension of
/// the user with the ID typed, if there is one; `accepted` whether the
/// password matched (it is only looked at for a user whose password is
/// checked); `failures` the attempts that failed before this one, and
/// `allowed` how many failures end the session. Gives the outcome and the
/// failures counted after this attempt.
/// How a password attempt ends (see `login_outcome`).
pub open spec fn outcome_of(found: Option<(i64, bool)>, accepted: bool, failures: u32, allowed: u32) -> (LoginOutcome, u32) {
    if found matches Some(u) && u.0 > 0 && accepted {
        (if found.unwrap().1 { LoginOutcome::Banned } else { LoginOutcome::Welcome }, failures)
    } else {
        (if failures + 1 >= allowed { LoginOutcome::GiveUp } else { LoginOutcome::Retry }, (failures + 1) as u32)
    }
}

pub fn login_outcome(found: Option<(i64, bool)>, accepted: bool, failures: u32, allowed: u32) -> (r: (LoginOutcome, u32))
    requires
        failures < allowed,
    ensures
        r == outcome_of(found, accepted, failures, allowed),
{
    let ok = match found {
        Some(u) => u.0 > 0 && accepted,
        None => false,
    };
    if ok {
        let banned = match found {
            Some(u) => u.1,
            None => false,
        };
        if banned { (LoginOutcome::Banned, failures) } else { (LoginOutcome::Welcome, failures) }
    } else {
        let f = failures + 1;
        if f >= allowed { (LoginOutcome::GiveUp, f) } else { (LoginOutcome::Retry, f) }
    }
}

/// What the ID typed when registering asks for.
#[derive(Debug, Clone, Copy, PartialEq, Eq, Structural)]
pub enum IdCheck {
    /// `Q`: give up registering.
    Quit,
    /// Not an ID that may be registered.
    Invalid,
    /// A valid ID: still to be checked against those taken.
    Valid,
}

pub fn check_new_login(id: &str) -> (r: IdCheck)
    ensures
        r == (if eq_ignore_ascii_case(id@, "q"@) {
            IdCheck::Quit
        } else if !login_ok(id@) {
            IdCheck::Invalid
        } else {
            IdCheck::Valid
        }),
{
    proof { reveal_strlit("q"); }
    if same_ignoring_case(id, "q") {
        IdCheck::Quit
    } else if !valid_login(id) {
        IdCheck::Invalid
    } else {
        IdCheck::Valid
    }
}

/// What a handle typed when registering gives.
#[derive(Debug)]
pub enum HandleCheck {
    Quit,
    /// Empty, or wider than 20 columns (10 full-width characters).
    Invalid,
    /// The handle, without white space at the ends.
    Valid(String),
}

pub fn check_handle(typed: &str) -> (r: HandleCheck)
    ensures
        ({
            let h = trim(typed@);
            if eq_ignore_ascii_case(h, "q"@) {
                r is Quit
            } else if h.len() == 0 || uw_str_width(h) > 20 {
                r is Invalid
            } else {
                r matches HandleCheck::Valid(v) && v@ == h
            }
        }),
{
    let h = trim_str(typed);
    proof { reveal_strlit("q"); }
    if same_ignoring_case(h.as_str(), "q") {
        HandleCheck::Quit
    } else if h.as_str().unicode_len() == 0 || width(h.as_str()) > 20 {
        HandleCheck::Invalid
    } else {
        HandleCheck::Valid(h)
    }
}

/// A password long enough: four characters or more.
pub fn password_long_enough(p: &str) -> (r: bool)
    ensures
        r == (p@.len() >= 4),
{
    p.unicode_len() >= 4
}

/// The question asked before registering.
pub open spec fn confirm_text(login: Seq<char>, handle: Seq<char>) -> Seq<char> {
    "ID "@ + login + " / ハンドル "@ + handle + " で登録します。よろしいですか"@
}

pub fn registration_question(login: &str, handle: &str) -> (r: String)
    ensures
        r@ == confirm_text(login@, handle@),
{
    let mut s = String::from_str("ID ");
    s.append(login);
    s.append(" / ハンドル ");
    s.append(handle);
    s.append(" で登録します。よろしいですか");
    s
}

/// What a new member is told.
pub open spec fn welcome_text(handle: Seq<char>) -> Seq<char> {
    "登録しました。ようこそ "@ + handle + " さん!"@
}

pub fn welcome(handle: &str) -> (r: String)
    ensures
        r@ == welcome_text(handle@),
{
    let mut s = String::from_str("登録しました。ようこそ ");
    s.append(handle);
    s.append(" さん!");
    s
}

/// A line number as `{:02}` prints it.
pub open spec fn line_text(n: int) -> Seq<char> {
    if 0 <= n < 10 { seq!['0'] + int_text(n) } else { int_text(n) }
}

/// The greeting after login: how many are on line, and for a member the
/// previous login (its time as text, and its line), the unread mail, and
/// the boards with unread posts as "title(count)".
pub open spec fn greeting_text(
    handle: Seq<char>,
    online: nat,
    guest: bool,
    previous: Option<(Seq<char>, int)>,
    unread_mail: int,
    news: Seq<Seq<char>>,
) -> Seq<char> {
    let head = "\nこんにちは "@ + handle + " さん。現在 "@ + crate::text::decimal(online) + " 人が接続中です。\n"@;
    if guest {
        head
    } else {
        head + (match previous {
            Some(p) => "前回のログイン: "@ + p.0 + " ("@ + "CH"@ + line_text(p.1) + ")\n"@,
            None => Seq::empty(),
        }) + (if unread_mail > 0 {
            "未読メールが "@ + int_text(unread_mail) + " 通あります。\n"@
        } else {
            Seq::empty()
        }) + (if news.len() > 0 { "新着記事: "@ + joined(news, " "@) + "\n"@ } else { Seq::empty() })
    }
}

/// `parts` joined with `sep` between them.
pub open spec fn joined(parts: Seq<Seq<char>>, sep: Seq<char>) -> Seq<char>
    decreases parts.len(),
{
    if parts.len() == 0 {
        Seq::empty()
    } else if parts.len() == 1 {
        parts[0]
    } else {
        joined(parts.drop_last(), sep) + sep + parts.last()
    }
}

/// `parts` joined with `sep` between them (`[String]::join`).
pub fn join(parts: &Vec<String>, sep: &str) -> (r: String)
    ensures
        r@ == joined(parts@.map_values(|p: String| p@), sep@),
{
    let ghost all = parts@.map_values(|p: String| p@);
    let mut out = String::new();
    let mut i: usize = 0;
    while i < parts.len()
        invariant
            i <= parts@.len(),
            all == parts@.map_values(|p: String| p@),
            out@ == joined(all.take(i as int), sep@),
        decreases parts.len() - i,
    {
        let ghost t = all.take(i + 1);
        assert(t.drop_last() == all.take(i as int));
        assert(t.last() == parts@[i as int]@);
        if i > 0 {
            out.append(sep);
        } else {
            assert(t.len() == 1);
        }
        out.append(parts[i].as_str());
        i = i + 1;
    }
    assert(all.take(parts@.len() as int) == all);
    out
}

pub fn greeting(
    handle: &str,
    online: usize,
    guest: bool,
    previous: Option<(String, i64)>,
    unread_mail: i64,
    news: &Vec<String>,
) -> (r: String)
    ensures
        r@ == greeting_text(
            handle@,
            online as nat,
            guest,
            match previous { Some(p) => Some((p.0@, p.1 as int)), None => None },
            unread_mail as int,
            news@.map_values(|n: String| n@),
        ),
{
    let mut s = String::from_str("\nこんにちは ");
    s.append(handle);
    s.append(" さん。現在 ");
    crate::text::push_decimal(&mut s, online as u64);
    s.append(" 人が接続中です。\n");
    if guest {
        return s;
    }
    match &previous {
        Some(p) => {
            s.append("前回のログイン: ");
            s.append(p.0.as_str());
            s.append(" (");
            s.append("CH");
            if 0 <= p.1 && p.1 < 10 {
                s.append("0");
                proof { reveal_strlit("0"); }
            }
            push_int(&mut s, p.1);
            s.append(")\n");
        },
        None => {},
    }
    if unread_mail > 0 {
        s.append("未読メールが ");
        push_int(&mut s, unread_mail);
        s.append(" 通あります。\n");
    }
    if news.len() > 0 {
        s.append("新着記事: ");
        let j = join(news, " ");
        s.append(j.as_str());
        s.append("\n");
    }
    s
}

/// A board's entry in the greeting's list of news: "title(unread)".
pub open spec fn news_text(title: Seq<char>, unread: int) -> Seq<char> {
    title + "("@ + int_text(unread) + ")"@
}

pub fn news_entry(title: &str, unread: i64) -> (r: String)
    ensures
        r@ == news_text(title@, unread as int),
{
    let mut s = String::from_str(title);
    s.append("(");
    push_int(&mut s, unread);
    s.append(")");
    s
}

} // verus!
