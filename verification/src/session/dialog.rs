//! The login and registration dialogs as state machines: each answer or
//! lookup result moves the dialog on and tells the caller what to show and
//! what to do next. The caller does the I/O.

use vstd::prelude::*;
use crate::text::same_text;
use crate::session::login::{
    check_handle, check_new_login, confirm_text, login_choice, login_ok, login_outcome, password_checked,
    password_long_enough, registration_question, HandleCheck, IdCheck, LoginChoice, LoginOutcome,
};
use crate::session::util::{unicode_upper, uw_str_width};
use crate::text::{eq_ignore_ascii_case, trim};

verus! {

/// How an answer is read.
#[derive(Debug, Clone, Copy, PartialEq, Eq, Structural)]
pub enum InputKind {
    /// A command: trimmed, full-width letters and digits as ASCII.
    Command,
    /// Text of at most this many characters (full-width kept).
    Text(usize),
    /// A password (echoed as `*`).
    Password,
    /// A yes-or-no question.
    YesNo,
}

/// What the caller does next in the login dialog.
#[derive(Debug)]
pub enum LoginNext {
    /// Show the prompt and read the answer (`LoginEvent::Typed`).
    Ask(String, InputKind),
    /// Run the registration dialog (`LoginEvent::Registered`).
    Register,
    /// Look the guest account up (`LoginEvent::GuestFound`).
    FindGuest,
    /// Look the user with this ID up (`LoginEvent::Found`).
    FindUser(String),
    /// Check the password typed against the user found
    /// (`LoginEvent::Verified`).
    Verify(String),
    /// Wait a second after a failure (`LoginEvent::Paused`).
    Pause,
    /// The user found is in.
    Welcome,
    /// The guest account is in.
    GuestIn,
    /// The user just registered is in.
    RegisteredIn,
    /// The session ends.
    Logoff,
}

/// What the caller reports back.
#[derive(Debug)]
pub enum LoginEvent {
    Typed(String),
    Registered(bool),
    GuestFound(bool),
    /// The level and suspension of the user found, if any.
    Found(Option<(i64, bool)>),
    Verified(bool),
    Paused,
}

/// Where the login dialog is.
#[derive(Debug, Clone, Copy, PartialEq, Eq, Structural)]
pub enum LoginStage {
    AskId,
    Registering,
    GuestLookup,
    AskPassword,
    Finding,
    Verifying,
    /// After a failure; `true` when it was the last one allowed.
    Failed(bool),
    Over,
}

pub struct LoginDialog {
    pub allow_guest: bool,
    /// Failures that end the session.
    pub allowed: u32,
    pub failures: u32,
    pub stage: LoginStage,
    pub id: String,
    pub password: String,
    pub found: Option<(i64, bool)>,
}

/// The prompt for the ID.
pub open spec fn id_prompt() -> Seq<char> {
    "ID を入力してください (新規登録=NEW ゲスト=GUEST): "@
}

/// A dialog that can go on has had fewer failures than allowed; after the
/// last one allowed it can only end.
pub open spec fn login_wf(d: LoginDialog) -> bool {
    d.failures < d.allowed || d.stage == LoginStage::Failed(true) || d.stage == LoginStage::Over
}

fn ask_id() -> (r: LoginNext)
    ensures
        r matches LoginNext::Ask(p, k) && p@ == id_prompt() && k == InputKind::Command,
{
    LoginNext::Ask(String::from_str("ID を入力してください (新規登録=NEW ゲスト=GUEST): "), InputKind::Command)
}

impl LoginDialog {
    /// A login dialog; `allowed` failures end the session (at least one).
    pub fn new(allow_guest: bool, allowed: u32) -> (r: (LoginDialog, LoginNext))
        requires
            allowed >= 1,
        ensures
            login_wf(r.0),
            r.0.stage == LoginStage::AskId,
            r.0.failures == 0,
            r.0.allowed == allowed,
            r.0.allow_guest == allow_guest,
            r.1 matches LoginNext::Ask(p, k) && p@ == id_prompt() && k == InputKind::Command,
    {
        let d = LoginDialog {
            allow_guest,
            allowed,
            failures: 0,
            stage: LoginStage::AskId,
            id: String::new(),
            password: String::new(),
            found: None,
        };
        (d, ask_id())
    }

    /// Decides a password attempt once it is known whether it was
    /// accepted.
    fn decide(&mut self, accepted: bool) -> (r: (Vec<String>, LoginNext))
        requires
            old(self).failures < old(self).allowed,
        ensures
            ({
                let (outcome, f) = crate::session::login::outcome_of(old(self).found, accepted, old(self).failures, old(self).allowed);
                &&& final(self).failures == f
                &&& final(self).allowed == old(self).allowed
                &&& final(self).allow_guest == old(self).allow_guest
                &&& final(self).id == old(self).id
                &&& final(self).found == old(self).found
                &&& match outcome {
                    LoginOutcome::Welcome => final(self).stage == LoginStage::Over && r.0@.len() == 0 && r.1 is Welcome,
                    LoginOutcome::Banned => {
                        &&& final(self).stage == LoginStage::Over
                        &&& r.0@.len() == 1
                        &&& r.0@[0]@ == "この ID は利用停止中です。SYSOP にお問い合わせください。"@
                        &&& r.1 is Logoff
                    },
                    LoginOutcome::Retry => final(self).stage == LoginStage::Failed(false) && r.0@.len() == 0 && r.1 is Pause,
                    LoginOutcome::GiveUp => final(self).stage == LoginStage::Failed(true) && r.0@.len() == 0 && r.1 is Pause,
                }
            }),
    {
        let (outcome, f) = login_outcome(self.found, accepted, self.failures, self.allowed);
        self.failures = f;
        let mut msgs: Vec<String> = Vec::new();
        match outcome {
            LoginOutcome::Welcome => {
                self.stage = LoginStage::Over;
                (msgs, LoginNext::Welcome)
            },
            LoginOutcome::Banned => {
                self.stage = LoginStage::Over;
                msgs.push(String::from_str("この ID は利用停止中です。SYSOP にお問い合わせください。"));
                (msgs, LoginNext::Logoff)
            },
            LoginOutcome::Retry => {
                self.stage = LoginStage::Failed(false);
                (msgs, LoginNext::Pause)
            },
            LoginOutcome::GiveUp => {
                self.stage = LoginStage::Failed(true);
                (msgs, LoginNext::Pause)
            },
        }
    }

    /// Moves the dialog on by what the caller reports; gives the lines to
    /// show and what to do next. A report that does not fit the stage
    /// changes nothing and ends the dialog.
    pub fn step(&mut self, e: LoginEvent) -> (r: (Vec<String>, LoginNext))
        requires
            login_wf(*old(self)),
        ensures
            login_wf(*final(self)),
            final(self).allowed == old(self).allowed,
            final(self).allow_guest == old(self).allow_guest,
            match (old(self).stage, e) {
                (LoginStage::AskId, LoginEvent::Typed(id)) => {
                    &&& final(self).id@ == id@
                    &&& final(self).failures == old(self).failures
                    &&& r.0@.len() == 0
                    &&& if id@.len() == 0 {
                        final(self).stage == LoginStage::AskId && (r.1 matches LoginNext::Ask(p, _) && p@ == id_prompt())
                    } else if unicode_upper(id@) == "NEW"@ {
                        final(self).stage == LoginStage::Registering && r.1 is Register
                    } else if unicode_upper(id@) == "GUEST"@ && old(self).allow_guest {
                        final(self).stage == LoginStage::GuestLookup && r.1 is FindGuest
                    } else {
                        final(self).stage == LoginStage::AskPassword
                            && (r.1 matches LoginNext::Ask(p, k) && p@ == "パスワード: "@ && k == InputKind::Password)
                    }
                },
                (LoginStage::Registering, LoginEvent::Registered(done)) => {
                    &&& final(self).failures == old(self).failures
                    &&& r.0@.len() == 0
                    &&& if done {
                        final(self).stage == LoginStage::Over && r.1 is RegisteredIn
                    } else {
                        final(self).stage == LoginStage::AskId && (r.1 matches LoginNext::Ask(p, _) && p@ == id_prompt())
                    }
                },
                (LoginStage::GuestLookup, LoginEvent::GuestFound(there)) => {
                    &&& final(self).failures == old(self).failures
                    &&& final(self).id == old(self).id
                    &&& if there {
                        &&& final(self).stage == LoginStage::Over
                        &&& r.0@.len() == 1
                        &&& r.0@[0]@ == "ゲストとしてログインします (掲示板の閲覧とチャットができます)"@
                        &&& r.1 is GuestIn
                    } else {
                        &&& r.0@.len() == 0
                        &&& final(self).stage == LoginStage::AskPassword
                        &&& r.1 matches LoginNext::Ask(p, k) && p@ == "パスワード: "@ && k == InputKind::Password
                    }
                },
                (LoginStage::AskPassword, LoginEvent::Typed(pw)) => {
                    &&& final(self).password@ == pw@
                    &&& final(self).id == old(self).id
                    &&& final(self).failures == old(self).failures
                    &&& final(self).stage == LoginStage::Finding
                    &&& r.0@.len() == 0
                    &&& r.1 matches LoginNext::FindUser(i) && i@ == old(self).id@
                },
                (LoginStage::Finding, LoginEvent::Found(f)) => {
                    &&& final(self).found == f
                    &&& if f matches Some(u) && u.0 > 0 {
                        &&& final(self).stage == LoginStage::Verifying
                        &&& final(self).failures == old(self).failures
                        &&& r.0@.len() == 0
                        &&& r.1 matches LoginNext::Verify(p) && p@ == old(self).password@
                    } else {
                        &&& final(self).failures == old(self).failures + 1
                        &&& r.1 is Pause
                        &&& final(self).stage == LoginStage::Failed(old(self).failures + 1 >= old(self).allowed)
                    }
                },
                (LoginStage::Verifying, LoginEvent::Verified(ok)) => {
                    let (outcome, f) = crate::session::login::outcome_of(old(self).found, ok, old(self).failures, old(self).allowed);
                    &&& final(self).failures == f
                    &&& match outcome {
                        LoginOutcome::Welcome => final(self).stage == LoginStage::Over && r.1 is Welcome,
                        LoginOutcome::Banned => final(self).stage == LoginStage::Over && r.1 is Logoff
                            && r.0@.len() == 1 && r.0@[0]@ == "この ID は利用停止中です。SYSOP にお問い合わせください。"@,
                        LoginOutcome::Retry => final(self).stage == LoginStage::Failed(false) && r.1 is Pause,
                        LoginOutcome::GiveUp => final(self).stage == LoginStage::Failed(true) && r.1 is Pause,
                    }
                },
                (LoginStage::Failed(last), LoginEvent::Paused) => {
                    &&& final(self).failures == old(self).failures
                    &&& r.0@.len() >= 1
                    &&& r.0@[0]@ == "ID かパスワードが違います。"@
                    &&& if last {
                        &&& r.0@.len() == 2
                        &&& r.0@[1]@ == "規定回数を超えたので切断します。"@
                        &&& final(self).stage == LoginStage::Over
                        &&& r.1 is Logoff
                    } else {
                        &&& r.0@.len() == 1
                        &&& final(self).stage == LoginStage::AskId
                        &&& r.1 matches LoginNext::Ask(p, _) && p@ == id_prompt()
                    }
                },
                _ => final(self).stage == LoginStage::Over && r.1 is Logoff && final(self).failures == old(self).failures,
            },
    {
        let mut msgs: Vec<String> = Vec::new();
        match (self.stage, e) {
            (LoginStage::AskId, LoginEvent::Typed(id)) => {
                let choice = login_choice(id.as_str(), self.allow_guest);
                self.id = id;
                match choice {
                    LoginChoice::Ask => (msgs, ask_id()),
                    LoginChoice::Register => {
                        self.stage = LoginStage::Registering;
                        (msgs, LoginNext::Register)
                    },
                    LoginChoice::Guest => {
                        self.stage = LoginStage::GuestLookup;
                        (msgs, LoginNext::FindGuest)
                    },
                    LoginChoice::Password => {
                        self.stage = LoginStage::AskPassword;
                        (msgs, LoginNext::Ask(String::from_str("パスワード: "), InputKind::Password))
                    },
                }
            },
            (LoginStage::Registering, LoginEvent::Registered(done)) => {
                if done {
                    self.stage = LoginStage::Over;
                    (msgs, LoginNext::RegisteredIn)
                } else {
                    self.stage = LoginStage::AskId;
                    (msgs, ask_id())
                }
            },
            (LoginStage::GuestLookup, LoginEvent::GuestFound(there)) => {
                if there {
                    self.stage = LoginStage::Over;
                    msgs.push(String::from_str("ゲストとしてログインします (掲示板の閲覧とチャットができます)"));
                    (msgs, LoginNext::GuestIn)
                } else {
                    self.stage = LoginStage::AskPassword;
                    (msgs, LoginNext::Ask(String::from_str("パスワード: "), InputKind::Password))
                }
            },
            (LoginStage::AskPassword, LoginEvent::Typed(pw)) => {
                let id = self.id.clone();
                self.password = pw;
                self.stage = LoginStage::Finding;
                (msgs, LoginNext::FindUser(id))
            },
            (LoginStage::Finding, LoginEvent::Found(f)) => {
                self.found = f;
                let checked = match f {
                    Some(u) => password_checked(u.0),
                    None => false,
                };
                if checked {
                    self.stage = LoginStage::Verifying;
                    (msgs, LoginNext::Verify(self.password.clone()))
                } else {
                    self.decide(false)
                }
            },
            (LoginStage::Verifying, LoginEvent::Verified(ok)) => self.decide(ok),
            (LoginStage::Failed(last), LoginEvent::Paused) => {
                msgs.push(String::from_str("ID かパスワードが違います。"));
                if last {
                    msgs.push(String::from_str("規定回数を超えたので切断します。"));
                    self.stage = LoginStage::Over;
                    (msgs, LoginNext::Logoff)
                } else {
                    self.stage = LoginStage::AskId;
                    (msgs, ask_id())
                }
            },
            _ => {
                self.stage = LoginStage::Over;
                (msgs, LoginNext::Logoff)
            },
        }
    }
}

/// What the caller does next in the registration dialog.
#[derive(Debug)]
pub enum RegNext {
    /// Show the prompt and read the answer (`RegEvent::Typed`, or
    /// `RegEvent::Answered` for a yes-or-no question).
    Ask(String, InputKind),
    /// Look up whether the ID is taken (`RegEvent::Taken`).
    CheckTaken(String),
    /// Register the member with these, then the dialog is over.
    Create,
    /// Registering was given up.
    Cancel,
}

#[derive(Debug)]
pub enum RegEvent {
    Typed(String),
    Taken(bool),
    Answered(bool),
}

/// Where the registration dialog is.
#[derive(Debug, Clone, Copy, PartialEq, Eq, Structural)]
pub enum RegStage {
    AskLogin,
    CheckLogin,
    AskHandle,
    AskPassword,
    AskAgain,
    Confirm,
    Over,
}

pub struct Registration {
    pub stage: RegStage,
    pub login: String,
    pub handle: String,
    pub password: String,
}

pub open spec fn login_prompt() -> Seq<char> {
    "希望する ID (英字で始まる英数字 3〜12 文字): "@
}

pub open spec fn handle_prompt() -> Seq<char> {
    "ハンドル名 (全角 10 文字まで): "@
}

pub open spec fn password_prompt() -> Seq<char> {
    "パスワード (4 文字以上): "@
}

fn ask_login() -> (r: RegNext)
    ensures
        r matches RegNext::Ask(p, k) && p@ == login_prompt() && k == InputKind::Command,
{
    RegNext::Ask(String::from_str("希望する ID (英字で始まる英数字 3〜12 文字): "), InputKind::Command)
}

fn ask_handle() -> (r: RegNext)
    ensures
        r matches RegNext::Ask(p, k) && p@ == handle_prompt() && k == InputKind::Text(20),
{
    RegNext::Ask(String::from_str("ハンドル名 (全角 10 文字まで): "), InputKind::Text(20))
}

fn ask_password() -> (r: RegNext)
    ensures
        r matches RegNext::Ask(p, k) && p@ == password_prompt() && k == InputKind::Password,
{
    RegNext::Ask(String::from_str("パスワード (4 文字以上): "), InputKind::Password)
}

fn one(m: &str) -> (r: Vec<String>)
    ensures
        r@.len() == 1,
        r@[0]@ == m@,
{
    let mut v: Vec<String> = Vec::new();
    v.push(String::from_str(m));
    v
}

impl Registration {
    /// A registration dialog: the heading, then the question for the ID.
    pub fn new() -> (r: (Registration, Vec<String>, RegNext))
        ensures
            r.0.stage == RegStage::AskLogin,
            registration_wf(r.0),
            r.1@.len() == 1,
            r.1@[0]@ == "\n== 新規登録 ==  (途中でやめるときは Q)"@,
            r.2 matches RegNext::Ask(p, k) && p@ == login_prompt() && k == InputKind::Command,
    {
        let d = Registration {
            stage: RegStage::AskLogin,
            login: String::new(),
            handle: String::new(),
            password: String::new(),
        };
        (d, one("\n== 新規登録 ==  (途中でやめるときは Q)"), ask_login())
    }

    /// Moves the dialog on; gives the lines to show and what to do next.
    /// When it says `Create`, the member to register has `login`,
    /// `handle` and `password`: an ID that may be registered and was free,
    /// a handle of 1 to 20 columns, and a password of four characters or
    /// more, typed the same twice. A report that does not fit the stage
    /// gives up.
    pub fn step(&mut self, e: RegEvent) -> (r: (Vec<String>, RegNext))
        requires
            registration_wf(*old(self)),
        ensures
            registration_wf(*final(self)),
            r.1 is Create ==> registration_ready(*final(self)),
            match (old(self).stage, e) {
                (RegStage::AskLogin, RegEvent::Typed(id)) => {
                    if eq_ignore_ascii_case(id@, "q"@) {
                        final(self).stage == RegStage::Over && r.0@.len() == 0 && r.1 is Cancel
                    } else if !login_ok(id@) {
                        &&& final(self).stage == RegStage::AskLogin
                        &&& r.0@.len() == 1 && r.0@[0]@ == "その ID は使えません。"@
                        &&& r.1 matches RegNext::Ask(p, _) && p@ == login_prompt()
                    } else {
                        &&& final(self).stage == RegStage::CheckLogin
                        &&& final(self).login@ == id@
                        &&& r.0@.len() == 0
                        &&& r.1 matches RegNext::CheckTaken(l) && l@ == id@
                    }
                },
                (RegStage::CheckLogin, RegEvent::Taken(taken)) => {
                    &&& final(self).login == old(self).login
                    &&& if taken {
                        &&& final(self).stage == RegStage::AskLogin
                        &&& r.0@.len() == 1 && r.0@[0]@ == "その ID はすでに使われています。"@
                        &&& r.1 matches RegNext::Ask(p, _) && p@ == login_prompt()
                    } else {
                        &&& final(self).stage == RegStage::AskHandle
                        &&& r.0@.len() == 0
                        &&& r.1 matches RegNext::Ask(p, k) && p@ == handle_prompt() && k == InputKind::Text(20)
                    }
                },
                (RegStage::AskHandle, RegEvent::Typed(h)) => {
                    let t = trim(h@);
                    &&& final(self).login == old(self).login
                    &&& if eq_ignore_ascii_case(t, "q"@) {
                        final(self).stage == RegStage::Over && r.0@.len() == 0 && r.1 is Cancel
                    } else if t.len() == 0 || uw_str_width(t) > 20 {
                        &&& final(self).stage == RegStage::AskHandle
                        &&& r.0@.len() == 1 && r.0@[0]@ == "1〜20 桁 (全角 10 文字) で入力してください。"@
                        &&& r.1 matches RegNext::Ask(p, _) && p@ == handle_prompt()
                    } else {
                        &&& final(self).stage == RegStage::AskPassword
                        &&& final(self).handle@ == t
                        &&& r.0@.len() == 0
                        &&& r.1 matches RegNext::Ask(p, k) && p@ == password_prompt() && k == InputKind::Password
                    }
                },
                (RegStage::AskPassword, RegEvent::Typed(p1)) => {
                    &&& final(self).login == old(self).login
                    &&& final(self).handle == old(self).handle
                    &&& if p1@.len() < 4 {
                        &&& final(self).stage == RegStage::AskPassword
                        &&& r.0@.len() == 1 && r.0@[0]@ == "4 文字以上にしてください。"@
                        &&& r.1 matches RegNext::Ask(p, _) && p@ == password_prompt()
                    } else {
                        &&& final(self).stage == RegStage::AskAgain
                        &&& final(self).password@ == p1@
                        &&& r.0@.len() == 0
                        &&& r.1 matches RegNext::Ask(p, k) && p@ == "もう一度: "@ && k == InputKind::Password
                    }
                },
                (RegStage::AskAgain, RegEvent::Typed(p2)) => {
                    &&& final(self).login == old(self).login
                    &&& final(self).handle == old(self).handle
                    &&& final(self).password == old(self).password
                    &&& if p2@ != old(self).password@ {
                        &&& final(self).stage == RegStage::AskPassword
                        &&& r.0@.len() == 1 && r.0@[0]@ == "一致しません。"@
                        &&& r.1 matches RegNext::Ask(p, _) && p@ == password_prompt()
                    } else {
                        &&& final(self).stage == RegStage::Confirm
                        &&& r.0@.len() == 0
                        &&& r.1 matches RegNext::Ask(q, k) && q@ == confirm_text(old(self).login@, old(self).handle@)
                            && k == InputKind::YesNo
                    }
                },
                (RegStage::Confirm, RegEvent::Answered(yes)) => {
                    &&& final(self).login == old(self).login
                    &&& final(self).handle == old(self).handle
                    &&& final(self).password == old(self).password
                    &&& final(self).stage == RegStage::Over
                    &&& r.0@.len() == 0
                    &&& if yes { r.1 is Create } else { r.1 is Cancel }
                },
                _ => final(self).stage == RegStage::Over && r.1 is Cancel,
            },
    {
        let none: Vec<String> = Vec::new();
        match (self.stage, e) {
            (RegStage::AskLogin, RegEvent::Typed(id)) => match check_new_login(id.as_str()) {
                IdCheck::Quit => {
                    self.stage = RegStage::Over;
                    (none, RegNext::Cancel)
                },
                IdCheck::Invalid => (one("その ID は使えません。"), ask_login()),
                IdCheck::Valid => {
                    let l = id.clone();
                    self.login = id;
                    self.stage = RegStage::CheckLogin;
                    (none, RegNext::CheckTaken(l))
                },
            },
            (RegStage::CheckLogin, RegEvent::Taken(taken)) => {
                if taken {
                    self.stage = RegStage::AskLogin;
                    (one("その ID はすでに使われています。"), ask_login())
                } else {
                    self.stage = RegStage::AskHandle;
                    (none, ask_handle())
                }
            },
            (RegStage::AskHandle, RegEvent::Typed(h)) => match check_handle(h.as_str()) {
                HandleCheck::Quit => {
                    self.stage = RegStage::Over;
                    (none, RegNext::Cancel)
                },
                HandleCheck::Invalid => (one("1〜20 桁 (全角 10 文字) で入力してください。"), ask_handle()),
                HandleCheck::Valid(t) => {
                    self.handle = t;
                    self.stage = RegStage::AskPassword;
                    (none, ask_password())
                },
            },
            (RegStage::AskPassword, RegEvent::Typed(p1)) => {
                if !password_long_enough(p1.as_str()) {
                    (one("4 文字以上にしてください。"), ask_password())
                } else {
                    self.password = p1;
                    self.stage = RegStage::AskAgain;
                    (none, RegNext::Ask(String::from_str("もう一度: "), InputKind::Password))
                }
            },
            (RegStage::AskAgain, RegEvent::Typed(p2)) => {
                if !same_text(p2.as_str(), self.password.as_str()) {
                    self.stage = RegStage::AskPassword;
                    (one("一致しません。"), ask_password())
                } else {
                    self.stage = RegStage::Confirm;
                    let q = registration_question(self.login.as_str(), self.handle.as_str());
                    (none, RegNext::Ask(q, InputKind::YesNo))
                }
            },
            (RegStage::Confirm, RegEvent::Answered(yes)) => {
                self.stage = RegStage::Over;
                if yes { (none, RegNext::Create) } else { (none, RegNext::Cancel) }
            },
            _ => {
                self.stage = RegStage::Over;
                (none, RegNext::Cancel)
            },
        }
    }
}

/// What a finished registration holds: once the dialog says `Create`, the
/// ID may be registered, the handle is 1 to 20 columns wide, and the
/// password has four characters or more.
pub open spec fn registration_ready(d: Registration) -> bool {
    &&& login_ok(d.login@)
    &&& d.handle@.len() > 0
    &&& uw_str_width(d.handle@) <= 20
    &&& d.password@.len() >= 4
}

/// What the dialog keeps true from stage to stage: what it holds is what
/// the stages so far have checked.
pub open spec fn registration_wf(d: Registration) -> bool {
    &&& (d.stage == RegStage::CheckLogin || d.stage == RegStage::AskHandle || d.stage == RegStage::AskPassword
        || d.stage == RegStage::AskAgain || d.stage == RegStage::Confirm) ==> login_ok(d.login@)
    &&& (d.stage == RegStage::AskPassword || d.stage == RegStage::AskAgain || d.stage == RegStage::Confirm)
        ==> d.handle@.len() > 0 && uw_str_width(d.handle@) <= 20
    &&& (d.stage == RegStage::AskAgain || d.stage == RegStage::Confirm) ==> d.password@.len() >= 4
}

} // verus!
