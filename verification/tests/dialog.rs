use null_bbs::session::dialog::{
    InputKind, LoginDialog, LoginEvent, LoginNext, LoginStage, RegEvent, RegNext, RegStage, Registration,
};

fn typed(s: &str) -> LoginEvent {
    LoginEvent::Typed(s.to_string())
}

#[test]
fn login_with_a_password() {
    let (mut d, next) = LoginDialog::new(true, 3);
    assert!(matches!(next, LoginNext::Ask(ref p, InputKind::Command) if p.starts_with("ID を入力")));
    let (m, next) = d.step(typed("alice"));
    assert!(m.is_empty());
    assert!(matches!(next, LoginNext::Ask(ref p, InputKind::Password) if p == "パスワード: "));
    let (_, next) = d.step(typed("secret"));
    assert!(matches!(next, LoginNext::FindUser(ref id) if id == "alice"));
    let (_, next) = d.step(LoginEvent::Found(Some((10, false))));
    assert!(matches!(next, LoginNext::Verify(ref p) if p == "secret"));
    let (_, next) = d.step(LoginEvent::Verified(true));
    assert!(matches!(next, LoginNext::Welcome));
    assert_eq!(d.stage, LoginStage::Over);
}

#[test]
fn login_failures_end_the_session() {
    let (mut d, _) = LoginDialog::new(true, 2);
    d.step(typed("bob"));
    d.step(typed("x"));
    let (_, next) = d.step(LoginEvent::Found(None));
    assert!(matches!(next, LoginNext::Pause));
    let (m, next) = d.step(LoginEvent::Paused);
    assert_eq!(m, vec!["ID かパスワードが違います。".to_string()]);
    assert!(matches!(next, LoginNext::Ask(_, InputKind::Command)));
    d.step(typed("bob"));
    d.step(typed("y"));
    d.step(LoginEvent::Found(Some((10, false))));
    let (_, next) = d.step(LoginEvent::Verified(false));
    assert!(matches!(next, LoginNext::Pause));
    let (m, next) = d.step(LoginEvent::Paused);
    assert_eq!(m.len(), 2);
    assert_eq!(m[1], "規定回数を超えたので切断します。");
    assert!(matches!(next, LoginNext::Logoff));
}

#[test]
fn guest_banned_and_register() {
    let (mut d, _) = LoginDialog::new(true, 3);
    let (_, next) = d.step(typed("guest"));
    assert!(matches!(next, LoginNext::FindGuest));
    let (m, next) = d.step(LoginEvent::GuestFound(true));
    assert_eq!(m.len(), 1);
    assert!(matches!(next, LoginNext::GuestIn));

    let (mut d, _) = LoginDialog::new(false, 3);
    let (_, next) = d.step(typed("guest"));
    assert!(matches!(next, LoginNext::Ask(_, InputKind::Password)));
    d.step(typed("pw"));
    // the guest account has level 0, so its password is never checked
    let (_, next) = d.step(LoginEvent::Found(Some((0, false))));
    assert!(matches!(next, LoginNext::Pause));

    let (mut d, _) = LoginDialog::new(true, 3);
    d.step(typed("carol"));
    d.step(typed("pw"));
    d.step(LoginEvent::Found(Some((10, true))));
    let (m, next) = d.step(LoginEvent::Verified(true));
    assert_eq!(m, vec!["この ID は利用停止中です。SYSOP にお問い合わせください。".to_string()]);
    assert!(matches!(next, LoginNext::Logoff));

    let (mut d, _) = LoginDialog::new(true, 3);
    let (_, next) = d.step(typed("new"));
    assert!(matches!(next, LoginNext::Register));
    let (_, next) = d.step(LoginEvent::Registered(false));
    assert!(matches!(next, LoginNext::Ask(_, InputKind::Command)));
    let (_, next) = d.step(typed(""));
    assert!(matches!(next, LoginNext::Ask(_, InputKind::Command)));
    // a report that does not fit the stage ends the dialog
    let (_, next) = d.step(LoginEvent::Paused);
    assert!(matches!(next, LoginNext::Logoff));
}

#[test]
fn registration_dialog() {
    let (mut d, m, next) = Registration::new();
    assert_eq!(m, vec!["\n== 新規登録 ==  (途中でやめるときは Q)".to_string()]);
    assert!(matches!(next, RegNext::Ask(_, InputKind::Command)));
    let (m, _) = d.step(RegEvent::Typed("1x".into()));
    assert_eq!(m, vec!["その ID は使えません。".to_string()]);
    let (_, next) = d.step(RegEvent::Typed("bob".into()));
    assert!(matches!(next, RegNext::CheckTaken(ref id) if id == "bob"));
    let (m, _) = d.step(RegEvent::Taken(true));
    assert_eq!(m, vec!["その ID はすでに使われています。".to_string()]);
    d.step(RegEvent::Typed("bob2".into()));
    let (_, next) = d.step(RegEvent::Taken(false));
    assert!(matches!(next, RegNext::Ask(_, InputKind::Text(20))));
    let (m, _) = d.step(RegEvent::Typed("   ".into()));
    assert_eq!(m.len(), 1);
    let (_, next) = d.step(RegEvent::Typed(" ボブ ".into()));
    assert!(matches!(next, RegNext::Ask(_, InputKind::Password)));
    let (m, _) = d.step(RegEvent::Typed("abc".into()));
    assert_eq!(m, vec!["4 文字以上にしてください。".to_string()]);
    d.step(RegEvent::Typed("abcd".into()));
    let (m, _) = d.step(RegEvent::Typed("abce".into()));
    assert_eq!(m, vec!["一致しません。".to_string()]);
    d.step(RegEvent::Typed("abcd".into()));
    let (_, next) = d.step(RegEvent::Typed("abcd".into()));
    assert!(matches!(next, RegNext::Ask(ref q, InputKind::YesNo) if q == "ID bob2 / ハンドル ボブ で登録します。よろしいですか"));
    let (_, next) = d.step(RegEvent::Answered(true));
    assert!(matches!(next, RegNext::Create));
    assert_eq!((d.login.as_str(), d.handle.as_str(), d.password.as_str()), ("bob2", "ボブ", "abcd"));
    assert_eq!(d.stage, RegStage::Over);

    let (mut d, _, _) = Registration::new();
    let (_, next) = d.step(RegEvent::Typed("q".into()));
    assert!(matches!(next, RegNext::Cancel));
}
