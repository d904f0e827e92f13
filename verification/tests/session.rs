use null_bbs::db::repo::{Access, Board, Mail, Post, User, LEVEL_MEMBER, LEVEL_SYSOP};
use null_bbs::hub::SlotView;
use null_bbs::line::LineKind;
use null_bbs::session::bbs::{
    body_line, board_command, board_line, can_delete, can_write, choose_board, chosen_title, finish_body,
    post_line, post_with_time, reply_title, review_lines, show_post, title_prompt, BodyLine, BoardCmd,
};
use null_bbs::session::chat::{chat_input, entered, left, room_name, rooms_list, who_in_room, ChatInput};
use null_bbs::session::info::{
    log_line, new_handle, new_password_ok, profile_command, profile_page, screen_rows_typed, telegram_sender,
    telegram_sent, who_heading, who_line, ProfileCmd,
};
use null_bbs::session::login::{
    check_handle, check_new_login, greeting, login_choice, login_outcome, news_entry, password_checked,
    password_long_enough, registration_question, valid_login, welcome, HandleCheck, IdCheck, LoginChoice,
    LoginOutcome,
};
use null_bbs::session::mail::{mail_command, mail_line, mail_view, new_mail_notice, pick_index, MailCmd};
use null_bbs::session::menu::{menu_command, menu_text, MenuCmd};
use null_bbs::session::sysop::{broadcast_report, kick_report, sysop_command, SysopCmd};
use null_bbs::session::{default_goodbye, end_reason, ended, screen_rows, user_label};
use null_bbs::term::SessionError;

fn user(login: &str, level: i64) -> User {
    User {
        id: 10,
        login: login.into(),
        handle: "ハンドル".into(),
        pw_hash: "!".into(),
        level,
        banned: false,
        screen_rows: 24,
        profile: "よろしく".into(),
        created_at: 0,
        last_login_at: None,
        login_count: 4,
    }
}

fn board() -> Board {
    Board {
        id: 1,
        name: "FREE".into(),
        title: "雑談".into(),
        description: String::new(),
        read_level: 0,
        write_level: LEVEL_MEMBER,
        count: 12,
        unread: 3,
        last_seq: 12,
    }
}

fn post(seq: i64, parent: Option<i64>) -> Post {
    Post {
        seq,
        parent_seq: parent,
        author_login: "alice".into(),
        author_handle: "アリス".into(),
        title: "はじめまして".into(),
        body: "よろしく".into(),
        created_at: 0,
    }
}

#[test]
fn login_ids() {
    assert!(valid_login("alice_1"));
    assert!(!valid_login("al"));
    assert!(!valid_login("1alice"));
    assert!(!valid_login("new"));
    assert!(!valid_login("Sysop"));
    assert!(!valid_login("abcdefghijklm"));
    assert!(!valid_login("ありす"));
    assert_eq!(check_new_login("Q"), IdCheck::Quit);
    assert_eq!(check_new_login("guest"), IdCheck::Invalid);
    assert_eq!(check_new_login("bob"), IdCheck::Valid);
}

#[test]
fn login_choices_and_outcomes() {
    assert_eq!(login_choice("", true), LoginChoice::Ask);
    assert_eq!(login_choice("new", true), LoginChoice::Register);
    assert_eq!(login_choice("Guest", true), LoginChoice::Guest);
    assert_eq!(login_choice("guest", false), LoginChoice::Password);
    assert_eq!(login_choice("alice", true), LoginChoice::Password);
    assert!(!password_checked(0));
    assert_eq!(login_outcome(Some((10, false)), true, 0, 3), (LoginOutcome::Welcome, 0));
    assert_eq!(login_outcome(Some((10, true)), true, 1, 3), (LoginOutcome::Banned, 1));
    assert_eq!(login_outcome(Some((0, false)), true, 0, 3), (LoginOutcome::Retry, 1));
    assert_eq!(login_outcome(None, false, 1, 3), (LoginOutcome::Retry, 2));
    assert_eq!(login_outcome(Some((10, false)), false, 2, 3), (LoginOutcome::GiveUp, 3));
}

#[test]
fn registration() {
    assert!(matches!(check_handle("  ボブ  "), HandleCheck::Valid(h) if h == "ボブ"));
    assert!(matches!(check_handle(" q "), HandleCheck::Quit));
    assert!(matches!(check_handle("   "), HandleCheck::Invalid));
    assert!(matches!(check_handle("あいうえおかきくけこさ"), HandleCheck::Invalid));
    assert!(password_long_enough("ひみつ1"));
    assert!(!password_long_enough("abc"));
    assert_eq!(registration_question("bob", "ボブ"), "ID bob / ハンドル ボブ で登録します。よろしいですか");
    assert_eq!(welcome("ボブ"), "登録しました。ようこそ ボブ さん!");
}

#[test]
fn greetings() {
    assert_eq!(greeting("ゲスト", 3, true, None, 5, &vec![]), "\nこんにちは ゲスト さん。現在 3 人が接続中です。\n");
    let news = vec![news_entry("雑談", 2), news_entry("お知らせ", 1)];
    assert_eq!(
        greeting("アリス", 1, false, Some(("2026/01/02 03:04".into(), 7)), 2, &news),
        "\nこんにちは アリス さん。現在 1 人が接続中です。\n前回のログイン: 2026/01/02 03:04 (CH07)\n未読メールが 2 通あります。\n新着記事: 雑談(2) お知らせ(1)\n"
    );
    assert_eq!(greeting("a", 1, false, None, 0, &vec![]), "\nこんにちは a さん。現在 1 人が接続中です。\n");
}

#[test]
fn chat() {
    assert_eq!(room_name("  lobby2 "), "LOBBY2");
    assert_eq!(room_name(""), "LOBBY");
    assert_eq!(room_name("abcdefghijklmnopqrs"), "ABCDEFGHIJKLMNOP");
    assert!(matches!(chat_input("   "), ChatInput::Nothing));
    assert!(matches!(chat_input("/q"), ChatInput::Leave));
    assert!(matches!(chat_input("/exit"), ChatInput::Leave));
    assert!(matches!(chat_input("/r tea"), ChatInput::Move(r) if r == "TEA"));
    assert!(matches!(chat_input("/r"), ChatInput::Help));
    assert!(matches!(chat_input("/t bob hi"), ChatInput::Telegram(a) if a == "bob hi"));
    assert!(matches!(chat_input(" hello "), ChatInput::Say(t) if t == "hello"));
    assert_eq!(entered("LOBBY"), "\n*** チャット LOBBY に入室しました ***\n/Q:退室 /W:在室者 /R 部屋名:部屋を移動 /L:部屋の一覧 /T 相手 本文:電報 /?:ヘルプ");
    assert_eq!(left("LOBBY"), "*** LOBBY から退室しました ***");
    assert_eq!(who_in_room(&vec![(1, "アリス".into()), (12, "ボブ".into())]), "*** 在室者 2人: アリス(CH01) ボブ(CH12)");
    assert_eq!(rooms_list(&vec![("A".into(), 2), ("B".into(), 1)]), "*** 部屋: A(2人) B(1人)");
}

#[test]
fn body_editing() {
    assert_eq!(body_line(" . "), BodyLine::End);
    assert_eq!(body_line("/a"), BodyLine::Abort);
    assert_eq!(body_line("/L"), BodyLine::Review);
    assert_eq!(body_line("text"), BodyLine::Add);
    assert_eq!(finish_body(vec!["a".into(), "".into(), "b".into(), "  ".into(), "".into()]), Some("a\n\nb".into()));
    assert_eq!(finish_body(vec![" ".into()]), None);
    assert_eq!(review_lines(&vec!["x".into(), "y".into()]), vec!["  1: x".to_string(), "  2: y".to_string()]);
}

#[test]
fn boards() {
    let b = board();
    assert_eq!(board_line(1, &b, false), format!("  1  雑談{} {:>5} {:>5}", " ".repeat(18), 12, 3));
    assert_eq!(board_line(2, &b, true), format!("  2  雑談{} {:>5} {:>5}", " ".repeat(18), 12, "-"));
    let boards = vec![b.clone(), Board { name: "INFO".into(), ..b.clone() }];
    assert_eq!(choose_board(&boards, "2"), Some(1));
    assert_eq!(choose_board(&boards, "info"), Some(1));
    assert_eq!(choose_board(&boards, "3"), None);
    assert_eq!(board_command("r 3"), BoardCmd::Read(Some(3)));
    assert_eq!(board_command("R3"), BoardCmd::Read(Some(3)));
    assert_eq!(board_command("12"), BoardCmd::Read(Some(12)));
    assert_eq!(board_command("re"), BoardCmd::Reply(None));
    assert_eq!(board_command(""), BoardCmd::Back);
    assert_eq!(board_command("new"), BoardCmd::Unread);
    assert_eq!(board_command("x"), BoardCmd::Unknown);
    assert!(can_write(&user("a", LEVEL_MEMBER), &b));
    assert!(!can_write(&user("a", 0), &b));
    assert!(can_delete("ALICE", &user("alice", LEVEL_MEMBER)));
    assert!(can_delete("bob", &user("alice", LEVEL_SYSOP)));
    assert!(!can_delete("bob", &user("alice", LEVEL_MEMBER)));
    assert_eq!(reply_title("はじめまして"), "Re: はじめまして");
    assert_eq!(reply_title("Re: x"), "Re: x");
    assert_eq!(title_prompt(""), "題名: ");
    assert_eq!(title_prompt("Re: x"), "題名 (Enter で「Re: x」): ");
    assert_eq!(chosen_title("  ", "Re: x"), Some("Re: x".into()));
    assert_eq!(chosen_title(" t ", "Re: x"), Some("t".into()));
    assert_eq!(chosen_title("", ""), None);
}

#[test]
fn posts() {
    let line = "-".repeat(60);
    assert_eq!(
        post_with_time("雑談", &post(2, Some(1)), "T"),
        format!("\n#2 [雑談] T  アリス (alice) (#1 へのコメント)\n題名: はじめまして\n{line}\nよろしく\n{line}\n")
    );
    let shown = show_post(&board(), &post(1, None));
    assert!(shown.starts_with("\n#1 [雑談] "));
    assert!(shown.ends_with(&format!("\n{line}\n")));
    assert_eq!(post_line(&post(7, None), "01/02 03:04"), "#7    01/02 03:04 アリス       はじめまして");
}

#[test]
fn mail() {
    assert_eq!(pick_index("2", 3), Some(1));
    assert_eq!(pick_index("0", 3), None);
    assert_eq!(pick_index("x", 3), None);
    assert_eq!(mail_command("r 1", 1), MailCmd::Read(Some(0)));
    assert_eq!(mail_command("1", 1), MailCmd::Numbered(Some(0)));
    assert_eq!(mail_command("2", 1), MailCmd::Numbered(None));
    assert_eq!(mail_command("send", 0), MailCmd::Send);
    assert_eq!(mail_command("g", 0), MailCmd::Logoff);
    let m = Mail {
        id: 1,
        from_login: "alice".into(),
        from_handle: "アリス".into(),
        subject: "件名".into(),
        body: "本文".into(),
        created_at: 0,
        read: false,
    };
    assert_eq!(mail_line(1, &m, "T"), "*  1  T  アリス       件名");
    let line = "-".repeat(60);
    assert_eq!(mail_view(&m, "T"), format!("\n差出人: アリス (alice)\n日付  : T\n件名  : 件名\n{line}\n本文\n{line}"));
    assert_eq!(new_mail_notice("アリス"), "アリス さんから新しいメールが届きました");
}

#[test]
fn info() {
    assert_eq!(who_heading(2), "\n== 在室者 2人 ==");
    let v = SlotView {
        no: 3,
        kind: Some(LineKind::Modem),
        state: null_bbs::hub::LineState::Online,
        port: String::new(),
        peer: String::new(),
        speed: "2400".into(),
        user_id: Some(1),
        login: "alice".into(),
        handle: "アリス".into(),
        place: "メニュー".into(),
        connected_at: Some(100),
        rx: 0,
        tx: 0,
        note: String::new(),
    };
    assert_eq!(
        who_line(&v, 165),
        format!("03  alice{} アリス{} 2400{} メニュー{} 01:05", " ".repeat(7), " ".repeat(9), " ".repeat(9), " ".repeat(9))
    );
    let a = Access {
        login: "alice".into(),
        handle: "アリス".into(),
        line_no: 2,
        line_kind: "TCP".into(),
        peer: String::new(),
        login_at: 0,
        logout_at: Some(61),
        reason: Some("ログオフ".into()),
    };
    assert_eq!(log_line(&a, "T"), format!("T  02  アリス(alice){}    01:01  ログオフ", " ".repeat(6)));
    let b = Access { logout_at: None, ..a };
    assert_eq!(log_line(&b, "T"), format!("T  02  アリス(alice){}接続中  ", " ".repeat(12)));
    let u = user("alice", LEVEL_MEMBER);
    assert!(profile_page(&u, "T").contains("ログイン : 5 回"));
    assert_eq!(profile_command("q"), ProfileCmd::Back);
    assert_eq!(profile_command("3"), ProfileCmd::Rows);
    assert_eq!(profile_command("9"), ProfileCmd::Other);
    assert_eq!(new_handle("  "), None);
    assert_eq!(new_handle(" x "), Some("x".into()));
    assert!(new_password_ok("abcd", "abcd"));
    assert!(!new_password_ok("abcd", "abce"));
    assert!(!new_password_ok("abc", "abc"));
    assert_eq!(screen_rows_typed("5"), Some(8));
    assert_eq!(screen_rows_typed("200"), Some(100));
    assert_eq!(screen_rows_typed("30"), Some(30));
    assert_eq!(screen_rows_typed("x"), None);
    assert_eq!(telegram_sender("アリス", 3), "アリス(CH03)");
    assert_eq!(telegram_sent("CH03 ボブ"), "CH03 ボブ に送りました。");
}

#[test]
fn menu_and_sysop() {
    let m = menu_text("BBS", LEVEL_MEMBER);
    assert!(m.starts_with("\n== BBS メインメニュー ==\n"));
    assert!(!m.contains("SYSOP SYS"));
    assert!(menu_text("BBS", LEVEL_SYSOP).contains(" 9.SYSOP SYS\n"));
    assert_eq!(menu_command("c lobby", LEVEL_MEMBER), (MenuCmd::Chat, "lobby".to_string()));
    assert_eq!(menu_command("9", LEVEL_MEMBER).0, MenuCmd::Unknown);
    assert_eq!(menu_command("sys", LEVEL_SYSOP).0, MenuCmd::Sysop);
    assert_eq!(menu_command("bye", LEVEL_MEMBER).0, MenuCmd::Bye);
    assert_eq!(menu_command("", LEVEL_MEMBER).0, MenuCmd::Nothing);
    assert_eq!(sysop_command("k 3", 1), SysopCmd::Kick(3));
    assert_eq!(sysop_command("k 1", 1), SysopCmd::KickUsage);
    assert_eq!(sysop_command("k x", 1), SysopCmd::KickUsage);
    assert_eq!(sysop_command("b hello all", 1), SysopCmd::Broadcast("hello all".into()));
    assert_eq!(sysop_command("q", 1), SysopCmd::Back);
    assert_eq!(broadcast_report(3), "3 人に送りました。");
    assert_eq!(kick_report(false), "その回線は使われていません。");
}

#[test]
fn session_texts() {
    assert_eq!(default_goodbye("BBS"), "\nご利用ありがとうございました。BBS でした。\n");
    assert_eq!(ended(&SessionError::IdleTimeout), "\n\n*** 無操作のため切断しました ***");
    assert_eq!(ended(&SessionError::Kicked("SYSOP により切断されました".into())), "\n\n*** SYSOP により切断されました ***");
    assert_eq!(end_reason(&Ok(())), "ログオフ");
    assert_eq!(end_reason(&Err(SessionError::TimeUp)), "時間切れ");
    assert_eq!(end_reason(&Err(SessionError::Other("x".into()))), "エラー");
    assert_eq!(user_label("アリス", "alice"), "アリス (alice)");
    assert_eq!((screen_rows(3), screen_rows(24), screen_rows(1000)), (8, 24, 100));
}
