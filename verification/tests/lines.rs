use null_bbs::line::serial::{carrier_checks, flow, hangup_by_escape, CarrierScan, Flow};
use null_bbs::line::ws::{busy_message, forwarded_peer, ws_peer};
use null_bbs::line::{LineInfo, LineKind};
use null_bbs::logbuf::{text_lines, LogRing, MAX_LINES};
use null_bbs::cli::{added_level, board_list_line, password_from_line, user_added, user_list_line};
use null_bbs::db::repo::{Board, User, LEVEL_MEMBER, LEVEL_SYSOP};

#[test]
fn serial_settings() {
    assert_eq!(flow("RTS"), Flow::Hardware);
    assert_eq!(flow("xon"), Flow::Software);
    assert_eq!(flow("none"), Flow::Off);
    assert_eq!(carrier_checks("both"), (true, true));
    assert_eq!(carrier_checks("dcd"), (true, false));
    assert_eq!(carrier_checks("text"), (false, true));
    assert!(hangup_by_escape("escape"));
    assert!(!hangup_by_escape("dtr"));
}

#[test]
fn no_carrier_split_over_reads() {
    let mut s = CarrierScan::new();
    assert!(!s.feed(b"CONNECT 2400\r\nhello NO CAR"));
    assert!(s.feed(b"RIER\r\n"));
    // reported once
    assert!(!s.feed(b"NO CARRIER"));
    s.reset();
    assert!(s.feed(b"\r\nNO CARRIER\r\n"));
    let mut s = CarrierScan::new();
    assert!(!s.feed(b"NO"));
    assert!(!s.feed(b" CARRIE"));
    assert!(s.feed(b"R"));
}

#[test]
fn forwarded_peers() {
    assert_eq!(forwarded_peer(" 1.2.3.4 , 5.6.7.8"), "1.2.3.4");
    assert_eq!(forwarded_peer("9.9.9.9"), "9.9.9.9");
    assert_eq!(ws_peer("1.2.3.4"), "1.2.3.4 (WS)");
    assert!(busy_message().starts_with("\r\n"));
}

#[test]
fn line_info_counters() {
    let mut i = LineInfo::new(3, LineKind::Tcp, "peer");
    i.add_rx(10);
    i.add_tx(4);
    i.add_tx(usize::MAX);
    assert_eq!((i.rx_bytes, i.tx_bytes), (10, 3));
    assert_eq!((i.peer(), i.speed()), ("peer".to_string(), String::new()));
}

#[test]
fn log_lines() {
    assert_eq!(text_lines("a\r\nb\n\nc\r"), vec!["a", "b", "", "c\r"]);
    assert!(text_lines("").is_empty());
    assert_eq!(text_lines("x\n"), vec!["x"]);
    let mut r = LogRing::new();
    r.push_text("one\ntwo\n");
    r.push_text("three");
    assert_eq!(r.tail(2), vec!["two", "three"]);
    assert_eq!(r.tail(10), vec!["one", "two", "three"]);
    let many: String = (0..MAX_LINES + 5).map(|i| format!("{i}\n")).collect();
    r.push_text(&many);
    let all = r.tail(usize::MAX);
    assert_eq!(all.len(), MAX_LINES);
    assert_eq!(all[0], "5");
    assert_eq!(all[MAX_LINES - 1], (MAX_LINES + 4).to_string());
}

#[test]
fn command_line_tools() {
    assert_eq!(password_from_line("ひみつ\r\n").unwrap_err(), "パスワードは 4 文字以上にしてください");
    assert_eq!(password_from_line("abcd\n").unwrap(), "abcd");
    assert_eq!((added_level(true), added_level(false)), (LEVEL_SYSOP, LEVEL_MEMBER));
    assert_eq!(user_added(12), "会員を追加しました (id 12)");
    let u = User {
        id: 10,
        login: "alice".into(),
        handle: "アリス".into(),
        pw_hash: String::new(),
        level: 10,
        banned: true,
        screen_rows: 24,
        profile: String::new(),
        created_at: 0,
        last_login_at: None,
        login_count: 0,
    };
    assert_eq!(user_list_line(&u), format!("  10 {:<12} {:<16} level  10 (停止中)", "alice", "アリス"));
    let b = Board {
        id: 1,
        name: "FREE".into(),
        title: "雑談".into(),
        description: String::new(),
        read_level: 0,
        write_level: 10,
        count: 3,
        unread: 0,
        last_seq: 3,
    };
    assert_eq!(board_list_line(&b), format!("{:<10} {:<20} 記事 {:>4}  書込レベル {}", "FREE", "雑談", 3, 10));
}
