use null_bbs::hub::{Hub, LineState, Notice};
use null_bbs::line::{LineInfo, LineKind};

fn hub(lines: u16, modems: &[(u16, &str)]) -> Hub {
    let modems: Vec<(u16, String)> = modems.iter().map(|(n, p)| (*n, p.to_string())).collect();
    Hub::new("T", lines, &modems)
}

#[test]
fn alloc_skips_modem_lines() {
    let mut hub = hub(3, &[(1, "/dev/x")]);
    assert_eq!(hub.alloc_tcp(), Some(2));
    assert_eq!(hub.alloc_tcp(), Some(3));
    assert_eq!(hub.alloc_tcp(), None);
    hub.free_tcp(2);
    assert_eq!(hub.alloc_tcp(), Some(2));
}

#[test]
fn telegram_and_chat() {
    let mut hub = hub(4, &[]);
    let a = hub.alloc_tcp().unwrap();
    let b = hub.alloc_tcp().unwrap();
    hub.attach(LineInfo::new(a, LineKind::Tcp, "x"), 0);
    hub.attach(LineInfo::new(b, LineKind::Tcp, "y"), 0);
    hub.set_user(a, 1, "alice", "アリス");
    hub.set_user(b, 2, "bob", "ボブ");
    let t = hub.telegram("BOB", "アリス", "やあ").unwrap();
    assert_eq!(t.no, b);
    assert!(matches!(t.notice, Notice::Telegram { .. }));
    let m = hub.chat_join("LOBBY", b, "ボブ");
    assert!(m.recipients.is_empty());
    let m = hub.chat_join("LOBBY", a, "アリス");
    assert_eq!(m.recipients, vec![b]);
    assert!(m.text.contains("入室"));
    let m = hub.chat_say("LOBBY", a, "アリス", "こんにちは");
    assert_eq!(m.recipients, vec![b]);
    assert_eq!(m.text, "アリス> こんにちは");
    assert_eq!(hub.chat_members("LOBBY").len(), 2);
    assert!(hub.telegram("9", "x", "y").is_err());
}

#[test]
fn new_hub_lines() {
    let hub = hub(3, &[(2, "/dev/ttyUSB0")]);
    let v = hub.snapshot();
    assert_eq!(v.len(), 3);
    assert_eq!(v[0].state, LineState::Free);
    assert_eq!(v[1].state, LineState::Init);
    assert_eq!(v[1].kind, Some(LineKind::Modem));
    assert_eq!(v[1].port, "/dev/ttyUSB0");
    assert_eq!(hub.max_lines(), 3);
    assert_eq!(hub.bbs_name(), "T");
    assert_eq!(hub.calls(), 0);
}

#[test]
fn state_labels() {
    assert_eq!(LineState::Free.label(), "空き");
    assert_eq!(LineState::Online.label(), "利用中");
    assert_eq!(LineState::Hangup.label(), "切断中");
    assert_eq!(LineKind::Modem.label(), "MODEM");
}

#[test]
fn answer_requests() {
    let mut hub = hub(3, &[(1, "/dev/x")]);
    assert_eq!(hub.request_answer(2).unwrap_err(), "CH02 はモデム回線ではありません");
    assert_eq!(hub.request_answer(1).unwrap_err(), "CH01 は初期化のため応答できません");
    hub.set_state(1, LineState::Idle);
    assert!(hub.request_answer(1).is_ok());
    assert!(hub.request_answer(1).is_ok());
    assert!(hub.take_answer_request(1));
    assert!(!hub.take_answer_request(1));
}

#[test]
fn telegram_targets() {
    let mut hub = hub(4, &[]);
    let a = hub.alloc_tcp().unwrap();
    let b = hub.alloc_tcp().unwrap();
    hub.attach(LineInfo::new(a, LineKind::Tcp, "x"), 0);
    hub.set_user(a, 1, "alice", "アリス");
    hub.set_user(b, 2, "bob", "ボブ");
    let t = hub.telegram("1", "me", "hi").unwrap();
    assert_eq!(t.receipt, "CH01 アリス");
    assert_eq!(t.undelivered, "アリス に届けられませんでした");
    assert_eq!(hub.telegram("+1", "me", "hi").unwrap().no, 1);
    assert_eq!(hub.telegram("ALICE", "me", "hi").unwrap().no, 1);
    // bob is logged in but no session takes notices on his line
    assert_eq!(hub.telegram("bob", "me", "hi").unwrap_err(), "ボブ に届けられませんでした");
    assert_eq!(hub.telegram("carol", "me", "hi").unwrap_err(), "carol は接続していません");
    assert_eq!(hub.telegram("3", "me", "hi").unwrap_err(), "3 は接続していません");
    assert_eq!(hub.telegram("99999", "me", "hi").unwrap_err(), "99999 は接続していません");
}

#[test]
fn detach_leaves_every_room() {
    let mut hub = hub(3, &[]);
    let a = hub.alloc_tcp().unwrap();
    let b = hub.alloc_tcp().unwrap();
    for (no, login) in [(a, "a"), (b, "b")] {
        hub.attach(LineInfo::new(no, LineKind::Tcp, "p"), 5);
        hub.set_user(no, no as i64, login, login);
    }
    hub.chat_join("X", a, "a");
    hub.chat_join("Y", a, "a");
    hub.chat_join("X", b, "b");
    hub.detach(a);
    assert_eq!(hub.chat_members("X"), vec![(b, "b".to_string())]);
    assert!(hub.chat_members("Y").is_empty());
    assert_eq!(hub.chat_rooms(), vec![("X".to_string(), 1)]);
    assert_eq!(hub.snapshot()[(a - 1) as usize].state, LineState::Hangup);
    assert_eq!(hub.who_lines(), vec![b]);
}

#[test]
fn leave_and_rooms() {
    let mut hub = hub(3, &[]);
    let a = hub.alloc_tcp().unwrap();
    hub.attach(LineInfo::new(a, LineKind::Tcp, "p"), 5);
    hub.set_user(a, 7, "a", "A");
    hub.chat_join("B", a, "A");
    hub.chat_join("A", a, "A");
    assert_eq!(hub.chat_rooms(), vec![("A".to_string(), 1), ("B".to_string(), 1)]);
    let m = hub.chat_leave("A", a, "A");
    assert_eq!(m.text, "*** A さんが退室しました");
    assert_eq!(hub.chat_rooms(), vec![("B".to_string(), 1)]);
}

#[test]
fn kick_and_broadcast() {
    let mut hub = hub(3, &[]);
    let a = hub.alloc_tcp().unwrap();
    let b = hub.alloc_tcp().unwrap();
    hub.attach(LineInfo::new(a, LineKind::Tcp, "p"), 5);
    hub.set_user(a, 7, "a", "A");
    hub.set_user(b, 8, "b", "B");
    assert!(matches!(hub.kick(a, "bye"), Some(Notice::Kick(r)) if r == "bye"));
    assert!(hub.kick(b, "bye").is_none());
    assert!(hub.kick(9, "bye").is_none());
    let sent = hub.broadcast("hello");
    assert_eq!(sent.len(), 1);
    assert_eq!(sent[0].0, a);
    assert!(matches!(&sent[0].1, Notice::System(t) if t == "hello"));
}

#[test]
fn attach_counts_calls_and_who_shows_users() {
    let mut hub = hub(2, &[]);
    let a = hub.alloc_tcp().unwrap();
    hub.attach(LineInfo::new(a, LineKind::Tcp, "1.2.3.4"), 100);
    assert_eq!(hub.calls(), 1);
    assert!(hub.who().is_empty());
    hub.set_user(a, 10, "alice", "アリス");
    hub.set_place(a, "メニュー");
    hub.set_note(a, "n");
    let w = hub.who();
    assert_eq!(w.len(), 1);
    assert_eq!((w[0].no, w[0].login.as_str(), w[0].place.as_str(), w[0].peer.as_str()), (a, "alice", "メニュー", "1.2.3.4"));
    assert_eq!(w[0].connected_at, Some(100));
    assert_eq!(w[0].state, LineState::Online);
    assert!(hub.can_notify(a));
}
