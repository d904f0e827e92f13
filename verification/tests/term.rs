use null_bbs::hub::Notice;
use null_bbs::term::{crlf, format_notice, page_size, page_text, warn_after, IdleWatch, SessionError, Wake, WakeAction};

#[test]
fn notices() {
    assert_eq!(format_notice(&Notice::System("停電".into())), "*** SYSOP より: 停電 ***");
    assert_eq!(format_notice(&Notice::Telegram { from: "アリス(CH01)".into(), text: "やあ".into() }), "*** 電報 アリス(CH01): やあ ***");
    assert_eq!(format_notice(&Notice::Chat { room: "LOBBY".into(), text: "x> y".into() }), "x> y");
    assert_eq!(format_notice(&Notice::Kick("bye".into())), "*** bye ***");
}

#[test]
fn wakes() {
    assert!(matches!(IdleWatch::new().on_wake("> ", "ab", Wake::Data(vec![1, 2])), WakeAction::Feed(d) if d == vec![1, 2]));
    assert!(matches!(IdleWatch::new().on_wake("> ", "ab", Wake::Closed), WakeAction::End(SessionError::Disconnected)));
    assert!(matches!(IdleWatch::new().on_wake("> ", "ab", Wake::Notice(Notice::Kick("k".into()))), WakeAction::End(SessionError::Kicked(r)) if r == "k"));
    assert!(matches!(IdleWatch::new().on_wake("> ", "ab", Wake::Notice(Notice::System("s".into()))), WakeAction::Show(t) if t == "\n*** SYSOP より: s ***\n> ab"));
    assert!(matches!(IdleWatch::new().on_wake("> ", "", Wake::Warn), WakeAction::Show(t) if t == "\n*** 無操作のため、あと 1 分で切断します ***\n> "));
    assert!(matches!(IdleWatch::new().on_wake("> ", "", Wake::Idle), WakeAction::End(SessionError::IdleTimeout)));
    assert!(matches!(IdleWatch::new().on_wake("> ", "", Wake::TimeUp), WakeAction::End(SessionError::TimeUp)));
}

#[test]
fn timing_and_pages() {
    assert_eq!(warn_after(300), Some(240));
    assert_eq!(warn_after(119), None);
    assert_eq!(warn_after(120), Some(60));
    assert_eq!(page_size(24), 23);
    assert_eq!(page_size(3), 4);
    assert_eq!(page_size(0), 4);
    let lines: Vec<String> = vec!["a".into(), "b".into(), "c".into()];
    assert_eq!(page_text(&lines, 0, 2), "a\nb\n");
    assert_eq!(page_text(&lines, 2, 3), "c\n");
    assert_eq!(page_text(&lines, 1, 1), "");
}

#[test]
fn line_ends() {
    assert_eq!(crlf("a\nb\r\nc"), "a\r\nb\r\nc");
    assert_eq!(crlf(&crlf("x\n\r\n")), crlf("x\n\r\n"));
    assert_eq!(crlf("\r"), "\r");
}

#[test]
fn error_texts() {
    assert_eq!(SessionError::Disconnected.reason(), "回線断");
    assert_eq!(SessionError::Kicked("x".into()).reason(), "強制切断");
    assert_eq!(SessionError::Logoff.message(), "ログオフ");
    assert_eq!(SessionError::Other("boom".into()).message(), "boom");
}

#[test]
fn idle_warning_once() {
    let mut w = IdleWatch::new();
    assert_eq!(w.warn_at(300), Some(240));
    assert!(matches!(w.on_wake("> ", "", Wake::Warn), WakeAction::Show(_)));
    assert_eq!(w.warn_at(300), None);
    assert!(matches!(w.on_wake("> ", "", Wake::Notice(Notice::System("s".into()))), WakeAction::Show(_)));
    assert!(matches!(w.on_wake("> ", "", Wake::Warn), WakeAction::Wait));
    assert!(matches!(w.on_wake("> ", "", Wake::Data(vec![b'a'])), WakeAction::Feed(_)));
    assert_eq!(w.warn_at(300), Some(240));
    assert!(matches!(w.on_wake("> ", "a", Wake::Warn), WakeAction::Show(t) if t == "\n*** 無操作のため、あと 1 分で切断します ***\n> a"));
}

#[test]
fn every_lf_after_cr() {
    let r = crlf("a\nb\r\nc\n\n\rd");
    assert_eq!(r, "a\r\nb\r\nc\r\n\r\n\rd");
    let cs: Vec<char> = r.chars().collect();
    for i in 0..cs.len() {
        if cs[i] == '\n' {
            assert!(i > 0 && cs[i - 1] == '\r');
        }
    }
    assert_eq!(crlf(&r), r);
}
