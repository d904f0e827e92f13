use null_bbs::config::{BbsConfig, Config, Limits, ModemConfig, TcpConfig};

#[test]
fn defaults() {
    let c = Config::default();
    assert_eq!(c.bbs.name, "NULL-BBS");
    assert_eq!(c.bbs.db, "null-bbs.db");
    assert_eq!(c.bbs.max_lines, 128);
    assert!(c.bbs.allow_guest && !c.bbs.chat_log);
    assert_eq!(c.bbs.max_upload_kb, 4096);
    assert_eq!(c.limits.idle_timeout_secs, 300);
    assert_eq!((c.limits.max_session_mins, c.limits.guest_session_mins, c.limits.login_attempts), (60, 15, 3));
    assert_eq!(c.tcp.listen, vec!["0.0.0.0:5656".to_string()]);
    assert!(c.modem.is_empty());
    let m = ModemConfig::default();
    assert_eq!(m.init, vec!["ATZ".to_string(), "ATE0V1Q0X4&C1&D2S0=0".to_string()]);
    assert_eq!((m.line, m.baud, m.rings, m.connect_timeout_secs, m.connect_delay_ms), (1, 9600, 1, 60, 500));
    assert_eq!((m.flow.as_str(), m.answer.as_str(), m.carrier.as_str(), m.hangup.as_str()), ("none", "manual", "both", "dtr"));
}

fn with(max_lines: u16, modem_lines: &[u16]) -> Config {
    let mut c = Config::default();
    c.bbs = BbsConfig { max_lines, ..BbsConfig::default() };
    c.modem = modem_lines.iter().map(|&line| ModemConfig { line, ..ModemConfig::default() }).collect();
    c
}

#[test]
fn validation_clamps_lines_and_checks_modems() {
    assert_eq!(with(0, &[]).validated().unwrap().bbs.max_lines, 1);
    assert_eq!(with(500, &[]).validated().unwrap().bbs.max_lines, 128);
    assert_eq!(with(8, &[1, 8]).validated().unwrap().modem.len(), 2);
    assert_eq!(with(8, &[1, 9]).validated().unwrap_err(), "modem の line は 1〜8 で指定してください: 9");
    assert_eq!(with(300, &[0]).validated().unwrap_err(), "modem の line は 1〜128 で指定してください: 0");
}

#[test]
fn limits() {
    let l = Limits { idle_timeout_secs: 10, max_session_mins: 60, guest_session_mins: 15, login_attempts: 0 };
    assert_eq!(l.idle_secs(), 30);
    assert_eq!(l.login_failures_allowed(), 1);
    assert_eq!((l.session_mins(true), l.session_mins(false)), (15, 60));
    assert_eq!(Limits::default().idle_secs(), 300);
    let _ = TcpConfig::default();
}
