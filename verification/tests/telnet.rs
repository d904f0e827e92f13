use null_bbs::line::telnet::{Telnet, DO, DONT, IAC, OPT_ECHO, OPT_SGA, SB, SE, WILL, WONT, OPT_BINARY};

#[test]
fn strips_commands_split_across_chunks() {
    let mut t = Telnet::new();
    let (d, r) = t.feed(&[b'a', IAC]);
    assert_eq!((d, r), (b"a".to_vec(), vec![]));
    let (d, r) = t.feed(&[DO, 24, b'b', IAC, SB, 24, 1, IAC, SE, b'c']);
    assert_eq!(d, b"bc");
    assert_eq!(r, vec![IAC, WONT, 24]);
    // the same request is not answered twice
    let (_, r) = t.feed(&[IAC, DO, 24]);
    assert!(r.is_empty());
}

#[test]
fn accepts_echo_and_sga() {
    let mut t = Telnet::new();
    let (_, r) = t.feed(&[IAC, DO, OPT_ECHO, IAC, DO, OPT_SGA]);
    assert!(r.is_empty(), "WILL was sent already");
    let (_, r) = t.feed(&[IAC, WILL, OPT_SGA, IAC, WILL, 31]);
    assert_eq!(r, vec![IAC, DO, OPT_SGA, IAC, DONT, 31]);
}

#[test]
fn crlf_and_crnul() {
    let mut t = Telnet::new();
    assert_eq!(t.feed(b"ab\r\ncd\r\0e\r").0, b"ab\rcd\re\r");
    assert_eq!(t.feed(b"\n").0, b"", "the LF is dropped even when CR and LF arrive apart");
    assert_eq!(t.feed(&[IAC, IAC]).0, vec![IAC]);
    assert_eq!(Telnet::escape(&[1, IAC, 2]), vec![1, IAC, IAC, 2]);
}

#[test]
fn greeting_offers_echo_sga_and_binary() {
    let g = Telnet::greeting();
    assert!(g.windows(3).any(|w| w == [IAC, WILL, OPT_ECHO]));
    assert!(g.windows(3).any(|w| w == [IAC, WILL, OPT_SGA]));
    assert!(g.len() % 3 == 0);
    assert!(g.iter().step_by(3).all(|&b| b == IAC));
    let _ = OPT_BINARY;
}

#[test]
fn feeding_in_chunks_matches_feeding_at_once() {
    let input: Vec<u8> = vec![b'x', IAC, DO, 24, b'y', b'\r', b'\n', IAC, IAC, IAC, WILL, 31, b'z'];
    let mut whole = Telnet::new();
    let (d1, r1) = whole.feed(&input);
    for cut in 0..=input.len() {
        let mut t = Telnet::new();
        let (mut d, mut r) = t.feed(&input[..cut]);
        let (d2, r2) = t.feed(&input[cut..]);
        d.extend(d2);
        r.extend(r2);
        assert_eq!((d, r), (d1.clone(), r1.clone()), "cut at {cut}");
    }
}

#[test]
fn escape_then_feed_gives_the_data_back() {
    let data: Vec<u8> = vec![0, 1, IAC, 200, IAC, IAC, 13, 10, 7];
    let mut t = Telnet::new();
    t.binary = true;
    let (d, r) = t.feed(&Telnet::escape(&data));
    assert_eq!(d, data);
    assert!(r.is_empty());
}

#[test]
fn binary_mode_keeps_cr_lf() {
    let mut t = Telnet::new();
    t.binary = true;
    assert_eq!(t.feed(b"a\r\nb").0, b"a\r\nb");
}

#[test]
fn escape_roundtrip_outside_binary() {
    let d: Vec<u8> = vec![b'a', IAC, b'\r', b'x', 0xFE, IAC, IAC, b'\r'];
    let mut t = Telnet::new();
    assert!(!t.binary);
    assert_eq!(t.feed(&Telnet::escape(&d)), (d.clone(), vec![]));
}
