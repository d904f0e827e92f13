use null_bbs::term::editor::{to_halfwidth, EditOpts, Editor};
use null_bbs::term::take_line;

fn run(ed: &mut Editor, input: &[u8]) -> (Vec<u8>, Vec<String>) {
    let mut echo = Vec::new();
    let mut lines = Vec::new();
    for &b in input {
        if let Some(l) = ed.feed(b, &mut echo) {
            lines.push(l);
        }
    }
    (echo, lines)
}

#[test]
fn multibyte_split_and_backspace() {
    let mut ed = Editor::new(EditOpts::default());
    let s = "あい".as_bytes();
    let (_, l) = run(&mut ed, &s[..2]);
    assert!(l.is_empty());
    let (echo, _) = run(&mut ed, &s[2..]);
    assert_eq!(echo, "あい".as_bytes());
    // erasing one full-width character erases two columns
    let (echo, _) = run(&mut ed, b"\x7f");
    assert_eq!(echo, b"\x08 \x08\x08 \x08");
    let (_, l) = run(&mut ed, b"x\r\n");
    assert_eq!(l, vec!["あx"]);
}

#[test]
fn line_endings() {
    let mut ed = Editor::new(EditOpts::default());
    let (_, l) = run(&mut ed, b"a\r\nb\r\0c\nd\r");
    assert_eq!(l, vec!["a", "b", "c", "d"]);
}

#[test]
fn mask_limit_normalize_escape() {
    let mut ed = Editor::new(EditOpts { max_chars: 3, mask: true, normalize: false });
    let (echo, l) = run(&mut ed, b"abcd\r");
    assert_eq!(echo, b"***\x07\r\n");
    assert_eq!(l, vec!["abc"]);
    let mut ed = Editor::new(EditOpts::default());
    let (_, l) = run(&mut ed, "ＢＢＳ\x1b[A１\r".as_bytes());
    assert_eq!(l, vec!["BBS1"]);
}

#[test]
fn default_options() {
    let o = EditOpts::default();
    assert_eq!((o.max_chars, o.mask, o.normalize), (200, false, true));
}

#[test]
fn halfwidth_folding() {
    assert_eq!(to_halfwidth('Ａ'), 'A');
    assert_eq!(to_halfwidth('１'), '1');
    assert_eq!(to_halfwidth('\u{3000}'), ' ');
    assert_eq!(to_halfwidth('あ'), 'あ');
}

#[test]
fn ctrl_u_erases_the_line_and_display_masks() {
    let mut ed = Editor::new(EditOpts { max_chars: 10, mask: true, normalize: false });
    let (_, _) = run(&mut ed, b"pw");
    assert_eq!(ed.display(), "**");
    let (echo, _) = run(&mut ed, b"\x15");
    assert_eq!(echo, b"\x08 \x08\x08 \x08");
    assert_eq!(ed.display(), "");
    let mut ed = Editor::new(EditOpts::default());
    run(&mut ed, "日本".as_bytes());
    assert_eq!(ed.display(), "日本");
}

#[test]
fn invalid_utf8_is_dropped() {
    let mut ed = Editor::new(EditOpts::default());
    let (_, l) = run(&mut ed, &[0xff, b'a', 0xe3, 0x81, b'b', b'\r']);
    assert_eq!(l, vec!["a"]);
}

#[test]
fn typed_ahead_bytes_wait_for_the_next_line() {
    let mut ed = Editor::new(EditOpts::default());
    let pending = b"ab\rcd\r".to_vec();
    let (echo, line, used) = take_line(&mut ed, &pending);
    assert_eq!(echo, b"ab\r\n");
    assert_eq!(line.as_deref(), Some("ab"));
    assert_eq!(used, 3);
    let (_, line, used) = take_line(&mut ed, &pending[3..]);
    assert_eq!(line.as_deref(), Some("cd"));
    assert_eq!(used, 3);
    let (echo, line, used) = take_line(&mut ed, b"x");
    assert_eq!((echo, line, used), (b"x".to_vec(), None, 1));
}

#[test]
fn normalized_line_has_no_fullwidth_form() {
    let mut ed = Editor::new(EditOpts { max_chars: 40, mask: false, normalize: true });
    let (_, l) = run(&mut ed, "Ａ　ｚ！～０あ\r".as_bytes());
    assert_eq!(l, vec!["A z!~0あ".to_string()]);
    assert!(l[0].chars().all(|c| c != '\u{3000}' && !('\u{FF01}'..='\u{FF5E}').contains(&c)));
}
