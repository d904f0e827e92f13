use null_bbs::session::files::{choose_protocol, files_command, name_candidate, safe_name, upload_limit, FilesCmd, Protocol};

#[test]
fn names() {
    assert_eq!(safe_name("../../etc/passwd").as_deref(), Some("passwd"));
    assert_eq!(safe_name("C:\\a\\b.txt").as_deref(), Some("b.txt"));
    assert_eq!(safe_name(".hidden"), None);
    // a name that is taken gets a number before its extension
    assert_eq!(name_candidate("a.txt", 1), "a_1.txt");
    assert_eq!(name_candidate("b.txt", 0), "b.txt");
}

#[test]
fn more_names() {
    assert_eq!(safe_name("dir/"), None);
    assert_eq!(safe_name(" x\u{7}y.bin "), Some("xy.bin".into()));
    assert_eq!(safe_name(".."), None);
    assert_eq!(name_candidate(".profile", 2), ".profile_2");
    assert_eq!(name_candidate("noext", 10), "noext_10");
    assert_eq!(name_candidate("a.tar.gz", 3), "a.tar_3.gz");
}

#[test]
fn protocols_and_commands() {
    assert_eq!(choose_protocol(""), Some(Protocol::Ymodem));
    assert_eq!(choose_protocol("x"), Some(Protocol::Xmodem));
    assert_eq!(choose_protocol("1k"), Some(Protocol::Xmodem1k));
    assert_eq!(choose_protocol("q"), None);
    assert_eq!(files_command("d 2", 3), FilesCmd::Download(Some(1)));
    assert_eq!(files_command("d 4", 3), FilesCmd::Download(None));
    assert_eq!(files_command("3", 3), FilesCmd::Numbered(Some(2)));
    assert_eq!(files_command("0", 3), FilesCmd::Numbered(None));
    assert_eq!(files_command("del 1", 3), FilesCmd::Delete(Some(0)));
    assert_eq!(files_command("", 3), FilesCmd::Back);
    assert_eq!(files_command("zz", 3), FilesCmd::Unknown);
    assert_eq!(upload_limit(4096), 4 * 1024 * 1024);
}
