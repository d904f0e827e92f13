use null_bbs::db::repo::{
    choose_user_id, login_taken, registration_level, renumber_plan, temporary_id, User, FIRST_MEMBER_ID, GUEST_ID,
    LEVEL_GUEST, LEVEL_MEMBER, LEVEL_SYSOP, SYSOP_ID,
};

fn user(level: i64) -> User {
    User {
        id: 1,
        login: "u".into(),
        handle: "h".into(),
        pw_hash: "!".into(),
        level,
        banned: false,
        screen_rows: 24,
        profile: String::new(),
        created_at: 0,
        last_login_at: None,
        login_count: 0,
    }
}

#[test]
fn user_numbers() {
    // the guest has 0; a member is numbered from 10
    assert_eq!(choose_user_id(LEVEL_MEMBER, false, Some(GUEST_ID)), Some(10));
    // the first SYSOP gets 1 while it is free
    assert_eq!(choose_user_id(LEVEL_SYSOP, false, Some(10)), Some(SYSOP_ID));
    assert_eq!(choose_user_id(LEVEL_MEMBER, true, Some(10)), Some(11));
    // 1 is taken, so the next number
    assert_eq!(choose_user_id(LEVEL_SYSOP, true, Some(11)), Some(12));
    assert_eq!(choose_user_id(LEVEL_MEMBER, false, None), Some(FIRST_MEMBER_ID));
    assert_eq!(choose_user_id(LEVEL_MEMBER, false, Some(i64::MAX)), None);
}

#[test]
fn renumber_old_db() {
    // old numbering: guest 1, members 2 and 3 (3 is the SYSOP)
    let users = vec![(1, "GUEST".to_string(), 0), (2, "alice".to_string(), 10), (3, "root".to_string(), 100)];
    assert_eq!(renumber_plan(&users), vec![(1, 0), (2, 10), (3, 1)]);
}

#[test]
fn renumber_keeps_member_order() {
    let users = vec![
        (5, "bob".to_string(), 10),
        (6, "guest".to_string(), 0),
        (7, "boss".to_string(), 100),
        (8, "sub".to_string(), 100),
        (9, "carol".to_string(), 10),
    ];
    assert_eq!(renumber_plan(&users), vec![(5, 10), (6, 0), (7, 1), (8, 11), (9, 12)]);
    assert_eq!(temporary_id(12), -1012);
}

#[test]
fn guest_and_levels() {
    assert!(user(LEVEL_GUEST).is_guest());
    assert!(user(-1).is_guest());
    assert!(!user(LEVEL_MEMBER).is_guest());
    assert_eq!(registration_level(0), LEVEL_SYSOP);
    assert_eq!(registration_level(3), LEVEL_MEMBER);
    assert_eq!(login_taken("alice"), "ID alice はすでに使われています");
}
