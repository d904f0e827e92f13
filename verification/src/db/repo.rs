//! Records of the users, boards, posts, mail, access log and file library,
//! and the rules on member numbers.

use vstd::prelude::*;
use crate::text::{chars_of, chars_eq_ignore_ascii_case, eq_ignore_ascii_case};

verus! {

pub const LEVEL_GUEST: i64 = 0;
pub const LEVEL_MEMBER: i64 = 10;
pub const LEVEL_SYSOP: i64 = 100;

/// Member numbers: 0 is the guest, 1 the SYSOP, 2 to 9 are reserved, and
/// members count from 10.
pub const GUEST_ID: i64 = 0;
pub const SYSOP_ID: i64 = 1;
pub const FIRST_MEMBER_ID: i64 = 10;

#[derive(Debug, Clone)]
pub struct User {
    pub id: i64,
    pub login: String,
    pub handle: String,
    pub pw_hash: String,
    pub level: i64,
    pub banned: bool,
    pub screen_rows: i64,
    pub profile: String,
    pub created_at: i64,
    pub last_login_at: Option<i64>,
    pub login_count: i64,
}

impl User {
    pub fn is_guest(&self) -> (r: bool)
        ensures
            r == (self.level <= LEVEL_GUEST),
    {
        self.level <= LEVEL_GUEST
    }
}

#[derive(Debug, Clone)]
pub struct Board {
    pub id: i64,
    pub name: String,
    pub title: String,
    pub description: String,
    pub read_level: i64,
    pub write_level: i64,
    /// Posts on the board.
    pub count: i64,
    /// Posts the user has not read.
    pub unread: i64,
    pub last_seq: i64,
}

#[derive(Debug, Clone)]
pub struct Post {
    pub seq: i64,
    pub parent_seq: Option<i64>,
    pub author_login: String,
    pub author_handle: String,
    pub title: String,
    pub body: String,
    pub created_at: i64,
}

#[derive(Debug, Clone)]
pub struct Mail {
    pub id: i64,
    pub from_login: String,
    pub from_handle: String,
    pub subject: String,
    pub body: String,
    pub created_at: i64,
    pub read: bool,
}

#[derive(Debug, Clone)]
pub struct Access {
    pub login: String,
    pub handle: String,
    pub line_no: i64,
    pub line_kind: String,
    pub peer: String,
    pub login_at: i64,
    pub logout_at: Option<i64>,
    pub reason: Option<String>,
}

#[derive(Debug, Clone)]
pub struct FileEntry {
    pub id: i64,
    pub name: String,
    pub size: i64,
    pub description: String,
    pub uploader_login: String,
    pub uploader_handle: String,
    pub created_at: i64,
    pub downloads: i64,
}

/// The number a new user gets: a SYSOP gets 1 while no user has it; anyone
/// else the next number after the highest so far, and never below 10.
pub open spec fn new_user_id(level: i64, sysop_taken: bool, max_id: Option<i64>) -> int {
    if level >= LEVEL_SYSOP && !sysop_taken {
        SYSOP_ID as int
    } else {
        let m = match max_id { Some(m) => m as int, None => 0 };
        (if m > FIRST_MEMBER_ID - 1 { m } else { FIRST_MEMBER_ID - 1 }) + 1
    }
}

/// The number for a new user of `level`, given whether number 1 is taken
/// and the highest number so far; `None` when the next number would not
/// fit in an `i64`.
pub fn choose_user_id(level: i64, sysop_taken: bool, max_id: Option<i64>) -> (r: Option<i64>)
    ensures
        match r {
            Some(id) => id == new_user_id(level, sysop_taken, max_id),
            None => new_user_id(level, sysop_taken, max_id) > i64::MAX,
        },
{
    if level >= LEVEL_SYSOP && !sysop_taken {
        return Some(SYSOP_ID);
    }
    let m: i64 = match max_id {
        Some(m) => m,
        None => 0,
    };
    let base: i64 = if m > FIRST_MEMBER_ID - 1 { m } else { FIRST_MEMBER_ID - 1 };
    if base == i64::MAX {
        None
    } else {
        Some(base + 1)
    }
}

/// The level of a user who registers: the first member becomes the SYSOP.
pub fn registration_level(members: i64) -> (r: i64)
    ensures
        r == (if members == 0 { LEVEL_SYSOP } else { LEVEL_MEMBER }),
{
    if members == 0 { LEVEL_SYSOP } else { LEVEL_MEMBER }
}

/// The refusal of a login that is taken.
pub open spec fn login_taken_text(login: Seq<char>) -> Seq<char> {
    "ID "@ + login + " はすでに使われています"@
}

pub fn login_taken(login: &str) -> (r: String)
    ensures
        r@ == login_taken_text(login@),
{
    let mut m = String::from_str("ID ");
    m.append(login);
    m.append(" はすでに使われています");
    m
}

// ------------------------------------------------------------ renumbering

/// The guest's login, in any case.
pub open spec fn is_guest_login(login: Seq<char>) -> bool {
    eq_ignore_ascii_case(login, "GUEST"@)
}

/// The SYSOP who gets number 1: the lowest numbered user of SYSOP level
/// whose login is not the guest's.
pub open spec fn first_sysop(users: Seq<(i64, Seq<char>, i64)>) -> Option<i64>
    decreases users.len(),
{
    if users.len() == 0 {
        None
    } else {
        let rest = first_sysop(users.drop_last());
        let u = users.last();
        if u.2 >= LEVEL_SYSOP && !is_guest_login(u.1) {
            match rest {
                Some(m) => if u.0 < m { Some(u.0) } else { Some(m) },
                None => Some(u.0),
            }
        } else {
            rest
        }
    }
}

/// A user that gets a member number: neither the guest nor the first SYSOP.
pub open spec fn is_regular(u: (i64, Seq<char>, i64), sysop: Option<i64>) -> bool {
    !is_guest_login(u.1) && sysop != Some(u.0)
}

/// How many of `users` get member numbers.
pub open spec fn regular_count(users: Seq<(i64, Seq<char>, i64)>, sysop: Option<i64>) -> nat
    decreases users.len(),
{
    if users.len() == 0 {
        0
    } else {
        regular_count(users.drop_last(), sysop) + if is_regular(users.last(), sysop) { 1nat } else { 0nat }
    }
}

/// The new numbers of `users` (taken in order of their old numbers): the
/// guest 0, the first SYSOP 1, and the others 10, 11, ... in order.
pub open spec fn renumbered(users: Seq<(i64, Seq<char>, i64)>, sysop: Option<i64>) -> Seq<int>
    decreases users.len(),
{
    if users.len() == 0 {
        Seq::empty()
    } else {
        let u = users.last();
        let rest = users.drop_last();
        renumbered(rest, sysop).push(
            if is_guest_login(u.1) {
                GUEST_ID as int
            } else if sysop == Some(u.0) {
                SYSOP_ID as int
            } else {
                FIRST_MEMBER_ID + regular_count(rest, sysop)
            },
        )
    }
}

proof fn lemma_regular_count_bound(users: Seq<(i64, Seq<char>, i64)>, sysop: Option<i64>)
    ensures
        regular_count(users, sysop) <= users.len(),
    decreases users.len(),
{
    if users.len() > 0 {
        lemma_regular_count_bound(users.drop_last(), sysop);
    }
}

proof fn lemma_regular_count_grows(users: Seq<(i64, Seq<char>, i64)>, sysop: Option<i64>, i: int, j: int)
    requires
        0 <= i < j <= users.len(),
        is_regular(users[i], sysop),
    ensures
        regular_count(users.take(i), sysop) < regular_count(users.take(j), sysop),
    decreases j - i,
{
    assert(users.take(j).drop_last() == users.take(j - 1));
    assert(users.take(j).last() == users[j - 1]);
    if j - 1 > i {
        lemma_regular_count_grows(users, sysop, i, j - 1);
    } else {
        assert(users.take(i) == users.take(j - 1));
    }
}

proof fn lemma_renumbered_at(users: Seq<(i64, Seq<char>, i64)>, sysop: Option<i64>, i: int)
    requires
        0 <= i < users.len(),
    ensures
        renumbered(users, sysop).len() == users.len(),
        renumbered(users, sysop)[i] == renumbered(users.take(i + 1), sysop)[i],
        renumbered(users.take(i + 1), sysop)[i] == if is_guest_login(users[i].1) {
            GUEST_ID as int
        } else if sysop == Some(users[i].0) {
            SYSOP_ID as int
        } else {
            FIRST_MEMBER_ID + regular_count(users.take(i), sysop)
        },
    decreases users.len(),
{
    assert(users.take(i + 1).drop_last() == users.take(i));
    assert(users.take(i + 1).last() == users[i]);
    lemma_renumbered_len(users.take(i + 1), sysop);
    if i + 1 < users.len() {
        lemma_renumbered_at(users.drop_last(), sysop, i);
        assert(users.drop_last().take(i + 1) == users.take(i + 1));
        lemma_renumbered_len(users.drop_last(), sysop);
    } else {
        assert(users.take(i + 1) == users);
        lemma_renumbered_len(users, sysop);
    }
}

proof fn lemma_renumbered_len(users: Seq<(i64, Seq<char>, i64)>, sysop: Option<i64>)
    ensures
        renumbered(users, sysop).len() == users.len(),
    decreases users.len(),
{
    if users.len() > 0 {
        lemma_renumbered_len(users.drop_last(), sysop);
    }
}

/// Members keep their order when renumbered: of two members, the one that
/// comes first gets the lower number, so no two get the same one, and each
/// gets at least 10.
pub proof fn lemma_renumbered_members_ordered(users: Seq<(i64, Seq<char>, i64)>, i: int, j: int)
    requires
        0 <= i < j < users.len(),
        is_regular(users[i], first_sysop(users)),
        is_regular(users[j], first_sysop(users)),
    ensures
        FIRST_MEMBER_ID <= renumbered(users, first_sysop(users))[i] < renumbered(users, first_sysop(users))[j],
{
    let s = first_sysop(users);
    lemma_renumbered_at(users, s, i);
    lemma_renumbered_at(users, s, j);
    lemma_regular_count_grows(users, s, i, j);
}

fn is_guest_name(login: &String) -> (r: bool)
    ensures
        r == is_guest_login(login@),
{
    let g = chars_of("GUEST");
    proof { reveal_strlit("GUEST"); }
    chars_eq_ignore_ascii_case(&chars_of(login.as_str()), &g)
}

fn find_first_sysop(users: &Vec<(i64, String, i64)>) -> (r: Option<i64>)
    ensures
        r == first_sysop(users@.map_values(|u: (i64, String, i64)| (u.0, u.1@, u.2))),
{
    let ghost all = users@.map_values(|u: (i64, String, i64)| (u.0, u.1@, u.2));
    let mut best: Option<i64> = None;
    let mut i: usize = 0;
    while i < users.len()
        invariant
            i <= users@.len(),
            all == users@.map_values(|u: (i64, String, i64)| (u.0, u.1@, u.2)),
            best == first_sysop(all.take(i as int)),
        decreases users.len() - i,
    {
        assert(all.take(i + 1).drop_last() == all.take(i as int));
        assert(all.take(i + 1).last() == all[i as int]);
        let (id, login, level) = (users[i].0, &users[i].1, users[i].2);
        if level >= LEVEL_SYSOP && !is_guest_name(login) {
            best = match best {
                Some(m) => if id < m { Some(id) } else { Some(m) },
                None => Some(id),
            };
        }
        i = i + 1;
    }
    assert(all.take(users@.len() as int) == all);
    best
}

/// The new member numbers for renumbering an existing database: pairs of
/// old and new number, in the order given (by old number). The guest gets
/// 0, the lowest numbered SYSOP 1, and everyone else 10 onwards.
pub fn renumber_plan(users: &Vec<(i64, String, i64)>) -> (r: Vec<(i64, i64)>)
    requires
        users@.len() < i64::MAX - FIRST_MEMBER_ID,
    ensures
        r@.len() == users@.len(),
        forall|i: int| 0 <= i < r@.len() ==> (#[trigger] r@[i]).0 == users@[i].0
            && r@[i].1 == renumbered(users@.map_values(|u: (i64, String, i64)| (u.0, u.1@, u.2)),
                first_sysop(users@.map_values(|u: (i64, String, i64)| (u.0, u.1@, u.2))))[i],
{
    let ghost all = users@.map_values(|u: (i64, String, i64)| (u.0, u.1@, u.2));
    let sysop = find_first_sysop(users);
    let mut out: Vec<(i64, i64)> = Vec::new();
    let mut next: i64 = FIRST_MEMBER_ID;
    let mut i: usize = 0;
    while i < users.len()
        invariant
            i <= users@.len() < i64::MAX - FIRST_MEMBER_ID,
            all == users@.map_values(|u: (i64, String, i64)| (u.0, u.1@, u.2)),
            sysop == first_sysop(all),
            out@.len() == i,
            next == FIRST_MEMBER_ID + regular_count(all.take(i as int), sysop),
            forall|k: int| 0 <= k < i ==> (#[trigger] out@[k]).0 == users@[k].0
                && out@[k].1 == renumbered(all, sysop)[k],
        decreases users.len() - i,
    {
        proof {
            lemma_renumbered_at(all, sysop, i as int);
            lemma_regular_count_bound(all.take(i as int), sysop);
            assert(all.take(i + 1).drop_last() == all.take(i as int));
            assert(all.take(i + 1).last() == all[i as int]);
        }
        let (id, login) = (users[i].0, &users[i].1);
        let new = if is_guest_name(login) {
            GUEST_ID
        } else if sysop == Some(id) {
            SYSOP_ID
        } else {
            next = next + 1;
            next - 1
        };
        out.push((id, new));
        i = i + 1;
    }
    out
}

/// The temporary number a user has while the numbers are being changed:
/// below -999, so it meets no real number, and different for different new
/// numbers.
pub fn temporary_id(new: i64) -> (r: i64)
    requires
        0 <= new,
        new <= i64::MAX - 1000,
    ensures
        r == -new - 1000,
        r <= -1000,
{
    -new - 1000
}

} // verus!
