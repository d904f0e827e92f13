//! The file library: safe file names, names that do not clash, commands,
//! and the choice of transfer protocol.

use vstd::prelude::*;
use crate::text::{
    chars_of, decimal, is_control, is_control_char, push_chars, push_decimal, trim, trim_range,
};
use crate::session::util::{command_parts, split_cmd, to_uppercase, unicode_upper};
use crate::session::chat::eq_lit;
use crate::session::mail::{pick_index, picked};

verus! {

/// The index of the last `/` or `\` of `s`.
pub open spec fn last_separator(s: Seq<char>) -> Option<int>
    decreases s.len(),
{
    if s.len() == 0 {
        None
    } else if s.last() == '/' || s.last() == '\\' {
        Some(s.len() - 1)
    } else {
        last_separator(s.drop_last())
    }
}

/// What follows the last path separator.
pub open spec fn base_name(s: Seq<char>) -> Seq<char> {
    match last_separator(s) {
        Some(i) => s.skip(i + 1),
        None => s,
    }
}

/// A file name made safe: the part after the last path separator, without
/// white space at the ends or control characters; none when that is empty
/// or starts with a dot (so `.` and `..` too).
pub open spec fn safe_name_of(s: Seq<char>) -> Option<Seq<char>> {
    let b = trim(base_name(s)).filter(|c: char| !is_control_char(c));
    if b.len() > 0 && b[0] != '.' { Some(b) } else { None }
}

proof fn lemma_last_separator_range(s: Seq<char>)
    ensures
        last_separator(s) matches Some(i) ==> 0 <= i < s.len(),
    decreases s.len(),
{
    if s.len() > 0 {
        lemma_last_separator_range(s.drop_last());
    }
}

fn find_last_separator(v: &Vec<char>) -> (r: Option<usize>)
    ensures
        match last_separator(v@) {
            Some(i) => r == Some(i as usize),
            None => r is None,
        },
        r matches Some(i) ==> i < v@.len(),
{
    let mut i: usize = v.len();
    assert(v@.take(i as int) == v@);
    while i > 0
        invariant
            i <= v@.len(),
            last_separator(v@) == last_separator(v@.take(i as int)),
        decreases i,
    {
        let ghost t = v@.take(i as int);
        assert(t.last() == v@[i - 1]);
        assert(t.drop_last() == v@.take(i - 1));
        if v[i - 1] == '/' || v[i - 1] == '\\' {
            return Some(i - 1);
        }
        i = i - 1;
    }
    None
}

/// Strips a received file name down to a safe one.
pub fn safe_name(name: &str) -> (r: Option<String>)
    ensures
        match safe_name_of(name@) {
            Some(n) => r matches Some(s) && s@ == n,
            None => r is None,
        },
{
    let v = chars_of(name);
    let from: usize = match find_last_separator(&v) {
        Some(i) => {
            assert(i < v.len());
            i + 1
        },
        None => 0,
    };
    assert(v@ == name@);
    proof { lemma_last_separator_range(v@); }
    assert(v@.subrange(from as int, v@.len() as int) == base_name(name@)) by {
        assert(v@.subrange(from as int, v@.len() as int) == v@.skip(from as int));
        if from == 0 {
            assert(v@.skip(0) == v@);
        }
    }
    let mut base: Vec<char> = Vec::new();
    let mut i: usize = from;
    while i < v.len()
        invariant
            from <= i <= v@.len(),
            base@ == v@.subrange(from as int, i as int),
        decreases v.len() - i,
    {
        base.push(v[i]);
        assert(v@.subrange(from as int, i + 1) == v@.subrange(from as int, i as int).push(v@[i as int]));
        i = i + 1;
    }
    assert(base@ == base_name(name@));
    let (a, b) = trim_range(&base);
    let ghost t = base@.subrange(a as int, b as int);
    let mut out: Vec<char> = Vec::new();
    let mut j: usize = a;
    while j < b
        invariant
            a <= j <= b <= base@.len(),
            t == base@.subrange(a as int, b as int),
            out@ == base@.subrange(a as int, j as int).filter(|c: char| !is_control_char(c)),
        decreases b - j,
    {
        let ghost s = base@.subrange(a as int, j + 1);
        assert(s.drop_last() == base@.subrange(a as int, j as int));
        assert(s.last() == base@[j as int]);
        reveal_with_fuel(Seq::<_>::filter, 1);
        if !is_control(base[j]) {
            out.push(base[j]);
        }
        j = j + 1;
    }
    if out.len() == 0 || out[0] == '.' {
        return None;
    }
    Some(crate::text::string_of(&out))
}

/// The index of the last `.` of `s`.
pub open spec fn last_dot(s: Seq<char>) -> Option<int>
    decreases s.len(),
{
    if s.len() == 0 {
        None
    } else if s.last() == '.' {
        Some(s.len() - 1)
    } else {
        last_dot(s.drop_last())
    }
}

/// Where a name splits into stem and extension (the extension keeps its
/// dot): at the last dot, unless that is the first character.
pub open spec fn ext_start(s: Seq<char>) -> int {
    match last_dot(s) {
        Some(i) => if i > 0 { i } else { s.len() as int },
        None => s.len() as int,
    }
}

/// The `i`th name tried for a file called `name`: the name itself first,
/// then the stem with `_1`, `_2`, ... before the extension.
pub open spec fn candidate(name: Seq<char>, i: nat) -> Seq<char> {
    if i == 0 {
        name
    } else {
        let k = ext_start(name);
        name.take(k) + "_"@ + decimal(i) + name.skip(k)
    }
}

proof fn lemma_last_dot_range(s: Seq<char>)
    ensures
        last_dot(s) matches Some(i) ==> 0 <= i < s.len(),
    decreases s.len(),
{
    if s.len() > 0 {
        lemma_last_dot_range(s.drop_last());
    }
}

fn find_ext_start(v: &Vec<char>) -> (r: usize)
    ensures
        r == ext_start(v@),
        r <= v@.len(),
{
    proof { lemma_last_dot_range(v@); }
    let mut i: usize = v.len();
    assert(v@.take(i as int) == v@);
    while i > 0
        invariant
            i <= v@.len(),
            last_dot(v@) == last_dot(v@.take(i as int)),
        decreases i,
    {
        let ghost t = v@.take(i as int);
        assert(t.last() == v@[i - 1]);
        assert(t.drop_last() == v@.take(i - 1));
        if v[i - 1] == '.' {
            return if i - 1 > 0 { i - 1 } else { v.len() };
        }
        i = i - 1;
    }
    v.len()
}

/// The `i`th name tried for a file called `name`.
pub fn name_candidate(name: &str, i: u64) -> (r: String)
    ensures
        r@ == candidate(name@, i as nat),
{
    if i == 0 {
        return String::from_str(name);
    }
    let v = chars_of(name);
    let k = find_ext_start(&v);
    let mut s = String::new();
    push_chars(&mut s, &v, 0, k);
    s.append("_");
    push_decimal(&mut s, i);
    push_chars(&mut s, &v, k, v.len());
    assert(v@.subrange(0, k as int) == v@.take(k as int));
    assert(v@.subrange(k as int, v@.len() as int) == v@.skip(k as int));
    s
}

proof fn lemma_decimal_len(n: nat)
    ensures
        decimal(n).len() >= 1,
    decreases n,
{
    if n >= 10 {
        lemma_decimal_len(n / 10);
    }
}

proof fn lemma_digit_injective(x: nat, y: nat)
    requires
        x < 10,
        y < 10,
        crate::text::digit(x) == crate::text::digit(y),
    ensures
        x == y,
{
}

proof fn lemma_decimal_injective(a: nat, b: nat)
    requires
        decimal(a) == decimal(b),
    ensures
        a == b,
    decreases a,
{
    lemma_decimal_len(a / 10);
    lemma_decimal_len(b / 10);
    if a < 10 && b < 10 {
        assert(decimal(a) == seq![crate::text::digit(a)]);
        assert(decimal(b) == seq![crate::text::digit(b)]);
        assert(decimal(a)[0] == crate::text::digit(a));
        assert(decimal(b)[0] == crate::text::digit(b));
        lemma_digit_injective(a, b);
    } else if a >= 10 && b >= 10 {
        assert(decimal(a).drop_last() == decimal(a / 10));
        assert(decimal(b).drop_last() == decimal(b / 10));
        lemma_decimal_injective(a / 10, b / 10);
        assert(decimal(a) == decimal(a / 10).push(crate::text::digit(a % 10)));
        assert(decimal(b) == decimal(b / 10).push(crate::text::digit(b % 10)));
        assert(decimal(a).last() == crate::text::digit(a % 10));
        assert(decimal(b).last() == crate::text::digit(b % 10));
        lemma_digit_injective(a % 10, b % 10);
    } else if a < 10 {
        assert(decimal(a).len() == 1);
        assert(decimal(b).len() >= 2);
    } else {
        assert(decimal(b).len() == 1);
        assert(decimal(a).len() >= 2);
    }
}

/// No two tries give the same name, so looking for a name that is not
/// taken among finitely many files ends.
pub proof fn lemma_candidates_distinct(name: Seq<char>, i: nat, j: nat)
    requires
        i != j,
    ensures
        candidate(name, i) != candidate(name, j),
{
    lemma_last_dot_range(name);
    let k = ext_start(name);
    reveal_strlit("_");
    if i > 0 && j > 0 {
        lemma_decimal_len(i);
        lemma_decimal_len(j);
        if candidate(name, i) == candidate(name, j) {
            let ci = candidate(name, i);
            let di = decimal(i);
            let dj = decimal(j);
            assert(ci.len() == k + 1 + di.len() + (name.len() - k));
            assert(di.len() == dj.len());
            assert(ci.subrange(k + 1, k + 1 + di.len()) == di);
            assert(candidate(name, j).subrange(k + 1, k + 1 + dj.len()) == dj);
            lemma_decimal_injective(i, j);
        }
    } else {
        let n = if i == 0 { j } else { i };
        lemma_decimal_len(n);
        assert(candidate(name, n).len() > name.len());
    }
}

/// The transfer protocols.
#[derive(Debug, Clone, Copy, PartialEq, Eq, Structural)]
pub enum Protocol {
    Xmodem,
    Xmodem1k,
    Ymodem,
}

/// The protocol chosen by what was typed (in any case): `1`, `X`, `XMODEM`;
/// `2`, `1K`, `XMODEM-1K`; nothing, `3`, `Y`, `YMODEM`. Anything else gives
/// the transfer up.
pub open spec fn protocol_of(u: Seq<char>) -> Option<Protocol> {
    if u == "1"@ || u == "X"@ || u == "XMODEM"@ {
        Some(Protocol::Xmodem)
    } else if u == "2"@ || u == "1K"@ || u == "XMODEM-1K"@ {
        Some(Protocol::Xmodem1k)
    } else if u.len() == 0 || u == "3"@ || u == "Y"@ || u == "YMODEM"@ {
        Some(Protocol::Ymodem)
    } else {
        None
    }
}

pub fn choose_protocol(answer: &str) -> (r: Option<Protocol>)
    ensures
        r == protocol_of(unicode_upper(answer@)),
{
    let up = to_uppercase(answer);
    let u = chars_of(up.as_str());
    if eq_lit(&u, "1") || eq_lit(&u, "X") || eq_lit(&u, "XMODEM") {
        Some(Protocol::Xmodem)
    } else if eq_lit(&u, "2") || eq_lit(&u, "1K") || eq_lit(&u, "XMODEM-1K") {
        Some(Protocol::Xmodem1k)
    } else if u.len() == 0 || eq_lit(&u, "3") || eq_lit(&u, "Y") || eq_lit(&u, "YMODEM") {
        Some(Protocol::Ymodem)
    } else {
        None
    }
}

/// A command at the file library's prompt. The numbers are indexes in
/// the list shown, when the number typed names an entry.
#[derive(Debug, Clone, Copy, PartialEq, Eq, Structural)]
pub enum FilesCmd {
    Back,
    Logoff,
    List,
    Upload,
    /// `D n`, `DOWN n`.
    Download(Option<usize>),
    /// Just a number: download that file.
    Numbered(Option<usize>),
    /// `I n`, `INFO n`.
    Info(Option<usize>),
    /// `DEL n`.
    Delete(Option<usize>),
    Help,
    Unknown,
}

pub open spec fn files_cmd_of(c: Seq<char>, arg: Seq<char>, len: nat) -> FilesCmd {
    if c.len() == 0 || c == "Q"@ {
        FilesCmd::Back
    } else if c == "G"@ {
        FilesCmd::Logoff
    } else if c == "L"@ {
        FilesCmd::List
    } else if c == "U"@ || c == "UP"@ {
        FilesCmd::Upload
    } else if c == "D"@ || c == "DOWN"@ {
        FilesCmd::Download(picked(arg, len))
    } else if crate::text::parse_unsigned(c, usize::MAX as nat) is Some {
        FilesCmd::Numbered(picked(c, len))
    } else if c == "I"@ || c == "INFO"@ {
        FilesCmd::Info(picked(arg, len))
    } else if c == "DEL"@ {
        FilesCmd::Delete(picked(arg, len))
    } else if c == "?"@ {
        FilesCmd::Help
    } else {
        FilesCmd::Unknown
    }
}

/// Reads a command at the file library's prompt, with `len` files listed.
pub fn files_command(line: &str, len: usize) -> (r: FilesCmd)
    ensures
        r == files_cmd_of(command_parts(line@).0, command_parts(line@).1, len as nat),
{
    let (c, arg) = split_cmd(line);
    let cv = chars_of(c.as_str());
    if cv.len() == 0 || eq_lit(&cv, "Q") {
        FilesCmd::Back
    } else if eq_lit(&cv, "G") {
        FilesCmd::Logoff
    } else if eq_lit(&cv, "L") {
        FilesCmd::List
    } else if eq_lit(&cv, "U") || eq_lit(&cv, "UP") {
        FilesCmd::Upload
    } else if eq_lit(&cv, "D") || eq_lit(&cv, "DOWN") {
        FilesCmd::Download(pick_index(arg.as_str(), len))
    } else if crate::text::parse_usize(c.as_str()).is_some() {
        FilesCmd::Numbered(pick_index(c.as_str(), len))
    } else if eq_lit(&cv, "I") || eq_lit(&cv, "INFO") {
        FilesCmd::Info(pick_index(arg.as_str(), len))
    } else if eq_lit(&cv, "DEL") {
        FilesCmd::Delete(pick_index(arg.as_str(), len))
    } else if eq_lit(&cv, "?") {
        FilesCmd::Help
    } else {
        FilesCmd::Unknown
    }
}

/// The most bytes an upload may have.
pub fn upload_limit(max_upload_kb: u64) -> (r: u64)
    requires
        max_upload_kb * 1024 <= u64::MAX,
    ensures
        r == max_upload_kb * 1024,
{
    max_upload_kb * 1024
}

/// A safe name holds no path separator and no control character, is not
/// empty, and does not start with a dot.
pub proof fn lemma_safe_name_is_safe(s: Seq<char>)
    requires
        safe_name_of(s) is Some,
    ensures
        ({
            let n = safe_name_of(s).unwrap();
            &&& n.len() > 0
            &&& n[0] != '.'
            &&& forall|i: int| 0 <= i < n.len() ==> n[i] != '/' && n[i] != '\\' && !is_control_char(#[trigger] n[i])
        }),
{
    let b = base_name(s);
    lemma_base_has_no_separator(s);
    let t = trim(b);
    crate::text::lemma_trim_within(b);
    let n = t.filter(|c: char| !is_control_char(c));
    assert forall|i: int| 0 <= i < n.len() implies n[i] != '/' && n[i] != '\\' && !is_control_char(#[trigger] n[i]) by {
        lemma_filter_member(t, |c: char| !is_control_char(c), i);
        let j = choose|j: int| 0 <= j < t.len() && t[j] == n[i];
        assert(b.contains(t[j]));
        let k = choose|k: int| 0 <= k < b.len() && b[k] == t[j];
    }
}

proof fn lemma_filter_member(t: Seq<char>, f: spec_fn(char) -> bool, i: int)
    requires
        0 <= i < t.filter(f).len(),
    ensures
        f(t.filter(f)[i]),
        exists|j: int| 0 <= j < t.len() && t[j] == t.filter(f)[i],
{
    t.lemma_filter_pred(f, i);
    assert(t.filter(f).contains(t.filter(f)[i]));
    t.lemma_filter_contains_rev(f, t.filter(f)[i]);
}

proof fn lemma_base_has_no_separator(s: Seq<char>)
    ensures
        forall|i: int| 0 <= i < base_name(s).len() ==> base_name(s)[i] != '/' && base_name(s)[i] != '\\',
    decreases s.len(),
{
    lemma_last_separator_range(s);
    if s.len() > 0 {
        lemma_base_has_no_separator(s.drop_last());
        if s.last() != '/' && s.last() != '\\' {
            match last_separator(s.drop_last()) {
                Some(k) => {
                    lemma_last_separator_range(s.drop_last());
                    assert(base_name(s) == base_name(s.drop_last()).push(s.last()));
                },
                None => {
                    assert(base_name(s) == s);
                    assert(base_name(s.drop_last()) == s.drop_last());
                    assert(s == s.drop_last().push(s.last()));
                },
            }
        } else {
            assert(base_name(s).len() == 0);
        }
    }
}

} // verus!
