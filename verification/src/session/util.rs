//! Small helpers for sessions: display widths, padding, command splitting,
//! the banner and elapsed times.

use vstd::prelude::*;
use chrono::{Datelike, Local, TimeZone, Timelike};
use crate::text::{
    decimal, decimal2, push_decimal, push_decimal2,
    chars_of, first_ws, is_ascii_alpha, is_ascii_digit, push_char, push_chars, push_repeat, repeat,
    trim, trim_range, lemma_trim_idempotent, find_ws,
    all_ascii, ascii_upper, ascii_upper_char, is_ascii_char, lemma_ascii_upper_char, lemma_trim_upper,
    lemma_first_ws_upper, lemma_trim_ascii, lemma_trim_within, lemma_trim_ends,
};

verus! {

/// The display width that `unicode_width` gives a character of U+00A0 or
/// above (its East Asian Width tables).
pub uninterp spec fn uw_char_width(c: char) -> Option<usize>;

/// The display width that `unicode_width` gives a string.
pub uninterp spec fn uw_str_width(s: Seq<char>) -> usize;

/// `UnicodeWidthChar::width`: `None` exactly for the control codes below
/// U+0020 and from U+007F to U+009F, 1 for the rest of ASCII; what it gives
/// other characters is left to the crate's tables.
#[verifier::external_body]
pub(crate) fn char_width(c: char) -> (r: Option<usize>)
    ensures
        r == uw_char_width(c),
        r is None <==> (c < ' ' || ('\u{7f}' <= c && c < '\u{a0}')),
        (' ' <= c && c < '\u{7f}') ==> r == Some(1usize),
{
    unicode_width::UnicodeWidthChar::width(c)
}

/// Display width of `s` (a full-width character counts 2). This is
/// `UnicodeWidthStr::width`, whose value for a string is left to the crate
/// (it is not always the sum of the widths of the characters).
#[verifier::external_body]
pub fn width(s: &str) -> (r: usize)
    ensures
        r == uw_str_width(s@),
{
    unicode_width::UnicodeWidthStr::width(s)
}

/// The width of a character as `pad` counts it: 0 for a control code.
pub open spec fn cell_width(c: char) -> nat {
    match uw_char_width(c) {
        Some(w) => w as nat,
        None => 0,
    }
}

/// The longest prefix of `s` that fits in `width` columns, taken character
/// by character until one does not fit, and the columns it takes.
pub open spec fn fit(s: Seq<char>, width: nat) -> (Seq<char>, nat)
    decreases s.len(),
{
    if s.len() == 0 || cell_width(s[0]) > width {
        (Seq::empty(), 0)
    } else {
        let rest = fit(s.drop_first(), (width - cell_width(s[0])) as nat);
        (seq![s[0]] + rest.0, cell_width(s[0]) + rest.1)
    }
}

pub proof fn lemma_fit_bound(s: Seq<char>, width: nat)
    ensures
        fit(s, width).1 <= width,
    decreases s.len(),
{
    if s.len() > 0 && cell_width(s[0]) <= width {
        lemma_fit_bound(s.drop_first(), (width - cell_width(s[0])) as nat);
    }
}

/// `s` cut or padded with spaces to exactly `width` columns.
pub open spec fn padded(s: Seq<char>, width: nat) -> Seq<char> {
    fit(s, width).0 + repeat(' ', (width - fit(s, width).1) as nat)
}

/// Pads `s` on the right with spaces to `width` columns (a full-width
/// character counts 2); a longer `s` is cut.
pub fn pad(s: &str, width: usize) -> (r: String)
    ensures
        r@ == padded(s@, width as nat),
{
    let v = chars_of(s);
    let mut out = String::new();
    let mut w: usize = 0;
    let mut i: usize = 0;
    proof {
        assert(v@.skip(0) == v@);
        assert(v@.take(0) + fit(v@, width as nat).0 == fit(v@, width as nat).0);
    }
    let mut stop = false;
    while i < v.len() && !stop
        invariant
            i <= v.len(),
            w <= width,
            out@ == v@.take(i as int),
            fit(v@, width as nat).0 == v@.take(i as int) + fit(v@.skip(i as int), (width - w) as nat).0,
            fit(v@, width as nat).1 == w + fit(v@.skip(i as int), (width - w) as nat).1,
            stop ==> (i < v.len() && cell_width(v@[i as int]) > width - w),
        decreases v.len() - i + (if stop { 0int } else { 1int }),
    {
        let c = v[i];
        let cw: usize = match char_width(c) {
            Some(x) => x,
            None => 0,
        };
        let ghost rest = v@.skip(i as int);
        assert(rest[0] == c);
        if cw > width - w {
            stop = true;
        } else {
            assert(rest.drop_first() == v@.skip(i + 1));
            assert(v@.take(i + 1) == v@.take(i as int) + seq![c]);
            push_char(&mut out, c);
            w = w + cw;
            i = i + 1;
        }
    }
    proof {
        if stop {
            assert(v@.skip(i as int)[0] == v@[i as int]);
        } else {
            assert(v@.skip(i as int) == Seq::<char>::empty());
        }
        assert(v@.take(i as int) + Seq::<char>::empty() == v@.take(i as int));
    }
    proof {
        lemma_fit_bound(v@, width as nat);
    }
    push_repeat(&mut out, ' ', width - w);
    out
}

/// The index of the first ASCII digit of `s`, if any.
pub open spec fn first_digit(s: Seq<char>) -> Option<int>
    decreases s.len(),
{
    if s.len() == 0 {
        None
    } else if is_ascii_digit(s[0]) {
        Some(0)
    } else {
        match first_digit(s.drop_first()) {
            Some(i) => Some(i + 1),
            None => None,
        }
    }
}

/// What `str::to_uppercase` gives (full Unicode case mapping).
pub uninterp spec fn unicode_upper(s: Seq<char>) -> Seq<char>;

/// `str::to_uppercase`. Claimed besides its name: on an all-ASCII string
/// it upper-cases the ASCII letters and keeps every other character, as
/// the Unicode case mapping does for ASCII (std documents
/// `to_ascii_uppercase` as the same mapping restricted to ASCII).
#[verifier::external_body]
pub(crate) fn to_uppercase(s: &str) -> (r: String)
    ensures
        r@ == unicode_upper(s@),
        all_ascii(s@) ==> r@ == ascii_upper(s@),
{
    s.to_uppercase()
}

/// "command argument" as `split_cmd` reads it: the command in upper case,
/// then the argument.
pub open spec fn command_parts(s: Seq<char>) -> (Seq<char>, Seq<char>) {
    let t = trim(s);
    match first_ws(t) {
        Some(i) => (unicode_upper(t.take(i)), trim(t.skip(i + 1))),
        None => match first_digit(t) {
            Some(j) => if j > 0 && (forall|k: int| 0 <= k < j ==> is_ascii_alpha(#[trigger] t[k])) {
                (unicode_upper(t.take(j)), t.skip(j))
            } else {
                (unicode_upper(t), Seq::empty())
            },
            None => (unicode_upper(t), Seq::empty()),
        },
    }
}

/// A command word in upper case: ASCII letters by ASCII rules (which is
/// what `str::to_uppercase` does to them), other text by Unicode's.
pub open spec fn upper_word(w: Seq<char>) -> Seq<char> {
    if all_ascii(w) { ascii_upper(w) } else { unicode_upper(w) }
}

/// `command_parts` with the command word put in upper case as
/// `upper_word` says.
pub open spec fn command_words(s: Seq<char>) -> (Seq<char>, Seq<char>) {
    let t = trim(s);
    match first_ws(t) {
        Some(i) => (upper_word(t.take(i)), trim(t.skip(i + 1))),
        None => match first_digit(t) {
            Some(j) => if j > 0 && (forall|k: int| 0 <= k < j ==> is_ascii_alpha(#[trigger] t[k])) {
                (upper_word(t.take(j)), t.skip(j))
            } else {
                (upper_word(t), Seq::empty())
            },
            None => (upper_word(t), Seq::empty()),
        },
    }
}

proof fn lemma_first_digit_upper(s: Seq<char>)
    ensures
        first_digit(ascii_upper(s)) == first_digit(s),
    decreases s.len(),
{
    if s.len() > 0 {
        lemma_ascii_upper_char(s[0]);
        assert(ascii_upper(s)[0] == ascii_upper_char(s[0]));
        assert(ascii_upper(s).drop_first() == ascii_upper(s.drop_first()));
        lemma_first_digit_upper(s.drop_first());
    }
}

proof fn lemma_upper_word_upper(w: Seq<char>)
    requires
        all_ascii(w),
    ensures
        all_ascii(ascii_upper(w)),
        upper_word(ascii_upper(w)) == upper_word(w),
{
    assert forall|i: int| 0 <= i < w.len() implies is_ascii_char(#[trigger] ascii_upper(w)[i]) by {
        lemma_ascii_upper_char(w[i]);
    }
    assert forall|i: int| 0 <= i < w.len() implies #[trigger] ascii_upper(ascii_upper(w))[i] == ascii_upper(w)[i] by {
        lemma_ascii_upper_char(w[i]);
    }
    assert(ascii_upper(ascii_upper(w)) == ascii_upper(w));
}

proof fn lemma_all_ascii_sub(w: Seq<char>, a: int, b: int)
    requires
        all_ascii(w),
        0 <= a <= b <= w.len(),
    ensures
        all_ascii(w.subrange(a, b)),
{
    assert forall|i: int| 0 <= i < b - a implies is_ascii_char(#[trigger] w.subrange(a, b)[i]) by {
        assert(w.subrange(a, b)[i] == w[a + i]);
    }
}

/// The case of the letters typed does not matter to the command word: on
/// an ASCII line, upper-casing the whole line gives the same command word,
/// and the argument only upper-cased.
pub proof fn lemma_command_case(s: Seq<char>)
    requires
        all_ascii(s),
    ensures
        command_words(ascii_upper(s)).0 == command_words(s).0,
        command_words(ascii_upper(s)).1 == ascii_upper(command_words(s).1),
{
    let t = trim(s);
    let u = ascii_upper(t);
    lemma_trim_upper(s);
    lemma_trim_ascii(s);
    lemma_first_ws_upper(t);
    lemma_first_digit_upper(t);
    match first_ws(t) {
        Some(i) => {
            lemma_first_ws_index(t);
            assert(u.take(i) == ascii_upper(t.take(i)));
            assert(u.skip(i + 1) == ascii_upper(t.skip(i + 1)));
            lemma_all_ascii_sub(t, 0, i);
            assert(t.take(i) == t.subrange(0, i));
            lemma_upper_word_upper(t.take(i));
            lemma_trim_upper(t.skip(i + 1));
        },
        None => match first_digit(t) {
            Some(j) => {
                lemma_first_digit_index(t);
                assert forall|k: int| 0 <= k < j implies is_ascii_alpha(#[trigger] u[k]) == is_ascii_alpha(t[k]) by {
                    lemma_ascii_upper_char(t[k]);
                }
                assert(u.take(j) == ascii_upper(t.take(j)));
                assert(u.skip(j) == ascii_upper(t.skip(j)));
                lemma_all_ascii_sub(t, 0, j);
                assert(t.take(j) == t.subrange(0, j));
                lemma_upper_word_upper(t.take(j));
                lemma_upper_word_upper(t);
                if j > 0 && (forall|k: int| 0 <= k < j ==> is_ascii_alpha(#[trigger] t[k])) {
                    assert(forall|k: int| 0 <= k < j ==> is_ascii_alpha(#[trigger] u[k]));
                } else if j > 0 {
                    let k0 = choose|k: int| 0 <= k < j && !is_ascii_alpha(#[trigger] t[k]);
                    assert(!is_ascii_alpha(u[k0]));
                }
                assert(ascii_upper(Seq::<char>::empty()) == Seq::<char>::empty());
            },
            None => {
                lemma_upper_word_upper(t);
                assert(ascii_upper(Seq::<char>::empty()) == Seq::<char>::empty());
            },
        },
    }
}

proof fn lemma_first_ws_index(s: Seq<char>)
    ensures
        first_ws(s) matches Some(i) ==> 0 <= i < s.len(),
    decreases s.len(),
{
    if s.len() > 0 {
        lemma_first_ws_index(s.drop_first());
    }
}

proof fn lemma_first_digit_index(s: Seq<char>)
    ensures
        first_digit(s) matches Some(i) ==> 0 <= i < s.len(),
    decreases s.len(),
{
    if s.len() > 0 {
        lemma_first_digit_index(s.drop_first());
    }
}

/// A line of one ASCII character (white space around it aside) is that
/// character, upper-cased, as the command, with no argument.
pub proof fn lemma_one_char_command(s: Seq<char>)
    requires
        trim(s).len() == 1,
        is_ascii_char(trim(s)[0]),
    ensures
        command_words(s) == (seq![ascii_upper_char(trim(s)[0])], Seq::<char>::empty()),
{
    let t = trim(s);
    lemma_trim_within(s);
    lemma_trim_ends(s);
    assert(t.drop_first() == Seq::<char>::empty());
    assert(first_ws(t.drop_first()) is None);
    assert(first_ws(t) is None);
    assert(first_digit(t.drop_first()) is None);
    assert(first_digit(t) is None || first_digit(t) == Some(0int));
    assert(s.contains(t[0]));
    assert(all_ascii(t));
    assert(ascii_upper(t) == seq![ascii_upper_char(t[0])]);
}

fn find_digit(v: &Vec<char>, from: usize, to: usize) -> (r: Option<usize>)
    requires
        from <= to <= v.len(),
    ensures
        r matches Some(k) ==> from <= k < to && first_digit(v@.subrange(from as int, to as int)) == Some(k - from),
        r is None ==> first_digit(v@.subrange(from as int, to as int)) is None,
{
    let mut i = from;
    while i < to
        invariant
            from <= i <= to <= v.len(),
            first_digit(v@.subrange(from as int, to as int)) == match first_digit(v@.subrange(i as int, to as int)) {
                Some(k) => Some(k + i - from),
                None => None::<int>,
            },
        decreases to - i,
    {
        if '0' <= v[i] && v[i] <= '9' {
            assert(v@.subrange(i as int, to as int)[0] == v@[i as int]);
            return Some(i);
        }
        assert(v@.subrange(i as int, to as int).drop_first() == v@.subrange(i + 1, to as int));
        i = i + 1;
    }
    None
}

fn upper_of(v: &Vec<char>, from: usize, to: usize) -> (r: String)
    requires
        from <= to <= v.len(),
    ensures
        r@ == unicode_upper(v@.subrange(from as int, to as int)),
        r@ == upper_word(v@.subrange(from as int, to as int)),
{
    let mut s = String::new();
    push_chars(&mut s, v, from, to);
    to_uppercase(s.as_str())
}

/// Splitting a command reads only its trimmed form: `split_cmd(s)` and
/// `split_cmd(s.trim())` agree.
pub proof fn lemma_split_cmd_trimmed(s: Seq<char>)
    ensures
        command_parts(trim(s)) == command_parts(s),
{
    lemma_trim_idempotent(s);
}

/// Splits "command argument"; the command is put in upper case. A number
/// written straight after letters ("R12") is taken as the argument.
pub fn split_cmd(s: &str) -> (r: (String, String))
    ensures
        r.0@ == command_parts(s@).0,
        r.1@ == command_parts(s@).1,
        r.0@ == command_words(s@).0,
        r.1@ == command_words(s@).1,
{
    let all = chars_of(s);
    let (a, b) = trim_range(&all);
    let mut t: Vec<char> = Vec::new();
    let mut i = a;
    while i < b
        invariant
            a <= i <= b <= all.len(),
            t@ == all@.subrange(a as int, i as int),
        decreases b - i,
    {
        t.push(all[i]);
        assert(all@.subrange(a as int, i + 1) == all@.subrange(a as int, i as int).push(all@[i as int]));
        i = i + 1;
    }
    let ghost tt = trim(s@);
    assert(t@ == tt);
    assert(t@.subrange(0, t.len() as int) == t@);
    match find_ws(&t) {
        Some(k) => {
            let cmd = upper_of(&t, 0, k);
            let (x, y) = trim_range_of(&t, k + 1, t.len());
            let mut rest = String::new();
            push_chars(&mut rest, &t, x, y);
            assert(t@.take(k as int) == t@.subrange(0, k as int));
            assert(t@.skip(k + 1) == t@.subrange(k + 1, t.len() as int));
            assert(first_ws(tt) == Some(k as int));
            (cmd, rest)
        },
        None => {
            match find_digit(&t, 0, t.len()) {
                Some(j) => {
                    let mut all_alpha = true;
                    let mut q: usize = 0;
                    while q < j
                        invariant
                            q <= j < t.len(),
                            all_alpha == (forall|k: int| 0 <= k < q ==> is_ascii_alpha(#[trigger] t@[k])),
                        decreases j - q,
                    {
                        let c = t[q];
                        if !(('A' <= c && c <= 'Z') || ('a' <= c && c <= 'z')) {
                            all_alpha = false;
                        }
                        q = q + 1;
                    }
                    if j > 0 && all_alpha {
                        let cmd = upper_of(&t, 0, j);
                        let mut rest = String::new();
                        push_chars(&mut rest, &t, j, t.len());
                        assert(t@.take(j as int) == t@.subrange(0, j as int));
                        assert(t@.skip(j as int) == t@.subrange(j as int, t.len() as int));
                        assert(first_ws(tt) is None);
                        assert(first_digit(tt) == Some(j as int));
                        (cmd, rest)
                    } else {
                        assert(first_ws(tt) is None);
                        assert(first_digit(tt) == Some(j as int));
                        (upper_of(&t, 0, t.len()), String::new())
                    }
                },
                None => {
                    assert(first_ws(tt) is None);
                    assert(first_digit(tt) is None);
                    (upper_of(&t, 0, t.len()), String::new())
                },
            }
        },
    }
}

/// `trim` of `v[from..to]`, as bounds inside `v`.
fn trim_range_of(v: &Vec<char>, from: usize, to: usize) -> (r: (usize, usize))
    requires
        from <= to <= v.len(),
    ensures
        from <= r.0 <= r.1 <= to,
        v@.subrange(r.0 as int, r.1 as int) == trim(v@.subrange(from as int, to as int)),
{
    let mut w: Vec<char> = Vec::new();
    let mut i = from;
    while i < to
        invariant
            from <= i <= to <= v.len(),
            w@ == v@.subrange(from as int, i as int),
        decreases to - i,
    {
        w.push(v[i]);
        assert(v@.subrange(from as int, i + 1) == v@.subrange(from as int, i as int).push(v@[i as int]));
        i = i + 1;
    }
    let (a, b) = trim_range(&w);
    assert(v@.subrange((from + a) as int, (from + b) as int) == w@.subrange(a as int, b as int));
    (from + a, from + b)
}

/// The banner shown when no banner file exists.
pub open spec fn banner_text(name: Seq<char>, w: nat) -> Seq<char> {
    let line = repeat('=', w + 8);
    "\n"@ + line + "\n    "@ + name + "\n"@ + line + "\nパソコン通信ホスト局へようこそ。\n\n"@
}

/// The standard banner: the BBS name between two rules of `=` as wide as
/// the name plus 8 columns.
pub fn default_banner(name: &str) -> (r: String)
    requires
        uw_str_width(name@) + 8 <= usize::MAX,
    ensures
        r@ == banner_text(name@, uw_str_width(name@) as nat),
{
    let n = width(name) + 8;
    let mut s = String::new();
    s.append("\n");
    push_repeat(&mut s, '=', n);
    s.append("\n    ");
    s.append(name);
    s.append("\n");
    push_repeat(&mut s, '=', n);
    s.append("\nパソコン通信ホスト局へようこそ。\n\n");
    s
}

/// The standard banner, when the name's width leaves room for the rules
/// (it always does on a real name); nothing otherwise.
pub fn banner(name: &str) -> (r: Option<String>)
    ensures
        uw_str_width(name@) + 8 <= usize::MAX ==> (r matches Some(b) && b@ == banner_text(name@, uw_str_width(name@) as nat)),
        uw_str_width(name@) + 8 > usize::MAX ==> r is None,
{
    if width(name) <= usize::MAX - 8 {
        Some(default_banner(name))
    } else {
        None
    }
}

/// An elapsed time as "h:mm:ss", or "mm:ss" under an hour; a negative time
/// counts as 0.
pub open spec fn elapsed_text(secs: int) -> Seq<char> {
    let t: nat = if secs < 0 { 0 } else { secs as nat };
    let h = t / 3600;
    let m = (t / 60) % 60;
    let s = t % 60;
    if h > 0 {
        decimal(h) + seq![':'] + decimal2(m) + seq![':'] + decimal2(s)
    } else {
        decimal2(m) + seq![':'] + decimal2(s)
    }
}

/// Formats an elapsed time as "1:23:45" or "12:34".
pub fn fmt_elapsed(secs: i64) -> (r: String)
    ensures
        r@ == elapsed_text(secs as int),
{
    let t: u64 = if secs < 0 { 0 } else { secs as u64 };
    let (h, m, sec) = (t / 3600, t / 60 % 60, t % 60);
    let mut out = String::new();
    if h > 0 {
        push_decimal(&mut out, h);
        push_char(&mut out, ':');
        push_decimal2(&mut out, m);
        push_char(&mut out, ':');
        push_decimal2(&mut out, sec);
        assert(out@ == decimal(h as nat) + seq![':'] + decimal2(m as nat) + seq![':'] + decimal2(sec as nat));
    } else {
        push_decimal2(&mut out, m);
        push_char(&mut out, ':');
        push_decimal2(&mut out, sec);
        assert(out@ == decimal2(m as nat) + seq![':'] + decimal2(sec as nat));
    }
    out
}

/// A point in time as the local clock shows it.
#[derive(Debug, Clone, Copy)]
pub struct LocalTime {
    pub year: i32,
    pub month: u32,
    pub day: u32,
    pub hour: u32,
    pub minute: u32,
}

/// The fields of a valid local time.
pub open spec fn valid_time(t: LocalTime) -> bool {
    &&& 1 <= t.month <= 12
    &&& 1 <= t.day <= 31
    &&& t.hour <= 23
    &&& t.minute <= 59
}

/// UNIX seconds well inside the dates chrono can hold (the years -262143
/// to 262142): within 8 * 10^12 seconds, about 253,000 years, of 1970.
pub open spec fn in_time_range(ts: int) -> bool {
    -8_000_000_000_000 <= ts <= 8_000_000_000_000
}

/// Calls `TimeZone::timestamp_opt` on `chrono::Local` with the UNIX
/// seconds `ts` (and no nanoseconds), takes the single result, and reads
/// its calendar fields. Claimed: the fields are those of a valid date and
/// time; and there is a result for every `ts` in `in_time_range`, since
/// `timestamp_opt` gives `Single` whenever `DateTime::from_timestamp`
/// accepts the seconds, which it does for every day of chrono's date range.
/// Not claimed: which fields they are, since that rests on the machine's
/// time zone; nor exactly where chrono's range ends.
#[verifier::external_body]
fn local_time(ts: i64) -> (r: Option<LocalTime>)
    ensures
        r matches Some(t) ==> valid_time(t),
        in_time_range(ts as int) ==> r is Some,
{
    match Local.timestamp_opt(ts, 0).single() {
        Some(t) => Some(LocalTime { year: t.year(), month: t.month(), day: t.day(), hour: t.hour(), minute: t.minute() }),
        None => None,
    }
}

/// `n` padded with zeros to at least four digits.
pub open spec fn decimal4(n: nat) -> Seq<char> {
    if n < 10 {
        "000"@ + decimal(n)
    } else if n < 100 {
        "00"@ + decimal(n)
    } else if n < 1000 {
        "0"@ + decimal(n)
    } else {
        decimal(n)
    }
}

/// A year as chrono's `%Y` writes it: four digits from 0 to 9999, else a
/// sign and at least four digits.
pub open spec fn year_text(y: int) -> Seq<char> {
    if 0 <= y < 10000 {
        decimal4(y as nat)
    } else if y < 0 {
        "-"@ + decimal4((-y) as nat)
    } else {
        "+"@ + decimal4(y as nat)
    }
}

fn push_decimal4(s: &mut String, n: u64)
    ensures
        final(s)@ == old(s)@ + decimal4(n as nat),
{
    if n < 10 {
        s.append("000");
    } else if n < 100 {
        s.append("00");
    } else if n < 1000 {
        s.append("0");
    }
    push_decimal(s, n);
    proof { reveal_strlit("000"); reveal_strlit("00"); reveal_strlit("0"); }
}

/// `%m/%d %H:%M`.
pub open spec fn short_time_text(t: LocalTime) -> Seq<char> {
    decimal2(t.month as nat) + "/"@ + decimal2(t.day as nat) + " "@ + decimal2(t.hour as nat) + ":"@
        + decimal2(t.minute as nat)
}

/// `%Y/%m/%d %H:%M`.
pub open spec fn time_text(t: LocalTime) -> Seq<char> {
    year_text(t.year as int) + "/"@ + short_time_text(t)
}

/// A local time as "09/25 14:10".
pub fn format_short(t: &LocalTime) -> (r: String)
    ensures
        r@ == short_time_text(*t),
{
    let mut s = String::new();
    push_decimal2(&mut s, t.month as u64);
    s.append("/");
    push_decimal2(&mut s, t.day as u64);
    s.append(" ");
    push_decimal2(&mut s, t.hour as u64);
    s.append(":");
    push_decimal2(&mut s, t.minute as u64);
    s
}

/// A local time as "2026/09/25 14:10".
pub fn format_time(t: &LocalTime) -> (r: String)
    ensures
        r@ == time_text(*t),
{
    let mut s = String::new();
    let y = t.year;
    if 0 <= y && y < 10000 {
        push_decimal4(&mut s, y as u64);
    } else if y < 0 {
        s.append("-");
        let a: u64 = (-(y as i64)) as u64;
        push_decimal4(&mut s, a);
    } else {
        s.append("+");
        push_decimal4(&mut s, y as u64);
    }
    s.append("/");
    let rest = format_short(t);
    s.append(rest.as_str());
    s
}

/// UNIX seconds as the local "2026/09/25 14:10", or nothing when the time
/// cannot be shown; a time within `in_time_range` is always shown.
pub fn fmt_time(ts: i64) -> (r: String)
    ensures
        r@.len() == 0 || exists|t: LocalTime| valid_time(t) && r@ == time_text(t),
        in_time_range(ts as int) ==> exists|t: LocalTime| valid_time(t) && r@ == time_text(t),
{
    match local_time(ts) {
        Some(t) => format_time(&t),
        None => String::new(),
    }
}

/// UNIX seconds as the local "09/25 14:10", or nothing when the time cannot
/// be shown; a time within `in_time_range` is always shown.
pub fn fmt_short(ts: i64) -> (r: String)
    ensures
        r@.len() == 0 || exists|t: LocalTime| valid_time(t) && r@ == short_time_text(t),
        in_time_range(ts as int) ==> exists|t: LocalTime| valid_time(t) && r@ == short_time_text(t),
{
    match local_time(ts) {
        Some(t) => format_short(&t),
        None => String::new(),
    }
}

} // verus!
