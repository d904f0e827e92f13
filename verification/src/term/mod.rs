//! The user's terminal: line ends, session errors, interruptions of a
//! line being typed, paging, and the line editor.

use vstd::prelude::*;
use crate::hub::Notice;
use crate::text::push_char;
use crate::term::editor::{edit_step, EditorModel, Editor};

pub mod editor;

verus! {

/// Why a session ended.
#[derive(Debug)]
pub enum SessionError {
    Disconnected,
    IdleTimeout,
    TimeUp,
    Kicked(String),
    /// The user chose to leave.
    Logoff,
    Other(String),
}

impl SessionError {
    /// The reason written to the access log.
    pub open spec fn reason_text(&self) -> Seq<char> {
        match self {
            SessionError::Disconnected => "回線断"@,
            SessionError::IdleTimeout => "無操作"@,
            SessionError::TimeUp => "時間切れ"@,
            SessionError::Kicked(_) => "強制切断"@,
            SessionError::Logoff => "ログオフ"@,
            SessionError::Other(_) => "エラー"@,
        }
    }

    /// The reason written to the access log.
    pub fn reason(&self) -> (r: &'static str)
        ensures
            r@ == self.reason_text(),
    {
        match self {
            SessionError::Disconnected => "回線断",
            SessionError::IdleTimeout => "無操作",
            SessionError::TimeUp => "時間切れ",
            SessionError::Kicked(_) => "強制切断",
            SessionError::Logoff => "ログオフ",
            SessionError::Other(_) => "エラー",
        }
    }

    /// The message shown to the user.
    pub open spec fn message_text(&self) -> Seq<char> {
        match self {
            SessionError::Disconnected => "回線が切れました"@,
            SessionError::IdleTimeout => "無操作のため切断しました"@,
            SessionError::TimeUp => "接続時間の上限になりました"@,
            SessionError::Kicked(m) => m@,
            SessionError::Logoff => "ログオフ"@,
            SessionError::Other(m) => m@,
        }
    }

    /// The message shown to the user.
    pub fn message(&self) -> (r: String)
        ensures
            r@ == self.message_text(),
    {
        match self {
            SessionError::Disconnected => String::from_str("回線が切れました"),
            SessionError::IdleTimeout => String::from_str("無操作のため切断しました"),
            SessionError::TimeUp => String::from_str("接続時間の上限になりました"),
            SessionError::Kicked(m) => m.clone(),
            SessionError::Logoff => String::from_str("ログオフ"),
            SessionError::Other(m) => m.clone(),
        }
    }
}

/// Every CR LF folded to LF.
pub open spec fn fold_crlf(s: Seq<char>) -> Seq<char>
    decreases s.len(),
{
    if s.len() == 0 {
        Seq::empty()
    } else if s.len() >= 2 && s[0] == '\r' && s[1] == '\n' {
        seq!['\n'] + fold_crlf(s.skip(2))
    } else {
        seq![s[0]] + fold_crlf(s.drop_first())
    }
}

/// Every LF written as CR LF.
pub open spec fn expand_lf(s: Seq<char>) -> Seq<char>
    decreases s.len(),
{
    if s.len() == 0 {
        Seq::empty()
    } else {
        (if s[0] == '\n' { seq!['\r', '\n'] } else { seq![s[0]] }) + expand_lf(s.drop_first())
    }
}

/// Line ends made CR LF: CR LF and LF alike become CR LF.
pub open spec fn crlf_text(s: Seq<char>) -> Seq<char> {
    expand_lf(fold_crlf(s))
}

/// Makes every line end CR LF.
pub fn crlf(s: &str) -> (r: String)
    ensures
        r@ == crlf_text(s@),
{
    let v = crate::text::chars_of(s);
    let mut folded: Vec<char> = Vec::new();
    let mut i: usize = 0;
    assert(v@.skip(0) == v@);
    while i < v.len()
        invariant
            i <= v.len(),
            fold_crlf(v@) == folded@ + fold_crlf(v@.skip(i as int)),
        decreases v.len() - i,
    {
        let ghost rest = v@.skip(i as int);
        if i + 1 < v.len() && v[i] == '\r' && v[i + 1] == '\n' {
            assert(rest[0] == '\r' && rest[1] == '\n');
            assert(rest.skip(2) == v@.skip(i + 2));
            folded.push('\n');
            i = i + 2;
        } else {
            assert(rest[0] == v@[i as int]);
            assert(rest.drop_first() == v@.skip(i + 1));
            folded.push(v[i]);
            i = i + 1;
        }
    }
    assert(v@.skip(i as int) == Seq::<char>::empty());
    assert(folded@ + Seq::<char>::empty() == folded@);
    let mut out = String::new();
    let mut j: usize = 0;
    assert(folded@.skip(0) == folded@);
    while j < folded.len()
        invariant
            j <= folded.len(),
            expand_lf(folded@) == out@ + expand_lf(folded@.skip(j as int)),
        decreases folded.len() - j,
    {
        let ghost rest = folded@.skip(j as int);
        assert(rest[0] == folded@[j as int]);
        assert(rest.drop_first() == folded@.skip(j + 1));
        if folded[j] == '\n' {
            push_char(&mut out, '\r');
            push_char(&mut out, '\n');
        } else {
            push_char(&mut out, folded[j]);
        }
        j = j + 1;
    }
    assert(folded@.skip(j as int) == Seq::<char>::empty());
    assert(out@ + Seq::<char>::empty() == out@);
    out
}

proof fn lemma_expand_lf_head(s: Seq<char>)
    requires
        expand_lf(s).len() > 0,
    ensures
        expand_lf(s)[0] != '\n',
{
}

/// Folding CR LF undoes expanding LF.
pub proof fn lemma_fold_expand(s: Seq<char>)
    ensures
        fold_crlf(expand_lf(s)) == s,
    decreases s.len(),
{
    if s.len() > 0 {
        let rest = s.drop_first();
        lemma_fold_expand(rest);
        let e = expand_lf(rest);
        if s[0] == '\n' {
            let x = seq!['\r', '\n'] + e;
            assert(expand_lf(s) == x);
            assert(x.skip(2) == e);
            assert(seq!['\n'] + rest == s);
        } else {
            let x = seq![s[0]] + e;
            assert(expand_lf(s) == x);
            if s[0] == '\r' && x.len() >= 2 {
                lemma_expand_lf_head(rest);
                assert(x[1] == e[0]);
            }
            assert(x.drop_first() == e);
            assert(seq![s[0]] + rest == s);
        }
    }
}

/// Every LF of `t` comes right after a CR.
pub open spec fn lf_after_cr(t: Seq<char>) -> bool {
    forall|i: int| 0 <= i < t.len() && #[trigger] t[i] == '\n' ==> i > 0 && t[i - 1] == '\r'
}

proof fn lemma_expand_lf_after_cr(s: Seq<char>)
    ensures
        lf_after_cr(expand_lf(s)),
    decreases s.len(),
{
    if s.len() > 0 {
        let rest = s.drop_first();
        lemma_expand_lf_after_cr(rest);
        let e = expand_lf(rest);
        let h: Seq<char> = if s[0] == '\n' { seq!['\r', '\n'] } else { seq![s[0]] };
        let x = h + e;
        assert(expand_lf(s) == x);
        if e.len() > 0 {
            lemma_expand_lf_head(rest);
        }
        assert forall|i: int| 0 <= i < x.len() && #[trigger] x[i] == '\n' implies i > 0 && x[i - 1] == '\r' by {
            if i >= h.len() {
                let k = i - h.len();
                assert(x[i] == e[k]);
                if k == 0 {
                    assert(e[0] != '\n');
                } else {
                    assert(x[i - 1] == e[k - 1]);
                }
            }
        }
    }
}

/// After `crlf`, every LF comes right after a CR.
pub proof fn lemma_crlf_lf_after_cr(s: Seq<char>)
    ensures
        lf_after_cr(crlf_text(s)),
{
    lemma_expand_lf_after_cr(fold_crlf(s));
}

/// Making line ends CR LF twice changes nothing more than doing it once.
pub proof fn lemma_crlf_idempotent(s: Seq<char>)
    ensures
        crlf_text(crlf_text(s)) == crlf_text(s),
{
    lemma_fold_expand(fold_crlf(s));
}

/// The text of a notice, as it interrupts the screen.
pub open spec fn notice_text(n: Notice) -> Seq<char> {
    match n {
        Notice::System(t) => "*** SYSOP より: "@ + t@ + " ***"@,
        Notice::Telegram { from, text } => "*** 電報 "@ + from@ + ": "@ + text@ + " ***"@,
        Notice::Chat { text, .. } => text@,
        Notice::Kick(r) => "*** "@ + r@ + " ***"@,
    }
}

/// The text of a notice, as it interrupts the screen.
pub fn format_notice(n: &Notice) -> (r: String)
    ensures
        r@ == notice_text(*n),
{
    match n {
        Notice::System(t) => {
            let mut s = String::from_str("*** SYSOP より: ");
            s.append(t.as_str());
            s.append(" ***");
            s
        },
        Notice::Telegram { from, text } => {
            let mut s = String::from_str("*** 電報 ");
            s.append(from.as_str());
            s.append(": ");
            s.append(text.as_str());
            s.append(" ***");
            s
        },
        Notice::Chat { text, .. } => text.clone(),
        Notice::Kick(r) => {
            let mut s = String::from_str("*** ");
            s.append(r.as_str());
            s.append(" ***");
            s
        },
    }
}

/// What wakes a session that waits for a line to be typed.
#[derive(Debug)]
pub enum Wake {
    /// Bytes from the user.
    Data(Vec<u8>),
    /// The line closed.
    Closed,
    Notice(Notice),
    /// A minute before the idle timeout.
    Warn,
    Idle,
    TimeUp,
}

/// What the waiting session does about it.
#[derive(Debug)]
pub enum WakeAction {
    /// Hand the bytes to the editor (the user is active again).
    Feed(Vec<u8>),
    /// Show this text, then go on waiting.
    Show(String),
    /// Show nothing and go on waiting.
    Wait,
    /// End the session.
    End(SessionError),
}

/// The warning shown a minute before the idle timeout.
pub open spec fn idle_warning() -> Seq<char> {
    "*** 無操作のため、あと 1 分で切断します ***"@
}

/// Whether the idle warning has been shown since the user last typed.
#[derive(Debug, Clone, Copy)]
pub struct IdleWatch {
    pub warned: bool,
}

/// Whether `wake` shows the idle warning to a watch in state `warned`.
pub open spec fn shows_warning(warned: bool, wake: Wake) -> bool {
    wake is Warn && !warned
}

/// The state of the watch after `wake`: typing starts over, the warning
/// is remembered, anything else leaves it as it was.
pub open spec fn warned_after(warned: bool, wake: Wake) -> bool {
    match wake {
        Wake::Data(_) => false,
        Wake::Warn => true,
        _ => warned,
    }
}

/// How many idle warnings a run of wakes shows, from state `warned`.
pub open spec fn warnings_shown(warned: bool, wakes: Seq<Wake>) -> nat
    decreases wakes.len(),
{
    if wakes.len() == 0 {
        0
    } else {
        (if shows_warning(warned, wakes[0]) { 1nat } else { 0nat })
            + warnings_shown(warned_after(warned, wakes[0]), wakes.drop_first())
    }
}

/// While the user types nothing, the idle warning is shown at most once;
/// and not at all once it has been shown.
pub proof fn lemma_warning_once(warned: bool, wakes: Seq<Wake>)
    requires
        forall|i: int| 0 <= i < wakes.len() ==> !(#[trigger] wakes[i] is Data),
    ensures
        warnings_shown(warned, wakes) <= 1,
        warned ==> warnings_shown(warned, wakes) == 0,
    decreases wakes.len(),
{
    if wakes.len() > 0 {
        let rest = wakes.drop_first();
        assert forall|i: int| 0 <= i < rest.len() implies !(#[trigger] rest[i] is Data) by {
            assert(rest[i] == wakes[i + 1]);
        }
        assert(!(wakes[0] is Data));
        lemma_warning_once(warned_after(warned, wakes[0]), rest);
    }
}

impl IdleWatch {
    /// A watch for a new line: nothing shown yet.
    pub fn new() -> (r: IdleWatch)
        ensures
            !r.warned,
    {
        IdleWatch { warned: false }
    }

    /// When, in seconds after the last input, the warning is still to come
    /// for a timeout of `idle_secs`: never once it has been shown.
    pub fn warn_at(&self, idle_secs: u64) -> (r: Option<u64>)
        ensures
            r == (if !self.warned && idle_secs >= 120 { Some((idle_secs - 60) as u64) } else { None::<u64> }),
    {
        if self.warned { None } else { warn_after(idle_secs) }
    }

    /// Decides what a wake means while `prompt` is shown and `typed` is what
    /// the user has typed so far (as the editor displays it): a notice or the
    /// idle warning is shown on a line of its own, and the prompt and the
    /// typed text are shown again below it. The warning is shown once until
    /// the user types again.
    pub fn on_wake(&mut self, prompt: &str, typed: &str, wake: Wake) -> (r: WakeAction)
        ensures
            final(self).warned == warned_after(old(self).warned, wake),
            match wake {
                Wake::Data(d) => r matches WakeAction::Feed(e) && e@ == d@,
                Wake::Closed => r matches WakeAction::End(SessionError::Disconnected),
                Wake::Notice(Notice::Kick(m)) => r matches WakeAction::End(SessionError::Kicked(k)) && k@ == m@,
                Wake::Notice(n) => r matches WakeAction::Show(t) && t@ == "\n"@ + notice_text(n) + "\n"@ + prompt@ + typed@,
                Wake::Warn => if old(self).warned {
                    r is Wait
                } else {
                    r matches WakeAction::Show(t) && t@ == "\n"@ + idle_warning() + "\n"@ + prompt@ + typed@
                },
                Wake::Idle => r matches WakeAction::End(SessionError::IdleTimeout),
                Wake::TimeUp => r matches WakeAction::End(SessionError::TimeUp),
            },
    {
        match wake {
            Wake::Data(d) => {
                self.warned = false;
                WakeAction::Feed(d)
            },
            Wake::Closed => WakeAction::End(SessionError::Disconnected),
            Wake::Notice(Notice::Kick(m)) => WakeAction::End(SessionError::Kicked(m)),
            Wake::Notice(n) => {
                let mut t = String::from_str("\n");
                let body = format_notice(&n);
                t.append(body.as_str());
                t.append("\n");
                t.append(prompt);
                t.append(typed);
                WakeAction::Show(t)
            },
            Wake::Warn => {
                if self.warned {
                    WakeAction::Wait
                } else {
                    self.warned = true;
                    let mut t = String::from_str("\n*** 無操作のため、あと 1 分で切断します ***\n");
                    t.append(prompt);
                    t.append(typed);
                    proof { reveal_strlit("\n*** 無操作のため、あと 1 分で切断します ***\n"); reveal_strlit("*** 無操作のため、あと 1 分で切断します ***"); reveal_strlit("\n"); }
                    WakeAction::Show(t)
                }
            },
            Wake::Idle => WakeAction::End(SessionError::IdleTimeout),
            Wake::TimeUp => WakeAction::End(SessionError::TimeUp),
        }
    }
}

/// How long after the last input the idle warning comes, in seconds: a
/// minute before the timeout, and only when the timeout is at least two
/// minutes.
pub fn warn_after(idle_secs: u64) -> (r: Option<u64>)
    ensures
        r == (if idle_secs >= 120 { Some((idle_secs - 60) as u64) } else { None::<u64> }),
{
    if idle_secs >= 120 { Some(idle_secs - 60) } else { None }
}

/// The lines shown per page on a screen of `rows` rows: one row is kept
/// for the prompt, and a page has at least four lines.
pub fn page_size(rows: usize) -> (r: usize)
    ensures
        r == (if rows >= 5 { rows - 1 } else { 4 }),
{
    let n = rows.saturating_sub(1);
    if n > 4 { n } else { 4 }
}

/// Lines joined by LF, with a LF after the last.
pub open spec fn joined_lines(lines: Seq<Seq<char>>) -> Seq<char>
    decreases lines.len(),
{
    if lines.len() == 0 {
        Seq::empty()
    } else {
        joined_lines(lines.drop_last()) + lines.last() + "\n"@
    }
}

/// The text of one page: `lines[from..to]`, each followed by LF.
pub fn page_text(lines: &Vec<String>, from: usize, to: usize) -> (r: String)
    requires
        from <= to <= lines@.len(),
    ensures
        r@ == joined_lines(lines@.subrange(from as int, to as int).map_values(|l: String| l@)),
{
    let mut out = String::new();
    let mut i: usize = from;
    while i < to
        invariant
            from <= i <= to <= lines@.len(),
            out@ == joined_lines(lines@.subrange(from as int, i as int).map_values(|l: String| l@)),
        decreases to - i,
    {
        let ghost prev = lines@.subrange(from as int, i as int).map_values(|l: String| l@);
        let ghost next = lines@.subrange(from as int, i + 1).map_values(|l: String| l@);
        assert(next.drop_last() == prev);
        assert(next.last() == lines@[i as int]@);
        out.append(lines[i].as_str());
        out.append("\n");
        i = i + 1;
    }
    out
}

/// Typing bytes into an editor until a line ends: the editor after, what
/// is echoed, the line if one ended, and how many bytes were taken.
pub open spec fn run_until_line(e: EditorModel, bytes: Seq<u8>) -> (EditorModel, Seq<u8>, Option<Seq<char>>, nat)
    decreases bytes.len(),
{
    if bytes.len() == 0 {
        (e, Seq::empty(), None, 0)
    } else {
        let (e1, echo1, line1) = edit_step(e, bytes[0]);
        if line1 is Some {
            (e1, echo1, line1, 1)
        } else {
            let (e2, echo2, line2, n2) = run_until_line(e1, bytes.drop_first());
            (e2, echo1 + echo2, line2, n2 + 1)
        }
    }
}

/// Hands the bytes typed ahead to the editor one by one until a line
/// ends. Gives what to echo, the line if one ended, and how many bytes
/// were taken: the bytes after the end of the line are left for the next
/// line.
pub fn take_line(ed: &mut Editor, pending: &[u8]) -> (r: (Vec<u8>, Option<String>, usize))
    ensures
        final(ed)@ == run_until_line(old(ed)@, pending@).0,
        r.0@ == run_until_line(old(ed)@, pending@).1,
        match run_until_line(old(ed)@, pending@).2 {
            Some(l) => r.1 matches Some(s) && s@ == l,
            None => r.1 is None,
        },
        r.2 == run_until_line(old(ed)@, pending@).3,
{
    let mut echo: Vec<u8> = Vec::new();
    let mut i: usize = 0;
    assert(pending@.skip(0) == pending@);
    while i < pending.len()
        invariant
            i <= pending@.len(),
            run_until_line(old(ed)@, pending@) == ({
                let rest = run_until_line(ed@, pending@.skip(i as int));
                (rest.0, echo@ + rest.1, rest.2, (rest.3 + i) as nat)
            }),
        decreases pending.len() - i,
    {
        let ghost before = ed@;
        let ghost tail = pending@.skip(i as int);
        assert(tail[0] == pending@[i as int]);
        assert(tail.drop_first() == pending@.skip(i + 1));
        let ghost prev_echo = echo@;
        let line = ed.feed(pending[i], &mut echo);
        match line {
            Some(l) => {
                assert(echo@ == prev_echo + edit_step(before, pending@[i as int]).1);
                return (echo, Some(l), i + 1);
            },
            None => {
                let ghost rest = run_until_line(ed@, pending@.skip(i + 1));
                assert(prev_echo + (edit_step(before, pending@[i as int]).1 + rest.1) == echo@ + rest.1);
            },
        }
        i = i + 1;
    }
    assert(pending@.skip(i as int).len() == 0);
    assert(echo@ + Seq::<u8>::empty() == echo@);
    (echo, None, i)
}

proof fn lemma_joined_append(a: Seq<Seq<char>>, b: Seq<Seq<char>>)
    ensures
        joined_lines(a + b) == joined_lines(a) + joined_lines(b),
    decreases b.len(),
{
    if b.len() == 0 {
        assert(a + b == a);
        assert(joined_lines(a) + Seq::<char>::empty() == joined_lines(a));
    } else {
        lemma_joined_append(a, b.drop_last());
        assert((a + b).drop_last() == a + b.drop_last());
        assert((a + b).last() == b.last());
    }
}

/// Showing lines page by page shows them all, in order: the text of the
/// pages `[0, k)` and `[k, n)` put together is the text of `[0, n)`.
pub proof fn lemma_pages_cover(lines: Seq<Seq<char>>, k: int)
    requires
        0 <= k <= lines.len(),
    ensures
        joined_lines(lines.subrange(0, k)) + joined_lines(lines.subrange(k, lines.len() as int))
            == joined_lines(lines),
{
    lemma_joined_append(lines.subrange(0, k), lines.subrange(k, lines.len() as int));
    assert(lines.subrange(0, k) + lines.subrange(k, lines.len() as int) == lines);
}

/// An answer that means yes: `y` or `yes`, in any case.
pub fn is_yes(answer: &str) -> (r: bool)
    ensures
        r == (crate::text::eq_ignore_ascii_case(answer@, "y"@) || crate::text::eq_ignore_ascii_case(answer@, "yes"@)),
{
    crate::text::same_ignoring_case(answer, "y") || crate::text::same_ignoring_case(answer, "yes")
}

/// An answer that stops paging or reading: `q`, in any case.
pub fn is_quit(answer: &str) -> (r: bool)
    ensures
        r == crate::text::eq_ignore_ascii_case(answer@, "q"@),
{
    crate::text::same_ignoring_case(answer, "q")
}

/// The question after a yes-or-no prompt.
pub open spec fn yes_no_text(prompt: Seq<char>) -> Seq<char> {
    prompt + " (Y/N)? "@
}

pub fn yes_no_prompt(prompt: &str) -> (r: String)
    ensures
        r@ == yes_no_text(prompt@),
{
    let mut s = String::from_str(prompt);
    s.append(" (Y/N)? ");
    s
}

} // verus!
