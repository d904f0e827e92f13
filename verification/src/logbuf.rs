//! The system log kept for the console: the latest lines, at most a
//! thousand.

use vstd::prelude::*;
use crate::text::{chars_of, string_of};

verus! {

/// The most lines kept.
pub const MAX_LINES: usize = 1000;

/// A line without the CR of a CR LF.
pub open spec fn strip_cr(l: Seq<char>) -> Seq<char> {
    if l.len() > 0 && l.last() == '\r' { l.drop_last() } else { l }
}

/// Reading `s` line by line: the lines ended so far, and the line begun.
pub open spec fn split_state(s: Seq<char>) -> (Seq<Seq<char>>, Seq<char>)
    decreases s.len(),
{
    if s.len() == 0 {
        (Seq::empty(), Seq::empty())
    } else {
        let (done, cur) = split_state(s.drop_last());
        if s.last() == '\n' {
            (done.push(strip_cr(cur)), Seq::empty())
        } else {
            (done, cur.push(s.last()))
        }
    }
}

/// The lines of `s` as `str::lines` gives them: split at LF, each without
/// the CR of a CR LF, and no empty line after a final LF.
pub open spec fn lines_of(s: Seq<char>) -> Seq<Seq<char>> {
    let (done, cur) = split_state(s);
    if cur.len() > 0 { done.push(cur) } else { done }
}

/// The last `n` of `s`, or all of it.
pub open spec fn last_n<T>(s: Seq<T>, n: nat) -> Seq<T> {
    if s.len() > n { s.skip(s.len() - n) } else { s }
}

/// `str::lines`.
pub fn text_lines(text: &str) -> (r: Vec<String>)
    ensures
        r@.map_values(|l: String| l@) == lines_of(text@),
{
    let v = chars_of(text);
    let mut done: Vec<String> = Vec::new();
    let mut cur: Vec<char> = Vec::new();
    let mut i: usize = 0;
    while i < v.len()
        invariant
            i <= v@.len(),
            v@ == text@,
            done@.map_values(|l: String| l@) == split_state(v@.take(i as int)).0,
            cur@ == split_state(v@.take(i as int)).1,
        decreases v.len() - i,
    {
        let ghost t = v@.take(i + 1);
        assert(t.drop_last() == v@.take(i as int));
        assert(t.last() == v@[i as int]);
        if v[i] == '\n' {
            if cur.len() > 0 && cur[cur.len() - 1] == '\r' {
                cur.pop();
            }
            let l = string_of(&cur);
            done.push(l);
            cur = Vec::new();
        } else {
            cur.push(v[i]);
        }
        i = i + 1;
    }
    assert(v@.take(v@.len() as int) == v@);
    if cur.len() > 0 {
        done.push(string_of(&cur));
    }
    done
}

/// The latest lines of the log, oldest first.
#[derive(Debug)]
pub struct LogRing {
    lines: Vec<String>,
}

impl View for LogRing {
    type V = Seq<Seq<char>>;

    closed spec fn view(&self) -> Seq<Seq<char>> {
        self.lines@.map_values(|l: String| l@)
    }
}

impl LogRing {
    /// A log holds at most `MAX_LINES` lines.
    pub closed spec fn wf(&self) -> bool {
        self.lines@.len() <= MAX_LINES
    }

    pub fn new() -> (r: LogRing)
        ensures
            r.wf(),
            r@.len() == 0,
    {
        LogRing { lines: Vec::new() }
    }

    /// Adds the lines of `text`; the oldest lines go once there are more
    /// than `MAX_LINES`.
    pub fn push_text(&mut self, text: &str)
        requires
            old(self).wf(),
        ensures
            final(self).wf(),
            final(self)@ == last_n(old(self)@ + lines_of(text@), MAX_LINES as nat),
    {
        let new = text_lines(text);
        let ghost all = self@ + lines_of(text@);
        let mut i: usize = 0;
        while i < new.len()
            invariant
                i <= new@.len(),
                new@.map_values(|l: String| l@) == lines_of(text@),
                self.lines@.map_values(|l: String| l@) == old(self)@ + lines_of(text@).take(i as int),
            decreases new.len() - i,
        {
            let ghost prev = self.lines@;
            let c = new[i].clone();
            assert(c@ == new@.map_values(|l: String| l@)[i as int]);
            self.lines.push(c);
            assert(self.lines@.map_values(|l: String| l@) =~= prev.map_values(|l: String| l@).push(c@));
            assert(lines_of(text@).take(i + 1) == lines_of(text@).take(i as int).push(c@));
            assert(self.lines@.map_values(|l: String| l@) == old(self)@ + lines_of(text@).take(i + 1));
            i = i + 1;
        }
        assert(lines_of(text@).take(new@.len() as int) == lines_of(text@));
        let n = self.lines.len();
        if n > MAX_LINES {
            let from = n - MAX_LINES;
            let mut kept: Vec<String> = Vec::new();
            let mut j: usize = from;
            while j < n
                invariant
                    from <= j <= n,
                    n == self.lines@.len(),
                    kept@.map_values(|l: String| l@) == self@.subrange(from as int, j as int),
                decreases n - j,
            {
                let ghost prev = kept@;
                let c = self.lines[j].clone();
                assert(c@ == self@[j as int]);
                kept.push(c);
                assert(kept@.map_values(|l: String| l@) =~= prev.map_values(|l: String| l@).push(c@));
                assert(self@.subrange(from as int, j + 1) == self@.subrange(from as int, j as int).push(self@[j as int]));
                j = j + 1;
            }
            assert(self@.subrange(from as int, n as int) == self@.skip(n - MAX_LINES));
            self.lines = kept;
        }
    }

    /// The latest `n` lines, oldest first.
    pub fn tail(&self, n: usize) -> (r: Vec<String>)
        ensures
            r@.map_values(|l: String| l@) == last_n(self@, n as nat),
    {
        let len = self.lines.len();
        let from = if len > n { len - n } else { 0 };
        let mut out: Vec<String> = Vec::new();
        let mut j: usize = from;
        while j < len
            invariant
                from <= j <= len,
                len == self.lines@.len(),
                out@.map_values(|l: String| l@) == self@.subrange(from as int, j as int),
            decreases len - j,
        {
            let ghost prev = out@;
            let c = self.lines[j].clone();
            assert(c@ == self@[j as int]);
            out.push(c);
            assert(out@.map_values(|l: String| l@) =~= prev.map_values(|l: String| l@).push(c@));
            assert(self@.subrange(from as int, j + 1) == self@.subrange(from as int, j as int).push(self@[j as int]));
            j = j + 1;
        }
        assert(self@.subrange(from as int, len as int) == last_n(self@, n as nat));
        out
    }
}

} // verus!
