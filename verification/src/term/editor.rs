//! The one-line editor, without I/O.
//!
//! Received bytes are handed over one at a time; each gives the bytes to
//! echo and, at the end of a line, the line. A UTF-8 character may arrive
//! split across several bytes.

use vstd::prelude::*;
use vstd::utf8::{valid_utf8, decode_utf8, encode_utf8};
use crate::text::{is_control, is_control_char, push_char, push_repeat, repeat, string_of};
use crate::session::util::{char_width, cell_width};

verus! {

#[derive(Debug, Clone, Copy)]
pub struct EditOpts {
    /// The most characters a line may hold.
    pub max_chars: usize,
    /// Password entry (echo `*`).
    pub mask: bool,
    /// Fold full-width letters and digits to ASCII (command entry).
    pub normalize: bool,
}

impl Default for EditOpts {
    fn default() -> (r: EditOpts)
        ensures
            r.max_chars == 200,
            !r.mask,
            r.normalize,
    {
        EditOpts { max_chars: 200, mask: false, normalize: true }
    }
}

#[derive(Debug)]
pub struct Editor {
    opts: EditOpts,
    buf: Vec<char>,
    /// A UTF-8 character received in part.
    pending: Vec<u8>,
    after_cr: bool,
    /// Skipping an escape sequence (arrow keys and the like): 0 none,
    /// 1 right after ESC, 2 inside CSI.
    esc: u8,
}

/// The abstract state of an `Editor`.
pub struct EditorModel {
    pub opts: EditOpts,
    pub buf: Seq<char>,
    pub pending: Seq<u8>,
    pub after_cr: bool,
    pub esc: u8,
}

impl View for Editor {
    type V = EditorModel;

    closed spec fn view(&self) -> EditorModel {
        EditorModel {
            opts: self.opts,
            buf: self.buf@,
            pending: self.pending@,
            after_cr: self.after_cr,
            esc: self.esc,
        }
    }
}

/// Backspace, space, backspace: erases one column.
pub open spec fn bs_erase() -> Seq<u8> {
    seq![8u8, 32u8, 8u8]
}

/// Full-width letters, digits, signs and the ideographic space as their
/// ASCII forms.
pub open spec fn halfwidth(c: char) -> char {
    if c == '\u{3000}' {
        ' '
    } else if '\u{FF01}' <= c <= '\u{FF5E}' {
        ((c as u32) - 0xFEE0) as char
    } else {
        c
    }
}

/// Folds full-width letters, digits, signs and the ideographic space to
/// ASCII.
pub fn to_halfwidth(c: char) -> (r: char)
    ensures
        r == halfwidth(c),
{
    if c == '\u{3000}' {
        ' '
    } else if '\u{FF01}' <= c && c <= '\u{FF5E}' {
        let n: u8 = (c as u32 - 0xFEE0) as u8;
        n as char
    } else {
        c
    }
}

/// The columns a character takes on the screen: 1 when masked, at least 1
/// otherwise.
pub open spec fn glyph_width(c: char, mask: bool) -> nat {
    if mask || cell_width(c) == 0 { 1 } else { cell_width(c) }
}

/// `n` copies of `s`.
pub open spec fn repeat_bytes(s: Seq<u8>, n: nat) -> Seq<u8>
    decreases n,
{
    if n == 0 { Seq::empty() } else { repeat_bytes(s, (n - 1) as nat) + s }
}

/// What erasing `c` echoes.
pub open spec fn erase_echo(c: char, mask: bool) -> Seq<u8> {
    repeat_bytes(bs_erase(), glyph_width(c, mask))
}

/// What erasing all of `buf`, last character first, echoes.
pub open spec fn erase_all_echo(buf: Seq<char>, mask: bool) -> Seq<u8>
    decreases buf.len(),
{
    if buf.len() == 0 {
        Seq::empty()
    } else {
        erase_echo(buf.last(), mask) + erase_all_echo(buf.drop_last(), mask)
    }
}

/// What typing `c` echoes.
pub open spec fn char_echo(c: char, mask: bool) -> Seq<u8> {
    if mask { seq![42u8] } else { encode_utf8(seq![c]) }
}

/// The start of some valid UTF-8 text.
pub open spec fn utf8_prefix(b: Seq<u8>) -> bool {
    exists|ext: Seq<u8>| valid_utf8(b + ext)
}

/// One received byte: the next state, the echo, and the line if one ended.
pub open spec fn edit_step(e: EditorModel, b: u8) -> (EditorModel, Seq<u8>, Option<Seq<char>>) {
    if e.after_cr && (b == 10 || b == 0) {
        (EditorModel { after_cr: false, ..e }, Seq::empty(), None)
    } else {
        let e = EditorModel { after_cr: false, ..e };
        if e.esc == 1 {
            (EditorModel { esc: if b == 91 || b == 79 { 2u8 } else { 0u8 }, ..e }, Seq::empty(), None)
        } else if e.esc == 2 {
            (EditorModel { esc: if 0x40 <= b <= 0x7e { 0u8 } else { 2u8 }, ..e }, Seq::empty(), None)
        } else if b == 13 || b == 10 {
            (
                EditorModel { after_cr: b == 13, pending: Seq::empty(), buf: Seq::empty(), ..e },
                seq![13u8, 10u8],
                Some(e.buf),
            )
        } else if b == 8 || b == 0x7f {
            if e.buf.len() == 0 {
                (e, Seq::empty(), None)
            } else {
                (EditorModel { buf: e.buf.drop_last(), ..e }, erase_echo(e.buf.last(), e.opts.mask), None)
            }
        } else if b == 0x15 {
            (EditorModel { buf: Seq::empty(), ..e }, erase_all_echo(e.buf, e.opts.mask), None)
        } else if b == 0x1b {
            (EditorModel { esc: 1u8, ..e }, Seq::empty(), None)
        } else if b < 0x20 {
            (e, Seq::empty(), None)
        } else {
            let p = e.pending.push(b);
            if valid_utf8(p) {
                let c0 = decode_utf8(p)[0];
                let c = if e.opts.normalize { halfwidth(c0) } else { c0 };
                let e2 = EditorModel { pending: Seq::empty(), ..e };
                if is_control_char(c) {
                    (e2, Seq::empty(), None)
                } else if e.buf.len() >= e.opts.max_chars {
                    (e2, seq![7u8], None)
                } else {
                    (EditorModel { buf: e.buf.push(c), ..e2 }, char_echo(c, e.opts.mask), None)
                }
            } else if !utf8_prefix(p) || p.len() >= 4 {
                (EditorModel { pending: Seq::empty(), ..e }, Seq::empty(), None)
            } else {
                (EditorModel { pending: p, ..e }, Seq::empty(), None)
            }
        }
    }
}

/// What the editor keeps true between bytes: the line fits in `max_chars`
/// and holds no control character, at most three bytes of a character are
/// waiting, and the escape state is one of its three values.
pub open spec fn well_formed(e: EditorModel) -> bool {
    &&& e.buf.len() <= e.opts.max_chars
    &&& forall|i: int| 0 <= i < e.buf.len() ==> !is_control_char(#[trigger] e.buf[i])
    &&& e.pending.len() < 4
    &&& e.esc <= 2
}

/// A new editor is well formed.
pub proof fn lemma_new_well_formed(opts: EditOpts)
    ensures
        well_formed(EditorModel { opts, buf: Seq::empty(), pending: Seq::empty(), after_cr: false, esc: 0 }),
{
}

/// Every byte keeps the editor well formed, and a finished line is never
/// longer than `max_chars` characters and holds no control character.
pub proof fn lemma_step_well_formed(e: EditorModel, b: u8)
    requires
        well_formed(e),
    ensures
        well_formed(edit_step(e, b).0),
        edit_step(e, b).0.opts == e.opts,
        edit_step(e, b).2 matches Some(l) ==> l.len() <= e.opts.max_chars
            && forall|i: int| 0 <= i < l.len() ==> !is_control_char(#[trigger] l[i]),
{
    let r = edit_step(e, b);
    if !(e.after_cr && (b == 10 || b == 0)) && e.esc != 1 && e.esc != 2 && !(b == 13 || b == 10) {
        if (b == 8 || b == 0x7f) && e.buf.len() > 0 {
            assert forall|i: int| 0 <= i < r.0.buf.len() implies !is_control_char(#[trigger] r.0.buf[i]) by {
                assert(r.0.buf[i] == e.buf[i]);
            }
        }
        if b >= 0x20 && b != 0x7f {
            let p = e.pending.push(b);
            if valid_utf8(p) {
                let c0 = decode_utf8(p)[0];
                let c = if e.opts.normalize { halfwidth(c0) } else { c0 };
                if !is_control_char(c) && e.buf.len() < e.opts.max_chars {
                    assert forall|i: int| 0 <= i < r.0.buf.len() implies !is_control_char(#[trigger] r.0.buf[i]) by {
                        if i < e.buf.len() {
                            assert(r.0.buf[i] == e.buf[i]);
                        }
                    }
                }
            }
        }
    }
}

/// Backspace (BS, 0x08) and DEL (0x7f) are the same key: outside an
/// escape sequence and not right after a CR, either one removes the last
/// character of the line and rubs out its columns with BS SP BS per column
/// (one column when masked); on an empty line it does nothing.
pub proof fn lemma_backspace_keys(e: EditorModel)
    requires
        e.esc == 0,
        !e.after_cr,
    ensures
        edit_step(e, 8) == edit_step(e, 0x7f),
        e.buf.len() > 0 ==> {
            &&& edit_step(e, 8).0.buf == e.buf.take(e.buf.len() - 1)
            &&& edit_step(e, 8).1 == repeat_bytes(seq![8u8, 32u8, 8u8], glyph_width(e.buf[e.buf.len() - 1], e.opts.mask))
            &&& edit_step(e, 8).2 is None
        },
        e.buf.len() == 0 ==> edit_step(e, 8).0.buf == e.buf && edit_step(e, 8).1.len() == 0 && edit_step(e, 8).2 is None,
{
}

/// A full-width form that `halfwidth` folds: the ideographic space, or a
/// full-width letter, digit or sign.
pub open spec fn is_fullwidth_form(c: char) -> bool {
    c == '\u{3000}' || ('\u{FF01}' <= c && c <= '\u{FF5E}')
}

/// No character of `s` is a full-width form.
pub open spec fn no_fullwidth_form(s: Seq<char>) -> bool {
    forall|i: int| 0 <= i < s.len() ==> !is_fullwidth_form(#[trigger] s[i])
}

/// Folding never leaves a full-width form.
pub proof fn lemma_halfwidth_folds(c: char)
    ensures
        !is_fullwidth_form(halfwidth(c)),
{
    if '\u{FF01}' <= c && c <= '\u{FF5E}' {
        let n: u32 = ((c as u32) - 0xFEE0) as u32;
        assert(0x21 <= n <= 0x7E);
        assert((n as char) as u32 == n);
    }
}

/// With `normalize` set, the line being typed never holds a full-width
/// form, whatever bytes arrive, and neither does a finished line.
pub proof fn lemma_normalized_halfwidth(e: EditorModel, b: u8)
    requires
        e.opts.normalize,
        no_fullwidth_form(e.buf),
    ensures
        no_fullwidth_form(edit_step(e, b).0.buf),
        edit_step(e, b).2 matches Some(l) ==> no_fullwidth_form(l),
{
    let r = edit_step(e, b);
    if !(e.after_cr && (b == 10 || b == 0)) && e.esc != 1 && e.esc != 2 && !(b == 13 || b == 10) {
        if (b == 8 || b == 0x7f) && e.buf.len() > 0 {
            assert forall|i: int| 0 <= i < r.0.buf.len() implies !is_fullwidth_form(#[trigger] r.0.buf[i]) by {
                assert(r.0.buf[i] == e.buf[i]);
            }
        }
        if b >= 0x20 && b != 0x7f {
            let p = e.pending.push(b);
            if valid_utf8(p) {
                let c0 = decode_utf8(p)[0];
                lemma_halfwidth_folds(c0);
                let c = halfwidth(c0);
                if !is_control_char(c) && e.buf.len() < e.opts.max_chars {
                    assert forall|i: int| 0 <= i < r.0.buf.len() implies !is_fullwidth_form(#[trigger] r.0.buf[i]) by {
                        if i < e.buf.len() {
                            assert(r.0.buf[i] == e.buf[i]);
                        }
                    }
                }
            }
        }
    }
}

/// A byte that may be echoed while masked: `*`, BEL, backspace, space, CR
/// or LF.
pub open spec fn masked_byte(x: u8) -> bool {
    x == 42 || x == 7 || x == 8 || x == 32 || x == 13 || x == 10
}

pub open spec fn all_masked_bytes(s: Seq<u8>) -> bool {
    forall|i: int| 0 <= i < s.len() ==> masked_byte(#[trigger] s[i])
}

proof fn lemma_concat_masked(a: Seq<u8>, b: Seq<u8>)
    requires
        all_masked_bytes(a),
        all_masked_bytes(b),
    ensures
        all_masked_bytes(a + b),
{
    assert forall|i: int| 0 <= i < (a + b).len() implies masked_byte(#[trigger] (a + b)[i]) by {
        if i < a.len() {
            assert((a + b)[i] == a[i]);
        } else {
            assert((a + b)[i] == b[i - a.len()]);
        }
    }
}

proof fn lemma_erase_echo_bytes(n: nat)
    ensures
        all_masked_bytes(repeat_bytes(bs_erase(), n)),
    decreases n,
{
    if n > 0 {
        lemma_erase_echo_bytes((n - 1) as nat);
        lemma_concat_masked(repeat_bytes(bs_erase(), (n - 1) as nat), bs_erase());
    }
}

proof fn lemma_erase_all_bytes(buf: Seq<char>, mask: bool)
    ensures
        all_masked_bytes(erase_all_echo(buf, mask)),
    decreases buf.len(),
{
    if buf.len() > 0 {
        lemma_erase_all_bytes(buf.drop_last(), mask);
        lemma_erase_echo_bytes(glyph_width(buf.last(), mask));
        lemma_concat_masked(erase_echo(buf.last(), mask), erase_all_echo(buf.drop_last(), mask));
    }
}

/// While masked, the echo never shows what was typed: it holds only `*`,
/// BEL, backspace, space, CR and LF.
pub proof fn lemma_masked_echo(e: EditorModel, b: u8)
    requires
        e.opts.mask,
    ensures
        all_masked_bytes(edit_step(e, b).1),
{
    if !(e.after_cr && (b == 10 || b == 0)) && e.esc != 1 && e.esc != 2 && !(b == 13 || b == 10) {
        if (b == 8 || b == 0x7f) && e.buf.len() > 0 {
            lemma_erase_echo_bytes(glyph_width(e.buf.last(), true));
        } else if b == 0x15 {
            lemma_erase_all_bytes(e.buf, true);
        }
    }
}

/// CR LF, CR NUL, a lone CR and a lone LF each end exactly one line: the
/// LF or NUL that follows a CR is dropped without echo.
pub proof fn lemma_cr_then_lf(e: EditorModel, b: u8)
    requires
        e.esc == 0,
        b == 10 || b == 0,
    ensures
        edit_step(e, 13).2 == Some(e.buf),
        edit_step(edit_step(e, 13).0, b).2 is None,
        edit_step(edit_step(e, 13).0, b).1 == Seq::<u8>::empty(),
        edit_step(edit_step(e, 13).0, b).0 == (EditorModel { after_cr: false, ..edit_step(e, 13).0 }),
{
}

/// `std::str::from_utf8`, reporting a failure by `Utf8Error::error_len`:
/// `None` when the bytes are the start of valid UTF-8 cut short.
#[verifier::external_body]
fn str_from_utf8(bytes: &[u8]) -> (r: Result<&str, Option<usize>>)
    ensures
        r is Ok <==> valid_utf8(bytes@),
        r matches Ok(s) ==> s@ == decode_utf8(bytes@),
        r matches Err(e) ==> (e is None <==> utf8_prefix(bytes@)),
{
    match std::str::from_utf8(bytes) {
        Ok(s) => Ok(s),
        Err(e) => Err(e.error_len()),
    }
}

/// The UTF-8 bytes of `c`.
fn utf8_of(c: char) -> (r: Vec<u8>)
    ensures
        r@ == encode_utf8(seq![c]),
{
    let mut s = String::new();
    push_char(&mut s, c);
    assert(s@ == seq![c]);
    s.as_str().as_bytes_vec()
}

fn push_bytes(out: &mut Vec<u8>, b: &Vec<u8>)
    ensures
        final(out)@ == old(out)@ + b@,
{
    let mut i: usize = 0;
    while i < b.len()
        invariant
            i <= b.len(),
            out@ == old(out)@ + b@.take(i as int),
        decreases b.len() - i,
    {
        out.push(b[i]);
        assert(b@.take(i + 1) == b@.take(i as int).push(b@[i as int]));
        i = i + 1;
    }
    assert(b@.take(b.len() as int) == b@);
}

impl Editor {
    pub fn new(opts: EditOpts) -> (e: Editor)
        ensures
            e@ == (EditorModel { opts, buf: Seq::empty(), pending: Seq::empty(), after_cr: false, esc: 0 }),
    {
        Editor { opts, buf: Vec::new(), pending: Vec::new(), after_cr: false, esc: 0 }
    }

    /// The line typed so far (shown again after an interruption): `*` for
    /// each character when masked.
    pub fn display(&self) -> (r: String)
        ensures
            r@ == if self@.opts.mask { repeat('*', self@.buf.len()) } else { self@.buf },
    {
        if self.opts.mask {
            let mut s = String::new();
            push_repeat(&mut s, '*', self.buf.len());
            s
        } else {
            string_of(&self.buf)
        }
    }

    fn erase_last(&mut self, echo: &mut Vec<u8>)
        requires
            old(self)@.buf.len() > 0,
        ensures
            final(self)@ == (EditorModel { buf: old(self)@.buf.drop_last(), ..old(self)@ }),
            final(echo)@ == old(echo)@ + erase_echo(old(self)@.buf.last(), old(self)@.opts.mask),
    {
        let c = self.buf.pop().unwrap();
        let n: usize = if self.opts.mask {
            1
        } else {
            match char_width(c) {
                Some(w) => if w == 0 { 1 } else { w },
                None => 1,
            }
        };
        let mut k: usize = 0;
        while k < n
            invariant
                k <= n,
                echo@ == old(echo)@ + repeat_bytes(bs_erase(), k as nat),
            decreases n - k,
        {
            echo.push(8);
            echo.push(32);
            echo.push(8);
            assert(repeat_bytes(bs_erase(), (k + 1) as nat) == repeat_bytes(bs_erase(), k as nat) + bs_erase());
            k = k + 1;
        }
    }

    /// Takes one byte; returns the line when one ends.
    pub fn feed(&mut self, b: u8, echo: &mut Vec<u8>) -> (line: Option<String>)
        ensures
            final(self)@ == edit_step(old(self)@, b).0,
            final(echo)@ == old(echo)@ + edit_step(old(self)@, b).1,
            match edit_step(old(self)@, b).2 {
                Some(l) => line matches Some(s) && s@ == l,
                None => line is None,
            },
    {
        if self.after_cr {
            self.after_cr = false;
            if b == 10 || b == 0 {
                return None;
            }
        }
        if self.esc == 1 {
            self.esc = if b == 91 || b == 79 { 2 } else { 0 };
            return None;
        }
        if self.esc == 2 {
            if 0x40 <= b && b <= 0x7e {
                self.esc = 0;
            }
            return None;
        }
        if b == 13 || b == 10 {
            self.after_cr = b == 13;
            self.pending.clear();
            echo.push(13);
            echo.push(10);
            let line = string_of(&self.buf);
            self.buf = Vec::new();
            return Some(line);
        }
        if b == 8 || b == 0x7f {
            if self.buf.len() > 0 {
                self.erase_last(echo);
            }
            return None;
        }
        if b == 0x15 {
            let ghost start = self@.buf;
            while self.buf.len() > 0
                invariant
                    self@.buf == start.take(self@.buf.len() as int),
                    self@.buf.len() <= start.len(),
                    echo@ + erase_all_echo(self@.buf, self@.opts.mask)
                        == old(echo)@ + erase_all_echo(start, self@.opts.mask),
                    self@.opts == old(self)@.opts,
                    self@.pending == old(self)@.pending,
                    self@.after_cr == false,
                    self@.esc == old(self)@.esc,
                decreases self@.buf.len(),
            {
                let ghost before = self@.buf;
                self.erase_last(echo);
                assert(before.drop_last() == start.take(self@.buf.len() as int));
                assert(erase_all_echo(before, self@.opts.mask)
                    == erase_echo(before.last(), self@.opts.mask) + erase_all_echo(before.drop_last(), self@.opts.mask));
            }
            assert(self@.buf == Seq::<char>::empty());
            assert(erase_all_echo(self@.buf, self@.opts.mask) == Seq::<u8>::empty());
            assert(echo@ + Seq::<u8>::empty() == echo@);
            return None;
        }
        if b == 0x1b {
            self.esc = 1;
            return None;
        }
        if b < 0x20 {
            return None;
        }
        self.pending.push(b);
        match str_from_utf8(self.pending.as_slice()) {
            Ok(s) => {
                let chars = crate::text::chars_of(s);
                let mut c = chars[0];
                self.pending.clear();
                if self.opts.normalize {
                    c = to_halfwidth(c);
                }
                if is_control(c) {
                    return None;
                }
                if self.buf.len() >= self.opts.max_chars {
                    echo.push(7);
                } else {
                    self.buf.push(c);
                    if self.opts.mask {
                        echo.push(42);
                    } else {
                        let bytes = utf8_of(c);
                        push_bytes(echo, &bytes);
                    }
                }
            },
            Err(e) => {
                if e.is_some() || self.pending.len() >= 4 {
                    self.pending.clear();
                }
            },
        }
        None
    }
}

} // verus!
