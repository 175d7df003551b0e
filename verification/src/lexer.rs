//! Lexical analysis of the PRE/POST script language: numbers, identifiers
//! and symbols (one- and two-character), white space, and `#` and `//`
//! line comments in statements. Scripts are read byte by byte; a token's
//! text holds its bytes as characters.
//!
//! Also the names of the built-in functions and the word accessors that
//! scripts use on the registers read.

use vstd::prelude::*;

use crate::text::{push_char, str_eq};
use vstd::string::StringSliceAdditionalSpecFns;

verus! {

// ---------------------------------------------------------------------
// Character classes.
// ---------------------------------------------------------------------

/// An ASCII digit.
pub open spec fn is_digit_b(b: u8) -> bool {
    48 <= b && b <= 57
}

/// An ASCII letter.
pub open spec fn is_alpha_b(b: u8) -> bool {
    (65 <= b && b <= 90) || (97 <= b && b <= 122)
}

/// A byte that may start an identifier: a letter or '_'.
pub open spec fn is_ident_start_b(b: u8) -> bool {
    b == 95 || is_alpha_b(b)
}

/// A byte that may continue an identifier: a letter, a digit or '_'.
pub open spec fn is_ident_continue_b(b: u8) -> bool {
    b == 95 || is_alpha_b(b) || is_digit_b(b)
}

/// One of the one-character symbols `(){};=+-*/%,&|^<>!`.
pub open spec fn is_sym_b(b: u8) -> bool {
    b == 40 || b == 41 || b == 123 || b == 125 || b == 59 || b == 61 || b == 43 || b == 45 || b == 42
        || b == 47 || b == 37 || b == 44 || b == 38 || b == 124 || b == 94 || b == 60 || b == 62 || b == 33
}

/// One of the two-character symbols `<< >> <= >= == != && ||`.
pub open spec fn is_two_sym(a: u8, b: u8) -> bool {
    (a == 60 && b == 60) || (a == 62 && b == 62) || (a == 60 && b == 61) || (a == 62 && b == 61)
        || (a == 61 && b == 61) || (a == 33 && b == 61) || (a == 38 && b == 38) || (a == 124 && b == 124)
}

/// Whether a character is an ASCII digit.
pub fn is_digit(c: char) -> (r: bool)
    ensures
        r == ('0' <= c && c <= '9'),
{
    '0' <= c && c <= '9'
}

/// Whether a character may start an identifier: '_' or an ASCII letter.
pub fn is_ident_start(c: char) -> (r: bool)
    ensures
        r == (c == '_' || ('A' <= c && c <= 'Z') || ('a' <= c && c <= 'z')),
{
    c == '_' || ('A' <= c && c <= 'Z') || ('a' <= c && c <= 'z')
}

/// Whether a character may continue an identifier: '_', an ASCII letter or
/// digit.
pub fn is_ident_continue(c: char) -> (r: bool)
    ensures
        r == (c == '_' || ('A' <= c && c <= 'Z') || ('a' <= c && c <= 'z') || ('0' <= c && c <= '9')),
{
    c == '_' || ('A' <= c && c <= 'Z') || ('a' <= c && c <= 'z') || ('0' <= c && c <= '9')
}

/// An identifier: a letter or '_', then letters, digits or '_'.
pub open spec fn is_ident_spec(s: Seq<char>) -> bool {
    &&& s.len() > 0
    &&& (s[0] == '_' || ('A' <= s[0] && s[0] <= 'Z') || ('a' <= s[0] && s[0] <= 'z'))
    &&& forall|i: int| 1 <= i < s.len() ==> {
        let c = #[trigger] s[i];
        c == '_' || ('A' <= c && c <= 'Z') || ('a' <= c && c <= 'z') || ('0' <= c && c <= '9')
    }
}

/// Whether a string is an identifier.
pub fn is_ident(s: &str) -> (r: bool)
    ensures
        r == is_ident_spec(s@),
{
    let n = s.unicode_len();
    if n == 0 {
        return false;
    }
    if !is_ident_start(s.get_char(0)) {
        return false;
    }
    let mut i: usize = 1;
    while i < n
        invariant
            n == s@.len(),
            1 <= i <= n,
            forall|k: int| 1 <= k < i ==> {
                let c = #[trigger] s@[k];
                c == '_' || ('A' <= c && c <= 'Z') || ('a' <= c && c <= 'z') || ('0' <= c && c <= '9')
            },
        decreases n - i,
    {
        if !is_ident_continue(s.get_char(i)) {
            return false;
        }
        i = i + 1;
    }
    true
}

// ---------------------------------------------------------------------
// Tokens.
// ---------------------------------------------------------------------

/// Kind of a token.
#[derive(Clone, Copy, Debug, PartialEq, Eq, Structural)]
pub enum TokKind {
    Num,
    Ident,
    Sym,
    Eof,
}

/// A token: its kind, its text and its byte range in the source.
#[derive(Debug)]
pub struct Tok {
    pub kind: TokKind,
    pub text: String,
    pub start: usize,
    pub end: usize,
}

impl Clone for Tok {
    fn clone(&self) -> (r: Self)
        ensures
            r == *self,
    {
        Tok { kind: self.kind, text: self.text.clone(), start: self.start, end: self.end }
    }
}

/// The characters of the bytes `start..end`, one per byte.
pub open spec fn text_of(b: Seq<u8>, start: int, end: int) -> Seq<char> {
    b.subrange(start, end).map_values(|x: u8| x as char)
}

/// First index from `j` that is the end or a line feed.
pub open spec fn line_end(b: Seq<u8>, j: int) -> int
    decreases b.len() - j,
{
    if j < 0 || j >= b.len() || b[j] == 10 { j } else { line_end(b, j + 1) }
}

/// First index from `j` that is the end or not a digit.
pub open spec fn digits_end(b: Seq<u8>, j: int) -> int
    decreases b.len() - j,
{
    if j < 0 || j >= b.len() || !is_digit_b(b[j]) { j } else { digits_end(b, j + 1) }
}

/// First index from `j` that is the end or cannot continue an identifier.
pub open spec fn ident_end(b: Seq<u8>, j: int) -> int
    decreases b.len() - j,
{
    if j < 0 || j >= b.len() || !is_ident_continue_b(b[j]) { j } else { ident_end(b, j + 1) }
}

/// `line_end` does not go back.
pub proof fn lemma_line_end(b: Seq<u8>, j: int)
    requires
        0 <= j,
    ensures
        j <= line_end(b, j),
        line_end(b, j) <= b.len() || line_end(b, j) == j,
    decreases b.len() - j,
{
    if j < b.len() && b[j] != 10 {
        lemma_line_end(b, j + 1);
    }
}

/// `digits_end` does not go back.
pub proof fn lemma_digits_end(b: Seq<u8>, j: int)
    requires
        0 <= j,
    ensures
        j <= digits_end(b, j),
        digits_end(b, j) <= b.len() || digits_end(b, j) == j,
    decreases b.len() - j,
{
    if j < b.len() && is_digit_b(b[j]) {
        lemma_digits_end(b, j + 1);
    }
}

/// `ident_end` does not go back.
pub proof fn lemma_ident_end(b: Seq<u8>, j: int)
    requires
        0 <= j,
    ensures
        j <= ident_end(b, j),
        ident_end(b, j) <= b.len() || ident_end(b, j) == j,
    decreases b.len() - j,
{
    if j < b.len() && is_ident_continue_b(b[j]) {
        lemma_ident_end(b, j + 1);
    }
}

/// Where statements continue after white space (bytes up to 32) and `#`
/// or `//` comments up to the line feed.
pub open spec fn skip_ws_comments(b: Seq<u8>, i: int) -> int
    decreases b.len() - i,
{
    if i < 0 || i >= b.len() {
        i
    } else if b[i] <= 32 {
        skip_ws_comments(b, i + 1)
    } else if b[i] == 35 {
        proof {
            lemma_line_end(b, i + 1);
        }
        skip_ws_comments(b, line_end(b, i + 1))
    } else if i + 1 < b.len() && b[i] == 47 && b[i + 1] == 47 {
        proof {
            lemma_line_end(b, i + 2);
        }
        skip_ws_comments(b, line_end(b, i + 2))
    } else {
        i
    }
}

/// Where an expression continues after white space.
pub open spec fn skip_ws(b: Seq<u8>, i: int) -> int
    decreases b.len() - i,
{
    if i < 0 || i >= b.len() || b[i] > 32 { i } else { skip_ws(b, i + 1) }
}

/// End of a number's exponent at `j`: an `e`/`E`, an optional sign and at
/// least one digit; without a digit there is no exponent.
pub open spec fn exp_end(b: Seq<u8>, j: int) -> int {
    if 0 <= j < b.len() && (b[j] == 101 || b[j] == 69) {
        let k = j + 1;
        let k2 = if k < b.len() && (b[k] == 43 || b[k] == 45) { k + 1 } else { k };
        let k3 = digits_end(b, k2);
        if k3 == k2 { j } else { k3 }
    } else {
        j
    }
}

/// The token that starts at `i`: kind, byte range, and where reading goes
/// on. A lone '.' and a byte that starts no token are given as one-byte
/// symbols without moving on.
pub open spec fn scan_spec(b: Seq<u8>, i: int) -> (TokKind, int, int, int) {
    if i >= b.len() {
        (TokKind::Eof, i, i, i)
    } else if i + 1 < b.len() && is_two_sym(b[i], b[i + 1]) {
        (TokKind::Sym, i, i + 2, i + 2)
    } else if is_sym_b(b[i]) {
        (TokKind::Sym, i, i + 1, i + 1)
    } else if is_digit_b(b[i]) || b[i] == 46 {
        if b[i] == 46 && (i + 1 >= b.len() || !is_digit_b(b[i + 1])) {
            (TokKind::Sym, i, i + 1, i)
        } else {
            let j1 = if is_digit_b(b[i]) { digits_end(b, i) } else { i };
            let j2 = if j1 < b.len() && b[j1] == 46 { digits_end(b, j1 + 1) } else { j1 };
            let j3 = exp_end(b, j2);
            (TokKind::Num, i, j3, j3)
        }
    } else if is_ident_start_b(b[i]) {
        let j = ident_end(b, i + 1);
        (TokKind::Ident, i, j, j)
    } else {
        (TokKind::Sym, i, i + 1, i)
    }
}

/// A token read at `i` looks at two bytes as text; that look must end on a
/// character boundary of the UTF-8 source (the byte after it is not a
/// continuation byte).
pub open spec fn lex_ok(b: Seq<u8>, i: int) -> bool {
    !(i + 2 < b.len() && 0x80 <= b[i + 2] && b[i + 2] < 0xC0)
}

/// A token matches the model `(kind, start, end)` over the source `b`.
pub open spec fn tok_is(t: Tok, b: Seq<u8>, m: (TokKind, int, int, int)) -> bool {
    &&& t.kind == m.0
    &&& t.start == m.1
    &&& t.end == m.2
    &&& t.text@ == if m.0 == TokKind::Eof { Seq::empty() } else { text_of(b, m.1, m.2) }
}

fn bytes_text(b: &[u8], start: usize, end: usize) -> (r: String)
    requires
        start <= end <= b@.len(),
    ensures
        r@ == text_of(b@, start as int, end as int),
{
    let mut out = String::new();
    let mut k: usize = start;
    while k < end
        invariant
            start <= k <= end <= b@.len(),
            out@ == text_of(b@, start as int, k as int),
        decreases end - k,
    {
        push_char(&mut out, b[k] as char);
        k = k + 1;
        assert(out@ =~= text_of(b@, start as int, k as int));
    }
    out
}

fn is_digit_byte(x: u8) -> (r: bool)
    ensures
        r == is_digit_b(x),
{
    48 <= x && x <= 57
}

fn is_sym_byte(x: u8) -> (r: bool)
    ensures
        r == is_sym_b(x),
{
    x == 40 || x == 41 || x == 123 || x == 125 || x == 59 || x == 61 || x == 43 || x == 45 || x == 42
        || x == 47 || x == 37 || x == 44 || x == 38 || x == 124 || x == 94 || x == 60 || x == 62 || x == 33
}

fn is_two_sym_exec(a: u8, x: u8) -> (r: bool)
    ensures
        r == is_two_sym(a, x),
{
    (a == 60 && x == 60) || (a == 62 && x == 62) || (a == 60 && x == 61) || (a == 62 && x == 61)
        || (a == 61 && x == 61) || (a == 33 && x == 61) || (a == 38 && x == 38) || (a == 124 && x == 124)
}

fn digits_end_exec(b: &[u8], j0: usize) -> (j: usize)
    requires
        j0 <= b@.len(),
    ensures
        j == digits_end(b@, j0 as int),
        j0 <= j <= b@.len(),
{
    let n = b.len();
    let mut j = j0;
    while j < n && is_digit_byte(b[j])
        invariant
            n == b@.len(),
            j0 <= j <= n,
            digits_end(b@, j0 as int) == digits_end(b@, j as int),
        decreases n - j,
    {
        j = j + 1;
    }
    j
}

/// Reads the token that starts at `i` (after white space and comments).
fn scan_token(b: &[u8], i: usize) -> (r: (Tok, usize))
    requires
        i <= b@.len(),
        lex_ok(b@, i as int),
    ensures
        tok_is(r.0, b@, scan_spec(b@, i as int)),
        r.1 == scan_spec(b@, i as int).3,
        r.1 <= b@.len(),
{
    let n = b.len();
    if i >= n {
        return (Tok { kind: TokKind::Eof, text: String::new(), start: i, end: i }, i);
    }
    let start = i;
    if i + 1 < n {
        if is_two_sym_exec(b[i], b[i + 1]) {
            let t = bytes_text(b, i, i + 2);
            return (Tok { kind: TokKind::Sym, text: t, start, end: i + 2 }, i + 2);
        }
    }
    let c = b[i];
    if is_sym_byte(c) {
        let t = bytes_text(b, i, i + 1);
        return (Tok { kind: TokKind::Sym, text: t, start, end: i + 1 }, i + 1);
    }
    if is_digit_byte(c) || c == 46 {
        if c == 46 && (i + 1 >= n || !is_digit_byte(b[i + 1])) {
            let t = bytes_text(b, i, i + 1);
            return (Tok { kind: TokKind::Sym, text: t, start, end: i + 1 }, i);
        }
        let mut j: usize = i;
        if is_digit_byte(c) {
            j = digits_end_exec(b, i);
        }
        if j < n && b[j] == 46 {
            j = digits_end_exec(b, j + 1);
        }
        let ghost j2 = j;
        if j < n {
            let e = b[j];
            if e == 101 || e == 69 {
                let exp_pos = j;
                let mut k = j + 1;
                if k < n {
                    let sgn = b[k];
                    if sgn == 43 || sgn == 45 {
                        k = k + 1;
                    }
                }
                let ds = k;
                let k3 = digits_end_exec(b, ds);
                if k3 == ds {
                    j = exp_pos;
                } else {
                    j = k3;
                }
            }
        }
        assert(j == exp_end(b@, j2 as int));
        proof {
            lemma_digits_end(b@, i as int);
        }
        let t = bytes_text(b, start, j);
        return (Tok { kind: TokKind::Num, text: t, start, end: j }, j);
    }
    if c == 95 || (65 <= c && c <= 90) || (97 <= c && c <= 122) {
        let mut j: usize = i + 1;
        while j < n && (b[j] == 95 || (65 <= b[j] && b[j] <= 90) || (97 <= b[j] && b[j] <= 122) || is_digit_byte(b[j]))
            invariant
                n == b@.len(),
                i + 1 <= j <= n,
                ident_end(b@, i + 1) == ident_end(b@, j as int),
            decreases n - j,
        {
            j = j + 1;
        }
        let t = bytes_text(b, start, j);
        return (Tok { kind: TokKind::Ident, text: t, start, end: j }, j);
    }
    let t = bytes_text(b, i, i + 1);
    (Tok { kind: TokKind::Sym, text: t, start, end: i + 1 }, i)
}

fn skip_ws_comments_exec(b: &[u8], i0: usize) -> (i: usize)
    requires
        i0 <= b@.len(),
    ensures
        i == skip_ws_comments(b@, i0 as int),
        i <= b@.len(),
{
    let n = b.len();
    let mut i = i0;
    while i < n
        invariant
            n == b@.len(),
            i <= n,
            skip_ws_comments(b@, i0 as int) == skip_ws_comments(b@, i as int),
        ensures
            i <= n,
            skip_ws_comments(b@, i0 as int) == i,
        decreases n - i,
    {
        let x = b[i];
        if x <= 32 {
            i = i + 1;
            continue;
        }
        if x == 35 {
            let ghost from = i;
            i = i + 1;
            while i < n && b[i] != 10
                invariant
                    n == b@.len(),
                    from < i <= n,
                    line_end(b@, from + 1) == line_end(b@, i as int),
                decreases n - i,
            {
                i = i + 1;
            }
            continue;
        }
        if i + 1 < n && x == 47 && b[i + 1] == 47 {
            let ghost from = i;
            i = i + 2;
            while i < n && b[i] != 10
                invariant
                    n == b@.len(),
                    from + 2 <= i <= n,
                    line_end(b@, from + 2) == line_end(b@, i as int),
                decreases n - i,
            {
                i = i + 1;
            }
            continue;
        }
        break;
    }
    i
}

fn skip_ws_exec(b: &[u8], i0: usize) -> (i: usize)
    requires
        i0 <= b@.len(),
    ensures
        i == skip_ws(b@, i0 as int),
        i <= b@.len(),
{
    let n = b.len();
    let mut i = i0;
    while i < n && b[i] <= 32
        invariant
            n == b@.len(),
            i0 <= i <= n,
            skip_ws(b@, i0 as int) == skip_ws(b@, i as int),
        decreases n - i,
    {
        i = i + 1;
    }
    i
}

// ---------------------------------------------------------------------
// Statement tokenizer.
// ---------------------------------------------------------------------

/// The token a statement tokenizer reads from `i`, and where it goes on.
pub open spec fn script_read(b: Seq<u8>, i: int) -> (TokKind, int, int, int) {
    scan_spec(b, skip_ws_comments(b, i))
}

/// The `n` reads from `i` stay on character boundaries.
pub open spec fn script_reads_ok(b: Seq<u8>, i: int, n: nat) -> bool
    decreases n,
{
    n == 0 || (lex_ok(b, skip_ws_comments(b, i)) && script_reads_ok(b, script_read(b, i).3, (n - 1) as nat))
}

/// The token of the `n`-th read from `i` (n >= 1).
pub open spec fn script_nth(b: Seq<u8>, i: int, n: nat) -> (TokKind, int, int, int)
    decreases n,
{
    if n <= 1 { script_read(b, i) } else { script_nth(b, script_read(b, i).3, (n - 1) as nat) }
}

/// The text of a token model.
pub open spec fn model_text(b: Seq<u8>, m: (TokKind, int, int, int)) -> Seq<char> {
    if m.0 == TokKind::Eof { Seq::empty() } else { text_of(b, m.1, m.2) }
}

/// Tokenizer of statements, with one token of look-ahead.
pub struct Tokenizer<'a> {
    b: &'a [u8],
    i: usize,
    next_tok: Tok,
}

impl<'a> Tokenizer<'a> {
    /// Where reading goes on.
    pub fn position(&self) -> (r: usize)
        ensures
            r == self.pos(),
            self.wf() ==> r <= self.src().len(),
    {
        self.i
    }

    /// The source bytes.
    pub closed spec fn src(&self) -> Seq<u8> {
        self.b@
    }

    /// Where reading goes on.
    pub closed spec fn pos(&self) -> int {
        self.i as int
    }

    /// The look-ahead token.
    pub closed spec fn peeked(&self) -> Tok {
        self.next_tok
    }

    /// The position is inside the source.
    pub closed spec fn wf(&self) -> bool {
        self.i <= self.b@.len()
    }

    /// A tokenizer over `s`, with its first token read.
    pub fn new(s: &'a str) -> (t: Self)
        requires
            lex_ok(s.spec_bytes(), skip_ws_comments(s.spec_bytes(), 0)),
        ensures
            t.wf(),
            t.src() == s.spec_bytes(),
            tok_is(t.peeked(), t.src(), script_read(t.src(), 0)),
            t.pos() == script_read(t.src(), 0).3,
    {
        let b = s.as_bytes();
        let mut t = Tokenizer { b, i: 0, next_tok: Tok { kind: TokKind::Eof, text: String::new(), start: 0, end: 0 } };
        let tok = t.read();
        t.next_tok = tok;
        t
    }

    /// The look-ahead token.
    pub fn peek(&self) -> (r: &Tok)
        ensures
            *r == self.peeked(),
    {
        &self.next_tok
    }

    /// Whether the look-ahead token's text is `t`.
    pub fn peek_text(&self, t: &str) -> (r: bool)
        ensures
            r == (self.peeked().text@ == t@),
    {
        str_eq(self.next_tok.text.as_str(), t)
    }

    /// Whether the look-ahead token is the identifier `k`.
    pub fn is_kw(&self, k: &str) -> (r: bool)
        ensures
            r == (self.peeked().kind == TokKind::Ident && self.peeked().text@ == k@),
    {
        self.next_tok.kind == TokKind::Ident && str_eq(self.next_tok.text.as_str(), k)
    }

    /// Whether the token `n` reads ahead (the look-ahead token itself for
    /// 0) has the text `text`; the tokenizer is left as it was.
    pub fn peek_ahead_text(&mut self, n: usize, text: &str) -> (r: bool)
        requires
            old(self).wf(),
            script_reads_ok(old(self).src(), old(self).pos(), n as nat),
        ensures
            *final(self) == *old(self),
            r == if n == 0 {
                old(self).peeked().text@ == text@
            } else {
                model_text(old(self).src(), script_nth(old(self).src(), old(self).pos(), n as nat)) == text@
            },
    {
        let save_i = self.i;
        let save_tok = self.next_tok.clone();
        let mut tok = self.next_tok.clone();
        let mut k: usize = 0;
        while k < n
            invariant
                self.wf(),
                self.b == old(self).b,
                k <= n,
                script_reads_ok(self.b@, self.i as int, (n - k) as nat),
                k > 0 ==> tok_is(tok, self.b@, script_nth(old(self).src(), old(self).pos(), k as nat)),
                k > 0 ==> self.i == script_nth(old(self).src(), old(self).pos(), k as nat).3,
                k == 0 ==> self.i == old(self).i && tok == old(self).next_tok,
            decreases n - k,
        {
            let ghost before = self.i as int;
            tok = self.read();
            proof {
                lemma_script_nth_step(old(self).src(), old(self).pos(), k as nat, before);
            }
            k = k + 1;
        }
        let ok = str_eq(tok.text.as_str(), text);
        self.i = save_i;
        self.next_tok = save_tok;
        ok
    }

    /// Takes the look-ahead token and reads the next one.
    pub fn next(&mut self) -> (r: Tok)
        requires
            old(self).wf(),
            lex_ok(old(self).src(), skip_ws_comments(old(self).src(), old(self).pos())),
        ensures
            final(self).wf(),
            r == old(self).peeked(),
            final(self).src() == old(self).src(),
            tok_is(final(self).peeked(), old(self).src(), script_read(old(self).src(), old(self).pos())),
            final(self).pos() == script_read(old(self).src(), old(self).pos()).3,
    {
        let cur = self.next_tok.clone();
        self.next_tok = self.read();
        cur
    }

    /// Takes the look-ahead token when its text is `t`; otherwise reports
    /// what was expected and what came, and leaves the tokenizer as it is.
    pub fn expect(&mut self, t: &str) -> (r: Result<(), String>)
        requires
            old(self).wf(),
            old(self).peeked().text@ == t@ ==> lex_ok(old(self).src(), skip_ws_comments(old(self).src(), old(self).pos())),
        ensures
            final(self).wf(),
            final(self).src() == old(self).src(),
            old(self).peeked().text@ != t@ ==> {
                &&& *final(self) == *old(self)
                &&& r matches Err(e) && e@ == "SCRIPT: expected \""@ + t@ + "\", got \""@ + old(self).peeked().text@ + "\""@
            },
            old(self).peeked().text@ == t@ ==> {
                &&& r is Ok
                &&& tok_is(final(self).peeked(), old(self).src(), script_read(old(self).src(), old(self).pos()))
                &&& final(self).pos() == script_read(old(self).src(), old(self).pos()).3
            },
    {
        if !str_eq(self.next_tok.text.as_str(), t) {
            let mut e = String::from_str("SCRIPT: expected \"");
            e.append(t);
            e.append("\", got \"");
            e.append(self.next_tok.text.as_str());
            e.append("\"");
            return Err(e);
        }
        self.next();
        Ok(())
    }

    /// Reads the next token from the current position.
    pub fn read(&mut self) -> (r: Tok)
        requires
            old(self).wf(),
            lex_ok(old(self).src(), skip_ws_comments(old(self).src(), old(self).pos())),
        ensures
            final(self).wf(),
            final(self).src() == old(self).src(),
            final(self).peeked() == old(self).peeked(),
            tok_is(r, old(self).src(), script_read(old(self).src(), old(self).pos())),
            final(self).pos() == script_read(old(self).src(), old(self).pos()).3,
    {
        self.skip_ws_and_comments();
        let (tok, next) = scan_token(self.b, self.i);
        self.i = next;
        tok
    }

    /// Moves past white space and comments.
    pub fn skip_ws_and_comments(&mut self)
        requires
            old(self).wf(),
        ensures
            final(self).wf(),
            final(self).src() == old(self).src(),
            final(self).peeked() == old(self).peeked(),
            final(self).pos() == skip_ws_comments(old(self).src(), old(self).pos()),
    {
        self.i = skip_ws_comments_exec(self.b, self.i);
    }
}

proof fn lemma_script_nth_step(b: Seq<u8>, i: int, k: nat, before: int)
    requires
        k == 0 ==> before == i,
        k > 0 ==> before == script_nth(b, i, k).3,
    ensures
        script_nth(b, i, k + 1) == script_read(b, before),
    decreases k,
{
    if k > 0 {
        if k == 1 {
            assert(script_nth(b, i, 1) == script_read(b, i));
        }
        lemma_script_nth_step(b, script_read(b, i).3, (k - 1) as nat, before);
    }
}

// ---------------------------------------------------------------------
// Expression tokenizer.
// ---------------------------------------------------------------------

/// The token an expression tokenizer reads from `i`, and where it goes on.
pub open spec fn expr_read(b: Seq<u8>, i: int) -> (TokKind, int, int, int) {
    scan_spec(b, skip_ws(b, i))
}

/// Tokenizer of expressions (white space only, no comments), with one
/// token of look-ahead.
pub struct ExprTokenizer<'a> {
    b: &'a [u8],
    i: usize,
    next_tok: Tok,
}

impl<'a> ExprTokenizer<'a> {
    /// Where reading goes on.
    pub fn position(&self) -> (r: usize)
        ensures
            r == self.pos(),
            self.wf() ==> r <= self.src().len(),
    {
        self.i
    }

    /// The source bytes.
    pub closed spec fn src(&self) -> Seq<u8> {
        self.b@
    }

    /// Where reading goes on.
    pub closed spec fn pos(&self) -> int {
        self.i as int
    }

    /// The look-ahead token.
    pub closed spec fn peeked(&self) -> Tok {
        self.next_tok
    }

    /// The position is inside the source.
    pub closed spec fn wf(&self) -> bool {
        self.i <= self.b@.len()
    }

    /// A tokenizer over the bytes `b`, with its first token read.
    pub fn from_bytes(b: &'a [u8]) -> (t: Self)
        requires
            lex_ok(b@, skip_ws(b@, 0)),
        ensures
            t.wf(),
            t.src() == b@,
            tok_is(t.peeked(), t.src(), expr_read(t.src(), 0)),
            t.pos() == expr_read(t.src(), 0).3,
    {
        let mut t = ExprTokenizer { b, i: 0, next_tok: Tok { kind: TokKind::Eof, text: String::new(), start: 0, end: 0 } };
        let tok = t.read();
        t.next_tok = tok;
        t
    }

    /// A tokenizer over `s`, with its first token read.
    pub fn new(s: &'a str) -> (t: Self)
        requires
            lex_ok(s.spec_bytes(), skip_ws(s.spec_bytes(), 0)),
        ensures
            t.wf(),
            t.src() == s.spec_bytes(),
            tok_is(t.peeked(), t.src(), expr_read(t.src(), 0)),
            t.pos() == expr_read(t.src(), 0).3,
    {
        let b = s.as_bytes();
        let mut t = ExprTokenizer { b, i: 0, next_tok: Tok { kind: TokKind::Eof, text: String::new(), start: 0, end: 0 } };
        let tok = t.read();
        t.next_tok = tok;
        t
    }

    /// The look-ahead token.
    pub fn peek(&self) -> (r: &Tok)
        ensures
            *r == self.peeked(),
    {
        &self.next_tok
    }

    /// Whether the look-ahead token's text is `t`.
    pub fn peek_text(&self, t: &str) -> (r: bool)
        ensures
            r == (self.peeked().text@ == t@),
    {
        str_eq(self.next_tok.text.as_str(), t)
    }

    /// Takes the look-ahead token and reads the next one.
    pub fn next(&mut self) -> (r: Tok)
        requires
            old(self).wf(),
            lex_ok(old(self).src(), skip_ws(old(self).src(), old(self).pos())),
        ensures
            final(self).wf(),
            r == old(self).peeked(),
            final(self).src() == old(self).src(),
            tok_is(final(self).peeked(), old(self).src(), expr_read(old(self).src(), old(self).pos())),
            final(self).pos() == expr_read(old(self).src(), old(self).pos()).3,
    {
        let cur = self.next_tok.clone();
        self.next_tok = self.read();
        cur
    }

    /// Takes the look-ahead token when its text is `t`; otherwise reports
    /// what was expected and what came, and leaves the tokenizer as it is.
    pub fn expect(&mut self, t: &str) -> (r: Result<(), String>)
        requires
            old(self).wf(),
            old(self).peeked().text@ == t@ ==> lex_ok(old(self).src(), skip_ws(old(self).src(), old(self).pos())),
        ensures
            final(self).wf(),
            final(self).src() == old(self).src(),
            old(self).peeked().text@ != t@ ==> {
                &&& *final(self) == *old(self)
                &&& r matches Err(e) && e@ == "SCRIPT expr: expected \""@ + t@ + "\", got \""@ + old(self).peeked().text@ + "\""@
            },
            old(self).peeked().text@ == t@ ==> {
                &&& r is Ok
                &&& tok_is(final(self).peeked(), old(self).src(), expr_read(old(self).src(), old(self).pos()))
                &&& final(self).pos() == expr_read(old(self).src(), old(self).pos()).3
            },
    {
        if !str_eq(self.next_tok.text.as_str(), t) {
            let mut e = String::from_str("SCRIPT expr: expected \"");
            e.append(t);
            e.append("\", got \"");
            e.append(self.next_tok.text.as_str());
            e.append("\"");
            return Err(e);
        }
        self.next();
        Ok(())
    }

    /// Reads the next token from the current position.
    pub fn read(&mut self) -> (r: Tok)
        requires
            old(self).wf(),
            lex_ok(old(self).src(), skip_ws(old(self).src(), old(self).pos())),
        ensures
            final(self).wf(),
            final(self).src() == old(self).src(),
            final(self).peeked() == old(self).peeked(),
            tok_is(r, old(self).src(), expr_read(old(self).src(), old(self).pos())),
            final(self).pos() == expr_read(old(self).src(), old(self).pos()).3,
    {
        self.i = skip_ws_exec(self.b, self.i);
        let (tok, next) = scan_token(self.b, self.i);
        self.i = next;
        tok
    }
}

// ---------------------------------------------------------------------
// Built-in functions.
// ---------------------------------------------------------------------

/// Built-in functions of one argument.
#[derive(Clone, Copy, Debug, PartialEq, Eq, Structural)]
pub enum Call1 {
    U16,
    I16,
    U32,
    I32,
    F32,
    Dt2Unix,
    Rv,
    Print,
    Abs,
    Sqrt,
    Floor,
    Ceil,
    Round,
}

/// Built-in functions of two arguments.
#[derive(Clone, Copy, Debug, PartialEq, Eq, Structural)]
pub enum Call2 {
    Bit,
    Av,
    Print2,
    Min,
    Max,
    Pow,
}

/// Built-in functions of three arguments.
#[derive(Clone, Copy, Debug, PartialEq, Eq, Structural)]
pub enum Call3 {
    Clamp,
}

/// The error for a name that is no built-in function.
pub open spec fn unknown_function(name: Seq<char>) -> Seq<char> {
    "SCRIPT expr: unknown function \""@ + name + "\""@
}

/// The one-argument function a name stands for.
pub open spec fn call1_spec(name: Seq<char>) -> Option<Call1> {
    if name == "u16"@ { Some(Call1::U16) }
    else if name == "i16"@ { Some(Call1::I16) }
    else if name == "u32"@ { Some(Call1::U32) }
    else if name == "i32"@ { Some(Call1::I32) }
    else if name == "f32"@ { Some(Call1::F32) }
    else if name == "dt2unix"@ { Some(Call1::Dt2Unix) }
    else if name == "rv"@ { Some(Call1::Rv) }
    else if name == "print"@ { Some(Call1::Print) }
    else if name == "abs"@ { Some(Call1::Abs) }
    else if name == "sqrt"@ { Some(Call1::Sqrt) }
    else if name == "floor"@ { Some(Call1::Floor) }
    else if name == "ceil"@ { Some(Call1::Ceil) }
    else if name == "round"@ { Some(Call1::Round) }
    else { None }
}

/// The two-argument function a name stands for.
pub open spec fn call2_spec(name: Seq<char>) -> Option<Call2> {
    if name == "bit"@ { Some(Call2::Bit) }
    else if name == "av"@ { Some(Call2::Av) }
    else if name == "print2"@ { Some(Call2::Print2) }
    else if name == "min"@ { Some(Call2::Min) }
    else if name == "max"@ { Some(Call2::Max) }
    else if name == "pow"@ { Some(Call2::Pow) }
    else { None }
}

fn unknown_function_error(name: &str) -> (e: String)
    ensures
        e@ == unknown_function(name@),
{
    let mut e = String::from_str("SCRIPT expr: unknown function \"");
    e.append(name);
    e.append("\"");
    e
}

/// Maps a function name to the one-argument built-in.
pub fn map_call1(name: &str) -> (r: Result<Call1, String>)
    ensures
        match (r, call1_spec(name@)) {
            (Ok(c), Some(sc)) => c == sc,
            (Err(e), None) => e@ == unknown_function(name@),
            _ => false,
        },
{
    if str_eq(name, "u16") { Ok(Call1::U16) }
    else if str_eq(name, "i16") { Ok(Call1::I16) }
    else if str_eq(name, "u32") { Ok(Call1::U32) }
    else if str_eq(name, "i32") { Ok(Call1::I32) }
    else if str_eq(name, "f32") { Ok(Call1::F32) }
    else if str_eq(name, "dt2unix") { Ok(Call1::Dt2Unix) }
    else if str_eq(name, "rv") { Ok(Call1::Rv) }
    else if str_eq(name, "print") { Ok(Call1::Print) }
    else if str_eq(name, "abs") { Ok(Call1::Abs) }
    else if str_eq(name, "sqrt") { Ok(Call1::Sqrt) }
    else if str_eq(name, "floor") { Ok(Call1::Floor) }
    else if str_eq(name, "ceil") { Ok(Call1::Ceil) }
    else if str_eq(name, "round") { Ok(Call1::Round) }
    else { Err(unknown_function_error(name)) }
}

/// Maps a function name to the two-argument built-in.
pub fn map_call2(name: &str) -> (r: Result<Call2, String>)
    ensures
        match (r, call2_spec(name@)) {
            (Ok(c), Some(sc)) => c == sc,
            (Err(e), None) => e@ == unknown_function(name@),
            _ => false,
        },
{
    if str_eq(name, "bit") { Ok(Call2::Bit) }
    else if str_eq(name, "av") { Ok(Call2::Av) }
    else if str_eq(name, "print2") { Ok(Call2::Print2) }
    else if str_eq(name, "min") { Ok(Call2::Min) }
    else if str_eq(name, "max") { Ok(Call2::Max) }
    else if str_eq(name, "pow") { Ok(Call2::Pow) }
    else { Err(unknown_function_error(name)) }
}

/// Maps a function name to the three-argument built-in.
pub fn map_call3(name: &str) -> (r: Result<Call3, String>)
    ensures
        name@ == "clamp"@ ==> r == Ok::<Call3, String>(Call3::Clamp),
        name@ != "clamp"@ ==> (r matches Err(e) && e@ == unknown_function(name@)),
{
    if str_eq(name, "clamp") {
        Ok(Call3::Clamp)
    } else {
        Err(unknown_function_error(name))
    }
}

// ---------------------------------------------------------------------
// Word accessors.
// ---------------------------------------------------------------------

/// Word `i` of the registers read, unsigned; 0 outside them.
pub open spec fn word_u16_spec(words: Seq<u16>, i: int) -> int {
    if i < 0 || i >= words.len() { 0 } else { words[i] as int }
}

/// Words `i` and `i + 1` as an unsigned 32-bit value, the first word high
/// (`hi_lo`) or low; 0 when they are not both there.
pub open spec fn word_u32_spec(words: Seq<u16>, i: int, hi_lo: bool) -> int {
    if i < 0 || i + 1 >= words.len() {
        0
    } else if hi_lo {
        words[i] * 65536 + words[i + 1]
    } else {
        words[i + 1] * 65536 + words[i]
    }
}

/// `u16(i)`: word `i`, unsigned.
pub fn u16(words: &[u16], i: i32) -> (r: i64)
    ensures
        r == word_u16_spec(words@, i as int),
{
    if i < 0 || i as usize >= words.len() {
        return 0;
    }
    words[i as usize] as i64
}

/// `i16(i)`: word `i`, signed.
pub fn i16(words: &[u16], i: i32) -> (r: i64)
    ensures
        r == if word_u16_spec(words@, i as int) >= 0x8000 { word_u16_spec(words@, i as int) - 0x10000 } else { word_u16_spec(words@, i as int) },
{
    let v = u16(words, i);
    assert(((v & 0x8000i64) != 0) == (v >= 0x8000)) by (bit_vector)
        requires
            0 <= v <= 0xFFFF,
    ;
    if (v & 0x8000) != 0 {
        v - 0x10000
    } else {
        v
    }
}

/// `u32(i)`: words `i` and `i + 1`, unsigned.
pub fn u32(words: &[u16], i: i32, hi_lo: bool) -> (r: i64)
    requires
        i < i32::MAX,
    ensures
        r == word_u32_spec(words@, i as int, hi_lo),
{
    if i < 0 || (i + 1) as usize >= words.len() {
        return 0;
    }
    let w0 = words[i as usize] as i64;
    let w1 = words[(i + 1) as usize] as i64;
    assert(((w0 << 16i64) | w1) == w0 * 65536 + w1 && ((w1 << 16i64) | w0) == w1 * 65536 + w0) by (bit_vector)
        requires
            0 <= w0 <= 0xFFFF,
            0 <= w1 <= 0xFFFF,
    ;
    if hi_lo {
        (w0 << 16) | w1
    } else {
        (w1 << 16) | w0
    }
}

/// `i32(i)`: words `i` and `i + 1`, signed.
pub fn i32v(words: &[u16], i: i32, hi_lo: bool) -> (r: i64)
    requires
        i < i32::MAX,
    ensures
        r == if word_u32_spec(words@, i as int, hi_lo) >= 0x8000_0000 {
            word_u32_spec(words@, i as int, hi_lo) - 0x1_0000_0000
        } else {
            word_u32_spec(words@, i as int, hi_lo)
        },
{
    let v = u32(words, i, hi_lo);
    assert(((v & 0x8000_0000i64) != 0) == (v >= 0x8000_0000)) by (bit_vector)
        requires
            0 <= v <= 0xFFFF_FFFF,
    ;
    if (v & 0x8000_0000) != 0 {
        v - 0x1_0000_0000
    } else {
        v
    }
}

/// `bit(i, b)`: bit `b` (0..=15) of word `i`; 0 outside.
pub fn bit(words: &[u16], i: i32, b: i32) -> (r: i64)
    ensures
        r == if i < 0 || i >= words@.len() || b < 0 || b > 15 { 0 } else { ((words@[i as int] >> (b as u16)) & 1u16) as int },
{
    if i < 0 || i as usize >= words.len() {
        return 0;
    }
    if !(0 <= b && b <= 15) {
        return 0;
    }
    let w = words[i as usize];
    ((w >> (b as u16)) & 1) as i64
}

} // verus!
