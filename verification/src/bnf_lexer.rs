//! The grammar-text lexer. Whitespace and `#`-to-end-of-line comments are
//! skipped; a run of consecutive `|` characters is one `Pipes` token whose
//! length carries the branch weight; the literal word `EOF` lexes as the
//! `EOF` token. An unlexable character truncates the token stream, and the
//! parser reports that as an unexpected-token error.

use vstd::prelude::*;

verus! {

#[derive(Clone, Copy, Debug, PartialEq, Eq, Structural)]
pub enum TokenKind {
    Identifier,
    Number,
    LParen,
    RParen,
    Pipes,
    Colon,
    End,
    Comma,
    EOF,
}

/// One lexed token: its kind and the half-open character range of its text.
#[derive(Clone, Copy, Debug, PartialEq, Eq, Structural)]
pub struct Tok {
    pub kind: TokenKind,
    pub start: usize,
    pub end: usize,
}

pub open spec fn is_ws_char(c: char) -> bool {
    c == ' ' || c == '\t' || c == '\n' || c == '\u{c}'
}

pub open spec fn is_ident_start_char(c: char) -> bool {
    ('a' <= c && c <= 'z') || ('A' <= c && c <= 'Z') || c == '_'
}

pub open spec fn is_digit_char(c: char) -> bool {
    '0' <= c && c <= '9'
}

pub open spec fn is_ident_cont_char(c: char) -> bool {
    is_ident_start_char(c) || is_digit_char(c)
}

/// The first position at or after `i` that does not continue an identifier.
pub open spec fn ident_end(s: Seq<char>, i: int) -> int
    decreases s.len() - i,
{
    if 0 <= i < s.len() && is_ident_cont_char(s[i]) {
        let j = ident_end(s, i + 1);
        if j < i + 1 {
            i + 1
        } else {
            j
        }
    } else {
        i
    }
}

/// The first position at or after `i` that is not a digit.
pub open spec fn digit_end(s: Seq<char>, i: int) -> int
    decreases s.len() - i,
{
    if 0 <= i < s.len() && is_digit_char(s[i]) {
        let j = digit_end(s, i + 1);
        if j < i + 1 {
            i + 1
        } else {
            j
        }
    } else {
        i
    }
}

/// The first position at or after `i` that is not a `|`.
pub open spec fn pipes_end(s: Seq<char>, i: int) -> int
    decreases s.len() - i,
{
    if 0 <= i < s.len() && s[i] == '|' {
        let j = pipes_end(s, i + 1);
        if j < i + 1 {
            i + 1
        } else {
            j
        }
    } else {
        i
    }
}

/// The first newline at or after `i`, or the end of input: where a comment
/// stops.
pub open spec fn comment_end(s: Seq<char>, i: int) -> int
    decreases s.len() - i,
{
    if 0 <= i < s.len() && s[i] != '\n' {
        let j = comment_end(s, i + 1);
        if j < i + 1 {
            i + 1
        } else {
            j
        }
    } else {
        i
    }
}

pub proof fn lemma_ident_end_bounds(s: Seq<char>, i: int)
    requires
        0 <= i <= s.len(),
    ensures
        i <= ident_end(s, i) <= s.len(),
    decreases s.len() - i,
{
    if i < s.len() && is_ident_cont_char(s[i]) {
        lemma_ident_end_bounds(s, i + 1);
    }
}

pub proof fn lemma_digit_end_bounds(s: Seq<char>, i: int)
    requires
        0 <= i <= s.len(),
    ensures
        i <= digit_end(s, i) <= s.len(),
    decreases s.len() - i,
{
    if i < s.len() && is_digit_char(s[i]) {
        lemma_digit_end_bounds(s, i + 1);
    }
}

pub proof fn lemma_pipes_end_bounds(s: Seq<char>, i: int)
    requires
        0 <= i <= s.len(),
    ensures
        i <= pipes_end(s, i) <= s.len(),
    decreases s.len() - i,
{
    if i < s.len() && s[i] == '|' {
        lemma_pipes_end_bounds(s, i + 1);
    }
}

pub proof fn lemma_comment_end_bounds(s: Seq<char>, i: int)
    requires
        0 <= i <= s.len(),
    ensures
        i <= comment_end(s, i) <= s.len(),
    decreases s.len() - i,
{
    if i < s.len() && s[i] != '\n' {
        lemma_comment_end_bounds(s, i + 1);
    }
}

/// Clamp a scan result so that positions always move forward and stay in
/// range; the scan-bound lemmas show the clamp is never exercised.
pub open spec fn step_to(len: int, i: int, j: int) -> int {
    if i < j && j <= len {
        j
    } else {
        i + 1
    }
}

/// The identifier text `EOF`, spelled out by characters.
pub open spec fn is_eof_text(t: Seq<char>) -> bool {
    t.len() == 3 && t[0] == 'E' && t[1] == 'O' && t[2] == 'F'
}

/// A ghost token: its kind and its text.
pub type TokS = (TokenKind, Seq<char>);

/// The token stream of `s` from position `i`, ending at the end of input or
/// at the first unlexable character.
pub open spec fn spec_lex(s: Seq<char>, i: int) -> Seq<TokS>
    decreases s.len() - i,
{
    let len = s.len() as int;
    if i < 0 || i >= len {
        Seq::<TokS>::empty()
    } else {
        let c = s[i];
        if is_ws_char(c) {
            spec_lex(s, i + 1)
        } else if c == '#' {
            spec_lex(s, step_to(len, i, comment_end(s, i)))
        } else if is_ident_start_char(c) {
            let j = step_to(len, i, ident_end(s, i));
            let text = s.subrange(i, j);
            let kind = if is_eof_text(text) {
                TokenKind::EOF
            } else {
                TokenKind::Identifier
            };
            seq![(kind, text)] + spec_lex(s, j)
        } else if is_digit_char(c) {
            let j = step_to(len, i, digit_end(s, i));
            seq![(TokenKind::Number, s.subrange(i, j))] + spec_lex(s, j)
        } else if c == '|' {
            let j = step_to(len, i, pipes_end(s, i));
            seq![(TokenKind::Pipes, s.subrange(i, j))] + spec_lex(s, j)
        } else if c == '(' {
            seq![(TokenKind::LParen, s.subrange(i, i + 1))] + spec_lex(s, i + 1)
        } else if c == ')' {
            seq![(TokenKind::RParen, s.subrange(i, i + 1))] + spec_lex(s, i + 1)
        } else if c == ':' {
            seq![(TokenKind::Colon, s.subrange(i, i + 1))] + spec_lex(s, i + 1)
        } else if c == ';' {
            seq![(TokenKind::End, s.subrange(i, i + 1))] + spec_lex(s, i + 1)
        } else if c == ',' {
            seq![(TokenKind::Comma, s.subrange(i, i + 1))] + spec_lex(s, i + 1)
        } else {
            Seq::<TokS>::empty()
        }
    }
}

/// Whether lexing from `i` reaches the end of input without an unlexable
/// character.
pub open spec fn spec_lex_ok(s: Seq<char>, i: int) -> bool
    decreases s.len() - i,
{
    let len = s.len() as int;
    if i < 0 || i >= len {
        true
    } else {
        let c = s[i];
        if is_ws_char(c) {
            spec_lex_ok(s, i + 1)
        } else if c == '#' {
            spec_lex_ok(s, step_to(len, i, comment_end(s, i)))
        } else if is_ident_start_char(c) {
            spec_lex_ok(s, step_to(len, i, ident_end(s, i)))
        } else if is_digit_char(c) {
            spec_lex_ok(s, step_to(len, i, digit_end(s, i)))
        } else if c == '|' {
            spec_lex_ok(s, step_to(len, i, pipes_end(s, i)))
        } else if c == '(' || c == ')' || c == ':' || c == ';' || c == ',' {
            spec_lex_ok(s, i + 1)
        } else {
            false
        }
    }
}

/// The ghost view of a lexed token vector: each range replaced by its text.
pub open spec fn toks_view(toks: Seq<Tok>, s: Seq<char>) -> Seq<TokS> {
    toks.map(|k: int, t: Tok| (t.kind, s.subrange(t.start as int, t.end as int)))
}

/// Every stored range is well-formed and within the input.
pub open spec fn toks_wf(toks: Seq<Tok>, s: Seq<char>) -> bool {
    forall|k: int|
        0 <= k < toks.len() ==> #[trigger] toks[k].start <= toks[k].end <= s.len()
}

fn is_ws(c: char) -> (r: bool)
    ensures
        r == is_ws_char(c),
{
    c == ' ' || c == '\t' || c == '\n' || c == '\u{c}'
}

fn is_ident_start(c: char) -> (r: bool)
    ensures
        r == is_ident_start_char(c),
{
    (c >= 'a' && c <= 'z') || (c >= 'A' && c <= 'Z') || c == '_'
}

fn is_digit(c: char) -> (r: bool)
    ensures
        r == is_digit_char(c),
{
    c >= '0' && c <= '9'
}

fn is_ident_cont(c: char) -> (r: bool)
    ensures
        r == is_ident_cont_char(c),
{
    is_ident_start(c) || is_digit(c)
}

fn scan_ident(s: &Vec<char>, i: usize) -> (r: usize)
    requires
        i <= s@.len(),
    ensures
        r == ident_end(s@, i as int),
        i <= r <= s@.len(),
    decreases s@.len() - i,
{
    proof {
        lemma_ident_end_bounds(s@, i as int);
    }
    if i < s.len() && is_ident_cont(s[i]) {
        scan_ident(s, i + 1)
    } else {
        i
    }
}

fn scan_digits(s: &Vec<char>, i: usize) -> (r: usize)
    requires
        i <= s@.len(),
    ensures
        r == digit_end(s@, i as int),
        i <= r <= s@.len(),
    decreases s@.len() - i,
{
    proof {
        lemma_digit_end_bounds(s@, i as int);
    }
    if i < s.len() && is_digit(s[i]) {
        scan_digits(s, i + 1)
    } else {
        i
    }
}

fn scan_pipes(s: &Vec<char>, i: usize) -> (r: usize)
    requires
        i <= s@.len(),
    ensures
        r == pipes_end(s@, i as int),
        i <= r <= s@.len(),
    decreases s@.len() - i,
{
    proof {
        lemma_pipes_end_bounds(s@, i as int);
    }
    if i < s.len() && s[i] == '|' {
        scan_pipes(s, i + 1)
    } else {
        i
    }
}

fn scan_comment(s: &Vec<char>, i: usize) -> (r: usize)
    requires
        i <= s@.len(),
    ensures
        r == comment_end(s@, i as int),
        i <= r <= s@.len(),
    decreases s@.len() - i,
{
    proof {
        lemma_comment_end_bounds(s@, i as int);
    }
    if i < s.len() && s[i] != '\n' {
        scan_comment(s, i + 1)
    } else {
        i
    }
}

/// Lex from position `i`, appending tokens; the result reports whether the
/// whole rest of the input lexed.
fn lex_from(s: &Vec<char>, i: usize, out: &mut Vec<Tok>) -> (ok: bool)
    requires
        i <= s@.len(),
        toks_wf(old(out)@, s@),
    ensures
        toks_view(final(out)@, s@) == toks_view(old(out)@, s@) + spec_lex(s@, i as int),
        toks_wf(final(out)@, s@),
        ok == spec_lex_ok(s@, i as int),
    decreases s@.len() - i,
{
    if i >= s.len() {
        assert(toks_view(out@, s@) =~= toks_view(out@, s@) + spec_lex(s@, i as int));
        return true;
    }
    let c = s[i];
    if is_ws(c) {
        let ok = lex_from(s, i + 1, out);
        ok
    } else if c == '#' {
        let j = scan_comment(s, i);
        let j2 = if j > i {
            j
        } else {
            i + 1
        };
        let ok = lex_from(s, j2, out);
        ok
    } else if is_ident_start(c) {
        let j0 = scan_ident(s, i);
        let j = if j0 > i {
            j0
        } else {
            i + 1
        };
        let is_eof = j - i == 3 && s[i] == 'E' && s[i + 1] == 'O' && s[i + 2] == 'F';
        let kind = if is_eof {
            TokenKind::EOF
        } else {
            TokenKind::Identifier
        };
        let ghost before = out@;
        out.push(Tok { kind, start: i, end: j });
        proof {
            assert(toks_view(out@, s@) =~= toks_view(before, s@) + seq![
                (kind, s@.subrange(i as int, j as int)),
            ]);
        }
        let ok = lex_from(s, j, out);
        proof {
            assert(toks_view(out@, s@) =~= toks_view(before, s@) + spec_lex(s@, i as int));
        }
        ok
    } else if is_digit(c) {
        let j0 = scan_digits(s, i);
        let j = if j0 > i {
            j0
        } else {
            i + 1
        };
        let ghost before = out@;
        out.push(Tok { kind: TokenKind::Number, start: i, end: j });
        proof {
            assert(toks_view(out@, s@) =~= toks_view(before, s@) + seq![
                (TokenKind::Number, s@.subrange(i as int, j as int)),
            ]);
        }
        let ok = lex_from(s, j, out);
        proof {
            assert(toks_view(out@, s@) =~= toks_view(before, s@) + spec_lex(s@, i as int));
        }
        ok
    } else if c == '|' {
        let j0 = scan_pipes(s, i);
        let j = if j0 > i {
            j0
        } else {
            i + 1
        };
        let ghost before = out@;
        out.push(Tok { kind: TokenKind::Pipes, start: i, end: j });
        proof {
            assert(toks_view(out@, s@) =~= toks_view(before, s@) + seq![
                (TokenKind::Pipes, s@.subrange(i as int, j as int)),
            ]);
        }
        let ok = lex_from(s, j, out);
        proof {
            assert(toks_view(out@, s@) =~= toks_view(before, s@) + spec_lex(s@, i as int));
        }
        ok
    } else if c == '(' || c == ')' || c == ':' || c == ';' || c == ',' {
        let kind = if c == '(' {
            TokenKind::LParen
        } else if c == ')' {
            TokenKind::RParen
        } else if c == ':' {
            TokenKind::Colon
        } else if c == ';' {
            TokenKind::End
        } else {
            TokenKind::Comma
        };
        let ghost before = out@;
        out.push(Tok { kind, start: i, end: i + 1 });
        proof {
            assert(toks_view(out@, s@) =~= toks_view(before, s@) + seq![
                (kind, s@.subrange(i as int, i as int + 1)),
            ]);
        }
        let ok = lex_from(s, i + 1, out);
        proof {
            assert(toks_view(out@, s@) =~= toks_view(before, s@) + spec_lex(s@, i as int));
        }
        ok
    } else {
        assert(toks_view(out@, s@) =~= toks_view(out@, s@) + spec_lex(s@, i as int));
        false
    }
}

/// The characters of a string, as a vector.
pub fn chars_of(s: &str) -> (r: Vec<char>)
    ensures
        r@ == s@,
{
    let n = s.unicode_len();
    let mut out: Vec<char> = Vec::new();
    let mut i: usize = 0;
    while i < n
        invariant
            i <= n == s@.len(),
            out@ == s@.subrange(0, i as int),
        decreases n - i,
    {
        out.push(s.get_char(i));
        proof {
            assert(out@ =~= s@.subrange(0, i as int + 1));
        }
        i = i + 1;
    }
    proof {
        assert(out@ =~= s@);
    }
    out
}

/// Lex a whole input; the boolean reports whether the input lexed to its
/// end (`false`: the stream was truncated at an unlexable character).
pub fn lex_all(s: &Vec<char>) -> (r: (Vec<Tok>, bool))
    ensures
        toks_view(r.0@, s@) == spec_lex(s@, 0),
        toks_wf(r.0@, s@),
        r.1 == spec_lex_ok(s@, 0),
{
    let mut out: Vec<Tok> = Vec::new();
    let ok = lex_from(s, 0, &mut out);
    proof {
        assert(toks_view(out@, s@) =~= spec_lex(s@, 0));
    }
    (out, ok)
}

} // verus!
