//! An alternate token alphabet for a brace-and-bracket grammar notation with
//! a `::=` definition marker and single-pipe alternatives. Only lexing is
//! supported; whitespace is skipped and any other character fails the lex.

use crate::bnf_lexer::{digit_end, ident_end, is_digit_char, is_ident_start_char, is_ws_char,
    step_to};
use vstd::prelude::*;

verus! {

#[derive(Clone, Copy, Debug, PartialEq, Eq, Structural)]
pub enum Token {
    Identifier,
    Number,
    LParen,
    RParen,
    LBrace,
    RBrace,
    LBracket,
    RBracket,
    Pipe,
    Colon,
    End,
    Comma,
    ColonColonEqual,
}

/// Whether a `::=` marker starts at `i`.
pub open spec fn is_cce_at(s: Seq<char>, i: int) -> bool {
    0 <= i && i + 2 < s.len() && s[i] == ':' && s[i + 1] == ':' && s[i + 2] == '='
}

/// The kind of the single-character token at `c`, if any.
pub open spec fn single_token_of(c: char) -> Option<Token> {
    if c == '(' {
        Some(Token::LParen)
    } else if c == ')' {
        Some(Token::RParen)
    } else if c == '{' {
        Some(Token::LBrace)
    } else if c == '}' {
        Some(Token::RBrace)
    } else if c == '[' {
        Some(Token::LBracket)
    } else if c == ']' {
        Some(Token::RBracket)
    } else if c == '|' {
        Some(Token::Pipe)
    } else if c == ';' {
        Some(Token::End)
    } else if c == ',' {
        Some(Token::Comma)
    } else {
        None
    }
}

/// The token kinds of `s` from `i`, stopping at an unlexable character. The
/// three-character `::=` marker takes precedence over a lone colon.
pub open spec fn spec_lex_lang(s: Seq<char>, i: int) -> Seq<Token>
    decreases s.len() - i,
{
    let len = s.len() as int;
    if i < 0 || i >= len {
        Seq::<Token>::empty()
    } else {
        let c = s[i];
        if is_ws_char(c) {
            spec_lex_lang(s, i + 1)
        } else if is_ident_start_char(c) {
            seq![Token::Identifier] + spec_lex_lang(s, step_to(len, i, ident_end(s, i)))
        } else if is_digit_char(c) {
            seq![Token::Number] + spec_lex_lang(s, step_to(len, i, digit_end(s, i)))
        } else if c == ':' {
            if is_cce_at(s, i) {
                seq![Token::ColonColonEqual] + spec_lex_lang(s, step_to(len, i, i + 3))
            } else {
                seq![Token::Colon] + spec_lex_lang(s, i + 1)
            }
        } else {
            match single_token_of(c) {
                Some(t) => seq![t] + spec_lex_lang(s, i + 1),
                None => Seq::<Token>::empty(),
            }
        }
    }
}

/// Whether the whole rest of the input lexes.
pub open spec fn spec_lex_lang_ok(s: Seq<char>, i: int) -> bool
    decreases s.len() - i,
{
    let len = s.len() as int;
    if i < 0 || i >= len {
        true
    } else {
        let c = s[i];
        if is_ws_char(c) {
            spec_lex_lang_ok(s, i + 1)
        } else if is_ident_start_char(c) {
            spec_lex_lang_ok(s, step_to(len, i, ident_end(s, i)))
        } else if is_digit_char(c) {
            spec_lex_lang_ok(s, step_to(len, i, digit_end(s, i)))
        } else if c == ':' {
            if is_cce_at(s, i) {
                spec_lex_lang_ok(s, step_to(len, i, i + 3))
            } else {
                spec_lex_lang_ok(s, i + 1)
            }
        } else {
            match single_token_of(c) {
                Some(_) => spec_lex_lang_ok(s, i + 1),
                None => false,
            }
        }
    }
}

fn single_token_exec(c: char) -> (r: Option<Token>)
    ensures
        r == single_token_of(c),
{
    if c == '(' {
        Some(Token::LParen)
    } else if c == ')' {
        Some(Token::RParen)
    } else if c == '{' {
        Some(Token::LBrace)
    } else if c == '}' {
        Some(Token::RBrace)
    } else if c == '[' {
        Some(Token::LBracket)
    } else if c == ']' {
        Some(Token::RBracket)
    } else if c == '|' {
        Some(Token::Pipe)
    } else if c == ';' {
        Some(Token::End)
    } else if c == ',' {
        Some(Token::Comma)
    } else {
        None
    }
}

fn is_ws_exec(c: char) -> (r: bool)
    ensures
        r == is_ws_char(c),
{
    c == ' ' || c == '\t' || c == '\n' || c == '\u{c}'
}

fn is_ident_start_exec(c: char) -> (r: bool)
    ensures
        r == is_ident_start_char(c),
{
    (c >= 'a' && c <= 'z') || (c >= 'A' && c <= 'Z') || c == '_'
}

fn is_ident_cont_exec(c: char) -> (r: bool)
    ensures
        r == (is_ident_start_char(c) || is_digit_char(c)),
{
    is_ident_start_exec(c) || (c >= '0' && c <= '9')
}

fn scan_ident_lang(s: &Vec<char>, i: usize) -> (r: usize)
    requires
        i <= s@.len(),
    ensures
        r == ident_end(s@, i as int),
        i <= r <= s@.len(),
    decreases s@.len() - i,
{
    proof {
        crate::bnf_lexer::lemma_ident_end_bounds(s@, i as int);
    }
    if i < s.len() && is_ident_cont_exec(s[i]) {
        scan_ident_lang(s, i + 1)
    } else {
        i
    }
}

fn scan_digits_lang(s: &Vec<char>, i: usize) -> (r: usize)
    requires
        i <= s@.len(),
    ensures
        r == digit_end(s@, i as int),
        i <= r <= s@.len(),
    decreases s@.len() - i,
{
    proof {
        crate::bnf_lexer::lemma_digit_end_bounds(s@, i as int);
    }
    if i < s.len() && (s[i] >= '0' && s[i] <= '9') {
        scan_digits_lang(s, i + 1)
    } else {
        i
    }
}

fn lex_lang_from(s: &Vec<char>, i: usize, out: &mut Vec<Token>) -> (ok: bool)
    requires
        i <= s@.len(),
    ensures
        final(out)@ == old(out)@ + spec_lex_lang(s@, i as int),
        ok == spec_lex_lang_ok(s@, i as int),
    decreases s@.len() - i,
{
    if i >= s.len() {
        assert(out@ =~= out@ + spec_lex_lang(s@, i as int));
        return true;
    }
    let c = s[i];
    if is_ws_exec(c) {
        lex_lang_from(s, i + 1, out)
    } else if is_ident_start_exec(c) {
        let j0 = scan_ident_lang(s, i);
        let j = if j0 > i {
            j0
        } else {
            i + 1
        };
        let ghost before = out@;
        out.push(Token::Identifier);
        let ok = lex_lang_from(s, j, out);
        proof {
            assert(out@ =~= before + spec_lex_lang(s@, i as int));
        }
        ok
    } else if c >= '0' && c <= '9' {
        let j0 = scan_digits_lang(s, i);
        let j = if j0 > i {
            j0
        } else {
            i + 1
        };
        let ghost before = out@;
        out.push(Token::Number);
        let ok = lex_lang_from(s, j, out);
        proof {
            assert(out@ =~= before + spec_lex_lang(s@, i as int));
        }
        ok
    } else if c == ':' {
        let cce = s.len() - i > 2 && s[i + 1] == ':' && s[i + 2] == '=';
        let ghost before = out@;
        if cce {
            out.push(Token::ColonColonEqual);
            let ok = lex_lang_from(s, i + 3, out);
            proof {
                assert(out@ =~= before + spec_lex_lang(s@, i as int));
            }
            ok
        } else {
            out.push(Token::Colon);
            let ok = lex_lang_from(s, i + 1, out);
            proof {
                assert(out@ =~= before + spec_lex_lang(s@, i as int));
            }
            ok
        }
    } else {
        match single_token_exec(c) {
            Some(t) => {
                let ghost before = out@;
                out.push(t);
                let ok = lex_lang_from(s, i + 1, out);
                proof {
                    assert(out@ =~= before + spec_lex_lang(s@, i as int));
                }
                ok
            },
            None => {
                assert(out@ =~= out@ + spec_lex_lang(s@, i as int));
                false
            },
        }
    }
}

impl Token {
    /// Lex a whole input to its token kinds; `None` when some character is
    /// unlexable.
    pub fn lex(input: &str) -> (r: Option<Vec<Token>>)
        ensures
            match r {
                Some(v) => v@ == spec_lex_lang(input@, 0) && spec_lex_lang_ok(input@, 0),
                None => !spec_lex_lang_ok(input@, 0),
            },
    {
        let chars = crate::bnf_lexer::chars_of(input);
        let mut out: Vec<Token> = Vec::new();
        let ok = lex_lang_from(&chars, 0, &mut out);
        if ok {
            Some(out)
        } else {
            None
        }
    }
}

} // verus!
