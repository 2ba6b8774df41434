//! The two-pass recursive-descent grammar parser. A symbol-discovery pass
//! records every rule head (an identifier that opens a rule: the first
//! identifier after a rule terminator, immediately followed by a weight
//! marker), so that branch bodies may reference rules defined later in the
//! text; the structural pass then builds the grammar.

use crate::bnf_lexer::{chars_of, lex_all, spec_lex, spec_lex_ok, step_to, Tok, TokenKind, TokS,
    toks_view, toks_wf};
use crate::grammar::{sum_weights, Branch, BranchS, Grammar, GrammarS};
use crate::node::{ArithmeticOp, FnNode, UnaryOp};
use vstd::prelude::*;

verus! {

#[derive(Debug, PartialEq)]
pub enum ParseError {
    UnexpectedToken(TokenKind),
    ExpectedIdentifier,
    ExpectedColonColonEqual,
    ExpectedEnd,
    InvalidBranchWeight,
    InvalidRule,
    UnknownSymbol(String),
    UnknownFunction(String),
}

/// The ghost form of a parse error, with text in place of `String`.
pub enum ParseErrS {
    UnexpectedToken(TokenKind),
    ExpectedIdentifier,
    ExpectedColonColonEqual,
    ExpectedEnd,
    InvalidBranchWeight,
    InvalidRule,
    UnknownSymbol(Seq<char>),
    UnknownFunction(Seq<char>),
}

pub open spec fn err_view(e: ParseError) -> ParseErrS {
    match e {
        ParseError::UnexpectedToken(k) => ParseErrS::UnexpectedToken(k),
        ParseError::ExpectedIdentifier => ParseErrS::ExpectedIdentifier,
        ParseError::ExpectedColonColonEqual => ParseErrS::ExpectedColonColonEqual,
        ParseError::ExpectedEnd => ParseErrS::ExpectedEnd,
        ParseError::InvalidBranchWeight => ParseErrS::InvalidBranchWeight,
        ParseError::InvalidRule => ParseErrS::InvalidRule,
        ParseError::UnknownSymbol(s) => ParseErrS::UnknownSymbol(s@),
        ParseError::UnknownFunction(s) => ParseErrS::UnknownFunction(s@),
    }
}

/// The first index of `t` among the symbols, or `-1`.
pub open spec fn first_sym(syms: Seq<Seq<char>>, t: Seq<char>) -> int
    decreases syms.len(),
{
    if syms.len() == 0 {
        -1
    } else if syms[0] == t {
        0
    } else {
        let r = first_sym(syms.drop_first(), t);
        if r < 0 {
            -1
        } else {
            1 + r
        }
    }
}

pub proof fn lemma_first_sym_found(syms: Seq<Seq<char>>, t: Seq<char>, k: int)
    requires
        0 <= k < syms.len(),
        syms[k] == t,
        forall|j: int| 0 <= j < k ==> syms[j] != t,
    ensures
        first_sym(syms, t) == k,
    decreases syms.len(),
{
    if k > 0 {
        lemma_first_sym_found(syms.drop_first(), t, k - 1);
    }
}

pub proof fn lemma_first_sym_missing(syms: Seq<Seq<char>>, t: Seq<char>)
    requires
        forall|j: int| 0 <= j < syms.len() ==> syms[j] != t,
    ensures
        first_sym(syms, t) == -1,
    decreases syms.len(),
{
    if syms.len() > 0 {
        lemma_first_sym_missing(syms.drop_first(), t);
    }
}

pub proof fn lemma_first_sym_in_range(syms: Seq<Seq<char>>, t: Seq<char>)
    ensures
        first_sym(syms, t) == -1 || (0 <= first_sym(syms, t) < syms.len() && syms[first_sym(
            syms,
            t,
        )] == t),
    decreases syms.len(),
{
    if syms.len() > 0 && syms[0] != t {
        lemma_first_sym_in_range(syms.drop_first(), t);
    }
}

/// The symbol-discovery pass: scan the tokens once; an identifier that is
/// the first identifier since the start of input or the last rule terminator
/// and is immediately followed by a weight marker is a rule head. The
/// literal `EOF` token stops the scan.
pub open spec fn spec_collect(toks: Seq<TokS>, i: int, ended: bool, acc: Seq<Seq<char>>) -> Seq<
    Seq<char>,
>
    decreases toks.len() - i,
{
    if i < 0 || i >= toks.len() {
        acc
    } else {
        let (k, txt) = toks[i];
        match k {
            TokenKind::End => spec_collect(toks, i + 1, true, acc),
            TokenKind::EOF => acc,
            TokenKind::Identifier => {
                let take = ended && i + 1 < toks.len() && toks[i + 1].0 == TokenKind::Pipes;
                spec_collect(
                    toks,
                    i + 1,
                    false,
                    if take {
                        acc.push(txt)
                    } else {
                        acc
                    },
                )
            },
            _ => spec_collect(toks, i + 1, ended, acc),
        }
    }
}

pub open spec fn is_x_text(t: Seq<char>) -> bool {
    t == "x"@ || t == "X"@
}

pub open spec fn is_y_text(t: Seq<char>) -> bool {
    t == "y"@ || t == "Y"@
}

pub open spec fn is_t_text(t: Seq<char>) -> bool {
    t == "z"@ || t == "Z"@ || t == "t"@ || t == "T"@
}

pub open spec fn is_arith_text(t: Seq<char>) -> bool {
    t == "add"@ || t == "mult"@ || t == "sub"@ || t == "div"@ || t == "mod"@
}

pub open spec fn arith_op_of(t: Seq<char>) -> ArithmeticOp {
    if t == "add"@ {
        ArithmeticOp::Add
    } else if t == "sub"@ {
        ArithmeticOp::Sub
    } else if t == "mult"@ {
        ArithmeticOp::Mul
    } else if t == "div"@ {
        ArithmeticOp::Div
    } else {
        ArithmeticOp::Mod
    }
}

pub open spec fn is_unary_text(t: Seq<char>) -> bool {
    t == "sqrt"@ || t == "abs"@ || t == "sin"@ || t == "tan"@ || t == "cos"@
}

pub open spec fn unary_op_of(t: Seq<char>) -> UnaryOp {
    if t == "sqrt"@ {
        UnaryOp::Sqrt
    } else if t == "abs"@ {
        UnaryOp::Abs
    } else if t == "sin"@ {
        UnaryOp::Sin
    } else if t == "tan"@ {
        UnaryOp::Tan
    } else {
        UnaryOp::Cos
    }
}

/// One expression term, after its leading identifier has been read: the
/// builtin forms are tried first — the coordinate, time and `random` words
/// are terminals, and a builtin call parses its argument list and checks the
/// arity — and only an identifier that is none of them is looked up in the
/// symbol table as a rule reference; anything else is an unknown symbol.
/// The result carries how many further tokens were consumed.
pub open spec fn spec_parse_ident(
    toks: Seq<TokS>,
    i: int,
    syms: Seq<Seq<char>>,
    text: Seq<char>,
) -> Result<(FnNode, nat), ParseErrS>
    decreases toks.len() - i, 1nat,
{
    if is_x_text(text) {
        Ok((FnNode::X, 0))
    } else if is_y_text(text) {
        Ok((FnNode::Y, 0))
    } else if is_t_text(text) {
        Ok((FnNode::T, 0))
    } else if text == "random"@ {
        Ok((FnNode::Random, 0))
    } else if text == "vec3"@ {
        match spec_parse_args(toks, i, syms) {
            Ok((ns, c)) => if ns.len() == 3 {
                Ok(
                    (
                        FnNode::Triple(Box::new(ns[0]), Box::new(ns[1]), Box::new(ns[2])),
                        c,
                    ),
                )
            } else {
                Err(ParseErrS::InvalidRule)
            },
            Err(e) => Err(e),
        }
    } else if is_arith_text(text) {
        match spec_parse_args(toks, i, syms) {
            Ok((ns, c)) => if ns.len() == 2 {
                Ok(
                    (
                        FnNode::Arithmetic(Box::new(ns[0]), arith_op_of(text), Box::new(ns[1])),
                        c,
                    ),
                )
            } else {
                Err(ParseErrS::InvalidRule)
            },
            Err(e) => Err(e),
        }
    } else if is_unary_text(text) {
        match spec_parse_args(toks, i, syms) {
            Ok((ns, c)) => if ns.len() == 1 {
                Ok((FnNode::Unary(unary_op_of(text), Box::new(ns[0])), c))
            } else {
                Err(ParseErrS::InvalidRule)
            },
            Err(e) => Err(e),
        }
    } else if first_sym(syms, text) >= 0 {
        Ok((FnNode::Rule(first_sym(syms, text) as usize), 0))
    } else {
        Err(ParseErrS::UnknownSymbol(text))
    }
}

/// A parenthesized, comma-separated argument list: identifiers recurse into
/// term parsing, commas and the opening parenthesis are skipped, a closing
/// parenthesis or the end of input stops the list, and any other token is an
/// error. The result carries the consumed token count.
pub open spec fn spec_parse_args(toks: Seq<TokS>, i: int, syms: Seq<Seq<char>>) -> Result<
    (Seq<FnNode>, nat),
    ParseErrS,
>
    decreases toks.len() - i, 0nat,
{
    if i < 0 || i >= toks.len() {
        Ok((Seq::<FnNode>::empty(), 0))
    } else {
        let (k, txt) = toks[i];
        match k {
            TokenKind::RParen => Ok((Seq::<FnNode>::empty(), 1)),
            TokenKind::Comma | TokenKind::LParen => match spec_parse_args(toks, i + 1, syms) {
                Ok((ns, c)) => Ok((ns, 1 + c)),
                Err(e) => Err(e),
            },
            TokenKind::Identifier => match spec_parse_ident(toks, i + 1, syms, txt) {
                Ok((n, c)) => {
                    let j = step_to(toks.len() as int, i, i + 1 + c);
                    match spec_parse_args(toks, j, syms) {
                        Ok((ns, c2)) => Ok((seq![n] + ns, (j - i) as nat + c2)),
                        Err(e) => Err(e),
                    }
                },
                Err(e) => Err(e),
            },
            _ => Err(ParseErrS::UnexpectedToken(k)),
        }
    }
}

/// One branch body: the single term after the weight marker. A terminator
/// or the end of input in its place is a missing branch body.
pub open spec fn spec_parse_branch(toks: Seq<TokS>, i: int, syms: Seq<Seq<char>>) -> Result<
    (FnNode, nat),
    ParseErrS,
>
    decreases toks.len() - i, 2nat,
{
    if i < 0 || i >= toks.len() {
        Err(ParseErrS::InvalidBranchWeight)
    } else {
        let (k, txt) = toks[i];
        match k {
            TokenKind::Identifier => match spec_parse_ident(toks, i + 1, syms, txt) {
                Ok((n, c)) => Ok((n, 1 + c)),
                Err(e) => Err(e),
            },
            TokenKind::End | TokenKind::EOF => Err(ParseErrS::InvalidBranchWeight),
            _ => Err(ParseErrS::UnexpectedToken(k)),
        }
    }
}

/// A rule body: each weight marker opens one branch whose weight is the
/// marker's pipe count; a terminator, the literal `EOF` token or the end of
/// input closes the rule (the terminator is consumed).
pub open spec fn spec_parse_branches(toks: Seq<TokS>, i: int, syms: Seq<Seq<char>>) -> Result<
    (Seq<BranchS>, nat),
    ParseErrS,
>
    decreases toks.len() - i, 3nat,
{
    if i < 0 || i >= toks.len() {
        Ok((Seq::<BranchS>::empty(), 0))
    } else {
        let (k, txt) = toks[i];
        match k {
            TokenKind::Pipes => match spec_parse_branch(toks, i + 1, syms) {
                Ok((n, c)) => {
                    let j = step_to(toks.len() as int, i, i + 1 + c);
                    match spec_parse_branches(toks, j, syms) {
                        Ok((bs, c2)) => Ok(
                            (seq![(n, txt.len())] + bs, (j - i) as nat + c2),
                        ),
                        Err(e) => Err(e),
                    }
                },
                Err(e) => Err(e),
            },
            TokenKind::End | TokenKind::EOF => Ok((Seq::<BranchS>::empty(), 1)),
            _ => Err(ParseErrS::UnexpectedToken(k)),
        }
    }
}

/// The top-level loop: each known rule-head identifier opens a rule, whose
/// branches must not be empty; stray terminators are skipped; the literal
/// `EOF` token ends parsing; an unknown head is an error.
pub open spec fn spec_parse_rules(
    toks: Seq<TokS>,
    i: int,
    syms: Seq<Seq<char>>,
    acc: GrammarS,
) -> Result<GrammarS, ParseErrS>
    decreases toks.len() - i, 4nat,
{
    if i < 0 || i >= toks.len() {
        Ok(acc)
    } else {
        let (k, txt) = toks[i];
        match k {
            TokenKind::Identifier => if first_sym(syms, txt) >= 0 {
                match spec_parse_branches(toks, i + 1, syms) {
                    Ok((bs, c)) => if bs.len() == 0 || sum_weights(bs) > usize::MAX {
                        Err(ParseErrS::InvalidRule)
                    } else {
                        spec_parse_rules(
                            toks,
                            step_to(toks.len() as int, i, i + 1 + c),
                            syms,
                            acc.push((txt, bs)),
                        )
                    },
                    Err(e) => Err(e),
                }
            } else {
                Err(ParseErrS::UnknownSymbol(txt))
            },
            TokenKind::End => spec_parse_rules(toks, i + 1, syms, acc),
            TokenKind::EOF => Ok(acc),
            _ => Err(ParseErrS::UnexpectedToken(k)),
        }
    }
}

/// The whole parse of a grammar text: input that does not fully lex is an
/// unexpected-token error; otherwise the discovery pass builds the symbol
/// table and the structural pass builds the grammar.
pub open spec fn spec_parse(input: Seq<char>) -> Result<GrammarS, ParseErrS> {
    if !spec_lex_ok(input, 0) {
        Err(ParseErrS::UnexpectedToken(TokenKind::EOF))
    } else {
        let toks = spec_lex(input, 0);
        spec_parse_rules(
            toks,
            0,
            spec_collect(toks, 0, true, Seq::<Seq<char>>::empty()),
            Seq::<(Seq<char>, Seq<BranchS>)>::empty(),
        )
    }
}

/// Character-wise string equality.
fn str_eq(a: &str, b: &str) -> (r: bool)
    ensures
        r == (a@ == b@),
{
    let n = a.unicode_len();
    let m = b.unicode_len();
    if n != m {
        return false;
    }
    let mut i: usize = 0;
    while i < n
        invariant
            n == a@.len(),
            n == b@.len(),
            i <= n,
            forall|j: int| 0 <= j < i ==> a@[j] == b@[j],
        decreases n - i,
    {
        if a.get_char(i) != b.get_char(i) {
            return false;
        }
        i = i + 1;
    }
    proof {
        assert(a@ =~= b@);
    }
    true
}

/// The first index of `ident` in the symbol table.
fn find_symbol(map: &Vec<String>, ident: &str) -> (r: Option<usize>)
    ensures
        match r {
            Some(i) => i as int == first_sym(map.deep_view(), ident@),
            None => first_sym(map.deep_view(), ident@) == -1,
        },
{
    let ghost syms = map.deep_view();
    let mut i: usize = 0;
    while i < map.len()
        invariant
            syms == map.deep_view(),
            i <= map@.len(),
            syms.len() == map@.len(),
            forall|j: int| 0 <= j < i ==> syms[j] != ident@,
        decreases map@.len() - i,
    {
        proof {
            assert(syms[i as int] == map@[i as int]@);
        }
        if str_eq(map[i].as_str(), ident) {
            proof {
                lemma_first_sym_found(syms, ident@, i as int);
            }
            return Some(i);
        }
        i = i + 1;
    }
    proof {
        lemma_first_sym_missing(syms, ident@);
    }
    None
}

pub struct Parser<'a> {
    input: &'a str,
    toks: Vec<Tok>,
    lexed_ok: bool,
    pos: usize,
    symbol_map: Vec<String>,
}

impl<'a> Parser<'a> {
    /// The lexed token table is exactly the token stream of the input, and
    /// the cursor is inside it.
    pub closed spec fn inv(self) -> bool {
        toks_wf(self.toks@, self.input@) && toks_view(self.toks@, self.input@) == spec_lex(
            self.input@,
            0,
        ) && self.lexed_ok == spec_lex_ok(self.input@, 0) && self.pos <= self.toks@.len()
    }

    /// The ghost token stream this parser walks.
    pub closed spec fn tv(self) -> Seq<TokS> {
        toks_view(self.toks@, self.input@)
    }

    /// The ghost symbol table.
    pub closed spec fn syms(self) -> Seq<Seq<char>> {
        self.symbol_map.deep_view()
    }

    /// Everything but the cursor is unchanged.
    pub closed spec fn same_tables(self, other: Parser<'a>) -> bool {
        self.input == other.input && self.toks == other.toks && self.lexed_ok == other.lexed_ok
            && self.symbol_map == other.symbol_map
    }

    /// The input text this parser reads.
    pub closed spec fn input_view(self) -> Seq<char> {
        self.input@
    }

    /// The structural cursor.
    pub closed spec fn at(self) -> int {
        self.pos as int
    }

    pub fn new(input: &'a str) -> (r: Parser<'a>)
        ensures
            r.inv(),
            r.input_view() == input@,
            r.tv() == spec_lex(input@, 0),
            r.at() == 0,
            r.syms().len() == 0,
    {
        let chars = chars_of(input);
        let (toks, ok) = lex_all(&chars);
        Parser { input, toks, lexed_ok: ok, pos: 0, symbol_map: Vec::new() }
    }

    /// The symbol-discovery pass; it never fails and does not move the
    /// structural cursor.
    pub fn collect_symbols(&mut self) -> (r: Result<(), ParseError>)
        requires
            old(self).inv(),
        ensures
            final(self).inv(),
            final(self).same_tables_except_syms(*old(self)),
            final(self).tv() == old(self).tv(),
            final(self).input_view() == old(self).input_view(),
            final(self).at() == old(self).at(),
            final(self).syms() == spec_collect(old(self).tv(), 0, true, old(self).syms()),
            r is Ok,
    {
        let ghost toks = self.tv();
        let n = self.toks.len();
        let mut i: usize = 0;
        let mut ended: bool = true;
        while i < n
            invariant
                self.inv(),
                toks == self.tv(),
                n == self.toks@.len(),
                i <= n,
                spec_collect(toks, 0, true, old(self).syms()) == spec_collect(
                    toks,
                    i as int,
                    ended,
                    self.syms(),
                ),
                self.input == old(self).input,
                self.toks == old(self).toks,
                self.lexed_ok == old(self).lexed_ok,
                self.pos == old(self).pos,
            decreases n - i,
        {
            let t = self.toks[i];
            match t.kind {
                TokenKind::End => {
                    ended = true;
                },
                TokenKind::EOF => {
                    return Ok(());
                },
                TokenKind::Identifier => {
                    let take = ended && i + 1 < n && token_kind_is_pipes(self.toks[i + 1].kind);
                    if take {
                        let inp = self.input;
                        let text = inp.substring_char(t.start, t.end);
                        let owned = text.to_owned();
                        let ghost before = self.syms();
                        self.symbol_map.push(owned);
                        proof {
                            assert(self.syms() =~= before.push(toks[i as int].1));
                        }
                    }
                    ended = false;
                },
                _ => {},
            }
            i = i + 1;
        }
        Ok(())
    }

    /// Everything but the cursor and the symbol table is unchanged.
    pub closed spec fn same_tables_except_syms(self, other: Parser<'a>) -> bool {
        self.input == other.input && self.toks == other.toks && self.lexed_ok == other.lexed_ok
    }
}

fn token_kind_is_pipes(k: TokenKind) -> (r: bool)
    ensures
        r == (k == TokenKind::Pipes),
{
    match k {
        TokenKind::Pipes => true,
        _ => false,
    }
}


impl<'a> Parser<'a> {
    /// Parse one expression term whose leading identifier was already read.
    pub fn parse_ident(&mut self, ident: &str) -> (r: Result<FnNode, ParseError>)
        requires
            old(self).inv(),
        ensures
            final(self).inv(),
            final(self).same_tables(*old(self)),
            match spec_parse_ident(old(self).tv(), old(self).at(), old(self).syms(), ident@) {
                Ok(p) => r matches Ok(node) && node == p.0 && final(self).at() == old(self).at()
                    + p.1 && node.wf(),
                Err(es) => r matches Err(e) && err_view(e) == es,
            },
        decreases self.tv().len() - self.at(), 1nat,
    {
        let ghost syms0 = self.syms();
        if str_eq(ident, "x") || str_eq(ident, "X") {
            return Ok(FnNode::X);
        }
        if str_eq(ident, "y") || str_eq(ident, "Y") {
            return Ok(FnNode::Y);
        }
        if str_eq(ident, "z") || str_eq(ident, "Z") || str_eq(ident, "t") || str_eq(ident, "T") {
            return Ok(FnNode::T);
        }
        if str_eq(ident, "random") {
            return Ok(FnNode::Random);
        }
        if str_eq(ident, "vec3") {
            let mut nodes = self.parse_args()?;
            if nodes.len() != 3 {
                return Err(ParseError::InvalidRule);
            }
            let a = nodes.remove(0);
            let b = nodes.remove(0);
            let c = nodes.remove(0);
            return Ok(FnNode::Triple(Box::new(a), Box::new(b), Box::new(c)));
        }
        if str_eq(ident, "add") || str_eq(ident, "mult") || str_eq(ident, "sub") || str_eq(
            ident,
            "div",
        ) || str_eq(ident, "mod") {
            let mut nodes = self.parse_args()?;
            if nodes.len() != 2 {
                return Err(ParseError::InvalidRule);
            }
            let op = if str_eq(ident, "add") {
                ArithmeticOp::Add
            } else if str_eq(ident, "sub") {
                ArithmeticOp::Sub
            } else if str_eq(ident, "mult") {
                ArithmeticOp::Mul
            } else if str_eq(ident, "div") {
                ArithmeticOp::Div
            } else {
                ArithmeticOp::Mod
            };
            let a = nodes.remove(0);
            let b = nodes.remove(0);
            return Ok(FnNode::Arithmetic(Box::new(a), op, Box::new(b)));
        }
        if str_eq(ident, "sqrt") || str_eq(ident, "abs") || str_eq(ident, "sin") || str_eq(
            ident,
            "tan",
        ) || str_eq(ident, "cos") {
            let mut nodes = self.parse_args()?;
            if nodes.len() != 1 {
                return Err(ParseError::InvalidRule);
            }
            let op = if str_eq(ident, "sqrt") {
                UnaryOp::Sqrt
            } else if str_eq(ident, "abs") {
                UnaryOp::Abs
            } else if str_eq(ident, "sin") {
                UnaryOp::Sin
            } else if str_eq(ident, "tan") {
                UnaryOp::Tan
            } else {
                UnaryOp::Cos
            };
            let e = nodes.remove(0);
            return Ok(FnNode::Unary(op, Box::new(e)));
        }
        match find_symbol(&self.symbol_map, ident) {
            Some(idx) => {
                proof {
                    lemma_first_sym_in_range(syms0, ident@);
                }
                Ok(FnNode::Rule(idx))
            },
            None => Err(ParseError::UnknownSymbol(ident.to_owned())),
        }
    }

    /// Parse a parenthesized argument list, returning the argument terms.
    fn parse_args(&mut self) -> (r: Result<Vec<FnNode>, ParseError>)
        requires
            old(self).inv(),
        ensures
            final(self).inv(),
            final(self).same_tables(*old(self)),
            match spec_parse_args(old(self).tv(), old(self).at(), old(self).syms()) {
                Ok(p) => r matches Ok(v) && v@ == p.0 && final(self).at() == old(self).at() + p.1
                    && (forall|j: int| 0 <= j < v@.len() ==> (#[trigger] v@[j]).wf()),
                Err(es) => r matches Err(e) && err_view(e) == es,
            },
        decreases self.tv().len() - self.at(), 0nat,
    {
        let ghost toks = self.tv();
        let ghost i0 = self.at();
        if self.pos >= self.toks.len() {
            let out: Vec<FnNode> = Vec::new();
            proof {
                assert(out@ =~= Seq::<FnNode>::empty());
            }
            return Ok(out);
        }
        let t = self.toks[self.pos];
        proof {
            assert(toks[i0] == (t.kind, self.input@.subrange(t.start as int, t.end as int)));
        }
        match t.kind {
            TokenKind::RParen => {
                self.pos = self.pos + 1;
                let out: Vec<FnNode> = Vec::new();
                proof {
                    assert(out@ =~= Seq::<FnNode>::empty());
                }
                Ok(out)
            },
            TokenKind::Comma | TokenKind::LParen => {
                self.pos = self.pos + 1;
                let rest = self.parse_args()?;
                Ok(rest)
            },
            TokenKind::Identifier => {
                let inp = self.input;
                let text = inp.substring_char(t.start, t.end);
                self.pos = self.pos + 1;
                let node = self.parse_ident(text)?;
                let mut rest = self.parse_args()?;
                rest.insert(0, node);
                proof {
                    match spec_parse_args(toks, i0, self.syms()) {
                        Ok(p) => {
                            assert(rest@ =~= p.0);
                        },
                        Err(_) => {},
                    }
                }
                Ok(rest)
            },
            _ => Err(ParseError::UnexpectedToken(t.kind)),
        }
    }

    /// Parse one branch: its single term, paired with the given weight.
    pub fn parse_branch(&mut self, weight: usize) -> (r: Result<Branch, ParseError>)
        requires
            old(self).inv(),
        ensures
            final(self).inv(),
            final(self).same_tables(*old(self)),
            match spec_parse_branch(old(self).tv(), old(self).at(), old(self).syms()) {
                Ok(p) => r matches Ok(b) && b@ == (p.0, weight as nat) && final(self).at() == old(
                    self,
                ).at() + p.1 && b.node.wf(),
                Err(es) => r matches Err(e) && err_view(e) == es,
            },
        decreases self.tv().len() - self.at(), 2nat,
    {
        let ghost toks = self.tv();
        let ghost i0 = self.at();
        if self.pos >= self.toks.len() {
            return Err(ParseError::InvalidBranchWeight);
        }
        let t = self.toks[self.pos];
        proof {
            assert(toks[i0] == (t.kind, self.input@.subrange(t.start as int, t.end as int)));
        }
        match t.kind {
            TokenKind::Identifier => {
                let inp = self.input;
                let text = inp.substring_char(t.start, t.end);
                self.pos = self.pos + 1;
                let node = self.parse_ident(text)?;
                Ok(Branch::new(node, weight))
            },
            TokenKind::End | TokenKind::EOF => Err(ParseError::InvalidBranchWeight),
            _ => Err(ParseError::UnexpectedToken(t.kind)),
        }
    }

    /// Parse the branch list of one rule into `out`.
    fn parse_branches_into(&mut self, out: &mut Vec<Branch>) -> (r: Result<(), ParseError>)
        requires
            old(self).inv(),
            forall|j: int| 0 <= j < old(out)@.len() ==> (#[trigger] old(out)@[j]).node.wf(),
        ensures
            final(self).inv(),
            final(self).same_tables(*old(self)),
            match spec_parse_branches(old(self).tv(), old(self).at(), old(self).syms()) {
                Ok(p) => r is Ok && final(out)@.map(|i: int, b: Branch| b@) == old(out)@.map(
                    |i: int, b: Branch| b@,
                ) + p.0 && final(self).at() == old(self).at() + p.1 && (forall|j: int|
                    0 <= j < final(out)@.len() ==> (#[trigger] final(out)@[j]).node.wf()),
                Err(es) => r matches Err(e) && err_view(e) == es,
            },
        decreases self.tv().len() - self.at(), 3nat,
    {
        let ghost toks = self.tv();
        let ghost i0 = self.at();
        if self.pos >= self.toks.len() {
            proof {
                assert(out@.map(|i: int, b: Branch| b@) =~= out@.map(|i: int, b: Branch| b@)
                    + Seq::<BranchS>::empty());
            }
            return Ok(());
        }
        let t = self.toks[self.pos];
        proof {
            assert(toks[i0] == (t.kind, self.input@.subrange(t.start as int, t.end as int)));
        }
        match t.kind {
            TokenKind::Pipes => {
                let weight = t.end - t.start;
                self.pos = self.pos + 1;
                let branch = self.parse_branch(weight)?;
                let ghost mid = out@.map(|i: int, b: Branch| b@);
                let ghost bnode = branch.node;
                out.push(branch);
                proof {
                    assert(out@.map(|i: int, b: Branch| b@) =~= mid + seq![
                        (bnode, weight as nat),
                    ]);
                }
                let res = self.parse_branches_into(out);
                proof {
                    match spec_parse_branches(toks, i0, self.syms()) {
                        Ok(p) => {
                            if res is Ok {
                                assert(out@.map(|i: int, b: Branch| b@) =~= mid + p.0);
                            }
                        },
                        Err(_) => {},
                    }
                }
                res
            },
            TokenKind::End | TokenKind::EOF => {
                self.pos = self.pos + 1;
                proof {
                    assert(out@.map(|i: int, b: Branch| b@) =~= out@.map(|i: int, b: Branch| b@)
                        + Seq::<BranchS>::empty());
                }
                Ok(())
            },
            _ => Err(ParseError::UnexpectedToken(t.kind)),
        }
    }

    /// Parse the body of the rule named `symbol` and add it to the grammar.
    /// A rule without branches, or one whose weights overflow, is invalid.
    pub fn parse_rule(&mut self, symbol: &str, grammar: &mut Grammar) -> (r: Result<
        (),
        ParseError,
    >)
        requires
            old(self).inv(),
            old(grammar).wf(),
        ensures
            final(self).inv(),
            final(self).same_tables(*old(self)),
            final(grammar).wf(),
            match spec_parse_branches(old(self).tv(), old(self).at(), old(self).syms()) {
                Ok(p) => if p.0.len() == 0 || sum_weights(p.0) > usize::MAX {
                    r matches Err(e) && err_view(e) == ParseErrS::InvalidRule
                } else {
                    r is Ok && final(grammar)@ == old(grammar)@.push((symbol@, p.0))
                        && final(self).at() == old(self).at() + p.1
                },
                Err(es) => r matches Err(e) && err_view(e) == es,
            },
        decreases self.tv().len() - self.at(), 4nat,
    {
        let mut branches: Vec<Branch> = Vec::new();
        self.parse_branches_into(&mut branches)?;
        if branches.len() == 0 {
            return Err(ParseError::InvalidRule);
        }
        match grammar.add_rule(branches, symbol.to_owned()) {
            Ok(()) => Ok(()),
            Err(_) => Err(ParseError::InvalidRule),
        }
    }

    /// The structural pass over the whole token stream.
    fn parse_rules_rec(&mut self, grammar: &mut Grammar) -> (r: Result<(), ParseError>)
        requires
            old(self).inv(),
            old(grammar).wf(),
        ensures
            final(self).inv(),
            final(self).same_tables(*old(self)),
            final(grammar).wf(),
            match spec_parse_rules(old(self).tv(), old(self).at(), old(self).syms(), old(
                grammar,
            )@) {
                Ok(gs) => r is Ok && final(grammar)@ == gs,
                Err(es) => r matches Err(e) && err_view(e) == es,
            },
        decreases self.tv().len() - self.at(), 5nat,
    {
        let ghost toks = self.tv();
        let ghost i0 = self.at();
        if self.pos >= self.toks.len() {
            return Ok(());
        }
        let t = self.toks[self.pos];
        proof {
            assert(toks[i0] == (t.kind, self.input@.subrange(t.start as int, t.end as int)));
        }
        match t.kind {
            TokenKind::Identifier => {
                let inp = self.input;
                let text = inp.substring_char(t.start, t.end);
                match find_symbol(&self.symbol_map, text) {
                    Some(_) => {
                        self.pos = self.pos + 1;
                        self.parse_rule(text, grammar)?;
                        self.parse_rules_rec(grammar)
                    },
                    None => Err(ParseError::UnknownSymbol(text.to_owned())),
                }
            },
            TokenKind::End => {
                self.pos = self.pos + 1;
                self.parse_rules_rec(grammar)
            },
            TokenKind::EOF => Ok(()),
            _ => Err(ParseError::UnexpectedToken(t.kind)),
        }
    }

    /// Parse the whole grammar text: the discovery pass, then the structural
    /// pass. No partial grammar is returned on error.
    pub fn parse(&mut self) -> (r: Result<Grammar, ParseError>)
        requires
            old(self).inv(),
            old(self).syms().len() == 0,
            old(self).at() == 0,
        ensures
            match spec_parse(old(self).input_view()) {
                Ok(gs) => r matches Ok(g) && g@ == gs && g.wf(),
                Err(es) => r matches Err(e) && err_view(e) == es,
            },
    {
        let ghost empty_syms = Seq::<Seq<char>>::empty();
        proof {
            assert(old(self).syms() =~= empty_syms);
        }
        self.collect_symbols()?;
        if !self.lexed_ok {
            return Err(ParseError::UnexpectedToken(TokenKind::EOF));
        }
        let mut grammar = Grammar::new();
        match self.parse_rules_rec(&mut grammar) {
            Ok(()) => Ok(grammar),
            Err(e) => Err(e),
        }
    }
}

} // verus!
