//! The grammar round-trip law: parsing the textual form of a well-formed
//! grammar reproduces exactly the same rule, branch and weight structure.
//! The proof goes in two layers: lexing the serialized text yields the
//! serialized token stream, and that token stream, parsed by the structural
//! pass over the symbols the discovery pass collects from it, rebuilds an
//! equal grammar.

use crate::bnf_lexer::{ident_end, is_digit_char, is_eof_text, is_ident_cont_char,
    is_ident_start_char, is_ws_char, pipes_end, spec_lex, spec_lex_ok, step_to, TokenKind, TokS};
use crate::bnf_parser::{arith_op_of, first_sym, is_arith_text, is_t_text, is_unary_text,
    is_x_text, is_y_text, lemma_first_sym_found, spec_collect, spec_parse_args,
    spec_parse_branch, spec_parse_branches, spec_parse_ident, spec_parse_rules, unary_op_of,
    ParseErrS};
use crate::grammar::{grammar_names, spec_pipes_text, sum_weights, BranchS, GrammarS, RuleS};
use crate::node::{ArithmeticOp, FnNode, UnaryOp};
use vstd::prelude::*;

verus! {

/// The head word of an arithmetic operator in grammar text.
pub open spec fn arith_word(op: ArithmeticOp) -> Seq<char> {
    match op {
        ArithmeticOp::Add => "add"@,
        ArithmeticOp::Sub => "sub"@,
        ArithmeticOp::Mul => "mult"@,
        ArithmeticOp::Div => "div"@,
        ArithmeticOp::Mod => "mod"@,
    }
}

/// The head word of a unary operator in grammar text.
pub open spec fn unary_word(op: UnaryOp) -> Seq<char> {
    match op {
        UnaryOp::Sqrt => "sqrt"@,
        UnaryOp::Abs => "abs"@,
        UnaryOp::Sin => "sin"@,
        UnaryOp::Tan => "tan"@,
        UnaryOp::Cos => "cos"@,
    }
}

pub open spec fn tok_lp() -> TokS {
    (TokenKind::LParen, "("@)
}

pub open spec fn tok_rp() -> TokS {
    (TokenKind::RParen, ")"@)
}

pub open spec fn tok_comma() -> TokS {
    (TokenKind::Comma, ","@)
}

pub open spec fn tok_end() -> TokS {
    (TokenKind::End, ";"@)
}

/// The token stream of one serialized expression template.
pub open spec fn node_toks(n: FnNode, syms: Seq<Seq<char>>) -> Seq<TokS>
    decreases n,
{
    match n {
        FnNode::X => seq![(TokenKind::Identifier, "x"@)],
        FnNode::Y => seq![(TokenKind::Identifier, "y"@)],
        FnNode::T => seq![(TokenKind::Identifier, "t"@)],
        FnNode::Random => seq![(TokenKind::Identifier, "random"@)],
        FnNode::Rule(i) => seq![
            (
                TokenKind::Identifier,
                if i < syms.len() {
                    syms[i as int]
                } else {
                    "rule"@
                },
            ),
        ],
        FnNode::Arithmetic(a, op, b) => seq![(TokenKind::Identifier, arith_word(op)), tok_lp()]
            + node_toks(*a, syms) + seq![tok_comma()] + node_toks(*b, syms) + seq![tok_rp()],
        FnNode::Unary(op, e) => seq![(TokenKind::Identifier, unary_word(op)), tok_lp()]
            + node_toks(*e, syms) + seq![tok_rp()],
        FnNode::Triple(a, b, c) => seq![(TokenKind::Identifier, "vec3"@), tok_lp()] + node_toks(
            *a,
            syms,
        ) + seq![tok_comma()] + node_toks(*b, syms) + seq![tok_comma()] + node_toks(*c, syms)
            + seq![tok_rp()],
        _ => Seq::<TokS>::empty(),
    }
}

/// A template that the serializer can write and the parser can read back:
/// the terminals, rule references within range, and the three call forms.
pub open spec fn writable_node(n: FnNode, nsyms: int) -> bool
    decreases n,
{
    match n {
        FnNode::X | FnNode::Y | FnNode::T | FnNode::Random => true,
        FnNode::Rule(i) => i < nsyms,
        FnNode::Arithmetic(a, _, b) => writable_node(*a, nsyms) && writable_node(*b, nsyms),
        FnNode::Unary(_, e) => writable_node(*e, nsyms),
        FnNode::Triple(a, b, c) => writable_node(*a, nsyms) && writable_node(*b, nsyms)
            && writable_node(*c, nsyms),
        _ => false,
    }
}

/// The words that the term parser gives a fixed meaning, plus the lexer's
/// `EOF`: a rule symbol must not collide with any of them.
pub open spec fn reserved_word(t: Seq<char>) -> bool {
    is_x_text(t) || is_y_text(t) || is_t_text(t) || t == "random"@ || t == "vec3"@
        || is_arith_text(t) || is_unary_text(t) || is_eof_text(t)
}

/// A usable rule symbol: identifier-shaped and not a reserved word.
pub open spec fn valid_symbol(t: Seq<char>) -> bool {
    t.len() > 0 && is_ident_start_char(t[0]) && (forall|j: int|
        0 <= j < t.len() ==> is_ident_cont_char(#[trigger] t[j])) && !reserved_word(t)
}

/// A grammar whose textual form round-trips: distinct valid symbols, at
/// least one branch per rule, positive weights within the machine sum, and
/// writable templates.
pub open spec fn writable_grammar(gs: GrammarS) -> bool {
    (forall|i: int| 0 <= i < gs.len() ==> valid_symbol((#[trigger] gs[i]).0)) && (forall|
        i: int,
        j: int,
    |
        0 <= i < j < gs.len() ==> gs[i].0 != gs[j].0) && (forall|i: int|
        0 <= i < gs.len() ==> (#[trigger] gs[i]).1.len() > 0) && (forall|i: int|
        0 <= i < gs.len() ==> sum_weights((#[trigger] gs[i]).1) <= usize::MAX) && (forall|
        i: int,
        k: int,
    |
        0 <= i < gs.len() && 0 <= k < gs[i].1.len() ==> (#[trigger] gs[i].1[k]).1 >= 1
            && writable_node(gs[i].1[k].0, gs.len() as int))
}

/// A structural size measure used to order the mutually recursive parsing
/// lemmas below.
pub open spec fn node_size(n: FnNode) -> nat
    decreases n,
{
    match n {
        FnNode::Arithmetic(a, _, b) => 1 + node_size(*a) + node_size(*b),
        FnNode::Unary(_, e) => 1 + node_size(*e),
        FnNode::Triple(a, b, c) => 1 + node_size(*a) + node_size(*b) + node_size(*c),
        _ => 1,
    }
}

/// Splitting a known concatenation of segments.
pub proof fn lemma_seg_split<T>(toks: Seq<T>, i: int, a: Seq<T>, b: Seq<T>)
    requires
        0 <= i,
        i + a.len() + b.len() <= toks.len(),
        toks.subrange(i, i + a.len() + b.len()) == a + b,
    ensures
        toks.subrange(i, i + a.len()) == a,
        toks.subrange(i + a.len(), i + a.len() + b.len()) == b,
{
    assert(toks.subrange(i, i + a.len()) =~= a) by {
        assert forall|k: int| 0 <= k < a.len() implies toks.subrange(i, i + a.len())[k] == a[k] by {
            assert((a + b)[k] == a[k]);
            assert(toks.subrange(i, i + a.len() + b.len())[k] == toks[i + k]);
        }
    }
    assert(toks.subrange(i + a.len(), i + a.len() + b.len()) =~= b) by {
        assert forall|k: int| 0 <= k < b.len() implies toks.subrange(
            i + a.len(),
            i + a.len() + b.len(),
        )[k] == b[k] by {
            assert((a + b)[a.len() + k] == b[k]);
            assert(toks.subrange(i, i + a.len() + b.len())[a.len() + k] == toks[i + a.len() + k]);
        }
    }
}

/// With distinct symbols, each symbol resolves to its own index.
pub proof fn lemma_symbol_resolves(syms: Seq<Seq<char>>, k: int)
    requires
        0 <= k < syms.len(),
        forall|i: int, j: int| 0 <= i < j < syms.len() ==> syms[i] != syms[j],
    ensures
        first_sym(syms, syms[k]) == k,
{
    lemma_first_sym_found(syms, syms[k], k);
}

proof fn lemma_word_random()
    ensures
        !is_x_text("random"@),
        !is_y_text("random"@),
        !is_t_text("random"@),
{
    reveal_strlit("x");
    reveal_strlit("X");
    reveal_strlit("y");
    reveal_strlit("Y");
    reveal_strlit("z");
    reveal_strlit("Z");
    reveal_strlit("t");
    reveal_strlit("T");
    reveal_strlit("random");
    reveal_strlit("vec3");
    reveal_strlit("add");
    reveal_strlit("sub");
    reveal_strlit("mult");
    reveal_strlit("div");
    reveal_strlit("mod");
    reveal_strlit("sqrt");
    reveal_strlit("abs");
    reveal_strlit("sin");
    reveal_strlit("tan");
    reveal_strlit("cos");
    assert("x"@.len() == 1);
    assert("x"@[0] == 'x');
    assert("X"@.len() == 1);
    assert("X"@[0] == 'X');
    assert("y"@.len() == 1);
    assert("y"@[0] == 'y');
    assert("Y"@.len() == 1);
    assert("Y"@[0] == 'Y');
    assert("z"@.len() == 1);
    assert("z"@[0] == 'z');
    assert("Z"@.len() == 1);
    assert("Z"@[0] == 'Z');
    assert("t"@.len() == 1);
    assert("t"@[0] == 't');
    assert("T"@.len() == 1);
    assert("T"@[0] == 'T');
    assert("random"@.len() == 6);
    assert("random"@[0] == 'r');
    assert("random"@[1] == 'a');
    assert("vec3"@.len() == 4);
    assert("vec3"@[0] == 'v');
    assert("vec3"@[1] == 'e');
    assert("add"@.len() == 3);
    assert("add"@[0] == 'a');
    assert("add"@[1] == 'd');
    assert("sub"@.len() == 3);
    assert("sub"@[0] == 's');
    assert("sub"@[1] == 'u');
    assert("mult"@.len() == 4);
    assert("mult"@[0] == 'm');
    assert("mult"@[1] == 'u');
    assert("div"@.len() == 3);
    assert("div"@[0] == 'd');
    assert("div"@[1] == 'i');
    assert("mod"@.len() == 3);
    assert("mod"@[0] == 'm');
    assert("mod"@[1] == 'o');
    assert("sqrt"@.len() == 4);
    assert("sqrt"@[0] == 's');
    assert("sqrt"@[1] == 'q');
    assert("abs"@.len() == 3);
    assert("abs"@[0] == 'a');
    assert("abs"@[1] == 'b');
    assert("sin"@.len() == 3);
    assert("sin"@[0] == 's');
    assert("sin"@[1] == 'i');
    assert("tan"@.len() == 3);
    assert("tan"@[0] == 't');
    assert("tan"@[1] == 'a');
    assert("cos"@.len() == 3);
    assert("cos"@[0] == 'c');
    assert("cos"@[1] == 'o');
}

proof fn lemma_word_vec3()
    ensures
        !is_x_text("vec3"@),
        !is_y_text("vec3"@),
        !is_t_text("vec3"@),
        "vec3"@ != "random"@,
{
    reveal_strlit("x");
    reveal_strlit("X");
    reveal_strlit("y");
    reveal_strlit("Y");
    reveal_strlit("z");
    reveal_strlit("Z");
    reveal_strlit("t");
    reveal_strlit("T");
    reveal_strlit("random");
    reveal_strlit("vec3");
    reveal_strlit("add");
    reveal_strlit("sub");
    reveal_strlit("mult");
    reveal_strlit("div");
    reveal_strlit("mod");
    reveal_strlit("sqrt");
    reveal_strlit("abs");
    reveal_strlit("sin");
    reveal_strlit("tan");
    reveal_strlit("cos");
    assert("x"@.len() == 1);
    assert("x"@[0] == 'x');
    assert("X"@.len() == 1);
    assert("X"@[0] == 'X');
    assert("y"@.len() == 1);
    assert("y"@[0] == 'y');
    assert("Y"@.len() == 1);
    assert("Y"@[0] == 'Y');
    assert("z"@.len() == 1);
    assert("z"@[0] == 'z');
    assert("Z"@.len() == 1);
    assert("Z"@[0] == 'Z');
    assert("t"@.len() == 1);
    assert("t"@[0] == 't');
    assert("T"@.len() == 1);
    assert("T"@[0] == 'T');
    assert("random"@.len() == 6);
    assert("random"@[0] == 'r');
    assert("random"@[1] == 'a');
    assert("vec3"@.len() == 4);
    assert("vec3"@[0] == 'v');
    assert("vec3"@[1] == 'e');
    assert("add"@.len() == 3);
    assert("add"@[0] == 'a');
    assert("add"@[1] == 'd');
    assert("sub"@.len() == 3);
    assert("sub"@[0] == 's');
    assert("sub"@[1] == 'u');
    assert("mult"@.len() == 4);
    assert("mult"@[0] == 'm');
    assert("mult"@[1] == 'u');
    assert("div"@.len() == 3);
    assert("div"@[0] == 'd');
    assert("div"@[1] == 'i');
    assert("mod"@.len() == 3);
    assert("mod"@[0] == 'm');
    assert("mod"@[1] == 'o');
    assert("sqrt"@.len() == 4);
    assert("sqrt"@[0] == 's');
    assert("sqrt"@[1] == 'q');
    assert("abs"@.len() == 3);
    assert("abs"@[0] == 'a');
    assert("abs"@[1] == 'b');
    assert("sin"@.len() == 3);
    assert("sin"@[0] == 's');
    assert("sin"@[1] == 'i');
    assert("tan"@.len() == 3);
    assert("tan"@[0] == 't');
    assert("tan"@[1] == 'a');
    assert("cos"@.len() == 3);
    assert("cos"@[0] == 'c');
    assert("cos"@[1] == 'o');
}

proof fn lemma_word_arith(op: ArithmeticOp)
    ensures
        !is_x_text(arith_word(op)),
        !is_y_text(arith_word(op)),
        !is_t_text(arith_word(op)),
        arith_word(op) != "random"@,
        arith_word(op) != "vec3"@,
        is_arith_text(arith_word(op)),
        arith_op_of(arith_word(op)) == op,
{
    reveal_strlit("x");
    reveal_strlit("X");
    reveal_strlit("y");
    reveal_strlit("Y");
    reveal_strlit("z");
    reveal_strlit("Z");
    reveal_strlit("t");
    reveal_strlit("T");
    reveal_strlit("random");
    reveal_strlit("vec3");
    reveal_strlit("add");
    reveal_strlit("sub");
    reveal_strlit("mult");
    reveal_strlit("div");
    reveal_strlit("mod");
    reveal_strlit("sqrt");
    reveal_strlit("abs");
    reveal_strlit("sin");
    reveal_strlit("tan");
    reveal_strlit("cos");
    assert("x"@.len() == 1);
    assert("x"@[0] == 'x');
    assert("X"@.len() == 1);
    assert("X"@[0] == 'X');
    assert("y"@.len() == 1);
    assert("y"@[0] == 'y');
    assert("Y"@.len() == 1);
    assert("Y"@[0] == 'Y');
    assert("z"@.len() == 1);
    assert("z"@[0] == 'z');
    assert("Z"@.len() == 1);
    assert("Z"@[0] == 'Z');
    assert("t"@.len() == 1);
    assert("t"@[0] == 't');
    assert("T"@.len() == 1);
    assert("T"@[0] == 'T');
    assert("random"@.len() == 6);
    assert("random"@[0] == 'r');
    assert("random"@[1] == 'a');
    assert("vec3"@.len() == 4);
    assert("vec3"@[0] == 'v');
    assert("vec3"@[1] == 'e');
    assert("add"@.len() == 3);
    assert("add"@[0] == 'a');
    assert("add"@[1] == 'd');
    assert("sub"@.len() == 3);
    assert("sub"@[0] == 's');
    assert("sub"@[1] == 'u');
    assert("mult"@.len() == 4);
    assert("mult"@[0] == 'm');
    assert("mult"@[1] == 'u');
    assert("div"@.len() == 3);
    assert("div"@[0] == 'd');
    assert("div"@[1] == 'i');
    assert("mod"@.len() == 3);
    assert("mod"@[0] == 'm');
    assert("mod"@[1] == 'o');
    assert("sqrt"@.len() == 4);
    assert("sqrt"@[0] == 's');
    assert("sqrt"@[1] == 'q');
    assert("abs"@.len() == 3);
    assert("abs"@[0] == 'a');
    assert("abs"@[1] == 'b');
    assert("sin"@.len() == 3);
    assert("sin"@[0] == 's');
    assert("sin"@[1] == 'i');
    assert("tan"@.len() == 3);
    assert("tan"@[0] == 't');
    assert("tan"@[1] == 'a');
    assert("cos"@.len() == 3);
    assert("cos"@[0] == 'c');
    assert("cos"@[1] == 'o');
}

proof fn lemma_word_unary(op: UnaryOp)
    ensures
        !is_x_text(unary_word(op)),
        !is_y_text(unary_word(op)),
        !is_t_text(unary_word(op)),
        unary_word(op) != "random"@,
        unary_word(op) != "vec3"@,
        !is_arith_text(unary_word(op)),
        is_unary_text(unary_word(op)),
        unary_op_of(unary_word(op)) == op,
{
    reveal_strlit("x");
    reveal_strlit("X");
    reveal_strlit("y");
    reveal_strlit("Y");
    reveal_strlit("z");
    reveal_strlit("Z");
    reveal_strlit("t");
    reveal_strlit("T");
    reveal_strlit("random");
    reveal_strlit("vec3");
    reveal_strlit("add");
    reveal_strlit("sub");
    reveal_strlit("mult");
    reveal_strlit("div");
    reveal_strlit("mod");
    reveal_strlit("sqrt");
    reveal_strlit("abs");
    reveal_strlit("sin");
    reveal_strlit("tan");
    reveal_strlit("cos");
    assert("x"@.len() == 1);
    assert("x"@[0] == 'x');
    assert("X"@.len() == 1);
    assert("X"@[0] == 'X');
    assert("y"@.len() == 1);
    assert("y"@[0] == 'y');
    assert("Y"@.len() == 1);
    assert("Y"@[0] == 'Y');
    assert("z"@.len() == 1);
    assert("z"@[0] == 'z');
    assert("Z"@.len() == 1);
    assert("Z"@[0] == 'Z');
    assert("t"@.len() == 1);
    assert("t"@[0] == 't');
    assert("T"@.len() == 1);
    assert("T"@[0] == 'T');
    assert("random"@.len() == 6);
    assert("random"@[0] == 'r');
    assert("random"@[1] == 'a');
    assert("vec3"@.len() == 4);
    assert("vec3"@[0] == 'v');
    assert("vec3"@[1] == 'e');
    assert("add"@.len() == 3);
    assert("add"@[0] == 'a');
    assert("add"@[1] == 'd');
    assert("sub"@.len() == 3);
    assert("sub"@[0] == 's');
    assert("sub"@[1] == 'u');
    assert("mult"@.len() == 4);
    assert("mult"@[0] == 'm');
    assert("mult"@[1] == 'u');
    assert("div"@.len() == 3);
    assert("div"@[0] == 'd');
    assert("div"@[1] == 'i');
    assert("mod"@.len() == 3);
    assert("mod"@[0] == 'm');
    assert("mod"@[1] == 'o');
    assert("sqrt"@.len() == 4);
    assert("sqrt"@[0] == 's');
    assert("sqrt"@[1] == 'q');
    assert("abs"@.len() == 3);
    assert("abs"@[0] == 'a');
    assert("abs"@[1] == 'b');
    assert("sin"@.len() == 3);
    assert("sin"@[0] == 's');
    assert("sin"@[1] == 'i');
    assert("tan"@.len() == 3);
    assert("tan"@[0] == 't');
    assert("tan"@[1] == 'a');
    assert("cos"@.len() == 3);
    assert("cos"@[0] == 'c');
    assert("cos"@[1] == 'o');
}

/// Parsing one serialized term after its head identifier was read yields
/// the term back, consuming exactly its remaining tokens.
pub proof fn lemma_parse_node(toks: Seq<TokS>, i: int, syms: Seq<Seq<char>>, n: FnNode)
    requires
        forall|k: int| 0 <= k < syms.len() ==> valid_symbol(#[trigger] syms[k]),
        forall|p: int, q: int| 0 <= p < q < syms.len() ==> syms[p] != syms[q],
        writable_node(n, syms.len() as int),
        1 <= i,
        i - 1 + node_toks(n, syms).len() <= toks.len(),
        toks.subrange(i - 1, i - 1 + node_toks(n, syms).len()) == node_toks(n, syms),
    ensures
        spec_parse_ident(toks, i, syms, node_toks(n, syms)[0].1) == Ok::<_, ParseErrS>(
            (n, (node_toks(n, syms).len() - 1) as nat),
        ),
    decreases node_size(n), 0nat,
{
    let nt = node_toks(n, syms);
    match n {
        FnNode::X => {},
        FnNode::Y => {
            reveal_strlit("x");
            reveal_strlit("X");
            reveal_strlit("y");
            reveal_strlit("Y");
            assert("y"@.len() == 1);
            assert("y"@[0] == 'y');
            assert("x"@[0] == 'x');
            assert("X"@[0] == 'X');
        },
        FnNode::T => {
            reveal_strlit("x");
            reveal_strlit("X");
            reveal_strlit("y");
            reveal_strlit("Y");
            reveal_strlit("t");
            reveal_strlit("T");
            reveal_strlit("z");
            reveal_strlit("Z");
            assert("t"@.len() == 1);
            assert("t"@[0] == 't');
            assert("x"@[0] == 'x');
            assert("X"@[0] == 'X');
            assert("y"@[0] == 'y');
            assert("Y"@[0] == 'Y');
        },
        FnNode::Random => {
            lemma_word_random();
        },
        FnNode::Rule(k) => {
            lemma_symbol_resolves(syms, k as int);
        },
        FnNode::Arithmetic(a, op, b) => {
            proof_parse_node_arith(toks, i, syms, *a, op, *b);
        },
        FnNode::Unary(op, e) => {
            proof_parse_node_unary(toks, i, syms, op, *e);
        },
        FnNode::Triple(a, b, c) => {
            proof_parse_node_triple(toks, i, syms, *a, *b, *c);
        },
        _ => {},
    }
}

/// Parsing the tail `e )` of an argument list, from the head of `e`.
proof fn lemma_parse_tail1(toks: Seq<TokS>, i: int, syms: Seq<Seq<char>>, e: FnNode)
    requires
        forall|k: int| 0 <= k < syms.len() ==> valid_symbol(#[trigger] syms[k]),
        forall|p: int, q: int| 0 <= p < q < syms.len() ==> syms[p] != syms[q],
        writable_node(e, syms.len() as int),
        0 <= i,
        i + node_toks(e, syms).len() + 1 <= toks.len(),
        toks.subrange(i, i + node_toks(e, syms).len() + 1) == node_toks(e, syms) + seq![tok_rp()],
    ensures
        spec_parse_args(toks, i, syms) == Ok::<_, ParseErrS>(
            (seq![e], (node_toks(e, syms).len() + 1) as nat),
        ),
    decreases node_size(e), 1nat,
{
    let et = node_toks(e, syms);
    lemma_seg_split(toks, i, et, seq![tok_rp()]);
    lemma_node_head(e, syms);
    assert(toks[i] == et[0]) by {
        assert(toks.subrange(i, i + et.len())[0] == et[0]);
    }
    lemma_parse_node(toks, i + 1, syms, e);
    assert(toks[i + et.len()] == tok_rp()) by {
        assert(toks.subrange(i + et.len(), i + et.len() + 1)[0] == tok_rp());
    }
    assert(spec_parse_args(toks, i + et.len(), syms) == Ok::<_, ParseErrS>(
        (Seq::<FnNode>::empty(), 1nat),
    ));
    assert(seq![e] + Seq::<FnNode>::empty() =~= seq![e]);
}

/// Parsing the tail `b , c )` of an argument list, from the head of `b`.
proof fn lemma_parse_tail2(toks: Seq<TokS>, i: int, syms: Seq<Seq<char>>, b: FnNode, c: FnNode)
    requires
        forall|k: int| 0 <= k < syms.len() ==> valid_symbol(#[trigger] syms[k]),
        forall|p: int, q: int| 0 <= p < q < syms.len() ==> syms[p] != syms[q],
        writable_node(b, syms.len() as int),
        writable_node(c, syms.len() as int),
        0 <= i,
        i + node_toks(b, syms).len() + node_toks(c, syms).len() + 2 <= toks.len(),
        toks.subrange(i, i + node_toks(b, syms).len() + node_toks(c, syms).len() + 2)
            == node_toks(b, syms) + seq![tok_comma()] + node_toks(c, syms) + seq![tok_rp()],
    ensures
        spec_parse_args(toks, i, syms) == Ok::<_, ParseErrS>(
            (
                seq![b, c],
                (node_toks(b, syms).len() + node_toks(c, syms).len() + 2) as nat,
            ),
        ),
    decreases node_size(b) + node_size(c), 1nat,
{
    let bt = node_toks(b, syms);
    let ct = node_toks(c, syms);
    assert(bt + seq![tok_comma()] + ct + seq![tok_rp()] =~= bt + (seq![tok_comma()] + (ct + seq![
        tok_rp(),
    ])));
    lemma_seg_split(toks, i, bt, seq![tok_comma()] + (ct + seq![tok_rp()]));
    lemma_seg_split(toks, i + bt.len(), seq![tok_comma()], ct + seq![tok_rp()]);
    lemma_node_head(b, syms);
    assert(toks[i] == bt[0]) by {
        assert(toks.subrange(i, i + bt.len())[0] == bt[0]);
    }
    lemma_parse_node(toks, i + 1, syms, b);
    assert(toks[i + bt.len()] == tok_comma()) by {
        assert(toks.subrange(i + bt.len(), i + bt.len() + 1)[0] == tok_comma());
    }
    assert(node_size(c) >= 1);
    lemma_parse_tail1(toks, i + bt.len() + 1, syms, c);
    assert(seq![b] + seq![c] =~= seq![b, c]);
    assert(spec_parse_args(toks, i + bt.len(), syms) == Ok::<_, ParseErrS>(
        (seq![c], (ct.len() + 2) as nat),
    ));
}

/// Parsing the tail `a , b , c )` of an argument list, from the head of `a`.
proof fn lemma_parse_tail3(
    toks: Seq<TokS>,
    i: int,
    syms: Seq<Seq<char>>,
    a: FnNode,
    b: FnNode,
    c: FnNode,
)
    requires
        forall|k: int| 0 <= k < syms.len() ==> valid_symbol(#[trigger] syms[k]),
        forall|p: int, q: int| 0 <= p < q < syms.len() ==> syms[p] != syms[q],
        writable_node(a, syms.len() as int),
        writable_node(b, syms.len() as int),
        writable_node(c, syms.len() as int),
        0 <= i,
        i + node_toks(a, syms).len() + node_toks(b, syms).len() + node_toks(c, syms).len() + 3
            <= toks.len(),
        toks.subrange(
            i,
            i + node_toks(a, syms).len() + node_toks(b, syms).len() + node_toks(c, syms).len()
                + 3,
        ) == node_toks(a, syms) + seq![tok_comma()] + node_toks(b, syms) + seq![tok_comma()]
            + node_toks(c, syms) + seq![tok_rp()],
    ensures
        spec_parse_args(toks, i, syms) == Ok::<_, ParseErrS>(
            (
                seq![a, b, c],
                (node_toks(a, syms).len() + node_toks(b, syms).len() + node_toks(c, syms).len()
                    + 3) as nat,
            ),
        ),
    decreases node_size(a) + node_size(b) + node_size(c), 1nat,
{
    let at = node_toks(a, syms);
    let bt = node_toks(b, syms);
    let ct = node_toks(c, syms);
    assert(at + seq![tok_comma()] + bt + seq![tok_comma()] + ct + seq![tok_rp()] =~= at + (seq![
        tok_comma(),
    ] + (bt + seq![tok_comma()] + ct + seq![tok_rp()])));
    lemma_seg_split(toks, i, at, seq![tok_comma()] + (bt + seq![tok_comma()] + ct + seq![
        tok_rp(),
    ]));
    lemma_seg_split(toks, i + at.len(), seq![tok_comma()], bt + seq![tok_comma()] + ct + seq![
        tok_rp(),
    ]);
    lemma_node_head(a, syms);
    assert(toks[i] == at[0]) by {
        assert(toks.subrange(i, i + at.len())[0] == at[0]);
    }
    lemma_parse_node(toks, i + 1, syms, a);
    assert(toks[i + at.len()] == tok_comma()) by {
        assert(toks.subrange(i + at.len(), i + at.len() + 1)[0] == tok_comma());
    }
    assert(node_size(a) >= 1);
    assert(bt + seq![tok_comma()] + ct + seq![tok_rp()] =~= bt + seq![tok_comma()] + ct + seq![
        tok_rp(),
    ]);
    lemma_parse_tail2(toks, i + at.len() + 1, syms, b, c);
    assert(seq![a] + seq![b, c] =~= seq![a, b, c]);
    assert(spec_parse_args(toks, i + at.len(), syms) == Ok::<_, ParseErrS>(
        (seq![b, c], (bt.len() + ct.len() + 3) as nat),
    ));
}

/// Parsing `( e )` from the opening parenthesis yields the one-element
/// argument list.
pub proof fn lemma_parse_args1(toks: Seq<TokS>, i: int, syms: Seq<Seq<char>>, e: FnNode)
    requires
        forall|k: int| 0 <= k < syms.len() ==> valid_symbol(#[trigger] syms[k]),
        forall|p: int, q: int| 0 <= p < q < syms.len() ==> syms[p] != syms[q],
        writable_node(e, syms.len() as int),
        0 <= i,
        i + 2 + node_toks(e, syms).len() <= toks.len(),
        toks.subrange(i, i + 2 + node_toks(e, syms).len()) == seq![tok_lp()] + node_toks(e, syms)
            + seq![tok_rp()],
    ensures
        spec_parse_args(toks, i, syms) == Ok::<_, ParseErrS>(
            (seq![e], (2 + node_toks(e, syms).len()) as nat),
        ),
    decreases node_size(e), 2nat,
{
    let et = node_toks(e, syms);
    assert(seq![tok_lp()] + et + seq![tok_rp()] =~= seq![tok_lp()] + (et + seq![tok_rp()]));
    lemma_seg_split(toks, i, seq![tok_lp()], et + seq![tok_rp()]);
    assert(toks[i] == tok_lp()) by {
        assert(toks.subrange(i, i + 1)[0] == tok_lp());
    }
    lemma_parse_tail1(toks, i + 1, syms, e);
}

/// Parsing `( a , b )` from the opening parenthesis yields the two-element
/// argument list.
pub proof fn lemma_parse_args2(toks: Seq<TokS>, i: int, syms: Seq<Seq<char>>, a: FnNode, b: FnNode)
    requires
        forall|k: int| 0 <= k < syms.len() ==> valid_symbol(#[trigger] syms[k]),
        forall|p: int, q: int| 0 <= p < q < syms.len() ==> syms[p] != syms[q],
        writable_node(a, syms.len() as int),
        writable_node(b, syms.len() as int),
        0 <= i,
        i + 3 + node_toks(a, syms).len() + node_toks(b, syms).len() <= toks.len(),
        toks.subrange(i, i + 3 + node_toks(a, syms).len() + node_toks(b, syms).len()) == seq![
            tok_lp(),
        ] + node_toks(a, syms) + seq![tok_comma()] + node_toks(b, syms) + seq![tok_rp()],
    ensures
        spec_parse_args(toks, i, syms) == Ok::<_, ParseErrS>(
            (seq![a, b], (3 + node_toks(a, syms).len() + node_toks(b, syms).len()) as nat),
        ),
    decreases node_size(a) + node_size(b), 2nat,
{
    let at = node_toks(a, syms);
    let bt = node_toks(b, syms);
    assert(seq![tok_lp()] + at + seq![tok_comma()] + bt + seq![tok_rp()] =~= seq![tok_lp()] + (at
        + seq![tok_comma()] + bt + seq![tok_rp()]));
    lemma_seg_split(toks, i, seq![tok_lp()], at + seq![tok_comma()] + bt + seq![tok_rp()]);
    assert(toks[i] == tok_lp()) by {
        assert(toks.subrange(i, i + 1)[0] == tok_lp());
    }
    lemma_parse_tail2(toks, i + 1, syms, a, b);
}

/// Parsing `( a , b , c )` from the opening parenthesis yields the
/// three-element argument list.
pub proof fn lemma_parse_args3(
    toks: Seq<TokS>,
    i: int,
    syms: Seq<Seq<char>>,
    a: FnNode,
    b: FnNode,
    c: FnNode,
)
    requires
        forall|k: int| 0 <= k < syms.len() ==> valid_symbol(#[trigger] syms[k]),
        forall|p: int, q: int| 0 <= p < q < syms.len() ==> syms[p] != syms[q],
        writable_node(a, syms.len() as int),
        writable_node(b, syms.len() as int),
        writable_node(c, syms.len() as int),
        0 <= i,
        i + 4 + node_toks(a, syms).len() + node_toks(b, syms).len() + node_toks(c, syms).len()
            <= toks.len(),
        toks.subrange(
            i,
            i + 4 + node_toks(a, syms).len() + node_toks(b, syms).len() + node_toks(
                c,
                syms,
            ).len(),
        ) == seq![tok_lp()] + node_toks(a, syms) + seq![tok_comma()] + node_toks(b, syms) + seq![
            tok_comma(),
        ] + node_toks(c, syms) + seq![tok_rp()],
    ensures
        spec_parse_args(toks, i, syms) == Ok::<_, ParseErrS>(
            (
                seq![a, b, c],
                (4 + node_toks(a, syms).len() + node_toks(b, syms).len() + node_toks(
                    c,
                    syms,
                ).len()) as nat,
            ),
        ),
    decreases node_size(a) + node_size(b) + node_size(c), 2nat,
{
    let at = node_toks(a, syms);
    let bt = node_toks(b, syms);
    let ct = node_toks(c, syms);
    assert(seq![tok_lp()] + at + seq![tok_comma()] + bt + seq![tok_comma()] + ct + seq![tok_rp()]
        =~= seq![tok_lp()] + (at + seq![tok_comma()] + bt + seq![tok_comma()] + ct + seq![
        tok_rp(),
    ]));
    lemma_seg_split(toks, i, seq![tok_lp()], at + seq![tok_comma()] + bt + seq![tok_comma()] + ct
        + seq![tok_rp()]);
    assert(toks[i] == tok_lp()) by {
        assert(toks.subrange(i, i + 1)[0] == tok_lp());
    }
    lemma_parse_tail3(toks, i + 1, syms, a, b, c);
}

#[verifier::rlimit(100)]
proof fn proof_parse_node_arith(
    toks: Seq<TokS>,
    i: int,
    syms: Seq<Seq<char>>,
    a: FnNode,
    op: ArithmeticOp,
    b: FnNode,
)
    requires
        forall|k: int| 0 <= k < syms.len() ==> valid_symbol(#[trigger] syms[k]),
        forall|p: int, q: int| 0 <= p < q < syms.len() ==> syms[p] != syms[q],
        writable_node(FnNode::Arithmetic(Box::new(a), op, Box::new(b)), syms.len() as int),
        1 <= i,
        i - 1 + node_toks(FnNode::Arithmetic(Box::new(a), op, Box::new(b)), syms).len()
            <= toks.len(),
        toks.subrange(
            i - 1,
            i - 1 + node_toks(FnNode::Arithmetic(Box::new(a), op, Box::new(b)), syms).len(),
        ) == node_toks(FnNode::Arithmetic(Box::new(a), op, Box::new(b)), syms),
    ensures
        spec_parse_ident(toks, i, syms, arith_word(op)) == Ok::<_, ParseErrS>(
            (
                FnNode::Arithmetic(Box::new(a), op, Box::new(b)),
                (node_toks(FnNode::Arithmetic(Box::new(a), op, Box::new(b)), syms).len()
                    - 1) as nat,
            ),
        ),
    decreases node_size(a) + node_size(b), 3nat,
{
    let n = FnNode::Arithmetic(Box::new(a), op, Box::new(b));
    let nt = node_toks(n, syms);
    let at = node_toks(a, syms);
    let bt = node_toks(b, syms);
    lemma_word_arith(op);
    let rest = seq![tok_lp()] + at + seq![tok_comma()] + bt + seq![tok_rp()];
    assert(nt =~= seq![(TokenKind::Identifier, arith_word(op))] + rest);
    lemma_seg_split(toks, i - 1, seq![(TokenKind::Identifier, arith_word(op))], rest);
    assert(toks.subrange(i, i + rest.len() as int) =~= seq![tok_lp()] + at + seq![tok_comma()]
        + bt + seq![tok_rp()]);
    lemma_parse_args2(toks, i, syms, a, b);
    assert(seq![a, b][0] == a);
    assert(seq![a, b][1] == b);
}

#[verifier::rlimit(100)]
proof fn proof_parse_node_unary(
    toks: Seq<TokS>,
    i: int,
    syms: Seq<Seq<char>>,
    op: UnaryOp,
    e: FnNode,
)
    requires
        forall|k: int| 0 <= k < syms.len() ==> valid_symbol(#[trigger] syms[k]),
        forall|p: int, q: int| 0 <= p < q < syms.len() ==> syms[p] != syms[q],
        writable_node(FnNode::Unary(op, Box::new(e)), syms.len() as int),
        1 <= i,
        i - 1 + node_toks(FnNode::Unary(op, Box::new(e)), syms).len() <= toks.len(),
        toks.subrange(
            i - 1,
            i - 1 + node_toks(FnNode::Unary(op, Box::new(e)), syms).len(),
        ) == node_toks(FnNode::Unary(op, Box::new(e)), syms),
    ensures
        spec_parse_ident(toks, i, syms, unary_word(op)) == Ok::<_, ParseErrS>(
            (
                FnNode::Unary(op, Box::new(e)),
                (node_toks(FnNode::Unary(op, Box::new(e)), syms).len() - 1) as nat,
            ),
        ),
    decreases node_size(e), 3nat,
{
    let n = FnNode::Unary(op, Box::new(e));
    let nt = node_toks(n, syms);
    let et = node_toks(e, syms);
    lemma_word_unary(op);
    let rest = seq![tok_lp()] + et + seq![tok_rp()];
    assert(nt =~= seq![(TokenKind::Identifier, unary_word(op))] + rest);
    lemma_seg_split(toks, i - 1, seq![(TokenKind::Identifier, unary_word(op))], rest);
    assert(toks.subrange(i, i + rest.len() as int) =~= seq![tok_lp()] + et + seq![tok_rp()]);
    lemma_parse_args1(toks, i, syms, e);
    assert(seq![e][0] == e);
}

#[verifier::rlimit(100)]
proof fn proof_parse_node_triple(
    toks: Seq<TokS>,
    i: int,
    syms: Seq<Seq<char>>,
    a: FnNode,
    b: FnNode,
    c: FnNode,
)
    requires
        forall|k: int| 0 <= k < syms.len() ==> valid_symbol(#[trigger] syms[k]),
        forall|p: int, q: int| 0 <= p < q < syms.len() ==> syms[p] != syms[q],
        writable_node(
            FnNode::Triple(Box::new(a), Box::new(b), Box::new(c)),
            syms.len() as int,
        ),
        1 <= i,
        i - 1 + node_toks(FnNode::Triple(Box::new(a), Box::new(b), Box::new(c)), syms).len()
            <= toks.len(),
        toks.subrange(
            i - 1,
            i - 1 + node_toks(FnNode::Triple(Box::new(a), Box::new(b), Box::new(c)), syms).len(),
        ) == node_toks(FnNode::Triple(Box::new(a), Box::new(b), Box::new(c)), syms),
    ensures
        spec_parse_ident(toks, i, syms, "vec3"@) == Ok::<_, ParseErrS>(
            (
                FnNode::Triple(Box::new(a), Box::new(b), Box::new(c)),
                (node_toks(FnNode::Triple(Box::new(a), Box::new(b), Box::new(c)), syms).len()
                    - 1) as nat,
            ),
        ),
    decreases node_size(a) + node_size(b) + node_size(c), 3nat,
{
    let n = FnNode::Triple(Box::new(a), Box::new(b), Box::new(c));
    let nt = node_toks(n, syms);
    let at = node_toks(a, syms);
    let bt = node_toks(b, syms);
    let ct = node_toks(c, syms);
    lemma_word_vec3();
    let rest = seq![tok_lp()] + at + seq![tok_comma()] + bt + seq![tok_comma()] + ct + seq![
        tok_rp(),
    ];
    assert(nt =~= seq![(TokenKind::Identifier, "vec3"@)] + rest);
    lemma_seg_split(toks, i - 1, seq![(TokenKind::Identifier, "vec3"@)], rest);
    assert(toks.subrange(i, i + rest.len() as int) =~= seq![tok_lp()] + at + seq![tok_comma()]
        + bt + seq![tok_comma()] + ct + seq![tok_rp()]);
    lemma_parse_args3(toks, i, syms, a, b, c);
    assert(seq![a, b, c][0] == a);
    assert(seq![a, b, c][1] == b);
    assert(seq![a, b, c][2] == c);
}

/// A serialized term's first token is an identifier, and its token list is
/// non-empty.
pub proof fn lemma_node_head(n: FnNode, syms: Seq<Seq<char>>)
    requires
        writable_node(n, syms.len() as int),
    ensures
        node_toks(n, syms).len() >= 1,
        node_toks(n, syms)[0].0 == TokenKind::Identifier,
{
}


/// The weight marker of `w` pipes has length `w`.
pub proof fn lemma_pipes_len(w: nat)
    ensures
        spec_pipes_text(w).len() == w,
    decreases w,
{
    reveal_strlit("|");
    if w > 0 {
        lemma_pipes_len((w - 1) as nat);
    }
}

/// The token stream of one serialized branch.
pub open spec fn branch_toks(b: BranchS, syms: Seq<Seq<char>>) -> Seq<TokS> {
    seq![(TokenKind::Pipes, spec_pipes_text(b.1))] + node_toks(b.0, syms)
}

/// The token stream of a serialized branch list, closed by the rule
/// terminator.
pub open spec fn branches_toks(bs: RuleS, syms: Seq<Seq<char>>) -> Seq<TokS>
    decreases bs.len(),
{
    if bs.len() == 0 {
        seq![tok_end()]
    } else {
        branch_toks(bs[0], syms) + branches_toks(bs.drop_first(), syms)
    }
}

/// The token stream of a serialized rule list.
pub open spec fn rules_toks(rs: GrammarS, syms: Seq<Seq<char>>) -> Seq<TokS>
    decreases rs.len(),
{
    if rs.len() == 0 {
        Seq::<TokS>::empty()
    } else {
        seq![(TokenKind::Identifier, rs[0].0)] + branches_toks(rs[0].1, syms) + rules_toks(
            rs.drop_first(),
            syms,
        )
    }
}

/// No token of a serialized term is a terminator, the end marker, or a
/// weight marker.
pub proof fn lemma_node_toks_kinds(n: FnNode, syms: Seq<Seq<char>>)
    ensures
        forall|k: int|
            0 <= k < node_toks(n, syms).len() ==> (#[trigger] node_toks(n, syms)[k]).0
                != TokenKind::End && node_toks(n, syms)[k].0 != TokenKind::EOF,
    decreases n,
{
    match n {
        FnNode::Arithmetic(a, _, b) => {
            lemma_node_toks_kinds(*a, syms);
            lemma_node_toks_kinds(*b, syms);
        },
        FnNode::Unary(_, e) => {
            lemma_node_toks_kinds(*e, syms);
        },
        FnNode::Triple(a, b, c) => {
            lemma_node_toks_kinds(*a, syms);
            lemma_node_toks_kinds(*b, syms);
            lemma_node_toks_kinds(*c, syms);
        },
        _ => {},
    }
}

/// Within a serialized branch list, only the final terminator token is an
/// `End`, and no token is the end marker.
pub proof fn lemma_branches_toks_kinds(bs: RuleS, syms: Seq<Seq<char>>)
    ensures
        branches_toks(bs, syms).len() >= 1,
        branches_toks(bs, syms).last() == tok_end(),
        forall|k: int|
            0 <= k < branches_toks(bs, syms).len() - 1 ==> (#[trigger] branches_toks(
                bs,
                syms,
            )[k]).0 != TokenKind::End && branches_toks(bs, syms)[k].0 != TokenKind::EOF,
    decreases bs.len(),
{
    if bs.len() > 0 {
        lemma_node_toks_kinds(bs[0].0, syms);
        lemma_branches_toks_kinds(bs.drop_first(), syms);
        let bt = branch_toks(bs[0], syms);
        let rest = branches_toks(bs.drop_first(), syms);
        assert forall|k: int|
            0 <= k < branches_toks(bs, syms).len() - 1 implies (#[trigger] branches_toks(
            bs,
            syms,
        )[k]).0 != TokenKind::End && branches_toks(bs, syms)[k].0 != TokenKind::EOF by {
            if k < bt.len() {
                assert(branches_toks(bs, syms)[k] == bt[k]);
                if k >= 1 {
                    assert(bt[k] == node_toks(bs[0].0, syms)[k - 1]);
                }
            } else {
                assert(branches_toks(bs, syms)[k] == rest[k - bt.len()]);
            }
        }
    }
}

/// Parsing a serialized branch list yields the branches and consumes the
/// terminator.
pub proof fn lemma_parse_branches_seg(toks: Seq<TokS>, i: int, syms: Seq<Seq<char>>, bs: RuleS)
    requires
        forall|k: int| 0 <= k < syms.len() ==> valid_symbol(#[trigger] syms[k]),
        forall|p: int, q: int| 0 <= p < q < syms.len() ==> syms[p] != syms[q],
        forall|k: int|
            0 <= k < bs.len() ==> writable_node((#[trigger] bs[k]).0, syms.len() as int)
                && bs[k].1 >= 1,
        0 <= i,
        i + branches_toks(bs, syms).len() <= toks.len(),
        toks.subrange(i, i + branches_toks(bs, syms).len()) == branches_toks(bs, syms),
    ensures
        spec_parse_branches(toks, i, syms) == Ok::<_, ParseErrS>(
            (bs, branches_toks(bs, syms).len() as nat),
        ),
    decreases bs.len(),
{
    let all = branches_toks(bs, syms);
    if bs.len() == 0 {
        assert(toks[i] == tok_end()) by {
            assert(toks.subrange(i, i + 1)[0] == tok_end());
        }
        assert(bs =~= Seq::<BranchS>::empty());
    } else {
        assert forall|k: int|
            0 <= k < bs.drop_first().len() implies writable_node(
            (#[trigger] bs.drop_first()[k]).0,
            syms.len() as int,
        ) && bs.drop_first()[k].1 >= 1 by {
            assert(bs.drop_first()[k] == bs[k + 1]);
        }
        let b0 = bs[0];
        let nt = node_toks(b0.0, syms);
        let bt = branch_toks(b0, syms);
        let rest = branches_toks(bs.drop_first(), syms);
        assert(all =~= bt + rest);
        lemma_seg_split(toks, i, bt, rest);
        assert(bt =~= seq![(TokenKind::Pipes, spec_pipes_text(b0.1))] + nt);
        lemma_seg_split(toks, i, seq![(TokenKind::Pipes, spec_pipes_text(b0.1))], nt);
        assert(toks[i] == (TokenKind::Pipes, spec_pipes_text(b0.1))) by {
            assert(toks.subrange(i, i + 1)[0] == (TokenKind::Pipes, spec_pipes_text(b0.1)));
        }
        lemma_pipes_len(b0.1);
        lemma_node_head(b0.0, syms);
        assert(toks[i + 1] == nt[0]) by {
            assert(toks.subrange(i + 1, i + 1 + nt.len())[0] == nt[0]);
        }
        lemma_parse_node(toks, i + 2, syms, b0.0);
        assert(spec_parse_branch(toks, i + 1, syms) == Ok::<_, ParseErrS>(
            (b0.0, nt.len() as nat),
        ));
        lemma_parse_branches_seg(toks, i + 1 + nt.len(), syms, bs.drop_first());
        assert(seq![(b0.0, b0.1)] + bs.drop_first() =~= bs);
        assert(spec_parse_branches(toks, i, syms) == Ok::<_, ParseErrS>(
            (bs, all.len() as nat),
        ));
    }
}

/// Parsing a serialized rule list that fills the rest of the stream yields
/// those rules, appended to the rules already built.
pub proof fn lemma_parse_rules_seg(
    toks: Seq<TokS>,
    i: int,
    syms: Seq<Seq<char>>,
    rs: GrammarS,
    acc: GrammarS,
)
    requires
        forall|k: int| 0 <= k < syms.len() ==> valid_symbol(#[trigger] syms[k]),
        forall|p: int, q: int| 0 <= p < q < syms.len() ==> syms[p] != syms[q],
        forall|m: int| 0 <= m < rs.len() ==> first_sym(syms, (#[trigger] rs[m]).0) >= 0,
        forall|m: int| 0 <= m < rs.len() ==> (#[trigger] rs[m]).1.len() > 0,
        forall|m: int| 0 <= m < rs.len() ==> sum_weights((#[trigger] rs[m]).1) <= usize::MAX,
        forall|m: int, k: int|
            0 <= m < rs.len() && 0 <= k < rs[m].1.len() ==> writable_node(
                (#[trigger] rs[m].1[k]).0,
                syms.len() as int,
            ) && rs[m].1[k].1 >= 1,
        0 <= i,
        i + rules_toks(rs, syms).len() == toks.len(),
        toks.subrange(i, toks.len() as int) == rules_toks(rs, syms),
    ensures
        spec_parse_rules(toks, i, syms, acc) == Ok::<_, ParseErrS>(acc + rs),
    decreases rs.len(),
{
    if rs.len() == 0 {
        assert(acc + rs =~= acc);
    } else {
        let r0 = rs[0];
        let head = seq![(TokenKind::Identifier, r0.0)];
        let bt = branches_toks(r0.1, syms);
        let rest = rules_toks(rs.drop_first(), syms);
        assert(rules_toks(rs, syms) =~= head + (bt + rest));
        lemma_seg_split(toks, i, head, bt + rest);
        lemma_seg_split(toks, i + 1, bt, rest);
        assert(toks[i] == (TokenKind::Identifier, r0.0)) by {
            assert(toks.subrange(i, i + 1)[0] == (TokenKind::Identifier, r0.0));
        }
        lemma_parse_branches_seg(toks, i + 1, syms, r0.1);
        let j = i + 1 + bt.len();
        lemma_parse_rules_seg(toks, j, syms, rs.drop_first(), acc.push((r0.0, r0.1)));
        assert(acc.push((r0.0, r0.1)) + rs.drop_first() =~= acc + rs);
        assert(acc.push(r0) + rs.drop_first() =~= acc + rs);
    }
}

/// From a state where an identifier would not be recorded, tokens other
/// than terminators and the end marker do not change the discovery pass's
/// outcome.
pub proof fn lemma_collect_inert(toks: Seq<TokS>, i: int, j: int, acc: Seq<Seq<char>>)
    requires
        0 <= i <= j <= toks.len(),
        forall|k: int|
            i <= k < j ==> (#[trigger] toks[k]).0 != TokenKind::End && toks[k].0
                != TokenKind::EOF,
    ensures
        spec_collect(toks, i, false, acc) == spec_collect(toks, j, false, acc),
    decreases j - i,
{
    if i < j {
        lemma_collect_inert(toks, i + 1, j, acc);
    }
}

/// The discovery pass over a serialized rule list records exactly the rule
/// names, in order.
pub proof fn lemma_collect_rules(toks: Seq<TokS>, i: int, rs: GrammarS, syms: Seq<Seq<char>>, acc: Seq<
    Seq<char>,
>)
    requires
        forall|m: int| 0 <= m < rs.len() ==> (#[trigger] rs[m]).1.len() > 0,
        0 <= i,
        i + rules_toks(rs, syms).len() == toks.len(),
        toks.subrange(i, toks.len() as int) == rules_toks(rs, syms),
    ensures
        spec_collect(toks, i, true, acc) == acc + rs.map(|m: int, p: (Seq<char>, RuleS)| p.0),
    decreases rs.len(),
{
    let names = rs.map(|m: int, p: (Seq<char>, RuleS)| p.0);
    if rs.len() == 0 {
        assert(acc + names =~= acc);
    } else {
        let r0 = rs[0];
        let head = seq![(TokenKind::Identifier, r0.0)];
        let bt = branches_toks(r0.1, syms);
        let rest = rules_toks(rs.drop_first(), syms);
        assert(rules_toks(rs, syms) =~= head + (bt + rest));
        lemma_seg_split(toks, i, head, bt + rest);
        lemma_seg_split(toks, i + 1, bt, rest);
        assert(toks[i] == (TokenKind::Identifier, r0.0)) by {
            assert(toks.subrange(i, i + 1)[0] == (TokenKind::Identifier, r0.0));
        }
        lemma_branches_toks_kinds(r0.1, syms);
        // The rule is non-empty, so the token after the head is its first
        // branch's weight marker.
        assert(bt[0].0 == TokenKind::Pipes) by {
            assert(bt[0] == branch_toks(r0.1[0], syms)[0]);
        }
        assert(toks[i + 1] == bt[0]) by {
            assert(toks.subrange(i + 1, i + 1 + bt.len())[0] == bt[0]);
        }
        // Recording the head moves the scan into the rule body.
        assert(spec_collect(toks, i, true, acc) == spec_collect(
            toks,
            i + 1,
            false,
            acc.push(r0.0),
        ));
        // The body up to the terminator is inert.
        assert forall|k: int|
            i + 1 <= k < i + bt.len() implies (#[trigger] toks[k]).0 != TokenKind::End
            && toks[k].0 != TokenKind::EOF by {
            assert(toks[k] == bt[k - (i + 1)]) by {
                assert(toks.subrange(i + 1, i + 1 + bt.len())[k - (i + 1)] == bt[k - (i + 1)]);
            }
        }
        lemma_collect_inert(toks, i + 1, i + bt.len(), acc.push(r0.0));
        // The terminator re-arms head detection.
        assert(toks[i + bt.len()] == tok_end()) by {
            assert(toks.subrange(i + 1, i + 1 + bt.len())[bt.len() - 1] == bt[bt.len() - 1]);
        }
        assert(spec_collect(toks, i + bt.len(), false, acc.push(r0.0)) == spec_collect(
            toks,
            i + bt.len() + 1,
            true,
            acc.push(r0.0),
        ));
        lemma_collect_rules(toks, i + 1 + bt.len(), rs.drop_first(), syms, acc.push(r0.0));
        assert(acc.push(r0.0) + rs.drop_first().map(|m: int, p: (Seq<char>, RuleS)| p.0) =~= acc
            + names);
    }
}

/// The grammar round-trip law, at the token level: the token stream of a
/// well-formed grammar's textual form, fed to the symbol-discovery pass and
/// then to the structural pass over the collected symbols, parses back to
/// exactly the same rules, branches and weights.
pub proof fn lemma_grammar_tokens_roundtrip(gs: GrammarS)
    requires
        writable_grammar(gs),
    ensures
        spec_collect(rules_toks(gs, grammar_names(gs)), 0, true, Seq::<Seq<char>>::empty())
            == grammar_names(gs),
        spec_parse_rules(
            rules_toks(gs, grammar_names(gs)),
            0,
            grammar_names(gs),
            Seq::<(Seq<char>, RuleS)>::empty(),
        ) == Ok::<_, ParseErrS>(gs),
{
    let syms = grammar_names(gs);
    let toks = rules_toks(gs, syms);
    assert(toks.subrange(0, toks.len() as int) =~= toks);
    assert forall|k: int| 0 <= k < syms.len() implies valid_symbol(#[trigger] syms[k]) by {
        assert(syms[k] == gs[k].0);
    }
    assert forall|p: int, q: int| 0 <= p < q < syms.len() implies syms[p] != syms[q] by {
        assert(syms[p] == gs[p].0 && syms[q] == gs[q].0);
    }
    assert forall|m: int| 0 <= m < gs.len() implies first_sym(syms, (#[trigger] gs[m]).0)
        >= 0 by {
        assert(syms[m] == gs[m].0);
        lemma_symbol_resolves(syms, m);
    }
    lemma_collect_rules(toks, 0, gs, syms, Seq::<Seq<char>>::empty());
    assert(Seq::<Seq<char>>::empty() + gs.map(|m: int, p: (Seq<char>, RuleS)| p.0) =~= syms);
    lemma_parse_rules_seg(toks, 0, syms, gs, Seq::<(Seq<char>, RuleS)>::empty());
    assert(Seq::<(Seq<char>, RuleS)>::empty() + gs =~= gs);
}


/// The identifier scan stops exactly at a delimited word's end.
proof fn lemma_ident_end_exact(s: Seq<char>, i: int, m: int)
    requires
        0 <= i <= m <= s.len(),
        forall|k: int| i <= k < m ==> is_ident_cont_char(#[trigger] s[k]),
        m == s.len() || !is_ident_cont_char(s[m]),
    ensures
        ident_end(s, i) == m,
    decreases m - i,
{
    if i < m {
        lemma_ident_end_exact(s, i + 1, m);
    }
}

/// The pipes scan stops exactly at a delimited run's end.
proof fn lemma_pipes_end_exact(s: Seq<char>, i: int, m: int)
    requires
        0 <= i <= m <= s.len(),
        forall|k: int| i <= k < m ==> #[trigger] s[k] == '|',
        m == s.len() || s[m] != '|',
    ensures
        pipes_end(s, i) == m,
    decreases m - i,
{
    if i < m {
        lemma_pipes_end_exact(s, i + 1, m);
    }
}

/// Lexing one identifier-shaped word that is not the end marker.
proof fn lemma_lex_word(s: Seq<char>, i: int, w: Seq<char>)
    requires
        0 <= i,
        i + w.len() <= s.len(),
        s.subrange(i, i + w.len()) == w,
        w.len() > 0,
        is_ident_start_char(w[0]),
        forall|k: int| 0 <= k < w.len() ==> is_ident_cont_char(#[trigger] w[k]),
        !is_eof_text(w),
        i + w.len() == s.len() || !is_ident_cont_char(s[i + w.len()]),
    ensures
        spec_lex(s, i) == seq![(TokenKind::Identifier, w)] + spec_lex(s, i + w.len()),
        spec_lex_ok(s, i) == spec_lex_ok(s, i + w.len()),
{
    let m = i + w.len();
    assert forall|k: int| i <= k < m implies is_ident_cont_char(#[trigger] s[k]) by {
        assert(s.subrange(i, m)[k - i] == s[k]);
        assert(w[k - i] == s[k]);
    }
    assert(s[i] == w[0]) by {
        assert(s.subrange(i, m)[0] == s[i]);
    }
    lemma_ident_end_exact(s, i, m);
    assert(!is_ws_char(s[i]) && s[i] != '#' && !is_digit_char(s[i]) && s[i] != '|');
    assert(step_to(s.len() as int, i, ident_end(s, i)) == m);
}

/// Lexing one weight-marker run of pipes.
proof fn lemma_lex_pipes(s: Seq<char>, i: int, w: Seq<char>)
    requires
        0 <= i,
        i + w.len() <= s.len(),
        s.subrange(i, i + w.len()) == w,
        w.len() > 0,
        forall|k: int| 0 <= k < w.len() ==> #[trigger] w[k] == '|',
        i + w.len() == s.len() || s[i + w.len()] != '|',
    ensures
        spec_lex(s, i) == seq![(TokenKind::Pipes, w)] + spec_lex(s, i + w.len()),
        spec_lex_ok(s, i) == spec_lex_ok(s, i + w.len()),
{
    let m = i + w.len();
    assert forall|k: int| i <= k < m implies #[trigger] s[k] == '|' by {
        assert(s.subrange(i, m)[k - i] == s[k]);
        assert(w[k - i] == s[k]);
    }
    assert(s[i] == w[0]) by {
        assert(s.subrange(i, m)[0] == s[i]);
    }
    lemma_pipes_end_exact(s, i, m);
    assert(!is_ws_char(s[i]) && s[i] != '#' && !is_ident_start_char(s[i]) && !is_digit_char(
        s[i],
    ));
    assert(step_to(s.len() as int, i, pipes_end(s, i)) == m);
}

/// The bnf-lexer token of one punctuation character.
pub open spec fn punct_kind(c: char) -> TokenKind {
    if c == '(' {
        TokenKind::LParen
    } else if c == ')' {
        TokenKind::RParen
    } else if c == ':' {
        TokenKind::Colon
    } else if c == ';' {
        TokenKind::End
    } else {
        TokenKind::Comma
    }
}

/// Lexing one punctuation character.
proof fn lemma_lex_punct(s: Seq<char>, i: int)
    requires
        0 <= i < s.len(),
        s[i] == '(' || s[i] == ')' || s[i] == ':' || s[i] == ';' || s[i] == ',',
    ensures
        spec_lex(s, i) == seq![(punct_kind(s[i]), s.subrange(i, i + 1))] + spec_lex(s, i + 1),
        spec_lex_ok(s, i) == spec_lex_ok(s, i + 1),
{
    assert(!is_ws_char(s[i]) && s[i] != '#' && !is_ident_start_char(s[i]) && !is_digit_char(s[i])
        && s[i] != '|');
}

/// Skipping one whitespace character.
proof fn lemma_lex_ws(s: Seq<char>, i: int)
    requires
        0 <= i < s.len(),
        is_ws_char(s[i]),
    ensures
        spec_lex(s, i) == spec_lex(s, i + 1),
        spec_lex_ok(s, i) == spec_lex_ok(s, i + 1),
{
}


/// An identifier-shaped word that lexes as a plain identifier.
pub open spec fn lexeme(w: Seq<char>) -> bool {
    w.len() > 0 && is_ident_start_char(w[0]) && (forall|k: int|
        0 <= k < w.len() ==> is_ident_cont_char(#[trigger] w[k])) && !is_eof_text(w)
}

/// Every builtin word of the grammar language is identifier-shaped and is
/// not the end marker.
proof fn lemma_lexeme_facts()
    ensures
        lexeme("x"@),
        lexeme("y"@),
        lexeme("t"@),
        lexeme("random"@),
        lexeme("vec3"@),
        lexeme("add"@),
        lexeme("sub"@),
        lexeme("mult"@),
        lexeme("div"@),
        lexeme("mod"@),
        lexeme("sqrt"@),
        lexeme("abs"@),
        lexeme("sin"@),
        lexeme("tan"@),
        lexeme("cos"@),
{
    reveal_strlit("x");
    reveal_strlit("y");
    reveal_strlit("t");
    reveal_strlit("random");
    reveal_strlit("vec3");
    reveal_strlit("add");
    reveal_strlit("sub");
    reveal_strlit("mult");
    reveal_strlit("div");
    reveal_strlit("mod");
    reveal_strlit("sqrt");
    reveal_strlit("abs");
    reveal_strlit("sin");
    reveal_strlit("tan");
    reveal_strlit("cos");
    reveal_strlit("EOF");
    assert("x"@.len() == 1);
    assert("x"@[0] == 'x');
    assert(lexeme("x"@)) by {
        assert forall|k: int| 0 <= k < 1 implies is_ident_cont_char(#[trigger] "x"@[k]) by {
            if k == 0 { assert("x"@[k] == 'x'); } else { }
        }
    }
    assert("y"@.len() == 1);
    assert("y"@[0] == 'y');
    assert(lexeme("y"@)) by {
        assert forall|k: int| 0 <= k < 1 implies is_ident_cont_char(#[trigger] "y"@[k]) by {
            if k == 0 { assert("y"@[k] == 'y'); } else { }
        }
    }
    assert("t"@.len() == 1);
    assert("t"@[0] == 't');
    assert(lexeme("t"@)) by {
        assert forall|k: int| 0 <= k < 1 implies is_ident_cont_char(#[trigger] "t"@[k]) by {
            if k == 0 { assert("t"@[k] == 't'); } else { }
        }
    }
    assert("random"@.len() == 6);
    assert("random"@[0] == 'r');
    assert("random"@[1] == 'a');
    assert("random"@[2] == 'n');
    assert("random"@[3] == 'd');
    assert("random"@[4] == 'o');
    assert("random"@[5] == 'm');
    assert(lexeme("random"@)) by {
        assert forall|k: int| 0 <= k < 6 implies is_ident_cont_char(#[trigger] "random"@[k]) by {
            if k == 0 { assert("random"@[k] == 'r'); } else if k == 1 { assert("random"@[k] == 'a'); } else if k == 2 { assert("random"@[k] == 'n'); } else if k == 3 { assert("random"@[k] == 'd'); } else if k == 4 { assert("random"@[k] == 'o'); } else if k == 5 { assert("random"@[k] == 'm'); } else { }
        }
    }
    assert("vec3"@.len() == 4);
    assert("vec3"@[0] == 'v');
    assert("vec3"@[1] == 'e');
    assert("vec3"@[2] == 'c');
    assert("vec3"@[3] == '3');
    assert(lexeme("vec3"@)) by {
        assert forall|k: int| 0 <= k < 4 implies is_ident_cont_char(#[trigger] "vec3"@[k]) by {
            if k == 0 { assert("vec3"@[k] == 'v'); } else if k == 1 { assert("vec3"@[k] == 'e'); } else if k == 2 { assert("vec3"@[k] == 'c'); } else if k == 3 { assert("vec3"@[k] == '3'); } else { }
        }
    }
    assert("add"@.len() == 3);
    assert("add"@[0] == 'a');
    assert("add"@[1] == 'd');
    assert("add"@[2] == 'd');
    assert(lexeme("add"@)) by {
        assert forall|k: int| 0 <= k < 3 implies is_ident_cont_char(#[trigger] "add"@[k]) by {
            if k == 0 { assert("add"@[k] == 'a'); } else if k == 1 { assert("add"@[k] == 'd'); } else if k == 2 { assert("add"@[k] == 'd'); } else { }
        }
    }
    assert("sub"@.len() == 3);
    assert("sub"@[0] == 's');
    assert("sub"@[1] == 'u');
    assert("sub"@[2] == 'b');
    assert(lexeme("sub"@)) by {
        assert forall|k: int| 0 <= k < 3 implies is_ident_cont_char(#[trigger] "sub"@[k]) by {
            if k == 0 { assert("sub"@[k] == 's'); } else if k == 1 { assert("sub"@[k] == 'u'); } else if k == 2 { assert("sub"@[k] == 'b'); } else { }
        }
    }
    assert("mult"@.len() == 4);
    assert("mult"@[0] == 'm');
    assert("mult"@[1] == 'u');
    assert("mult"@[2] == 'l');
    assert("mult"@[3] == 't');
    assert(lexeme("mult"@)) by {
        assert forall|k: int| 0 <= k < 4 implies is_ident_cont_char(#[trigger] "mult"@[k]) by {
            if k == 0 { assert("mult"@[k] == 'm'); } else if k == 1 { assert("mult"@[k] == 'u'); } else if k == 2 { assert("mult"@[k] == 'l'); } else if k == 3 { assert("mult"@[k] == 't'); } else { }
        }
    }
    assert("div"@.len() == 3);
    assert("div"@[0] == 'd');
    assert("div"@[1] == 'i');
    assert("div"@[2] == 'v');
    assert(lexeme("div"@)) by {
        assert forall|k: int| 0 <= k < 3 implies is_ident_cont_char(#[trigger] "div"@[k]) by {
            if k == 0 { assert("div"@[k] == 'd'); } else if k == 1 { assert("div"@[k] == 'i'); } else if k == 2 { assert("div"@[k] == 'v'); } else { }
        }
    }
    assert("mod"@.len() == 3);
    assert("mod"@[0] == 'm');
    assert("mod"@[1] == 'o');
    assert("mod"@[2] == 'd');
    assert(lexeme("mod"@)) by {
        assert forall|k: int| 0 <= k < 3 implies is_ident_cont_char(#[trigger] "mod"@[k]) by {
            if k == 0 { assert("mod"@[k] == 'm'); } else if k == 1 { assert("mod"@[k] == 'o'); } else if k == 2 { assert("mod"@[k] == 'd'); } else { }
        }
    }
    assert("sqrt"@.len() == 4);
    assert("sqrt"@[0] == 's');
    assert("sqrt"@[1] == 'q');
    assert("sqrt"@[2] == 'r');
    assert("sqrt"@[3] == 't');
    assert(lexeme("sqrt"@)) by {
        assert forall|k: int| 0 <= k < 4 implies is_ident_cont_char(#[trigger] "sqrt"@[k]) by {
            if k == 0 { assert("sqrt"@[k] == 's'); } else if k == 1 { assert("sqrt"@[k] == 'q'); } else if k == 2 { assert("sqrt"@[k] == 'r'); } else if k == 3 { assert("sqrt"@[k] == 't'); } else { }
        }
    }
    assert("abs"@.len() == 3);
    assert("abs"@[0] == 'a');
    assert("abs"@[1] == 'b');
    assert("abs"@[2] == 's');
    assert(lexeme("abs"@)) by {
        assert forall|k: int| 0 <= k < 3 implies is_ident_cont_char(#[trigger] "abs"@[k]) by {
            if k == 0 { assert("abs"@[k] == 'a'); } else if k == 1 { assert("abs"@[k] == 'b'); } else if k == 2 { assert("abs"@[k] == 's'); } else { }
        }
    }
    assert("sin"@.len() == 3);
    assert("sin"@[0] == 's');
    assert("sin"@[1] == 'i');
    assert("sin"@[2] == 'n');
    assert(lexeme("sin"@)) by {
        assert forall|k: int| 0 <= k < 3 implies is_ident_cont_char(#[trigger] "sin"@[k]) by {
            if k == 0 { assert("sin"@[k] == 's'); } else if k == 1 { assert("sin"@[k] == 'i'); } else if k == 2 { assert("sin"@[k] == 'n'); } else { }
        }
    }
    assert("tan"@.len() == 3);
    assert("tan"@[0] == 't');
    assert("tan"@[1] == 'a');
    assert("tan"@[2] == 'n');
    assert(lexeme("tan"@)) by {
        assert forall|k: int| 0 <= k < 3 implies is_ident_cont_char(#[trigger] "tan"@[k]) by {
            if k == 0 { assert("tan"@[k] == 't'); } else if k == 1 { assert("tan"@[k] == 'a'); } else if k == 2 { assert("tan"@[k] == 'n'); } else { }
        }
    }
    assert("cos"@.len() == 3);
    assert("cos"@[0] == 'c');
    assert("cos"@[1] == 'o');
    assert("cos"@[2] == 's');
    assert(lexeme("cos"@)) by {
        assert forall|k: int| 0 <= k < 3 implies is_ident_cont_char(#[trigger] "cos"@[k]) by {
            if k == 0 { assert("cos"@[k] == 'c'); } else if k == 1 { assert("cos"@[k] == 'o'); } else if k == 2 { assert("cos"@[k] == 's'); } else { }
        }
    }
}

/// The call form of an arithmetic operator is its word followed by an
/// opening parenthesis.
proof fn lemma_arith_name_split(op: ArithmeticOp)
    ensures
        crate::grammar::spec_arith_fn_name(op) == arith_word(op) + "("@,
{
    reveal_strlit("add(");
    reveal_strlit("sub(");
    reveal_strlit("mult(");
    reveal_strlit("div(");
    reveal_strlit("mod(");
    reveal_strlit("add");
    reveal_strlit("sub");
    reveal_strlit("mult");
    reveal_strlit("div");
    reveal_strlit("mod");
    reveal_strlit("(");
    match op {
        ArithmeticOp::Add => {
            assert("add("@ =~= "add"@ + "("@);
        },
        ArithmeticOp::Sub => {
            assert("sub("@ =~= "sub"@ + "("@);
        },
        ArithmeticOp::Mul => {
            assert("mult("@ =~= "mult"@ + "("@);
        },
        ArithmeticOp::Div => {
            assert("div("@ =~= "div"@ + "("@);
        },
        ArithmeticOp::Mod => {
            assert("mod("@ =~= "mod"@ + "("@);
        },
    }
}

/// The call form of a unary operator is its word followed by an opening
/// parenthesis.
proof fn lemma_unary_name_split(op: UnaryOp)
    ensures
        crate::node::spec_unary_name(op) == unary_word(op) + "("@,
{
    reveal_strlit("sqrt(");
    reveal_strlit("abs(");
    reveal_strlit("sin(");
    reveal_strlit("tan(");
    reveal_strlit("cos(");
    reveal_strlit("sqrt");
    reveal_strlit("abs");
    reveal_strlit("sin");
    reveal_strlit("tan");
    reveal_strlit("cos");
    reveal_strlit("(");
    match op {
        UnaryOp::Sqrt => {
            assert("sqrt("@ =~= "sqrt"@ + "("@);
        },
        UnaryOp::Abs => {
            assert("abs("@ =~= "abs"@ + "("@);
        },
        UnaryOp::Sin => {
            assert("sin("@ =~= "sin"@ + "("@);
        },
        UnaryOp::Tan => {
            assert("tan("@ =~= "tan"@ + "("@);
        },
        UnaryOp::Cos => {
            assert("cos("@ =~= "cos"@ + "("@);
        },
    }
}

/// The head word of each writable term, and that words of the emitted
/// alphabet are lexemes.
proof fn lemma_node_word(n: FnNode, syms: Seq<Seq<char>>)
    requires
        forall|k: int| 0 <= k < syms.len() ==> valid_symbol(#[trigger] syms[k]),
        writable_node(n, syms.len() as int),
    ensures
        match n {
            FnNode::X => lexeme("x"@),
            FnNode::Y => lexeme("y"@),
            FnNode::T => lexeme("t"@),
            FnNode::Random => lexeme("random"@),
            FnNode::Rule(k) => lexeme(syms[k as int]),
            FnNode::Arithmetic(_, op, _) => lexeme(arith_word(op)),
            FnNode::Unary(op, _) => lexeme(unary_word(op)),
            FnNode::Triple(_, _, _) => lexeme("vec3"@),
            _ => true,
        },
{
    lemma_lexeme_facts();
    match n {
        FnNode::Rule(k) => {
            assert(valid_symbol(syms[k as int]));
        },
        _ => {},
    }
}

/// Common character facts for the emitted punctuation.
proof fn lemma_punct_chars()
    ensures
        "("@.len() == 1 && "("@[0] == '(',
        ")"@.len() == 1 && ")"@[0] == ')',
        ", "@.len() == 2 && ", "@[0] == ',' && ", "@[1] == ' ',
        ","@.len() == 1 && ","@[0] == ',',
        " "@.len() == 1 && " "@[0] == ' ',
        ", "@ == ","@ + " "@,
        "\n"@.len() == 1 && "\n"@[0] == '\n',
        ";\n"@.len() == 2 && ";\n"@ == ";"@ + "\n"@,
        ";"@.len() == 1 && ";"@[0] == ';',
        "|"@.len() == 1 && "|"@[0] == '|',
        !is_ident_cont_char('('),
        !is_ident_cont_char(')'),
        !is_ident_cont_char(','),
        !is_ident_cont_char(' '),
        !is_ident_cont_char('\n'),
        !is_ident_cont_char(';'),
        !is_ident_cont_char('|'),
        is_ws_char(' '),
        is_ws_char('\n'),
{
    reveal_strlit("(");
    reveal_strlit(")");
    reveal_strlit(", ");
    reveal_strlit(",");
    reveal_strlit(" ");
    reveal_strlit("\n");
    reveal_strlit(";\n");
    reveal_strlit(";");
    reveal_strlit("|");
    assert(", "@ =~= ","@ + " "@);
    assert(";\n"@ =~= ";"@ + "\n"@);
}

/// Lexing the serialized text of one term yields its token stream.
proof fn lemma_lex_node_text(s: Seq<char>, i: int, syms: Seq<Seq<char>>, n: FnNode)
    requires
        forall|k: int| 0 <= k < syms.len() ==> valid_symbol(#[trigger] syms[k]),
        writable_node(n, syms.len() as int),
        0 <= i,
        i + crate::grammar::spec_node_text(n, syms).len() <= s.len(),
        s.subrange(i, i + crate::grammar::spec_node_text(n, syms).len())
            == crate::grammar::spec_node_text(n, syms),
        i + crate::grammar::spec_node_text(n, syms).len() == s.len() || !is_ident_cont_char(
            s[i + crate::grammar::spec_node_text(n, syms).len()],
        ),
    ensures
        spec_lex(s, i) == node_toks(n, syms) + spec_lex(
            s,
            i + crate::grammar::spec_node_text(n, syms).len(),
        ),
        spec_lex_ok(s, i) == spec_lex_ok(s, i + crate::grammar::spec_node_text(n, syms).len()),
    decreases node_size(n), 0nat,
{
    lemma_node_word(n, syms);
    match n {
        FnNode::X => {
            lemma_lex_word(s, i, "x"@);
        },
        FnNode::Y => {
            lemma_lex_word(s, i, "y"@);
        },
        FnNode::T => {
            lemma_lex_word(s, i, "t"@);
        },
        FnNode::Random => {
            lemma_lex_word(s, i, "random"@);
        },
        FnNode::Rule(k) => {
            lemma_lex_word(s, i, syms[k as int]);
        },
        FnNode::Arithmetic(a, op, b) => {
            lemma_lex_arith_text(s, i, syms, *a, op, *b);
        },
        FnNode::Unary(op, e) => {
            lemma_lex_unary_text(s, i, syms, op, *e);
        },
        FnNode::Triple(a, b, c) => {
            lemma_lex_triple_text(s, i, syms, *a, *b, *c);
        },
        _ => {},
    }
}

#[verifier::rlimit(100)]
proof fn lemma_lex_unary_text(s: Seq<char>, i: int, syms: Seq<Seq<char>>, op: UnaryOp, e: FnNode)
    requires
        forall|k: int| 0 <= k < syms.len() ==> valid_symbol(#[trigger] syms[k]),
        writable_node(FnNode::Unary(op, Box::new(e)), syms.len() as int),
        0 <= i,
        i + crate::grammar::spec_node_text(FnNode::Unary(op, Box::new(e)), syms).len() <= s.len(),
        s.subrange(
            i,
            i + crate::grammar::spec_node_text(FnNode::Unary(op, Box::new(e)), syms).len(),
        ) == crate::grammar::spec_node_text(FnNode::Unary(op, Box::new(e)), syms),
    ensures
        spec_lex(s, i) == node_toks(FnNode::Unary(op, Box::new(e)), syms) + spec_lex(
            s,
            i + crate::grammar::spec_node_text(FnNode::Unary(op, Box::new(e)), syms).len(),
        ),
        spec_lex_ok(s, i) == spec_lex_ok(
            s,
            i + crate::grammar::spec_node_text(FnNode::Unary(op, Box::new(e)), syms).len(),
        ),
    decreases node_size(e), 1nat,
{
    let n = FnNode::Unary(op, Box::new(e));
    let txt = crate::grammar::spec_node_text(n, syms);
    let w = unary_word(op);
    let et = crate::grammar::spec_node_text(e, syms);
    let lw = w.len() as int;
    let le = et.len() as int;
    lemma_unary_name_split(op);
    lemma_punct_chars();
    lemma_lexeme_facts();
    assert(txt =~= w + ("("@ + (et + ")"@)));
    lemma_seg_split(s, i, w, "("@ + (et + ")"@));
    lemma_seg_split(s, i + lw, "("@, et + ")"@);
    lemma_seg_split(s, i + lw + 1, et, ")"@);
    assert(s[i + lw] == '(') by {
        assert(s.subrange(i + lw, i + lw + 1)[0] == s[i + lw]);
    }
    lemma_lex_word(s, i, w);
    lemma_lex_punct(s, i + lw);
    assert(s[i + lw + 1 + le] == ')') by {
        assert(s.subrange(i + lw + 1 + le, i + lw + 2 + le)[0] == s[i + lw + 1 + le]);
    }
    lemma_lex_node_text(s, i + lw + 1, syms, e);
    lemma_lex_punct(s, i + lw + 1 + le);
    assert(s.subrange(i + lw, i + lw + 1) == "("@);
    assert(s.subrange(i + lw + 1 + le, i + lw + 2 + le) == ")"@);
    assert(spec_lex(s, i) =~= node_toks(n, syms) + spec_lex(s, i + txt.len()));
}

#[verifier::rlimit(100)]
proof fn lemma_lex_arith_text(
    s: Seq<char>,
    i: int,
    syms: Seq<Seq<char>>,
    a: FnNode,
    op: ArithmeticOp,
    b: FnNode,
)
    requires
        forall|k: int| 0 <= k < syms.len() ==> valid_symbol(#[trigger] syms[k]),
        writable_node(FnNode::Arithmetic(Box::new(a), op, Box::new(b)), syms.len() as int),
        0 <= i,
        i + crate::grammar::spec_node_text(
            FnNode::Arithmetic(Box::new(a), op, Box::new(b)),
            syms,
        ).len() <= s.len(),
        s.subrange(
            i,
            i + crate::grammar::spec_node_text(
                FnNode::Arithmetic(Box::new(a), op, Box::new(b)),
                syms,
            ).len(),
        ) == crate::grammar::spec_node_text(FnNode::Arithmetic(Box::new(a), op, Box::new(b)), syms),
    ensures
        spec_lex(s, i) == node_toks(FnNode::Arithmetic(Box::new(a), op, Box::new(b)), syms)
            + spec_lex(
            s,
            i + crate::grammar::spec_node_text(
                FnNode::Arithmetic(Box::new(a), op, Box::new(b)),
                syms,
            ).len(),
        ),
        spec_lex_ok(s, i) == spec_lex_ok(
            s,
            i + crate::grammar::spec_node_text(
                FnNode::Arithmetic(Box::new(a), op, Box::new(b)),
                syms,
            ).len(),
        ),
    decreases node_size(a) + node_size(b), 1nat,
{
    let n = FnNode::Arithmetic(Box::new(a), op, Box::new(b));
    let txt = crate::grammar::spec_node_text(n, syms);
    let w = arith_word(op);
    let at = crate::grammar::spec_node_text(a, syms);
    let bt = crate::grammar::spec_node_text(b, syms);
    let lw = w.len() as int;
    let la = at.len() as int;
    let lb = bt.len() as int;
    lemma_arith_name_split(op);
    lemma_punct_chars();
    lemma_lexeme_facts();
    assert(txt =~= w + ("("@ + (at + (","@ + (" "@ + (bt + ")"@))))));
    lemma_seg_split(s, i, w, "("@ + (at + (","@ + (" "@ + (bt + ")"@)))));
    lemma_seg_split(s, i + lw, "("@, at + (","@ + (" "@ + (bt + ")"@))));
    lemma_seg_split(s, i + lw + 1, at, ","@ + (" "@ + (bt + ")"@)));
    lemma_seg_split(s, i + lw + 1 + la, ","@, " "@ + (bt + ")"@));
    lemma_seg_split(s, i + lw + 2 + la, " "@, bt + ")"@);
    lemma_seg_split(s, i + lw + 3 + la, bt, ")"@);
    assert(s[i + lw] == '(') by {
        assert(s.subrange(i + lw, i + lw + 1)[0] == s[i + lw]);
    }
    assert(s[i + lw + 1 + la] == ',') by {
        assert(s.subrange(i + lw + 1 + la, i + lw + 2 + la)[0] == s[i + lw + 1 + la]);
    }
    assert(s[i + lw + 2 + la] == ' ') by {
        assert(s.subrange(i + lw + 2 + la, i + lw + 3 + la)[0] == s[i + lw + 2 + la]);
    }
    assert(s[i + lw + 3 + la + lb] == ')') by {
        assert(s.subrange(i + lw + 3 + la + lb, i + lw + 4 + la + lb)[0] == s[i + lw + 3 + la
            + lb]);
    }
    lemma_lex_word(s, i, w);
    lemma_lex_punct(s, i + lw);
    lemma_lex_node_text(s, i + lw + 1, syms, a);
    lemma_lex_punct(s, i + lw + 1 + la);
    lemma_lex_ws(s, i + lw + 2 + la);
    lemma_lex_node_text(s, i + lw + 3 + la, syms, b);
    lemma_lex_punct(s, i + lw + 3 + la + lb);
    assert(s.subrange(i + lw, i + lw + 1) == "("@);
    assert(s.subrange(i + lw + 1 + la, i + lw + 2 + la) == ","@);
    assert(s.subrange(i + lw + 3 + la + lb, i + lw + 4 + la + lb) == ")"@);
    assert(spec_lex(s, i) =~= node_toks(n, syms) + spec_lex(s, i + txt.len()));
}

#[verifier::rlimit(100)]
proof fn lemma_lex_triple_text(
    s: Seq<char>,
    i: int,
    syms: Seq<Seq<char>>,
    a: FnNode,
    b: FnNode,
    c: FnNode,
)
    requires
        forall|k: int| 0 <= k < syms.len() ==> valid_symbol(#[trigger] syms[k]),
        writable_node(FnNode::Triple(Box::new(a), Box::new(b), Box::new(c)), syms.len() as int),
        0 <= i,
        i + crate::grammar::spec_node_text(
            FnNode::Triple(Box::new(a), Box::new(b), Box::new(c)),
            syms,
        ).len() <= s.len(),
        s.subrange(
            i,
            i + crate::grammar::spec_node_text(
                FnNode::Triple(Box::new(a), Box::new(b), Box::new(c)),
                syms,
            ).len(),
        ) == crate::grammar::spec_node_text(
            FnNode::Triple(Box::new(a), Box::new(b), Box::new(c)),
            syms,
        ),
    ensures
        spec_lex(s, i) == node_toks(FnNode::Triple(Box::new(a), Box::new(b), Box::new(c)), syms)
            + spec_lex(
            s,
            i + crate::grammar::spec_node_text(
                FnNode::Triple(Box::new(a), Box::new(b), Box::new(c)),
                syms,
            ).len(),
        ),
        spec_lex_ok(s, i) == spec_lex_ok(
            s,
            i + crate::grammar::spec_node_text(
                FnNode::Triple(Box::new(a), Box::new(b), Box::new(c)),
                syms,
            ).len(),
        ),
    decreases node_size(a) + node_size(b) + node_size(c), 1nat,
{
    let n = FnNode::Triple(Box::new(a), Box::new(b), Box::new(c));
    let txt = crate::grammar::spec_node_text(n, syms);
    let w = "vec3"@;
    let at = crate::grammar::spec_node_text(a, syms);
    let bt = crate::grammar::spec_node_text(b, syms);
    let ct = crate::grammar::spec_node_text(c, syms);
    let lw = 4int;
    let la = at.len() as int;
    let lb = bt.len() as int;
    let lc = ct.len() as int;
    lemma_punct_chars();
    lemma_lexeme_facts();
    reveal_strlit("vec3(");
    reveal_strlit("vec3");
    reveal_strlit("(");
    assert("vec3("@ =~= "vec3"@ + "("@);
    assert(w.len() == 4);
    assert(txt =~= w + ("("@ + (at + (","@ + (" "@ + (bt + (","@ + (" "@ + (ct + ")"@)))))))));
    lemma_seg_split(s, i, w, "("@ + (at + (","@ + (" "@ + (bt + (","@ + (" "@ + (ct
        + ")"@))))))));
    lemma_seg_split(s, i + lw, "("@, at + (","@ + (" "@ + (bt + (","@ + (" "@ + (ct + ")"@)))))));
    lemma_seg_split(s, i + lw + 1, at, ","@ + (" "@ + (bt + (","@ + (" "@ + (ct + ")"@))))));
    lemma_seg_split(s, i + lw + 1 + la, ","@, " "@ + (bt + (","@ + (" "@ + (ct + ")"@)))));
    lemma_seg_split(s, i + lw + 2 + la, " "@, bt + (","@ + (" "@ + (ct + ")"@))));
    lemma_seg_split(s, i + lw + 3 + la, bt, ","@ + (" "@ + (ct + ")"@)));
    lemma_seg_split(s, i + lw + 3 + la + lb, ","@, " "@ + (ct + ")"@));
    lemma_seg_split(s, i + lw + 4 + la + lb, " "@, ct + ")"@);
    lemma_seg_split(s, i + lw + 5 + la + lb, ct, ")"@);
    assert(s[i + lw] == '(') by {
        assert(s.subrange(i + lw, i + lw + 1)[0] == s[i + lw]);
    }
    assert(s[i + lw + 1 + la] == ',') by {
        assert(s.subrange(i + lw + 1 + la, i + lw + 2 + la)[0] == s[i + lw + 1 + la]);
    }
    assert(s[i + lw + 2 + la] == ' ') by {
        assert(s.subrange(i + lw + 2 + la, i + lw + 3 + la)[0] == s[i + lw + 2 + la]);
    }
    assert(s[i + lw + 3 + la + lb] == ',') by {
        assert(s.subrange(i + lw + 3 + la + lb, i + lw + 4 + la + lb)[0] == s[i + lw + 3 + la
            + lb]);
    }
    assert(s[i + lw + 4 + la + lb] == ' ') by {
        assert(s.subrange(i + lw + 4 + la + lb, i + lw + 5 + la + lb)[0] == s[i + lw + 4 + la
            + lb]);
    }
    assert(s[i + lw + 5 + la + lb + lc] == ')') by {
        assert(s.subrange(i + lw + 5 + la + lb + lc, i + lw + 6 + la + lb + lc)[0] == s[i + lw + 5
            + la + lb + lc]);
    }
    lemma_lex_word(s, i, w);
    lemma_lex_punct(s, i + lw);
    lemma_lex_node_text(s, i + lw + 1, syms, a);
    lemma_lex_punct(s, i + lw + 1 + la);
    lemma_lex_ws(s, i + lw + 2 + la);
    lemma_lex_node_text(s, i + lw + 3 + la, syms, b);
    lemma_lex_punct(s, i + lw + 3 + la + lb);
    lemma_lex_ws(s, i + lw + 4 + la + lb);
    lemma_lex_node_text(s, i + lw + 5 + la + lb, syms, c);
    lemma_lex_punct(s, i + lw + 5 + la + lb + lc);
    assert(s.subrange(i + lw, i + lw + 1) == "("@);
    assert(s.subrange(i + lw + 1 + la, i + lw + 2 + la) == ","@);
    assert(s.subrange(i + lw + 3 + la + lb, i + lw + 4 + la + lb) == ","@);
    assert(s.subrange(i + lw + 5 + la + lb + lc, i + lw + 6 + la + lb + lc) == ")"@);
    assert(spec_lex(s, i) =~= node_toks(n, syms) + spec_lex(s, i + txt.len()));
}


/// The weight marker's characters are all pipes.
proof fn lemma_pipes_chars(w: nat)
    ensures
        spec_pipes_text(w).len() == w,
        forall|k: int| 0 <= k < w ==> #[trigger] spec_pipes_text(w)[k] == '|',
    decreases w,
{
    reveal_strlit("|");
    if w > 0 {
        lemma_pipes_chars((w - 1) as nat);
    }
}

/// The list form of the serializer's branch text.
pub open spec fn branches_text_list(bs: RuleS, syms: Seq<Seq<char>>) -> Seq<char>
    decreases bs.len(),
{
    if bs.len() == 0 {
        Seq::<char>::empty()
    } else {
        crate::grammar::spec_branch_text(bs[0], syms) + branches_text_list(bs.drop_first(), syms)
    }
}

/// The list form of the serializer's rule text.
pub open spec fn rules_text_list(rs: GrammarS, syms: Seq<Seq<char>>) -> Seq<char>
    decreases rs.len(),
{
    if rs.len() == 0 {
        Seq::<char>::empty()
    } else {
        rs[0].0 + "\n"@ + branches_text_list(rs[0].1, syms) + ";\n"@ + rules_text_list(
            rs.drop_first(),
            syms,
        )
    }
}

/// The serializer's indexed branch text equals the list form of the suffix.
proof fn lemma_branches_text_bridge(bs: RuleS, k: int, syms: Seq<Seq<char>>)
    requires
        0 <= k <= bs.len(),
    ensures
        crate::grammar::spec_branches_text(bs, k, syms) == branches_text_list(
            bs.subrange(k, bs.len() as int),
            syms,
        ),
    decreases bs.len() - k,
{
    let suf = bs.subrange(k, bs.len() as int);
    if k < bs.len() {
        lemma_branches_text_bridge(bs, k + 1, syms);
        assert(suf[0] == bs[k]);
        assert(suf.drop_first() =~= bs.subrange(k + 1, bs.len() as int));
    } else {
        assert(suf =~= Seq::<BranchS>::empty());
    }
}

/// The serializer's indexed grammar text equals the list form of the suffix.
proof fn lemma_rules_text_bridge(g: GrammarS, k: int, syms: Seq<Seq<char>>)
    requires
        0 <= k <= g.len(),
    ensures
        crate::grammar::spec_grammar_text_from(g, k, syms) == rules_text_list(
            g.subrange(k, g.len() as int),
            syms,
        ),
    decreases g.len() - k,
{
    let suf = g.subrange(k, g.len() as int);
    if k < g.len() {
        lemma_rules_text_bridge(g, k + 1, syms);
        lemma_branches_text_bridge(g[k].1, 0, syms);
        assert(g[k].1.subrange(0, g[k].1.len() as int) =~= g[k].1);
        assert(suf[0] == g[k]);
        assert(suf.drop_first() =~= g.subrange(k + 1, g.len() as int));
        assert(crate::grammar::spec_rule_text(g[k].0, g[k].1, syms) =~= g[k].0 + "\n"@
            + branches_text_list(g[k].1, syms) + ";\n"@);
        assert(crate::grammar::spec_grammar_text_from(g, k, syms) =~= rules_text_list(suf, syms));
    } else {
        assert(suf =~= Seq::<(Seq<char>, RuleS)>::empty());
    }
}

/// Lexing the text of one serialized branch yields its tokens.
#[verifier::rlimit(100)]
proof fn lemma_lex_branch_text(s: Seq<char>, i: int, syms: Seq<Seq<char>>, b: BranchS)
    requires
        forall|k: int| 0 <= k < syms.len() ==> valid_symbol(#[trigger] syms[k]),
        writable_node(b.0, syms.len() as int),
        b.1 >= 1,
        0 <= i,
        i + crate::grammar::spec_branch_text(b, syms).len() <= s.len(),
        s.subrange(i, i + crate::grammar::spec_branch_text(b, syms).len())
            == crate::grammar::spec_branch_text(b, syms),
        i + crate::grammar::spec_branch_text(b, syms).len() == s.len() || !is_ident_cont_char(
            s[i + crate::grammar::spec_branch_text(b, syms).len()],
        ),
    ensures
        spec_lex(s, i) == branch_toks(b, syms) + spec_lex(
            s,
            i + crate::grammar::spec_branch_text(b, syms).len(),
        ),
        spec_lex_ok(s, i) == spec_lex_ok(
            s,
            i + crate::grammar::spec_branch_text(b, syms).len(),
        ),
{
    let txt = crate::grammar::spec_branch_text(b, syms);
    let pt = spec_pipes_text(b.1);
    let nt = crate::grammar::spec_node_text(b.0, syms);
    let lw = pt.len() as int;
    let ln = nt.len() as int;
    lemma_pipes_chars(b.1);
    lemma_punct_chars();
    lemma_node_word(b.0, syms);
    if b.0 is Triple {
        assert(txt =~= pt + nt);
        lemma_seg_split(s, i, pt, nt);
        // The term starts with the identifier `vec3`, so the pipes run ends.
        reveal_strlit("vec3(");
        assert(nt[0] == 'v') by {
            assert(crate::grammar::spec_node_text(b.0, syms)[0] == "vec3("@[0]);
        }
        assert(s[i + lw] == 'v') by {
            assert(s.subrange(i + lw, i + lw + ln)[0] == s[i + lw]);
        }
        lemma_lex_pipes(s, i, pt);
        lemma_lex_node_text(s, i + lw, syms, b.0);
        assert(spec_lex(s, i) =~= branch_toks(b, syms) + spec_lex(s, i + txt.len()));
    } else {
        assert(txt =~= pt + (" "@ + (nt + "\n"@)));
        lemma_seg_split(s, i, pt, " "@ + (nt + "\n"@));
        lemma_seg_split(s, i + lw, " "@, nt + "\n"@);
        lemma_seg_split(s, i + lw + 1, nt, "\n"@);
        assert(s[i + lw] == ' ') by {
            assert(s.subrange(i + lw, i + lw + 1)[0] == s[i + lw]);
        }
        assert(s[i + lw + 1 + ln] == '\n') by {
            assert(s.subrange(i + lw + 1 + ln, i + lw + 2 + ln)[0] == s[i + lw + 1 + ln]);
        }
        lemma_lex_pipes(s, i, pt);
        lemma_lex_ws(s, i + lw);
        lemma_lex_node_text(s, i + lw + 1, syms, b.0);
        lemma_lex_ws(s, i + lw + 1 + ln);
        assert(spec_lex(s, i) =~= branch_toks(b, syms) + spec_lex(s, i + txt.len()));
    }
}

/// Lexing a serialized branch list followed by its terminator yields the
/// branch tokens closed by the `End` token.
proof fn lemma_lex_branches_text(s: Seq<char>, i: int, syms: Seq<Seq<char>>, bs: RuleS)
    requires
        forall|k: int| 0 <= k < syms.len() ==> valid_symbol(#[trigger] syms[k]),
        forall|k: int|
            0 <= k < bs.len() ==> writable_node((#[trigger] bs[k]).0, syms.len() as int)
                && bs[k].1 >= 1,
        0 <= i,
        i + branches_text_list(bs, syms).len() + 1 <= s.len(),
        s.subrange(i, i + branches_text_list(bs, syms).len() + 1) == branches_text_list(bs, syms)
            + ";"@,
    ensures
        spec_lex(s, i) == branches_toks(bs, syms) + spec_lex(
            s,
            i + branches_text_list(bs, syms).len() + 1,
        ),
        spec_lex_ok(s, i) == spec_lex_ok(s, i + branches_text_list(bs, syms).len() + 1),
    decreases bs.len(),
{
    let whole = branches_text_list(bs, syms);
    lemma_punct_chars();
    if bs.len() == 0 {
        assert(whole =~= Seq::<char>::empty());
        assert(s[i] == ';') by {
            assert(s.subrange(i, i + 1)[0] == s[i]);
            assert((whole + ";"@)[0] == ';');
        }
        lemma_lex_punct(s, i);
        assert(s.subrange(i, i + 1) =~= ";"@);
        assert(branches_toks(bs, syms) =~= seq![tok_end()]);
    } else {
        let bt = crate::grammar::spec_branch_text(bs[0], syms);
        let rest = branches_text_list(bs.drop_first(), syms);
        assert(whole + ";"@ =~= bt + (rest + ";"@));
        lemma_seg_split(s, i, bt, rest + ";"@);
        // What follows the first branch is a pipe or the terminator.
        let m = i + bt.len() as int;
        assert(s[m] == (rest + ";"@)[0]) by {
            assert(s.subrange(m, i + whole.len() + 1)[0] == s[m]);
        }
        if bs.drop_first().len() == 0 {
            assert((rest + ";"@)[0] == ';');
        } else {
            let b1 = bs.drop_first()[0];
            lemma_pipes_chars(b1.1);
            assert(bs.drop_first()[0] == bs[1]);
            assert(b1.1 >= 1);
            assert(rest[0] == spec_pipes_text(b1.1)[0]) by {
                assert(crate::grammar::spec_branch_text(b1, syms)[0] == spec_pipes_text(
                    b1.1,
                )[0]);
            }
            assert((rest + ";"@)[0] == '|');
        }
        assert(!is_ident_cont_char(s[m]) && (s[m] == ';' || s[m] == '|'));
        lemma_lex_branch_text(s, i, syms, bs[0]);
        lemma_lex_branches_text(s, m, syms, bs.drop_first());
        assert(spec_lex(s, i) =~= branches_toks(bs, syms) + spec_lex(
            s,
            i + whole.len() + 1,
        ));
    }
}

/// Lexing a serialized rule list that fills the rest of the input yields
/// exactly its token stream.
proof fn lemma_lex_rules_text(s: Seq<char>, i: int, syms: Seq<Seq<char>>, rs: GrammarS)
    requires
        forall|k: int| 0 <= k < syms.len() ==> valid_symbol(#[trigger] syms[k]),
        forall|m: int| 0 <= m < rs.len() ==> valid_symbol((#[trigger] rs[m]).0),
        forall|m: int, k: int|
            0 <= m < rs.len() && 0 <= k < rs[m].1.len() ==> writable_node(
                (#[trigger] rs[m].1[k]).0,
                syms.len() as int,
            ) && rs[m].1[k].1 >= 1,
        0 <= i,
        i + rules_text_list(rs, syms).len() == s.len(),
        s.subrange(i, s.len() as int) == rules_text_list(rs, syms),
    ensures
        spec_lex(s, i) == rules_toks(rs, syms),
        spec_lex_ok(s, i),
    decreases rs.len(),
{
    lemma_punct_chars();
    if rs.len() == 0 {
        assert(rules_toks(rs, syms) =~= Seq::<TokS>::empty());
    } else {
        let name = rs[0].0;
        let btext = branches_text_list(rs[0].1, syms);
        let rest = rules_text_list(rs.drop_first(), syms);
        let whole = rules_text_list(rs, syms);
        assert(whole =~= name + ("\n"@ + ((btext + ";"@) + ("\n"@ + rest))));
        lemma_seg_split(s, i, name, "\n"@ + ((btext + ";"@) + ("\n"@ + rest)));
        let p1 = i + name.len() as int;
        lemma_seg_split(s, p1, "\n"@, (btext + ";"@) + ("\n"@ + rest));
        let p2 = p1 + 1;
        lemma_seg_split(s, p2, btext + ";"@, "\n"@ + rest);
        let p3 = p2 + btext.len() as int + 1;
        lemma_seg_split(s, p3, "\n"@, rest);
        let p4 = p3 + 1;
        assert(valid_symbol(name));
        assert(s[p1] == '\n') by {
            assert(s.subrange(p1, p1 + 1)[0] == s[p1]);
        }
        assert(s[p3] == '\n') by {
            assert(s.subrange(p3, p3 + 1)[0] == s[p3]);
        }
        lemma_lex_word(s, i, name);
        lemma_lex_ws(s, p1);
        assert forall|k: int|
            0 <= k < rs[0].1.len() implies writable_node(
            (#[trigger] rs[0].1[k]).0,
            syms.len() as int,
        ) && rs[0].1[k].1 >= 1 by {
            assert(rs[0].1[k] == rs[0].1[k]);
        }
        lemma_lex_branches_text(s, p2, syms, rs[0].1);
        lemma_lex_ws(s, p3);
        assert forall|m: int|
            0 <= m < rs.drop_first().len() implies valid_symbol(
            (#[trigger] rs.drop_first()[m]).0,
        ) by {
            assert(rs.drop_first()[m] == rs[m + 1]);
        }
        assert forall|m: int, k: int|
            0 <= m < rs.drop_first().len() && 0 <= k < rs.drop_first()[m].1.len()
            implies writable_node((#[trigger] rs.drop_first()[m].1[k]).0, syms.len() as int)
            && rs.drop_first()[m].1[k].1 >= 1 by {
            assert(rs.drop_first()[m] == rs[m + 1]);
        }
        lemma_lex_rules_text(s, p4, syms, rs.drop_first());
        assert(spec_lex(s, i) =~= rules_toks(rs, syms));
    }
}

/// The grammar round-trip law, at the text level: parsing the textual form
/// of a well-formed grammar reproduces exactly the same rules, branches and
/// weights.
pub proof fn lemma_grammar_text_roundtrip(gs: GrammarS)
    requires
        writable_grammar(gs),
    ensures
        crate::bnf_parser::spec_parse(crate::grammar::spec_grammar_text(gs)) == Ok::<
            _,
            ParseErrS,
        >(gs),
{
    let syms = grammar_names(gs);
    let text = crate::grammar::spec_grammar_text(gs);
    lemma_rules_text_bridge(gs, 0, syms);
    assert(gs.subrange(0, gs.len() as int) =~= gs);
    assert(text == rules_text_list(gs, syms));
    assert forall|k: int| 0 <= k < syms.len() implies valid_symbol(#[trigger] syms[k]) by {
        assert(syms[k] == gs[k].0);
    }
    assert forall|m: int| 0 <= m < gs.len() implies valid_symbol((#[trigger] gs[m]).0) by {
        assert(valid_symbol(gs[m].0));
    }
    assert(text.subrange(0, text.len() as int) =~= text);
    lemma_lex_rules_text(text, 0, syms, gs);
    lemma_grammar_tokens_roundtrip(gs);
    assert(Seq::<Seq<char>>::empty() =~= Seq::<Seq<char>>::empty());
}

} // verus!
