use shaderand::bnf_lexer::TokenKind;
use shaderand::bnf_parser::{ParseError, Parser};
use shaderand::grammar_lang::Token;
use shaderand::node::{ArithmeticOp, FnNode, UnaryOp};

#[test]
fn test_parse_bnf() {
    let input = r"
# Entry
E | vec3(C, C, C)
  ;

# Terminal
A | random
  | x
  | y
  | t
  | abs(x)
  | abs(y)
  | sqrt(add(mult(x, x), mult(y, y))) # Distance from (0, 0) to (x, y)
  ;

# Expressions
C ||  A
  ||| add(C, C)
  ||| mult(C, C)
  | sqrt(abs(C))
  # ||| abs(C)
  #||| sin(C)
  ;
        ";
    let mut parser = Parser::new(input);
    let result = parser.parse();
    assert!(result.is_ok(), "Parse should be successful");
    let _ = result.map(|grammar| {
        let node = grammar.gen_from_rule(0, 10);
        assert!(node.is_some(), "Node should be generated");
    });
}

#[test]
fn parser_structure_exact() {
    let input = "E | vec3(C, C, C) ;\nC || x\n ||| add(x, y)\n | sqrt(abs(t))\n ;";
    let mut parser = Parser::new(input);
    let g = parser.parse().unwrap();
    assert_eq!(g.symbols, vec!["E".to_string(), "C".to_string()]);
    assert_eq!(g.map.len(), 2);
    let e_rule = &g.map[0].1;
    assert_eq!(e_rule.branches.len(), 1);
    assert_eq!(e_rule.branches[0].weight, 1);
    assert_eq!(e_rule.weight_sum, 1);
    assert_eq!(
        e_rule.branches[0].node,
        FnNode::triple(FnNode::Rule(1), FnNode::Rule(1), FnNode::Rule(1)),
    );
    let c_rule = &g.map[1].1;
    assert_eq!(c_rule.branches.len(), 3);
    assert_eq!(c_rule.branches[0].weight, 2);
    assert_eq!(c_rule.branches[1].weight, 3);
    assert_eq!(c_rule.branches[2].weight, 1);
    assert_eq!(c_rule.weight_sum, 6);
    assert_eq!(c_rule.branches[0].node, FnNode::X);
    assert_eq!(
        c_rule.branches[1].node,
        FnNode::arithmetic(FnNode::X, ArithmeticOp::Add, FnNode::Y),
    );
    assert_eq!(
        c_rule.branches[2].node,
        FnNode::unary(UnaryOp::Sqrt, FnNode::unary(UnaryOp::Abs, FnNode::T)),
    );
}

#[test]
fn parser_rejects_empty_rule() {
    // An empty branch list on a known rule head is an invalid rule.
    let mut parser = Parser::new("A | x ; A ;");
    match parser.parse() {
        Err(ParseError::InvalidRule) => {}
        other => panic!("expected InvalidRule, got {:?}", other),
    }
    // A bare head is never discovered as a rule symbol (head detection
    // requires a following weight marker), so it is an unknown symbol.
    let mut bare = Parser::new("A ;");
    match bare.parse() {
        Err(ParseError::UnknownSymbol(s)) => assert_eq!(s, "A"),
        other => panic!("expected UnknownSymbol, got {:?}", other),
    }
}

#[test]
fn parser_rejects_unknown_symbol() {
    let mut parser = Parser::new("A | b ;");
    match parser.parse() {
        Err(ParseError::UnknownSymbol(s)) => assert_eq!(s, "b"),
        other => panic!("expected UnknownSymbol, got {:?}", other),
    }
}

#[test]
fn parser_rejects_missing_branch_body() {
    let mut parser = Parser::new("A |;");
    match parser.parse() {
        Err(ParseError::InvalidBranchWeight) => {}
        other => panic!("expected InvalidBranchWeight, got {:?}", other),
    }
}

#[test]
fn parser_rejects_wrong_arity() {
    let mut parser = Parser::new("E | vec3(x, y) ;");
    match parser.parse() {
        Err(ParseError::InvalidRule) => {}
        other => panic!("expected InvalidRule, got {:?}", other),
    }
    let mut parser2 = Parser::new("E | add(x) ;");
    match parser2.parse() {
        Err(ParseError::InvalidRule) => {}
        other => panic!("expected InvalidRule, got {:?}", other),
    }
}

#[test]
fn parser_rejects_stray_token() {
    let mut parser = Parser::new("A | x ; (");
    match parser.parse() {
        Err(ParseError::UnexpectedToken(TokenKind::LParen)) => {}
        other => panic!("expected UnexpectedToken(LParen), got {:?}", other),
    }
}

#[test]
fn parser_rejects_unlexable_input() {
    let mut parser = Parser::new("A | x ; %");
    match parser.parse() {
        Err(ParseError::UnexpectedToken(TokenKind::EOF)) => {}
        other => panic!("expected UnexpectedToken(EOF), got {:?}", other),
    }
}

#[test]
fn parser_rejects_number_in_body() {
    // Branch bodies hold identifier terms only; a numeric literal is not a
    // term.
    let mut parser = Parser::new("E | vec3(1, 2, 3) ;");
    match parser.parse() {
        Err(ParseError::UnexpectedToken(TokenKind::Number)) => {}
        other => panic!("expected UnexpectedToken(Number), got {:?}", other),
    }
}

#[test]
fn parser_rejects_stray_colon() {
    let mut parser = Parser::new("A | x ; :");
    match parser.parse() {
        Err(ParseError::UnexpectedToken(TokenKind::Colon)) => {}
        other => panic!("expected UnexpectedToken(Colon), got {:?}", other),
    }
}

#[test]
fn lexer_reads_eof_word_as_end_marker() {
    // The literal word EOF ends parsing early, leaving what was read so far.
    let mut parser = Parser::new("A | x ;\nEOF\nB | y ;");
    let g = parser.parse().unwrap();
    assert_eq!(g.symbols, vec!["A".to_string()]);
}

#[test]
fn builtins_take_precedence_over_rules() {
    // A rule may be named like a builtin word, but inside branch bodies the
    // builtin form wins; only identifiers that are no builtin resolve as
    // rule references.
    let input = "x | random ;\nE | vec3(x, x, x) ;";
    let mut parser = Parser::new(input);
    let g = parser.parse().unwrap();
    assert_eq!(g.symbols, vec!["x".to_string(), "E".to_string()]);
    assert_eq!(
        g.map[1].1.branches[0].node,
        FnNode::triple(FnNode::X, FnNode::X, FnNode::X),
    );
}

#[test]
fn builtin_arity_checked_despite_rule_name() {
    // Even with a rule named vec3, a vec3 call form goes through the
    // builtin's arity check.
    let input = "vec3 | x ;\nE | vec3(x, y) ;";
    let mut parser = Parser::new(input);
    match parser.parse() {
        Err(ParseError::InvalidRule) => {}
        other => panic!("expected InvalidRule, got {:?}", other),
    }
}

#[test]
fn parser_resolves_forward_references() {
    // B is referenced before its own rule appears in the text.
    let input = "A | vec3(B, B, B) ;\nB | sqrt(abs(x))\n ;";
    let mut parser = Parser::new(input);
    let g = parser.parse().unwrap();
    assert_eq!(g.symbols, vec!["A".to_string(), "B".to_string()]);
    assert_eq!(
        g.map[0].1.branches[0].node,
        FnNode::triple(FnNode::Rule(1), FnNode::Rule(1), FnNode::Rule(1)),
    );
}

#[test]
fn grammar_round_trip_preserves_structure() {
    let input = "E | vec3(C, C, C) ;\nC || random\n ||| add(C, C)\n | sqrt(abs(C))\n ;";
    let mut parser = Parser::new(input);
    let g = parser.parse().unwrap();
    let text = g.to_text();
    let mut parser2 = Parser::new(&text);
    let g2 = parser2.parse().unwrap();
    assert_eq!(g.symbols, g2.symbols);
    assert_eq!(g.map.len(), g2.map.len());
    for i in 0..g.map.len() {
        assert_eq!(g.map[i].0, g2.map[i].0);
        let (a, b) = (&g.map[i].1, &g2.map[i].1);
        assert_eq!(a.weight_sum, b.weight_sum);
        assert_eq!(a.branches.len(), b.branches.len());
        for k in 0..a.branches.len() {
            assert_eq!(a.branches[k].weight, b.branches[k].weight);
            assert_eq!(a.branches[k].node, b.branches[k].node);
        }
    }
}

#[test]
fn default_grammar_round_trips() {
    let g = shaderand::grammar::Grammar::default();
    let text = g.to_text();
    let mut parser = Parser::new(&text);
    let g2 = parser.parse().unwrap();
    assert_eq!(g.symbols, g2.symbols);
    assert_eq!(g.map.len(), g2.map.len());
    for i in 0..g.map.len() {
        let (a, b) = (&g.map[i].1, &g2.map[i].1);
        assert_eq!(a.weight_sum, b.weight_sum);
        assert_eq!(a.branches.len(), b.branches.len());
        for k in 0..a.branches.len() {
            assert_eq!(a.branches[k].weight, b.branches[k].weight);
            assert_eq!(a.branches[k].node, b.branches[k].node);
        }
    }
}

#[test]
fn grammar_lang_test_lex() {
    let input = "\na ::=\n    ||| b\n    | c\n    ;\n        ";
    let expected = vec![
        shaderand::grammar_lang::Token::Identifier,
        shaderand::grammar_lang::Token::ColonColonEqual,
        shaderand::grammar_lang::Token::Pipe,
        shaderand::grammar_lang::Token::Pipe,
        shaderand::grammar_lang::Token::Pipe,
        shaderand::grammar_lang::Token::Identifier,
        shaderand::grammar_lang::Token::Pipe,
        shaderand::grammar_lang::Token::Identifier,
        shaderand::grammar_lang::Token::End,
    ];
    let tokens = shaderand::grammar_lang::Token::lex(input).unwrap();
    assert_eq!(tokens, expected);
}

#[test]
fn grammar_lang_lexes_marker_and_brackets() {
    assert_eq!(
        Token::lex("a ::= { [ ( 12 ) ] } : , ;").unwrap(),
        vec![
            Token::Identifier,
            Token::ColonColonEqual,
            Token::LBrace,
            Token::LBracket,
            Token::LParen,
            Token::Number,
            Token::RParen,
            Token::RBracket,
            Token::RBrace,
            Token::Colon,
            Token::Comma,
            Token::End,
        ],
    );
    // Two colons not followed by `=` are two colon tokens.
    assert_eq!(Token::lex("::").unwrap(), vec![Token::Colon, Token::Colon]);
    // An unlexable character fails the lex.
    assert!(Token::lex("a % b").is_none());
}
