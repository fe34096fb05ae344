use xscript::lexer::Lexer;
use xscript::node::{BinOp, Node, NodeKind};
use xscript::parser::{ParseError, Parser};
use xscript::typing::Type;

fn parse_one(src: &str) -> Node {
    let lexer = Lexer::new_from_string(src.to_string());
    let mut parser = Parser::new(lexer);
    parser.get_node().unwrap()
}

fn variable_name(node: &Node) -> &str {
    match &node.kind {
        NodeKind::Variable(name, _) => name.as_str(),
        other => panic!("expected a variable node, got {:?}", other),
    }
}

#[test]
fn multiplication_binds_tighter_than_addition() {
    let node = parse_one("a + b * c\n");
    match node.kind {
        NodeKind::BinaryOp(l, r, BinOp::Add) => {
            assert_eq!(variable_name(&l), "a");
            match r.kind {
                NodeKind::BinaryOp(rl, rr, BinOp::Mul) => {
                    assert_eq!(variable_name(&rl), "b");
                    assert_eq!(variable_name(&rr), "c");
                }
                other => panic!("expected a multiplication on the right, got {:?}", other),
            }
        }
        other => panic!("expected an addition at the top, got {:?}", other),
    }
}

#[test]
fn parentheses_group_the_left_side() {
    let node = parse_one("(a + b) * c\n");
    match node.kind {
        NodeKind::BinaryOp(l, r, BinOp::Mul) => {
            assert!(matches!(l.kind, NodeKind::BinaryOp(_, _, BinOp::Add)));
            assert_eq!(variable_name(&r), "c");
        }
        other => panic!("expected a multiplication at the top, got {:?}", other),
    }
}

#[test]
fn addition_folds_left_associatively() {
    let node = parse_one("a + b + c\n");
    match node.kind {
        NodeKind::BinaryOp(l, r, BinOp::Add) => {
            assert!(matches!(l.kind, NodeKind::BinaryOp(_, _, BinOp::Add)));
            assert_eq!(variable_name(&r), "c");
        }
        other => panic!("expected an addition at the top, got {:?}", other),
    }
}

#[test]
fn assignment_is_right_associative() {
    let node = parse_one("a = b = 1\n");
    match node.kind {
        NodeKind::BinaryOp(l, r, BinOp::Assign) => {
            assert_eq!(variable_name(&l), "a");
            assert!(matches!(r.kind, NodeKind::BinaryOp(_, _, BinOp::Assign)));
        }
        other => panic!("expected an assignment at the top, got {:?}", other),
    }
}

#[test]
fn compound_assignment_desugars() {
    // `x += 1` becomes `x = x + 1`
    let node = parse_one("x += 1\n");
    match node.kind {
        NodeKind::BinaryOp(l, r, BinOp::Assign) => {
            assert_eq!(variable_name(&l), "x");
            match r.kind {
                NodeKind::BinaryOp(rl, rr, BinOp::Add) => {
                    assert_eq!(variable_name(&rl), "x");
                    assert_eq!(rr.kind, NodeKind::Int(1));
                }
                other => panic!("expected the desugared addition, got {:?}", other),
            }
        }
        other => panic!("expected an assignment at the top, got {:?}", other),
    }
}

#[test]
fn binary_node_range_spans_children() {
    let node = parse_one("ab + cde\n");
    assert_eq!((node.range.start, node.range.end), (0, 8));
}

#[test]
fn type_annotations_are_recognized() {
    let node = parse_one("x: int = 1\n");
    match node.kind {
        NodeKind::BinaryOp(l, _, BinOp::Assign) => {
            assert_eq!(l.kind, NodeKind::Variable("x".to_string(), Some(Type::new_int())));
        }
        other => panic!("expected an assignment, got {:?}", other),
    }
    let f = parse_one("y: float\n");
    assert_eq!(f.kind, NodeKind::Variable("y".to_string(), Some(Type::new_float())));
    let s = parse_one("z: string\n");
    assert_eq!(s.kind, NodeKind::Variable("z".to_string(), Some(Type::new_string())));
}

#[test]
fn unrecognized_annotation_yields_no_type() {
    let node = parse_one("x: quux\n");
    assert_eq!(node.kind, NodeKind::Variable("x".to_string(), None));
}

#[test]
fn juxtaposition_builds_a_call() {
    let node = parse_one("f x y\n");
    match node.kind {
        NodeKind::Apply(callee, args) => {
            assert_eq!(variable_name(&callee), "f");
            assert_eq!(args.len(), 2);
            assert_eq!(variable_name(&args[0]), "x");
            assert_eq!(variable_name(&args[1]), "y");
        }
        other => panic!("expected a call node, got {:?}", other),
    }
}

#[test]
fn clean_end_of_input_is_signalled() {
    let lexer = Lexer::new_from_string(String::new());
    let mut parser = Parser::new(lexer);
    assert_eq!(parser.get_node().unwrap_err(), ParseError::EndOfInput);

    let lexer = Lexer::new_from_string("\n\n".to_string());
    let mut parser = Parser::new(lexer);
    assert_eq!(parser.get_node().unwrap_err(), ParseError::EndOfInput);
}

#[test]
fn statements_come_one_at_a_time() {
    let lexer = Lexer::new_from_string("x = 1\ny = 2\n".to_string());
    let mut parser = Parser::new(lexer);
    let first = parser.get_node().unwrap();
    assert!(matches!(first.kind, NodeKind::BinaryOp(_, _, BinOp::Assign)));
    let second = parser.get_node().unwrap();
    assert!(matches!(second.kind, NodeKind::BinaryOp(_, _, BinOp::Assign)));
    assert_eq!(parser.get_node().unwrap_err(), ParseError::EndOfInput);
}

#[test]
fn unmatched_paren_is_reported() {
    let lexer = Lexer::new_from_string("(a + 1\n".to_string());
    let mut parser = Parser::new(lexer);
    match parser.get_node() {
        Err(ParseError::UnmatchedParen(sp)) => assert_eq!(sp.start, 0),
        other => panic!("expected an unmatched paren error, got {:?}", other),
    }
}

#[test]
fn reserved_word_if_is_rejected() {
    let lexer = Lexer::new_from_string("if\n".to_string());
    let mut parser = Parser::new(lexer);
    match parser.get_node() {
        Err(ParseError::UnexpectedToken(_, _)) => {}
        other => panic!("expected an unexpected token error, got {:?}", other),
    }
}

#[test]
fn lex_failure_mid_expression_is_reported() {
    let lexer = Lexer::new_from_string("x = \"abc\n".to_string());
    let mut parser = Parser::new(lexer);
    match parser.get_node() {
        Err(ParseError::Lex(_)) => {}
        other => panic!("expected a lexer error, got {:?}", other),
    }
}

#[test]
fn failed_argument_parse_ends_the_argument_list() {
    // the call-argument loop treats a sub-parse failure as "no more
    // arguments", so a broken argument leaves the bare callee
    let lexer = Lexer::new_from_string("f (x\n".to_string());
    let mut parser = Parser::new(lexer);
    let node = parser.get_node().unwrap();
    assert_eq!(node.kind, NodeKind::Variable("f".to_string(), None));
}

#[test]
fn statement_needs_its_terminator() {
    // a scan that runs past the end of the input fails, so a statement's
    // last token must be followed by a newline (or other terminator)
    let lexer = Lexer::new_from_string("x = 1".to_string());
    let mut parser = Parser::new(lexer);
    match parser.get_node() {
        Err(ParseError::Lex(_)) => {}
        other => panic!("expected a lexer error, got {:?}", other),
    }
}
