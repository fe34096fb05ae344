use vstd::prelude::*;

use crate::lexer::{lemma_spec_token_advances, lemma_spec_token_eoi, lemma_spec_token_range, spec_token, LexError, LexStep, Lexer};
use crate::node::{duplicate_node, lemma_node_eq_wf, node_eq, wf_node, BinOp, Node, NodeKind};
use crate::token::{Span, Symbol, Token, TokenKind, TokenKindView, TokenView};
use crate::typing::{spec_type_of_name, ToType};

verus! {

/// What the parser was looking for when it met an unexpected token.
#[derive(Clone, Copy, Debug, PartialEq, Eq, Structural)]
pub enum Expected {
    Statement,
    Primary,
    Identifier,
}

/// A failure of the parser.
#[derive(Debug, PartialEq)]
pub enum ParseError {
    /// No more top-level nodes: the input ended cleanly before a statement.
    EndOfInput,
    /// The tokenizer failed in the middle of an expression.
    Lex(LexError),
    /// A token that cannot stand where it was found.
    UnexpectedToken(Expected, Token),
    /// A parenthesized expression without its closing parenthesis; the span
    /// is the opening parenthesis's.
    UnmatchedParen(Span),
}

/// Mathematical model of the parser: the source characters, the tokenizer's
/// position, and the one-slot pushback buffer.
pub struct ParserView {
    pub chars: Seq<char>,
    pub pos: int,
    pub buf: Option<TokenView>,
}

/// How much input is left to consume: two units per unread character plus
/// one for a buffered token.  Every token handed out shrinks it.
pub open spec fn pmeasure(v: ParserView) -> int {
    (if v.pos <= v.chars.len() {
        2 * (v.chars.len() - v.pos)
    } else {
        0int
    }) + (if v.buf is Some {
        1int
    } else {
        0int
    })
}

/// The position parsing continues from: a pushed-back token's start, else
/// the tokenizer's position.  It never moves backwards, and every node a
/// level returns lies between its values before and after the call.
pub open spec fn effpos(v: ParserView) -> int {
    match v.buf {
        Some(t) => t.range.start as int,
        None => v.pos,
    }
}

/// Outcome of taking one token from the parser state: the token and the
/// state after it, or the tokenizer's failure and the state it left.
pub enum NextStep {
    T(TokenView, ParserView),
    E(LexError, ParserView),
}

/// Taking the next token: from the pushback buffer if occupied, else from
/// the tokenizer.
pub open spec fn vnext(v: ParserView) -> NextStep {
    match v.buf {
        Some(t) => NextStep::T(t, ParserView { buf: None, ..v }),
        None => match spec_token(v.chars, v.pos) {
            LexStep::Tok(t, q) => NextStep::T(t, ParserView { pos: q, ..v }),
            LexStep::Fail(e, q) => NextStep::E(e, ParserView { pos: q, ..v }),
        },
    }
}

pub proof fn lemma_vnext(v: ParserView)
    requires
        0 <= v.pos <= v.chars.len(),
        v.chars.len() <= usize::MAX,
        v.buf matches Some(t) ==> t.range.start <= t.range.end && t.range.end as int <= v.pos,
    ensures
        match vnext(v) {
            NextStep::T(t, v2) => v2.chars == v.chars && 0 <= v2.pos <= v2.chars.len() && v2.buf
                is None && pmeasure(v2) < pmeasure(v) && effpos(v) <= t.range.start as int
                && t.range.start <= t.range.end && t.range.end as int <= effpos(v2),
            NextStep::E(_, v2) => v2.chars == v.chars && 0 <= v2.pos <= v2.chars.len() && v2.buf
                == v.buf && pmeasure(v2) <= pmeasure(v) && effpos(v) <= effpos(v2),
        },
{
    match v.buf {
        Some(_) => {},
        None => {
            lemma_spec_token_advances(v.chars, v.pos);
            lemma_spec_token_range(v.chars, v.pos);
        },
    }
}

/// The input holds no further statement: only newlines remain before the
/// end of the input.
pub open spec fn at_end(v: ParserView) -> bool
    decreases pmeasure(v) via at_end_decreases
{
    match vnext(v) {
        NextStep::E(e, _) => e is UnexpectedEndOfInput,
        NextStep::T(t, v2) => t.kind is Newline && at_end(v2),
    }
}

#[via_fn]
proof fn at_end_decreases(v: ParserView) {
    match v.buf {
        Some(_) => {},
        None => {
            if 0 <= v.pos <= v.chars.len() {
                lemma_spec_token_advances(v.chars, v.pos);
            }
        },
    }
}

/// The parser state with any leading newline tokens consumed: newlines are
/// insignificant except as statement separators, so a statement's shape is
/// judged past them.
pub open spec fn nl_skip(v: ParserView) -> ParserView
    decreases pmeasure(v) via nl_skip_decreases
{
    match vnext(v) {
        NextStep::T(t, v2) => if t.kind is Newline {
            nl_skip(v2)
        } else {
            v
        },
        NextStep::E(_, _) => v,
    }
}

#[via_fn]
proof fn nl_skip_decreases(v: ParserView) {
    match v.buf {
        Some(_) => {},
        None => {
            if 0 <= v.pos <= v.chars.len() {
                lemma_spec_token_advances(v.chars, v.pos);
            }
        },
    }
}

/// The binary operation a compound assignment symbol desugars with.
fn compound_op(sym: Symbol) -> (r: Option<BinOp>)
    ensures
        r is Some ==> continues_expression(sym),
        r is Some <==> is_compound_sym(sym),
        r matches Some(op) ==> compound_sym_of(op) == sym,
{
    match sym {
        Symbol::AssignAdd => Some(BinOp::Add),
        Symbol::AssignSub => Some(BinOp::Sub),
        Symbol::AssignMul => Some(BinOp::Mul),
        Symbol::AssignDiv => Some(BinOp::Div),
        Symbol::AssignMod => Some(BinOp::Rem),
        Symbol::AssignShl => Some(BinOp::Shl),
        Symbol::AssignShr => Some(BinOp::Shr),
        Symbol::AssignAnd => Some(BinOp::And),
        Symbol::AssignOr => Some(BinOp::Or),
        Symbol::AssignXor => Some(BinOp::Xor),
        _ => None,
    }
}


/// The node a literal token parses to.
pub open spec fn literal_node(tk: TokenKindView, nd: Node) -> bool {
    match tk {
        TokenKindView::Int(n) => nd.kind matches NodeKind::Int(m) && m == n,
        TokenKindView::Float(text) => nd.kind matches NodeKind::Float(s) && s@ == text,
        TokenKindView::Str(text) => nd.kind matches NodeKind::Str(s) && s@ == text,
        _ => false,
    }
}

pub open spec fn is_literal(tk: TokenKindView) -> bool {
    tk matches TokenKindView::Int(_) || tk matches TokenKindView::Float(_) || tk
        matches TokenKindView::Str(_)
}

/// A symbol that some level below assignment consumes after a complete
/// operand: an operator of those levels, or a parenthesis opening a call
/// argument.
pub open spec fn continues_operand(sym: Symbol) -> bool {
    ||| sym == Symbol::OpeningParen
    ||| sym == Symbol::LOr
    ||| sym == Symbol::LAnd
    ||| sym == Symbol::Or
    ||| sym == Symbol::Xor
    ||| sym == Symbol::And
    ||| sym == Symbol::Eq
    ||| sym == Symbol::Ne
    ||| sym == Symbol::Lt
    ||| sym == Symbol::Le
    ||| sym == Symbol::Gt
    ||| sym == Symbol::Ge
    ||| sym == Symbol::Shl
    ||| sym == Symbol::Shr
    ||| sym == Symbol::Add
    ||| sym == Symbol::Sub
    ||| sym == Symbol::Asterisk
    ||| sym == Symbol::Div
    ||| sym == Symbol::Mod
}

/// A symbol that can continue an expression after a complete operand: an
/// operand continuation or an assignment operator.
pub open spec fn continues_expression(sym: Symbol) -> bool {
    ||| continues_operand(sym)
    ||| sym == Symbol::Assign
    ||| sym == Symbol::AssignAdd
    ||| sym == Symbol::AssignSub
    ||| sym == Symbol::AssignMul
    ||| sym == Symbol::AssignDiv
    ||| sym == Symbol::AssignMod
    ||| sym == Symbol::AssignShl
    ||| sym == Symbol::AssignShr
    ||| sym == Symbol::AssignAnd
    ||| sym == Symbol::AssignOr
    ||| sym == Symbol::AssignXor
}

/// A token no level below assignment consumes after a complete operand.
pub open spec fn stops_operand(tk: TokenKindView) -> bool {
    match tk {
        TokenKindView::Symbol(sym) => !continues_operand(sym),
        TokenKindView::Newline => true,
        _ => false,
    }
}

/// A token after which a complete operand stands alone as the statement.
pub open spec fn ends_statement(tk: TokenKindView) -> bool {
    match tk {
        TokenKindView::Symbol(sym) => !continues_expression(sym),
        TokenKindView::Newline => true,
        _ => false,
    }
}

/// The next token is a literal and the one after it stops the operand.
pub open spec fn lit_operand_hyp(v0: ParserView) -> bool {
    match vnext(v0) {
        NextStep::T(t, v2) => is_literal(t.kind) && match vnext(v2) {
            NextStep::T(t2, _) => stops_operand(t2.kind),
            NextStep::E(_, _) => false,
        },
        NextStep::E(_, _) => false,
    }
}

/// The next token is a literal and the one after it ends the statement.
pub open spec fn lone_literal_hyp(v0: ParserView) -> bool {
    match vnext(v0) {
        NextStep::T(t, v2) => is_literal(t.kind) && match vnext(v2) {
            NextStep::T(t2, _) => ends_statement(t2.kind),
            NextStep::E(_, _) => false,
        },
        NextStep::E(_, _) => false,
    }
}

/// When the next token is a literal, `nd` is exactly the literal's node.
pub open spec fn lone_literal_result(v0: ParserView, nd: Node) -> bool {
    match vnext(v0) {
        NextStep::T(t, _) => is_literal(t.kind) ==> (literal_node(t.kind, nd) && nd.range
            == t.range),
        NextStep::E(_, _) => true,
    }
}

/// Under either literal hypothesis, `v1` is the state just past the
/// literal, before the stopping token was looked at.
pub open spec fn lone_literal_mid(v0: ParserView, v1: ParserView) -> bool {
    match vnext(v0) {
        NextStep::T(t, v2) => is_literal(t.kind) ==> v1 == v2,
        NextStep::E(_, _) => true,
    }
}

/// Under either literal hypothesis, `v1` is the state just past the
/// literal, with the stopping token pushed back.
pub open spec fn lone_literal_state(v0: ParserView, v1: ParserView) -> bool {
    match vnext(v0) {
        NextStep::T(t, v2) => is_literal(t.kind) ==> match vnext(v2) {
            NextStep::T(t2, v3) => stops_operand(t2.kind) ==> v1 == (ParserView {
                buf: Some(t2),
                ..v3
            }),
            NextStep::E(_, _) => true,
        },
        NextStep::E(_, _) => true,
    }
}

/// A literal operand followed by a stopping token parses, at every level
/// below assignment, to exactly that literal's node with the stopper pushed
/// back.
pub open spec fn lit_operand_post(
    v0: ParserView,
    r: Result<Node, ParseError>,
    v1: ParserView,
) -> bool {
    lit_operand_hyp(v0) ==> (r matches Ok(nd) && lone_literal_result(v0, nd)
        && lone_literal_state(v0, v1))
}

/// The node a bare identifier token parses to.
pub open spec fn variable_node(tk: TokenKindView, nd: Node) -> bool {
    match tk {
        TokenKindView::Identifier(name) => nd.kind matches NodeKind::Variable(nm, ty) && nm@
            == name && ty is None,
        _ => false,
    }
}

/// The next token is an identifier and the one after it stops the operand
/// and is no annotation colon.
pub open spec fn var_operand_hyp(v0: ParserView) -> bool {
    match vnext(v0) {
        NextStep::T(t, v2) => (t.kind matches TokenKindView::Identifier(name) && name != seq![
            'i',
            'f',
        ]) && match vnext(v2) {
            NextStep::T(t2, _) => stops_operand(t2.kind) && t2.kind != TokenKindView::Symbol(
                Symbol::Colon,
            ),
            NextStep::E(_, _) => false,
        },
        NextStep::E(_, _) => false,
    }
}

/// The next token is an identifier and the one after it ends the statement
/// and is no annotation colon.
pub open spec fn lone_variable_hyp(v0: ParserView) -> bool {
    match vnext(v0) {
        NextStep::T(t, v2) => (t.kind matches TokenKindView::Identifier(name) && name != seq![
            'i',
            'f',
        ]) && match vnext(v2) {
            NextStep::T(t2, _) => ends_statement(t2.kind) && t2.kind != TokenKindView::Symbol(
                Symbol::Colon,
            ),
            NextStep::E(_, _) => false,
        },
        NextStep::E(_, _) => false,
    }
}

/// When the next token is an identifier, `nd` is exactly its bare variable
/// node.
pub open spec fn lone_variable_result(v0: ParserView, nd: Node) -> bool {
    match vnext(v0) {
        NextStep::T(t, _) => t.kind matches TokenKindView::Identifier(_) ==> (variable_node(
            t.kind,
            nd,
        ) && nd.range == t.range),
        NextStep::E(_, _) => true,
    }
}

/// Under either variable hypothesis, `v1` is the state just past the
/// identifier, with the stopping token pushed back.
pub open spec fn lone_variable_state(v0: ParserView, v1: ParserView) -> bool {
    match vnext(v0) {
        NextStep::T(t, v2) => t.kind matches TokenKindView::Identifier(_) ==> match vnext(v2) {
            NextStep::T(t2, v3) => stops_operand(t2.kind) && t2.kind != TokenKindView::Symbol(
                Symbol::Colon,
            ) ==> v1 == (ParserView { buf: Some(t2), ..v3 }),
            NextStep::E(_, _) => true,
        },
        NextStep::E(_, _) => true,
    }
}

/// A bare identifier operand followed by a stopping non-colon token parses,
/// at every level below assignment, to exactly its variable node with the
/// stopper pushed back.
pub open spec fn var_operand_post(
    v0: ParserView,
    r: Result<Node, ParseError>,
    v1: ParserView,
) -> bool {
    var_operand_hyp(v0) ==> (r matches Ok(nd) && lone_variable_result(v0, nd)
        && lone_variable_state(v0, v1))
}

/// A lone variable statement parses to exactly that bare variable's node,
/// with the statement-ending token pushed back.
pub open spec fn lone_variable_post(
    v0: ParserView,
    r: Result<Node, ParseError>,
    v1: ParserView,
) -> bool {
    lone_variable_hyp(v0) ==> (r matches Ok(nd) && lone_variable_result(v0, nd)
        && lone_variable_state(v0, v1))
}

/// A lone literal statement parses to exactly that literal's node, and the
/// statement-ending token is pushed back for the next statement.
pub open spec fn lone_literal_post(
    v0: ParserView,
    r: Result<Node, ParseError>,
    v1: ParserView,
) -> bool {
    lone_literal_hyp(v0) ==> (r matches Ok(nd) && lone_literal_result(v0, nd)
        && lone_literal_state(v0, v1))
}



/// A token the multiplicative-and-below chain never consumes after a
/// complete operand: anything but a call-argument opener or a
/// multiplicative operator.
pub open spec fn stops_term(tk: TokenKindView) -> bool {
    match tk {
        TokenKindView::Symbol(sym) => !(sym == Symbol::OpeningParen || sym == Symbol::Asterisk
            || sym == Symbol::Div || sym == Symbol::Mod),
        TokenKindView::Newline => true,
        _ => false,
    }
}

/// A simple operand token: a literal or an identifier.
pub open spec fn operand_kind(tk: TokenKindView) -> bool {
    is_literal(tk) || tk matches TokenKindView::Identifier(_)
}

/// The node a simple operand token parses to.
pub open spec fn operand_node(tk: TokenKindView, nd: Node) -> bool {
    literal_node(tk, nd) || variable_node(tk, nd)
}

/// The next token is a simple operand and the one after it stops the
/// multiplicative chain and is no annotation colon.
pub open spec fn term_operand_hyp(v0: ParserView) -> bool {
    match vnext(v0) {
        NextStep::T(t, v2) => operand_kind(t.kind) && match vnext(v2) {
            NextStep::T(tf, _) => stops_term(tf.kind) && tf.kind != TokenKindView::Symbol(
                Symbol::Colon,
            ),
            NextStep::E(_, _) => false,
        },
        NextStep::E(_, _) => false,
    }
}

/// When the next token is a simple operand, `nd` is exactly its node.
pub open spec fn term_operand_result(v0: ParserView, nd: Node) -> bool {
    match vnext(v0) {
        NextStep::T(t, _) => operand_kind(t.kind) ==> (operand_node(t.kind, nd) && nd.range
            == t.range),
        NextStep::E(_, _) => true,
    }
}

/// Under the term-operand hypothesis, `v1` is the state just past the
/// operand, with the stopping token pushed back.
pub open spec fn term_operand_state(v0: ParserView, v1: ParserView) -> bool {
    match vnext(v0) {
        NextStep::T(t, v2) => operand_kind(t.kind) ==> match vnext(v2) {
            NextStep::T(tf, v3) => stops_term(tf.kind) && tf.kind != TokenKindView::Symbol(
                Symbol::Colon,
            ) ==> v1 == (ParserView { buf: Some(tf), ..v3 }),
            NextStep::E(_, _) => true,
        },
        NextStep::E(_, _) => true,
    }
}

/// A simple operand followed by a term stopper parses, at the levels below
/// addition, to exactly its node with the stopper pushed back.
pub open spec fn term_operand_post(
    v0: ParserView,
    r: Result<Node, ParseError>,
    v1: ParserView,
) -> bool {
    term_operand_hyp(v0) ==> (r matches Ok(nd) && term_operand_result(v0, nd)
        && term_operand_state(v0, v1))
}



/// A token the call level never consumes after a complete operand: any
/// symbol but a parenthesis, or a newline.
pub open spec fn stops_factor(tk: TokenKindView) -> bool {
    match tk {
        TokenKindView::Symbol(sym) => sym != Symbol::OpeningParen,
        TokenKindView::Newline => true,
        _ => false,
    }
}

/// The next token is a simple operand and the one after it stops the call
/// level and is no annotation colon.
pub open spec fn factor_hyp(v0: ParserView) -> bool {
    match vnext(v0) {
        NextStep::T(t, v2) => operand_kind(t.kind) && match vnext(v2) {
            NextStep::T(tf, _) => stops_factor(tf.kind) && tf.kind != TokenKindView::Symbol(
                Symbol::Colon,
            ),
            NextStep::E(_, _) => false,
        },
        NextStep::E(_, _) => false,
    }
}

/// Under the factor hypothesis, `v1` is the state just past the operand,
/// with the stopping token pushed back.
pub open spec fn factor_state(v0: ParserView, v1: ParserView) -> bool {
    match vnext(v0) {
        NextStep::T(t, v2) => operand_kind(t.kind) ==> match vnext(v2) {
            NextStep::T(tf, v3) => stops_factor(tf.kind) && tf.kind != TokenKindView::Symbol(
                Symbol::Colon,
            ) ==> v1 == (ParserView { buf: Some(tf), ..v3 }),
            NextStep::E(_, _) => true,
        },
        NextStep::E(_, _) => true,
    }
}

/// A simple operand followed by a call stopper parses, at the call level,
/// to exactly its node with the stopper pushed back.
pub open spec fn factor_post(
    v0: ParserView,
    r: Result<Node, ParseError>,
    v1: ParserView,
) -> bool {
    factor_hyp(v0) ==> (r matches Ok(nd) && term_operand_result(v0, nd) && factor_state(v0, v1))
}

/// The next tokens are a simple operand, a multiplicative operator, a
/// second simple operand, and a term stopper.
pub open spec fn mul_expr_hyp(v0: ParserView) -> bool {
    match vnext(v0) {
        NextStep::T(t1, v2) => operand_kind(t1.kind) && (t1.kind
            matches TokenKindView::Identifier(name) ==> name != seq!['i', 'f']) && match vnext(
            v2,
        ) {
            NextStep::T(top, v3) => (top.kind == TokenKindView::Symbol(Symbol::Asterisk)
                || top.kind == TokenKindView::Symbol(Symbol::Div) || top.kind
                == TokenKindView::Symbol(Symbol::Mod)) && match vnext(v3) {
                NextStep::T(t2, v4) => operand_kind(t2.kind) && match vnext(v4) {
                    NextStep::T(tf, _) => stops_term(tf.kind) && tf.kind != TokenKindView::Symbol(
                        Symbol::Colon,
                    ),
                    NextStep::E(_, _) => false,
                },
                NextStep::E(_, _) => false,
            },
            NextStep::E(_, _) => false,
        },
        NextStep::E(_, _) => false,
    }
}

/// As `mul_expr_hyp`, with the follower ending the whole statement.
pub open spec fn mul_stmt_hyp(v0: ParserView) -> bool {
    &&& mul_expr_hyp(v0)
    &&& match vnext(v0) {
        NextStep::T(_, v2) => match vnext(v2) {
            NextStep::T(_, v3) => match vnext(v3) {
                NextStep::T(_, v4) => match vnext(v4) {
                    NextStep::T(tf, _) => ends_statement(tf.kind),
                    NextStep::E(_, _) => false,
                },
                NextStep::E(_, _) => false,
            },
            NextStep::E(_, _) => false,
        },
        NextStep::E(_, _) => false,
    }
}

/// Under the multiplicative hypothesis, `nd` is exactly the operation of
/// the two operands, spanning from the first to the second.
pub open spec fn mul_expr_result(v0: ParserView, nd: Node) -> bool {
    match vnext(v0) {
        NextStep::T(t1, v2) => operand_kind(t1.kind) ==> match vnext(v2) {
            NextStep::T(top, v3) => (top.kind == TokenKindView::Symbol(Symbol::Asterisk)
                || top.kind == TokenKindView::Symbol(Symbol::Div) || top.kind
                == TokenKindView::Symbol(Symbol::Mod)) ==> match vnext(v3) {
                NextStep::T(t2, _) => operand_kind(t2.kind) ==> (nd.kind
                    matches NodeKind::BinaryOp(l, r, op) && op == (if top.kind
                    == TokenKindView::Symbol(Symbol::Asterisk) {
                    BinOp::Mul
                } else if top.kind == TokenKindView::Symbol(Symbol::Div) {
                    BinOp::Div
                } else {
                    BinOp::Rem
                }) && operand_node(t1.kind, *l) && l.range == t1.range && operand_node(
                    t2.kind,
                    *r,
                ) && r.range == t2.range && nd.range == (Span {
                    start: t1.range.start,
                    end: t2.range.end,
                })),
                NextStep::E(_, _) => true,
            },
            NextStep::E(_, _) => true,
        },
        NextStep::E(_, _) => true,
    }
}

/// Under the multiplicative hypothesis, `v1` is the state just past the
/// second operand, with the stopping token pushed back.
pub open spec fn mul_expr_state(v0: ParserView, v1: ParserView) -> bool {
    match vnext(v0) {
        NextStep::T(t1, v2) => operand_kind(t1.kind) ==> match vnext(v2) {
            NextStep::T(top, v3) => (top.kind == TokenKindView::Symbol(Symbol::Asterisk)
                || top.kind == TokenKindView::Symbol(Symbol::Div) || top.kind
                == TokenKindView::Symbol(Symbol::Mod)) ==> match vnext(v3) {
                NextStep::T(t2, v4) => operand_kind(t2.kind) ==> match vnext(v4) {
                    NextStep::T(tf, v5) => stops_term(tf.kind) && tf.kind
                        != TokenKindView::Symbol(Symbol::Colon) ==> v1 == (ParserView {
                        buf: Some(tf),
                        ..v5
                    }),
                    NextStep::E(_, _) => true,
                },
                NextStep::E(_, _) => true,
            },
            NextStep::E(_, _) => true,
        },
        NextStep::E(_, _) => true,
    }
}

/// One multiplicative operation of two simple operands parses, at the
/// multiplicative level, to exactly that node with the stopper pushed back.
pub open spec fn mul_expr_post(
    v0: ParserView,
    r: Result<Node, ParseError>,
    v1: ParserView,
) -> bool {
    mul_expr_hyp(v0) ==> (r matches Ok(nd) && mul_expr_result(v0, nd) && mul_expr_state(v0, v1))
}

/// A statement of one multiplicative operation parses to exactly that node.
pub open spec fn mul_stmt_post(
    v0: ParserView,
    r: Result<Node, ParseError>,
    v1: ParserView,
) -> bool {
    mul_stmt_hyp(v0) ==> (r matches Ok(nd) && mul_expr_result(v0, nd) && mul_expr_state(v0, v1))
}


/// An additive right operand of one simple operand, ending the statement.
pub open spec fn term_tail_operand_hyp(v: ParserView) -> bool {
    match vnext(v) {
        NextStep::T(t2, v4) => operand_kind(t2.kind) && match vnext(v4) {
            NextStep::T(te, _) => ends_statement(te.kind) && te.kind != TokenKindView::Symbol(
                Symbol::Colon,
            ),
            NextStep::E(_, _) => false,
        },
        NextStep::E(_, _) => false,
    }
}

/// An additive right operand: a simple operand or one multiplicative pair,
/// ending the statement.
pub open spec fn term_tail_hyp(v: ParserView) -> bool {
    term_tail_operand_hyp(v) || mul_stmt_hyp(v)
}

/// Under the tail hypothesis, `nd` is exactly the tail's node.
pub open spec fn term_tail_result(v: ParserView, nd: Node) -> bool {
    &&& (term_tail_operand_hyp(v) ==> (match vnext(v) {
        NextStep::T(t2, _) => operand_node(t2.kind, nd) && nd.range == t2.range,
        NextStep::E(_, _) => true,
    }))
    &&& (mul_stmt_hyp(v) ==> mul_expr_result(v, nd))
}

/// Under the tail hypothesis, `v1` is the state just past the tail, with
/// the statement-ending token pushed back.
pub open spec fn term_tail_state(v: ParserView, v1: ParserView) -> bool {
    &&& (term_tail_operand_hyp(v) ==> (match vnext(v) {
        NextStep::T(_, v4) => match vnext(v4) {
            NextStep::T(te, v5) => v1 == (ParserView { buf: Some(te), ..v5 }),
            NextStep::E(_, _) => true,
        },
        NextStep::E(_, _) => true,
    }))
    &&& (mul_stmt_hyp(v) ==> mul_expr_state(v, v1))
}

/// The next tokens are a simple operand, an additive operator, a right
/// operand tail, and a statement end.
pub open spec fn add_expr_hyp(v0: ParserView) -> bool {
    match vnext(v0) {
        NextStep::T(t1, v2) => operand_kind(t1.kind) && (t1.kind
            matches TokenKindView::Identifier(name) ==> name != seq!['i', 'f']) && match vnext(
            v2,
        ) {
            NextStep::T(top, v3) => (top.kind == TokenKindView::Symbol(Symbol::Add) || top.kind
                == TokenKindView::Symbol(Symbol::Sub)) && term_tail_hyp(v3),
            NextStep::E(_, _) => false,
        },
        NextStep::E(_, _) => false,
    }
}

/// Under the additive hypothesis, `nd` is exactly the addition or
/// subtraction of the two operands, spanning from the first to the second.
pub open spec fn add_expr_result(v0: ParserView, nd: Node) -> bool {
    match vnext(v0) {
        NextStep::T(t1, v2) => operand_kind(t1.kind) ==> match vnext(v2) {
            NextStep::T(top, v3) => (top.kind == TokenKindView::Symbol(Symbol::Add) || top.kind
                == TokenKindView::Symbol(Symbol::Sub)) ==> (nd.kind matches NodeKind::BinaryOp(
                l,
                r,
                op,
            ) && op == (if top.kind == TokenKindView::Symbol(Symbol::Add) {
                BinOp::Add
            } else {
                BinOp::Sub
            }) && operand_node(t1.kind, *l) && l.range == t1.range && term_tail_result(v3, *r)
                && nd.range.start == t1.range.start && nd.range.end == r.range.end),
            NextStep::E(_, _) => true,
        },
        NextStep::E(_, _) => true,
    }
}

/// Under the additive hypothesis, `v1` is the state just past the second
/// operand, with the statement-ending token pushed back.
pub open spec fn add_expr_state(v0: ParserView, v1: ParserView) -> bool {
    match vnext(v0) {
        NextStep::T(t1, v2) => operand_kind(t1.kind) ==> match vnext(v2) {
            NextStep::T(top, v3) => (top.kind == TokenKindView::Symbol(Symbol::Add) || top.kind
                == TokenKindView::Symbol(Symbol::Sub)) ==> term_tail_state(v3, v1),
            NextStep::E(_, _) => true,
        },
        NextStep::E(_, _) => true,
    }
}

/// A statement of one additive operation of two simple operands parses to
/// exactly that node, with the statement-ending token pushed back.
pub open spec fn add_expr_post(
    v0: ParserView,
    r: Result<Node, ParseError>,
    v1: ParserView,
) -> bool {
    add_expr_hyp(v0) ==> (r matches Ok(nd) && add_expr_result(v0, nd) && add_expr_state(v0, v1))
}

/// An assignment's right side of a pinned shape: a lone literal, a bare
/// variable, or one additive or multiplicative operation of two simple
/// operands, ending the statement.
pub open spec fn rhs_stmt_hyp(v: ParserView) -> bool {
    lone_literal_hyp(v) || lone_variable_hyp(v) || add_expr_hyp(v) || mul_stmt_hyp(v)
}

/// Under the right-side hypothesis, `nd` is exactly the right side's node.
pub open spec fn rhs_stmt_result(v: ParserView, nd: Node) -> bool {
    &&& (lone_literal_hyp(v) ==> lone_literal_result(v, nd))
    &&& (lone_variable_hyp(v) ==> lone_variable_result(v, nd))
    &&& (add_expr_hyp(v) ==> add_expr_result(v, nd))
    &&& (mul_stmt_hyp(v) ==> mul_expr_result(v, nd))
}

/// Under the right-side hypothesis, `v1` is the state just past the right
/// side, with the statement-ending token pushed back.
pub open spec fn rhs_stmt_state(v: ParserView, v1: ParserView) -> bool {
    &&& (lone_literal_hyp(v) ==> lone_literal_state(v, v1))
    &&& (lone_variable_hyp(v) ==> lone_variable_state(v, v1))
    &&& (add_expr_hyp(v) ==> add_expr_state(v, v1))
    &&& (mul_stmt_hyp(v) ==> mul_expr_state(v, v1))
}

/// The next tokens are a bare identifier, a plain assignment symbol, and a
/// right side of a pinned shape: `x = <right side>` as a whole statement.
pub open spec fn assign_stmt_hyp(v0: ParserView) -> bool {
    match vnext(v0) {
        NextStep::T(t, v2) => (t.kind matches TokenKindView::Identifier(name) && name != seq![
            'i',
            'f',
        ]) && match vnext(v2) {
            NextStep::T(teq, v3) => teq.kind == TokenKindView::Symbol(Symbol::Assign)
                && rhs_stmt_hyp(v3),
            NextStep::E(_, _) => false,
        },
        NextStep::E(_, _) => false,
    }
}

/// Under the assignment hypothesis, `nd` is exactly the assignment of the
/// right side to the bare variable, spanning variable to right side.
pub open spec fn assign_stmt_result(v0: ParserView, nd: Node) -> bool {
    match vnext(v0) {
        NextStep::T(t, v2) => t.kind matches TokenKindView::Identifier(_) ==> match vnext(v2) {
            NextStep::T(teq, v3) => teq.kind == TokenKindView::Symbol(Symbol::Assign) ==> (nd.kind
                matches NodeKind::BinaryOp(l, r, op) && op == BinOp::Assign && variable_node(
                t.kind,
                *l,
            ) && l.range == t.range && rhs_stmt_result(v3, *r) && nd.range.start == t.range.start
                && nd.range.end == r.range.end),
            NextStep::E(_, _) => true,
        },
        NextStep::E(_, _) => true,
    }
}

/// Under the assignment hypothesis, `v1` is the state just past the
/// literal, with the statement-ending token pushed back.
pub open spec fn assign_stmt_state(v0: ParserView, v1: ParserView) -> bool {
    match vnext(v0) {
        NextStep::T(t, v2) => t.kind matches TokenKindView::Identifier(_) ==> match vnext(v2) {
            NextStep::T(teq, v3) => teq.kind == TokenKindView::Symbol(Symbol::Assign)
                ==> rhs_stmt_state(v3, v1),
            NextStep::E(_, _) => true,
        },
        NextStep::E(_, _) => true,
    }
}

/// An assignment of a lone literal to a bare variable parses to exactly
/// that assignment node, with the statement-ending token pushed back.
pub open spec fn assign_stmt_post(
    v0: ParserView,
    r: Result<Node, ParseError>,
    v1: ParserView,
) -> bool {
    assign_stmt_hyp(v0) ==> (r matches Ok(nd) && assign_stmt_result(v0, nd) && assign_stmt_state(
        v0,
        v1,
    ))
}



/// The compound assignment symbol for each binary operation it desugars
/// with.
pub open spec fn compound_sym_of(op: BinOp) -> Symbol {
    match op {
        BinOp::Add => Symbol::AssignAdd,
        BinOp::Sub => Symbol::AssignSub,
        BinOp::Mul => Symbol::AssignMul,
        BinOp::Div => Symbol::AssignDiv,
        BinOp::Rem => Symbol::AssignMod,
        BinOp::Shl => Symbol::AssignShl,
        BinOp::Shr => Symbol::AssignShr,
        BinOp::And => Symbol::AssignAnd,
        BinOp::Or => Symbol::AssignOr,
        BinOp::Xor => Symbol::AssignXor,
        _ => Symbol::Hash,
    }
}

/// A symbol that is some compound assignment operator.
pub open spec fn is_compound_sym(sym: Symbol) -> bool {
    ||| sym == Symbol::AssignAdd
    ||| sym == Symbol::AssignSub
    ||| sym == Symbol::AssignMul
    ||| sym == Symbol::AssignDiv
    ||| sym == Symbol::AssignMod
    ||| sym == Symbol::AssignShl
    ||| sym == Symbol::AssignShr
    ||| sym == Symbol::AssignAnd
    ||| sym == Symbol::AssignOr
    ||| sym == Symbol::AssignXor
}

/// The next tokens are a bare identifier, a compound assignment symbol, and
/// a right side of a pinned shape: `x OP= <right side>` as a statement.
pub open spec fn compound_stmt_hyp(v0: ParserView) -> bool {
    match vnext(v0) {
        NextStep::T(t, v2) => (t.kind matches TokenKindView::Identifier(name) && name != seq![
            'i',
            'f',
        ]) && match vnext(v2) {
            NextStep::T(top, v3) => (top.kind matches TokenKindView::Symbol(sym)
                && is_compound_sym(sym)) && rhs_stmt_hyp(v3),
            NextStep::E(_, _) => false,
        },
        NextStep::E(_, _) => false,
    }
}

/// Under the compound hypothesis, `nd` is exactly the desugared assignment
/// `x = x OP rhs`: both variable nodes carry the identifier's name and
/// range, and both the whole node and the inner operation span variable to
/// right side.
pub open spec fn compound_stmt_result(v0: ParserView, nd: Node) -> bool {
    match vnext(v0) {
        NextStep::T(t, v2) => t.kind matches TokenKindView::Identifier(_) ==> match vnext(v2) {
            NextStep::T(top, v3) => top.kind matches TokenKindView::Symbol(sym)
                ==> is_compound_sym(sym) ==> (nd.kind matches NodeKind::BinaryOp(l, inner, op0)
                && op0 == BinOp::Assign && variable_node(t.kind, *l) && l.range == t.range
                && (inner.kind matches NodeKind::BinaryOp(l2, r, op) && compound_sym_of(op)
                == sym && variable_node(t.kind, *l2) && l2.range == t.range && rhs_stmt_result(
                v3,
                *r,
            )
                && inner.range.start == t.range.start && inner.range.end == r.range.end)
                && nd.range == inner.range),
            NextStep::E(_, _) => true,
        },
        NextStep::E(_, _) => true,
    }
}

/// Under the compound hypothesis, `v1` is the state just past the right
/// side, with the statement-ending token pushed back.
pub open spec fn compound_stmt_state(v0: ParserView, v1: ParserView) -> bool {
    match vnext(v0) {
        NextStep::T(t, v2) => t.kind matches TokenKindView::Identifier(_) ==> match vnext(v2) {
            NextStep::T(top, v3) => top.kind matches TokenKindView::Symbol(sym)
                ==> is_compound_sym(sym) ==> rhs_stmt_state(v3, v1),
            NextStep::E(_, _) => true,
        },
        NextStep::E(_, _) => true,
    }
}

/// A compound assignment statement desugars to exactly `x = x OP rhs`.
pub open spec fn compound_stmt_post(
    v0: ParserView,
    r: Result<Node, ParseError>,
    v1: ParserView,
) -> bool {
    compound_stmt_hyp(v0) ==> (r matches Ok(nd) && compound_stmt_result(v0, nd)
        && compound_stmt_state(v0, v1))
}

/// Everything one successful `get_node` call guarantees of the statement
/// node it returns and the state it leaves: taken together, these clauses
/// are the specification of which node a statement parses to.
pub open spec fn stmt_step(v0: ParserView, n: Node, v1: ParserView) -> bool {
    &&& v1.chars == v0.chars
    &&& pmeasure(v1) < pmeasure(v0)
    &&& wf_node(n)
    &&& !at_end(v0)
    &&& (lone_literal_hyp(nl_skip(v0)) ==> lone_literal_result(nl_skip(v0), n)
        && lone_literal_state(nl_skip(v0), v1))
    &&& (lone_variable_hyp(nl_skip(v0)) ==> lone_variable_result(nl_skip(v0), n)
        && lone_variable_state(nl_skip(v0), v1))
    &&& (assign_stmt_hyp(nl_skip(v0)) ==> assign_stmt_result(nl_skip(v0), n) && assign_stmt_state(
        nl_skip(v0),
        v1,
    ))
    &&& (add_expr_hyp(nl_skip(v0)) ==> add_expr_result(nl_skip(v0), n) && add_expr_state(
        nl_skip(v0),
        v1,
    ))
    &&& (mul_stmt_hyp(nl_skip(v0)) ==> mul_expr_result(nl_skip(v0), n) && mul_expr_state(
        nl_skip(v0),
        v1,
    ))
    &&& (compound_stmt_hyp(nl_skip(v0)) ==> compound_stmt_result(nl_skip(v0), n)
        && compound_stmt_state(nl_skip(v0), v1))
}

/// A parenthesized lone literal: the parentheses group, vanish from the
/// AST, and a missing closing parenthesis is reported with the opening
/// parenthesis's span.
pub open spec fn paren_literal_post(
    v0: ParserView,
    r: Result<Node, ParseError>,
    v1: ParserView,
) -> bool {
    match vnext(v0) {
        NextStep::T(t, v2) => t.kind == TokenKindView::Symbol(Symbol::OpeningParen)
            ==> match vnext(v2) {
            NextStep::T(tl, v3) => is_literal(tl.kind) ==> match vnext(v3) {
                NextStep::T(tr, v4) => {
                    &&& (tr.kind == TokenKindView::Symbol(Symbol::ClosingParen) ==> (r
                        matches Ok(nd) && literal_node(tl.kind, nd) && nd.range == tl.range && v1
                        == v4))
                    &&& (ends_statement(tr.kind) && tr.kind != TokenKindView::Symbol(
                        Symbol::ClosingParen,
                    ) ==> (r matches Err(e) && (e matches ParseError::UnmatchedParen(sp) && sp
                        == t.range) && v1 == (ParserView { buf: Some(tr), ..v4 })))
                },
                NextStep::E(_, _) => true,
            },
            NextStep::E(_, _) => true,
        },
        NextStep::E(_, _) => true,
    }
}

/// Precedence-climbing recursive-descent parser with one token of pushback.
pub struct Parser {
    lexer: Lexer,
    buffer: Option<Token>,
}

impl View for Parser {
    type V = ParserView;

    closed spec fn view(&self) -> ParserView {
        ParserView {
            chars: self.lexer@.chars,
            pos: self.lexer@.pos,
            buf: match self.buffer {
                Some(t) => Some(t@),
                None => None,
            },
        }
    }
}

impl Parser {
    pub closed spec fn wf(&self) -> bool {
        &&& self.lexer.wf()
        &&& match self.buffer {
            Some(t) => t.range.start <= t.range.end && t.range.end <= self.lexer@.pos,
            None => true,
        }
    }

    pub proof fn lemma_wf(&self)
        requires
            self.wf(),
        ensures
            0 <= self@.pos <= self@.chars.len(),
            self@.chars.len() <= usize::MAX,
            self@.buf matches Some(t) ==> t.range.start <= t.range.end && t.range.end as int
                <= self@.pos,
    {
        self.lexer.lemma_wf();
    }

    pub fn new(lexer: Lexer) -> (p: Parser)
        requires
            lexer.wf(),
        ensures
            p.wf(),
            p@.chars == lexer@.chars,
            p@.pos == lexer@.pos,
            p@.buf is None,
    {
        Parser { lexer, buffer: None }
    }

    /// Takes the next token, from the pushback buffer or the tokenizer.
    fn next_token(&mut self) -> (r: Result<Token, LexError>)
        requires
            old(self).wf(),
        ensures
            final(self).wf(),
            match vnext(old(self)@) {
                NextStep::T(t, v2) => r matches Ok(tok) && tok@ == t && final(self)@ == v2
                    && effpos(old(self)@) <= t.range.start as int && t.range.start <= t.range.end
                    && t.range.end as int <= effpos(v2),
                NextStep::E(e, v2) => r == Err::<Token, LexError>(e) && final(self)@ == v2,
            },
    {
        proof {
            self.lemma_wf();
            lemma_vnext(self@);
        }
        match self.buffer.take() {
            Some(tok) => Ok(tok),
            None => self.lexer.read_token(),
        }
    }

    /// Pushes one token back; the next take returns it again.
    fn unget(&mut self, tok: Token)
        requires
            old(self).wf(),
            old(self)@.buf is None,
            tok@.range.start <= tok@.range.end,
            tok@.range.end as int <= old(self)@.pos,
        ensures
            final(self).wf(),
            final(self)@ == (ParserView { buf: Some(tok@), ..old(self)@ }),
    {
        self.buffer = Some(tok);
    }

    /// Consumes the next token exactly when it is the given symbol; any
    /// other token is pushed back.
    fn skip_symbol(&mut self, sym: Symbol) -> (r: Result<bool, LexError>)
        requires
            old(self).wf(),
        ensures
            final(self).wf(),
            match vnext(old(self)@) {
                NextStep::T(t, v2) => if t.kind == TokenKindView::Symbol(sym) {
                    r == Ok::<bool, LexError>(true) && final(self)@ == v2
                } else {
                    r == Ok::<bool, LexError>(false) && final(self)@ == (ParserView {
                        buf: Some(t),
                        ..v2
                    })
                },
                NextStep::E(e, v2) => r == Err::<bool, LexError>(e) && final(self)@ == v2,
            },
    {
        match self.next_token() {
            Err(e) => Err(e),
            Ok(tok) => {
                let matched = match &tok.kind {
                    TokenKind::Symbol(s) => *s == sym,
                    _ => false,
                };
                if matched {
                    Ok(true)
                } else {
                    self.unget(tok);
                    Ok(false)
                }
            },
        }
    }

    /// Returns the next top-level expression-statement node.  Newlines
    /// between statements are skipped; a clean end of the input yields
    /// `EndOfInput`, which is distinct from every mid-expression failure.
    pub fn get_node(&mut self) -> (r: Result<Node, ParseError>)
        requires
            old(self).wf(),
        ensures
            final(self).wf(),
            final(self)@.chars == old(self)@.chars,
            pmeasure(final(self)@) <= pmeasure(old(self)@),
            r matches Ok(n) ==> pmeasure(final(self)@) < pmeasure(old(self)@) && wf_node(n),
            (r == Err::<Node, ParseError>(ParseError::EndOfInput)) <==> at_end(old(self)@),
            r matches Ok(n) ==> stmt_step(old(self)@, n, final(self)@),
            r == Err::<Node, ParseError>(ParseError::EndOfInput) ==> at_end(final(self)@),
            lone_literal_post(nl_skip(old(self)@), r, final(self)@),
            lone_variable_post(nl_skip(old(self)@), r, final(self)@),
            assign_stmt_post(nl_skip(old(self)@), r, final(self)@),
            add_expr_post(nl_skip(old(self)@), r, final(self)@),
            mul_stmt_post(nl_skip(old(self)@), r, final(self)@),
            compound_stmt_post(nl_skip(old(self)@), r, final(self)@),
            effpos(old(self)@) <= effpos(final(self)@),
            r matches Ok(n) ==> effpos(old(self)@) <= n.range.start as int && n.range.start
                <= n.range.end && n.range.end as int <= effpos(final(self)@),
    {
        loop
            invariant
                self.wf(),
                self@.chars == old(self)@.chars,
                pmeasure(self@) <= pmeasure(old(self)@),
                at_end(self@) == at_end(old(self)@),
                nl_skip(old(self)@) == nl_skip(self@),
                effpos(old(self)@) <= effpos(self@),
            decreases pmeasure(self@),
        {
            let ghost v0 = self@;
            proof {
                self.lemma_wf();
                lemma_vnext(v0);
            }
            match self.next_token() {
                Err(err) => {
                    match err {
                        LexError::UnexpectedEndOfInput(_) => {
                            proof {
                                assert(at_end(v0));
                                lemma_spec_token_eoi(v0.chars, v0.pos);
                                assert(at_end(self@));
                            }
                            return Err(ParseError::EndOfInput);
                        },
                        LexError::UnterminatedString(_) => {
                            proof {
                                assert(!at_end(v0));
                            }
                            return Err(ParseError::Lex(err));
                        },
                    }
                },
                Ok(tok) => {
                    let is_newline = matches!(&tok.kind, TokenKind::Newline);
                    if is_newline {
                        proof {
                            assert(at_end(v0) == at_end(self@));
                            assert(nl_skip(v0) == nl_skip(self@));
                        }
                    } else {
                        proof {
                            assert(!at_end(v0));
                        }
                        let is_if = match &tok.kind {
                            TokenKind::Identifier(name) => name.as_str().unicode_len() == 2
                                && name.as_str().get_char(0) == 'i' && name.as_str().get_char(1)
                                == 'f',
                            _ => false,
                        };
                        if is_if {
                            proof {
                                if let TokenKind::Identifier(name) = &tok.kind {
                                    assert(name@ =~= seq!['i', 'f']);
                                }
                            }
                            // the conditional statement is a future extension
                            return Err(ParseError::UnexpectedToken(Expected::Statement, tok));
                        }
                        proof {
                            assert(nl_skip(v0) == v0);
                        }
                        self.unget(tok);
                        return self.read_expr();
                    }
                },
            }
        }
    }

    /// Reads one full expression.
    pub fn read_expr(&mut self) -> (r: Result<Node, ParseError>)
        requires
            old(self).wf(),
        ensures
            final(self).wf(),
            final(self)@.chars == old(self)@.chars,
            pmeasure(final(self)@) <= pmeasure(old(self)@),
            r matches Ok(n) ==> pmeasure(final(self)@) < pmeasure(old(self)@) && wf_node(n),
            r matches Err(e) ==> !(e is EndOfInput),
            lone_literal_post(old(self)@, r, final(self)@),
            lone_variable_post(old(self)@, r, final(self)@),
            add_expr_post(old(self)@, r, final(self)@),
            mul_stmt_post(old(self)@, r, final(self)@),
            compound_stmt_post(old(self)@, r, final(self)@),
            assign_stmt_post(old(self)@, r, final(self)@),
            effpos(old(self)@) <= effpos(final(self)@),
            r matches Ok(n) ==> effpos(old(self)@) <= n.range.start as int && n.range.start
                <= n.range.end && n.range.end as int <= effpos(final(self)@),
        decreases pmeasure(self@), 14int,
    {
        self.read_assign()
    }

    /// Assignment level: right-associative, with compound forms desugaring
    /// `x OP= rhs` into `x = x OP rhs`.  A tokenizer failure here means the
    /// statement ended.
    pub fn read_assign(&mut self) -> (r: Result<Node, ParseError>)
        requires
            old(self).wf(),
        ensures
            final(self).wf(),
            final(self)@.chars == old(self)@.chars,
            pmeasure(final(self)@) <= pmeasure(old(self)@),
            r matches Ok(n) ==> pmeasure(final(self)@) < pmeasure(old(self)@) && wf_node(n),
            r matches Err(e) ==> !(e is EndOfInput),
            lone_literal_post(old(self)@, r, final(self)@),
            lone_variable_post(old(self)@, r, final(self)@),
            add_expr_post(old(self)@, r, final(self)@),
            mul_stmt_post(old(self)@, r, final(self)@),
            compound_stmt_post(old(self)@, r, final(self)@),
            assign_stmt_post(old(self)@, r, final(self)@),
            effpos(old(self)@) <= effpos(final(self)@),
            r matches Ok(n) ==> effpos(old(self)@) <= n.range.start as int && n.range.start
                <= n.range.end && n.range.end as int <= effpos(final(self)@),
        decreases pmeasure(self@), 13int,
    {
        let mut lhs = match self.read_lor() {
            Err(e) => return Err(e),
            Ok(n) => n,
        };
        loop
            invariant
                self.wf(),
                self@.chars == old(self)@.chars,
                pmeasure(self@) < pmeasure(old(self)@),
                wf_node(lhs),
                effpos(old(self)@) <= lhs.range.start as int,
                lhs.range.start <= lhs.range.end,
                lhs.range.end as int <= effpos(self@),
                lone_literal_hyp(old(self)@) ==> (lone_literal_result(old(self)@, lhs)
                    && lone_literal_state(old(self)@, self@)),
                lone_variable_hyp(old(self)@) ==> (lone_variable_result(old(self)@, lhs)
                    && lone_variable_state(old(self)@, self@)),
                add_expr_hyp(old(self)@) ==> (add_expr_result(old(self)@, lhs) && add_expr_state(
                    old(self)@,
                    self@,
                )),
                mul_stmt_hyp(old(self)@) ==> (mul_expr_result(old(self)@, lhs) && mul_expr_state(
                    old(self)@,
                    self@,
                )),
                assign_stmt_hyp(old(self)@) ==> ((lone_variable_result(old(self)@, lhs)
                    && lone_variable_state(old(self)@, self@)) || (assign_stmt_result(
                    old(self)@,
                    lhs,
                ) && assign_stmt_state(old(self)@, self@))),
                compound_stmt_hyp(old(self)@) ==> ((lone_variable_result(old(self)@, lhs)
                    && lone_variable_state(old(self)@, self@)) || (compound_stmt_result(
                    old(self)@,
                    lhs,
                ) && compound_stmt_state(old(self)@, self@))),
            ensures
                self.wf(),
                self@.chars == old(self)@.chars,
                pmeasure(self@) < pmeasure(old(self)@),
                wf_node(lhs),
                effpos(old(self)@) <= lhs.range.start as int,
                lhs.range.start <= lhs.range.end,
                lhs.range.end as int <= effpos(self@),
                lone_literal_hyp(old(self)@) ==> (lone_literal_result(old(self)@, lhs)
                    && lone_literal_state(old(self)@, self@)),
                lone_variable_hyp(old(self)@) ==> (lone_variable_result(old(self)@, lhs)
                    && lone_variable_state(old(self)@, self@)),
                add_expr_hyp(old(self)@) ==> (add_expr_result(old(self)@, lhs) && add_expr_state(
                    old(self)@,
                    self@,
                )),
                mul_stmt_hyp(old(self)@) ==> (mul_expr_result(old(self)@, lhs) && mul_expr_state(
                    old(self)@,
                    self@,
                )),
                assign_stmt_hyp(old(self)@) ==> (assign_stmt_result(old(self)@, lhs)
                    && assign_stmt_state(old(self)@, self@)),
                compound_stmt_hyp(old(self)@) ==> (compound_stmt_result(old(self)@, lhs)
                    && compound_stmt_state(old(self)@, self@)),
            decreases pmeasure(self@),
        {
            let ghost v0 = self@;
            proof {
                self.lemma_wf();
                lemma_vnext(v0);
            }
            match self.next_token() {
                Err(_) => {
                    // no more tokens: the statement ends here
                    break ;
                },
                Ok(tok) => {
                    let sym_opt = match &tok.kind {
                        TokenKind::Symbol(s) => Some(*s),
                        _ => None,
                    };
                    match sym_opt {
                        None => {
                            self.unget(tok);
                            break ;
                        },
                        Some(sym) => {
                            if sym == Symbol::Assign {
                                let rhs = match self.read_assign() {
                                    Err(e) => return Err(e),
                                    Ok(n) => n,
                                };
                                let sp = Span::new(lhs.range.start, rhs.range.end);
                                lhs = Node::new(
                                    NodeKind::BinaryOp(Box::new(lhs), Box::new(rhs), BinOp::Assign),
                                    sp,
                                );
                                proof {
                                    assert(wf_node(lhs));
                                }
                            } else {
                                match compound_op(sym) {
                                    Some(op) => {
                                        let rhs = match self.read_assign() {
                                            Err(e) => return Err(e),
                                            Ok(n) => n,
                                        };
                                        let dup = duplicate_node(&lhs);
                                        proof {
                                            lemma_node_eq_wf(dup, lhs);
                                            assert(node_eq(dup, lhs));
                                            assert(dup.range == lhs.range);
                                            if compound_stmt_hyp(old(self)@) {
                                                assert(match (dup.kind, lhs.kind) {
                                                    (
                                                        NodeKind::Variable(n1, t1),
                                                        NodeKind::Variable(n2, t2),
                                                    ) => n1@ == n2@ && t1 == t2,
                                                    _ => true,
                                                });
                                            }
                                        }
                                        let sp = Span::new(lhs.range.start, rhs.range.end);
                                        let inner = Node::new(
                                            NodeKind::BinaryOp(Box::new(dup), Box::new(rhs), op),
                                            sp,
                                        );
                                        proof {
                                            assert(wf_node(inner));
                                        }
                                        lhs = Node::new(
                                            NodeKind::BinaryOp(
                                                Box::new(lhs),
                                                Box::new(inner),
                                                BinOp::Assign,
                                            ),
                                            sp,
                                        );
                                        proof {
                                            assert(wf_node(lhs));
                                        }
                                    },
                                    None => {
                                        self.unget(tok);
                                        break ;
                                    },
                                }
                            }
                        },
                    }
                },
            }
        }
        Ok(lhs)
    }
}

impl Parser {

    /// Logical-or level, left-associative.
    fn read_lor(&mut self) -> (r: Result<Node, ParseError>)
        requires
            old(self).wf(),
        ensures
            final(self).wf(),
            final(self)@.chars == old(self)@.chars,
            pmeasure(final(self)@) <= pmeasure(old(self)@),
            r matches Ok(n) ==> pmeasure(final(self)@) < pmeasure(old(self)@) && wf_node(n),
            r matches Err(e) ==> !(e is EndOfInput),
            lit_operand_post(old(self)@, r, final(self)@),
            var_operand_post(old(self)@, r, final(self)@),
            add_expr_post(old(self)@, r, final(self)@),
            mul_stmt_post(old(self)@, r, final(self)@),
            effpos(old(self)@) <= effpos(final(self)@),
            r matches Ok(n) ==> effpos(old(self)@) <= n.range.start as int && n.range.start
                <= n.range.end && n.range.end as int <= effpos(final(self)@),
        decreases pmeasure(self@), 12int,
    {
        let mut lhs = match self.read_land() {
            Err(e) => return Err(e),
            Ok(n) => n,
        };
        loop
            invariant
                self.wf(),
                self@.chars == old(self)@.chars,
                pmeasure(self@) < pmeasure(old(self)@),
                wf_node(lhs),
                effpos(old(self)@) <= lhs.range.start as int,
                lhs.range.start <= lhs.range.end,
                lhs.range.end as int <= effpos(self@),
                lit_operand_hyp(old(self)@) ==> (lone_literal_result(old(self)@, lhs)
                    && lone_literal_state(old(self)@, self@)),
                var_operand_hyp(old(self)@) ==> (lone_variable_result(old(self)@, lhs)
                    && lone_variable_state(old(self)@, self@)),
                add_expr_hyp(old(self)@) ==> (add_expr_result(old(self)@, lhs)
                    && add_expr_state(old(self)@, self@)),
                mul_stmt_hyp(old(self)@) ==> (mul_expr_result(old(self)@, lhs)
                    && mul_expr_state(old(self)@, self@)),
            decreases pmeasure(self@),
        {
            proof {
                self.lemma_wf();
                lemma_vnext(self@);
            }
            match self.skip_symbol(Symbol::LOr) {
                Err(e) => return Err(ParseError::Lex(e)),
                Ok(true) => {
                    let rhs = match self.read_land() {
                        Err(e) => return Err(e),
                        Ok(n) => n,
                    };
                    let sp = Span::new(lhs.range.start, rhs.range.end);
                    lhs = Node::new(
                        NodeKind::BinaryOp(Box::new(lhs), Box::new(rhs), BinOp::LOr),
                        sp,
                    );
                },
                Ok(false) => {
                    break ;
                },
            }
        }
        Ok(lhs)
    }

    /// Logical-and level, left-associative.
    fn read_land(&mut self) -> (r: Result<Node, ParseError>)
        requires
            old(self).wf(),
        ensures
            final(self).wf(),
            final(self)@.chars == old(self)@.chars,
            pmeasure(final(self)@) <= pmeasure(old(self)@),
            r matches Ok(n) ==> pmeasure(final(self)@) < pmeasure(old(self)@) && wf_node(n),
            r matches Err(e) ==> !(e is EndOfInput),
            lit_operand_post(old(self)@, r, final(self)@),
            var_operand_post(old(self)@, r, final(self)@),
            add_expr_post(old(self)@, r, final(self)@),
            mul_stmt_post(old(self)@, r, final(self)@),
            effpos(old(self)@) <= effpos(final(self)@),
            r matches Ok(n) ==> effpos(old(self)@) <= n.range.start as int && n.range.start
                <= n.range.end && n.range.end as int <= effpos(final(self)@),
        decreases pmeasure(self@), 11int,
    {
        let mut lhs = match self.read_or() {
            Err(e) => return Err(e),
            Ok(n) => n,
        };
        loop
            invariant
                self.wf(),
                self@.chars == old(self)@.chars,
                pmeasure(self@) < pmeasure(old(self)@),
                wf_node(lhs),
                effpos(old(self)@) <= lhs.range.start as int,
                lhs.range.start <= lhs.range.end,
                lhs.range.end as int <= effpos(self@),
                lit_operand_hyp(old(self)@) ==> (lone_literal_result(old(self)@, lhs)
                    && lone_literal_state(old(self)@, self@)),
                var_operand_hyp(old(self)@) ==> (lone_variable_result(old(self)@, lhs)
                    && lone_variable_state(old(self)@, self@)),
                add_expr_hyp(old(self)@) ==> (add_expr_result(old(self)@, lhs)
                    && add_expr_state(old(self)@, self@)),
                mul_stmt_hyp(old(self)@) ==> (mul_expr_result(old(self)@, lhs)
                    && mul_expr_state(old(self)@, self@)),
            decreases pmeasure(self@),
        {
            proof {
                self.lemma_wf();
                lemma_vnext(self@);
            }
            match self.skip_symbol(Symbol::LAnd) {
                Err(e) => return Err(ParseError::Lex(e)),
                Ok(true) => {
                    let rhs = match self.read_or() {
                        Err(e) => return Err(e),
                        Ok(n) => n,
                    };
                    let sp = Span::new(lhs.range.start, rhs.range.end);
                    lhs = Node::new(
                        NodeKind::BinaryOp(Box::new(lhs), Box::new(rhs), BinOp::LAnd),
                        sp,
                    );
                },
                Ok(false) => {
                    break ;
                },
            }
        }
        Ok(lhs)
    }

    /// Bitwise-or level, left-associative.
    fn read_or(&mut self) -> (r: Result<Node, ParseError>)
        requires
            old(self).wf(),
        ensures
            final(self).wf(),
            final(self)@.chars == old(self)@.chars,
            pmeasure(final(self)@) <= pmeasure(old(self)@),
            r matches Ok(n) ==> pmeasure(final(self)@) < pmeasure(old(self)@) && wf_node(n),
            r matches Err(e) ==> !(e is EndOfInput),
            lit_operand_post(old(self)@, r, final(self)@),
            var_operand_post(old(self)@, r, final(self)@),
            add_expr_post(old(self)@, r, final(self)@),
            mul_stmt_post(old(self)@, r, final(self)@),
            effpos(old(self)@) <= effpos(final(self)@),
            r matches Ok(n) ==> effpos(old(self)@) <= n.range.start as int && n.range.start
                <= n.range.end && n.range.end as int <= effpos(final(self)@),
        decreases pmeasure(self@), 10int,
    {
        let mut lhs = match self.read_xor() {
            Err(e) => return Err(e),
            Ok(n) => n,
        };
        loop
            invariant
                self.wf(),
                self@.chars == old(self)@.chars,
                pmeasure(self@) < pmeasure(old(self)@),
                wf_node(lhs),
                effpos(old(self)@) <= lhs.range.start as int,
                lhs.range.start <= lhs.range.end,
                lhs.range.end as int <= effpos(self@),
                lit_operand_hyp(old(self)@) ==> (lone_literal_result(old(self)@, lhs)
                    && lone_literal_state(old(self)@, self@)),
                var_operand_hyp(old(self)@) ==> (lone_variable_result(old(self)@, lhs)
                    && lone_variable_state(old(self)@, self@)),
                add_expr_hyp(old(self)@) ==> (add_expr_result(old(self)@, lhs)
                    && add_expr_state(old(self)@, self@)),
                mul_stmt_hyp(old(self)@) ==> (mul_expr_result(old(self)@, lhs)
                    && mul_expr_state(old(self)@, self@)),
            decreases pmeasure(self@),
        {
            proof {
                self.lemma_wf();
                lemma_vnext(self@);
            }
            match self.skip_symbol(Symbol::Or) {
                Err(e) => return Err(ParseError::Lex(e)),
                Ok(true) => {
                    let rhs = match self.read_xor() {
                        Err(e) => return Err(e),
                        Ok(n) => n,
                    };
                    let sp = Span::new(lhs.range.start, rhs.range.end);
                    lhs = Node::new(
                        NodeKind::BinaryOp(Box::new(lhs), Box::new(rhs), BinOp::Or),
                        sp,
                    );
                },
                Ok(false) => {
                    break ;
                },
            }
        }
        Ok(lhs)
    }

    /// Bitwise-xor level, left-associative.
    fn read_xor(&mut self) -> (r: Result<Node, ParseError>)
        requires
            old(self).wf(),
        ensures
            final(self).wf(),
            final(self)@.chars == old(self)@.chars,
            pmeasure(final(self)@) <= pmeasure(old(self)@),
            r matches Ok(n) ==> pmeasure(final(self)@) < pmeasure(old(self)@) && wf_node(n),
            r matches Err(e) ==> !(e is EndOfInput),
            lit_operand_post(old(self)@, r, final(self)@),
            var_operand_post(old(self)@, r, final(self)@),
            add_expr_post(old(self)@, r, final(self)@),
            mul_stmt_post(old(self)@, r, final(self)@),
            effpos(old(self)@) <= effpos(final(self)@),
            r matches Ok(n) ==> effpos(old(self)@) <= n.range.start as int && n.range.start
                <= n.range.end && n.range.end as int <= effpos(final(self)@),
        decreases pmeasure(self@), 9int,
    {
        let mut lhs = match self.read_and() {
            Err(e) => return Err(e),
            Ok(n) => n,
        };
        loop
            invariant
                self.wf(),
                self@.chars == old(self)@.chars,
                pmeasure(self@) < pmeasure(old(self)@),
                wf_node(lhs),
                effpos(old(self)@) <= lhs.range.start as int,
                lhs.range.start <= lhs.range.end,
                lhs.range.end as int <= effpos(self@),
                lit_operand_hyp(old(self)@) ==> (lone_literal_result(old(self)@, lhs)
                    && lone_literal_state(old(self)@, self@)),
                var_operand_hyp(old(self)@) ==> (lone_variable_result(old(self)@, lhs)
                    && lone_variable_state(old(self)@, self@)),
                add_expr_hyp(old(self)@) ==> (add_expr_result(old(self)@, lhs)
                    && add_expr_state(old(self)@, self@)),
                mul_stmt_hyp(old(self)@) ==> (mul_expr_result(old(self)@, lhs)
                    && mul_expr_state(old(self)@, self@)),
            decreases pmeasure(self@),
        {
            proof {
                self.lemma_wf();
                lemma_vnext(self@);
            }
            match self.skip_symbol(Symbol::Xor) {
                Err(e) => return Err(ParseError::Lex(e)),
                Ok(true) => {
                    let rhs = match self.read_and() {
                        Err(e) => return Err(e),
                        Ok(n) => n,
                    };
                    let sp = Span::new(lhs.range.start, rhs.range.end);
                    lhs = Node::new(
                        NodeKind::BinaryOp(Box::new(lhs), Box::new(rhs), BinOp::Xor),
                        sp,
                    );
                },
                Ok(false) => {
                    break ;
                },
            }
        }
        Ok(lhs)
    }

    /// Bitwise-and level, left-associative.
    fn read_and(&mut self) -> (r: Result<Node, ParseError>)
        requires
            old(self).wf(),
        ensures
            final(self).wf(),
            final(self)@.chars == old(self)@.chars,
            pmeasure(final(self)@) <= pmeasure(old(self)@),
            r matches Ok(n) ==> pmeasure(final(self)@) < pmeasure(old(self)@) && wf_node(n),
            r matches Err(e) ==> !(e is EndOfInput),
            lit_operand_post(old(self)@, r, final(self)@),
            var_operand_post(old(self)@, r, final(self)@),
            add_expr_post(old(self)@, r, final(self)@),
            mul_stmt_post(old(self)@, r, final(self)@),
            effpos(old(self)@) <= effpos(final(self)@),
            r matches Ok(n) ==> effpos(old(self)@) <= n.range.start as int && n.range.start
                <= n.range.end && n.range.end as int <= effpos(final(self)@),
        decreases pmeasure(self@), 8int,
    {
        let mut lhs = match self.read_eq_ne() {
            Err(e) => return Err(e),
            Ok(n) => n,
        };
        loop
            invariant
                self.wf(),
                self@.chars == old(self)@.chars,
                pmeasure(self@) < pmeasure(old(self)@),
                wf_node(lhs),
                effpos(old(self)@) <= lhs.range.start as int,
                lhs.range.start <= lhs.range.end,
                lhs.range.end as int <= effpos(self@),
                lit_operand_hyp(old(self)@) ==> (lone_literal_result(old(self)@, lhs)
                    && lone_literal_state(old(self)@, self@)),
                var_operand_hyp(old(self)@) ==> (lone_variable_result(old(self)@, lhs)
                    && lone_variable_state(old(self)@, self@)),
                add_expr_hyp(old(self)@) ==> (add_expr_result(old(self)@, lhs)
                    && add_expr_state(old(self)@, self@)),
                mul_stmt_hyp(old(self)@) ==> (mul_expr_result(old(self)@, lhs)
                    && mul_expr_state(old(self)@, self@)),
            decreases pmeasure(self@),
        {
            proof {
                self.lemma_wf();
                lemma_vnext(self@);
            }
            match self.skip_symbol(Symbol::And) {
                Err(e) => return Err(ParseError::Lex(e)),
                Ok(true) => {
                    let rhs = match self.read_eq_ne() {
                        Err(e) => return Err(e),
                        Ok(n) => n,
                    };
                    let sp = Span::new(lhs.range.start, rhs.range.end);
                    lhs = Node::new(
                        NodeKind::BinaryOp(Box::new(lhs), Box::new(rhs), BinOp::And),
                        sp,
                    );
                },
                Ok(false) => {
                    break ;
                },
            }
        }
        Ok(lhs)
    }

    /// Equality level, left-associative.
    fn read_eq_ne(&mut self) -> (r: Result<Node, ParseError>)
        requires
            old(self).wf(),
        ensures
            final(self).wf(),
            final(self)@.chars == old(self)@.chars,
            pmeasure(final(self)@) <= pmeasure(old(self)@),
            r matches Ok(n) ==> pmeasure(final(self)@) < pmeasure(old(self)@) && wf_node(n),
            r matches Err(e) ==> !(e is EndOfInput),
            lit_operand_post(old(self)@, r, final(self)@),
            var_operand_post(old(self)@, r, final(self)@),
            add_expr_post(old(self)@, r, final(self)@),
            mul_stmt_post(old(self)@, r, final(self)@),
            effpos(old(self)@) <= effpos(final(self)@),
            r matches Ok(n) ==> effpos(old(self)@) <= n.range.start as int && n.range.start
                <= n.range.end && n.range.end as int <= effpos(final(self)@),
        decreases pmeasure(self@), 7int,
    {
        let mut lhs = match self.read_relation() {
            Err(e) => return Err(e),
            Ok(n) => n,
        };
        loop
            invariant
                self.wf(),
                self@.chars == old(self)@.chars,
                pmeasure(self@) < pmeasure(old(self)@),
                wf_node(lhs),
                effpos(old(self)@) <= lhs.range.start as int,
                lhs.range.start <= lhs.range.end,
                lhs.range.end as int <= effpos(self@),
                lit_operand_hyp(old(self)@) ==> (lone_literal_result(old(self)@, lhs)
                    && lone_literal_state(old(self)@, self@)),
                var_operand_hyp(old(self)@) ==> (lone_variable_result(old(self)@, lhs)
                    && lone_variable_state(old(self)@, self@)),
                add_expr_hyp(old(self)@) ==> (add_expr_result(old(self)@, lhs)
                    && add_expr_state(old(self)@, self@)),
                mul_stmt_hyp(old(self)@) ==> (mul_expr_result(old(self)@, lhs)
                    && mul_expr_state(old(self)@, self@)),
            decreases pmeasure(self@),
        {
            proof {
                self.lemma_wf();
                lemma_vnext(self@);
            }
            match self.skip_symbol(Symbol::Eq) {
                Err(e) => return Err(ParseError::Lex(e)),
                Ok(true) => {
                    let rhs = match self.read_relation() {
                        Err(e) => return Err(e),
                        Ok(n) => n,
                    };
                    let sp = Span::new(lhs.range.start, rhs.range.end);
                    lhs = Node::new(
                        NodeKind::BinaryOp(Box::new(lhs), Box::new(rhs), BinOp::Eq),
                        sp,
                    );
                },
                Ok(false) => {
                    proof {
                        self.lemma_wf();
                        lemma_vnext(self@);
                    }
                    match self.skip_symbol(Symbol::Ne) {
                        Err(e) => return Err(ParseError::Lex(e)),
                        Ok(true) => {
                            let rhs = match self.read_relation() {
                                Err(e) => return Err(e),
                                Ok(n) => n,
                            };
                            let sp = Span::new(lhs.range.start, rhs.range.end);
                            lhs = Node::new(
                                NodeKind::BinaryOp(Box::new(lhs), Box::new(rhs), BinOp::Ne),
                                sp,
                            );
                        },
                        Ok(false) => {
                            break ;
                        },
                    }
                },
            }
        }
        Ok(lhs)
    }

    /// Relational level, left-associative.
    fn read_relation(&mut self) -> (r: Result<Node, ParseError>)
        requires
            old(self).wf(),
        ensures
            final(self).wf(),
            final(self)@.chars == old(self)@.chars,
            pmeasure(final(self)@) <= pmeasure(old(self)@),
            r matches Ok(n) ==> pmeasure(final(self)@) < pmeasure(old(self)@) && wf_node(n),
            r matches Err(e) ==> !(e is EndOfInput),
            lit_operand_post(old(self)@, r, final(self)@),
            var_operand_post(old(self)@, r, final(self)@),
            add_expr_post(old(self)@, r, final(self)@),
            mul_stmt_post(old(self)@, r, final(self)@),
            effpos(old(self)@) <= effpos(final(self)@),
            r matches Ok(n) ==> effpos(old(self)@) <= n.range.start as int && n.range.start
                <= n.range.end && n.range.end as int <= effpos(final(self)@),
        decreases pmeasure(self@), 6int,
    {
        let mut lhs = match self.read_shl_shr() {
            Err(e) => return Err(e),
            Ok(n) => n,
        };
        loop
            invariant
                self.wf(),
                self@.chars == old(self)@.chars,
                pmeasure(self@) < pmeasure(old(self)@),
                wf_node(lhs),
                effpos(old(self)@) <= lhs.range.start as int,
                lhs.range.start <= lhs.range.end,
                lhs.range.end as int <= effpos(self@),
                lit_operand_hyp(old(self)@) ==> (lone_literal_result(old(self)@, lhs)
                    && lone_literal_state(old(self)@, self@)),
                var_operand_hyp(old(self)@) ==> (lone_variable_result(old(self)@, lhs)
                    && lone_variable_state(old(self)@, self@)),
                add_expr_hyp(old(self)@) ==> (add_expr_result(old(self)@, lhs)
                    && add_expr_state(old(self)@, self@)),
                mul_stmt_hyp(old(self)@) ==> (mul_expr_result(old(self)@, lhs)
                    && mul_expr_state(old(self)@, self@)),
            decreases pmeasure(self@),
        {
            proof {
                self.lemma_wf();
                lemma_vnext(self@);
            }
            match self.skip_symbol(Symbol::Lt) {
                Err(e) => return Err(ParseError::Lex(e)),
                Ok(true) => {
                    let rhs = match self.read_shl_shr() {
                        Err(e) => return Err(e),
                        Ok(n) => n,
                    };
                    let sp = Span::new(lhs.range.start, rhs.range.end);
                    lhs = Node::new(
                        NodeKind::BinaryOp(Box::new(lhs), Box::new(rhs), BinOp::Lt),
                        sp,
                    );
                },
                Ok(false) => {
                    proof {
                        self.lemma_wf();
                        lemma_vnext(self@);
                    }
                    match self.skip_symbol(Symbol::Le) {
                        Err(e) => return Err(ParseError::Lex(e)),
                        Ok(true) => {
                            let rhs = match self.read_shl_shr() {
                                Err(e) => return Err(e),
                                Ok(n) => n,
                            };
                            let sp = Span::new(lhs.range.start, rhs.range.end);
                            lhs = Node::new(
                                NodeKind::BinaryOp(Box::new(lhs), Box::new(rhs), BinOp::Le),
                                sp,
                            );
                        },
                        Ok(false) => {
                            proof {
                                self.lemma_wf();
                                lemma_vnext(self@);
                            }
                            match self.skip_symbol(Symbol::Gt) {
                                Err(e) => return Err(ParseError::Lex(e)),
                                Ok(true) => {
                                    let rhs = match self.read_shl_shr() {
                                        Err(e) => return Err(e),
                                        Ok(n) => n,
                                    };
                                    let sp = Span::new(lhs.range.start, rhs.range.end);
                                    lhs = Node::new(
                                        NodeKind::BinaryOp(Box::new(lhs), Box::new(rhs), BinOp::Gt),
                                        sp,
                                    );
                                },
                                Ok(false) => {
                                    proof {
                                        self.lemma_wf();
                                        lemma_vnext(self@);
                                    }
                                    match self.skip_symbol(Symbol::Ge) {
                                        Err(e) => return Err(ParseError::Lex(e)),
                                        Ok(true) => {
                                            let rhs = match self.read_shl_shr() {
                                                Err(e) => return Err(e),
                                                Ok(n) => n,
                                            };
                                            let sp = Span::new(lhs.range.start, rhs.range.end);
                                            lhs = Node::new(
                                                NodeKind::BinaryOp(Box::new(lhs), Box::new(rhs), BinOp::Ge),
                                                sp,
                                            );
                                        },
                                        Ok(false) => {
                                            break ;
                                        },
                                    }
                                },
                            }
                        },
                    }
                },
            }
        }
        Ok(lhs)
    }

    /// Shift level, left-associative.
    fn read_shl_shr(&mut self) -> (r: Result<Node, ParseError>)
        requires
            old(self).wf(),
        ensures
            final(self).wf(),
            final(self)@.chars == old(self)@.chars,
            pmeasure(final(self)@) <= pmeasure(old(self)@),
            r matches Ok(n) ==> pmeasure(final(self)@) < pmeasure(old(self)@) && wf_node(n),
            r matches Err(e) ==> !(e is EndOfInput),
            lit_operand_post(old(self)@, r, final(self)@),
            var_operand_post(old(self)@, r, final(self)@),
            add_expr_post(old(self)@, r, final(self)@),
            mul_stmt_post(old(self)@, r, final(self)@),
            effpos(old(self)@) <= effpos(final(self)@),
            r matches Ok(n) ==> effpos(old(self)@) <= n.range.start as int && n.range.start
                <= n.range.end && n.range.end as int <= effpos(final(self)@),
        decreases pmeasure(self@), 5int,
    {
        let mut lhs = match self.read_add_sub() {
            Err(e) => return Err(e),
            Ok(n) => n,
        };
        loop
            invariant
                self.wf(),
                self@.chars == old(self)@.chars,
                pmeasure(self@) < pmeasure(old(self)@),
                wf_node(lhs),
                effpos(old(self)@) <= lhs.range.start as int,
                lhs.range.start <= lhs.range.end,
                lhs.range.end as int <= effpos(self@),
                lit_operand_hyp(old(self)@) ==> (lone_literal_result(old(self)@, lhs)
                    && lone_literal_state(old(self)@, self@)),
                var_operand_hyp(old(self)@) ==> (lone_variable_result(old(self)@, lhs)
                    && lone_variable_state(old(self)@, self@)),
                add_expr_hyp(old(self)@) ==> (add_expr_result(old(self)@, lhs)
                    && add_expr_state(old(self)@, self@)),
                mul_stmt_hyp(old(self)@) ==> (mul_expr_result(old(self)@, lhs)
                    && mul_expr_state(old(self)@, self@)),
            decreases pmeasure(self@),
        {
            proof {
                self.lemma_wf();
                lemma_vnext(self@);
            }
            match self.skip_symbol(Symbol::Shl) {
                Err(e) => return Err(ParseError::Lex(e)),
                Ok(true) => {
                    let rhs = match self.read_add_sub() {
                        Err(e) => return Err(e),
                        Ok(n) => n,
                    };
                    let sp = Span::new(lhs.range.start, rhs.range.end);
                    lhs = Node::new(
                        NodeKind::BinaryOp(Box::new(lhs), Box::new(rhs), BinOp::Shl),
                        sp,
                    );
                },
                Ok(false) => {
                    proof {
                        self.lemma_wf();
                        lemma_vnext(self@);
                    }
                    match self.skip_symbol(Symbol::Shr) {
                        Err(e) => return Err(ParseError::Lex(e)),
                        Ok(true) => {
                            let rhs = match self.read_add_sub() {
                                Err(e) => return Err(e),
                                Ok(n) => n,
                            };
                            let sp = Span::new(lhs.range.start, rhs.range.end);
                            lhs = Node::new(
                                NodeKind::BinaryOp(Box::new(lhs), Box::new(rhs), BinOp::Shr),
                                sp,
                            );
                        },
                        Ok(false) => {
                            break ;
                        },
                    }
                },
            }
        }
        Ok(lhs)
    }

    /// Additive level, left-associative.
    fn read_add_sub(&mut self) -> (r: Result<Node, ParseError>)
        requires
            old(self).wf(),
        ensures
            final(self).wf(),
            final(self)@.chars == old(self)@.chars,
            pmeasure(final(self)@) <= pmeasure(old(self)@),
            r matches Ok(n) ==> pmeasure(final(self)@) < pmeasure(old(self)@) && wf_node(n),
            r matches Err(e) ==> !(e is EndOfInput),
            lit_operand_post(old(self)@, r, final(self)@),
            var_operand_post(old(self)@, r, final(self)@),
            add_expr_post(old(self)@, r, final(self)@),
            mul_stmt_post(old(self)@, r, final(self)@),
            effpos(old(self)@) <= effpos(final(self)@),
            r matches Ok(n) ==> effpos(old(self)@) <= n.range.start as int && n.range.start
                <= n.range.end && n.range.end as int <= effpos(final(self)@),
        decreases pmeasure(self@), 4int,
    {
        let mut lhs = match self.read_mul_div_rem() {
            Err(e) => return Err(e),
            Ok(n) => n,
        };
        loop
            invariant
                self.wf(),
                self@.chars == old(self)@.chars,
                pmeasure(self@) < pmeasure(old(self)@),
                wf_node(lhs),
                effpos(old(self)@) <= lhs.range.start as int,
                lhs.range.start <= lhs.range.end,
                lhs.range.end as int <= effpos(self@),
                lit_operand_hyp(old(self)@) ==> (lone_literal_result(old(self)@, lhs)
                    && lone_literal_state(old(self)@, self@)),
                var_operand_hyp(old(self)@) ==> (lone_variable_result(old(self)@, lhs)
                    && lone_variable_state(old(self)@, self@)),
                mul_stmt_hyp(old(self)@) ==> (mul_expr_result(old(self)@, lhs)
                    && mul_expr_state(old(self)@, self@)),
                add_expr_hyp(old(self)@) ==> ((term_operand_result(old(self)@, lhs)
                    && term_operand_state(old(self)@, self@)) || (add_expr_result(
                    old(self)@,
                    lhs,
                ) && add_expr_state(old(self)@, self@))),
            ensures
                self.wf(),
                self@.chars == old(self)@.chars,
                pmeasure(self@) < pmeasure(old(self)@),
                wf_node(lhs),
                effpos(old(self)@) <= lhs.range.start as int,
                lhs.range.start <= lhs.range.end,
                lhs.range.end as int <= effpos(self@),
                lit_operand_hyp(old(self)@) ==> (lone_literal_result(old(self)@, lhs)
                    && lone_literal_state(old(self)@, self@)),
                var_operand_hyp(old(self)@) ==> (lone_variable_result(old(self)@, lhs)
                    && lone_variable_state(old(self)@, self@)),
                add_expr_hyp(old(self)@) ==> (add_expr_result(old(self)@, lhs) && add_expr_state(
                    old(self)@,
                    self@,
                )),
                mul_stmt_hyp(old(self)@) ==> (mul_expr_result(old(self)@, lhs) && mul_expr_state(
                    old(self)@,
                    self@,
                )),
            decreases pmeasure(self@),
        {
            proof {
                self.lemma_wf();
                lemma_vnext(self@);
            }
            match self.skip_symbol(Symbol::Add) {
                Err(e) => return Err(ParseError::Lex(e)),
                Ok(true) => {
                    let rhs = match self.read_mul_div_rem() {
                        Err(e) => return Err(e),
                        Ok(n) => n,
                    };
                    let sp = Span::new(lhs.range.start, rhs.range.end);
                    lhs = Node::new(
                        NodeKind::BinaryOp(Box::new(lhs), Box::new(rhs), BinOp::Add),
                        sp,
                    );
                },
                Ok(false) => {
                    proof {
                        self.lemma_wf();
                        lemma_vnext(self@);
                    }
                    match self.skip_symbol(Symbol::Sub) {
                        Err(e) => return Err(ParseError::Lex(e)),
                        Ok(true) => {
                            let rhs = match self.read_mul_div_rem() {
                                Err(e) => return Err(e),
                                Ok(n) => n,
                            };
                            let sp = Span::new(lhs.range.start, rhs.range.end);
                            lhs = Node::new(
                                NodeKind::BinaryOp(Box::new(lhs), Box::new(rhs), BinOp::Sub),
                                sp,
                            );
                        },
                        Ok(false) => {
                            break ;
                        },
                    }
                },
            }
        }
        Ok(lhs)
    }

    /// Multiplicative level, left-associative.
    fn read_mul_div_rem(&mut self) -> (r: Result<Node, ParseError>)
        requires
            old(self).wf(),
        ensures
            final(self).wf(),
            final(self)@.chars == old(self)@.chars,
            pmeasure(final(self)@) <= pmeasure(old(self)@),
            r matches Ok(n) ==> pmeasure(final(self)@) < pmeasure(old(self)@) && wf_node(n),
            r matches Err(e) ==> !(e is EndOfInput),
            lit_operand_post(old(self)@, r, final(self)@),
            var_operand_post(old(self)@, r, final(self)@),
            term_operand_post(old(self)@, r, final(self)@),
            mul_expr_post(old(self)@, r, final(self)@),
            mul_stmt_post(old(self)@, r, final(self)@),
            effpos(old(self)@) <= effpos(final(self)@),
            r matches Ok(n) ==> effpos(old(self)@) <= n.range.start as int && n.range.start
                <= n.range.end && n.range.end as int <= effpos(final(self)@),
        decreases pmeasure(self@), 3int,
    {
        let mut lhs = match self.read_call() {
            Err(e) => return Err(e),
            Ok(n) => n,
        };
        loop
            invariant
                self.wf(),
                self@.chars == old(self)@.chars,
                pmeasure(self@) < pmeasure(old(self)@),
                wf_node(lhs),
                effpos(old(self)@) <= lhs.range.start as int,
                lhs.range.start <= lhs.range.end,
                lhs.range.end as int <= effpos(self@),
                lit_operand_hyp(old(self)@) ==> (lone_literal_result(old(self)@, lhs)
                    && lone_literal_state(old(self)@, self@)),
                var_operand_hyp(old(self)@) ==> (lone_variable_result(old(self)@, lhs)
                    && lone_variable_state(old(self)@, self@)),
                term_operand_hyp(old(self)@) ==> (term_operand_result(old(self)@, lhs)
                    && term_operand_state(old(self)@, self@)),
                mul_expr_hyp(old(self)@) ==> ((term_operand_result(old(self)@, lhs)
                    && factor_state(old(self)@, self@)) || (mul_expr_result(
                    old(self)@,
                    lhs,
                ) && mul_expr_state(old(self)@, self@))),
            ensures
                self.wf(),
                self@.chars == old(self)@.chars,
                pmeasure(self@) < pmeasure(old(self)@),
                wf_node(lhs),
                effpos(old(self)@) <= lhs.range.start as int,
                lhs.range.start <= lhs.range.end,
                lhs.range.end as int <= effpos(self@),
                lit_operand_hyp(old(self)@) ==> (lone_literal_result(old(self)@, lhs)
                    && lone_literal_state(old(self)@, self@)),
                var_operand_hyp(old(self)@) ==> (lone_variable_result(old(self)@, lhs)
                    && lone_variable_state(old(self)@, self@)),
                term_operand_hyp(old(self)@) ==> (term_operand_result(old(self)@, lhs)
                    && term_operand_state(old(self)@, self@)),
                mul_expr_hyp(old(self)@) ==> (mul_expr_result(old(self)@, lhs) && mul_expr_state(
                    old(self)@,
                    self@,
                )),
            decreases pmeasure(self@),
        {
            proof {
                self.lemma_wf();
                lemma_vnext(self@);
            }
            match self.skip_symbol(Symbol::Asterisk) {
                Err(e) => return Err(ParseError::Lex(e)),
                Ok(true) => {
                    let rhs = match self.read_call() {
                        Err(e) => return Err(e),
                        Ok(n) => n,
                    };
                    let sp = Span::new(lhs.range.start, rhs.range.end);
                    lhs = Node::new(
                        NodeKind::BinaryOp(Box::new(lhs), Box::new(rhs), BinOp::Mul),
                        sp,
                    );
                },
                Ok(false) => {
                    proof {
                        self.lemma_wf();
                        lemma_vnext(self@);
                    }
                    match self.skip_symbol(Symbol::Div) {
                        Err(e) => return Err(ParseError::Lex(e)),
                        Ok(true) => {
                            let rhs = match self.read_call() {
                                Err(e) => return Err(e),
                                Ok(n) => n,
                            };
                            let sp = Span::new(lhs.range.start, rhs.range.end);
                            lhs = Node::new(
                                NodeKind::BinaryOp(Box::new(lhs), Box::new(rhs), BinOp::Div),
                                sp,
                            );
                        },
                        Ok(false) => {
                            proof {
                                self.lemma_wf();
                                lemma_vnext(self@);
                            }
                            match self.skip_symbol(Symbol::Mod) {
                                Err(e) => return Err(ParseError::Lex(e)),
                                Ok(true) => {
                                    let rhs = match self.read_call() {
                                        Err(e) => return Err(e),
                                        Ok(n) => n,
                                    };
                                    let sp = Span::new(lhs.range.start, rhs.range.end);
                                    lhs = Node::new(
                                        NodeKind::BinaryOp(Box::new(lhs), Box::new(rhs), BinOp::Rem),
                                        sp,
                                    );
                                },
                                Ok(false) => {
                                    break ;
                                },
                            }
                        },
                    }
                },
            }
        }
        Ok(lhs)
    }
}


impl Parser {
    /// Call level: a primary followed by zero or more primaries as
    /// positional arguments; a sub-parse failure ends the argument list.
    fn read_call(&mut self) -> (r: Result<Node, ParseError>)
        requires
            old(self).wf(),
        ensures
            final(self).wf(),
            final(self)@.chars == old(self)@.chars,
            pmeasure(final(self)@) <= pmeasure(old(self)@),
            r matches Ok(n) ==> pmeasure(final(self)@) < pmeasure(old(self)@) && wf_node(n),
            r matches Err(e) ==> !(e is EndOfInput),
            lit_operand_post(old(self)@, r, final(self)@),
            var_operand_post(old(self)@, r, final(self)@),
            factor_post(old(self)@, r, final(self)@),
            effpos(old(self)@) <= effpos(final(self)@),
            r matches Ok(n) ==> effpos(old(self)@) <= n.range.start as int && n.range.start
                <= n.range.end && n.range.end as int <= effpos(final(self)@),
        decreases pmeasure(self@), 2int,
    {
        let f = match self.read_primary() {
            Err(e) => return Err(e),
            Ok(n) => n,
        };
        let f_start = f.range.start;
        let mut args: Vec<Node> = Vec::new();
        loop
            invariant_except_break
                lit_operand_hyp(old(self)@) ==> lone_literal_mid(old(self)@, self@),
                var_operand_hyp(old(self)@) ==> (lone_variable_state(old(self)@, self@) || (match
                    vnext(old(self)@) {
                    NextStep::T(_, v2) => self@ == v2,
                    NextStep::E(_, _) => true,
                })),
                factor_hyp(old(self)@) ==> (factor_state(old(self)@, self@) || (match vnext(
                    old(self)@,
                ) {
                    NextStep::T(_, v2) => self@ == v2,
                    NextStep::E(_, _) => true,
                })),
            invariant
                self.wf(),
                self@.chars == old(self)@.chars,
                pmeasure(self@) < pmeasure(old(self)@),
                wf_node(f),
                forall|i: int| 0 <= i < args@.len() ==> wf_node(#[trigger] args@[i]),
                effpos(old(self)@) <= f.range.start as int,
                f.range.start <= f.range.end,
                f.range.end as int <= effpos(self@),
                args@.len() > 0 ==> f.range.start <= args@[args@.len() - 1].range.end,
                args@.len() > 0 ==> args@[args@.len() - 1].range.end as int <= effpos(self@),
                lit_operand_hyp(old(self)@) ==> (lone_literal_result(old(self)@, f) && args@.len()
                    == 0),
                var_operand_hyp(old(self)@) ==> (lone_variable_result(old(self)@, f) && args@.len()
                    == 0),
                factor_hyp(old(self)@) ==> (term_operand_result(old(self)@, f) && args@.len()
                    == 0),
            ensures
                self.wf(),
                self@.chars == old(self)@.chars,
                pmeasure(self@) < pmeasure(old(self)@),
                wf_node(f),
                forall|i: int| 0 <= i < args@.len() ==> wf_node(#[trigger] args@[i]),
                effpos(old(self)@) <= f.range.start as int,
                f.range.start <= f.range.end,
                f.range.end as int <= effpos(self@),
                args@.len() > 0 ==> f.range.start <= args@[args@.len() - 1].range.end,
                args@.len() > 0 ==> args@[args@.len() - 1].range.end as int <= effpos(self@),
                lit_operand_hyp(old(self)@) ==> (lone_literal_result(old(self)@, f) && args@.len()
                    == 0 && lone_literal_state(old(self)@, self@)),
                var_operand_hyp(old(self)@) ==> (lone_variable_result(old(self)@, f) && args@.len()
                    == 0 && lone_variable_state(old(self)@, self@)),
                factor_hyp(old(self)@) ==> (term_operand_result(old(self)@, f) && args@.len()
                    == 0 && factor_state(old(self)@, self@)),
            decreases pmeasure(self@),
        {
            match self.read_primary() {
                Ok(arg) => {
                    args.push(arg);
                },
                Err(_) => {
                    break ;
                },
            }
        }
        if args.len() == 0 {
            Ok(f)
        } else {
            let last_end = args[args.len() - 1].range.end;
            Ok(Node::new(NodeKind::Apply(Box::new(f), args), Span::new(f_start, last_end)))
        }
    }

    /// Primary level: a literal, a variable, or a parenthesized expression,
    /// which requires its matching closing parenthesis.
    fn read_primary(&mut self) -> (r: Result<Node, ParseError>)
        requires
            old(self).wf(),
        ensures
            final(self).wf(),
            final(self)@.chars == old(self)@.chars,
            pmeasure(final(self)@) <= pmeasure(old(self)@),
            r matches Ok(n) ==> pmeasure(final(self)@) < pmeasure(old(self)@) && wf_node(n),
            r matches Err(e) ==> !(e is EndOfInput),
            vnext(old(self)@) matches NextStep::T(t, v2) ==> t.kind matches TokenKindView::Int(
                n,
            ) ==> (r matches Ok(nd) && nd.kind == NodeKind::Int(n) && nd.range == t.range
                && final(self)@ == v2),
            vnext(old(self)@) matches NextStep::T(t, v2) ==> t.kind
                matches TokenKindView::Float(text) ==> (r matches Ok(nd) && (nd.kind
                matches NodeKind::Float(s) && s@ == text) && nd.range == t.range && final(self)@
                == v2),
            vnext(old(self)@) matches NextStep::T(t, v2) ==> t.kind matches TokenKindView::Str(
                text,
            ) ==> (r matches Ok(nd) && (nd.kind matches NodeKind::Str(s) && s@ == text)
                && nd.range == t.range && final(self)@ == v2),
            vnext(old(self)@) matches NextStep::T(t, v2) ==> t.kind
                matches TokenKindView::Identifier(name) ==> vnext(v2) matches NextStep::T(t2, v3)
                ==> !(t2.kind matches TokenKindView::Symbol(Symbol::Colon)) ==> (r matches Ok(nd)
                && (nd.kind matches NodeKind::Variable(nm, ty) && nm@ == name && ty is None)
                && nd.range == t.range && final(self)@ == (ParserView { buf: Some(t2), ..v3 })),
            vnext(old(self)@) matches NextStep::T(t, v2) ==> t.kind
                matches TokenKindView::Symbol(sym) ==> sym != Symbol::OpeningParen ==> (r
                matches Err(e) && (e matches ParseError::UnexpectedToken(exp, et) && exp
                == Expected::Primary && et@.kind == TokenKindView::Symbol(sym) && et@.range
                == t.range) && final(self)@ == (ParserView { buf: Some(t), ..v2 })),
            vnext(old(self)@) matches NextStep::T(t, v2) ==> t.kind is Newline ==> (r
                matches Err(e) && (e matches ParseError::UnexpectedToken(exp, et) && exp
                == Expected::Primary && et@.kind is Newline && et@.range == t.range)
                && final(self)@ == (ParserView { buf: Some(t), ..v2 })),
            vnext(old(self)@) matches NextStep::T(t, v2) ==> t.kind
                matches TokenKindView::Identifier(name) ==> vnext(v2) matches NextStep::T(tc, v3)
                ==> tc.kind == TokenKindView::Symbol(Symbol::Colon) ==> (vnext(v3)
                matches NextStep::T(tn, v4) ==> tn.kind matches TokenKindView::Identifier(ty_name)
                ==> (r matches Ok(nd) && (nd.kind matches NodeKind::Variable(nm, ty) && nm@ == name
                && ty == spec_type_of_name(ty_name)) && nd.range == t.range && final(self)@
                == v4)),
            paren_literal_post(old(self)@, r, final(self)@),
            effpos(old(self)@) <= effpos(final(self)@),
            r matches Ok(n) ==> effpos(old(self)@) <= n.range.start as int && n.range.start
                <= n.range.end && n.range.end as int <= effpos(final(self)@),
        decreases pmeasure(self@), 1int,
    {
        proof {
            self.lemma_wf();
            lemma_vnext(self@);
        }
        match self.next_token() {
            Err(e) => Err(ParseError::Lex(e)),
            Ok(tok) => {
                let range = tok.range;
                match tok.kind {
                    TokenKind::Int(n) => Ok(Node::new(NodeKind::Int(n), range)),
                    TokenKind::Float(text) => Ok(Node::new(NodeKind::Float(text), range)),
                    TokenKind::Str(s) => Ok(Node::new(NodeKind::Str(s), range)),
                    TokenKind::Identifier(name) => self.read_variable(name, range),
                    TokenKind::Symbol(sym) => {
                        if sym == Symbol::OpeningParen {
                            let expr = self.read_expr();
                            proof {
                                self.lemma_wf();
                                lemma_vnext(self@);
                            }
                            match self.skip_symbol(Symbol::ClosingParen) {
                                Err(e) => Err(ParseError::Lex(e)),
                                Ok(true) => expr,
                                Ok(false) => Err(ParseError::UnmatchedParen(range)),
                            }
                        } else {
                            self.unget(Token::new_symbol(sym, range));
                            Err(
                                ParseError::UnexpectedToken(
                                    Expected::Primary,
                                    Token::new_symbol(sym, range),
                                ),
                            )
                        }
                    },
                    TokenKind::Newline => {
                        self.unget(Token::new_newline(range));
                        Err(
                            ParseError::UnexpectedToken(
                                Expected::Primary,
                                Token::new_newline(range),
                            ),
                        )
                    },
                }
            },
        }
    }

    /// Variable reference: an identifier, optionally followed by a colon and
    /// a type annotation name.  Unrecognized annotation names yield no type
    /// rather than failing.
    fn read_variable(&mut self, var: String, range: Span) -> (r: Result<Node, ParseError>)
        requires
            old(self).wf(),
        ensures
            final(self).wf(),
            final(self)@.chars == old(self)@.chars,
            pmeasure(final(self)@) <= pmeasure(old(self)@),
            r matches Ok(n) ==> wf_node(n),
            r matches Err(e) ==> !(e is EndOfInput),
            vnext(old(self)@) matches NextStep::T(t2, v3) ==> !(t2.kind
                matches TokenKindView::Symbol(Symbol::Colon)) ==> (r matches Ok(nd) && (nd.kind
                matches NodeKind::Variable(nm, ty) && nm@ == var@ && ty is None) && nd.range
                == range && final(self)@ == (ParserView { buf: Some(t2), ..v3 })),
            vnext(old(self)@) matches NextStep::T(tc, v2) ==> tc.kind == TokenKindView::Symbol(
                Symbol::Colon,
            ) ==> (vnext(v2) matches NextStep::T(tn, v3) ==> tn.kind
                matches TokenKindView::Identifier(ty_name) ==> (r matches Ok(nd) && (nd.kind
                matches NodeKind::Variable(nm, ty) && nm@ == var@ && ty == spec_type_of_name(
                ty_name,
            )) && nd.range == range && final(self)@ == v3)),
            vnext(old(self)@) matches NextStep::T(tc, v2) ==> tc.kind == TokenKindView::Symbol(
                Symbol::Colon,
            ) ==> (vnext(v2) matches NextStep::T(tn, v3) ==> !(tn.kind
                matches TokenKindView::Identifier(_)) ==> (r matches Err(e) && (e
                matches ParseError::UnexpectedToken(exp, et) && exp == Expected::Identifier
                && et@.kind == tn.kind && et@.range == tn.range) && final(self)@ == v3)),
            effpos(old(self)@) <= effpos(final(self)@),
            r matches Ok(nd) ==> nd.range == range,
        decreases pmeasure(self@), 0int,
    {
        proof {
            self.lemma_wf();
            lemma_vnext(self@);
        }
        match self.skip_symbol(Symbol::Colon) {
            Err(e) => Err(ParseError::Lex(e)),
            Ok(true) => {
                proof {
                    self.lemma_wf();
                    lemma_vnext(self@);
                }
                match self.next_token() {
                    Err(e) => Err(ParseError::Lex(e)),
                    Ok(tok) => {
                        let tok_range = tok.range;
                        match tok.kind {
                            TokenKind::Identifier(name) => {
                                let ty = name.as_str().to_type();
                                Ok(Node::new(NodeKind::Variable(var, ty), range))
                            },
                            other => Err(
                                ParseError::UnexpectedToken(
                                    Expected::Identifier,
                                    Token { kind: other, range: tok_range },
                                ),
                            ),
                        }
                    },
                }
            },
            Ok(false) => Ok(Node::new(NodeKind::Variable(var, None), range)),
        }
    }
}

} // verus!
