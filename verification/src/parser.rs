//! Recursive-descent parsing: consumes the token sequence and builds the
//! abstract syntax tree.
//!
//! Each public `parse_X` function either fully recognizes its grammar form,
//! consuming exactly the tokens that belong to it from the front of the
//! sequence, or recognizes that the input does not match and leaves the
//! token sequence unconsumed.
//!
//! The grammar itself is stated as a family of `spec_parse_X` functions
//! over the token models, working on a cursor position instead of removing
//! tokens; every executable parse function is proved to return exactly
//! what its specification returns.

use vstd::prelude::*;

use crate::lexer::{tok_views, SpecTok, Token};

verus! {

/// One node of the abstract syntax tree: a strict tree, each sub-node
/// exclusively owned by its parent.
#[derive(Debug, PartialEq)]
pub enum ASTNode {
    /// Binds a variable to the value of an expression; used both for
    /// `var x = e` declarations and for plain `x = e` re-assignments.
    Assignment { var_name: String, value: Box<ASTNode> },
    Number(i64),
    Identifier(String),
    BinaryOp { left: Box<ASTNode>, operator: Token, right: Box<ASTNode> },
    /// A brace-delimited statement list; the list may be empty.
    Block(Vec<ASTNode>),
    If {
        condition: Box<ASTNode>,
        then_branch: Box<ASTNode>,
        else_branch: Option<Box<ASTNode>>,
    },
    While { condition: Box<ASTNode>, body: Box<ASTNode> },
    For { iterator: Box<ASTNode>, iterable: Box<ASTNode>, body: Box<ASTNode> },
    /// An integer interval `[start, end)`, the iterable of a `for` loop.
    Range { start: Box<ASTNode>, end: Box<ASTNode> },
    Switch {
        expression: Box<ASTNode>,
        cases: Vec<(ASTNode, ASTNode)>,
        default: Option<Box<ASTNode>>,
    },
    Print(Box<ASTNode>),
}

/// The mathematical model of an [`ASTNode`]: identical, except that names
/// are character sequences and child lists are `Seq`s.
pub enum SpecAst {
    Assignment { var_name: Seq<char>, value: Box<SpecAst> },
    Number(i64),
    Identifier(Seq<char>),
    BinaryOp { left: Box<SpecAst>, operator: SpecTok, right: Box<SpecAst> },
    Block(Seq<SpecAst>),
    If {
        condition: Box<SpecAst>,
        then_branch: Box<SpecAst>,
        else_branch: Option<Box<SpecAst>>,
    },
    While { condition: Box<SpecAst>, body: Box<SpecAst> },
    For { iterator: Box<SpecAst>, iterable: Box<SpecAst>, body: Box<SpecAst> },
    Range { start: Box<SpecAst>, end: Box<SpecAst> },
    Switch {
        expression: Box<SpecAst>,
        cases: Seq<(SpecAst, SpecAst)>,
        default: Option<Box<SpecAst>>,
    },
    Print(Box<SpecAst>),
}

/// The models of a list of statements, element by element.
pub open spec fn ast_views(nodes: Seq<ASTNode>) -> Seq<SpecAst>
    decreases nodes,
{
    if nodes.len() == 0 {
        Seq::empty()
    } else {
        seq![nodes[0]@] + ast_views(nodes.drop_first())
    }
}

/// The models of a list of `case` arms, element by element.
pub open spec fn case_views(cases: Seq<(ASTNode, ASTNode)>) -> Seq<(SpecAst, SpecAst)>
    decreases cases,
{
    if cases.len() == 0 {
        Seq::empty()
    } else {
        seq![(cases[0].0@, cases[0].1@)] + case_views(cases.drop_first())
    }
}

impl View for ASTNode {
    type V = SpecAst;

    open spec fn view(&self) -> SpecAst
        decreases self,
    {
        match self {
            ASTNode::Assignment { var_name, value } => SpecAst::Assignment {
                var_name: var_name@,
                value: Box::new((**value)@),
            },
            ASTNode::Number(value) => SpecAst::Number(*value),
            ASTNode::Identifier(name) => SpecAst::Identifier(name@),
            ASTNode::BinaryOp { left, operator, right } => SpecAst::BinaryOp {
                left: Box::new((**left)@),
                operator: operator@,
                right: Box::new((**right)@),
            },
            ASTNode::Block(stmts) => SpecAst::Block(ast_views(stmts@)),
            ASTNode::If { condition, then_branch, else_branch } => SpecAst::If {
                condition: Box::new((**condition)@),
                then_branch: Box::new((**then_branch)@),
                else_branch: match else_branch {
                    Some(e) => Some(Box::new((**e)@)),
                    None => None,
                },
            },
            ASTNode::While { condition, body } => SpecAst::While {
                condition: Box::new((**condition)@),
                body: Box::new((**body)@),
            },
            ASTNode::For { iterator, iterable, body } => SpecAst::For {
                iterator: Box::new((**iterator)@),
                iterable: Box::new((**iterable)@),
                body: Box::new((**body)@),
            },
            ASTNode::Range { start, end } => SpecAst::Range {
                start: Box::new((**start)@),
                end: Box::new((**end)@),
            },
            ASTNode::Switch { expression, cases, default } => SpecAst::Switch {
                expression: Box::new((**expression)@),
                cases: case_views(cases@),
                default: match default {
                    Some(d) => Some(Box::new((**d)@)),
                    None => None,
                },
            },
            ASTNode::Print(expr) => SpecAst::Print(Box::new((**expr)@)),
        }
    }
}

/// The binary operators: `+ - * /` and the four comparisons.
pub open spec fn is_binary_operator(t: SpecTok) -> bool {
    ||| t is Plus
    ||| t is Minus
    ||| t is Multiply
    ||| t is Divide
    ||| t is GreaterThan
    ||| t is LessThan
    ||| t is GreaterEqual
    ||| t is LessEqual
}

/// A successful sub-parse consumed at least one token and stayed within
/// the sequence. Every parse function below only continues past a
/// sub-parse under this condition, so the grammar terminates by
/// construction; the executable parsers show that it always holds.
pub open spec fn advanced(pos: nat, next: nat, len: nat) -> bool {
    pos < next <= len
}

/// `primary := '(' expression ')' | identifier | number`
pub open spec fn spec_parse_primary(toks: Seq<SpecTok>, pos: nat) -> Option<(SpecAst, nat)>
    decreases toks.len() - pos, 0nat,
{
    if pos >= toks.len() {
        None
    } else {
        match toks[pos as int] {
            SpecTok::LeftParen => match spec_parse_expression(toks, (pos + 1) as nat) {
                Some((e, p2)) => if p2 < toks.len() && toks[p2 as int] is RightParen {
                    Some((e, (p2 + 1) as nat))
                } else {
                    None
                },
                None => None,
            },
            SpecTok::Identifier(name) => Some((SpecAst::Identifier(name), (pos + 1) as nat)),
            SpecTok::Number(v) => Some((SpecAst::Number(v), (pos + 1) as nat)),
            _ => None,
        }
    }
}

/// Continues an expression whose left operand is already parsed: if a
/// binary operator follows, it must be followed by a valid primary right
/// operand; otherwise the left operand stands alone.
pub open spec fn spec_parse_binary_op_with_left(toks: Seq<SpecTok>, pos: nat, left: SpecAst) -> Option<
    (SpecAst, nat),
>
    decreases toks.len() - pos, 1nat,
{
    if pos < toks.len() && is_binary_operator(toks[pos as int]) {
        match spec_parse_primary(toks, (pos + 1) as nat) {
            Some((right, p2)) => Some(
                (
                    SpecAst::BinaryOp {
                        left: Box::new(left),
                        operator: toks[pos as int],
                        right: Box::new(right),
                    },
                    p2,
                ),
            ),
            None => None,
        }
    } else {
        Some((left, pos))
    }
}

/// `binary-op := primary operator primary`, falling back to the bare
/// primary when no operator follows; no match at all when the sequence is
/// exhausted after the primary.
pub open spec fn spec_parse_binary_op(toks: Seq<SpecTok>, pos: nat) -> Option<(SpecAst, nat)>
    decreases toks.len() - pos, 1nat,
{
    match spec_parse_primary(toks, pos) {
        None => None,
        Some((left, p2)) => if !advanced(pos, p2, toks.len()) {
            None
        } else if p2 >= toks.len() {
            None
        } else if is_binary_operator(toks[p2 as int]) {
            match spec_parse_primary(toks, (p2 + 1) as nat) {
                Some((right, p3)) => Some(
                    (
                        SpecAst::BinaryOp {
                            left: Box::new(left),
                            operator: toks[p2 as int],
                            right: Box::new(right),
                        },
                        p3,
                    ),
                ),
                None => None,
            }
        } else {
            Some((left, p2))
        },
    }
}

/// `print := 'print' '(' expression ')' ';'`
pub open spec fn spec_parse_print(toks: Seq<SpecTok>, pos: nat) -> Option<(SpecAst, nat)>
    decreases toks.len() - pos, 2nat,
{
    if pos < toks.len() && toks[pos as int] is Print && pos + 1 < toks.len() && toks[pos + 1 as int]
        is LeftParen {
        match spec_parse_expression(toks, (pos + 2) as nat) {
            None => None,
            Some((e, p2)) => if p2 < toks.len() && toks[p2 as int] is RightParen {
                if p2 + 1 < toks.len() && toks[p2 + 1 as int] is Semicolon {
                    Some((SpecAst::Print(Box::new(e)), (p2 + 2) as nat))
                } else {
                    None
                }
            } else {
                None
            },
        }
    } else {
        None
    }
}

/// `expression := range | assignment-to-existing | binary-op | print |
/// identifier | number`, with the tie-breaks: a leading number followed by
/// `..` is a range; a leading identifier followed by `=` is an
/// assignment; a leading identifier or number followed by a binary
/// operator is a binary operation; otherwise the token stands alone.
pub open spec fn spec_parse_expression(toks: Seq<SpecTok>, pos: nat) -> Option<(SpecAst, nat)>
    decreases toks.len() - pos, 3nat,
{
    if pos >= toks.len() {
        None
    } else {
        match toks[pos as int] {
            SpecTok::Number(v) => if pos + 1 < toks.len() && toks[pos + 1 as int] is Range {
                if pos + 2 < toks.len() {
                    match toks[pos + 2 as int] {
                        SpecTok::Number(e) => Some(
                            (
                                SpecAst::Range {
                                    start: Box::new(SpecAst::Number(v)),
                                    end: Box::new(SpecAst::Number(e)),
                                },
                                (pos + 3) as nat,
                            ),
                        ),
                        _ => None,
                    }
                } else {
                    None
                }
            } else {
                spec_parse_binary_op_with_left(toks, (pos + 1) as nat, SpecAst::Number(v))
            },
            SpecTok::Identifier(name) => if pos + 1 < toks.len() && toks[pos + 1 as int]
                is Equal {
                match spec_parse_expression(toks, (pos + 2) as nat) {
                    None => None,
                    Some((rhs, p2)) => Some(
                        (SpecAst::Assignment { var_name: name, value: Box::new(rhs) }, p2),
                    ),
                }
            } else {
                spec_parse_binary_op_with_left(toks, (pos + 1) as nat, SpecAst::Identifier(name))
            },
            SpecTok::Print => spec_parse_print(toks, pos),
            _ => match spec_parse_primary(toks, pos) {
                None => None,
                Some((left, p2)) => if advanced(pos, p2, toks.len()) {
                    spec_parse_binary_op_with_left(toks, p2, left)
                } else {
                    None
                },
            },
        }
    }
}

/// `assignment := 'var' identifier '=' expression ';'?`
pub open spec fn spec_parse_assignment(toks: Seq<SpecTok>, pos: nat) -> Option<(SpecAst, nat)>
    decreases toks.len() - pos, 4nat,
{
    if pos < toks.len() && toks[pos as int] is Var && pos + 1 < toks.len() && pos + 2
        < toks.len() && toks[pos + 2 as int] is Equal {
        match toks[pos + 1 as int] {
            SpecTok::Identifier(name) => match spec_parse_expression(toks, (pos + 3) as nat) {
                None => None,
                Some((value, p2)) => {
                    let p3 = if p2 < toks.len() && toks[p2 as int] is Semicolon {
                        (p2 + 1) as nat
                    } else {
                        p2
                    };
                    Some((SpecAst::Assignment { var_name: name, value: Box::new(value) }, p3))
                },
            },
            _ => None,
        }
    } else {
        None
    }
}

/// `if := 'if' expression block ('else' block)?`
pub open spec fn spec_parse_if(toks: Seq<SpecTok>, pos: nat) -> Option<(SpecAst, nat)>
    decreases toks.len() - pos, 4nat,
{
    if pos < toks.len() && toks[pos as int] is If {
        match spec_parse_expression(toks, (pos + 1) as nat) {
            None => None,
            Some((cond, p2)) => if !advanced(pos, p2, toks.len()) {
                None
            } else {
                match spec_parse_block(toks, p2) {
                    None => None,
                    Some((then_b, p3)) => if !advanced(p2, p3, toks.len()) {
                        None
                    } else if p3 < toks.len() && toks[p3 as int] is Else {
                        match spec_parse_block(toks, (p3 + 1) as nat) {
                            None => None,
                            Some((else_b, p4)) => Some(
                                (
                                    SpecAst::If {
                                        condition: Box::new(cond),
                                        then_branch: Box::new(then_b),
                                        else_branch: Some(Box::new(else_b)),
                                    },
                                    p4,
                                ),
                            ),
                        }
                    } else {
                        Some(
                            (
                                SpecAst::If {
                                    condition: Box::new(cond),
                                    then_branch: Box::new(then_b),
                                    else_branch: None,
                                },
                                p3,
                            ),
                        )
                    },
                }
            },
        }
    } else {
        None
    }
}

/// `while := 'while' expression block`
pub open spec fn spec_parse_while(toks: Seq<SpecTok>, pos: nat) -> Option<(SpecAst, nat)>
    decreases toks.len() - pos, 4nat,
{
    if pos < toks.len() && toks[pos as int] is While {
        match spec_parse_expression(toks, (pos + 1) as nat) {
            None => None,
            Some((cond, p2)) => if !advanced(pos, p2, toks.len()) {
                None
            } else {
                match spec_parse_block(toks, p2) {
                    None => None,
                    Some((body, p3)) => Some(
                        (
                            SpecAst::While { condition: Box::new(cond), body: Box::new(body) },
                            p3,
                        ),
                    ),
                }
            },
        }
    } else {
        None
    }
}

/// `for := 'for' identifier 'in' range block`; the iterable must parse as
/// a range expression.
pub open spec fn spec_parse_for(toks: Seq<SpecTok>, pos: nat) -> Option<(SpecAst, nat)>
    decreases toks.len() - pos, 4nat,
{
    if pos < toks.len() && toks[pos as int] is For && pos + 1 < toks.len() && pos + 2
        < toks.len() && toks[pos + 2 as int] is In {
        match toks[pos + 1 as int] {
            SpecTok::Identifier(name) => match spec_parse_expression(toks, (pos + 3) as nat) {
                None => None,
                Some((iterable, p2)) => if !(iterable is Range) || !advanced(
                    pos,
                    p2,
                    toks.len(),
                ) {
                    None
                } else {
                    match spec_parse_block(toks, p2) {
                        None => None,
                        Some((body, p3)) => Some(
                            (
                                SpecAst::For {
                                    iterator: Box::new(SpecAst::Identifier(name)),
                                    iterable: Box::new(iterable),
                                    body: Box::new(body),
                                },
                                p3,
                            ),
                        ),
                    }
                },
            },
            _ => None,
        }
    } else {
        None
    }
}

/// `block := '{' statement* '}'`
pub open spec fn spec_parse_block(toks: Seq<SpecTok>, pos: nat) -> Option<(SpecAst, nat)>
    decreases toks.len() - pos, 5nat,
{
    if pos < toks.len() && toks[pos as int] is LeftBrace {
        match spec_parse_stmts(toks, (pos + 1) as nat) {
            None => None,
            Some((stmts, p2)) => Some((SpecAst::Block(stmts), p2)),
        }
    } else {
        None
    }
}

/// One statement inside a block: a `while`, `if`, `var` assignment, `for`
/// or `switch` form, or else an expression.
pub open spec fn spec_parse_statement(toks: Seq<SpecTok>, pos: nat) -> Option<(SpecAst, nat)>
    decreases toks.len() - pos, 5nat,
{
    match spec_parse_while(toks, pos) {
        Some(r) => Some(r),
        None => match spec_parse_if(toks, pos) {
            Some(r) => Some(r),
            None => match spec_parse_assignment(toks, pos) {
                Some(r) => Some(r),
                None => match spec_parse_for(toks, pos) {
                    Some(r) => Some(r),
                    None => match spec_parse_switch(toks, pos) {
                        Some(r) => Some(r),
                        None => spec_parse_expression(toks, pos),
                    },
                },
            },
        },
    }
}

/// The statement list of a block, up to and including the closing brace.
/// Stray semicolons between statements are tolerated and skipped.
pub open spec fn spec_parse_stmts(toks: Seq<SpecTok>, pos: nat) -> Option<(Seq<SpecAst>, nat)>
    decreases toks.len() - pos, 6nat,
{
    if pos >= toks.len() {
        None
    } else if toks[pos as int] is RightBrace {
        Some((Seq::empty(), (pos + 1) as nat))
    } else if toks[pos as int] is Semicolon {
        spec_parse_stmts(toks, (pos + 1) as nat)
    } else {
        match spec_parse_statement(toks, pos) {
            None => None,
            Some((node, p2)) => if !advanced(pos, p2, toks.len()) {
                None
            } else {
                match spec_parse_stmts(toks, p2) {
                    None => None,
                    Some((rest, p3)) => Some((seq![node] + rest, p3)),
                }
            },
        }
    }
}

/// The body of a `case` or `default` arm: a block, or a single `var`
/// assignment or expression, wrapped as a one-statement block.
pub open spec fn spec_parse_case_body(toks: Seq<SpecTok>, pos: nat) -> Option<(SpecAst, nat)>
    decreases toks.len() - pos, 6nat,
{
    if pos < toks.len() && toks[pos as int] is LeftBrace {
        spec_parse_block(toks, pos)
    } else {
        match spec_parse_assignment(toks, pos) {
            Some((a, p2)) => Some((SpecAst::Block(seq![a]), p2)),
            None => match spec_parse_expression(toks, pos) {
                Some((e, p2)) => Some((SpecAst::Block(seq![e]), p2)),
                None => None,
            },
        }
    }
}

/// The arms of a `switch` body: `case` arms in declaration order, then an
/// optional `default` arm, then the closing brace.
pub open spec fn spec_parse_cases(toks: Seq<SpecTok>, pos: nat) -> Option<
    (Seq<(SpecAst, SpecAst)>, Option<Box<SpecAst>>, nat),
>
    decreases toks.len() - pos, 7nat,
{
    if pos >= toks.len() {
        None
    } else {
        match toks[pos as int] {
            SpecTok::RightBrace => Some((Seq::empty(), None, (pos + 1) as nat)),
            SpecTok::Case => match spec_parse_expression(toks, (pos + 1) as nat) {
                None => None,
                Some((v, p2)) => if !advanced(pos, p2, toks.len()) {
                    None
                } else if p2 < toks.len() && toks[p2 as int] is Colon {
                    match spec_parse_case_body(toks, (p2 + 1) as nat) {
                        None => None,
                        Some((blk, p3)) => if !advanced((p2 + 1) as nat, p3, toks.len()) {
                            None
                        } else {
                            match spec_parse_cases(toks, p3) {
                                None => None,
                                Some((rest, default, p4)) => Some(
                                    (seq![(v, blk)] + rest, default, p4),
                                ),
                            }
                        },
                    }
                } else {
                    None
                },
            },
            SpecTok::Default => if pos + 1 < toks.len() && toks[pos + 1 as int] is Colon {
                match spec_parse_case_body(toks, (pos + 2) as nat) {
                    None => None,
                    Some((blk, p3)) => if p3 < toks.len() && toks[p3 as int] is RightBrace {
                        Some((Seq::empty(), Some(Box::new(blk)), (p3 + 1) as nat))
                    } else {
                        None
                    },
                }
            } else {
                None
            },
            _ => None,
        }
    }
}

/// The model of an optional boxed sub-node.
pub open spec fn opt_box_view(o: Option<Box<ASTNode>>) -> Option<Box<SpecAst>> {
    match o {
        Some(b) => Some(Box::new((*b)@)),
        None => None,
    }
}

/// `switch := 'switch' expression '{' case* default? '}'`
pub open spec fn spec_parse_switch(toks: Seq<SpecTok>, pos: nat) -> Option<(SpecAst, nat)>
    decreases toks.len() - pos, 4nat,
{
    if pos < toks.len() && toks[pos as int] is Switch {
        match spec_parse_expression(toks, (pos + 1) as nat) {
            None => None,
            Some((scrut, p2)) => if !advanced(pos, p2, toks.len()) {
                None
            } else if p2 < toks.len() && toks[p2 as int] is LeftBrace {
                match spec_parse_cases(toks, (p2 + 1) as nat) {
                    None => None,
                    Some((cases, default, p3)) => Some(
                        (
                            SpecAst::Switch {
                                expression: Box::new(scrut),
                                cases: cases,
                                default: default,
                            },
                            p3,
                        ),
                    ),
                }
            } else {
                None
            },
        }
    } else {
        None
    }
}

proof fn lemma_ast_views_cons(x: ASTNode, rest: Seq<ASTNode>)
    ensures
        ast_views(seq![x] + rest) == seq![x@] + ast_views(rest),
{
    let s = seq![x] + rest;
    assert(s[0] == x);
    assert(s.drop_first() =~= rest);
    assert(ast_views(s) =~= seq![x@] + ast_views(rest));
}

proof fn lemma_ast_views_singleton(x: ASTNode)
    ensures
        ast_views(seq![x]) == seq![x@],
{
    assert(ast_views(Seq::<ASTNode>::empty()) =~= Seq::<SpecAst>::empty());
    lemma_ast_views_cons(x, Seq::empty());
    assert(seq![x] + Seq::<ASTNode>::empty() =~= seq![x]);
    assert(seq![x@] + ast_views(Seq::<ASTNode>::empty()) =~= seq![x@]);
}

proof fn lemma_case_views_cons(x: (ASTNode, ASTNode), rest: Seq<(ASTNode, ASTNode)>)
    ensures
        case_views(seq![x] + rest) == seq![(x.0@, x.1@)] + case_views(rest),
{
    let s = seq![x] + rest;
    assert(s[0] == x);
    assert(s.drop_first() =~= rest);
    assert(case_views(s) =~= seq![(x.0@, x.1@)] + case_views(rest));
}

fn is_operator(t: &Token) -> (b: bool)
    ensures
        b == is_binary_operator(t@),
{
    match t {
        Token::Plus => true,
        Token::Minus => true,
        Token::Multiply => true,
        Token::Divide => true,
        Token::GreaterThan => true,
        Token::LessThan => true,
        Token::GreaterEqual => true,
        Token::LessEqual => true,
        _ => false,
    }
}

fn op_token_clone(t: &Token) -> (r: Token)
    requires
        is_binary_operator(t@),
    ensures
        r@ == t@,
{
    match t {
        Token::Plus => Token::Plus,
        Token::Minus => Token::Minus,
        Token::Multiply => Token::Multiply,
        Token::Divide => Token::Divide,
        Token::GreaterThan => Token::GreaterThan,
        Token::LessThan => Token::LessThan,
        Token::GreaterEqual => Token::GreaterEqual,
        _ => Token::LessEqual,
    }
}

fn is_right_paren(t: &Token) -> (b: bool)
    ensures
        b == (t@ is RightParen),
{
    match t {
        Token::RightParen => true,
        _ => false,
    }
}

fn is_left_brace(t: &Token) -> (b: bool)
    ensures
        b == (t@ is LeftBrace),
{
    match t {
        Token::LeftBrace => true,
        _ => false,
    }
}

fn is_right_brace(t: &Token) -> (b: bool)
    ensures
        b == (t@ is RightBrace),
{
    match t {
        Token::RightBrace => true,
        _ => false,
    }
}

fn is_semicolon(t: &Token) -> (b: bool)
    ensures
        b == (t@ is Semicolon),
{
    match t {
        Token::Semicolon => true,
        _ => false,
    }
}

fn is_colon(t: &Token) -> (b: bool)
    ensures
        b == (t@ is Colon),
{
    match t {
        Token::Colon => true,
        _ => false,
    }
}

fn is_else(t: &Token) -> (b: bool)
    ensures
        b == (t@ is Else),
{
    match t {
        Token::Else => true,
        _ => false,
    }
}

fn is_equal(t: &Token) -> (b: bool)
    ensures
        b == (t@ is Equal),
{
    match t {
        Token::Equal => true,
        _ => false,
    }
}

fn is_range_marker(t: &Token) -> (b: bool)
    ensures
        b == (t@ is Range),
{
    match t {
        Token::Range => true,
        _ => false,
    }
}

fn is_in_keyword(t: &Token) -> (b: bool)
    ensures
        b == (t@ is In),
{
    match t {
        Token::In => true,
        _ => false,
    }
}

fn parse_primary_at(tokens: &Vec<Token>, pos: usize) -> (r: Option<(ASTNode, usize)>)
    requires
        pos <= tokens@.len(),
    ensures
        ({
            let sr = spec_parse_primary(tok_views(tokens@), pos as nat);
            match r {
                None => sr is None,
                Some((node, p2)) => sr == Some((node@, p2 as nat)) && pos < p2 <= tokens@.len(),
            }
        }),
    decreases tokens@.len() - pos, 0nat,
{
    let n: usize = tokens.len();
    if pos >= n {
        return None;
    }
    match &tokens[pos] {
        Token::LeftParen => match parse_expression_at(tokens, pos + 1) {
            Some((e, p2)) => {
                if p2 < n && is_right_paren(&tokens[p2]) {
                    Some((e, p2 + 1))
                } else {
                    None
                }
            },
            None => None,
        },
        Token::Identifier(name) => Some((ASTNode::Identifier(name.clone()), pos + 1)),
        Token::Number(v) => Some((ASTNode::Number(*v), pos + 1)),
        _ => None,
    }
}

fn parse_binary_op_with_left_at(tokens: &Vec<Token>, pos: usize, left: ASTNode) -> (r: Option<
    (ASTNode, usize),
>)
    requires
        pos <= tokens@.len(),
    ensures
        ({
            let sr = spec_parse_binary_op_with_left(tok_views(tokens@), pos as nat, left@);
            match r {
                None => sr is None,
                Some((node, p2)) => sr == Some((node@, p2 as nat)) && pos <= p2 <= tokens@.len(),
            }
        }),
    decreases tokens@.len() - pos, 1nat,
{
    let n: usize = tokens.len();
    if pos < n && is_operator(&tokens[pos]) {
        match parse_primary_at(tokens, pos + 1) {
            Some((right, p2)) => {
                let op = op_token_clone(&tokens[pos]);
                Some(
                    (
                        ASTNode::BinaryOp {
                            left: Box::new(left),
                            operator: op,
                            right: Box::new(right),
                        },
                        p2,
                    ),
                )
            },
            None => None,
        }
    } else {
        Some((left, pos))
    }
}

fn parse_binary_op_at(tokens: &Vec<Token>, pos: usize) -> (r: Option<(ASTNode, usize)>)
    requires
        pos <= tokens@.len(),
    ensures
        ({
            let sr = spec_parse_binary_op(tok_views(tokens@), pos as nat);
            match r {
                None => sr is None,
                Some((node, p2)) => sr == Some((node@, p2 as nat)) && pos < p2 <= tokens@.len(),
            }
        }),
    decreases tokens@.len() - pos, 1nat,
{
    let n: usize = tokens.len();
    match parse_primary_at(tokens, pos) {
        None => None,
        Some((left, p2)) => {
            if p2 >= n {
                None
            } else if is_operator(&tokens[p2]) {
                match parse_primary_at(tokens, p2 + 1) {
                    Some((right, p3)) => {
                        let op = op_token_clone(&tokens[p2]);
                        Some(
                            (
                                ASTNode::BinaryOp {
                                    left: Box::new(left),
                                    operator: op,
                                    right: Box::new(right),
                                },
                                p3,
                            ),
                        )
                    },
                    None => None,
                }
            } else {
                Some((left, p2))
            }
        },
    }
}

fn parse_print_at(tokens: &Vec<Token>, pos: usize) -> (r: Option<(ASTNode, usize)>)
    requires
        pos <= tokens@.len(),
    ensures
        ({
            let sr = spec_parse_print(tok_views(tokens@), pos as nat);
            match r {
                None => sr is None,
                Some((node, p2)) => sr == Some((node@, p2 as nat)) && pos < p2 <= tokens@.len(),
            }
        }),
    decreases tokens@.len() - pos, 2nat,
{
    let n: usize = tokens.len();
    if pos >= n {
        return None;
    }
    let starts = match &tokens[pos] {
        Token::Print => true,
        _ => false,
    };
    if !(starts && pos + 1 < n) {
        return None;
    }
    let opens = match &tokens[pos + 1] {
        Token::LeftParen => true,
        _ => false,
    };
    if !opens {
        return None;
    }
    match parse_expression_at(tokens, pos + 2) {
        None => None,
        Some((e, p2)) => {
            if p2 < n && is_right_paren(&tokens[p2]) {
                if p2 + 1 < n && is_semicolon(&tokens[p2 + 1]) {
                    Some((ASTNode::Print(Box::new(e)), p2 + 2))
                } else {
                    None
                }
            } else {
                None
            }
        },
    }
}

fn parse_expression_at(tokens: &Vec<Token>, pos: usize) -> (r: Option<(ASTNode, usize)>)
    requires
        pos <= tokens@.len(),
    ensures
        ({
            let sr = spec_parse_expression(tok_views(tokens@), pos as nat);
            match r {
                None => sr is None,
                Some((node, p2)) => sr == Some((node@, p2 as nat)) && pos < p2 <= tokens@.len(),
            }
        }),
    decreases tokens@.len() - pos, 3nat,
{
    let n: usize = tokens.len();
    if pos >= n {
        return None;
    }
    match &tokens[pos] {
        Token::Number(v) => {
            if pos + 1 < n && is_range_marker(&tokens[pos + 1]) {
                if pos + 2 < n {
                    match &tokens[pos + 2] {
                        Token::Number(e) => {
                            proof {
                                assert((ASTNode::Number(*v))@ == SpecAst::Number(*v));
                                assert((ASTNode::Number(*e))@ == SpecAst::Number(*e));
                            }
                            Some(
                                (
                                    ASTNode::Range {
                                        start: Box::new(ASTNode::Number(*v)),
                                        end: Box::new(ASTNode::Number(*e)),
                                    },
                                    pos + 3,
                                ),
                            )
                        },
                        _ => None,
                    }
                } else {
                    None
                }
            } else {
                parse_binary_op_with_left_at(tokens, pos + 1, ASTNode::Number(*v))
            }
        },
        Token::Identifier(name) => {
            if pos + 1 < n && is_equal(&tokens[pos + 1]) {
                let var_name = name.clone();
                match parse_expression_at(tokens, pos + 2) {
                    None => None,
                    Some((rhs, p2)) => Some(
                        (ASTNode::Assignment { var_name, value: Box::new(rhs) }, p2),
                    ),
                }
            } else {
                parse_binary_op_with_left_at(tokens, pos + 1, ASTNode::Identifier(name.clone()))
            }
        },
        Token::Print => parse_print_at(tokens, pos),
        _ => match parse_primary_at(tokens, pos) {
            None => None,
            Some((left, p2)) => parse_binary_op_with_left_at(tokens, p2, left),
        },
    }
}

fn parse_assignment_at(tokens: &Vec<Token>, pos: usize) -> (r: Option<(ASTNode, usize)>)
    requires
        pos <= tokens@.len(),
    ensures
        ({
            let sr = spec_parse_assignment(tok_views(tokens@), pos as nat);
            match r {
                None => sr is None,
                Some((node, p2)) => sr == Some((node@, p2 as nat)) && pos < p2 <= tokens@.len(),
            }
        }),
    decreases tokens@.len() - pos, 4nat,
{
    let n: usize = tokens.len();
    if pos >= n || pos + 1 >= n || pos + 2 >= n {
        return None;
    }
    let starts = match &tokens[pos] {
        Token::Var => true,
        _ => false,
    };
    if !starts || !is_equal(&tokens[pos + 2]) {
        return None;
    }
    match &tokens[pos + 1] {
        Token::Identifier(name) => {
            let var_name = name.clone();
            match parse_expression_at(tokens, pos + 3) {
                None => None,
                Some((value, p2)) => {
                    let p3 = if p2 < n && is_semicolon(&tokens[p2]) {
                        p2 + 1
                    } else {
                        p2
                    };
                    Some((ASTNode::Assignment { var_name, value: Box::new(value) }, p3))
                },
            }
        },
        _ => None,
    }
}

fn parse_if_at(tokens: &Vec<Token>, pos: usize) -> (r: Option<(ASTNode, usize)>)
    requires
        pos <= tokens@.len(),
    ensures
        ({
            let sr = spec_parse_if(tok_views(tokens@), pos as nat);
            match r {
                None => sr is None,
                Some((node, p2)) => sr == Some((node@, p2 as nat)) && pos < p2 <= tokens@.len(),
            }
        }),
    decreases tokens@.len() - pos, 4nat,
{
    let n: usize = tokens.len();
    if pos >= n {
        return None;
    }
    let starts = match &tokens[pos] {
        Token::If => true,
        _ => false,
    };
    if !starts {
        return None;
    }
    match parse_expression_at(tokens, pos + 1) {
        None => None,
        Some((cond, p2)) => match parse_block_at(tokens, p2) {
            None => None,
            Some((then_b, p3)) => {
                if p3 < n && is_else(&tokens[p3]) {
                    match parse_block_at(tokens, p3 + 1) {
                        None => None,
                        Some((else_b, p4)) => Some(
                            (
                                ASTNode::If {
                                    condition: Box::new(cond),
                                    then_branch: Box::new(then_b),
                                    else_branch: Some(Box::new(else_b)),
                                },
                                p4,
                            ),
                        ),
                    }
                } else {
                    Some(
                        (
                            ASTNode::If {
                                condition: Box::new(cond),
                                then_branch: Box::new(then_b),
                                else_branch: None,
                            },
                            p3,
                        ),
                    )
                }
            },
        },
    }
}

fn parse_while_at(tokens: &Vec<Token>, pos: usize) -> (r: Option<(ASTNode, usize)>)
    requires
        pos <= tokens@.len(),
    ensures
        ({
            let sr = spec_parse_while(tok_views(tokens@), pos as nat);
            match r {
                None => sr is None,
                Some((node, p2)) => sr == Some((node@, p2 as nat)) && pos < p2 <= tokens@.len(),
            }
        }),
    decreases tokens@.len() - pos, 4nat,
{
    let n: usize = tokens.len();
    if pos >= n {
        return None;
    }
    let starts = match &tokens[pos] {
        Token::While => true,
        _ => false,
    };
    if !starts {
        return None;
    }
    match parse_expression_at(tokens, pos + 1) {
        None => None,
        Some((cond, p2)) => match parse_block_at(tokens, p2) {
            None => None,
            Some((body, p3)) => Some(
                (ASTNode::While { condition: Box::new(cond), body: Box::new(body) }, p3),
            ),
        },
    }
}

fn parse_for_at(tokens: &Vec<Token>, pos: usize) -> (r: Option<(ASTNode, usize)>)
    requires
        pos <= tokens@.len(),
    ensures
        ({
            let sr = spec_parse_for(tok_views(tokens@), pos as nat);
            match r {
                None => sr is None,
                Some((node, p2)) => sr == Some((node@, p2 as nat)) && pos < p2 <= tokens@.len(),
            }
        }),
    decreases tokens@.len() - pos, 4nat,
{
    let n: usize = tokens.len();
    if pos >= n || pos + 1 >= n || pos + 2 >= n {
        return None;
    }
    let starts = match &tokens[pos] {
        Token::For => true,
        _ => false,
    };
    if !starts || !is_in_keyword(&tokens[pos + 2]) {
        return None;
    }
    match &tokens[pos + 1] {
        Token::Identifier(name) => {
            let ghost nm = name@;
            let iter_name = name.clone();
            proof {
                assert((ASTNode::Identifier(iter_name))@ == SpecAst::Identifier(nm));
            }
            match parse_expression_at(tokens, pos + 3) {
                None => None,
                Some((iterable, p2)) => {
                    let ranged = match &iterable {
                        ASTNode::Range { .. } => true,
                        _ => false,
                    };
                    if !ranged {
                        None
                    } else {
                        match parse_block_at(tokens, p2) {
                            None => None,
                            Some((body, p3)) => Some(
                                (
                                    ASTNode::For {
                                        iterator: Box::new(ASTNode::Identifier(iter_name)),
                                        iterable: Box::new(iterable),
                                        body: Box::new(body),
                                    },
                                    p3,
                                ),
                            ),
                        }
                    }
                },
            }
        },
        _ => None,
    }
}

fn parse_block_at(tokens: &Vec<Token>, pos: usize) -> (r: Option<(ASTNode, usize)>)
    requires
        pos <= tokens@.len(),
    ensures
        ({
            let sr = spec_parse_block(tok_views(tokens@), pos as nat);
            match r {
                None => sr is None,
                Some((node, p2)) => sr == Some((node@, p2 as nat)) && pos < p2 <= tokens@.len(),
            }
        }),
    decreases tokens@.len() - pos, 5nat,
{
    let n: usize = tokens.len();
    if pos >= n || !is_left_brace(&tokens[pos]) {
        return None;
    }
    match parse_stmts_at(tokens, pos + 1) {
        None => None,
        Some((stmts, p2)) => Some((ASTNode::Block(stmts), p2)),
    }
}

fn parse_statement_at(tokens: &Vec<Token>, pos: usize) -> (r: Option<(ASTNode, usize)>)
    requires
        pos <= tokens@.len(),
    ensures
        ({
            let sr = spec_parse_statement(tok_views(tokens@), pos as nat);
            match r {
                None => sr is None,
                Some((node, p2)) => sr == Some((node@, p2 as nat)) && pos < p2 <= tokens@.len(),
            }
        }),
    decreases tokens@.len() - pos, 5nat,
{
    match parse_while_at(tokens, pos) {
        Some(r) => Some(r),
        None => match parse_if_at(tokens, pos) {
            Some(r) => Some(r),
            None => match parse_assignment_at(tokens, pos) {
                Some(r) => Some(r),
                None => match parse_for_at(tokens, pos) {
                    Some(r) => Some(r),
                    None => match parse_switch_at(tokens, pos) {
                        Some(r) => Some(r),
                        None => parse_expression_at(tokens, pos),
                    },
                },
            },
        },
    }
}

fn parse_stmts_at(tokens: &Vec<Token>, pos: usize) -> (r: Option<(Vec<ASTNode>, usize)>)
    requires
        pos <= tokens@.len(),
    ensures
        ({
            let sr = spec_parse_stmts(tok_views(tokens@), pos as nat);
            match r {
                None => sr is None,
                Some((v, p2)) => sr == Some((ast_views(v@), p2 as nat)) && pos < p2
                    <= tokens@.len(),
            }
        }),
    decreases tokens@.len() - pos, 6nat,
{
    let n: usize = tokens.len();
    if pos >= n {
        return None;
    }
    if is_right_brace(&tokens[pos]) {
        let out: Vec<ASTNode> = Vec::new();
        proof {
            assert(ast_views(out@) =~= Seq::<SpecAst>::empty());
        }
        return Some((out, pos + 1));
    }
    if is_semicolon(&tokens[pos]) {
        return parse_stmts_at(tokens, pos + 1);
    }
    match parse_statement_at(tokens, pos) {
        None => None,
        Some((node, p2)) => match parse_stmts_at(tokens, p2) {
            None => None,
            Some((rest, p3)) => {
                let ghost node_v = node@;
                let ghost rest_v = rest@;
                let mut out: Vec<ASTNode> = Vec::new();
                out.push(node);
                let mut tail = rest;
                out.append(&mut tail);
                proof {
                    assert(out@ =~= seq![out@[0]] + rest_v);
                    lemma_ast_views_cons(out@[0], rest_v);
                    assert(out@[0]@ == node_v);
                }
                Some((out, p3))
            },
        },
    }
}

fn parse_case_body_at(tokens: &Vec<Token>, pos: usize) -> (r: Option<(ASTNode, usize)>)
    requires
        pos <= tokens@.len(),
    ensures
        ({
            let sr = spec_parse_case_body(tok_views(tokens@), pos as nat);
            match r {
                None => sr is None,
                Some((node, p2)) => sr == Some((node@, p2 as nat)) && pos < p2 <= tokens@.len(),
            }
        }),
    decreases tokens@.len() - pos, 6nat,
{
    let n: usize = tokens.len();
    if pos < n && is_left_brace(&tokens[pos]) {
        parse_block_at(tokens, pos)
    } else {
        match parse_assignment_at(tokens, pos) {
            Some((a, p2)) => {
                let ghost a_v = a@;
                let mut stmts: Vec<ASTNode> = Vec::new();
                stmts.push(a);
                proof {
                    assert(stmts@ =~= seq![stmts@[0]]);
                    lemma_ast_views_singleton(stmts@[0]);
                    assert(stmts@[0]@ == a_v);
                }
                Some((ASTNode::Block(stmts), p2))
            },
            None => match parse_expression_at(tokens, pos) {
                Some((e, p2)) => {
                    let ghost e_v = e@;
                    let mut stmts: Vec<ASTNode> = Vec::new();
                    stmts.push(e);
                    proof {
                        assert(stmts@ =~= seq![stmts@[0]]);
                        lemma_ast_views_singleton(stmts@[0]);
                        assert(stmts@[0]@ == e_v);
                    }
                    Some((ASTNode::Block(stmts), p2))
                },
                None => None,
            },
        }
    }
}

fn parse_cases_at(tokens: &Vec<Token>, pos: usize) -> (r: Option<
    (Vec<(ASTNode, ASTNode)>, Option<Box<ASTNode>>, usize),
>)
    requires
        pos <= tokens@.len(),
    ensures
        ({
            let sr = spec_parse_cases(tok_views(tokens@), pos as nat);
            match r {
                None => sr is None,
                Some((cases, default, p2)) => sr == Some(
                    (case_views(cases@), opt_box_view(default), p2 as nat),
                ) && pos < p2 <= tokens@.len(),
            }
        }),
    decreases tokens@.len() - pos, 7nat,
{
    let n: usize = tokens.len();
    if pos >= n {
        return None;
    }
    match &tokens[pos] {
        Token::RightBrace => {
            let cases: Vec<(ASTNode, ASTNode)> = Vec::new();
            proof {
                assert(case_views(cases@) =~= Seq::<(SpecAst, SpecAst)>::empty());
            }
            Some((cases, None, pos + 1))
        },
        Token::Case => match parse_expression_at(tokens, pos + 1) {
            None => None,
            Some((v, p2)) => {
                if p2 < n && is_colon(&tokens[p2]) {
                    match parse_case_body_at(tokens, p2 + 1) {
                        None => None,
                        Some((blk, p3)) => match parse_cases_at(tokens, p3) {
                            None => None,
                            Some((rest, default, p4)) => {
                                let ghost v_v = v@;
                                let ghost blk_v = blk@;
                                let ghost rest_v = rest@;
                                let mut cases: Vec<(ASTNode, ASTNode)> = Vec::new();
                                cases.push((v, blk));
                                let mut tail = rest;
                                cases.append(&mut tail);
                                proof {
                                    assert(cases@ =~= seq![cases@[0]] + rest_v);
                                    lemma_case_views_cons(cases@[0], rest_v);
                                    assert(cases@[0].0@ == v_v && cases@[0].1@ == blk_v);
                                }
                                Some((cases, default, p4))
                            },
                        },
                    }
                } else {
                    None
                }
            },
        },
        Token::Default => {
            if pos + 1 < n && is_colon(&tokens[pos + 1]) {
                match parse_case_body_at(tokens, pos + 2) {
                    None => None,
                    Some((blk, p3)) => {
                        if p3 < n && is_right_brace(&tokens[p3]) {
                            let cases: Vec<(ASTNode, ASTNode)> = Vec::new();
                            proof {
                                assert(case_views(cases@) =~= Seq::<(SpecAst, SpecAst)>::empty());
                            }
                            Some((cases, Some(Box::new(blk)), p3 + 1))
                        } else {
                            None
                        }
                    },
                }
            } else {
                None
            }
        },
        _ => None,
    }
}

fn parse_switch_at(tokens: &Vec<Token>, pos: usize) -> (r: Option<(ASTNode, usize)>)
    requires
        pos <= tokens@.len(),
    ensures
        ({
            let sr = spec_parse_switch(tok_views(tokens@), pos as nat);
            match r {
                None => sr is None,
                Some((node, p2)) => sr == Some((node@, p2 as nat)) && pos < p2 <= tokens@.len(),
            }
        }),
    decreases tokens@.len() - pos, 4nat,
{
    let n: usize = tokens.len();
    if pos >= n {
        return None;
    }
    let starts = match &tokens[pos] {
        Token::Switch => true,
        _ => false,
    };
    if !starts {
        return None;
    }
    match parse_expression_at(tokens, pos + 1) {
        None => None,
        Some((scrut, p2)) => {
            if p2 < n && is_left_brace(&tokens[p2]) {
                match parse_cases_at(tokens, p2 + 1) {
                    None => None,
                    Some((cases, default, p3)) => Some(
                        (
                            ASTNode::Switch {
                                expression: Box::new(scrut),
                                cases,
                                default,
                            },
                            p3,
                        ),
                    ),
                }
            } else {
                None
            }
        },
    }
}

/// Removes the first `k` tokens: what a successful parse consumed.
fn consume(tokens: &mut Vec<Token>, k: usize)
    requires
        k <= old(tokens)@.len(),
    ensures
        final(tokens)@ == old(tokens)@.skip(k as int),
{
    let rest = tokens.split_off(k);
    *tokens = rest;
    proof {
        assert(tokens@ =~= old(tokens)@.skip(k as int));
    }
}

/// `assignment := 'var' identifier '=' expression ';'?`
///
/// On success the returned node is the parsed assignment and exactly the
/// tokens of the form, the optional trailing semicolon included, are
/// removed from the front; on no-match the tokens are left untouched.
pub fn parse_assignment(tokens: &mut Vec<Token>) -> (r: Option<ASTNode>)
    ensures
        ({
            let sr = spec_parse_assignment(tok_views(old(tokens)@), 0);
            match r {
                None => sr is None && final(tokens)@ == old(tokens)@,
                Some(node) => sr matches Some((snode, k)) && node@ == snode && final(tokens)@
                    == old(tokens)@.skip(k as int),
            }
        }),
{
    match parse_assignment_at(tokens, 0) {
        None => None,
        Some((node, k)) => {
            consume(tokens, k);
            Some(node)
        },
    }
}

/// `expression := range | assignment-to-existing | binary-op | print |
/// identifier | number`, consuming exactly the expression's tokens on
/// success and nothing on no-match.
pub fn parse_expression(tokens: &mut Vec<Token>) -> (r: Option<ASTNode>)
    ensures
        ({
            let sr = spec_parse_expression(tok_views(old(tokens)@), 0);
            match r {
                None => sr is None && final(tokens)@ == old(tokens)@,
                Some(node) => sr matches Some((snode, k)) && node@ == snode && final(tokens)@
                    == old(tokens)@.skip(k as int),
            }
        }),
{
    match parse_expression_at(tokens, 0) {
        None => None,
        Some((node, k)) => {
            consume(tokens, k);
            Some(node)
        },
    }
}

/// `print := 'print' '(' expression ')' ';'`
pub fn parse_print(tokens: &mut Vec<Token>) -> (r: Option<ASTNode>)
    ensures
        ({
            let sr = spec_parse_print(tok_views(old(tokens)@), 0);
            match r {
                None => sr is None && final(tokens)@ == old(tokens)@,
                Some(node) => sr matches Some((snode, k)) && node@ == snode && final(tokens)@
                    == old(tokens)@.skip(k as int),
            }
        }),
{
    match parse_print_at(tokens, 0) {
        None => None,
        Some((node, k)) => {
            consume(tokens, k);
            Some(node)
        },
    }
}

/// `if := 'if' expression block ('else' block)?`
pub fn parse_if(tokens: &mut Vec<Token>) -> (r: Option<ASTNode>)
    ensures
        ({
            let sr = spec_parse_if(tok_views(old(tokens)@), 0);
            match r {
                None => sr is None && final(tokens)@ == old(tokens)@,
                Some(node) => sr matches Some((snode, k)) && node@ == snode && final(tokens)@
                    == old(tokens)@.skip(k as int),
            }
        }),
{
    match parse_if_at(tokens, 0) {
        None => None,
        Some((node, k)) => {
            consume(tokens, k);
            Some(node)
        },
    }
}

/// `while := 'while' expression block`
pub fn parse_while(tokens: &mut Vec<Token>) -> (r: Option<ASTNode>)
    ensures
        ({
            let sr = spec_parse_while(tok_views(old(tokens)@), 0);
            match r {
                None => sr is None && final(tokens)@ == old(tokens)@,
                Some(node) => sr matches Some((snode, k)) && node@ == snode && final(tokens)@
                    == old(tokens)@.skip(k as int),
            }
        }),
{
    match parse_while_at(tokens, 0) {
        None => None,
        Some((node, k)) => {
            consume(tokens, k);
            Some(node)
        },
    }
}

/// `block := '{' statement* '}'`
pub fn parse_block(tokens: &mut Vec<Token>) -> (r: Option<ASTNode>)
    ensures
        ({
            let sr = spec_parse_block(tok_views(old(tokens)@), 0);
            match r {
                None => sr is None && final(tokens)@ == old(tokens)@,
                Some(node) => sr matches Some((snode, k)) && node@ == snode && final(tokens)@
                    == old(tokens)@.skip(k as int),
            }
        }),
{
    match parse_block_at(tokens, 0) {
        None => None,
        Some((node, k)) => {
            consume(tokens, k);
            Some(node)
        },
    }
}

/// `binary-op := primary operator primary`, falling back to the bare
/// primary when no operator follows.
pub fn parse_binary_op(tokens: &mut Vec<Token>) -> (r: Option<ASTNode>)
    ensures
        ({
            let sr = spec_parse_binary_op(tok_views(old(tokens)@), 0);
            match r {
                None => sr is None && final(tokens)@ == old(tokens)@,
                Some(node) => sr matches Some((snode, k)) && node@ == snode && final(tokens)@
                    == old(tokens)@.skip(k as int),
            }
        }),
{
    match parse_binary_op_at(tokens, 0) {
        None => None,
        Some((node, k)) => {
            consume(tokens, k);
            Some(node)
        },
    }
}

/// `primary := '(' expression ')' | identifier | number`
pub fn parse_primary_expression(tokens: &mut Vec<Token>) -> (r: Option<ASTNode>)
    ensures
        ({
            let sr = spec_parse_primary(tok_views(old(tokens)@), 0);
            match r {
                None => sr is None && final(tokens)@ == old(tokens)@,
                Some(node) => sr matches Some((snode, k)) && node@ == snode && final(tokens)@
                    == old(tokens)@.skip(k as int),
            }
        }),
{
    match parse_primary_at(tokens, 0) {
        None => None,
        Some((node, k)) => {
            consume(tokens, k);
            Some(node)
        },
    }
}

/// Continues an expression whose left operand is already parsed: if a
/// binary operator begins the token sequence, it and a primary right
/// operand are consumed and a binary operation is returned; otherwise the
/// left operand is returned and nothing is consumed.
pub fn parse_binary_op_with_left(tokens: &mut Vec<Token>, left: ASTNode) -> (r: Option<ASTNode>)
    ensures
        ({
            let sr = spec_parse_binary_op_with_left(tok_views(old(tokens)@), 0, left@);
            match r {
                None => sr is None && final(tokens)@ == old(tokens)@,
                Some(node) => sr matches Some((snode, k)) && node@ == snode && final(tokens)@
                    == old(tokens)@.skip(k as int),
            }
        }),
{
    match parse_binary_op_with_left_at(tokens, 0, left) {
        None => None,
        Some((node, k)) => {
            consume(tokens, k);
            Some(node)
        },
    }
}

/// `for := 'for' identifier 'in' range block`
pub fn parse_for(tokens: &mut Vec<Token>) -> (r: Option<ASTNode>)
    ensures
        ({
            let sr = spec_parse_for(tok_views(old(tokens)@), 0);
            match r {
                None => sr is None && final(tokens)@ == old(tokens)@,
                Some(node) => sr matches Some((snode, k)) && node@ == snode && final(tokens)@
                    == old(tokens)@.skip(k as int),
            }
        }),
{
    match parse_for_at(tokens, 0) {
        None => None,
        Some((node, k)) => {
            consume(tokens, k);
            Some(node)
        },
    }
}

/// `switch := 'switch' expression '{' case* default? '}'`
pub fn parse_switch(tokens: &mut Vec<Token>) -> (r: Option<ASTNode>)
    ensures
        ({
            let sr = spec_parse_switch(tok_views(old(tokens)@), 0);
            match r {
                None => sr is None && final(tokens)@ == old(tokens)@,
                Some(node) => sr matches Some((snode, k)) && node@ == snode && final(tokens)@
                    == old(tokens)@.skip(k as int),
            }
        }),
{
    match parse_switch_at(tokens, 0) {
        None => None,
        Some((node, k)) => {
            consume(tokens, k);
            Some(node)
        },
    }
}

} // verus!
