//! The tree-walking evaluator: executes one syntax-tree node against a
//! mutable variable environment, collecting one output value per `print`.
//!
//! Runtime faults (an unbound identifier, an operator outside the
//! evaluable set, division by zero, an arithmetic overflow, a node shape
//! that is not a value in expression position) are typed errors, fatal to
//! the statement in progress; the environment keeps the bindings made up
//! to the fault.
//!
//! Execution is bounded by a step budget (`fuel`): entering a statement
//! and each loop iteration cost one unit, so every run terminates. A
//! `while` loop whose condition stays true runs until the budget is
//! exhausted and reports that; with enough budget the semantics is the
//! untruncated one.

use vstd::prelude::*;

use crate::env::Env;
use crate::lexer::SpecTok;
use crate::parser::{ast_views, case_views, opt_box_view, ASTNode, SpecAst};

verus! {

/// Why an evaluation stopped without a result.
#[derive(Debug, Clone, Copy, PartialEq, Eq, Structural)]
pub enum RuntimeError {
    /// An identifier was read that is not bound in the environment.
    UndefinedVariable,
    /// A binary operation carried a token outside the evaluable operator
    /// set (for value positions: `+ - * /`; for conditions: the four
    /// comparisons).
    UnknownOperator,
    /// The right operand of `/` was zero.
    DivisionByZero,
    /// An arithmetic result does not fit a 64-bit signed integer.
    Overflow,
    /// A node shape that is not a value appeared in expression position.
    UnsupportedNode,
    /// The step budget ran out before execution finished.
    OutOfFuel,
}

/// The quotient truncated toward zero, as machine integer division has it.
pub open spec fn trunc_div(a: int, b: int) -> int
    recommends
        b != 0,
{
    let qa = if a >= 0 {
        a
    } else {
        -a
    };
    let qb = if b >= 0 {
        b
    } else {
        -b
    };
    if (a < 0) == (b < 0) {
        qa / qb
    } else {
        -(qa / qb)
    }
}

/// What a binary operator yields on two values in expression position:
/// `+ - *` exactly when the result fits an `i64`, `/` truncating toward
/// zero and fatal on a zero divisor; every other token is not an operator
/// of value positions.
pub open spec fn apply_binary_op(op: SpecTok, a: i64, b: i64) -> Result<i64, RuntimeError> {
    match op {
        SpecTok::Plus => if i64::MIN <= a + b <= i64::MAX {
            Ok((a + b) as i64)
        } else {
            Err(RuntimeError::Overflow)
        },
        SpecTok::Minus => if i64::MIN <= a - b <= i64::MAX {
            Ok((a - b) as i64)
        } else {
            Err(RuntimeError::Overflow)
        },
        SpecTok::Multiply => if i64::MIN <= a * b <= i64::MAX {
            Ok((a * b) as i64)
        } else {
            Err(RuntimeError::Overflow)
        },
        SpecTok::Divide => if b == 0 {
            Err(RuntimeError::DivisionByZero)
        } else if i64::MIN <= trunc_div(a as int, b as int) <= i64::MAX {
            Ok(trunc_div(a as int, b as int) as i64)
        } else {
            Err(RuntimeError::Overflow)
        },
        _ => Err(RuntimeError::UnknownOperator),
    }
}

/// The value of a node in expression position: a literal, a bound
/// identifier, or a binary operation whose operands are evaluated left to
/// right, both always.
pub open spec fn spec_eval_expr(e: SpecAst, env: Map<Seq<char>, i64>) -> Result<i64, RuntimeError>
    decreases e,
{
    match e {
        SpecAst::Number(v) => Ok(v),
        SpecAst::Identifier(n) => if env.contains_key(n) {
            Ok(env[n])
        } else {
            Err(RuntimeError::UndefinedVariable)
        },
        SpecAst::BinaryOp { left, operator, right } => match spec_eval_expr(*left, env) {
            Err(er) => Err(er),
            Ok(a) => match spec_eval_expr(*right, env) {
                Err(er) => Err(er),
                Ok(b) => apply_binary_op(operator, a, b),
            },
        },
        _ => Err(RuntimeError::UnsupportedNode),
    }
}

/// The value of a node in condition position: a number or bound
/// identifier is true when nonzero; a binary operation must carry one of
/// the four comparisons.
pub open spec fn spec_eval_cond(e: SpecAst, env: Map<Seq<char>, i64>) -> Result<bool, RuntimeError>
    decreases e,
{
    match e {
        SpecAst::Number(v) => Ok(v != 0),
        SpecAst::Identifier(n) => if env.contains_key(n) {
            Ok(env[n] != 0)
        } else {
            Err(RuntimeError::UndefinedVariable)
        },
        SpecAst::BinaryOp { left, operator, right } => match spec_eval_expr(*left, env) {
            Err(er) => Err(er),
            Ok(a) => match spec_eval_expr(*right, env) {
                Err(er) => Err(er),
                Ok(b) => match operator {
                    SpecTok::GreaterThan => Ok(a > b),
                    SpecTok::LessThan => Ok(a < b),
                    SpecTok::GreaterEqual => Ok(a >= b),
                    SpecTok::LessEqual => Ok(a <= b),
                    _ => Err(RuntimeError::UnknownOperator),
                },
            },
        },
        _ => Err(RuntimeError::UnsupportedNode),
    }
}

/// What executing a statement leaves behind: the environment, the output
/// produced (one value per `print` evaluation, in order), and the fault
/// that stopped execution, if one did. On a fault the environment and
/// output hold everything done up to it.
pub struct RunOutcome {
    pub env: Map<Seq<char>, i64>,
    pub out: Seq<i64>,
    pub err: Option<RuntimeError>,
}

/// Executes one statement with the given step budget.
///
/// Statement by statement: assignment binds or
/// overwrites; `print` appends one value; `if` takes exactly one branch;
/// `while` re-evaluates its condition before every iteration; `for` binds
/// the iterator over `[start, end)` in ascending order and removes it
/// afterwards; `switch` executes the first matching case, else the
/// default; a block runs its statements in order; a bare value node in
/// statement position has no effect. A `for` whose pieces are not an
/// identifier and a range also has no effect.
pub open spec fn spec_run_stmt(s: SpecAst, env: Map<Seq<char>, i64>, fuel: nat) -> RunOutcome
    decreases fuel, 0nat,
{
    if fuel == 0 {
        RunOutcome { env, out: Seq::empty(), err: Some(RuntimeError::OutOfFuel) }
    } else {
        match s {
            SpecAst::Assignment { var_name, value } => match spec_eval_expr(*value, env) {
                Err(er) => RunOutcome { env, out: Seq::empty(), err: Some(er) },
                Ok(v) => RunOutcome {
                    env: env.insert(var_name, v),
                    out: Seq::empty(),
                    err: None,
                },
            },
            SpecAst::Print(e) => match spec_eval_expr(*e, env) {
                Err(er) => RunOutcome { env, out: Seq::empty(), err: Some(er) },
                Ok(v) => RunOutcome { env, out: seq![v], err: None },
            },
            SpecAst::If { condition, then_branch, else_branch } => match spec_eval_cond(
                *condition,
                env,
            ) {
                Err(er) => RunOutcome { env, out: Seq::empty(), err: Some(er) },
                Ok(true) => spec_run_stmt(*then_branch, env, (fuel - 1) as nat),
                Ok(false) => match else_branch {
                    Some(e) => spec_run_stmt(*e, env, (fuel - 1) as nat),
                    None => RunOutcome { env, out: Seq::empty(), err: None },
                },
            },
            SpecAst::While { condition, body } => match spec_eval_cond(*condition, env) {
                Err(er) => RunOutcome { env, out: Seq::empty(), err: Some(er) },
                Ok(false) => RunOutcome { env, out: Seq::empty(), err: None },
                Ok(true) => {
                    let first = spec_run_stmt(*body, env, (fuel - 1) as nat);
                    if first.err is Some {
                        first
                    } else {
                        let rest = spec_run_stmt(
                            SpecAst::While { condition, body },
                            first.env,
                            (fuel - 1) as nat,
                        );
                        RunOutcome { env: rest.env, out: first.out + rest.out, err: rest.err }
                    }
                },
            },
            SpecAst::Block(stmts) => spec_run_stmts(stmts, env, (fuel - 1) as nat),
            SpecAst::For { iterator, iterable, body } => match *iterator {
                SpecAst::Identifier(name) => match *iterable {
                    SpecAst::Range { start, end } => match spec_eval_expr(*start, env) {
                        Err(er) => RunOutcome { env, out: Seq::empty(), err: Some(er) },
                        Ok(s0) => match spec_eval_expr(*end, env) {
                            Err(er) => RunOutcome { env, out: Seq::empty(), err: Some(er) },
                            Ok(e0) => spec_run_for(
                                name,
                                s0 as int,
                                e0 as int,
                                *body,
                                env,
                                (fuel - 1) as nat,
                            ),
                        },
                    },
                    _ => RunOutcome { env, out: Seq::empty(), err: None },
                },
                _ => RunOutcome { env, out: Seq::empty(), err: None },
            },
            SpecAst::Switch { expression, cases, default } => match spec_eval_expr(
                *expression,
                env,
            ) {
                Err(er) => RunOutcome { env, out: Seq::empty(), err: Some(er) },
                Ok(v) => spec_run_cases(v, cases, default, env, (fuel - 1) as nat),
            },
            _ => RunOutcome { env, out: Seq::empty(), err: None },
        }
    }
}

/// Executes a statement list in order, stopping at the first fault.
pub open spec fn spec_run_stmts(stmts: Seq<SpecAst>, env: Map<Seq<char>, i64>, fuel: nat) -> RunOutcome
    decreases fuel, stmts.len() + 1,
{
    if stmts.len() == 0 {
        RunOutcome { env, out: Seq::empty(), err: None }
    } else {
        let first = spec_run_stmt(stmts[0], env, fuel);
        if first.err is Some {
            first
        } else {
            let rest = spec_run_stmts(stmts.drop_first(), first.env, fuel);
            RunOutcome { env: rest.env, out: first.out + rest.out, err: rest.err }
        }
    }
}

/// Runs a `for` body once per integer in `[i, end)` in ascending order,
/// the iterator variable bound to the current value; afterwards the
/// iterator variable is removed from the environment. Each iteration
/// costs one unit of budget.
pub open spec fn spec_run_for(
    name: Seq<char>,
    i: int,
    end: int,
    body: SpecAst,
    env: Map<Seq<char>, i64>,
    fuel: nat,
) -> RunOutcome
    recommends
        i64::MIN <= i,
        end <= i64::MAX,
    decreases fuel, 1nat,
{
    if i >= end {
        RunOutcome { env: env.remove(name), out: Seq::empty(), err: None }
    } else if fuel == 0 {
        RunOutcome { env, out: Seq::empty(), err: Some(RuntimeError::OutOfFuel) }
    } else {
        let first = spec_run_stmt(body, env.insert(name, i as i64), fuel);
        if first.err is Some {
            first
        } else {
            let rest = spec_run_for(name, i + 1, end, body, first.env, (fuel - 1) as nat);
            RunOutcome { env: rest.env, out: first.out + rest.out, err: rest.err }
        }
    }
}

/// Scans `case` arms in declaration order and executes the block of the
/// first whose value equals the scrutinee, stopping there; with no match,
/// the default block if present, else nothing.
pub open spec fn spec_run_cases(
    scrutinee: i64,
    cases: Seq<(SpecAst, SpecAst)>,
    default: Option<Box<SpecAst>>,
    env: Map<Seq<char>, i64>,
    fuel: nat,
) -> RunOutcome
    decreases fuel, cases.len() + 1,
{
    if cases.len() == 0 {
        match default {
            Some(d) => spec_run_stmt(*d, env, fuel),
            None => RunOutcome { env, out: Seq::empty(), err: None },
        }
    } else {
        match spec_eval_expr(cases[0].0, env) {
            Err(er) => RunOutcome { env, out: Seq::empty(), err: Some(er) },
            Ok(cv) => if cv == scrutinee {
                spec_run_stmt(cases[0].1, env, fuel)
            } else {
                spec_run_cases(scrutinee, cases.drop_first(), default, env, fuel)
            },
        }
    }
}

fn apply_operator(op: &crate::lexer::Token, a: i64, b: i64) -> (r: Result<i64, RuntimeError>)
    ensures
        r == apply_binary_op(op@, a, b),
{
    match op {
        crate::lexer::Token::Plus => {
            let s: i128 = a as i128 + b as i128;
            if s >= i64::MIN as i128 && s <= i64::MAX as i128 {
                Ok(s as i64)
            } else {
                Err(RuntimeError::Overflow)
            }
        },
        crate::lexer::Token::Minus => {
            let s: i128 = a as i128 - b as i128;
            if s >= i64::MIN as i128 && s <= i64::MAX as i128 {
                Ok(s as i64)
            } else {
                Err(RuntimeError::Overflow)
            }
        },
        crate::lexer::Token::Multiply => {
            proof {
                assert(-0x40000000000000000000000000000000 <= (a as int) * (b as int)
                    <= 0x40000000000000000000000000000000) by (nonlinear_arith)
                    requires
                        -0x8000000000000000 <= a as int <= 0x7fffffffffffffff,
                        -0x8000000000000000 <= b as int <= 0x7fffffffffffffff,
                ;
            }
            let s: i128 = a as i128 * b as i128;
            if s >= i64::MIN as i128 && s <= i64::MAX as i128 {
                Ok(s as i64)
            } else {
                Err(RuntimeError::Overflow)
            }
        },
        crate::lexer::Token::Divide => {
            if b == 0 {
                Err(RuntimeError::DivisionByZero)
            } else if a == i64::MIN && b == -1 {
                proof {
                    assert(trunc_div(a as int, b as int) == -(a as int)) by {
                        assert((-(a as int)) / 1int == -(a as int));
                    };
                }
                Err(RuntimeError::Overflow)
            } else {
                let ua: u64 = if a >= 0 {
                    a as u64
                } else {
                    (-(a as i128)) as u64
                };
                let ub: u64 = if b >= 0 {
                    b as u64
                } else {
                    (-(b as i128)) as u64
                };
                let q: u64 = ua / ub;
                proof {
                    assert(ua as int / ub as int <= ua as int) by (nonlinear_arith)
                        requires
                            ub >= 1,
                            ua >= 0,
                    ;
                }
                if (a < 0) != (b < 0) {
                    Ok((-(q as i128)) as i64)
                } else {
                    proof {
                        if a == i64::MIN {
                            assert(b <= -2);
                            assert(ua as int / ub as int <= ua as int / 2) by (nonlinear_arith)
                                requires
                                    ub >= 2,
                                    ua >= 0,
                            ;
                        }
                    }
                    Ok(q as i64)
                }
            }
        },
        _ => Err(RuntimeError::UnknownOperator),
    }
}

/// The value of a node in expression position, exactly as
/// [`spec_eval_expr`] has it; pure with respect to the environment.
pub fn evaluate_expression(expr: &ASTNode, env: &Env) -> (r: Result<i64, RuntimeError>)
    ensures
        r == spec_eval_expr(expr@, env@),
    decreases expr,
{
    match expr {
        ASTNode::Number(v) => Ok(*v),
        ASTNode::Identifier(name) => match env.get(name.as_str()) {
            Some(v) => Ok(v),
            None => Err(RuntimeError::UndefinedVariable),
        },
        ASTNode::BinaryOp { left, operator, right } => match evaluate_expression(left, env) {
            Err(er) => Err(er),
            Ok(a) => match evaluate_expression(right, env) {
                Err(er) => Err(er),
                Ok(b) => apply_operator(operator, a, b),
            },
        },
        _ => Err(RuntimeError::UnsupportedNode),
    }
}

/// The truth value of a node in condition position, exactly as
/// [`spec_eval_cond`] has it; pure with respect to the environment.
pub fn evaluate_condition(condition: &ASTNode, env: &Env) -> (r: Result<bool, RuntimeError>)
    ensures
        r == spec_eval_cond(condition@, env@),
    decreases condition,
{
    match condition {
        ASTNode::Number(v) => Ok(*v != 0),
        ASTNode::Identifier(name) => match env.get(name.as_str()) {
            Some(v) => Ok(v != 0),
            None => Err(RuntimeError::UndefinedVariable),
        },
        ASTNode::BinaryOp { left, operator, right } => match evaluate_expression(left, env) {
            Err(er) => Err(er),
            Ok(a) => match evaluate_expression(right, env) {
                Err(er) => Err(er),
                Ok(b) => match operator {
                    crate::lexer::Token::GreaterThan => Ok(a > b),
                    crate::lexer::Token::LessThan => Ok(a < b),
                    crate::lexer::Token::GreaterEqual => Ok(a >= b),
                    crate::lexer::Token::LessEqual => Ok(a <= b),
                    _ => Err(RuntimeError::UnknownOperator),
                },
            },
        },
        _ => Err(RuntimeError::UnsupportedNode),
    }
}

proof fn lemma_ast_views_index(nodes: Seq<ASTNode>)
    ensures
        ast_views(nodes).len() == nodes.len(),
        forall|i: int| 0 <= i < nodes.len() ==> ast_views(nodes)[i] == nodes[i]@,
    decreases nodes.len(),
{
    if nodes.len() > 0 {
        lemma_ast_views_index(nodes.drop_first());
        assert(ast_views(nodes) == seq![nodes[0]@] + ast_views(nodes.drop_first()));
        assert forall|i: int| 0 <= i < nodes.len() implies ast_views(nodes)[i] == nodes[i]@ by {
            if i > 0 {
                assert(nodes.drop_first()[i - 1] == nodes[i]);
            }
        }
    }
}

proof fn lemma_case_views_index(cases: Seq<(ASTNode, ASTNode)>)
    ensures
        case_views(cases).len() == cases.len(),
        forall|i: int|
            0 <= i < cases.len() ==> case_views(cases)[i] == (cases[i].0@, cases[i].1@),
    decreases cases.len(),
{
    if cases.len() > 0 {
        lemma_case_views_index(cases.drop_first());
        assert(case_views(cases) == seq![(cases[0].0@, cases[0].1@)] + case_views(
            cases.drop_first(),
        ));
        assert forall|i: int|
            0 <= i < cases.len() implies case_views(cases)[i] == (cases[i].0@, cases[i].1@) by {
            if i > 0 {
                assert(cases.drop_first()[i - 1] == cases[i]);
            }
        }
    }
}

/// Executes one statement against the environment, appending each
/// `print`'s value to `output`, with the given step budget; exactly as
/// [`spec_run_stmt`] has it.
pub fn interpret(ast: &ASTNode, env: &mut Env, output: &mut Vec<i64>, fuel: u64) -> (r: Result<
    (),
    RuntimeError,
>)
    ensures
        ({
            let oc = spec_run_stmt(ast@, old(env)@, fuel as nat);
            &&& final(env)@ == oc.env
            &&& final(output)@ == old(output)@ + oc.out
            &&& match oc.err {
                None => r is Ok,
                Some(er) => r == Err::<(), RuntimeError>(er),
            }
        }),
    decreases fuel, 0nat,
{
    let ghost oc = spec_run_stmt(ast@, env@, fuel as nat);
    if fuel == 0 {
        proof {
            assert(output@ + oc.out =~= output@);
        }
        return Err(RuntimeError::OutOfFuel);
    }
    match ast {
        ASTNode::Assignment { var_name, value } => match evaluate_expression(value, env) {
            Err(er) => {
                proof {
                    assert(output@ + oc.out =~= output@);
                }
                Err(er)
            },
            Ok(v) => {
                env.insert(var_name.as_str(), v);
                proof {
                    assert(output@ + oc.out =~= output@);
                }
                Ok(())
            },
        },
        ASTNode::Print(e) => match evaluate_expression(e, env) {
            Err(er) => {
                proof {
                    assert(output@ + oc.out =~= output@);
                }
                Err(er)
            },
            Ok(v) => {
                output.push(v);
                proof {
                    assert(output@ =~= old(output)@ + oc.out);
                }
                Ok(())
            },
        },
        ASTNode::If { condition, then_branch, else_branch } => match evaluate_condition(
            condition,
            env,
        ) {
            Err(er) => {
                proof {
                    assert(output@ + oc.out =~= output@);
                }
                Err(er)
            },
            Ok(true) => interpret(then_branch, env, output, fuel - 1),
            Ok(false) => match else_branch {
                Some(e) => interpret(e, env, output, fuel - 1),
                None => {
                    proof {
                        assert(output@ + oc.out =~= output@);
                    }
                    Ok(())
                },
            },
        },
        ASTNode::While { condition, body } => match evaluate_condition(condition, env) {
            Err(er) => {
                proof {
                    assert(output@ + oc.out =~= output@);
                }
                Err(er)
            },
            Ok(false) => {
                proof {
                    assert(output@ + oc.out =~= output@);
                }
                Ok(())
            },
            Ok(true) => {
                let ghost first = spec_run_stmt(body@, env@, (fuel - 1) as nat);
                match interpret(body, env, output, fuel - 1) {
                    Err(er) => Err(er),
                    Ok(()) => {
                        let ghost rest = spec_run_stmt(ast@, env@, (fuel - 1) as nat);
                        let r = interpret(ast, env, output, fuel - 1);
                        proof {
                            assert(old(output)@ + (first.out + rest.out) =~= (old(output)@
                                + first.out) + rest.out);
                        }
                        r
                    },
                }
            },
        },
        ASTNode::Block(stmts) => {
            proof {
                assert(ast_views(stmts@).skip(0) =~= ast_views(stmts@));
            }
            interpret_stmts(stmts, 0, env, output, fuel - 1)
        },
        ASTNode::For { iterator, iterable, body } => match (&**iterator, &**iterable) {
            (ASTNode::Identifier(name), ASTNode::Range { start, end }) => {
                proof {
                    assert((**iterator)@ == SpecAst::Identifier(name@));
                    assert((**iterable)@ == SpecAst::Range {
                        start: Box::new((**start)@),
                        end: Box::new((**end)@),
                    });
                }
                match evaluate_expression(start, env) {
                    Err(er) => {
                        proof {
                            assert(output@ + oc.out =~= output@);
                        }
                        Err(er)
                    },
                    Ok(s0) => match evaluate_expression(end, env) {
                        Err(er) => {
                            proof {
                                assert(output@ + oc.out =~= output@);
                            }
                            Err(er)
                        },
                        Ok(e0) => interpret_for(name, s0, e0, body, env, output, fuel - 1),
                    },
                }
            },
            _ => {
                proof {
                    assert(output@ + oc.out =~= output@);
                }
                Ok(())
            },
        },
        ASTNode::Switch { expression, cases, default } => match evaluate_expression(
            expression,
            env,
        ) {
            Err(er) => {
                proof {
                    assert(output@ + oc.out =~= output@);
                }
                Err(er)
            },
            Ok(v) => {
                proof {
                    assert(case_views(cases@).skip(0) =~= case_views(cases@));
                }
                interpret_cases(v, cases, 0, default, env, output, fuel - 1)
            },
        },
        _ => {
            proof {
                assert(output@ + oc.out =~= output@);
            }
            Ok(())
        },
    }
}

fn interpret_stmts(
    stmts: &Vec<ASTNode>,
    from: usize,
    env: &mut Env,
    output: &mut Vec<i64>,
    fuel: u64,
) -> (r: Result<(), RuntimeError>)
    requires
        from <= stmts@.len(),
    ensures
        ({
            let oc = spec_run_stmts(ast_views(stmts@).skip(from as int), old(env)@, fuel as nat);
            &&& final(env)@ == oc.env
            &&& final(output)@ == old(output)@ + oc.out
            &&& match oc.err {
                None => r is Ok,
                Some(er) => r == Err::<(), RuntimeError>(er),
            }
        }),
    decreases fuel, stmts@.len() - from + 1,
{
    proof {
        lemma_ast_views_index(stmts@);
    }
    let ghost views = ast_views(stmts@).skip(from as int);
    let ghost oc = spec_run_stmts(views, env@, fuel as nat);
    if from >= stmts.len() {
        proof {
            assert(views =~= Seq::<SpecAst>::empty());
            assert(output@ + oc.out =~= output@);
        }
        return Ok(());
    }
    proof {
        assert(views[0] == stmts@[from as int]@);
        assert(views.drop_first() =~= ast_views(stmts@).skip(from + 1));
    }
    let ghost first = spec_run_stmt(stmts@[from as int]@, env@, fuel as nat);
    match interpret(&stmts[from], env, output, fuel) {
        Err(er) => Err(er),
        Ok(()) => {
            let ghost rest = spec_run_stmts(ast_views(stmts@).skip(from + 1), env@, fuel as nat);
            let r = interpret_stmts(stmts, from + 1, env, output, fuel);
            proof {
                assert(old(output)@ + (first.out + rest.out) =~= (old(output)@ + first.out)
                    + rest.out);
            }
            r
        },
    }
}

fn interpret_for(
    name: &String,
    i: i64,
    end: i64,
    body: &ASTNode,
    env: &mut Env,
    output: &mut Vec<i64>,
    fuel: u64,
) -> (r: Result<(), RuntimeError>)
    ensures
        ({
            let oc = spec_run_for(name@, i as int, end as int, body@, old(env)@, fuel as nat);
            &&& final(env)@ == oc.env
            &&& final(output)@ == old(output)@ + oc.out
            &&& match oc.err {
                None => r is Ok,
                Some(er) => r == Err::<(), RuntimeError>(er),
            }
        }),
    decreases fuel, 1nat,
{
    let ghost oc = spec_run_for(name@, i as int, end as int, body@, env@, fuel as nat);
    if i >= end {
        env.remove(name.as_str());
        proof {
            assert(output@ + oc.out =~= output@);
        }
        return Ok(());
    }
    if fuel == 0 {
        proof {
            assert(output@ + oc.out =~= output@);
        }
        return Err(RuntimeError::OutOfFuel);
    }
    env.insert(name.as_str(), i);
    let ghost first = spec_run_stmt(body@, env@, fuel as nat);
    match interpret(body, env, output, fuel) {
        Err(er) => Err(er),
        Ok(()) => {
            let ghost rest = spec_run_for(
                name@,
                i + 1 as int,
                end as int,
                body@,
                env@,
                (fuel - 1) as nat,
            );
            let r = interpret_for(name, i + 1, end, body, env, output, fuel - 1);
            proof {
                assert(old(output)@ + (first.out + rest.out) =~= (old(output)@ + first.out)
                    + rest.out);
            }
            r
        },
    }
}

fn interpret_cases(
    scrutinee: i64,
    cases: &Vec<(ASTNode, ASTNode)>,
    from: usize,
    default: &Option<Box<ASTNode>>,
    env: &mut Env,
    output: &mut Vec<i64>,
    fuel: u64,
) -> (r: Result<(), RuntimeError>)
    requires
        from <= cases@.len(),
    ensures
        ({
            let oc = spec_run_cases(
                scrutinee,
                case_views(cases@).skip(from as int),
                opt_box_view(*default),
                old(env)@,
                fuel as nat,
            );
            &&& final(env)@ == oc.env
            &&& final(output)@ == old(output)@ + oc.out
            &&& match oc.err {
                None => r is Ok,
                Some(er) => r == Err::<(), RuntimeError>(er),
            }
        }),
    decreases fuel, cases@.len() - from + 1,
{
    proof {
        lemma_case_views_index(cases@);
    }
    let ghost views = case_views(cases@).skip(from as int);
    let ghost oc = spec_run_cases(scrutinee, views, opt_box_view(*default), env@, fuel as nat);
    if from >= cases.len() {
        proof {
            assert(views =~= Seq::<(SpecAst, SpecAst)>::empty());
        }
        match default {
            Some(d) => {
                proof {
                    assert(opt_box_view(*default) == Some(Box::new((**d)@)));
                }
                interpret(d, env, output, fuel)
            },
            None => {
                proof {
                    assert(opt_box_view(*default) is None);
                    assert(oc.out == Seq::<i64>::empty());
                    assert(output@ + oc.out =~= output@);
                }
                Ok(())
            },
        }
    } else {
        proof {
            assert(views[0] == (cases@[from as int].0@, cases@[from as int].1@));
            assert(views.drop_first() =~= case_views(cases@).skip(from + 1));
        }
        match evaluate_expression(&cases[from].0, env) {
            Err(er) => {
                proof {
                    assert(output@ + oc.out =~= output@);
                }
                Err(er)
            },
            Ok(cv) => {
                if cv == scrutinee {
                    interpret(&cases[from].1, env, output, fuel)
                } else {
                    interpret_cases(scrutinee, cases, from + 1, default, env, output, fuel)
                }
            },
        }
    }
}

/// Law: `if` is exclusive. When the condition is true the outcome is the
/// then-branch's alone; when it is false it is the else-branch's alone,
/// the other branch contributing neither output nor bindings.
pub proof fn lemma_if_exclusive(
    cond: SpecAst,
    then_b: SpecAst,
    else_b: SpecAst,
    env: Map<Seq<char>, i64>,
    fuel: nat,
)
    requires
        fuel >= 1,
    ensures
        spec_eval_cond(cond, env) == Ok::<bool, RuntimeError>(true) ==> spec_run_stmt(
            SpecAst::If {
                condition: Box::new(cond),
                then_branch: Box::new(then_b),
                else_branch: Some(Box::new(else_b)),
            },
            env,
            fuel,
        ) == spec_run_stmt(then_b, env, (fuel - 1) as nat),
        spec_eval_cond(cond, env) == Ok::<bool, RuntimeError>(false) ==> spec_run_stmt(
            SpecAst::If {
                condition: Box::new(cond),
                then_branch: Box::new(then_b),
                else_branch: Some(Box::new(else_b)),
            },
            env,
            fuel,
        ) == spec_run_stmt(else_b, env, (fuel - 1) as nat),
{
}

/// Law: a `while` whose condition is false executes its body zero times:
/// the environment is unchanged and no output is produced.
pub proof fn lemma_while_false_no_iterations(
    cond: SpecAst,
    body: SpecAst,
    env: Map<Seq<char>, i64>,
    fuel: nat,
)
    requires
        fuel >= 1,
        spec_eval_cond(cond, env) == Ok::<bool, RuntimeError>(false),
    ensures
        spec_run_stmt(
            SpecAst::While { condition: Box::new(cond), body: Box::new(body) },
            env,
            fuel,
        ) == (RunOutcome { env, out: Seq::<i64>::empty(), err: None }),
{
}

/// Law: when a `for` loop finishes without a fault, its iterator variable
/// is not bound in the resulting environment, whatever the body did.
pub proof fn lemma_for_removes_iterator(
    name: Seq<char>,
    i: int,
    end: int,
    body: SpecAst,
    env: Map<Seq<char>, i64>,
    fuel: nat,
)
    ensures
        spec_run_for(name, i, end, body, env, fuel).err is None ==> !spec_run_for(
            name,
            i,
            end,
            body,
            env,
            fuel,
        ).env.contains_key(name),
    decreases fuel, 1nat,
{
    if i >= end {
    } else if fuel == 0 {
    } else {
        let first = spec_run_stmt(body, env.insert(name, i as i64), fuel);
        if first.err is Some {
        } else {
            lemma_for_removes_iterator(name, i + 1, end, body, first.env, (fuel - 1) as nat);
        }
    }
}

/// Law: `switch` executes the block of the first case whose value equals
/// the scrutinee and stops scanning there: later cases, even ones with an
/// equal value, and the default block play no part in the outcome.
pub proof fn lemma_switch_first_match(
    scrutinee: i64,
    cases: Seq<(SpecAst, SpecAst)>,
    default: Option<Box<SpecAst>>,
    env: Map<Seq<char>, i64>,
    fuel: nat,
    i: int,
)
    requires
        0 <= i < cases.len(),
        spec_eval_expr(cases[i].0, env) == Ok::<i64, RuntimeError>(scrutinee),
        forall|j: int|
            0 <= j < i ==> (spec_eval_expr(#[trigger] cases[j].0, env) matches Ok(cv) && cv
                != scrutinee),
    ensures
        spec_run_cases(scrutinee, cases, default, env, fuel) == spec_run_stmt(
            cases[i].1,
            env,
            fuel,
        ),
    decreases i,
{
    if i == 0 {
    } else {
        assert(spec_eval_expr(cases[0].0, env) matches Ok(cv) && cv != scrutinee);
        lemma_switch_first_match(scrutinee, cases.drop_first(), default, env, fuel, i - 1);
        assert(cases.drop_first()[i - 1] == cases[i]);
        assert forall|j: int|
            0 <= j < i - 1 implies spec_eval_expr(
            #[trigger] cases.drop_first()[j].0,
            env,
        ) matches Ok(cv) && cv != scrutinee by {
            assert(cases.drop_first()[j] == cases[j + 1]);
        }
    }
}

/// Law: division by zero is a fatal condition, never a silent result:
/// whenever the divisor evaluates to zero and the dividend evaluates at
/// all, the whole division evaluates to the division-by-zero fault.
pub proof fn lemma_division_by_zero_is_fatal(left: SpecAst, right: SpecAst, env: Map<Seq<char>, i64>)
    requires
        spec_eval_expr(left, env) is Ok,
        spec_eval_expr(right, env) == Ok::<i64, RuntimeError>(0),
    ensures
        spec_eval_expr(
            SpecAst::BinaryOp {
                left: Box::new(left),
                operator: SpecTok::Divide,
                right: Box::new(right),
            },
            env,
        ) == Err::<i64, RuntimeError>(RuntimeError::DivisionByZero),
{
}

/// Law: re-assignment is repeatable with a predictable effect. Evaluating
/// `x = x - 1` against an environment binding `x` to `v` re-binds `x` to
/// exactly `v - 1` and changes nothing else; evaluating the same
/// statement again yields `v - 2`.
pub proof fn lemma_reassignment_decrements_twice(
    name: Seq<char>,
    v: i64,
    env: Map<Seq<char>, i64>,
    fuel: nat,
)
    requires
        fuel >= 1,
        env.contains_key(name),
        env[name] == v,
        v > i64::MIN + 1,
    ensures
        ({
            let stmt = SpecAst::Assignment {
                var_name: name,
                value: Box::new(
                    SpecAst::BinaryOp {
                        left: Box::new(SpecAst::Identifier(name)),
                        operator: SpecTok::Minus,
                        right: Box::new(SpecAst::Number(1)),
                    },
                ),
            };
            let once = spec_run_stmt(stmt, env, fuel);
            let twice = spec_run_stmt(stmt, once.env, fuel);
            &&& once.err is None
            &&& once.env == env.insert(name, (v - 1) as i64)
            &&& twice.err is None
            &&& twice.env == env.insert(name, (v - 2) as i64)
        }),
{
    let minus_one = SpecAst::BinaryOp {
        left: Box::new(SpecAst::Identifier(name)),
        operator: SpecTok::Minus,
        right: Box::new(SpecAst::Number(1)),
    };
    let stmt = SpecAst::Assignment { var_name: name, value: Box::new(minus_one) };
    assert(spec_eval_expr(SpecAst::Identifier(name), env) == Ok::<i64, RuntimeError>(v));
    assert(spec_eval_expr(SpecAst::Number(1), env) == Ok::<i64, RuntimeError>(1i64));
    assert(spec_eval_expr(minus_one, env) == Ok::<i64, RuntimeError>((v - 1) as i64));
    let once = spec_run_stmt(stmt, env, fuel);
    assert(once.env == env.insert(name, (v - 1) as i64));
    assert(spec_eval_expr(SpecAst::Identifier(name), once.env) == Ok::<i64, RuntimeError>(
        (v - 1) as i64,
    ));
    assert(spec_eval_expr(SpecAst::Number(1), once.env) == Ok::<i64, RuntimeError>(1i64));
    assert(spec_eval_expr(minus_one, once.env) == Ok::<i64, RuntimeError>((v - 2) as i64));
    assert(env.insert(name, (v - 1) as i64).insert(name, (v - 2) as i64) =~= env.insert(
        name,
        (v - 2) as i64,
    ));
}

} // verus!
