//! What evaluation means: a total function from an expression, a state and
//! a loop allowance to a result and a new state.

use vstd::prelude::*;
use crate::context::State;
use crate::expression::Ast;
use crate::failure::Failure;
use crate::ops::{operation_named, Operation};
use crate::tokenizer::TokenView;
use crate::value::{render, ValueView};

verus! {

/// What an evaluation leaves behind: its result and the state it ended in.
/// After a failure the state is the one in which the failure was found.
pub struct Outcome {
    pub result: Result<ValueView, Failure>,
    pub state: State,
}

/// The outcome of an evaluation that yields `value` and ends in `state`.
pub open spec fn done(value: ValueView, state: State) -> Outcome {
    Outcome { result: Ok(value), state }
}

/// The outcome of an evaluation that fails in `state`.
pub open spec fn failed(failure: Failure, state: State) -> Outcome {
    Outcome { result: Err(failure), state }
}

/// `o`, but with a value that is no integer turned into a failure.
pub open spec fn as_integer(o: Outcome) -> Outcome {
    match o.result {
        Ok(ValueView::Integer(_)) => o,
        Ok(_) => failed(Failure::Kind, o.state),
        Err(_) => o,
    }
}

/// `o`, but with a value that is no boolean turned into a failure.
pub open spec fn as_bool(o: Outcome) -> Outcome {
    match o.result {
        Ok(ValueView::Bool(_)) => o,
        Ok(_) => failed(Failure::Kind, o.state),
        Err(_) => o,
    }
}

/// Whether `n` fits the integer type of the language.
pub open spec fn in_range(n: int) -> bool {
    i32::MIN <= n <= i32::MAX
}

/// The integer `n` as a result, if the integer type can hold it.
pub open spec fn checked(n: int) -> Result<ValueView, Failure> {
    if in_range(n) {
        Ok(ValueView::Integer(n))
    } else {
        Err(Failure::Arithmetic)
    }
}

/// The absolute value of `n`.
pub open spec fn magnitude(n: int) -> nat {
    if n < 0 {
        (-n) as nat
    } else {
        n as nat
    }
}

/// `a` divided by `b`, rounded toward zero.
pub open spec fn quotient(a: int, b: int) -> int
    recommends
        b != 0,
{
    let q = (magnitude(a) / magnitude(b)) as int;
    if (a < 0) != (b < 0) {
        -q
    } else {
        q
    }
}

/// What is left of `a` after division by `b`; its sign is that of `a`.
pub open spec fn remainder(a: int, b: int) -> int
    recommends
        b != 0,
{
    let r = (magnitude(a) % magnitude(b)) as int;
    if a < 0 {
        -r
    } else {
        r
    }
}

/// The result of an integer operator on two integers. The remainder fails
/// wherever the quotient does. An operator that takes no integers fails.
pub open spec fn combine(op: Operation, a: int, b: int) -> Result<ValueView, Failure> {
    match op {
        Operation::Add => checked(a + b),
        Operation::Mul => checked(a * b),
        Operation::Sub => checked(a - b),
        Operation::Div => if b == 0 {
            Err(Failure::Arithmetic)
        } else {
            checked(quotient(a, b))
        },
        Operation::Rem => if b == 0 || !in_range(quotient(a, b)) {
            Err(Failure::Arithmetic)
        } else {
            Ok(ValueView::Integer(remainder(a, b)))
        },
        Operation::Lt => Ok(ValueView::Bool(a < b)),
        Operation::Gt => Ok(ValueView::Bool(a > b)),
        _ => Err(Failure::Kind),
    }
}

/// The value that a sum or product starts from.
pub open spec fn identity(op: Operation) -> int {
    if op is Mul {
        1
    } else {
        0
    }
}

/// Evaluates `e` in `state`. A `while` may run `fuel` rounds.
pub open spec fn eval_spec(e: Ast, state: State, fuel: nat) -> Outcome
    decreases fuel, e, 0nat,
{
    match e {
        Ast::Value(v) => done(v, state),
        Ast::Symbol(name) => if state.globals.contains_key(name) {
            done(state.globals[name], state)
        } else {
            failed(Failure::UnboundSymbol, state)
        },
        Ast::Compound(head, args) => match head {
            TokenView::Symbol(name) => match operation_named(name) {
                Some(op) => apply_spec(op, args, state, fuel),
                None => failed(Failure::UnknownOperator, state),
            },
            _ => failed(Failure::UnknownOperator, state),
        },
    }
}

/// Applies `op` to arguments that are not evaluated yet.
pub open spec fn apply_spec(op: Operation, args: Seq<Ast>, state: State, fuel: nat) -> Outcome
    decreases fuel, args, args.len() + 1,
{
    match op {
        Operation::Add | Operation::Mul => if args.len() == 0 {
            failed(Failure::Arity, state)
        } else {
            fold_spec(op, args, 0, identity(op), state, fuel)
        },
        Operation::Sub | Operation::Div | Operation::Rem | Operation::Lt | Operation::Gt => {
            if args.len() != 2 {
                failed(Failure::Arity, state)
            } else {
                let left = as_integer(eval_spec(args[0], state, fuel));
                match left.result {
                    Ok(ValueView::Integer(a)) => {
                        let right = as_integer(eval_spec(args[1], left.state, fuel));
                        match right.result {
                            Ok(ValueView::Integer(b)) => Outcome {
                                result: combine(op, a, b),
                                state: right.state,
                            },
                            _ => right,
                        }
                    },
                    _ => left,
                }
            }
        },
        Operation::Eq => if args.len() != 2 {
            failed(Failure::Arity, state)
        } else {
            let left = eval_spec(args[0], state, fuel);
            match left.result {
                Ok(a) => {
                    let right = eval_spec(args[1], left.state, fuel);
                    match right.result {
                        Ok(b) => done(ValueView::Bool(a == b), right.state),
                        Err(_) => right,
                    }
                },
                Err(_) => left,
            }
        },
        Operation::And | Operation::Or => if args.len() != 2 {
            failed(Failure::Arity, state)
        } else {
            let left = as_bool(eval_spec(args[0], state, fuel));
            match left.result {
                Ok(ValueView::Bool(a)) => {
                    let right = as_bool(eval_spec(args[1], left.state, fuel));
                    match right.result {
                        Ok(ValueView::Bool(b)) => done(
                            ValueView::Bool(
                                if op is And {
                                    a && b
                                } else {
                                    a || b
                                },
                            ),
                            right.state,
                        ),
                        _ => right,
                    }
                },
                _ => left,
            }
        },
        Operation::Not => if args.len() != 1 {
            failed(Failure::Arity, state)
        } else {
            let operand = as_bool(eval_spec(args[0], state, fuel));
            match operand.result {
                Ok(ValueView::Bool(a)) => done(ValueView::Bool(!a), operand.state),
                _ => operand,
            }
        },
        Operation::Print => if args.len() != 1 {
            failed(Failure::Arity, state)
        } else {
            let operand = eval_spec(args[0], state, fuel);
            match operand.result {
                Ok(v) => done(
                    ValueView::Nil,
                    State {
                        globals: operand.state.globals,
                        output: operand.state.output.push(render(v)),
                    },
                ),
                Err(_) => operand,
            }
        },
        Operation::If => if args.len() < 2 || args.len() > 3 {
            failed(Failure::Arity, state)
        } else {
            let control = as_bool(eval_spec(args[0], state, fuel));
            match control.result {
                Ok(ValueView::Bool(true)) => eval_spec(args[1], control.state, fuel),
                Ok(ValueView::Bool(false)) => if args.len() == 3 {
                    eval_spec(args[2], control.state, fuel)
                } else {
                    done(ValueView::Nil, control.state)
                },
                _ => control,
            }
        },
        Operation::While => while_spec(args, state, fuel),
        Operation::Block => block_spec(args, 0, ValueView::Nil, state, fuel),
        Operation::Global => if args.len() != 2 {
            failed(Failure::Arity, state)
        } else {
            match args[0] {
                Ast::Symbol(name) => {
                    let bound = eval_spec(args[1], state, fuel);
                    match bound.result {
                        Ok(v) => done(
                            ValueView::Nil,
                            State {
                                globals: bound.state.globals.insert(name, v),
                                output: bound.state.output,
                            },
                        ),
                        Err(_) => bound,
                    }
                },
                _ => failed(Failure::Kind, state),
            }
        },
    }
}

/// The sum or product of `acc` and the arguments from `i` on, evaluated
/// from left to right. Every partial result must fit the integer type.
pub open spec fn fold_spec(
    op: Operation,
    args: Seq<Ast>,
    i: int,
    acc: int,
    state: State,
    fuel: nat,
) -> Outcome
    decreases fuel, args, args.len() - i,
{
    if i < 0 || i >= args.len() {
        done(ValueView::Integer(acc), state)
    } else {
        let operand = as_integer(eval_spec(args[i], state, fuel));
        match operand.result {
            Ok(ValueView::Integer(n)) => match combine(op, acc, n) {
                Ok(ValueView::Integer(next)) => fold_spec(
                    op,
                    args,
                    i + 1,
                    next,
                    operand.state,
                    fuel,
                ),
                Ok(_) => failed(Failure::Kind, operand.state),
                Err(f) => failed(f, operand.state),
            },
            _ => operand,
        }
    }
}

/// The arguments from `i` on, evaluated in order; the result is the last
/// value, or `last` if there is none.
pub open spec fn block_spec(
    args: Seq<Ast>,
    i: int,
    last: ValueView,
    state: State,
    fuel: nat,
) -> Outcome
    decreases fuel, args, args.len() - i,
{
    if i < 0 || i >= args.len() {
        done(last, state)
    } else {
        let step = eval_spec(args[i], state, fuel);
        match step.result {
            Ok(v) => block_spec(args, i + 1, v, step.state, fuel),
            Err(_) => step,
        }
    }
}

/// The loop with condition `args[0]` and body `args[1]`. Each round takes
/// one unit of fuel from the round itself and from all that follows it in
/// this loop; a round that would start without fuel fails.
pub open spec fn while_spec(args: Seq<Ast>, state: State, fuel: nat) -> Outcome
    decreases fuel, args, 0nat,
{
    if args.len() != 2 {
        failed(Failure::Arity, state)
    } else {
        let control = as_bool(eval_spec(args[0], state, fuel));
        match control.result {
            Ok(ValueView::Bool(true)) => if fuel == 0 {
                failed(Failure::LoopLimit, control.state)
            } else {
                let round = eval_spec(args[1], control.state, (fuel - 1) as nat);
                match round.result {
                    Ok(_) => while_spec(args, round.state, (fuel - 1) as nat),
                    Err(_) => round,
                }
            },
            Ok(ValueView::Bool(false)) => done(ValueView::Nil, control.state),
            _ => control,
        }
    }
}

} // verus!
