//! The closed table of operators and their behaviour.

use vstd::prelude::*;
use vstd::string::*;
use crate::context::{Context, State};
use crate::expression::{asts, Expression};
use crate::failure::Failure;
use crate::semantics::{
    apply_spec, as_bool, as_integer, block_spec, combine, done, eval_spec, failed, fold_spec,
    identity, magnitude, while_spec, Outcome,
};
use crate::text::{same_text, texts};
use crate::value::{render, Value, ValueView};

verus! {

/// One of the operators of the language.
#[derive(Clone, Copy, Debug, PartialEq, Eq, Structural)]
pub enum Operation {
    Add,
    Mul,
    Sub,
    Div,
    Rem,
    Eq,
    Lt,
    Gt,
    And,
    Or,
    Not,
    Print,
    If,
    While,
    Block,
    Global,
}

/// The operator that `name` stands for.
pub open spec fn operation_named(name: Seq<char>) -> Option<Operation> {
    if name == "+"@ {
        Some(Operation::Add)
    } else if name == "*"@ {
        Some(Operation::Mul)
    } else if name == "-"@ {
        Some(Operation::Sub)
    } else if name == "/"@ {
        Some(Operation::Div)
    } else if name == "%"@ {
        Some(Operation::Rem)
    } else if name == "="@ {
        Some(Operation::Eq)
    } else if name == "<"@ {
        Some(Operation::Lt)
    } else if name == ">"@ {
        Some(Operation::Gt)
    } else if name == "and"@ {
        Some(Operation::And)
    } else if name == "or"@ {
        Some(Operation::Or)
    } else if name == "not"@ {
        Some(Operation::Not)
    } else if name == "print"@ {
        Some(Operation::Print)
    } else if name == "if"@ {
        Some(Operation::If)
    } else if name == "while"@ {
        Some(Operation::While)
    } else if name == "block"@ {
        Some(Operation::Block)
    } else if name == "global"@ {
        Some(Operation::Global)
    } else {
        None
    }
}

/// Looks an operator up by its name.
pub fn get_op(name: &str) -> (r: Option<Operation>)
    ensures
        r == operation_named(name@),
{
    if same_text(name, "+") {
        Some(Operation::Add)
    } else if same_text(name, "*") {
        Some(Operation::Mul)
    } else if same_text(name, "-") {
        Some(Operation::Sub)
    } else if same_text(name, "/") {
        Some(Operation::Div)
    } else if same_text(name, "%") {
        Some(Operation::Rem)
    } else if same_text(name, "=") {
        Some(Operation::Eq)
    } else if same_text(name, "<") {
        Some(Operation::Lt)
    } else if same_text(name, ">") {
        Some(Operation::Gt)
    } else if same_text(name, "and") {
        Some(Operation::And)
    } else if same_text(name, "or") {
        Some(Operation::Or)
    } else if same_text(name, "not") {
        Some(Operation::Not)
    } else if same_text(name, "print") {
        Some(Operation::Print)
    } else if same_text(name, "if") {
        Some(Operation::If)
    } else if same_text(name, "while") {
        Some(Operation::While)
    } else if same_text(name, "block") {
        Some(Operation::Block)
    } else if same_text(name, "global") {
        Some(Operation::Global)
    } else {
        None
    }
}

/// The model of a result that holds a value.
pub open spec fn result_view(r: Result<Value, Failure>) -> Result<ValueView, Failure> {
    match r {
        Ok(v) => Ok(v@),
        Err(f) => Err(f),
    }
}

/// The outcome that a caller of the evaluator sees: the returned result
/// and the state that the environment is left in.
pub open spec fn observed(r: Result<Value, Failure>, state: State) -> Outcome {
    Outcome { result: result_view(r), state }
}

/// Division of magnitudes: the quotient and the remainder recompose the
/// dividend, and neither exceeds it.
proof fn lemma_machine_division(a: int, b: int)
    requires
        b != 0,
    ensures
        magnitude(a) == magnitude(b) * (magnitude(a) / magnitude(b)) + magnitude(a) % magnitude(b),
        0 <= magnitude(a) % magnitude(b) < magnitude(b),
        0 <= magnitude(a) / magnitude(b) <= magnitude(a),
{
    let x = magnitude(a) as int;
    let y = magnitude(b) as int;
    vstd::arithmetic::div_mod::lemma_fundamental_div_mod(x, y);
    vstd::arithmetic::div_mod::lemma_mod_bound(x, y);
    vstd::arithmetic::div_mod::lemma_div_pos_is_pos(x, y);
    vstd::arithmetic::div_mod::lemma_div_is_ordered_by_denominator(x, 1, y);
    vstd::arithmetic::div_mod::lemma_div_basics(x);
}

/// The absolute value of `n`.
fn magnitude_of(n: i32) -> (m: u32)
    ensures
        m as nat == magnitude(n as int),
{
    if n < 0 {
        (-(n as i64)) as u32
    } else {
        n as u32
    }
}

/// Applies an integer operator to two integers.
pub fn combine_integers(op: Operation, a: i32, b: i32) -> (r: Result<Value, Failure>)
    ensures
        result_view(r) == combine(op, a as int, b as int),
{
    match op {
        Operation::Add => match a.checked_add(b) {
            Some(n) => Ok(Value::Integer(n)),
            None => Err(Failure::Arithmetic),
        },
        Operation::Mul => match a.checked_mul(b) {
            Some(n) => Ok(Value::Integer(n)),
            None => Err(Failure::Arithmetic),
        },
        Operation::Sub => match a.checked_sub(b) {
            Some(n) => Ok(Value::Integer(n)),
            None => Err(Failure::Arithmetic),
        },
        Operation::Div | Operation::Rem => {
            if b == 0 {
                return Err(Failure::Arithmetic);
            }
            proof {
                lemma_machine_division(a as int, b as int);
            }
            let x = magnitude_of(a);
            let y = magnitude_of(b);
            let q: u32 = x / y;
            let negative = (a < 0) != (b < 0);
            if !negative && q > 2147483647 {
                return Err(Failure::Arithmetic);
            }
            match op {
                Operation::Div => {
                    if negative {
                        Ok(Value::Integer((-(q as i64)) as i32))
                    } else {
                        Ok(Value::Integer(q as i32))
                    }
                },
                _ => {
                    let m: u32 = x % y;
                    if a < 0 {
                        Ok(Value::Integer((-(m as i64)) as i32))
                    } else {
                        Ok(Value::Integer(m as i32))
                    }
                },
            }
        },
        Operation::Lt => Ok(Value::Bool(a < b)),
        Operation::Gt => Ok(Value::Bool(a > b)),
        _ => Err(Failure::Kind),
    }
}

/// Evaluates `e` and demands an integer.
fn eval_integer(e: &Expression, context: &mut Context, fuel: u64) -> (r: Result<i32, Failure>)
    ensures
        as_integer(eval_spec(e@, old(context)@, fuel as nat)) == (match r {
            Ok(n) => done(ValueView::Integer(n as int), final(context)@),
            Err(f) => failed(f, final(context)@),
        }),
    decreases fuel, e@, 1nat,
{
    match e.eval_bounded(context, fuel) {
        Ok(Value::Integer(n)) => Ok(n),
        Ok(_) => Err(Failure::Kind),
        Err(f) => Err(f),
    }
}

/// Evaluates `e` and demands a boolean.
fn eval_bool(e: &Expression, context: &mut Context, fuel: u64) -> (r: Result<bool, Failure>)
    ensures
        as_bool(eval_spec(e@, old(context)@, fuel as nat)) == (match r {
            Ok(b) => done(ValueView::Bool(b), final(context)@),
            Err(f) => failed(f, final(context)@),
        }),
    decreases fuel, e@, 1nat,
{
    match e.eval_bounded(context, fuel) {
        Ok(Value::Bool(b)) => Ok(b),
        Ok(_) => Err(Failure::Kind),
        Err(f) => Err(f),
    }
}

/// Sums or multiplies the arguments from left to right.
fn run_fold(op: Operation, args: &[Expression], context: &mut Context, fuel: u64) -> (r: Result<
    Value,
    Failure,
>)
    requires
        op is Add || op is Mul,
    ensures
        observed(r, final(context)@) == fold_spec(
            op,
            asts(args@),
            0,
            identity(op),
            old(context)@,
            fuel as nat,
        ),
    decreases fuel, asts(args@), args@.len(),
{
    let mut acc: i32 = match op {
        Operation::Mul => 1,
        _ => 0,
    };
    let mut i: usize = 0;
    while i < args.len()
        invariant
            i <= args@.len(),
            op is Add || op is Mul,
            fold_spec(op, asts(args@), 0, identity(op), old(context)@, fuel as nat) == fold_spec(
                op,
                asts(args@),
                i as int,
                acc as int,
                context@,
                fuel as nat,
            ),
        decreases args@.len() - i,
    {
        proof {
            assert(asts(args@)[i as int] == args@[i as int]@);
        }
        let n = match eval_integer(&args[i], context, fuel) {
            Ok(n) => n,
            Err(f) => {
                return Err(f);
            },
        };
        match combine_integers(op, acc, n) {
            Ok(Value::Integer(next)) => {
                acc = next;
            },
            Ok(_) => {
                return Err(Failure::Kind);
            },
            Err(f) => {
                return Err(f);
            },
        }
        i += 1;
    }
    Ok(Value::Integer(acc))
}

/// Evaluates the arguments in order and keeps the last value.
fn run_block(args: &[Expression], context: &mut Context, fuel: u64) -> (r: Result<Value, Failure>)
    ensures
        observed(r, final(context)@) == block_spec(
            asts(args@),
            0,
            ValueView::Nil,
            old(context)@,
            fuel as nat,
        ),
    decreases fuel, asts(args@), args@.len(),
{
    let mut last = Value::Nil;
    let mut i: usize = 0;
    while i < args.len()
        invariant
            i <= args@.len(),
            block_spec(asts(args@), 0, ValueView::Nil, old(context)@, fuel as nat) == block_spec(
                asts(args@),
                i as int,
                last@,
                context@,
                fuel as nat,
            ),
        decreases args@.len() - i,
    {
        proof {
            assert(asts(args@)[i as int] == args@[i as int]@);
        }
        match args[i].eval_bounded(context, fuel) {
            Ok(v) => {
                last = v;
            },
            Err(f) => {
                return Err(f);
            },
        }
        i += 1;
    }
    Ok(last)
}

/// Runs the loop whose condition and body are the two arguments.
fn run_while(args: &[Expression], context: &mut Context, fuel: u64) -> (r: Result<Value, Failure>)
    ensures
        observed(r, final(context)@) == while_spec(asts(args@), old(context)@, fuel as nat),
    decreases fuel, asts(args@), 0nat,
{
    if args.len() != 2 {
        return Err(Failure::Arity);
    }
    let mut remaining: u64 = fuel;
    loop
        invariant
            args@.len() == 2,
            remaining <= fuel,
            while_spec(asts(args@), old(context)@, fuel as nat) == while_spec(
                asts(args@),
                context@,
                remaining as nat,
            ),
        decreases remaining,
    {
        proof {
            assert(asts(args@)[0] == args@[0]@);
            assert(asts(args@)[1] == args@[1]@);
        }
        match eval_bool(&args[0], context, remaining) {
            Ok(true) => {},
            Ok(false) => {
                return Ok(Value::Nil);
            },
            Err(f) => {
                return Err(f);
            },
        }
        if remaining == 0 {
            return Err(Failure::LoopLimit);
        }
        remaining -= 1;
        match args[1].eval_bounded(context, remaining) {
            Ok(_) => {},
            Err(f) => {
                return Err(f);
            },
        }
    }
}

impl Operation {
    /// Applies the operator to `args`, with the largest amount of fuel.
    pub fn eval(&self, args: &[Expression], context: &mut Context) -> (r: Result<Value, Failure>)
        ensures
            observed(r, final(context)@) == apply_spec(
                *self,
                asts(args@),
                old(context)@,
                u64::MAX as nat,
            ),
    {
        self.eval_bounded(args, context, u64::MAX)
    }

    /// Applies the operator to `args`. A `while` may run `fuel` rounds.
    pub fn eval_bounded(&self, args: &[Expression], context: &mut Context, fuel: u64) -> (r: Result<
        Value,
        Failure,
    >)
        ensures
            observed(r, final(context)@) == apply_spec(
                *self,
                asts(args@),
                old(context)@,
                fuel as nat,
            ),
        decreases fuel, asts(args@), args@.len() + 1,
    {
        proof {
            if args@.len() > 0 {
                assert(asts(args@)[0] == args@[0]@);
            }
            if args@.len() > 1 {
                assert(asts(args@)[1] == args@[1]@);
            }
            if args@.len() > 2 {
                assert(asts(args@)[2] == args@[2]@);
            }
        }
        match self {
            Operation::Add | Operation::Mul => {
                if args.len() == 0 {
                    Err(Failure::Arity)
                } else {
                    run_fold(*self, args, context, fuel)
                }
            },
            Operation::Sub | Operation::Div | Operation::Rem | Operation::Lt | Operation::Gt => {
                if args.len() != 2 {
                    return Err(Failure::Arity);
                }
                let a = match eval_integer(&args[0], context, fuel) {
                    Ok(a) => a,
                    Err(f) => {
                        return Err(f);
                    },
                };
                let b = match eval_integer(&args[1], context, fuel) {
                    Ok(b) => b,
                    Err(f) => {
                        return Err(f);
                    },
                };
                combine_integers(*self, a, b)
            },
            Operation::Eq => {
                if args.len() != 2 {
                    return Err(Failure::Arity);
                }
                let a = match args[0].eval_bounded(context, fuel) {
                    Ok(a) => a,
                    Err(f) => {
                        return Err(f);
                    },
                };
                let b = match args[1].eval_bounded(context, fuel) {
                    Ok(b) => b,
                    Err(f) => {
                        return Err(f);
                    },
                };
                Ok(Value::Bool(a == b))
            },
            Operation::And | Operation::Or => {
                if args.len() != 2 {
                    return Err(Failure::Arity);
                }
                let a = match eval_bool(&args[0], context, fuel) {
                    Ok(a) => a,
                    Err(f) => {
                        return Err(f);
                    },
                };
                let b = match eval_bool(&args[1], context, fuel) {
                    Ok(b) => b,
                    Err(f) => {
                        return Err(f);
                    },
                };
                match self {
                    Operation::And => Ok(Value::Bool(a && b)),
                    _ => Ok(Value::Bool(a || b)),
                }
            },
            Operation::Not => {
                if args.len() != 1 {
                    return Err(Failure::Arity);
                }
                match eval_bool(&args[0], context, fuel) {
                    Ok(a) => Ok(Value::Bool(!a)),
                    Err(f) => Err(f),
                }
            },
            Operation::Print => {
                if args.len() != 1 {
                    return Err(Failure::Arity);
                }
                match args[0].eval_bounded(context, fuel) {
                    Ok(v) => {
                        let line = v.to_text();
                        proof {
                            assert(texts(context.output@.push(line)) =~= texts(
                                context.output@,
                            ).push(render(v@)));
                        }
                        context.output.push(line);
                        Ok(Value::Nil)
                    },
                    Err(f) => Err(f),
                }
            },
            Operation::If => {
                if args.len() < 2 || args.len() > 3 {
                    return Err(Failure::Arity);
                }
                match eval_bool(&args[0], context, fuel) {
                    Ok(true) => args[1].eval_bounded(context, fuel),
                    Ok(false) => {
                        if args.len() == 3 {
                            args[2].eval_bounded(context, fuel)
                        } else {
                            Ok(Value::Nil)
                        }
                    },
                    Err(f) => Err(f),
                }
            },
            Operation::While => run_while(args, context, fuel),
            Operation::Block => run_block(args, context, fuel),
            Operation::Global => {
                if args.len() != 2 {
                    return Err(Failure::Arity);
                }
                match &args[0] {
                    Expression::Symbol(name) => {
                        match args[1].eval_bounded(context, fuel) {
                            Ok(v) => {
                                context.globals.insert(name.clone(), v);
                                Ok(Value::Nil)
                            },
                            Err(f) => Err(f),
                        }
                    },
                    _ => Err(Failure::Kind),
                }
            },
        }
    }
}

} // verus!
