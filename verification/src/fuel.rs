//! Fuel bounds loops and changes nothing else.

use vstd::prelude::*;
use crate::context::State;
use crate::expression::Ast;
use crate::failure::Failure;
use crate::ops::{operation_named, Operation};
use crate::semantics::{
    apply_spec, as_bool, as_integer, block_spec, combine, eval_spec, fold_spec, identity,
    while_spec, Outcome,
};
use crate::tokenizer::TokenView;
use crate::value::ValueView;

verus! {

/// Whether the evaluation that ended in `o` had fuel enough.
pub open spec fn within_limit(o: Outcome) -> bool {
    o.result != Err::<ValueView, Failure>(Failure::LoopLimit)
}

/// More fuel does not change an evaluation that had enough.
proof fn lemma_eval_more_fuel(e: Ast, state: State, fuel: nat, more: nat)
    requires
        fuel <= more,
    ensures
        within_limit(eval_spec(e, state, fuel)) ==> eval_spec(e, state, more) == eval_spec(
            e,
            state,
            fuel,
        ),
    decreases fuel, e, 0nat,
{
    match e {
        Ast::Compound(TokenView::Symbol(name), args) => {
            match operation_named(name) {
                Some(op) => lemma_apply_more_fuel(op, args, state, fuel, more),
                None => {},
            }
        },
        _ => {},
    }
}

/// More fuel does not change an application that had enough.
proof fn lemma_apply_more_fuel(op: Operation, args: Seq<Ast>, state: State, fuel: nat, more: nat)
    requires
        fuel <= more,
    ensures
        within_limit(apply_spec(op, args, state, fuel)) ==> apply_spec(op, args, state, more)
            == apply_spec(op, args, state, fuel),
    decreases fuel, args, args.len() + 1,
{
    match op {
        Operation::Add | Operation::Mul => {
            if args.len() > 0 {
                lemma_fold_more_fuel(op, args, 0, identity(op), state, fuel, more);
            }
        },
        Operation::While => lemma_while_more_fuel(args, state, fuel, more),
        Operation::Block => lemma_block_more_fuel(args, 0, ValueView::Nil, state, fuel, more),
        Operation::Not | Operation::Print => {
            if args.len() == 1 {
                lemma_eval_more_fuel(args[0], state, fuel, more);
            }
        },
        Operation::If => {
            if 2 <= args.len() <= 3 {
                lemma_eval_more_fuel(args[0], state, fuel, more);
                let control = eval_spec(args[0], state, fuel);
                lemma_eval_more_fuel(args[1], control.state, fuel, more);
                if args.len() == 3 {
                    lemma_eval_more_fuel(args[2], control.state, fuel, more);
                }
            }
        },
        Operation::Global => {
            if args.len() == 2 {
                lemma_eval_more_fuel(args[1], state, fuel, more);
            }
        },
        _ => {
            if args.len() == 2 {
                lemma_eval_more_fuel(args[0], state, fuel, more);
                let left = eval_spec(args[0], state, fuel);
                lemma_eval_more_fuel(args[1], left.state, fuel, more);
            }
        },
    }
}

/// More fuel does not change a sum or product that had enough.
proof fn lemma_fold_more_fuel(
    op: Operation,
    args: Seq<Ast>,
    i: int,
    acc: int,
    state: State,
    fuel: nat,
    more: nat,
)
    requires
        fuel <= more,
    ensures
        within_limit(fold_spec(op, args, i, acc, state, fuel)) ==> fold_spec(
            op,
            args,
            i,
            acc,
            state,
            more,
        ) == fold_spec(op, args, i, acc, state, fuel),
    decreases fuel, args, args.len() - i,
{
    if 0 <= i < args.len() {
        lemma_eval_more_fuel(args[i], state, fuel, more);
        let operand = as_integer(eval_spec(args[i], state, fuel));
        match operand.result {
            Ok(ValueView::Integer(n)) => match combine(op, acc, n) {
                Ok(ValueView::Integer(next)) => lemma_fold_more_fuel(
                    op,
                    args,
                    i + 1,
                    next,
                    operand.state,
                    fuel,
                    more,
                ),
                _ => {},
            },
            _ => {},
        }
    }
}

/// More fuel does not change a block that had enough.
proof fn lemma_block_more_fuel(
    args: Seq<Ast>,
    i: int,
    last: ValueView,
    state: State,
    fuel: nat,
    more: nat,
)
    requires
        fuel <= more,
    ensures
        within_limit(block_spec(args, i, last, state, fuel)) ==> block_spec(
            args,
            i,
            last,
            state,
            more,
        ) == block_spec(args, i, last, state, fuel),
    decreases fuel, args, args.len() - i,
{
    if 0 <= i < args.len() {
        lemma_eval_more_fuel(args[i], state, fuel, more);
        let step = eval_spec(args[i], state, fuel);
        match step.result {
            Ok(v) => lemma_block_more_fuel(args, i + 1, v, step.state, fuel, more),
            Err(_) => {},
        }
    }
}

/// More fuel does not change a loop that had enough.
proof fn lemma_while_more_fuel(args: Seq<Ast>, state: State, fuel: nat, more: nat)
    requires
        fuel <= more,
    ensures
        within_limit(while_spec(args, state, fuel)) ==> while_spec(args, state, more)
            == while_spec(args, state, fuel),
    decreases fuel, args, 0nat,
{
    if args.len() == 2 {
        lemma_eval_more_fuel(args[0], state, fuel, more);
        let control = as_bool(eval_spec(args[0], state, fuel));
        if control.result == Ok::<ValueView, Failure>(ValueView::Bool(true)) && fuel > 0 {
            let less = (fuel - 1) as nat;
            let rest = (more - 1) as nat;
            lemma_eval_more_fuel(args[1], control.state, less, rest);
            let round = eval_spec(args[1], control.state, less);
            if round.result is Ok {
                lemma_while_more_fuel(args, round.state, less, rest);
            }
        }
    }
}

/// An evaluation that had fuel enough ends in the same outcome with any
/// larger amount of fuel: fuel decides whether a loop is cut short, and
/// nothing else.
pub proof fn law_fuel_only_bounds_loops(e: Ast, state: State, fuel: nat, more: nat)
    requires
        fuel <= more,
        within_limit(eval_spec(e, state, fuel)),
    ensures
        eval_spec(e, state, more) == eval_spec(e, state, fuel),
{
    lemma_eval_more_fuel(e, state, fuel, more);
}

/// Whether no `while` occurs in `e`.
pub open spec fn loop_free(e: Ast) -> bool
    decreases e,
{
    match e {
        Ast::Compound(head, args) => head != TokenView::Symbol("while"@) && all_loop_free(args),
        _ => true,
    }
}

/// Whether no `while` occurs in any of `args`.
pub open spec fn all_loop_free(args: Seq<Ast>) -> bool
    decreases args,
{
    forall|i: int| 0 <= i < args.len() ==> loop_free(#[trigger] args[i])
}

/// Evaluating an expression without `while` never wants for fuel.
proof fn lemma_eval_loop_free(e: Ast, state: State, fuel: nat)
    requires
        loop_free(e),
    ensures
        within_limit(eval_spec(e, state, fuel)),
    decreases fuel, e, 0nat,
{
    match e {
        Ast::Compound(TokenView::Symbol(name), args) => {
            match operation_named(name) {
                Some(op) => lemma_apply_loop_free(op, args, state, fuel),
                None => {},
            }
        },
        _ => {},
    }
}

/// Applying an operator other than `while` to arguments without `while`
/// never wants for fuel.
proof fn lemma_apply_loop_free(op: Operation, args: Seq<Ast>, state: State, fuel: nat)
    requires
        !(op is While),
        all_loop_free(args),
    ensures
        within_limit(apply_spec(op, args, state, fuel)),
    decreases fuel, args, args.len() + 1,
{
    match op {
        Operation::Add | Operation::Mul => {
            if args.len() > 0 {
                lemma_fold_loop_free(op, args, 0, identity(op), state, fuel);
            }
        },
        Operation::While => {},
        Operation::Block => lemma_block_loop_free(args, 0, ValueView::Nil, state, fuel),
        Operation::Not | Operation::Print => {
            if args.len() == 1 {
                lemma_eval_loop_free(args[0], state, fuel);
            }
        },
        Operation::If => {
            if 2 <= args.len() <= 3 {
                lemma_eval_loop_free(args[0], state, fuel);
                let control = eval_spec(args[0], state, fuel);
                lemma_eval_loop_free(args[1], control.state, fuel);
                if args.len() == 3 {
                    lemma_eval_loop_free(args[2], control.state, fuel);
                }
            }
        },
        Operation::Global => {
            if args.len() == 2 {
                lemma_eval_loop_free(args[1], state, fuel);
            }
        },
        _ => {
            if args.len() == 2 {
                lemma_eval_loop_free(args[0], state, fuel);
                let left = eval_spec(args[0], state, fuel);
                lemma_eval_loop_free(args[1], left.state, fuel);
            }
        },
    }
}

/// A sum or product of arguments without `while` never wants for fuel.
proof fn lemma_fold_loop_free(
    op: Operation,
    args: Seq<Ast>,
    i: int,
    acc: int,
    state: State,
    fuel: nat,
)
    requires
        op is Add || op is Mul,
        all_loop_free(args),
    ensures
        within_limit(fold_spec(op, args, i, acc, state, fuel)),
    decreases fuel, args, args.len() - i,
{
    if 0 <= i < args.len() {
        lemma_eval_loop_free(args[i], state, fuel);
        let operand = as_integer(eval_spec(args[i], state, fuel));
        match operand.result {
            Ok(ValueView::Integer(n)) => match combine(op, acc, n) {
                Ok(ValueView::Integer(next)) => lemma_fold_loop_free(
                    op,
                    args,
                    i + 1,
                    next,
                    operand.state,
                    fuel,
                ),
                _ => {},
            },
            _ => {},
        }
    }
}

/// A block of arguments without `while` never wants for fuel.
proof fn lemma_block_loop_free(args: Seq<Ast>, i: int, last: ValueView, state: State, fuel: nat)
    requires
        all_loop_free(args),
    ensures
        within_limit(block_spec(args, i, last, state, fuel)),
    decreases fuel, args, args.len() - i,
{
    if 0 <= i < args.len() {
        lemma_eval_loop_free(args[i], state, fuel);
        let step = eval_spec(args[i], state, fuel);
        match step.result {
            Ok(v) => lemma_block_loop_free(args, i + 1, v, step.state, fuel),
            Err(_) => {},
        }
    }
}

/// An expression without `while` needs no fuel: it never fails for want of
/// fuel, and its outcome is the same with every amount.
pub proof fn law_loop_free_needs_no_fuel(e: Ast, state: State, fuel: nat)
    requires
        loop_free(e),
    ensures
        within_limit(eval_spec(e, state, fuel)),
        eval_spec(e, state, fuel) == eval_spec(e, state, 0),
{
    lemma_eval_loop_free(e, state, 0);
    lemma_eval_loop_free(e, state, fuel);
    lemma_eval_more_fuel(e, state, 0, fuel);
}

} // verus!
