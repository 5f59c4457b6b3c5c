//! A worked program: the loop that prints a global and counts it up to a
//! bound, and what evaluation makes of it.

use vstd::prelude::*;
use crate::context::State;
use crate::expression::Ast;
use crate::laws::law_operator_names;
use crate::ops::Operation;
use crate::semantics::{
    apply_spec, block_spec, done, eval_spec, fold_spec, in_range, while_spec,
};
use crate::tokenizer::TokenView;
use crate::value::{decimal, render, ValueView};

verus! {

/// The operator named `name` applied to `args`.
pub open spec fn call(name: Seq<char>, args: Seq<Ast>) -> Ast {
    Ast::Compound(TokenView::Symbol(name), args)
}

/// The literal `n`.
pub open spec fn integer(n: int) -> Ast {
    Ast::Value(ValueView::Integer(n))
}

/// `(< var bound)`
pub open spec fn below(var: Seq<char>, bound: int) -> Ast {
    call("<"@, seq![Ast::Symbol(var), integer(bound)])
}

/// `(+ var 1)`
pub open spec fn successor(var: Seq<char>) -> Ast {
    call("+"@, seq![Ast::Symbol(var), integer(1)])
}

/// `(block (print var) (global var (+ var 1)))`
pub open spec fn print_and_step(var: Seq<char>) -> Ast {
    call(
        "block"@,
        seq![
            call("print"@, seq![Ast::Symbol(var)]),
            call("global"@, seq![Ast::Symbol(var), successor(var)]),
        ],
    )
}

/// `(while (< var bound) (block (print var) (global var (+ var 1))))`
pub open spec fn counting_loop(var: Seq<char>, bound: int) -> Ast {
    call("while"@, seq![below(var, bound), print_and_step(var)])
}

/// The decimal forms of the integers from `from` up to, not including, `to`.
pub open spec fn numerals(from: int, to: int) -> Seq<Seq<char>>
    decreases to - from,
{
    if from >= to {
        Seq::empty()
    } else {
        seq![decimal(from)] + numerals(from + 1, to)
    }
}

/// Whether `var` is bound to the integer `n`.
pub open spec fn holds(state: State, var: Seq<char>, n: int) -> bool {
    state.globals.contains_key(var) && state.globals[var] == ValueView::Integer(n)
}

/// The condition compares the variable with the bound and changes nothing.
proof fn lemma_below(var: Seq<char>, n: int, bound: int, state: State, fuel: nat)
    requires
        holds(state, var, n),
    ensures
        eval_spec(below(var, bound), state, fuel) == done(ValueView::Bool(n < bound), state),
{
    let args = seq![Ast::Symbol(var), integer(bound)];
    law_operator_names(args, state, fuel);
    assert(eval_spec(args[0], state, fuel) == done(ValueView::Integer(n), state));
    assert(eval_spec(args[1], state, fuel) == done(ValueView::Integer(bound), state));
    assert(apply_spec(Operation::Lt, args, state, fuel) == done(ValueView::Bool(n < bound), state));
}

/// The successor of the variable is one more than its value.
proof fn lemma_successor(var: Seq<char>, n: int, state: State, fuel: nat)
    requires
        holds(state, var, n),
        in_range(n),
        in_range(n + 1),
    ensures
        eval_spec(successor(var), state, fuel) == done(ValueView::Integer(n + 1), state),
{
    let args = seq![Ast::Symbol(var), integer(1)];
    law_operator_names(args, state, fuel);
    assert(eval_spec(args[0], state, fuel) == done(ValueView::Integer(n), state));
    assert(eval_spec(args[1], state, fuel) == done(ValueView::Integer(1), state));
    assert(fold_spec(Operation::Add, args, 2, n + 1, state, fuel) == done(
        ValueView::Integer(n + 1),
        state,
    ));
    assert(fold_spec(Operation::Add, args, 1, n, state, fuel) == done(
        ValueView::Integer(n + 1),
        state,
    ));
    assert(fold_spec(Operation::Add, args, 0, 0, state, fuel) == done(
        ValueView::Integer(n + 1),
        state,
    ));
    assert(apply_spec(Operation::Add, args, state, fuel) == done(
        ValueView::Integer(n + 1),
        state,
    ));
}

/// The state after one round: the variable's numeral is printed and the
/// variable is one more.
pub open spec fn stepped(state: State, var: Seq<char>, n: int) -> State {
    State {
        globals: state.globals.insert(var, ValueView::Integer(n + 1)),
        output: state.output.push(decimal(n)),
    }
}

/// The body prints the variable and binds it to its successor.
proof fn lemma_print_and_step(var: Seq<char>, n: int, state: State, fuel: nat)
    requires
        holds(state, var, n),
        in_range(n),
        in_range(n + 1),
    ensures
        eval_spec(print_and_step(var), state, fuel) == done(
            ValueView::Nil,
            stepped(state, var, n),
        ),
{
    let print = call("print"@, seq![Ast::Symbol(var)]);
    let bind = call("global"@, seq![Ast::Symbol(var), successor(var)]);
    let args = seq![print, bind];
    let printed = State { globals: state.globals, output: state.output.push(decimal(n)) };
    law_operator_names(args, state, fuel);
    law_operator_names(seq![Ast::Symbol(var)], state, fuel);
    law_operator_names(seq![Ast::Symbol(var), successor(var)], printed, fuel);

    assert(eval_spec(Ast::Symbol(var), state, fuel) == done(ValueView::Integer(n), state));
    assert(render(ValueView::Integer(n)) == decimal(n));
    assert(apply_spec(Operation::Print, seq![Ast::Symbol(var)], state, fuel) == done(
        ValueView::Nil,
        printed,
    ));
    assert(eval_spec(print, state, fuel) == done(ValueView::Nil, printed));

    lemma_successor(var, n, printed, fuel);
    let bind_args = seq![Ast::Symbol(var), successor(var)];
    assert(bind_args[0] == Ast::Symbol(var));
    assert(bind_args[1] == successor(var));
    assert(apply_spec(Operation::Global, bind_args, printed, fuel) == done(
        ValueView::Nil,
        stepped(state, var, n),
    ));
    assert(eval_spec(bind, printed, fuel) == done(ValueView::Nil, stepped(state, var, n)));

    assert(args[0] == print);
    assert(args[1] == bind);
    assert(block_spec(args, 2, ValueView::Nil, stepped(state, var, n), fuel) == done(
        ValueView::Nil,
        stepped(state, var, n),
    ));
    assert(block_spec(args, 1, ValueView::Nil, printed, fuel) == done(
        ValueView::Nil,
        stepped(state, var, n),
    ));
    assert(block_spec(args, 0, ValueView::Nil, state, fuel) == done(
        ValueView::Nil,
        stepped(state, var, n),
    ));
    assert(apply_spec(Operation::Block, args, state, fuel) == done(
        ValueView::Nil,
        stepped(state, var, n),
    ));
}

/// The state after the loop: the variable is the bound, and the numerals
/// from its first value up to the bound are printed.
pub open spec fn counted(state: State, var: Seq<char>, from: int, bound: int) -> State {
    State {
        globals: state.globals.insert(var, ValueView::Integer(bound)),
        output: state.output + numerals(from, bound),
    }
}

/// The loop runs one round for each integer from the variable's value up
/// to the bound.
proof fn lemma_counting(var: Seq<char>, from: int, bound: int, state: State, fuel: nat)
    requires
        holds(state, var, from),
        in_range(from),
        in_range(bound),
        from <= bound,
        fuel >= bound - from,
    ensures
        while_spec(seq![below(var, bound), print_and_step(var)], state, fuel) == done(
            ValueView::Nil,
            counted(state, var, from, bound),
        ),
    decreases bound - from,
{
    let args = seq![below(var, bound), print_and_step(var)];
    lemma_below(var, from, bound, state, fuel);
    assert(args[0] == below(var, bound));
    assert(args[1] == print_and_step(var));
    if from == bound {
        assert(state.globals.insert(var, ValueView::Integer(bound)) =~= state.globals);
        assert(state.output + numerals(from, bound) =~= state.output);
    } else {
        let less = (fuel - 1) as nat;
        let next = stepped(state, var, from);
        lemma_print_and_step(var, from, state, less);
        lemma_counting(var, from + 1, bound, next, less);
        assert(next.globals.insert(var, ValueView::Integer(bound)) =~= state.globals.insert(
            var,
            ValueView::Integer(bound),
        ));
        assert(next.output + numerals(from + 1, bound) =~= state.output + numerals(from, bound));
        assert(counted(next, var, from + 1, bound) == counted(state, var, from, bound));
    }
}

/// The counting loop, started with its variable bound to an integer that
/// does not exceed the bound and with a unit of fuel for each round, ends
/// with the variable bound to the bound, having printed the integers from
/// the first value up to the bound, in order, and yields nil.
pub proof fn law_counting_loop(var: Seq<char>, from: int, bound: int, state: State, fuel: nat)
    requires
        holds(state, var, from),
        in_range(from),
        in_range(bound),
        from <= bound,
        fuel >= bound - from,
    ensures
        eval_spec(counting_loop(var, bound), state, fuel) == done(
            ValueView::Nil,
            counted(state, var, from, bound),
        ),
{
    let args = seq![below(var, bound), print_and_step(var)];
    law_operator_names(args, state, fuel);
    lemma_counting(var, from, bound, state, fuel);
}

} // verus!
