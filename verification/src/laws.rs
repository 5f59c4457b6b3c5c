//! Laws of the language, proved from the definition of evaluation.

use vstd::prelude::*;
use crate::context::State;
use crate::expression::{parse, Ast};
use crate::failure::Failure;
use crate::ops::{operation_named, Operation};
use crate::semantics::{
    apply_spec, as_integer, block_spec, combine, done, eval_spec, failed, fold_spec, in_range,
    magnitude, quotient, remainder,
};
use crate::text::is_whitespace;
use crate::tokenizer::{
    all_digits, classify, digits_value, integer_literal, is_digit, is_paren, is_plain,
    lemma_split_plain_word, split, tokens_of, TokenView,
};
use crate::value::{decimal, decimal_digits, digit_char, render, ValueView};

verus! {

/// Evaluating an integer literal yields that integer and changes nothing.
pub proof fn law_integer_literal(n: int, state: State, fuel: nat)
    ensures
        eval_spec(Ast::Value(ValueView::Integer(n)), state, fuel) == done(
            ValueView::Integer(n),
            state,
        ),
{
}

/// Every operator is reached by its own name, and a compound expression
/// whose head is an operator's name applies that operator.
pub proof fn law_operator_names(args: Seq<Ast>, state: State, fuel: nat)
    ensures
        operation_named("+"@) == Some(Operation::Add),
        operation_named("*"@) == Some(Operation::Mul),
        operation_named("-"@) == Some(Operation::Sub),
        operation_named("/"@) == Some(Operation::Div),
        operation_named("%"@) == Some(Operation::Rem),
        operation_named("="@) == Some(Operation::Eq),
        operation_named("<"@) == Some(Operation::Lt),
        operation_named(">"@) == Some(Operation::Gt),
        operation_named("and"@) == Some(Operation::And),
        operation_named("or"@) == Some(Operation::Or),
        operation_named("not"@) == Some(Operation::Not),
        operation_named("print"@) == Some(Operation::Print),
        operation_named("if"@) == Some(Operation::If),
        operation_named("while"@) == Some(Operation::While),
        operation_named("block"@) == Some(Operation::Block),
        operation_named("global"@) == Some(Operation::Global),
        forall|name: Seq<char>|
            operation_named(name) is Some ==> #[trigger] eval_spec(
                Ast::Compound(TokenView::Symbol(name), args),
                state,
                fuel,
            ) == apply_spec(operation_named(name)->0, args, state, fuel),
        forall|name: Seq<char>|
            operation_named(name) is None ==> #[trigger] eval_spec(
                Ast::Compound(TokenView::Symbol(name), args),
                state,
                fuel,
            ) == failed(Failure::UnknownOperator, state),
{
    reveal_strlit("+");
    reveal_strlit("*");
    reveal_strlit("-");
    reveal_strlit("/");
    reveal_strlit("%");
    reveal_strlit("=");
    reveal_strlit("<");
    reveal_strlit(">");
    reveal_strlit("and");
    reveal_strlit("or");
    reveal_strlit("not");
    reveal_strlit("print");
    reveal_strlit("if");
    reveal_strlit("while");
    reveal_strlit("block");
    reveal_strlit("global");
    assert("+"@[0] == '+');
    assert("*"@[0] == '*');
    assert("-"@[0] == '-');
    assert("/"@[0] == '/');
    assert("%"@[0] == '%');
    assert("="@[0] == '=');
    assert("<"@[0] == '<');
    assert(">"@[0] == '>');
    assert("and"@[0] == 'a');
    assert("or"@[0] == 'o');
    assert("not"@[0] == 'n');
    assert("print"@[0] == 'p');
    assert("if"@[0] == 'i');
    assert("while"@[0] == 'w');
    assert("block"@[0] == 'b');
    assert("global"@[0] == 'g');
}

/// The state in which argument `i` is evaluated when the arguments are
/// evaluated from left to right, starting in `state`.
pub open spec fn state_before(args: Seq<Ast>, i: int, state: State, fuel: nat) -> State
    decreases i,
{
    if i <= 0 {
        state
    } else {
        eval_spec(args[i - 1], state_before(args, i - 1, state, fuel), fuel).state
    }
}

/// The result of argument `i` in that evaluation.
pub open spec fn argument_result(args: Seq<Ast>, i: int, state: State, fuel: nat) -> Result<
    ValueView,
    Failure,
> {
    eval_spec(args[i], state_before(args, i, state, fuel), fuel).result
}

/// Whether `r` is an integer.
pub open spec fn is_integer_result(r: Result<ValueView, Failure>) -> bool {
    r matches Ok(ValueView::Integer(_))
}

/// The sum of the integers that the arguments before `k` evaluate to.
pub open spec fn sum_before(args: Seq<Ast>, k: int, state: State, fuel: nat) -> int
    decreases k,
{
    if k <= 0 {
        0
    } else {
        sum_before(args, k - 1, state, fuel) + (match argument_result(args, k - 1, state, fuel) {
            Ok(ValueView::Integer(n)) => n,
            _ => 0,
        })
    }
}

/// Whether argument `j` evaluates to an integer that the sum so far can
/// take without leaving the integer range.
pub open spec fn adds_at(args: Seq<Ast>, j: int, state: State, fuel: nat) -> bool {
    is_integer_result(argument_result(args, j, state, fuel)) && in_range(
        sum_before(args, j + 1, state, fuel),
    )
}

/// A sum that has reached argument `i` with the sum of the arguments before
/// it goes on to the sum of all arguments, exactly if every argument from
/// `i` on can be added.
proof fn lemma_fold_adds(args: Seq<Ast>, i: int, state: State, fuel: nat)
    requires
        0 <= i <= args.len(),
    ensures
        ({
            let rest = fold_spec(
                Operation::Add,
                args,
                i,
                sum_before(args, i, state, fuel),
                state_before(args, i, state, fuel),
                fuel,
            );
            &&& rest.result is Ok <==> forall|j: int|
                i <= j < args.len() ==> #[trigger] adds_at(args, j, state, fuel)
            &&& rest.result is Ok ==> rest == done(
                ValueView::Integer(sum_before(args, args.len() as int, state, fuel)),
                state_before(args, args.len() as int, state, fuel),
            )
        }),
    decreases args.len() - i,
{
    if i < args.len() {
        let here = state_before(args, i, state, fuel);
        let operand = as_integer(eval_spec(args[i], here, fuel));
        assert(state_before(args, i + 1, state, fuel) == eval_spec(args[i], here, fuel).state);
        lemma_fold_adds(args, i + 1, state, fuel);
        match operand.result {
            Ok(ValueView::Integer(n)) => {
                assert(argument_result(args, i, state, fuel) == Ok::<ValueView, Failure>(
                    ValueView::Integer(n),
                ));
                assert(sum_before(args, i + 1, state, fuel) == sum_before(args, i, state, fuel)
                    + n);
                if !in_range(sum_before(args, i + 1, state, fuel)) {
                    assert(!adds_at(args, i, state, fuel));
                }
            },
            _ => {
                assert(!adds_at(args, i, state, fuel));
            },
        }
    }
}

/// `+` without arguments fails. With arguments it evaluates them from left
/// to right and yields a value exactly if each one is an integer that the
/// sum so far can take; the value is then the sum of all of them.
pub proof fn law_sum(args: Seq<Ast>, state: State, fuel: nat)
    ensures
        args.len() == 0 ==> apply_spec(Operation::Add, args, state, fuel) == failed(
            Failure::Arity,
            state,
        ),
        args.len() > 0 ==> (apply_spec(Operation::Add, args, state, fuel).result is Ok
            <==> forall|j: int| 0 <= j < args.len() ==> #[trigger] adds_at(args, j, state, fuel)),
        apply_spec(Operation::Add, args, state, fuel).result is Ok ==> apply_spec(
            Operation::Add,
            args,
            state,
            fuel,
        ) == done(
            ValueView::Integer(sum_before(args, args.len() as int, state, fuel)),
            state_before(args, args.len() as int, state, fuel),
        ),
{
    if args.len() > 0 {
        lemma_fold_adds(args, 0, state, fuel);
    }
}

/// Division rounds toward zero and the remainder takes the sign of the
/// dividend: the two recompose the dividend, and the remainder is smaller
/// in magnitude than the divisor.
pub proof fn law_division(a: int, b: int)
    requires
        b != 0,
    ensures
        a == quotient(a, b) * b + remainder(a, b),
        magnitude(remainder(a, b)) < magnitude(b),
        a >= 0 ==> remainder(a, b) >= 0,
        a <= 0 ==> remainder(a, b) <= 0,
        magnitude(quotient(a, b)) * magnitude(b) <= magnitude(a),
        in_range(a) && in_range(b) && in_range(quotient(a, b)) ==> combine(Operation::Div, a, b)
            == Ok::<ValueView, Failure>(ValueView::Integer(quotient(a, b))) && combine(
            Operation::Rem,
            a,
            b,
        ) == Ok::<ValueView, Failure>(ValueView::Integer(remainder(a, b))),
{
    let x = magnitude(a) as int;
    let y = magnitude(b) as int;
    let q = x / y;
    let r = x % y;
    vstd::arithmetic::div_mod::lemma_fundamental_div_mod(x, y);
    vstd::arithmetic::div_mod::lemma_mod_bound(x, y);
    vstd::arithmetic::div_mod::lemma_div_pos_is_pos(x, y);
    assert(x == y * q + r);
    assert(a == quotient(a, b) * b + remainder(a, b)) by (nonlinear_arith)
        requires
            x == y * q + r,
            x == (if a < 0 { -a } else { a }),
            y == (if b < 0 { -b } else { b }),
            quotient(a, b) == (if (a < 0) != (b < 0) { -q } else { q }),
            remainder(a, b) == (if a < 0 { -r } else { r }),
    ;
    assert(magnitude(quotient(a, b)) * magnitude(b) <= magnitude(a)) by (nonlinear_arith)
        requires
            x == y * q + r,
            0 <= r,
            0 <= q,
            magnitude(quotient(a, b)) == q,
            magnitude(b) == y,
            magnitude(a) == x,
    ;
}

/// `=` on two operands that evaluate compares their values structurally:
/// the result is always a boolean, and values of different kinds are
/// unequal.
pub proof fn law_equality(left: Ast, right: Ast, state: State, fuel: nat)
    ensures
        ({
            let l = eval_spec(left, state, fuel);
            let r = eval_spec(right, l.state, fuel);
            let whole = apply_spec(Operation::Eq, seq![left, right], state, fuel);
            &&& l.result is Err ==> whole == l
            &&& l.result is Ok && r.result is Err ==> whole == r
            &&& l.result is Ok && r.result is Ok ==> whole == done(
                ValueView::Bool(l.result->Ok_0 == r.result->Ok_0),
                r.state,
            )
        }),
        forall|n: int, s: Seq<char>| ValueView::Integer(n) != ValueView::String(s),
        forall|n: int, b: bool| ValueView::Integer(n) != ValueView::Bool(b),
        forall|s: Seq<char>, b: bool| ValueView::String(s) != ValueView::Bool(b),
        forall|n: int| ValueView::Integer(n) != ValueView::Nil,
        forall|b: bool| ValueView::Bool(b) != ValueView::Nil,
        forall|s: Seq<char>| ValueView::String(s) != ValueView::Nil,
{
}

/// `and` and `or` evaluate their second operand whatever the first one
/// yields: once the first is a boolean, the state after the whole is the
/// state after the second operand.
pub proof fn law_both_operands(op: Operation, left: Ast, right: Ast, state: State, fuel: nat)
    requires
        op is And || op is Or,
    ensures
        ({
            let l = eval_spec(left, state, fuel);
            let r = eval_spec(right, l.state, fuel);
            let whole = apply_spec(op, seq![left, right], state, fuel);
            l.result matches Ok(ValueView::Bool(a)) ==> {
                &&& whole.state == r.state
                &&& r.result matches Ok(ValueView::Bool(b)) ==> whole.result == Ok::<
                    ValueView,
                    Failure,
                >(ValueView::Bool(if op is And { a && b } else { a || b }))
                &&& (r.result is Ok && !(r.result->Ok_0 is Bool)) ==> whole.result == Err::<
                    ValueView,
                    Failure,
                >(Failure::Kind)
                &&& r.result is Err ==> whole.result == r.result
            }
        }),
{
}

/// `if` evaluates its condition and then exactly one branch: the outcome
/// of the whole is the outcome of the branch taken, in the state that the
/// condition left.
pub proof fn law_if_takes_one_branch(
    condition: Ast,
    then: Ast,
    otherwise: Ast,
    state: State,
    fuel: nat,
)
    ensures
        ({
            let c = eval_spec(condition, state, fuel);
            let three = apply_spec(Operation::If, seq![condition, then, otherwise], state, fuel);
            let two = apply_spec(Operation::If, seq![condition, then], state, fuel);
            &&& c.result == Ok::<ValueView, Failure>(ValueView::Bool(true)) ==> three == eval_spec(
                then,
                c.state,
                fuel,
            ) && two == three
            &&& c.result == Ok::<ValueView, Failure>(ValueView::Bool(false)) ==> three
                == eval_spec(otherwise, c.state, fuel) && two == done(ValueView::Nil, c.state)
        }),
{
}

/// A block with one more argument runs the shorter block and then the new
/// argument.
proof fn lemma_block_extends(
    args: Seq<Ast>,
    e: Ast,
    i: int,
    last: ValueView,
    state: State,
    fuel: nat,
)
    requires
        0 <= i <= args.len(),
    ensures
        ({
            let before = block_spec(args, i, last, state, fuel);
            block_spec(args.push(e), i, last, state, fuel) == (if before.result is Ok {
                eval_spec(e, before.state, fuel)
            } else {
                before
            })
        }),
    decreases args.len() - i,
{
    let longer = args.push(e);
    if i < args.len() {
        assert(longer[i] == args[i]);
        let step = eval_spec(args[i], state, fuel);
        match step.result {
            Ok(v) => lemma_block_extends(args, e, i + 1, v, step.state, fuel),
            Err(_) => {},
        }
    } else {
        assert(longer[i] == e);
        let step = eval_spec(e, state, fuel);
        match step.result {
            Ok(v) => {
                assert(block_spec(longer, i + 1, v, step.state, fuel) == done(v, step.state));
            },
            Err(_) => {},
        }
    }
}

/// An empty `block` yields nil. A `block` with one more argument evaluates
/// the shorter block first, keeps its effects, and yields the value of the
/// last argument.
pub proof fn law_block(args: Seq<Ast>, e: Ast, state: State, fuel: nat)
    ensures
        apply_spec(Operation::Block, Seq::empty(), state, fuel) == done(ValueView::Nil, state),
        ({
            let before = apply_spec(Operation::Block, args, state, fuel);
            apply_spec(Operation::Block, args.push(e), state, fuel) == (if before.result is Ok {
                eval_spec(e, before.state, fuel)
            } else {
                before
            })
        }),
{
    lemma_block_extends(args, e, 0, ValueView::Nil, state, fuel);
}

/// `global` binds the name to the value of its second argument and yields
/// nil. The binding replaces an earlier one, and any later evaluation that
/// starts from the state left behind reads it.
pub proof fn law_global_binds(name: Seq<char>, e: Ast, state: State, fuel: nat, later: nat)
    ensures
        ({
            let bound = eval_spec(e, state, fuel);
            let whole = apply_spec(Operation::Global, seq![Ast::Symbol(name), e], state, fuel);
            &&& bound.result is Err ==> whole == bound
            &&& bound.result matches Ok(v) ==> {
                &&& whole.result == Ok::<ValueView, Failure>(ValueView::Nil)
                &&& whole.state.globals == bound.state.globals.insert(name, v)
                &&& whole.state.output == bound.state.output
                &&& eval_spec(Ast::Symbol(name), whole.state, later) == done(v, whole.state)
            }
        }),
{
}

/// A second `global` for the same name overwrites the first: the name is
/// then bound to the second value, and every other name is bound as the
/// second evaluation left it.
pub proof fn law_global_overwrites(
    name: Seq<char>,
    first: Ast,
    second: Ast,
    state: State,
    fuel: nat,
)
    ensures
        ({
            let one = apply_spec(Operation::Global, seq![Ast::Symbol(name), first], state, fuel);
            let value = eval_spec(second, one.state, fuel);
            let two = apply_spec(
                Operation::Global,
                seq![Ast::Symbol(name), second],
                one.state,
                fuel,
            );
            one.result is Ok && value.result is Ok ==> {
                &&& two.result == Ok::<ValueView, Failure>(ValueView::Nil)
                &&& two.state.globals.contains_key(name)
                &&& two.state.globals[name] == value.result->Ok_0
                &&& forall|other: Seq<char>|
                    other != name ==> two.state.globals.contains_key(other)
                        == value.state.globals.contains_key(other) && (
                    value.state.globals.contains_key(other) ==> #[trigger] two.state.globals[other]
                        == value.state.globals[other])
            }
        }),
{
}

/// A symbol without a binding cannot be evaluated.
pub proof fn law_unbound_symbol(name: Seq<char>, state: State, fuel: nat)
    requires
        !state.globals.contains_key(name),
    ensures
        eval_spec(Ast::Symbol(name), state, fuel) == failed(Failure::UnboundSymbol, state),
{
}

/// The decimal digits of a number are digits, and they denote the number.
pub proof fn lemma_decimal_digits(m: nat)
    ensures
        decimal_digits(m).len() > 0,
        all_digits(decimal_digits(m)),
        digits_value(decimal_digits(m)) == m,
    decreases m,
{
    let s = decimal_digits(m);
    if m < 10 {
        assert(s.drop_last() =~= Seq::<char>::empty());
        assert(s.last() == digit_char(m as int));
        assert(digits_value(s.drop_last()) == 0);
    } else {
        lemma_decimal_digits(m / 10);
        let front = decimal_digits(m / 10);
        assert(s.drop_last() =~= front);
        assert(s.last() == digit_char((m % 10) as int));
        assert forall|i: int| 0 <= i < s.len() implies is_digit(#[trigger] s[i]) by {
            if i < front.len() {
                assert(s[i] == front[i]);
            }
        }
    }
}

/// The decimal form of a 32-bit integer reads back as that integer.
pub proof fn lemma_decimal_reads_back(n: int)
    requires
        in_range(n),
    ensures
        decimal(n).len() > 0,
        is_plain(decimal(n)),
        is_digit(decimal(n)[0]) || decimal(n)[0] == '-',
        integer_literal(decimal(n)) == Some(n),
{
    let s = decimal(n);
    if n < 0 {
        let digits = decimal_digits((-n) as nat);
        lemma_decimal_digits((-n) as nat);
        assert(s.skip(1) =~= digits);
        assert(s[0] == '-');
        assert forall|i: int| 0 <= i < s.len() implies !is_whitespace(#[trigger] s[i])
            && !is_paren(s[i]) by {
            if i > 0 {
                assert(s[i] == digits[i - 1]);
                assert(is_digit(digits[i - 1]));
            }
        }
    } else {
        lemma_decimal_digits(n as nat);
        assert(is_digit(s[0]));
        assert forall|i: int| 0 <= i < s.len() implies !is_whitespace(#[trigger] s[i])
            && !is_paren(s[i]) by {
            assert(is_digit(s[i]));
        }
    }
}

/// The token that the printed form of a literal value is read as.
pub open spec fn literal_token(v: ValueView) -> TokenView {
    match v {
        ValueView::Integer(n) => TokenView::Integer(n),
        ValueView::Bool(b) => TokenView::Bool(b),
        ValueView::String(s) => TokenView::Symbol(s),
        ValueView::Nil => TokenView::Nil,
    }
}

/// The printed form of an integer, a boolean or nil is a single token, and
/// that token parses as the literal itself: printing what was read gives
/// the same text again.
pub proof fn law_literal_round_trip(v: ValueView)
    requires
        !(v is String),
        v is Integer ==> in_range(v->Integer_0),
    ensures
        tokens_of(render(v)) == seq![literal_token(v)],
        parse(tokens_of(render(v))) == Ok::<Ast, Failure>(Ast::Value(v)),
        forall|state: State, fuel: nat|
            render(#[trigger] eval_spec(Ast::Value(v), state, fuel).result->Ok_0) == render(v),
{
    let text = render(v);
    reveal_strlit("(");
    reveal_strlit(")");
    reveal_strlit("true");
    reveal_strlit("false");
    reveal_strlit("nil");
    assert("("@[0] == '(');
    assert(")"@[0] == ')');
    assert("true"@[0] == 't' && "true"@[1] == 'r' && "true"@[2] == 'u' && "true"@[3] == 'e');
    assert("false"@[0] == 'f' && "false"@[1] == 'a' && "false"@[2] == 'l' && "false"@[3]
        == 's' && "false"@[4] == 'e');
    assert("nil"@[0] == 'n' && "nil"@[1] == 'i' && "nil"@[2] == 'l');
    match v {
        ValueView::Integer(n) => {
            lemma_decimal_reads_back(n);
        },
        _ => {},
    }
    assert(is_plain(text));
    assert(text.len() > 0);
    lemma_split_plain_word(text, Seq::empty());
    assert(Seq::<char>::empty() + text =~= text);
    assert(split(text) == seq![text]);
    assert(classify(text) == literal_token(v));
    assert(tokens_of(text) =~= seq![literal_token(v)]);
}

} // verus!
