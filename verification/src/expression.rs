//! Expression trees: their model, how tokens are parsed into them, and how
//! they are evaluated.

use vstd::prelude::*;
use vstd::string::*;
use crate::context::Context;
use crate::failure::Failure;
use crate::ops::{get_op, observed};
use crate::semantics::eval_spec;
use crate::tokenizer::{token_views, tokenize, tokens_of, Token, TokenView};
use crate::value::{Value, ValueView};

verus! {

/// The mathematical model of an [`Expression`].
pub enum Ast {
    /// A literal.
    Value(ValueView),
    /// A reference to a global by name.
    Symbol(Seq<char>),
    /// A head token applied to arguments that are not evaluated yet.
    Compound(TokenView, Seq<Ast>),
}

/// A parsed expression.
#[derive(Debug)]
pub enum Expression {
    Value(Value),
    Symbol(String),
    Expression(Token, Vec<Expression>),
}

impl View for Expression {
    type V = Ast;

    open spec fn view(&self) -> Ast
        decreases self,
    {
        match self {
            Expression::Value(v) => Ast::Value(v@),
            Expression::Symbol(name) => Ast::Symbol(name@),
            Expression::Expression(head, args) => Ast::Compound(
                head@,
                Seq::new(
                    args@.len(),
                    |i: int|
                        if 0 <= i < args@.len() {
                            args@[i]@
                        } else {
                            Ast::Value(ValueView::Nil)
                        },
                ),
            ),
        }
    }
}

/// The models of a sequence of expressions.
pub open spec fn asts(expressions: Seq<Expression>) -> Seq<Ast> {
    expressions.map_values(|e: Expression| e@)
}

/// The model of a compound expression is its head's model applied to its
/// arguments' models.
pub proof fn lemma_compound_view(e: Expression)
    requires
        e is Expression,
    ensures
        e@ == Ast::Compound(e->Expression_0@, asts(e->Expression_1@)),
{
    assert(e@->Compound_1 =~= asts(e->Expression_1@));
}

/// Whether two expressions have the same model.
fn same_expression(a: &Expression, b: &Expression) -> (r: bool)
    ensures
        r == (a@ == b@),
    decreases a@, 0nat,
{
    match (a, b) {
        (Expression::Value(x), Expression::Value(y)) => *x == *y,
        (Expression::Symbol(x), Expression::Symbol(y)) => *x == *y,
        (Expression::Expression(head_a, args_a), Expression::Expression(head_b, args_b)) => {
            proof {
                lemma_compound_view(*a);
                lemma_compound_view(*b);
                assert(a@ == Ast::Compound(head_a@, asts(args_a@)));
                assert(b@ == Ast::Compound(head_b@, asts(args_b@)));
                assert(a@->Compound_1 == asts(args_a@));
                assert(decreases_to!(a@ => a@->Compound_1));
            }
            if *head_a == *head_b {
                same_expressions(args_a.as_slice(), args_b.as_slice())
            } else {
                false
            }
        },
        _ => false,
    }
}

/// Whether two lists of expressions have the same models.
fn same_expressions(a: &[Expression], b: &[Expression]) -> (r: bool)
    ensures
        r == (asts(a@) == asts(b@)),
    decreases asts(a@), a@.len(),
{
    if a.len() != b.len() {
        proof {
            assert(asts(a@).len() != asts(b@).len());
        }
        return false;
    }
    let mut i: usize = 0;
    while i < a.len()
        invariant
            a@.len() == b@.len(),
            i <= a@.len(),
            forall|j: int| 0 <= j < i ==> (#[trigger] a@[j])@ == b@[j]@,
        decreases a@.len() - i,
    {
        proof {
            assert(asts(a@)[i as int] == a@[i as int]@);
            assert(asts(b@)[i as int] == b@[i as int]@);
        }
        if !same_expression(&a[i], &b[i]) {
            return false;
        }
        i += 1;
    }
    proof {
        assert(asts(a@) =~= asts(b@));
    }
    true
}

impl PartialEq for Expression {
    fn eq(&self, other: &Expression) -> (r: bool) {
        same_expression(self, other)
    }
}

impl vstd::std_specs::cmp::PartialEqSpecImpl for Expression {
    open spec fn obeys_eq_spec() -> bool {
        true
    }

    open spec fn eq_spec(&self, other: &Expression) -> bool {
        self@ == other@
    }
}

/// The expression that starts at `pos`, with the position just behind it.
///
/// A literal or symbol token is a leaf. A left parenthesis must be followed
/// by a symbol, the head, and then by arguments up to the matching right
/// parenthesis.
pub open spec fn parse_at(tokens: Seq<TokenView>, pos: int) -> Option<(Ast, int)>
    decreases tokens.len() - pos, 0nat,
{
    if pos < 0 || pos >= tokens.len() {
        None
    } else {
        match tokens[pos] {
            TokenView::Nil => Some((Ast::Value(ValueView::Nil), pos + 1)),
            TokenView::Integer(n) => Some((Ast::Value(ValueView::Integer(n)), pos + 1)),
            TokenView::Bool(b) => Some((Ast::Value(ValueView::Bool(b)), pos + 1)),
            TokenView::Symbol(name) => Some((Ast::Symbol(name), pos + 1)),
            TokenView::RParen => None,
            TokenView::LParen => {
                if pos + 1 < tokens.len() && tokens[pos + 1] is Symbol {
                    match parse_list(tokens, pos + 2) {
                        Some((args, next)) => Some((Ast::Compound(tokens[pos + 1], args), next)),
                        None => None,
                    }
                } else {
                    None
                }
            },
        }
    }
}

/// The expressions from `pos` up to the right parenthesis that closes the
/// list, with the position just behind that parenthesis.
pub open spec fn parse_list(tokens: Seq<TokenView>, pos: int) -> Option<(Seq<Ast>, int)>
    decreases tokens.len() - pos, 1nat,
{
    if pos < 0 || pos >= tokens.len() {
        None
    } else if tokens[pos] is RParen {
        Some((Seq::empty(), pos + 1))
    } else {
        match parse_at(tokens, pos) {
            Some((first, next)) => {
                if pos < next <= tokens.len() {
                    match parse_list(tokens, next) {
                        Some((rest, end)) => Some((seq![first] + rest, end)),
                        None => None,
                    }
                } else {
                    None
                }
            },
            None => None,
        }
    }
}

/// The one expression that the whole of `tokens` spells.
pub open spec fn parse(tokens: Seq<TokenView>) -> Result<Ast, Failure> {
    match parse_at(tokens, 0) {
        Some((e, next)) => if next == tokens.len() {
            Ok(e)
        } else {
            Err(Failure::Syntax)
        },
        None => Err(Failure::Syntax),
    }
}

/// The model of a parser's result.
pub open spec fn parsed(r: Result<Expression, Failure>) -> Result<Ast, Failure> {
    match r {
        Ok(e) => Ok(e@),
        Err(f) => Err(f),
    }
}

/// Parses the expression that starts at `pos`.
fn parse_expression(tokens: &[Token], pos: usize) -> (r: Option<(Expression, usize)>)
    ensures
        match r {
            Some((e, next)) => parse_at(token_views(tokens@), pos as int) == Some((e@, next as int))
                && pos < next <= tokens@.len(),
            None => parse_at(token_views(tokens@), pos as int) is None,
        },
    decreases tokens@.len() - pos,
{
    let ghost models = token_views(tokens@);
    if pos >= tokens.len() {
        return None;
    }
    proof {
        assert(models[pos as int] == tokens@[pos as int]@);
    }
    match &tokens[pos] {
        Token::Nil => Some((Expression::Value(Value::Nil), pos + 1)),
        Token::Integer(n) => Some((Expression::Value(Value::Integer(*n)), pos + 1)),
        Token::Bool(b) => Some((Expression::Value(Value::Bool(*b)), pos + 1)),
        Token::Symbol(name) => Some((Expression::Symbol(name.clone()), pos + 1)),
        Token::RParen => None,
        Token::LParen => {
            if pos + 1 >= tokens.len() {
                return None;
            }
            proof {
                assert(models[pos + 1] == tokens@[pos + 1]@);
            }
            let head = match &tokens[pos + 1] {
                Token::Symbol(_) => tokens[pos + 1].clone(),
                _ => {
                    return None;
                },
            };
            let mut args: Vec<Expression> = Vec::new();
            let mut cursor: usize = pos + 2;
            proof {
                assert(asts(args@) =~= Seq::empty());
                match parse_list(models, cursor as int) {
                    Some((rest, end)) => {
                        assert(asts(args@) + rest =~= rest);
                    },
                    None => {},
                }
            }
            loop
                invariant
                    models == token_views(tokens@),
                    pos + 2 <= cursor <= tokens@.len(),
                    head@ == models[pos + 1],
                    models[pos as int] is LParen,
                    models[pos + 1] is Symbol,
                    match parse_list(models, cursor as int) {
                        Some((rest, end)) => parse_list(models, pos + 2) == Some(
                            (asts(args@) + rest, end),
                        ),
                        None => parse_list(models, pos + 2) is None,
                    },
                decreases tokens@.len() - cursor,
            {
                if cursor >= tokens.len() {
                    return None;
                }
                proof {
                    assert(models[cursor as int] == tokens@[cursor as int]@);
                }
                if let Token::RParen = &tokens[cursor] {
                    let e = Expression::Expression(head, args);
                    proof {
                        lemma_compound_view(e);
                        assert(asts(args@) + Seq::<Ast>::empty() =~= asts(args@));
                    }
                    return Some((e, cursor + 1));
                }
                match parse_expression(tokens, cursor) {
                    None => {
                        return None;
                    },
                    Some((e, next)) => {
                        proof {
                            match parse_list(models, next as int) {
                                Some((rest, end)) => {
                                    assert(asts(args@.push(e)) + rest =~= asts(args@) + (seq![e@]
                                        + rest));
                                },
                                None => {},
                            }
                        }
                        args.push(e);
                        cursor = next;
                    },
                }
            }
        },
    }
}

impl Expression {
    /// Parses the whole of `tokens` as one expression.
    pub fn from_tokens(tokens: &[Token]) -> (r: Result<Expression, Failure>)
        ensures
            parsed(r) == parse(token_views(tokens@)),
    {
        match parse_expression(tokens, 0) {
            Some((e, next)) => {
                if next == tokens.len() {
                    Ok(e)
                } else {
                    Err(Failure::Syntax)
                }
            },
            None => Err(Failure::Syntax),
        }
    }

    /// Splits `text` into tokens and parses them as one expression.
    pub fn from(text: &str) -> (r: Result<Expression, Failure>)
        ensures
            parsed(r) == parse(tokens_of(text@)),
    {
        let tokens = tokenize(text);
        Expression::from_tokens(tokens.as_slice())
    }

    /// Evaluates the expression, with the largest amount of fuel.
    pub fn eval(&self, context: &mut Context) -> (r: Result<Value, Failure>)
        ensures
            observed(r, final(context)@) == eval_spec(self@, old(context)@, u64::MAX as nat),
    {
        self.eval_bounded(context, u64::MAX)
    }

    /// Evaluates the expression. A `while` may run `fuel` rounds.
    pub fn eval_bounded(&self, context: &mut Context, fuel: u64) -> (r: Result<Value, Failure>)
        ensures
            observed(r, final(context)@) == eval_spec(self@, old(context)@, fuel as nat),
        decreases fuel, self@, 0nat,
    {
        match self {
            Expression::Value(v) => Ok(v.clone()),
            Expression::Symbol(name) => match context.globals.get(name.as_str()) {
                Some(v) => Ok(v.clone()),
                None => Err(Failure::UnboundSymbol),
            },
            Expression::Expression(head, args) => {
                proof {
                    lemma_compound_view(*self);
                }
                match head {
                    Token::Symbol(name) => match get_op(name.as_str()) {
                        Some(op) => op.eval_bounded(args.as_slice(), context, fuel),
                        None => Err(Failure::UnknownOperator),
                    },
                    _ => Err(Failure::UnknownOperator),
                }
            },
        }
    }
}

} // verus!
