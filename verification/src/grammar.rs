//! The grammar that the parser accepts, stated by its inverse: how an
//! expression is spelled in tokens.

use vstd::prelude::*;
use crate::expression::{parse, parse_at, parse_list, Ast};
use crate::failure::Failure;
use crate::tokenizer::TokenView;
use crate::value::ValueView;

verus! {

/// Whether tokens can spell `e`: no literal is a string, and the head of
/// every compound is a symbol.
pub open spec fn parseable(e: Ast) -> bool
    decreases e,
{
    match e {
        Ast::Value(v) => !(v is String),
        Ast::Symbol(_) => true,
        Ast::Compound(head, args) => head is Symbol && all_parseable(args),
    }
}

/// Whether tokens can spell each of `args`.
pub open spec fn all_parseable(args: Seq<Ast>) -> bool
    decreases args,
{
    forall|i: int| 0 <= i < args.len() ==> parseable(#[trigger] args[i])
}

/// The tokens that spell `e`: a leaf is one token, a compound is its head
/// and its arguments between parentheses.
pub open spec fn spell(e: Ast) -> Seq<TokenView>
    decreases e, 0nat,
{
    match e {
        Ast::Value(ValueView::Integer(n)) => seq![TokenView::Integer(n)],
        Ast::Value(ValueView::Bool(b)) => seq![TokenView::Bool(b)],
        Ast::Value(ValueView::Nil) => seq![TokenView::Nil],
        Ast::Value(ValueView::String(_)) => Seq::empty(),
        Ast::Symbol(name) => seq![TokenView::Symbol(name)],
        Ast::Compound(head, args) => seq![TokenView::LParen, head] + spell_from(args, 0)
            + seq![TokenView::RParen],
    }
}

/// The tokens that spell the arguments from `i` on, one after the other.
pub open spec fn spell_from(args: Seq<Ast>, i: int) -> Seq<TokenView>
    decreases args, args.len() - i,
{
    if i < 0 || i >= args.len() {
        Seq::empty()
    } else {
        spell(args[i]) + spell_from(args, i + 1)
    }
}

/// A spelling is not empty and does not start with a right parenthesis.
proof fn lemma_spelling_starts(e: Ast)
    requires
        parseable(e),
    ensures
        spell(e).len() > 0,
        !(spell(e)[0] is RParen),
{
}

/// Where the tokens from `pos` on spell `e`, parsing at `pos` yields `e`.
proof fn lemma_parse_spelled(tokens: Seq<TokenView>, pos: int, e: Ast)
    requires
        parseable(e),
        0 <= pos,
        pos + spell(e).len() <= tokens.len(),
        tokens.subrange(pos, pos + spell(e).len()) == spell(e),
    ensures
        parse_at(tokens, pos) == Some((e, pos + spell(e).len())),
    decreases e, 0nat,
{
    let word = spell(e);
    lemma_spelling_starts(e);
    assert(tokens[pos] == tokens.subrange(pos, pos + word.len())[0]);
    match e {
        Ast::Compound(head, args) => {
            let inner = spell_from(args, 0);
            assert(word.len() == inner.len() + 3);
            assert(tokens[pos + 1] == tokens.subrange(pos, pos + word.len())[1]);
            assert(word[1] == head);
            let close = 2 + inner.len() as int;
            assert(tokens[pos + close] == tokens.subrange(pos, pos + word.len())[close]);
            assert(word[close] is RParen);
            assert(tokens.subrange(pos + 2, pos + 2 + inner.len()) =~= inner) by {
                assert forall|k: int| 0 <= k < inner.len() implies tokens[pos + 2 + k]
                    == inner[k] by {
                    assert(tokens[pos + 2 + k] == tokens.subrange(pos, pos + word.len())[2 + k]);
                    assert(word[2 + k] == inner[k]);
                }
            }
            lemma_parse_spelled_list(tokens, pos + 2, args, 0);
            assert(args.skip(0) =~= args);
        },
        _ => {},
    }
}

/// Where the tokens from `pos` on spell the arguments from `i` on and then
/// close the list, parsing the list at `pos` yields those arguments.
proof fn lemma_parse_spelled_list(tokens: Seq<TokenView>, pos: int, args: Seq<Ast>, i: int)
    requires
        all_parseable(args),
        0 <= i <= args.len(),
        0 <= pos,
        pos + spell_from(args, i).len() < tokens.len(),
        tokens.subrange(pos, pos + spell_from(args, i).len()) == spell_from(args, i),
        tokens[pos + spell_from(args, i).len()] is RParen,
    ensures
        parse_list(tokens, pos) == Some((args.skip(i), pos + spell_from(args, i).len() + 1)),
    decreases args, args.len() - i,
{
    let words = spell_from(args, i);
    if i == args.len() {
        assert(args.skip(i) =~= Seq::<Ast>::empty());
    } else {
        let first = spell(args[i]);
        let rest = spell_from(args, i + 1);
        lemma_spelling_starts(args[i]);
        assert(words == first + rest);
        assert(tokens[pos] == tokens.subrange(pos, pos + words.len())[0]);
        assert(words[0] == first[0]);
        assert(tokens.subrange(pos, pos + first.len()) =~= first) by {
            assert forall|k: int| 0 <= k < first.len() implies tokens[pos + k] == first[k] by {
                assert(tokens[pos + k] == tokens.subrange(pos, pos + words.len())[k]);
                assert(words[k] == first[k]);
            }
        }
        lemma_parse_spelled(tokens, pos, args[i]);
        let next = pos + first.len();
        assert(tokens.subrange(next, next + rest.len()) =~= rest) by {
            assert forall|k: int| 0 <= k < rest.len() implies tokens[next + k] == rest[k] by {
                assert(tokens[next + k] == tokens.subrange(pos, pos + words.len())[first.len()
                    + k]);
                assert(words[first.len() + k] == rest[k]);
            }
        }
        lemma_parse_spelled_list(tokens, next, args, i + 1);
        assert(seq![args[i]] + args.skip(i + 1) =~= args.skip(i));
    }
}

/// The spelling of the arguments behind the first does not depend on the
/// first.
proof fn lemma_spell_from_shift(first: Ast, rest: Seq<Ast>, i: int)
    requires
        0 <= i <= rest.len(),
    ensures
        spell_from(seq![first] + rest, i + 1) == spell_from(rest, i),
    decreases rest.len() - i,
{
    let all = seq![first] + rest;
    if i < rest.len() {
        assert(all[i + 1] == rest[i]);
        lemma_spell_from_shift(first, rest, i + 1);
    }
}

/// The tokens that a parsed expression was read from spell it.
proof fn lemma_parsed_spells(tokens: Seq<TokenView>, pos: int)
    ensures
        parse_at(tokens, pos) matches Some((e, next)) ==> {
            &&& parseable(e)
            &&& 0 <= pos < next <= tokens.len()
            &&& tokens.subrange(pos, next) == spell(e)
        },
    decreases tokens.len() - pos, 0nat,
{
    match parse_at(tokens, pos) {
        Some((e, next)) => {
            match tokens[pos] {
                TokenView::LParen => {
                    lemma_parsed_list_spells(tokens, pos + 2);
                    let args = e->Compound_1;
                    assert(tokens.subrange(pos, next) =~= seq![TokenView::LParen, tokens[pos + 1]]
                        + tokens.subrange(pos + 2, next));
                    assert(spell(e) =~= seq![TokenView::LParen, tokens[pos + 1]] + (spell_from(
                        args,
                        0,
                    ) + seq![TokenView::RParen]));
                },
                _ => {
                    assert(tokens.subrange(pos, next) =~= seq![tokens[pos]]);
                },
            }
        },
        None => {},
    }
}

/// The tokens that a parsed list was read from spell its arguments and
/// then close the list.
proof fn lemma_parsed_list_spells(tokens: Seq<TokenView>, pos: int)
    ensures
        parse_list(tokens, pos) matches Some((args, next)) ==> {
            &&& all_parseable(args)
            &&& 0 <= pos < next <= tokens.len()
            &&& tokens.subrange(pos, next) == spell_from(args, 0) + seq![TokenView::RParen]
        },
    decreases tokens.len() - pos, 1nat,
{
    match parse_list(tokens, pos) {
        Some((args, next)) => {
            if tokens[pos] is RParen {
                assert(tokens.subrange(pos, next) =~= seq![TokenView::RParen]);
                assert(spell_from(args, 0) + seq![TokenView::RParen] =~= seq![TokenView::RParen]);
            } else {
                lemma_parsed_spells(tokens, pos);
                let (first, middle) = parse_at(tokens, pos)->0;
                lemma_parsed_list_spells(tokens, middle);
                let (rest, end) = parse_list(tokens, middle)->0;
                assert(args == seq![first] + rest);
                assert(end == next);
                assert forall|i: int| 0 <= i < args.len() implies parseable(#[trigger] args[i]) by {
                    if i > 0 {
                        assert(args[i] == rest[i - 1]);
                    }
                }
                lemma_spell_from_shift(first, rest, 0);
                assert(args[0] == first);
                assert(spell_from(args, 0) == spell(first) + spell_from(rest, 0));
                assert(tokens.subrange(pos, next) =~= tokens.subrange(pos, middle)
                    + tokens.subrange(middle, next));
                assert(spell_from(args, 0) + seq![TokenView::RParen] =~= spell(first) + (
                spell_from(rest, 0) + seq![TokenView::RParen]));
            }
        },
        None => {},
    }
}

/// Parsing inverts spelling: the tokens that spell an expression parse as
/// that expression.
pub proof fn law_parse_inverts_spell(e: Ast)
    requires
        parseable(e),
    ensures
        parse(spell(e)) == Ok::<Ast, Failure>(e),
{
    let tokens = spell(e);
    assert(tokens.subrange(0, tokens.len() as int) =~= tokens);
    lemma_parse_spelled(tokens, 0, e);
}

/// Parsing accepts nothing else: tokens that parse are the spelling of the
/// expression they parse as, which uses every one of them.
pub proof fn law_parsed_tokens_spell(tokens: Seq<TokenView>)
    ensures
        parse(tokens) matches Ok(e) ==> parseable(e) && spell(e) == tokens,
        parse(tokens) is Err ==> parse(tokens) == Err::<Ast, Failure>(Failure::Syntax),
{
    lemma_parsed_spells(tokens, 0);
    match parse(tokens) {
        Ok(e) => {
            assert(tokens.subrange(0, tokens.len() as int) =~= tokens);
        },
        Err(_) => {},
    }
}

} // verus!
