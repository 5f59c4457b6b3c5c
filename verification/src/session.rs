//! What a driver of the interpreter needs: a test for fragments that are
//! still open, a test for blank lines, and evaluation of one fragment.

use vstd::prelude::*;
use crate::context::Context;
use crate::expression::{parse, Expression};
use crate::failure::Failure;
use crate::ops::observed;
use crate::semantics::{eval_spec, failed};
use crate::text::{chars_of, is_whitespace, is_whitespace_char};
use crate::tokenizer::tokens_of;
use crate::value::Value;

verus! {

/// How often `c` occurs in `text`.
pub open spec fn count_of(text: Seq<char>, c: char) -> nat
    decreases text.len(),
{
    if text.len() == 0 {
        0
    } else {
        count_of(text.drop_last(), c) + if text.last() == c {
            1nat
        } else {
            0nat
        }
    }
}

/// Whether every character of `text` is whitespace.
pub open spec fn blank(text: Seq<char>) -> bool {
    forall|i: int| 0 <= i < text.len() ==> is_whitespace(#[trigger] text[i])
}

/// Whether `text` opens more parentheses than it closes, so that the
/// fragment cannot be complete yet.
pub fn awaits_more(text: &str) -> (r: bool)
    ensures
        r == (count_of(text@, '(') > count_of(text@, ')')),
{
    let chars = chars_of(text);
    let mut opened: usize = 0;
    let mut closed: usize = 0;
    let mut i: usize = 0;
    while i < chars.len()
        invariant
            i <= chars.len(),
            opened == count_of(chars@.take(i as int), '('),
            closed == count_of(chars@.take(i as int), ')'),
            opened <= i,
            closed <= i,
        decreases chars.len() - i,
    {
        proof {
            assert(chars@.take(i + 1).drop_last() =~= chars@.take(i as int));
        }
        if chars[i] == '(' {
            opened += 1;
        } else if chars[i] == ')' {
            closed += 1;
        }
        i += 1;
    }
    proof {
        assert(chars@.take(i as int) =~= chars@);
    }
    opened > closed
}

/// Whether `line` holds nothing but whitespace.
pub fn is_blank(line: &str) -> (r: bool)
    ensures
        r == blank(line@),
{
    let chars = chars_of(line);
    let mut i: usize = 0;
    while i < chars.len()
        invariant
            i <= chars.len(),
            chars@ == line@,
            forall|j: int| 0 <= j < i ==> is_whitespace(#[trigger] chars@[j]),
        decreases chars.len() - i,
    {
        if !is_whitespace_char(chars[i]) {
            assert(!is_whitespace(line@[i as int]));
            return false;
        }
        i += 1;
    }
    true
}

/// Parses `text` as one expression and evaluates it in `context`, with the
/// largest amount of fuel. Text that does not parse leaves the context as
/// it was.
pub fn evaluate(text: &str, context: &mut Context) -> (r: Result<Value, Failure>)
    ensures
        observed(r, final(context)@) == (match parse(tokens_of(text@)) {
            Ok(e) => eval_spec(e, old(context)@, u64::MAX as nat),
            Err(f) => failed(f, old(context)@),
        }),
{
    match Expression::from(text) {
        Ok(e) => e.eval(context),
        Err(f) => Err(f),
    }
}

} // verus!
